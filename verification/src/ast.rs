//! The abstract syntax tree of the SysY language, as the parser hands
//! it over and as semantic analysis rewrites it.  Expression nodes
//! evaluated to a constant are replaced by plain numbers.

use vstd::prelude::*;

verus! {

/// A whole translation unit.
#[derive(Debug)]
pub struct Program(pub Vec<CompUnit>);

#[derive(Debug)]
pub enum CompUnit {
    VarDecl(VarDecl),
    FuncDef(FuncDef),
}

/// A variable declaration, global or local, possibly constant.
#[derive(Debug)]
pub struct VarDecl {
    pub is_global: bool,
    pub is_const: bool,
    pub btype: BType,
    pub var_defs: Vec<VarDef>,
}

#[derive(Debug, Clone, Copy, PartialEq, Eq, Structural)]
pub enum BType {
    Int,
    Void,
}

#[derive(Debug)]
pub enum VarDef {
    Scalar(String, Option<Exp>),
    Array(String, Vec<Exp>, Option<InitList>),
}

#[derive(Debug)]
pub enum InitList {
    Exp(Exp),
    List(Vec<InitList>),
    Flat(Vec<Exp>),
}

/// A function definition: return type, name, parameters, body.
#[derive(Debug)]
pub struct FuncDef(pub BType, pub String, pub Vec<FuncFParam>, pub Block);

#[derive(Debug)]
pub enum FuncFParam {
    Scalar(BType, String),
    Array(BType, String, Vec<Exp>),
}

#[derive(Debug)]
pub struct Block(pub Vec<BlockItem>);

#[derive(Debug)]
pub enum BlockItem {
    VarDecl(VarDecl),
    Stmt(Stmt),
}

#[derive(Debug)]
pub enum Stmt {
    Assign(LVal, Exp),
    Empty,
    Exp(Exp),
    Block(Block),
    If(Exp, Box<Stmt>, Option<Box<Stmt>>),
    While(Exp, Box<Stmt>),
    Break,
    Continue,
    Return(Option<Exp>),
}

/// An expression: a full operator tree, or the number it folded to.
#[derive(Debug)]
pub enum Exp {
    LOrExp(LOrExp),
    Number(Number),
}

impl Exp {
    /// An expression holding a plain number.
    pub fn from_number(value: i32) -> (e: Self)
        ensures
            e == Exp::Number(Number(value)),
    {
        Exp::Number(Number(value))
    }

    /// Replaces the expression by the number it evaluated to.
    pub fn set_value(&mut self, value: i32)
        ensures
            *final(self) == Exp::Number(Number(value)),
    {
        *self = Exp::Number(Number(value));
    }

    /// The number an evaluated expression holds.
    pub fn value(&self) -> (v: i32)
        requires
            self matches Exp::Number(n),
        ensures
            *self == Exp::Number(Number(v)),
    {
        match self {
            Exp::Number(Number(value)) => *value,
            _ => 0,
        }
    }
}

#[derive(Debug)]
pub enum LVal {
    Ident(String),
    ArrayElem(String, Vec<Exp>),
}

#[derive(Debug)]
pub enum PrimaryExp {
    BracketedExp(Box<Exp>),
    Number(Number),
    LVal(LVal),
}

#[derive(Debug, Clone, Copy, PartialEq, Eq, Structural)]
pub struct Number(pub i32);

#[derive(Debug)]
pub enum UnaryExp {
    Primary(Box<PrimaryExp>),
    FuncCall(String, Vec<Exp>),
    OpUnary(UnaryOp, Box<UnaryExp>),
}

#[derive(Debug, Clone, Copy, PartialEq, Eq, Structural)]
pub enum UnaryOp {
    Plus,
    Minus,
    Not,
}

#[derive(Debug)]
pub enum MulExp {
    Unary(Box<UnaryExp>),
    MulOpUnary(Box<MulExp>, MulOp, Box<UnaryExp>),
}

#[derive(Debug, Clone, Copy, PartialEq, Eq, Structural)]
pub enum MulOp {
    Mul,
    Div,
    Rem,
}

#[derive(Debug)]
pub enum AddExp {
    Mul(Box<MulExp>),
    AddOpMul(Box<AddExp>, AddOp, Box<MulExp>),
}

#[derive(Debug, Clone, Copy, PartialEq, Eq, Structural)]
pub enum AddOp {
    Add,
    Sub,
}

#[derive(Debug)]
pub enum RelExp {
    Add(Box<AddExp>),
    RelOpAdd(Box<RelExp>, RelOp, Box<AddExp>),
}

#[derive(Debug, Clone, Copy, PartialEq, Eq, Structural)]
pub enum RelOp {
    Le,
    Lt,
    Ge,
    Gt,
}

#[derive(Debug)]
pub enum EqExp {
    Rel(Box<RelExp>),
    EqOpRel(Box<EqExp>, EqOp, Box<RelExp>),
}

#[derive(Debug, Clone, Copy, PartialEq, Eq, Structural)]
pub enum EqOp {
    Eq,
    Ne,
}

#[derive(Debug)]
pub enum LAndExp {
    Eq(Box<EqExp>),
    LAndEq(Box<LAndExp>, Box<EqExp>),
}

#[derive(Debug)]
pub enum LOrExp {
    LAnd(Box<LAndExp>),
    LOrLAnd(Box<LOrExp>, Box<LAndExp>),
}

} // verus!
