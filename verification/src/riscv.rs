//! RISC-V data types: the in-memory form of the emitted program.
//!
//! A register is kept as an index into the fixed table of 32 names, so
//! that the binding logic can treat registers as data; the name table
//! lives in `reg_name`.

use vstd::prelude::*;

verus! {

/// A physical register, as an index into the fixed 32-entry name table.
pub type Reg = u8;

pub const X0: Reg = 0;
pub const RA: Reg = 1;
pub const SP: Reg = 2;
pub const GP: Reg = 3;
pub const TP: Reg = 4;
pub const T0: Reg = 5;
pub const T1: Reg = 6;
pub const T2: Reg = 7;
pub const FP: Reg = 8;
pub const S1: Reg = 9;
pub const A0: Reg = 10;
pub const A1: Reg = 11;
pub const A2: Reg = 12;
pub const A3: Reg = 13;
pub const A4: Reg = 14;
pub const A5: Reg = 15;
pub const A6: Reg = 16;
pub const A7: Reg = 17;
pub const S2: Reg = 18;
pub const S3: Reg = 19;
pub const S4: Reg = 20;
pub const S5: Reg = 21;
pub const S6: Reg = 22;
pub const S7: Reg = 23;
pub const S8: Reg = 24;
pub const S9: Reg = 25;
pub const S10: Reg = 26;
pub const S11: Reg = 27;
pub const T3: Reg = 28;
pub const T4: Reg = 29;
pub const T5: Reg = 30;
pub const T6: Reg = 31;

/// Number of registers in the table.
pub const REG_NUM: usize = 32;

/// The assembly name of each register in the fixed table.
pub open spec fn spec_reg_name(r: Reg) -> Seq<char> {
    match r {
        0u8 => "x0"@,
        1u8 => "ra"@,
        2u8 => "sp"@,
        3u8 => "gp"@,
        4u8 => "tp"@,
        5u8 => "t0"@,
        6u8 => "t1"@,
        7u8 => "t2"@,
        8u8 => "fp"@,
        9u8 => "s1"@,
        10u8 => "a0"@,
        11u8 => "a1"@,
        12u8 => "a2"@,
        13u8 => "a3"@,
        14u8 => "a4"@,
        15u8 => "a5"@,
        16u8 => "a6"@,
        17u8 => "a7"@,
        18u8 => "s2"@,
        19u8 => "s3"@,
        20u8 => "s4"@,
        21u8 => "s5"@,
        22u8 => "s6"@,
        23u8 => "s7"@,
        24u8 => "s8"@,
        25u8 => "s9"@,
        26u8 => "s10"@,
        27u8 => "s11"@,
        28u8 => "t3"@,
        29u8 => "t4"@,
        30u8 => "t5"@,
        31u8 => "t6"@,
        _ => ""@,
    }
}

/// Converts a register index to its assembly name; indices outside
/// the table have no name.
pub fn reg_name(r: Reg) -> (name: &'static str)
    ensures
        name@ == spec_reg_name(r),
{
    match r {
        0u8 => "x0",
        1u8 => "ra",
        2u8 => "sp",
        3u8 => "gp",
        4u8 => "tp",
        5u8 => "t0",
        6u8 => "t1",
        7u8 => "t2",
        8u8 => "fp",
        9u8 => "s1",
        10u8 => "a0",
        11u8 => "a1",
        12u8 => "a2",
        13u8 => "a3",
        14u8 => "a4",
        15u8 => "a5",
        16u8 => "a6",
        17u8 => "a7",
        18u8 => "s2",
        19u8 => "s3",
        20u8 => "s4",
        21u8 => "s5",
        22u8 => "s6",
        23u8 => "s7",
        24u8 => "s8",
        25u8 => "s9",
        26u8 => "s10",
        27u8 => "s11",
        28u8 => "t3",
        29u8 => "t4",
        30u8 => "t5",
        31u8 => "t6",
        _ => "",
    }
}

/// One word of a global definition's initializer: a literal word or a
/// run of zero bytes.
#[derive(Debug, Clone)]
pub enum MemFill {
    Word(i32),
    Zero(usize),
}

/// A global variable definition: a label and its initializer.
#[derive(Debug, Clone)]
pub struct GlobalDef {
    pub name: String,
    pub init: Vec<MemFill>,
}

/// One RISC-V instruction, one arm per opcode the backend emits.
#[derive(Debug, Clone)]
pub enum Inst {
    Beqz { rs: Reg, label: String },
    Bnez { rs: Reg, label: String },
    J { label: String },
    Call { label: String },
    Ret,
    Lw { rd: Reg, imm12: i32, rs: Reg },
    Sw { rs: Reg, imm12: i32, rd: Reg },
    Add { rd: Reg, rs1: Reg, rs2: Reg },
    Addi { rd: Reg, rs: Reg, imm12: i32 },
    Sub { rd: Reg, rs1: Reg, rs2: Reg },
    Slt { rd: Reg, rs1: Reg, rs2: Reg },
    Sgt { rd: Reg, rs1: Reg, rs2: Reg },
    Seqz { rd: Reg, rs: Reg },
    Snez { rd: Reg, rs: Reg },
    Xor { rd: Reg, rs1: Reg, rs2: Reg },
    Xori { rd: Reg, rs: Reg, imm12: i32 },
    Or { rd: Reg, rs1: Reg, rs2: Reg },
    Ori { rd: Reg, rs: Reg, imm12: i32 },
    And { rd: Reg, rs1: Reg, rs2: Reg },
    Andi { rd: Reg, rs: Reg, imm12: i32 },
    Sll { rd: Reg, rs1: Reg, rs2: Reg },
    Srl { rd: Reg, rs: Reg, rs2: Reg },
    Sra { rd: Reg, rs: Reg, rs2: Reg },
    Mul { rd: Reg, rs1: Reg, rs2: Reg },
    Div { rd: Reg, rs1: Reg, rs2: Reg },
    Rem { rd: Reg, rs1: Reg, rs2: Reg },
    Li { rd: Reg, imm: i32 },
    La { rd: Reg, label: String },
    Mv { rd: Reg, rs: Reg },
}

/// A block of straight-line instructions under one label.
#[derive(Debug, Clone)]
pub struct Block {
    pub name: String,
    pub insts: Vec<Inst>,
}

/// A function: a name and its blocks in layout order.
#[derive(Debug, Clone)]
pub struct Func {
    pub name: String,
    pub blocks: Vec<Block>,
}

/// A whole program: global definitions, then functions.
#[derive(Debug, Clone)]
pub struct Program {
    pub global_defs: Vec<GlobalDef>,
    pub funcs: Vec<Func>,
}

impl Program {
    /// Creates an empty program.
    pub fn new() -> (prog: Self)
        ensures
            prog.global_defs@ == Seq::<GlobalDef>::empty(),
            prog.funcs@ == Seq::<Func>::empty(),
    {
        Self { global_defs: Vec::new(), funcs: Vec::new() }
    }
}

/// True when a store to or a load from this register would change or
/// read machine state that the allocator must not hand out: the zero
/// register, the return address, the stack and global pointers, the
/// thread pointer, the reserved scratch register `t0`, and the frame
/// pointer.
pub open spec fn spec_reserved(r: Reg) -> bool {
    r == X0 || r == RA || r == SP || r == GP || r == TP || r == T0 || r == FP
}

/// Registers the pool may bind to a value.
pub open spec fn spec_allocatable(r: Reg) -> bool {
    r < 32 && !spec_reserved(r)
}

} // verus!
