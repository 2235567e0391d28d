//! The input intermediate representation (IR) consumed by the backend.
//!
//! A function's values form an arena indexed by `ValueId`; blocks list
//! their instructions as ids into that arena, and every cross reference
//! (operands, the used-by index) is an id as well, so that one producer
//! may be referenced by many consumers.  The producer of this IR runs
//! before the backend; the backend reads it and never changes it.

use vstd::pervasive::arbitrary;
use vstd::prelude::*;

verus! {

/// Handle of one value in a function's arena.
pub type ValueId = usize;

/// Upper bound on the number of values in one function.  Deliberate
/// machine limit: together with `MAX_ALLOC_SIZE` it keeps every frame
/// size and frame offset below `2^31`, so the stack adjustments and
/// addressing immediates fit an `i32` even on a 32-bit machine.
pub const MAX_VALUE_NUM: usize = 0x1000;

/// Upper bound on one stack allocation's byte size; see
/// `MAX_VALUE_NUM` for the product bound the frame layout relies on.
pub const MAX_ALLOC_SIZE: usize = 0x4_0000;

/// Upper bound on an element size used in pointer arithmetic, so that
/// it can be materialized as an `i32` immediate.
pub const MAX_ELEM_SIZE: usize = 0x4000_0000;

/// Upper bound on argument counts, so that stack-argument offsets fit
/// an `i32`.
pub const MAX_ARG_NUM: usize = 0x400;

/// A binary operator of the IR.
#[derive(Debug, Clone, Copy, PartialEq, Eq, Structural)]
pub enum BinaryOp {
    NotEq,
    Eq,
    Gt,
    Lt,
    Ge,
    Le,
    Add,
    Sub,
    Mul,
    Div,
    Mod,
    And,
    Or,
    Xor,
}

/// The kind of one IR value, one arm per operation the backend lowers.
#[derive(Debug, Clone)]
pub enum ValueKind {
    /// An integer literal.
    Integer { value: i32 },
    /// A stack allocation of `size` bytes; its result is the slot's address.
    Alloc { size: usize },
    /// A reference to the global allocation labelled `name`.
    GlobalRef { name: String },
    /// A reference to the function parameter at `index`.
    FuncArgRef { index: usize },
    /// A load through `src` (a global, a stack slot, or a pointer).
    Load { src: ValueId },
    /// A store of `value` through `dest`.
    Store { value: ValueId, dest: ValueId },
    /// Pointer arithmetic: `src + index * base_size`.
    GetPtr { src: ValueId, index: ValueId, base_size: usize },
    /// Array element address: `src + index * base_size`.
    GetElemPtr { src: ValueId, index: ValueId, base_size: usize },
    /// A binary operation on two values.
    Binary { op: BinaryOp, lhs: ValueId, rhs: ValueId },
    /// A conditional transfer: to `false_label` when `cond` is zero,
    /// else to `true_label`.
    Branch { cond: ValueId, true_label: String, false_label: String },
    /// An unconditional transfer to `target`.
    Jump { target: String },
    /// A call of the function labelled `callee`.
    Call { callee: String, args: Vec<ValueId> },
    /// A return, with an optional result value.
    Return { value: Option<ValueId> },
}

/// One arena entry: a value's kind and the values that use it.
#[derive(Debug, Clone)]
pub struct ValueData {
    pub kind: ValueKind,
    pub used_by: Vec<ValueId>,
}

/// A basic block: a label and its instructions in layout order.
#[derive(Debug, Clone)]
pub struct BlockData {
    pub name: String,
    pub insts: Vec<ValueId>,
}

/// A function: parameters, the value arena, and blocks in layout order.
/// A declaration has no blocks and is skipped by the backend.
#[derive(Debug, Clone)]
pub struct Func {
    pub name: String,
    pub params: Vec<ValueId>,
    pub values: Vec<ValueData>,
    pub blocks: Vec<BlockData>,
}

/// A constant initializer of a global allocation.
#[derive(Debug)]
pub enum InitVal {
    /// One literal word.
    Word(i32),
    /// `size` bytes of zeros.
    Zero(usize),
    /// A nested aggregate.
    List(Vec<InitVal>),
}

/// A global allocation: a label and its initializer.
#[derive(Debug)]
pub struct GlobalData {
    pub name: String,
    pub init: InitVal,
}

/// A whole IR program: global allocations, then functions.
#[derive(Debug)]
pub struct Program {
    pub globals: Vec<GlobalData>,
    pub funcs: Vec<Func>,
}

impl Func {
    /// The kind of value `v`.
    pub open spec fn kind_of(self, v: ValueId) -> ValueKind {
        self.values@[v as int].kind
    }

    /// Whether `v` is used by at least one other value.
    pub open spec fn spec_is_used(self, v: ValueId) -> bool {
        self.values@[v as int].used_by@.len() > 0
    }

    /// The literal of an integer value.
    pub open spec fn int_of(self, v: ValueId) -> i32 {
        match self.kind_of(v) {
            ValueKind::Integer { value } => value,
            _ => 0,
        }
    }

    /// The parameter index of an argument reference.
    pub open spec fn arg_index_of(self, v: ValueId) -> usize {
        match self.kind_of(v) {
            ValueKind::FuncArgRef { index } => index,
            _ => 0,
        }
    }

    /// The label of a global reference.
    pub open spec fn global_name_of(self, v: ValueId) -> String {
        match self.kind_of(v) {
            ValueKind::GlobalRef { name } => name,
            _ => arbitrary(),
        }
    }

    /// Whether `v`'s unique use is as an argument of a call, so that it
    /// is staged in the frame before the call.
    pub open spec fn spec_is_arg(self, v: ValueId) -> bool {
        &&& self.values@[v as int].used_by@.len() == 1
        &&& self.values@[self.values@[v as int].used_by@[0] as int].kind is Call
    }

    /// Whether one value kind only mentions ids inside the arena and
    /// stays within the machine-range bounds.
    pub open spec fn kind_wf(self, k: ValueKind) -> bool {
        match k {
            ValueKind::Integer { value } => true,
            ValueKind::Alloc { size } => size <= MAX_ALLOC_SIZE,
            ValueKind::GlobalRef { name } => true,
            ValueKind::FuncArgRef { index } => index < MAX_ARG_NUM,
            ValueKind::Load { src } => src < self.values@.len(),
            ValueKind::Store { value, dest } => value < self.values@.len() && dest
                < self.values@.len(),
            ValueKind::GetPtr { src, index, base_size } => src < self.values@.len() && index
                < self.values@.len() && base_size <= MAX_ELEM_SIZE,
            ValueKind::GetElemPtr { src, index, base_size } => src < self.values@.len() && index
                < self.values@.len() && base_size <= MAX_ELEM_SIZE,
            ValueKind::Binary { op, lhs, rhs } => lhs < self.values@.len() && rhs
                < self.values@.len(),
            ValueKind::Branch { cond, true_label, false_label } => cond < self.values@.len(),
            ValueKind::Jump { target } => true,
            ValueKind::Call { callee, args } => args@.len() <= MAX_ARG_NUM && (forall|i: int|
                0 <= i < args@.len() ==> args@[i] < self.values@.len()),
            ValueKind::Return { value } => match value {
                Some(v) => v < self.values@.len(),
                None => true,
            },
        }
    }

    /// The function's instructions, blocks in layout order, flattened.
    pub open spec fn layout_of(blocks: Seq<BlockData>) -> Seq<ValueId>
        decreases blocks.len(),
    {
        if blocks.len() == 0 {
            Seq::empty()
        } else {
            Self::layout_of(blocks.drop_last()) + blocks.last().insts@
        }
    }

    /// All instructions of the function, in layout order.
    pub open spec fn layout(self) -> Seq<ValueId> {
        Self::layout_of(self.blocks@)
    }

    /// Well-formedness of the arena: every cross reference lands in the
    /// arena, parameters are argument references in order, no value
    /// stands in the layout twice, and counts stay in machine range.
    pub open spec fn wf(self) -> bool {
        &&& self.values@.len() <= MAX_VALUE_NUM
        &&& self.params@.len() <= MAX_ARG_NUM
        &&& forall|v: int|
            0 <= v < self.values@.len() ==> #[trigger] self.kind_wf(self.values@[v].kind)
        &&& forall|v: int, i: int|
            0 <= v < self.values@.len() && 0 <= i < self.values@[v].used_by@.len()
                ==> #[trigger] self.values@[v].used_by@[i] < self.values@.len()
        &&& forall|i: int|
            0 <= i < self.params@.len() ==> #[trigger] self.params@[i] < self.values@.len()
                && self.kind_of(self.params@[i]) == (ValueKind::FuncArgRef { index: i as usize })
        &&& forall|b: int, i: int|
            0 <= b < self.blocks@.len() && 0 <= i < self.blocks@[b].insts@.len()
                ==> #[trigger] self.blocks@[b].insts@[i] < self.values@.len()
        &&& self.layout().no_duplicates()
    }

    /// Collects all instruction ids of the function, blocks in layout
    /// order, as the frame analyzer scans them.
    pub fn func_values(&self) -> (vs: Vec<ValueId>)
        ensures
            vs@ == self.layout(),
    {
        let mut vs: Vec<ValueId> = Vec::new();
        let mut b: usize = 0;
        while b < self.blocks.len()
            invariant
                b <= self.blocks@.len(),
                vs@ == Self::layout_of(self.blocks@.take(b as int)),
            decreases self.blocks@.len() - b,
        {
            let block = &self.blocks[b];
            let mut i: usize = 0;
            while i < block.insts.len()
                invariant
                    b < self.blocks@.len(),
                    i <= block.insts@.len(),
                    block == self.blocks@[b as int],
                    vs@ == Self::layout_of(self.blocks@.take(b as int)) + block.insts@.take(
                        i as int,
                    ),
                decreases block.insts@.len() - i,
            {
                vs.push(block.insts[i]);
                i += 1;
            }
            proof {
                assert(self.blocks@.take(b + 1int).drop_last() == self.blocks@.take(b as int));
                assert(self.blocks@.take(b + 1int).last() == self.blocks@[b as int]);
                assert(block.insts@.take(i as int) == block.insts@);
            }
            b += 1;
        }
        proof {
            assert(self.blocks@.take(self.blocks@.len() as int) == self.blocks@);
        }
        vs
    }
}

/// Well-formedness of an aggregate initializer: nested lists bottom out
/// at literal words; a zero fill only stands alone.
pub open spec fn init_wf(init: InitVal) -> bool
    decreases init, 0int,
{
    match init {
        InitVal::Word(w) => true,
        InitVal::Zero(size) => false,
        InitVal::List(elems) => init_list_wf(elems@, 0),
    }
}

/// Well-formedness of an initializer list from position `i` on.
pub open spec fn init_list_wf(es: Seq<InitVal>, i: int) -> bool
    decreases es, es.len() - i,
{
    if i < 0 || i >= es.len() {
        true
    } else {
        init_wf(es[i]) && init_list_wf(es, i + 1)
    }
}

impl GlobalData {
    /// A global's initializer is a word, a zero fill, or a well-formed
    /// aggregate.
    pub open spec fn wf(self) -> bool {
        match self.init {
            InitVal::Word(w) => true,
            InitVal::Zero(size) => true,
            InitVal::List(elems) => init_list_wf(elems@, 0),
        }
    }
}

impl Program {
    /// Well-formedness of the whole program.
    pub open spec fn wf(self) -> bool {
        &&& forall|g: int| 0 <= g < self.globals@.len() ==> #[trigger] self.globals@[g].wf()
        &&& forall|f: int| 0 <= f < self.funcs@.len() ==> #[trigger] self.funcs@[f].wf()
    }
}


impl Func {
    /// Checks one value kind against `kind_wf`.
    fn check_kind(&self, v: ValueId) -> (ok: bool)
        requires
            v < self.values@.len(),
        ensures
            ok == self.kind_wf(self.values@[v as int].kind),
    {
        let n = self.values.len();
        match &self.values[v].kind {
            ValueKind::Integer { value } => true,
            ValueKind::Alloc { size } => *size <= MAX_ALLOC_SIZE,
            ValueKind::GlobalRef { name } => true,
            ValueKind::FuncArgRef { index } => *index < MAX_ARG_NUM,
            ValueKind::Load { src } => *src < n,
            ValueKind::Store { value, dest } => *value < n && *dest < n,
            ValueKind::GetPtr { src, index, base_size } => *src < n && *index < n && *base_size
                <= MAX_ELEM_SIZE,
            ValueKind::GetElemPtr { src, index, base_size } => *src < n && *index < n
                && *base_size <= MAX_ELEM_SIZE,
            ValueKind::Binary { op, lhs, rhs } => *lhs < n && *rhs < n,
            ValueKind::Branch { cond, true_label, false_label } => *cond < n,
            ValueKind::Jump { target } => true,
            ValueKind::Call { callee, args } => {
                if args.len() > MAX_ARG_NUM {
                    return false;
                }
                let mut i: usize = 0;
                while i < args.len()
                    invariant
                        self.values@[v as int].kind matches ValueKind::Call { callee, args: a2 }
                            && a2@ == args@,
                        i <= args@.len(),
                        forall|k: int| 0 <= k < i ==> #[trigger] args@[k] < self.values@.len(),
                        n == self.values@.len(),
                    decreases args@.len() - i,
                {
                    if args[i] >= n {
                        return false;
                    }
                    i += 1;
                }
                true
            },
            ValueKind::Return { value } => match value {
                Some(rv) => *rv < n,
                None => true,
            },
        }
    }

    /// Checks the whole arena against `wf`: every cross reference in
    /// range, parameters in order, the layout duplicate-free, counts in
    /// machine range.
    pub fn check_wf(&self) -> (ok: bool)
        ensures
            ok == self.wf(),
    {
        let n = self.values.len();
        if n > MAX_VALUE_NUM || self.params.len() > MAX_ARG_NUM {
            return false;
        }
        let mut v: usize = 0;
        while v < n
            invariant
                n == self.values@.len(),
                v <= n,
                forall|k: int| 0 <= k < v ==> #[trigger] self.kind_wf(self.values@[k].kind),
                forall|k: int, i: int|
                    0 <= k < v && 0 <= i < self.values@[k].used_by@.len()
                        ==> #[trigger] self.values@[k].used_by@[i] < self.values@.len(),
            decreases n - v,
        {
            if !self.check_kind(v) {
                return false;
            }
            let ub = &self.values[v].used_by;
            let mut i: usize = 0;
            while i < ub.len()
                invariant
                    n == self.values@.len(),
                    v < n,
                    ub == self.values@[v as int].used_by,
                    i <= ub@.len(),
                    forall|k: int| 0 <= k < i ==> #[trigger] ub@[k] < self.values@.len(),
                decreases ub@.len() - i,
            {
                if ub[i] >= n {
                    return false;
                }
                i += 1;
            }
            v += 1;
        }
        let mut pi: usize = 0;
        while pi < self.params.len()
            invariant
                n == self.values@.len(),
                pi <= self.params@.len(),
                forall|k: int|
                    0 <= k < pi ==> #[trigger] self.params@[k] < self.values@.len()
                        && self.kind_of(self.params@[k]) == (ValueKind::FuncArgRef {
                        index: k as usize,
                    }),
            decreases self.params@.len() - pi,
        {
            let p = self.params[pi];
            if p >= n {
                return false;
            }
            let ok = match &self.values[p].kind {
                ValueKind::FuncArgRef { index } => *index == pi,
                _ => false,
            };
            if !ok {
                return false;
            }
            pi += 1;
        }
        let mut b: usize = 0;
        while b < self.blocks.len()
            invariant
                n == self.values@.len(),
                b <= self.blocks@.len(),
                forall|k: int, i: int|
                    0 <= k < b && 0 <= i < self.blocks@[k].insts@.len()
                        ==> #[trigger] self.blocks@[k].insts@[i] < self.values@.len(),
            decreases self.blocks@.len() - b,
        {
            let insts = &self.blocks[b].insts;
            let mut i: usize = 0;
            while i < insts.len()
                invariant
                    n == self.values@.len(),
                    b < self.blocks@.len(),
                    insts == self.blocks@[b as int].insts,
                    i <= insts@.len(),
                    forall|k: int| 0 <= k < i ==> #[trigger] insts@[k] < self.values@.len(),
                decreases insts@.len() - i,
            {
                if insts[i] >= n {
                    return false;
                }
                i += 1;
            }
            b += 1;
        }
        let vs = self.func_values();
        let mut i: usize = 0;
        while i < vs.len()
            invariant
                vs@ == self.layout(),
                i <= vs@.len(),
                forall|p: int, q: int|
                    0 <= p < q < vs@.len() && p < i ==> #[trigger] vs@[p] != #[trigger] vs@[q],
            decreases vs@.len() - i,
        {
            let mut j: usize = i + 1;
            while j < vs.len()
                invariant
                    vs@ == self.layout(),
                    i < j <= vs@.len() || (i + 1 == j && j > vs@.len()),
                    i < vs@.len(),
                    forall|q: int| i < q < j ==> vs@[i as int] != #[trigger] vs@[q],
                decreases vs@.len() - j,
            {
                if vs[i] == vs[j] {
                    proof {
                        assert(self.layout()[i as int] == self.layout()[j as int]);
                        assert(!self.layout().no_duplicates());
                    }
                    return false;
                }
                j += 1;
            }
            i += 1;
        }
        proof {
            assert(self.layout().no_duplicates()) by {
                assert forall|p: int, q: int|
                    0 <= p < vs@.len() && 0 <= q < vs@.len() && p != q implies vs@[p]
                    != vs@[q] by {
                    if p < q {
                        assert(vs@[p] != vs@[q]);
                    } else {
                        assert(vs@[q] != vs@[p]);
                    }
                }
            }
        }
        true
    }
}

impl Program {
    /// Checks the whole program against `wf`.
    pub fn check_wf(&self) -> (ok: bool)
        ensures
            ok == self.wf(),
    {
        let mut g: usize = 0;
        while g < self.globals.len()
            invariant
                g <= self.globals@.len(),
                forall|k: int| 0 <= k < g ==> #[trigger] self.globals@[k].wf(),
            decreases self.globals@.len() - g,
        {
            let ok = match &self.globals[g].init {
                InitVal::Word(w) => true,
                InitVal::Zero(size) => true,
                InitVal::List(elems) => check_init_list(elems),
            };
            if !ok {
                proof {
                    assert(!self.globals@[g as int].wf());
                    assert(!self.wf());
                }
                return false;
            }
            g += 1;
        }
        let mut f: usize = 0;
        while f < self.funcs.len()
            invariant
                f <= self.funcs@.len(),
                forall|k: int| 0 <= k < f ==> #[trigger] self.funcs@[k].wf(),
            decreases self.funcs@.len() - f,
        {
            if !self.funcs[f].check_wf() {
                proof {
                    assert(!self.funcs@[f as int].wf());
                    assert(!self.wf());
                }
                return false;
            }
            f += 1;
        }
        true
    }
}

/// Checks one initializer against `init_wf`.
fn check_init(init: &InitVal) -> (ok: bool)
    ensures
        ok == init_wf(*init),
    decreases *init,
{
    match init {
        InitVal::Word(w) => true,
        InitVal::Zero(size) => false,
        InitVal::List(elems) => check_init_list(elems),
    }
}

/// Checks every element of an initializer list.
fn check_init_list(elems: &Vec<InitVal>) -> (ok: bool)
    ensures
        ok == init_list_wf(elems@, 0),
    decreases *elems,
{
    let mut i: usize = 0;
    while i < elems.len()
        invariant
            i <= elems@.len(),
            init_list_wf(elems@, 0) == init_list_wf(elems@, i as int),
        decreases elems@.len() - i,
    {
        proof {
            broadcast use vstd::std_specs::vec::axiom_vec_index_decreases;

        }
        if !check_init(&elems[i]) {
            proof {
                assert(!init_list_wf(elems@, i as int));
            }
            return false;
        }
        i += 1;
    }
    true
}


} // verus!
