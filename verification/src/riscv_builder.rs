//! RISC-V in-memory program builder: the instruction selector.
//!
//! The builder walks an IR program function by function, value by
//! value, consults the register pool and the frame layout, and appends
//! instructions to the program under construction.  Malformed IR — an
//! operand that is not live in the pool, a missing frame offset, an
//! exhausted register file — surfaces as a `BuildError` instead of a
//! partial program.

pub mod build_prog;
pub mod build_helpers;
pub mod build_value;
pub mod step_model;

use vstd::prelude::*;

use crate::func_meta::{spec_frame_size, FuncMeta};
use crate::ir;
use crate::ir::ValueId;
use crate::reg_manager::{find_free_in, key_at, reg_of_key, RegManager};
use crate::riscv;
use crate::riscv::{Inst, Reg, RA, SP, T0, X0};

verus! {

/// Why lowering was abandoned: the IR broke an internal contract of
/// the selector.  Upstream producers never hand such IR in.
#[derive(Debug, Clone, Copy, PartialEq, Eq, Structural)]
pub enum BuildError {
    /// A value kind stood where the lowering table has no entry for it.
    UnexpectedKind,
    /// A function to lower has no entry block.
    NoEntryBlock,
    /// An operand was consumed while not live in the register pool.
    UnboundOperand,
    /// A register was requested while none was free.
    NoFreeRegister,
    /// A value needed a frame slot that was never assigned.
    MissingOffset,
}

/// The in-memory program builder.
pub struct RiscvBuilder {
    pub prog: riscv::Program,
    pub reg_mgr: RegManager,
    pub func_meta: FuncMeta,
}

/// There is a function under construction with a block under
/// construction.
pub open spec fn open_block(p: riscv::Program) -> bool {
    p.funcs@.len() > 0 && p.funcs@.last().blocks@.len() > 0
}

/// `p1` is `p0` with the instructions `s` appended to the block under
/// construction, and nothing else changed.
pub open spec fn grown(p0: riscv::Program, p1: riscv::Program, s: Seq<Inst>) -> bool {
    &&& open_block(p0)
    &&& p1.global_defs@ == p0.global_defs@
    &&& p1.funcs@.len() == p0.funcs@.len()
    &&& forall|i: int| 0 <= i < p0.funcs@.len() - 1 ==> #[trigger] p1.funcs@[i] == p0.funcs@[i]
    &&& p1.funcs@.last().name == p0.funcs@.last().name
    &&& p1.funcs@.last().blocks@.len() == p0.funcs@.last().blocks@.len()
    &&& forall|i: int|
        0 <= i < p0.funcs@.last().blocks@.len() - 1 ==> #[trigger] p1.funcs@.last().blocks@[i]
            == p0.funcs@.last().blocks@[i]
    &&& p1.funcs@.last().blocks@.last().name == p0.funcs@.last().blocks@.last().name
    &&& p1.funcs@.last().blocks@.last().insts@ == p0.funcs@.last().blocks@.last().insts@ + s
}

/// Growing by `s1` and then by `s2` is growing by `s1 + s2`.
pub proof fn lemma_grown_trans(
    p0: riscv::Program,
    p1: riscv::Program,
    p2: riscv::Program,
    s1: Seq<Inst>,
    s2: Seq<Inst>,
)
    requires
        grown(p0, p1, s1),
        grown(p1, p2, s2),
    ensures
        grown(p0, p2, s1 + s2),
{
    assert(p2.funcs@.last().blocks@.last().insts@ == p0.funcs@.last().blocks@.last().insts@ + (s1
        + s2)) by {
        assert((p0.funcs@.last().blocks@.last().insts@ + s1) + s2 == p0.funcs@.last(
        ).blocks@.last().insts@ + (s1 + s2));
    }
}

/// Growing by nothing changes nothing observable.
pub proof fn lemma_grown_refl(p: riscv::Program)
    requires
        open_block(p),
    ensures
        grown(p, p, Seq::<Inst>::empty()),
{
    assert(p.funcs@.last().blocks@.last().insts@ + Seq::<Inst>::empty() == p.funcs@.last(
    ).blocks@.last().insts@);
}

/// Whether `imm` fits the signed 12-bit immediate of a memory or
/// arithmetic instruction.
pub open spec fn spec_is_imm12(imm: int) -> bool {
    -2048 <= imm <= 2047
}

pub fn is_imm12(imm: i32) -> (ok: bool)
    ensures
        ok == spec_is_imm12(imm as int),
{
    imm >= -2048 && imm <= 2047
}

/// The sequence a load-word with offset `imm` emits: one `lw` when the
/// offset fits twelve bits, else `li` + `add` through the scratch
/// register and a zero-offset `lw`.
pub open spec fn emit_lw(rd: Reg, imm: i32, rs: Reg) -> Seq<Inst> {
    if spec_is_imm12(imm as int) {
        seq![Inst::Lw { rd, imm12: imm, rs }]
    } else {
        seq![
            Inst::Li { rd: T0, imm },
            Inst::Add { rd: T0, rs1: rs, rs2: T0 },
            Inst::Lw { rd, imm12: 0, rs: T0 },
        ]
    }
}

/// The sequence a store-word with offset `imm` emits, mirroring
/// `emit_lw`.
pub open spec fn emit_sw(rs: Reg, imm: i32, rd: Reg) -> Seq<Inst> {
    if spec_is_imm12(imm as int) {
        seq![Inst::Sw { rs, imm12: imm, rd }]
    } else {
        seq![
            Inst::Li { rd: T0, imm },
            Inst::Add { rd: T0, rs1: rd, rs2: T0 },
            Inst::Sw { rs, imm12: 0, rd: T0 },
        ]
    }
}

/// The sequence an add-immediate emits: nothing or a move for zero, one
/// `addi` when the immediate fits, else `li` + `add`.
pub open spec fn emit_addi(rd: Reg, rs: Reg, imm: i32) -> Seq<Inst> {
    if imm == 0 {
        if rd != rs {
            seq![Inst::Mv { rd, rs }]
        } else {
            Seq::empty()
        }
    } else if spec_is_imm12(imm as int) {
        seq![Inst::Addi { rd, rs, imm12: imm }]
    } else {
        seq![Inst::Li { rd: T0, imm }, Inst::Add { rd, rs1: rs, rs2: T0 }]
    }
}

/// The sequence a multiply-immediate emits: `li` then `mul`.
pub open spec fn emit_muli(rd: Reg, rs: Reg, imm: i32) -> Seq<Inst> {
    seq![Inst::Li { rd: T0, imm }, Inst::Mul { rd, rs1: rs, rs2: T0 }]
}


/// The register an allocation picks from the occupancy table `rv`
/// under request `dst`.
pub open spec fn pick_reg(rv: Seq<Option<ValueId>>, dst: Option<Reg>) -> Reg {
    match dst {
        Some(r) => r,
        None => match find_free_in(rv) {
            Some(r) => r,
            None => X0,
        },
    }
}

/// Whether resolving operand `v` binds a fresh register: a nonzero
/// literal, or a stack-passed argument reference.
pub open spec fn needs_alloc(func: ir::Func, v: ValueId) -> bool {
    match func.kind_of(v) {
        ir::ValueKind::Integer { value } => value != 0,
        ir::ValueKind::FuncArgRef { index } => index >= 8,
        _ => false,
    }
}

/// Whether operand `v` can be resolved under occupancy `rv` and
/// bindings `bs`: a literal or argument reference must be unbound with
/// a register to spare, anything else must be live in the pool.
pub open spec fn resolvable(
    rv: Seq<Option<ValueId>>,
    bs: Seq<(ValueId, Reg)>,
    func: ir::Func,
    v: ValueId,
) -> bool {
    v < func.values@.len() && match func.kind_of(v) {
        ir::ValueKind::Integer { value } => !key_at(bs, v) && (value == 0 || find_free_in(rv)
            is Some),
        ir::ValueKind::FuncArgRef { index } => index < 8 || (!key_at(bs, v) && find_free_in(rv)
            is Some),
        _ => key_at(bs, v),
    }
}

/// The register operand `v` resolves to with no destination
/// constraint: the zero register for an unused zero literal, the
/// argument register for a register-passed parameter, a fresh register
/// for a literal or stack-passed parameter, else its live register.
pub open spec fn resolve_reg(
    rv: Seq<Option<ValueId>>,
    bs: Seq<(ValueId, Reg)>,
    func: ir::Func,
    v: ValueId,
) -> Reg {
    match func.kind_of(v) {
        ir::ValueKind::Integer { value } => if value == 0 {
            X0
        } else {
            pick_reg(rv, None)
        },
        ir::ValueKind::FuncArgRef { index } => if index < 8 {
            (10 + index) as Reg
        } else {
            pick_reg(rv, None)
        },
        _ => reg_of_key(bs, v),
    }
}

/// What resolving operand `v` emits: `li` for a nonzero literal, a
/// frame load for a stack-passed parameter, nothing else.
pub open spec fn resolve_emits(
    rv: Seq<Option<ValueId>>,
    bs: Seq<(ValueId, Reg)>,
    func: ir::Func,
    v: ValueId,
) -> Seq<Inst> {
    match func.kind_of(v) {
        ir::ValueKind::Integer { value } => if value == 0 {
            Seq::empty()
        } else {
            seq![Inst::Li { rd: pick_reg(rv, None), imm: value }]
        },
        ir::ValueKind::FuncArgRef { index } => if index < 8 {
            Seq::empty()
        } else {
            emit_lw(pick_reg(rv, None), ((index - 8) * 4 + spec_frame_size(func)) as i32, SP)
        },
        _ => Seq::empty(),
    }
}

/// The occupancy table after resolving `v`.
pub open spec fn resolve_rv(
    rv: Seq<Option<ValueId>>,
    bs: Seq<(ValueId, Reg)>,
    func: ir::Func,
    v: ValueId,
) -> Seq<Option<ValueId>> {
    if needs_alloc(func, v) {
        rv.update(pick_reg(rv, None) as int, Some(v))
    } else {
        rv
    }
}

/// The bindings after resolving `v`.
pub open spec fn resolve_bs(
    rv: Seq<Option<ValueId>>,
    bs: Seq<(ValueId, Reg)>,
    func: ir::Func,
    v: ValueId,
) -> Seq<(ValueId, Reg)> {
    if needs_alloc(func, v) {
        bs.push((v, pick_reg(rv, None)))
    } else {
        bs
    }
}

/// What moving the live value of `bs` keyed `v` into `rd` emits:
/// nothing when it is there, one move into a free register, or a
/// three-move exchange through the scratch register.
pub open spec fn emit_move(
    rv: Seq<Option<ValueId>>,
    bs: Seq<(ValueId, Reg)>,
    v: ValueId,
    rd: Reg,
) -> Seq<Inst> {
    let rs = reg_of_key(bs, v);
    if rs == rd {
        Seq::empty()
    } else if rv[rd as int] is None {
        seq![Inst::Mv { rd, rs }]
    } else {
        seq![Inst::Mv { rd: T0, rs: rd }, Inst::Mv { rd, rs }, Inst::Mv { rd: rs, rs: T0 }]
    }
}

/// What resolving operand `v` into the fixed register `rd` emits.
pub open spec fn resolve_emits_to(
    rv: Seq<Option<ValueId>>,
    bs: Seq<(ValueId, Reg)>,
    func: ir::Func,
    v: ValueId,
    rd: Reg,
) -> Seq<Inst> {
    match func.kind_of(v) {
        ir::ValueKind::Integer { value } => seq![Inst::Li { rd, imm: value }],
        _ => emit_move(rv, bs, v, rd),
    }
}


/// Whether resolving `v` also permits consuming it afterwards: a
/// register-passed parameter must still be live so its release finds
/// the pair.
pub open spec fn consumable(
    rv: Seq<Option<ValueId>>,
    bs: Seq<(ValueId, Reg)>,
    func: ir::Func,
    v: ValueId,
) -> bool {
    resolvable(rv, bs, func, v) && (match func.kind_of(v) {
        ir::ValueKind::FuncArgRef { index } => index < 8 ==> crate::reg_manager::pair_at(
            bs,
            v,
            (10 + index) as Reg,
        ),
        _ => true,
    })
}

/// The instructions one binary operation emits once its operands sit
/// in `lhs` and `rhs`: comparisons go through `xor`/`slt`/`sgt` and the
/// set-if-zero forms, arithmetic maps directly.  The `xor` of an
/// equality test is elided when the left operand resolved to the zero
/// register.
pub open spec fn emit_binop(op: ir::BinaryOp, lhs: Reg, rhs: Reg, rd: Reg) -> Seq<Inst> {
    match op {
        ir::BinaryOp::NotEq => if lhs != X0 {
            seq![Inst::Xor { rd, rs1: lhs, rs2: rhs }, Inst::Snez { rd, rs: rd }]
        } else {
            seq![Inst::Snez { rd, rs: rhs }]
        },
        ir::BinaryOp::Eq => if lhs != X0 {
            seq![Inst::Xor { rd, rs1: lhs, rs2: rhs }, Inst::Seqz { rd, rs: rd }]
        } else {
            seq![Inst::Seqz { rd, rs: rhs }]
        },
        ir::BinaryOp::Gt => seq![Inst::Sgt { rd, rs1: lhs, rs2: rhs }],
        ir::BinaryOp::Lt => seq![Inst::Slt { rd, rs1: lhs, rs2: rhs }],
        ir::BinaryOp::Ge => seq![
            Inst::Slt { rd, rs1: lhs, rs2: rhs },
            Inst::Xori { rd, rs: rd, imm12: 1 },
        ],
        ir::BinaryOp::Le => seq![
            Inst::Sgt { rd, rs1: lhs, rs2: rhs },
            Inst::Xori { rd, rs: rd, imm12: 1 },
        ],
        ir::BinaryOp::Add => seq![Inst::Add { rd, rs1: lhs, rs2: rhs }],
        ir::BinaryOp::Sub => seq![Inst::Sub { rd, rs1: lhs, rs2: rhs }],
        ir::BinaryOp::Mul => seq![Inst::Mul { rd, rs1: lhs, rs2: rhs }],
        ir::BinaryOp::Div => seq![Inst::Div { rd, rs1: lhs, rs2: rhs }],
        ir::BinaryOp::Mod => seq![Inst::Rem { rd, rs1: lhs, rs2: rhs }],
        ir::BinaryOp::And => seq![Inst::And { rd, rs1: lhs, rs2: rhs }],
        ir::BinaryOp::Or => seq![Inst::Or { rd, rs1: lhs, rs2: rhs }],
        ir::BinaryOp::Xor => seq![Inst::Xor { rd, rs1: lhs, rs2: rhs }],
    }
}

/// The bindings after consuming operand `v` that resolved to `r`.
pub open spec fn consume_bs(bs: Seq<(ValueId, Reg)>, v: ValueId, r: Reg) -> Seq<(ValueId, Reg)> {
    if r == X0 {
        bs
    } else {
        crate::reg_manager::remove_key(bs, v)
    }
}

/// The occupancy table after consuming operand `v` that resolved to
/// `r`.
pub open spec fn consume_rv(rv: Seq<Option<ValueId>>, r: Reg) -> Seq<Option<ValueId>> {
    if r == X0 {
        rv
    } else {
        rv.update(r as int, None)
    }
}


/// The stores that spill the live registers, in binding order, each to
/// its slot above the staging area.
pub open spec fn emit_reg_saves(regs: Seq<Reg>, off: int) -> Seq<Inst>
    decreases regs.len(),
{
    if regs.len() == 0 {
        Seq::empty()
    } else {
        emit_reg_saves(regs.drop_last(), off) + emit_sw(
            regs.last(),
            (off + 4 * (regs.len() - 1)) as i32,
            SP,
        )
    }
}

/// The loads that refill the live registers from the same slots.
pub open spec fn emit_reg_restores(regs: Seq<Reg>, off: int) -> Seq<Inst>
    decreases regs.len(),
{
    if regs.len() == 0 {
        Seq::empty()
    } else {
        emit_reg_restores(regs.drop_last(), off) + emit_lw(
            regs.last(),
            (off + 4 * (regs.len() - 1)) as i32,
            SP,
        )
    }
}

/// The word copies that move the stack-passed arguments of the pending
/// call down below the just-spilled registers.
pub open spec fn emit_arg_copies(n: int, size: i32) -> Seq<Inst>
    decreases n,
{
    if n <= 0 {
        Seq::empty()
    } else {
        emit_arg_copies(n - 1, size) + emit_lw(T0, (4 * (n - 1) + size) as i32, SP) + emit_sw(
            T0,
            (4 * (n - 1)) as i32,
            SP,
        )
    }
}

/// Everything a register spill before a call emits: the stack bump,
/// the argument copies, then one store per live register.
pub open spec fn emit_saves(regs: Seq<Reg>, arg_size: int) -> Seq<Inst> {
    if regs.len() == 0 {
        Seq::empty()
    } else {
        emit_addi(SP, SP, (-4 * regs.len()) as i32) + emit_arg_copies(arg_size / 4, (4
            * regs.len()) as i32) + emit_reg_saves(regs, arg_size)
    }
}

/// Everything the refill after a call emits: one load per live
/// register, then the stack drop.
pub open spec fn emit_restores(regs: Seq<Reg>, arg_size: int) -> Seq<Inst> {
    emit_reg_restores(regs, arg_size) + emit_addi(SP, SP, (4 * regs.len()) as i32)
}

/// A store turned into the load of the same register from the same
/// address; anything else is kept.
pub open spec fn mirror_inst(i: Inst) -> Inst {
    match i {
        Inst::Sw { rs, imm12, rd } => Inst::Lw { rd: rs, imm12, rs: rd },
        other => other,
    }
}

/// The refill sequence is exactly the spill sequence with every store
/// turned into the load of the same register from the same address:
/// what a call saves, it restores, register for register, slot for
/// slot.
pub proof fn lemma_save_restore_symmetric(regs: Seq<Reg>, off: int)
    ensures
        emit_reg_restores(regs, off) == emit_reg_saves(regs, off).map_values(
            |i: Inst| mirror_inst(i),
        ),
    decreases regs.len(),
{
    let f = |i: Inst| mirror_inst(i);
    if regs.len() == 0 {
        assert(emit_reg_saves(regs, off).map_values(f) =~= Seq::<Inst>::empty());
    } else {
        lemma_save_restore_symmetric(regs.drop_last(), off);
        let r = regs.last();
        let imm = (off + 4 * (regs.len() - 1)) as i32;
        assert(emit_sw(r, imm, SP).map_values(f) =~= emit_lw(r, imm, SP));
        assert((emit_reg_saves(regs.drop_last(), off) + emit_sw(r, imm, SP)).map_values(f)
            =~= emit_reg_saves(regs.drop_last(), off).map_values(f) + emit_sw(r, imm, SP).map_values(
            f,
        ));
    }
}

/// Whether a sequence never saves or restores the return address.
pub open spec fn ra_clean(s: Seq<Inst>) -> bool {
    forall|i: int|
        0 <= i < s.len() ==> match #[trigger] s[i] {
            Inst::Sw { rs, imm12, rd } => rs != RA,
            Inst::Lw { rd, imm12, rs } => rd != RA,
            _ => true,
        }
}


/// The offset a staged value reads from, as a plain integer.
pub open spec fn off_of(meta: FuncMeta, v: ValueId) -> int {
    match meta.spec_offset(v) {
        Some(o) => o as int,
        None => 0,
    }
}

/// What marshaling the call argument at position `i` emits: literals
/// are loaded directly, others are read back from their staging slot;
/// the first eight go to argument registers, the rest to the callee's
/// stack-argument area.
pub open spec fn emit_pass_one(func: ir::Func, meta: FuncMeta, v: ValueId, i: int) -> Seq<Inst> {
    let dst: Reg = if i < 8 {
        (10 + i) as Reg
    } else {
        T0
    };
    let load: Seq<Inst> = match func.kind_of(v) {
        ir::ValueKind::Integer { value } => seq![Inst::Li { rd: dst, imm: value }],
        _ => emit_lw(dst, off_of(meta, v) as i32, SP),
    };
    if i < 8 {
        load
    } else {
        load + emit_sw(T0, (4 * (i - 8)) as i32, SP)
    }
}

/// What marshaling the first `n` call arguments emits.
pub open spec fn emit_pass_args(func: ir::Func, meta: FuncMeta, args: Seq<ValueId>, n: int) -> Seq<
    Inst,
>
    decreases n,
{
    if n <= 0 {
        Seq::empty()
    } else {
        emit_pass_args(func, meta, args, n - 1) + emit_pass_one(func, meta, args[n - 1], n - 1)
    }
}


/// The flattened memory image of one initializer.
pub open spec fn spec_fill(init: ir::InitVal) -> Seq<riscv::MemFill>
    decreases init, 0int,
{
    match init {
        ir::InitVal::Word(w) => seq![riscv::MemFill::Word(w)],
        ir::InitVal::Zero(size) => seq![riscv::MemFill::Zero(size)],
        ir::InitVal::List(elems) => spec_fill_list(elems@, 0),
    }
}

/// The flattened memory image of a list of initializers, from `i` on.
pub open spec fn spec_fill_list(es: Seq<ir::InitVal>, i: int) -> Seq<riscv::MemFill>
    decreases es, es.len() - i,
{
    if i < 0 || i >= es.len() {
        Seq::empty()
    } else {
        spec_fill(es[i]) + spec_fill_list(es, i + 1)
    }
}

/// No sequence saves or restores the return address if its pieces do
/// not.
pub proof fn lemma_ra_clean_concat(a: Seq<Inst>, b: Seq<Inst>)
    requires
        ra_clean(a),
        ra_clean(b),
    ensures
        ra_clean(a + b),
{
    assert forall|i: int| 0 <= i < (a + b).len() implies match #[trigger] (a + b)[i] {
        Inst::Sw { rs, imm12, rd } => rs != RA,
        Inst::Lw { rd, imm12, rs } => rd != RA,
        _ => true,
    } by {
        if i < a.len() {
            assert((a + b)[i] == a[i]);
        } else {
            assert((a + b)[i] == b[i - a.len()]);
        }
    }
}


/// Loading into any register but the return address never restores it.
pub proof fn lemma_ra_clean_lw(rd: Reg, imm: i32, rs: Reg)
    requires
        rd != RA,
    ensures
        ra_clean(emit_lw(rd, imm, rs)),
{
}

/// Storing from any register but the return address never saves it.
pub proof fn lemma_ra_clean_sw(rs: Reg, imm: i32, rd: Reg)
    requires
        rs != RA,
    ensures
        ra_clean(emit_sw(rs, imm, rd)),
{
}

/// Operand resolution touches memory only through allocated registers,
/// never the return address.
pub proof fn lemma_ra_clean_resolve(
    rv: Seq<Option<ValueId>>,
    bs: Seq<(ValueId, Reg)>,
    func: ir::Func,
    v: ValueId,
)
    ensures
        ra_clean(resolve_emits(rv, bs, func, v)),
{
    crate::reg_manager::lemma_find_free_is_free(rv);
    match func.kind_of(v) {
        ir::ValueKind::FuncArgRef { index } => {
            if index >= 8 {
                lemma_ra_clean_lw(
                    pick_reg(rv, None),
                    ((index - 8) * 4 + spec_frame_size(func)) as i32,
                    SP,
                );
            }
        },
        _ => {},
    }
}

/// Moving into a fixed register uses only register moves or a load
/// immediate.
pub proof fn lemma_ra_clean_resolve_to(
    rv: Seq<Option<ValueId>>,
    bs: Seq<(ValueId, Reg)>,
    func: ir::Func,
    v: ValueId,
    rd: Reg,
)
    ensures
        ra_clean(resolve_emits_to(rv, bs, func, v, rd)),
{
}

/// The register spill before a call stores only allocatable registers
/// and the scratch register.
pub proof fn lemma_ra_clean_saves(regs: Seq<Reg>, off: int)
    requires
        forall|i: int| 0 <= i < regs.len() ==> crate::riscv::spec_allocatable(#[trigger] regs[i]),
    ensures
        ra_clean(emit_reg_saves(regs, off)),
        ra_clean(emit_reg_restores(regs, off)),
    decreases regs.len(),
{
    if regs.len() > 0 {
        lemma_ra_clean_saves(regs.drop_last(), off);
        lemma_ra_clean_sw(regs.last(), (off + 4 * (regs.len() - 1)) as i32, SP);
        lemma_ra_clean_lw(regs.last(), (off + 4 * (regs.len() - 1)) as i32, SP);
        lemma_ra_clean_concat(
            emit_reg_saves(regs.drop_last(), off),
            emit_sw(regs.last(), (off + 4 * (regs.len() - 1)) as i32, SP),
        );
        lemma_ra_clean_concat(
            emit_reg_restores(regs.drop_last(), off),
            emit_lw(regs.last(), (off + 4 * (regs.len() - 1)) as i32, SP),
        );
    }
}

/// The argument copies before a call go through the scratch register.
pub proof fn lemma_ra_clean_copies(n: int, size: i32)
    ensures
        ra_clean(emit_arg_copies(n, size)),
    decreases n,
{
    if n > 0 {
        lemma_ra_clean_copies(n - 1, size);
        lemma_ra_clean_lw(T0, (4 * (n - 1) + size) as i32, SP);
        lemma_ra_clean_sw(T0, (4 * (n - 1)) as i32, SP);
        lemma_ra_clean_concat(emit_arg_copies(n - 1, size), emit_lw(T0, (4 * (n - 1) + size) as i32, SP));
        lemma_ra_clean_concat(
            emit_arg_copies(n - 1, size) + emit_lw(T0, (4 * (n - 1) + size) as i32, SP),
            emit_sw(T0, (4 * (n - 1)) as i32, SP),
        );
    }
}

/// Marshaling call arguments reads staging slots into argument or
/// scratch registers only.
pub proof fn lemma_ra_clean_pass(func: ir::Func, meta: FuncMeta, args: Seq<ValueId>, n: int)
    ensures
        ra_clean(emit_pass_args(func, meta, args, n)),
    decreases n,
{
    if n > 0 {
        lemma_ra_clean_pass(func, meta, args, n - 1);
        let v = args[n - 1];
        let dst: Reg = if n - 1 < 8 {
            (10 + (n - 1)) as Reg
        } else {
            T0
        };
        assert(dst != RA);
        match func.kind_of(v) {
            ir::ValueKind::Integer { value } => {},
            _ => {
                lemma_ra_clean_lw(dst, off_of(meta, v) as i32, SP);
            },
        }
        if n - 1 >= 8 {
            lemma_ra_clean_sw(T0, (4 * (n - 1 - 8)) as i32, SP);
            lemma_ra_clean_concat(
                match func.kind_of(v) {
                    ir::ValueKind::Integer { value } => seq![Inst::Li { rd: dst, imm: value }],
                    _ => emit_lw(dst, off_of(meta, v) as i32, SP),
                },
                emit_sw(T0, (4 * (n - 1 - 8)) as i32, SP),
            );
        }
        lemma_ra_clean_concat(
            emit_pass_args(func, meta, args, n - 1),
            emit_pass_one(func, meta, args[n - 1], n - 1),
        );
    }
}


/// The block under construction grew by some sequence that, in a leaf
/// function, never saves or restores the return address.
pub open spec fn inst_grown(p0: riscv::Program, p1: riscv::Program, leaf: bool) -> bool {
    exists|s: Seq<Inst>| #[trigger] grown(p0, p1, s) && (leaf ==> ra_clean(s))
}

pub proof fn lemma_inst_grown(p0: riscv::Program, p1: riscv::Program, leaf: bool, s: Seq<Inst>)
    requires
        grown(p0, p1, s),
        leaf ==> ra_clean(s),
    ensures
        inst_grown(p0, p1, leaf),
{
}

/// Resolving an operand keeps the occupancy table's size.
pub proof fn lemma_resolve_rv_len(
    rv0: Seq<Option<ValueId>>,
    bs0: Seq<(ValueId, Reg)>,
    func: ir::Func,
    u: ValueId,
)
    requires
        rv0.len() == 32,
    ensures
        resolve_rv(rv0, bs0, func, u).len() == rv0.len(),
{
    if needs_alloc(func, u) {
        crate::reg_manager::lemma_find_free_is_free(rv0);
        assert(resolve_rv(rv0, bs0, func, u) == rv0.update(pick_reg(rv0, None) as int, Some(u)));
    }
}


/// What opening a block emits: the entry block shrinks the stack by
/// the frame size and, in a non-leaf function, saves the return
/// address just below the frame's top; other blocks open silently.
pub open spec fn prologue_emits(meta: FuncMeta, is_entry: bool) -> Seq<Inst> {
    if is_entry {
        emit_addi(SP, SP, ((-(meta.frame_size as int)) as i32)) + (if meta.is_leaf {
            Seq::<Inst>::empty()
        } else {
            emit_sw(RA, (meta.frame_size - 4) as i32, SP)
        })
    } else {
        Seq::empty()
    }
}

/// A leaf function's prologue never touches the return address.
pub proof fn lemma_prologue_ra_clean(meta: FuncMeta, is_entry: bool)
    requires
        meta.is_leaf,
    ensures
        ra_clean(prologue_emits(meta, is_entry)),
{
    if is_entry {
        lemma_ra_clean_concat(
            emit_addi(SP, SP, ((-(meta.frame_size as int)) as i32)),
            Seq::<Inst>::empty(),
        );
    }
}

/// A non-leaf function's entry prologue stores the return address.
pub proof fn lemma_prologue_ra_save(meta: FuncMeta)
    requires
        !meta.is_leaf,
    ensures
        exists|j: int|
            0 <= j < prologue_emits(meta, true).len() && (#[trigger] prologue_emits(
                meta,
                true,
            )[j]) matches Inst::Sw { rs: RA, imm12, rd },
{
    let s = prologue_emits(meta, true);
    let a = emit_addi(SP, SP, ((-(meta.frame_size as int)) as i32));
    let b = emit_sw(RA, (meta.frame_size - 4) as i32, SP);
    if spec_is_imm12((meta.frame_size - 4) as i32 as int) {
        assert(s[a.len() as int] matches Inst::Sw { rs: RA, imm12, rd });
    } else {
        assert(s[a.len() as int + 2] matches Inst::Sw { rs: RA, imm12, rd });
    }
}

impl RiscvBuilder {
    /// Creates a builder with an empty program.
    pub fn new() -> (builder: Self)
        ensures
            builder.prog.global_defs@.len() == 0,
            builder.prog.funcs@.len() == 0,
            builder.reg_mgr.wf(),
            builder.reg_mgr.bindings() == Seq::<(ir::ValueId, Reg)>::empty(),
            forall|r: Reg| r < 32 ==> builder.reg_mgr.spec_is_free(r),
    {
        RiscvBuilder {
            prog: riscv::Program::new(),
            reg_mgr: RegManager::new(),
            func_meta: FuncMeta::new(),
        }
    }

    /// Appends one instruction to the block under construction.
    pub fn push_inst(&mut self, inst: Inst)
        requires
            open_block(old(self).prog),
        ensures
            grown(old(self).prog, final(self).prog, seq![inst]),
            final(self).reg_mgr == old(self).reg_mgr,
            final(self).func_meta == old(self).func_meta,
    {
        let ghost p0 = self.prog;
        let mut func = self.prog.funcs.pop().unwrap();
        let mut block = func.blocks.pop().unwrap();
        block.insts.push(inst);
        func.blocks.push(block);
        self.prog.funcs.push(func);
        proof {
            assert(self.prog.funcs@.len() == p0.funcs@.len());
            assert forall|i: int| 0 <= i < p0.funcs@.len() - 1 implies #[trigger] self
                .prog.funcs@[i] == p0.funcs@[i] by {
                assert(self.prog.funcs@[i] == p0.funcs@.drop_last()[i]);
            }
            assert forall|i: int|
                0 <= i < p0.funcs@.last().blocks@.len() - 1 implies #[trigger] self.prog.funcs@.last(
            ).blocks@[i] == p0.funcs@.last().blocks@[i] by {
                assert(self.prog.funcs@.last().blocks@[i] == p0.funcs@.last(
                ).blocks@.drop_last()[i]);
            }
            assert(self.prog.funcs@.last().blocks@.last().insts@ == p0.funcs@.last(
            ).blocks@.last().insts@ + seq![inst]);
        }
    }

    /// Begins a new function: computes its frame layout, resets the
    /// register pool, and opens an empty function in the program.
    pub fn enter_func(&mut self, func: &ir::Func)
        requires
            func.wf(),
        ensures
            final(self).prog.global_defs@ == old(self).prog.global_defs@,
            final(self).prog.funcs@.len() == old(self).prog.funcs@.len() + 1,
            forall|i: int|
                0 <= i < old(self).prog.funcs@.len() ==> #[trigger] final(self).prog.funcs@[i]
                    == old(self).prog.funcs@[i],
            final(self).prog.funcs@.last().name == func.name,
            final(self).prog.funcs@.last().blocks@.len() == 0,
            final(self).func_meta.wf_for(*func),
            final(self).reg_mgr.wf(),
            final(self).reg_mgr.bindings() == Seq::<(ir::ValueId, Reg)>::empty(),
            forall|r: Reg| r < 32 ==> final(self).reg_mgr.spec_is_free(r),
    {
        self.func_meta = FuncMeta::from(func);
        self.reg_mgr.reset();
        self.prog.funcs.push(riscv::Func { name: func.name.clone(), blocks: Vec::new() });
    }

    /// Opens a new block in the function under construction.  The entry
    /// block carries the function's own label; later blocks carry their
    /// generator-assigned labels.
    pub fn enter_block(&mut self, func: &ir::Func, b: usize, is_entry: bool)
        requires
            old(self).prog.funcs@.len() > 0,
            b < func.blocks@.len(),
        ensures
            final(self).prog.global_defs@ == old(self).prog.global_defs@,
            final(self).prog.funcs@.len() == old(self).prog.funcs@.len(),
            forall|i: int|
                0 <= i < old(self).prog.funcs@.len() - 1 ==> #[trigger] final(self).prog.funcs@[i]
                    == old(self).prog.funcs@[i],
            final(self).prog.funcs@.last().name == old(self).prog.funcs@.last().name,
            final(self).prog.funcs@.last().blocks@.len() == old(self).prog.funcs@.last(
            ).blocks@.len() + 1,
            forall|i: int|
                0 <= i < old(self).prog.funcs@.last().blocks@.len() ==> #[trigger] final(self)
                    .prog.funcs@.last().blocks@[i] == old(self).prog.funcs@.last().blocks@[i],
            final(self).prog.funcs@.last().blocks@.last().name == (if is_entry {
                func.name
            } else {
                func.blocks@[b as int].name
            }),
            final(self).prog.funcs@.last().blocks@.last().insts@ == Seq::<Inst>::empty(),
            open_block(final(self).prog),
            final(self).reg_mgr == old(self).reg_mgr,
            final(self).func_meta == old(self).func_meta,
    {
        let name = if is_entry {
            func.name.clone()
        } else {
            func.blocks[b].name.clone()
        };
        let mut f = self.prog.funcs.pop().unwrap();
        f.blocks.push(riscv::Block { name, insts: Vec::new() });
        self.prog.funcs.push(f);
        proof {
            assert forall|i: int| 0 <= i < old(self).prog.funcs@.len() - 1 implies #[trigger] self
                .prog.funcs@[i] == old(self).prog.funcs@[i] by {
                assert(self.prog.funcs@[i] == old(self).prog.funcs@.drop_last()[i]);
            }
        }
    }
}

} // verus!
