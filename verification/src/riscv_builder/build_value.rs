//! Lowering of each IR value kind to its instruction sequence.

use vstd::prelude::*;

use super::{
    consumable, consume_bs, consume_rv, emit_binop, emit_pass_args, emit_restores, emit_saves,
    grown, lemma_grown_trans, needs_alloc, off_of, open_block, pick_reg, resolvable, resolve_bs,
    resolve_emits, resolve_emits_to, resolve_reg, resolve_rv, RiscvBuilder,
};
use crate::reg_manager::reg_of_key;
use crate::func_meta::{lemma_frame_size_bound, spec_frame_size};
use crate::ir::{self, ValueId, ValueKind};
use crate::reg_manager::{
    find_free_in, key_at, lemma_find_free_is_free, lemma_remove_key_no_other, pair_at, RegManager,
};
use crate::riscv::{spec_allocatable, Inst, Reg, A0, RA, SP, T0, X0};

verus! {

/// The argument register holding the register-passed parameter `i`.
pub fn arg_reg(i: usize) -> (r: Reg)
    requires
        i < 8,
    ensures
        r == (10 + i) as Reg,
{
    A0 + (i as u8)
}


/// From a recorded pair, the occupancy table marks the register as
/// holding the value.
pub proof fn lemma_live_at(m: RegManager, v: ValueId, r: Reg)
    requires
        m.wf(),
        pair_at(m.bindings(), v, r),
    ensures
        m.reg2val@[r as int] == Some(v),
        spec_allocatable(r),
{
    let i = choose|i: int| 0 <= i < m.bindings().len() && #[trigger] m.bindings()[i] == (v, r);
    assert(m.reg2val@[m.bindings()[i].1 as int] == Some(m.bindings()[i].0));
}

/// The register an operand resolves to is recorded for it right after
/// resolution, unless it is the zero register.
pub proof fn lemma_resolved_pair(
    rv0: Seq<Option<ValueId>>,
    bs0: Seq<(ValueId, Reg)>,
    func: crate::ir::Func,
    v: ValueId,
)
    requires
        consumable(rv0, bs0, func, v),
    ensures
        resolve_reg(rv0, bs0, func, v) != X0 ==> pair_at(
            resolve_bs(rv0, bs0, func, v),
            v,
            resolve_reg(rv0, bs0, func, v),
        ),
{
    let r = resolve_reg(rv0, bs0, func, v);
    let bs1 = resolve_bs(rv0, bs0, func, v);
    if r != X0 {
        match func.kind_of(v) {
            ValueKind::Integer { value } => {
                assert(bs1[bs0.len() as int] == (v, r));
            },
            ValueKind::FuncArgRef { index } => {
                if index >= 8 {
                    assert(bs1[bs0.len() as int] == (v, r));
                }
            },
            _ => {
                let i = choose|i: int| 0 <= i < bs0.len() && (#[trigger] bs0[i]).0 == v;
                assert(pair_at(bs0, v, bs0[i].1));
                assert(pair_at(bs0, v, reg_of_key(bs0, v)));
            },
        }
    }
}

impl RiscvBuilder {
    /// Lowers an integer literal: an unused zero is the zero register
    /// and costs nothing; anything else is loaded into a register with
    /// `li`.
    pub fn build_integer(&mut self, func: &ir::Func, value: ValueId, dst: Option<Reg>) -> (res:
        Option<Reg>)
        requires
            open_block(old(self).prog),
            old(self).reg_mgr.wf(),
            value < func.values@.len(),
            func.kind_of(value) is Integer,
            !old(self).reg_mgr.has_binding(value),
            match dst {
                Some(rd) => rd != X0 && spec_allocatable(rd) && old(self).reg_mgr.spec_is_free(rd),
                None => func.int_of(value) == 0 || old(self).reg_mgr.spec_find_free() is Some,
            },
        ensures
            final(self).func_meta == old(self).func_meta,
            (dst is None && func.int_of(value) == 0) ==> res == Some(X0) && *final(self) == *old(
                self,
            ),
            !(dst is None && func.int_of(value) == 0) ==> ({
                let rd = pick_reg(old(self).reg_mgr.reg2val@, dst);
                &&& res == Some(rd)
                &&& rd != X0
                &&& spec_allocatable(rd)
                &&& grown(
                    old(self).prog,
                    final(self).prog,
                    seq![Inst::Li { rd, imm: func.int_of(value) }],
                )
                &&& final(self).reg_mgr.wf()
                &&& final(self).reg_mgr.bindings() == old(self).reg_mgr.bindings().push(
                    (value, rd),
                )
                &&& final(self).reg_mgr.reg2val@ == old(self).reg_mgr.reg2val@.update(
                    rd as int,
                    Some(value),
                )
            }),
    {
        let imm = match &func.values[value].kind {
            ValueKind::Integer { value: v } => *v,
            _ => 0,
        };
        if dst.is_none() && imm == 0 {
            return Some(X0);
        }
        let rd = self.reg_mgr.allocate(value, dst);
        self.push_inst(Inst::Li { rd, imm });
        Some(rd)
    }

    /// Lowers a parameter reference: the first eight live in `a0`..`a7`;
    /// later ones are loaded from the caller's stack-argument area just
    /// above this frame.
    pub fn build_func_arg_ref(&mut self, func: &ir::Func, value: ValueId) -> (res: Option<Reg>)
        requires
            open_block(old(self).prog),
            old(self).reg_mgr.wf(),
            func.wf(),
            old(self).func_meta.wf_for(*func),
            value < func.values@.len(),
            func.kind_of(value) is FuncArgRef,
            func.arg_index_of(value) >= 8 ==> !old(self).reg_mgr.has_binding(value) && old(
                self,
            ).reg_mgr.spec_find_free() is Some,
        ensures
            final(self).func_meta == old(self).func_meta,
            func.arg_index_of(value) < 8 ==> res == Some((10 + func.arg_index_of(value)) as Reg)
                && *final(self) == *old(self),
            func.arg_index_of(value) >= 8 ==> ({
                let rd = pick_reg(old(self).reg_mgr.reg2val@, None);
                let imm = ((func.arg_index_of(value) - 8) * 4 + spec_frame_size(*func)) as i32;
                &&& res == Some(rd)
                &&& rd != X0
                &&& spec_allocatable(rd)
                &&& grown(old(self).prog, final(self).prog, super::emit_lw(rd, imm, SP))
                &&& final(self).reg_mgr.wf()
                &&& final(self).reg_mgr.bindings() == old(self).reg_mgr.bindings().push(
                    (value, rd),
                )
                &&& final(self).reg_mgr.reg2val@ == old(self).reg_mgr.reg2val@.update(
                    rd as int,
                    Some(value),
                )
            }),
    {
        let idx = match &func.values[value].kind {
            ValueKind::FuncArgRef { index } => *index,
            _ => 0,
        };
        if idx < 8 {
            return Some(arg_reg(idx));
        }
        proof {
            assert(func.kind_wf(func.values@[value as int].kind));
            lemma_frame_size_bound(*func);
        }
        let imm = (idx - 8) * 4 + self.func_meta.frame_size();
        let rd = self.reg_mgr.allocate(value, None);
        self.build_lw(rd, imm as i32, SP);
        Some(rd)
    }
}


impl RiscvBuilder {
    /// Appends two instructions to the block under construction.
    fn push2(&mut self, a: Inst, b: Inst)
        requires
            open_block(old(self).prog),
        ensures
            grown(old(self).prog, final(self).prog, seq![a, b]),
            final(self).reg_mgr == old(self).reg_mgr,
            final(self).func_meta == old(self).func_meta,
    {
        let ghost p0 = self.prog;
        self.push_inst(a);
        let ghost p1 = self.prog;
        self.push_inst(b);
        proof {
            lemma_grown_trans(p0, p1, self.prog, seq![a], seq![b]);
            assert(seq![a] + seq![b] =~= seq![a, b]);
        }
    }

    /// Lowers a binary operation: both operands are resolved to
    /// registers, one instruction sequence per operator is emitted into
    /// a freshly allocated result register, and both operand registers
    /// are released.
    #[verifier::rlimit(80)]
    pub fn build_binary(&mut self, func: &ir::Func, value: ValueId, dst: Option<Reg>) -> (res:
        Option<Reg>)
        requires
            open_block(old(self).prog),
            old(self).reg_mgr.wf(),
            func.wf(),
            old(self).func_meta.wf_for(*func),
            value < func.values@.len(),
            func.kind_of(value) is Binary,
            dst is None,
            !old(self).reg_mgr.has_binding(value),
            ({
                let rv0 = old(self).reg_mgr.reg2val@;
                let bs0 = old(self).reg_mgr.bindings();
                match func.kind_of(value) {
                    ValueKind::Binary { op, lhs, rhs } => {
                        let rv1 = resolve_rv(rv0, bs0, *func, lhs);
                        let bs1 = resolve_bs(rv0, bs0, *func, lhs);
                        let rv2 = resolve_rv(rv1, bs1, *func, rhs);
                        &&& consumable(rv0, bs0, *func, lhs)
                        &&& consumable(rv1, bs1, *func, rhs)
                        &&& (lhs != rhs || func.kind_of(lhs) == (ValueKind::Integer {
                            value: 0i32,
                        }))
                        &&& find_free_in(rv2) is Some
                    },
                    _ => false,
                }
            }),
        ensures
            final(self).func_meta == old(self).func_meta,
            final(self).reg_mgr.wf(),
            ({
                let rv0 = old(self).reg_mgr.reg2val@;
                let bs0 = old(self).reg_mgr.bindings();
                match func.kind_of(value) {
                    ValueKind::Binary { op, lhs, rhs } => {
                        let r1 = resolve_reg(rv0, bs0, *func, lhs);
                        let rv1 = resolve_rv(rv0, bs0, *func, lhs);
                        let bs1 = resolve_bs(rv0, bs0, *func, lhs);
                        let r2 = resolve_reg(rv1, bs1, *func, rhs);
                        let rv2 = resolve_rv(rv1, bs1, *func, rhs);
                        let bs2 = resolve_bs(rv1, bs1, *func, rhs);
                        let rd = pick_reg(rv2, None);
                        let bs3 = bs2.push((value, rd));
                        let rv3 = rv2.update(rd as int, Some(value));
                        &&& res == Some(rd)
                        &&& rd != X0
                        &&& spec_allocatable(rd)
                        &&& grown(
                            old(self).prog,
                            final(self).prog,
                            resolve_emits(rv0, bs0, *func, lhs) + resolve_emits(
                                rv1,
                                bs1,
                                *func,
                                rhs,
                            ) + emit_binop(op, r1, r2, rd),
                        )
                        &&& final(self).reg_mgr.bindings() == consume_bs(
                            consume_bs(bs3, lhs, r1),
                            rhs,
                            r2,
                        )
                        &&& final(self).reg_mgr.reg2val@ == consume_rv(consume_rv(rv3, r1), r2)
                    },
                    _ => true,
                }
            }),
    {
        let (op, lhs, rhs) = match &func.values[value].kind {
            ValueKind::Binary { op, lhs, rhs } => (*op, *lhs, *rhs),
            _ => (ir::BinaryOp::Add, 0, 0),
        };
        let ghost rv0 = self.reg_mgr.reg2val@;
        let ghost bs0 = self.reg_mgr.bindings();
        let ghost p0 = self.prog;

        let lhs_reg = self.move_inst(func, lhs, None);
        let ghost ghost_m1 = self.reg_mgr;
        let ghost rv1 = self.reg_mgr.reg2val@;
        let ghost bs1 = self.reg_mgr.bindings();
        let ghost p1 = self.prog;

        let rhs_reg = self.move_inst(func, rhs, None);
        let ghost ghost_m2 = self.reg_mgr;
        let ghost rv2 = self.reg_mgr.reg2val@;
        let ghost bs2 = self.reg_mgr.bindings();
        let ghost p2 = self.prog;

        proof {
            // The result value cannot be bound: pushed operand entries
            // carry literal or parameter kinds, never a binary one.
            assert forall|i: int| 0 <= i < bs2.len() implies (#[trigger] bs2[i]).0 != value by {
                if i < bs0.len() {
                    assert(bs2[i] == bs0[i]);
                    assert(!key_at(bs0, value));
                } else {
                    assert(bs2[i].0 == lhs || bs2[i].0 == rhs);
                    if bs2[i].0 == lhs {
                        assert(needs_alloc(*func, lhs));
                    } else {
                        assert(needs_alloc(*func, rhs));
                    }
                }
            }
            lemma_find_free_is_free(rv2);
        }
        let rd = self.reg_mgr.allocate(value, None);
        let ghost rv3 = self.reg_mgr.reg2val@;
        let ghost bs3 = self.reg_mgr.bindings();
        let ghost p3 = self.prog;

        match op {
            ir::BinaryOp::NotEq => {
                if lhs_reg != X0 {
                    self.push2(
                        Inst::Xor { rd, rs1: lhs_reg, rs2: rhs_reg },
                        Inst::Snez { rd, rs: rd },
                    );
                } else {
                    self.push_inst(Inst::Snez { rd, rs: rhs_reg });
                }
            },
            ir::BinaryOp::Eq => {
                if lhs_reg != X0 {
                    self.push2(
                        Inst::Xor { rd, rs1: lhs_reg, rs2: rhs_reg },
                        Inst::Seqz { rd, rs: rd },
                    );
                } else {
                    self.push_inst(Inst::Seqz { rd, rs: rhs_reg });
                }
            },
            ir::BinaryOp::Gt => self.push_inst(Inst::Sgt { rd, rs1: lhs_reg, rs2: rhs_reg }),
            ir::BinaryOp::Lt => self.push_inst(Inst::Slt { rd, rs1: lhs_reg, rs2: rhs_reg }),
            ir::BinaryOp::Ge => {
                self.push2(
                    Inst::Slt { rd, rs1: lhs_reg, rs2: rhs_reg },
                    Inst::Xori { rd, rs: rd, imm12: 1 },
                );
            },
            ir::BinaryOp::Le => {
                self.push2(
                    Inst::Sgt { rd, rs1: lhs_reg, rs2: rhs_reg },
                    Inst::Xori { rd, rs: rd, imm12: 1 },
                );
            },
            ir::BinaryOp::Add => self.push_inst(Inst::Add { rd, rs1: lhs_reg, rs2: rhs_reg }),
            ir::BinaryOp::Sub => self.push_inst(Inst::Sub { rd, rs1: lhs_reg, rs2: rhs_reg }),
            ir::BinaryOp::Mul => self.push_inst(Inst::Mul { rd, rs1: lhs_reg, rs2: rhs_reg }),
            ir::BinaryOp::Div => self.push_inst(Inst::Div { rd, rs1: lhs_reg, rs2: rhs_reg }),
            ir::BinaryOp::Mod => self.push_inst(Inst::Rem { rd, rs1: lhs_reg, rs2: rhs_reg }),
            ir::BinaryOp::And => self.push_inst(Inst::And { rd, rs1: lhs_reg, rs2: rhs_reg }),
            ir::BinaryOp::Or => self.push_inst(Inst::Or { rd, rs1: lhs_reg, rs2: rhs_reg }),
            ir::BinaryOp::Xor => self.push_inst(Inst::Xor { rd, rs1: lhs_reg, rs2: rhs_reg }),
        }
        proof {
            assert(grown(p3, self.prog, emit_binop(op, lhs_reg, rhs_reg, rd)));
            lemma_grown_trans(
                p0,
                p1,
                p2,
                resolve_emits(rv0, bs0, *func, lhs),
                resolve_emits(rv1, bs1, *func, rhs),
            );
            lemma_grown_trans(
                p0,
                p2,
                p3,
                resolve_emits(rv0, bs0, *func, lhs) + resolve_emits(rv1, bs1, *func, rhs),
                Seq::<Inst>::empty(),
            );
            assert(resolve_emits(rv0, bs0, *func, lhs) + resolve_emits(rv1, bs1, *func, rhs)
                + Seq::<Inst>::empty() =~= resolve_emits(rv0, bs0, *func, lhs) + resolve_emits(
                rv1,
                bs1,
                *func,
                rhs,
            ));
            lemma_grown_trans(
                p0,
                p3,
                self.prog,
                resolve_emits(rv0, bs0, *func, lhs) + resolve_emits(rv1, bs1, *func, rhs),
                emit_binop(op, lhs_reg, rhs_reg, rd),
            );
            // Release preconditions: each operand register still holds
            // its operand, or the operand was the costless zero.
            lemma_find_free_is_free(rv0);
            lemma_find_free_is_free(rv1);
            lemma_resolved_pair(rv0, bs0, *func, lhs);
            lemma_resolved_pair(rv1, bs1, *func, rhs);
            if lhs_reg != X0 {
                lemma_live_at(ghost_m1, lhs, lhs_reg);
                assert(rv1[lhs_reg as int] == Some(lhs));
                assert(rv2[lhs_reg as int] == Some(lhs));
                assert(rv3[lhs_reg as int] == Some(lhs));
                assert(self.reg_mgr.val_at(lhs_reg) == Some(lhs));
            } else {
                assert forall|i: int| 0 <= i < bs3.len() implies (#[trigger] bs3[i]).0
                    != lhs by {
                    if i < bs0.len() {
                        assert(bs3[i] == bs0[i]);
                        assert(!key_at(bs0, lhs));
                    } else if i < bs2.len() {
                        assert(bs3[i].0 == rhs && needs_alloc(*func, rhs));
                    } else {
                        assert(bs3[i].0 == value);
                    }
                }
            }
        }
        self.reg_mgr.free(lhs, lhs_reg);
        proof {
            if rhs_reg != X0 {
                lemma_live_at(ghost_m2, rhs, rhs_reg);
                assert(rv2[rhs_reg as int] == Some(rhs));
                if lhs_reg != X0 {
                    assert(lhs_reg != rhs_reg);
                }
                assert(self.reg_mgr.reg2val@[rhs_reg as int] == Some(rhs));
                assert(self.reg_mgr.val_at(rhs_reg) == Some(rhs));
            } else {
                assert forall|i: int| 0 <= i < bs3.len() implies (#[trigger] bs3[i]).0
                    != rhs by {
                    if i < bs1.len() {
                        assert(bs3[i] == bs1[i]);
                        assert(!key_at(bs1, rhs));
                    } else if i < bs2.len() {
                        assert(bs3[i].0 == rhs && needs_alloc(*func, rhs));
                    } else {
                        assert(bs3[i].0 == value);
                    }
                }
                if lhs_reg != X0 {
                    lemma_remove_key_no_other(bs3, lhs, rhs);
                }
            }
        }
        self.reg_mgr.free(rhs, rhs_reg);
        Some(rd)
    }
}


impl RiscvBuilder {
    /// Lowers a load: the source address is a global label, a frame
    /// slot, or a pointer held in a register; the word is read into a
    /// freshly allocated register.
    #[verifier::rlimit(80)]
    pub fn build_load(&mut self, func: &ir::Func, value: ValueId, dst: Option<Reg>) -> (res: Option<
        Reg,
    >)
        requires
            open_block(old(self).prog),
            old(self).reg_mgr.wf(),
            func.wf(),
            old(self).func_meta.wf_for(*func),
            value < func.values@.len(),
            func.kind_of(value) is Load,
            dst is None,
            !old(self).reg_mgr.has_binding(value),
            find_free_in(old(self).reg_mgr.reg2val@) is Some,
            ({
                let rv0 = old(self).reg_mgr.reg2val@;
                let bs0 = old(self).reg_mgr.bindings();
                let rd = pick_reg(rv0, None);
                let rv_a = rv0.update(rd as int, Some(value));
                let bs_a = bs0.push((value, rd));
                match func.kind_of(value) {
                    ValueKind::Load { src } => {
                        func.kind_of(src) is GlobalRef || old(self).func_meta.spec_offset(src)
                            is Some || (src != value && consumable(rv_a, bs_a, *func, src))
                    },
                    _ => false,
                }
            }),
        ensures
            final(self).func_meta == old(self).func_meta,
            final(self).reg_mgr.wf(),
            ({
                let rv0 = old(self).reg_mgr.reg2val@;
                let bs0 = old(self).reg_mgr.bindings();
                let rd = pick_reg(rv0, None);
                let rv_a = rv0.update(rd as int, Some(value));
                let bs_a = bs0.push((value, rd));
                match func.kind_of(value) {
                    ValueKind::Load { src } => {
                        &&& res == Some(rd)
                        &&& rd != X0
                        &&& (func.kind_of(src) is GlobalRef ==> grown(
                            old(self).prog,
                            final(self).prog,
                            seq![Inst::La { rd, label: func.global_name_of(src) }] + super::emit_lw(
                                rd,
                                0,
                                rd,
                            ),
                        ) && final(self).reg_mgr.bindings() == bs_a && final(self).reg_mgr.reg2val@
                            == rv_a)
                        &&& (!(func.kind_of(src) is GlobalRef) && old(self).func_meta.spec_offset(
                            src,
                        ) is Some ==> (match old(self).func_meta.spec_offset(src) {
                            Some(off) => grown(
                                old(self).prog,
                                final(self).prog,
                                super::emit_lw(rd, off as i32, SP),
                            ),
                            None => false,
                        }) && final(self).reg_mgr.bindings() == bs_a && final(self).reg_mgr.reg2val@
                            == rv_a)
                        &&& (!(func.kind_of(src) is GlobalRef) && old(self).func_meta.spec_offset(
                            src,
                        ) is None ==> ({
                            let rs = resolve_reg(rv_a, bs_a, *func, src);
                            let rv_b = resolve_rv(rv_a, bs_a, *func, src);
                            let bs_b = resolve_bs(rv_a, bs_a, *func, src);
                            &&& grown(
                                old(self).prog,
                                final(self).prog,
                                resolve_emits(rv_a, bs_a, *func, src) + super::emit_lw(rd, 0, rs),
                            )
                            &&& final(self).reg_mgr.bindings() == consume_bs(bs_b, src, rs)
                            &&& final(self).reg_mgr.reg2val@ == consume_rv(rv_b, rs)
                        }))
                    },
                    _ => true,
                }
            }),
    {
        let src = match &func.values[value].kind {
            ValueKind::Load { src } => *src,
            _ => 0,
        };
        proof {
            assert(func.kind_wf(func.values@[value as int].kind));
        }
        let ghost rv0 = self.reg_mgr.reg2val@;
        let ghost bs0 = self.reg_mgr.bindings();
        let ghost p0 = self.prog;
        proof {
            lemma_find_free_is_free(rv0);
        }
        let rd = self.reg_mgr.allocate(value, None);
        let ghost m_a = self.reg_mgr;
        let ghost p_a = self.prog;

        let is_global = match &func.values[src].kind {
            ValueKind::GlobalRef { .. } => true,
            _ => false,
        };
        if is_global {
            let label = match &func.values[src].kind {
                ValueKind::GlobalRef { name } => name.clone(),
                _ => String::new(),
            };
            let ghost pb = self.prog;
            self.push_inst(Inst::La { rd, label });
            let ghost pc = self.prog;
            self.build_lw(rd, 0, rd);
            proof {
                lemma_grown_trans(
                    p_a,
                    pc,
                    self.prog,
                    seq![Inst::La { rd, label: func.global_name_of(src) }],
                    super::emit_lw(rd, 0, rd),
                );
            }
            return Some(rd);
        }
        let off = self.func_meta.offset(src);
        match off {
            Some(imm) => {
                proof {
                    assert(imm <= old(self).func_meta.frame_size);
                    lemma_frame_size_bound(*func);
                }
                self.build_lw(rd, imm as i32, SP);
                Some(rd)
            },
            None => {
                let rs = self.move_inst(func, src, None);
                let ghost m_b = self.reg_mgr;
                let ghost p_b = self.prog;
                self.build_lw(rd, 0, rs);
                proof {
                    lemma_grown_trans(
                        p_a,
                        p_b,
                        self.prog,
                        resolve_emits(m_a.reg2val@, m_a.bindings(), *func, src),
                        super::emit_lw(rd, 0, rs),
                    );
                    lemma_find_free_is_free(m_a.reg2val@);
                    lemma_resolved_pair(m_a.reg2val@, m_a.bindings(), *func, src);
                    if rs != X0 {
                        lemma_live_at(m_b, src, rs);
                        assert(self.reg_mgr.val_at(rs) == Some(src));
                    } else {
                        assert forall|i: int|
                            0 <= i < m_b.bindings().len() implies (#[trigger] m_b.bindings()[i]).0
                            != src by {
                            if i < bs0.len() {
                                assert(m_b.bindings()[i] == bs0[i]);
                                assert(!key_at(m_a.bindings(), src));
                                assert(m_a.bindings()[i] == bs0[i]);
                            } else {
                                assert(m_b.bindings()[i].0 == value);
                            }
                        }
                    }
                }
                self.reg_mgr.free(src, rs);
                Some(rd)
            },
        }
    }

    /// Lowers a store: the value is resolved to a register, then
    /// written through a global label, a frame slot, or a pointer.
    #[verifier::rlimit(80)]
    pub fn build_store(&mut self, func: &ir::Func, value: ValueId) -> (res: Option<Reg>)
        requires
            open_block(old(self).prog),
            old(self).reg_mgr.wf(),
            func.wf(),
            old(self).func_meta.wf_for(*func),
            value < func.values@.len(),
            func.kind_of(value) is Store,
            ({
                let rv0 = old(self).reg_mgr.reg2val@;
                let bs0 = old(self).reg_mgr.bindings();
                match func.kind_of(value) {
                    ValueKind::Store { value: src, dest } => {
                        let rv1 = resolve_rv(rv0, bs0, *func, src);
                        let bs1 = resolve_bs(rv0, bs0, *func, src);
                        &&& consumable(rv0, bs0, *func, src)
                        &&& (func.kind_of(dest) is GlobalRef || old(self).func_meta.spec_offset(
                            dest,
                        ) is Some || (dest != src && consumable(rv1, bs1, *func, dest)))
                    },
                    _ => false,
                }
            }),
        ensures
            final(self).func_meta == old(self).func_meta,
            final(self).reg_mgr.wf(),
            res is None,
            ({
                let rv0 = old(self).reg_mgr.reg2val@;
                let bs0 = old(self).reg_mgr.bindings();
                match func.kind_of(value) {
                    ValueKind::Store { value: src, dest } => {
                        let rs = resolve_reg(rv0, bs0, *func, src);
                        let rv1 = resolve_rv(rv0, bs0, *func, src);
                        let bs1 = resolve_bs(rv0, bs0, *func, src);
                        &&& (func.kind_of(dest) is GlobalRef ==> grown(
                            old(self).prog,
                            final(self).prog,
                            resolve_emits(rv0, bs0, *func, src) + seq![
                                Inst::La { rd: T0, label: func.global_name_of(dest) },
                            ] + super::emit_sw(rs, 0, T0),
                        ) && final(self).reg_mgr.bindings() == consume_bs(bs1, src, rs) && final(self)
                            .reg_mgr.reg2val@ == consume_rv(rv1, rs))
                        &&& (!(func.kind_of(dest) is GlobalRef) && old(self).func_meta.spec_offset(
                            dest,
                        ) is Some ==> (match old(self).func_meta.spec_offset(dest) {
                            Some(off) => grown(
                                old(self).prog,
                                final(self).prog,
                                resolve_emits(rv0, bs0, *func, src) + super::emit_sw(
                                    rs,
                                    off as i32,
                                    SP,
                                ),
                            ),
                            None => false,
                        }) && final(self).reg_mgr.bindings() == consume_bs(bs1, src, rs) && final(self)
                            .reg_mgr.reg2val@ == consume_rv(rv1, rs))
                        &&& (!(func.kind_of(dest) is GlobalRef) && old(self).func_meta.spec_offset(
                            dest,
                        ) is None ==> ({
                            let rdp = resolve_reg(rv1, bs1, *func, dest);
                            let rv2 = resolve_rv(rv1, bs1, *func, dest);
                            let bs2 = resolve_bs(rv1, bs1, *func, dest);
                            &&& grown(
                                old(self).prog,
                                final(self).prog,
                                resolve_emits(rv0, bs0, *func, src) + resolve_emits(
                                    rv1,
                                    bs1,
                                    *func,
                                    dest,
                                ) + super::emit_sw(rs, 0, rdp),
                            )
                            &&& final(self).reg_mgr.bindings() == consume_bs(
                                consume_bs(bs2, src, rs),
                                dest,
                                rdp,
                            )
                            &&& final(self).reg_mgr.reg2val@ == consume_rv(consume_rv(rv2, rs), rdp)
                        }))
                    },
                    _ => true,
                }
            }),
    {
        let (src, dest) = match &func.values[value].kind {
            ValueKind::Store { value: s, dest } => (*s, *dest),
            _ => (0, 0),
        };
        proof {
            assert(func.kind_wf(func.values@[value as int].kind));
        }
        let ghost rv0 = self.reg_mgr.reg2val@;
        let ghost bs0 = self.reg_mgr.bindings();
        let ghost p0 = self.prog;

        let rs = self.move_inst(func, src, None);
        let ghost m1 = self.reg_mgr;
        let ghost p1 = self.prog;
        proof {
            lemma_find_free_is_free(rv0);
            lemma_resolved_pair(rv0, bs0, *func, src);
        }

        let is_global = match &func.values[dest].kind {
            ValueKind::GlobalRef { .. } => true,
            _ => false,
        };
        if is_global {
            let label = match &func.values[dest].kind {
                ValueKind::GlobalRef { name } => name.clone(),
                _ => String::new(),
            };
            self.push_inst(Inst::La { rd: T0, label });
            let ghost p2 = self.prog;
            self.build_sw(rs, 0, T0);
            proof {
                lemma_grown_trans(
                    p0,
                    p1,
                    p2,
                    resolve_emits(rv0, bs0, *func, src),
                    seq![Inst::La { rd: T0, label: func.global_name_of(dest) }],
                );
                lemma_grown_trans(
                    p0,
                    p2,
                    self.prog,
                    resolve_emits(rv0, bs0, *func, src) + seq![
                        Inst::La { rd: T0, label: func.global_name_of(dest) },
                    ],
                    super::emit_sw(rs, 0, T0),
                );
                if rs != X0 {
                    lemma_live_at(m1, src, rs);
                    assert(self.reg_mgr.val_at(rs) == Some(src));
                }
            }
            self.reg_mgr.free(src, rs);
            return None;
        }
        let off = self.func_meta.offset(dest);
        match off {
            Some(imm) => {
                proof {
                    assert(imm <= old(self).func_meta.frame_size);
                    lemma_frame_size_bound(*func);
                }
                self.build_sw(rs, imm as i32, SP);
                proof {
                    lemma_grown_trans(
                        p0,
                        p1,
                        self.prog,
                        resolve_emits(rv0, bs0, *func, src),
                        super::emit_sw(rs, imm as i32, SP),
                    );
                    if rs != X0 {
                        lemma_live_at(m1, src, rs);
                        assert(self.reg_mgr.val_at(rs) == Some(src));
                    }
                }
                self.reg_mgr.free(src, rs);
                None
            },
            None => {
                let rdp = self.move_inst(func, dest, None);
                let ghost m2 = self.reg_mgr;
                let ghost p2 = self.prog;
                self.build_sw(rs, 0, rdp);
                proof {
                    lemma_grown_trans(
                        p0,
                        p1,
                        p2,
                        resolve_emits(rv0, bs0, *func, src),
                        resolve_emits(m1.reg2val@, m1.bindings(), *func, dest),
                    );
                    lemma_grown_trans(
                        p0,
                        p2,
                        self.prog,
                        resolve_emits(rv0, bs0, *func, src) + resolve_emits(
                            m1.reg2val@,
                            m1.bindings(),
                            *func,
                            dest,
                        ),
                        super::emit_sw(rs, 0, rdp),
                    );
                    lemma_find_free_is_free(m1.reg2val@);
                    lemma_resolved_pair(m1.reg2val@, m1.bindings(), *func, dest);
                    if rs != X0 {
                        lemma_live_at(m1, src, rs);
                        assert(m2.reg2val@[rs as int] == Some(src));
                        assert(self.reg_mgr.val_at(rs) == Some(src));
                    } else {
                        assert forall|i: int|
                            0 <= i < m2.bindings().len() implies (#[trigger] m2.bindings()[i]).0
                            != src by {
                            if i < bs0.len() {
                                assert(m2.bindings()[i] == bs0[i]);
                                assert(!key_at(bs0, src));
                            } else {
                                assert(m2.bindings()[i].0 == dest);
                                assert(needs_alloc(*func, dest));
                            }
                        }
                    }
                }
                self.reg_mgr.free(src, rs);
                proof {
                    if rdp != X0 {
                        lemma_live_at(m2, dest, rdp);
                        if rs != X0 {
                            assert(rs != rdp);
                        }
                        assert(self.reg_mgr.val_at(rdp) == Some(dest));
                    } else {
                        assert forall|i: int|
                            0 <= i < m2.bindings().len() implies (#[trigger] m2.bindings()[i]).0
                            != dest by {
                            if i < m1.bindings().len() {
                                assert(m2.bindings()[i] == m1.bindings()[i]);
                                assert(!key_at(m1.bindings(), dest));
                            }
                        }
                        if rs != X0 {
                            lemma_remove_key_no_other(m2.bindings(), src, dest);
                        }
                    }
                }
                self.reg_mgr.free(dest, rdp);
                None
            },
        }
    }

    /// Lowers a conditional branch: the condition is resolved, `beqz`
    /// transfers to the false label, and an unconditional jump supplies
    /// the true target.
    pub fn build_branch(&mut self, func: &ir::Func, value: ValueId) -> (res: Option<Reg>)
        requires
            open_block(old(self).prog),
            old(self).reg_mgr.wf(),
            func.wf(),
            old(self).func_meta.wf_for(*func),
            value < func.values@.len(),
            func.kind_of(value) is Branch,
            ({
                let rv0 = old(self).reg_mgr.reg2val@;
                let bs0 = old(self).reg_mgr.bindings();
                match func.kind_of(value) {
                    ValueKind::Branch { cond, true_label, false_label } => consumable(
                        rv0,
                        bs0,
                        *func,
                        cond,
                    ),
                    _ => false,
                }
            }),
        ensures
            final(self).func_meta == old(self).func_meta,
            final(self).reg_mgr.wf(),
            res is None,
            ({
                let rv0 = old(self).reg_mgr.reg2val@;
                let bs0 = old(self).reg_mgr.bindings();
                match func.kind_of(value) {
                    ValueKind::Branch { cond, true_label, false_label } => {
                        let rc = resolve_reg(rv0, bs0, *func, cond);
                        &&& grown(
                            old(self).prog,
                            final(self).prog,
                            resolve_emits(rv0, bs0, *func, cond) + seq![
                                Inst::Beqz { rs: rc, label: false_label },
                                Inst::J { label: true_label },
                            ],
                        )
                        &&& final(self).reg_mgr.bindings() == consume_bs(
                            resolve_bs(rv0, bs0, *func, cond),
                            cond,
                            rc,
                        )
                        &&& final(self).reg_mgr.reg2val@ == consume_rv(
                            resolve_rv(rv0, bs0, *func, cond),
                            rc,
                        )
                    },
                    _ => true,
                }
            }),
    {
        let (cond, tl, fl) = match &func.values[value].kind {
            ValueKind::Branch { cond, true_label, false_label } => (
                *cond,
                true_label.clone(),
                false_label.clone(),
            ),
            _ => (0, String::new(), String::new()),
        };
        proof {
            assert(func.kind_wf(func.values@[value as int].kind));
        }
        let ghost rv0 = self.reg_mgr.reg2val@;
        let ghost bs0 = self.reg_mgr.bindings();
        let ghost p0 = self.prog;
        let rc = self.move_inst(func, cond, None);
        let ghost m1 = self.reg_mgr;
        let ghost p1 = self.prog;
        self.push2(Inst::Beqz { rs: rc, label: fl }, Inst::J { label: tl });
        proof {
            lemma_grown_trans(
                p0,
                p1,
                self.prog,
                resolve_emits(rv0, bs0, *func, cond),
                match func.kind_of(value) {
                    ValueKind::Branch { cond: c2, true_label, false_label } => seq![
                        Inst::Beqz { rs: rc, label: false_label },
                        Inst::J { label: true_label },
                    ],
                    _ => Seq::empty(),
                },
            );
            lemma_find_free_is_free(rv0);
            lemma_resolved_pair(rv0, bs0, *func, cond);
            if rc != X0 {
                lemma_live_at(m1, cond, rc);
                assert(self.reg_mgr.val_at(rc) == Some(cond));
            }
        }
        self.reg_mgr.free(cond, rc);
        None
    }

    /// Lowers an unconditional jump.
    pub fn build_jump(&mut self, func: &ir::Func, value: ValueId) -> (res: Option<Reg>)
        requires
            open_block(old(self).prog),
            value < func.values@.len(),
            func.kind_of(value) is Jump,
        ensures
            final(self).reg_mgr == old(self).reg_mgr,
            final(self).func_meta == old(self).func_meta,
            res is None,
            ({
                match func.kind_of(value) {
                    ValueKind::Jump { target } => grown(
                        old(self).prog,
                        final(self).prog,
                        seq![Inst::J { label: target }],
                    ),
                    _ => true,
                }
            }),
    {
        let target = match &func.values[value].kind {
            ValueKind::Jump { target } => target.clone(),
            _ => String::new(),
        };
        self.push_inst(Inst::J { label: target });
        None
    }
}


impl RiscvBuilder {
    /// Lowers a call: arguments are marshaled, every live register is
    /// saved, the call is emitted, the registers are restored, and a
    /// used result is moved from `a0` into a fresh register.
    #[verifier::rlimit(60)]
    pub fn build_call(&mut self, func: &ir::Func, value: ValueId, dst: Option<Reg>) -> (res: Option<
        Reg,
    >)
        requires
            open_block(old(self).prog),
            old(self).reg_mgr.wf(),
            func.wf(),
            old(self).func_meta.wf_for(*func),
            value < func.values@.len(),
            func.kind_of(value) is Call,
            dst is None,
            !old(self).reg_mgr.has_binding(value),
            func.spec_is_used(value) ==> find_free_in(old(self).reg_mgr.reg2val@) is Some,
            ({
                match func.kind_of(value) {
                    ValueKind::Call { callee, args } => forall|i: int|
                        0 <= i < args@.len() ==> #[trigger] args@[i] < func.values@.len() && (
                        func.kind_of(args@[i]) is Integer || old(self).func_meta.spec_offset(
                            args@[i],
                        ) is Some),
                    _ => false,
                }
            }),
        ensures
            final(self).func_meta == old(self).func_meta,
            final(self).reg_mgr.wf(),
            ({
                let rv0 = old(self).reg_mgr.reg2val@;
                let bs0 = old(self).reg_mgr.bindings();
                let regs = old(self).reg_mgr.live_regs();
                let asz = old(self).func_meta.arg_size as int;
                match func.kind_of(value) {
                    ValueKind::Call { callee, args } => {
                        let body = emit_pass_args(
                            *func,
                            old(self).func_meta,
                            args@,
                            args@.len() as int,
                        ) + emit_saves(regs, asz) + seq![Inst::Call { label: callee }]
                            + emit_restores(regs, asz);
                        &&& (func.spec_is_used(value) ==> ({
                            let rd = pick_reg(rv0, None);
                            &&& res == Some(rd)
                            &&& rd != X0
                            &&& grown(
                                old(self).prog,
                                final(self).prog,
                                body + seq![Inst::Mv { rd, rs: A0 }],
                            )
                            &&& final(self).reg_mgr.bindings() == bs0.push((value, rd))
                            &&& final(self).reg_mgr.reg2val@ == rv0.update(rd as int, Some(value))
                        }))
                        &&& (!func.spec_is_used(value) ==> res is None && grown(
                            old(self).prog,
                            final(self).prog,
                            body,
                        ) && final(self).reg_mgr == old(self).reg_mgr)
                    },
                    _ => true,
                }
            }),
    {
        let args = match &func.values[value].kind {
            ValueKind::Call { callee: _, args } => args.clone(),
            _ => Vec::new(),
        };
        let callee = match &func.values[value].kind {
            ValueKind::Call { callee, args: _ } => callee.clone(),
            _ => String::new(),
        };
        proof {
            assert(func.kind_wf(func.values@[value as int].kind));
            crate::func_meta::lemma_frame_size_bound(*func);
            assert(old(self).func_meta.arg_size == crate::func_meta::spec_arg_size(*func));
            crate::func_meta::lemma_layout_in_range(*func, func.blocks@);
            crate::func_meta::lemma_max_call_args_bound(*func, func.layout());
        }
        let ghost p0 = self.prog;
        self.pass_args(func, &args);
        let ghost p1 = self.prog;
        self.save_regs();
        let ghost p2 = self.prog;
        self.push_inst(Inst::Call { label: callee });
        let ghost p3 = self.prog;
        self.restore_regs();
        let ghost p4 = self.prog;
        proof {
            let ghost m = old(self).func_meta;
            let ghost regs = old(self).reg_mgr.live_regs();
            let ghost asz = old(self).func_meta.arg_size as int;
            let ghost e1 = emit_pass_args(
                *func,
                m,
                args@,
                args@.len() as int,
            );
            let ghost e2 = emit_saves(regs, asz);
            let ghost e4 = emit_restores(regs, asz);
            lemma_grown_trans(p0, p1, p2, e1, e2);
            lemma_grown_trans(p0, p2, p3, e1 + e2, seq![
                Inst::Call { label: func.values@[value as int].kind->Call_callee },
            ]);
            lemma_grown_trans(
                p0,
                p3,
                p4,
                (e1 + e2) + seq![Inst::Call { label: func.values@[value as int].kind->Call_callee }],
                e4,
            );
        }
        let is_used = func.values[value].used_by.len() > 0;
        if is_used {
            proof {
                lemma_find_free_is_free(old(self).reg_mgr.reg2val@);
            }
            let rd = self.reg_mgr.allocate(value, None);
            self.push_inst(Inst::Mv { rd, rs: A0 });
            proof {
                let ghost m = old(self).func_meta;
                let ghost regs = old(self).reg_mgr.live_regs();
                let ghost asz = old(self).func_meta.arg_size as int;
                let ghost body = emit_pass_args(*func, m, args@, args@.len() as int) + emit_saves(
                    regs,
                    asz,
                ) + seq![Inst::Call { label: func.values@[value as int].kind->Call_callee }]
                    + emit_restores(regs, asz);
                assert(((emit_pass_args(*func, m, args@, args@.len() as int) + emit_saves(
                    regs,
                    asz,
                )) + seq![Inst::Call { label: func.values@[value as int].kind->Call_callee }])
                    + emit_restores(regs, asz) =~= body);
                lemma_grown_trans(p0, p4, self.prog, body, seq![Inst::Mv { rd, rs: A0 }]);
            }
            Some(rd)
        } else {
            proof {
                let ghost m = old(self).func_meta;
                let ghost regs = old(self).reg_mgr.live_regs();
                let ghost asz = old(self).func_meta.arg_size as int;
                let ghost body = emit_pass_args(*func, m, args@, args@.len() as int) + emit_saves(
                    regs,
                    asz,
                ) + seq![Inst::Call { label: func.values@[value as int].kind->Call_callee }]
                    + emit_restores(regs, asz);
                assert(((emit_pass_args(*func, m, args@, args@.len() as int) + emit_saves(
                    regs,
                    asz,
                )) + seq![Inst::Call { label: func.values@[value as int].kind->Call_callee }])
                    + emit_restores(regs, asz) =~= body);
            }
            None
        }
    }

    /// Lowers a return: the result, if any, is moved into `a0`, the
    /// return address is reloaded when the function made calls, the
    /// frame is dropped, and `ret` transfers back.
    #[verifier::rlimit(60)]
    pub fn build_return(&mut self, func: &ir::Func, value: ValueId) -> (res: Option<Reg>)
        requires
            open_block(old(self).prog),
            old(self).reg_mgr.wf(),
            func.wf(),
            old(self).func_meta.wf_for(*func),
            value < func.values@.len(),
            func.kind_of(value) is Return,
            ({
                match func.kind_of(value) {
                    ValueKind::Return { value: opt } => match opt {
                        Some(v) => v < func.values@.len() && (match func.kind_of(v) {
                            ValueKind::Integer { value: imm } => !old(self).reg_mgr.has_binding(v)
                                && old(self).reg_mgr.spec_is_free(A0),
                            ValueKind::FuncArgRef { index } => false,
                            _ => old(self).reg_mgr.has_binding(v),
                        }),
                        None => true,
                    },
                    _ => false,
                }
            }),
        ensures
            final(self).func_meta == old(self).func_meta,
            final(self).reg_mgr.wf(),
            res is None,
            ({
                let rv0 = old(self).reg_mgr.reg2val@;
                let bs0 = old(self).reg_mgr.bindings();
                let frame = old(self).func_meta.frame_size;
                let epilogue = (if old(self).func_meta.is_leaf {
                    Seq::<Inst>::empty()
                } else {
                    super::emit_lw(RA, (frame - 4) as i32, SP)
                }) + super::emit_addi(SP, SP, frame as i32) + seq![Inst::Ret];
                match func.kind_of(value) {
                    ValueKind::Return { value: opt } => match opt {
                        Some(v) => grown(
                            old(self).prog,
                            final(self).prog,
                            resolve_emits_to(rv0, bs0, *func, v, A0) + epilogue,
                        ) && final(self).reg_mgr.bindings()
                            == crate::reg_manager::remove_key(
                            super::step_model::resolve_to_bs(rv0, bs0, *func, v, A0),
                            v,
                        ) && final(self).reg_mgr.reg2val@ == super::step_model::resolve_to_rv(
                            rv0,
                            bs0,
                            *func,
                            v,
                            A0,
                        ).update(A0 as int, None),
                        None => grown(old(self).prog, final(self).prog, epilogue) && final(self)
                            .reg_mgr == old(self).reg_mgr,
                    },
                    _ => true,
                }
            }),
    {
        let ret_val = match &func.values[value].kind {
            ValueKind::Return { value: v } => *v,
            _ => None,
        };
        proof {
            crate::func_meta::lemma_frame_size_bound(*func);
            assert(old(self).func_meta.frame_size == crate::func_meta::spec_frame_size(*func));
        }
        let ghost p0 = self.prog;
        let ghost rv0 = self.reg_mgr.reg2val@;
        let ghost bs0 = self.reg_mgr.bindings();
        match ret_val {
            Some(v) => {
                self.move_inst(func, v, Some(A0));
            },
            None => {},
        }
        let ghost m1 = self.reg_mgr;
        let ghost p1 = self.prog;
        let frame = self.func_meta.frame_size();
        if !self.func_meta.is_leaf() {
            proof {
                assert(crate::func_meta::spec_has_call(*func));
                assert(crate::func_meta::spec_raw_frame(*func) >= 4);
                assert(crate::func_meta::spec_frame_size(*func) >= crate::func_meta::spec_raw_frame(
                    *func,
                ));
            }
            self.build_lw(RA, (frame - 4) as i32, SP);
        }
        let ghost p2 = self.prog;
        self.build_addi(SP, SP, frame as i32);
        let ghost p3 = self.prog;
        match ret_val {
            Some(v) => {
                proof {
                    assert(m1.val_at(A0) == Some(v));
                }
                self.reg_mgr.free(v, A0);
            },
            None => {},
        }
        self.push_inst(Inst::Ret);
        proof {
            let ghost frame_g = old(self).func_meta.frame_size;
            let ghost e_ra: Seq<Inst> = if old(self).func_meta.is_leaf {
                Seq::<Inst>::empty()
            } else {
                super::emit_lw(RA, (frame_g - 4) as i32, SP)
            };
            if old(self).func_meta.is_leaf {
                assert(p2 == p1);
                assert(grown(p1, p2, e_ra)) by {
                    super::lemma_grown_refl(p1);
                }
            }
            lemma_grown_trans(p1, p2, p3, e_ra, super::emit_addi(SP, SP, frame_g as i32));
            lemma_grown_trans(
                p1,
                p3,
                self.prog,
                e_ra + super::emit_addi(SP, SP, frame_g as i32),
                seq![Inst::Ret],
            );
            assert((e_ra + super::emit_addi(SP, SP, frame_g as i32)) + seq![Inst::Ret] =~= e_ra
                + super::emit_addi(SP, SP, frame_g as i32) + seq![Inst::Ret]);
            match ret_val {
                Some(v) => {
                    lemma_grown_trans(
                        p0,
                        p1,
                        self.prog,
                        resolve_emits_to(rv0, bs0, *func, v, A0),
                        e_ra + super::emit_addi(SP, SP, frame_g as i32) + seq![Inst::Ret],
                    );
                },
                None => {},
            }
        }
        None
    }
}


impl RiscvBuilder {
    /// Lowers pointer arithmetic: the index is scaled by the element
    /// size into a scratch-lived register, the base address comes from
    /// a global label, the frame slot, or a register, and the sum lands
    /// in a fresh register.  Both forms of the operation share this
    /// sequence, since the element size is recorded on the value.
    #[verifier::rlimit(100)]
    #[verifier::spinoff_prover]
    fn build_gep_parts(
        &mut self,
        func: &ir::Func,
        value: ValueId,
        src: ValueId,
        index: ValueId,
        base_size: usize,
    ) -> (res: Option<Reg>)
        requires
            open_block(old(self).prog),
            old(self).reg_mgr.wf(),
            func.wf(),
            old(self).func_meta.wf_for(*func),
            value < func.values@.len(),
            src < func.values@.len(),
            index < func.values@.len(),
            base_size <= crate::ir::MAX_ELEM_SIZE,
            !old(self).reg_mgr.has_binding(value),
            index != value,
            src != value,
            src != index,
            !(func.kind_of(value) is Integer),
            !(func.kind_of(value) is FuncArgRef),
            super::step_model::gep_ok(
                old(self).reg_mgr.reg2val@,
                old(self).reg_mgr.bindings(),
                old(self).func_meta,
                *func,
                value,
                src,
                index,
            ),
        ensures
            final(self).func_meta == old(self).func_meta,
            final(self).reg_mgr.wf(),
            super::inst_grown(old(self).prog, final(self).prog, old(self).func_meta.is_leaf),
            super::ra_clean(
                super::step_model::gep_emits(
                    old(self).reg_mgr.reg2val@,
                    old(self).reg_mgr.bindings(),
                    old(self).func_meta,
                    *func,
                    value,
                    src,
                    index,
                    base_size,
                ),
            ),
            ({
                let rv0 = old(self).reg_mgr.reg2val@;
                let bs0 = old(self).reg_mgr.bindings();
                let meta = old(self).func_meta;
                &&& res == Some(
                    super::step_model::gep_result(rv0, bs0, meta, *func, value, src, index),
                )
                &&& super::step_model::gep_result(rv0, bs0, meta, *func, value, src, index) != X0
                &&& grown(
                    old(self).prog,
                    final(self).prog,
                    super::step_model::gep_emits(
                        rv0,
                        bs0,
                        meta,
                        *func,
                        value,
                        src,
                        index,
                        base_size,
                    ),
                )
                &&& final(self).reg_mgr.bindings() == super::step_model::gep_bs(
                    rv0,
                    bs0,
                    meta,
                    *func,
                    value,
                    src,
                    index,
                )
                &&& final(self).reg_mgr.reg2val@ == super::step_model::gep_rv(
                    rv0,
                    bs0,
                    meta,
                    *func,
                    value,
                    src,
                    index,
                )
            }),
    {
        let ghost rv0 = self.reg_mgr.reg2val@;
        let ghost bs0 = self.reg_mgr.bindings();
        let ghost p0 = self.prog;
        let is_global = match &func.values[src].kind {
            ValueKind::GlobalRef { .. } => true,
            _ => false,
        };
        let off = self.func_meta.offset(src);
        let is_local = !is_global && off.is_some();
        proof {
            crate::func_meta::lemma_frame_size_bound(*func);
        }

        if is_global || is_local {
            let ri = self.move_inst(func, index, None);
            let ghost mA = self.reg_mgr;
            let ghost pA = self.prog;
            proof {
                lemma_find_free_is_free(mA.reg2val@);
            }
            let ro = self.reg_mgr.allocate(value, None);
            let ghost mB = self.reg_mgr;
            self.build_muli(ro, ri, base_size as i32);
            let ghost pB = self.prog;
            proof {
                lemma_find_free_is_free(rv0);
                lemma_resolved_pair(rv0, bs0, *func, index);
                if ri != X0 {
                    lemma_live_at(mA, index, ri);
                    assert(ri != ro);
                    assert(self.reg_mgr.val_at(ri) == Some(index));
                } else {
                    assert forall|i: int|
                        0 <= i < mB.bindings().len() implies (#[trigger] mB.bindings()[i]).0
                        != index by {
                        if i < bs0.len() {
                            assert(mB.bindings()[i] == bs0[i]);
                            assert(!key_at(bs0, index));
                        } else {
                            assert(mB.bindings()[i].0 == value);
                        }
                    }
                }
            }
            self.reg_mgr.free(index, ri);
            proof {
                assert(self.reg_mgr.val_at(ro) == Some(value));
            }
            self.reg_mgr.free(value, ro);
            let ghost mD = self.reg_mgr;
            proof {
                assert(mD.reg2val@[ro as int] is None);
                assert(crate::reg_manager::scan_free_count(mD.reg2val@) > 0);
                crate::reg_manager::lemma_scan_count_find(mD.reg2val@);
                lemma_find_free_is_free(mD.reg2val@);
            }
            let rd = self.reg_mgr.allocate(value, None);
            let ghost pC = self.prog;
            if is_global {
                let label = match &func.values[src].kind {
                    ValueKind::GlobalRef { name } => name.clone(),
                    _ => String::new(),
                };
                self.push_inst(Inst::La { rd: T0, label });
            } else {
                let imm = match off {
                    Some(o) => o,
                    None => 0,
                };
                proof {
                    assert(imm <= old(self).func_meta.frame_size);
                }
                self.build_addi(T0, SP, imm as i32);
            }
            let ghost pD = self.prog;
            self.push_inst(Inst::Add { rd, rs1: T0, rs2: ro });
            proof {
                let ghost base: Seq<Inst> = if func.kind_of(src) is GlobalRef {
                    seq![Inst::La { rd: T0, label: func.global_name_of(src) }]
                } else {
                    super::emit_addi(T0, SP, off_of(old(self).func_meta, src) as i32)
                };
                let ghost e1 = resolve_emits(rv0, bs0, *func, index);
                let ghost e2 = super::emit_muli(ro, ri, base_size as i32);
                lemma_grown_trans(p0, pA, pB, e1, e2);
                lemma_grown_trans(p0, pB, pD, e1 + e2, base);
                lemma_grown_trans(
                    p0,
                    pD,
                    self.prog,
                    (e1 + e2) + base,
                    seq![Inst::Add { rd, rs1: T0, rs2: ro }],
                );
                assert(((e1 + e2) + base) + seq![Inst::Add { rd, rs1: T0, rs2: ro }] =~= e1 + e2
                    + base + seq![Inst::Add { rd, rs1: T0, rs2: ro }]);
                super::lemma_ra_clean_resolve(rv0, bs0, *func, index);
                super::lemma_ra_clean_concat(e1, e2);
                super::lemma_ra_clean_concat(e1 + e2, base);
                super::lemma_ra_clean_concat(
                    (e1 + e2) + base,
                    seq![Inst::Add { rd, rs1: T0, rs2: ro }],
                );
                super::lemma_inst_grown(
                    old(self).prog,
                    self.prog,
                    old(self).func_meta.is_leaf,
                    e1 + e2 + base + seq![Inst::Add { rd, rs1: T0, rs2: ro }],
                );
            }
            Some(rd)
        } else {
            let rs = self.move_inst(func, src, None);
            let ghost m1 = self.reg_mgr;
            let ghost p1 = self.prog;
            let ri = self.move_inst(func, index, None);
            let ghost mA = self.reg_mgr;
            let ghost pA = self.prog;
            proof {
                lemma_find_free_is_free(mA.reg2val@);
            }
            let ro = self.reg_mgr.allocate(value, None);
            let ghost mB = self.reg_mgr;
            self.build_muli(ro, ri, base_size as i32);
            let ghost pB = self.prog;
            proof {
                lemma_find_free_is_free(rv0);
                lemma_find_free_is_free(m1.reg2val@);
                lemma_resolved_pair(rv0, bs0, *func, src);
                lemma_resolved_pair(m1.reg2val@, m1.bindings(), *func, index);
                lemma_live_at(m1, src, rs);
                if ri != X0 {
                    lemma_live_at(mA, index, ri);
                    assert(ri != ro);
                    assert(self.reg_mgr.val_at(ri) == Some(index));
                } else {
                    assert forall|i: int|
                        0 <= i < mB.bindings().len() implies (#[trigger] mB.bindings()[i]).0
                        != index by {
                        if i < bs0.len() {
                            assert(mB.bindings()[i] == bs0[i]);
                            assert(!key_at(m1.bindings(), index));
                            assert(m1.bindings()[i] == bs0[i]);
                        } else if i < m1.bindings().len() {
                            assert(mB.bindings()[i].0 == src);
                        } else {
                            assert(mB.bindings()[i].0 == value);
                        }
                    }
                }
            }
            self.reg_mgr.free(index, ri);
            proof {
                assert(self.reg_mgr.val_at(ro) == Some(value));
            }
            self.reg_mgr.free(value, ro);
            let ghost mD = self.reg_mgr;
            proof {
                assert(mD.reg2val@[ro as int] is None);
                assert(crate::reg_manager::scan_free_count(mD.reg2val@) > 0);
                crate::reg_manager::lemma_scan_count_find(mD.reg2val@);
                lemma_find_free_is_free(mD.reg2val@);
            }
            let rd = self.reg_mgr.allocate(value, None);
            let ghost pC = self.prog;
            self.push_inst(Inst::Add { rd, rs1: ro, rs2: rs });
            proof {
                let ghost e1 = resolve_emits(rv0, bs0, *func, src);
                let ghost e2 = resolve_emits(m1.reg2val@, m1.bindings(), *func, index);
                let ghost e3 = super::emit_muli(ro, ri, base_size as i32);
                lemma_grown_trans(p0, p1, pA, e1, e2);
                lemma_grown_trans(p0, pA, pB, e1 + e2, e3);
                lemma_grown_trans(
                    p0,
                    pB,
                    self.prog,
                    (e1 + e2) + e3,
                    seq![Inst::Add { rd, rs1: ro, rs2: rs }],
                );
                assert(((e1 + e2) + e3) + seq![Inst::Add { rd, rs1: ro, rs2: rs }] =~= e1 + e2 + e3
                    + seq![Inst::Add { rd, rs1: ro, rs2: rs }]);
                super::lemma_ra_clean_resolve(rv0, bs0, *func, src);
                super::lemma_ra_clean_resolve(m1.reg2val@, m1.bindings(), *func, index);
                super::lemma_ra_clean_concat(e1, e2);
                super::lemma_ra_clean_concat(e1 + e2, e3);
                super::lemma_ra_clean_concat(
                    (e1 + e2) + e3,
                    seq![Inst::Add { rd, rs1: ro, rs2: rs }],
                );
                super::lemma_inst_grown(
                    old(self).prog,
                    self.prog,
                    old(self).func_meta.is_leaf,
                    e1 + e2 + e3 + seq![Inst::Add { rd, rs1: ro, rs2: rs }],
                );
                // The source pointer is still live for its release.
                assert(mD.reg2val@[rs as int] == Some(src));
                assert(self.reg_mgr.val_at(rs) == Some(src));
            }
            self.reg_mgr.free(src, rs);
            Some(rd)
        }
    }

    /// Lowers an array-element address computation.
    pub fn build_get_elem_ptr(&mut self, func: &ir::Func, value: ValueId, dst: Option<Reg>) -> (res:
        Option<Reg>)
        requires
            open_block(old(self).prog),
            old(self).reg_mgr.wf(),
            func.wf(),
            old(self).func_meta.wf_for(*func),
            value < func.values@.len(),
            func.kind_of(value) is GetElemPtr,
            dst is None,
            !old(self).reg_mgr.has_binding(value),
            ({
                match func.kind_of(value) {
                    ValueKind::GetElemPtr { src, index, base_size } => super::step_model::gep_ok(
                        old(self).reg_mgr.reg2val@,
                        old(self).reg_mgr.bindings(),
                        old(self).func_meta,
                        *func,
                        value,
                        src,
                        index,
                    ),
                    _ => false,
                }
            }),
        ensures
            final(self).func_meta == old(self).func_meta,
            final(self).reg_mgr.wf(),
            super::inst_grown(old(self).prog, final(self).prog, old(self).func_meta.is_leaf),
            ({
                let rv0 = old(self).reg_mgr.reg2val@;
                let bs0 = old(self).reg_mgr.bindings();
                let meta = old(self).func_meta;
                match func.kind_of(value) {
                    ValueKind::GetElemPtr { src, index, base_size } => {
                        &&& res == Some(
                            super::step_model::gep_result(
                                rv0,
                                bs0,
                                meta,
                                *func,
                                value,
                                src,
                                index,
                            ),
                        )
                        &&& super::ra_clean(
                            super::step_model::gep_emits(
                                rv0,
                                bs0,
                                meta,
                                *func,
                                value,
                                src,
                                index,
                                base_size,
                            ),
                        )
                        &&& grown(
                            old(self).prog,
                            final(self).prog,
                            super::step_model::gep_emits(
                                rv0,
                                bs0,
                                meta,
                                *func,
                                value,
                                src,
                                index,
                                base_size,
                            ),
                        )
                        &&& final(self).reg_mgr.bindings() == super::step_model::gep_bs(
                            rv0,
                            bs0,
                            meta,
                            *func,
                            value,
                            src,
                            index,
                        )
                        &&& final(self).reg_mgr.reg2val@ == super::step_model::gep_rv(
                            rv0,
                            bs0,
                            meta,
                            *func,
                            value,
                            src,
                            index,
                        )
                    },
                    _ => true,
                }
            }),
    {
        let (src, index, base_size) = match &func.values[value].kind {
            ValueKind::GetElemPtr { src, index, base_size } => (*src, *index, *base_size),
            _ => (0, 0, 0),
        };
        proof {
            assert(func.kind_wf(func.values@[value as int].kind));
        }
        self.build_gep_parts(func, value, src, index, base_size)
    }

    /// Lowers a pointer-offset computation; it shares the element
    /// address sequence, with the element size recorded on the value.
    pub fn build_get_ptr(&mut self, func: &ir::Func, value: ValueId, dst: Option<Reg>) -> (res:
        Option<Reg>)
        requires
            open_block(old(self).prog),
            old(self).reg_mgr.wf(),
            func.wf(),
            old(self).func_meta.wf_for(*func),
            value < func.values@.len(),
            func.kind_of(value) is GetPtr,
            dst is None,
            !old(self).reg_mgr.has_binding(value),
            ({
                match func.kind_of(value) {
                    ValueKind::GetPtr { src, index, base_size } => super::step_model::gep_ok(
                        old(self).reg_mgr.reg2val@,
                        old(self).reg_mgr.bindings(),
                        old(self).func_meta,
                        *func,
                        value,
                        src,
                        index,
                    ),
                    _ => false,
                }
            }),
        ensures
            final(self).func_meta == old(self).func_meta,
            final(self).reg_mgr.wf(),
            super::inst_grown(old(self).prog, final(self).prog, old(self).func_meta.is_leaf),
            ({
                let rv0 = old(self).reg_mgr.reg2val@;
                let bs0 = old(self).reg_mgr.bindings();
                let meta = old(self).func_meta;
                match func.kind_of(value) {
                    ValueKind::GetPtr { src, index, base_size } => {
                        &&& res == Some(
                            super::step_model::gep_result(
                                rv0,
                                bs0,
                                meta,
                                *func,
                                value,
                                src,
                                index,
                            ),
                        )
                        &&& super::ra_clean(
                            super::step_model::gep_emits(
                                rv0,
                                bs0,
                                meta,
                                *func,
                                value,
                                src,
                                index,
                                base_size,
                            ),
                        )
                        &&& grown(
                            old(self).prog,
                            final(self).prog,
                            super::step_model::gep_emits(
                                rv0,
                                bs0,
                                meta,
                                *func,
                                value,
                                src,
                                index,
                                base_size,
                            ),
                        )
                        &&& final(self).reg_mgr.bindings() == super::step_model::gep_bs(
                            rv0,
                            bs0,
                            meta,
                            *func,
                            value,
                            src,
                            index,
                        )
                        &&& final(self).reg_mgr.reg2val@ == super::step_model::gep_rv(
                            rv0,
                            bs0,
                            meta,
                            *func,
                            value,
                            src,
                            index,
                        )
                    },
                    _ => true,
                }
            }),
    {
        let (src, index, base_size) = match &func.values[value].kind {
            ValueKind::GetPtr { src, index, base_size } => (*src, *index, *base_size),
            _ => (0, 0, 0),
        };
        proof {
            assert(func.kind_wf(func.values@[value as int].kind));
        }
        self.build_gep_parts(func, value, src, index, base_size)
    }
}


/// The flattened image of the first `i` elements of a list.
pub open spec fn spec_fill_prefix(es: Seq<ir::InitVal>, i: int) -> Seq<crate::riscv::MemFill>
    decreases i,
{
    if i <= 0 {
        Seq::empty()
    } else {
        spec_fill_prefix(es, i - 1) + super::spec_fill(es[i - 1])
    }
}

/// A whole prefix image agrees with the tail-recursive form.
pub proof fn lemma_fill_prefix(es: Seq<ir::InitVal>, i: int)
    requires
        0 <= i <= es.len(),
    ensures
        spec_fill_prefix(es, es.len() as int) == spec_fill_prefix(es, i) + super::spec_fill_list(
            es,
            i,
        ),
    decreases es.len() - i,
{
    if i == es.len() {
        assert(spec_fill_prefix(es, i) + super::spec_fill_list(es, i) =~= spec_fill_prefix(es, i));
    } else {
        lemma_fill_prefix(es, i + 1);
        assert(spec_fill_prefix(es, i + 1) =~= spec_fill_prefix(es, i) + super::spec_fill(es[i]));
        assert((spec_fill_prefix(es, i) + super::spec_fill(es[i])) + super::spec_fill_list(
            es,
            i + 1,
        ) =~= spec_fill_prefix(es, i) + (super::spec_fill(es[i]) + super::spec_fill_list(
            es,
            i + 1,
        )));
    }
}

/// Flattens one initializer into `out`.
fn fill_init(init: &ir::InitVal, out: &mut Vec<crate::riscv::MemFill>)
    ensures
        final(out)@ == old(out)@ + super::spec_fill(*init),
    decreases *init,
{
    match init {
        ir::InitVal::Word(w) => {
            out.push(crate::riscv::MemFill::Word(*w));
            proof {
                assert(out@ =~= old(out)@ + super::spec_fill(*init));
            }
        },
        ir::InitVal::Zero(size) => {
            out.push(crate::riscv::MemFill::Zero(*size));
            proof {
                assert(out@ =~= old(out)@ + super::spec_fill(*init));
            }
        },
        ir::InitVal::List(elems) => {
            let mut i: usize = 0;
            while i < elems.len()
                invariant
                    i <= elems@.len(),
                    *init == ir::InitVal::List(*elems),
                    out@ == old(out)@ + spec_fill_prefix(elems@, i as int),
                decreases elems@.len() - i,
            {
                proof {
                    broadcast use vstd::std_specs::vec::axiom_vec_index_decreases;

                    assert(*init == ir::InitVal::List(*elems));
                    assert(decreases_to!(*init => (*init)->List_0));
                    assert((*init)->List_0 == *elems);
                    assert(decreases_to!(*elems => (*elems)[i as int]));
                }
                fill_init(&elems[i], out);
                proof {
                    assert((old(out)@ + spec_fill_prefix(elems@, i as int)) + super::spec_fill(
                        elems@[i as int],
                    ) =~= old(out)@ + spec_fill_prefix(elems@, i + 1));
                }
                i += 1;
            }
            proof {
                lemma_fill_prefix(elems@, 0);
                assert(spec_fill_prefix(elems@, elems@.len() as int) =~= super::spec_fill(*init));
            }
        },
    }
}

impl RiscvBuilder {
    /// Flattens a nested aggregate initializer into its memory image.
    pub fn build_aggregate(&self, elems: &Vec<ir::InitVal>) -> (fills: Vec<crate::riscv::MemFill>)
        ensures
            fills@ == super::spec_fill_list(elems@, 0),
    {
        let mut out: Vec<crate::riscv::MemFill> = Vec::new();
        let mut i: usize = 0;
        while i < elems.len()
            invariant
                i <= elems@.len(),
                out@ == spec_fill_prefix(elems@, i as int),
            decreases elems@.len() - i,
        {
            fill_init(&elems[i], &mut out);
            proof {
                assert(spec_fill_prefix(elems@, i as int) + super::spec_fill(elems@[i as int])
                    =~= spec_fill_prefix(elems@, i + 1));
            }
            i += 1;
        }
        proof {
            lemma_fill_prefix(elems@, 0);
            assert(out@ =~= super::spec_fill_list(elems@, 0));
        }
        out
    }

    /// Lowers a global allocation into a global definition: a label and
    /// the flattened image of its initializer.
    pub fn build_global_alloc(&mut self, g: &crate::ir::GlobalData)
        ensures
            final(self).prog.funcs@ == old(self).prog.funcs@,
            final(self).prog.global_defs@.len() == old(self).prog.global_defs@.len() + 1,
            forall|i: int|
                0 <= i < old(self).prog.global_defs@.len() ==> #[trigger] final(self)
                    .prog.global_defs@[i] == old(self).prog.global_defs@[i],
            final(self).prog.global_defs@.last().name == g.name,
            final(self).prog.global_defs@.last().init@ == super::spec_fill(g.init),
            final(self).reg_mgr == old(self).reg_mgr,
            final(self).func_meta == old(self).func_meta,
    {
        let mut init: Vec<crate::riscv::MemFill> = Vec::new();
        fill_init(&g.init, &mut init);
        self.prog.global_defs.push(crate::riscv::GlobalDef { name: g.name.clone(), init });
    }
}

} // verus!
