//! Emission helpers of the RISC-V builder: the addressing-immediate
//! policy and register moves.

use vstd::prelude::*;

use super::{
    emit_addi, emit_arg_copies, emit_lw, emit_move, emit_muli, emit_pass_args, emit_pass_one,
    emit_reg_saves, emit_restores, emit_saves, emit_sw, grown, is_imm12, lemma_grown_refl,
    lemma_grown_trans, off_of, open_block, resolvable, resolve_bs, resolve_emits,
    resolve_emits_to, resolve_reg, resolve_rv, RiscvBuilder,
};
use crate::riscv::SP;
use crate::ir::{self, ValueId, ValueKind};
use crate::reg_manager::{key_at, set_key};
use crate::riscv::{spec_allocatable, Inst, Reg, T0, X0};

verus! {

impl RiscvBuilder {
    /// Emits a load word of `imm(rs)` into `rd`, materializing the
    /// offset through the scratch register when it does not fit twelve
    /// bits.
    pub fn build_lw(&mut self, rd: Reg, imm: i32, rs: Reg)
        requires
            open_block(old(self).prog),
        ensures
            grown(old(self).prog, final(self).prog, emit_lw(rd, imm, rs)),
            final(self).reg_mgr == old(self).reg_mgr,
            final(self).func_meta == old(self).func_meta,
    {
        if is_imm12(imm) {
            self.push_inst(Inst::Lw { rd, imm12: imm, rs });
        } else {
            let ghost p0 = self.prog;
            self.push_inst(Inst::Li { rd: T0, imm });
            let ghost p1 = self.prog;
            self.push_inst(Inst::Add { rd: T0, rs1: rs, rs2: T0 });
            let ghost p2 = self.prog;
            self.push_inst(Inst::Lw { rd, imm12: 0, rs: T0 });
            proof {
                lemma_grown_trans(
                    p0,
                    p1,
                    p2,
                    seq![Inst::Li { rd: T0, imm }],
                    seq![Inst::Add { rd: T0, rs1: rs, rs2: T0 }],
                );
                assert(seq![Inst::Li { rd: T0, imm }] + seq![Inst::Add { rd: T0, rs1: rs, rs2: T0 }]
                    =~= seq![Inst::Li { rd: T0, imm }, Inst::Add { rd: T0, rs1: rs, rs2: T0 }]);
                lemma_grown_trans(
                    p0,
                    p2,
                    self.prog,
                    seq![Inst::Li { rd: T0, imm }, Inst::Add { rd: T0, rs1: rs, rs2: T0 }],
                    seq![Inst::Lw { rd, imm12: 0, rs: T0 }],
                );
                assert(seq![Inst::Li { rd: T0, imm }, Inst::Add { rd: T0, rs1: rs, rs2: T0 }]
                    + seq![Inst::Lw { rd, imm12: 0, rs: T0 }] =~= emit_lw(rd, imm, rs));
            }
        }
    }

    /// Emits a store word of `rs` to `imm(rd)`, mirroring `build_lw`.
    pub fn build_sw(&mut self, rs: Reg, imm: i32, rd: Reg)
        requires
            open_block(old(self).prog),
        ensures
            grown(old(self).prog, final(self).prog, emit_sw(rs, imm, rd)),
            final(self).reg_mgr == old(self).reg_mgr,
            final(self).func_meta == old(self).func_meta,
    {
        if is_imm12(imm) {
            self.push_inst(Inst::Sw { rs, imm12: imm, rd });
        } else {
            let ghost p0 = self.prog;
            self.push_inst(Inst::Li { rd: T0, imm });
            let ghost p1 = self.prog;
            self.push_inst(Inst::Add { rd: T0, rs1: rd, rs2: T0 });
            let ghost p2 = self.prog;
            self.push_inst(Inst::Sw { rs, imm12: 0, rd: T0 });
            proof {
                lemma_grown_trans(
                    p0,
                    p1,
                    p2,
                    seq![Inst::Li { rd: T0, imm }],
                    seq![Inst::Add { rd: T0, rs1: rd, rs2: T0 }],
                );
                assert(seq![Inst::Li { rd: T0, imm }] + seq![Inst::Add { rd: T0, rs1: rd, rs2: T0 }]
                    =~= seq![Inst::Li { rd: T0, imm }, Inst::Add { rd: T0, rs1: rd, rs2: T0 }]);
                lemma_grown_trans(
                    p0,
                    p2,
                    self.prog,
                    seq![Inst::Li { rd: T0, imm }, Inst::Add { rd: T0, rs1: rd, rs2: T0 }],
                    seq![Inst::Sw { rs, imm12: 0, rd: T0 }],
                );
                assert(seq![Inst::Li { rd: T0, imm }, Inst::Add { rd: T0, rs1: rd, rs2: T0 }]
                    + seq![Inst::Sw { rs, imm12: 0, rd: T0 }] =~= emit_sw(rs, imm, rd));
            }
        }
    }

    /// Emits `rd = rs + imm`: nothing or a move for zero, one `addi`
    /// when the immediate fits, else `li` + `add`.
    pub fn build_addi(&mut self, rd: Reg, rs: Reg, imm: i32)
        requires
            open_block(old(self).prog),
        ensures
            grown(old(self).prog, final(self).prog, emit_addi(rd, rs, imm)),
            final(self).reg_mgr == old(self).reg_mgr,
            final(self).func_meta == old(self).func_meta,
    {
        if imm == 0 {
            if rd != rs {
                self.push_inst(Inst::Mv { rd, rs });
            } else {
                proof {
                    lemma_grown_refl(self.prog);
                }
            }
            return ;
        }
        if is_imm12(imm) {
            self.push_inst(Inst::Addi { rd, rs, imm12: imm });
        } else {
            let ghost p0 = self.prog;
            self.push_inst(Inst::Li { rd: T0, imm });
            let ghost p1 = self.prog;
            self.push_inst(Inst::Add { rd, rs1: rs, rs2: T0 });
            proof {
                lemma_grown_trans(
                    p0,
                    p1,
                    self.prog,
                    seq![Inst::Li { rd: T0, imm }],
                    seq![Inst::Add { rd, rs1: rs, rs2: T0 }],
                );
                assert(seq![Inst::Li { rd: T0, imm }] + seq![Inst::Add { rd, rs1: rs, rs2: T0 }]
                    =~= emit_addi(rd, rs, imm));
            }
        }
    }

    /// Emits `rd = rs * imm` through the scratch register.
    pub fn build_muli(&mut self, rd: Reg, rs: Reg, imm: i32)
        requires
            open_block(old(self).prog),
        ensures
            grown(old(self).prog, final(self).prog, emit_muli(rd, rs, imm)),
            final(self).reg_mgr == old(self).reg_mgr,
            final(self).func_meta == old(self).func_meta,
    {
        let ghost p0 = self.prog;
        self.push_inst(Inst::Li { rd: T0, imm });
        let ghost p1 = self.prog;
        self.push_inst(Inst::Mul { rd, rs1: rs, rs2: T0 });
        proof {
            lemma_grown_trans(
                p0,
                p1,
                self.prog,
                seq![Inst::Li { rd: T0, imm }],
                seq![Inst::Mul { rd, rs1: rs, rs2: T0 }],
            );
            assert(seq![Inst::Li { rd: T0, imm }] + seq![Inst::Mul { rd, rs1: rs, rs2: T0 }]
                =~= emit_muli(rd, rs, imm));
        }
    }
}


impl RiscvBuilder {
    /// Moves the live value `inst` into the requested register,
    /// exchanging with the occupant through the scratch register when
    /// the destination is taken.
    pub fn move_inst_to(&mut self, inst: ValueId, dst: Option<Reg>) -> (r: Reg)
        requires
            open_block(old(self).prog),
            old(self).reg_mgr.wf(),
            old(self).reg_mgr.has_binding(inst),
            match dst {
                Some(rd) => rd != X0 && spec_allocatable(rd),
                None => true,
            },
        ensures
            final(self).func_meta == old(self).func_meta,
            final(self).reg_mgr.wf(),
            dst is None ==> r == old(self).reg_mgr.reg_of(inst) && *final(self) == *old(self),
            match dst {
                Some(rd) => ({
                    let rs = old(self).reg_mgr.reg_of(inst);
                    &&& r == rd
                    &&& final(self).reg_mgr.val_at(rd) == Some(inst)
                    &&& grown(
                        old(self).prog,
                        final(self).prog,
                        emit_move(old(self).reg_mgr.reg2val@, old(self).reg_mgr.bindings(), inst, rd),
                    )
                    &&& (rd == rs ==> *final(self) == *old(self))
                    &&& (rd != rs && old(self).reg_mgr.val_at(rd) is None ==> final(self)
                        .reg_mgr.bindings() == set_key(old(self).reg_mgr.bindings(), inst, rd)
                        && final(self).reg_mgr.reg2val@ == old(self).reg_mgr.reg2val@.update(
                        rd as int,
                        Some(inst),
                    ).update(rs as int, None))
                    &&& (rd != rs && old(self).reg_mgr.val_at(rd) is Some ==> (match old(
                        self,
                    ).reg_mgr.val_at(rd) {
                        Some(vnew) => final(self).reg_mgr.bindings() == set_key(
                            set_key(old(self).reg_mgr.bindings(), inst, rd),
                            vnew,
                            rs,
                        ) && final(self).reg_mgr.reg2val@ == old(self).reg_mgr.reg2val@.update(
                            rd as int,
                            Some(inst),
                        ).update(rs as int, Some(vnew)),
                        None => false,
                    }))
                }),
                None => true,
            },
    {
        let rs = self.reg_mgr.reg(inst);
        proof {
            self.reg_mgr.lemma_reg_of(inst, rs);
        }
        match dst {
            None => rs,
            Some(rd) => {
                if rd == rs {
                    proof {
                        lemma_grown_refl(self.prog);
                    }
                    return rs;
                }
                let need_swap = self.reg_mgr.move_to(rs, rd);
                if need_swap {
                    let ghost p0 = self.prog;
                    self.push_inst(Inst::Mv { rd: T0, rs: rd });
                    let ghost p1 = self.prog;
                    self.push_inst(Inst::Mv { rd, rs });
                    let ghost p2 = self.prog;
                    self.push_inst(Inst::Mv { rd: rs, rs: T0 });
                    proof {
                        lemma_grown_trans(
                            p0,
                            p1,
                            p2,
                            seq![Inst::Mv { rd: T0, rs: rd }],
                            seq![Inst::Mv { rd, rs }],
                        );
                        assert(seq![Inst::Mv { rd: T0, rs: rd }] + seq![Inst::Mv { rd, rs }]
                            =~= seq![Inst::Mv { rd: T0, rs: rd }, Inst::Mv { rd, rs }]);
                        lemma_grown_trans(
                            p0,
                            p2,
                            self.prog,
                            seq![Inst::Mv { rd: T0, rs: rd }, Inst::Mv { rd, rs }],
                            seq![Inst::Mv { rd: rs, rs: T0 }],
                        );
                        assert(seq![Inst::Mv { rd: T0, rs: rd }, Inst::Mv { rd, rs }]
                            + seq![Inst::Mv { rd: rs, rs: T0 }] =~= emit_move(
                            old(self).reg_mgr.reg2val@,
                            old(self).reg_mgr.bindings(),
                            inst,
                            rd,
                        ));
                    }
                } else {
                    self.push_inst(Inst::Mv { rd, rs });
                }
                rd
            },
        }
    }

    /// Resolves the operand `value` to a register: literals are
    /// materialized, parameter references read, anything else must
    /// already live in the pool and is moved only when a destination is
    /// requested.
    pub fn move_inst(&mut self, func: &ir::Func, value: ValueId, dst: Option<Reg>) -> (r: Reg)
        requires
            open_block(old(self).prog),
            old(self).reg_mgr.wf(),
            func.wf(),
            old(self).func_meta.wf_for(*func),
            match dst {
                None => resolvable(
                    old(self).reg_mgr.reg2val@,
                    old(self).reg_mgr.bindings(),
                    *func,
                    value,
                ),
                Some(rd) => rd != X0 && spec_allocatable(rd) && value < func.values@.len()
                    && match func.kind_of(value) {
                    ValueKind::Integer { value: imm } => !old(self).reg_mgr.has_binding(value)
                        && old(self).reg_mgr.spec_is_free(rd),
                    ValueKind::FuncArgRef { index } => false,
                    _ => old(self).reg_mgr.has_binding(value),
                },
            },
        ensures
            final(self).func_meta == old(self).func_meta,
            final(self).reg_mgr.wf(),
            dst is None ==> ({
                let rv0 = old(self).reg_mgr.reg2val@;
                let bs0 = old(self).reg_mgr.bindings();
                &&& r == resolve_reg(rv0, bs0, *func, value)
                &&& grown(old(self).prog, final(self).prog, resolve_emits(rv0, bs0, *func, value))
                &&& final(self).reg_mgr.bindings() == resolve_bs(rv0, bs0, *func, value)
                &&& final(self).reg_mgr.reg2val@ == resolve_rv(rv0, bs0, *func, value)
            }),
            match dst {
                Some(rd) => r == rd && final(self).reg_mgr.val_at(rd) == Some(value) && grown(
                    old(self).prog,
                    final(self).prog,
                    resolve_emits_to(
                        old(self).reg_mgr.reg2val@,
                        old(self).reg_mgr.bindings(),
                        *func,
                        value,
                        rd,
                    ),
                ) && final(self).reg_mgr.bindings() == super::step_model::resolve_to_bs(
                    old(self).reg_mgr.reg2val@,
                    old(self).reg_mgr.bindings(),
                    *func,
                    value,
                    rd,
                ) && final(self).reg_mgr.reg2val@ == super::step_model::resolve_to_rv(
                    old(self).reg_mgr.reg2val@,
                    old(self).reg_mgr.bindings(),
                    *func,
                    value,
                    rd,
                ),
                None => true,
            },
    {
        let is_int = match &func.values[value].kind {
            ValueKind::Integer { .. } => true,
            _ => false,
        };
        let is_arg_ref = match &func.values[value].kind {
            ValueKind::FuncArgRef { .. } => true,
            _ => false,
        };
        if is_int {
            let res = self.build_integer(func, value, dst);
            match res {
                Some(rr) => rr,
                None => {
                    proof {
                        assert(false);
                    }
                    0
                },
            }
        } else if is_arg_ref {
            let res = self.build_func_arg_ref(func, value);
            match res {
                Some(rr) => rr,
                None => {
                    proof {
                        assert(false);
                    }
                    0
                },
            }
        } else {
            self.move_inst_to(value, dst)
        }
    }
}


impl RiscvBuilder {
    /// Spills every live register into the frame just below the stack
    /// pointer, first shifting the stack-passed call arguments down so
    /// they stay adjacent to the callee's frame.
    pub fn save_regs(&mut self)
        requires
            open_block(old(self).prog),
            old(self).reg_mgr.wf(),
            old(self).func_meta.arg_size <= 0x1000,
            old(self).func_meta.arg_size % 4 == 0,
        ensures
            grown(
                old(self).prog,
                final(self).prog,
                emit_saves(old(self).reg_mgr.live_regs(), old(self).func_meta.arg_size as int),
            ),
            final(self).reg_mgr == old(self).reg_mgr,
            final(self).func_meta == old(self).func_meta,
    {
        let regs = self.reg_mgr.regs();
        proof {
            self.reg_mgr.lemma_live_bound();
        }
        let size = 4 * regs.len();
        if size == 0 {
            proof {
                lemma_grown_refl(self.prog);
            }
            return ;
        }
        let off = self.func_meta.arg_size();
        let ghost p0 = self.prog;
        self.build_addi(SP, SP, -(size as i32));
        let ghost p1 = self.prog;

        let arg_num = off / 4;
        let mut i: usize = 0;
        while i < arg_num
            invariant
                self.reg_mgr == old(self).reg_mgr,
                self.func_meta == old(self).func_meta,
                arg_num <= 0x400,
                size == 4 * regs@.len(),
                regs@.len() <= 32,
                regs@ == old(self).reg_mgr.live_regs(),
                i <= arg_num,
                open_block(p1),
                grown(p1, self.prog, emit_arg_copies(i as int, size as i32)),
            decreases arg_num - i,
        {
            let ghost pa = self.prog;
            self.build_lw(T0, (i * 4 + size) as i32, SP);
            let ghost pb = self.prog;
            self.build_sw(T0, (i * 4) as i32, SP);
            proof {
                lemma_grown_trans(
                    pa,
                    pb,
                    self.prog,
                    emit_lw(T0, (i * 4 + size) as i32, SP),
                    emit_sw(T0, (i * 4) as i32, SP),
                );
                lemma_grown_trans(
                    p1,
                    pa,
                    self.prog,
                    emit_arg_copies(i as int, size as i32),
                    emit_lw(T0, (i * 4 + size) as i32, SP) + emit_sw(T0, (i * 4) as i32, SP),
                );
                assert(emit_arg_copies(i as int, size as i32) + (emit_lw(
                    T0,
                    (i * 4 + size) as i32,
                    SP,
                ) + emit_sw(T0, (i * 4) as i32, SP)) =~= emit_arg_copies(i + 1, size as i32));
            }
            i += 1;
        }
        let ghost p2 = self.prog;

        let mut j: usize = 0;
        while j < regs.len()
            invariant
                self.reg_mgr == old(self).reg_mgr,
                self.func_meta == old(self).func_meta,
                off <= 0x1000,
                size == 4 * regs@.len(),
                regs@.len() <= 32,
                regs@ == old(self).reg_mgr.live_regs(),
                j <= regs@.len(),
                open_block(p2),
                grown(p2, self.prog, emit_reg_saves(regs@.take(j as int), off as int)),
            decreases regs@.len() - j,
        {
            let ghost pa = self.prog;
            self.build_sw(regs[j], (j * 4 + off) as i32, SP);
            proof {
                lemma_grown_trans(
                    p2,
                    pa,
                    self.prog,
                    emit_reg_saves(regs@.take(j as int), off as int),
                    emit_sw(regs@[j as int], (j * 4 + off) as i32, SP),
                );
                assert(regs@.take(j + 1int).drop_last() == regs@.take(j as int));
                assert(regs@.take(j + 1int).last() == regs@[j as int]);
            }
            j += 1;
        }
        proof {
            assert(regs@.take(regs@.len() as int) == regs@);
            lemma_grown_trans(
                p0,
                p1,
                p2,
                emit_addi(SP, SP, ((-(size as int)) as i32)),
                emit_arg_copies(arg_num as int, size as i32),
            );
            lemma_grown_trans(
                p0,
                p2,
                self.prog,
                emit_addi(SP, SP, ((-(size as int)) as i32)) + emit_arg_copies(
                    arg_num as int,
                    size as i32,
                ),
                emit_reg_saves(regs@, off as int),
            );
            assert(emit_addi(SP, SP, ((-(size as int)) as i32)) + emit_arg_copies(
                arg_num as int,
                size as i32,
            ) + emit_reg_saves(regs@, off as int) =~= emit_saves(regs@, off as int));
        }
    }

    /// Refills every live register from its spill slot and drops the
    /// stack bump.
    pub fn restore_regs(&mut self)
        requires
            open_block(old(self).prog),
            old(self).reg_mgr.wf(),
            old(self).func_meta.arg_size <= 0x1000,
        ensures
            grown(
                old(self).prog,
                final(self).prog,
                emit_restores(old(self).reg_mgr.live_regs(), old(self).func_meta.arg_size as int),
            ),
            final(self).reg_mgr == old(self).reg_mgr,
            final(self).func_meta == old(self).func_meta,
    {
        let regs = self.reg_mgr.regs();
        proof {
            self.reg_mgr.lemma_live_bound();
        }
        let size = 4 * regs.len();
        let off = self.func_meta.arg_size();
        let ghost p0 = self.prog;
        let mut j: usize = 0;
        while j < regs.len()
            invariant
                self.reg_mgr == old(self).reg_mgr,
                self.func_meta == old(self).func_meta,
                off <= 0x1000,
                size == 4 * regs@.len(),
                regs@.len() <= 32,
                regs@ == old(self).reg_mgr.live_regs(),
                j <= regs@.len(),
                open_block(p0),
                grown(p0, self.prog, super::emit_reg_restores(regs@.take(j as int), off as int)),
            decreases regs@.len() - j,
        {
            let ghost pa = self.prog;
            self.build_lw(regs[j], (j * 4 + off) as i32, SP);
            proof {
                lemma_grown_trans(
                    p0,
                    pa,
                    self.prog,
                    super::emit_reg_restores(regs@.take(j as int), off as int),
                    emit_lw(regs@[j as int], (j * 4 + off) as i32, SP),
                );
                assert(regs@.take(j + 1int).drop_last() == regs@.take(j as int));
                assert(regs@.take(j + 1int).last() == regs@[j as int]);
            }
            j += 1;
        }
        let ghost p1 = self.prog;
        self.build_addi(SP, SP, size as i32);
        proof {
            assert(regs@.take(regs@.len() as int) == regs@);
            lemma_grown_trans(
                p0,
                p1,
                self.prog,
                super::emit_reg_restores(regs@, off as int),
                emit_addi(SP, SP, size as i32),
            );
        }
    }

    /// Marshals the call arguments: the first eight into `a0`..`a7`,
    /// the rest onto the callee's stack-argument area, literals loaded
    /// directly and everything else read back from its staging slot.
    pub fn pass_args(&mut self, func: &ir::Func, args: &Vec<crate::ir::ValueId>)
        requires
            open_block(old(self).prog),
            func.wf(),
            old(self).func_meta.wf_for(*func),
            args@.len() <= crate::ir::MAX_ARG_NUM,
            forall|i: int|
                0 <= i < args@.len() ==> #[trigger] args@[i] < func.values@.len() && (func.kind_of(
                    args@[i],
                ) is Integer || old(self).func_meta.spec_offset(args@[i]) is Some),
        ensures
            grown(
                old(self).prog,
                final(self).prog,
                emit_pass_args(*func, old(self).func_meta, args@, args@.len() as int),
            ),
            final(self).reg_mgr == old(self).reg_mgr,
            final(self).func_meta == old(self).func_meta,
    {
        let ghost p0 = self.prog;
        proof {
            crate::func_meta::lemma_frame_size_bound(*func);
        }
        let mut i: usize = 0;
        while i < args.len()
            invariant
                self.reg_mgr == old(self).reg_mgr,
                self.func_meta == old(self).func_meta,
                self.func_meta.wf_for(*func),
                func.wf(),
                args@.len() <= crate::ir::MAX_ARG_NUM,
                forall|k: int|
                    0 <= k < args@.len() ==> #[trigger] args@[k] < func.values@.len() && (
                    func.kind_of(args@[k]) is Integer || self.func_meta.spec_offset(args@[k])
                        is Some),
                i <= args@.len(),
                open_block(p0),
                grown(p0, self.prog, emit_pass_args(*func, self.func_meta, args@, i as int)),
            decreases args@.len() - i,
        {
            let ghost pa = self.prog;
            let arg = args[i];
            let is_int = match &func.values[arg].kind {
                ValueKind::Integer { .. } => true,
                _ => false,
            };
            let dst: Reg = if i < 8 {
                super::build_value::arg_reg(i)
            } else {
                T0
            };
            if is_int {
                let imm = match &func.values[arg].kind {
                    ValueKind::Integer { value: v } => *v,
                    _ => 0,
                };
                self.push_inst(Inst::Li { rd: dst, imm });
            } else {
                let off = match self.func_meta.offset(arg) {
                    Some(o) => o,
                    None => 0,
                };
                proof {
                    assert(off <= self.func_meta.frame_size);
                }
                self.build_lw(dst, off as i32, SP);
            }
            if i >= 8 {
                let ghost pb = self.prog;
                self.build_sw(T0, ((i - 8) * 4) as i32, SP);
                proof {
                    lemma_grown_trans(
                        pa,
                        pb,
                        self.prog,
                        match func.kind_of(args@[i as int]) {
                            ValueKind::Integer { value } => seq![Inst::Li { rd: dst, imm: value }],
                            _ => emit_lw(
                                dst,
                                off_of(self.func_meta, args@[i as int]) as i32,
                                SP,
                            ),
                        },
                        emit_sw(T0, (4 * (i - 8)) as i32, SP),
                    );
                }
            }
            proof {
                assert(grown(pa, self.prog, emit_pass_one(*func, self.func_meta, args@[i as int], i as int)));
                lemma_grown_trans(
                    p0,
                    pa,
                    self.prog,
                    emit_pass_args(*func, self.func_meta, args@, i as int),
                    emit_pass_one(*func, self.func_meta, args@[i as int], i as int),
                );
            }
            i += 1;
        }
    }
}

} // verus!
