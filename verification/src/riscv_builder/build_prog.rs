//! Driving the lowering: programs, functions, blocks, instructions.
//!
//! Before dispatching into the lowering table the driver checks the
//! selector's internal contracts — operands live, registers to spare,
//! frame slots assigned — and reports a `BuildError` instead of
//! lowering IR that breaks them.

use vstd::prelude::*;

use super::{
    consumable, emit_binop, emit_lw, emit_pass_args, emit_restores, emit_saves, emit_sw, grown,
    inst_grown, lemma_grown_refl, lemma_grown_trans, lemma_inst_grown,
    lemma_ra_clean_concat, lemma_ra_clean_lw, lemma_ra_clean_pass, lemma_ra_clean_resolve,
    lemma_ra_clean_resolve_to, lemma_ra_clean_sw, needs_alloc, open_block, pick_reg, ra_clean,
    resolvable, resolve_bs, resolve_emits, resolve_emits_to, resolve_reg, resolve_rv, BuildError,
    RiscvBuilder,
};
use crate::ir::{self, ValueId, ValueKind};
use crate::reg_manager::{
    find_free_in, key_at, lemma_find_free_is_free, lemma_scan_count_find, lemma_scan_count_update,
    pair_at, scan_free_count,
};
use crate::riscv::{spec_allocatable, Inst, Reg, A0, RA, SP, T0, X0};

verus! {

/// A fresh binding for one value keeps every other operand consumable,
/// spending at most one spare register.
pub proof fn lemma_consumable_push(
    rv0: Seq<Option<ValueId>>,
    bs0: Seq<(ValueId, Reg)>,
    func: ir::Func,
    w: ValueId,
    u: ValueId,
    r: Reg,
    spare: int,
)
    requires
        rv0.len() == 32,
        consumable(rv0, bs0, func, w),
        u != w,
        r < 32,
        scan_free_count(rv0) >= spare + 1,
        spare >= 1,
    ensures
        consumable(rv0.update(r as int, Some(u)), bs0.push((u, r)), func, w),
        scan_free_count(rv0.update(r as int, Some(u))) >= spare,
{
    let rv1 = rv0.update(r as int, Some(u));
    let bs1 = bs0.push((u, r));
    lemma_scan_count_update(rv0, r, u);
    lemma_scan_count_find(rv1);
    if key_at(bs0, w) {
        let i = choose|i: int| 0 <= i < bs0.len() && (#[trigger] bs0[i]).0 == w;
        assert(bs1[i].0 == w);
    }
    if !key_at(bs0, w) {
        assert forall|i: int| 0 <= i < bs1.len() implies (#[trigger] bs1[i]).0 != w by {
            if i < bs0.len() {
                assert(bs1[i] == bs0[i]);
            }
        }
    }
    match func.kind_of(w) {
        ValueKind::FuncArgRef { index } => {
            if index < 8 && pair_at(bs0, w, (10 + index) as Reg) {
                let i = choose|i: int|
                    0 <= i < bs0.len() && #[trigger] bs0[i] == (w, (10 + index) as Reg);
                assert(bs1[i] == (w, (10 + index) as Reg));
            }
        },
        _ => {},
    }
}

/// When an operand stays put after another operand is resolved, it can
/// still be consumed, at the cost of at most one spare register.
pub proof fn lemma_after_resolve(
    rv0: Seq<Option<ValueId>>,
    bs0: Seq<(ValueId, Reg)>,
    func: ir::Func,
    u: ValueId,
    w: ValueId,
    spare: int,
)
    requires
        rv0.len() == 32,
        consumable(rv0, bs0, func, w),
        needs_alloc(func, u) ==> u != w,
        scan_free_count(rv0) >= spare + 1,
        spare >= 1,
    ensures
        consumable(resolve_rv(rv0, bs0, func, u), resolve_bs(rv0, bs0, func, u), func, w),
        scan_free_count(resolve_rv(rv0, bs0, func, u)) >= spare,
{
    if needs_alloc(func, u) {
        lemma_find_free_is_free(rv0);
        lemma_consumable_push(rv0, bs0, func, w, u, pick_reg(rv0, None), spare);
    }
}

/// A resolved operand's register is never the return address: the zero
/// register, an argument register, a scanned register, or a live
/// binding, which is allocatable.
pub proof fn lemma_resolve_reg_not_ra(
    rv0: Seq<Option<ValueId>>,
    bs0: Seq<(ValueId, Reg)>,
    func: ir::Func,
    v: ValueId,
)
    requires
        resolvable(rv0, bs0, func, v),
        forall|i: int| 0 <= i < bs0.len() ==> spec_allocatable((#[trigger] bs0[i]).1),
    ensures
        resolve_reg(rv0, bs0, func, v) != RA,
{
    lemma_find_free_is_free(rv0);
    match func.kind_of(v) {
        ValueKind::Integer { value } => {},
        ValueKind::FuncArgRef { index } => {},
        _ => {
            let i = choose|i: int| 0 <= i < bs0.len() && (#[trigger] bs0[i]).0 == v;
            assert(pair_at(bs0, v, bs0[i].1));
            let r = crate::reg_manager::reg_of_key(bs0, v);
            assert(pair_at(bs0, v, r));
            let j = choose|j: int| 0 <= j < bs0.len() && #[trigger] bs0[j] == (v, r);
            assert(spec_allocatable(bs0[j].1));
        },
    }
}

/// An operand that is not the costless zero literal resolves to a real
/// register.
pub proof fn lemma_resolve_reg_not_x0(
    rv0: Seq<Option<ValueId>>,
    bs0: Seq<(ValueId, Reg)>,
    func: ir::Func,
    v: ValueId,
)
    requires
        resolvable(rv0, bs0, func, v),
        forall|i: int| 0 <= i < bs0.len() ==> spec_allocatable((#[trigger] bs0[i]).1),
        !(func.kind_of(v) matches ValueKind::Integer { value } && value == 0),
    ensures
        resolve_reg(rv0, bs0, func, v) != X0,
{
    lemma_find_free_is_free(rv0);
    match func.kind_of(v) {
        ValueKind::Integer { value } => {},
        ValueKind::FuncArgRef { index } => {},
        _ => {
            let i = choose|i: int| 0 <= i < bs0.len() && (#[trigger] bs0[i]).0 == v;
            assert(pair_at(bs0, v, bs0[i].1));
            let r = crate::reg_manager::reg_of_key(bs0, v);
            assert(pair_at(bs0, v, r));
            let j = choose|j: int| 0 <= j < bs0.len() && #[trigger] bs0[j] == (v, r);
            assert(spec_allocatable(bs0[j].1));
        },
    }
}

impl RiscvBuilder {
    /// Checks that operand `v` can be resolved and later released, with
    /// at least `spare` scan-order registers free.  The spare counts
    /// the callers pass are a deliberately conservative bound on what
    /// one lowering step can bind at once.
    fn can_consume(&self, func: &ir::Func, v: ValueId, spare: usize) -> (ok: bool)
        requires
            self.reg_mgr.wf(),
            func.wf(),
            v < func.values@.len(),
        ensures
            ok == super::step_model::can_consume_s(
                self.reg_mgr.reg2val@,
                self.reg_mgr.bindings(),
                *func,
                v,
                spare as int,
            ),
            ok ==> consumable(self.reg_mgr.reg2val@, self.reg_mgr.bindings(), *func, v)
                && scan_free_count(self.reg_mgr.reg2val@) >= spare as int,
    {
        let cnt = self.reg_mgr.count_free_scan();
        if cnt < spare {
            return false;
        }
        proof {
            if cnt >= 1 {
                lemma_scan_count_find(self.reg_mgr.reg2val@);
            }
        }
        match &func.values[v].kind {
            ValueKind::Integer { value } => !self.reg_mgr.is_bound(v) && (*value == 0 || cnt
                >= 1),
            ValueKind::FuncArgRef { index } => {
                if *index < 8 {
                    self.reg_mgr.is_bound_to(v, super::build_value::arg_reg(*index))
                } else {
                    !self.reg_mgr.is_bound(v) && cnt >= 1
                }
            },
            _ => self.reg_mgr.is_bound(v),
        }
    }

    /// Lowers one basic block: the entry block opens the frame and, in
    /// a non-leaf function, saves the return address just below its
    /// top; then every instruction is lowered in layout order.
    #[verifier::spinoff_prover]
    #[verifier::rlimit(60)]
    pub fn build_block(&mut self, func: &ir::Func, b: usize, is_entry: bool) -> (res: Result<
        (),
        BuildError,
    >)
        requires
            old(self).prog.funcs@.len() > 0,
            old(self).reg_mgr.wf(),
            func.wf(),
            old(self).func_meta.wf_for(*func),
            b < func.blocks@.len(),
        ensures
            final(self).func_meta == old(self).func_meta,
            final(self).reg_mgr.wf(),
            res is Ok ==> final(self).prog.global_defs@ == old(self).prog.global_defs@,
            res is Ok ==> final(self).prog.funcs@.len() == old(self).prog.funcs@.len(),
            res is Ok ==> forall|i: int|
                0 <= i < old(self).prog.funcs@.len() - 1 ==> #[trigger] final(self).prog.funcs@[i]
                    == old(self).prog.funcs@[i],
            res is Ok ==> final(self).prog.funcs@.last().name == old(self).prog.funcs@.last().name,
            res is Ok ==> final(self).prog.funcs@.last().blocks@.len() == old(
                self,
            ).prog.funcs@.last().blocks@.len() + 1,
            res is Ok ==> forall|i: int|
                0 <= i < old(self).prog.funcs@.last().blocks@.len() ==> #[trigger] final(self)
                    .prog.funcs@.last().blocks@[i] == old(self).prog.funcs@.last().blocks@[i],
            res is Ok ==> final(self).prog.funcs@.last().blocks@.last().name == (if is_entry {
                func.name
            } else {
                func.blocks@[b as int].name
            }),
            res is Ok == super::step_model::block_ok(
                old(self).reg_mgr.reg2val@,
                old(self).reg_mgr.bindings(),
                old(self).func_meta,
                *func,
                func.blocks@[b as int].insts@,
            ),
            res is Ok ==> ({
                let rv0 = old(self).reg_mgr.reg2val@;
                let bs0 = old(self).reg_mgr.bindings();
                let meta = old(self).func_meta;
                let insts = func.blocks@[b as int].insts@;
                &&& final(self).prog.funcs@.last().blocks@.last().insts@ == super::prologue_emits(
                    meta,
                    is_entry,
                ) + super::step_model::block_emits(rv0, bs0, meta, *func, insts)
                &&& final(self).reg_mgr.bindings() == super::step_model::block_end_bs(
                    rv0,
                    bs0,
                    meta,
                    *func,
                    insts,
                )
                &&& final(self).reg_mgr.reg2val@ == super::step_model::block_end_rv(
                    rv0,
                    bs0,
                    meta,
                    *func,
                    insts,
                )
                &&& (meta.is_leaf ==> ra_clean(
                    super::step_model::block_emits(rv0, bs0, meta, *func, insts),
                ))
            }),
    {
        let ghost rv0 = self.reg_mgr.reg2val@;
        let ghost bs0 = self.reg_mgr.bindings();
        let ghost meta0 = self.func_meta;
        let ghost insts0 = func.blocks@[b as int].insts@;
        self.enter_block(func, b, is_entry);
        let ghost leaf = self.func_meta.is_leaf;
        if is_entry {
            let size = self.func_meta.frame_size();
            proof {
                crate::func_meta::lemma_frame_size_bound(*func);
            }
            self.build_addi(SP, SP, -(size as i32));
            if !self.func_meta.is_leaf() {
                proof {
                    assert(crate::func_meta::spec_has_call(*func));
                    assert(crate::func_meta::spec_raw_frame(*func) >= 4);
                    assert(crate::func_meta::spec_frame_size(*func)
                        >= crate::func_meta::spec_raw_frame(*func));
                }
                self.build_sw(RA, (size - 4) as i32, SP);
            }
        }
        proof {
            assert(self.prog.funcs@.last().blocks@.last().insts@ =~= super::prologue_emits(
                old(self).func_meta,
                is_entry,
            ));
        }
        let ghost p_prologue = self.prog;
        let ghost mut s_acc: Seq<Inst> = Seq::empty();
        proof {
            assert(insts0.skip(0) =~= insts0);
            assert(s_acc + super::step_model::block_emits(
                self.reg_mgr.reg2val@,
                self.reg_mgr.bindings(),
                meta0,
                *func,
                insts0,
            ) =~= super::step_model::block_emits(
                self.reg_mgr.reg2val@,
                self.reg_mgr.bindings(),
                meta0,
                *func,
                insts0,
            ));
        }
        let insts_len = func.blocks[b].insts.len();
        let mut i: usize = 0;
        while i < insts_len
            invariant
                self.func_meta == old(self).func_meta,
                self.func_meta.wf_for(*func),
                func.wf(),
                self.reg_mgr.wf(),
                b < func.blocks@.len(),
                insts_len == func.blocks@[b as int].insts@.len(),
                i <= insts_len,
                leaf == self.func_meta.is_leaf,
                open_block(p_prologue),
                open_block(self.prog),
                grown(p_prologue, self.prog, s_acc),
                leaf ==> ra_clean(s_acc),
                p_prologue.funcs@.last().blocks@.last().insts@ == super::prologue_emits(
                    old(self).func_meta,
                    is_entry,
                ),
                p_prologue.global_defs@ == old(self).prog.global_defs@,
                p_prologue.funcs@.len() == old(self).prog.funcs@.len(),
                forall|k: int|
                    0 <= k < old(self).prog.funcs@.len() - 1 ==> #[trigger] p_prologue.funcs@[k]
                        == old(self).prog.funcs@[k],
                p_prologue.funcs@.last().name == old(self).prog.funcs@.last().name,
                p_prologue.funcs@.last().blocks@.len() == old(self).prog.funcs@.last(
                ).blocks@.len() + 1,
                forall|k: int|
                    0 <= k < old(self).prog.funcs@.last().blocks@.len()
                        ==> #[trigger] p_prologue.funcs@.last().blocks@[k] == old(
                        self,
                    ).prog.funcs@.last().blocks@[k],
                p_prologue.funcs@.last().blocks@.last().name == (if is_entry {
                    func.name
                } else {
                    func.blocks@[b as int].name
                }),
                rv0 == old(self).reg_mgr.reg2val@,
                bs0 == old(self).reg_mgr.bindings(),
                meta0 == old(self).func_meta,
                insts0 == func.blocks@[b as int].insts@,
                super::step_model::block_ok(rv0, bs0, meta0, *func, insts0)
                    == super::step_model::block_ok(
                    self.reg_mgr.reg2val@,
                    self.reg_mgr.bindings(),
                    meta0,
                    *func,
                    insts0.skip(i as int),
                ),
                super::step_model::block_emits(rv0, bs0, meta0, *func, insts0) == s_acc
                    + super::step_model::block_emits(
                    self.reg_mgr.reg2val@,
                    self.reg_mgr.bindings(),
                    meta0,
                    *func,
                    insts0.skip(i as int),
                ),
                super::step_model::block_end_rv(rv0, bs0, meta0, *func, insts0)
                    == super::step_model::block_end_rv(
                    self.reg_mgr.reg2val@,
                    self.reg_mgr.bindings(),
                    meta0,
                    *func,
                    insts0.skip(i as int),
                ),
                super::step_model::block_end_bs(rv0, bs0, meta0, *func, insts0)
                    == super::step_model::block_end_bs(
                    self.reg_mgr.reg2val@,
                    self.reg_mgr.bindings(),
                    meta0,
                    *func,
                    insts0.skip(i as int),
                ),
            decreases insts_len - i,
        {
            let v = func.blocks[b].insts[i];
            proof {
                assert(func.blocks@[b as int].insts@[i as int] < func.values@.len());
                assert(insts0.skip(i as int)[0] == insts0[i as int]);
                assert(insts0.skip(i as int).drop_first() =~= insts0.skip(i + 1));
            }
            let ghost rv_c = self.reg_mgr.reg2val@;
            let ghost bs_c = self.reg_mgr.bindings();
            let ghost p_before = self.prog;
            match self.build_inst(func, v, None) {
                Ok(_) => {},
                Err(e) => {
                    proof {
                        assert(!super::step_model::inst_ok(rv_c, bs_c, meta0, *func, v));
                        assert(!super::step_model::block_ok(
                            rv_c,
                            bs_c,
                            meta0,
                            *func,
                            insts0.skip(i as int),
                        ));
                    }
                    return Err(e);
                },
            }
            proof {
                let s_i = super::step_model::step_emits(rv_c, bs_c, meta0, *func, v);
                lemma_grown_trans(p_prologue, p_before, self.prog, s_acc, s_i);
                if leaf {
                    lemma_ra_clean_concat(s_acc, s_i);
                }
                assert(super::step_model::block_emits(rv_c, bs_c, meta0, *func, insts0.skip(
                    i as int,
                )) == s_i + super::step_model::block_emits(
                    self.reg_mgr.reg2val@,
                    self.reg_mgr.bindings(),
                    meta0,
                    *func,
                    insts0.skip(i + 1),
                ));
                assert(s_acc + (s_i + super::step_model::block_emits(
                    self.reg_mgr.reg2val@,
                    self.reg_mgr.bindings(),
                    meta0,
                    *func,
                    insts0.skip(i + 1),
                )) =~= (s_acc + s_i) + super::step_model::block_emits(
                    self.reg_mgr.reg2val@,
                    self.reg_mgr.bindings(),
                    meta0,
                    *func,
                    insts0.skip(i + 1),
                ));
                s_acc = s_acc + s_i;
            }
            i += 1;
        }
        proof {
            assert(insts0.skip(insts_len as int) =~= Seq::<crate::ir::ValueId>::empty());
            assert(super::step_model::block_emits(
                self.reg_mgr.reg2val@,
                self.reg_mgr.bindings(),
                meta0,
                *func,
                insts0.skip(insts_len as int),
            ) =~= Seq::<Inst>::empty());
            assert(super::step_model::block_emits(rv0, bs0, meta0, *func, insts0) == s_acc) by {
                assert(s_acc + Seq::<Inst>::empty() =~= s_acc);
            }
            assert(self.prog.funcs@.last().blocks@.last().insts@ == super::prologue_emits(
                meta0,
                is_entry,
            ) + s_acc);
        }
        Ok(())
    }

    /// Lowers one function: declarations are skipped; a defined
    /// function gets a fresh register pool with its register-passed
    /// parameters bound, its frame layout, and one lowered block per IR
    /// block.  A leaf function's body never saves or restores the
    /// return address; a non-leaf function's entry block saves it.
    #[verifier::spinoff_prover]
    #[verifier::rlimit(60)]
    pub fn build_func(&mut self, func: &ir::Func) -> (res: Result<(), BuildError>)
        requires
            old(self).reg_mgr.wf(),
            func.wf(),
        ensures
            final(self).reg_mgr.wf(),
            res is Ok ==> final(self).prog.global_defs@ == old(self).prog.global_defs@,
            func.blocks@.len() == 0 ==> *final(self) == *old(self),
            res is Ok ==> forall|i: int|
                0 <= i < old(self).prog.funcs@.len() ==> #[trigger] final(self).prog.funcs@[i]
                    == old(self).prog.funcs@[i],
            res is Ok && func.blocks@.len() > 0 ==> final(self).prog.funcs@.len() == old(
                self,
            ).prog.funcs@.len() + 1 && final(self).prog.funcs@.last().name == func.name,
            func.blocks@.len() == 0 ==> res is Ok,
            res is Err ==> !super::step_model::func_ok(*func),
            res is Ok && func.blocks@.len() > 0 ==> final(self).func_meta.wf_for(*func)
                && super::step_model::func_built_with(
                final(self).prog.funcs@.last(),
                *func,
                final(self).func_meta,
            ),
    {
        if func.blocks.len() == 0 {
            return Ok(());
        }
        self.enter_func(func);
        let ghost meta_k = self.func_meta;
        let nparams = if func.params.len() < 8 {
            func.params.len()
        } else {
            8
        };
        proof {
            assert(self.reg_mgr.reg2val@ =~= Seq::new(
                32,
                |r: int|
                    if 10 <= r < 10 {
                        Some(func.params@[r - 10])
                    } else {
                        None
                    },
            ));
        }
        let mut i: usize = 0;
        while i < nparams
            invariant
                func.wf(),
                nparams <= 8,
                nparams <= func.params@.len(),
                nparams == super::step_model::reg_param_num(*func),
                i <= nparams,
                self.reg_mgr.wf(),
                self.func_meta == meta_k,
                self.func_meta.wf_for(*func),
                self.reg_mgr.bindings().len() == i,
                forall|k: int|
                    0 <= k < i ==> (#[trigger] self.reg_mgr.bindings()[k]) == (
                    func.params@[k],
                    (10 + k) as Reg,
                ),
                forall|r: Reg| 10 + i <= r < 32 ==> self.reg_mgr.spec_is_free(r),
                self.reg_mgr.reg2val@ == Seq::new(
                    32,
                    |r: int|
                        if 10 <= r < 10 + i {
                            Some(func.params@[r - 10])
                        } else {
                            None
                        },
                ),
                self.prog.global_defs@ == old(self).prog.global_defs@,
                self.prog.funcs@.len() == old(self).prog.funcs@.len() + 1,
                forall|k: int|
                    0 <= k < old(self).prog.funcs@.len() ==> #[trigger] self.prog.funcs@[k] == old(
                        self,
                    ).prog.funcs@[k],
                self.prog.funcs@.last().name == func.name,
                self.prog.funcs@.last().blocks@.len() == 0,
            decreases nparams - i,
        {
            let p = func.params[i];
            proof {
                assert(func.kind_of(func.params@[i as int]) == (ValueKind::FuncArgRef {
                    index: i as usize,
                }));
                assert forall|k: int|
                    0 <= k < self.reg_mgr.bindings().len() implies (
                #[trigger] self.reg_mgr.bindings()[k]).0 != p by {
                    assert(func.kind_of(func.params@[k]) == (ValueKind::FuncArgRef {
                        index: k as usize,
                    }));
                }
            }
            let r = self.reg_mgr.allocate(p, Some(super::build_value::arg_reg(i)));
            proof {
                assert(self.reg_mgr.reg2val@ =~= Seq::new(
                    32,
                    |r2: int|
                        if 10 <= r2 < 10 + (i + 1) {
                            Some(func.params@[r2 - 10])
                        } else {
                            None
                        },
                ));
            }
            i += 1;
        }
        proof {
            assert(self.reg_mgr.reg2val@ =~= super::step_model::params_rv(*func));
            assert(self.reg_mgr.bindings() =~= super::step_model::params_bs(*func));
            assert(super::step_model::blocks_entry_rv(*func, meta_k, 0)
                == super::step_model::params_rv(*func));
            assert(super::step_model::blocks_entry_bs(*func, meta_k, 0)
                == super::step_model::params_bs(*func));
        }
        let nblocks = func.blocks.len();
        let mut b: usize = 0;
        while b < nblocks
            invariant
                func.wf(),
                nblocks == func.blocks@.len(),
                0 < nblocks,
                b <= nblocks,
                self.reg_mgr.wf(),
                self.func_meta == meta_k,
                self.func_meta.wf_for(*func),
                self.reg_mgr.reg2val@ == super::step_model::blocks_entry_rv(
                    *func,
                    meta_k,
                    b as int,
                ),
                self.reg_mgr.bindings() == super::step_model::blocks_entry_bs(
                    *func,
                    meta_k,
                    b as int,
                ),
                super::step_model::blocks_ok(*func, meta_k, 0)
                    ==> super::step_model::blocks_ok(*func, meta_k, b as int),
                self.prog.global_defs@ == old(self).prog.global_defs@,
                self.prog.funcs@.len() == old(self).prog.funcs@.len() + 1,
                forall|k: int|
                    0 <= k < old(self).prog.funcs@.len() ==> #[trigger] self.prog.funcs@[k] == old(
                        self,
                    ).prog.funcs@[k],
                self.prog.funcs@.last().name == func.name,
                self.prog.funcs@.last().blocks@.len() == b,
                forall|k: int|
                    0 <= k < b ==> (#[trigger] self.prog.funcs@.last().blocks@[k]).name == (if k
                        == 0 {
                        func.name
                    } else {
                        func.blocks@[k].name
                    }) && self.prog.funcs@.last().blocks@[k].insts@ == super::prologue_emits(
                        meta_k,
                        k == 0,
                    ) + super::step_model::block_emits(
                        super::step_model::blocks_entry_rv(*func, meta_k, k),
                        super::step_model::blocks_entry_bs(*func, meta_k, k),
                        meta_k,
                        *func,
                        func.blocks@[k].insts@,
                    ),
                crate::func_meta::spec_is_leaf(*func) ==> forall|k: int|
                    0 <= k < b ==> ra_clean(
                        #[trigger] self.prog.funcs@.last().blocks@[k].insts@,
                    ),
                !crate::func_meta::spec_is_leaf(*func) && b > 0 ==> exists|j: int|
                    0 <= j < self.prog.funcs@.last().blocks@[0].insts@.len() && (
                    #[trigger] self.prog.funcs@.last().blocks@[0].insts@[j]) matches Inst::Sw {
                        rs: RA,
                        imm12,
                        rd,
                    },
            decreases nblocks - b,
        {
            let is_entry_b = b == 0;
            let ghost p_before = self.prog;
            let ghost rv_b = self.reg_mgr.reg2val@;
            let ghost bs_b = self.reg_mgr.bindings();
            match self.build_block(func, b, is_entry_b) {
                Ok(()) => {},
                Err(e) => {
                    proof {
                        assert(!super::step_model::block_ok(
                            rv_b,
                            bs_b,
                            meta_k,
                            *func,
                            func.blocks@[b as int].insts@,
                        ));
                        if super::step_model::blocks_ok(*func, meta_k, 0) {
                            assert(super::step_model::blocks_ok(*func, meta_k, b as int));
                            assert(false);
                        }
                        assert(!super::step_model::func_ok(*func)) by {
                            if super::step_model::func_ok(*func) {
                                assert(meta_k.wf_for(*func));
                                assert(super::step_model::blocks_ok(*func, meta_k, 0));
                            }
                        }
                    }
                    return Err(e);
                },
            }
            proof {
                let s = super::step_model::block_emits(
                    rv_b,
                    bs_b,
                    meta_k,
                    *func,
                    func.blocks@[b as int].insts@,
                );
                if crate::func_meta::spec_is_leaf(*func) {
                    super::lemma_prologue_ra_clean(meta_k, is_entry_b);
                    lemma_ra_clean_concat(super::prologue_emits(meta_k, is_entry_b), s);
                    assert forall|k: int| 0 <= k < b + 1 implies ra_clean(
                        #[trigger] self.prog.funcs@.last().blocks@[k].insts@,
                    ) by {
                        if k < b {
                            assert(self.prog.funcs@.last().blocks@[k] == p_before.funcs@.last(
                            ).blocks@[k]);
                        } else {
                            assert(self.prog.funcs@.last().blocks@[k] == self.prog.funcs@.last(
                            ).blocks@.last());
                        }
                    }
                } else {
                    if b == 0 {
                        super::lemma_prologue_ra_save(meta_k);
                        let j = choose|j: int|
                            0 <= j < super::prologue_emits(meta_k, true).len() && (
                            #[trigger] super::prologue_emits(meta_k, true)[j]) matches Inst::Sw {
                                rs: RA,
                                imm12,
                                rd,
                            };
                        assert(self.prog.funcs@.last().blocks@[0].insts@[j]
                            == super::prologue_emits(meta_k, true)[j]);
                    } else {
                        assert(self.prog.funcs@.last().blocks@[0] == p_before.funcs@.last(
                        ).blocks@[0]);
                    }
                }
                assert forall|k: int| 0 <= k < b + 1 implies (#[trigger] self.prog.funcs@.last(
                ).blocks@[k]).name == (if k == 0 {
                    func.name
                } else {
                    func.blocks@[k].name
                }) && self.prog.funcs@.last().blocks@[k].insts@ == super::prologue_emits(
                    meta_k,
                    k == 0,
                ) + super::step_model::block_emits(
                    super::step_model::blocks_entry_rv(*func, meta_k, k),
                    super::step_model::blocks_entry_bs(*func, meta_k, k),
                    meta_k,
                    *func,
                    func.blocks@[k].insts@,
                ) by {
                    if k < b {
                        assert(self.prog.funcs@.last().blocks@[k] == p_before.funcs@.last(
                        ).blocks@[k]);
                    } else {
                        assert(self.prog.funcs@.last().blocks@[k] == self.prog.funcs@.last(
                        ).blocks@.last());
                    }
                }
                if super::step_model::blocks_ok(*func, meta_k, 0) {
                    assert(super::step_model::blocks_ok(*func, meta_k, b as int));
                    assert(super::step_model::blocks_ok(*func, meta_k, b + 1));
                }
            }
            b += 1;
        }
        Ok(())
    }

    /// Lowers a whole program: every global allocation becomes a
    /// definition, then every defined function is lowered in order.
    pub fn build_prog(&mut self, prog: &ir::Program) -> (res: Result<(), BuildError>)
        requires
            old(self).reg_mgr.wf(),
            prog.wf(),
            old(self).prog.global_defs@.len() == 0,
            old(self).prog.funcs@.len() == 0,
        ensures
            res is Ok ==> final(self).prog.global_defs@.len() == prog.globals@.len() && (forall|
                g: int,
            |
                0 <= g < prog.globals@.len() ==> (#[trigger] final(self).prog.global_defs@[g]).name
                    == prog.globals@[g].name && final(self).prog.global_defs@[g].init@
                    == super::spec_fill(prog.globals@[g].init)),
            res is Ok ==> ({
                let defined = super::step_model::defined_funcs(
                    prog.funcs@,
                    prog.funcs@.len() as int,
                );
                &&& final(self).prog.funcs@.len() == defined.len()
                &&& forall|k: int|
                    0 <= k < defined.len() ==> super::step_model::func_built(
                        #[trigger] final(self).prog.funcs@[k],
                        defined[k],
                    )
            }),
            res is Err ==> !super::step_model::prog_ok(*prog),
    {
        let ng = prog.globals.len();
        let mut g: usize = 0;
        while g < ng
            invariant
                prog.wf(),
                ng == prog.globals@.len(),
                g <= ng,
                self.reg_mgr == old(self).reg_mgr,
                self.prog.funcs@.len() == 0,
                self.prog.global_defs@.len() == g,
                forall|k: int|
                    0 <= k < g ==> (#[trigger] self.prog.global_defs@[k]).name
                        == prog.globals@[k].name && self.prog.global_defs@[k].init@
                        == super::spec_fill(prog.globals@[k].init),
            decreases ng - g,
        {
            self.build_global_alloc(&prog.globals[g]);
            g += 1;
        }
        let nf = prog.funcs.len();
        let mut f: usize = 0;
        while f < nf
            invariant
                prog.wf(),
                nf == prog.funcs@.len(),
                f <= nf,
                self.reg_mgr.wf(),
                self.prog.global_defs@.len() == prog.globals@.len(),
                forall|k: int|
                    0 <= k < prog.globals@.len() ==> (#[trigger] self.prog.global_defs@[k]).name
                        == prog.globals@[k].name && self.prog.global_defs@[k].init@
                        == super::spec_fill(prog.globals@[k].init),
                self.prog.funcs@.len() == super::step_model::defined_funcs(
                    prog.funcs@,
                    f as int,
                ).len(),
                forall|k: int|
                    0 <= k < self.prog.funcs@.len() ==> super::step_model::func_built(
                        #[trigger] self.prog.funcs@[k],
                        super::step_model::defined_funcs(prog.funcs@, f as int)[k],
                    ),
            decreases nf - f,
        {
            proof {
                assert(prog.funcs@[f as int].wf());
            }
            let ghost p_before = self.prog;
            let ghost defined_f = super::step_model::defined_funcs(prog.funcs@, f as int);
            match self.build_func(&prog.funcs[f]) {
                Ok(()) => {},
                Err(e) => {
                    proof {
                        assert(prog.funcs@[f as int].blocks@.len() > 0);
                        assert(!super::step_model::func_ok(prog.funcs@[f as int]));
                        assert(!super::step_model::prog_ok(*prog));
                    }
                    return Err(e);
                },
            }
            proof {
                let defined_f1 = super::step_model::defined_funcs(prog.funcs@, f + 1);
                if prog.funcs@[f as int].blocks@.len() > 0 {
                    assert(defined_f1 == defined_f + seq![prog.funcs@[f as int]]);
                    assert(self.prog.funcs@.len() == defined_f1.len());
                    assert(super::step_model::func_built_with(
                        self.prog.funcs@.last(),
                        prog.funcs@[f as int],
                        self.func_meta,
                    ));
                    assert(super::step_model::func_built(
                        self.prog.funcs@.last(),
                        prog.funcs@[f as int],
                    ));
                    assert forall|k: int|
                        0 <= k < self.prog.funcs@.len() implies super::step_model::func_built(
                        #[trigger] self.prog.funcs@[k],
                        defined_f1[k],
                    ) by {
                        if k < defined_f.len() {
                            assert(self.prog.funcs@[k] == p_before.funcs@[k]);
                            assert(defined_f1[k] == defined_f[k]);
                        } else {
                            assert(self.prog.funcs@[k] == self.prog.funcs@.last());
                            assert(defined_f1[k] == prog.funcs@[f as int]);
                        }
                    }
                } else {
                    assert(self.prog == p_before);
                    assert(defined_f1 =~= defined_f);
                    assert forall|k: int|
                        0 <= k < self.prog.funcs@.len() implies super::step_model::func_built(
                        #[trigger] self.prog.funcs@[k],
                        defined_f1[k],
                    ) by {
                        assert(self.prog.funcs@[k] == p_before.funcs@[k]);
                        assert(defined_f1[k] == defined_f[k]);
                    }
                }
            }
            f += 1;
        }
        Ok(())
    }

    /// Builds the RISC-V program of a whole IR program.
    pub fn build(prog: &ir::Program) -> (res: Result<crate::riscv::Program, BuildError>)
        requires
            prog.wf(),
        ensures
            match res {
                Ok(p) => super::step_model::program_built(p, *prog),
                Err(e) => !super::step_model::prog_ok(*prog),
            },
    {
        let mut builder = RiscvBuilder::new();
        match builder.build_prog(prog) {
            Ok(()) => Ok(builder.prog),
            Err(e) => Err(e),
        }
    }

    /// Whether the value's result is consumed by anything.
    fn is_used(&self, func: &ir::Func, value: ValueId) -> (used: bool)
        requires
            value < func.values@.len(),
        ensures
            used == func.spec_is_used(value),
    {
        func.values[value].used_by.len() > 0
    }

    /// Checks the operand contracts of a pointer-arithmetic value with
    /// operands `src` and `index`.
    fn check_gep(&self, func: &ir::Func, value: ValueId, src: ValueId, index: ValueId) -> (r:
        Result<(), BuildError>)
        requires
            self.reg_mgr.wf(),
            func.wf(),
            value < func.values@.len(),
            src < func.values@.len(),
            index < func.values@.len(),
        ensures
            r is Ok == super::step_model::gep_checks(
                self.reg_mgr.reg2val@,
                self.reg_mgr.bindings(),
                self.func_meta,
                *func,
                value,
                src,
                index,
            ),
            r is Ok ==> super::step_model::gep_ok(
                self.reg_mgr.reg2val@,
                self.reg_mgr.bindings(),
                self.func_meta,
                *func,
                value,
                src,
                index,
            ),
    {
        if self.reg_mgr.is_bound(value) {
            return Err(BuildError::UnboundOperand);
        }
        if index == value || src == value || src == index {
            return Err(BuildError::UnboundOperand);
        }
        let ghost rv0 = self.reg_mgr.reg2val@;
        let ghost bs0 = self.reg_mgr.bindings();
        let is_global = match &func.values[src].kind {
            ValueKind::GlobalRef { .. } => true,
            _ => false,
        };
        let is_local = !is_global && self.func_meta.offset(src).is_some();
        if is_global || is_local {
            if !self.can_consume(func, index, 2) {
                return Err(BuildError::UnboundOperand);
            }
            proof {
                let rv_a = resolve_rv(rv0, bs0, *func, index);
                if needs_alloc(*func, index) {
                    lemma_find_free_is_free(rv0);
                    lemma_scan_count_update(rv0, pick_reg(rv0, None), index);
                }
                lemma_scan_count_find(rv_a);
            }
            Ok(())
        } else {
            let src_zero = match &func.values[src].kind {
                ValueKind::Integer { value: z } => *z == 0,
                _ => false,
            };
            if src_zero {
                return Err(BuildError::UnboundOperand);
            }
            if !self.can_consume(func, src, 3) {
                return Err(BuildError::UnboundOperand);
            }
            if !self.can_consume(func, index, 3) {
                return Err(BuildError::UnboundOperand);
            }
            proof {
                lemma_find_free_is_free(rv0);
                lemma_after_resolve(rv0, bs0, *func, src, index, 2);
                let rv1 = resolve_rv(rv0, bs0, *func, src);
                let bs1 = resolve_bs(rv0, bs0, *func, src);
                let rv_a = resolve_rv(rv1, bs1, *func, index);
                if needs_alloc(*func, index) {
                    lemma_find_free_is_free(rv1);
                    lemma_scan_count_update(rv1, pick_reg(rv1, None), index);
                }
                lemma_scan_count_find(rv_a);
                assert forall|i: int| 0 <= i < bs0.len() implies spec_allocatable(
                    (#[trigger] bs0[i]).1,
                ) by {}
                lemma_resolve_reg_not_x0(rv0, bs0, *func, src);
            }
            Ok(())
        }
    }

    /// Lowers one instruction of the current block, first checking the
    /// selector's internal contracts; a value whose unique use is a
    /// pending call argument is spilled to its staging slot and
    /// released right away.
    #[verifier::spinoff_prover]
    #[verifier::rlimit(100)]
    pub fn build_inst(&mut self, func: &ir::Func, value: ValueId, dst: Option<Reg>) -> (res:
        Result<Option<Reg>, BuildError>)
        requires
            open_block(old(self).prog),
            old(self).reg_mgr.wf(),
            func.wf(),
            old(self).func_meta.wf_for(*func),
            value < func.values@.len(),
            dst is None,
        ensures
            final(self).func_meta == old(self).func_meta,
            final(self).reg_mgr.wf(),
            res is Ok == super::step_model::inst_ok(
                old(self).reg_mgr.reg2val@,
                old(self).reg_mgr.bindings(),
                old(self).func_meta,
                *func,
                value,
            ),
            res is Ok ==> ({
                let rv0 = old(self).reg_mgr.reg2val@;
                let bs0 = old(self).reg_mgr.bindings();
                let meta = old(self).func_meta;
                &&& res == Ok::<Option<Reg>, BuildError>(
                    super::step_model::inst_result(rv0, bs0, meta, *func, value),
                )
                &&& grown(
                    old(self).prog,
                    final(self).prog,
                    super::step_model::step_emits(rv0, bs0, meta, *func, value),
                )
                &&& final(self).reg_mgr.bindings() == super::step_model::step_bs(
                    rv0,
                    bs0,
                    meta,
                    *func,
                    value,
                )
                &&& final(self).reg_mgr.reg2val@ == super::step_model::step_rv(
                    rv0,
                    bs0,
                    meta,
                    *func,
                    value,
                )
                &&& (meta.is_leaf ==> ra_clean(
                    super::step_model::step_emits(rv0, bs0, meta, *func, value),
                ))
            }),
            open_block(final(self).prog),
    {
        let ghost p0 = self.prog;
        let ghost rv0 = self.reg_mgr.reg2val@;
        let ghost bs0 = self.reg_mgr.bindings();
        let ghost meta0 = self.func_meta;
        let ghost leaf = self.func_meta.is_leaf;
        proof {
            assert(func.kind_wf(func.values@[value as int].kind));
        }
        let step: Result<Option<Reg>, BuildError> = match &func.values[value].kind {
            ValueKind::Integer { .. } => self.inst_integer(func, value),
            ValueKind::Alloc { .. } => {
                proof {
                    lemma_grown_refl(p0);
                }
                Ok(None)
            },
            ValueKind::Load { .. } => self.inst_load(func, value),
            ValueKind::Store { .. } => self.inst_store(func, value),
            ValueKind::Binary { .. } => self.inst_binary(func, value),
            ValueKind::Branch { .. } => self.inst_branch(func, value),
            ValueKind::Jump { .. } => {
                let rr = self.build_jump(func, value);
                proof {
                    match func.kind_of(value) {
                        ValueKind::Jump { target } => {
                            assert(grown(p0, self.prog, seq![Inst::J { label: target }]));
                        },
                        _ => {
                            assert(false);
                        },
                    }
                }
                Ok(rr)
            },
            ValueKind::Call { .. } => self.inst_call(func, value),
            ValueKind::Return { .. } => self.inst_ret(func, value),
            ValueKind::GetElemPtr { .. } => {
                let (src, index) = match &func.values[value].kind {
                    ValueKind::GetElemPtr { src, index, base_size: _ } => (*src, *index),
                    _ => (0, 0),
                };
                match self.check_gep(func, value, src, index) {
                    Ok(()) => Ok(self.build_get_elem_ptr(func, value, None)),
                    Err(e) => Err(e),
                }
            },
            ValueKind::GetPtr { .. } => {
                let (src, index) = match &func.values[value].kind {
                    ValueKind::GetPtr { src, index, base_size: _ } => (*src, *index),
                    _ => (0, 0),
                };
                match self.check_gep(func, value, src, index) {
                    Ok(()) => Ok(self.build_get_ptr(func, value, None)),
                    Err(e) => Err(e),
                }
            },
            _ => Err(BuildError::UnexpectedKind),
        };
        let r = match step {
            Ok(rr) => rr,
            Err(e) => {
                return Err(e);
            },
        };
        proof {
            assert(r == super::step_model::inst_result(rv0, bs0, meta0, *func, value));
            if leaf {
                assert(ra_clean(super::step_model::inst_emits(rv0, bs0, meta0, *func, value)))
                    by {
                    match func.kind_of(value) {
                        ValueKind::Alloc { size } => {
                            assert(super::step_model::inst_emits(rv0, bs0, meta0, *func, value)
                                =~= Seq::<Inst>::empty());
                        },
                        ValueKind::Jump { target } => {},
                        _ => {},
                    }
                }
            }
        }
        // A value whose unique use is a pending call argument goes to
        // its staging slot now and leaves the pool.
        let staged = {
            let ub = &func.values[value].used_by;
            if ub.len() == 1 {
                let user = ub[0];
                match &func.values[user].kind {
                    ValueKind::Call { .. } => true,
                    _ => false,
                }
            } else {
                false
            }
        };
        proof {
            assert(staged == super::step_model::staged(*func, value));
        }
        if staged {
            match r {
                Some(reg) => {
                    match self.func_meta.offset(value) {
                        Some(off) => {
                            if reg == RA || reg >= 32 {
                                proof {
                                    assert(!super::step_model::inst_ok(
                                        rv0,
                                        bs0,
                                        meta0,
                                        *func,
                                        value,
                                    ));
                                }
                                return Err(BuildError::UnboundOperand);
                            }
                            if reg == X0 {
                                if self.reg_mgr.is_bound(value) {
                                    proof {
                                        assert(!super::step_model::inst_ok(
                                            rv0,
                                            bs0,
                                            meta0,
                                            *func,
                                            value,
                                        ));
                                    }
                                    return Err(BuildError::UnboundOperand);
                                }
                            } else {
                                if !self.reg_mgr.is_bound_to(value, reg) {
                                    proof {
                                        assert(!super::step_model::inst_ok(
                                            rv0,
                                            bs0,
                                            meta0,
                                            *func,
                                            value,
                                        ));
                                    }
                                    return Err(BuildError::UnboundOperand);
                                }
                            }
                            proof {
                                assert(off <= self.func_meta.frame_size);
                                crate::func_meta::lemma_frame_size_bound(*func);
                            }
                            let ghost pb = self.prog;
                            self.build_sw(reg, off as i32, SP);
                            self.reg_mgr.free(value, reg);
                            proof {
                                lemma_ra_clean_sw(reg, off as i32, SP);
                                lemma_grown_trans(
                                    p0,
                                    pb,
                                    self.prog,
                                    super::step_model::inst_emits(rv0, bs0, meta0, *func, value),
                                    emit_sw(reg, off as i32, SP),
                                );
                                if leaf {
                                    lemma_ra_clean_concat(
                                        super::step_model::inst_emits(
                                            rv0,
                                            bs0,
                                            meta0,
                                            *func,
                                            value,
                                        ),
                                        emit_sw(reg, off as i32, SP),
                                    );
                                }
                                assert(super::step_model::inst_ok(rv0, bs0, meta0, *func, value));
                            }
                        },
                        None => {
                            proof {
                                assert(!super::step_model::inst_ok(rv0, bs0, meta0, *func, value));
                            }
                            return Err(BuildError::MissingOffset);
                        },
                    }
                },
                None => {
                    proof {
                        assert(!super::step_model::inst_ok(rv0, bs0, meta0, *func, value));
                    }
                    return Err(BuildError::UnexpectedKind);
                },
            }
        }
        Ok(r)
    }

    /// Checks and lowers one integer value.
    #[verifier::spinoff_prover]
    #[verifier::rlimit(100)]
    fn inst_integer(&mut self, func: &ir::Func, value: ValueId) -> (res: Result<
        Option<Reg>,
        BuildError,
    >)
        requires
            open_block(old(self).prog),
            old(self).reg_mgr.wf(),
            func.wf(),
            old(self).func_meta.wf_for(*func),
            value < func.values@.len(),
            func.kind_of(value) is Integer,
        ensures
            final(self).func_meta == old(self).func_meta,
            final(self).reg_mgr.wf(),
            res is Ok == super::step_model::inst_checks(
                old(self).reg_mgr.reg2val@,
                old(self).reg_mgr.bindings(),
                old(self).func_meta,
                *func,
                value,
            ),
            res is Ok ==> ({
                let rv0 = old(self).reg_mgr.reg2val@;
                let bs0 = old(self).reg_mgr.bindings();
                let meta = old(self).func_meta;
                &&& res == Ok::<Option<Reg>, BuildError>(
                    super::step_model::inst_result(rv0, bs0, meta, *func, value),
                )
                &&& grown(
                    old(self).prog,
                    final(self).prog,
                    super::step_model::inst_emits(rv0, bs0, meta, *func, value),
                )
                &&& final(self).reg_mgr.bindings() == super::step_model::inst_bs(
                    rv0,
                    bs0,
                    meta,
                    *func,
                    value,
                )
                &&& final(self).reg_mgr.reg2val@ == super::step_model::inst_rv(
                    rv0,
                    bs0,
                    meta,
                    *func,
                    value,
                )
                &&& (meta.is_leaf ==> ra_clean(
                    super::step_model::inst_emits(rv0, bs0, meta, *func, value),
                ))
            }),
            open_block(final(self).prog),
    {
        let ghost p0 = self.prog;
        let ghost rv0 = self.reg_mgr.reg2val@;
        let ghost bs0 = self.reg_mgr.bindings();
        let ghost leaf = self.func_meta.is_leaf;
        proof {
            assert(func.kind_wf(func.values@[value as int].kind));
            assert forall|i: int| 0 <= i < bs0.len() implies spec_allocatable(
                (#[trigger] bs0[i]).1,
            ) by {}
        }
        let imm = match &func.values[value].kind {
            ValueKind::Integer { value: z } => *z,
            _ => 0,
        };
        if self.reg_mgr.is_bound(value) {
            return Err(BuildError::UnboundOperand);
        }
        let cnt = self.reg_mgr.count_free_scan();
        if imm != 0 && cnt < 1 {
            return Err(BuildError::NoFreeRegister);
        }
        proof {
            if cnt >= 1 {
                lemma_scan_count_find(rv0);
            }
        }
        let rr = self.build_integer(func, value, None);
        proof {
            if func.int_of(value) == 0 {
                lemma_grown_refl(p0);
                lemma_inst_grown(p0, self.prog, leaf, Seq::<Inst>::empty());
            } else {
                lemma_inst_grown(
                    p0,
                    self.prog,
                    leaf,
                    seq![Inst::Li { rd: pick_reg(rv0, None), imm: func.int_of(value) }],
                );
            }
        }
Ok(rr)
    }

    /// Checks and lowers one load value.
    #[verifier::spinoff_prover]
    #[verifier::rlimit(100)]
    fn inst_load(&mut self, func: &ir::Func, value: ValueId) -> (res: Result<
        Option<Reg>,
        BuildError,
    >)
        requires
            open_block(old(self).prog),
            old(self).reg_mgr.wf(),
            func.wf(),
            old(self).func_meta.wf_for(*func),
            value < func.values@.len(),
            func.kind_of(value) is Load,
        ensures
            final(self).func_meta == old(self).func_meta,
            final(self).reg_mgr.wf(),
            res is Ok == super::step_model::inst_checks(
                old(self).reg_mgr.reg2val@,
                old(self).reg_mgr.bindings(),
                old(self).func_meta,
                *func,
                value,
            ),
            res is Ok ==> ({
                let rv0 = old(self).reg_mgr.reg2val@;
                let bs0 = old(self).reg_mgr.bindings();
                let meta = old(self).func_meta;
                &&& res == Ok::<Option<Reg>, BuildError>(
                    super::step_model::inst_result(rv0, bs0, meta, *func, value),
                )
                &&& grown(
                    old(self).prog,
                    final(self).prog,
                    super::step_model::inst_emits(rv0, bs0, meta, *func, value),
                )
                &&& final(self).reg_mgr.bindings() == super::step_model::inst_bs(
                    rv0,
                    bs0,
                    meta,
                    *func,
                    value,
                )
                &&& final(self).reg_mgr.reg2val@ == super::step_model::inst_rv(
                    rv0,
                    bs0,
                    meta,
                    *func,
                    value,
                )
                &&& (meta.is_leaf ==> ra_clean(
                    super::step_model::inst_emits(rv0, bs0, meta, *func, value),
                ))
            }),
            open_block(final(self).prog),
    {
        let ghost p0 = self.prog;
        let ghost rv0 = self.reg_mgr.reg2val@;
        let ghost bs0 = self.reg_mgr.bindings();
        let ghost leaf = self.func_meta.is_leaf;
        proof {
            assert(func.kind_wf(func.values@[value as int].kind));
            assert forall|i: int| 0 <= i < bs0.len() implies spec_allocatable(
                (#[trigger] bs0[i]).1,
            ) by {}
        }
        let src = match &func.values[value].kind {
            ValueKind::Load { src } => *src,
            _ => 0,
        };
        if self.reg_mgr.is_bound(value) {
            return Err(BuildError::UnboundOperand);
        }
        let cnt = self.reg_mgr.count_free_scan();
        if cnt < 1 {
            return Err(BuildError::NoFreeRegister);
        }
        proof {
            lemma_scan_count_find(rv0);
            lemma_find_free_is_free(rv0);
        }
        let is_global = match &func.values[src].kind {
            ValueKind::GlobalRef { .. } => true,
            _ => false,
        };
        let is_local = !is_global && self.func_meta.offset(src).is_some();
        let ghost rd = pick_reg(rv0, None);
        let ghost rv_a = rv0.update(rd as int, Some(value));
        let ghost bs_a = bs0.push((value, rd));
        if !is_global && !is_local {
            if src == value {
                return Err(BuildError::UnboundOperand);
            }
            if !self.can_consume(func, src, 2) {
                return Err(BuildError::UnboundOperand);
            }
            proof {
                lemma_consumable_push(rv0, bs0, *func, src, value, rd, 1);
            }
        }
        let rr = self.build_load(func, value, None);
        proof {
            if is_global {
                lemma_ra_clean_lw(rd, 0, rd);
                lemma_ra_clean_concat(
                    seq![Inst::La { rd, label: func.global_name_of(src) }],
                    emit_lw(rd, 0, rd),
                );
                lemma_inst_grown(
                    p0,
                    self.prog,
                    leaf,
                    seq![Inst::La { rd, label: func.global_name_of(src) }] + emit_lw(
                        rd,
                        0,
                        rd,
                    ),
                );
            } else if is_local {
                match old(self).func_meta.spec_offset(src) {
                    Some(off) => {
                        lemma_ra_clean_lw(rd, off as i32, SP);
                        lemma_inst_grown(p0, self.prog, leaf, emit_lw(rd, off as i32, SP));
                    },
                    None => {
                        assert(false);
                    },
                }
            } else {
                let rs = resolve_reg(rv_a, bs_a, *func, src);
                lemma_ra_clean_resolve(rv_a, bs_a, *func, src);
                lemma_ra_clean_lw(rd, 0, rs);
                lemma_ra_clean_concat(
                    resolve_emits(rv_a, bs_a, *func, src),
                    emit_lw(rd, 0, rs),
                );
                lemma_inst_grown(
                    p0,
                    self.prog,
                    leaf,
                    resolve_emits(rv_a, bs_a, *func, src) + emit_lw(rd, 0, rs),
                );
            }
        }
Ok(rr)
    }

    /// Checks and lowers one store value.
    #[verifier::spinoff_prover]
    #[verifier::rlimit(100)]
    fn inst_store(&mut self, func: &ir::Func, value: ValueId) -> (res: Result<
        Option<Reg>,
        BuildError,
    >)
        requires
            open_block(old(self).prog),
            old(self).reg_mgr.wf(),
            func.wf(),
            old(self).func_meta.wf_for(*func),
            value < func.values@.len(),
            func.kind_of(value) is Store,
        ensures
            final(self).func_meta == old(self).func_meta,
            final(self).reg_mgr.wf(),
            res is Ok == super::step_model::inst_checks(
                old(self).reg_mgr.reg2val@,
                old(self).reg_mgr.bindings(),
                old(self).func_meta,
                *func,
                value,
            ),
            res is Ok ==> ({
                let rv0 = old(self).reg_mgr.reg2val@;
                let bs0 = old(self).reg_mgr.bindings();
                let meta = old(self).func_meta;
                &&& res == Ok::<Option<Reg>, BuildError>(
                    super::step_model::inst_result(rv0, bs0, meta, *func, value),
                )
                &&& grown(
                    old(self).prog,
                    final(self).prog,
                    super::step_model::inst_emits(rv0, bs0, meta, *func, value),
                )
                &&& final(self).reg_mgr.bindings() == super::step_model::inst_bs(
                    rv0,
                    bs0,
                    meta,
                    *func,
                    value,
                )
                &&& final(self).reg_mgr.reg2val@ == super::step_model::inst_rv(
                    rv0,
                    bs0,
                    meta,
                    *func,
                    value,
                )
                &&& (meta.is_leaf ==> ra_clean(
                    super::step_model::inst_emits(rv0, bs0, meta, *func, value),
                ))
            }),
            open_block(final(self).prog),
    {
        let ghost p0 = self.prog;
        let ghost rv0 = self.reg_mgr.reg2val@;
        let ghost bs0 = self.reg_mgr.bindings();
        let ghost leaf = self.func_meta.is_leaf;
        proof {
            assert(func.kind_wf(func.values@[value as int].kind));
            assert forall|i: int| 0 <= i < bs0.len() implies spec_allocatable(
                (#[trigger] bs0[i]).1,
            ) by {}
        }
        let (sv, dest) = match &func.values[value].kind {
            ValueKind::Store { value: s2, dest } => (*s2, *dest),
            _ => (0, 0),
        };
        if !self.can_consume(func, sv, 2) {
            return Err(BuildError::UnboundOperand);
        }
        let is_global = match &func.values[dest].kind {
            ValueKind::GlobalRef { .. } => true,
            _ => false,
        };
        let is_local = !is_global && self.func_meta.offset(dest).is_some();
        if !is_global && !is_local {
            if dest == sv {
                return Err(BuildError::UnboundOperand);
            }
            if !self.can_consume(func, dest, 2) {
                return Err(BuildError::UnboundOperand);
            }
            proof {
                lemma_after_resolve(rv0, bs0, *func, sv, dest, 1);
            }
        }
        let ghost rs = resolve_reg(rv0, bs0, *func, sv);
        let ghost rv1 = resolve_rv(rv0, bs0, *func, sv);
        let ghost bs1 = resolve_bs(rv0, bs0, *func, sv);
        let rr = self.build_store(func, value);
        proof {
            lemma_ra_clean_resolve(rv0, bs0, *func, sv);
            lemma_resolve_reg_not_ra(rv0, bs0, *func, sv);
            if is_global {
                lemma_ra_clean_sw(rs, 0, T0);
                lemma_ra_clean_concat(
                    resolve_emits(rv0, bs0, *func, sv),
                    seq![Inst::La { rd: T0, label: func.global_name_of(dest) }],
                );
                lemma_ra_clean_concat(
                    resolve_emits(rv0, bs0, *func, sv) + seq![
                        Inst::La { rd: T0, label: func.global_name_of(dest) },
                    ],
                    emit_sw(rs, 0, T0),
                );
                lemma_inst_grown(
                    p0,
                    self.prog,
                    leaf,
                    resolve_emits(rv0, bs0, *func, sv) + seq![
                        Inst::La { rd: T0, label: func.global_name_of(dest) },
                    ] + emit_sw(rs, 0, T0),
                );
            } else if is_local {
                match old(self).func_meta.spec_offset(dest) {
                    Some(off) => {
                        lemma_ra_clean_sw(rs, off as i32, SP);
                        lemma_ra_clean_concat(
                            resolve_emits(rv0, bs0, *func, sv),
                            emit_sw(rs, off as i32, SP),
                        );
                        lemma_inst_grown(
                            p0,
                            self.prog,
                            leaf,
                            resolve_emits(rv0, bs0, *func, sv) + emit_sw(
                                rs,
                                off as i32,
                                SP,
                            ),
                        );
                    },
                    None => {
                        assert(false);
                    },
                }
            } else {
                let rdp = resolve_reg(rv1, bs1, *func, dest);
                lemma_ra_clean_resolve(rv1, bs1, *func, dest);
                lemma_ra_clean_sw(rs, 0, rdp);
                lemma_ra_clean_concat(
                    resolve_emits(rv0, bs0, *func, sv),
                    resolve_emits(rv1, bs1, *func, dest),
                );
                lemma_ra_clean_concat(
                    resolve_emits(rv0, bs0, *func, sv) + resolve_emits(
                        rv1,
                        bs1,
                        *func,
                        dest,
                    ),
                    emit_sw(rs, 0, rdp),
                );
                lemma_inst_grown(
                    p0,
                    self.prog,
                    leaf,
                    resolve_emits(rv0, bs0, *func, sv) + resolve_emits(
                        rv1,
                        bs1,
                        *func,
                        dest,
                    ) + emit_sw(rs, 0, rdp),
                );
            }
        }
Ok(rr)
    }

    /// Checks and lowers one binary value.
    #[verifier::spinoff_prover]
    #[verifier::rlimit(100)]
    fn inst_binary(&mut self, func: &ir::Func, value: ValueId) -> (res: Result<
        Option<Reg>,
        BuildError,
    >)
        requires
            open_block(old(self).prog),
            old(self).reg_mgr.wf(),
            func.wf(),
            old(self).func_meta.wf_for(*func),
            value < func.values@.len(),
            func.kind_of(value) is Binary,
        ensures
            final(self).func_meta == old(self).func_meta,
            final(self).reg_mgr.wf(),
            res is Ok == super::step_model::inst_checks(
                old(self).reg_mgr.reg2val@,
                old(self).reg_mgr.bindings(),
                old(self).func_meta,
                *func,
                value,
            ),
            res is Ok ==> ({
                let rv0 = old(self).reg_mgr.reg2val@;
                let bs0 = old(self).reg_mgr.bindings();
                let meta = old(self).func_meta;
                &&& res == Ok::<Option<Reg>, BuildError>(
                    super::step_model::inst_result(rv0, bs0, meta, *func, value),
                )
                &&& grown(
                    old(self).prog,
                    final(self).prog,
                    super::step_model::inst_emits(rv0, bs0, meta, *func, value),
                )
                &&& final(self).reg_mgr.bindings() == super::step_model::inst_bs(
                    rv0,
                    bs0,
                    meta,
                    *func,
                    value,
                )
                &&& final(self).reg_mgr.reg2val@ == super::step_model::inst_rv(
                    rv0,
                    bs0,
                    meta,
                    *func,
                    value,
                )
                &&& (meta.is_leaf ==> ra_clean(
                    super::step_model::inst_emits(rv0, bs0, meta, *func, value),
                ))
            }),
            open_block(final(self).prog),
    {
        let ghost p0 = self.prog;
        let ghost rv0 = self.reg_mgr.reg2val@;
        let ghost bs0 = self.reg_mgr.bindings();
        let ghost leaf = self.func_meta.is_leaf;
        proof {
            assert(func.kind_wf(func.values@[value as int].kind));
            assert forall|i: int| 0 <= i < bs0.len() implies spec_allocatable(
                (#[trigger] bs0[i]).1,
            ) by {}
        }
        let (op, lhs, rhs) = match &func.values[value].kind {
            ValueKind::Binary { op, lhs, rhs } => (*op, *lhs, *rhs),
            _ => (ir::BinaryOp::Add, 0, 0),
        };
        if self.reg_mgr.is_bound(value) {
            return Err(BuildError::UnboundOperand);
        }
        let lhs_zero = match &func.values[lhs].kind {
            ValueKind::Integer { value: l0 } => *l0 == 0,
            _ => false,
        };
        if lhs == rhs && !lhs_zero {
            return Err(BuildError::UnboundOperand);
        }
        if !self.can_consume(func, lhs, 3) {
            return Err(BuildError::UnboundOperand);
        }
        if !self.can_consume(func, rhs, 3) {
            return Err(BuildError::UnboundOperand);
        }
        proof {
            assert(rv0.len() == 32);
            lemma_after_resolve(rv0, bs0, *func, lhs, rhs, 2);
            let rv1 = resolve_rv(rv0, bs0, *func, lhs);
            let bs1 = resolve_bs(rv0, bs0, *func, lhs);
            let rv2 = resolve_rv(rv1, bs1, *func, rhs);
            super::lemma_resolve_rv_len(rv0, bs0, *func, lhs);
            assert(rv1.len() == 32);
            if needs_alloc(*func, rhs) {
                lemma_find_free_is_free(rv1);
                lemma_scan_count_update(rv1, pick_reg(rv1, None), rhs);
            }
            super::lemma_resolve_rv_len(rv1, bs1, *func, rhs);
            assert(rv2.len() == 32);
            lemma_scan_count_find(rv2);
        }
        let rr = self.build_binary(func, value, None);
        proof {
            let rv1 = resolve_rv(rv0, bs0, *func, lhs);
            let bs1 = resolve_bs(rv0, bs0, *func, lhs);
            let r1 = resolve_reg(rv0, bs0, *func, lhs);
            let r2 = resolve_reg(rv1, bs1, *func, rhs);
            let rv2 = resolve_rv(rv1, bs1, *func, rhs);
            let rd = pick_reg(rv2, None);
            lemma_ra_clean_resolve(rv0, bs0, *func, lhs);
            lemma_ra_clean_resolve(rv1, bs1, *func, rhs);
            lemma_ra_clean_concat(
                resolve_emits(rv0, bs0, *func, lhs),
                resolve_emits(rv1, bs1, *func, rhs),
            );
            lemma_ra_clean_concat(
                resolve_emits(rv0, bs0, *func, lhs) + resolve_emits(rv1, bs1, *func, rhs),
                emit_binop(op, r1, r2, rd),
            );
            lemma_inst_grown(
                p0,
                self.prog,
                leaf,
                resolve_emits(rv0, bs0, *func, lhs) + resolve_emits(rv1, bs1, *func, rhs)
                    + emit_binop(op, r1, r2, rd),
            );
        }
Ok(rr)
    }

    /// Checks and lowers one branch value.
    #[verifier::spinoff_prover]
    #[verifier::rlimit(100)]
    fn inst_branch(&mut self, func: &ir::Func, value: ValueId) -> (res: Result<
        Option<Reg>,
        BuildError,
    >)
        requires
            open_block(old(self).prog),
            old(self).reg_mgr.wf(),
            func.wf(),
            old(self).func_meta.wf_for(*func),
            value < func.values@.len(),
            func.kind_of(value) is Branch,
        ensures
            final(self).func_meta == old(self).func_meta,
            final(self).reg_mgr.wf(),
            res is Ok == super::step_model::inst_checks(
                old(self).reg_mgr.reg2val@,
                old(self).reg_mgr.bindings(),
                old(self).func_meta,
                *func,
                value,
            ),
            res is Ok ==> ({
                let rv0 = old(self).reg_mgr.reg2val@;
                let bs0 = old(self).reg_mgr.bindings();
                let meta = old(self).func_meta;
                &&& res == Ok::<Option<Reg>, BuildError>(
                    super::step_model::inst_result(rv0, bs0, meta, *func, value),
                )
                &&& grown(
                    old(self).prog,
                    final(self).prog,
                    super::step_model::inst_emits(rv0, bs0, meta, *func, value),
                )
                &&& final(self).reg_mgr.bindings() == super::step_model::inst_bs(
                    rv0,
                    bs0,
                    meta,
                    *func,
                    value,
                )
                &&& final(self).reg_mgr.reg2val@ == super::step_model::inst_rv(
                    rv0,
                    bs0,
                    meta,
                    *func,
                    value,
                )
                &&& (meta.is_leaf ==> ra_clean(
                    super::step_model::inst_emits(rv0, bs0, meta, *func, value),
                ))
            }),
            open_block(final(self).prog),
    {
        let ghost p0 = self.prog;
        let ghost rv0 = self.reg_mgr.reg2val@;
        let ghost bs0 = self.reg_mgr.bindings();
        let ghost leaf = self.func_meta.is_leaf;
        proof {
            assert(func.kind_wf(func.values@[value as int].kind));
            assert forall|i: int| 0 <= i < bs0.len() implies spec_allocatable(
                (#[trigger] bs0[i]).1,
            ) by {}
        }
        let cond = match &func.values[value].kind {
            ValueKind::Branch { cond, .. } => *cond,
            _ => 0,
        };
        if !self.can_consume(func, cond, 1) {
            return Err(BuildError::UnboundOperand);
        }
        let rr = self.build_branch(func, value);
        proof {
            match func.kind_of(value) {
                ValueKind::Branch { cond: c2, true_label, false_label } => {
                    let rc = resolve_reg(rv0, bs0, *func, c2);
                    lemma_ra_clean_resolve(rv0, bs0, *func, c2);
                    lemma_ra_clean_concat(
                        resolve_emits(rv0, bs0, *func, c2),
                        seq![
                            Inst::Beqz { rs: rc, label: false_label },
                            Inst::J { label: true_label },
                        ],
                    );
                    lemma_inst_grown(
                        p0,
                        self.prog,
                        leaf,
                        resolve_emits(rv0, bs0, *func, c2) + seq![
                            Inst::Beqz { rs: rc, label: false_label },
                            Inst::J { label: true_label },
                        ],
                    );
                },
                _ => {
                    assert(false);
                },
            }
        }
Ok(rr)
    }

    /// Checks and lowers one call value.
    #[verifier::spinoff_prover]
    #[verifier::rlimit(100)]
    fn inst_call(&mut self, func: &ir::Func, value: ValueId) -> (res: Result<
        Option<Reg>,
        BuildError,
    >)
        requires
            open_block(old(self).prog),
            old(self).reg_mgr.wf(),
            func.wf(),
            old(self).func_meta.wf_for(*func),
            value < func.values@.len(),
            func.kind_of(value) is Call,
        ensures
            final(self).func_meta == old(self).func_meta,
            final(self).reg_mgr.wf(),
            res is Ok == super::step_model::inst_checks(
                old(self).reg_mgr.reg2val@,
                old(self).reg_mgr.bindings(),
                old(self).func_meta,
                *func,
                value,
            ),
            res is Ok ==> ({
                let rv0 = old(self).reg_mgr.reg2val@;
                let bs0 = old(self).reg_mgr.bindings();
                let meta = old(self).func_meta;
                &&& res == Ok::<Option<Reg>, BuildError>(
                    super::step_model::inst_result(rv0, bs0, meta, *func, value),
                )
                &&& grown(
                    old(self).prog,
                    final(self).prog,
                    super::step_model::inst_emits(rv0, bs0, meta, *func, value),
                )
                &&& final(self).reg_mgr.bindings() == super::step_model::inst_bs(
                    rv0,
                    bs0,
                    meta,
                    *func,
                    value,
                )
                &&& final(self).reg_mgr.reg2val@ == super::step_model::inst_rv(
                    rv0,
                    bs0,
                    meta,
                    *func,
                    value,
                )
                &&& (meta.is_leaf ==> ra_clean(
                    super::step_model::inst_emits(rv0, bs0, meta, *func, value),
                ))
            }),
            open_block(final(self).prog),
    {
        let ghost p0 = self.prog;
        let ghost rv0 = self.reg_mgr.reg2val@;
        let ghost bs0 = self.reg_mgr.bindings();
        let ghost leaf = self.func_meta.is_leaf;
        proof {
            assert(func.kind_wf(func.values@[value as int].kind));
            assert forall|i: int| 0 <= i < bs0.len() implies spec_allocatable(
                (#[trigger] bs0[i]).1,
            ) by {}
        }
        let args = match &func.values[value].kind {
            ValueKind::Call { callee: _, args } => args.clone(),
            _ => Vec::new(),
        };
        proof {
            assert(match func.kind_of(value) {
                ValueKind::Call { callee, args: a2 } => a2@ == args@,
                _ => false,
            });
        }
        let mut i: usize = 0;
        while i < args.len()
            invariant
                self == old(self),
                open_block(old(self).prog),
                old(self).reg_mgr.wf(),
                func.wf(),
                value < func.values@.len(),
                func.kind_of(value) is Call,
                rv0 == old(self).reg_mgr.reg2val@,
                bs0 == old(self).reg_mgr.bindings(),
                (match func.kind_of(value) {
                    ValueKind::Call { callee, args: a2 } => a2@ == args@,
                    _ => false,
                }),
                i <= args@.len(),
                self.func_meta.wf_for(*func),
                forall|k: int|
                    0 <= k < args@.len() ==> #[trigger] args@[k] < func.values@.len(),
                forall|k: int|
                    0 <= k < i ==> func.kind_of(#[trigger] args@[k]) is Integer
                        || self.func_meta.spec_offset(args@[k]) is Some,
            decreases args@.len() - i,
        {
            let a = args[i];
            let ok = match &func.values[a].kind {
                ValueKind::Integer { .. } => true,
                _ => self.func_meta.offset(a).is_some(),
            };
            if !ok {
                proof {
                    assert(!(func.kind_of(args@[i as int]) is Integer
                        || self.func_meta.spec_offset(args@[i as int]) is Some));
                    assert(!super::step_model::inst_checks(
                        rv0,
                        bs0,
                        old(self).func_meta,
                        *func,
                        value,
                    )) by {
                        match func.kind_of(value) {
                            ValueKind::Call { callee, args: a2 } => {
                                assert(a2@[i as int] == args@[i as int]);
                            },
                            _ => {},
                        }
                    }
                }
                return Err(BuildError::MissingOffset);
            }
            i += 1;
        }
        proof {
            assert(match func.kind_of(value) {
                ValueKind::Call { callee, args: a2 } => forall|k: int|
                    0 <= k < a2@.len() ==> #[trigger] a2@[k] < func.values@.len() && (
                    func.kind_of(a2@[k]) is Integer || self.func_meta.spec_offset(a2@[k])
                        is Some),
                _ => false,
            });
        }
        if self.reg_mgr.is_bound(value) {
            return Err(BuildError::UnboundOperand);
        }
        let used = self.is_used(func, value);
        if used {
            let cnt = self.reg_mgr.count_free_scan();
            if cnt < 1 {
                return Err(BuildError::NoFreeRegister);
            }
            proof {
                lemma_scan_count_find(rv0);
            }
        }
        let rr = self.build_call(func, value, None);
        proof {
            match func.kind_of(value) {
                ValueKind::Call { callee, args: a2 } => {
                    let regs = old(self).reg_mgr.live_regs();
                    let asz = old(self).func_meta.arg_size as int;
                    lemma_ra_clean_pass(*func, old(self).func_meta, a2@, a2@.len() as int);
                    assert forall|k: int| 0 <= k < regs.len() implies spec_allocatable(
                        #[trigger] regs[k],
                    ) by {
                        assert(regs[k] == bs0[k].1);
                    }
                    super::lemma_ra_clean_saves(regs, asz);
                    super::lemma_ra_clean_copies(asz / 4, (4 * regs.len()) as i32);
                    let body = emit_pass_args(
                        *func,
                        old(self).func_meta,
                        a2@,
                        a2@.len() as int,
                    ) + emit_saves(regs, asz) + seq![Inst::Call { label: callee }]
                        + emit_restores(regs, asz);
                    assert(ra_clean(emit_saves(regs, asz))) by {
                        if regs.len() > 0 {
                            lemma_ra_clean_concat(
                                super::emit_addi(SP, SP, ((-4 * regs.len()) as i32)),
                                super::emit_arg_copies(asz / 4, (4 * regs.len()) as i32),
                            );
                            lemma_ra_clean_concat(
                                super::emit_addi(SP, SP, ((-4 * regs.len()) as i32))
                                    + super::emit_arg_copies(
                                    asz / 4,
                                    (4 * regs.len()) as i32,
                                ),
                                super::emit_reg_saves(regs, asz),
                            );
                        }
                    }
                    assert(ra_clean(emit_restores(regs, asz))) by {
                        lemma_ra_clean_concat(
                            super::emit_reg_restores(regs, asz),
                            super::emit_addi(SP, SP, (4 * regs.len()) as i32),
                        );
                    }
                    lemma_ra_clean_concat(
                        emit_pass_args(*func, old(self).func_meta, a2@, a2@.len() as int),
                        emit_saves(regs, asz),
                    );
                    lemma_ra_clean_concat(
                        emit_pass_args(*func, old(self).func_meta, a2@, a2@.len() as int)
                            + emit_saves(regs, asz),
                        seq![Inst::Call { label: callee }],
                    );
                    lemma_ra_clean_concat(
                        emit_pass_args(*func, old(self).func_meta, a2@, a2@.len() as int)
                            + emit_saves(regs, asz) + seq![Inst::Call { label: callee }],
                        emit_restores(regs, asz),
                    );
                    if func.spec_is_used(value) {
                        let rd = pick_reg(rv0, None);
                        lemma_ra_clean_concat(body, seq![Inst::Mv { rd, rs: A0 }]);
                        lemma_inst_grown(
                            p0,
                            self.prog,
                            leaf,
                            body + seq![Inst::Mv { rd, rs: A0 }],
                        );
                    } else {
                        lemma_inst_grown(p0, self.prog, leaf, body);
                    }
                    assert(super::step_model::inst_emits(
                        rv0,
                        bs0,
                        old(self).func_meta,
                        *func,
                        value,
                    ) == (if func.spec_is_used(value) {
                        body + seq![Inst::Mv { rd: pick_reg(rv0, None), rs: A0 }]
                    } else {
                        body
                    })) by {
                        assert(regs == bs0.map_values(|p: (ValueId, Reg)| p.1));
                    }
                },
                _ => {
                    assert(false);
                },
            }
            assert(super::step_model::inst_checks(
                rv0,
                bs0,
                old(self).func_meta,
                *func,
                value,
            ));
        }
Ok(rr)
    }

    /// Checks and lowers one ret value.
    #[verifier::spinoff_prover]
    #[verifier::rlimit(100)]
    fn inst_ret(&mut self, func: &ir::Func, value: ValueId) -> (res: Result<
        Option<Reg>,
        BuildError,
    >)
        requires
            open_block(old(self).prog),
            old(self).reg_mgr.wf(),
            func.wf(),
            old(self).func_meta.wf_for(*func),
            value < func.values@.len(),
            func.kind_of(value) is Return,
        ensures
            final(self).func_meta == old(self).func_meta,
            final(self).reg_mgr.wf(),
            res is Ok == super::step_model::inst_checks(
                old(self).reg_mgr.reg2val@,
                old(self).reg_mgr.bindings(),
                old(self).func_meta,
                *func,
                value,
            ),
            res is Ok ==> ({
                let rv0 = old(self).reg_mgr.reg2val@;
                let bs0 = old(self).reg_mgr.bindings();
                let meta = old(self).func_meta;
                &&& res == Ok::<Option<Reg>, BuildError>(
                    super::step_model::inst_result(rv0, bs0, meta, *func, value),
                )
                &&& grown(
                    old(self).prog,
                    final(self).prog,
                    super::step_model::inst_emits(rv0, bs0, meta, *func, value),
                )
                &&& final(self).reg_mgr.bindings() == super::step_model::inst_bs(
                    rv0,
                    bs0,
                    meta,
                    *func,
                    value,
                )
                &&& final(self).reg_mgr.reg2val@ == super::step_model::inst_rv(
                    rv0,
                    bs0,
                    meta,
                    *func,
                    value,
                )
                &&& (meta.is_leaf ==> ra_clean(
                    super::step_model::inst_emits(rv0, bs0, meta, *func, value),
                ))
            }),
            open_block(final(self).prog),
    {
        let ghost p0 = self.prog;
        let ghost rv0 = self.reg_mgr.reg2val@;
        let ghost bs0 = self.reg_mgr.bindings();
        let ghost leaf = self.func_meta.is_leaf;
        proof {
            assert(func.kind_wf(func.values@[value as int].kind));
            assert forall|i: int| 0 <= i < bs0.len() implies spec_allocatable(
                (#[trigger] bs0[i]).1,
            ) by {}
        }
        let opt = match &func.values[value].kind {
            ValueKind::Return { value: o2 } => *o2,
            _ => None,
        };
        match opt {
            Some(v) => {
                let ok = match &func.values[v].kind {
                    ValueKind::Integer { .. } => !self.reg_mgr.is_bound(v)
                        && self.reg_mgr.is_free(A0),
                    ValueKind::FuncArgRef { .. } => {
                        return Err(BuildError::UnexpectedKind);
                    },
                    _ => self.reg_mgr.is_bound(v),
                };
                if !ok {
                    return Err(BuildError::UnboundOperand);
                }
            },
            None => {},
        }
        let rr = self.build_return(func, value);
        proof {
            let frame = old(self).func_meta.frame_size;
            let e_ra: Seq<Inst> = if old(self).func_meta.is_leaf {
                Seq::<Inst>::empty()
            } else {
                emit_lw(RA, (frame - 4) as i32, SP)
            };
            let epilogue = e_ra + super::emit_addi(SP, SP, frame as i32) + seq![Inst::Ret];
            if leaf {
                lemma_ra_clean_concat(e_ra, super::emit_addi(SP, SP, frame as i32));
                lemma_ra_clean_concat(
                    e_ra + super::emit_addi(SP, SP, frame as i32),
                    seq![Inst::Ret],
                );
            }
            match func.kind_of(value) {
                ValueKind::Return { value: o2 } => match o2 {
                    Some(v) => {
                        lemma_ra_clean_resolve_to(rv0, bs0, *func, v, A0);
                        if leaf {
                            lemma_ra_clean_concat(
                                resolve_emits_to(rv0, bs0, *func, v, A0),
                                epilogue,
                            );
                        }
                        lemma_inst_grown(
                            p0,
                            self.prog,
                            leaf,
                            resolve_emits_to(rv0, bs0, *func, v, A0) + epilogue,
                        );
                    },
                    None => {
                        lemma_inst_grown(p0, self.prog, leaf, epilogue);
                    },
                },
                _ => {
                    assert(false);
                },
            }
        }
Ok(rr)
    }
}


} // verus!
