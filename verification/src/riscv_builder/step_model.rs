//! The selector's step model: for each IR value, the exact instruction
//! sequence it emits, the register its result lands in, the register
//! pool it leaves behind, and the operand discipline it requires.
//! These functions restate the lowering table of the selector over the
//! pool's abstract state, so that the whole driver chain can carry
//! exact contracts.

use vstd::prelude::*;

use super::{
    consumable, consume_bs, consume_rv, emit_addi, emit_binop, emit_lw, emit_move,
    emit_pass_args, emit_restores, emit_saves, emit_sw, needs_alloc, off_of, pick_reg,
    resolve_bs, resolve_emits, resolve_emits_to, resolve_reg, resolve_rv,
};
use crate::func_meta::FuncMeta;
use crate::ir::{self, ValueId, ValueKind};
use crate::reg_manager::{
    find_free_in, key_at, pair_at, reg_of_key, remove_key, scan_free_count, set_key,
};
use crate::riscv::{Inst, Reg, A0, RA, SP, T0, X0};

verus! {

/// Whether a pointer-arithmetic source is addressed directly: a global
/// label or a frame slot, rather than a pointer in a register.
pub open spec fn gep_src_direct(meta: FuncMeta, func: ir::Func, src: ValueId) -> bool {
    func.kind_of(src) is GlobalRef || meta.spec_offset(src) is Some
}

/// The base-address instructions of a directly addressed source.
pub open spec fn gep_base_emits(meta: FuncMeta, func: ir::Func, src: ValueId) -> Seq<Inst> {
    if func.kind_of(src) is GlobalRef {
        seq![Inst::La { rd: T0, label: func.global_name_of(src) }]
    } else {
        emit_addi(T0, SP, off_of(meta, src) as i32)
    }
}

/// The pool in which the index operand of a pointer-arithmetic value
/// is resolved: after the source, unless the source is direct.
pub open spec fn gep_pre_rv(
    rv0: Seq<Option<ValueId>>,
    bs0: Seq<(ValueId, Reg)>,
    meta: FuncMeta,
    func: ir::Func,
    src: ValueId,
) -> Seq<Option<ValueId>> {
    if gep_src_direct(meta, func, src) {
        rv0
    } else {
        resolve_rv(rv0, bs0, func, src)
    }
}

pub open spec fn gep_pre_bs(
    rv0: Seq<Option<ValueId>>,
    bs0: Seq<(ValueId, Reg)>,
    meta: FuncMeta,
    func: ir::Func,
    src: ValueId,
) -> Seq<(ValueId, Reg)> {
    if gep_src_direct(meta, func, src) {
        bs0
    } else {
        resolve_bs(rv0, bs0, func, src)
    }
}

/// The scratch-lived register holding the scaled index.
pub open spec fn gep_scale_reg(
    rv0: Seq<Option<ValueId>>,
    bs0: Seq<(ValueId, Reg)>,
    meta: FuncMeta,
    func: ir::Func,
    src: ValueId,
    index: ValueId,
) -> Reg {
    let rvp = gep_pre_rv(rv0, bs0, meta, func, src);
    let bsp = gep_pre_bs(rv0, bs0, meta, func, src);
    pick_reg(resolve_rv(rvp, bsp, func, index), None)
}

/// The occupancy table after scaling the index and releasing both the
/// index and the briefly held scale register.
pub open spec fn gep_mid_rv(
    rv0: Seq<Option<ValueId>>,
    bs0: Seq<(ValueId, Reg)>,
    meta: FuncMeta,
    func: ir::Func,
    value: ValueId,
    src: ValueId,
    index: ValueId,
) -> Seq<Option<ValueId>> {
    let rvp = gep_pre_rv(rv0, bs0, meta, func, src);
    let bsp = gep_pre_bs(rv0, bs0, meta, func, src);
    let ri = resolve_reg(rvp, bsp, func, index);
    let rv_a = resolve_rv(rvp, bsp, func, index);
    let ro = pick_reg(rv_a, None);
    consume_rv(consume_rv(rv_a.update(ro as int, Some(value)), ri), ro)
}

pub open spec fn gep_mid_bs(
    rv0: Seq<Option<ValueId>>,
    bs0: Seq<(ValueId, Reg)>,
    meta: FuncMeta,
    func: ir::Func,
    value: ValueId,
    src: ValueId,
    index: ValueId,
) -> Seq<(ValueId, Reg)> {
    let rvp = gep_pre_rv(rv0, bs0, meta, func, src);
    let bsp = gep_pre_bs(rv0, bs0, meta, func, src);
    let ri = resolve_reg(rvp, bsp, func, index);
    let rv_a = resolve_rv(rvp, bsp, func, index);
    let bs_a = resolve_bs(rvp, bsp, func, index);
    let ro = pick_reg(rv_a, None);
    remove_key(consume_bs(bs_a.push((value, ro)), index, ri), value)
}

/// The register a pointer-arithmetic result lands in.
pub open spec fn gep_result(
    rv0: Seq<Option<ValueId>>,
    bs0: Seq<(ValueId, Reg)>,
    meta: FuncMeta,
    func: ir::Func,
    value: ValueId,
    src: ValueId,
    index: ValueId,
) -> Reg {
    pick_reg(gep_mid_rv(rv0, bs0, meta, func, value, src, index), None)
}

/// What a pointer-arithmetic value emits: resolve the source when it is
/// a register pointer, resolve the index, scale it by the element size
/// through the scratch register, then add the base address.
pub open spec fn gep_emits(
    rv0: Seq<Option<ValueId>>,
    bs0: Seq<(ValueId, Reg)>,
    meta: FuncMeta,
    func: ir::Func,
    value: ValueId,
    src: ValueId,
    index: ValueId,
    base_size: usize,
) -> Seq<Inst> {
    let rvp = gep_pre_rv(rv0, bs0, meta, func, src);
    let bsp = gep_pre_bs(rv0, bs0, meta, func, src);
    let ri = resolve_reg(rvp, bsp, func, index);
    let ro = gep_scale_reg(rv0, bs0, meta, func, src, index);
    let rd = gep_result(rv0, bs0, meta, func, value, src, index);
    if gep_src_direct(meta, func, src) {
        resolve_emits(rv0, bs0, func, index) + super::emit_muli(ro, ri, base_size as i32)
            + gep_base_emits(meta, func, src) + seq![Inst::Add { rd, rs1: T0, rs2: ro }]
    } else {
        resolve_emits(rv0, bs0, func, src) + resolve_emits(rvp, bsp, func, index)
            + super::emit_muli(ro, ri, base_size as i32) + seq![
            Inst::Add { rd, rs1: ro, rs2: resolve_reg(rv0, bs0, func, src) },
        ]
    }
}

/// The occupancy table a pointer-arithmetic value leaves behind.
pub open spec fn gep_rv(
    rv0: Seq<Option<ValueId>>,
    bs0: Seq<(ValueId, Reg)>,
    meta: FuncMeta,
    func: ir::Func,
    value: ValueId,
    src: ValueId,
    index: ValueId,
) -> Seq<Option<ValueId>> {
    let rv_d = gep_mid_rv(rv0, bs0, meta, func, value, src, index);
    let rd = gep_result(rv0, bs0, meta, func, value, src, index);
    let out = rv_d.update(rd as int, Some(value));
    if gep_src_direct(meta, func, src) {
        out
    } else {
        consume_rv(out, resolve_reg(rv0, bs0, func, src))
    }
}

/// The bindings a pointer-arithmetic value leaves behind.
pub open spec fn gep_bs(
    rv0: Seq<Option<ValueId>>,
    bs0: Seq<(ValueId, Reg)>,
    meta: FuncMeta,
    func: ir::Func,
    value: ValueId,
    src: ValueId,
    index: ValueId,
) -> Seq<(ValueId, Reg)> {
    let bs_d = gep_mid_bs(rv0, bs0, meta, func, value, src, index);
    let rd = gep_result(rv0, bs0, meta, func, value, src, index);
    let out = bs_d.push((value, rd));
    if gep_src_direct(meta, func, src) {
        out
    } else {
        consume_bs(out, src, resolve_reg(rv0, bs0, func, src))
    }
}

/// The operand discipline of a pointer-arithmetic value.
pub open spec fn gep_ok(
    rv0: Seq<Option<ValueId>>,
    bs0: Seq<(ValueId, Reg)>,
    meta: FuncMeta,
    func: ir::Func,
    value: ValueId,
    src: ValueId,
    index: ValueId,
) -> bool {
    &&& !key_at(bs0, value)
    &&& index != value && src != value && src != index
    &&& (if gep_src_direct(meta, func, src) {
        let rv_a = resolve_rv(rv0, bs0, func, index);
        consumable(rv0, bs0, func, index) && find_free_in(rv_a) is Some
    } else {
        let rv1 = resolve_rv(rv0, bs0, func, src);
        let bs1 = resolve_bs(rv0, bs0, func, src);
        let rv_a = resolve_rv(rv1, bs1, func, index);
        consumable(rv0, bs0, func, src) && consumable(rv1, bs1, func, index) && find_free_in(
            rv_a,
        ) is Some && resolve_reg(rv0, bs0, func, src) != X0
    })
}


/// The pool effect of moving an operand into a fixed register: a
/// literal is loaded there, a live value is retargeted, exchanging
/// with any occupant.
pub open spec fn resolve_to_rv(
    rv0: Seq<Option<ValueId>>,
    bs0: Seq<(ValueId, Reg)>,
    func: ir::Func,
    v: ValueId,
    rd: Reg,
) -> Seq<Option<ValueId>> {
    match func.kind_of(v) {
        ValueKind::Integer { value } => rv0.update(rd as int, Some(v)),
        _ => {
            let rs = reg_of_key(bs0, v);
            if rs == rd {
                rv0
            } else if rv0[rd as int] is None {
                rv0.update(rd as int, Some(v)).update(rs as int, None)
            } else {
                rv0.update(rd as int, Some(v)).update(rs as int, rv0[rd as int])
            }
        },
    }
}

pub open spec fn resolve_to_bs(
    rv0: Seq<Option<ValueId>>,
    bs0: Seq<(ValueId, Reg)>,
    func: ir::Func,
    v: ValueId,
    rd: Reg,
) -> Seq<(ValueId, Reg)> {
    match func.kind_of(v) {
        ValueKind::Integer { value } => bs0.push((v, rd)),
        _ => {
            let rs = reg_of_key(bs0, v);
            if rs == rd {
                bs0
            } else if rv0[rd as int] is None {
                set_key(bs0, v, rd)
            } else {
                match rv0[rd as int] {
                    Some(w) => set_key(set_key(bs0, v, rd), w, rs),
                    None => bs0,
                }
            }
        },
    }
}

/// The epilogue of a return: the `ra` reload when the function made
/// calls, the frame drop, and the transfer.
pub open spec fn ret_epilogue(meta: FuncMeta) -> Seq<Inst> {
    (if meta.is_leaf {
        Seq::<Inst>::empty()
    } else {
        emit_lw(RA, (meta.frame_size - 4) as i32, SP)
    }) + emit_addi(SP, SP, meta.frame_size as i32) + seq![Inst::Ret]
}

/// Whether the result of `v` is staged: its unique use is a pending
/// call's argument, so it is spilled to its slot and released.
pub open spec fn staged(func: ir::Func, v: ValueId) -> bool {
    func.spec_is_arg(v)
}

/// Whether the exec check of one operand's consumability passes: the
/// spare scan-order registers are there and the operand is a literal,
/// a live parameter, or a live value.
pub open spec fn can_consume_s(
    rv: Seq<Option<ValueId>>,
    bs: Seq<(ValueId, Reg)>,
    func: ir::Func,
    v: ValueId,
    spare: int,
) -> bool {
    scan_free_count(rv) >= spare && match func.kind_of(v) {
        ValueKind::Integer { value } => !key_at(bs, v) && (value == 0 || scan_free_count(rv)
            >= 1),
        ValueKind::FuncArgRef { index } => if index < 8 {
            pair_at(bs, v, (10 + index) as Reg)
        } else {
            !key_at(bs, v) && scan_free_count(rv) >= 1
        },
        _ => key_at(bs, v),
    }
}

/// The checked operand discipline of a pointer-arithmetic value.
pub open spec fn gep_checks(
    rv0: Seq<Option<ValueId>>,
    bs0: Seq<(ValueId, Reg)>,
    meta: FuncMeta,
    func: ir::Func,
    value: ValueId,
    src: ValueId,
    index: ValueId,
) -> bool {
    &&& !key_at(bs0, value)
    &&& index != value && src != value && src != index
    &&& (if gep_src_direct(meta, func, src) {
        can_consume_s(rv0, bs0, func, index, 2)
    } else {
        &&& !(func.kind_of(src) matches ValueKind::Integer { value: z } && z == 0)
        &&& can_consume_s(rv0, bs0, func, src, 3)
        &&& can_consume_s(rv0, bs0, func, index, 3)
    })
}

/// What lowering one instruction emits, before any staging spill.
pub open spec fn inst_emits(
    rv0: Seq<Option<ValueId>>,
    bs0: Seq<(ValueId, Reg)>,
    meta: FuncMeta,
    func: ir::Func,
    v: ValueId,
) -> Seq<Inst> {
    match func.kind_of(v) {
        ValueKind::Integer { value } => resolve_emits(rv0, bs0, func, v),
        ValueKind::Alloc { size } => Seq::empty(),
        ValueKind::Load { src } => {
            let rd = pick_reg(rv0, None);
            let rv_a = rv0.update(rd as int, Some(v));
            let bs_a = bs0.push((v, rd));
            if func.kind_of(src) is GlobalRef {
                seq![Inst::La { rd, label: func.global_name_of(src) }] + emit_lw(rd, 0, rd)
            } else if meta.spec_offset(src) is Some {
                emit_lw(rd, off_of(meta, src) as i32, SP)
            } else {
                resolve_emits(rv_a, bs_a, func, src) + emit_lw(
                    rd,
                    0,
                    resolve_reg(rv_a, bs_a, func, src),
                )
            }
        },
        ValueKind::Store { value: sv, dest } => {
            let rs = resolve_reg(rv0, bs0, func, sv);
            let rv1 = resolve_rv(rv0, bs0, func, sv);
            let bs1 = resolve_bs(rv0, bs0, func, sv);
            if func.kind_of(dest) is GlobalRef {
                resolve_emits(rv0, bs0, func, sv) + seq![
                    Inst::La { rd: T0, label: func.global_name_of(dest) },
                ] + emit_sw(rs, 0, T0)
            } else if meta.spec_offset(dest) is Some {
                resolve_emits(rv0, bs0, func, sv) + emit_sw(rs, off_of(meta, dest) as i32, SP)
            } else {
                resolve_emits(rv0, bs0, func, sv) + resolve_emits(rv1, bs1, func, dest) + emit_sw(
                    rs,
                    0,
                    resolve_reg(rv1, bs1, func, dest),
                )
            }
        },
        ValueKind::GetPtr { src, index, base_size } => gep_emits(
            rv0,
            bs0,
            meta,
            func,
            v,
            src,
            index,
            base_size,
        ),
        ValueKind::GetElemPtr { src, index, base_size } => gep_emits(
            rv0,
            bs0,
            meta,
            func,
            v,
            src,
            index,
            base_size,
        ),
        ValueKind::Binary { op, lhs, rhs } => {
            let r1 = resolve_reg(rv0, bs0, func, lhs);
            let rv1 = resolve_rv(rv0, bs0, func, lhs);
            let bs1 = resolve_bs(rv0, bs0, func, lhs);
            let r2 = resolve_reg(rv1, bs1, func, rhs);
            let rv2 = resolve_rv(rv1, bs1, func, rhs);
            let rd = pick_reg(rv2, None);
            resolve_emits(rv0, bs0, func, lhs) + resolve_emits(rv1, bs1, func, rhs) + emit_binop(
                op,
                r1,
                r2,
                rd,
            )
        },
        ValueKind::Branch { cond, true_label, false_label } => resolve_emits(
            rv0,
            bs0,
            func,
            cond,
        ) + seq![Inst::Beqz { rs: resolve_reg(rv0, bs0, func, cond), label: false_label }, Inst::J {
            label: true_label,
        }],
        ValueKind::Jump { target } => seq![Inst::J { label: target }],
        ValueKind::Call { callee, args } => {
            let regs = bs0.map_values(|p: (ValueId, Reg)| p.1);
            let asz = meta.arg_size as int;
            let body = emit_pass_args(func, meta, args@, args@.len() as int) + emit_saves(
                regs,
                asz,
            ) + seq![Inst::Call { label: callee }] + emit_restores(regs, asz);
            if func.spec_is_used(v) {
                body + seq![Inst::Mv { rd: pick_reg(rv0, None), rs: A0 }]
            } else {
                body
            }
        },
        ValueKind::Return { value: opt } => match opt {
            Some(rv_val) => resolve_emits_to(rv0, bs0, func, rv_val, A0) + ret_epilogue(meta),
            None => ret_epilogue(meta),
        },
        _ => Seq::empty(),
    }
}

/// The register one instruction's result lands in, if any.
pub open spec fn inst_result(
    rv0: Seq<Option<ValueId>>,
    bs0: Seq<(ValueId, Reg)>,
    meta: FuncMeta,
    func: ir::Func,
    v: ValueId,
) -> Option<Reg> {
    match func.kind_of(v) {
        ValueKind::Integer { value } => Some(resolve_reg(rv0, bs0, func, v)),
        ValueKind::Load { src } => Some(pick_reg(rv0, None)),
        ValueKind::GetPtr { src, index, base_size } => Some(
            gep_result(rv0, bs0, meta, func, v, src, index),
        ),
        ValueKind::GetElemPtr { src, index, base_size } => Some(
            gep_result(rv0, bs0, meta, func, v, src, index),
        ),
        ValueKind::Binary { op, lhs, rhs } => {
            let rv1 = resolve_rv(rv0, bs0, func, lhs);
            let bs1 = resolve_bs(rv0, bs0, func, lhs);
            let rv2 = resolve_rv(rv1, bs1, func, rhs);
            Some(pick_reg(rv2, None))
        },
        ValueKind::Call { callee, args } => if func.spec_is_used(v) {
            Some(pick_reg(rv0, None))
        } else {
            None
        },
        _ => None,
    }
}

/// The occupancy table after lowering one instruction, before any
/// staging spill.
pub open spec fn inst_rv(
    rv0: Seq<Option<ValueId>>,
    bs0: Seq<(ValueId, Reg)>,
    meta: FuncMeta,
    func: ir::Func,
    v: ValueId,
) -> Seq<Option<ValueId>> {
    match func.kind_of(v) {
        ValueKind::Integer { value } => resolve_rv(rv0, bs0, func, v),
        ValueKind::Load { src } => {
            let rd = pick_reg(rv0, None);
            let rv_a = rv0.update(rd as int, Some(v));
            let bs_a = bs0.push((v, rd));
            if func.kind_of(src) is GlobalRef || meta.spec_offset(src) is Some {
                rv_a
            } else {
                consume_rv(resolve_rv(rv_a, bs_a, func, src), resolve_reg(rv_a, bs_a, func, src))
            }
        },
        ValueKind::Store { value: sv, dest } => {
            let rs = resolve_reg(rv0, bs0, func, sv);
            let rv1 = resolve_rv(rv0, bs0, func, sv);
            let bs1 = resolve_bs(rv0, bs0, func, sv);
            if func.kind_of(dest) is GlobalRef || meta.spec_offset(dest) is Some {
                consume_rv(rv1, rs)
            } else {
                consume_rv(
                    consume_rv(resolve_rv(rv1, bs1, func, dest), rs),
                    resolve_reg(rv1, bs1, func, dest),
                )
            }
        },
        ValueKind::GetPtr { src, index, base_size } => gep_rv(rv0, bs0, meta, func, v, src, index),
        ValueKind::GetElemPtr { src, index, base_size } => gep_rv(
            rv0,
            bs0,
            meta,
            func,
            v,
            src,
            index,
        ),
        ValueKind::Binary { op, lhs, rhs } => {
            let r1 = resolve_reg(rv0, bs0, func, lhs);
            let rv1 = resolve_rv(rv0, bs0, func, lhs);
            let bs1 = resolve_bs(rv0, bs0, func, lhs);
            let r2 = resolve_reg(rv1, bs1, func, rhs);
            let rv2 = resolve_rv(rv1, bs1, func, rhs);
            let rd = pick_reg(rv2, None);
            consume_rv(consume_rv(rv2.update(rd as int, Some(v)), r1), r2)
        },
        ValueKind::Branch { cond, true_label, false_label } => consume_rv(
            resolve_rv(rv0, bs0, func, cond),
            resolve_reg(rv0, bs0, func, cond),
        ),
        ValueKind::Call { callee, args } => if func.spec_is_used(v) {
            rv0.update(pick_reg(rv0, None) as int, Some(v))
        } else {
            rv0
        },
        ValueKind::Return { value: opt } => match opt {
            Some(rv_val) => resolve_to_rv(rv0, bs0, func, rv_val, A0).update(A0 as int, None),
            None => rv0,
        },
        _ => rv0,
    }
}

/// The bindings after lowering one instruction, before any staging
/// spill.
pub open spec fn inst_bs(
    rv0: Seq<Option<ValueId>>,
    bs0: Seq<(ValueId, Reg)>,
    meta: FuncMeta,
    func: ir::Func,
    v: ValueId,
) -> Seq<(ValueId, Reg)> {
    match func.kind_of(v) {
        ValueKind::Integer { value } => resolve_bs(rv0, bs0, func, v),
        ValueKind::Load { src } => {
            let rd = pick_reg(rv0, None);
            let rv_a = rv0.update(rd as int, Some(v));
            let bs_a = bs0.push((v, rd));
            if func.kind_of(src) is GlobalRef || meta.spec_offset(src) is Some {
                bs_a
            } else {
                consume_bs(resolve_bs(rv_a, bs_a, func, src), src, resolve_reg(rv_a, bs_a, func, src))
            }
        },
        ValueKind::Store { value: sv, dest } => {
            let rs = resolve_reg(rv0, bs0, func, sv);
            let rv1 = resolve_rv(rv0, bs0, func, sv);
            let bs1 = resolve_bs(rv0, bs0, func, sv);
            if func.kind_of(dest) is GlobalRef || meta.spec_offset(dest) is Some {
                consume_bs(bs1, sv, rs)
            } else {
                consume_bs(
                    consume_bs(resolve_bs(rv1, bs1, func, dest), sv, rs),
                    dest,
                    resolve_reg(rv1, bs1, func, dest),
                )
            }
        },
        ValueKind::GetPtr { src, index, base_size } => gep_bs(rv0, bs0, meta, func, v, src, index),
        ValueKind::GetElemPtr { src, index, base_size } => gep_bs(
            rv0,
            bs0,
            meta,
            func,
            v,
            src,
            index,
        ),
        ValueKind::Binary { op, lhs, rhs } => {
            let r1 = resolve_reg(rv0, bs0, func, lhs);
            let rv1 = resolve_rv(rv0, bs0, func, lhs);
            let bs1 = resolve_bs(rv0, bs0, func, lhs);
            let r2 = resolve_reg(rv1, bs1, func, rhs);
            let rv2 = resolve_rv(rv1, bs1, func, rhs);
            let bs2 = resolve_bs(rv1, bs1, func, rhs);
            let rd = pick_reg(rv2, None);
            consume_bs(consume_bs(bs2.push((v, rd)), lhs, r1), rhs, r2)
        },
        ValueKind::Branch { cond, true_label, false_label } => consume_bs(
            resolve_bs(rv0, bs0, func, cond),
            cond,
            resolve_reg(rv0, bs0, func, cond),
        ),
        ValueKind::Call { callee, args } => if func.spec_is_used(v) {
            bs0.push((v, pick_reg(rv0, None)))
        } else {
            bs0
        },
        ValueKind::Return { value: opt } => match opt {
            Some(rv_val) => remove_key(resolve_to_bs(rv0, bs0, func, rv_val, A0), rv_val),
            None => bs0,
        },
        _ => bs0,
    }
}

/// The operand discipline of one instruction's lowering step: exactly
/// the checks the driver performs before dispatching into the table.
pub open spec fn inst_checks(
    rv0: Seq<Option<ValueId>>,
    bs0: Seq<(ValueId, Reg)>,
    meta: FuncMeta,
    func: ir::Func,
    v: ValueId,
) -> bool {
    match func.kind_of(v) {
        ValueKind::Integer { value } => !key_at(bs0, v) && (value == 0 || scan_free_count(rv0)
            >= 1),
        ValueKind::Alloc { size } => true,
        ValueKind::Load { src } => !key_at(bs0, v) && scan_free_count(rv0) >= 1 && (func.kind_of(
            src,
        ) is GlobalRef || meta.spec_offset(src) is Some || (src != v && can_consume_s(
            rv0,
            bs0,
            func,
            src,
            2,
        ))),
        ValueKind::Store { value: sv, dest } => can_consume_s(rv0, bs0, func, sv, 2) && (
        func.kind_of(dest) is GlobalRef || meta.spec_offset(dest) is Some || (dest != sv
            && can_consume_s(rv0, bs0, func, dest, 2))),
        ValueKind::GetPtr { src, index, base_size } => gep_checks(
            rv0,
            bs0,
            meta,
            func,
            v,
            src,
            index,
        ),
        ValueKind::GetElemPtr { src, index, base_size } => gep_checks(
            rv0,
            bs0,
            meta,
            func,
            v,
            src,
            index,
        ),
        ValueKind::Binary { op, lhs, rhs } => {
            &&& !key_at(bs0, v)
            &&& (lhs != rhs || (func.kind_of(lhs) matches ValueKind::Integer { value: z } && z
                == 0))
            &&& can_consume_s(rv0, bs0, func, lhs, 3)
            &&& can_consume_s(rv0, bs0, func, rhs, 3)
        },
        ValueKind::Branch { cond, true_label, false_label } => can_consume_s(
            rv0,
            bs0,
            func,
            cond,
            1,
        ),
        ValueKind::Jump { target } => true,
        ValueKind::Call { callee, args } => {
            &&& forall|k: int|
                0 <= k < args@.len() ==> func.kind_of(#[trigger] args@[k]) is Integer
                    || meta.spec_offset(args@[k]) is Some
            &&& !key_at(bs0, v)
            &&& (func.spec_is_used(v) ==> scan_free_count(rv0) >= 1)
        },
        ValueKind::Return { value: opt } => match opt {
            Some(rv_val) => match func.kind_of(rv_val) {
                ValueKind::Integer { value } => !key_at(bs0, rv_val) && rv0[A0 as int] is None,
                ValueKind::FuncArgRef { index } => false,
                _ => key_at(bs0, rv_val),
            },
            None => true,
        },
        _ => false,
    }
}

/// The operand discipline of one whole instruction, the staging
/// spill's conditions included.
pub open spec fn inst_ok(
    rv0: Seq<Option<ValueId>>,
    bs0: Seq<(ValueId, Reg)>,
    meta: FuncMeta,
    func: ir::Func,
    v: ValueId,
) -> bool {
    inst_checks(rv0, bs0, meta, func, v) && (staged(func, v) ==> meta.spec_offset(v) is Some && (
    match inst_result(rv0, bs0, meta, func, v) {
        Some(reg) => reg != RA && reg < 32 && (if reg == X0 {
            !key_at(inst_bs(rv0, bs0, meta, func, v), v)
        } else {
            pair_at(inst_bs(rv0, bs0, meta, func, v), v, reg)
        }),
        None => false,
    }))
}

/// What lowering one instruction emits, staging spill included.
pub open spec fn step_emits(
    rv0: Seq<Option<ValueId>>,
    bs0: Seq<(ValueId, Reg)>,
    meta: FuncMeta,
    func: ir::Func,
    v: ValueId,
) -> Seq<Inst> {
    let base = inst_emits(rv0, bs0, meta, func, v);
    if staged(func, v) {
        match inst_result(rv0, bs0, meta, func, v) {
            Some(reg) => base + emit_sw(reg, off_of(meta, v) as i32, SP),
            None => base,
        }
    } else {
        base
    }
}

/// The occupancy table one lowered instruction leaves behind, staging
/// release included.
pub open spec fn step_rv(
    rv0: Seq<Option<ValueId>>,
    bs0: Seq<(ValueId, Reg)>,
    meta: FuncMeta,
    func: ir::Func,
    v: ValueId,
) -> Seq<Option<ValueId>> {
    let base = inst_rv(rv0, bs0, meta, func, v);
    if staged(func, v) {
        match inst_result(rv0, bs0, meta, func, v) {
            Some(reg) => if reg == X0 {
                base
            } else {
                base.update(reg as int, None)
            },
            None => base,
        }
    } else {
        base
    }
}

/// The bindings one lowered instruction leaves behind, staging release
/// included.
pub open spec fn step_bs(
    rv0: Seq<Option<ValueId>>,
    bs0: Seq<(ValueId, Reg)>,
    meta: FuncMeta,
    func: ir::Func,
    v: ValueId,
) -> Seq<(ValueId, Reg)> {
    let base = inst_bs(rv0, bs0, meta, func, v);
    if staged(func, v) {
        match inst_result(rv0, bs0, meta, func, v) {
            Some(reg) => if reg == X0 {
                base
            } else {
                remove_key(base, v)
            },
            None => base,
        }
    } else {
        base
    }
}


/// The discipline of a block's instructions from `insts` on, each
/// checked in the pool its predecessors leave behind.
pub open spec fn block_ok(
    rv: Seq<Option<ValueId>>,
    bs: Seq<(ValueId, Reg)>,
    meta: FuncMeta,
    func: ir::Func,
    insts: Seq<ValueId>,
) -> bool
    decreases insts.len(),
{
    if insts.len() == 0 {
        true
    } else {
        inst_ok(rv, bs, meta, func, insts[0]) && block_ok(
            step_rv(rv, bs, meta, func, insts[0]),
            step_bs(rv, bs, meta, func, insts[0]),
            meta,
            func,
            insts.drop_first(),
        )
    }
}

/// What a block's instructions emit, lowered in order.
pub open spec fn block_emits(
    rv: Seq<Option<ValueId>>,
    bs: Seq<(ValueId, Reg)>,
    meta: FuncMeta,
    func: ir::Func,
    insts: Seq<ValueId>,
) -> Seq<Inst>
    decreases insts.len(),
{
    if insts.len() == 0 {
        Seq::empty()
    } else {
        step_emits(rv, bs, meta, func, insts[0]) + block_emits(
            step_rv(rv, bs, meta, func, insts[0]),
            step_bs(rv, bs, meta, func, insts[0]),
            meta,
            func,
            insts.drop_first(),
        )
    }
}

/// The occupancy table a block's instructions leave behind.
pub open spec fn block_end_rv(
    rv: Seq<Option<ValueId>>,
    bs: Seq<(ValueId, Reg)>,
    meta: FuncMeta,
    func: ir::Func,
    insts: Seq<ValueId>,
) -> Seq<Option<ValueId>>
    decreases insts.len(),
{
    if insts.len() == 0 {
        rv
    } else {
        block_end_rv(
            step_rv(rv, bs, meta, func, insts[0]),
            step_bs(rv, bs, meta, func, insts[0]),
            meta,
            func,
            insts.drop_first(),
        )
    }
}

/// The bindings a block's instructions leave behind.
pub open spec fn block_end_bs(
    rv: Seq<Option<ValueId>>,
    bs: Seq<(ValueId, Reg)>,
    meta: FuncMeta,
    func: ir::Func,
    insts: Seq<ValueId>,
) -> Seq<(ValueId, Reg)>
    decreases insts.len(),
{
    if insts.len() == 0 {
        bs
    } else {
        block_end_bs(
            step_rv(rv, bs, meta, func, insts[0]),
            step_bs(rv, bs, meta, func, insts[0]),
            meta,
            func,
            insts.drop_first(),
        )
    }
}

/// The number of register-passed parameters of a function.
pub open spec fn reg_param_num(func: ir::Func) -> int {
    if func.params@.len() < 8 {
        func.params@.len() as int
    } else {
        8
    }
}

/// The occupancy table a function starts from: its register-passed
/// parameters sit in the argument registers, everything else is free.
pub open spec fn params_rv(func: ir::Func) -> Seq<Option<ValueId>> {
    Seq::new(
        32,
        |r: int|
            if 10 <= r < 10 + reg_param_num(func) {
                Some(func.params@[r - 10])
            } else {
                None
            },
    )
}

/// The bindings a function starts from.
pub open spec fn params_bs(func: ir::Func) -> Seq<(ValueId, Reg)> {
    Seq::new(reg_param_num(func) as nat, |i: int| (func.params@[i], (10 + i) as Reg))
}

/// The occupancy table at the entry of block `b`, chaining the blocks
/// before it.
pub open spec fn blocks_entry_rv(func: ir::Func, meta: FuncMeta, b: int) -> Seq<Option<ValueId>>
    decreases b,
{
    if b <= 0 {
        params_rv(func)
    } else {
        block_end_rv(
            blocks_entry_rv(func, meta, b - 1),
            blocks_entry_bs(func, meta, b - 1),
            meta,
            func,
            func.blocks@[b - 1].insts@,
        )
    }
}

/// The bindings at the entry of block `b`.
pub open spec fn blocks_entry_bs(func: ir::Func, meta: FuncMeta, b: int) -> Seq<(ValueId, Reg)>
    decreases b,
{
    if b <= 0 {
        params_bs(func)
    } else {
        block_end_bs(
            blocks_entry_rv(func, meta, b - 1),
            blocks_entry_bs(func, meta, b - 1),
            meta,
            func,
            func.blocks@[b - 1].insts@,
        )
    }
}

/// The discipline of a function's blocks from `b` on.
pub open spec fn blocks_ok(func: ir::Func, meta: FuncMeta, b: int) -> bool
    decreases func.blocks@.len() - b,
{
    if b >= func.blocks@.len() {
        true
    } else {
        block_ok(
            blocks_entry_rv(func, meta, b),
            blocks_entry_bs(func, meta, b),
            meta,
            func,
            func.blocks@[b].insts@,
        ) && blocks_ok(func, meta, b + 1)
    }
}

/// The operand discipline of a whole defined function: under its frame
/// layout, every instruction of every block finds its operands where
/// the selector expects them.
pub open spec fn func_ok(func: ir::Func) -> bool {
    forall|meta: FuncMeta| #[trigger] meta.wf_for(func) ==> blocks_ok(func, meta, 0)
}

/// The operand discipline of a whole program.
pub open spec fn prog_ok(prog: ir::Program) -> bool {
    forall|f: int|
        0 <= f < prog.funcs@.len() && (#[trigger] prog.funcs@[f]).blocks@.len() > 0 ==> func_ok(
            prog.funcs@[f],
        )
}

/// One block of a built function: the prologue, then its lowered
/// instructions.
pub open spec fn func_built_with(
    bf: crate::riscv::Func,
    func: ir::Func,
    meta: FuncMeta,
) -> bool {
    &&& bf.name == func.name
    &&& bf.blocks@.len() == func.blocks@.len()
    &&& forall|b: int|
        0 <= b < func.blocks@.len() ==> (#[trigger] bf.blocks@[b]).name == (if b == 0 {
            func.name
        } else {
            func.blocks@[b].name
        }) && bf.blocks@[b].insts@ == super::prologue_emits(meta, b == 0) + block_emits(
            blocks_entry_rv(func, meta, b),
            blocks_entry_bs(func, meta, b),
            meta,
            func,
            func.blocks@[b].insts@,
        )
    &&& (crate::func_meta::spec_is_leaf(func) ==> forall|b: int|
        0 <= b < bf.blocks@.len() ==> super::ra_clean(#[trigger] bf.blocks@[b].insts@))
    &&& (!crate::func_meta::spec_is_leaf(func) && func.blocks@.len() > 0 ==> exists|j: int|
        0 <= j < bf.blocks@[0].insts@.len() && (#[trigger] bf.blocks@[0].insts@[j])
            matches Inst::Sw { rs: RA, imm12, rd })
}

/// A built function under some frame layout of its IR function.
pub open spec fn func_built(bf: crate::riscv::Func, func: ir::Func) -> bool {
    exists|meta: FuncMeta| #[trigger] meta.wf_for(func) && func_built_with(bf, func, meta)
}

/// The defined functions among the first `n`, in layout order.
pub open spec fn defined_funcs(fs: Seq<ir::Func>, n: int) -> Seq<ir::Func>
    decreases n,
{
    if n <= 0 {
        Seq::empty()
    } else {
        defined_funcs(fs, n - 1) + (if fs[n - 1].blocks@.len() > 0 {
            seq![fs[n - 1]]
        } else {
            Seq::<ir::Func>::empty()
        })
    }
}

/// A built program: the globals' images, and one built function per
/// defined IR function, in layout order.
pub open spec fn program_built(p: crate::riscv::Program, prog: ir::Program) -> bool {
    &&& p.global_defs@.len() == prog.globals@.len()
    &&& forall|g: int|
        0 <= g < prog.globals@.len() ==> (#[trigger] p.global_defs@[g]).name
            == prog.globals@[g].name && p.global_defs@[g].init@ == super::spec_fill(
            prog.globals@[g].init,
        )
    &&& p.funcs@.len() == defined_funcs(prog.funcs@, prog.funcs@.len() as int).len()
    &&& forall|k: int|
        0 <= k < p.funcs@.len() ==> func_built(
            #[trigger] p.funcs@[k],
            defined_funcs(prog.funcs@, prog.funcs@.len() as int)[k],
        )
}

} // verus!
