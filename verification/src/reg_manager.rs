//! Register pool: the partial bijection between physical registers and
//! the IR values currently living in them.
//!
//! Bindings are created by `allocate`, moved by `move_to`, destroyed
//! by `free`, and all cleared by `reset` at the start of each function.
//! Register `x0` is a constant-zero sentinel: it is never actually
//! bound, and freeing it is a no-op.

use vstd::prelude::*;
use vstd::seq_lib::*;
use vstd::set_lib::*;

use crate::ir::ValueId;
use crate::riscv::{spec_allocatable, Reg, REG_NUM, X0};

verus! {

/// Whether `bs` holds an entry keyed `v`.
pub open spec fn key_at(bs: Seq<(ValueId, Reg)>, v: ValueId) -> bool {
    exists|i: int| 0 <= i < bs.len() && (#[trigger] bs[i]).0 == v
}

/// Whether `bs` holds the entry `(v, r)`.
pub open spec fn pair_at(bs: Seq<(ValueId, Reg)>, v: ValueId, r: Reg) -> bool {
    exists|i: int| 0 <= i < bs.len() && #[trigger] bs[i] == (v, r)
}

/// The register the entry keyed `v` holds; under unique keys it is the
/// one register of `v`.
pub open spec fn reg_of_key(bs: Seq<(ValueId, Reg)>, v: ValueId) -> Reg {
    choose|r: Reg| pair_at(bs, v, r)
}

pub struct RegManager {
    /// For each register index, the value bound to it, if any.
    pub reg2val: Vec<Option<ValueId>>,
    /// The live bindings, in the order they were created.
    pub val2reg: Vec<(ValueId, Reg)>,
}

impl RegManager {
    /// The live bindings, in creation order.
    pub open spec fn bindings(self) -> Seq<(ValueId, Reg)> {
        self.val2reg@
    }

    /// The value bound to register `r`, if any.
    pub open spec fn val_at(self, r: Reg) -> Option<ValueId> {
        self.reg2val@[r as int]
    }

    /// Whether register `r` is free.
    pub open spec fn spec_is_free(self, r: Reg) -> bool {
        self.val_at(r) is None
    }

    /// Whether value `v` is bound to some register.
    pub open spec fn has_binding(self, v: ValueId) -> bool {
        key_at(self.val2reg@, v)
    }

    /// Whether value `v` is bound to register `r`.
    pub open spec fn has_pair(self, v: ValueId, r: Reg) -> bool {
        pair_at(self.val2reg@, v, r)
    }

    /// The registers holding live values, in binding-creation order.
    pub open spec fn live_regs(self) -> Seq<Reg> {
        self.val2reg@.map_values(|p: (ValueId, Reg)| p.1)
    }

    /// The binding structure is a partial bijection: no value holds two
    /// registers, no register holds two values, only allocatable
    /// registers are ever bound, and the two directions agree.
    pub open spec fn wf(self) -> bool {
        &&& self.reg2val@.len() == 32
        &&& forall|i: int, j: int|
            0 <= i < j < self.val2reg@.len() ==> (#[trigger] self.val2reg@[i]).0 != (
            #[trigger] self.val2reg@[j]).0
        &&& forall|i: int|
            0 <= i < self.val2reg@.len() ==> spec_allocatable((#[trigger] self.val2reg@[i]).1)
                && self.reg2val@[self.val2reg@[i].1 as int] == Some(self.val2reg@[i].0)
        &&& forall|r: int|
            0 <= r < 32 ==> match #[trigger] self.reg2val@[r] {
                Some(v) => self.has_pair(v, r as Reg),
                None => true,
            }
    }

    /// A well-formed pool holds at most 32 bindings: the bound registers
    /// are pairwise distinct indices below 32.
    pub proof fn lemma_live_bound(self)
        requires
            self.wf(),
        ensures
            self.val2reg@.len() <= 32,
    {
        let regs_int = self.val2reg@.map_values(|p: (ValueId, Reg)| p.1 as int);
        assert forall|i: int, j: int| 0 <= i < j < regs_int.len() implies regs_int[i]
            != regs_int[j] by {
            if self.val2reg@[i].1 == self.val2reg@[j].1 {
                assert(self.reg2val@[self.val2reg@[i].1 as int] == Some(self.val2reg@[i].0));
                assert(self.reg2val@[self.val2reg@[j].1 as int] == Some(self.val2reg@[j].0));
            }
        }
        assert(regs_int.no_duplicates());
        regs_int.unique_seq_to_set();
        assert(regs_int.to_set() <= set_int_range(0, 32)) by {
            assert forall|x: int| regs_int.to_set().contains(x) implies set_int_range(
                0,
                32,
            ).contains(x) by {
                let i = choose|i: int| 0 <= i < regs_int.len() && regs_int[i] == x;
                assert(spec_allocatable(self.val2reg@[i].1));
            }
        }
        lemma_int_range(0, 32);
        lemma_len_subset(regs_int.to_set(), set_int_range(0, 32));
    }

    /// Creates a pool with every register free.
    pub fn new() -> (mgr: Self)
        ensures
            mgr.wf(),
            mgr.bindings() == Seq::<(ValueId, Reg)>::empty(),
            forall|r: Reg| r < 32 ==> mgr.spec_is_free(r),
    {
        let mut reg2val: Vec<Option<ValueId>> = Vec::new();
        let mut i: usize = 0;
        while i < REG_NUM
            invariant
                i <= 32,
                reg2val@.len() == i,
                forall|j: int| 0 <= j < i ==> reg2val@[j] is None,
            decreases 32 - i,
        {
            reg2val.push(None);
            i += 1;
        }
        RegManager { reg2val, val2reg: Vec::new() }
    }

    /// Clears every binding.
    pub fn reset(&mut self)
        ensures
            final(self).wf(),
            final(self).bindings() == Seq::<(ValueId, Reg)>::empty(),
            forall|r: Reg| r < 32 ==> final(self).spec_is_free(r),
    {
        *self = Self::new();
    }

    /// The first free register in scan order within `s2`..`t6`.
    pub open spec fn find_free_from(self, r: int) -> Option<Reg> {
        find_free_in_from(self.reg2val@, r)
    }

    /// The register an unconstrained allocation picks: the first free
    /// one of `t1`, `t2`, `s1`, then `s2`..`s11`, `t3`..`t6`.
    pub open spec fn spec_find_free(self) -> Option<Reg> {
        find_free_in(self.reg2val@)
    }

    /// The register bound to `val`, as a value; under `wf` it is the
    /// one register `val` lives in.
    pub open spec fn reg_of(self, val: ValueId) -> Reg {
        reg_of_key(self.val2reg@, val)
    }

    /// Under well-formedness, a value's register is unique, so the
    /// chosen one is it.
    pub proof fn lemma_reg_of(self, val: ValueId, r: Reg)
        requires
            self.wf(),
            self.has_pair(val, r),
        ensures
            self.reg_of(val) == r,
    {
        let r2 = self.reg_of(val);
        assert(self.has_pair(val, r2));
        let i = choose|i: int| 0 <= i < self.val2reg@.len() && #[trigger] self.val2reg@[i] == (
            val,
            r,
        );
        let j = choose|j: int| 0 <= j < self.val2reg@.len() && #[trigger] self.val2reg@[j] == (
            val,
            r2,
        );
        if i != j {
            assert(self.val2reg@[i].0 == self.val2reg@[j].0);
        }
    }

    /// Finds a free register in the fixed priority order.
    fn find_free_reg(&self) -> (r: Reg)
        requires
            self.wf(),
            self.spec_find_free() is Some,
        ensures
            Some(r) == self.spec_find_free(),
            self.spec_is_free(r),
            spec_allocatable(r),
    {
        if self.reg2val[6].is_none() {
            return 6;
        }
        if self.reg2val[7].is_none() {
            return 7;
        }
        if self.reg2val[9].is_none() {
            return 9;
        }
        let mut r: usize = 18;
        while r < 32
            invariant
                18 <= r <= 32,
                self.wf(),
                !self.spec_is_free(6),
                !self.spec_is_free(7),
                !self.spec_is_free(9),
                self.find_free_from(18) is Some,
                self.find_free_from(18) == self.find_free_from(r as int),
            decreases 32 - r,
        {
            if self.reg2val[r].is_none() {
                proof {
                    assert(self.find_free_from(r as int) == Some(r as Reg));
                }
                return r as Reg;
            }
            proof {
                assert(self.find_free_from(r as int) == self.find_free_from(r as int + 1));
            }
            r += 1;
        }
        proof {
            assert(self.find_free_from(32) is None);
            assert(false);
        }
        0
    }

    /// Binds `val` to the requested register, or to the first free one
    /// in scan order when none is requested, and returns it.  Asking
    /// for the sentinel `x0` records nothing: `x0` stays a shared
    /// constant zero.
    pub fn allocate(&mut self, val: ValueId, reg: Option<Reg>) -> (r: Reg)
        requires
            old(self).wf(),
            !old(self).has_binding(val),
            match reg {
                Some(rq) => rq == X0 || (spec_allocatable(rq) && old(self).spec_is_free(rq)),
                None => old(self).spec_find_free() is Some,
            },
        ensures
            final(self).wf(),
            match reg {
                Some(rq) => r == rq,
                None => Some(r) == old(self).spec_find_free() && spec_allocatable(r),
            },
            r == X0 ==> *final(self) == *old(self),
            r != X0 ==> spec_allocatable(r) && old(self).spec_is_free(r) && final(self).bindings()
                == old(self).bindings().push((val, r)) && final(self).reg2val@ == old(
                self,
            ).reg2val@.update(r as int, Some(val)),
    {
        let r = match reg {
            Some(rq) => {
                if rq == X0 {
                    return X0;
                }
                rq
            },
            None => self.find_free_reg(),
        };
        self.reg2val.set(r as usize, Some(val));
        self.val2reg.push((val, r));
        proof {
            let newb = self.val2reg@;
            let oldb = old(self).val2reg@;
            assert forall|i: int|
                0 <= i < newb.len() implies spec_allocatable((#[trigger] newb[i]).1)
                && self.reg2val@[newb[i].1 as int] == Some(newb[i].0) by {
                if i < oldb.len() {
                    assert(old(self).reg2val@[oldb[i].1 as int] == Some(oldb[i].0));
                }
            }
            assert forall|rr: int| 0 <= rr < 32 implies match #[trigger] self.reg2val@[rr] {
                Some(v) => self.has_pair(v, rr as Reg),
                None => true,
            } by {
                if rr == r as int {
                    assert(newb[newb.len() - 1] == (val, r));
                } else {
                    match old(self).reg2val@[rr] {
                        Some(v) => {
                            let i = choose|i: int|
                                0 <= i < oldb.len() && #[trigger] oldb[i] == (v, rr as Reg);
                            assert(newb[i] == (v, rr as Reg));
                        },
                        None => {},
                    }
                }
            }
        }
        r
    }

    /// Releases the binding of `val` to `reg`.  Freeing the sentinel
    /// `x0` is always a no-op.
    pub fn free(&mut self, val: ValueId, reg: Reg)
        requires
            old(self).wf(),
            reg == X0 ==> !old(self).has_binding(val),
            reg != X0 ==> old(self).has_pair(val, reg),
        ensures
            final(self).wf(),
            reg == X0 ==> *final(self) == *old(self),
            reg != X0 ==> final(self).reg2val@ == old(self).reg2val@.update(reg as int, None)
                && final(self).bindings() == remove_key(old(self).bindings(), val),
            !final(self).has_binding(val),
    {
        if reg == X0 {
            return ;
        }
        let ghost oldb = self.val2reg@;
        let mut i: usize = 0;
        while i < self.val2reg.len()
            invariant
                self == old(self),
                oldb == self.val2reg@,
                reg != X0,
                i <= oldb.len(),
                forall|j: int| 0 <= j < i ==> (#[trigger] oldb[j]).0 != val,
                old(self).wf(),
                old(self).has_pair(val, reg),
            decreases oldb.len() - i,
        {
            if self.val2reg[i].0 == val {
                proof {
                    let k = choose|k: int|
                        0 <= k < oldb.len() && #[trigger] oldb[k] == (val, reg);
                    assert(oldb[i as int].0 == oldb[k].0);
                    assert(i == k);
                }
                self.val2reg.remove(i);
                self.reg2val.set(reg as usize, None);
                proof {
                    let newb = self.val2reg@;
                    assert forall|p: int, q: int|
                        0 <= p < q < newb.len() implies (#[trigger] newb[p]).0 != (
                    #[trigger] newb[q]).0 by {
                        let p0: int = if p < i { p } else { p + 1 };
                        let q0: int = if q < i { q } else { q + 1 };
                        assert(newb[p] == oldb[p0] && newb[q] == oldb[q0]);
                    }
                    assert forall|n: int|
                        0 <= n < newb.len() implies spec_allocatable((#[trigger] newb[n]).1)
                        && self.reg2val@[newb[n].1 as int] == Some(newb[n].0) by {
                        let n0: int = if n < i { n } else { n + 1 };
                        assert(newb[n] == oldb[n0]);
                        assert(old(self).reg2val@[oldb[n0].1 as int] == Some(oldb[n0].0));
                        if oldb[n0].1 == reg {
                            assert(oldb[n0].0 == val);
                            assert(n0 != i);
                            assert(oldb[i as int].0 == val);
                        }
                    }
                    assert forall|rr: int| 0 <= rr < 32 implies match #[trigger] self
                        .reg2val@[rr] {
                        Some(v) => self.has_pair(v, rr as Reg),
                        None => true,
                    } by {
                        if rr != reg as int {
                            match old(self).reg2val@[rr] {
                                Some(v) => {
                                    let k2 = choose|k2: int|
                                        0 <= k2 < oldb.len() && #[trigger] oldb[k2] == (
                                        v,
                                        rr as Reg,
                                        );
                                    let k3: int = if k2 < i {
                                        k2
                                    } else {
                                        k2 - 1
                                    };
                                    assert(k2 != i);
                                    assert(newb[k3] == oldb[k2]);
                                },
                                None => {},
                            }
                        }
                    }
                    assert forall|n: int| 0 <= n < newb.len() implies (#[trigger] newb[n]).0
                        != val by {
                        let n0: int = if n < i { n } else { n + 1 };
                        assert(newb[n] == oldb[n0]);
                        if n0 != i as int {
                            assert(oldb[n0].0 != oldb[i as int].0);
                        }
                    }
                    lemma_remove_key(oldb, val, i as int);
                }
                return ;
            }
            i += 1;
        }
        proof {
            let k = choose|k: int| 0 <= k < oldb.len() && #[trigger] oldb[k] == (val, reg);
            assert(oldb[k].0 == val);
            assert(false);
        }
    }

    /// Whether `val` is bound to some register.
    pub fn is_bound(&self, val: ValueId) -> (b: bool)
        ensures
            b == self.has_binding(val),
    {
        let mut i: usize = 0;
        while i < self.val2reg.len()
            invariant
                i <= self.val2reg@.len(),
                forall|j: int| 0 <= j < i ==> (#[trigger] self.val2reg@[j]).0 != val,
            decreases self.val2reg@.len() - i,
        {
            if self.val2reg[i].0 == val {
                return true;
            }
            i += 1;
        }
        false
    }

    /// Whether `val` is bound to exactly register `r`.
    pub fn is_bound_to(&self, val: ValueId, r: Reg) -> (b: bool)
        ensures
            b == self.has_pair(val, r),
    {
        let mut i: usize = 0;
        while i < self.val2reg.len()
            invariant
                i <= self.val2reg@.len(),
                forall|j: int| 0 <= j < i ==> (#[trigger] self.val2reg@[j]) != (val, r),
            decreases self.val2reg@.len() - i,
        {
            if self.val2reg[i].0 == val && self.val2reg[i].1 == r {
                proof {
                    assert(self.val2reg@[i as int] == (val, r));
                }
                return true;
            }
            i += 1;
        }
        false
    }

    /// Finds the index of the binding that holds register `target`.
    fn find_by_reg(&self, target: Reg) -> (idx: usize)
        requires
            exists|k: int|
                0 <= k < self.val2reg@.len() && (#[trigger] self.val2reg@[k]).1 == target,
        ensures
            idx < self.val2reg@.len(),
            self.val2reg@[idx as int].1 == target,
    {
        let mut i: usize = 0;
        while i < self.val2reg.len()
            invariant
                i <= self.val2reg@.len(),
                forall|j: int| 0 <= j < i ==> (#[trigger] self.val2reg@[j]).1 != target,
                exists|k: int|
                    0 <= k < self.val2reg@.len() && (#[trigger] self.val2reg@[k]).1 == target,
            decreases self.val2reg@.len() - i,
        {
            if self.val2reg[i].1 == target {
                return i;
            }
            i += 1;
        }
        proof {
            let k = choose|k: int|
                0 <= k < self.val2reg@.len() && (#[trigger] self.val2reg@[k]).1 == target;
            assert(false);
        }
        0
    }

    /// Moves the value in `old_reg` to `new_reg`; when `new_reg` is
    /// occupied its value goes to `old_reg` in exchange.  Returns
    /// whether such a swap happened.
    pub fn move_to(&mut self, old_reg: Reg, new_reg: Reg) -> (swapped: bool)
        requires
            old(self).wf(),
            old_reg < 32,
            spec_allocatable(new_reg),
            old(self).val_at(old_reg) is Some,
        ensures
            final(self).wf(),
            old_reg == new_reg ==> !swapped && *final(self) == *old(self),
            old_reg != new_reg && old(self).val_at(new_reg) is None ==> !swapped && (match old(
                self,
            ).val_at(old_reg) {
                Some(vold) => final(self).bindings() == set_key(
                    old(self).bindings(),
                    vold,
                    new_reg,
                ),
                None => false,
            }) && final(self).reg2val@ == old(self).reg2val@.update(
                new_reg as int,
                old(self).reg2val@[old_reg as int],
            ).update(old_reg as int, None),
            old_reg != new_reg && old(self).val_at(new_reg) is Some ==> swapped && (match (
                old(self).val_at(old_reg),
                old(self).val_at(new_reg),
            ) {
                (Some(vold), Some(vnew)) => final(self).bindings() == set_key(
                    set_key(old(self).bindings(), vold, new_reg),
                    vnew,
                    old_reg,
                ),
                _ => false,
            }) && final(self).reg2val@ == old(self).reg2val@.update(
                new_reg as int,
                old(self).reg2val@[old_reg as int],
            ).update(old_reg as int, old(self).reg2val@[new_reg as int]),
    {
        if old_reg == new_reg {
            return false;
        }
        let ghost oldb = self.val2reg@;
        proof {
            match old(self).reg2val@[old_reg as int] {
                Some(v) => {
                    let k = choose|k: int|
                        0 <= k < oldb.len() && #[trigger] oldb[k] == (v, old_reg);
                    assert(oldb[k].1 == old_reg);
                },
                None => assert(false),
            }
        }
        let found = self.find_by_reg(old_reg);
        let vold = self.val2reg[found].0;
        proof {
            assert(old(self).reg2val@[oldb[found as int].1 as int] == Some(oldb[found as int].0));
            assert(old(self).val_at(old_reg) == Some(vold));
        }
        let occupant = self.reg2val[new_reg as usize];
        match occupant {
            None => {
                self.val2reg.set(found, (vold, new_reg));
                self.reg2val.set(new_reg as usize, Some(vold));
                self.reg2val.set(old_reg as usize, None);
                proof {
                    self.lemma_move_wf(*old(self), found as int, vold, old_reg, new_reg);
                    lemma_set_key(oldb, vold, new_reg, found as int);
                }
                false
            },
            Some(vnew) => {
                // Find the binding of the occupant.
                proof {
                    let k = choose|k: int|
                        0 <= k < oldb.len() && #[trigger] oldb[k] == (vnew, new_reg);
                    assert(oldb[k].1 == new_reg);
                }
                let found2 = self.find_by_reg(new_reg);
                proof {
                    assert(old(self).reg2val@[oldb[found2 as int].1 as int] == Some(
                        oldb[found2 as int].0,
                    ));
                    assert(oldb[found2 as int].0 == vnew);
                    if found == found2 {
                        assert(oldb[found as int].1 == old_reg);
                        assert(false);
                    }
                }
                self.val2reg.set(found, (vold, new_reg));
                self.val2reg.set(found2, (vnew, old_reg));
                self.reg2val.set(new_reg as usize, Some(vold));
                self.reg2val.set(old_reg as usize, Some(vnew));
                proof {
                    self.lemma_swap_wf(
                        *old(self),
                        found as int,
                        found2 as int,
                        vold,
                        vnew,
                        old_reg,
                        new_reg,
                    );
                    lemma_set_key(oldb, vold, new_reg, found as int);
                    let bs1 = oldb.update(found as int, (vold, new_reg));
                    assert forall|p: int, q: int|
                        0 <= p < q < bs1.len() implies (#[trigger] bs1[p]).0 != (
                    #[trigger] bs1[q]).0 by {
                        assert(bs1[p].0 == oldb[p].0 && bs1[q].0 == oldb[q].0);
                    }
                    assert(bs1[found2 as int].0 == vnew);
                    lemma_set_key(bs1, vnew, old_reg, found2 as int);
                }
                true
            },
        }
    }

    /// Well-formedness is preserved when one binding is retargeted from
    /// an occupied register to a free one.
    proof fn lemma_move_wf(self, o: Self, i: int, vold: ValueId, old_reg: Reg, new_reg: Reg)
        requires
            o.wf(),
            old_reg != new_reg,
            spec_allocatable(new_reg),
            0 <= i < o.val2reg@.len(),
            o.val2reg@[i] == (vold, old_reg),
            o.reg2val@[new_reg as int] is None,
            self.val2reg@ == o.val2reg@.update(i, (vold, new_reg)),
            self.reg2val@ == o.reg2val@.update(new_reg as int, Some(vold)).update(
                old_reg as int,
                None,
            ),
        ensures
            self.wf(),
    {
        let oldb = o.val2reg@;
        let newb = self.val2reg@;
        assert(o.reg2val@[old_reg as int] == Some(vold));
        assert forall|n: int|
            0 <= n < newb.len() implies spec_allocatable((#[trigger] newb[n]).1)
            && self.reg2val@[newb[n].1 as int] == Some(newb[n].0) by {
            if n != i {
                assert(newb[n] == oldb[n]);
                assert(o.reg2val@[oldb[n].1 as int] == Some(oldb[n].0));
                if oldb[n].1 == old_reg {
                    assert(oldb[n].0 == vold && oldb[i].0 == vold);
                    assert(n == i);
                }
                assert(oldb[n].1 != new_reg);
            }
        }
        assert forall|rr: int| 0 <= rr < 32 implies match #[trigger] self.reg2val@[rr] {
            Some(v) => self.has_pair(v, rr as Reg),
            None => true,
        } by {
            if rr == new_reg as int {
                assert(newb[i] == (vold, new_reg));
            } else if rr != old_reg as int {
                match o.reg2val@[rr] {
                    Some(v) => {
                        let k = choose|k: int|
                            0 <= k < oldb.len() && #[trigger] oldb[k] == (v, rr as Reg);
                        assert(k != i);
                        assert(newb[k] == (v, rr as Reg));
                    },
                    None => {},
                }
            }
        }
    }

    /// Well-formedness is preserved when two bindings exchange their
    /// registers.
    proof fn lemma_swap_wf(
        self,
        o: Self,
        i: int,
        j: int,
        vold: ValueId,
        vnew: ValueId,
        old_reg: Reg,
        new_reg: Reg,
    )
        requires
            o.wf(),
            old_reg != new_reg,
            i != j,
            0 <= i < o.val2reg@.len(),
            0 <= j < o.val2reg@.len(),
            o.val2reg@[i] == (vold, old_reg),
            o.val2reg@[j] == (vnew, new_reg),
            self.val2reg@ == o.val2reg@.update(i, (vold, new_reg)).update(j, (vnew, old_reg)),
            self.reg2val@ == o.reg2val@.update(new_reg as int, Some(vold)).update(
                old_reg as int,
                Some(vnew),
            ),
        ensures
            self.wf(),
    {
        let oldb = o.val2reg@;
        let newb = self.val2reg@;
        assert(o.reg2val@[old_reg as int] == Some(vold));
        assert(o.reg2val@[new_reg as int] == Some(vnew));
        assert forall|n: int|
            0 <= n < newb.len() implies spec_allocatable((#[trigger] newb[n]).1)
            && self.reg2val@[newb[n].1 as int] == Some(newb[n].0) by {
            if n != i && n != j {
                assert(newb[n] == oldb[n]);
                assert(o.reg2val@[oldb[n].1 as int] == Some(oldb[n].0));
                if oldb[n].1 == old_reg {
                    assert(oldb[n].0 == vold && oldb[i].0 == vold);
                    assert(n == i);
                }
                if oldb[n].1 == new_reg {
                    assert(oldb[n].0 == vnew && oldb[j].0 == vnew);
                    assert(n == j);
                }
            }
        }
        assert forall|rr: int| 0 <= rr < 32 implies match #[trigger] self.reg2val@[rr] {
            Some(v) => self.has_pair(v, rr as Reg),
            None => true,
        } by {
            if rr == new_reg as int {
                assert(newb[i] == (vold, new_reg));
            } else if rr == old_reg as int {
                assert(newb[j] == (vnew, old_reg));
            } else {
                match o.reg2val@[rr] {
                    Some(v) => {
                        let k = choose|k: int|
                            0 <= k < oldb.len() && #[trigger] oldb[k] == (v, rr as Reg);
                        assert(k != i && k != j);
                        assert(newb[k] == (v, rr as Reg));
                    },
                    None => {},
                }
            }
        }
    }

    /// The register bound to `val`.
    pub fn reg(&self, val: ValueId) -> (r: Reg)
        requires
            self.wf(),
            self.has_binding(val),
        ensures
            self.has_pair(val, r),
            spec_allocatable(r),
            self.val_at(r) == Some(val),
    {
        let mut i: usize = 0;
        while i < self.val2reg.len()
            invariant
                self.wf(),
                self.has_binding(val),
                i <= self.val2reg@.len(),
                forall|j: int| 0 <= j < i ==> (#[trigger] self.val2reg@[j]).0 != val,
            decreases self.val2reg@.len() - i,
        {
            if self.val2reg[i].0 == val {
                return self.val2reg[i].1;
            }
            i += 1;
        }
        proof {
            let k = choose|k: int|
                0 <= k < self.val2reg@.len() && (#[trigger] self.val2reg@[k]).0 == val;
            assert(false);
        }
        0
    }

    /// The value bound to `reg`, which must be occupied and not `x0`.
    pub fn value(&self, reg: Reg) -> (val: ValueId)
        requires
            self.wf(),
            reg != X0,
            reg < 32,
            self.val_at(reg) is Some,
        ensures
            Some(val) == self.val_at(reg),
    {
        match self.reg2val[reg as usize] {
            Some(v) => v,
            None => {
                proof {
                    assert(false);
                }
                0
            },
        }
    }

    /// Whether `reg` is free.
    pub fn is_free(&self, reg: Reg) -> (free: bool)
        requires
            self.wf(),
            reg < 32,
        ensures
            free == self.spec_is_free(reg),
    {
        self.reg2val[reg as usize].is_none()
    }

    /// All registers holding live values, in binding-creation order.
    pub fn regs(&self) -> (rs: Vec<Reg>)
        ensures
            rs@ == self.live_regs(),
    {
        let mut rs: Vec<Reg> = Vec::new();
        let mut i: usize = 0;
        while i < self.val2reg.len()
            invariant
                i <= self.val2reg@.len(),
                rs@.len() == i,
                forall|j: int| 0 <= j < i ==> rs@[j] == (#[trigger] self.val2reg@[j]).1,
            decreases self.val2reg@.len() - i,
        {
            rs.push(self.val2reg[i].1);
            i += 1;
        }
        proof {
            assert(rs@ =~= self.live_regs());
        }
        rs
    }
}


/// The first free register at or after index `r` in the tail of the
/// allocation scan order, `s2`..`t6`.
pub open spec fn find_free_in_from(rv: Seq<Option<ValueId>>, r: int) -> Option<Reg>
    decreases 32 - r,
{
    if r < 18 || r >= 32 {
        None
    } else if rv[r] is None {
        Some(r as Reg)
    } else {
        find_free_in_from(rv, r + 1)
    }
}

/// The register an unconstrained allocation picks from the occupancy
/// table `rv`: the first free one of `t1`, `t2`, `s1`, then
/// `s2`..`s11`, `t3`..`t6`.
pub open spec fn find_free_in(rv: Seq<Option<ValueId>>) -> Option<Reg> {
    if rv[6] is None {
        Some(6 as Reg)
    } else if rv[7] is None {
        Some(7 as Reg)
    } else if rv[9] is None {
        Some(9 as Reg)
    } else {
        find_free_in_from(rv, 18)
    }
}

/// One when register `r` is free in `rv`, else zero.
pub open spec fn free_flag(rv: Seq<Option<ValueId>>, r: int) -> int {
    if rv[r] is None {
        1
    } else {
        0
    }
}

/// How many registers of the allocation scan order are free in `rv`.
pub open spec fn scan_free_count(rv: Seq<Option<ValueId>>) -> int {
    free_flag(rv, 6) + free_flag(rv, 7) + free_flag(rv, 9) + free_flag(rv, 18) + free_flag(rv, 19)
        + free_flag(rv, 20) + free_flag(rv, 21) + free_flag(rv, 22) + free_flag(rv, 23) + free_flag(
        rv,
        24,
    ) + free_flag(rv, 25) + free_flag(rv, 26) + free_flag(rv, 27) + free_flag(rv, 28) + free_flag(
        rv,
        29,
    ) + free_flag(rv, 30) + free_flag(rv, 31)
}

/// In the tail of the scan order, a free register is found when one
/// exists.
pub proof fn lemma_find_from_some(rv: Seq<Option<ValueId>>, r: int)
    requires
        18 <= r < 32,
        exists|k: int| r <= k < 32 && rv[k] is None,
    ensures
        find_free_in_from(rv, r) is Some,
    decreases 32 - r,
{
    if rv[r] is Some {
        let k = choose|k: int| r <= k < 32 && rv[k] is None;
        assert(k >= r + 1);
        lemma_find_from_some(rv, r + 1);
    }
}

/// When any scan-order register is free, an unconstrained allocation
/// finds one.
pub proof fn lemma_scan_count_find(rv: Seq<Option<ValueId>>)
    requires
        rv.len() == 32,
        scan_free_count(rv) > 0,
    ensures
        find_free_in(rv) is Some,
{
    if rv[6] is None || rv[7] is None || rv[9] is None {
    } else {
        assert(exists|k: int| 18 <= k < 32 && rv[k] is None) by {
            if rv[18] is None {
                assert(18 <= 18 < 32 && rv[18] is None);
            } else if rv[19] is None {
                assert(18 <= 19 < 32 && rv[19] is None);
            } else if rv[20] is None {
                assert(18 <= 20 < 32 && rv[20] is None);
            } else if rv[21] is None {
                assert(18 <= 21 < 32 && rv[21] is None);
            } else if rv[22] is None {
                assert(18 <= 22 < 32 && rv[22] is None);
            } else if rv[23] is None {
                assert(18 <= 23 < 32 && rv[23] is None);
            } else if rv[24] is None {
                assert(18 <= 24 < 32 && rv[24] is None);
            } else if rv[25] is None {
                assert(18 <= 25 < 32 && rv[25] is None);
            } else if rv[26] is None {
                assert(18 <= 26 < 32 && rv[26] is None);
            } else if rv[27] is None {
                assert(18 <= 27 < 32 && rv[27] is None);
            } else if rv[28] is None {
                assert(18 <= 28 < 32 && rv[28] is None);
            } else if rv[29] is None {
                assert(18 <= 29 < 32 && rv[29] is None);
            } else if rv[30] is None {
                assert(18 <= 30 < 32 && rv[30] is None);
            } else if rv[31] is None {
                assert(18 <= 31 < 32 && rv[31] is None);
            } else {
                assert(scan_free_count(rv) == 0);
            }
        }
        lemma_find_from_some(rv, 18);
    }
}

/// Binding one register takes at most one register out of the scan
/// order.
pub proof fn lemma_scan_count_update(rv: Seq<Option<ValueId>>, r: Reg, v: ValueId)
    requires
        rv.len() == 32,
        r < 32,
    ensures
        scan_free_count(rv.update(r as int, Some(v))) >= scan_free_count(rv) - 1,
{
    let rv2 = rv.update(r as int, Some(v));
    assert forall|k: int| 0 <= k < 32 && k != r implies free_flag(rv2, k) == free_flag(
        rv,
        k,
    ) by {
        assert(rv2[k] == rv[k]);
    }
    assert(free_flag(rv2, r as int) >= free_flag(rv, r as int) - 1);
}

impl RegManager {
    /// Counts the free registers of the allocation scan order.
    pub fn count_free_scan(&self) -> (c: usize)
        requires
            self.wf(),
        ensures
            c == scan_free_count(self.reg2val@),
    {
        let mut c: usize = 0;
        if self.reg2val[6].is_none() {
            c += 1;
        }
        if self.reg2val[7].is_none() {
            c += 1;
        }
        if self.reg2val[9].is_none() {
            c += 1;
        }
        let mut r: usize = 18;
        while r < 32
            invariant
                18 <= r <= 32,
                self.wf(),
                c == scan_free_count_upto(self.reg2val@, r as int),
                c <= r,
            decreases 32 - r,
        {
            if self.reg2val[r].is_none() {
                c += 1;
            }
            r += 1;
        }
        proof {
            reveal_with_fuel(scan_free_count_upto, 16);
            assert(scan_free_count_upto(self.reg2val@, 32) == scan_free_count(self.reg2val@));
        }
        c
    }
}

/// The scan-order free count, restricted to registers below `r` in the
/// tail plus the three head registers.
pub open spec fn scan_free_count_upto(rv: Seq<Option<ValueId>>, r: int) -> int
    decreases r,
{
    if r <= 18 {
        free_flag(rv, 6) + free_flag(rv, 7) + free_flag(rv, 9)
    } else {
        scan_free_count_upto(rv, r - 1) + free_flag(rv, r - 1)
    }
}


/// The bindings with the entry keyed `v` taken out.
pub open spec fn remove_key(bs: Seq<(ValueId, Reg)>, v: ValueId) -> Seq<(ValueId, Reg)>
    decreases bs.len(),
{
    if bs.len() == 0 {
        bs
    } else if bs[0].0 == v {
        bs.drop_first()
    } else {
        seq![bs[0]] + remove_key(bs.drop_first(), v)
    }
}

/// The bindings with the entry keyed `v` retargeted to register `r`.
pub open spec fn set_key(bs: Seq<(ValueId, Reg)>, v: ValueId, r: Reg) -> Seq<(ValueId, Reg)>
    decreases bs.len(),
{
    if bs.len() == 0 {
        bs
    } else if bs[0].0 == v {
        seq![(v, r)] + bs.drop_first()
    } else {
        seq![bs[0]] + set_key(bs.drop_first(), v, r)
    }
}

/// With unique keys, removing by position is removing by key.
pub proof fn lemma_remove_key(bs: Seq<(ValueId, Reg)>, v: ValueId, i: int)
    requires
        forall|p: int, q: int|
            0 <= p < q < bs.len() ==> (#[trigger] bs[p]).0 != (#[trigger] bs[q]).0,
        0 <= i < bs.len(),
        bs[i].0 == v,
    ensures
        bs.remove(i) == remove_key(bs, v),
    decreases i,
{
    if i == 0 {
        assert(bs.remove(0) =~= bs.drop_first());
    } else {
        assert(bs[0].0 != v);
        let rest = bs.drop_first();
        lemma_remove_key(rest, v, i - 1);
        assert(bs.remove(i) =~= seq![bs[0]] + rest.remove(i - 1));
    }
}

/// With unique keys, retargeting by position is retargeting by key.
pub proof fn lemma_set_key(bs: Seq<(ValueId, Reg)>, v: ValueId, r: Reg, i: int)
    requires
        forall|p: int, q: int|
            0 <= p < q < bs.len() ==> (#[trigger] bs[p]).0 != (#[trigger] bs[q]).0,
        0 <= i < bs.len(),
        bs[i].0 == v,
    ensures
        bs.update(i, (v, r)) == set_key(bs, v, r),
    decreases i,
{
    if i == 0 {
        assert(bs.update(0, (v, r)) =~= seq![(v, r)] + bs.drop_first());
    } else {
        assert(bs[0].0 != v);
        let rest = bs.drop_first();
        lemma_set_key(rest, v, r, i - 1);
        assert(bs.update(i, (v, r)) =~= seq![bs[0]] + rest.update(i - 1, (v, r)));
    }
}

/// A register found in the tail scan is free and allocatable.
pub proof fn lemma_find_from_free(rv: Seq<Option<ValueId>>, r: int)
    ensures
        match find_free_in_from(rv, r) {
            Some(x) => rv[x as int] is None && spec_allocatable(x) && 18 <= x < 32,
            None => true,
        },
    decreases 32 - r,
{
    if 18 <= r < 32 && rv[r] is Some {
        lemma_find_from_free(rv, r + 1);
    }
}

/// The register an unconstrained allocation picks is free and
/// allocatable.
pub proof fn lemma_find_free_is_free(rv: Seq<Option<ValueId>>)
    ensures
        match find_free_in(rv) {
            Some(x) => rv[x as int] is None && spec_allocatable(x) && (x == 6 || x == 7 || x == 9
                || (18 <= x < 32)),
            None => true,
        },
{
    if rv[6] is Some && rv[7] is Some && rv[9] is Some {
        lemma_find_from_free(rv, 18);
    }
}

/// Removing one key leaves every other key absent if it was absent.
pub proof fn lemma_remove_key_no_other(bs: Seq<(ValueId, Reg)>, v: ValueId, w: ValueId)
    requires
        !key_at(bs, w),
    ensures
        !key_at(remove_key(bs, v), w),
    decreases bs.len(),
{
    if bs.len() > 0 {
        assert(bs[0].0 != w);
        assert forall|i: int| 0 <= i < bs.drop_first().len() implies (
        #[trigger] bs.drop_first()[i]).0 != w by {
            assert(bs.drop_first()[i] == bs[i + 1]);
        }
        lemma_remove_key_no_other(bs.drop_first(), v, w);
        if bs[0].0 != v {
            let r = remove_key(bs, v);
            assert(r == seq![bs[0]] + remove_key(bs.drop_first(), v));
            assert forall|i: int| 0 <= i < r.len() implies (#[trigger] r[i]).0 != w by {
                if i > 0 {
                    assert(r[i] == remove_key(bs.drop_first(), v)[i - 1]);
                }
            }
        }
    }
}
} // verus!
