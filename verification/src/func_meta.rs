//! Frame layout of one function.
//!
//! One pass over a function's values decides, in this order: a slot for
//! each stack allocation in first-seen order; a word-sized staging slot
//! for each value whose unique use is as a call argument; one word for
//! the return address when the function makes a call; and a staging
//! area for call arguments beyond the eight argument registers, which
//! sits closest to the stack pointer and therefore shifts every earlier
//! offset upward.  The total is rounded up to a multiple of 16 bytes.

use vstd::arithmetic::mul::lemma_mul_inequality;
use vstd::prelude::*;
use vstd::seq_lib::*;
use vstd::set_lib::*;

use crate::ir;
use crate::ir::{ValueId, ValueKind};

verus! {

/// Bytes of frame reserved for stack allocations among `vs`, scanned in
/// order.
pub open spec fn alloc_frame(func: ir::Func, vs: Seq<ValueId>) -> nat
    decreases vs.len(),
{
    if vs.len() == 0 {
        0
    } else {
        alloc_frame(func, vs.drop_last()) + match func.kind_of(vs.last()) {
            ValueKind::Alloc { size } => size as nat,
            _ => 0,
        }
    }
}

/// Slot offsets after the allocation scan: each allocation gets the
/// frame size seen just before it.
pub open spec fn alloc_offsets(func: ir::Func, vs: Seq<ValueId>, n: nat) -> Seq<Option<nat>>
    decreases vs.len(),
{
    if vs.len() == 0 {
        Seq::new(n, |i: int| None)
    } else {
        let prev = alloc_offsets(func, vs.drop_last(), n);
        match func.kind_of(vs.last()) {
            ValueKind::Alloc { size } => prev.update(
                vs.last() as int,
                Some(alloc_frame(func, vs.drop_last())),
            ),
            _ => prev,
        }
    }
}

/// How many of `vs` are staged: their unique use is a call argument.
pub open spec fn staged_count(func: ir::Func, vs: Seq<ValueId>) -> nat
    decreases vs.len(),
{
    if vs.len() == 0 {
        0
    } else {
        staged_count(func, vs.drop_last()) + if func.spec_is_arg(vs.last()) {
            1nat
        } else {
            0nat
        }
    }
}

/// Slot offsets after the staging scan: each staged value gets a word
/// above `start`, the frame size after the allocation scan.
pub open spec fn staged_offsets(
    func: ir::Func,
    vs: Seq<ValueId>,
    base: Seq<Option<nat>>,
    start: nat,
) -> Seq<Option<nat>>
    decreases vs.len(),
{
    if vs.len() == 0 {
        base
    } else {
        let prev = staged_offsets(func, vs.drop_last(), base, start);
        if func.spec_is_arg(vs.last()) {
            prev.update(
                vs.last() as int,
                Some(start + 4 * staged_count(func, vs.drop_last())),
            )
        } else {
            prev
        }
    }
}

/// Whether any of the function's instructions is a call.
pub open spec fn spec_has_call(func: ir::Func) -> bool {
    exists|i: int|
        0 <= i < func.layout().len() && func.kind_of(#[trigger] func.layout()[i]) is Call
}

/// Whether the function is a leaf: it makes no call.
pub open spec fn spec_is_leaf(func: ir::Func) -> bool {
    !spec_has_call(func)
}

/// The largest argument count over the calls among `vs`.
pub open spec fn max_call_args(func: ir::Func, vs: Seq<ValueId>) -> nat
    decreases vs.len(),
{
    if vs.len() == 0 {
        0
    } else {
        let rest = max_call_args(func, vs.drop_last());
        let here = match func.kind_of(vs.last()) {
            ValueKind::Call { callee, args } => args@.len(),
            _ => 0,
        };
        if here > rest {
            here
        } else {
            rest
        }
    }
}

/// Bytes of the staging area for call arguments beyond the eight
/// argument registers.
pub open spec fn spec_arg_size(func: ir::Func) -> nat {
    let m = max_call_args(func, func.layout());
    if m > 8 {
        (4 * (m - 8)) as nat
    } else {
        0
    }
}

/// The frame size before alignment: allocation slots, staging slots, a
/// word for the return address when the function calls, and the
/// argument staging area.
pub open spec fn spec_raw_frame(func: ir::Func) -> nat {
    alloc_frame(func, func.layout()) + 4 * staged_count(func, func.layout()) + (
    if spec_has_call(func) {
        4nat
    } else {
        0nat
    }) + spec_arg_size(func)
}

/// The frame size: the raw total rounded up to a multiple of 16.
pub open spec fn spec_frame_size(func: ir::Func) -> nat {
    ((spec_raw_frame(func) + 15) / 16) * 16
}

/// Every offset shifted up by `d` bytes.
pub open spec fn spec_shift(s: Seq<Option<nat>>, d: nat) -> Seq<Option<nat>> {
    Seq::new(
        s.len(),
        |i: int|
            match s[i] {
                Some(o) => Some((o + d) as nat),
                None => None,
            },
    )
}

/// The final offset table: allocation slots, then staging slots, all
/// shifted up by the argument staging area.
pub open spec fn spec_offsets(func: ir::Func) -> Seq<Option<nat>> {
    spec_shift(
        staged_offsets(
            func,
            func.layout(),
            alloc_offsets(func, func.layout(), func.values@.len() as nat),
            alloc_frame(func, func.layout()),
        ),
        spec_arg_size(func),
    )
}

/// Whether an executable offset table agrees with a model one.
pub open spec fn opt_agree(a: Option<usize>, b: Option<nat>) -> bool {
    match a {
        Some(x) => b == Some(x as nat),
        None => b is None,
    }
}

pub open spec fn offsets_agree(v: Seq<Option<usize>>, s: Seq<Option<nat>>) -> bool {
    v.len() == s.len() && (forall|i: int| 0 <= i < v.len() ==> opt_agree(#[trigger] v[i], s[i]))
}

/// Function metadata: the computed frame layout.
pub struct FuncMeta {
    pub frame_size: usize,
    pub offsets: Vec<Option<usize>>,
    pub is_leaf: bool,
    pub arg_size: usize,
}

impl FuncMeta {
    /// Whether this metadata is the layout of `func`.
    pub open spec fn wf_for(self, func: ir::Func) -> bool {
        &&& self.frame_size == spec_frame_size(func)
        &&& self.is_leaf == spec_is_leaf(func)
        &&& self.arg_size == spec_arg_size(func)
        &&& offsets_agree(self.offsets@, spec_offsets(func))
        &&& self.offsets@.len() == func.values@.len()
        &&& forall|v: int|
            0 <= v < self.offsets@.len() ==> match #[trigger] self.offsets@[v] {
                Some(o) => o <= self.frame_size,
                None => true,
            }
    }

    /// Creates an empty instance.
    pub fn new() -> (meta: Self)
        ensures
            meta.frame_size == 0,
            meta.offsets@.len() == 0,
            meta.is_leaf == false,
            meta.arg_size == 0,
    {
        Self { frame_size: 0, offsets: Vec::new(), is_leaf: false, arg_size: 0 }
    }

    /// The frame size of the function, in bytes.
    pub fn frame_size(&self) -> (size: usize)
        ensures
            size == self.frame_size,
    {
        self.frame_size
    }

    /// The stack offset of the given value, in bytes, if it has one.
    pub fn offset(&self, value: ValueId) -> (off: Option<usize>)
        ensures
            off == self.spec_offset(value),
    {
        if value < self.offsets.len() {
            self.offsets[value]
        } else {
            None
        }
    }

    /// The stack offset of the given value, if it has one.
    pub open spec fn spec_offset(self, value: ValueId) -> Option<usize> {
        if value < self.offsets@.len() {
            self.offsets@[value as int]
        } else {
            None
        }
    }

    /// Whether the function is a leaf: it makes no call.
    pub fn is_leaf(&self) -> (leaf: bool)
        ensures
            leaf == self.is_leaf,
    {
        self.is_leaf
    }

    /// The bytes reserved for stack-passed call arguments.
    pub fn arg_size(&self) -> (size: usize)
        ensures
            size == self.arg_size,
    {
        self.arg_size
    }
}

/// Every id in a layout lands inside the arena of `func`.
pub open spec fn ids_in_range(vs: Seq<ValueId>, n: nat) -> bool {
    forall|i: int| 0 <= i < vs.len() ==> #[trigger] vs[i] < n
}

/// A well-formed function's layout only holds arena ids.
pub proof fn lemma_layout_in_range(func: ir::Func, blocks: Seq<ir::BlockData>)
    requires
        forall|b: int, i: int|
            0 <= b < blocks.len() && 0 <= i < blocks[b].insts@.len()
                ==> #[trigger] blocks[b].insts@[i] < func.values@.len(),
    ensures
        ids_in_range(ir::Func::layout_of(blocks), func.values@.len() as nat),
    decreases blocks.len(),
{
    if blocks.len() > 0 {
        lemma_layout_in_range(func, blocks.drop_last());
        assert(forall|i: int|
            0 <= i < blocks.last().insts@.len() ==> #[trigger] blocks.last().insts@[i] < func.values@.len());
    }
}

/// The allocation scan stays within its worst case: every slot is at
/// most the allowed allocation size.
pub proof fn lemma_alloc_frame_bound(func: ir::Func, vs: Seq<ValueId>)
    requires
        func.wf(),
        ids_in_range(vs, func.values@.len() as nat),
    ensures
        alloc_frame(func, vs) <= vs.len() * ir::MAX_ALLOC_SIZE,
    decreases vs.len(),
{
    if vs.len() > 0 {
        lemma_alloc_frame_bound(func, vs.drop_last());
        assert(func.kind_wf(func.values@[vs.last() as int].kind));
        assert((vs.len() - 1) * ir::MAX_ALLOC_SIZE + ir::MAX_ALLOC_SIZE == vs.len()
            * ir::MAX_ALLOC_SIZE) by (nonlinear_arith);
    }
}

/// At most every value is staged.
pub proof fn lemma_staged_count_bound(func: ir::Func, vs: Seq<ValueId>)
    ensures
        staged_count(func, vs) <= vs.len(),
    decreases vs.len(),
{
    if vs.len() > 0 {
        lemma_staged_count_bound(func, vs.drop_last());
    }
}

/// No call names more arguments than the allowed bound.
pub proof fn lemma_max_call_args_bound(func: ir::Func, vs: Seq<ValueId>)
    requires
        func.wf(),
        ids_in_range(vs, func.values@.len() as nat),
    ensures
        max_call_args(func, vs) <= ir::MAX_ARG_NUM,
    decreases vs.len(),
{
    if vs.len() > 0 {
        lemma_max_call_args_bound(func, vs.drop_last());
        assert(func.kind_wf(func.values@[vs.last() as int].kind));
    }
}

/// A layout without duplicates holds at most one id per arena entry.
pub proof fn lemma_layout_len(func: ir::Func)
    requires
        func.wf(),
    ensures
        func.layout().len() <= func.values@.len(),
{
    lemma_layout_in_range(func, func.blocks@);
    let vs_int = func.layout().map_values(|x: ValueId| x as int);
    assert forall|i: int, j: int| 0 <= i < j < vs_int.len() implies vs_int[i] != vs_int[j] by {
        assert(func.layout()[i] != func.layout()[j]);
    }
    assert(vs_int.no_duplicates());
    vs_int.unique_seq_to_set();
    assert(vs_int.to_set() <= set_int_range(0, func.values@.len() as int)) by {
        assert forall|x: int| vs_int.to_set().contains(x) implies set_int_range(
            0,
            func.values@.len() as int,
        ).contains(x) by {
            let i = choose|i: int| 0 <= i < vs_int.len() && vs_int[i] == x;
            assert(func.layout()[i] < func.values@.len());
        }
    }
    lemma_int_range(0, func.values@.len() as int);
    lemma_len_subset(vs_int.to_set(), set_int_range(0, func.values@.len() as int));
}

/// Every slot assigned by the allocation scan lies below the frame size
/// the scan reaches.
pub proof fn lemma_alloc_offsets_le(func: ir::Func, vs: Seq<ValueId>, n: nat)
    requires
        ids_in_range(vs, n),
    ensures
        forall|v: int|
            0 <= v < alloc_offsets(func, vs, n).len() ==> match #[trigger] alloc_offsets(
                func,
                vs,
                n,
            )[v] {
                Some(o) => o <= alloc_frame(func, vs),
                None => true,
            },
    decreases vs.len(),
{
    if vs.len() > 0 {
        lemma_alloc_offsets_le(func, vs.drop_last(), n);
        lemma_alloc_offsets_len(func, vs.drop_last(), n);
        let prev = alloc_offsets(func, vs.drop_last(), n);
        let cur = alloc_offsets(func, vs, n);
        assert(vs.last() < n);
        assert forall|v: int| 0 <= v < cur.len() implies match #[trigger] cur[v] {
            Some(o) => o <= alloc_frame(func, vs),
            None => true,
        } by {
            match func.kind_of(vs.last()) {
                ValueKind::Alloc { size } => {
                    if v != vs.last() as int {
                        assert(cur[v] == prev[v]);
                    }
                },
                _ => {
                    assert(cur[v] == prev[v]);
                },
            }
        }
    }
}

/// The allocation scan's offset table always covers the whole arena.
pub proof fn lemma_alloc_offsets_len(func: ir::Func, vs: Seq<ValueId>, n: nat)
    requires
        ids_in_range(vs, n),
    ensures
        alloc_offsets(func, vs, n).len() == n,
    decreases vs.len(),
{
    if vs.len() > 0 {
        lemma_alloc_offsets_len(func, vs.drop_last(), n);
    }
}

/// The staging scan keeps the offset table's length.
pub proof fn lemma_staged_offsets_len(
    func: ir::Func,
    vs: Seq<ValueId>,
    base: Seq<Option<nat>>,
    start: nat,
)
    requires
        ids_in_range(vs, base.len() as nat),
    ensures
        staged_offsets(func, vs, base, start).len() == base.len(),
    decreases vs.len(),
{
    if vs.len() > 0 {
        lemma_staged_offsets_len(func, vs.drop_last(), base, start);
    }
}

/// Every slot after the staging scan lies below the frame size the scan
/// reaches.
pub proof fn lemma_staged_offsets_le(
    func: ir::Func,
    vs: Seq<ValueId>,
    base: Seq<Option<nat>>,
    start: nat,
)
    requires
        ids_in_range(vs, base.len() as nat),
        forall|v: int|
            0 <= v < base.len() ==> match #[trigger] base[v] {
                Some(o) => o <= start,
                None => true,
            },
    ensures
        forall|v: int|
            0 <= v < staged_offsets(func, vs, base, start).len() ==> match #[trigger] staged_offsets(
                func,
                vs,
                base,
                start,
            )[v] {
                Some(o) => o <= start + 4 * staged_count(func, vs),
                None => true,
            },
    decreases vs.len(),
{
    if vs.len() > 0 {
        lemma_staged_offsets_le(func, vs.drop_last(), base, start);
        lemma_staged_offsets_len(func, vs.drop_last(), base, start);
        let prev = staged_offsets(func, vs.drop_last(), base, start);
        let cur = staged_offsets(func, vs, base, start);
        assert(vs.last() < base.len());
        assert forall|v: int| 0 <= v < cur.len() implies match #[trigger] cur[v] {
            Some(o) => o <= start + 4 * staged_count(func, vs),
            None => true,
        } by {
            if func.spec_is_arg(vs.last()) {
                if v != vs.last() as int {
                    assert(cur[v] == prev[v]);
                }
            } else {
                assert(cur[v] == prev[v]);
            }
        }
    }
}

impl FuncMeta {
    /// Computes the frame layout of `func` by one pass over its values.
    pub fn from(func: &ir::Func) -> (meta: FuncMeta)
        requires
            func.wf(),
        ensures
            meta.wf_for(*func),
            meta.frame_size % 16 == 0,
            meta.frame_size >= alloc_frame(*func, func.layout()) + 4 * staged_count(
                *func,
                func.layout(),
            ) + (if spec_is_leaf(*func) {
                0nat
            } else {
                4nat
            }) + meta.arg_size,
    {
        let vs = func.func_values();
        let n = func.values.len();
        proof {
            lemma_layout_in_range(*func, func.blocks@);
            lemma_layout_len(*func);
            lemma_alloc_frame_bound(*func, func.layout());
            lemma_staged_count_bound(*func, func.layout());
            lemma_max_call_args_bound(*func, func.layout());
            lemma_mul_inequality(
                func.layout().len() as int,
                ir::MAX_VALUE_NUM as int,
                ir::MAX_ALLOC_SIZE as int,
            );
            assert(ir::MAX_VALUE_NUM * ir::MAX_ALLOC_SIZE < 0x4000_0001);
        }

        // Reserve frame slots for stack allocations, in first-seen order.
        let mut offsets: Vec<Option<usize>> = Vec::new();
        let mut k: usize = 0;
        while k < n
            invariant
                k <= n,
                offsets@.len() == k,
                forall|j: int| 0 <= j < k ==> offsets@[j] is None,
            decreases n - k,
        {
            offsets.push(None);
            k += 1;
        }
        proof {
            assert(offsets_agree(offsets@, alloc_offsets(*func, vs@.take(0), n as nat)));
        }

        let mut frame: usize = 0;
        let mut i: usize = 0;
        while i < vs.len()
            invariant
                func.wf(),
                vs@ == func.layout(),
                ids_in_range(vs@, func.values@.len() as nat),
                n == func.values@.len(),
                i <= vs@.len(),
                offsets@.len() == n,
                vs@.len() <= ir::MAX_VALUE_NUM,
                frame == alloc_frame(*func, vs@.take(i as int)),
                offsets_agree(offsets@, alloc_offsets(*func, vs@.take(i as int), n as nat)),
            decreases vs@.len() - i,
        {
            let v = vs[i];
            proof {
                assert(vs@.take(i + 1int).drop_last() == vs@.take(i as int));
                assert(vs@.take(i + 1int).last() == vs@[i as int]);
                lemma_alloc_frame_prefix(*func, vs@, i + 1int);
                lemma_alloc_frame_bound(*func, vs@.take(i + 1int));
                lemma_mul_inequality(
                    i + 1int,
                    ir::MAX_VALUE_NUM as int,
                    ir::MAX_ALLOC_SIZE as int,
                );
            }
            match &func.values[v].kind {
                ValueKind::Alloc { size } => {
                    proof {
                        assert(func.kind_wf(func.values@[v as int].kind));
                        assert(frame + *size == alloc_frame(*func, vs@.take(i + 1int)));
                        assert(ids_in_range(vs@.take(i + 1int), func.values@.len() as nat)) by {
                            assert forall|j: int|
                                0 <= j < i + 1 implies #[trigger] vs@.take(i + 1int)[j]
                                < func.values@.len() by {
                                assert(vs@.take(i + 1int)[j] == vs@[j]);
                            }
                        }
                        assert(alloc_frame(*func, vs@.take(i + 1int)) <= (i + 1)
                            * ir::MAX_ALLOC_SIZE);
                        assert((i + 1) * ir::MAX_ALLOC_SIZE <= ir::MAX_VALUE_NUM
                            * ir::MAX_ALLOC_SIZE);
                        assert(ir::MAX_VALUE_NUM * ir::MAX_ALLOC_SIZE < 0x4000_0001);
                    }
                    offsets.set(v, Some(frame));
                    frame = frame + *size;
                },
                _ => {},
            }
            i += 1;
        }
        proof {
            assert(vs@.take(vs@.len() as int) == vs@);
        }
        let ghost alloc_total = alloc_frame(*func, func.layout());

        // Reserve a staging slot for each value whose unique use is a
        // call argument.
        let ghost base = alloc_offsets(*func, func.layout(), n as nat);
        let mut i2: usize = 0;
        while i2 < vs.len()
            invariant
                func.wf(),
                vs@ == func.layout(),
                ids_in_range(vs@, func.values@.len() as nat),
                n == func.values@.len(),
                i2 <= vs@.len(),
                offsets@.len() == n,
                alloc_total == alloc_frame(*func, func.layout()),
                alloc_total <= ir::MAX_VALUE_NUM * ir::MAX_ALLOC_SIZE,
                base == alloc_offsets(*func, func.layout(), n as nat),
                frame == alloc_total + 4 * staged_count(*func, vs@.take(i2 as int)),
                staged_count(*func, vs@.take(i2 as int)) <= vs@.len(),
                vs@.len() <= ir::MAX_VALUE_NUM,
                offsets_agree(
                    offsets@,
                    staged_offsets(*func, vs@.take(i2 as int), base, alloc_total),
                ),
            decreases vs@.len() - i2,
        {
            let v = vs[i2];
            proof {
                assert(vs@.take(i2 + 1int).drop_last() == vs@.take(i2 as int));
                assert(vs@.take(i2 + 1int).last() == vs@[i2 as int]);
                lemma_staged_count_bound(*func, vs@.take(i2 + 1int));
            }
            let ub = &func.values[v].used_by;
            if ub.len() == 1 {
                let user = ub[0];
                let is_call = match &func.values[user].kind {
                    ValueKind::Call { .. } => true,
                    _ => false,
                };
                if is_call {
                    proof {
                        assert(ir::MAX_VALUE_NUM * ir::MAX_ALLOC_SIZE < 0x4000_0001);
                        assert(frame < 0x5000_0000);
                    }
                    offsets.set(v, Some(frame));
                    frame = frame + 4;
                }
            }
            i2 += 1;
        }
        proof {
            assert(vs@.take(vs@.len() as int) == vs@);
        }

        // A function with a call must keep its return address in the
        // frame.
        let mut has_call = false;
        let mut i3: usize = 0;
        while i3 < vs.len()
            invariant
                func.wf(),
                vs@ == func.layout(),
                ids_in_range(vs@, func.values@.len() as nat),
                i3 <= vs@.len(),
                has_call == exists|j: int|
                    0 <= j < i3 && func.kind_of(#[trigger] vs@[j]) is Call,
            decreases vs@.len() - i3,
        {
            let v = vs[i3];
            match &func.values[v].kind {
                ValueKind::Call { .. } => {
                    has_call = true;
                },
                _ => {},
            }
            i3 += 1;
        }
        let is_leaf = !has_call;
        proof {
            assert(has_call == spec_has_call(*func));
        }
        if !is_leaf {
            proof {
                assert(ir::MAX_VALUE_NUM * ir::MAX_ALLOC_SIZE < 0x4000_0001);
                assert(frame < 0x5000_0000);
            }
            frame = frame + 4;
        }

        // Reserve the staging area for stack-passed call arguments and
        // shift every earlier offset above it.
        let mut max_args: usize = 0;
        let mut i4: usize = 0;
        while i4 < vs.len()
            invariant
                func.wf(),
                vs@ == func.layout(),
                ids_in_range(vs@, func.values@.len() as nat),
                i4 <= vs@.len(),
                max_args == max_call_args(*func, vs@.take(i4 as int)),
                max_args <= ir::MAX_ARG_NUM,
            decreases vs@.len() - i4,
        {
            let v = vs[i4];
            proof {
                assert(vs@.take(i4 + 1int).drop_last() == vs@.take(i4 as int));
                assert(vs@.take(i4 + 1int).last() == vs@[i4 as int]);
                lemma_max_call_args_bound(*func, vs@.take(i4 + 1int));
            }
            match &func.values[v].kind {
                ValueKind::Call { callee: _, args } => {
                    if args.len() > max_args {
                        max_args = args.len();
                    }
                },
                _ => {},
            }
            i4 += 1;
        }
        proof {
            assert(vs@.take(vs@.len() as int) == vs@);
        }

        let mut arg_size: usize = 0;
        let ghost staged = staged_offsets(*func, func.layout(), base, alloc_total);
        proof {
            lemma_alloc_offsets_len(*func, func.layout(), n as nat);
            lemma_alloc_offsets_le(*func, func.layout(), n as nat);
            lemma_staged_offsets_len(*func, func.layout(), base, alloc_total);
            lemma_staged_offsets_le(*func, func.layout(), base, alloc_total);
            assert(ir::MAX_VALUE_NUM * ir::MAX_ALLOC_SIZE < 0x4000_0001);
            assert(alloc_total + 4 * staged_count(*func, func.layout()) < 0x5000_0000);
        }
        if max_args > 8 {
            proof {
                assert(frame < 0x5000_0000);
            }
            arg_size = 4 * (max_args - 8);
            frame = frame + arg_size;
            let mut v: usize = 0;
            while v < n
                invariant
                    v <= n,
                    offsets@.len() == n,
                    staged.len() == n,
                    arg_size <= 4 * ir::MAX_ARG_NUM,
                    forall|j: int|
                        0 <= j < v ==> opt_agree(
                            #[trigger] offsets@[j],
                            spec_shift(staged, arg_size as nat)[j],
                        ),
                    forall|j: int| v <= j < n ==> opt_agree(#[trigger] offsets@[j], staged[j]),
                    forall|j: int|
                        0 <= j < n ==> match #[trigger] staged[j] {
                            Some(o) => o < 0x5000_0000,
                            None => true,
                        },
                decreases n - v,
            {
                match offsets[v] {
                    Some(o) => {
                        offsets.set(v, Some(o + arg_size));
                    },
                    None => {},
                }
                v += 1;
            }
            proof {
                assert(max_args == max_call_args(*func, func.layout()));
                assert(arg_size == spec_arg_size(*func));
            }
        } else {
            proof {
                assert(arg_size == spec_arg_size(*func));
                assert forall|j: int| 0 <= j < n implies opt_agree(
                    #[trigger] offsets@[j],
                    spec_shift(staged, 0)[j],
                ) by {
                    assert(opt_agree(offsets@[j], staged[j]));
                }
            }
        }

        // Align the frame to 16 bytes.
        proof {
            assert(frame == spec_raw_frame(*func));
            assert(frame < 0x5001_0000);
        }
        frame = (frame + 15) / 16 * 16;

        FuncMeta { frame_size: frame, offsets, is_leaf, arg_size }
    }
}

/// Scanning one more value only grows the reserved frame.
pub proof fn lemma_alloc_frame_prefix(func: ir::Func, vs: Seq<ValueId>, i: int)
    requires
        0 < i <= vs.len(),
    ensures
        alloc_frame(func, vs.take(i)) == alloc_frame(func, vs.take(i - 1)) + match func.kind_of(
            vs[i - 1],
        ) {
            ValueKind::Alloc { size } => size as nat,
            _ => 0nat,
        },
{
    assert(vs.take(i).drop_last() == vs.take(i - 1));
    assert(vs.take(i).last() == vs[i - 1]);
}


/// The frame of a well-formed function stays well under the `i32`
/// range, so byte offsets into it can be materialized as immediates.
pub proof fn lemma_frame_size_bound(func: ir::Func)
    requires
        func.wf(),
    ensures
        spec_frame_size(func) < 0x6000_0000,
        spec_raw_frame(func) < 0x5001_0000,
{
    lemma_layout_in_range(func, func.blocks@);
    lemma_layout_len(func);
    lemma_alloc_frame_bound(func, func.layout());
    lemma_staged_count_bound(func, func.layout());
    lemma_max_call_args_bound(func, func.layout());
    lemma_mul_inequality(
        func.layout().len() as int,
        ir::MAX_VALUE_NUM as int,
        ir::MAX_ALLOC_SIZE as int,
    );
    assert(ir::MAX_VALUE_NUM * ir::MAX_ALLOC_SIZE < 0x4000_0001);
    assert(spec_raw_frame(func) < 0x5001_0000);
    assert(spec_frame_size(func) <= spec_raw_frame(func) + 15);
}

/// Every assigned offset lies within the frame.
pub proof fn lemma_offsets_in_frame(func: ir::Func)
    requires
        func.wf(),
    ensures
        forall|v: int|
            0 <= v < spec_offsets(func).len() ==> match #[trigger] spec_offsets(func)[v] {
                Some(o) => o <= spec_raw_frame(func),
                None => true,
            },
{
    lemma_layout_in_range(func, func.blocks@);
    let n = func.values@.len() as nat;
    let base = alloc_offsets(func, func.layout(), n);
    let start = alloc_frame(func, func.layout());
    lemma_alloc_offsets_len(func, func.layout(), n);
    lemma_alloc_offsets_le(func, func.layout(), n);
    lemma_staged_offsets_len(func, func.layout(), base, start);
    lemma_staged_offsets_le(func, func.layout(), base, start);
}
} // verus!
