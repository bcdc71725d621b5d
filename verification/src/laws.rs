//! The laws the broker keeps: statements that tie several operations
//! together, proved once and for all from the operations' contracts.

use vstd::prelude::*;
use crate::broker::Broker;
use crate::mask::{lemma_mask_split, mask_ones, CoreMask};
use crate::region::{assign_effect, lemma_assign_effect, wp_at};
use crate::schedule::{sched_bits, sched_merge_spec, sched_retain, sched_task_bits, sched_wf};
use crate::types::{CoreAssignment, CoreIndex, RegionId, RegionRecord, ScheduleItem, WorkplanKey};

verus! {

/// Every entry of a well-formed broker's workplan is a schedule over
/// pairwise disjoint masks covering at most the 80 lanes of its core.
pub proof fn lemma_workplan_entry_bounded(b: Broker, k: WorkplanKey)
    requires
        b.wf(),
        b.workplan_map().dom().contains(k),
    ensures
        sched_wf(b.workplan_map()[k]),
        sched_bits(b.workplan_map()[k]) <= 80,
{
    crate::store::lemma_amap_contains(b.workplan@, k);
    let i = choose|i: int| 0 <= i < b.workplan@.len() && (#[trigger] b.workplan@[i]).0 == k;
    crate::store::lemma_amap_index(b.workplan@, i);
    crate::schedule::lemma_sched_bits_le(b.workplan@[i].1@);
}

/// One region's weight: its lanes times its timeslices, the coretime it
/// stands for.
pub open spec fn region_weight(id: RegionId, rec: RegionRecord) -> int {
    mask_ones(id.mask.bits) * (rec.end - id.begin)
}

/// The coretime all live regions stand for together. `purchase` mints one
/// region's weight, `partition` and `interlace` conserve the total, and
/// `assign`, `pool` and `drop_region` retire exactly the consumed region's
/// weight: the live regions always carry what was sold and not yet retired.
pub open spec fn regions_weight(s: Seq<(RegionId, RegionRecord)>) -> int
    decreases s.len(),
{
    if s.len() == 0 {
        0
    } else {
        regions_weight(s.drop_last()) + region_weight(s.last().0, s.last().1)
    }
}

/// Appending a region adds its weight.
pub proof fn lemma_weight_push(s: Seq<(RegionId, RegionRecord)>, id: RegionId, rec: RegionRecord)
    ensures
        regions_weight(s.push((id, rec))) == regions_weight(s) + region_weight(id, rec),
{
    assert(s.push((id, rec)).drop_last() =~= s);
}

/// Replacing a region swaps its weight for the new one's.
pub proof fn lemma_weight_update(
    s: Seq<(RegionId, RegionRecord)>,
    i: int,
    id: RegionId,
    rec: RegionRecord,
)
    requires
        0 <= i < s.len(),
    ensures
        regions_weight(s.update(i, (id, rec))) == regions_weight(s) - region_weight(
            s[i].0,
            s[i].1,
        ) + region_weight(id, rec),
    decreases s.len(),
{
    let t = s.update(i, (id, rec));
    if i == s.len() - 1 {
        assert(t.drop_last() =~= s.drop_last());
    } else {
        lemma_weight_update(s.drop_last(), i, id, rec);
        assert(t.drop_last() =~= s.drop_last().update(i, (id, rec)));
    }
}

/// Removing a region takes its weight away.
pub proof fn lemma_weight_remove(s: Seq<(RegionId, RegionRecord)>, i: int)
    requires
        0 <= i < s.len(),
    ensures
        regions_weight(s.remove(i)) == regions_weight(s) - region_weight(s[i].0, s[i].1),
    decreases s.len(),
{
    let t = s.remove(i);
    if i == s.len() - 1 {
        assert(t =~= s.drop_last());
    } else {
        lemma_weight_remove(s.drop_last(), i);
        assert(t.drop_last() =~= s.drop_last().remove(i));
    }
}

/// Partitioning conserves sold coretime: a region's lanes times its
/// duration equal the same lanes over the two time spans a partition cuts
/// it into.
pub proof fn lemma_partition_weight(m: CoreMask, b: int, p: int, e: int)
    requires
        b < p < e,
    ensures
        mask_ones(m.bits) * (e - b) == mask_ones(m.bits) * (p - b) + mask_ones(m.bits) * (e - p),
{
    let ones = mask_ones(m.bits) as int;
    assert(ones * (e - b) == ones * (p - b) + ones * (e - p)) by (nonlinear_arith);
}

/// Interlacing conserves sold coretime: the pivot lanes and the remaining
/// lanes, over the same span, together weigh exactly the whole region.
pub proof fn lemma_interlace_weight(m: CoreMask, p: CoreMask, b: int, e: int)
    requires
        p.bits & m.bits == p.bits,
        b <= e,
    ensures
        mask_ones(p.bits) * (e - b) + mask_ones(m.bits & !p.bits) * (e - b) == mask_ones(m.bits)
            * (e - b),
{
    lemma_mask_split(m.bits, p.bits);
    let x = mask_ones(p.bits) as int;
    let y = mask_ones(m.bits & !p.bits) as int;
    let d = e - b;
    assert(x * d + y * d == (x + y) * d) by (nonlinear_arith);
}

/// The clamped fold of pool-ledger deltas, as the tick applies them when it
/// commits timeslices in order.
pub open spec fn pool_fold(size: int, ds: Seq<int>) -> int
    decreases ds.len(),
{
    if ds.len() == 0 {
        size
    } else {
        let x = pool_fold(size, ds.drop_last()) + ds.last();
        if x < 0 {
            0
        } else if x > u32::MAX {
            u32::MAX as int
        } else {
            x
        }
    }
}

/// The sum of a sequence of deltas.
pub open spec fn pool_sum(ds: Seq<int>) -> int
    decreases ds.len(),
{
    if ds.len() == 0 {
        0
    } else {
        pool_sum(ds.drop_last()) + ds.last()
    }
}

/// The pool ledger telescopes: as long as no intermediate total leaves the
/// lane-count range — and a consistent ledger never does, since lanes leave
/// the pool only after entering it — the pool size after committing a run
/// of timeslices is the starting size plus the net of everything that
/// entered and left.
pub proof fn lemma_pool_io_telescopes(size: int, ds: Seq<int>)
    requires
        0 <= size <= u32::MAX,
        forall|i: int|
            0 <= i < ds.len() ==> 0 <= #[trigger] pool_fold(size, ds.subrange(0, i)) + ds[i]
                <= u32::MAX,
    ensures
        pool_fold(size, ds) == size + pool_sum(ds),
    decreases ds.len(),
{
    if ds.len() > 0 {
        assert forall|i: int| 0 <= i < ds.drop_last().len() implies 0 <= #[trigger] pool_fold(
            size,
            ds.drop_last().subrange(0, i),
        ) + ds.drop_last()[i] <= u32::MAX by {
            assert(ds.drop_last().subrange(0, i) =~= ds.subrange(0, i));
        }
        lemma_pool_io_telescopes(size, ds.drop_last());
        assert(ds.subrange(0, ds.len() - 1) =~= ds.drop_last());
    }
}

/// Retaining away one mask and then another is retaining away their union.
pub proof fn lemma_retain_compose(s: Seq<ScheduleItem>, m1: u128, m2: u128)
    ensures
        sched_retain(sched_retain(s, m1), m2) == sched_retain(s, m1 | m2),
    decreases s.len(),
{
    if s.len() > 0 {
        lemma_retain_compose(s.drop_last(), m1, m2);
        let r0 = sched_retain(s.drop_last(), m1);
        let x = s.last().mask.bits;
        assert((x & (m1 | m2) == 0) == (x & m1 == 0 && x & m2 == 0)) by (bit_vector);
        if x & m1 == 0 {
            assert(r0.push(s.last()).drop_last() =~= r0);
        }
    }
}

/// Merging the two halves of an interlaced mask, one after the other, gives
/// every assignment the same effective lanes as merging the whole mask at
/// once: the effective schedule cannot tell the halves from the whole.
pub proof fn lemma_merge_interlaced(
    s: Seq<ScheduleItem>,
    m1: CoreMask,
    m2: CoreMask,
    m: CoreMask,
    a: CoreAssignment,
    q: CoreAssignment,
)
    requires
        m1.bits & m2.bits == 0,
        m.bits == m1.bits | m2.bits,
    ensures
        sched_task_bits(sched_merge_spec(sched_merge_spec(s, m1, a), m2, a), q)
            == sched_task_bits(sched_merge_spec(s, m, a), q),
{
    let it1 = ScheduleItem { mask: m1, assignment: a };
    let it2 = ScheduleItem { mask: m2, assignment: a };
    let itm = ScheduleItem { mask: m, assignment: a };
    let t1 = sched_merge_spec(s, m1, a);
    // The first piece survives the second merge: its mask avoids the other
    // half's lanes.
    assert(sched_retain(t1, m2.bits) =~= sched_retain(sched_retain(s, m1.bits), m2.bits).push(
        it1,
    )) by {
        assert(t1.drop_last() =~= sched_retain(s, m1.bits));
    }
    lemma_retain_compose(s, m1.bits, m2.bits);
    let base = sched_retain(s, m1.bits | m2.bits);
    let lhs = base.push(it1).push(it2);
    assert(sched_merge_spec(t1, m2, a) =~= lhs);
    let rhs = base.push(itm);
    assert(sched_merge_spec(s, m, a) =~= rhs);
    assert(lhs.drop_last() =~= base.push(it1));
    assert(base.push(it1).drop_last() =~= base);
    assert(rhs.drop_last() =~= base);
    let tb = sched_task_bits(base, q);
    let c1: u128 = if q == a {
        m1.bits
    } else {
        0
    };
    let c2: u128 = if q == a {
        m2.bits
    } else {
        0
    };
    let cm: u128 = if q == a {
        m.bits
    } else {
        0
    };
    assert(base.push(it1).last() == it1);
    assert(sched_task_bits(base.push(it1), q) == tb | c1);
    assert(lhs.last() == it2);
    assert(sched_task_bits(lhs, q) == (tb | c1) | c2);
    assert(rhs.last() == itm);
    assert(sched_task_bits(rhs, q) == tb | cm);
    if q == a {
        assert(forall|x: u128, y: u128, z: u128| #[trigger] ((x | y) | z) == x | (y | z))
            by (bit_vector);
    } else {
        assert(forall|x: u128| #[trigger] (x | 0) == x) by (bit_vector);
    }
}

/// The interlace round trip on the workplan: assigning the two halves of an
/// interlaced region, one after the other, leaves every key of the workplan
/// with the same effective lanes per assignment as assigning the unsplit
/// region. The partition round trip is `lemma_assign_compose`: the halves
/// of a partitioned region, assigned alike, compose to exactly the unsplit
/// assignment.
pub proof fn lemma_assign_interlaced(
    w: Map<WorkplanKey, Seq<ScheduleItem>>,
    b: int,
    e: int,
    core: CoreIndex,
    m1: CoreMask,
    m2: CoreMask,
    m: CoreMask,
    a: CoreAssignment,
    k: WorkplanKey,
    q: CoreAssignment,
)
    requires
        m1.bits & m2.bits == 0,
        m.bits == m1.bits | m2.bits,
        0 <= b,
        e <= 0x1_0000_0000,
    ensures
        ({
            let split = assign_effect(assign_effect(w, b, e, core, m1, a), b, e, core, m2, a);
            let whole = assign_effect(w, b, e, core, m, a);
            &&& split.dom() =~= whole.dom()
            &&& (whole.dom().contains(k) ==> sched_task_bits(split[k], q) == sched_task_bits(
                whole[k],
                q,
            ))
        }),
{
    let w1 = assign_effect(w, b, e, core, m1, a);
    let split = assign_effect(w1, b, e, core, m2, a);
    let whole = assign_effect(w, b, e, core, m, a);
    assert forall|x: WorkplanKey| split.dom().contains(x) == whole.dom().contains(x) by {
        lemma_assign_effect(w, b, e, core, m1, a, x);
        lemma_assign_effect(w1, b, e, core, m2, a, x);
        lemma_assign_effect(w, b, e, core, m, a, x);
    }
    lemma_assign_effect(w, b, e, core, m1, a, k);
    lemma_assign_effect(w1, b, e, core, m2, a, k);
    lemma_assign_effect(w, b, e, core, m, a, k);
    if whole.dom().contains(k) {
        if k.core == core && b <= k.timeslice < e {
            assert(wp_at(w1, k) == sched_merge_spec(wp_at(w, k), m1, a));
            lemma_merge_interlaced(wp_at(w, k), m1, m2, m, a, q);
        }
    }
}

} // verus!
