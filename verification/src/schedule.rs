//! Schedules: lists of (mask, assignment) entries over disjoint masks, and
//! the algebra the workplan compiler uses on them.

use vstd::prelude::*;
use crate::mask::{
    lemma_mask_ones_disjoint, lemma_mask_ones_le, mask_ones, CoreMask, FULL_MASK, MASK_BITS,
    PARTS_PER_BIT,
};
use crate::types::{AssignmentPart, CoreAssignment, Schedule, ScheduleItem};

verus! {

/// A well-formed schedule: every mask in range and non-void, all masks
/// pairwise disjoint.
pub open spec fn sched_wf(s: Seq<ScheduleItem>) -> bool {
    &&& forall|i: int|
        0 <= i < s.len() ==> (#[trigger] s[i]).mask.wf() && s[i].mask.bits != 0
    &&& forall|i: int, j: int|
        0 <= i < j < s.len() ==> (#[trigger] s[i]).mask.bits & (#[trigger] s[j]).mask.bits == 0
}

/// The union of all masks of a schedule.
pub open spec fn sched_union(s: Seq<ScheduleItem>) -> u128
    decreases s.len(),
{
    if s.len() == 0 {
        0
    } else {
        sched_union(s.drop_last()) | s.last().mask.bits
    }
}

/// The total number of lanes a schedule covers.
pub open spec fn sched_bits(s: Seq<ScheduleItem>) -> nat
    decreases s.len(),
{
    if s.len() == 0 {
        0
    } else {
        sched_bits(s.drop_last()) + s.last().mask.ones()
    }
}

/// The lanes a given assignment holds in a schedule.
pub open spec fn sched_task_bits(s: Seq<ScheduleItem>, a: CoreAssignment) -> u128
    decreases s.len(),
{
    if s.len() == 0 {
        0
    } else {
        sched_task_bits(s.drop_last(), a) | if s.last().assignment == a {
            s.last().mask.bits
        } else {
            0
        }
    }
}

/// The entries of a schedule disjoint from a mask, in order.
pub open spec fn sched_retain(s: Seq<ScheduleItem>, m: u128) -> Seq<ScheduleItem>
    decreases s.len(),
{
    if s.len() == 0 {
        s
    } else if s.last().mask.bits & m == 0 {
        sched_retain(s.drop_last(), m).push(s.last())
    } else {
        sched_retain(s.drop_last(), m)
    }
}

/// What merging an assignment over a mask into a schedule yields: the
/// entries it does not overlap, then the new entry.
pub open spec fn sched_merge_spec(
    s: Seq<ScheduleItem>,
    m: CoreMask,
    a: CoreAssignment,
) -> Seq<ScheduleItem> {
    sched_retain(s, m.bits).push(ScheduleItem { mask: m, assignment: a })
}

/// A mask disjoint from every entry is disjoint from their union.
pub proof fn lemma_union_disjoint(s: Seq<ScheduleItem>, x: u128)
    requires
        forall|i: int| 0 <= i < s.len() ==> x & (#[trigger] s[i]).mask.bits == 0,
    ensures
        x & sched_union(s) == 0,
    decreases s.len(),
{
    if s.len() == 0 {
        assert(x & 0 == 0) by (bit_vector);
    } else {
        assert(forall|i: int| 0 <= i < s.len() - 1 ==> #[trigger] s.drop_last()[i] == s[i]);
        lemma_union_disjoint(s.drop_last(), x);
        let u = sched_union(s.drop_last());
        let m = s.last().mask.bits;
        assert(x & (u | m) == 0) by (bit_vector)
            requires
                x & u == 0,
                x & m == 0,
        ;
    }
}

/// The union of a well-formed schedule's masks stays in range.
pub proof fn lemma_sched_union_wf(s: Seq<ScheduleItem>)
    requires
        forall|i: int| 0 <= i < s.len() ==> (#[trigger] s[i]).mask.wf(),
    ensures
        sched_union(s) <= FULL_MASK,
    decreases s.len(),
{
    if s.len() == 0 {
    } else {
        assert(forall|i: int| 0 <= i < s.len() - 1 ==> #[trigger] s.drop_last()[i] == s[i]);
        lemma_sched_union_wf(s.drop_last());
        let u = sched_union(s.drop_last());
        let m = s.last().mask.bits;
        assert(u <= 0xFFFF_FFFF_FFFF_FFFF_FFFFu128 && m <= 0xFFFF_FFFF_FFFF_FFFF_FFFFu128 ==> (u
            | m) <= 0xFFFF_FFFF_FFFF_FFFF_FFFFu128) by (bit_vector);
    }
}

/// Over disjoint entries, the lane counts add up to the count of the union.
pub proof fn lemma_sched_bits_union(s: Seq<ScheduleItem>)
    requires
        sched_wf(s),
    ensures
        sched_bits(s) == mask_ones(sched_union(s)),
    decreases s.len(),
{
    if s.len() == 0 {
        crate::mask::lemma_mask_ones_void();
    } else {
        assert(sched_wf(s.drop_last())) by {
            assert(forall|i: int| 0 <= i < s.len() - 1 ==> #[trigger] s.drop_last()[i] == s[i]);
        }
        lemma_sched_bits_union(s.drop_last());
        let m = s.last().mask.bits;
        assert(forall|i: int|
            0 <= i < s.len() - 1 ==> m & (#[trigger] s.drop_last()[i]).mask.bits == 0) by {
            assert(forall|i: int| 0 <= i < s.len() - 1 ==> #[trigger] s.drop_last()[i] == s[i]);
            assert(forall|i: int| 0 <= i < s.len() - 1 ==> (#[trigger] s[i]).mask.bits & m == 0);
            assert(forall|a: u128, b: u128| #[trigger] (a & b) == b & a) by (bit_vector);
        }
        lemma_union_disjoint(s.drop_last(), m);
        let u = sched_union(s.drop_last());
        assert(u & m == 0) by (bit_vector)
            requires
                m & u == 0,
        ;
        lemma_mask_ones_disjoint(u, m);
    }
}

/// A well-formed schedule covers at most the 80 lanes of its core. This is
/// the cap the workplan compiler guarantees for every workplan entry.
pub proof fn lemma_sched_bits_le(s: Seq<ScheduleItem>)
    requires
        sched_wf(s),
    ensures
        sched_bits(s) <= MASK_BITS,
{
    lemma_sched_bits_union(s);
    lemma_sched_union_wf(s);
    lemma_mask_ones_le(sched_union(s));
}

/// What `sched_retain` keeps: entries of the original, pairwise intact,
/// each disjoint from the removed mask.
pub proof fn lemma_retain_wf(s: Seq<ScheduleItem>, m: u128)
    requires
        sched_wf(s),
    ensures
        sched_wf(sched_retain(s, m)),
        forall|i: int|
            0 <= i < sched_retain(s, m).len() ==> (#[trigger] sched_retain(s, m)[i]).mask.bits & m
                == 0,
        sched_retain(s, m).len() <= s.len(),
        forall|i: int|
            0 <= i < sched_retain(s, m).len() ==> exists|j: int|
                0 <= j < s.len() && #[trigger] sched_retain(s, m)[i] == s[j],
    decreases s.len(),
{
    if s.len() > 0 {
        assert(sched_wf(s.drop_last())) by {
            assert(forall|i: int| 0 <= i < s.len() - 1 ==> #[trigger] s.drop_last()[i] == s[i]);
        }
        lemma_retain_wf(s.drop_last(), m);
        let r0 = sched_retain(s.drop_last(), m);
        if s.last().mask.bits & m == 0 {
            let r = r0.push(s.last());
            assert(forall|i: int| 0 <= i < r0.len() ==> #[trigger] r[i] == r0[i]);
            assert(forall|i: int|
                0 <= i < r0.len() ==> (#[trigger] r0[i]).mask.bits & s.last().mask.bits == 0) by {
                assert(forall|i: int|
                    0 <= i < r0.len() ==> exists|j: int|
                        0 <= j < s.drop_last().len() && #[trigger] r0[i] == s.drop_last()[j]);
                assert(forall|j: int|
                    0 <= j < s.len() - 1 ==> (#[trigger] s[j]).mask.bits & s.last().mask.bits
                        == 0);
                assert(forall|j: int|
                    0 <= j < s.len() - 1 ==> #[trigger] s.drop_last()[j] == s[j]);
            }
            assert(sched_wf(r));
            assert(forall|i: int|
                0 <= i < r.len() ==> exists|j: int| 0 <= j < s.len() && #[trigger] r[i] == s[j])
                by {
                assert(forall|i: int|
                    0 <= i < r0.len() ==> exists|j: int|
                        0 <= j < s.len() - 1 && #[trigger] r0[i] == s.drop_last()[j]);
                assert(forall|j: int|
                    0 <= j < s.len() - 1 ==> #[trigger] s.drop_last()[j] == s[j]);
                assert(r[r.len() - 1] == s[s.len() - 1]);
            }
        } else {
            assert(forall|i: int|
                0 <= i < r0.len() ==> exists|j: int|
                    0 <= j < s.len() - 1 && #[trigger] r0[i] == s.drop_last()[j]);
            assert(forall|j: int| 0 <= j < s.len() - 1 ==> #[trigger] s.drop_last()[j] == s[j]);
        }
    }
}

/// Merging a non-void mask into a well-formed schedule keeps it well-formed.
pub proof fn lemma_merge_wf(s: Seq<ScheduleItem>, m: CoreMask, a: CoreAssignment)
    requires
        sched_wf(s),
        m.wf(),
        m.bits != 0,
    ensures
        sched_wf(sched_merge_spec(s, m, a)),
{
    lemma_retain_wf(s, m.bits);
    let r = sched_retain(s, m.bits);
    let t = sched_merge_spec(s, m, a);
    assert(forall|i: int| 0 <= i < r.len() ==> #[trigger] t[i] == r[i]);
    assert(forall|i: int| 0 <= i < r.len() ==> (#[trigger] t[i]).mask.bits & m.bits == 0) by {
        assert(forall|i: int| 0 <= i < r.len() ==> (#[trigger] r[i]).mask.bits & m.bits == 0);
    }
}

/// Duplicate a schedule.
pub fn clone_schedule(s: &Schedule) -> (r: Schedule)
    ensures
        r@ == s@,
{
    let mut r: Schedule = Vec::new();
    let mut i: usize = 0;
    while i < s.len()
        invariant
            i <= s@.len(),
            r@ == s@.subrange(0, i as int),
        decreases s@.len() - i,
    {
        r.push(s[i]);
        proof {
            assert(r@ =~= s@.subrange(0, i + 1));
        }
        i = i + 1;
    }
    proof {
        assert(r@ =~= s@);
    }
    r
}

/// Check that a schedule is well-formed: masks in range, non-void, pairwise
/// disjoint.
pub fn schedule_ok(s: &Schedule) -> (r: bool)
    ensures
        r == sched_wf(s@),
{
    let mut i: usize = 0;
    while i < s.len()
        invariant
            i <= s@.len(),
            forall|x: int|
                0 <= x < i ==> (#[trigger] s@[x]).mask.wf() && s@[x].mask.bits != 0,
            forall|x: int, y: int|
                0 <= x < y < i ==> (#[trigger] s@[x]).mask.bits & (#[trigger] s@[y]).mask.bits
                    == 0,
        decreases s@.len() - i,
    {
        let it = s[i];
        if !(it.mask.bits <= FULL_MASK) || it.mask.bits == 0 {
            return false;
        }
        let mut j: usize = 0;
        while j < i
            invariant
                j <= i,
                i < s@.len(),
                it == s@[i as int],
                forall|y: int|
                    0 <= y < j ==> (#[trigger] s@[y]).mask.bits & s@[i as int].mask.bits == 0,
            decreases i - j,
        {
            if s[j].mask.bits & it.mask.bits != 0 {
                return false;
            }
            j = j + 1;
        }
        i = i + 1;
    }
    true
}

/// Merge an assignment over a mask into a schedule: entries overlapping the
/// mask give way to the new entry.
pub fn sched_merge(s: &Schedule, m: CoreMask, a: CoreAssignment) -> (r: Schedule)
    ensures
        r@ == sched_merge_spec(s@, m, a),
{
    let mut r: Schedule = Vec::new();
    let mut i: usize = 0;
    while i < s.len()
        invariant
            i <= s@.len(),
            r@ == sched_retain(s@.subrange(0, i as int), m.bits),
        decreases s@.len() - i,
    {
        proof {
            assert(s@.subrange(0, i + 1).drop_last() =~= s@.subrange(0, i as int));
            assert(s@.subrange(0, i + 1).last() == s@[i as int]);
        }
        if s[i].mask.bits & m.bits == 0 {
            r.push(s[i]);
        }
        i = i + 1;
    }
    proof {
        assert(s@.subrange(0, s@.len() as int) =~= s@);
    }
    r.push(ScheduleItem { mask: m, assignment: a });
    r
}

/// Turn a schedule into the relay's parts-of-57600 form, padding what the
/// masks do not cover with an idle entry.
pub fn sched_to_parts(s: &Schedule) -> (r: Vec<AssignmentPart>)
    requires
        sched_wf(s@),
    ensures
        r@ == parts_spec(s@),
{
    let mut r: Vec<AssignmentPart> = Vec::new();
    let mut used: u32 = 0;
    let mut i: usize = 0;
    proof {
        lemma_sched_bits_le(s@);
        assert(sched_prefix_wf(s@, 0));
    }
    while i < s.len()
        invariant
            i <= s@.len(),
            sched_wf(s@),
            used == sched_bits(s@.subrange(0, i as int)),
            used <= MASK_BITS,
            r@ == parts_items(s@.subrange(0, i as int)),
        decreases s@.len() - i,
    {
        let it = s[i];
        proof {
            assert(s@.subrange(0, i + 1).drop_last() =~= s@.subrange(0, i as int));
            assert(s@.subrange(0, i + 1).last() == s@[i as int]);
            lemma_sched_bits_prefix(s@, i as int + 1);
        }
        let ones = it.mask.count_ones();
        r.push(
            AssignmentPart { assignment: it.assignment, parts: it.mask.parts_of_57600() },
        );
        used = used + ones;
        i = i + 1;
    }
    proof {
        assert(s@.subrange(0, s@.len() as int) =~= s@);
    }
    if used < MASK_BITS {
        let idle: u16 = ((MASK_BITS - used) as u16) * PARTS_PER_BIT;
        proof {
            assert((MASK_BITS - used) * PARTS_PER_BIT <= 80 * 720) by (nonlinear_arith)
                requires
                    MASK_BITS - used <= 80,
                    MASK_BITS == 80,
                    PARTS_PER_BIT == 720,
            ;
        }
        r.push(AssignmentPart { assignment: CoreAssignment::Idle, parts: idle });
    }
    r
}

/// The parts-of-57600 form of a schedule's entries, without padding.
pub open spec fn parts_items(s: Seq<ScheduleItem>) -> Seq<AssignmentPart>
    decreases s.len(),
{
    if s.len() == 0 {
        Seq::empty()
    } else {
        parts_items(s.drop_last()).push(
            AssignmentPart {
                assignment: s.last().assignment,
                parts: (s.last().mask.ones() * PARTS_PER_BIT) as u16,
            },
        )
    }
}

/// The parts-of-57600 form of a schedule, idle-padded to the full 57600.
pub open spec fn parts_spec(s: Seq<ScheduleItem>) -> Seq<AssignmentPart> {
    if sched_bits(s) < MASK_BITS {
        parts_items(s).push(
            AssignmentPart {
                assignment: CoreAssignment::Idle,
                parts: ((MASK_BITS - sched_bits(s)) * PARTS_PER_BIT) as u16,
            },
        )
    } else {
        parts_items(s)
    }
}

/// Every prefix of a well-formed schedule is well-formed.
pub open spec fn sched_prefix_wf(s: Seq<ScheduleItem>, i: int) -> bool {
    0 <= i <= s.len() && sched_wf(s.subrange(0, i))
}

/// A prefix covers no more lanes than the whole.
pub proof fn lemma_sched_bits_prefix(s: Seq<ScheduleItem>, i: int)
    requires
        sched_wf(s),
        0 <= i <= s.len(),
    ensures
        sched_bits(s.subrange(0, i)) <= sched_bits(s),
        sched_bits(s.subrange(0, i)) <= MASK_BITS,
    decreases s.len() - i,
{
    if i == s.len() {
        assert(s.subrange(0, i) =~= s);
        lemma_sched_bits_le(s);
    } else {
        lemma_sched_bits_prefix(s, i + 1);
        assert(s.subrange(0, i + 1).drop_last() =~= s.subrange(0, i));
    }
}


/// Keep only the entries of a schedule disjoint from a mask.
pub fn sched_drop_overlaps(s: &Schedule, m: CoreMask) -> (r: Schedule)
    ensures
        r@ == sched_retain(s@, m.bits),
{
    let mut r: Schedule = Vec::new();
    let mut i: usize = 0;
    while i < s.len()
        invariant
            i <= s@.len(),
            r@ == sched_retain(s@.subrange(0, i as int), m.bits),
        decreases s@.len() - i,
    {
        proof {
            assert(s@.subrange(0, i + 1).drop_last() =~= s@.subrange(0, i as int));
            assert(s@.subrange(0, i + 1).last() == s@[i as int]);
        }
        if s[i].mask.bits & m.bits == 0 {
            r.push(s[i]);
        }
        i = i + 1;
    }
    proof {
        assert(s@.subrange(0, s@.len() as int) =~= s@);
    }
    r
}

} // verus!
