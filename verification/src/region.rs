//! The region algebra: transfer, partition, interlace, assignment and
//! pooling of bulk coretime regions.

use vstd::prelude::*;
use crate::broker::Broker;
use crate::mask::CoreMask;
use crate::schedule::{sched_merge, sched_merge_spec, sched_wf};
use crate::store::{
    amap, lemma_amap_absent, lemma_amap_index, region_remove, region_set, ukeys, work_index,
    work_set,
};
use crate::types::{
    AccountId, Balance, CompletionStatus, ContributionRecord, CoreAssignment, CoreIndex, Error,
    Event, Finality, PoolIoRecord, PotentialRenewalId, PotentialRenewalRecord, RegionId,
    RegionRecord, Schedule,
    ScheduleItem, TaskId, Timeslice, WorkplanKey,
};
use crate::mask::FULL_MASK;
use crate::pricing::sat128;

verus! {

/// Does the caller hold the region? A caller of `None` stands for the
/// admin origin and may manipulate any region.
pub open spec fn owner_ok(rec: RegionRecord, maybe_who: Option<AccountId>) -> bool {
    match maybe_who {
        None => true,
        Some(w) => rec.owner == Some(w),
    }
}

/// The view of a workplan vector as a map to schedules.
pub open spec fn wp_view(v: Seq<(WorkplanKey, Schedule)>) -> Map<WorkplanKey, Seq<ScheduleItem>> {
    amap(v).map_values(|s: Schedule| s@)
}

/// The schedule a workplan holds at a key, or the empty schedule.
pub open spec fn wp_at(w: Map<WorkplanKey, Seq<ScheduleItem>>, k: WorkplanKey) -> Seq<
    ScheduleItem,
> {
    if w.dom().contains(k) {
        w[k]
    } else {
        Seq::empty()
    }
}

/// The workplan after an assignment over a mask is merged into every
/// timeslice of `[b, e)` on one core.
pub open spec fn assign_effect(
    w: Map<WorkplanKey, Seq<ScheduleItem>>,
    b: int,
    e: int,
    core: CoreIndex,
    m: CoreMask,
    a: CoreAssignment,
) -> Map<WorkplanKey, Seq<ScheduleItem>>
    decreases e - b,
{
    if b >= e {
        w
    } else {
        let k = WorkplanKey { timeslice: b as u32, core };
        assign_effect(w.insert(k, sched_merge_spec(wp_at(w, k), m, a)), b + 1, e, core, m, a)
    }
}

/// What `assign_effect` does at each key: inside the span it merges the
/// new assignment into whatever was planned; outside it changes nothing.
pub proof fn lemma_assign_effect(
    w: Map<WorkplanKey, Seq<ScheduleItem>>,
    b: int,
    e: int,
    core: CoreIndex,
    m: CoreMask,
    a: CoreAssignment,
    k: WorkplanKey,
)
    requires
        0 <= b,
        e <= 0x1_0000_0000,
    ensures
        k.core == core && b <= k.timeslice < e ==> {
            &&& assign_effect(w, b, e, core, m, a).dom().contains(k)
            &&& assign_effect(w, b, e, core, m, a)[k] == sched_merge_spec(wp_at(w, k), m, a)
        },
        !(k.core == core && b <= k.timeslice < e) ==> {
            &&& assign_effect(w, b, e, core, m, a).dom().contains(k) == w.dom().contains(k)
            &&& w.dom().contains(k) ==> assign_effect(w, b, e, core, m, a)[k] == w[k]
        },
    decreases e - b,
{
    if b < e {
        let kb = WorkplanKey { timeslice: b as u32, core };
        let w1 = w.insert(kb, sched_merge_spec(wp_at(w, kb), m, a));
        lemma_assign_effect(w1, b + 1, e, core, m, a, k);
    }
}

/// Assigning over `[b, mid)` and then over `[mid, e)` is assigning over
/// `[b, e)`: the time axis of the workplan composes. In particular the two
/// halves of a partitioned region, assigned alike, compile to the same
/// workplan as the unsplit region.
pub proof fn lemma_assign_compose(
    w: Map<WorkplanKey, Seq<ScheduleItem>>,
    b: int,
    mid: int,
    e: int,
    core: CoreIndex,
    m: CoreMask,
    a: CoreAssignment,
)
    requires
        b <= mid <= e,
    ensures
        assign_effect(assign_effect(w, b, mid, core, m, a), mid, e, core, m, a) == assign_effect(
            w,
            b,
            e,
            core,
            m,
            a,
        ),
    decreases mid - b,
{
    if b < mid {
        let kb = WorkplanKey { timeslice: b as u32, core };
        let w1 = w.insert(kb, sched_merge_spec(wp_at(w, kb), m, a));
        lemma_assign_compose(w1, b + 1, mid, e, core, m, a);
    }
}

/// Merge an assignment over a mask into the workplan entry at one key.
fn workplan_merge(
    v: &mut Vec<(WorkplanKey, Schedule)>,
    k: WorkplanKey,
    m: CoreMask,
    a: CoreAssignment,
)
    requires
        ukeys(old(v)@),
        forall|i: int| 0 <= i < old(v)@.len() ==> sched_wf((#[trigger] old(v)@[i]).1@),
        m.wf(),
        m.bits != 0,
    ensures
        ukeys(final(v)@),
        forall|i: int| 0 <= i < final(v)@.len() ==> sched_wf((#[trigger] final(v)@[i]).1@),
        wp_view(final(v)@) == wp_view(old(v)@).insert(
            k,
            sched_merge_spec(wp_at(wp_view(old(v)@), k), m, a),
        ),
        final(v)@.len() <= old(v)@.len() + 1,
{
    let ghost w0 = wp_view(v@);
    let idx = work_index(v, k);
    let merged: Schedule = match idx {
        Some(i) => {
            proof {
                lemma_amap_index(v@, i as int);
            }
            sched_merge(&v[i].1, m, a)
        },
        None => {
            proof {
                lemma_amap_absent(v@, k);
            }
            let empty: Schedule = Vec::new();
            sched_merge(&empty, m, a)
        },
    };
    proof {
        assert(merged@ == sched_merge_spec(wp_at(w0, k), m, a));
        crate::schedule::lemma_merge_wf(wp_at(w0, k), m, a);
        if idx is Some {
            let i = idx->0;
            assert(sched_wf(v@[i as int].1@));
        } else {
            assert(wp_at(w0, k) =~= Seq::<ScheduleItem>::empty());
        }
    }
    work_set(v, k, merged);
    proof {
        assert(wp_view(v@) =~= w0.insert(k, sched_merge_spec(wp_at(w0, k), m, a)));
    }
}


/// Clamp an unbounded count into the signed 64-bit range.
pub open spec fn sat64(x: int) -> i64 {
    if x > i64::MAX {
        i64::MAX
    } else if x < i64::MIN {
        i64::MIN
    } else {
        x as i64
    }
}

/// Saturating addition of signed counts.
fn sat_add_i64(a: i64, b: i64) -> (r: i64)
    ensures
        r == sat64(a + b),
{
    match a.checked_add(b) {
        Some(x) => x,
        None => if b >= 0 {
            i64::MAX
        } else {
            i64::MIN
        },
    }
}

/// The timeslice an assignment of this region effectively starts at: its
/// begin, but no earlier than the first uncommitted timeslice.
pub open spec fn effective_begin(pre: Broker, region_id: RegionId) -> int {
    let lc = pre.status->Some_0.last_committed_timeslice as int;
    if region_id.begin > lc + 1 {
        region_id.begin as int
    } else {
        lc + 1
    }
}

/// How `assign` changes the potential renewals: a finally assigned,
/// purchased region accrues its mask and price towards the renewal record
/// of its core at its end; when the masks reach the full core the record
/// completes, carrying the core's now fully planned schedule.
pub open spec fn renewal_after_assign(
    pre: Broker,
    post: Broker,
    region_id: RegionId,
    rec: RegionRecord,
    b: int,
) -> bool {
    match rec.paid {
        None => post.potential_renewals@ == pre.potential_renewals@,
        Some(p) => {
            let rid = PotentialRenewalId { core: region_id.core, when: rec.end };
            let known = pre.renewals_map().dom().contains(rid);
            if known && !(pre.renewals_map()[rid].completion is Partial) {
                post.potential_renewals@ == pre.potential_renewals@
            } else {
                let price0: Balance = if known {
                    pre.renewals_map()[rid].price
                } else {
                    0
                };
                let m0: u128 = if known {
                    pre.renewals_map()[rid].completion->Partial_0.bits
                } else {
                    0
                };
                let m1 = m0 | region_id.mask.bits;
                let price1 = sat128(price0 + p);
                &&& post.renewals_map().dom() =~= pre.renewals_map().dom().insert(rid)
                &&& forall|x: PotentialRenewalId|
                    x != rid && pre.renewals_map().dom().contains(x) ==> post.renewals_map()[x]
                        == pre.renewals_map()[x]
                &&& post.renewals_map()[rid].price == price1
                &&& m1 == FULL_MASK ==> (post.renewals_map()[rid].completion matches
                    CompletionStatus::Complete(w) && w@ == wp_at(
                    post.workplan_map(),
                    WorkplanKey { timeslice: b as u32, core: region_id.core },
                ))
                &&& m1 != FULL_MASK ==> post.renewals_map()[rid].completion
                    == CompletionStatus::Partial(CoreMask { bits: m1 })
            }
        },
    }
}

/// Whether `assign` on this region completed a renewal record.
pub open spec fn assign_completes_renewal(pre: Broker, region_id: RegionId, rec: RegionRecord) -> bool {
    match rec.paid {
        None => false,
        Some(p) => {
            let rid = PotentialRenewalId { core: region_id.core, when: rec.end };
            let known = pre.renewals_map().dom().contains(rid);
            if known && !(pre.renewals_map()[rid].completion is Partial) {
                false
            } else {
                let m0: u128 = if known {
                    pre.renewals_map()[rid].completion->Partial_0.bits
                } else {
                    0
                };
                (m0 | region_id.mask.bits) == FULL_MASK
            }
        },
    }
}

/// What a successful `assign` does.
///
/// A region whose time has fully passed is simply dropped. Otherwise the
/// task is merged into the workplan over the region's remaining span; a
/// final assignment consumes the region record and, if the region was
/// purchased, accrues towards a renewal.
pub open spec fn assign_ok_post(
    pre: Broker,
    post: Broker,
    ev: Seq<Event>,
    region_id: RegionId,
    task: TaskId,
    finality: Finality,
) -> bool {
    let rec = pre.regions_map()[region_id];
    let b = effective_begin(pre, region_id);
    if b >= rec.end {
        &&& post == (Broker { regions: post.regions, ..pre })
        &&& post.regions_map() == pre.regions_map().remove(region_id)
        &&& ev =~= seq![
            Event::RegionDropped {
                region_id,
                duration: (rec.end - region_id.begin) as Timeslice,
            },
        ]
    } else {
        &&& post.workplan_map() == assign_effect(
            pre.workplan_map(),
            b,
            rec.end as int,
            region_id.core,
            region_id.mask,
            CoreAssignment::Task(task),
        )
        &&& post == (Broker {
            workplan: post.workplan,
            regions: post.regions,
            potential_renewals: post.potential_renewals,
            ..pre
        })
        &&& finality == Finality::Provisional ==> post.regions@ == pre.regions@
            && post.potential_renewals@ == pre.potential_renewals@
        &&& finality == Finality::Final ==> post.regions_map() == pre.regions_map().remove(
            region_id,
        ) && renewal_after_assign(pre, post, region_id, rec, b)
        &&& ev.len() >= 1
        &&& ev[0] == Event::Assigned {
            region_id: RegionId { begin: b as Timeslice, ..region_id },
            duration: (rec.end - b) as Timeslice,
            task,
        }
        &&& if finality == Finality::Final && assign_completes_renewal(pre, region_id, rec) {
            let rid = PotentialRenewalId { core: region_id.core, when: rec.end };
            let key = WorkplanKey { timeslice: b as u32, core: region_id.core };
            ev.len() == 2 && (ev[1] matches Event::Renewable { core, price, begin, workload }
                && core == region_id.core && begin == rec.end && price == post.renewals_map()[
                rid].price && workload@ == wp_at(post.workplan_map(), key))
        } else {
            ev.len() == 1
        }
    }
}

/// What a successful `pool` does: like `assign` with the pool as the
/// assignee, plus a contribution record and the in-and-out ledger entries
/// that will move the region's lanes into the pool at its begin and out at
/// its end. A region owned by nobody counts as a system contribution.
pub open spec fn pool_ok_post(
    pre: Broker,
    post: Broker,
    ev: Seq<Event>,
    region_id: RegionId,
    payee: AccountId,
    finality: Finality,
) -> bool {
    let rec = pre.regions_map()[region_id];
    let b = effective_begin(pre, region_id);
    if b >= rec.end {
        &&& post == (Broker { regions: post.regions, ..pre })
        &&& post.regions_map() == pre.regions_map().remove(region_id)
        &&& ev =~= seq![
            Event::RegionDropped {
                region_id,
                duration: (rec.end - region_id.begin) as Timeslice,
            },
        ]
    } else {
        let bits = region_id.mask.ones() as int;
        let io_b = if pre.pool_io_map().dom().contains(b as Timeslice) {
            pre.pool_io_map()[b as Timeslice]
        } else {
            PoolIoRecord { private: 0, system: 0 }
        };
        let io_e = if pre.pool_io_map().dom().contains(rec.end) {
            pre.pool_io_map()[rec.end]
        } else {
            PoolIoRecord { private: 0, system: 0 }
        };
        let private = rec.owner is Some;
        let io_b1 = if private {
            PoolIoRecord { private: sat64(io_b.private + bits), system: io_b.system }
        } else {
            PoolIoRecord { private: io_b.private, system: sat64(io_b.system + bits) }
        };
        let io_e1 = if private {
            PoolIoRecord { private: sat64(io_e.private - bits), system: io_e.system }
        } else {
            PoolIoRecord { private: io_e.private, system: sat64(io_e.system - bits) }
        };
        let trimmed = RegionId { begin: b as Timeslice, ..region_id };
        &&& post.workplan_map() == assign_effect(
            pre.workplan_map(),
            b,
            rec.end as int,
            region_id.core,
            region_id.mask,
            CoreAssignment::Pool,
        )
        &&& post.pool_io_map() == pre.pool_io_map().insert(b as Timeslice, io_b1).insert(
            rec.end,
            io_e1,
        )
        &&& post.contributions_map() == pre.contributions_map().insert(
            trimmed,
            ContributionRecord { length: (rec.end - b) as Timeslice, payee },
        )
        &&& post == (Broker {
            workplan: post.workplan,
            regions: post.regions,
            insta_pool_io: post.insta_pool_io,
            insta_pool_contribution: post.insta_pool_contribution,
            ..pre
        })
        &&& finality == Finality::Provisional ==> post.regions@ == pre.regions@
        &&& finality == Finality::Final ==> post.regions_map() == pre.regions_map().remove(
            region_id,
        )
        &&& ev =~= seq![
            Event::Pooled { region_id: trimmed, duration: (rec.end - b) as Timeslice },
        ]
    }
}

impl Broker {
    /// Give a region to a new owner.
    ///
    /// Fails with `UnknownRegion` when the region is not known and with
    /// `NotOwner` when the caller neither owns it nor is the admin; nothing
    /// changes then.
    pub fn transfer(
        &mut self,
        region_id: RegionId,
        maybe_who: Option<AccountId>,
        new_owner: AccountId,
    ) -> (r: Result<Vec<Event>, Error>)
        requires
            old(self).wf(),
        ensures
            final(self).wf(),
            match r {
                Ok(ev) => {
                    let rec = old(self).regions_map()[region_id];
                    &&& old(self).regions_map().dom().contains(region_id)
                    &&& owner_ok(rec, maybe_who)
                    &&& final(self).regions_map() == old(self).regions_map().insert(
                        region_id,
                        RegionRecord { owner: Some(new_owner), ..rec },
                    )
                    &&& *final(self) == (Broker { regions: final(self).regions, ..*old(self) })
                    &&& ev@ =~= seq![
                        Event::Transferred {
                            region_id,
                            duration: (rec.end - region_id.begin) as Timeslice,
                            old_owner: rec.owner,
                            owner: Some(new_owner),
                        },
                    ]
                },
                Err(e) => *final(self) == *old(self) && match e {
                    Error::UnknownRegion => !old(self).regions_map().dom().contains(region_id),
                    Error::NotOwner => old(self).regions_map().dom().contains(region_id)
                        && !owner_ok(old(self).regions_map()[region_id], maybe_who),
                    _ => false,
                },
            },
    {
        let idx = crate::store::region_index(&self.regions, region_id);
        let i = match idx {
            Some(i) => i,
            None => {
                proof {
                    lemma_amap_absent(self.regions@, region_id);
                }
                return Err(Error::UnknownRegion);
            },
        };
        proof {
            lemma_amap_index(self.regions@, i as int);
        }
        let rec = self.regions[i].1;
        if let Some(w) = maybe_who {
            if rec.owner != Some(w) {
                return Err(Error::NotOwner);
            }
        }
        let old_owner = rec.owner;
        let duration = rec.end - region_id.begin;
        region_set(&mut self.regions, region_id, RegionRecord { owner: Some(new_owner), ..rec });
        Ok(
            vec![
                Event::Transferred { region_id, duration, old_owner, owner: Some(new_owner) },
            ],
        )
    }

    /// Split a region in two along time, at `pivot_offset` timeslices into
    /// it. Both pieces keep the owner; neither can be renewed.
    ///
    /// Fails with `UnknownRegion` or `NotOwner` as `transfer` does, with
    /// `PivotTooEarly` when the offset is zero, and with `PivotTooLate` when
    /// the pivot would not fall strictly inside the region.
    pub fn partition(
        &mut self,
        region_id: RegionId,
        maybe_who: Option<AccountId>,
        pivot_offset: Timeslice,
    ) -> (r: Result<Vec<Event>, Error>)
        requires
            old(self).wf(),
        ensures
            final(self).wf(),
            match r {
                Ok(ev) => {
                    let rec = old(self).regions_map()[region_id];
                    let pivot = region_id.begin + pivot_offset;
                    let id2 = RegionId { begin: pivot as Timeslice, ..region_id };
                    &&& old(self).regions_map().dom().contains(region_id)
                    &&& owner_ok(rec, maybe_who)
                    &&& 0 < pivot_offset
                    &&& pivot < rec.end
                    &&& final(self).regions_map() == old(self).regions_map().insert(
                        region_id,
                        RegionRecord { end: pivot as Timeslice, owner: rec.owner, paid: None },
                    ).insert(id2, RegionRecord { end: rec.end, owner: rec.owner, paid: None })
                    &&& *final(self) == (Broker { regions: final(self).regions, ..*old(self) })
                    &&& (!old(self).regions_map().dom().contains(id2)
                        ==> crate::laws::regions_weight(final(self).regions@)
                        == crate::laws::regions_weight(old(self).regions@))
                    &&& ev@ =~= seq![
                        Event::Partitioned {
                            old_region_id: region_id,
                            new_region_first: region_id,
                            new_region_second: id2,
                        },
                    ]
                },
                Err(e) => *final(self) == *old(self) && match e {
                    Error::UnknownRegion => !old(self).regions_map().dom().contains(region_id),
                    Error::NotOwner => old(self).regions_map().dom().contains(region_id)
                        && !owner_ok(old(self).regions_map()[region_id], maybe_who),
                    Error::PivotTooEarly => old(self).regions_map().dom().contains(region_id)
                        && owner_ok(old(self).regions_map()[region_id], maybe_who) && pivot_offset
                        == 0,
                    Error::PivotTooLate => old(self).regions_map().dom().contains(region_id)
                        && owner_ok(old(self).regions_map()[region_id], maybe_who) && pivot_offset
                        > 0 && region_id.begin + pivot_offset
                        >= old(self).regions_map()[region_id].end,
                    _ => false,
                },
            },
    {
        let idx = crate::store::region_index(&self.regions, region_id);
        let i = match idx {
            Some(i) => i,
            None => {
                proof {
                    lemma_amap_absent(self.regions@, region_id);
                }
                return Err(Error::UnknownRegion);
            },
        };
        proof {
            lemma_amap_index(self.regions@, i as int);
        }
        let rec = self.regions[i].1;
        if let Some(w) = maybe_who {
            if rec.owner != Some(w) {
                return Err(Error::NotOwner);
            }
        }
        if pivot_offset == 0 {
            return Err(Error::PivotTooEarly);
        }
        if region_id.begin as u64 + pivot_offset as u64 >= rec.end as u64 {
            return Err(Error::PivotTooLate);
        }
        let pivot: Timeslice = region_id.begin + pivot_offset;
        let id2 = RegionId { begin: pivot, ..region_id };
        let ghost s0 = self.regions@;
        let rec1 = RegionRecord { end: pivot, owner: rec.owner, paid: None };
        let rec2 = RegionRecord { end: rec.end, owner: rec.owner, paid: None };
        region_set(&mut self.regions, region_id, rec1);
        let ghost s1 = self.regions@;
        region_set(&mut self.regions, id2, rec2);
        proof {
            let i1 = choose|i: int|
                0 <= i < s0.len() && (#[trigger] s0[i]).0 == region_id && s1 == s0.update(
                    i,
                    (region_id, rec1),
                );
            lemma_amap_index(s0, i1);
            crate::laws::lemma_weight_update(s0, i1, region_id, rec1);
            if !amap(s0).dom().contains(id2) {
                if exists|i: int|
                    0 <= i < s1.len() && (#[trigger] s1[i]).0 == id2 && self.regions@
                        == s1.update(i, (id2, rec2)) {
                    let i2 = choose|i: int|
                        0 <= i < s1.len() && (#[trigger] s1[i]).0 == id2 && self.regions@
                            == s1.update(i, (id2, rec2));
                    lemma_amap_index(s1, i2);
                    assert(false);
                }
                crate::laws::lemma_weight_push(s1, id2, rec2);
                crate::laws::lemma_partition_weight(
                    region_id.mask,
                    region_id.begin as int,
                    pivot as int,
                    rec.end as int,
                );
            }
        }
        Ok(
            vec![
                Event::Partitioned {
                    old_region_id: region_id,
                    new_region_first: region_id,
                    new_region_second: id2,
                },
            ],
        )
    }

    /// Split a region in two along its mask: one piece takes the pivot
    /// lanes, the other the rest. Both keep the owner and the purchase
    /// record, so finally assigning all pieces can still earn a renewal.
    ///
    /// Fails with `UnknownRegion` or `NotOwner` as `transfer` does, with
    /// `ExteriorPivot` when the pivot is not contained in the region's mask,
    /// with `VoidPivot` when it is empty, and with `CompletePivot` when it
    /// is the whole mask.
    pub fn interlace(
        &mut self,
        region_id: RegionId,
        maybe_who: Option<AccountId>,
        pivot: CoreMask,
    ) -> (r: Result<Vec<Event>, Error>)
        requires
            old(self).wf(),
        ensures
            final(self).wf(),
            match r {
                Ok(ev) => {
                    let rec = old(self).regions_map()[region_id];
                    let id1 = RegionId { mask: pivot, ..region_id };
                    let id2 = RegionId {
                        mask: CoreMask { bits: region_id.mask.bits & !pivot.bits },
                        ..region_id
                    };
                    &&& old(self).regions_map().dom().contains(region_id)
                    &&& owner_ok(rec, maybe_who)
                    &&& pivot.bits & region_id.mask.bits == pivot.bits
                    &&& pivot.bits != 0
                    &&& pivot.bits != region_id.mask.bits
                    &&& final(self).regions_map() == old(self).regions_map().remove(
                        region_id,
                    ).insert(id1, rec).insert(id2, rec)
                    &&& *final(self) == (Broker { regions: final(self).regions, ..*old(self) })
                    &&& (!old(self).regions_map().dom().contains(id1) && !old(
                        self,
                    ).regions_map().dom().contains(id2)
                        ==> crate::laws::regions_weight(final(self).regions@)
                        == crate::laws::regions_weight(old(self).regions@))
                    &&& ev@ =~= seq![
                        Event::Interlaced {
                            old_region_id: region_id,
                            new_region_first: id1,
                            new_region_second: id2,
                        },
                    ]
                },
                Err(e) => *final(self) == *old(self) && match e {
                    Error::UnknownRegion => !old(self).regions_map().dom().contains(region_id),
                    Error::NotOwner => old(self).regions_map().dom().contains(region_id)
                        && !owner_ok(old(self).regions_map()[region_id], maybe_who),
                    Error::ExteriorPivot => old(self).regions_map().dom().contains(region_id)
                        && owner_ok(old(self).regions_map()[region_id], maybe_who) && pivot.bits
                        & region_id.mask.bits != pivot.bits,
                    Error::VoidPivot => old(self).regions_map().dom().contains(region_id)
                        && owner_ok(old(self).regions_map()[region_id], maybe_who) && pivot.bits
                        & region_id.mask.bits == pivot.bits && pivot.bits == 0,
                    Error::CompletePivot => old(self).regions_map().dom().contains(region_id)
                        && owner_ok(old(self).regions_map()[region_id], maybe_who) && pivot.bits
                        & region_id.mask.bits == pivot.bits && pivot.bits != 0 && pivot.bits
                        == region_id.mask.bits,
                    _ => false,
                },
            },
    {
        let idx = crate::store::region_index(&self.regions, region_id);
        let i = match idx {
            Some(i) => i,
            None => {
                proof {
                    lemma_amap_absent(self.regions@, region_id);
                }
                return Err(Error::UnknownRegion);
            },
        };
        proof {
            lemma_amap_index(self.regions@, i as int);
        }
        let rec = self.regions[i].1;
        if let Some(w) = maybe_who {
            if rec.owner != Some(w) {
                return Err(Error::NotOwner);
            }
        }
        if pivot.bits & region_id.mask.bits != pivot.bits {
            return Err(Error::ExteriorPivot);
        }
        if pivot.bits == 0 {
            return Err(Error::VoidPivot);
        }
        if pivot.bits == region_id.mask.bits {
            return Err(Error::CompletePivot);
        }
        let rest = CoreMask { bits: region_id.mask.bits & !pivot.bits };
        proof {
            let p = pivot.bits;
            let m = region_id.mask.bits;
            assert(p & m == p && p != 0 && p != m ==> (m & !p) != 0 && p != (m & !p) && (m & !p)
                <= m) by (bit_vector);
            assert(p & m == p && p != 0 ==> (m & !p) != m) by (bit_vector);
            assert(p & m == p && m <= 0xFFFF_FFFF_FFFF_FFFF_FFFFu128 ==> p
                <= 0xFFFF_FFFF_FFFF_FFFF_FFFFu128) by (bit_vector);
        }
        let id1 = RegionId { mask: pivot, ..region_id };
        let id2 = RegionId { mask: rest, ..region_id };
        let ghost s0 = self.regions@;
        region_remove(&mut self.regions, region_id);
        let ghost s1 = self.regions@;
        region_set(&mut self.regions, id1, rec);
        let ghost s2 = self.regions@;
        region_set(&mut self.regions, id2, rec);
        proof {
            let ir = choose|j: int|
                0 <= j < s0.len() && (#[trigger] s0[j]) == (region_id, rec) && s1 == s0.remove(j);
            crate::laws::lemma_weight_remove(s0, ir);
            if !amap(s0).dom().contains(id1) && !amap(s0).dom().contains(id2) {
                if exists|j: int|
                    0 <= j < s1.len() && (#[trigger] s1[j]).0 == id1 && s2 == s1.update(
                        j,
                        (id1, rec),
                    ) {
                    let j1 = choose|j: int|
                        0 <= j < s1.len() && (#[trigger] s1[j]).0 == id1 && s2 == s1.update(
                            j,
                            (id1, rec),
                        );
                    lemma_amap_index(s1, j1);
                    assert(false);
                }
                crate::laws::lemma_weight_push(s1, id1, rec);
                if exists|j: int|
                    0 <= j < s2.len() && (#[trigger] s2[j]).0 == id2 && self.regions@
                        == s2.update(j, (id2, rec)) {
                    let j2 = choose|j: int|
                        0 <= j < s2.len() && (#[trigger] s2[j]).0 == id2 && self.regions@
                            == s2.update(j, (id2, rec));
                    lemma_amap_index(s2, j2);
                    assert(false);
                }
                crate::laws::lemma_weight_push(s2, id2, rec);
                crate::laws::lemma_interlace_weight(
                    region_id.mask,
                    pivot,
                    region_id.begin as int,
                    rec.end as int,
                );
            }
        }
        Ok(
            vec![
                Event::Interlaced {
                    old_region_id: region_id,
                    new_region_first: id1,
                    new_region_second: id2,
                },
            ],
        )
    }
}


/// Read the in-and-out ledger entry at a timeslice, or a zero record.
fn io_get(v: &Vec<(Timeslice, PoolIoRecord)>, t: Timeslice) -> (r: PoolIoRecord)
    requires
        ukeys(v@),
    ensures
        r == (if amap(v@).dom().contains(t) {
            amap(v@)[t]
        } else {
            PoolIoRecord { private: 0, system: 0 }
        }),
{
    match crate::store::ts_index(v, t) {
        Some(i) => {
            proof {
                lemma_amap_index(v@, i as int);
            }
            v[i].1
        },
        None => {
            proof {
                lemma_amap_absent(v@, t);
            }
            PoolIoRecord { private: 0, system: 0 }
        },
    }
}

/// Saturating subtraction of signed counts.
fn sat_sub_i64(a: i64, b: i64) -> (r: i64)
    ensures
        r == sat64(a - b),
{
    match a.checked_sub(b) {
        Some(x) => x,
        None => if b >= 0 {
            i64::MIN
        } else {
            i64::MAX
        },
    }
}

impl Broker {
    /// Assign a region to a task: its lanes are planned onto its core for
    /// every remaining timeslice of the region.
    ///
    /// Fails with `Uninitialized` before sales have started, and with
    /// `UnknownRegion` or `NotOwner` as `transfer` does; nothing changes
    /// then. A `Final` assignment consumes the region and, if it was
    /// purchased, accrues towards a renewal of its core.
    pub fn assign(
        &mut self,
        region_id: RegionId,
        maybe_who: Option<AccountId>,
        task: TaskId,
        finality: Finality,
    ) -> (r: Result<Vec<Event>, Error>)
        requires
            old(self).wf(),
        ensures
            final(self).wf(),
            match r {
                Ok(ev) => old(self).status is Some && old(self).regions_map().dom().contains(
                    region_id,
                ) && owner_ok(old(self).regions_map()[region_id], maybe_who) && assign_ok_post(
                    *old(self),
                    *final(self),
                    ev@,
                    region_id,
                    task,
                    finality,
                ),
                Err(e) => *final(self) == *old(self) && match e {
                    Error::Uninitialized => old(self).status is None,
                    Error::UnknownRegion => old(self).status is Some && !old(
                        self,
                    ).regions_map().dom().contains(region_id),
                    Error::NotOwner => old(self).status is Some && old(
                        self,
                    ).regions_map().dom().contains(region_id) && !owner_ok(
                        old(self).regions_map()[region_id],
                        maybe_who,
                    ),
                    _ => false,
                },
            },
    {
        let status = match self.status {
            Some(s) => s,
            None => {
                return Err(Error::Uninitialized);
            },
        };
        let idx = crate::store::region_index(&self.regions, region_id);
        let i = match idx {
            Some(i) => i,
            None => {
                proof {
                    lemma_amap_absent(self.regions@, region_id);
                }
                return Err(Error::UnknownRegion);
            },
        };
        proof {
            lemma_amap_index(self.regions@, i as int);
        }
        let rec = self.regions[i].1;
        if let Some(w) = maybe_who {
            if rec.owner != Some(w) {
                return Err(Error::NotOwner);
            }
        }
        let lc = status.last_committed_timeslice;
        let b64: u64 = if region_id.begin as u64 > lc as u64 + 1 {
            region_id.begin as u64
        } else {
            lc as u64 + 1
        };
        if b64 >= rec.end as u64 {
            region_remove(&mut self.regions, region_id);
            let duration = rec.end - region_id.begin;
            return Ok(vec![Event::RegionDropped { region_id, duration }]);
        }
        let b: u32 = b64 as u32;
        let end: u32 = rec.end;
        let ghost w0 = self.workplan_map();
        let mut t: u32 = b;
        while t < end
            invariant
                b <= t <= end,
                old(self).wf(),
                region_id.mask.wf(),
                region_id.mask.bits != 0,
                ukeys(self.workplan@),
                forall|x: int|
                    0 <= x < self.workplan@.len() ==> sched_wf(
                        (#[trigger] self.workplan@[x]).1@,
                    ),
                *self == (Broker { workplan: self.workplan, ..*old(self) }),
                w0 == old(self).workplan_map(),
                wp_view(self.workplan@) == assign_effect(
                    w0,
                    b as int,
                    t as int,
                    region_id.core,
                    region_id.mask,
                    CoreAssignment::Task(task),
                ),
            decreases end - t,
        {
            let ghost cur = wp_view(self.workplan@);
            let k = WorkplanKey { timeslice: t, core: region_id.core };
            workplan_merge(&mut self.workplan, k, region_id.mask, CoreAssignment::Task(task));
            proof {
                let ti = t as int;
                let w1 = cur.insert(k, sched_merge_spec(wp_at(cur, k), region_id.mask, CoreAssignment::Task(task)));
                assert(assign_effect(w1, ti + 1, ti + 1, region_id.core, region_id.mask, CoreAssignment::Task(task))
                    == w1);
                assert(assign_effect(cur, ti, ti + 1, region_id.core, region_id.mask, CoreAssignment::Task(task))
                    == w1);
                lemma_assign_compose(
                    w0,
                    b as int,
                    ti,
                    ti + 1,
                    region_id.core,
                    region_id.mask,
                    CoreAssignment::Task(task),
                );
            }
            t = t + 1;
        }
        let mut ev: Vec<Event> = Vec::new();
        let trimmed = RegionId { begin: b, ..region_id };
        ev.push(Event::Assigned { region_id: trimmed, duration: end - b, task });
        if finality == Finality::Final {
            region_remove(&mut self.regions, region_id);
            if let Some(p) = rec.paid {
                let rid = PotentialRenewalId { core: region_id.core, when: rec.end };
                let ridx = crate::store::renewal_index(&self.potential_renewals, rid);
                let mut proceed: bool = true;
                let mut price0: Balance = 0;
                let mut m0: u128 = 0;
                match ridx {
                    Some(j) => {
                        proof {
                            lemma_amap_index(self.potential_renewals@, j as int);
                        }
                        price0 = self.potential_renewals[j].1.price;
                        match &self.potential_renewals[j].1.completion {
                            CompletionStatus::Partial(mm) => {
                                m0 = mm.bits;
                            },
                            CompletionStatus::Complete(_) => {
                                proceed = false;
                            },
                        }
                    },
                    None => {
                        proof {
                            lemma_amap_absent(self.potential_renewals@, rid);
                        }
                    },
                }
                if proceed {
                    let m1: u128 = m0 | region_id.mask.bits;
                    let price1 = crate::pricing::sat_add(price0, p);
                    if m1 == FULL_MASK {
                        let k = WorkplanKey { timeslice: b, core: region_id.core };
                        let widx = work_index(&self.workplan, k);
                        let sched: Schedule = match widx {
                            Some(wj) => {
                                proof {
                                    lemma_amap_index(self.workplan@, wj as int);
                                }
                                crate::schedule::clone_schedule(&self.workplan[wj].1)
                            },
                            None => {
                                proof {
                                    lemma_assign_effect(
                                        w0,
                                        b as int,
                                        end as int,
                                        region_id.core,
                                        region_id.mask,
                                        CoreAssignment::Task(task),
                                        k,
                                    );
                                    lemma_amap_absent(self.workplan@, k);
                                    assert(false);
                                }
                                Vec::new()
                            },
                        };
                        let ev_sched = crate::schedule::clone_schedule(&sched);
                        crate::store::renewal_set(
                            &mut self.potential_renewals,
                            rid,
                            PotentialRenewalRecord {
                                price: price1,
                                completion: CompletionStatus::Complete(sched),
                            },
                        );
                        ev.push(
                            Event::Renewable {
                                core: region_id.core,
                                price: price1,
                                begin: rec.end,
                                workload: ev_sched,
                            },
                        );
                    } else {
                        crate::store::renewal_set(
                            &mut self.potential_renewals,
                            rid,
                            PotentialRenewalRecord {
                                price: price1,
                                completion: CompletionStatus::Partial(CoreMask { bits: m1 }),
                            },
                        );
                    }
                }
            }
        }
        Ok(ev)
    }

    /// Put a region's lanes into the instantaneous coretime pool for its
    /// remaining timeslices, crediting revenue to `payee`.
    ///
    /// Fails as `assign` does; nothing changes then. A `Final` pooling
    /// consumes the region record; the contribution record stays until its
    /// revenue is claimed.
    pub fn pool(
        &mut self,
        region_id: RegionId,
        maybe_who: Option<AccountId>,
        payee: AccountId,
        finality: Finality,
    ) -> (r: Result<Vec<Event>, Error>)
        requires
            old(self).wf(),
        ensures
            final(self).wf(),
            match r {
                Ok(ev) => old(self).status is Some && old(self).regions_map().dom().contains(
                    region_id,
                ) && owner_ok(old(self).regions_map()[region_id], maybe_who) && pool_ok_post(
                    *old(self),
                    *final(self),
                    ev@,
                    region_id,
                    payee,
                    finality,
                ),
                Err(e) => *final(self) == *old(self) && match e {
                    Error::Uninitialized => old(self).status is None,
                    Error::UnknownRegion => old(self).status is Some && !old(
                        self,
                    ).regions_map().dom().contains(region_id),
                    Error::NotOwner => old(self).status is Some && old(
                        self,
                    ).regions_map().dom().contains(region_id) && !owner_ok(
                        old(self).regions_map()[region_id],
                        maybe_who,
                    ),
                    _ => false,
                },
            },
    {
        let status = match self.status {
            Some(s) => s,
            None => {
                return Err(Error::Uninitialized);
            },
        };
        let idx = crate::store::region_index(&self.regions, region_id);
        let i = match idx {
            Some(i) => i,
            None => {
                proof {
                    lemma_amap_absent(self.regions@, region_id);
                }
                return Err(Error::UnknownRegion);
            },
        };
        proof {
            lemma_amap_index(self.regions@, i as int);
        }
        let rec = self.regions[i].1;
        if let Some(w) = maybe_who {
            if rec.owner != Some(w) {
                return Err(Error::NotOwner);
            }
        }
        let lc = status.last_committed_timeslice;
        let b64: u64 = if region_id.begin as u64 > lc as u64 + 1 {
            region_id.begin as u64
        } else {
            lc as u64 + 1
        };
        if b64 >= rec.end as u64 {
            region_remove(&mut self.regions, region_id);
            let duration = rec.end - region_id.begin;
            return Ok(vec![Event::RegionDropped { region_id, duration }]);
        }
        let b: u32 = b64 as u32;
        let end: u32 = rec.end;
        let ghost w0 = self.workplan_map();
        let mut t: u32 = b;
        while t < end
            invariant
                b <= t <= end,
                old(self).wf(),
                region_id.mask.wf(),
                region_id.mask.bits != 0,
                ukeys(self.workplan@),
                forall|x: int|
                    0 <= x < self.workplan@.len() ==> sched_wf(
                        (#[trigger] self.workplan@[x]).1@,
                    ),
                *self == (Broker { workplan: self.workplan, ..*old(self) }),
                w0 == old(self).workplan_map(),
                wp_view(self.workplan@) == assign_effect(
                    w0,
                    b as int,
                    t as int,
                    region_id.core,
                    region_id.mask,
                    CoreAssignment::Pool,
                ),
            decreases end - t,
        {
            let ghost cur = wp_view(self.workplan@);
            let k = WorkplanKey { timeslice: t, core: region_id.core };
            workplan_merge(&mut self.workplan, k, region_id.mask, CoreAssignment::Pool);
            proof {
                let ti = t as int;
                let w1 = cur.insert(k, sched_merge_spec(wp_at(cur, k), region_id.mask, CoreAssignment::Pool));
                assert(assign_effect(w1, ti + 1, ti + 1, region_id.core, region_id.mask, CoreAssignment::Pool)
                    == w1);
                assert(assign_effect(cur, ti, ti + 1, region_id.core, region_id.mask, CoreAssignment::Pool)
                    == w1);
                lemma_assign_compose(
                    w0,
                    b as int,
                    ti,
                    ti + 1,
                    region_id.core,
                    region_id.mask,
                    CoreAssignment::Pool,
                );
            }
            t = t + 1;
        }
        let bits: i64 = region_id.mask.count_ones() as i64;
        let private = rec.owner.is_some();
        let mut nb = io_get(&self.insta_pool_io, b);
        if private {
            nb.private = sat_add_i64(nb.private, bits);
        } else {
            nb.system = sat_add_i64(nb.system, bits);
        }
        crate::store::ts_set(&mut self.insta_pool_io, b, nb);
        let mut ne = io_get(&self.insta_pool_io, end);
        if private {
            ne.private = sat_sub_i64(ne.private, bits);
        } else {
            ne.system = sat_sub_i64(ne.system, bits);
        }
        crate::store::ts_set(&mut self.insta_pool_io, end, ne);
        let trimmed = RegionId { begin: b, ..region_id };
        region_set(
            &mut self.insta_pool_contribution,
            trimmed,
            ContributionRecord { length: end - b, payee },
        );
        if finality == Finality::Final {
            region_remove(&mut self.regions, region_id);
        }
        let duration = end - b;
        Ok(vec![Event::Pooled { region_id: trimmed, duration }])
    }
}


impl Broker {
    /// Reserve a workload and also plan it onto the given core at once, from
    /// the first uncommitted timeslice through the regions now on sale; from
    /// the next rotation on, the reservation is planned as usual.
    ///
    /// Fails with `TooManyReservations` when the reservation limit is
    /// reached, with `Uninitialized` before sales start, and with `NoSales`
    /// without a sale; nothing changes then. The workload must be a
    /// well-formed schedule; the hosting runtime checks this before
    /// dispatching.
    pub fn force_reserve(&mut self, workload: Schedule, core: CoreIndex) -> (r: Result<
        Vec<Event>,
        Error,
    >)
        requires
            old(self).wf(),
            sched_wf(workload@),
        ensures
            final(self).wf(),
            match r {
                Ok(ev) => {
                    let sale = old(self).sale_info->Some_0;
                    let lc = old(self).status->Some_0.last_committed_timeslice as int;
                    let b: int = if lc + 1 > sale.region_end {
                        sale.region_end as int
                    } else {
                        lc + 1
                    };
                    &&& old(self).status is Some && old(self).sale_info is Some
                    &&& old(self).reservations@.len() < old(self).limits.max_reserved_cores
                    &&& final(self).reservations@ == old(self).reservations@.push(workload)
                    &&& final(self).workplan_map() == crate::sale::install_effect(
                        old(self).workplan_map(),
                        b,
                        sale.region_end as int,
                        core,
                        workload@,
                    )
                    &&& *final(self) == (Broker {
                        reservations: final(self).reservations,
                        workplan: final(self).workplan,
                        ..*old(self)
                    })
                    &&& ev@.len() == 1
                    &&& (ev@[0] matches Event::ReservationMade { index, workload: w } && index
                        == old(self).reservations@.len() && w@ == workload@)
                },
                Err(e) => *final(self) == *old(self) && match e {
                    Error::TooManyReservations => old(self).reservations@.len() >= old(
                        self,
                    ).limits.max_reserved_cores,
                    Error::Uninitialized => old(self).reservations@.len() < old(
                        self,
                    ).limits.max_reserved_cores && old(self).status is None,
                    Error::NoSales => old(self).reservations@.len() < old(
                        self,
                    ).limits.max_reserved_cores && old(self).status is Some && old(
                        self,
                    ).sale_info is None,
                    _ => false,
                },
            },
    {
        if self.reservations.len() >= self.limits.max_reserved_cores as usize {
            return Err(Error::TooManyReservations);
        }
        let status = match self.status {
            Some(s) => s,
            None => {
                return Err(Error::Uninitialized);
            },
        };
        let sale = match self.sale_info {
            Some(s) => s,
            None => {
                return Err(Error::NoSales);
            },
        };
        let index = self.reservations.len() as u32;
        let b: Timeslice = if status.last_committed_timeslice as u64 + 1
            > sale.region_end as u64 {
            sale.region_end
        } else {
            status.last_committed_timeslice + 1
        };
        crate::sale::workplan_install(&mut self.workplan, b, sale.region_end, core, &workload);
        let copy = crate::schedule::clone_schedule(&workload);
        self.reservations.push(workload);
        Ok(vec![Event::ReservationMade { index, workload: copy }])
    }

    /// Remove a region's assignment from the workplan: at every planned
    /// timeslice of the region's core from its begin on, the entries
    /// overlapping the region's mask give way. An entry whose last item goes
    /// stays as an empty schedule, so that the core is told to idle when the
    /// timeslice is committed.
    ///
    /// Fails with `AssignmentNotFound` exactly when the workplan holds
    /// nothing overlapping the region's mask at its begin; nothing changes
    /// then.
    pub fn remove_assignment(&mut self, region_id: RegionId) -> (r: Result<Vec<Event>, Error>)
        requires
            old(self).wf(),
        ensures
            final(self).wf(),
            ({
                let k0 = WorkplanKey { timeslice: region_id.begin, core: region_id.core };
                match r {
                    Ok(ev) => {
                        &&& old(self).workplan_map().dom().contains(k0)
                        &&& (exists|j: int|
                            0 <= j < old(self).workplan_map()[k0].len() && (#[trigger] old(
                                self,
                            ).workplan_map()[k0][j]).mask.bits & region_id.mask.bits != 0)
                        &&& final(self).workplan_map().dom() =~= old(self).workplan_map().dom()
                        &&& forall|k: WorkplanKey|
                            #[trigger] old(self).workplan_map().dom().contains(k)
                                ==> final(self).workplan_map()[k] == (if k.core == region_id.core
                                && k.timeslice >= region_id.begin {
                                crate::schedule::sched_retain(
                                    old(self).workplan_map()[k],
                                    region_id.mask.bits,
                                )
                            } else {
                                old(self).workplan_map()[k]
                            })
                        &&& *final(self) == (Broker {
                            workplan: final(self).workplan,
                            ..*old(self)
                        })
                        &&& ev@ =~= seq![Event::AssignmentRemoved { region_id }]
                    },
                    Err(e) => e == Error::AssignmentNotFound && *final(self) == *old(self) && (
                    !old(self).workplan_map().dom().contains(k0) || (forall|j: int|
                        0 <= j < old(self).workplan_map()[k0].len() ==> (#[trigger] old(
                            self,
                        ).workplan_map()[k0][j]).mask.bits & region_id.mask.bits == 0)),
                }
            }),
    {
        let k0 = WorkplanKey { timeslice: region_id.begin, core: region_id.core };
        let idx = work_index(&self.workplan, k0);
        let found = match idx {
            Some(i) => {
                proof {
                    lemma_amap_index(self.workplan@, i as int);
                }
                let sched = &self.workplan[i].1;
                let mut j: usize = 0;
                let mut hit = false;
                while j < sched.len() && !hit
                    invariant
                        j <= sched@.len(),
                        hit ==> exists|x: int|
                            0 <= x < sched@.len() && (#[trigger] sched@[x]).mask.bits
                                & region_id.mask.bits != 0,
                        !hit ==> forall|x: int|
                            0 <= x < j ==> (#[trigger] sched@[x]).mask.bits & region_id.mask.bits
                                == 0,
                    decreases sched@.len() - j,
                {
                    if sched[j].mask.bits & region_id.mask.bits != 0 {
                        hit = true;
                    }
                    j = j + 1;
                }
                hit
            },
            None => {
                proof {
                    lemma_amap_absent(self.workplan@, k0);
                }
                false
            },
        };
        if !found {
            return Err(Error::AssignmentNotFound);
        }
        let ghost w0 = self.workplan@;
        let mut i: usize = 0;
        while i < self.workplan.len()
            invariant
                old(self).wf(),
                *self == (Broker { workplan: self.workplan, ..*old(self) }),
                i <= self.workplan@.len(),
                self.workplan@.len() == w0.len(),
                w0 == old(self).workplan@,
                ukeys(self.workplan@),
                forall|j: int|
                    0 <= j < self.workplan@.len() ==> sched_wf((#[trigger] self.workplan@[j]).1@),
                forall|j: int| 0 <= j < w0.len() ==> (#[trigger] self.workplan@[j]).0 == w0[j].0,
                forall|j: int|
                    i <= j < w0.len() ==> #[trigger] self.workplan@[j] == w0[j],
                forall|j: int|
                    0 <= j < i ==> (#[trigger] self.workplan@[j]).1@ == (if w0[j].0.core
                        == region_id.core && w0[j].0.timeslice >= region_id.begin {
                        crate::schedule::sched_retain(w0[j].1@, region_id.mask.bits)
                    } else {
                        w0[j].1@
                    }),
            decreases self.workplan@.len() - i,
        {
            let key = self.workplan[i].0;
            if key.core == region_id.core && key.timeslice >= region_id.begin {
                let filtered = crate::schedule::sched_drop_overlaps(
                    &self.workplan[i].1,
                    region_id.mask,
                );
                proof {
                    crate::schedule::lemma_retain_wf(self.workplan@[i as int].1@, region_id.mask.bits);
                }
                self.workplan.set(i, (key, filtered));
            }
            i = i + 1;
        }
        proof {
            lemma_remove_assignment_post(*old(self), *self, region_id);
        }
        Ok(vec![Event::AssignmentRemoved { region_id }])
    }
}

/// Lift the entry-wise effect of `remove_assignment` to its map view.
proof fn lemma_remove_assignment_post(pre: Broker, post: Broker, region_id: RegionId)
    requires
        ukeys(pre.workplan@),
        ukeys(post.workplan@),
        post.workplan@.len() == pre.workplan@.len(),
        forall|j: int|
            0 <= j < pre.workplan@.len() ==> (#[trigger] post.workplan@[j]).0
                == pre.workplan@[j].0,
        forall|j: int|
            0 <= j < pre.workplan@.len() ==> (#[trigger] post.workplan@[j]).1@ == (if pre.workplan@[j].0.core
                == region_id.core && pre.workplan@[j].0.timeslice >= region_id.begin {
                crate::schedule::sched_retain(pre.workplan@[j].1@, region_id.mask.bits)
            } else {
                pre.workplan@[j].1@
            }),
    ensures
        post.workplan_map().dom() =~= pre.workplan_map().dom(),
        forall|k: WorkplanKey|
            #[trigger] pre.workplan_map().dom().contains(k) ==> post.workplan_map()[k] == (if k.core
                == region_id.core && k.timeslice >= region_id.begin {
                crate::schedule::sched_retain(pre.workplan_map()[k], region_id.mask.bits)
            } else {
                pre.workplan_map()[k]
            }),
{
    assert forall|k: WorkplanKey| #[trigger]
        pre.workplan_map().dom().contains(k) == post.workplan_map().dom().contains(k) by {
        crate::store::lemma_amap_contains(pre.workplan@, k);
        crate::store::lemma_amap_contains(post.workplan@, k);
        if exists|i: int| 0 <= i < pre.workplan@.len() && (#[trigger] pre.workplan@[i]).0 == k {
            let i = choose|i: int|
                0 <= i < pre.workplan@.len() && (#[trigger] pre.workplan@[i]).0 == k;
            assert((post.workplan@[i]).0 == k);
        }
        if exists|i: int| 0 <= i < post.workplan@.len() && (#[trigger] post.workplan@[i]).0 == k {
            let i = choose|i: int|
                0 <= i < post.workplan@.len() && (#[trigger] post.workplan@[i]).0 == k;
            assert((pre.workplan@[i]).0 == k);
        }
    }
    assert forall|k: WorkplanKey| #[trigger] pre.workplan_map().dom().contains(k) implies post.workplan_map()[k]
        == (if k.core == region_id.core && k.timeslice >= region_id.begin {
        crate::schedule::sched_retain(pre.workplan_map()[k], region_id.mask.bits)
    } else {
        pre.workplan_map()[k]
    }) by {
        crate::store::lemma_amap_contains(pre.workplan@, k);
        let j = choose|j: int| 0 <= j < pre.workplan@.len() && (#[trigger] pre.workplan@[j]).0 == k;
        crate::store::lemma_amap_index(pre.workplan@, j);
        crate::store::lemma_amap_index(post.workplan@, j);
    }
}

} // verus!
