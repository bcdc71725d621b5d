//! The sale engine: purchase and renewal of bulk coretime.

use vstd::prelude::*;
use crate::broker::Broker;
use crate::mask::{CoreMask, FULL_MASK};
use crate::pricing::{renewal_price, renewal_price_spec, sale_price, sale_price_spec};
use crate::schedule::{clone_schedule, sched_wf};
use crate::store::{
    lemma_amap_absent, lemma_amap_index, region_set, renewal_remove, renewal_set, ukeys,
    work_index, work_set,
};
use crate::types::{
    AccountId, AutoRenewalRecord, Balance, CompletionStatus, CoreAssignment, CoreIndex, Error,
    Event, LeaseRecordItem,
    PotentialRenewalId, PotentialRenewalRecord, RegionId, RegionRecord, RelayBlockNumber,
    RelayInstruction, SaleInfoRecord, Schedule, ScheduleItem, SovereignFunds, StatusRecord, TaskId,
    Timeslice, WorkplanKey,
};
use crate::region::wp_view;

verus! {

/// Clamp an unbounded count into the 32-bit range.
pub open spec fn sat32(x: int) -> u32 {
    if x > u32::MAX {
        u32::MAX
    } else if x < 0 {
        0
    } else {
        x as u32
    }
}

/// Saturating addition of 32-bit counts.
pub fn sat_add_u32(a: u32, b: u32) -> (r: u32)
    ensures
        r == sat32(a + b),
{
    match a.checked_add(b) {
        Some(x) => x,
        None => u32::MAX,
    }
}

/// Saturating multiplication of 32-bit counts.
pub fn sat_mul_u32(a: u32, b: u32) -> (r: u32)
    ensures
        r == sat32(a * b),
{
    match a.checked_mul(b) {
        Some(x) => x,
        None => u32::MAX,
    }
}

/// The workplan after a whole schedule is installed, replacing whatever was
/// planned, at every timeslice of `[b, e)` on one core.
pub open spec fn install_effect(
    w: Map<WorkplanKey, Seq<ScheduleItem>>,
    b: int,
    e: int,
    core: CoreIndex,
    sched: Seq<ScheduleItem>,
) -> Map<WorkplanKey, Seq<ScheduleItem>>
    decreases e - b,
{
    if b >= e {
        w
    } else {
        let k = WorkplanKey { timeslice: b as u32, core };
        install_effect(w.insert(k, sched), b + 1, e, core, sched)
    }
}

/// Installing over `[b, mid)` and then `[mid, e)` is installing over
/// `[b, e)`.
pub proof fn lemma_install_compose(
    w: Map<WorkplanKey, Seq<ScheduleItem>>,
    b: int,
    mid: int,
    e: int,
    core: CoreIndex,
    sched: Seq<ScheduleItem>,
)
    requires
        b <= mid <= e,
    ensures
        install_effect(install_effect(w, b, mid, core, sched), mid, e, core, sched)
            == install_effect(w, b, e, core, sched),
    decreases mid - b,
{
    if b < mid {
        let kb = WorkplanKey { timeslice: b as u32, core };
        lemma_install_compose(w.insert(kb, sched), b + 1, mid, e, core, sched);
    }
}

/// What `install_effect` does at each key.
pub proof fn lemma_install_effect(
    w: Map<WorkplanKey, Seq<ScheduleItem>>,
    b: int,
    e: int,
    core: CoreIndex,
    sched: Seq<ScheduleItem>,
    k: WorkplanKey,
)
    requires
        0 <= b,
        e <= 0x1_0000_0000,
    ensures
        k.core == core && b <= k.timeslice < e ==> install_effect(w, b, e, core, sched).dom()
            .contains(k) && install_effect(w, b, e, core, sched)[k] == sched,
        !(k.core == core && b <= k.timeslice < e) ==> {
            &&& install_effect(w, b, e, core, sched).dom().contains(k) == w.dom().contains(k)
            &&& w.dom().contains(k) ==> install_effect(w, b, e, core, sched)[k] == w[k]
        },
    decreases e - b,
{
    if b < e {
        let kb = WorkplanKey { timeslice: b as u32, core };
        lemma_install_effect(w.insert(kb, sched), b + 1, e, core, sched, k);
    }
}

/// Install a schedule on a core for every timeslice of `[b, e)`, replacing
/// whatever was planned there.
pub(crate) fn workplan_install(
    v: &mut Vec<(WorkplanKey, Schedule)>,
    b: Timeslice,
    e: Timeslice,
    core: CoreIndex,
    sched: &Schedule,
)
    requires
        ukeys(old(v)@),
        forall|i: int| 0 <= i < old(v)@.len() ==> sched_wf((#[trigger] old(v)@[i]).1@),
        sched_wf(sched@),
        b <= e,
    ensures
        ukeys(final(v)@),
        forall|i: int| 0 <= i < final(v)@.len() ==> sched_wf((#[trigger] final(v)@[i]).1@),
        wp_view(final(v)@) == install_effect(wp_view(old(v)@), b as int, e as int, core, sched@),
{
    let ghost w0 = wp_view(v@);
    let mut t: Timeslice = b;
    while t < e
        invariant
            b <= t <= e,
            ukeys(v@),
            forall|i: int| 0 <= i < v@.len() ==> sched_wf((#[trigger] v@[i]).1@),
            sched_wf(sched@),
            wp_view(v@) == install_effect(w0, b as int, t as int, core, sched@),
        decreases e - t,
    {
        let ghost cur = wp_view(v@);
        let k = WorkplanKey { timeslice: t, core };
        let copy = clone_schedule(sched);
        work_set(v, k, copy);
        proof {
            let ti = t as int;
            let w1 = cur.insert(k, sched@);
            assert(install_effect(w1, ti + 1, ti + 1, core, sched@) == w1);
            assert(install_effect(cur, ti, ti + 1, core, sched@) == w1);
            lemma_install_compose(w0, b as int, ti, ti + 1, core, sched@);
            assert(wp_view(v@) =~= w1);
        }
        t = t + 1;
    }
}

/// The sovereign-funds entry for a task, if the runtime supplied one: the
/// first entry naming the task.
pub fn find_sovereign(sovereigns: &Vec<SovereignFunds>, task: TaskId) -> (r: Option<
    SovereignFunds,
>)
    ensures
        match r {
            Some(s) => s.task == task && exists|i: int|
                0 <= i < sovereigns@.len() && #[trigger] sovereigns@[i] == s,
            None => forall|i: int|
                0 <= i < sovereigns@.len() ==> (#[trigger] sovereigns@[i]).task != task,
        },
{
    let mut i: usize = 0;
    while i < sovereigns.len()
        invariant
            i <= sovereigns@.len(),
            forall|j: int| 0 <= j < i ==> (#[trigger] sovereigns@[j]).task != task,
        decreases sovereigns@.len() - i,
    {
        if sovereigns[i].task == task {
            return Some(sovereigns[i]);
        }
        i = i + 1;
    }
    None
}

impl Broker {
    /// Purchase a full core for the regions of the current sale.
    ///
    /// `funds` is the buyer's free balance, supplied by the hosting runtime,
    /// which transfers the returned price to the broker's pot. Fails, in
    /// this order of checks: `Uninitialized` before configuration or sales
    /// start; `NoSales` without a sale; `TooEarly` before the leadin opens;
    /// `Unavailable` when no core is left under the core count or the sale's
    /// regions are empty; `SoldOut` when the offer is exhausted;
    /// `Overpriced` when the current price exceeds `price_limit`; and
    /// `FundsUnavailable` when it exceeds `funds`. Nothing changes on
    /// failure.
    ///
    /// On success the buyer owns a new region covering the full mask of the
    /// next unsold core across the sale's regions, the paid price is
    /// recorded for renewal, and — once the ideal number of cores is reached
    /// — the sale's sellout price is set.
    pub fn purchase(
        &mut self,
        who: AccountId,
        funds: Balance,
        price_limit: Balance,
        now: RelayBlockNumber,
    ) -> (r: Result<(RegionId, Vec<Event>), Error>)
        requires
            old(self).wf(),
        ensures
            final(self).wf(),
            match r {
                Ok((region_id, ev)) => {
                    let sale = old(self).sale_info->Some_0;
                    let price = sale_price_spec(
                        sale.end_price,
                        sale.sale_start,
                        sale.leadin_length,
                        now,
                    );
                    let rec = RegionRecord {
                        end: sale.region_end,
                        owner: Some(who),
                        paid: Some(price),
                    };
                    &&& old(self).configuration is Some && old(self).status is Some
                    &&& old(self).sale_info is Some
                    &&& now >= sale.sale_start
                    &&& sale.first_core + sale.cores_sold < old(self).status->Some_0.core_count
                    &&& sale.region_begin < sale.region_end
                    &&& sale.cores_sold < sale.cores_offered
                    &&& price <= price_limit
                    &&& price <= funds
                    &&& region_id == (RegionId {
                        begin: sale.region_begin,
                        core: (sale.first_core + sale.cores_sold) as CoreIndex,
                        mask: CoreMask { bits: FULL_MASK },
                    })
                    &&& final(self).regions_map() == old(self).regions_map().insert(
                        region_id,
                        rec,
                    )
                    &&& (!old(self).regions_map().dom().contains(region_id)
                        ==> crate::laws::regions_weight(final(self).regions@)
                        == crate::laws::regions_weight(old(self).regions@)
                        + crate::laws::region_weight(region_id, rec))
                    &&& final(self).sale_info == Some(
                        SaleInfoRecord {
                            cores_sold: (sale.cores_sold + 1) as CoreIndex,
                            sellout_price: if sale.cores_sold + 1 >= sale.ideal_cores_sold
                                && sale.sellout_price is None {
                                Some(price)
                            } else {
                                sale.sellout_price
                            },
                            ..sale
                        },
                    )
                    &&& *final(self) == (Broker {
                        regions: final(self).regions,
                        sale_info: final(self).sale_info,
                        ..*old(self)
                    })
                    &&& ev@ =~= seq![
                        Event::Purchased {
                            who,
                            region_id,
                            price,
                            duration: (sale.region_end - sale.region_begin) as Timeslice,
                        },
                    ]
                },
                Err(e) => *final(self) == *old(self) && {
                    let sale = old(self).sale_info->Some_0;
                    let price = sale_price_spec(
                        sale.end_price,
                        sale.sale_start,
                        sale.leadin_length,
                        now,
                    );
                    match e {
                        Error::Uninitialized => old(self).configuration is None || old(
                            self,
                        ).status is None,
                        Error::NoSales => old(self).configuration is Some && old(
                            self,
                        ).status is Some && old(self).sale_info is None,
                        Error::TooEarly => old(self).sale_info is Some && now < sale.sale_start,
                        Error::Unavailable => old(self).sale_info is Some && now
                            >= sale.sale_start && (sale.first_core + sale.cores_sold >= old(
                            self,
                        ).status->Some_0.core_count || sale.region_begin >= sale.region_end),
                        Error::SoldOut => old(self).sale_info is Some && now >= sale.sale_start
                            && sale.first_core + sale.cores_sold < old(
                            self,
                        ).status->Some_0.core_count && sale.region_begin < sale.region_end
                            && sale.cores_sold >= sale.cores_offered,
                        Error::Overpriced => old(self).sale_info is Some && now
                            >= sale.sale_start && sale.first_core + sale.cores_sold < old(
                            self,
                        ).status->Some_0.core_count && sale.region_begin < sale.region_end
                            && sale.cores_sold < sale.cores_offered && price > price_limit,
                        Error::FundsUnavailable => old(self).sale_info is Some && now
                            >= sale.sale_start && sale.first_core + sale.cores_sold < old(
                            self,
                        ).status->Some_0.core_count && sale.region_begin < sale.region_end
                            && sale.cores_sold < sale.cores_offered && price <= price_limit
                            && price > funds,
                        _ => false,
                    }
                },
            },
    {
        if self.configuration.is_none() || self.status.is_none() {
            return Err(Error::Uninitialized);
        }
        let status = self.status.unwrap();
        let sale = match self.sale_info {
            Some(s) => s,
            None => {
                return Err(Error::NoSales);
            },
        };
        if now < sale.sale_start {
            return Err(Error::TooEarly);
        }
        if sale.first_core as u32 + sale.cores_sold as u32 >= status.core_count as u32
            || sale.region_begin >= sale.region_end {
            return Err(Error::Unavailable);
        }
        if sale.cores_sold >= sale.cores_offered {
            return Err(Error::SoldOut);
        }
        let price = sale_price(&sale, now);
        if price > price_limit {
            return Err(Error::Overpriced);
        }
        if price > funds {
            return Err(Error::FundsUnavailable);
        }
        let core: CoreIndex = sale.first_core + sale.cores_sold;
        let region_id = RegionId {
            begin: sale.region_begin,
            core,
            mask: CoreMask { bits: FULL_MASK },
        };
        let rec = RegionRecord { end: sale.region_end, owner: Some(who), paid: Some(price) };
        let ghost s0 = self.regions@;
        region_set(&mut self.regions, region_id, rec);
        proof {
            if !crate::store::amap(s0).dom().contains(region_id) {
                if exists|i: int|
                    0 <= i < s0.len() && (#[trigger] s0[i]).0 == region_id && self.regions@
                        == s0.update(i, (region_id, rec)) {
                    let i = choose|i: int|
                        0 <= i < s0.len() && (#[trigger] s0[i]).0 == region_id && self.regions@
                            == s0.update(i, (region_id, rec));
                    lemma_amap_index(s0, i);
                    assert(false);
                }
                crate::laws::lemma_weight_push(s0, region_id, rec);
            }
        }
        let sellout_price = if sale.cores_sold + 1 >= sale.ideal_cores_sold
            && sale.sellout_price.is_none() {
            Some(price)
        } else {
            sale.sellout_price
        };
        self.sale_info = Some(
            SaleInfoRecord { cores_sold: sale.cores_sold + 1, sellout_price, ..sale },
        );
        let duration = sale.region_end - sale.region_begin;
        Ok((region_id, vec![Event::Purchased { who, region_id, price, duration }]))
    }

    /// Renew the workload a core ran in the era now on sale: charge the
    /// renewal price, install the workload on the next unsold core for the
    /// sale's regions, and record the renewal right for the following sale.
    ///
    /// `funds` is the payer's free balance. Fails, in this order of checks:
    /// `Uninitialized`, `NoSales`; `NotAllowed` when no workload on this
    /// core is renewable (and `WrongTime` when one is, but for another sale
    /// period); `IncompleteAssignment` when the core was never fully,
    /// finally assigned; `Unavailable` and `SoldOut` as for `purchase`; and
    /// `FundsUnavailable`. Nothing changes on failure.
    ///
    /// Returns the core the renewed workload will run on. A renewal record
    /// for the next period always exists afterwards: renewing is itself the
    /// full, final assignment of the new core.
    pub fn renew(
        &mut self,
        who: AccountId,
        funds: Balance,
        core: CoreIndex,
        now: RelayBlockNumber,
    ) -> (r: Result<(CoreIndex, Vec<Event>), Error>)
        requires
            old(self).wf(),
        ensures
            final(self).wf(),
            match r {
                Ok((new_core, ev)) => {
                    let sale = old(self).sale_info->Some_0;
                    let rid = PotentialRenewalId { core, when: sale.region_begin };
                    let record = old(self).renewals_map()[rid];
                    let workload = record.completion->Complete_0;
                    let price = renewal_price_spec(
                        record.price,
                        old(self).configuration->Some_0.renewal_bump,
                        sale.end_price,
                    );
                    let new_rid = PotentialRenewalId {
                        core: (sale.first_core + sale.cores_sold) as CoreIndex,
                        when: sale.region_end,
                    };
                    &&& old(self).configuration is Some && old(self).status is Some && old(
                        self,
                    ).sale_info is Some
                    &&& old(self).renewals_map().dom().contains(rid)
                    &&& record.completion is Complete
                    &&& sale.first_core + sale.cores_sold < old(self).status->Some_0.core_count
                    &&& sale.cores_sold < sale.cores_offered
                    &&& price <= funds
                    &&& new_core == sale.first_core + sale.cores_sold
                    &&& final(self).workplan_map() == install_effect(
                        old(self).workplan_map(),
                        sale.region_begin as int,
                        sale.region_end as int,
                        new_core,
                        workload@,
                    )
                    &&& final(self).renewals_map().dom() =~= old(self).renewals_map().dom()
                        .remove(rid).insert(new_rid)
                    &&& final(self).renewals_map()[new_rid].price == price
                    &&& (final(self).renewals_map()[new_rid].completion matches
                        CompletionStatus::Complete(w) && w@ == workload@)
                    &&& forall|x: PotentialRenewalId|
                        x != rid && x != new_rid && old(self).renewals_map().dom().contains(x)
                            ==> final(self).renewals_map()[x] == old(self).renewals_map()[x]
                    &&& final(self).sale_info == Some(
                        SaleInfoRecord {
                            cores_sold: (sale.cores_sold + 1) as CoreIndex,
                            ..sale
                        },
                    )
                    &&& *final(self) == (Broker {
                        workplan: final(self).workplan,
                        potential_renewals: final(self).potential_renewals,
                        sale_info: final(self).sale_info,
                        ..*old(self)
                    })
                    &&& ev@.len() == 1
                    &&& (ev@[0] matches Event::Renewed {
                        who: w,
                        price: p,
                        old_core,
                        core: c,
                        begin,
                        duration,
                        workload: wl,
                    } && w == who && p == price && old_core == core && c == new_core && begin
                        == sale.region_begin && duration == sale.region_end - sale.region_begin
                        && wl@ == workload@)
                },
                Err(e) => *final(self) == *old(self) && {
                    let sale = old(self).sale_info->Some_0;
                    let rid = PotentialRenewalId { core, when: sale.region_begin };
                    match e {
                        Error::Uninitialized => old(self).configuration is None || old(
                            self,
                        ).status is None,
                        Error::NoSales => old(self).configuration is Some && old(
                            self,
                        ).status is Some && old(self).sale_info is None,
                        Error::WrongTime => old(self).sale_info is Some && !old(
                            self,
                        ).renewals_map().dom().contains(rid) && (exists|x: PotentialRenewalId|
                            #[trigger] old(self).renewals_map().dom().contains(x) && x.core
                                == core),
                        Error::NotAllowed => old(self).sale_info is Some && !old(
                            self,
                        ).renewals_map().dom().contains(rid) && (forall|x: PotentialRenewalId|
                            #[trigger] old(self).renewals_map().dom().contains(x) ==> x.core
                                != core),
                        Error::IncompleteAssignment => old(self).sale_info is Some && old(
                            self,
                        ).renewals_map().dom().contains(rid) && !(old(
                            self,
                        ).renewals_map()[rid].completion is Complete),
                        Error::Unavailable => old(self).sale_info is Some && old(
                            self,
                        ).renewals_map().dom().contains(rid) && old(
                            self,
                        ).renewals_map()[rid].completion is Complete && sale.first_core
                            + sale.cores_sold >= old(self).status->Some_0.core_count,
                        Error::SoldOut => old(self).sale_info is Some && old(
                            self,
                        ).renewals_map().dom().contains(rid) && old(
                            self,
                        ).renewals_map()[rid].completion is Complete && sale.first_core
                            + sale.cores_sold < old(self).status->Some_0.core_count
                            && sale.cores_sold >= sale.cores_offered,
                        Error::FundsUnavailable => old(self).sale_info is Some && old(
                            self,
                        ).renewals_map().dom().contains(rid) && old(
                            self,
                        ).renewals_map()[rid].completion is Complete && renewal_price_spec(
                            old(self).renewals_map()[rid].price,
                            old(self).configuration->Some_0.renewal_bump,
                            sale.end_price,
                        ) > funds,
                        _ => false,
                    }
                },
            },
    {
        let config = match self.configuration {
            Some(c) => c,
            None => {
                return Err(Error::Uninitialized);
            },
        };
        let status = match self.status {
            Some(s) => s,
            None => {
                return Err(Error::Uninitialized);
            },
        };
        let sale = match self.sale_info {
            Some(s) => s,
            None => {
                return Err(Error::NoSales);
            },
        };
        let rid = PotentialRenewalId { core, when: sale.region_begin };
        let ridx = crate::store::renewal_index(&self.potential_renewals, rid);
        let j = match ridx {
            Some(j) => j,
            None => {
                proof {
                    lemma_amap_absent(self.potential_renewals@, rid);
                }
                let mut i: usize = 0;
                while i < self.potential_renewals.len()
                    invariant
                        *self == *old(self),
                        old(self).wf(),
                        old(self).sale_info is Some,
                        rid == (PotentialRenewalId {
                            core,
                            when: old(self).sale_info->Some_0.region_begin,
                        }),
                        !old(self).renewals_map().dom().contains(rid),
                        i <= self.potential_renewals@.len(),
                        forall|x: int|
                            0 <= x < i ==> (#[trigger] self.potential_renewals@[x]).0.core
                                != core,
                    decreases self.potential_renewals@.len() - i,
                {
                    if self.potential_renewals[i].0.core == core {
                        proof {
                            lemma_amap_index(self.potential_renewals@, i as int);
                        }
                        return Err(Error::WrongTime);
                    }
                    i = i + 1;
                }
                proof {
                    assert forall|x: PotentialRenewalId|
                        #[trigger] self.renewals_map().dom().contains(x) implies x.core
                        != core by {
                        crate::store::lemma_amap_contains(self.potential_renewals@, x);
                    }
                }
                return Err(Error::NotAllowed);
            },
        };
        proof {
            lemma_amap_index(self.potential_renewals@, j as int);
        }
        let record_price = self.potential_renewals[j].1.price;
        let workload: Schedule = match &self.potential_renewals[j].1.completion {
            CompletionStatus::Complete(w) => clone_schedule(w),
            CompletionStatus::Partial(_) => {
                return Err(Error::IncompleteAssignment);
            },
        };
        if sale.first_core as u32 + sale.cores_sold as u32 >= status.core_count as u32 {
            return Err(Error::Unavailable);
        }
        if sale.cores_sold >= sale.cores_offered {
            return Err(Error::SoldOut);
        }
        let price = renewal_price(record_price, config.renewal_bump, sale.end_price);
        if price > funds {
            return Err(Error::FundsUnavailable);
        }
        let new_core: CoreIndex = sale.first_core + sale.cores_sold;
        workplan_install(
            &mut self.workplan,
            sale.region_begin,
            sale.region_end,
            new_core,
            &workload,
        );
        renewal_remove(&mut self.potential_renewals, rid);
        let new_rid = PotentialRenewalId { core: new_core, when: sale.region_end };
        let stored = clone_schedule(&workload);
        renewal_set(
            &mut self.potential_renewals,
            new_rid,
            PotentialRenewalRecord { price, completion: CompletionStatus::Complete(stored) },
        );
        self.sale_info = Some(SaleInfoRecord { cores_sold: sale.cores_sold + 1, ..sale });
        let duration = sale.region_end - sale.region_begin;
        let ev = vec![
            Event::Renewed {
                who,
                price,
                old_core: core,
                core: new_core,
                begin: sale.region_begin,
                duration,
                workload,
            },
        ];
        Ok((new_core, ev))
    }
}


/// The leases that survive a rotation to a sale whose regions begin at
/// `rb`: those not yet expired then, in order.
pub open spec fn live_leases(s: Seq<LeaseRecordItem>, rb: Timeslice) -> Seq<LeaseRecordItem>
    decreases s.len(),
{
    if s.len() == 0 {
        s
    } else {
        let rest = live_leases(s.drop_last(), rb);
        if s.last().until > rb {
            rest.push(s.last())
        } else {
            rest
        }
    }
}

/// Move all events of `src` to the end of `dst`, in order.
pub(crate) fn append_events(dst: &mut Vec<Event>, src: Vec<Event>)
    ensures
        final(dst)@ == old(dst)@ + src@,
{
    let ghost orig = src@;
    let mut s = src;
    while s.len() > 0
        invariant
            dst@ + s@ =~= old(dst)@ + orig,
        decreases s@.len(),
    {
        let e = s.remove(0);
        dst.push(e);
        proof {
            assert(dst@ + s@ =~= old(dst)@ + orig);
        }
    }
    proof {
        assert(dst@ =~= dst@ + s@);
        assert(dst@ =~= old(dst)@ + orig);
    }
}

impl Broker {
    /// Close the given sale and open the next: adapt the end price, expire
    /// leases, plan reservations and leases onto the first cores for the new
    /// regions, offer what is left for sale, and execute due auto-renewals.
    ///
    /// The new sale's regions start where the old sale's ended. Offered
    /// cores always fit what reservations and leases leave free: the number
    /// offered never exceeds the core count less the first sale core, so
    /// whenever reservations and leases fit the core count at all, every
    /// core this sale can allocate is within it.
    pub fn rotate_sale(
        &mut self,
        now: RelayBlockNumber,
        sale: SaleInfoRecord,
        sovereigns: &Vec<SovereignFunds>,
    ) -> (ev: Vec<Event>)
        requires
            old(self).wf(),
            old(self).configuration is Some,
            old(self).status is Some,
        ensures
            final(self).wf(),
            final(self).sale_info is Some,
            final(self).status == old(self).status,
            final(self).configuration == old(self).configuration,
            ({
                let cfg = old(self).configuration->Some_0;
                let cc = old(self).status->Some_0.core_count as int;
                let ns = final(self).sale_info->Some_0;
                let fc = old(self).reservations@.len() + live_leases(
                    old(self).leases@,
                    sale.region_end,
                ).len();
                let avail: int = if cc > fc {
                    cc - fc
                } else {
                    0
                };
                let lim: int = match cfg.limit_cores_offered {
                    Some(l) => l as int,
                    None => 0xFFFF,
                };
                &&& ns.region_begin == sale.region_end
                &&& ns.region_end == sat32(sale.region_end + cfg.region_length)
                &&& ns.end_price == crate::pricing::adapt_price_spec(
                    sale.end_price,
                    sale.sellout_price,
                    sale.cores_sold,
                    sale.ideal_cores_sold,
                    sale.cores_offered,
                )
                &&& ns.sale_start == sat32(
                    now + sat32(cfg.interlude_length * old(self).limits.timeslice_period),
                )
                &&& ns.leadin_length == sat32(
                    cfg.leadin_length * old(self).limits.timeslice_period,
                )
                &&& ns.first_core == fc
                &&& ns.cores_offered == (if avail < lim {
                    avail
                } else {
                    lim
                })
                &&& ns.ideal_cores_sold == crate::pricing::ideal_cores_spec(
                    cfg.ideal_bulk_proportion,
                    ns.cores_offered,
                )
                &&& ns.sellout_price is None
                &&& ns.cores_sold <= ns.cores_offered
                &&& ns.cores_sold <= old(self).auto_renewals@.len()
                &&& ns.cores_offered <= avail
                &&& fc <= cc ==> ns.first_core + ns.cores_offered <= cc
            }),
            final(self).leases@ == live_leases(old(self).leases@, sale.region_end),
            *final(self) == (Broker {
                sale_info: final(self).sale_info,
                leases: final(self).leases,
                workplan: final(self).workplan,
                potential_renewals: final(self).potential_renewals,
                auto_renewals: final(self).auto_renewals,
                ..*old(self)
            }),
            final(self).auto_renewals@.len() == old(self).auto_renewals@.len(),
            ev@.len() >= 1,
            ({
                let ns = final(self).sale_info->Some_0;
                ev@[0] matches Event::SaleInitialized {
                    sale_start,
                    leadin_length,
                    start_price,
                    end_price,
                    region_begin,
                    region_end,
                    ideal_cores_sold,
                    cores_offered,
                } && sale_start == ns.sale_start && leadin_length == ns.leadin_length
                    && start_price == sale_price_spec(
                    ns.end_price,
                    ns.sale_start,
                    ns.leadin_length,
                    ns.sale_start,
                ) && end_price == ns.end_price && region_begin == ns.region_begin && region_end
                    == ns.region_end && ideal_cores_sold == ns.ideal_cores_sold && cores_offered
                    == ns.cores_offered
            }),
    {
        let config = self.configuration.unwrap();
        let status = self.status.unwrap();
        let new_end_price = crate::pricing::adapt_price(&sale);
        let region_begin: Timeslice = sale.region_end;
        let region_end: Timeslice = sat_add_u32(region_begin, config.region_length);

        // Expire the leases that end at or before the new regions begin.
        let mut kept: Vec<LeaseRecordItem> = Vec::new();
        let mut removed: Vec<TaskId> = Vec::new();
        let mut ending: Vec<LeaseRecordItem> = Vec::new();
        let mut i: usize = 0;
        while i < self.leases.len()
            invariant
                *self == *old(self),
                old(self).wf(),
                i <= self.leases@.len(),
                kept@ == live_leases(self.leases@.subrange(0, i as int), region_begin),
                kept@.len() <= i,
            decreases self.leases@.len() - i,
        {
            let l = self.leases[i];
            proof {
                assert(self.leases@.subrange(0, i + 1).drop_last() =~= self.leases@.subrange(
                    0,
                    i as int,
                ));
                assert(self.leases@.subrange(0, i + 1).last() == self.leases@[i as int]);
            }
            if l.until > region_begin {
                kept.push(l);
                if l.until <= region_end {
                    ending.push(l);
                }
            } else {
                removed.push(l.task);
            }
            i = i + 1;
        }
        proof {
            assert(self.leases@.subrange(0, self.leases@.len() as int) =~= self.leases@);
        }
        let leased_count = kept.len();
        self.leases = kept;

        // The first cores carry the reservations, then the live leases; the
        // rest are offered for sale.
        let reserved_count = self.reservations.len();
        let first_core: CoreIndex = (reserved_count + leased_count) as CoreIndex;
        let avail: CoreIndex = if status.core_count > first_core {
            status.core_count - first_core
        } else {
            0
        };
        let limit: CoreIndex = match config.limit_cores_offered {
            Some(l) => l,
            None => 0xFFFF,
        };
        let cores_offered: CoreIndex = if avail < limit {
            avail
        } else {
            limit
        };
        let ideal_cores_sold = crate::pricing::ideal_cores(
            config.ideal_bulk_proportion,
            cores_offered,
        );
        let sale_start = sat_add_u32(
            now,
            sat_mul_u32(config.interlude_length, self.limits.timeslice_period),
        );
        let leadin_length = sat_mul_u32(config.leadin_length, self.limits.timeslice_period);
        let ns = SaleInfoRecord {
            sale_start,
            leadin_length,
            end_price: new_end_price,
            sellout_price: None,
            region_begin,
            region_end,
            first_core,
            ideal_cores_sold,
            cores_offered,
            cores_sold: 0,
        };
        self.sale_info = Some(ns);

        let mut ev: Vec<Event> = Vec::new();
        let start_price = sale_price(&ns, sale_start);
        ev.push(
            Event::SaleInitialized {
                sale_start,
                leadin_length,
                start_price,
                end_price: new_end_price,
                region_begin,
                region_end,
                ideal_cores_sold,
                cores_offered,
            },
        );
        let ghost ev0 = ev@[0];
        let mut ri: usize = 0;
        while ri < removed.len()
            invariant
                ri <= removed@.len(),
                ev@.len() >= 1,
                ev@[0] == ev0,
            decreases removed@.len() - ri,
        {
            let task = removed[ri];
            ev.push(Event::LeaseRemoved { task });
            ri = ri + 1;
        }
        let mut ei: usize = 0;
        while ei < ending.len()
            invariant
                ei <= ending@.len(),
                ev@.len() >= 1,
                ev@[0] == ev0,
            decreases ending@.len() - ei,
        {
            let l = ending[ei];
            ev.push(Event::LeaseEnding { task: l.task, when: l.until });
            ei = ei + 1;
        }

        // Plan the reservations onto the first cores for the new regions.
        let ghost snap1 = *self;
        let mut j: usize = 0;
        while j < self.reservations.len()
            invariant
                snap1.wf(),
                region_begin <= region_end,
                j <= self.reservations@.len(),
                self.reservations@.len() == snap1.reservations@.len(),
                self.reservations@.len() + leased_count <= 0xFFFF,
                ukeys(self.workplan@),
                forall|x: int|
                    0 <= x < self.workplan@.len() ==> sched_wf((#[trigger] self.workplan@[x]).1@),
                *self == (Broker { workplan: self.workplan, ..snap1 }),
            decreases self.reservations@.len() - j,
        {
            let sched = clone_schedule(&self.reservations[j]);
            workplan_install(&mut self.workplan, region_begin, region_end, j as CoreIndex, &sched);
            j = j + 1;
        }

        // Plan the live leases onto the cores after the reservations.
        let ghost snap2 = *self;
        let mut j2: usize = 0;
        while j2 < self.leases.len()
            invariant
                snap2.wf(),
                region_begin <= region_end,
                j2 <= self.leases@.len(),
                self.leases@.len() == snap2.leases@.len(),
                reserved_count + self.leases@.len() <= 0xFFFF,
                reserved_count == snap2.reservations@.len(),
                ukeys(self.workplan@),
                forall|x: int|
                    0 <= x < self.workplan@.len() ==> sched_wf((#[trigger] self.workplan@[x]).1@),
                *self == (Broker { workplan: self.workplan, ..snap2 }),
            decreases self.leases@.len() - j2,
        {
            let task = self.leases[j2].task;
            let mut s: Schedule = Vec::new();
            s.push(ScheduleItem { mask: CoreMask::complete(), assignment: CoreAssignment::Task(task) });
            proof {
                assert(sched_wf(s@));
            }
            let core: CoreIndex = (reserved_count + j2) as CoreIndex;
            workplan_install(&mut self.workplan, region_begin, region_end, core, &s);
            j2 = j2 + 1;
        }

        // Execute the auto-renewals that fall due with the new sale.
        let ghost snap3 = *self;
        let mut a: usize = 0;
        while a < self.auto_renewals.len()
            invariant
                snap3.wf(),
                snap3.configuration is Some,
                snap3.status is Some,
                snap3.sale_info == Some(ns),
                self.wf(),
                a <= self.auto_renewals@.len(),
                self.auto_renewals@.len() == snap3.auto_renewals@.len(),
                self.sale_info is Some,
                self.sale_info->Some_0 == (SaleInfoRecord {
                    cores_sold: self.sale_info->Some_0.cores_sold,
                    ..ns
                }),
                self.sale_info->Some_0.cores_sold <= ns.cores_offered,
                self.sale_info->Some_0.cores_sold <= a,
                self.status == snap3.status,
                self.configuration == snap3.configuration,
                *self == (Broker {
                    sale_info: self.sale_info,
                    workplan: self.workplan,
                    potential_renewals: self.potential_renewals,
                    auto_renewals: self.auto_renewals,
                    ..snap3
                }),
                ev@.len() >= 1,
                ev@[0] == ev0,
            decreases self.auto_renewals@.len() - a,
        {
            let entry = self.auto_renewals[a];
            if entry.next_renewal <= region_begin {
                match find_sovereign(sovereigns, entry.task) {
                    None => {
                        ev.push(Event::AutoRenewalFailed { core: entry.core, payer: None });
                    },
                    Some(s) => {
                        match self.renew(s.account, s.funds, entry.core, now) {
                            Ok((new_core, revs)) => {
                                append_events(&mut ev, revs);
                                self.auto_renewals.set(
                                    a,
                                    AutoRenewalRecord {
                                        core: new_core,
                                        task: entry.task,
                                        next_renewal: ns.region_end,
                                    },
                                );
                            },
                            Err(_) => {
                                ev.push(
                                    Event::AutoRenewalFailed {
                                        core: entry.core,
                                        payer: Some(s.account),
                                    },
                                );
                            },
                        }
                    },
                }
            }
            a = a + 1;
        }
        ev
    }
}


impl Broker {
    /// Begin the bulk coretime sales rotation.
    ///
    /// Creates the running status — the core count covers the reservations,
    /// the leases and `extra_cores` more — requests that many cores from the
    /// relay, and opens the first sale at the given end price. The first
    /// sale's regions begin one region length after the first uncommitted
    /// timeslice, when that sale's own period ends.
    ///
    /// Fails with `Uninitialized` exactly when no configuration is set;
    /// nothing changes then.
    pub fn start_sales(
        &mut self,
        now: RelayBlockNumber,
        end_price: Balance,
        extra_cores: CoreIndex,
        sovereigns: &Vec<SovereignFunds>,
    ) -> (r: Result<(Vec<Event>, Vec<RelayInstruction>), Error>)
        requires
            old(self).wf(),
        ensures
            final(self).wf(),
            match r {
                Ok((ev, relay)) => {
                    let cfg = old(self).configuration->Some_0;
                    let commit = if old(self).latest_ready_spec(cfg, now) > u32::MAX {
                        u32::MAX as int
                    } else {
                        old(self).latest_ready_spec(cfg, now)
                    };
                    let cc = {
                        let n = old(self).reservations@.len() + old(self).leases@.len()
                            + extra_cores;
                        if n > 0xFFFF {
                            0xFFFF
                        } else {
                            n
                        }
                    };
                    &&& old(self).configuration is Some
                    &&& final(self).status == Some(
                        StatusRecord {
                            core_count: cc as CoreIndex,
                            private_pool_size: 0,
                            system_pool_size: 0,
                            last_committed_timeslice: (if commit > 0 {
                                commit - 1
                            } else {
                                0
                            }) as Timeslice,
                            last_timeslice: old(self).timeslice_of(now),
                        },
                    )
                    &&& final(self).sale_info is Some
                    &&& ({
                        let ns = final(self).sale_info->Some_0;
                        let rb = sat32(commit + cfg.region_length);
                        let fc = old(self).reservations@.len() + live_leases(
                            old(self).leases@,
                            rb as Timeslice,
                        ).len();
                        let avail: int = if cc > fc {
                            cc - fc
                        } else {
                            0
                        };
                        let lim: int = match cfg.limit_cores_offered {
                            Some(l) => l as int,
                            None => 0xFFFF,
                        };
                        &&& ns.region_begin == rb
                        &&& ns.region_end == sat32(rb + cfg.region_length)
                        &&& ns.end_price == end_price
                        &&& ns.sellout_price is None
                        &&& ns.first_core == fc
                        &&& ns.cores_offered == (if avail < lim {
                            avail
                        } else {
                            lim
                        })
                        &&& ns.ideal_cores_sold == crate::pricing::ideal_cores_spec(
                            cfg.ideal_bulk_proportion,
                            ns.cores_offered,
                        )
                        &&& ns.sale_start == sat32(
                            now + sat32(cfg.interlude_length * old(self).limits.timeslice_period),
                        )
                        &&& ns.leadin_length == sat32(
                            cfg.leadin_length * old(self).limits.timeslice_period,
                        )
                        &&& ns.cores_sold <= old(self).auto_renewals@.len()
                        &&& ns.cores_sold <= ns.cores_offered
                    })
                    &&& final(self).leases@ == live_leases(
                        old(self).leases@,
                        sat32(commit + cfg.region_length) as Timeslice,
                    )
                    &&& *final(self) == (Broker {
                        status: final(self).status,
                        sale_info: final(self).sale_info,
                        leases: final(self).leases,
                        workplan: final(self).workplan,
                        potential_renewals: final(self).potential_renewals,
                        auto_renewals: final(self).auto_renewals,
                        ..*old(self)
                    })
                    &&& final(self).auto_renewals@.len() == old(self).auto_renewals@.len()
                    &&& ev@.len() >= 3
                    &&& ev@[0] == Event::SalesStarted { price: end_price, core_count: cc as CoreIndex }
                    &&& ev@[1] == Event::CoreCountRequested { core_count: cc as CoreIndex }
                    &&& (ev@[2] matches Event::SaleInitialized { region_begin, .. } && region_begin
                        == sat32(commit + cfg.region_length))
                    &&& relay@ =~= seq![
                        RelayInstruction::RequestCoreCount { core_count: cc as CoreIndex },
                    ]
                },
                Err(e) => e == Error::Uninitialized && old(self).configuration is None
                    && *final(self) == *old(self),
            },
    {
        let config = match self.configuration {
            Some(c) => c,
            None => {
                return Err(Error::Uninitialized);
            },
        };
        let commit: Timeslice = self.latest_ready(&config, now);
        let n: u64 = self.reservations.len() as u64 + self.leases.len() as u64
            + extra_cores as u64;
        let core_count: CoreIndex = if n > 0xFFFF {
            0xFFFF
        } else {
            n as CoreIndex
        };
        let last_committed: Timeslice = if commit > 0 {
            commit - 1
        } else {
            0
        };
        self.status = Some(
            StatusRecord {
                core_count,
                private_pool_size: 0,
                system_pool_size: 0,
                last_committed_timeslice: last_committed,
                last_timeslice: now / self.limits.timeslice_period,
            },
        );
        let dummy_end: Timeslice = sat_add_u32(commit, config.region_length);
        let dummy = SaleInfoRecord {
            sale_start: now,
            leadin_length: 0,
            end_price,
            sellout_price: None,
            region_begin: commit,
            region_end: dummy_end,
            first_core: 0,
            ideal_cores_sold: 0,
            cores_offered: 0,
            cores_sold: 0,
        };
        let mut ev: Vec<Event> = Vec::new();
        ev.push(Event::SalesStarted { price: end_price, core_count });
        ev.push(Event::CoreCountRequested { core_count });
        let rot_ev = self.rotate_sale(now, dummy, sovereigns);
        append_events(&mut ev, rot_ev);
        let relay = vec![RelayInstruction::RequestCoreCount { core_count }];
        Ok((ev, relay))
    }
}


/// Whether the core's workplan for the regions now on sale is exactly the
/// given task over the full mask: the condition for enrolling it for
/// automatic renewal.
pub open spec fn renewable_workplan(b: Broker, core: CoreIndex, task: TaskId) -> bool {
    let k = WorkplanKey { timeslice: b.sale_info->Some_0.region_begin, core };
    &&& b.workplan_map().dom().contains(k)
    &&& b.workplan_map()[k].len() == 1
    &&& b.workplan_map()[k][0] == (ScheduleItem {
        mask: CoreMask { bits: FULL_MASK },
        assignment: CoreAssignment::Task(task),
    })
}

/// Where an auto-renewal enrollment lands: position `i` is the first whose
/// core is not below the enrolled one; an entry for the same core there is
/// replaced, else the enrollment is inserted at `i`. The enrollment's next
/// renewal falls due at the hint, or at the end of the regions on sale.
pub open spec fn auto_renew_placed_at(
    pre: Broker,
    post: Broker,
    core: CoreIndex,
    task: TaskId,
    hint: Option<Timeslice>,
    i: int,
) -> bool {
    let entry = AutoRenewalRecord {
        core,
        task,
        next_renewal: match hint {
            Some(h) => h,
            None => pre.sale_info->Some_0.region_end,
        },
    };
    &&& 0 <= i <= pre.auto_renewals@.len()
    &&& forall|j: int| 0 <= j < i ==> (#[trigger] pre.auto_renewals@[j]).core < core
    &&& if i < pre.auto_renewals@.len() && pre.auto_renewals@[i].core == core {
        post.auto_renewals@ == pre.auto_renewals@.update(i, entry)
    } else {
        &&& (i == pre.auto_renewals@.len() || pre.auto_renewals@[i].core > core)
        &&& pre.auto_renewals@.len() < pre.limits.max_auto_renewals
        &&& post.auto_renewals@ == pre.auto_renewals@.insert(i, entry)
    }
}

/// The position an auto-renewal enrollment would take is a fresh one: no
/// entry for the core stands there.
pub open spec fn auto_renew_fresh_at(pre: Broker, core: CoreIndex, i: int) -> bool {
    &&& 0 <= i <= pre.auto_renewals@.len()
    &&& forall|j: int| 0 <= j < i ==> (#[trigger] pre.auto_renewals@[j]).core < core
    &&& (i == pre.auto_renewals@.len() || pre.auto_renewals@[i].core > core)
}

impl Broker {
    /// Drop a potential renewal whose sale period has passed: the current
    /// sale's regions begin after the renewal's.
    ///
    /// Fails with `NoSales` before a sale exists, with `StillValid` while
    /// the renewal could still be exercised, and with `UnknownRenewal` when
    /// no such record exists.
    pub fn drop_renewal(&mut self, core: CoreIndex, when: Timeslice) -> (r: Result<
        Vec<Event>,
        Error,
    >)
        requires
            old(self).wf(),
        ensures
            final(self).wf(),
            match r {
                Ok(ev) => {
                    let rid = PotentialRenewalId { core, when };
                    &&& old(self).sale_info is Some
                    &&& old(self).sale_info->Some_0.region_begin > when
                    &&& old(self).renewals_map().dom().contains(rid)
                    &&& final(self).renewals_map() == old(self).renewals_map().remove(rid)
                    &&& *final(self) == (Broker {
                        potential_renewals: final(self).potential_renewals,
                        ..*old(self)
                    })
                    &&& ev@ =~= seq![Event::PotentialRenewalDropped { when, core }]
                },
                Err(e) => *final(self) == *old(self) && match e {
                    Error::NoSales => old(self).sale_info is None,
                    Error::StillValid => old(self).sale_info is Some && old(
                        self,
                    ).sale_info->Some_0.region_begin <= when,
                    Error::UnknownRenewal => old(self).sale_info is Some && old(
                        self,
                    ).sale_info->Some_0.region_begin > when && !old(
                        self,
                    ).renewals_map().dom().contains(PotentialRenewalId { core, when }),
                    _ => false,
                },
            },
    {
        let sale = match self.sale_info {
            Some(s) => s,
            None => {
                return Err(Error::NoSales);
            },
        };
        if sale.region_begin <= when {
            return Err(Error::StillValid);
        }
        match renewal_remove(&mut self.potential_renewals, PotentialRenewalId { core, when }) {
            Some(_) => Ok(vec![Event::PotentialRenewalDropped { when, core }]),
            None => Err(Error::UnknownRenewal),
        }
    }

    /// Enroll a core for automatic renewal, paid by the sovereign account of
    /// the task it runs.
    ///
    /// The caller hands in the task's sovereign account as the hosting
    /// runtime resolved it. Fails with `SovereignAccountNotFound` when there
    /// is none, with `NoPermission` when the caller is not it, with
    /// `NoSales` before a sale exists, with `NonTaskAutoRenewal` unless the
    /// core's workplan for the upcoming regions is exactly the task over the
    /// full mask, and with `TooManyAutoRenewals` when the enrollment is new
    /// and the limit is reached. Nothing changes on failure.
    ///
    /// The next renewal falls due at `workload_end_hint`, or at the end of
    /// the regions now on sale.
    #[verifier::rlimit(60)]
    #[verifier::spinoff_prover]
    pub fn enable_auto_renew(
        &mut self,
        who: AccountId,
        sovereign: Option<AccountId>,
        core: CoreIndex,
        task: TaskId,
        workload_end_hint: Option<Timeslice>,
    ) -> (r: Result<Vec<Event>, Error>)
        requires
            old(self).wf(),
        ensures
            final(self).wf(),
            r is Ok ==> sovereign == Some(who) && old(self).sale_info is Some
                && renewable_workplan(*old(self), core, task),
            r is Ok ==> (exists|i: int|
                #[trigger] auto_renew_placed_at(
                    *old(self),
                    *final(self),
                    core,
                    task,
                    workload_end_hint,
                    i,
                )),
            r is Ok ==> *final(self) == (Broker {
                auto_renewals: final(self).auto_renewals,
                ..*old(self)
            }),
            match r {
                Ok(ev) => ev@ =~= seq![Event::AutoRenewalEnabled { core, task }],
                Err(e) => *final(self) == *old(self) && match e {
                    Error::SovereignAccountNotFound => sovereign is None,
                    Error::NoPermission => sovereign is Some && sovereign != Some(who),
                    Error::NoSales => sovereign == Some(who) && old(self).sale_info is None,
                    Error::NonTaskAutoRenewal => sovereign == Some(who) && old(
                        self,
                    ).sale_info is Some && !renewable_workplan(*old(self), core, task),
                    Error::TooManyAutoRenewals => sovereign == Some(who) && old(
                        self,
                    ).sale_info is Some && renewable_workplan(*old(self), core, task) && old(
                        self,
                    ).auto_renewals@.len() >= old(self).limits.max_auto_renewals && (exists|
                        i: int,
                    | #[trigger] auto_renew_fresh_at(*old(self), core, i)),
                    _ => false,
                },
            },
    {
        let sov = match sovereign {
            Some(s) => s,
            None => {
                return Err(Error::SovereignAccountNotFound);
            },
        };
        if sov != who {
            return Err(Error::NoPermission);
        }
        let sale = match self.sale_info {
            Some(s) => s,
            None => {
                return Err(Error::NoSales);
            },
        };
        // The upcoming workplan of the core must be the task over the whole
        // mask.
        let wkey = WorkplanKey { timeslice: sale.region_begin, core };
        let widx = work_index(&self.workplan, wkey);
        let ok = match widx {
            Some(i) => {
                proof {
                    lemma_amap_index(self.workplan@, i as int);
                }
                let sched = &self.workplan[i].1;
                if sched.len() == 1 {
                    let it = sched[0];
                    it.mask.is_complete() && it.assignment == CoreAssignment::Task(task)
                } else {
                    false
                }
            },
            None => {
                proof {
                    lemma_amap_absent(self.workplan@, wkey);
                }
                false
            },
        };
        if !ok {
            return Err(Error::NonTaskAutoRenewal);
        }
        let next_renewal = match workload_end_hint {
            Some(h) => h,
            None => sale.region_end,
        };
        let entry = AutoRenewalRecord { core, task, next_renewal };
        // Keep the list sorted by core: replace the core's entry or insert
        // at its place.
        let mut i: usize = 0;
        while i < self.auto_renewals.len() && self.auto_renewals[i].core < core
            invariant
                i <= self.auto_renewals@.len(),
                *self == *old(self),
                old(self).wf(),
                sovereign == Some(who),
                old(self).sale_info == Some(sale),
                renewable_workplan(*old(self), core, task),
                forall|j: int|
                    0 <= j < i ==> (#[trigger] self.auto_renewals@[j]).core < core,
            decreases self.auto_renewals@.len() - i,
        {
            i = i + 1;
        }
        if i < self.auto_renewals.len() && self.auto_renewals[i].core == core {
            self.auto_renewals.set(i, entry);
            proof {
                assert(forall|j: int|
                    0 <= j < i ==> (#[trigger] old(self).auto_renewals@[j]).core < core);
                assert(self.auto_renewals@ == old(self).auto_renewals@.update(i as int, entry));
                assert(auto_renew_placed_at(
                    *old(self),
                    *self,
                    core,
                    task,
                    workload_end_hint,
                    i as int,
                ));
            }
        } else {
            if self.auto_renewals.len() >= self.limits.max_auto_renewals as usize {
                proof {
                    assert(forall|j: int|
                        0 <= j < i ==> (#[trigger] old(self).auto_renewals@[j]).core < core);
                    assert(i == old(self).auto_renewals@.len() || old(
                        self,
                    ).auto_renewals@[i as int].core > core);
                    assert(auto_renew_fresh_at(*old(self), core, i as int));
                }
                return Err(Error::TooManyAutoRenewals);
            }
            self.auto_renewals.insert(i, entry);
            proof {
                assert(forall|j: int|
                    0 <= j < i ==> (#[trigger] old(self).auto_renewals@[j]).core < core);
                assert(i == old(self).auto_renewals@.len() || old(
                    self,
                ).auto_renewals@[i as int].core > core);
                assert(self.auto_renewals@ == old(self).auto_renewals@.insert(i as int, entry));
                assert(auto_renew_placed_at(
                    *old(self),
                    *self,
                    core,
                    task,
                    workload_end_hint,
                    i as int,
                ));
            }
        }
        Ok(vec![Event::AutoRenewalEnabled { core, task }])
    }

    /// Withdraw a core from automatic renewal.
    ///
    /// Fails with `SovereignAccountNotFound` and `NoPermission` as
    /// `enable_auto_renew` does, and with `AutoRenewalNotEnabled` when the
    /// core is not enrolled for the task; nothing changes then.
    pub fn disable_auto_renew(
        &mut self,
        who: AccountId,
        sovereign: Option<AccountId>,
        core: CoreIndex,
        task: TaskId,
    ) -> (r: Result<Vec<Event>, Error>)
        requires
            old(self).wf(),
        ensures
            final(self).wf(),
            match r {
                Ok(ev) => ev@ =~= seq![Event::AutoRenewalDisabled { core, task }] && sovereign
                    == Some(who) && (exists|i: int|
                    {
                        &&& 0 <= i < old(self).auto_renewals@.len()
                        &&& (#[trigger] old(self).auto_renewals@[i]).core == core
                        &&& old(self).auto_renewals@[i].task == task
                        &&& final(self).auto_renewals@ == old(self).auto_renewals@.remove(i)
                        &&& *final(self) == (Broker {
                            auto_renewals: final(self).auto_renewals,
                            ..*old(self)
                        })
                    }),
                Err(e) => *final(self) == *old(self) && match e {
                    Error::SovereignAccountNotFound => sovereign is None,
                    Error::NoPermission => sovereign is Some && sovereign != Some(who),
                    Error::AutoRenewalNotEnabled => sovereign == Some(who) && (forall|i: int|
                        0 <= i < old(self).auto_renewals@.len() ==> !((#[trigger] old(
                            self,
                        ).auto_renewals@[i]).core == core && old(self).auto_renewals@[i].task
                            == task)),
                    _ => false,
                },
            },
    {
        let sov = match sovereign {
            Some(s) => s,
            None => {
                return Err(Error::SovereignAccountNotFound);
            },
        };
        if sov != who {
            return Err(Error::NoPermission);
        }
        let mut i: usize = 0;
        while i < self.auto_renewals.len()
            invariant
                *self == *old(self),
                old(self).wf(),
                sovereign == Some(who),
                i <= self.auto_renewals@.len(),
                forall|j: int|
                    0 <= j < i ==> !((#[trigger] self.auto_renewals@[j]).core == core
                        && self.auto_renewals@[j].task == task),
            decreases self.auto_renewals@.len() - i,
        {
            let e = self.auto_renewals[i];
            if e.core == core && e.task == task {
                self.auto_renewals.remove(i);
                proof {
                    assert((old(self).auto_renewals@[i as int]).core == core);
                    assert(self.auto_renewals@ == old(self).auto_renewals@.remove(i as int));
                }
                return Ok(vec![Event::AutoRenewalDisabled { core, task }]);
            }
            i = i + 1;
        }
        Err(Error::AutoRenewalNotEnabled)
    }
}

} // verus!
