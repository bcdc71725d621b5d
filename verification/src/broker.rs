//! The broker's state and its admin surface.

use vstd::prelude::*;
use crate::schedule::sched_wf;
use crate::store::{amap, ukeys};
use crate::types::{
    AutoRenewalRecord, Balance, CompletionStatus, ConfigRecord, ContributionRecord, CoreIndex,
    Error, Event,
    InstaPoolHistoryRecord, LeaseRecordItem, OnDemandRevenueRecord, PoolIoRecord,
    PotentialRenewalId, PotentialRenewalRecord, RegionId, RegionRecord, RelayBlockNumber,
    RelayInstruction, SaleInfoRecord, Schedule, ScheduleItem, StatusRecord, TaskId, Timeslice,
    WorkplanKey,
};

verus! {

/// The broker's fixed limits, set once by the hosting runtime.
#[derive(Clone, Copy, PartialEq, Eq, Debug)]
pub struct Limits {
    /// Relay blocks per timeslice; at least one.
    pub timeslice_period: u32,
    /// Maximum number of legacy leases.
    pub max_leased_cores: u32,
    /// Maximum number of reservations.
    pub max_reserved_cores: u32,
    /// Maximum number of cores enrolled for auto-renewal.
    pub max_auto_renewals: u32,
    /// The smallest amount of pool credit a purchase may buy.
    pub minimum_credit_purchase: Balance,
}

impl Limits {
    /// Sane limits: a positive timeslice period, and few enough reserved and
    /// leased cores that they always fit the core-index range together.
    pub open spec fn wf(self) -> bool {
        &&& self.timeslice_period >= 1
        &&& self.max_leased_cores + self.max_reserved_cores <= 0xFFFF
    }
}

/// The broker: one value holding the whole logical state.
pub struct Broker {
    /// The fixed limits.
    pub limits: Limits,
    /// The current configuration, once set.
    pub configuration: Option<ConfigRecord>,
    /// The running status, once sales have started.
    pub status: Option<StatusRecord>,
    /// The current sale, once sales have started.
    pub sale_info: Option<SaleInfoRecord>,
    /// Permanent workloads, assigned to the first cores at each rotation.
    pub reservations: Vec<Schedule>,
    /// Legacy leases, assigned after the reservations at each rotation.
    pub leases: Vec<LeaseRecordItem>,
    /// Workloads that may be renewed, by core and begin.
    pub potential_renewals: Vec<(PotentialRenewalId, PotentialRenewalRecord)>,
    /// The live regions.
    pub regions: Vec<(RegionId, RegionRecord)>,
    /// The schedules planned for future timeslices.
    pub workplan: Vec<(WorkplanKey, Schedule)>,
    /// The schedules currently installed on the cores.
    pub workload: Vec<(CoreIndex, Schedule)>,
    /// The live pool contributions, by contributing region.
    pub insta_pool_contribution: Vec<(RegionId, ContributionRecord)>,
    /// Lanes entering or leaving the pool at future timeslices.
    pub insta_pool_io: Vec<(Timeslice, PoolIoRecord)>,
    /// Pool accounting for elapsed timeslices.
    pub insta_pool_history: Vec<(Timeslice, InstaPoolHistoryRecord)>,
    /// A core-count change received from the relay, not yet ingested.
    pub core_count_inbox: Option<CoreIndex>,
    /// Revenue received from the relay, not yet ingested.
    pub revenue_inbox: Option<OnDemandRevenueRecord>,
    /// Cores enrolled for automatic renewal, sorted by core.
    pub auto_renewals: Vec<AutoRenewalRecord>,
}

/// A valid configuration: a positive region length, and the interlude and
/// leadin short enough to fit it.
pub open spec fn config_valid(c: ConfigRecord) -> bool {
    &&& c.region_length >= 1
    &&& c.interlude_length + c.leadin_length < c.region_length
}

impl Broker {
    /// The regions as a map.
    pub open spec fn regions_map(self) -> Map<RegionId, RegionRecord> {
        amap(self.regions@)
    }

    /// The workplan as a map to schedules.
    pub open spec fn workplan_map(self) -> Map<WorkplanKey, Seq<ScheduleItem>> {
        amap(self.workplan@).map_values(|s: Schedule| s@)
    }

    /// The installed workloads as a map to schedules.
    pub open spec fn workload_map(self) -> Map<CoreIndex, Seq<ScheduleItem>> {
        amap(self.workload@).map_values(|s: Schedule| s@)
    }

    /// The potential renewals as a map.
    pub open spec fn renewals_map(self) -> Map<PotentialRenewalId, PotentialRenewalRecord> {
        amap(self.potential_renewals@)
    }

    /// The pool contributions as a map.
    pub open spec fn contributions_map(self) -> Map<RegionId, ContributionRecord> {
        amap(self.insta_pool_contribution@)
    }

    /// The pool in-and-out ledger as a map.
    pub open spec fn pool_io_map(self) -> Map<Timeslice, PoolIoRecord> {
        amap(self.insta_pool_io@)
    }

    /// The pool history as a map.
    pub open spec fn history_map(self) -> Map<Timeslice, InstaPoolHistoryRecord> {
        amap(self.insta_pool_history@)
    }

    /// The broker's invariant.
    ///
    /// Keys are unique in every keyed collection; every region is non-empty
    /// in both time and mask; every schedule anywhere — workplan, workload,
    /// reservations, renewals — is well-formed, so by `lemma_sched_bits_le`
    /// no workplan entry ever covers more than the 80 lanes of its core;
    /// every contribution's span fits the timeslice range; the bounded
    /// collections respect their limits; the configuration, once set, is
    /// valid; the sale's regions are never inverted.
    pub open spec fn wf(self) -> bool {
        &&& self.limits.wf()
        &&& match self.configuration {
            Some(c) => config_valid(c),
            None => true,
        }
        &&& ukeys(self.regions@)
        &&& forall|i: int|
            0 <= i < self.regions@.len() ==> {
                let (id, record) = #[trigger] self.regions@[i];
                &&& id.mask.wf()
                &&& id.mask.bits != 0
                &&& id.begin < record.end
            }
        &&& ukeys(self.workplan@)
        &&& forall|i: int|
            0 <= i < self.workplan@.len() ==> sched_wf((#[trigger] self.workplan@[i]).1@)
        &&& ukeys(self.workload@)
        &&& forall|i: int|
            0 <= i < self.workload@.len() ==> sched_wf((#[trigger] self.workload@[i]).1@)
        &&& ukeys(self.potential_renewals@)
        &&& forall|i: int|
            0 <= i < self.potential_renewals@.len() ==> match (
            #[trigger] self.potential_renewals@[i]).1.completion {
                CompletionStatus::Complete(w) => sched_wf(w@),
                CompletionStatus::Partial(_) => true,
            }
        &&& match self.sale_info {
            Some(s) => s.region_begin <= s.region_end,
            None => true,
        }
        &&& ukeys(self.insta_pool_contribution@)
        &&& forall|i: int|
            0 <= i < self.insta_pool_contribution@.len() ==> {
                let (id, c) = #[trigger] self.insta_pool_contribution@[i];
                id.begin + c.length <= 0x1_0000_0000
            }
        &&& ukeys(self.insta_pool_io@)
        &&& ukeys(self.insta_pool_history@)
        &&& forall|i: int|
            0 <= i < self.reservations@.len() ==> sched_wf((#[trigger] self.reservations@[i])@)
        &&& self.reservations@.len() <= self.limits.max_reserved_cores
        &&& self.leases@.len() <= self.limits.max_leased_cores
        &&& self.auto_renewals@.len() <= self.limits.max_auto_renewals
    }

    /// A fresh broker with nothing configured.
    pub fn new(limits: Limits) -> (r: Broker)
        requires
            limits.timeslice_period >= 1,
            limits.max_leased_cores + limits.max_reserved_cores <= 0xFFFF,
        ensures
            r.wf(),
            r.limits == limits,
            r.configuration is None,
            r.status is None,
            r.sale_info is None,
            r.regions@.len() == 0,
            r.workplan@.len() == 0,
            r.workload@.len() == 0,
            r.reservations@.len() == 0,
            r.leases@.len() == 0,
            r.potential_renewals@.len() == 0,
            r.insta_pool_contribution@.len() == 0,
            r.insta_pool_io@.len() == 0,
            r.insta_pool_history@.len() == 0,
            r.auto_renewals@.len() == 0,
            r.core_count_inbox is None,
            r.revenue_inbox is None,
    {
        Broker {
            limits,
            configuration: None,
            status: None,
            sale_info: None,
            reservations: Vec::new(),
            leases: Vec::new(),
            potential_renewals: Vec::new(),
            regions: Vec::new(),
            workplan: Vec::new(),
            workload: Vec::new(),
            insta_pool_contribution: Vec::new(),
            insta_pool_io: Vec::new(),
            insta_pool_history: Vec::new(),
            core_count_inbox: None,
            revenue_inbox: None,
            auto_renewals: Vec::new(),
        }
    }

    /// The timeslice a relay block falls in.
    pub open spec fn timeslice_of(self, now: RelayBlockNumber) -> Timeslice
        recommends
            self.limits.timeslice_period >= 1,
    {
        (now / self.limits.timeslice_period) as Timeslice
    }

    /// The latest timeslice whose schedule is ready to commit: the relay
    /// needs schedules `advance_notice` relay blocks ahead, rounded up to a
    /// whole timeslice.
    pub open spec fn latest_ready_spec(self, c: ConfigRecord, now: RelayBlockNumber) -> int
        recommends
            self.limits.timeslice_period >= 1,
    {
        (now + c.advance_notice + self.limits.timeslice_period - 1) as int
            / self.limits.timeslice_period as int
    }

    /// Compute the latest timeslice ready to commit, clamped to the
    /// timeslice range.
    pub fn latest_ready(&self, c: &ConfigRecord, now: RelayBlockNumber) -> (r: Timeslice)
        requires
            self.limits.timeslice_period >= 1,
        ensures
            r == if self.latest_ready_spec(*c, now) > u32::MAX {
                u32::MAX as int
            } else {
                self.latest_ready_spec(*c, now)
            },
    {
        let p = self.limits.timeslice_period as u64;
        let sum: u64 = now as u64 + c.advance_notice as u64 + p - 1;
        let r: u64 = sum / p;
        proof {
            assert(sum as int / p as int <= sum as int) by (nonlinear_arith)
                requires
                    p >= 1,
                    sum >= 0,
            ;
        }
        if r > u32::MAX as u64 {
            u32::MAX
        } else {
            r as u32
        }
    }

    /// Set the configuration.
    ///
    /// Fails with `InvalidConfig` exactly when the region length is zero or
    /// the interlude and leadin do not fit a region; nothing changes then.
    pub fn configure(&mut self, config: ConfigRecord) -> (r: Result<(), Error>)
        requires
            old(self).wf(),
        ensures
            final(self).wf(),
            match r {
                Ok(()) => config_valid(config) && *final(self) == (Broker {
                    configuration: Some(config),
                    ..*old(self)
                }),
                Err(e) => e == Error::InvalidConfig && !config_valid(config) && *final(self)
                    == *old(self),
            },
    {
        if config.region_length >= 1 && config.interlude_length <= u32::MAX
            - config.leadin_length && config.interlude_length + config.leadin_length
            < config.region_length {
            self.configuration = Some(config);
            Ok(())
        } else {
            Err(Error::InvalidConfig)
        }
    }

    /// Reserve a core for a workload, to be scheduled from the second
    /// rotation after this one.
    ///
    /// Fails with `TooManyReservations` exactly when the limit is reached.
    /// The workload must be a well-formed schedule; the hosting runtime
    /// checks this before dispatching.
    pub fn reserve(&mut self, workload: Schedule) -> (r: Result<Vec<Event>, Error>)
        requires
            old(self).wf(),
            sched_wf(workload@),
        ensures
            final(self).wf(),
            match r {
                Ok(ev) => old(self).reservations@.len() < old(self).limits.max_reserved_cores
                    && final(self).reservations@ == old(self).reservations@.push(workload)
                    && *final(self) == (Broker {
                    reservations: final(self).reservations,
                    ..*old(self)
                }) && ev@.len() == 1 && (ev@[0] matches Event::ReservationMade {
                    index,
                    workload: w,
                } && index == old(self).reservations@.len() && w@ == workload@),
                Err(e) => e == Error::TooManyReservations && old(self).reservations@.len() >= old(
                    self,
                ).limits.max_reserved_cores && *final(self) == *old(self),
            },
    {
        if self.reservations.len() >= self.limits.max_reserved_cores as usize {
            return Err(Error::TooManyReservations);
        }
        let index = self.reservations.len() as u32;
        let copy = crate::schedule::clone_schedule(&workload);
        self.reservations.push(workload);
        Ok(vec![Event::ReservationMade { index, workload: copy }])
    }

    /// Cancel a reservation by index.
    ///
    /// Fails with `UnknownReservation` exactly when no reservation has the
    /// index.
    pub fn unreserve(&mut self, item_index: u32) -> (r: Result<Vec<Event>, Error>)
        requires
            old(self).wf(),
        ensures
            final(self).wf(),
            match r {
                Ok(ev) => item_index < old(self).reservations@.len() && final(self).reservations@
                    == old(self).reservations@.remove(item_index as int) && *final(self) == (Broker {
                    reservations: final(self).reservations,
                    ..*old(self)
                }) && ev@.len() == 1 && (ev@[0] matches Event::ReservationCancelled {
                    index,
                    workload: w,
                } && index == item_index && w == old(self).reservations@[item_index as int]),
                Err(e) => e == Error::UnknownReservation && item_index >= old(
                    self,
                ).reservations@.len() && *final(self) == *old(self),
            },
    {
        if item_index as usize >= self.reservations.len() {
            return Err(Error::UnknownReservation);
        }
        let workload = self.reservations.remove(item_index as usize);
        Ok(vec![Event::ReservationCancelled { index: item_index, workload }])
    }

    /// Create a lease: the task holds a core until the given timeslice.
    ///
    /// Fails with `AlreadyExpired` when `until` is not after the current
    /// timeslice, else with `TooManyLeases` when the limit is reached.
    pub fn set_lease(&mut self, now: RelayBlockNumber, task: TaskId, until: Timeslice) -> (r:
        Result<Vec<Event>, Error>)
        requires
            old(self).wf(),
        ensures
            final(self).wf(),
            match r {
                Ok(ev) => until > old(self).timeslice_of(now) && old(self).leases@.len() < old(
                    self,
                ).limits.max_leased_cores && final(self).leases@ == old(self).leases@.push(
                    LeaseRecordItem { task, until },
                ) && *final(self) == (Broker { leases: final(self).leases, ..*old(self) }) && ev@
                    =~= seq![Event::Leased { task, until }],
                Err(e) => *final(self) == *old(self) && (if until <= old(self).timeslice_of(now) {
                    e == Error::AlreadyExpired
                } else {
                    e == Error::TooManyLeases && old(self).leases@.len() >= old(
                        self,
                    ).limits.max_leased_cores
                }),
            },
    {
        if until <= now / self.limits.timeslice_period {
            return Err(Error::AlreadyExpired);
        }
        if self.leases.len() >= self.limits.max_leased_cores as usize {
            return Err(Error::TooManyLeases);
        }
        self.leases.push(LeaseRecordItem { task, until });
        Ok(vec![Event::Leased { task, until }])
    }

    /// Remove the lease of a task.
    ///
    /// Fails with `LeaseNotFound` exactly when no lease names the task; else
    /// the first lease naming it goes.
    pub fn remove_lease(&mut self, task: TaskId) -> (r: Result<Vec<Event>, Error>)
        requires
            old(self).wf(),
        ensures
            final(self).wf(),
            match r {
                Ok(ev) => ev@ =~= seq![Event::LeaseRemoved { task }] && (exists|i: int|
                    {
                        &&& 0 <= i < old(self).leases@.len()
                        &&& (#[trigger] old(self).leases@[i]).task == task
                        &&& forall|j: int|
                            0 <= j < i ==> (#[trigger] old(self).leases@[j]).task != task
                        &&& final(self).leases@ == old(self).leases@.remove(i)
                        &&& *final(self) == (Broker { leases: final(self).leases, ..*old(self) })
                    }),
                Err(e) => e == Error::LeaseNotFound && *final(self) == *old(self) && (forall|
                    i: int,
                |
                    0 <= i < old(self).leases@.len() ==> (#[trigger] old(self).leases@[i]).task
                        != task),
            },
    {
        let mut i: usize = 0;
        while i < self.leases.len()
            invariant
                *self == *old(self),
                old(self).wf(),
                i <= self.leases@.len(),
                forall|j: int| 0 <= j < i ==> (#[trigger] self.leases@[j]).task != task,
            decreases self.leases@.len() - i,
        {
            if self.leases[i].task == task {
                self.leases.remove(i);
                return Ok(vec![Event::LeaseRemoved { task }]);
            }
            i = i + 1;
        }
        Err(Error::LeaseNotFound)
    }

    /// Swap the expiry times of two tasks' leases.
    ///
    /// Fails with `LeaseNotFound` when either task has no lease; nothing
    /// changes then.
    pub fn swap_leases(&mut self, id: TaskId, other: TaskId) -> (r: Result<(), Error>)
        requires
            old(self).wf(),
        ensures
            final(self).wf(),
            r is Err ==> *final(self) == *old(self) && r == Result::<(), Error>::Err(
                Error::LeaseNotFound,
            ) && ((forall|i: int|
                0 <= i < old(self).leases@.len() ==> (#[trigger] old(self).leases@[i]).task != id)
                || (forall|i: int|
                0 <= i < old(self).leases@.len() ==> (#[trigger] old(self).leases@[i]).task
                    != other)),
            r is Ok ==> {
                &&& *final(self) == (Broker { leases: final(self).leases, ..*old(self) })
                &&& final(self).leases@.len() == old(self).leases@.len()
                &&& exists|i: int, j: int|
                    {
                        &&& 0 <= i < old(self).leases@.len()
                        &&& 0 <= j < old(self).leases@.len()
                        &&& (#[trigger] old(self).leases@[i]).task == id
                        &&& (#[trigger] old(self).leases@[j]).task == other
                        &&& final(self).leases@ == old(self).leases@.update(
                            i,
                            LeaseRecordItem { task: id, until: old(self).leases@[j].until },
                        ).update(
                            j,
                            LeaseRecordItem { task: other, until: old(self).leases@[i].until },
                        )
                    }
            },
    {
        let mut i: usize = 0;
        let mut found_i: Option<usize> = None;
        while i < self.leases.len()
            invariant
                i <= self.leases@.len(),
                match found_i {
                    Some(x) => x < i && self.leases@[x as int].task == id,
                    None => forall|j: int|
                        0 <= j < i ==> (#[trigger] self.leases@[j]).task != id,
                },
            decreases self.leases@.len() - i,
        {
            if self.leases[i].task == id && found_i.is_none() {
                found_i = Some(i);
            }
            i = i + 1;
        }
        let mut j: usize = 0;
        let mut found_j: Option<usize> = None;
        while j < self.leases.len()
            invariant
                j <= self.leases@.len(),
                match found_j {
                    Some(x) => x < j && self.leases@[x as int].task == other,
                    None => forall|y: int|
                        0 <= y < j ==> (#[trigger] self.leases@[y]).task != other,
                },
                match found_i {
                    Some(x) => x < self.leases@.len() && self.leases@[x as int].task == id,
                    None => true,
                },
            decreases self.leases@.len() - j,
        {
            if self.leases[j].task == other && found_j.is_none() {
                found_j = Some(j);
            }
            j = j + 1;
        }
        match (found_i, found_j) {
            (Some(a), Some(b)) => {
                let until_a = self.leases[a].until;
                let until_b = self.leases[b].until;
                self.leases.set(a, LeaseRecordItem { task: id, until: until_b });
                self.leases.set(b, LeaseRecordItem { task: other, until: until_a });
                Ok(())
            },
            _ => Err(Error::LeaseNotFound),
        }
    }

    /// Ask the relay for a different number of cores.
    pub fn request_core_count(&self, core_count: CoreIndex) -> (r: (Vec<Event>, Vec<
        RelayInstruction,
    >))
        ensures
            r.0@ =~= seq![Event::CoreCountRequested { core_count }],
            r.1@ =~= seq![RelayInstruction::RequestCoreCount { core_count }],
    {
        (
            vec![Event::CoreCountRequested { core_count }],
            vec![RelayInstruction::RequestCoreCount { core_count }],
        )
    }

    /// Take note of a core-count change announced by the relay; the next
    /// tick ingests it.
    pub fn notify_core_count(&mut self, core_count: CoreIndex)
        requires
            old(self).wf(),
        ensures
            final(self).wf(),
            *final(self) == (Broker { core_count_inbox: Some(core_count), ..*old(self) }),
    {
        self.core_count_inbox = Some(core_count);
    }

    /// Take note of revenue reported by the relay; the next tick ingests it.
    pub fn notify_revenue(&mut self, revenue: OnDemandRevenueRecord)
        requires
            old(self).wf(),
        ensures
            final(self).wf(),
            *final(self) == (Broker { revenue_inbox: Some(revenue), ..*old(self) }),
    {
        self.revenue_inbox = Some(revenue);
    }

    /// Drop a region whose time has fully passed.
    ///
    /// Fails with `Uninitialized` before sales have started, with
    /// `UnknownRegion` when the region is not known, and with `StillValid`
    /// when the region's end has not yet been committed.
    pub fn drop_region(&mut self, region_id: RegionId) -> (r: Result<Vec<Event>, Error>)
        requires
            old(self).wf(),
        ensures
            final(self).wf(),
            match r {
                Ok(ev) => {
                    &&& old(self).status is Some
                    &&& old(self).regions_map().dom().contains(region_id)
                    &&& old(self).regions_map()[region_id].end
                        <= old(self).status->Some_0.last_committed_timeslice
                    &&& final(self).regions_map() == old(self).regions_map().remove(region_id)
                    &&& crate::laws::regions_weight(final(self).regions@)
                        == crate::laws::regions_weight(old(self).regions@)
                        - crate::laws::region_weight(
                        region_id,
                        old(self).regions_map()[region_id],
                    )
                    &&& *final(self) == (Broker { regions: final(self).regions, ..*old(self) })
                    &&& ev@ =~= seq![
                        Event::RegionDropped {
                            region_id,
                            duration: (old(self).regions_map()[region_id].end
                                - region_id.begin) as Timeslice,
                        },
                    ]
                },
                Err(e) => *final(self) == *old(self) && match e {
                    Error::Uninitialized => old(self).status is None,
                    Error::UnknownRegion => old(self).status is Some && !old(
                        self,
                    ).regions_map().dom().contains(region_id),
                    Error::StillValid => old(self).status is Some && old(
                        self,
                    ).regions_map().dom().contains(region_id) && old(
                        self,
                    ).regions_map()[region_id].end
                        > old(self).status->Some_0.last_committed_timeslice,
                    _ => false,
                },
            },
    {
        let status = match self.status {
            Some(s) => s,
            None => {
                return Err(Error::Uninitialized);
            },
        };
        let idx = crate::store::region_index(&self.regions, region_id);
        match idx {
            Some(i) => {
                proof {
                    crate::store::lemma_amap_index(self.regions@, i as int);
                }
                let record = self.regions[i].1;
                if record.end > status.last_committed_timeslice {
                    return Err(Error::StillValid);
                }
                proof {
                    crate::store::lemma_amap_remove(self.regions@, i as int);
                    crate::laws::lemma_weight_remove(self.regions@, i as int);
                }
                self.regions.remove(i);
                let duration = record.end - region_id.begin;
                Ok(vec![Event::RegionDropped { region_id, duration }])
            },
            None => {
                proof {
                    crate::store::lemma_amap_absent(self.regions@, region_id);
                }
                Err(Error::UnknownRegion)
            },
        }
    }
}

} // verus!
