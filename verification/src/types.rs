//! The broker's data model: records, events, errors and relay instructions.

use vstd::prelude::*;
use crate::mask::CoreMask;

verus! {

/// Index of a timeslice: a period of `timeslice_period` relay blocks.
pub type Timeslice = u32;

/// Identity of an execution core.
pub type CoreIndex = u16;

/// Identity of a task that coretime can be assigned to.
pub type TaskId = u32;

/// A block number of the relay layer that ultimately schedules the cores.
pub type RelayBlockNumber = u32;

/// An amount of currency.
pub type Balance = u128;

/// Identity of an account holding currency.
pub type AccountId = u64;

/// A share of a core expressed in parts of 57600, as the relay expects it.
pub type PartsOf57600 = u16;

/// One part of a relay core assignment: what a share of the core does.
#[derive(Clone, Copy, PartialEq, Eq, Structural, Debug)]
pub struct AssignmentPart {
    /// What the share is put to.
    pub assignment: CoreAssignment,
    /// The share, in parts of 57600.
    pub parts: PartsOf57600,
}

/// What a share of a core is put to.
#[derive(Clone, Copy, PartialEq, Eq, Structural, Debug)]
pub enum CoreAssignment {
    /// The share sits idle.
    Idle,
    /// The share serves the instantaneous coretime pool.
    Pool,
    /// The share runs the given task.
    Task(TaskId),
}

/// One entry of a core's schedule: a mask of lanes and what they run.
#[derive(Clone, Copy, PartialEq, Eq, Structural, Debug)]
pub struct ScheduleItem {
    /// The lanes of the core this entry covers.
    pub mask: CoreMask,
    /// What those lanes are put to.
    pub assignment: CoreAssignment,
}

/// A core's schedule: entries over pairwise disjoint masks.
pub type Schedule = Vec<ScheduleItem>;

/// Whether an assignment can still be revised.
#[derive(Clone, Copy, PartialEq, Eq, Structural, Debug)]
pub enum Finality {
    /// The assignment may be replaced later; the region record stays.
    Provisional,
    /// The assignment is final; the region record is consumed.
    Final,
}

/// The handle of a region: a content-addressed identifier whose fields
/// disambiguate the pieces a region is split into.
#[derive(Clone, Copy, PartialEq, Eq, Structural, Debug)]
pub struct RegionId {
    /// The first timeslice the region covers.
    pub begin: Timeslice,
    /// The core the region lives on.
    pub core: CoreIndex,
    /// The interlace lanes of the core the region covers.
    pub mask: CoreMask,
}

/// The record a region handle addresses.
#[derive(Clone, Copy, PartialEq, Eq, Debug)]
pub struct RegionRecord {
    /// One past the last timeslice the region covers.
    pub end: Timeslice,
    /// The owner able to manipulate the region; `None` makes it
    /// unmanipulable (system-owned).
    pub owner: Option<AccountId>,
    /// The price originally paid, if the region was purchased whole and may
    /// still confer renewal rights.
    pub paid: Option<Balance>,
}

/// The broker's configuration. Admin-set; validated by `configure`.
#[derive(Clone, Copy, PartialEq, Eq, Debug)]
pub struct ConfigRecord {
    /// How many relay blocks ahead of time schedules are committed to the
    /// relay.
    pub advance_notice: RelayBlockNumber,
    /// Length in timeslices of the interlude that opens each sale period,
    /// in which only renewals are possible.
    pub interlude_length: Timeslice,
    /// Length in timeslices of the leadin that follows the interlude, over
    /// which the price decays to the end price.
    pub leadin_length: Timeslice,
    /// Length in timeslices of the regions each sale offers.
    pub region_length: Timeslice,
    /// The fraction of offered cores that should ideally sell as bulk, in
    /// parts per million.
    pub ideal_bulk_proportion: u32,
    /// A cap on the number of cores offered for sale, if any.
    pub limit_cores_offered: Option<CoreIndex>,
    /// The minimum price rise per period for renewals, in parts per million
    /// of the price previously paid.
    pub renewal_bump: u32,
    /// How many timeslices after its region ends a pool contribution stays
    /// claimable.
    pub contribution_timeout: Timeslice,
}

/// The running status of the broker.
#[derive(Clone, Copy, PartialEq, Eq, Debug)]
pub struct StatusRecord {
    /// The number of cores the relay schedules for the broker.
    pub core_count: CoreIndex,
    /// Lanes currently contributed to the pool by private regions.
    pub private_pool_size: u32,
    /// Lanes currently contributed to the pool by the system.
    pub system_pool_size: u32,
    /// The last timeslice whose schedule was committed to the relay.
    pub last_committed_timeslice: Timeslice,
    /// The last timeslice for which revenue information was requested.
    pub last_timeslice: Timeslice,
}

/// The state of one sale period.
#[derive(Clone, Copy, PartialEq, Eq, Debug)]
pub struct SaleInfoRecord {
    /// The relay block at which the leadin begins and purchases open.
    pub sale_start: RelayBlockNumber,
    /// The length of the leadin in relay blocks.
    pub leadin_length: RelayBlockNumber,
    /// The price of a full core once the leadin has elapsed.
    pub end_price: Balance,
    /// The price at which the sale reached its ideal, if it did.
    pub sellout_price: Option<Balance>,
    /// The first timeslice of the regions this sale offers.
    pub region_begin: Timeslice,
    /// One past the last timeslice of the regions this sale offers.
    pub region_end: Timeslice,
    /// The first core this sale allocates from.
    pub first_core: CoreIndex,
    /// The number of cores that should ideally be sold.
    pub ideal_cores_sold: CoreIndex,
    /// The number of cores offered for sale.
    pub cores_offered: CoreIndex,
    /// The number of cores sold so far, renewals included.
    pub cores_sold: CoreIndex,
}

/// The key of a workplan entry: a timeslice and the core it schedules.
#[derive(Clone, Copy, PartialEq, Eq, Structural, Debug)]
pub struct WorkplanKey {
    /// The timeslice the schedule is for.
    pub timeslice: Timeslice,
    /// The core the schedule is for.
    pub core: CoreIndex,
}

/// A legacy lease: a task holding a core until a given timeslice.
#[derive(Clone, Copy, PartialEq, Eq, Structural, Debug)]
pub struct LeaseRecordItem {
    /// The leased-to task.
    pub task: TaskId,
    /// The timeslice from which the lease no longer applies.
    pub until: Timeslice,
}

/// The key of a potential renewal: the core it would run on and the
/// timeslice at which the renewed workload would begin.
#[derive(Clone, Copy, PartialEq, Eq, Structural, Debug)]
pub struct PotentialRenewalId {
    /// The core whose workload may be renewed.
    pub core: CoreIndex,
    /// The timeslice at which the renewed workload would begin.
    pub when: Timeslice,
}

/// How much of a core's mask has been finally assigned towards renewal.
#[derive(Clone, PartialEq, Eq, Debug)]
pub enum CompletionStatus {
    /// Only the given lanes are finally assigned so far.
    Partial(CoreMask),
    /// The whole core is finally assigned and runs this schedule.
    Complete(Schedule),
}

/// A record of a renewable workload and its price.
#[derive(Clone, PartialEq, Eq, Debug)]
pub struct PotentialRenewalRecord {
    /// The accumulated price paid for the pieces of the core.
    pub price: Balance,
    /// How much of the core is covered, and by what.
    pub completion: CompletionStatus,
}

/// A single contribution to the instantaneous coretime pool.
#[derive(Clone, Copy, PartialEq, Eq, Debug)]
pub struct ContributionRecord {
    /// For how many timeslices, from the keying region's begin, the
    /// contribution runs.
    pub length: Timeslice,
    /// The account collecting the revenue earned.
    pub payee: AccountId,
}

/// Lanes entering (positive) or leaving (negative) the pool at a timeslice.
#[derive(Clone, Copy, PartialEq, Eq, Structural, Debug)]
pub struct PoolIoRecord {
    /// Net change of privately contributed lanes.
    pub private: i64,
    /// Net change of system-contributed lanes.
    pub system: i64,
}

/// Pool accounting for one elapsed timeslice.
#[derive(Clone, Copy, PartialEq, Eq, Debug)]
pub struct InstaPoolHistoryRecord {
    /// Lanes contributed privately during the timeslice.
    pub private_contributions: u32,
    /// Lanes contributed by the system during the timeslice.
    pub system_contributions: u32,
    /// The revenue still claimable by private contributors, once known.
    pub maybe_payout: Option<Balance>,
}

/// Revenue reported by the relay for instantaneous coretime.
#[derive(Clone, Copy, PartialEq, Eq, Debug)]
pub struct OnDemandRevenueRecord {
    /// The relay block up to which the revenue was collected.
    pub until: RelayBlockNumber,
    /// The amount collected.
    pub amount: Balance,
}

/// A core enrolled for automatic renewal.
#[derive(Clone, Copy, PartialEq, Eq, Structural, Debug)]
pub struct AutoRenewalRecord {
    /// The core whose workload is renewed.
    pub core: CoreIndex,
    /// The task paying for the renewal through its sovereign account.
    pub task: TaskId,
    /// The timeslice at which the next renewal is due.
    pub next_renewal: Timeslice,
}

/// The sovereign account of a task and its free balance, handed in by the
/// runtime for the auto-renewals executed during a tick.
#[derive(Clone, Copy, PartialEq, Eq, Debug)]
pub struct SovereignFunds {
    /// The task the account belongs to.
    pub task: TaskId,
    /// The sovereign account controlled by the task.
    pub account: AccountId,
    /// The account's free balance.
    pub funds: Balance,
}

/// Why an operation was refused. Operations that fail change nothing.
#[derive(Clone, Copy, PartialEq, Eq, Structural, Debug)]
pub enum Error {
    /// The given region identity is not known.
    UnknownRegion,
    /// The caller does not own the region.
    NotOwner,
    /// The partition pivot is at or after the end of the region.
    PivotTooLate,
    /// The partition pivot is at the beginning of the region.
    PivotTooEarly,
    /// The interlace pivot is not contained in the region's mask.
    ExteriorPivot,
    /// The interlace pivot selects no lane.
    VoidPivot,
    /// The interlace pivot is the region's whole mask.
    CompletePivot,
    /// The workplan state is invalid: a state corruption.
    CorruptWorkplan,
    /// There is no sale happening currently.
    NoSales,
    /// The price limit is exceeded.
    Overpriced,
    /// There are no cores available.
    Unavailable,
    /// The sale limit has been reached.
    SoldOut,
    /// The renewal is not valid at the current time.
    WrongTime,
    /// Invalid attempt to renew.
    NotAllowed,
    /// The broker has not yet been initialized.
    Uninitialized,
    /// The purchase cannot happen yet as the sale period is yet to begin.
    TooEarly,
    /// There is no work to be done.
    NothingToDo,
    /// The maximum number of reservations has been reached.
    TooManyReservations,
    /// The maximum number of leases has been reached.
    TooManyLeases,
    /// The lease does not exist.
    LeaseNotFound,
    /// The revenue for this period is not yet known.
    UnknownRevenue,
    /// The identified pool contribution is unknown.
    UnknownContribution,
    /// The workload assigned for renewal is incomplete.
    IncompleteAssignment,
    /// The item cannot be dropped because it is still valid.
    StillValid,
    /// The history item does not exist.
    NoHistory,
    /// No reservation of the given index exists.
    UnknownReservation,
    /// The renewal record cannot be found.
    UnknownRenewal,
    /// The lease expiry time has already passed.
    AlreadyExpired,
    /// The configuration is invalid.
    InvalidConfig,
    /// Revenue must be claimed for one or more timeslices.
    NoClaimTimeslices,
    /// The caller may not enable or disable auto-renewal.
    NoPermission,
    /// The limit for auto-renewals has been reached.
    TooManyAutoRenewals,
    /// Only cores assigned to a task can be auto-renewed.
    NonTaskAutoRenewal,
    /// The sovereign account of the task could not be found.
    SovereignAccountNotFound,
    /// Auto-renewal was not enabled for the core.
    AutoRenewalNotEnabled,
    /// No such assignment stands in the workplan.
    AssignmentNotFound,
    /// The amount of credit is below the minimum purchase.
    CreditPurchaseTooSmall,
    /// The payer's free balance does not cover the charge. Mirrors the
    /// funds-unavailable failure of the hosting currency subsystem.
    FundsUnavailable,
}

/// An instruction for the relay layer, carried out by the hosting runtime.
#[derive(Clone, PartialEq, Eq, Debug)]
pub enum RelayInstruction {
    /// Request that the relay schedule the given number of cores.
    RequestCoreCount {
        /// The number of cores wanted.
        core_count: CoreIndex,
    },
    /// Request the instantaneous-pool revenue collected up to a block.
    RequestRevenueInfoAt {
        /// The relay block up to which revenue is asked for.
        when: RelayBlockNumber,
    },
    /// Teleport credit to a relay account for instantaneous coretime.
    CreditAccount {
        /// The relay account to credit.
        who: AccountId,
        /// The amount of credit.
        amount: Balance,
    },
    /// Install a schedule on a core.
    AssignCore {
        /// The core to schedule.
        core: CoreIndex,
        /// The relay block at which the schedule takes effect.
        begin: RelayBlockNumber,
        /// The work each share of the core does.
        assignment: Vec<AssignmentPart>,
        /// A hint for when the schedule ends, if known.
        end_hint: Option<RelayBlockNumber>,
    },
}

/// What a state-changing operation reports having done.
#[derive(Clone, PartialEq, Eq, Debug)]
pub enum Event {
    /// A region of bulk coretime has been purchased.
    Purchased {
        /// The purchaser.
        who: AccountId,
        /// The new region.
        region_id: RegionId,
        /// The price paid.
        price: Balance,
        /// The region's length in timeslices.
        duration: Timeslice,
    },
    /// The workload of a core has become renewable.
    Renewable {
        /// The core whose workload can be renewed.
        core: CoreIndex,
        /// The price at which it can be renewed.
        price: Balance,
        /// The timeslice at which the renewed workload would begin.
        begin: Timeslice,
        /// The workload which can be renewed.
        workload: Schedule,
    },
    /// A workload has been renewed.
    Renewed {
        /// The renewer.
        who: AccountId,
        /// The price paid.
        price: Balance,
        /// The core the workload ran on before.
        old_core: CoreIndex,
        /// The core the renewed workload runs on.
        core: CoreIndex,
        /// The timeslice at which the renewed workload begins.
        begin: Timeslice,
        /// For how many timeslices it is newly scheduled.
        duration: Timeslice,
        /// The workload renewed.
        workload: Schedule,
    },
    /// Ownership of a region has changed.
    Transferred {
        /// The region transferred.
        region_id: RegionId,
        /// The region's length in timeslices.
        duration: Timeslice,
        /// The previous owner.
        old_owner: Option<AccountId>,
        /// The new owner.
        owner: Option<AccountId>,
    },
    /// A region has been split into two non-overlapping regions.
    Partitioned {
        /// The region split.
        old_region_id: RegionId,
        /// The earlier piece.
        new_region_first: RegionId,
        /// The later piece.
        new_region_second: RegionId,
    },
    /// A region has been split into two interlaced regions.
    Interlaced {
        /// The region split.
        old_region_id: RegionId,
        /// The piece selected by the pivot.
        new_region_first: RegionId,
        /// The complementary piece.
        new_region_second: RegionId,
    },
    /// A region has been assigned to a task.
    Assigned {
        /// The region assigned.
        region_id: RegionId,
        /// The assignment's length in timeslices.
        duration: Timeslice,
        /// The task assigned to.
        task: TaskId,
    },
    /// An assignment was removed from the workplan.
    AssignmentRemoved {
        /// The region whose assignment was removed.
        region_id: RegionId,
    },
    /// A region has been added to the instantaneous coretime pool.
    Pooled {
        /// The region pooled.
        region_id: RegionId,
        /// The contribution's length in timeslices.
        duration: Timeslice,
    },
    /// A new number of cores has been requested from the relay.
    CoreCountRequested {
        /// The number of cores requested.
        core_count: CoreIndex,
    },
    /// The number of cores available for scheduling has changed.
    CoreCountChanged {
        /// The new number of cores.
        core_count: CoreIndex,
    },
    /// A new reservation was made.
    ReservationMade {
        /// The reservation's index.
        index: u32,
        /// The reserved workload.
        workload: Schedule,
    },
    /// A reservation was cancelled.
    ReservationCancelled {
        /// The cancelled reservation's index.
        index: u32,
        /// The workload no longer reserved.
        workload: Schedule,
    },
    /// A new sale has been initialized.
    SaleInitialized {
        /// The relay block at which purchases open.
        sale_start: RelayBlockNumber,
        /// The length of the leadin in relay blocks.
        leadin_length: RelayBlockNumber,
        /// The price at the start of the leadin.
        start_price: Balance,
        /// The price after the leadin.
        end_price: Balance,
        /// The first timeslice of the regions on sale.
        region_begin: Timeslice,
        /// One past the last timeslice of the regions on sale.
        region_end: Timeslice,
        /// The number of cores that should ideally be sold.
        ideal_cores_sold: CoreIndex,
        /// The number of cores offered.
        cores_offered: CoreIndex,
    },
    /// A new lease has been created.
    Leased {
        /// The leased-to task.
        task: TaskId,
        /// The timeslice from which the lease no longer applies.
        until: Timeslice,
    },
    /// A lease was removed.
    LeaseRemoved {
        /// The task whose lease ended.
        task: TaskId,
    },
    /// A lease will end within the sale period just started.
    LeaseEnding {
        /// The task whose lease ends.
        task: TaskId,
        /// The timeslice at which it ends.
        when: Timeslice,
    },
    /// The sales rotation has been started.
    SalesStarted {
        /// The nominal price of a core.
        price: Balance,
        /// The number of cores to be scheduled.
        core_count: CoreIndex,
    },
    /// The act of claiming revenue has begun.
    RevenueClaimBegun {
        /// The region claimed for.
        region: RegionId,
        /// The maximum number of timeslices searched.
        max_timeslices: Timeslice,
    },
    /// A timeslice yielded a non-zero claim.
    RevenueClaimItem {
        /// The timeslice claimed.
        when: Timeslice,
        /// The amount claimed for it.
        amount: Balance,
    },
    /// A revenue claim has been paid.
    RevenueClaimPaid {
        /// The account paid.
        who: AccountId,
        /// The total amount paid.
        amount: Balance,
        /// The region to claim with next for the remainder, if any.
        next: Option<RegionId>,
    },
    /// Pool credit was purchased.
    CreditPurchased {
        /// The purchaser.
        who: AccountId,
        /// The relay account receiving the credit.
        beneficiary: AccountId,
        /// The amount of credit.
        amount: Balance,
    },
    /// A region was dropped as out of date.
    RegionDropped {
        /// The region dropped.
        region_id: RegionId,
        /// Its length in timeslices.
        duration: Timeslice,
    },
    /// An expired pool contribution record was dropped.
    ContributionDropped {
        /// The region whose contribution was dropped.
        region_id: RegionId,
    },
    /// A pool history record was initialized.
    HistoryInitialized {
        /// The timeslice whose history begins.
        when: Timeslice,
        /// Lanes contributed privately.
        private_pool_size: u32,
        /// Lanes contributed by the system.
        system_pool_size: u32,
    },
    /// A pool history record was dropped.
    HistoryDropped {
        /// The timeslice whose history was dropped.
        when: Timeslice,
        /// The revenue retained with it.
        revenue: Balance,
    },
    /// Revenue was reported for a timeslice already settled.
    HistoryIgnored {
        /// The timeslice reported for.
        when: Timeslice,
        /// The amount ignored.
        revenue: Balance,
    },
    /// Pool revenue for a timeslice is ready for claims.
    ClaimsReady {
        /// The settled timeslice.
        when: Timeslice,
        /// The share retained by the system.
        system_payout: Balance,
        /// The share claimable by private contributors.
        private_payout: Balance,
    },
    /// A core's schedule was committed to the relay.
    CoreAssigned {
        /// The core scheduled.
        core: CoreIndex,
        /// The relay block at which the schedule takes effect.
        when: RelayBlockNumber,
        /// The work each share of the core does.
        assignment: Vec<AssignmentPart>,
    },
    /// An expired potential renewal was dropped.
    PotentialRenewalDropped {
        /// The timeslice the renewal would have begun at.
        when: Timeslice,
        /// The core it would have run on.
        core: CoreIndex,
    },
    /// Auto-renewal was enabled for a core.
    AutoRenewalEnabled {
        /// The core enrolled.
        core: CoreIndex,
        /// The task paying for its renewals.
        task: TaskId,
    },
    /// Auto-renewal was disabled for a core.
    AutoRenewalDisabled {
        /// The core removed.
        core: CoreIndex,
        /// The task that was paying.
        task: TaskId,
    },
    /// An automatic renewal failed.
    AutoRenewalFailed {
        /// The core whose renewal failed.
        core: CoreIndex,
        /// The account that was to pay; `None` when the task's sovereign
        /// account could not be found.
        payer: Option<AccountId>,
    },
    /// The auto-renewal limit was reached while renewing cores.
    AutoRenewalLimitReached,
}

} // verus!
