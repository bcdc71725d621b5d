//! The tick engine: the once-per-block advance of the broker.

use vstd::prelude::*;
use crate::broker::Broker;
use crate::sale::{live_leases, sat32, sat_mul_u32};
use crate::schedule::{parts_spec, sched_to_parts};
use crate::store::{core_set, lemma_amap_index, ts_remove, ts_set};
use crate::types::{
    CoreIndex, Event, InstaPoolHistoryRecord, OnDemandRevenueRecord, PoolIoRecord,
    RelayBlockNumber, RelayInstruction, SovereignFunds, StatusRecord, Timeslice, WorkplanKey,
};

verus! {

/// Clamp an unbounded lane count into the 32-bit range, as the pool sizes
/// are kept.
pub open spec fn clamp_lanes(x: int) -> int {
    if x < 0 {
        0
    } else if x > u32::MAX {
        u32::MAX as int
    } else {
        x
    }
}

/// The private-lane delta the ledger holds at a timeslice, or zero.
pub open spec fn io_private_at(io: Map<Timeslice, PoolIoRecord>, t: int) -> int {
    if io.dom().contains(t as Timeslice) {
        io[t as Timeslice].private as int
    } else {
        0
    }
}

/// The system-lane delta the ledger holds at a timeslice, or zero.
pub open spec fn io_system_at(io: Map<Timeslice, PoolIoRecord>, t: int) -> int {
    if io.dom().contains(t as Timeslice) {
        io[t as Timeslice].system as int
    } else {
        0
    }
}

/// The private pool size after the ledger entries of `[b, e)` are applied in
/// order, each clamped into the lane range.
pub open spec fn pool_private_after(
    io: Map<Timeslice, PoolIoRecord>,
    size: int,
    b: int,
    e: int,
) -> int
    decreases e - b,
{
    if b >= e {
        size
    } else {
        pool_private_after(io, clamp_lanes(size + io_private_at(io, b)), b + 1, e)
    }
}

/// The system pool size after the ledger entries of `[b, e)` are applied.
pub open spec fn pool_system_after(
    io: Map<Timeslice, PoolIoRecord>,
    size: int,
    b: int,
    e: int,
) -> int
    decreases e - b,
{
    if b >= e {
        size
    } else {
        pool_system_after(io, clamp_lanes(size + io_system_at(io, b)), b + 1, e)
    }
}

/// Applying the ledger over `[b, mid)` and then `[mid, e)` is applying it
/// over `[b, e)`.
proof fn lemma_pool_after_compose(
    io: Map<Timeslice, PoolIoRecord>,
    psize: int,
    ssize: int,
    b: int,
    mid: int,
    e: int,
)
    requires
        b <= mid <= e,
    ensures
        pool_private_after(io, pool_private_after(io, psize, b, mid), mid, e)
            == pool_private_after(io, psize, b, e),
        pool_system_after(io, pool_system_after(io, ssize, b, mid), mid, e) == pool_system_after(
            io,
            ssize,
            b,
            e,
        ),
    decreases mid - b,
{
    if b < mid {
        lemma_pool_after_compose(
            io,
            clamp_lanes(psize + io_private_at(io, b)),
            clamp_lanes(ssize + io_system_at(io, b)),
            b + 1,
            mid,
            e,
        );
    }
}

/// The system's share of reported revenue: scaled by the system's part of
/// the contributions, never more than the whole amount.
pub open spec fn revenue_system_share(rec: InstaPoolHistoryRecord, amount: u128) -> u128 {
    let total = rec.private_contributions + rec.system_contributions;
    let scaled = crate::pricing::sat128(amount * rec.system_contributions) / total as u128;
    if scaled > amount {
        amount
    } else {
        scaled
    }
}

/// The timeslice reported revenue settles: the last one ending at or before
/// the report's `until` block.
pub open spec fn revenue_when(rev: OnDemandRevenueRecord, tsp: u32) -> Timeslice {
    let q = rev.until / tsp;
    if q > 0 {
        (q - 1) as Timeslice
    } else {
        0
    }
}

/// How ingesting the revenue inbox changes the pool history: revenue for a
/// timeslice whose history is open settles it — splitting off the system's
/// share — exactly once; a report for an unknown or already settled
/// timeslice changes nothing; a report against empty contributions drops
/// the record, all revenue going to the system.
pub open spec fn revenue_effect(
    h: Map<Timeslice, InstaPoolHistoryRecord>,
    inbox: Option<OnDemandRevenueRecord>,
    tsp: u32,
) -> Map<Timeslice, InstaPoolHistoryRecord> {
    match inbox {
        None => h,
        Some(rev) => {
            let when = revenue_when(rev, tsp);
            if !h.dom().contains(when) || h[when].maybe_payout is Some {
                h
            } else {
                let rec = h[when];
                if rec.private_contributions + rec.system_contributions == 0 {
                    h.remove(when)
                } else {
                    h.insert(
                        when,
                        InstaPoolHistoryRecord {
                            maybe_payout: Some(
                                (rev.amount - revenue_system_share(rec, rev.amount)) as u128,
                            ),
                            ..rec
                        },
                    )
                }
            }
        },
    }
}

/// The event the revenue stage reports.
pub open spec fn revenue_event(
    h: Map<Timeslice, InstaPoolHistoryRecord>,
    rev: OnDemandRevenueRecord,
    tsp: u32,
) -> Event {
    let when = revenue_when(rev, tsp);
    if !h.dom().contains(when) || h[when].maybe_payout is Some {
        Event::HistoryIgnored { when, revenue: rev.amount }
    } else {
        let rec = h[when];
        if rec.private_contributions + rec.system_contributions == 0 {
            Event::HistoryDropped { when, revenue: rev.amount }
        } else {
            let sp = revenue_system_share(rec, rev.amount);
            Event::ClaimsReady {
                when,
                system_payout: sp,
                private_payout: (rev.amount - sp) as u128,
            }
        }
    }
}

/// Whether the instructions ask the relay for the revenue of timeslice `t`.
pub open spec fn has_revenue_request(rs: Seq<RelayInstruction>, t: int, tsp: u32) -> bool {
    exists|i: int|
        0 <= i < rs.len() && rs[i] == (RelayInstruction::RequestRevenueInfoAt {
            when: sat32((t + 1) * tsp) as RelayBlockNumber,
        })
}

/// The view of a workplan vector as a map to schedules.
pub open spec fn wpm(
    v: Seq<(WorkplanKey, crate::types::Schedule)>,
) -> Map<WorkplanKey, Seq<crate::types::ScheduleItem>> {
    crate::region::wp_view(v)
}

/// The view of a workload vector as a map to schedules.
pub open spec fn wlm(
    v: Seq<(CoreIndex, crate::types::Schedule)>,
) -> Map<CoreIndex, Seq<crate::types::ScheduleItem>> {
    crate::store::amap(v).map_values(|s: crate::types::Schedule| s@)
}

/// Drain every workplan entry of one timeslice into the installed
/// workloads, reporting each installation and instructing the relay.
fn drain_plan(
    workplan: &mut Vec<(WorkplanKey, crate::types::Schedule)>,
    workload: &mut Vec<(CoreIndex, crate::types::Schedule)>,
    ev: &mut Vec<Event>,
    relay: &mut Vec<RelayInstruction>,
    t: Timeslice,
    when_block: RelayBlockNumber,
)
    requires
        crate::store::ukeys(old(workplan)@),
        forall|i: int|
            0 <= i < old(workplan)@.len() ==> crate::schedule::sched_wf(
                (#[trigger] old(workplan)@[i]).1@,
            ),
        crate::store::ukeys(old(workload)@),
        forall|i: int|
            0 <= i < old(workload)@.len() ==> crate::schedule::sched_wf(
                (#[trigger] old(workload)@[i]).1@,
            ),
    ensures
        crate::store::ukeys(final(workplan)@),
        forall|i: int|
            0 <= i < final(workplan)@.len() ==> crate::schedule::sched_wf(
                (#[trigger] final(workplan)@[i]).1@,
            ),
        crate::store::ukeys(final(workload)@),
        forall|i: int|
            0 <= i < final(workload)@.len() ==> crate::schedule::sched_wf(
                (#[trigger] final(workload)@[i]).1@,
            ),
        forall|k: WorkplanKey|
            #[trigger] wpm(final(workplan)@).dom().contains(k) ==> k.timeslice != t && wpm(
                old(workplan)@,
            ).dom().contains(k) && wpm(final(workplan)@)[k] == wpm(old(workplan)@)[k],
        forall|k: WorkplanKey|
            k.timeslice != t ==> #[trigger] wpm(final(workplan)@).dom().contains(k) == wpm(
                old(workplan)@,
            ).dom().contains(k),
        forall|c: CoreIndex|
            #[trigger] wlm(final(workload)@).dom().contains(c) ==> ((wlm(
                old(workload)@,
            ).dom().contains(c) && wlm(final(workload)@)[c] == wlm(old(workload)@)[c]) || ((
            exists|i: int|
                0 <= i < final(ev)@.len() && (#[trigger] final(ev)@[i] matches
                Event::CoreAssigned { core, when, assignment } && core == c && when == when_block
                    && assignment@ == parts_spec(wlm(final(workload)@)[c]))) && (exists|i: int|
                0 <= i < final(relay)@.len() && (#[trigger] final(relay)@[i] matches
                RelayInstruction::AssignCore { core, begin, assignment, end_hint } && core == c
                    && begin == when_block && assignment@ == parts_spec(
                    wlm(final(workload)@)[c],
                ))))),
        final(ev)@.len() >= old(ev)@.len(),
        final(ev)@.subrange(0, old(ev)@.len() as int) == old(ev)@,
        final(relay)@.len() >= old(relay)@.len(),
        final(relay)@.subrange(0, old(relay)@.len() as int) == old(relay)@,
{
    let ghost wp0 = wpm(workplan@);
    let ghost wl0 = wlm(workload@);
    let ghost evn = ev@.len();
    let ghost rln = relay@.len();
    let mut more = true;
    while more
        invariant
            crate::store::ukeys(workplan@),
            forall|i: int|
                0 <= i < workplan@.len() ==> crate::schedule::sched_wf(
                    (#[trigger] workplan@[i]).1@,
                ),
            crate::store::ukeys(workload@),
            forall|i: int|
                0 <= i < workload@.len() ==> crate::schedule::sched_wf(
                    (#[trigger] workload@[i]).1@,
                ),
            forall|k: WorkplanKey|
                #[trigger] wpm(workplan@).dom().contains(k) ==> wp0.dom().contains(k) && wpm(
                    workplan@,
                )[k] == wp0[k],
            forall|k: WorkplanKey|
                k.timeslice != t ==> #[trigger] wpm(workplan@).dom().contains(k)
                    == wp0.dom().contains(k),
            !more ==> (forall|k: WorkplanKey|
                #[trigger] wpm(workplan@).dom().contains(k) ==> k.timeslice != t),
            forall|c: CoreIndex|
                #[trigger] wlm(workload@).dom().contains(c) ==> ((wl0.dom().contains(c) && wlm(
                    workload@,
                )[c] == wl0[c]) || ((exists|i: int|
                    0 <= i < ev@.len() && (#[trigger] ev@[i] matches Event::CoreAssigned {
                        core,
                        when,
                        assignment,
                    } && core == c && when == when_block && assignment@ == parts_spec(
                        wlm(workload@)[c],
                    ))) && (exists|i: int|
                    0 <= i < relay@.len() && (#[trigger] relay@[i] matches
                    RelayInstruction::AssignCore { core, begin, assignment, end_hint } && core
                        == c && begin == when_block && assignment@ == parts_spec(
                        wlm(workload@)[c],
                    ))))),
            ev@.len() >= evn,
            ev@.subrange(0, evn as int) == old(ev)@,
            evn == old(ev)@.len(),
            relay@.len() >= rln,
            relay@.subrange(0, rln as int) == old(relay)@,
            rln == old(relay)@.len(),
        decreases workplan@.len() + (if more {
            1int
        } else {
            0int
        }),
    {
        let mut i: usize = 0;
        while i < workplan.len() && workplan[i].0.timeslice != t
            invariant
                i <= workplan@.len(),
                forall|j: int| 0 <= j < i ==> (#[trigger] workplan@[j]).0.timeslice != t,
            decreases workplan@.len() - i,
        {
            i = i + 1;
        }
        if i < workplan.len() {
            let core = workplan[i].0.core;
            let ghost pre_wp = wpm(workplan@);
            proof {
                lemma_amap_index(workplan@, i as int);
            }
            let sched = match crate::store::work_remove(
                workplan,
                WorkplanKey { timeslice: t, core },
            ) {
                Some(s) => s,
                None => {
                    proof {
                        assert(false);
                    }
                    Vec::new()
                },
            };
            proof {
                assert(wpm(workplan@) =~= pre_wp.remove(WorkplanKey { timeslice: t, core }));
            }
            let ghost sv = sched@;
            let ghost wl_pre = wlm(workload@);
            let ghost ev_pre2 = ev@;
            let ghost relay_pre2 = relay@;
            let parts = sched_to_parts(&sched);
            let parts2 = sched_to_parts(&sched);
            core_set(workload, core, sched);
            ev.push(Event::CoreAssigned { core, when: when_block, assignment: parts });
            relay.push(
                RelayInstruction::AssignCore {
                    core,
                    begin: when_block,
                    assignment: parts2,
                    end_hint: None,
                },
            );
            proof {
                assert(wlm(workload@) =~= wl_pre.insert(core, sv));
                assert(ev@[ev@.len() - 1] matches Event::CoreAssigned {
                    core: c2,
                    when: w2,
                    assignment: a2,
                } && c2 == core && w2 == when_block && a2@ == parts_spec(sv));
                assert(relay@[relay@.len() - 1] matches RelayInstruction::AssignCore {
                    core: c2,
                    begin: b2,
                    assignment: a2,
                    end_hint: e2,
                } && c2 == core && b2 == when_block && a2@ == parts_spec(sv));
                assert forall|c: CoreIndex| #[trigger]
                    wlm(workload@).dom().contains(c) implies ((wl0.dom().contains(c) && wlm(
                    workload@,
                )[c] == wl0[c]) || ((exists|ix: int|
                    0 <= ix < ev@.len() && (#[trigger] ev@[ix] matches Event::CoreAssigned {
                        core: cc,
                        when: ww,
                        assignment: aa,
                    } && cc == c && ww == when_block && aa@ == parts_spec(wlm(workload@)[c])))
                    && (exists|ix: int|
                    0 <= ix < relay@.len() && (#[trigger] relay@[ix] matches
                    RelayInstruction::AssignCore { core: cc, begin: bb, assignment: aa, end_hint: ee }
                        && cc == c && bb == when_block && aa@ == parts_spec(
                        wlm(workload@)[c],
                    ))))) by {
                    if c == core {
                        assert(wlm(workload@)[c] == sv);
                        assert(ev@[ev@.len() - 1] matches Event::CoreAssigned {
                            core: cc,
                            when: ww,
                            assignment: aa,
                        } && cc == c && ww == when_block && aa@ == parts_spec(
                            wlm(workload@)[c],
                        ));
                        assert(relay@[relay@.len() - 1] matches RelayInstruction::AssignCore {
                            core: cc,
                            begin: bb,
                            assignment: aa,
                            end_hint: ee,
                        } && cc == c && bb == when_block && aa@ == parts_spec(
                            wlm(workload@)[c],
                        ));
                    } else {
                        assert(wl_pre.dom().contains(c) && wlm(workload@)[c] == wl_pre[c]);
                        if !(wl0.dom().contains(c) && wl_pre[c] == wl0[c]) {
                            let ix = choose|ix: int|
                                0 <= ix < ev_pre2.len() && (#[trigger] ev_pre2[ix] matches
                                Event::CoreAssigned { core: cc, when: ww, assignment: aa } && cc
                                    == c && ww == when_block && aa@ == parts_spec(wl_pre[c]));
                            assert(ev@[ix] == ev_pre2[ix]);
                            let jx = choose|jx: int|
                                0 <= jx < relay_pre2.len() && (#[trigger] relay_pre2[jx] matches
                                RelayInstruction::AssignCore {
                                    core: cc,
                                    begin: bb,
                                    assignment: aa,
                                    end_hint: ee,
                                } && cc == c && bb == when_block && aa@ == parts_spec(
                                    wl_pre[c],
                                ));
                            assert(relay@[jx] == relay_pre2[jx]);
                        }
                    }
                }
            }
        } else {
            proof {
                assert forall|k: WorkplanKey| #[trigger]
                    wpm(workplan@).dom().contains(k) implies k.timeslice != t by {
                    crate::store::lemma_amap_contains(workplan@, k);
                }
            }
            more = false;
        }
    }
}

/// A request already among the instructions stays as more are appended.
proof fn lemma_request_push(rs: Seq<RelayInstruction>, x: RelayInstruction, t: int, tsp: u32)
    requires
        has_revenue_request(rs, t, tsp),
    ensures
        has_revenue_request(rs.push(x), t, tsp),
{
    let i = choose|i: int|
        0 <= i < rs.len() && rs[i] == (RelayInstruction::RequestRevenueInfoAt {
            when: sat32((t + 1) * tsp) as RelayBlockNumber,
        });
    assert(rs.push(x)[i] == rs[i]);
}

/// Apply a signed lane delta to a pool size, clamping at the range ends.
fn apply_delta(size: u32, delta: i64) -> (r: u32)
    ensures
        r as int == clamp_lanes(size + delta),
{
    let x: i128 = size as i128 + delta as i128;
    if x < 0 {
        0
    } else if x > u32::MAX as i128 {
        u32::MAX
    } else {
        x as u32
    }
}

impl Broker {
    /// Advance the broker by one block. Runs, in order: ingest a core-count
    /// change; ingest reported revenue into the pool history of its
    /// timeslice, exactly once; rotate the sale when the next regions fall
    /// due for committing; commit every timeslice now ready — apply the pool
    /// ledger, open its history, move its workplan entries into the
    /// installed workloads and send them to the relay; and request revenue
    /// information for every newly elapsed timeslice.
    ///
    /// Does nothing before `start_sales`. Never fails: sub-steps that cannot
    /// proceed leave a diagnostic event and the tick goes on. Run twice at
    /// the same block, the second run finds every stage already done.
    #[verifier::rlimit(100)]
    #[verifier::spinoff_prover]
    pub fn do_tick(&mut self, now: RelayBlockNumber, sovereigns: &Vec<SovereignFunds>) -> (r: (
        Vec<Event>,
        Vec<RelayInstruction>,
    ))
        requires
            old(self).wf(),
        ensures
            final(self).wf(),
            old(self).status is None || old(self).configuration is None ==> *final(self) == *old(
                self,
            ) && r.0@ =~= Seq::<Event>::empty() && r.1@ =~= Seq::<RelayInstruction>::empty(),
            old(self).status is Some && old(self).configuration is Some ==> ({

                let cfg = old(self).configuration->Some_0;
                let st0 = old(self).status->Some_0;
                let tsp = old(self).limits.timeslice_period;
                let lr: int = if old(self).latest_ready_spec(cfg, now) > u32::MAX {
                    u32::MAX as int
                } else {
                    old(self).latest_ready_spec(cfg, now)
                };
                let cur: int = old(self).timeslice_of(now) as int;
                let lc0: int = st0.last_committed_timeslice as int;
                let lcf: int = if lc0 >= lr {
                    lc0
                } else {
                    lr
                };
                let rotated = old(self).sale_info is Some && lr
                    >= old(self).sale_info->Some_0.region_begin;
                let io0 = old(self).pool_io_map();
                let h1 = revenue_effect(
                    old(self).history_map(),
                    old(self).revenue_inbox,
                    tsp,
                );
                (old(self).revenue_inbox matches Some(rev) ==> exists|i: int|
                    0 <= i < r.0@.len() && #[trigger] r.0@[i] == revenue_event(
                        old(self).history_map(),
                        rev,
                        tsp,
                    ))
                // No workplan entry survives at a committed timeslice;
                // without a rotation the rest of the plan is untouched.
            }),
            old(self).status is Some && old(self).configuration is Some ==> ({

                let cfg = old(self).configuration->Some_0;
                let st0 = old(self).status->Some_0;
                let tsp = old(self).limits.timeslice_period;
                let lr: int = if old(self).latest_ready_spec(cfg, now) > u32::MAX {
                    u32::MAX as int
                } else {
                    old(self).latest_ready_spec(cfg, now)
                };
                let cur: int = old(self).timeslice_of(now) as int;
                let lc0: int = st0.last_committed_timeslice as int;
                let lcf: int = if lc0 >= lr {
                    lc0
                } else {
                    lr
                };
                let rotated = old(self).sale_info is Some && lr
                    >= old(self).sale_info->Some_0.region_begin;
                let io0 = old(self).pool_io_map();
                let h1 = revenue_effect(
                    old(self).history_map(),
                    old(self).revenue_inbox,
                    tsp,
                );
                forall|k: WorkplanKey|
                    #[trigger] final(self).workplan_map().dom().contains(k) ==> !(lc0
                        < k.timeslice <= lcf)
            }),
            old(self).status is Some && old(self).configuration is Some ==> ({

                let cfg = old(self).configuration->Some_0;
                let st0 = old(self).status->Some_0;
                let tsp = old(self).limits.timeslice_period;
                let lr: int = if old(self).latest_ready_spec(cfg, now) > u32::MAX {
                    u32::MAX as int
                } else {
                    old(self).latest_ready_spec(cfg, now)
                };
                let cur: int = old(self).timeslice_of(now) as int;
                let lc0: int = st0.last_committed_timeslice as int;
                let lcf: int = if lc0 >= lr {
                    lc0
                } else {
                    lr
                };
                let rotated = old(self).sale_info is Some && lr
                    >= old(self).sale_info->Some_0.region_begin;
                let io0 = old(self).pool_io_map();
                let h1 = revenue_effect(
                    old(self).history_map(),
                    old(self).revenue_inbox,
                    tsp,
                );
                (!rotated ==> forall|k: WorkplanKey|
                    !(lc0 < k.timeslice <= lcf) ==> (#[trigger] final(self).workplan_map().dom().contains(k) == old(self).workplan_map().dom().contains(
                        k,
                    ) && (old(self).workplan_map().dom().contains(k) ==> final(self).workplan_map()[k] == old(self).workplan_map()[k])))
                // Every workload is either as it was or was installed by
                // this tick, reported and sent to the relay with its
                // idle-padded parts.
            }),
            old(self).status is Some && old(self).configuration is Some ==> ({

                let cfg = old(self).configuration->Some_0;
                let st0 = old(self).status->Some_0;
                let tsp = old(self).limits.timeslice_period;
                let lr: int = if old(self).latest_ready_spec(cfg, now) > u32::MAX {
                    u32::MAX as int
                } else {
                    old(self).latest_ready_spec(cfg, now)
                };
                let cur: int = old(self).timeslice_of(now) as int;
                let lc0: int = st0.last_committed_timeslice as int;
                let lcf: int = if lc0 >= lr {
                    lc0
                } else {
                    lr
                };
                let rotated = old(self).sale_info is Some && lr
                    >= old(self).sale_info->Some_0.region_begin;
                let io0 = old(self).pool_io_map();
                let h1 = revenue_effect(
                    old(self).history_map(),
                    old(self).revenue_inbox,
                    tsp,
                );
                forall|c: CoreIndex|
                    #[trigger] final(self).workload_map().dom().contains(c) ==> ((old(
                        self,
                    ).workload_map().dom().contains(c) && final(self).workload_map()[c] == old(
                        self,
                    ).workload_map()[c]) || ((exists|i: int|
                        0 <= i < r.0@.len() && (#[trigger] r.0@[i] matches Event::CoreAssigned {
                            core,
                            when,
                            assignment,
                        } && core == c && assignment@ == parts_spec(
                            final(self).workload_map()[c],
                        ))) && (exists|i: int|
                        0 <= i < r.1@.len() && (#[trigger] r.1@[i] matches
                        RelayInstruction::AssignCore { core, begin, assignment, end_hint }
                            && core == c && assignment@ == parts_spec(
                            final(self).workload_map()[c],
                        )))))
                // One revenue request per newly elapsed timeslice.
            }),
            old(self).status is Some && old(self).configuration is Some ==> ({

                let cfg = old(self).configuration->Some_0;
                let st0 = old(self).status->Some_0;
                let tsp = old(self).limits.timeslice_period;
                let lr: int = if old(self).latest_ready_spec(cfg, now) > u32::MAX {
                    u32::MAX as int
                } else {
                    old(self).latest_ready_spec(cfg, now)
                };
                let cur: int = old(self).timeslice_of(now) as int;
                let lc0: int = st0.last_committed_timeslice as int;
                let lcf: int = if lc0 >= lr {
                    lc0
                } else {
                    lr
                };
                let rotated = old(self).sale_info is Some && lr
                    >= old(self).sale_info->Some_0.region_begin;
                let io0 = old(self).pool_io_map();
                let h1 = revenue_effect(
                    old(self).history_map(),
                    old(self).revenue_inbox,
                    tsp,
                );
                forall|t: int|
                    st0.last_timeslice <= t < cur ==> #[trigger] has_revenue_request(
                        r.1@,
                        t,
                        tsp,
                    )
                // Rotation: exactly when the regions on sale fall due; the
                // sale-side state changes only then.
            }),
            old(self).status is Some && old(self).configuration is Some ==> ({

                let cfg = old(self).configuration->Some_0;
                let st0 = old(self).status->Some_0;
                let tsp = old(self).limits.timeslice_period;
                let lr: int = if old(self).latest_ready_spec(cfg, now) > u32::MAX {
                    u32::MAX as int
                } else {
                    old(self).latest_ready_spec(cfg, now)
                };
                let cur: int = old(self).timeslice_of(now) as int;
                let lc0: int = st0.last_committed_timeslice as int;
                let lcf: int = if lc0 >= lr {
                    lc0
                } else {
                    lr
                };
                let rotated = old(self).sale_info is Some && lr
                    >= old(self).sale_info->Some_0.region_begin;
                let io0 = old(self).pool_io_map();
                let h1 = revenue_effect(
                    old(self).history_map(),
                    old(self).revenue_inbox,
                    tsp,
                );
                (old(self).sale_info is None ==> final(self).sale_info is None)
            }),
            old(self).status is Some && old(self).configuration is Some ==> ({

                let cfg = old(self).configuration->Some_0;
                let st0 = old(self).status->Some_0;
                let tsp = old(self).limits.timeslice_period;
                let lr: int = if old(self).latest_ready_spec(cfg, now) > u32::MAX {
                    u32::MAX as int
                } else {
                    old(self).latest_ready_spec(cfg, now)
                };
                let cur: int = old(self).timeslice_of(now) as int;
                let lc0: int = st0.last_committed_timeslice as int;
                let lcf: int = if lc0 >= lr {
                    lc0
                } else {
                    lr
                };
                let rotated = old(self).sale_info is Some && lr
                    >= old(self).sale_info->Some_0.region_begin;
                let io0 = old(self).pool_io_map();
                let h1 = revenue_effect(
                    old(self).history_map(),
                    old(self).revenue_inbox,
                    tsp,
                );
                (old(self).sale_info is Some && !rotated ==> final(self).sale_info == old(
                    self,
                ).sale_info)
            }),
            old(self).status is Some && old(self).configuration is Some ==> ({

                let cfg = old(self).configuration->Some_0;
                let st0 = old(self).status->Some_0;
                let tsp = old(self).limits.timeslice_period;
                let lr: int = if old(self).latest_ready_spec(cfg, now) > u32::MAX {
                    u32::MAX as int
                } else {
                    old(self).latest_ready_spec(cfg, now)
                };
                let cur: int = old(self).timeslice_of(now) as int;
                let lc0: int = st0.last_committed_timeslice as int;
                let lcf: int = if lc0 >= lr {
                    lc0
                } else {
                    lr
                };
                let rotated = old(self).sale_info is Some && lr
                    >= old(self).sale_info->Some_0.region_begin;
                let io0 = old(self).pool_io_map();
                let h1 = revenue_effect(
                    old(self).history_map(),
                    old(self).revenue_inbox,
                    tsp,
                );
                (!rotated ==> final(self).leases@ == old(self).leases@ && final(self).potential_renewals@ == old(self).potential_renewals@ && final(self).auto_renewals@ == old(self).auto_renewals@)
            }),
            old(self).status is Some && old(self).configuration is Some ==> ({

                let cfg = old(self).configuration->Some_0;
                let st0 = old(self).status->Some_0;
                let tsp = old(self).limits.timeslice_period;
                let lr: int = if old(self).latest_ready_spec(cfg, now) > u32::MAX {
                    u32::MAX as int
                } else {
                    old(self).latest_ready_spec(cfg, now)
                };
                let cur: int = old(self).timeslice_of(now) as int;
                let lc0: int = st0.last_committed_timeslice as int;
                let lcf: int = if lc0 >= lr {
                    lc0
                } else {
                    lr
                };
                let rotated = old(self).sale_info is Some && lr
                    >= old(self).sale_info->Some_0.region_begin;
                let io0 = old(self).pool_io_map();
                let h1 = revenue_effect(
                    old(self).history_map(),
                    old(self).revenue_inbox,
                    tsp,
                );
                (rotated ==> final(self).sale_info is Some && final(self).sale_info->Some_0.region_begin == old(self).sale_info->Some_0.region_end
                    && final(self).leases@ == live_leases(
                    old(self).leases@,
                    old(self).sale_info->Some_0.region_end,
                ) && final(self).auto_renewals@.len() == old(self).auto_renewals@.len() && (
                exists|i: int|
                    0 <= i < r.0@.len() && (#[trigger] r.0@[i] matches Event::SaleInitialized {
                        region_begin,
                        ..
                    } && region_begin == old(self).sale_info->Some_0.region_end)))
            }),
    {
        let mut ev: Vec<Event> = Vec::new();
        let mut relay: Vec<RelayInstruction> = Vec::new();
        let config = match self.configuration {
            Some(c) => c,
            None => {
                return (ev, relay);
            },
        };
        let mut st = match self.status {
            Some(s) => s,
            None => {
                return (ev, relay);
            },
        };
        let tsp = self.limits.timeslice_period;

        // Ingest a core-count change announced by the relay.
        if let Some(cc) = self.core_count_inbox {
            self.core_count_inbox = None;
            st.core_count = cc;
            self.status = Some(st);
            ev.push(Event::CoreCountChanged { core_count: cc });
        }

        // Ingest reported revenue, folding it into the pool history of its
        // timeslice exactly once.
        let ghost h0 = old(self).history_map();
        if let Some(rev) = self.revenue_inbox {
            self.revenue_inbox = None;
            let q: u32 = rev.until / tsp;
            let when: Timeslice = if q > 0 {
                q - 1
            } else {
                0
            };
            let hidx = crate::store::ts_index(&self.insta_pool_history, when);
            match hidx {
                None => {
                    proof {
                        crate::store::lemma_amap_absent(self.insta_pool_history@, when);
                    }
                    ev.push(Event::HistoryIgnored { when, revenue: rev.amount });
                },
                Some(h) => {
                    proof {
                        lemma_amap_index(self.insta_pool_history@, h as int);
                    }
                    let hist = self.insta_pool_history[h].1;
                    if hist.maybe_payout.is_some() {
                        ev.push(Event::HistoryIgnored { when, revenue: rev.amount });
                    } else {
                        let total: u64 = hist.private_contributions as u64
                            + hist.system_contributions as u64;
                        if total == 0 {
                            ts_remove(&mut self.insta_pool_history, when);
                            ev.push(Event::HistoryDropped { when, revenue: rev.amount });
                        } else {
                            let scaled = crate::pricing::sat_mul(
                                rev.amount,
                                hist.system_contributions as u128,
                            ) / (total as u128);
                            let system_payout = if scaled > rev.amount {
                                rev.amount
                            } else {
                                scaled
                            };
                            let private_payout = rev.amount - system_payout;
                            ts_set(
                                &mut self.insta_pool_history,
                                when,
                                InstaPoolHistoryRecord {
                                    maybe_payout: Some(private_payout),
                                    ..hist
                                },
                            );
                            ev.push(
                                Event::ClaimsReady { when, system_payout, private_payout },
                            );
                        }
                    }
                },
            }
        }
        proof {
            assert(self.history_map() =~= revenue_effect(h0, old(self).revenue_inbox, tsp));
            if old(self).revenue_inbox is Some {
                let rev = old(self).revenue_inbox->Some_0;
                assert(ev@.last() == revenue_event(h0, rev, tsp));
            }
        }
        let ghost rev_ev_len = ev@.len();
        let ghost ev_stage2 = ev@;

        // Rotate the sale when its regions fall due for committing.
        let lr: Timeslice = self.latest_ready(&config, now);
        let ghost old_sale = self.sale_info;
        if let Some(sale) = self.sale_info {
            if lr >= sale.region_begin {
                let rot_ev = self.rotate_sale(now, sale, sovereigns);
                crate::sale::append_events(&mut ev, rot_ev);
            }
        }
        let ghost rotated = old_sale is Some && lr >= old_sale->Some_0.region_begin;
        proof {
            if rotated {
                assert(ev@[ev_stage2.len() as int] matches Event::SaleInitialized {
                    region_begin,
                    ..
                } && region_begin == old_sale->Some_0.region_end);
            }
        }

        // Commit every timeslice that is ready: apply the pool ledger, open
        // the timeslice's history, and install its workplan entries.
        let ghost snap3 = *self;
        let ghost ev3 = ev@;
        let ghost io0 = self.pool_io_map();
        let ghost h1 = self.history_map();
        proof {
            assert(h1 =~= revenue_effect(h0, old(self).revenue_inbox, tsp));
        }
        let ghost p0 = st.private_pool_size as int;
        let ghost s0 = st.system_pool_size as int;
        let ghost cc_target = st.core_count;
        let ghost lt_snap = st.last_timeslice;
        let ghost lc0 = st.last_committed_timeslice as int;
        st = self.status.unwrap();
        while st.last_committed_timeslice < lr
            invariant
                self.wf(),
                *self == (Broker {
                    status: self.status,
                    insta_pool_io: self.insta_pool_io,
                    insta_pool_history: self.insta_pool_history,
                    workplan: self.workplan,
                    workload: self.workload,
                    ..snap3
                }),
                snap3.wf(),
                self.status == Some(st),
                st.core_count == cc_target,
                st.last_timeslice == lt_snap,
                io0 == snap3.pool_io_map(),
                h1 == snap3.history_map(),
                lc0 == snap3.status->Some_0.last_committed_timeslice as int,
                p0 == snap3.status->Some_0.private_pool_size as int,
                s0 == snap3.status->Some_0.system_pool_size as int,
                snap3.status is Some,
                lc0 >= lr ==> st.last_committed_timeslice == lc0,
                lc0 < lr ==> lc0 <= st.last_committed_timeslice <= lr,
                st.private_pool_size == pool_private_after(
                    io0,
                    p0,
                    lc0 + 1,
                    st.last_committed_timeslice + 1,
                ),
                st.system_pool_size == pool_system_after(
                    io0,
                    s0,
                    lc0 + 1,
                    st.last_committed_timeslice + 1,
                ),
                forall|t: Timeslice|
                    #[trigger] self.pool_io_map().dom().contains(t) == (io0.dom().contains(t)
                        && !(lc0 < t <= st.last_committed_timeslice)),
                forall|t: Timeslice|
                    #[trigger] self.pool_io_map().dom().contains(t) ==> self.pool_io_map()[t]
                        == io0[t],
                forall|t: Timeslice|
                    lc0 < t <= st.last_committed_timeslice ==> #[trigger] self.history_map()
                        .dom().contains(t) && self.history_map()[t] == (InstaPoolHistoryRecord {
                        private_contributions: pool_private_after(io0, p0, lc0 + 1, t + 1) as u32,
                        system_contributions: pool_system_after(io0, s0, lc0 + 1, t + 1) as u32,
                        maybe_payout: None,
                    }),
                forall|t: Timeslice|
                    !(lc0 < t <= st.last_committed_timeslice) ==> #[trigger] self.history_map()
                        .dom().contains(t) == h1.dom().contains(t) && (h1.dom().contains(t)
                        ==> self.history_map()[t] == h1[t]),
                forall|k: WorkplanKey|
                    #[trigger] self.workplan_map().dom().contains(k) ==> !(lc0 < k.timeslice
                        <= st.last_committed_timeslice),
                forall|k: WorkplanKey|
                    !(lc0 < k.timeslice <= st.last_committed_timeslice) ==> (
                    #[trigger] self.workplan_map().dom().contains(k)
                        == snap3.workplan_map().dom().contains(k) && (
                    snap3.workplan_map().dom().contains(k) ==> self.workplan_map()[k]
                        == snap3.workplan_map()[k])),
                forall|c: CoreIndex|
                    #[trigger] self.workload_map().dom().contains(c) ==> ((
                    snap3.workload_map().dom().contains(c) && self.workload_map()[c]
                        == snap3.workload_map()[c]) || ((exists|i: int|
                        0 <= i < ev@.len() && (#[trigger] ev@[i] matches Event::CoreAssigned {
                            core,
                            when,
                            assignment,
                        } && core == c && assignment@ == parts_spec(self.workload_map()[c])))
                        && (exists|i: int|
                        0 <= i < relay@.len() && (#[trigger] relay@[i] matches
                        RelayInstruction::AssignCore { core, begin, assignment, end_hint }
                            && core == c && assignment@ == parts_spec(
                            self.workload_map()[c],
                        ))))),
                ev@.len() >= ev3.len(),
                ev@.subrange(0, ev3.len() as int) == ev3,
            decreases lr - st.last_committed_timeslice,
        {
            let ghost head = *self;
            let ghost ev_head = ev@;
            let ghost relay_head = relay@;
            let t: Timeslice = st.last_committed_timeslice + 1;
            let ghost lc_prev = st.last_committed_timeslice;
            let ghost xp = pool_private_after(io0, p0, lc0 + 1, t as int);
            let ghost xs = pool_system_after(io0, s0, lc0 + 1, t as int);
            proof {
                assert(self.pool_io_map().dom().contains(t) == (io0.dom().contains(t) && !(lc0
                    < t <= lc_prev)));
                if self.pool_io_map().dom().contains(t) {
                    assert(self.pool_io_map()[t] == io0[t]);
                }
            }
            let io = ts_remove(&mut self.insta_pool_io, t);
            proof {
                match io {
                    Some(v) => {
                        assert(v.private as int == io_private_at(io0, t as int));
                        assert(v.system as int == io_system_at(io0, t as int));
                    },
                    None => {
                        assert(io_private_at(io0, t as int) == 0);
                        assert(io_system_at(io0, t as int) == 0);
                    },
                }
            }
            if let Some(io) = io {
                st.private_pool_size = apply_delta(st.private_pool_size, io.private);
                st.system_pool_size = apply_delta(st.system_pool_size, io.system);
            }
            proof {
                let dp = io_private_at(io0, t as int);
                let ds = io_system_at(io0, t as int);
                assert(pool_private_after(io0, clamp_lanes(xp + dp), t as int + 1, t as int + 1)
                    == clamp_lanes(xp + dp));
                assert(pool_private_after(io0, xp, t as int, t as int + 1) == clamp_lanes(
                    xp + dp,
                ));
                assert(pool_system_after(io0, clamp_lanes(xs + ds), t as int + 1, t as int + 1)
                    == clamp_lanes(xs + ds));
                assert(pool_system_after(io0, xs, t as int, t as int + 1) == clamp_lanes(
                    xs + ds,
                ));
                lemma_pool_after_compose(io0, p0, s0, lc0 + 1, t as int, t as int + 1);
            }
            self.status = Some(st);
            let ghost hm_pre = self.history_map();
            ts_set(
                &mut self.insta_pool_history,
                t,
                InstaPoolHistoryRecord {
                    private_contributions: st.private_pool_size,
                    system_contributions: st.system_pool_size,
                    maybe_payout: None,
                },
            );
            proof {
                assert(self.history_map() =~= hm_pre.insert(
                    t,
                    InstaPoolHistoryRecord {
                        private_contributions: st.private_pool_size,
                        system_contributions: st.system_pool_size,
                        maybe_payout: None,
                    },
                ));
            }
            ev.push(
                Event::HistoryInitialized {
                    when: t,
                    private_pool_size: st.private_pool_size,
                    system_pool_size: st.system_pool_size,
                },
            );
            let when_block: RelayBlockNumber = sat_mul_u32(t, tsp);
            let ghost ev_pre = ev@;
            let ghost relay_pre = relay@;
            let ghost wp_head = self.workplan_map();
            let ghost wl_head = self.workload_map();
            let ghost hm_now = self.history_map();
            let ghost iom_now = self.pool_io_map();
            drain_plan(&mut self.workplan, &mut self.workload, &mut ev, &mut relay, t, when_block);
            proof {
                assert(ev@.subrange(0, ev3.len() as int) =~= ev3) by {
                    assert(forall|j: int|
                        0 <= j < ev3.len() ==> ev@[j] == #[trigger] ev_pre[j]);
                }
                assert(self.history_map() =~= hm_now);
                assert(self.pool_io_map() =~= iom_now);
                assert(self.workplan_map() =~= wpm(self.workplan@));
                assert(self.workload_map() =~= wlm(self.workload@));
                assert(snap3.workplan_map() =~= wpm(snap3.workplan@));
                assert(snap3.workload_map() =~= wlm(snap3.workload@));
                assert(head.workplan_map() =~= wpm(head.workplan@));
                assert(hm_now =~= head.history_map().insert(
                    t,
                    InstaPoolHistoryRecord {
                        private_contributions: st.private_pool_size,
                        system_contributions: st.system_pool_size,
                        maybe_payout: None,
                    },
                ));
                assert forall|k: WorkplanKey| #[trigger]
                    self.workplan_map().dom().contains(k) implies !(lc0 < k.timeslice
                    <= t as int) by {
                    assert(wpm(self.workplan@).dom().contains(k));
                    assert(wpm(head.workplan@).dom().contains(k) && k.timeslice != t);
                    assert(head.workplan_map().dom().contains(k));
                }
                assert forall|k: WorkplanKey| !(lc0 < k.timeslice <= t as int) implies (
                #[trigger] self.workplan_map().dom().contains(k)
                    == snap3.workplan_map().dom().contains(k) && (
                snap3.workplan_map().dom().contains(k) ==> self.workplan_map()[k]
                    == snap3.workplan_map()[k])) by {
                    assert(k.timeslice != t);
                    assert(wpm(self.workplan@).dom().contains(k) == wpm(
                        head.workplan@,
                    ).dom().contains(k));
                    if wpm(self.workplan@).dom().contains(k) {
                        assert(wpm(self.workplan@)[k] == wpm(head.workplan@)[k]);
                    }
                    assert(head.workplan_map().dom().contains(k)
                        == snap3.workplan_map().dom().contains(k));
                }
                assert forall|tt: Timeslice| lc0 < tt <= t as int implies #[trigger]
                    self.history_map().dom().contains(tt) && self.history_map()[tt] == (
                InstaPoolHistoryRecord {
                    private_contributions: pool_private_after(io0, p0, lc0 + 1, tt + 1) as u32,
                    system_contributions: pool_system_after(io0, s0, lc0 + 1, tt + 1) as u32,
                    maybe_payout: None,
                }) by {
                    if tt == t {
                    } else {
                        assert(head.history_map().dom().contains(tt));
                    }
                }
                assert forall|tt: Timeslice| !(lc0 < tt <= t as int) implies #[trigger]
                    self.history_map().dom().contains(tt) == h1.dom().contains(tt) && (
                h1.dom().contains(tt) ==> self.history_map()[tt] == h1[tt]) by {
                    assert(self.history_map().dom().contains(tt) == head.history_map().dom()
                        .contains(tt));
                }
                assert(head.workload_map() =~= wlm(head.workload@));
                assert forall|c: CoreIndex| #[trigger]
                    self.workload_map().dom().contains(c) implies ((
                snap3.workload_map().dom().contains(c) && self.workload_map()[c]
                    == snap3.workload_map()[c]) || ((exists|i: int|
                    0 <= i < ev@.len() && (#[trigger] ev@[i] matches Event::CoreAssigned {
                        core,
                        when,
                        assignment,
                    } && core == c && assignment@ == parts_spec(self.workload_map()[c]))) && (
                exists|i: int|
                    0 <= i < relay@.len() && (#[trigger] relay@[i] matches
                    RelayInstruction::AssignCore { core, begin, assignment, end_hint } && core
                        == c && assignment@ == parts_spec(self.workload_map()[c]))))) by {
                    assert(wlm(self.workload@).dom().contains(c));
                    if wlm(head.workload@).dom().contains(c) && wlm(self.workload@)[c] == wlm(
                        head.workload@,
                    )[c] {
                        assert(head.workload_map().dom().contains(c));
                        if !(snap3.workload_map().dom().contains(c) && head.workload_map()[c]
                            == snap3.workload_map()[c]) {
                            let ix = choose|ix: int|
                                0 <= ix < ev_head.len() && (#[trigger] ev_head[ix] matches
                                Event::CoreAssigned { core, when, assignment } && core == c
                                    && assignment@ == parts_spec(head.workload_map()[c]));
                            assert(ev_pre[ix] == ev_head[ix]);
                            assert(ev@[ix] == ev_pre[ix]);
                            let jx = choose|jx: int|
                                0 <= jx < relay_head.len() && (#[trigger] relay_head[jx] matches
                                RelayInstruction::AssignCore {
                                    core,
                                    begin,
                                    assignment,
                                    end_hint,
                                } && core == c && assignment@ == parts_spec(
                                    head.workload_map()[c],
                                ));
                            assert(relay@[jx] == relay_head[jx]);
                        }
                    }
                }
            }
            st.last_committed_timeslice = t;
            self.status = Some(st);
        }

        // Ask the relay for the revenue of every newly elapsed timeslice.
        let current: Timeslice = now / tsp;
        let ghost snap4 = *self;
        let ghost ev4 = ev@;
        let ghost relay4 = relay@;
        let ghost lt0 = st.last_timeslice;
        while st.last_timeslice < current
            invariant
                self.wf(),
                *self == (Broker { status: self.status, ..snap4 }),
                snap4.wf(),
                self.status == Some(st),
                st == (StatusRecord { last_timeslice: st.last_timeslice, ..snap4.status->Some_0 }),
                snap4.status == Some(
                    StatusRecord { last_timeslice: lt0, ..snap4.status->Some_0 },
                ),
                ev@ == ev4,
                relay@.len() >= relay4.len(),
                relay@.subrange(0, relay4.len() as int) == relay4,
                lt0 >= current ==> st.last_timeslice == lt0,
                lt0 < current ==> lt0 <= st.last_timeslice <= current,
                tsp == self.limits.timeslice_period,
                forall|t: int|
                    lt0 <= t < st.last_timeslice ==> #[trigger] has_revenue_request(
                        relay@,
                        t,
                        tsp,
                    ),
            decreases current - st.last_timeslice,
        {
            let t = st.last_timeslice;
            let ghost relay_pre = relay@;
            relay.push(
                RelayInstruction::RequestRevenueInfoAt { when: sat_mul_u32(t + 1, tsp) },
            );
            proof {
                assert(relay@.last() == (RelayInstruction::RequestRevenueInfoAt {
                    when: sat32((t + 1) * tsp) as RelayBlockNumber,
                }));
                assert(has_revenue_request(relay@, t as int, tsp));
                assert forall|u: int| lt0 <= u < t implies #[trigger] has_revenue_request(
                    relay@,
                    u,
                    tsp,
                ) by {
                    lemma_request_push(
                        relay_pre,
                        RelayInstruction::RequestRevenueInfoAt {
                            when: sat32((t + 1) * tsp) as RelayBlockNumber,
                        },
                        u,
                        tsp,
                    );
                }
            }
            st.last_timeslice = t + 1;
            self.status = Some(st);
        }
        let res: (Vec<Event>, Vec<RelayInstruction>) = (ev, relay);
        proof {
            assert(io0 =~= old(self).pool_io_map());
            assert(self.pool_io_map() =~= snap4.pool_io_map());
            assert(self.history_map() =~= snap4.history_map());
            assert(self.workplan_map() =~= snap4.workplan_map());
            assert(self.workload_map() =~= snap4.workload_map());
            assert(snap3.workload@ == old(self).workload@);
            assert(p0 == old(self).status->Some_0.private_pool_size as int);
            assert(s0 == old(self).status->Some_0.system_pool_size as int);
            assert(lc0 == old(self).status->Some_0.last_committed_timeslice as int);
            let lcf = snap4.status->Some_0.last_committed_timeslice;
            assert forall|t2: Timeslice| #[trigger]
                self.pool_io_map().dom().contains(t2) == (io0.dom().contains(t2) && !(lc0 < t2
                <= lcf)) by {
                assert(snap4.pool_io_map().dom().contains(t2) == (io0.dom().contains(t2) && !(
                lc0 < t2 <= lcf)));
            }
            if old(self).revenue_inbox is Some {
                let rev = old(self).revenue_inbox->Some_0;
                let ix = rev_ev_len - 1;
                assert(ev_stage2[ix] == revenue_event(h0, rev, tsp));
                assert(ev3[ix] == ev_stage2[ix]);
                assert(res.0@.subrange(0, ev3.len() as int)[ix] == ev3[ix]);
                assert(res.0@[ix] == ev3[ix]);
                assert(exists|i: int|
                    0 <= i < res.0@.len() && #[trigger] res.0@[i] == revenue_event(h0, rev, tsp));
            }
            assert forall|c: CoreIndex| #[trigger]
                self.workload_map().dom().contains(c) implies ((old(
                self,
            ).workload_map().dom().contains(c) && self.workload_map()[c] == old(
                self,
            ).workload_map()[c]) || ((exists|i: int|
                0 <= i < res.0@.len() && (#[trigger] res.0@[i] matches Event::CoreAssigned {
                    core,
                    when,
                    assignment,
                } && core == c && assignment@ == parts_spec(self.workload_map()[c]))) && (exists|
                i: int,
            |
                0 <= i < res.1@.len() && (#[trigger] res.1@[i] matches
                RelayInstruction::AssignCore { core, begin, assignment, end_hint } && core == c
                    && assignment@ == parts_spec(self.workload_map()[c]))))) by {
                assert(old(self).workload_map() =~= snap3.workload_map());
                if !(snap3.workload_map().dom().contains(c) && snap4.workload_map()[c]
                    == snap3.workload_map()[c]) {
                    let i1 = choose|i: int|
                        0 <= i < ev4.len() && (#[trigger] ev4[i] matches Event::CoreAssigned {
                            core,
                            when,
                            assignment,
                        } && core == c && assignment@ == parts_spec(snap4.workload_map()[c]));
                    assert(res.0@[i1] == ev4[i1]);
                    let j1 = choose|j: int|
                        0 <= j < relay4.len() && (#[trigger] relay4[j] matches
                        RelayInstruction::AssignCore { core, begin, assignment, end_hint }
                            && core == c && assignment@ == parts_spec(snap4.workload_map()[c]));
                    assert(res.1@.subrange(0, relay4.len() as int)[j1] == relay4[j1]);
                    assert(res.1@[j1] == relay4[j1]);
                }
            }
            assert forall|t2: int| lt0 <= t2 < current implies #[trigger] has_revenue_request(
                res.1@,
                t2,
                tsp,
            ) by {
                let i2 = choose|i: int|
                    0 <= i < relay@.len() && relay@[i] == (RelayInstruction::RequestRevenueInfoAt {
                        when: sat32((t2 + 1) * tsp) as RelayBlockNumber,
                    });
            }
            if rotated {
                assert(res.0@[ev_stage2.len() as int] matches Event::SaleInitialized {
                    region_begin,
                    ..
                } && region_begin == old_sale->Some_0.region_end);
                assert(exists|i: int|
                    0 <= i < res.0@.len() && (#[trigger] res.0@[i] matches Event::SaleInitialized {
                        region_begin,
                        ..
                    } && region_begin == old_sale->Some_0.region_end));
            } else {
                assert(self.leases@ == old(self).leases@);
                assert(self.potential_renewals@ == old(self).potential_renewals@);
                assert(self.auto_renewals@ == old(self).auto_renewals@);
            }
        }
        res
    }
}

} // verus!
