//! End-to-end runs of the broker over a small relay calendar: two relay
//! blocks per timeslice, three-timeslice regions, one timeslice each of
//! interlude and leadin.

use coretime_broker::broker::{Broker, Limits};
use coretime_broker::mask::{CoreMask, FULL_MASK};
use coretime_broker::types::{
    AssignmentPart, ConfigRecord, CoreAssignment, Event, Finality, OnDemandRevenueRecord,
    RegionId, Schedule, ScheduleItem, SovereignFunds, Timeslice,
};

fn limits() -> Limits {
    Limits {
        timeslice_period: 2,
        max_leased_cores: 8,
        max_reserved_cores: 8,
        max_auto_renewals: 8,
        minimum_credit_purchase: 10,
    }
}

fn config() -> ConfigRecord {
    ConfigRecord {
        advance_notice: 1,
        interlude_length: 1,
        leadin_length: 1,
        region_length: 3,
        ideal_bulk_proportion: 1_000_000,
        limit_cores_offered: None,
        renewal_bump: 100_000,
        contribution_timeout: 1,
    }
}

/// Configure at block zero and start sales with two extra cores: the first
/// sale offers regions over timeslices four to seven, with its leadin over
/// relay blocks two to four.
fn started() -> Broker {
    let mut b = Broker::new(limits());
    b.configure(config()).unwrap();
    b.start_sales(0, 1000, 2, &Vec::new()).unwrap();
    b
}

fn get_sched(b: &Broker, t: Timeslice, core: u16) -> Option<Schedule> {
    for (k, s) in &b.workplan {
        if k.timeslice == t && k.core == core {
            return Some(s.clone());
        }
    }
    None
}

fn full_mask() -> CoreMask {
    CoreMask { bits: FULL_MASK }
}

fn low_half() -> CoreMask {
    CoreMask { bits: 0xFF_FFFF_FFFF }
}

fn high_half() -> CoreMask {
    CoreMask { bits: FULL_MASK & !0xFF_FFFF_FFFF }
}

fn core_assigned(evs: &[Event], core: u16) -> Option<(u32, Vec<AssignmentPart>)> {
    for e in evs {
        if let Event::CoreAssigned { core: c, when, assignment } = e {
            if *c == core {
                return Some((*when, assignment.clone()));
            }
        }
    }
    None
}

#[test]
fn start_sales_initializes_first_sale() {
    let mut b = Broker::new(limits());
    b.configure(config()).unwrap();
    let (evs, relay) = b.start_sales(0, 1000, 2, &Vec::new()).unwrap();
    let sale = b.sale_info.unwrap();
    assert_eq!(sale.region_begin, 4);
    assert_eq!(sale.region_end, 7);
    assert_eq!(sale.first_core, 0);
    assert_eq!(sale.cores_offered, 2);
    assert_eq!(sale.ideal_cores_sold, 2);
    assert_eq!(sale.cores_sold, 0);
    assert_eq!(sale.sale_start, 2);
    assert_eq!(sale.leadin_length, 2);
    assert_eq!(sale.end_price, 1000);
    let st = b.status.unwrap();
    assert_eq!(st.core_count, 2);
    assert_eq!(st.last_committed_timeslice, 0);
    assert_eq!(
        evs[0],
        Event::SalesStarted { price: 1000, core_count: 2 }
    );
    assert!(matches!(
        evs[2],
        Event::SaleInitialized { region_begin: 4, region_end: 7, cores_offered: 2, start_price: 2000, end_price: 1000, .. }
    ));
    assert_eq!(relay.len(), 1);
}

#[test]
fn purchase_at_leadin_midpoint_costs_the_halfway_price() {
    let mut b = started();
    let (region_id, evs) = b.purchase(1, 10_000, 10_000, 3).unwrap();
    assert_eq!(
        region_id,
        RegionId { begin: 4, core: 0, mask: full_mask() }
    );
    assert_eq!(
        evs[0],
        Event::Purchased { who: 1, region_id, price: 1500, duration: 3 }
    );
    let rec = b.regions[0].1;
    assert_eq!(rec.end, 7);
    assert_eq!(rec.owner, Some(1));
    assert_eq!(rec.paid, Some(1500));
}

#[test]
fn interlaced_halves_assign_and_pool_side_by_side() {
    let mut b = started();
    let (r, _) = b.purchase(1, 10_000, 10_000, 3).unwrap();
    b.interlace(r, Some(1), low_half()).unwrap();
    let left = RegionId { mask: low_half(), ..r };
    let right = RegionId { mask: high_half(), ..r };
    b.assign(left, Some(1), 1, Finality::Final).unwrap();
    b.pool(right, Some(1), 1, Finality::Final).unwrap();
    for t in 4..7 {
        let sched = get_sched(&b, t, 0).unwrap();
        assert_eq!(sched.len(), 2);
        let bits: u32 = sched.iter().map(|it| it.mask.count_ones()).sum();
        assert_eq!(bits, 80);
    }
    // Half a core finally assigned earns no renewal yet: the record stays
    // partial.
    let renewal = &b.potential_renewals[0];
    assert_eq!(renewal.0.core, 0);
    assert_eq!(renewal.0.when, 7);
    assert!(matches!(
        renewal.1.completion,
        coretime_broker::types::CompletionStatus::Partial(_)
    ));
    // The pooled half leaves a contribution and moves its lanes in at the
    // begin and out at the end.
    assert_eq!(b.insta_pool_contribution[0].0, right);
    assert_eq!(b.insta_pool_contribution[0].1.length, 3);
    let io4 = b.insta_pool_io.iter().find(|(t, _)| *t == 4).unwrap().1;
    assert_eq!(io4.private, 40);
    let io7 = b.insta_pool_io.iter().find(|(t, _)| *t == 7).unwrap().1;
    assert_eq!(io7.private, -40);
}

#[test]
fn companion_core_does_not_complete_the_renewal() {
    let mut b = started();
    let (r, _) = b.purchase(1, 10_000, 10_000, 3).unwrap();
    b.interlace(r, Some(1), low_half()).unwrap();
    b.assign(RegionId { mask: low_half(), ..r }, Some(1), 1, Finality::Final).unwrap();
    // A second buyer takes the other core and finally assigns the other
    // half of its mask to the same task.
    let (r2, evs2) = b.purchase(2, 10_000, 10_000, 3).unwrap();
    assert_eq!(r2.core, 1);
    if let Event::Purchased { price, .. } = evs2[0] {
        assert_eq!(price, 1500);
    } else {
        panic!("expected a purchase event");
    }
    b.interlace(r2, Some(2), low_half()).unwrap();
    b.assign(RegionId { mask: high_half(), ..r2 }, Some(2), 1, Finality::Final).unwrap();
    // The task holds eighty lanes in all, but no single core is complete:
    // nothing is renewable.
    for (_, rec) in &b.potential_renewals {
        assert!(matches!(
            rec.completion,
            coretime_broker::types::CompletionStatus::Partial(_)
        ));
    }
}

#[test]
fn tick_commits_schedules_and_revenue_pays_the_pool_share() {
    let mut b = started();
    let (r, _) = b.purchase(1, 10_000, 10_000, 3).unwrap();
    b.interlace(r, Some(1), low_half()).unwrap();
    let right = RegionId { mask: high_half(), ..r };
    b.assign(RegionId { mask: low_half(), ..r }, Some(1), 1, Finality::Final).unwrap();
    b.pool(right, Some(1), 9, Finality::Final).unwrap();
    let (r2, _) = b.purchase(2, 10_000, 10_000, 3).unwrap();
    b.assign(r2, Some(2), 1, Finality::Final).unwrap();
    // Run to the end of the sold region's sale: the tick rotates and
    // commits its first timeslice, dispatching both cores to the relay.
    let none: Vec<SovereignFunds> = Vec::new();
    let mut all_events: Vec<Event> = Vec::new();
    for now in 4..7u32 {
        let (evs, _) = b.do_tick(now, &none);
        all_events.extend(evs);
    }
    assert_eq!(b.status.unwrap().last_committed_timeslice, 4);
    let (when0, parts0) = core_assigned(&all_events, 0).unwrap();
    assert_eq!(when0, 8);
    assert_eq!(
        parts0,
        vec![
            AssignmentPart { assignment: CoreAssignment::Task(1), parts: 28800 },
            AssignmentPart { assignment: CoreAssignment::Pool, parts: 28800 },
        ]
    );
    let (_, parts1) = core_assigned(&all_events, 1).unwrap();
    assert_eq!(
        parts1,
        vec![AssignmentPart { assignment: CoreAssignment::Task(1), parts: 57600 }]
    );
    // The pool history for the committed timeslice opened with the pooled
    // lanes; reported revenue settles it and the contributor claims their
    // proportional share.
    b.notify_revenue(OnDemandRevenueRecord { until: 10, amount: 100 });
    let (evs, _) = b.do_tick(6, &none);
    assert!(evs.iter().any(|e| matches!(
        e,
        Event::ClaimsReady { when: 4, system_payout: 0, private_payout: 100 }
    )));
    let evs = b.claim_revenue(right, 1).unwrap();
    assert!(evs.iter().any(|e| matches!(
        e,
        Event::RevenueClaimItem { when: 4, amount: 100 }
    )));
    let next = RegionId { begin: 5, ..right };
    assert!(evs.iter().any(|e| matches!(
        e,
        Event::RevenueClaimPaid { who: 9, amount: 100, next: Some(n) } if *n == next
    )));
}

#[test]
fn auto_renewal_renews_a_fully_assigned_core() {
    let mut b = started();
    let (r, _) = b.purchase(1, 10_000, 10_000, 3).unwrap();
    let evs = b.assign(r, Some(1), 1, Finality::Final).unwrap();
    assert!(evs.iter().any(|e| matches!(
        e,
        Event::Renewable { core: 0, price: 1500, begin: 7, .. }
    )));
    b.enable_auto_renew(77, Some(77), 0, 1, None).unwrap();
    assert_eq!(b.auto_renewals[0].next_renewal, 7);
    // One full sale period later the rotation renews the core against the
    // task's sovereign account.
    let sovereigns = vec![SovereignFunds { task: 1, account: 77, funds: 10_000 }];
    let mut all_events: Vec<Event> = Vec::new();
    for now in 4..7u32 {
        let (evs, _) = b.do_tick(now, &sovereigns);
        all_events.extend(evs);
    }
    assert!(all_events.iter().any(|e| matches!(
        e,
        Event::Renewed { who: 77, price: 1650, old_core: 0, core: 0, begin: 7, duration: 3, .. }
    )));
    assert_eq!(b.auto_renewals[0].next_renewal, 10);
    assert_eq!(b.sale_info.unwrap().cores_sold, 1);
}

#[test]
fn renewing_creates_the_renewal_right_for_the_next_period() {
    let mut b = started();
    let (r, _) = b.purchase(1, 10_000, 10_000, 3).unwrap();
    b.assign(r, Some(1), 1, Finality::Final).unwrap();
    let none: Vec<SovereignFunds> = Vec::new();
    for now in 4..7u32 {
        b.do_tick(now, &none);
    }
    // The rotation has opened the sale of the next regions; renewing places
    // the workload on them and immediately records the right to renew again
    // one period later.
    let (new_core, _) = b.renew(1, 10_000, 0, 6).unwrap();
    assert_eq!(new_core, 0);
    let next = b
        .potential_renewals
        .iter()
        .find(|(id, _)| id.core == 0 && id.when == 10)
        .unwrap();
    assert!(matches!(
        next.1.completion,
        coretime_broker::types::CompletionStatus::Complete(_)
    ));
    assert_eq!(next.1.price, 1650);
    // The renewed workload stands in the workplan for the whole next
    // region.
    for t in 7..10 {
        assert!(get_sched(&b, t, 0).is_some());
    }
}

#[test]
fn underfunded_auto_renewal_fails_without_stopping_the_tick() {
    let mut b = started();
    let (r, _) = b.purchase(1, 10_000, 10_000, 3).unwrap();
    b.assign(r, Some(1), 1, Finality::Final).unwrap();
    b.enable_auto_renew(77, Some(77), 0, 1, None).unwrap();
    let sovereigns = vec![SovereignFunds { task: 1, account: 77, funds: 5 }];
    let mut all_events: Vec<Event> = Vec::new();
    for now in 4..7u32 {
        let (evs, _) = b.do_tick(now, &sovereigns);
        all_events.extend(evs);
    }
    assert!(all_events.iter().any(|e| matches!(
        e,
        Event::AutoRenewalFailed { core: 0, payer: Some(77) }
    )));
    // The enrollment stays for a later, funded attempt, and the tick went
    // on: the new sale stands.
    assert_eq!(b.auto_renewals[0].next_renewal, 7);
    assert!(all_events.iter().any(|e| matches!(e, Event::SaleInitialized { .. })));
    assert_eq!(b.sale_info.unwrap().cores_sold, 0);
}

fn regions_weight(b: &Broker) -> u64 {
    b.regions
        .iter()
        .map(|(id, rec)| id.mask.count_ones() as u64 * (rec.end - id.begin) as u64)
        .sum()
}

#[test]
fn splitting_conserves_the_sold_coretime() {
    let mut b = started();
    b.purchase(1, 10_000, 10_000, 3).unwrap();
    let (r, _) = b.purchase(2, 10_000, 10_000, 3).unwrap();
    // Two full cores over three timeslices stand sold.
    assert_eq!(regions_weight(&b), 2 * 80 * 3);
    b.partition(r, Some(2), 1).unwrap();
    assert_eq!(regions_weight(&b), 2 * 80 * 3);
    b.interlace(RegionId { begin: 5, ..r }, Some(2), low_half()).unwrap();
    assert_eq!(regions_weight(&b), 2 * 80 * 3);
    // Retiring a piece takes exactly its weight out.
    b.assign(RegionId { begin: 4, ..r }, Some(2), 3, Finality::Final).unwrap();
    assert_eq!(regions_weight(&b), 2 * 80 * 3 - 80);
}

#[test]
fn pool_sizes_telescope_over_the_contribution() {
    let mut b = started();
    let (r, _) = b.purchase(1, 10_000, 10_000, 3).unwrap();
    b.pool(r, Some(1), 9, Finality::Final).unwrap();
    let none: Vec<SovereignFunds> = Vec::new();
    // While the contribution runs the pool holds its lanes; once its end
    // passes, the ledger's leaving entry empties the pool again.
    for now in 4..8u32 {
        b.do_tick(now, &none);
    }
    assert_eq!(b.status.unwrap().last_committed_timeslice, 4);
    assert_eq!(b.status.unwrap().private_pool_size, 80);
    for now in 8..14u32 {
        b.do_tick(now, &none);
    }
    assert_eq!(b.status.unwrap().last_committed_timeslice, 7);
    assert_eq!(b.status.unwrap().private_pool_size, 0);
}

#[test]
fn partitioned_halves_compile_to_the_unsplit_schedule() {
    let mut split = started();
    let (r, _) = split.purchase(1, 10_000, 10_000, 3).unwrap();
    split.partition(r, Some(1), 1).unwrap();
    split.assign(RegionId { begin: 4, ..r }, Some(1), 5, Finality::Final).unwrap();
    split.assign(RegionId { begin: 5, ..r }, Some(1), 5, Finality::Final).unwrap();

    let mut whole = started();
    let (r2, _) = whole.purchase(1, 10_000, 10_000, 3).unwrap();
    whole.assign(r2, Some(1), 5, Finality::Final).unwrap();

    for t in 4..7 {
        assert_eq!(get_sched(&split, t, 0).unwrap(), get_sched(&whole, t, 0).unwrap());
    }
}

#[test]
fn interlaced_halves_pool_the_same_lanes_as_the_whole() {
    let mut split = started();
    let (r, _) = split.purchase(1, 10_000, 10_000, 3).unwrap();
    split.interlace(r, Some(1), low_half()).unwrap();
    split.pool(RegionId { mask: low_half(), ..r }, Some(1), 9, Finality::Final).unwrap();
    split.pool(RegionId { mask: high_half(), ..r }, Some(1), 9, Finality::Final).unwrap();

    let mut whole = started();
    let (r2, _) = whole.purchase(1, 10_000, 10_000, 3).unwrap();
    whole.pool(r2, Some(1), 9, Finality::Final).unwrap();

    for b in [&split, &whole] {
        let io4 = b.insta_pool_io.iter().find(|(t, _)| *t == 4).unwrap().1;
        assert_eq!(io4.private, 80);
        let io7 = b.insta_pool_io.iter().find(|(t, _)| *t == 7).unwrap().1;
        assert_eq!(io7.private, -80);
    }
}

#[test]
fn leases_take_cores_ahead_of_the_sale() {
    let mut b = Broker::new(limits());
    b.configure(config()).unwrap();
    b.set_lease(0, 9, 5).unwrap();
    b.start_sales(0, 1000, 2, &Vec::new()).unwrap();
    let sale = b.sale_info.unwrap();
    assert_eq!(sale.first_core, 1);
    assert_eq!(sale.cores_offered, 2);
    assert_eq!(b.status.unwrap().core_count, 3);
    for t in 4..7 {
        let sched = get_sched(&b, t, 0).unwrap();
        assert_eq!(
            sched,
            vec![ScheduleItem { mask: full_mask(), assignment: CoreAssignment::Task(9) }]
        );
    }
    // The lease expires before the next sale's regions: the rotation
    // removes it.
    let none: Vec<SovereignFunds> = Vec::new();
    let mut all_events: Vec<Event> = Vec::new();
    for now in 1..7u32 {
        let (evs, _) = b.do_tick(now, &none);
        all_events.extend(evs);
    }
    assert!(all_events.iter().any(|e| matches!(e, Event::LeaseRemoved { task: 9 })));
    assert!(b.leases.is_empty());
    assert_eq!(b.sale_info.unwrap().first_core, 0);
}

#[test]
fn reservations_take_the_first_cores_at_rotation() {
    let mut b = Broker::new(limits());
    b.configure(config()).unwrap();
    let workload = vec![ScheduleItem {
        mask: full_mask(),
        assignment: CoreAssignment::Task(1000),
    }];
    b.reserve(workload.clone()).unwrap();
    b.start_sales(0, 1000, 2, &Vec::new()).unwrap();
    let sale = b.sale_info.unwrap();
    assert_eq!(sale.first_core, 1);
    assert_eq!(sale.cores_offered, 2);
    assert_eq!(b.status.unwrap().core_count, 3);
    assert_eq!(get_sched(&b, 4, 0).unwrap(), workload);
}

#[test]
fn dropping_a_region_waits_for_its_end() {
    let mut b = started();
    let (r, _) = b.purchase(1, 10_000, 10_000, 3).unwrap();
    let none: Vec<SovereignFunds> = Vec::new();
    for now in 4..12u32 {
        b.do_tick(now, &none);
    }
    // The region runs through timeslice six; with six committed it is one
    // timeslice short of droppable.
    assert_eq!(b.status.unwrap().last_committed_timeslice, 6);
    assert_eq!(
        b.drop_region(r),
        Err(coretime_broker::types::Error::StillValid)
    );
    b.do_tick(12, &none);
    assert_eq!(b.status.unwrap().last_committed_timeslice, 7);
    let evs = b.drop_region(r).unwrap();
    assert_eq!(evs[0], Event::RegionDropped { region_id: r, duration: 3 });
    assert!(b.regions.is_empty());
}
