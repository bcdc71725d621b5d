//! Unit and boundary tests: masks, pricing, and each refusal the broker's
//! operations can answer with.

use coretime_broker::broker::{Broker, Limits};
use coretime_broker::mask::{CoreMask, FULL_MASK};
use coretime_broker::pricing::{adapt_price, renewal_price, sale_price};
use coretime_broker::types::{
    ConfigRecord, CoreAssignment, Error, Event, Finality, RegionId, SaleInfoRecord, ScheduleItem,
};

fn limits() -> Limits {
    Limits {
        timeslice_period: 2,
        max_leased_cores: 2,
        max_reserved_cores: 2,
        max_auto_renewals: 2,
        minimum_credit_purchase: 10,
    }
}

fn config() -> ConfigRecord {
    ConfigRecord {
        advance_notice: 1,
        interlude_length: 1,
        leadin_length: 1,
        region_length: 3,
        ideal_bulk_proportion: 1_000_000,
        limit_cores_offered: None,
        renewal_bump: 100_000,
        contribution_timeout: 1,
    }
}

fn started() -> Broker {
    let mut b = Broker::new(limits());
    b.configure(config()).unwrap();
    b.start_sales(0, 1000, 2, &Vec::new()).unwrap();
    b
}

fn full_mask() -> CoreMask {
    CoreMask { bits: FULL_MASK }
}

#[test]
fn mask_counts_and_parts() {
    assert_eq!(full_mask().count_ones(), 80);
    assert_eq!(full_mask().parts_of_57600(), 57600);
    let half = CoreMask { bits: 0xFF_FFFF_FFFF };
    assert_eq!(half.count_ones(), 40);
    assert_eq!(half.parts_of_57600(), 28800);
    let one = CoreMask { bits: 1 };
    assert_eq!(one.count_ones(), 1);
    assert_eq!(one.parts_of_57600(), 720);
    assert_eq!(CoreMask::void().count_ones(), 0);
    assert!(CoreMask::complete().is_complete());
    assert!(half.is_subset_of(&full_mask()));
    assert_eq!(half.union(&full_mask().difference(&half)).bits, FULL_MASK);
    assert_eq!(half.intersection(&full_mask().difference(&half)).bits, 0);
}

fn sale(end_price: u128) -> SaleInfoRecord {
    SaleInfoRecord {
        sale_start: 10,
        leadin_length: 10,
        end_price,
        sellout_price: None,
        region_begin: 4,
        region_end: 7,
        first_core: 0,
        ideal_cores_sold: 2,
        cores_offered: 4,
        cores_sold: 0,
    }
}

#[test]
fn leadin_price_decays_linearly_to_the_end_price() {
    let s = sale(1000);
    assert_eq!(sale_price(&s, 0), 2000);
    assert_eq!(sale_price(&s, 10), 2000);
    assert_eq!(sale_price(&s, 15), 1500);
    assert_eq!(sale_price(&s, 19), 1100);
    assert_eq!(sale_price(&s, 20), 1000);
    assert_eq!(sale_price(&s, 500), 1000);
}

#[test]
fn adapted_price_follows_the_market() {
    // Undersold: one of four against an ideal of two lowers the base.
    let undersold = SaleInfoRecord { cores_sold: 1, ..sale(1000) };
    assert_eq!(adapt_price(&undersold), 750);
    // Nothing sold: the price halves.
    assert_eq!(adapt_price(&sale(1000)), 500);
    // Sold at the ideal with a recorded sellout: the sellout price carries.
    let at_ideal = SaleInfoRecord {
        cores_sold: 2,
        sellout_price: Some(1600),
        ..sale(1000)
    };
    assert_eq!(adapt_price(&at_ideal), 1600);
    // Oversold: four of four raises the base by half of the way over.
    let oversold = SaleInfoRecord {
        cores_sold: 4,
        sellout_price: Some(1600),
        ..sale(1000)
    };
    assert_eq!(adapt_price(&oversold), 2400);
}

#[test]
fn renewal_price_is_the_bumped_payment_or_the_end_price() {
    assert_eq!(renewal_price(1500, 100_000, 750), 1650);
    assert_eq!(renewal_price(1500, 100_000, 2000), 2000);
    assert_eq!(renewal_price(0, 100_000, 0), 0);
}

#[test]
fn purchase_boundaries() {
    // One block before the leadin: too early.
    let mut b = started();
    assert!(matches!(b.purchase(1, 10_000, 10_000, 1), Err(Error::TooEarly)));
    // At exactly the asked price the purchase goes through; one less is
    // overpriced.
    assert!(matches!(
        b.purchase(1, 10_000, 1499, 3),
        Err(Error::Overpriced)
    ));
    assert!(b.purchase(1, 10_000, 1500, 3).is_ok());
    // One block before the sale ends the price has settled at the end
    // price.
    let (_, evs) = b.purchase(2, 10_000, 10_000, 5).unwrap();
    assert!(matches!(evs[0], Event::Purchased { price: 1000, .. }));
    // With both cores taken no core is left under the core count.
    assert!(matches!(
        b.purchase(3, 10_000, 10_000, 5),
        Err(Error::Unavailable)
    ));
    // With spare cores under the count but a capped offer, the sale is
    // sold out instead.
    let mut capped = Broker::new(limits());
    capped.configure(ConfigRecord { limit_cores_offered: Some(1), ..config() }).unwrap();
    capped.start_sales(0, 1000, 2, &Vec::new()).unwrap();
    capped.purchase(1, 10_000, 10_000, 3).unwrap();
    assert!(matches!(
        capped.purchase(2, 10_000, 10_000, 3),
        Err(Error::SoldOut)
    ));
    // Short funds refuse the purchase even under the limit.
    let mut c = started();
    assert!(matches!(
        c.purchase(1, 1499, 10_000, 3),
        Err(Error::FundsUnavailable)
    ));
}

#[test]
fn purchase_needs_sales() {
    let mut b = Broker::new(limits());
    assert!(matches!(
        b.purchase(1, 10_000, 10_000, 3),
        Err(Error::Uninitialized)
    ));
    b.configure(config()).unwrap();
    assert!(matches!(
        b.purchase(1, 10_000, 10_000, 3),
        Err(Error::Uninitialized)
    ));
}

#[test]
fn configure_validates() {
    let mut b = Broker::new(limits());
    let bad = ConfigRecord { region_length: 0, ..config() };
    assert!(matches!(b.configure(bad), Err(Error::InvalidConfig)));
    let tight = ConfigRecord { interlude_length: 2, leadin_length: 1, ..config() };
    assert!(matches!(b.configure(tight), Err(Error::InvalidConfig)));
    assert!(b.configure(config()).is_ok());
    assert!(matches!(
        b.start_sales(0, 1000, 2, &Vec::new()),
        Ok(_)
    ));
    let mut unconfigured = Broker::new(limits());
    assert!(matches!(
        unconfigured.start_sales(0, 1000, 2, &Vec::new()),
        Err(Error::Uninitialized)
    ));
}

#[test]
fn region_manipulation_refusals() {
    let mut b = started();
    let ghost_id = RegionId { begin: 4, core: 5, mask: full_mask() };
    assert!(matches!(
        b.transfer(ghost_id, Some(1), 2),
        Err(Error::UnknownRegion)
    ));
    let (r, _) = b.purchase(1, 10_000, 10_000, 3).unwrap();
    assert!(matches!(b.transfer(r, Some(2), 3), Err(Error::NotOwner)));
    assert!(matches!(
        b.partition(r, Some(1), 0),
        Err(Error::PivotTooEarly)
    ));
    assert!(matches!(
        b.partition(r, Some(1), 3),
        Err(Error::PivotTooLate)
    ));
    assert!(matches!(
        b.interlace(r, Some(1), CoreMask::void()),
        Err(Error::VoidPivot)
    ));
    assert!(matches!(
        b.interlace(r, Some(1), full_mask()),
        Err(Error::CompletePivot)
    ));
    // A pivot with lanes outside the region's mask is exterior.
    b.interlace(r, Some(1), CoreMask { bits: 1 }).unwrap();
    let rest = RegionId { mask: CoreMask { bits: FULL_MASK & !1 }, ..r };
    assert!(matches!(
        b.interlace(rest, Some(1), CoreMask { bits: 1 }),
        Err(Error::ExteriorPivot)
    ));
    // The transfer hands the region on; the new owner may manipulate it.
    b.transfer(rest, Some(1), 2).unwrap();
    assert!(b.partition(rest, Some(2), 1).is_ok());
}

#[test]
fn renewal_refusals() {
    let mut b = started();
    assert!(matches!(b.renew(1, 10_000, 0, 3), Err(Error::NotAllowed)));
    let (r, _) = b.purchase(1, 10_000, 10_000, 3).unwrap();
    // A provisional assignment earns no renewal record.
    b.assign(r, Some(1), 7, Finality::Provisional).unwrap();
    assert!(matches!(b.renew(1, 10_000, 0, 3), Err(Error::NotAllowed)));
    // A final one does, but for the next sale period: renewing now is
    // mistimed.
    b.assign(r, Some(1), 7, Finality::Final).unwrap();
    assert!(matches!(b.renew(1, 10_000, 0, 3), Err(Error::WrongTime)));
}

#[test]
fn claims_and_drops_refuse_out_of_turn() {
    let mut b = started();
    let (r, _) = b.purchase(1, 10_000, 10_000, 3).unwrap();
    assert!(matches!(
        b.claim_revenue(r, 0),
        Err(Error::NoClaimTimeslices)
    ));
    assert!(matches!(
        b.claim_revenue(r, 1),
        Err(Error::UnknownContribution)
    ));
    assert!(matches!(b.drop_region(r), Err(Error::StillValid)));
    assert!(matches!(b.drop_contribution(r), Err(Error::UnknownContribution)));
    assert!(matches!(b.drop_history(0), Err(Error::StillValid)));
    assert!(matches!(b.drop_renewal(0, 9), Err(Error::StillValid)));
    assert!(matches!(b.drop_renewal(0, 1), Err(Error::UnknownRenewal)));
}

#[test]
fn reservations_and_leases_respect_their_limits() {
    let mut b = Broker::new(limits());
    b.configure(config()).unwrap();
    let workload = vec![ScheduleItem {
        mask: full_mask(),
        assignment: CoreAssignment::Task(1000),
    }];
    b.reserve(workload.clone()).unwrap();
    b.reserve(workload.clone()).unwrap();
    assert!(matches!(
        b.reserve(workload.clone()),
        Err(Error::TooManyReservations)
    ));
    assert!(matches!(b.unreserve(2), Err(Error::UnknownReservation)));
    let evs = b.unreserve(1).unwrap();
    assert!(matches!(evs[0], Event::ReservationCancelled { index: 1, .. }));
    assert!(matches!(b.set_lease(10, 9, 5), Err(Error::AlreadyExpired)));
    b.set_lease(0, 9, 5).unwrap();
    b.set_lease(0, 10, 6).unwrap();
    assert!(matches!(b.set_lease(0, 11, 7), Err(Error::TooManyLeases)));
    assert!(matches!(b.remove_lease(11), Err(Error::LeaseNotFound)));
    b.remove_lease(9).unwrap();
    assert_eq!(b.leases.len(), 1);
    assert!(matches!(b.swap_leases(9, 10), Err(Error::LeaseNotFound)));
    b.set_lease(0, 9, 5).unwrap();
    b.swap_leases(9, 10).unwrap();
    assert_eq!(b.leases.iter().find(|l| l.task == 9).unwrap().until, 6);
    assert_eq!(b.leases.iter().find(|l| l.task == 10).unwrap().until, 5);
}

#[test]
fn credit_purchases_have_a_floor() {
    let b = started();
    assert!(matches!(
        b.purchase_credit(1, 100, 9, 50),
        Err(Error::CreditPurchaseTooSmall)
    ));
    assert!(matches!(
        b.purchase_credit(1, 5, 20, 50),
        Err(Error::FundsUnavailable)
    ));
    let (evs, relay) = b.purchase_credit(1, 100, 20, 50).unwrap();
    assert_eq!(
        evs[0],
        Event::CreditPurchased { who: 1, beneficiary: 50, amount: 20 }
    );
    assert_eq!(relay.len(), 1);
}

#[test]
fn auto_renewal_enrollment_is_guarded() {
    let mut b = started();
    assert!(matches!(
        b.enable_auto_renew(77, None, 0, 1, None),
        Err(Error::SovereignAccountNotFound)
    ));
    assert!(matches!(
        b.enable_auto_renew(77, Some(78), 0, 1, None),
        Err(Error::NoPermission)
    ));
    // Nothing assigned on the core yet: nothing to renew for the task.
    assert!(matches!(
        b.enable_auto_renew(77, Some(77), 0, 1, None),
        Err(Error::NonTaskAutoRenewal)
    ));
    let (r, _) = b.purchase(1, 10_000, 10_000, 3).unwrap();
    b.assign(r, Some(1), 1, Finality::Final).unwrap();
    b.enable_auto_renew(77, Some(77), 0, 1, None).unwrap();
    assert!(matches!(
        b.disable_auto_renew(77, Some(77), 0, 2),
        Err(Error::AutoRenewalNotEnabled)
    ));
    let evs = b.disable_auto_renew(77, Some(77), 0, 1).unwrap();
    assert_eq!(evs[0], Event::AutoRenewalDisabled { core: 0, task: 1 });
    assert!(b.auto_renewals.is_empty());
}

#[test]
fn removed_assignments_leave_the_core_idle() {
    let mut b = started();
    let (r, _) = b.purchase(1, 10_000, 10_000, 3).unwrap();
    b.assign(r, Some(1), 1, Finality::Final).unwrap();
    let evs = b.remove_assignment(r).unwrap();
    assert_eq!(evs[0], Event::AssignmentRemoved { region_id: r });
    for (k, s) in &b.workplan {
        if k.core == 0 && k.timeslice >= 4 {
            assert!(s.is_empty());
        }
    }
    assert!(matches!(
        b.remove_assignment(r),
        Err(Error::AssignmentNotFound)
    ));
}

#[test]
fn core_count_changes_flow_through_the_inbox() {
    let mut b = started();
    b.notify_core_count(5);
    let (evs, _) = b.do_tick(1, &Vec::new());
    assert!(evs.iter().any(|e| matches!(e, Event::CoreCountChanged { core_count: 5 })));
    assert_eq!(b.status.unwrap().core_count, 5);
    let (evs2, _) = b.do_tick(1, &Vec::new());
    assert!(!evs2.iter().any(|e| matches!(e, Event::CoreCountChanged { .. })));
}
