//! Instantaneous pool accounting: revenue claims and expiry of records.

use vstd::prelude::*;
use crate::broker::Broker;
use crate::pricing::{sat128, sat_add, sat_mul};
use crate::store::{lemma_amap_absent, lemma_amap_index, region_remove, region_set, ts_remove, ts_set};
use crate::types::{
    AccountId, Balance, ContributionRecord, Error, Event, InstaPoolHistoryRecord, RegionId,
    RelayInstruction, Timeslice,
};

verus! {

/// Whether the pool history of the claim's `o`-th timeslice is settled:
/// present with its revenue known.
pub open spec fn claim_settled(pre: Broker, region_id: RegionId, o: int) -> bool {
    let t = (region_id.begin + o) as Timeslice;
    &&& pre.history_map().dom().contains(t)
    &&& pre.history_map()[t].maybe_payout is Some
}

/// The share one settled timeslice pays for `bits` claimed lanes: the
/// remaining payout scaled by the lanes' part of the private contributions,
/// never more than the payout itself.
pub open spec fn claim_share(rec: InstaPoolHistoryRecord, bits: nat) -> Balance {
    let payout = rec.maybe_payout->Some_0;
    let scaled = sat128(payout * bits) / rec.private_contributions as Balance;
    if scaled > payout {
        payout
    } else {
        scaled
    }
}

/// One claim step at a settled timeslice `t`: pay the share, drain the
/// history's contributions and payout — dropping the record once no
/// contributions remain — and report what happened.
pub open spec fn claim_step(
    h: Map<Timeslice, InstaPoolHistoryRecord>,
    t: Timeslice,
    bits: nat,
    total: Balance,
    ev: Seq<Event>,
) -> (Map<Timeslice, InstaPoolHistoryRecord>, Balance, Seq<Event>) {
    let rec = h[t];
    let payout = rec.maybe_payout->Some_0;
    if rec.private_contributions == 0 {
        (h.remove(t), total, ev.push(Event::HistoryDropped { when: t, revenue: payout }))
    } else {
        let share = claim_share(rec, bits);
        let p2: int = if bits >= rec.private_contributions {
            0
        } else {
            rec.private_contributions - bits
        };
        let ev1 = ev.push(Event::RevenueClaimItem { when: t, amount: share });
        let total1 = sat128(total + share);
        if p2 == 0 {
            (
                h.remove(t),
                total1,
                ev1.push(
                    Event::HistoryDropped { when: t, revenue: (payout - share) as Balance },
                ),
            )
        } else {
            (
                h.insert(
                    t,
                    InstaPoolHistoryRecord {
                        private_contributions: p2 as u32,
                        system_contributions: rec.system_contributions,
                        maybe_payout: Some((payout - share) as Balance),
                    },
                ),
                total1,
                ev1,
            )
        }
    }
}

/// The claim run: `o` steps from timeslice `t`, threading the history, the
/// saturating total paid and the events reported.
pub open spec fn claim_run(
    h: Map<Timeslice, InstaPoolHistoryRecord>,
    t: int,
    bits: nat,
    o: int,
    total: Balance,
    ev: Seq<Event>,
) -> (Map<Timeslice, InstaPoolHistoryRecord>, Balance, Seq<Event>)
    decreases o,
{
    if o <= 0 {
        (h, total, ev)
    } else {
        let s = claim_step(h, t as Timeslice, bits, total, ev);
        claim_run(s.0, t + 1, bits, o - 1, s.1, s.2)
    }
}

/// Running `mid` steps and then the rest is running them all.
proof fn lemma_claim_run_compose(
    h: Map<Timeslice, InstaPoolHistoryRecord>,
    t: int,
    bits: nat,
    mid: int,
    o: int,
    total: Balance,
    ev: Seq<Event>,
)
    requires
        0 <= mid <= o,
    ensures
        ({
            let r = claim_run(h, t, bits, mid, total, ev);
            claim_run(r.0, t + mid, bits, o - mid, r.1, r.2) == claim_run(h, t, bits, o, total, ev)
        }),
    decreases mid,
{
    if mid > 0 {
        let s = claim_step(h, t as Timeslice, bits, total, ev);
        lemma_claim_run_compose(s.0, t + 1, bits, mid - 1, o - 1, s.1, s.2);
    }
}

/// A claim run touches only the timeslices it walks.
proof fn lemma_claim_run_untouched(
    h: Map<Timeslice, InstaPoolHistoryRecord>,
    t: int,
    bits: nat,
    o: int,
    total: Balance,
    ev: Seq<Event>,
    t2: Timeslice,
)
    requires
        0 <= t,
        t + o <= u32::MAX + 1,
        t2 < t || t2 >= t + o,
    ensures
        ({
            let r = claim_run(h, t, bits, o, total, ev);
            &&& r.0.dom().contains(t2) == h.dom().contains(t2)
            &&& h.dom().contains(t2) ==> r.0[t2] == h[t2]
        }),
    decreases o,
{
    if o > 0 {
        let s = claim_step(h, t as Timeslice, bits, total, ev);
        lemma_claim_run_untouched(s.0, t + 1, bits, o - 1, s.1, s.2, t2);
    }
}

/// The outcome of a claim that walked `steps` timeslices: the claim runs to
/// the nearer of `max_timeslices`, the contribution's end and the first
/// unsettled timeslice; each settled timeslice pays its share per
/// `claim_step`; the contribution is consumed, or re-keyed at the first
/// unclaimed timeslice and named in the closing event for the claim's
/// continuation.
pub open spec fn claim_stop(
    pre: Broker,
    post: Broker,
    ev: Seq<Event>,
    region_id: RegionId,
    max_timeslices: Timeslice,
    steps: int,
) -> bool {
    let c0 = pre.contributions_map()[region_id];
    let run = claim_run(
        pre.history_map(),
        region_id.begin as int,
        region_id.mask.ones(),
        steps,
        0,
        seq![Event::RevenueClaimBegun { region: region_id, max_timeslices }],
    );
    &&& 0 <= steps <= max_timeslices
    &&& steps <= c0.length
    &&& (forall|o: int| 0 <= o < steps ==> claim_settled(pre, region_id, o))
    &&& (steps == max_timeslices || steps == c0.length || !claim_settled(
        pre,
        region_id,
        steps,
    ))
    &&& post.history_map() == run.0
    &&& (if steps == c0.length {
        &&& post.contributions_map() == pre.contributions_map().remove(region_id)
        &&& ev == run.2.push(
            Event::RevenueClaimPaid { who: c0.payee, amount: run.1, next: None },
        )
    } else {
        let nid = RegionId { begin: (region_id.begin + steps) as Timeslice, ..region_id };
        &&& post.contributions_map() == pre.contributions_map().remove(region_id).insert(
            nid,
            ContributionRecord { length: (c0.length - steps) as Timeslice, payee: c0.payee },
        )
        &&& ev == run.2.push(
            Event::RevenueClaimPaid { who: c0.payee, amount: run.1, next: Some(nid) },
        )
    })
}

impl Broker {
    /// Claim the revenue a pool contribution has earned, over at most
    /// `max_timeslices` timeslices from the contribution's begin.
    ///
    /// Fails with `NoClaimTimeslices` exactly when `max_timeslices` is zero,
    /// and with `UnknownContribution` exactly when no contribution is keyed
    /// by `region_id`; nothing changes then.
    ///
    /// Each settled timeslice pays the payee `payout · lanes /
    /// contributions` out of the remaining private payout, draining both;
    /// a drained history record is dropped. The claim stops early at the
    /// first timeslice that is not yet settled; a contribution not fully
    /// consumed is re-keyed at the first unclaimed timeslice, returned as
    /// `next` in the closing event for the claim's continuation.
    #[verifier::rlimit(100)]
    #[verifier::spinoff_prover]
    pub fn claim_revenue(&mut self, region_id: RegionId, max_timeslices: Timeslice) -> (r: Result<
        Vec<Event>,
        Error,
    >)
        requires
            old(self).wf(),
        ensures
            final(self).wf(),
            r is Ok ==> max_timeslices > 0 && old(self).contributions_map().dom().contains(
                region_id,
            ) && *final(self) == (Broker {
                insta_pool_contribution: final(self).insta_pool_contribution,
                insta_pool_history: final(self).insta_pool_history,
                ..*old(self)
            }),
            r is Ok ==> (exists|steps: int|
                #[trigger] claim_stop(
                    *old(self),
                    *final(self),
                    r->Ok_0@,
                    region_id,
                    max_timeslices,
                    steps,
                )),
            match r {
                Ok(_) => true,
                Err(e) => *final(self) == *old(self) && match e {
                    Error::NoClaimTimeslices => max_timeslices == 0,
                    Error::UnknownContribution => max_timeslices > 0 && !old(
                        self,
                    ).contributions_map().dom().contains(region_id),
                    _ => false,
                },
            },
    {
        if max_timeslices == 0 {
            return Err(Error::NoClaimTimeslices);
        }
        let contribution = match region_remove(&mut self.insta_pool_contribution, region_id) {
            Some(c) => c,
            None => {
                return Err(Error::UnknownContribution);
            },
        };
        proof {
            let s0 = old(self).insta_pool_contribution@;
            crate::store::lemma_amap_contains(s0, region_id);
            let i = choose|i: int| 0 <= i < s0.len() && (#[trigger] s0[i]).0 == region_id;
            crate::store::lemma_amap_index(s0, i);
        }
        let payee = contribution.payee;
        let mut ev: Vec<Event> = Vec::new();
        ev.push(Event::RevenueClaimBegun { region: region_id, max_timeslices });
        let bits: u32 = region_id.mask.count_ones();
        let mut total: Balance = 0;
        let mut steps: Timeslice = 0;
        let mut blocked = false;
        let ghost mid = *self;
        let ghost h0 = old(self).history_map();
        let ghost ev0 = seq![Event::RevenueClaimBegun { region: region_id, max_timeslices }];
        proof {
            assert(ev@ =~= ev0);
        }
        while !blocked && steps < max_timeslices && steps < contribution.length
            invariant
                self.wf(),
                0 <= steps <= max_timeslices,
                steps <= contribution.length,
                region_id.begin + contribution.length <= u32::MAX + 1,
                *self == (Broker { insta_pool_history: self.insta_pool_history, ..mid }),
                mid == (Broker {
                    insta_pool_contribution: mid.insta_pool_contribution,
                    ..*old(self)
                }),
                h0 == old(self).history_map(),
                bits as nat == region_id.mask.ones(),
                ev0 == seq![Event::RevenueClaimBegun { region: region_id, max_timeslices }],
                ({
                    let run = claim_run(
                        h0,
                        region_id.begin as int,
                        region_id.mask.ones(),
                        steps as int,
                        0,
                        ev0,
                    );
                    &&& self.history_map() == run.0
                    &&& total == run.1
                    &&& ev@ == run.2
                }),
                forall|o: int| 0 <= o < steps ==> claim_settled(*old(self), region_id, o),
                blocked ==> steps < max_timeslices && steps < contribution.length
                    && !claim_settled(*old(self), region_id, steps as int),
            decreases (if blocked {
                0int
            } else {
                1int
            }) + 2 * (max_timeslices - steps),
        {
            let t: Timeslice = region_id.begin + steps;
            let ghost run = claim_run(
                h0,
                region_id.begin as int,
                region_id.mask.ones(),
                steps as int,
                0,
                ev0,
            );
            proof {
                lemma_claim_run_untouched(
                    h0,
                    region_id.begin as int,
                    region_id.mask.ones(),
                    steps as int,
                    0,
                    ev0,
                    t,
                );
            }
            let hidx = crate::store::ts_index(&self.insta_pool_history, t);
            match hidx {
                None => {
                    proof {
                        crate::store::lemma_amap_absent(self.insta_pool_history@, t);
                    }
                    blocked = true;
                },
                Some(h) => {
                    proof {
                        lemma_amap_index(self.insta_pool_history@, h as int);
                    }
                    let hist = self.insta_pool_history[h].1;
                    match hist.maybe_payout {
                        None => {
                            blocked = true;
                        },
                        Some(payout) => {
                            proof {
                                lemma_claim_run_compose(
                                    h0,
                                    region_id.begin as int,
                                    region_id.mask.ones(),
                                    steps as int,
                                    steps as int + 1,
                                    0,
                                    ev0,
                                );
                                let s = claim_step(
                                    run.0,
                                    t,
                                    region_id.mask.ones(),
                                    run.1,
                                    run.2,
                                );
                                assert(claim_run(
                                    s.0,
                                    t as int + 1,
                                    region_id.mask.ones(),
                                    0,
                                    s.1,
                                    s.2,
                                ) == s);
                            }
                            let p = hist.private_contributions;
                            if p == 0 {
                                ts_remove(&mut self.insta_pool_history, t);
                                ev.push(Event::HistoryDropped { when: t, revenue: payout });
                            } else {
                                let scaled = sat_mul(payout, bits as u128) / (p as u128);
                                let share = if scaled > payout {
                                    payout
                                } else {
                                    scaled
                                };
                                let p2 = if bits >= p {
                                    0
                                } else {
                                    p - bits
                                };
                                let payout2 = payout - share;
                                ev.push(Event::RevenueClaimItem { when: t, amount: share });
                                if p2 == 0 {
                                    ts_remove(&mut self.insta_pool_history, t);
                                    ev.push(
                                        Event::HistoryDropped { when: t, revenue: payout2 },
                                    );
                                } else {
                                    ts_set(
                                        &mut self.insta_pool_history,
                                        t,
                                        InstaPoolHistoryRecord {
                                            private_contributions: p2,
                                            system_contributions: hist.system_contributions,
                                            maybe_payout: Some(payout2),
                                        },
                                    );
                                }
                                total = sat_add(total, share);
                            }
                            steps = steps + 1;
                        },
                    }
                },
            }
        }
        let next: Option<RegionId> = if steps < contribution.length {
            let nid = RegionId { begin: region_id.begin + steps, ..region_id };
            region_set(
                &mut self.insta_pool_contribution,
                nid,
                ContributionRecord { length: contribution.length - steps, payee },
            );
            Some(nid)
        } else {
            None
        };
        ev.push(Event::RevenueClaimPaid { who: payee, amount: total, next });
        let res: Result<Vec<Event>, Error> = Ok(ev);
        proof {
            assert(claim_stop(
                *old(self),
                *self,
                res->Ok_0@,
                region_id,
                max_timeslices,
                steps as int,
            ));
        }
        res
    }

    /// Purchase credit for the instantaneous coretime pool, teleported to a
    /// relay account. The broker's state does not change: the hosting
    /// runtime moves `amount` from the purchaser to the pot and forwards the
    /// credit instruction to the relay.
    ///
    /// Fails with `CreditPurchaseTooSmall` exactly when `amount` is below
    /// the configured minimum, and with `FundsUnavailable` exactly when the
    /// purchaser's free balance `funds` cannot cover it.
    pub fn purchase_credit(
        &self,
        who: AccountId,
        funds: Balance,
        amount: Balance,
        beneficiary: AccountId,
    ) -> (r: Result<(Vec<Event>, Vec<RelayInstruction>), Error>)
        ensures
            match r {
                Ok((ev, relay)) => {
                    &&& amount >= self.limits.minimum_credit_purchase
                    &&& amount <= funds
                    &&& ev@ =~= seq![Event::CreditPurchased { who, beneficiary, amount }]
                    &&& relay@ =~= seq![
                        RelayInstruction::CreditAccount { who: beneficiary, amount },
                    ]
                },
                Err(e) => match e {
                    Error::CreditPurchaseTooSmall => amount
                        < self.limits.minimum_credit_purchase,
                    Error::FundsUnavailable => amount >= self.limits.minimum_credit_purchase
                        && amount > funds,
                    _ => false,
                },
            },
    {
        if amount < self.limits.minimum_credit_purchase {
            return Err(Error::CreditPurchaseTooSmall);
        }
        if amount > funds {
            return Err(Error::FundsUnavailable);
        }
        Ok(
            (
                vec![Event::CreditPurchased { who, beneficiary, amount }],
                vec![RelayInstruction::CreditAccount { who: beneficiary, amount }],
            ),
        )
    }

    /// Drop the record of a pool contribution whose claim window has fully
    /// passed: every timeslice it could claim for is older than the
    /// contribution timeout.
    ///
    /// Fails with `Uninitialized` before configuration or sales start, with
    /// `UnknownContribution` when no contribution is keyed by `region_id`,
    /// and with `StillValid` while any of its revenue may still arrive.
    pub fn drop_contribution(&mut self, region_id: RegionId) -> (r: Result<Vec<Event>, Error>)
        requires
            old(self).wf(),
        ensures
            final(self).wf(),
            match r {
                Ok(ev) => {
                    let c = old(self).contributions_map()[region_id];
                    let cfg = old(self).configuration->Some_0;
                    let st = old(self).status->Some_0;
                    &&& old(self).configuration is Some && old(self).status is Some
                    &&& old(self).contributions_map().dom().contains(region_id)
                    &&& region_id.begin + c.length + cfg.contribution_timeout
                        <= st.last_timeslice
                    &&& final(self).contributions_map() == old(self).contributions_map().remove(
                        region_id,
                    )
                    &&& *final(self) == (Broker {
                        insta_pool_contribution: final(self).insta_pool_contribution,
                        ..*old(self)
                    })
                    &&& ev@ =~= seq![Event::ContributionDropped { region_id }]
                },
                Err(e) => *final(self) == *old(self) && match e {
                    Error::Uninitialized => old(self).configuration is None || old(
                        self,
                    ).status is None,
                    Error::UnknownContribution => old(self).configuration is Some && old(
                        self,
                    ).status is Some && !old(self).contributions_map().dom().contains(region_id),
                    Error::StillValid => old(self).contributions_map().dom().contains(region_id)
                        && region_id.begin + old(self).contributions_map()[region_id].length + old(
                        self,
                    ).configuration->Some_0.contribution_timeout > old(
                        self,
                    ).status->Some_0.last_timeslice,
                    _ => false,
                },
            },
    {
        let config = match self.configuration {
            Some(c) => c,
            None => {
                return Err(Error::Uninitialized);
            },
        };
        let status = match self.status {
            Some(s) => s,
            None => {
                return Err(Error::Uninitialized);
            },
        };
        let idx = crate::store::region_index(&self.insta_pool_contribution, region_id);
        let i = match idx {
            Some(i) => i,
            None => {
                proof {
                    lemma_amap_absent(self.insta_pool_contribution@, region_id);
                }
                return Err(Error::UnknownContribution);
            },
        };
        proof {
            lemma_amap_index(self.insta_pool_contribution@, i as int);
        }
        let c = self.insta_pool_contribution[i].1;
        if region_id.begin as u64 + c.length as u64 + config.contribution_timeout as u64
            > status.last_timeslice as u64 {
            return Err(Error::StillValid);
        }
        region_remove(&mut self.insta_pool_contribution, region_id);
        Ok(vec![Event::ContributionDropped { region_id }])
    }

    /// Drop the pool history of a timeslice older than the contribution
    /// timeout; unclaimed revenue is retained for the system.
    ///
    /// Fails with `Uninitialized` before configuration or sales start, with
    /// `NoHistory` when the timeslice has no history, and with `StillValid`
    /// while claims on it are still admissible.
    pub fn drop_history(&mut self, when: Timeslice) -> (r: Result<Vec<Event>, Error>)
        requires
            old(self).wf(),
        ensures
            final(self).wf(),
            match r {
                Ok(ev) => {
                    let h = old(self).history_map()[when];
                    &&& old(self).configuration is Some && old(self).status is Some
                    &&& old(self).history_map().dom().contains(when)
                    &&& when + old(self).configuration->Some_0.contribution_timeout < old(
                        self,
                    ).status->Some_0.last_timeslice
                    &&& final(self).history_map() == old(self).history_map().remove(when)
                    &&& *final(self) == (Broker {
                        insta_pool_history: final(self).insta_pool_history,
                        ..*old(self)
                    })
                    &&& ev@ =~= seq![
                        Event::HistoryDropped {
                            when,
                            revenue: match h.maybe_payout {
                                Some(p) => p,
                                None => 0,
                            },
                        },
                    ]
                },
                Err(e) => *final(self) == *old(self) && match e {
                    Error::Uninitialized => old(self).configuration is None || old(
                        self,
                    ).status is None,
                    Error::StillValid => old(self).configuration is Some && old(
                        self,
                    ).status is Some && when + old(
                        self,
                    ).configuration->Some_0.contribution_timeout >= old(
                        self,
                    ).status->Some_0.last_timeslice,
                    Error::NoHistory => old(self).configuration is Some && old(
                        self,
                    ).status is Some && when + old(
                        self,
                    ).configuration->Some_0.contribution_timeout < old(
                        self,
                    ).status->Some_0.last_timeslice && !old(self).history_map().dom().contains(
                        when,
                    ),
                    _ => false,
                },
            },
    {
        let config = match self.configuration {
            Some(c) => c,
            None => {
                return Err(Error::Uninitialized);
            },
        };
        let status = match self.status {
            Some(s) => s,
            None => {
                return Err(Error::Uninitialized);
            },
        };
        if when as u64 + config.contribution_timeout as u64 >= status.last_timeslice as u64 {
            return Err(Error::StillValid);
        }
        let removed = ts_remove(&mut self.insta_pool_history, when);
        match removed {
            Some(h) => {
                let revenue = match h.maybe_payout {
                    Some(p) => p,
                    None => 0,
                };
                Ok(vec![Event::HistoryDropped { when, revenue }])
            },
            None => Err(Error::NoHistory),
        }
    }
}

} // verus!
