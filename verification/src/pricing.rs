//! Pricing: the linear leadin price curve and the period-to-period
//! adaptation of the end price.

use vstd::prelude::*;
use crate::types::{Balance, CoreIndex, RelayBlockNumber, SaleInfoRecord};

verus! {

/// Parts per million: the granularity of configured proportions.
pub const PPM: u32 = 1_000_000;

/// Clamp an unbounded amount into the balance range.
pub open spec fn sat128(x: int) -> u128 {
    if x > u128::MAX {
        u128::MAX
    } else if x < 0 {
        0
    } else {
        x as u128
    }
}

/// Saturating addition of balances.
pub fn sat_add(a: Balance, b: Balance) -> (r: Balance)
    ensures
        r == sat128(a + b),
{
    match a.checked_add(b) {
        Some(x) => x,
        None => u128::MAX,
    }
}

/// Saturating subtraction of balances.
pub fn sat_sub(a: Balance, b: Balance) -> (r: Balance)
    ensures
        r == sat128(a - b),
{
    if a >= b {
        a - b
    } else {
        0
    }
}

/// Saturating multiplication of balances.
pub fn sat_mul(a: Balance, b: Balance) -> (r: Balance)
    ensures
        r == sat128(a * b),
{
    match a.checked_mul(b) {
        Some(x) => x,
        None => u128::MAX,
    }
}

/// The price during a sale at a given relay block.
///
/// The leadin multiplies the end price by a factor decaying linearly from two
/// at its start to one at its end; before the sale starts the factor is two,
/// after the leadin it is one.
pub open spec fn sale_price_spec(
    end_price: Balance,
    sale_start: RelayBlockNumber,
    leadin_length: RelayBlockNumber,
    now: RelayBlockNumber,
) -> Balance {
    let elapsed: int = if now <= sale_start {
        0
    } else {
        now - sale_start
    };
    if elapsed >= leadin_length {
        end_price
    } else {
        let start_price = sat128(2 * end_price);
        let decay = sat128((start_price - end_price) * elapsed) / leadin_length as u128;
        (start_price - decay) as u128
    }
}

/// The price the current sale asks at the current relay block.
pub fn sale_price(sale: &SaleInfoRecord, now: RelayBlockNumber) -> (r: Balance)
    ensures
        r == sale_price_spec(sale.end_price, sale.sale_start, sale.leadin_length, now),
{
    let elapsed: u32 = if now <= sale.sale_start {
        0
    } else {
        now - sale.sale_start
    };
    if elapsed >= sale.leadin_length {
        sale.end_price
    } else {
        let start_price = sat_mul(2, sale.end_price);
        let diff = start_price - sale.end_price;
        let scaled = sat_mul(diff, elapsed as u128);
        let decay = scaled / (sale.leadin_length as u128);
        proof {
            let d = diff as int;
            let e = elapsed as int;
            let l = sale.leadin_length as int;
            assert(d * e >= 0) by (nonlinear_arith)
                requires
                    d >= 0,
                    e >= 0,
            ;
            assert(decay as int <= d) by (nonlinear_arith)
                requires
                    0 <= scaled as int <= d * e,
                    0 <= e < l,
                    d >= 0,
                    decay as int == scaled as int / l,
            ;
        }
        start_price - decay
    }
}

/// The price never rises as the leadin elapses.
pub proof fn lemma_sale_price_monotone(
    end_price: Balance,
    sale_start: RelayBlockNumber,
    leadin_length: RelayBlockNumber,
    a: RelayBlockNumber,
    b: RelayBlockNumber,
)
    requires
        a <= b,
    ensures
        sale_price_spec(end_price, sale_start, leadin_length, a) >= sale_price_spec(
            end_price,
            sale_start,
            leadin_length,
            b,
        ),
{
    let ea: int = if a <= sale_start {
        0
    } else {
        a - sale_start
    };
    let eb: int = if b <= sale_start {
        0
    } else {
        b - sale_start
    };
    let sp = sat128(2 * end_price) as int;
    let d = sp - end_price;
    let l = leadin_length as int;
    assert(d >= 0);
    if ea < leadin_length {
        let sa = sat128(d * ea) as int;
        let da = sa / l;
        assert(d * ea >= 0) by (nonlinear_arith)
            requires
                d >= 0,
                ea >= 0,
        ;
        assert(da <= d) by (nonlinear_arith)
            requires
                0 <= sa <= d * ea,
                0 <= ea < l,
                d >= 0,
                da == sa / l,
        ;
        if eb < leadin_length {
            let sb = sat128(d * eb) as int;
            let db = sb / l;
            assert(d * ea <= d * eb) by (nonlinear_arith)
                requires
                    d >= 0,
                    ea <= eb,
            ;
            assert(sa <= sb);
            assert(da <= db && db <= d) by (nonlinear_arith)
                requires
                    l >= 1,
                    0 <= sa <= sb <= d * eb,
                    0 <= eb < l,
                    d >= 0,
                    da == sa / l,
                    db == sb / l,
            ;
        }
    }
}

/// The end price of the next sale, adapted to how the last one went.
///
/// The base is the sellout price when the sale reached its ideal, else the
/// old end price. An undersold sale lowers the base proportionally, down to
/// half; an oversold one raises it, up to half again. The price never falls
/// below one.
pub open spec fn adapt_price_spec(
    end_price: Balance,
    sellout_price: Option<Balance>,
    cores_sold: CoreIndex,
    ideal_cores_sold: CoreIndex,
    cores_offered: CoreIndex,
) -> Balance {
    let base = match sellout_price {
        Some(p) => p,
        None => end_price,
    };
    if cores_offered == 0 {
        base
    } else {
        let target: int = if ideal_cores_sold >= 1 {
            ideal_cores_sold as int
        } else {
            1
        };
        if cores_sold < target {
            let lowered = sat128(base * (target + cores_sold)) / sat128(2 * target);
            if lowered >= 1 {
                lowered
            } else {
                1
            }
        } else if cores_sold > target && cores_offered > target {
            sat128(base + sat128(base * (cores_sold - target)) / sat128(
                2 * (cores_offered - target),
            ))
        } else {
            base
        }
    }
}

/// Compute the next sale's end price from the finished sale's record.
pub fn adapt_price(sale: &SaleInfoRecord) -> (r: Balance)
    ensures
        r == adapt_price_spec(
            sale.end_price,
            sale.sellout_price,
            sale.cores_sold,
            sale.ideal_cores_sold,
            sale.cores_offered,
        ),
{
    let base = match sale.sellout_price {
        Some(p) => p,
        None => sale.end_price,
    };
    if sale.cores_offered == 0 {
        return base;
    }
    let target: u16 = if sale.ideal_cores_sold >= 1 {
        sale.ideal_cores_sold
    } else {
        1
    };
    if sale.cores_sold < target {
        let lowered = sat_mul(base, (target as u128) + (sale.cores_sold as u128)) / (2 * (
        target as u128));
        if lowered >= 1 {
            lowered
        } else {
            1
        }
    } else if sale.cores_sold > target && sale.cores_offered > target {
        let rise = sat_mul(base, (sale.cores_sold - target) as u128) / (2 * ((sale.cores_offered
            - target) as u128));
        sat_add(base, rise)
    } else {
        base
    }
}

/// The price asked to renew a workload whose pieces were paid `paid` in all:
/// the paid amount raised by the configured bump, and no less than the
/// current end price.
pub open spec fn renewal_price_spec(paid: Balance, bump_ppm: u32, end_price: Balance) -> Balance {
    let bumped = sat128(paid + sat128(paid * bump_ppm) / PPM as u128);
    if bumped >= end_price {
        bumped
    } else {
        end_price
    }
}

/// Compute the price asked for a renewal.
pub fn renewal_price(paid: Balance, bump_ppm: u32, end_price: Balance) -> (r: Balance)
    ensures
        r == renewal_price_spec(paid, bump_ppm, end_price),
{
    let bumped = sat_add(paid, sat_mul(paid, bump_ppm as u128) / (PPM as u128));
    if bumped >= end_price {
        bumped
    } else {
        end_price
    }
}

/// How many of the offered cores should ideally sell: the configured
/// proportion of them, and no more than all of them.
pub open spec fn ideal_cores_spec(proportion_ppm: u32, cores_offered: CoreIndex) -> CoreIndex {
    let ideal = (proportion_ppm * cores_offered) as int / PPM as int;
    if ideal > cores_offered {
        cores_offered
    } else {
        ideal as u16
    }
}

/// Compute how many of the offered cores should ideally sell.
pub fn ideal_cores(proportion_ppm: u32, cores_offered: CoreIndex) -> (r: CoreIndex)
    ensures
        r == ideal_cores_spec(proportion_ppm, cores_offered),
        r <= cores_offered,
{
    proof {
        assert((proportion_ppm as int) * (cores_offered as int) < 0x1_0000_0000_0000_0000) by (nonlinear_arith)
            requires
                proportion_ppm < 0x1_0000_0000,
                cores_offered < 0x1_0000,
        ;
    }
    let ideal: u64 = (proportion_ppm as u64) * (cores_offered as u64) / (PPM as u64);
    if ideal > cores_offered as u64 {
        cores_offered
    } else {
        ideal as u16
    }
}

} // verus!
