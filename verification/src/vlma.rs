//! The period walk of the variable-length moving average.
//!
//! At each step the average's period grows by one while the price lies
//! within the inner deviation band, shrinks by one while it lies beyond the
//! outer band, and is then held within `[min_period, max_period]`; the
//! smoothing factor of the step is `2 / (period + 1)`.

use vstd::prelude::*;

use crate::keys::{key_le, key_lt, le, lt, PriceKey, MAX_EXACT_PERIOD};

verus! {

/// The price of one step and the four deviation bands around it.
#[derive(Clone, Copy, Debug, PartialEq, Eq, Structural)]
pub struct BandPoint {
    pub price: PriceKey,
    /// Lower edge of the outer band.
    pub outer_low: PriceKey,
    /// Lower edge of the inner band.
    pub inner_low: PriceKey,
    /// Upper edge of the inner band.
    pub inner_high: PriceKey,
    /// Upper edge of the outer band.
    pub outer_high: PriceKey,
}

/// How one step moves the period.
#[derive(Clone, Copy, Debug, PartialEq, Eq, Structural)]
pub enum PeriodMove {
    Lengthen,
    Shorten,
    Keep,
}

/// The move a step makes: lengthen inside the inner band, shorten beyond
/// the outer band, keep otherwise.
pub open spec fn period_move(p: BandPoint) -> PeriodMove {
    if key_le(p.inner_low, p.price) && key_le(p.price, p.inner_high) {
        PeriodMove::Lengthen
    } else if key_lt(p.price, p.outer_low) || key_lt(p.outer_high, p.price) {
        PeriodMove::Shorten
    } else {
        PeriodMove::Keep
    }
}

/// `min(max(q, lo), hi)`.
pub open spec fn clamp_period(q: int, lo: int, hi: int) -> int {
    let raised = if q < lo {
        lo
    } else {
        q
    };
    if raised > hi {
        hi
    } else {
        raised
    }
}

/// The period after one move.
pub open spec fn next_period(p: int, mv: PeriodMove, lo: int, hi: int) -> int {
    let q = match mv {
        PeriodMove::Lengthen => p + 1,
        PeriodMove::Shorten => p - 1,
        PeriodMove::Keep => p,
    };
    clamp_period(q, lo, hi)
}

/// The period in force at step `i`: the walk starts at `hi` and step `i`
/// moves the period of step `i - 1`.
pub open spec fn walk_period(points: Seq<BandPoint>, i: int, lo: int, hi: int) -> int
    decreases i,
{
    if i <= 0 {
        hi
    } else {
        next_period(walk_period(points, i - 1, lo, hi), period_move(points[i]), lo, hi)
    }
}

fn period_move_exec(p: &BandPoint) -> (mv: PeriodMove)
    ensures
        mv == period_move(*p),
{
    if le(p.inner_low, p.price) && le(p.price, p.inner_high) {
        PeriodMove::Lengthen
    } else if lt(p.price, p.outer_low) || lt(p.outer_high, p.price) {
        PeriodMove::Shorten
    } else {
        PeriodMove::Keep
    }
}

/// The period of every step of the walk; entry `0` is the starting period.
pub fn vlma_periods(points: &Vec<BandPoint>, min_period: u64, max_period: u64) -> (periods: Vec<
    u64,
>)
    requires
        max_period <= MAX_EXACT_PERIOD,
    ensures
        periods.len() == points.len(),
        forall|i: int|
            0 <= i < periods.len() ==> #[trigger] periods[i] == walk_period(
                points@,
                i,
                min_period as int,
                max_period as int,
            ),
{
    let n = points.len();
    let mut periods: Vec<u64> = Vec::new();
    if n == 0 {
        return periods;
    }
    let mut p: u64 = max_period;
    periods.push(p);
    let mut i: usize = 1;
    while i < n
        invariant
            1 <= i <= n,
            n == points.len(),
            max_period <= MAX_EXACT_PERIOD,
            periods.len() == i,
            p <= max_period,
            p == walk_period(points@, i - 1, min_period as int, max_period as int),
            forall|j: int|
                0 <= j < i ==> #[trigger] periods[j] == walk_period(
                    points@,
                    j,
                    min_period as int,
                    max_period as int,
                ),
        decreases n - i,
    {
        let mv = period_move_exec(&points[i]);
        // A shortened period of 0 would be -1, which the lower clamp lifts to
        // `min_period` just as it lifts 0.
        let q: u64 = match mv {
            PeriodMove::Lengthen => p + 1,
            PeriodMove::Shorten => if p == 0 {
                0
            } else {
                p - 1
            },
            PeriodMove::Keep => p,
        };
        let raised = if q < min_period {
            min_period
        } else {
            q
        };
        p = if raised > max_period {
            max_period
        } else {
            raised
        };
        periods.push(p);
        i = i + 1;
    }
    periods
}

/// The walk never leaves its bounds: every period lies within
/// `[min_period, max_period]` (or is `max_period`, where the bounds cross).
pub proof fn law_walk_stays_in_bounds(points: Seq<BandPoint>, i: int, lo: int, hi: int)
    requires
        0 <= lo,
        0 <= i,
    ensures
        walk_period(points, i, lo, hi) <= hi,
        lo <= hi ==> lo <= walk_period(points, i, lo, hi),
    decreases i,
{
    if i > 0 {
        law_walk_stays_in_bounds(points, i - 1, lo, hi);
    }
}

/// One step of the walk, over every series and bounds `lo <= hi`: a price
/// within the inner band (`inner_low <= price <= inner_high`) lengthens the
/// period by one, up to `hi`; otherwise a price beyond the outer band
/// (`price < outer_low` or `price > outer_high`) shortens it by one, down to
/// `lo`; any other price, such as one between the inner and the outer band,
/// keeps it.
pub proof fn law_walk_step(points: Seq<BandPoint>, i: int, lo: int, hi: int)
    requires
        1 <= i < points.len(),
        0 <= lo <= hi,
    ensures
        ({
            let p = walk_period(points, i - 1, lo, hi);
            let q = walk_period(points, i, lo, hi);
            let pt = points[i];
            let inside = key_le(pt.inner_low, pt.price) && key_le(pt.price, pt.inner_high);
            let beyond = key_lt(pt.price, pt.outer_low) || key_lt(pt.outer_high, pt.price);
            &&& inside ==> q == (if p < hi {
                p + 1
            } else {
                hi
            })
            &&& !inside && beyond ==> q == (if p > lo {
                p - 1
            } else {
                lo
            })
            &&& !inside && !beyond ==> q == p
        }),
{
    law_walk_stays_in_bounds(points, i - 1, lo, hi);
}

/// The walk starts at `max_period`.
pub proof fn law_walk_starts_at_max(points: Seq<BandPoint>, lo: int, hi: int)
    ensures
        walk_period(points, 0, lo, hi) == hi,
{
}

} // verus!
