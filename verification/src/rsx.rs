//! The warm-up counter of the RSX (Relative Strength Xtra) oscillator.
//!
//! RSX runs a counter next to its filters. A step with the counter at 0
//! (re)starts the filters and sets the counter to 1; any other step advances
//! it, but never beyond one past its limit, notes whether the price moved
//! while the counter was within the limit, and drops the counter back to 0
//! when it reaches the limit with no move seen.  The oscillator reads its
//! filters only once the counter has passed the limit, and reports 50
//! before that.

use vstd::prelude::*;

use crate::keys::MAX_EXACT_PERIOD;

verus! {

/// The counter's limit for a given period: `period - 1`, but at least 5.
pub open spec fn rsx_limit(period: int) -> int {
    if period >= 6 {
        period - 1
    } else {
        5
    }
}

/// The counter and the moved flag of the RSX warm-up.
#[derive(Clone, Copy, Debug, PartialEq, Eq, Structural)]
pub struct RsxCounter {
    pub count: u64,
    pub moved: bool,
}

/// What one step of RSX does.
#[derive(Clone, Copy, Debug, PartialEq, Eq, Structural)]
pub struct RsxStep {
    /// The step (re)starts the filters instead of advancing them.
    pub restart: bool,
    /// The counter has passed its limit: the filters' value is read.
    pub ready: bool,
}

/// The counter after one step, given whether the price moved at that step.
pub open spec fn rsx_next(c: RsxCounter, limit: int, changed: bool) -> RsxCounter {
    if c.count == 0 {
        RsxCounter { count: 1, moved: false }
    } else {
        let count: int = if limit <= c.count {
            limit + 1
        } else {
            c.count + 1
        };
        let moved = c.moved || (limit >= count && changed);
        if limit == count && !moved {
            RsxCounter { count: 0, moved }
        } else {
            RsxCounter { count: count as u64, moved }
        }
    }
}

/// The counter after the first `k` steps, from a counter at 0.
pub open spec fn rsx_counter(changed: Seq<bool>, k: int, limit: int) -> RsxCounter
    decreases k,
{
    if k <= 0 {
        RsxCounter { count: 0, moved: false }
    } else {
        rsx_next(rsx_counter(changed, k - 1, limit), limit, changed[k - 1])
    }
}

/// Step `k` of the walk: it restarts where the counter stood at 0 before
/// it, and is ready where the counter passed the limit after it.
pub open spec fn rsx_step(changed: Seq<bool>, k: int, limit: int) -> RsxStep {
    RsxStep {
        restart: rsx_counter(changed, k, limit).count == 0,
        ready: limit < rsx_counter(changed, k + 1, limit).count,
    }
}

/// The steps of the RSX warm-up for `period`, one per entry of `changed`
/// (whether the price at that step differs from the previous one).
pub fn rsx_steps(changed: &Vec<bool>, period: u64) -> (steps: Vec<RsxStep>)
    requires
        period <= MAX_EXACT_PERIOD,
    ensures
        steps.len() == changed.len(),
        forall|k: int|
            0 <= k < steps.len() ==> #[trigger] steps[k] == rsx_step(
                changed@,
                k,
                rsx_limit(period as int),
            ),
{
    let limit: u64 = if period >= 6 {
        period - 1
    } else {
        5
    };
    let n = changed.len();
    let mut steps: Vec<RsxStep> = Vec::new();
    let mut c = RsxCounter { count: 0, moved: false };
    let mut k: usize = 0;
    while k < n
        invariant
            k <= n,
            n == changed.len(),
            limit == rsx_limit(period as int),
            limit < MAX_EXACT_PERIOD,
            c == rsx_counter(changed@, k as int, limit as int),
            c.count <= limit + 1,
            steps.len() == k,
            forall|j: int|
                0 <= j < k ==> #[trigger] steps[j] == rsx_step(changed@, j, limit as int),
        decreases n - k,
    {
        let restart = c.count == 0;
        let next = if restart {
            RsxCounter { count: 1, moved: false }
        } else {
            let count: u64 = if limit <= c.count {
                limit + 1
            } else {
                c.count + 1
            };
            let moved = c.moved || (limit >= count && changed[k]);
            if limit == count && !moved {
                RsxCounter { count: 0, moved }
            } else {
                RsxCounter { count, moved }
            }
        };
        steps.push(RsxStep { restart, ready: limit < next.count });
        c = next;
        k = k + 1;
    }
    steps
}

/// A (re)starting step is never ready: the limit is at least 5, and a
/// restart sets the counter to 1.
pub proof fn law_rsx_restart_not_ready(changed: Seq<bool>, k: int, period: int)
    requires
        0 <= k < changed.len(),
        rsx_step(changed, k, rsx_limit(period)).restart,
    ensures
        !rsx_step(changed, k, rsx_limit(period)).ready,
{
}

/// Once ready, RSX stays ready: a counter past its limit is held at one
/// past it and is never dropped back.
pub proof fn law_rsx_stays_ready(changed: Seq<bool>, k: int, period: int)
    requires
        0 <= k,
        k + 1 < changed.len(),
        rsx_step(changed, k, rsx_limit(period)).ready,
    ensures
        rsx_step(changed, k + 1, rsx_limit(period)).ready,
{
}

proof fn lemma_counter_when_moving(changed: Seq<bool>, k: int, limit: int)
    requires
        2 <= limit < u64::MAX,
        0 <= k <= changed.len(),
        forall|j: int| 1 <= j < changed.len() ==> #[trigger] changed[j],
    ensures
        k == 0 ==> rsx_counter(changed, k, limit) == (RsxCounter { count: 0, moved: false }),
        k == 1 ==> rsx_counter(changed, k, limit) == (RsxCounter { count: 1, moved: false }),
        k >= 2 ==> rsx_counter(changed, k, limit).moved,
        k >= 2 ==> rsx_counter(changed, k, limit).count == (if k <= limit + 1 {
            k
        } else {
            limit + 1
        }),
    decreases k,
{
    if k > 0 {
        lemma_counter_when_moving(changed, k - 1, limit);
        if k >= 2 {
            assert(changed[k - 1]);
        }
    }
}

/// With a price that moves at every step, RSX restarts only at its first
/// step and reports a value exactly from step `L` on, where `L` is
/// `period - 1` for a period of at least 6 and 5 for every smaller period.
pub proof fn law_rsx_ready_when_moving(changed: Seq<bool>, period: int, k: int)
    requires
        0 <= k < changed.len(),
        period <= MAX_EXACT_PERIOD,
        forall|j: int| 1 <= j < changed.len() ==> #[trigger] changed[j],
    ensures
        rsx_step(changed, k, rsx_limit(period)).ready <==> k >= (if period >= 6 {
            period - 1
        } else {
            5
        }),
        rsx_step(changed, k, rsx_limit(period)).restart <==> k == 0,
{
    let limit = rsx_limit(period);
    lemma_counter_when_moving(changed, k, limit);
    lemma_counter_when_moving(changed, k + 1, limit);
}

proof fn lemma_counter_when_still(changed: Seq<bool>, k: int, limit: int)
    requires
        2 <= limit < u64::MAX,
        0 <= k <= changed.len(),
        forall|j: int| 0 <= j < changed.len() ==> !#[trigger] changed[j],
    ensures
        rsx_counter(changed, k, limit) == (RsxCounter { count: (k % limit) as u64, moved: false }),
    decreases k,
{
    if k > 0 {
        lemma_counter_when_still(changed, k - 1, limit);
        let r = (k - 1) % limit;
        assert(0 <= r < limit);
        assert(!changed[k - 1]);
        let prev = rsx_counter(changed, k - 1, limit);
        assert(prev.count == r as u64);
        assert(rsx_counter(changed, k, limit) == rsx_next(prev, limit, changed[k - 1]));
        let q = (k - 1) / limit;
        vstd::arithmetic::div_mod::lemma_fundamental_div_mod(k - 1, limit);
        assert(k - 1 == limit * q + r);
        if r + 1 == limit {
            assert(k == (q + 1) * limit + 0) by (nonlinear_arith)
                requires
                    k - 1 == limit * q + r,
                    r + 1 == limit,
            ;
            vstd::arithmetic::div_mod::lemma_fundamental_div_mod_converse(k, limit, q + 1, 0);
            assert(k % limit == 0);
            assert(rsx_next(prev, limit, false) == (RsxCounter { count: 0, moved: false }));
        } else {
            assert(k == q * limit + (r + 1)) by (nonlinear_arith)
                requires
                    k - 1 == limit * q + r,
            ;
            vstd::arithmetic::div_mod::lemma_fundamental_div_mod_converse(k, limit, q, r + 1);
            assert(k % limit == r + 1);
            assert(rsx_next(prev, limit, false) == (RsxCounter {
                count: (r + 1) as u64,
                moved: false,
            }));
        }
    } else {
        assert(0int % limit == 0) by (nonlinear_arith)
            requires
                limit >= 2,
        ;
    }
}

/// With a price that never moves, RSX restarts its filters every `L` steps
/// (`L` being `period - 1` from period 6 on, and 5 below) and never reports
/// a value.
pub proof fn law_rsx_restarts_when_still(changed: Seq<bool>, period: int, k: int)
    requires
        0 <= k < changed.len(),
        period <= MAX_EXACT_PERIOD,
        forall|j: int| 0 <= j < changed.len() ==> !#[trigger] changed[j],
    ensures
        rsx_step(changed, k, rsx_limit(period)).restart <==> k % (if period >= 6 {
            period - 1
        } else {
            5
        }) == 0,
        !rsx_step(changed, k, rsx_limit(period)).ready,
{
    let limit = rsx_limit(period);
    lemma_counter_when_still(changed, k, limit);
    lemma_counter_when_still(changed, k + 1, limit);
}

} // verus!
