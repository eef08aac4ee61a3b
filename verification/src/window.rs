//! Rolling extrema over a sliding window, kept in a monotonic deque.
//!
//! The Donchian channel, Williams' %R, the fast stochastic, the Choppiness
//! index and the Chandelier exit all read the highest high and the lowest
//! low of the last `period` candles.  They keep the window's candidates in a
//! deque of positions: a new price first drops the positions that left the
//! window from the front, then evicts from the back every position whose
//! price it equals or beats, and is pushed at the back; the front then names
//! the window's extreme.  NaN takes part in no comparison, so a NaN is never
//! evicted and shields the positions before it until they leave the window.

use std::collections::VecDeque;
use vstd::prelude::*;

use crate::keys::{key_le, key_lt, le, PriceKey};

verus! {

/// Whether a later price `b` evicts an earlier price `a` from the back of
/// the deque: `a <= b` when the deque tracks the maximum, `a >= b` when it
/// tracks the minimum.
pub open spec fn evicts(a: PriceKey, b: PriceKey, want_max: bool) -> bool {
    if want_max {
        key_le(a, b)
    } else {
        key_le(b, a)
    }
}

/// No NaN lies strictly between positions `j` and `k`.
pub open spec fn clear_between(keys: Seq<PriceKey>, j: int, k: int) -> bool {
    forall|l: int| j < l < k ==> (#[trigger] keys[l]) is Some
}

/// Whether position `j` is still held by the deque once position `i` has
/// been pushed (leaving the window aside): no later price up to `i` that
/// has no NaN between it and `j` evicts it.
pub open spec fn survives(keys: Seq<PriceKey>, j: int, i: int, want_max: bool) -> bool {
    forall|k: int|
        j < k <= i && clear_between(keys, j, k) ==> !#[trigger] evicts(keys[j], keys[k], want_max)
}

/// `f` is the front of the deque for the window of `period` prices ending
/// at `i`: the first position of the window that the deque still holds.
pub open spec fn is_window_front(
    keys: Seq<PriceKey>,
    i: int,
    period: int,
    want_max: bool,
    f: int,
) -> bool {
    &&& i + 1 - period <= f <= i
    &&& survives(keys, f, i, want_max)
    &&& forall|j: int| i + 1 - period <= j < f ==> !survives(keys, j, i, want_max)
}

/// The number of full windows of `period` prices in a series of `n`.
pub open spec fn window_count(n: int, period: int) -> int {
    if n >= period {
        n - period + 1
    } else {
        0
    }
}

fn evicts_exec(a: PriceKey, b: PriceKey, want_max: bool) -> (r: bool)
    ensures
        r == evicts(a, b, want_max),
{
    if want_max {
        le(a, b)
    } else {
        le(b, a)
    }
}

proof fn lemma_survives_extend(keys: Seq<PriceKey>, j: int, i: int, want_max: bool)
    requires
        j < i,
        survives(keys, j, i - 1, want_max),
        !(clear_between(keys, j, i) && evicts(keys[j], keys[i], want_max)),
    ensures
        survives(keys, j, i, want_max),
{
    assert forall|k: int|
        j < k <= i && clear_between(keys, j, k) implies !#[trigger] evicts(
        keys[j],
        keys[k],
        want_max,
    ) by {
        if k < i {
        }
    }
}

proof fn lemma_evicted(keys: Seq<PriceKey>, j: int, i: int, want_max: bool)
    requires
        j < i,
        clear_between(keys, j, i),
        evicts(keys[j], keys[i], want_max),
    ensures
        !survives(keys, j, i, want_max),
{
}

proof fn lemma_survives_shrink(keys: Seq<PriceKey>, j: int, i: int, want_max: bool)
    requires
        survives(keys, j, i, want_max),
    ensures
        survives(keys, j, i - 1, want_max),
{
}

/// Where the back `b` of the deque survives `i`, so does every earlier
/// position `e` the deque holds: a price that `i` evicted would have
/// evicted `b` first.
proof fn lemma_shielded(keys: Seq<PriceKey>, e: int, b: int, i: int, want_max: bool)
    requires
        e < b < i,
        survives(keys, e, i - 1, want_max),
        !evicts(keys[b], keys[i], want_max),
    ensures
        !(clear_between(keys, e, i) && evicts(keys[e], keys[i], want_max)),
{
    if clear_between(keys, e, i) && evicts(keys[e], keys[i], want_max) {
        assert(keys[b] is Some);
        assert(clear_between(keys, e, b));
        assert(!evicts(keys[e], keys[b], want_max));
    }
}

/// The front of the deque for every full window of `period` prices, in
/// window order: entry `t` belongs to the window that ends at `t + period - 1`.
fn window_fronts(keys: &Vec<PriceKey>, period: usize, want_max: bool) -> (fronts: Vec<usize>)
    requires
        period >= 1,
    ensures
        fronts.len() == window_count(keys.len() as int, period as int),
        forall|t: int|
            0 <= t < fronts.len() ==> is_window_front(
                keys@,
                t + period - 1,
                period as int,
                want_max,
                #[trigger] fronts[t] as int,
            ),
{
    let n = keys.len();
    let mut dq: VecDeque<usize> = VecDeque::new();
    let mut fronts: Vec<usize> = Vec::new();
    let mut i: usize = 0;
    while i < n
        invariant
            i <= n,
            n == keys.len(),
            period >= 1,
            forall|a: int, b: int| 0 <= a < b < dq@.len() ==> dq@[a] < dq@[b],
            forall|a: int|
                0 <= a < dq@.len() ==> {
                    &&& i - period <= #[trigger] dq@[a] < i
                    &&& survives(keys@, dq@[a] as int, i - 1, want_max)
                },
            forall|j: int|
                i - period <= j < i && 0 <= j && #[trigger] survives(keys@, j, i - 1, want_max)
                    ==> dq@.contains(j as usize),
            fronts.len() == window_count(i as int, period as int),
            forall|t: int|
                0 <= t < fronts.len() ==> is_window_front(
                    keys@,
                    t + period - 1,
                    period as int,
                    want_max,
                    #[trigger] fronts[t] as int,
                ),
        decreases n - i,
    {
        let ghost s: int = i + 1 - period;
        let ghost prev: int = i - 1;
        // Drop the positions that left the window.
        if i >= period {
            while dq.len() > 0 && dq[0] <= i - period
                invariant
                    i >= period,
                    s == i + 1 - period,
                    prev == i - 1,
                    forall|a: int, b: int| 0 <= a < b < dq@.len() ==> dq@[a] < dq@[b],
                    forall|a: int|
                        0 <= a < dq@.len() ==> {
                            &&& i - period <= #[trigger] dq@[a] < i
                            &&& survives(keys@, dq@[a] as int, i - 1, want_max)
                        },
                    forall|j: int|
                        s <= j < i && #[trigger] survives(keys@, j, prev, want_max) ==> dq@.contains(
                            j as usize,
                        ),
                decreases dq@.len(),
            {
                let ghost before = dq@;
                dq.pop_front();
                assert forall|j: int|
                    s <= j < i && #[trigger] survives(keys@, j, prev, want_max) implies dq@.contains(
                    j as usize,
                ) by {
                    let a = choose|a: int| 0 <= a < before.len() && before[a] == j as usize;
                    assert(a != 0);
                    assert(dq@[a - 1] == j as usize);
                }
            }
        }
        proof {
            assert forall|j: int|
                s <= j < i && 0 <= j && (#[trigger] keys@[j]) is None implies dq@.contains(
                j as usize,
            ) by {
                assert(survives(keys@, j, prev, want_max));
            }
            assert forall|a: int| 0 <= a < dq@.len() implies s <= #[trigger] dq@[a] by {
                if i >= period {
                    assert(dq@[0] > i - period);
                    if a > 0 {
                        assert(dq@[0] < dq@[a]);
                    }
                }
            }
        }
        // Evict from the back every position that the new price equals or beats.
        while dq.len() > 0 && evicts_exec(keys[dq[dq.len() - 1]], keys[i], want_max)
            invariant
                i < n,
                n == keys.len(),
                s == i + 1 - period,
                prev == i - 1,
                forall|a: int, b: int| 0 <= a < b < dq@.len() ==> dq@[a] < dq@[b],
                forall|a: int|
                    0 <= a < dq@.len() ==> {
                        &&& s <= #[trigger] dq@[a] < i
                        &&& survives(keys@, dq@[a] as int, i - 1, want_max)
                    },
                forall|j: int|
                    s <= j < i && 0 <= j && (#[trigger] keys@[j]) is None ==> dq@.contains(
                        j as usize,
                    ),
                forall|j: int|
                    s <= j < i && 0 <= j && #[trigger] survives(keys@, j, prev, want_max) && !dq@.contains(
                        j as usize,
                    ) ==> !survives(keys@, j, i as int, want_max),
            decreases dq@.len(),
        {
            let ghost before = dq@;
            let ghost b: int = before[before.len() - 1] as int;
            proof {
                assert forall|l: int| b < l < i implies (#[trigger] keys@[l]) is Some by {
                    if keys@[l] is None {
                        let a = choose|a: int| 0 <= a < before.len() && before[a] == l as usize;
                        assert(before[a] <= before[before.len() - 1]);
                    }
                }
                lemma_evicted(keys@, b, i as int, want_max);
            }
            dq.pop_back();
            assert forall|j: int|
                s <= j < i && 0 <= j && (#[trigger] keys@[j]) is None implies dq@.contains(
                j as usize,
            ) by {
                let a = choose|a: int| 0 <= a < before.len() && before[a] == j as usize;
                assert(a != before.len() - 1);
                assert(dq@[a] == j as usize);
            }
            assert forall|j: int|
                s <= j < i && 0 <= j && #[trigger] survives(keys@, j, prev, want_max) && !dq@.contains(
                    j as usize,
                ) implies !survives(keys@, j, i as int, want_max) by {
                if j != b {
                    if before.contains(j as usize) {
                        let a = choose|a: int| 0 <= a < before.len() && before[a] == j as usize;
                        assert(a != before.len() - 1);
                        assert(dq@[a] == j as usize);
                    }
                }
            }
        }
        proof {
            // Every position still held survives the new price.
            assert forall|a: int| 0 <= a < dq@.len() implies survives(
                keys@,
                #[trigger] dq@[a] as int,
                i as int,
                want_max,
            ) by {
                let last = dq@.len() - 1;
                let b = dq@[last] as int;
                if a == last {
                    lemma_survives_extend(keys@, b, i as int, want_max);
                } else {
                    assert(dq@[a] < dq@[last]);
                    lemma_shielded(keys@, dq@[a] as int, b, i as int, want_max);
                    lemma_survives_extend(keys@, dq@[a] as int, i as int, want_max);
                }
            }
        }
        let ghost mid = dq@;
        dq.push_back(i);
        proof {
            assert forall|j: int|
                (i + 1) - period <= j < i + 1 && 0 <= j && #[trigger] survives(
                    keys@,
                    j,
                    i as int,
                    want_max,
                ) implies dq@.contains(j as usize) by {
                if j == i {
                    assert(dq@[dq@.len() - 1] == i);
                } else {
                    lemma_survives_shrink(keys@, j, i as int, want_max);
                    assert(mid.contains(j as usize));
                    let a = choose|a: int| 0 <= a < mid.len() && mid[a] == j as usize;
                    assert(dq@[a] == j as usize);
                }
            }
            assert forall|a: int| 0 <= a < dq@.len() implies survives(
                keys@,
                #[trigger] dq@[a] as int,
                i as int,
                want_max,
            ) by {
                if a < mid.len() {
                    assert(dq@[a] == mid[a]);
                }
            }
        }
        if i + 1 >= period {
            let f = dq[0];
            proof {
                assert(s <= f);
                assert forall|j: int| s <= j < f implies !survives(keys@, j, i as int, want_max) by {
                    if survives(keys@, j, i as int, want_max) {
                        assert(dq@.contains(j as usize));
                        let a = choose|a: int| 0 <= a < dq@.len() && dq@[a] == j as usize;
                        if a > 0 {
                            assert(dq@[0] < dq@[a]);
                        }
                    }
                }
                assert(is_window_front(keys@, i as int, period as int, want_max, f as int));
            }
            fronts.push(f);
        }
        i = i + 1;
    }
    fronts
}

/// For every full window of `period` prices, the position of the window's
/// highest price as a rolling-maximum deque finds it.
pub fn rolling_max_positions(keys: &Vec<PriceKey>, period: usize) -> (fronts: Vec<usize>)
    requires
        period >= 1,
    ensures
        fronts.len() == window_count(keys.len() as int, period as int),
        forall|t: int|
            0 <= t < fronts.len() ==> is_window_front(
                keys@,
                t + period - 1,
                period as int,
                true,
                #[trigger] fronts[t] as int,
            ),
{
    window_fronts(keys, period, true)
}

/// For every full window of `period` prices, the position of the window's
/// lowest price as a rolling-minimum deque finds it.
pub fn rolling_min_positions(keys: &Vec<PriceKey>, period: usize) -> (fronts: Vec<usize>)
    requires
        period >= 1,
    ensures
        fronts.len() == window_count(keys.len() as int, period as int),
        forall|t: int|
            0 <= t < fronts.len() ==> is_window_front(
                keys@,
                t + period - 1,
                period as int,
                false,
                #[trigger] fronts[t] as int,
            ),
{
    window_fronts(keys, period, false)
}

/// The last position in `[s, e]` whose price is extreme (highest for
/// `want_max`, lowest otherwise) among the prices of `[s, e]`.
pub open spec fn last_extreme_pos(keys: Seq<PriceKey>, s: int, e: int, want_max: bool) -> int
    decreases e - s,
{
    if e <= s {
        s
    } else {
        let m = last_extreme_pos(keys, s, e - 1, want_max);
        if evicts(keys[m], keys[e], want_max) {
            e
        } else {
            m
        }
    }
}

proof fn lemma_last_extreme_pos(keys: Seq<PriceKey>, s: int, e: int, want_max: bool)
    requires
        0 <= s <= e < keys.len(),
        forall|j: int| s <= j <= e ==> (#[trigger] keys[j]) is Some,
    ensures
        s <= last_extreme_pos(keys, s, e, want_max) <= e,
        forall|j: int|
            s <= j <= e ==> #[trigger] evicts(
                keys[j],
                keys[last_extreme_pos(keys, s, e, want_max)],
                want_max,
            ),
        forall|j: int|
            last_extreme_pos(keys, s, e, want_max) < j <= e ==> !#[trigger] evicts(
                keys[last_extreme_pos(keys, s, e, want_max)],
                keys[j],
                want_max,
            ),
    decreases e - s,
{
    let m = last_extreme_pos(keys, s, e, want_max);
    if e > s {
        let p = last_extreme_pos(keys, s, e - 1, want_max);
        lemma_last_extreme_pos(keys, s, e - 1, want_max);
        assert(keys[e] is Some);
        assert(keys[p] is Some);
        assert forall|j: int| s <= j <= e implies #[trigger] evicts(keys[j], keys[m], want_max) by {
            assert(keys[j] is Some);
            if j < e {
                assert(evicts(keys[j], keys[p], want_max));
            }
        }
    } else {
        assert(keys[s] is Some);
    }
}

/// In a window holding no NaN, the deque's front is the window's extreme:
/// every price of the window is at most (for the maximum; at least, for the
/// minimum) the front's, and no later price of the window reaches it.
pub proof fn law_window_front_is_extreme(
    keys: Seq<PriceKey>,
    i: int,
    period: int,
    want_max: bool,
    f: int,
)
    requires
        period >= 1,
        0 <= i + 1 - period,
        i < keys.len(),
        forall|j: int| i + 1 - period <= j <= i ==> (#[trigger] keys[j]) is Some,
        is_window_front(keys, i, period, want_max, f),
    ensures
        forall|j: int| i + 1 - period <= j <= i ==> #[trigger] evicts(keys[j], keys[f], want_max),
        forall|j: int| f < j <= i ==> !#[trigger] evicts(keys[f], keys[j], want_max),
{
    let s = i + 1 - period;
    let m = last_extreme_pos(keys, s, i, want_max);
    lemma_last_extreme_pos(keys, s, i, want_max);
    assert forall|k: int| m < k <= i && clear_between(keys, m, k) implies !#[trigger] evicts(
        keys[m],
        keys[k],
        want_max,
    ) by {}
    assert(survives(keys, m, i, want_max));
    if f < m {
        assert(clear_between(keys, f, m));
        assert(evicts(keys[f], keys[m], want_max));
        assert(!survives(keys, f, i, want_max));
    }
    assert(f == m);
    assert forall|j: int| f < j <= i implies !#[trigger] evicts(keys[f], keys[j], want_max) by {
        assert(clear_between(keys, f, j));
    }
}

/// `r` is the offset that a scan of `w` picks when it starts from `w[0]`
/// and moves only to a strictly better price (higher for `want_max`, lower
/// otherwise): a NaN is never picked, and a NaN at the start is never left.
pub open spec fn is_first_best(w: Seq<PriceKey>, r: int, want_max: bool) -> bool {
    &&& 0 <= r < w.len()
    &&& if w[0] is None {
        r == 0
    } else {
        &&& w[r] is Some
        &&& forall|j: int|
            0 <= j < w.len() && (#[trigger] w[j]) is Some ==> evicts(w[j], w[r], want_max)
        &&& forall|j: int| 0 <= j < r && (#[trigger] w[j]) is Some ==> !evicts(w[r], w[j], want_max)
    }
}

fn better_exec(v: PriceKey, best: PriceKey, want_max: bool) -> (r: bool)
    ensures
        r == (if want_max {
            key_lt(best, v)
        } else {
            key_lt(v, best)
        }),
{
    if want_max {
        crate::keys::lt(best, v)
    } else {
        crate::keys::lt(v, best)
    }
}

fn first_best_offset(keys: &Vec<PriceKey>, start: usize, period: usize, want_max: bool) -> (r:
    usize)
    requires
        period >= 1,
        start + period <= keys.len(),
    ensures
        is_first_best(keys@.subrange(start as int, start + period), r as int, want_max),
{
    let ghost w = keys@.subrange(start as int, start + period);
    let mut best = keys[start];
    let mut idx: usize = 0;
    let mut j: usize = 1;
    while j < period
        invariant
            1 <= j <= period,
            start + period <= keys.len(),
            w == keys@.subrange(start as int, start + period),
            idx < j,
            w[0] is None ==> idx == 0 && best is None,
            w[0] is Some ==> {
                &&& best == w[idx as int]
                &&& best is Some
                &&& forall|k: int|
                    0 <= k < j && (#[trigger] w[k]) is Some ==> evicts(w[k], best, want_max)
                &&& forall|k: int|
                    0 <= k < idx && (#[trigger] w[k]) is Some ==> !evicts(best, w[k], want_max)
            },
        decreases period - j,
    {
        let v = keys[start + j];
        assert(v == w[j as int]);
        if better_exec(v, best, want_max) {
            best = v;
            idx = j;
        }
        j = j + 1;
    }
    idx
}

fn window_first_best_offsets(keys: &Vec<PriceKey>, period: usize, want_max: bool) -> (offsets: Vec<
    usize,
>)
    requires
        period >= 1,
    ensures
        offsets.len() == window_count(keys.len() as int, period as int),
        forall|t: int|
            0 <= t < offsets.len() ==> is_first_best(
                keys@.subrange(t, t + period),
                #[trigger] offsets[t] as int,
                want_max,
            ),
{
    let n = keys.len();
    let mut offsets: Vec<usize> = Vec::new();
    if n < period {
        return offsets;
    }
    let mut t: usize = 0;
    while t <= n - period
        invariant
            period >= 1,
            n == keys.len(),
            n >= period,
            t <= n - period + 1,
            offsets.len() == t,
            forall|u: int|
                0 <= u < t ==> is_first_best(
                    keys@.subrange(u, u + period),
                    #[trigger] offsets[u] as int,
                    want_max,
                ),
        decreases n - t,
    {
        let o = first_best_offset(keys, t, period, want_max);
        offsets.push(o);
        t = t + 1;
    }
    offsets
}

/// For every full window of `period` highs, the offset within the window of
/// the first highest high, as the Aroon oscillator scans it.
pub fn window_first_max_offsets(keys: &Vec<PriceKey>, period: usize) -> (offsets: Vec<usize>)
    requires
        period >= 1,
    ensures
        offsets.len() == window_count(keys.len() as int, period as int),
        forall|t: int|
            0 <= t < offsets.len() ==> is_first_best(
                keys@.subrange(t, t + period),
                #[trigger] offsets[t] as int,
                true,
            ),
{
    window_first_best_offsets(keys, period, true)
}

/// For every full window of `period` lows, the offset within the window of
/// the first lowest low, as the Aroon oscillator scans it.
pub fn window_first_min_offsets(keys: &Vec<PriceKey>, period: usize) -> (offsets: Vec<usize>)
    requires
        period >= 1,
    ensures
        offsets.len() == window_count(keys.len() as int, period as int),
        forall|t: int|
            0 <= t < offsets.len() ==> is_first_best(
                keys@.subrange(t, t + period),
                #[trigger] offsets[t] as int,
                false,
            ),
{
    window_first_best_offsets(keys, period, false)
}

/// `r` is what a scan of `[lo, hi)` that skips NaN and keeps the first of
/// equal extremes picks: nothing when every price there is NaN, and
/// otherwise the first position of the extreme (highest for `want_max`,
/// lowest otherwise) among the prices that are numbers.
pub open spec fn is_first_present_extreme(
    keys: Seq<PriceKey>,
    lo: int,
    hi: int,
    r: Option<usize>,
    want_max: bool,
) -> bool {
    match r {
        None => forall|j: int| lo <= j < hi ==> (#[trigger] keys[j]) is None,
        Some(p) => {
            &&& lo <= p < hi
            &&& keys[p as int] is Some
            &&& forall|j: int|
                lo <= j < hi && (#[trigger] keys[j]) is Some ==> evicts(
                    keys[j],
                    keys[p as int],
                    want_max,
                )
            &&& forall|j: int|
                lo <= j < p && (#[trigger] keys[j]) is Some ==> !evicts(
                    keys[p as int],
                    keys[j],
                    want_max,
                )
        },
    }
}

fn range_first_present_extreme(keys: &Vec<PriceKey>, lo: usize, hi: usize, want_max: bool) -> (r:
    Option<usize>)
    requires
        lo <= hi <= keys.len(),
    ensures
        is_first_present_extreme(keys@, lo as int, hi as int, r, want_max),
{
    let mut best: Option<usize> = None;
    let mut k: usize = lo;
    while k < hi
        invariant
            lo <= k <= hi <= keys.len(),
            is_first_present_extreme(keys@, lo as int, k as int, best, want_max),
        decreases hi - k,
    {
        let v = keys[k];
        match best {
            None => {
                if v.is_some() {
                    best = Some(k);
                }
            },
            Some(p) => {
                if better_exec(v, keys[p], want_max) {
                    best = Some(k);
                }
            },
        }
        k = k + 1;
    }
    best
}

/// The first position of the highest price in `[lo, hi)`, skipping NaN, as
/// a scan that starts below every price finds it.
pub fn range_first_max(keys: &Vec<PriceKey>, lo: usize, hi: usize) -> (r: Option<usize>)
    requires
        lo <= hi <= keys.len(),
    ensures
        is_first_present_extreme(keys@, lo as int, hi as int, r, true),
{
    range_first_present_extreme(keys, lo, hi, true)
}

/// The first position of the lowest price in `[lo, hi)`, skipping NaN, as
/// a scan that starts above every price finds it.
pub fn range_first_min(keys: &Vec<PriceKey>, lo: usize, hi: usize) -> (r: Option<usize>)
    requires
        lo <= hi <= keys.len(),
    ensures
        is_first_present_extreme(keys@, lo as int, hi as int, r, false),
{
    range_first_present_extreme(keys, lo, hi, false)
}

/// In a window holding no NaN, the deque's front and the scan that keeps the
/// first extreme name the same price: both read the window's extreme (the
/// Choppiness index reads its first window by the scan and every later one
/// by the deque).
pub proof fn law_window_front_matches_scan(
    keys: Seq<PriceKey>,
    i: int,
    period: int,
    want_max: bool,
    f: int,
    p: usize,
)
    requires
        period >= 1,
        0 <= i + 1 - period,
        i < keys.len(),
        forall|j: int| i + 1 - period <= j <= i ==> (#[trigger] keys[j]) is Some,
        is_window_front(keys, i, period, want_max, f),
        is_first_present_extreme(keys, i + 1 - period, i + 1, Some(p), want_max),
    ensures
        keys[f] == keys[p as int],
{
    law_window_front_is_extreme(keys, i, period, want_max, f);
    assert(evicts(keys[p as int], keys[f], want_max));
    assert(evicts(keys[f], keys[p as int], want_max));
}

/// Eviction is the price order: for the maximum a later price evicts an
/// earlier one it equals or exceeds, for the minimum one it equals or
/// undercuts; NaN evicts nothing and is never evicted.
pub proof fn law_evicts_is_price_order(a: PriceKey, b: PriceKey)
    ensures
        evicts(a, b, true) <==> (a is Some && b is Some && a.unwrap() <= b.unwrap()),
        evicts(a, b, false) <==> (a is Some && b is Some && b.unwrap() <= a.unwrap()),
{
}

} // verus!
