//! Candle transforms: snapping jumped opens to the previous close, and
//! picking the high and the low of a block of one-minute candles.

use vstd::prelude::*;

use crate::keys::{key_le, key_lt, le, lt, PriceKey};
use crate::window::evicts;

verus! {

/// The prices of one candle that the transforms compare, as keys.
#[derive(Clone, Copy, Debug, PartialEq, Eq, Structural)]
pub struct CandleKeys {
    pub open: PriceKey,
    pub close: PriceKey,
    pub high: PriceKey,
    pub low: PriceKey,
}

/// Which prices of a candle are replaced by the previous candle's close.
#[derive(Clone, Copy, Debug, PartialEq, Eq, Structural)]
pub struct JumpFix {
    pub open: bool,
    pub high: bool,
    pub low: bool,
}

/// Why a block of candles cannot be merged.
#[derive(Clone, Copy, Debug, PartialEq, Eq, Structural)]
pub enum CandleError {
    /// The block holds no candle.
    NoCandles,
}

/// The fix that leaves a candle as it is.
pub open spec fn no_fix() -> JumpFix {
    JumpFix { open: false, high: false, low: false }
}

/// The fix for a candle whose predecessor closed at `prev_close`: an open
/// above the previous close is lowered to it (and so is the low, where the
/// low lay above it); an open below it is raised to it (and so is the high,
/// where the high lay below it).
pub open spec fn jump_fix_for(prev_close: PriceKey, c: CandleKeys) -> JumpFix {
    if key_lt(prev_close, c.open) {
        JumpFix { open: true, high: false, low: key_lt(prev_close, c.low) }
    } else if key_lt(c.open, prev_close) {
        JumpFix { open: true, high: key_lt(c.high, prev_close), low: false }
    } else {
        no_fix()
    }
}

/// The candle once `fix` has replaced its prices by `prev_close`.
pub open spec fn apply_jump_fix(c: CandleKeys, prev_close: PriceKey, fix: JumpFix) -> CandleKeys {
    CandleKeys {
        open: if fix.open {
            prev_close
        } else {
            c.open
        },
        close: c.close,
        high: if fix.high {
            prev_close
        } else {
            c.high
        },
        low: if fix.low {
            prev_close
        } else {
            c.low
        },
    }
}

/// The fix of candle `i` within a series (the first candle has no predecessor).
pub open spec fn series_fix(candles: Seq<CandleKeys>, i: int) -> JumpFix {
    if i == 0 {
        no_fix()
    } else {
        jump_fix_for(candles[i - 1].close, candles[i])
    }
}

/// The series once every candle has been fixed against its predecessor.
pub open spec fn fixed_series(candles: Seq<CandleKeys>) -> Seq<CandleKeys> {
    Seq::new(
        candles.len(),
        |i: int|
            if i == 0 {
                candles[0]
            } else {
                apply_jump_fix(candles[i], candles[i - 1].close, series_fix(candles, i))
            },
    )
}

/// A candle whose low, open and high are numbers in that order.
pub open spec fn well_ordered(c: CandleKeys) -> bool {
    key_le(c.low, c.open) && key_le(c.open, c.high)
}

fn jump_fix_one(prev_close: PriceKey, c: CandleKeys) -> (fix: JumpFix)
    ensures
        fix == jump_fix_for(prev_close, c),
{
    if lt(prev_close, c.open) {
        JumpFix { open: true, high: false, low: lt(prev_close, c.low) }
    } else if lt(c.open, prev_close) {
        JumpFix { open: true, high: lt(c.high, prev_close), low: false }
    } else {
        JumpFix { open: false, high: false, low: false }
    }
}

/// The fixes of a whole series of candles, in one forward pass: candle `i`
/// is compared with the close of candle `i - 1`, which no fix ever changes.
pub fn jump_fix_plan(candles: &Vec<CandleKeys>) -> (plan: Vec<JumpFix>)
    ensures
        plan.len() == candles.len(),
        forall|i: int| 0 <= i < plan.len() ==> #[trigger] plan[i] == series_fix(candles@, i),
{
    let n = candles.len();
    let mut plan: Vec<JumpFix> = Vec::new();
    let mut i: usize = 0;
    while i < n
        invariant
            i <= n,
            n == candles.len(),
            plan.len() == i,
            forall|j: int| 0 <= j < i ==> #[trigger] plan[j] == series_fix(candles@, j),
        decreases n - i,
    {
        if i == 0 {
            plan.push(JumpFix { open: false, high: false, low: false });
        } else {
            let fix = jump_fix_one(candles[i - 1].close, candles[i]);
            plan.push(fix);
        }
        i = i + 1;
    }
    plan
}

/// The fix never touches a close, so fixing candle by candle, each against
/// the already fixed predecessor, decides exactly what the single forward
/// pass decides.
pub proof fn law_jump_fix_reads_unfixed_closes(candles: Seq<CandleKeys>, i: int)
    requires
        1 <= i < candles.len(),
    ensures
        fixed_series(candles)[i - 1].close == candles[i - 1].close,
        jump_fix_for(fixed_series(candles)[i - 1].close, candles[i]) == series_fix(candles, i),
{
}

/// Once a candle is fixed, its open equals the previous close wherever both
/// are numbers.
pub proof fn law_jump_fix_snaps_open(candles: Seq<CandleKeys>, i: int)
    requires
        1 <= i < candles.len(),
        candles[i - 1].close is Some,
        candles[i].open is Some,
    ensures
        fixed_series(candles)[i].open == candles[i - 1].close,
{
}

/// Fixing keeps a candle well ordered: low, open and high stay in order.
pub proof fn law_jump_fix_keeps_order(candles: Seq<CandleKeys>, i: int)
    requires
        1 <= i < candles.len(),
        candles[i - 1].close is Some,
        well_ordered(candles[i]),
    ensures
        well_ordered(fixed_series(candles)[i]),
        fixed_series(candles)[i].close == candles[i].close,
{
}

/// Fixing is idempotent: a fixed series needs no further fix.
pub proof fn law_jump_fix_idempotent(candles: Seq<CandleKeys>)
    ensures
        forall|i: int|
            0 <= i < candles.len() ==> #[trigger] series_fix(fixed_series(candles), i) == no_fix(),
{
    assert forall|i: int| 0 <= i < candles.len() implies #[trigger] series_fix(
        fixed_series(candles),
        i,
    ) == no_fix() by {
        if i > 0 {
            let f = fixed_series(candles);
            assert(f[i - 1].close == candles[i - 1].close);
        }
    }
}

/// `r` is the position that numpy's `maximum.reduce` (for `want_max`) or
/// `minimum.reduce` picks: the first NaN where there is one, and otherwise
/// the first position of the extreme value.
pub open spec fn is_reduce_pos(keys: Seq<PriceKey>, r: int, want_max: bool) -> bool {
    &&& 0 <= r < keys.len()
    &&& if exists|j: int| 0 <= j < keys.len() && (#[trigger] keys[j]) is None {
        &&& keys[r] is None
        &&& forall|j: int| 0 <= j < r ==> (#[trigger] keys[j]) is Some
    } else {
        &&& forall|j: int| 0 <= j < keys.len() ==> #[trigger] evicts(keys[j], keys[r], want_max)
        &&& forall|j: int| 0 <= j < r ==> !#[trigger] evicts(keys[r], keys[j], want_max)
    }
}

/// The highs of a series of candles.
pub open spec fn highs(candles: Seq<CandleKeys>) -> Seq<PriceKey> {
    Seq::new(candles.len(), |i: int| candles[i].high)
}

/// The lows of a series of candles.
pub open spec fn lows(candles: Seq<CandleKeys>) -> Seq<PriceKey> {
    Seq::new(candles.len(), |i: int| candles[i].low)
}

/// The position the numpy reduction picks among `keys`.
fn reduce_pos(keys: &Vec<PriceKey>, want_max: bool) -> (r: usize)
    requires
        keys.len() > 0,
    ensures
        is_reduce_pos(keys@, r as int, want_max),
{
    let n = keys.len();
    let mut best: usize = 0;
    let mut i: usize = 1;
    while i < n
        invariant
            1 <= i <= n,
            n == keys.len(),
            best < i,
            is_reduce_pos(keys@.subrange(0, i as int), best as int, want_max),
        decreases n - i,
    {
        let ghost pre = keys@.subrange(0, i as int);
        let ghost post = keys@.subrange(0, i as int + 1);
        let m = keys[best];
        let v = keys[i];
        let keep = match m {
            None => true,
            Some(_) => if want_max {
                le(v, m)
            } else {
                le(m, v)
            },
        };
        proof {
            assert forall|j: int| 0 <= j < i implies #[trigger] post[j] == pre[j] by {}
            assert(post[i as int] == v);
        }
        if !keep {
            proof {
                if exists|j: int| 0 <= j < i && (#[trigger] pre[j]) is None {
                    let j = choose|j: int| 0 <= j < i && (#[trigger] pre[j]) is None;
                    assert(pre[best as int] is None);
                }
                if v is Some {
                    assert forall|j: int| 0 <= j < i + 1 implies (#[trigger] post[j]) is Some by {
                        if j < i {
                            assert(pre[j] == post[j]);
                            if pre[j] is None {
                                assert(exists|j: int| 0 <= j < i && (#[trigger] pre[j]) is None);
                            }
                        }
                    }
                    assert forall|j: int| 0 <= j < i + 1 implies #[trigger] evicts(
                        post[j],
                        post[i as int],
                        want_max,
                    ) by {
                        if j < i {
                            assert(evicts(pre[j], pre[best as int], want_max));
                        }
                    }
                    assert forall|j: int| 0 <= j < i implies !#[trigger] evicts(
                        post[i as int],
                        post[j],
                        want_max,
                    ) by {
                        assert(evicts(pre[j], pre[best as int], want_max));
                    }
                } else {
                    assert forall|j: int| 0 <= j < i implies (#[trigger] post[j]) is Some by {
                        assert(pre[j] == post[j]);
                        if pre[j] is None {
                            assert(exists|j: int| 0 <= j < i && (#[trigger] pre[j]) is None);
                        }
                    }
                }
            }
            best = i;
        } else {
            proof {
                if exists|j: int| 0 <= j < i + 1 && (#[trigger] post[j]) is None {
                    if exists|j: int| 0 <= j < i && (#[trigger] pre[j]) is None {
                    } else {
                        assert(pre[best as int] is Some);
                        let j = choose|j: int| 0 <= j < i + 1 && (#[trigger] post[j]) is None;
                        if j < i {
                            assert(pre[j] is None);
                        }
                        assert(v is None);
                        assert(false);
                    }
                } else {
                    assert(v is Some);
                    assert forall|j: int| 0 <= j < i + 1 implies #[trigger] evicts(
                        post[j],
                        post[best as int],
                        want_max,
                    ) by {
                        if j < i {
                            assert(evicts(pre[j], pre[best as int], want_max));
                        }
                    }
                }
            }
        }
        i = i + 1;
    }
    proof {
        assert(keys@.subrange(0, n as int) =~= keys@);
    }
    best
}

/// The positions of the high and of the low of a block of one-minute
/// candles, as numpy's `c[:, 3].max()` and `c[:, 4].min()` pick them; an
/// empty block is refused.
pub fn block_extremes(candles: &Vec<CandleKeys>) -> (r: Result<(usize, usize), CandleError>)
    ensures
        candles.len() == 0 <==> r == Err::<(usize, usize), CandleError>(CandleError::NoCandles),
        r matches Ok((h, l)) ==> {
            &&& is_reduce_pos(highs(candles@), h as int, true)
            &&& is_reduce_pos(lows(candles@), l as int, false)
        },
{
    let n = candles.len();
    if n == 0 {
        return Err(CandleError::NoCandles);
    }
    let mut hs: Vec<PriceKey> = Vec::new();
    let mut ls: Vec<PriceKey> = Vec::new();
    let mut i: usize = 0;
    while i < n
        invariant
            i <= n,
            n == candles.len(),
            hs@ =~= highs(candles@).subrange(0, i as int),
            ls@ =~= lows(candles@).subrange(0, i as int),
        decreases n - i,
    {
        hs.push(candles[i].high);
        ls.push(candles[i].low);
        i = i + 1;
    }
    proof {
        assert(hs@ =~= highs(candles@));
        assert(ls@ =~= lows(candles@));
    }
    let h = reduce_pos(&hs, true);
    let l = reduce_pos(&ls, false);
    Ok((h, l))
}

/// Which prices of a candle the fix replaces, over every previous close and
/// candle: the open exactly when it and the previous close are numbers that
/// differ; the low exactly when the open lies above the previous close and
/// so does the low; the high exactly when the open lies below the previous
/// close and so does the high.
pub proof fn law_jump_fix_flags(prev_close: PriceKey, c: CandleKeys)
    ensures
        jump_fix_for(prev_close, c).open <==> (key_lt(prev_close, c.open) || key_lt(
            c.open,
            prev_close,
        )),
        jump_fix_for(prev_close, c).low <==> (key_lt(prev_close, c.open) && key_lt(
            prev_close,
            c.low,
        )),
        jump_fix_for(prev_close, c).high <==> (key_lt(c.open, prev_close) && key_lt(
            c.high,
            prev_close,
        )),
{
}

/// The fix only widens a candle towards the previous close: a low is either
/// kept or lowered to a previous close below it, a high is either kept or
/// raised to a previous close above it; a low at or below the previous close
/// and a high at or above it are always kept, and a close never changes.
pub proof fn law_jump_fix_moves_extremes_outward(candles: Seq<CandleKeys>, i: int)
    requires
        1 <= i < candles.len(),
    ensures
        fixed_series(candles)[i].low == candles[i].low || (fixed_series(candles)[i].low
            == candles[i - 1].close && key_lt(candles[i - 1].close, candles[i].low)),
        fixed_series(candles)[i].high == candles[i].high || (fixed_series(candles)[i].high
            == candles[i - 1].close && key_lt(candles[i].high, candles[i - 1].close)),
        key_le(candles[i].low, candles[i - 1].close) ==> fixed_series(candles)[i].low
            == candles[i].low,
        key_le(candles[i - 1].close, candles[i].high) ==> fixed_series(candles)[i].high
            == candles[i].high,
        fixed_series(candles)[i].close == candles[i].close,
{
}

} // verus!
