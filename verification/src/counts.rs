//! How many values of a rolling window are present (not NaN).
//!
//! The simple moving average skips NaN: each window's mean is the sum of its
//! present values over their number, and a window with none is NaN.

use vstd::prelude::*;

verus! {

/// The number of present values among the positions `[lo, hi)`.
pub open spec fn count_present(present: Seq<bool>, lo: int, hi: int) -> nat
    decreases hi - lo,
{
    if hi <= lo {
        0
    } else {
        count_present(present, lo, hi - 1) + if present[hi - 1] {
            1nat
        } else {
            0nat
        }
    }
}

/// The first position of the window of `period` values that ends at `i`
/// (clipped at the start of the series).
pub open spec fn window_start(i: int, period: int) -> int {
    if i + 1 - period > 0 {
        i + 1 - period
    } else {
        0
    }
}

proof fn lemma_count_drop_first(present: Seq<bool>, lo: int, hi: int)
    requires
        lo < hi,
    ensures
        count_present(present, lo, hi) == count_present(present, lo + 1, hi) + if present[lo] {
            1nat
        } else {
            0nat
        },
    decreases hi - lo,
{
    if hi - 1 > lo {
        lemma_count_drop_first(present, lo, hi - 1);
        assert(count_present(present, lo + 1, hi) == count_present(present, lo + 1, hi - 1) + if present[hi - 1] {
            1nat
        } else {
            0nat
        });
    } else {
        assert(count_present(present, lo, hi - 1) == 0);
        assert(count_present(present, lo + 1, hi) == 0);
    }
}

proof fn lemma_count_bounded(present: Seq<bool>, lo: int, hi: int)
    requires
        lo <= hi,
    ensures
        count_present(present, lo, hi) <= hi - lo,
    decreases hi - lo,
{
    if hi > lo {
        lemma_count_bounded(present, lo, hi - 1);
    }
}

/// For every position `i`, the number of present values in the window of
/// `period` values ending at `i`, kept as a running count that adds the
/// entering value and drops the leaving one.
pub fn window_present_counts(present: &Vec<bool>, period: usize) -> (counts: Vec<usize>)
    ensures
        counts.len() == present.len(),
        forall|i: int|
            0 <= i < counts.len() ==> #[trigger] counts[i] == count_present(
                present@,
                window_start(i, period as int),
                i + 1,
            ),
{
    let n = present.len();
    let mut counts: Vec<usize> = Vec::new();
    let mut c: usize = 0;
    let mut i: usize = 0;
    while i < n
        invariant
            i <= n,
            n == present.len(),
            counts.len() == i,
            c == count_present(present@, window_start(i - 1, period as int), i as int),
            forall|j: int|
                0 <= j < i ==> #[trigger] counts[j] == count_present(
                    present@,
                    window_start(j, period as int),
                    j + 1,
                ),
        decreases n - i,
    {
        let ghost lo = window_start(i - 1, period as int);
        proof {
            lemma_count_bounded(present@, lo, i as int);
        }
        if present[i] {
            c = c + 1;
        }
        assert(c == count_present(present@, lo, i + 1));
        if i >= period {
            proof {
                assert(lo == i - period);
                lemma_count_drop_first(present@, lo, i + 1);
            }
            if present[i - period] {
                c = c - 1;
            }
        }
        counts.push(c);
        i = i + 1;
    }
    counts
}

/// A window with no NaN counts all of its values: in a NaN-free series
/// every full window of `period` values counts exactly `period`.
pub proof fn law_full_window_counts_period(present: Seq<bool>, i: int, period: int)
    requires
        period >= 1,
        0 <= i + 1 - period,
        i < present.len(),
        forall|j: int| i + 1 - period <= j <= i ==> #[trigger] present[j],
    ensures
        count_present(present, window_start(i, period), i + 1) == period,
{
    lemma_all_present(present, i + 1 - period, i + 1);
}

proof fn lemma_all_present(present: Seq<bool>, lo: int, hi: int)
    requires
        lo <= hi,
        forall|j: int| lo <= j < hi ==> #[trigger] present[j],
    ensures
        count_present(present, lo, hi) == hi - lo,
    decreases hi - lo,
{
    if hi > lo {
        lemma_all_present(present, lo, hi - 1);
    }
}

} // verus!
