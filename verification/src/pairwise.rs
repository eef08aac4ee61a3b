//! The summation order of numpy's pairwise sum.
//!
//! numpy sums a block of at most 128 values directly (one accumulator below
//! 8 values, eight interleaved accumulators from 8 on); a longer block is
//! split at half its length rounded down to a multiple of 8, each part is
//! summed the same way, and the two sums are added.  The result's bits
//! depend on that order, so the merged candle's volume follows it exactly.
//! The order is written here as a postfix program: each leaf pushes the sum
//! of a block, each `Add` replaces the two topmost sums by their sum.

use vstd::prelude::*;

verus! {

/// One instruction of a summation program.
#[derive(Clone, Copy, Debug, PartialEq, Eq, Structural)]
pub enum SumOp {
    /// Push the direct sum of the `len` values starting at `start`.
    Leaf { start: usize, len: usize },
    /// Pop the right sum, pop the left sum, push left + right.
    Add,
}

/// The largest block numpy sums directly.
pub const PAIRWISE_BLOCK: usize = 128;

/// Where numpy splits a block of `n` values: half of it, rounded down to a
/// multiple of 8.
pub open spec fn pairwise_split(n: int) -> int {
    let h = n / 2;
    h - h % 8
}

/// The summation program numpy follows for the `n` values from `start`.
pub open spec fn pairwise_program(start: int, n: int) -> Seq<SumOp>
    decreases n,
{
    if n <= 128 {
        seq![SumOp::Leaf { start: start as usize, len: n as usize }]
    } else {
        let n2 = pairwise_split(n);
        pairwise_program(start, n2) + pairwise_program(start + n2, n - n2) + seq![SumOp::Add]
    }
}

/// The depth of the sum stack after running `p` from depth `d`, or `None`
/// where an `Add` finds fewer than two sums.
pub open spec fn run_depth(p: Seq<SumOp>, d: int) -> Option<int>
    decreases p.len(),
{
    if p.len() == 0 {
        Some(d)
    } else {
        match p[0] {
            SumOp::Leaf { .. } => run_depth(p.skip(1), d + 1),
            SumOp::Add => if d >= 2 {
                run_depth(p.skip(1), d - 1)
            } else {
                None
            },
        }
    }
}

/// The blocks a program sums directly, in order, as `(start, len)`.
pub open spec fn program_leaves(p: Seq<SumOp>) -> Seq<(int, int)>
    decreases p.len(),
{
    if p.len() == 0 {
        Seq::empty()
    } else {
        let rest = program_leaves(p.drop_last());
        match p.last() {
            SumOp::Leaf { start, len } => rest.push((start as int, len as int)),
            SumOp::Add => rest,
        }
    }
}

/// The blocks `leaves` are consecutive and together span `[start, start + n)`,
/// none longer than numpy sums directly.
pub open spec fn tiles(leaves: Seq<(int, int)>, start: int, n: int) -> bool {
    &&& leaves.len() >= 1
    &&& leaves[0].0 == start
    &&& leaves.last().0 + leaves.last().1 == start + n
    &&& forall|k: int|
        0 <= k < leaves.len() - 1 ==> #[trigger] leaves[k].0 + leaves[k].1 == leaves[k + 1].0
    &&& forall|k: int| 0 <= k < leaves.len() ==> 0 <= (#[trigger] leaves[k]).1 <= 128
}

proof fn lemma_split_bounds(n: int)
    requires
        n > 128,
    ensures
        64 <= pairwise_split(n) + 8,
        0 < pairwise_split(n) < n,
        pairwise_split(n) <= n / 2,
{
}

/// The program for `n` values sums the pieces of the two halves, in order.
fn pairwise_program_into(start: usize, n: usize, out: &mut Vec<SumOp>)
    requires
        start + n <= usize::MAX,
    ensures
        final(out)@ == old(out)@ + pairwise_program(start as int, n as int),
    decreases n,
{
    if n <= PAIRWISE_BLOCK {
        out.push(SumOp::Leaf { start, len: n });
        proof {
            assert(final(out)@ =~= old(out)@ + pairwise_program(start as int, n as int));
        }
    } else {
        let half = n / 2;
        let n2 = half - half % 8;
        proof {
            lemma_split_bounds(n as int);
        }
        let ghost before = out@;
        pairwise_program_into(start, n2, out);
        let ghost mid = out@;
        pairwise_program_into(start + n2, n - n2, out);
        out.push(SumOp::Add);
        proof {
            assert(out@ =~= before + (pairwise_program(start as int, n2 as int) + pairwise_program(
                start + n2,
                n - n2,
            ) + seq![SumOp::Add]));
        }
    }
}

/// The program numpy's pairwise summation follows for the `n` values from
/// `start`.
pub fn pairwise_sum_program(start: usize, n: usize) -> (p: Vec<SumOp>)
    requires
        start + n <= usize::MAX,
    ensures
        p@ == pairwise_program(start as int, n as int),
{
    let mut p: Vec<SumOp> = Vec::new();
    pairwise_program_into(start, n, &mut p);
    proof {
        assert(p@ =~= pairwise_program(start as int, n as int));
    }
    p
}

proof fn lemma_run_depth_append(a: Seq<SumOp>, b: Seq<SumOp>, d: int)
    ensures
        run_depth(a + b, d) == match run_depth(a, d) {
            Some(d2) => run_depth(b, d2),
            None => None,
        },
    decreases a.len(),
{
    if a.len() == 0 {
        assert(a + b =~= b);
    } else {
        assert((a + b).skip(1) =~= a.skip(1) + b);
        match a[0] {
            SumOp::Leaf { .. } => {
                lemma_run_depth_append(a.skip(1), b, d + 1);
            },
            SumOp::Add => {
                if d >= 2 {
                    lemma_run_depth_append(a.skip(1), b, d - 1);
                }
            },
        }
    }
}

proof fn lemma_leaves_append(a: Seq<SumOp>, b: Seq<SumOp>)
    ensures
        program_leaves(a + b) == program_leaves(a) + program_leaves(b),
    decreases b.len(),
{
    if b.len() == 0 {
        assert(a + b =~= a);
        assert(program_leaves(a) + program_leaves(b) =~= program_leaves(a));
    } else {
        assert((a + b).drop_last() =~= a + b.drop_last());
        lemma_leaves_append(a, b.drop_last());
        match b.last() {
            SumOp::Leaf { start, len } => {
                assert(program_leaves(a) + program_leaves(b) =~= (program_leaves(a)
                    + program_leaves(b.drop_last())).push((start as int, len as int)));
            },
            SumOp::Add => {},
        }
    }
}

/// Running the program of a block from any stack depth never finds an `Add`
/// short of two sums, and leaves exactly one sum more: the block's.
pub proof fn law_pairwise_program_is_balanced(start: int, n: int, d: int)
    requires
        0 <= start,
        0 <= n,
        start + n <= usize::MAX,
        0 <= d,
    ensures
        run_depth(pairwise_program(start, n), d) == Some(d + 1),
    decreases n,
{
    if n <= 128 {
        let p = pairwise_program(start, n);
        assert(p.skip(1) =~= Seq::<SumOp>::empty());
        assert(run_depth(p.skip(1), d + 1) == Some(d + 1));
    } else {
        let n2 = pairwise_split(n);
        lemma_split_bounds(n);
        let l = pairwise_program(start, n2);
        let r = pairwise_program(start + n2, n - n2);
        law_pairwise_program_is_balanced(start, n2, d);
        law_pairwise_program_is_balanced(start + n2, n - n2, d + 1);
        let add = seq![SumOp::Add];
        assert(pairwise_program(start, n) == l + r + add);
        lemma_run_depth_append(l + r, add, d);
        lemma_run_depth_append(l, r, d);
        assert(run_depth(l + r, d) == Some(d + 2));
        assert(add.skip(1) =~= Seq::<SumOp>::empty());
        assert(run_depth(add.skip(1), d + 1) == Some(d + 1));
        assert(run_depth(add, d + 2) == Some(d + 1));
    }
}

/// The blocks the program sums directly tile `[start, start + n)` in order,
/// each at most 128 values long: every value is summed once.
pub proof fn law_pairwise_program_tiles(start: int, n: int)
    requires
        0 <= start,
        0 <= n,
        start + n <= usize::MAX,
    ensures
        tiles(program_leaves(pairwise_program(start, n)), start, n),
    decreases n,
{
    if n <= 128 {
        let p = pairwise_program(start, n);
        assert(p.drop_last() =~= Seq::<SumOp>::empty());
        assert(program_leaves(p.drop_last()) =~= Seq::<(int, int)>::empty());
        assert(program_leaves(p) =~= seq![(start, n)]);
    } else {
        let n2 = pairwise_split(n);
        lemma_split_bounds(n);
        let l = pairwise_program(start, n2);
        let r = pairwise_program(start + n2, n - n2);
        law_pairwise_program_tiles(start, n2);
        law_pairwise_program_tiles(start + n2, n - n2);
        lemma_leaves_append(l + r, seq![SumOp::Add]);
        lemma_leaves_append(l, r);
        let add = seq![SumOp::Add];
        assert(pairwise_program(start, n) == l + r + add);
        assert(add.drop_last() =~= Seq::<SumOp>::empty());
        assert(program_leaves(add.drop_last()) =~= Seq::<(int, int)>::empty());
        assert(add.last() == SumOp::Add);
        assert(program_leaves(add) =~= Seq::<(int, int)>::empty());
        let ll = program_leaves(l);
        let rl = program_leaves(r);
        let all = ll + rl;
        assert(program_leaves(pairwise_program(start, n)) =~= all);
        assert forall|k: int| 0 <= k < all.len() - 1 implies #[trigger] all[k].0 + all[k].1
            == all[k + 1].0 by {
            if k < ll.len() - 1 {
                assert(all[k] == ll[k]);
                assert(all[k + 1] == ll[k + 1]);
            } else if k == ll.len() - 1 {
                assert(all[k] == ll.last());
                assert(all[k + 1] == rl[0]);
            } else {
                assert(all[k] == rl[k - ll.len()]);
                assert(all[k + 1] == rl[k - ll.len() + 1]);
            }
        }
        assert forall|k: int| 0 <= k < all.len() implies 0 <= (#[trigger] all[k]).1 <= 128 by {
            if k < ll.len() {
                assert(all[k] == ll[k]);
            } else {
                assert(all[k] == rl[k - ll.len()]);
            }
        }
    }
}

/// A block of at most 128 values is summed directly; a longer block of `n`
/// is split at a multiple of 8 within 8 below `n / 2`, its two parts are
/// summed the same way, left before right, and then added.
pub proof fn law_pairwise_program_split(start: int, n: int)
    requires
        0 <= n,
    ensures
        n <= 128 ==> pairwise_program(start, n) == seq![
            SumOp::Leaf { start: start as usize, len: n as usize },
        ],
        n > 128 ==> exists|m: int|
            #![trigger pairwise_program(start, m)]
            {
                &&& m % 8 == 0
                &&& n / 2 - 8 < m <= n / 2
                &&& pairwise_program(start, n) == pairwise_program(start, m) + pairwise_program(
                    start + m,
                    n - m,
                ) + seq![SumOp::Add]
            },
{
    if n > 128 {
        let m = pairwise_split(n);
        assert(pairwise_program(start, n) == pairwise_program(start, m) + pairwise_program(
            start + m,
            n - m,
        ) + seq![SumOp::Add]);
    }
}

} // verus!
