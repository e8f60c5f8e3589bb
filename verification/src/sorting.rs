//! The engine itself: the depth budget, the controller that picks a method for
//! each range, and the public entry points.

use vstd::prelude::*;
use vstd::arithmetic::power2::{lemma2_to64, lemma_pow2_strictly_increases, lemma_pow2_unfold, pow2};
use crate::heap::heapsort;
use crate::insertion::insertion_sort;
use crate::model::{
    is_permutation, is_sorted, lemma_reorder_keeps_lower_bound, lemma_reorder_keeps_upper_bound,
    lemma_sorted_permutation_unique, reorders_range, sorted_range,
};
use crate::partition::{partition, partition_dual};

verus! {

/// Ranges of at most this many values are sorted by insertion.
pub const INSERTION_SORT_THRESHOLD: usize = 16;

/// How the engine partitions a range. It is chosen once for a whole sort.
#[derive(Clone, Copy, Debug, PartialEq, Eq)]
pub enum PivotStrategy {
    /// One pivot, the median of three; the range splits in two.
    Single,
    /// Two pivots out of five candidates; the range splits in three.
    Dual,
}

/// The binary logarithm of `n`, rounded down; 0 for `n` below 2.
pub open spec fn floor_log2(n: nat) -> nat
    decreases n,
{
    if n <= 1 {
        0
    } else {
        1 + floor_log2(n / 2)
    }
}

/// The number of nested partition steps allowed on a sequence of `n` values.
pub open spec fn depth_budget(n: nat) -> nat {
    2 * floor_log2(n)
}

/// `floor_log2(n)` is the exponent of the greatest power of two that does not
/// exceed `n`.
pub proof fn lemma_floor_log2_brackets(n: nat)
    requires
        n >= 1,
    ensures
        pow2(floor_log2(n)) <= n < pow2(floor_log2(n) + 1),
    decreases n,
{
    lemma2_to64();
    if n > 1 {
        lemma_floor_log2_brackets(n / 2);
        lemma_pow2_unfold(floor_log2(n));
        lemma_pow2_unfold(floor_log2(n) + 1);
    }
}

/// The budget of a sequence whose length fits a machine word is below 128.
pub proof fn lemma_depth_budget_small(n: nat)
    requires
        n <= usize::MAX,
    ensures
        depth_budget(n) < 128,
{
    lemma2_to64();
    if n >= 1 {
        lemma_floor_log2_brackets(n);
        if floor_log2(n) > 64 {
            lemma_pow2_strictly_increases(64, floor_log2(n));
        }
    }
}

/// Computes the depth budget for a sequence of `n` values: twice the binary
/// logarithm of `n`, rounded down.
pub fn depth_limit(n: usize) -> (d: usize)
    ensures
        d == depth_budget(n as nat),
{
    let mut d: usize = 0;
    let mut m: usize = n;
    while m > 1
        invariant
            d + depth_budget(m as nat) == depth_budget(n as nat),
        decreases m,
    {
        proof {
            lemma_depth_budget_small(n as nat);
        }
        m = m / 2;
        d += 2;
    }
    d
}

/// The greater of two counts.
fn larger(a: usize, b: usize) -> (m: usize)
    ensures
        m == if a >= b { a } else { b },
{
    if a >= b {
        a
    } else {
        b
    }
}

/// Sorts the positions `lo..=hi` in place. A range of fewer than two values
/// is left alone; a small one is sorted by insertion; with the budget spent
/// the range is heapsorted; otherwise it is partitioned by `strategy` and each
/// part sorted with the budget lowered by one.
///
/// Returns the length of the longest chain of nested partition steps that the
/// call made. The budget strictly falls along every such chain, so none is
/// longer than `depth_limit`.
pub fn introsort_inner(
    arr: &mut [i64],
    lo: usize,
    hi: usize,
    depth_limit: usize,
    strategy: PivotStrategy,
) -> (levels: usize)
    requires
        lo < hi ==> hi < old(arr)@.len(),
    ensures
        reorders_range(old(arr)@, final(arr)@, lo as int, hi as int),
        sorted_range(final(arr)@, lo as int, hi as int),
        lo >= hi ==> final(arr)@ == old(arr)@,
        levels <= depth_limit,
        levels == 0 <==> lo >= hi || hi - lo < INSERTION_SORT_THRESHOLD || depth_limit == 0,
    decreases depth_limit, 1nat,
{
    if lo >= hi {
        return 0;
    }
    if hi - lo < INSERTION_SORT_THRESHOLD {
        insertion_sort(arr, lo, hi);
        return 0;
    }
    if depth_limit == 0 {
        heapsort(arr, lo, hi);
        return 0;
    }
    let below: usize = match strategy {
        PivotStrategy::Single => sort_around_one_pivot(arr, lo, hi, depth_limit),
        PivotStrategy::Dual => sort_around_two_pivots(arr, lo, hi, depth_limit),
    };
    below + 1
}

/// One partition step with a single pivot: partitions `lo..=hi` and sorts
/// the part on each side of the pivot with the budget lowered by one.
/// Returns the length of the longest chain of partition steps nested below
/// this one.
fn sort_around_one_pivot(
    arr: &mut [i64],
    lo: usize,
    hi: usize,
    depth_limit: usize,
) -> (below: usize)
    requires
        lo < hi < old(arr)@.len(),
        depth_limit > 0,
    ensures
        reorders_range(old(arr)@, final(arr)@, lo as int, hi as int),
        sorted_range(final(arr)@, lo as int, hi as int),
        below < depth_limit,
    decreases depth_limit, 0nat,
{
    let mut below: usize = 0;
    let p: usize = partition(arr, lo, hi);
    let ghost parted = arr@;
    let ghost pivot = parted[p as int];
    if p > lo {
        let used: usize = introsort_inner(arr, lo, p - 1, depth_limit - 1, PivotStrategy::Single);
        below = larger(below, used);
        proof {
            lemma_reorder_keeps_upper_bound(parted, arr@, lo as int, p - 1, pivot);
        }
    }
    let ghost left_done = arr@;
    if p < hi {
        let used: usize = introsort_inner(arr, p + 1, hi, depth_limit - 1, PivotStrategy::Single);
        below = larger(below, used);
        proof {
            lemma_reorder_keeps_lower_bound(left_done, arr@, p + 1, hi as int, pivot);
        }
    }
    below
}

/// One partition step with two pivots: partitions `lo..=hi` and sorts the
/// part before the first pivot, the part between the two and the part after
/// the second, each with the budget lowered by one. Returns the length of
/// the longest chain of partition steps nested below this one.
#[verifier::rlimit(40)]
fn sort_around_two_pivots(
    arr: &mut [i64],
    lo: usize,
    hi: usize,
    depth_limit: usize,
) -> (below: usize)
    requires
        lo < hi < old(arr)@.len(),
        depth_limit > 0,
    ensures
        reorders_range(old(arr)@, final(arr)@, lo as int, hi as int),
        sorted_range(final(arr)@, lo as int, hi as int),
        below < depth_limit,
    decreases depth_limit, 0nat,
{
    let mut below: usize = 0;
    let (l, g) = partition_dual(arr, lo, hi);
    let ghost parted = arr@;
    let ghost pivot1 = parted[l as int];
    let ghost pivot2 = parted[g as int];
    if l > lo {
        let used: usize = introsort_inner(arr, lo, l - 1, depth_limit - 1, PivotStrategy::Dual);
        below = larger(below, used);
        proof {
            lemma_reorder_keeps_upper_bound(parted, arr@, lo as int, l - 1, pivot1);
        }
    }
    let ghost left_done = arr@;
    if g - l > 1 {
        let used: usize = introsort_inner(arr, l + 1, g - 1, depth_limit - 1, PivotStrategy::Dual);
        below = larger(below, used);
        proof {
            lemma_reorder_keeps_lower_bound(left_done, arr@, l + 1, g - 1, pivot1);
            lemma_reorder_keeps_upper_bound(left_done, arr@, l + 1, g - 1, pivot2);
        }
    }
    let ghost middle_done = arr@;
    if g < hi {
        let used: usize = introsort_inner(arr, g + 1, hi, depth_limit - 1, PivotStrategy::Dual);
        below = larger(below, used);
        proof {
            lemma_reorder_keeps_lower_bound(middle_done, arr@, g + 1, hi as int, pivot2);
        }
    }
    below
}

/// Sorts `arr` in place into non-descending order, partitioning by
/// `strategy`: the hybrid of quicksort, heapsort and insertion sort, with a
/// depth budget of twice the binary logarithm of the length.
///
/// Returns the length of the longest chain of nested partition steps that the
/// sort made, which never exceeds that budget.
pub fn introsort_with(arr: &mut [i64], strategy: PivotStrategy) -> (levels: usize)
    ensures
        final(arr)@.len() == old(arr)@.len(),
        is_permutation(old(arr)@, final(arr)@),
        is_sorted(final(arr)@),
        is_sorted(old(arr)@) ==> final(arr)@ == old(arr)@,
        levels <= depth_budget(old(arr)@.len()),
        levels == 0 <==> old(arr)@.len() <= INSERTION_SORT_THRESHOLD,
{
    let n: usize = arr.len();
    if n <= 1 {
        return 0;
    }
    let max_depth: usize = depth_limit(n);
    let levels: usize = introsort_inner(arr, 0, n - 1, max_depth, strategy);
    proof {
        if is_sorted(old(arr)@) {
            lemma_sorted_permutation_unique(old(arr)@, arr@);
        }
        if n > INSERTION_SORT_THRESHOLD {
            lemma_floor_log2_brackets(n as nat);
            lemma2_to64();
            if floor_log2(n as nat) == 0 {
                lemma_pow2_unfold(1);
            }
        }
    }
    levels
}

/// Sorts `arr` in place into non-descending order, partitioning around a
/// single pivot.
pub fn introsort(arr: &mut [i64])
    ensures
        final(arr)@.len() == old(arr)@.len(),
        is_permutation(old(arr)@, final(arr)@),
        is_sorted(final(arr)@),
        is_sorted(old(arr)@) ==> final(arr)@ == old(arr)@,
{
    let _ = introsort_with(arr, PivotStrategy::Single);
}

/// Calls `sort` of the standard library's slices on `arr`. Trusted, not
/// proved: the standard library documents that the call leaves the slice in
/// ascending order, and a sort only rearranges the values that it is given.
#[verifier::external_body]
fn sort_slice(arr: &mut [i64])
    ensures
        final(arr)@.len() == old(arr)@.len(),
        is_permutation(old(arr)@, final(arr)@),
        is_sorted(final(arr)@),
{
    arr.sort();
}

/// Sorts `arr` in place into non-descending order with the standard
/// library's sort.
pub fn sort_std(arr: &mut [i64])
    ensures
        final(arr)@.len() == old(arr)@.len(),
        is_permutation(old(arr)@, final(arr)@),
        is_sorted(final(arr)@),
        is_sorted(old(arr)@) ==> final(arr)@ == old(arr)@,
{
    sort_slice(arr);
    proof {
        if is_sorted(old(arr)@) {
            lemma_sorted_permutation_unique(old(arr)@, arr@);
        }
    }
}

} // verus!
