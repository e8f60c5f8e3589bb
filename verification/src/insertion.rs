//! The base case: insertion sort of a small range.

use vstd::prelude::*;
use crate::model::{is_permutation, lemma_swap_permutes, reorders_range, sorted_range, swapped};

verus! {

/// Sorts the positions `lo..=hi` in place by insertion: each value in turn is
/// moved left past the larger values before it. A range with `lo >= hi` is
/// left as it is.
pub fn insertion_sort(arr: &mut [i64], lo: usize, hi: usize)
    requires
        lo < hi ==> hi < old(arr)@.len(),
    ensures
        reorders_range(old(arr)@, final(arr)@, lo as int, hi as int),
        sorted_range(final(arr)@, lo as int, hi as int),
        lo >= hi ==> final(arr)@ == old(arr)@,
{
    if lo >= hi {
        return ;
    }
    let ghost orig = arr@;
    let mut i: usize = lo + 1;
    while i <= hi
        invariant
            lo < i <= hi + 1,
            hi < arr@.len(),
            reorders_range(orig, arr@, lo as int, hi as int),
            sorted_range(arr@, lo as int, i - 1),
        decreases hi + 1 - i,
    {
        let key: i64 = arr[i];
        let mut j: usize = i;
        let ghost before = arr@;
        assert(arr@.update(j as int, key) =~= before);
        while j > lo && arr[j - 1] > key
            invariant
                lo <= j <= i <= hi,
                hi < arr@.len(),
                arr@.len() == before.len(),
                forall|k: int| 0 <= k < arr@.len() && !(lo <= k <= i) ==> arr@[k] == before[k],
                is_permutation(before, arr@.update(j as int, key)),
                forall|p: int, q: int|
                    lo <= p <= q <= i && p != j && q != j ==> arr@[p] <= arr@[q],
                forall|q: int| j < q <= i ==> key < arr@[q],
            decreases j,
        {
            proof {
                let x = arr@.update(j as int, key);
                lemma_swap_permutes(x, j - 1, j as int);
                assert(swapped(x, j - 1, j as int) =~= arr@.update(j as int, arr@[j - 1]).update(
                    j - 1,
                    key,
                ));
            }
            arr[j] = arr[j - 1];
            j -= 1;
        }
        arr[j] = key;
        i += 1;
    }
}

} // verus!
