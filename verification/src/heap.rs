//! The fallback: heapsort of a range, on a binary max-heap laid out in place
//! with the range's first position as the root.

use vstd::prelude::*;
use crate::model::{
    lemma_reorder_keeps_upper_bound, lemma_swap_reorders, reorders_range, sorted_range, swap_at,
};

verus! {

/// The position of the left child of node `k` in the heap rooted at `base`.
/// The right child follows it directly.
pub open spec fn left_child(base: int, k: int) -> int {
    base + 2 * (k - base) + 1
}

/// Node `k` holds a value no smaller than those of its children, as far as
/// they lie within the heap that ends at `last`.
pub open spec fn heap_at(s: Seq<i64>, base: int, last: int, k: int) -> bool {
    &&& left_child(base, k) <= last ==> s[left_child(base, k)] <= s[k]
    &&& left_child(base, k) + 1 <= last ==> s[left_child(base, k) + 1] <= s[k]
}

/// Every node from `first` to `last` dominates its children.
pub open spec fn heap_from(s: Seq<i64>, base: int, first: int, last: int) -> bool {
    forall|k: int| first <= k <= last ==> heap_at(s, base, last, k)
}

/// In a max-heap the root holds the greatest value.
pub proof fn lemma_heap_root_is_max(s: Seq<i64>, base: int, last: int, k: int)
    requires
        0 <= base <= k <= last < s.len(),
        heap_from(s, base, base, last),
    ensures
        s[k] <= s[base],
    decreases k - base,
{
    if k > base {
        let p = base + (k - base - 1) / 2;
        assert(heap_at(s, base, last, p));
        assert(left_child(base, p) == k || left_child(base, p) + 1 == k);
        lemma_heap_root_is_max(s, base, last, p);
    }
}

/// Sifts the value at `root` down the heap that is rooted at `base` and ends
/// at `last`, until it dominates its children. Where every node after `root`
/// dominated its own children before, every node from `root` on does after.
#[verifier::rlimit(40)]
pub fn heapify(arr: &mut [i64], root: usize, base: usize, last: usize)
    requires
        base <= root <= last < old(arr)@.len(),
    ensures
        reorders_range(old(arr)@, final(arr)@, root as int, last as int),
        heap_from(old(arr)@, base as int, root + 1, last as int) ==> heap_from(
            final(arr)@,
            base as int,
            root as int,
            last as int,
        ),
        heap_at(old(arr)@, base as int, last as int, root as int) ==> final(arr)@ == old(arr)@,
{
    let ghost heaped = heap_from(old(arr)@, base as int, root + 1, last as int);
    let ghost mut parent: int = root as int;
    let span: usize = last - base;
    let mut largest: usize = root;
    loop
        invariant
            base <= root <= largest <= last < arr@.len(),
            span == last - base,
            reorders_range(old(arr)@, arr@, root as int, last as int),
            heaped == heap_from(old(arr)@, base as int, root + 1, last as int),
            largest == root ==> arr@ == old(arr)@,
            largest != root ==> !heap_at(old(arr)@, base as int, last as int, root as int),
            heaped ==> forall|k: int|
                root <= k <= last && k != largest ==> heap_at(arr@, base as int, last as int, k),
            heaped && largest != root ==> {
                &&& root <= parent < largest
                &&& (left_child(base as int, parent) == largest || left_child(base as int, parent)
                    + 1 == largest)
                &&& left_child(base as int, largest as int) <= last ==> arr@[left_child(
                    base as int,
                    largest as int,
                )] <= arr@[parent]
                &&& left_child(base as int, largest as int) + 1 <= last ==> arr@[left_child(
                    base as int,
                    largest as int,
                ) + 1] <= arr@[parent]
            },
        decreases last - largest,
    {
        let offset: usize = largest - base;
        if offset >= span - offset {
            // a leaf: nothing below it
            assert(heaped ==> heap_at(arr@, base as int, last as int, largest as int));
            return ;
        }
        let left: usize = base + 2 * offset + 1;
        let mut max_idx: usize = largest;
        if arr[left] > arr[max_idx] {
            max_idx = left;
        }
        if left < last && arr[left + 1] > arr[max_idx] {
            max_idx = left + 1;
        }
        if max_idx == largest {
            assert(heaped ==> heap_at(arr@, base as int, last as int, largest as int));
            return ;
        }
        let ghost before = arr@;
        proof {
            lemma_swap_reorders(before, largest as int, max_idx as int, root as int, last as int);
        }
        swap_at(arr, largest, max_idx);
        proof {
            if heaped {
                assert(heap_at(arr@, base as int, last as int, largest as int));
                assert forall|k: int| root <= k <= last && k != max_idx implies heap_at(
                    arr@,
                    base as int,
                    last as int,
                    k,
                ) by {
                    if k != largest {
                        assert(heap_at(before, base as int, last as int, k));
                    }
                }
                assert(heap_at(before, base as int, last as int, max_idx as int));
            }
            parent = largest as int;
        }
        largest = max_idx;
    }
}

/// Sorts the positions `lo..=hi` in place: builds a max-heap over the range,
/// then moves the greatest remaining value to the end of the shrinking heap
/// until one value is left.
pub fn heapsort(arr: &mut [i64], lo: usize, hi: usize)
    requires
        lo <= hi < old(arr)@.len(),
    ensures
        reorders_range(old(arr)@, final(arr)@, lo as int, hi as int),
        sorted_range(final(arr)@, lo as int, hi as int),
{
    let ghost orig = arr@;
    let span: usize = hi - lo;
    // half the number of values, rounded down: the nodes that have a child
    let mut i: usize = span / 2 + span % 2;
    while i > 0
        invariant
            2 * i <= hi - lo + 1,
            lo <= hi < arr@.len(),
            reorders_range(orig, arr@, lo as int, hi as int),
            heap_from(arr@, lo as int, lo + i, hi as int),
        decreases i,
    {
        i -= 1;
        heapify(arr, lo + i, lo, hi);
    }
    let mut end: usize = hi;
    while end > lo
        invariant
            lo <= end <= hi < arr@.len(),
            reorders_range(orig, arr@, lo as int, hi as int),
            heap_from(arr@, lo as int, lo as int, end as int),
            sorted_range(arr@, end + 1, hi as int),
            end < hi ==> forall|k: int| lo <= k <= end ==> #[trigger] arr@[k] <= arr@[end + 1],
        decreases end,
    {
        let ghost before = arr@;
        proof {
            lemma_swap_reorders(before, lo as int, end as int, lo as int, hi as int);
            assert forall|k: int| lo <= k <= end implies before[k] <= before[lo as int] by {
                lemma_heap_root_is_max(before, lo as int, end as int, k);
            }
        }
        swap_at(arr, lo, end);
        let ghost exchanged = arr@;
        proof {
            let shrunk: int = end - 1;
            assert forall|k: int| lo + 1 <= k <= shrunk implies #[trigger] heap_at(
                exchanged,
                lo as int,
                shrunk,
                k,
            ) by {
                assert(heap_at(before, lo as int, end as int, k));
            }
        }
        heapify(arr, lo, lo, end - 1);
        proof {
            lemma_reorder_keeps_upper_bound(
                exchanged,
                arr@,
                lo as int,
                end - 1,
                exchanged[end as int],
            );
        }
        end -= 1;
    }
}

} // verus!
