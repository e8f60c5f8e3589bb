//! Partitioning a range: around one pivot chosen as the median of three, or
//! around two pivots chosen among five candidates.

use vstd::prelude::*;
use crate::model::{
    is_permutation, lemma_swap_permutes, lemma_swap_reorders, reorders_range, swap_at,
};

verus! {

/// The middle one of three values.
pub open spec fn median_of(x: i64, y: i64, z: i64) -> i64 {
    if (x <= y && y <= z) || (z <= y && y <= x) {
        y
    } else if (y <= x && x <= z) || (z <= x && x <= y) {
        x
    } else {
        z
    }
}

/// The smaller of two values.
pub open spec fn lesser(x: i64, y: i64) -> i64 {
    if x <= y {
        x
    } else {
        y
    }
}

/// The position halfway between `lo` and `hi`, rounded down.
pub open spec fn midpoint(lo: int, hi: int) -> int {
    lo + (hi - lo) / 2
}

/// Orders the values at the positions `a`, `b`, `c` by three compare-and-swap
/// steps and returns `b`, which then holds their median. Where `a` and `b`
/// are one position, it holds the smaller of the two values.
pub fn median_of_three(arr: &mut [i64], a: usize, b: usize, c: usize) -> (m: usize)
    requires
        a < old(arr)@.len(),
        b < old(arr)@.len(),
        c < old(arr)@.len(),
    ensures
        m == b,
        final(arr)@.len() == old(arr)@.len(),
        is_permutation(old(arr)@, final(arr)@),
        forall|k: int|
            0 <= k < old(arr)@.len() && k != a && k != b && k != c
                ==> final(arr)@[k] == old(arr)@[k],
        (a == c ==> a == b)
            ==> final(arr)@[a as int] <= final(arr)@[b as int] <= final(arr)@[c as int],
        a != b && b != c && a != c ==> final(arr)@[b as int] == median_of(
            old(arr)@[a as int],
            old(arr)@[b as int],
            old(arr)@[c as int],
        ),
        a == b ==> final(arr)@[b as int] == lesser(old(arr)@[b as int], old(arr)@[c as int]),
{
    compare_swap(arr, a, b);
    compare_swap(arr, b, c);
    compare_swap(arr, a, b);
    b
}

/// Partitions the positions `lo..=hi` around one pivot and returns the
/// pivot's final position `p`: nothing before `p` exceeds the pivot, and
/// everything after `p` does. The pivot is the median of the first, middle
/// and last value of the range; in a range of one or two values, the smaller.
pub fn partition(arr: &mut [i64], lo: usize, hi: usize) -> (p: usize)
    requires
        lo <= hi < old(arr)@.len(),
    ensures
        lo <= p <= hi,
        reorders_range(old(arr)@, final(arr)@, lo as int, hi as int),
        forall|k: int| lo <= k < p ==> final(arr)@[k] <= final(arr)@[p as int],
        forall|k: int| p < k <= hi ==> final(arr)@[k] > final(arr)@[p as int],
        hi - lo >= 2 ==> final(arr)@[p as int] == median_of(
            old(arr)@[lo as int],
            old(arr)@[midpoint(lo as int, hi as int)],
            old(arr)@[hi as int],
        ),
        hi - lo < 2 ==> final(arr)@[p as int] == lesser(old(arr)@[lo as int], old(arr)@[hi as int]),
{
    let mid: usize = lo + (hi - lo) / 2;
    let m: usize = median_of_three(arr, lo, mid, hi);
    proof {
        lemma_swap_reorders(arr@, m as int, hi as int, lo as int, hi as int);
    }
    swap_at(arr, m, hi);
    let pivot: i64 = arr[hi];
    let mut i: usize = lo;
    let mut j: usize = lo;
    while j < hi
        invariant
            lo <= i <= j <= hi < arr@.len(),
            arr@[hi as int] == pivot,
            reorders_range(old(arr)@, arr@, lo as int, hi as int),
            forall|k: int| lo <= k < i ==> arr@[k] <= pivot,
            forall|k: int| i <= k < j ==> arr@[k] > pivot,
        decreases hi - j,
    {
        if arr[j] <= pivot {
            proof {
                lemma_swap_reorders(arr@, i as int, j as int, lo as int, hi as int);
            }
            swap_at(arr, i, j);
            i += 1;
        }
        j += 1;
    }
    proof {
        lemma_swap_reorders(arr@, i as int, hi as int, lo as int, hi as int);
    }
    swap_at(arr, i, hi);
    i
}

/// How many of five values lie below `v`.
pub open spec fn count_below(a: i64, b: i64, c: i64, d: i64, e: i64, v: i64) -> int {
    (if a < v { 1int } else { 0 }) + (if b < v { 1int } else { 0 }) + (if c < v { 1int } else { 0 })
        + (if d < v { 1int } else { 0 }) + (if e < v { 1int } else { 0 })
}

/// How many of five values do not exceed `v`.
pub open spec fn count_up_to(a: i64, b: i64, c: i64, d: i64, e: i64, v: i64) -> int {
    (if a <= v { 1int } else { 0 }) + (if b <= v { 1int } else { 0 }) + (if c <= v { 1int } else { 0 })
        + (if d <= v { 1int } else { 0 }) + (if e <= v { 1int } else { 0 })
}

/// `v` is the value that stands at place `rank`, counted from 0, when the
/// five values are listed in ascending order.
pub open spec fn is_ranked(a: i64, b: i64, c: i64, d: i64, e: i64, v: i64, rank: int) -> bool {
    &&& v == a || v == b || v == c || v == d || v == e
    &&& count_below(a, b, c, d, e, v) <= rank < count_up_to(a, b, c, d, e, v)
}

/// The five candidate values of the range `lo..=hi` of `s`: those at the two
/// ends, at the midpoint, and at the midpoints of the two halves.
pub open spec fn candidate_is_ranked(s: Seq<i64>, lo: int, hi: int, v: i64, rank: int) -> bool {
    let mid = midpoint(lo, hi);
    is_ranked(s[lo], s[midpoint(lo, mid)], s[mid], s[midpoint(mid, hi)], s[hi], v, rank)
}

/// At the five positions, `t` holds the values that `s` holds there, in some
/// order: whatever the value `v`, as many lie below it, and as many do not
/// exceed it.
pub open spec fn same_five(s: Seq<i64>, t: Seq<i64>, e1: int, e2: int, e3: int, e4: int, e5: int) -> bool {
    forall|v: i64|
        #![trigger count_below(s[e1], s[e2], s[e3], s[e4], s[e5], v)]
        {
            &&& count_below(s[e1], s[e2], s[e3], s[e4], s[e5], v) == count_below(
                t[e1],
                t[e2],
                t[e3],
                t[e4],
                t[e5],
                v,
            )
            &&& count_up_to(s[e1], s[e2], s[e3], s[e4], s[e5], v) == count_up_to(
                t[e1],
                t[e2],
                t[e3],
                t[e4],
                t[e5],
                v,
            )
        }
}

/// Puts the values at the positions `a` and `b` in order: afterwards `a`
/// holds the smaller of the two and `b` the greater.
pub fn compare_swap(arr: &mut [i64], a: usize, b: usize)
    requires
        a < old(arr)@.len(),
        b < old(arr)@.len(),
    ensures
        final(arr)@.len() == old(arr)@.len(),
        is_permutation(old(arr)@, final(arr)@),
        forall|k: int|
            0 <= k < old(arr)@.len() && k != a && k != b ==> final(arr)@[k] == old(arr)@[k],
        old(arr)@[a as int] > old(arr)@[b as int] ==> {
            &&& final(arr)@[a as int] == old(arr)@[b as int]
            &&& final(arr)@[b as int] == old(arr)@[a as int]
        },
        old(arr)@[a as int] <= old(arr)@[b as int] ==> {
            &&& final(arr)@[a as int] == old(arr)@[a as int]
            &&& final(arr)@[b as int] == old(arr)@[b as int]
        },
{
    if arr[a] > arr[b] {
        proof {
            lemma_swap_permutes(arr@, a as int, b as int);
        }
        swap_at(arr, a, b);
    }
}

/// One compare-and-swap among five positions, on `x` and `y` of them: the
/// five keep the values that they had in `start`.
fn order_step(
    arr: &mut [i64],
    e1: usize,
    e2: usize,
    e3: usize,
    e4: usize,
    e5: usize,
    x: usize,
    y: usize,
    Ghost(start): Ghost<Seq<i64>>,
)
    requires
        e1 < e2 < e3 < e4 < e5 < old(arr)@.len(),
        (x == e1 && y == e2) || (x == e2 && y == e3) || (x == e3 && y == e4) || (x == e4 && y
            == e5),
        same_five(start, old(arr)@, e1 as int, e2 as int, e3 as int, e4 as int, e5 as int),
    ensures
        final(arr)@.len() == old(arr)@.len(),
        is_permutation(old(arr)@, final(arr)@),
        forall|k: int|
            0 <= k < old(arr)@.len() && k != x && k != y ==> final(arr)@[k] == old(arr)@[k],
        old(arr)@[x as int] > old(arr)@[y as int] ==> {
            &&& final(arr)@[x as int] == old(arr)@[y as int]
            &&& final(arr)@[y as int] == old(arr)@[x as int]
        },
        old(arr)@[x as int] <= old(arr)@[y as int] ==> {
            &&& final(arr)@[x as int] == old(arr)@[x as int]
            &&& final(arr)@[y as int] == old(arr)@[y as int]
        },
        same_five(start, final(arr)@, e1 as int, e2 as int, e3 as int, e4 as int, e5 as int),
{
    compare_swap(arr, x, y);
    proof {
        let s = old(arr)@;
        let t = arr@;
        let (p1, p2, p3, p4, p5) = (e1 as int, e2 as int, e3 as int, e4 as int, e5 as int);
        assert forall|v: i64|
            count_below(s[p1], s[p2], s[p3], s[p4], s[p5], v) == count_below(
                t[p1],
                t[p2],
                t[p3],
                t[p4],
                t[p5],
                v,
            ) && count_up_to(s[p1], s[p2], s[p3], s[p4], s[p5], v) == count_up_to(
                t[p1],
                t[p2],
                t[p3],
                t[p4],
                t[p5],
                v,
            ) by {
            if x == e1 {
            } else if x == e2 {
            } else if x == e3 {
            } else {
            }
        }
        assert forall|v: i64|
            #![trigger count_below(start[p1], start[p2], start[p3], start[p4], start[p5], v)]
            count_below(start[p1], start[p2], start[p3], start[p4], start[p5], v) == count_below(
                t[p1],
                t[p2],
                t[p3],
                t[p4],
                t[p5],
                v,
            ) && count_up_to(start[p1], start[p2], start[p3], start[p4], start[p5], v)
                == count_up_to(t[p1], t[p2], t[p3], t[p4], t[p5], v) by {
            assert(count_below(s[p1], s[p2], s[p3], s[p4], s[p5], v) == count_below(
                t[p1],
                t[p2],
                t[p3],
                t[p4],
                t[p5],
                v,
            ));
        }
    }
}

/// Orders the values at five positions, given in ascending order, among
/// themselves: the five then hold their values in ascending order, so that
/// the second position holds the second smallest and the fourth the fourth
/// smallest.
pub fn order_five(arr: &mut [i64], e1: usize, e2: usize, e3: usize, e4: usize, e5: usize)
    requires
        e1 < e2 < e3 < e4 < e5 < old(arr)@.len(),
    ensures
        final(arr)@.len() == old(arr)@.len(),
        is_permutation(old(arr)@, final(arr)@),
        forall|k: int|
            0 <= k < old(arr)@.len() && k != e1 && k != e2 && k != e3 && k != e4 && k != e5
                ==> final(arr)@[k] == old(arr)@[k],
        final(arr)@[e1 as int] <= final(arr)@[e2 as int],
        final(arr)@[e2 as int] <= final(arr)@[e3 as int],
        final(arr)@[e3 as int] <= final(arr)@[e4 as int],
        final(arr)@[e4 as int] <= final(arr)@[e5 as int],
        same_five(old(arr)@, final(arr)@, e1 as int, e2 as int, e3 as int, e4 as int, e5 as int),
        is_ranked(
            old(arr)@[e1 as int],
            old(arr)@[e2 as int],
            old(arr)@[e3 as int],
            old(arr)@[e4 as int],
            old(arr)@[e5 as int],
            final(arr)@[e2 as int],
            1,
        ),
        is_ranked(
            old(arr)@[e1 as int],
            old(arr)@[e2 as int],
            old(arr)@[e3 as int],
            old(arr)@[e4 as int],
            old(arr)@[e5 as int],
            final(arr)@[e4 as int],
            3,
        ),
{
    let ghost start = arr@;
    order_step(arr, e1, e2, e3, e4, e5, e1, e2, Ghost(start));
    order_step(arr, e1, e2, e3, e4, e5, e2, e3, Ghost(start));
    order_step(arr, e1, e2, e3, e4, e5, e1, e2, Ghost(start));
    assert(arr@[e1 as int] <= arr@[e2 as int] <= arr@[e3 as int]);
    order_step(arr, e1, e2, e3, e4, e5, e3, e4, Ghost(start));
    order_step(arr, e1, e2, e3, e4, e5, e2, e3, Ghost(start));
    order_step(arr, e1, e2, e3, e4, e5, e1, e2, Ghost(start));
    assert(arr@[e1 as int] <= arr@[e2 as int] <= arr@[e3 as int] <= arr@[e4 as int]);
    order_step(arr, e1, e2, e3, e4, e5, e4, e5, Ghost(start));
    order_step(arr, e1, e2, e3, e4, e5, e3, e4, Ghost(start));
    order_step(arr, e1, e2, e3, e4, e5, e2, e3, Ghost(start));
    order_step(arr, e1, e2, e3, e4, e5, e1, e2, Ghost(start));
}

/// Partitions the positions `lo..=hi` around two pivots and returns their
/// final positions `(l, g)`: everything before `l` is below the first pivot,
/// everything between `l` and `g` lies between the pivots, bounds included,
/// and everything after `g` is above the second. The pivots are taken from
/// five candidates: the two ends, the midpoint and the midpoints of the two
/// halves, the second and the fourth of them by value. A range of fewer than
/// five values has no five candidates: its two ends serve as pivots.
pub fn partition_dual(arr: &mut [i64], lo: usize, hi: usize) -> (bounds: (usize, usize))
    requires
        lo < hi < old(arr)@.len(),
    ensures
        lo <= bounds.0 < bounds.1 <= hi,
        reorders_range(old(arr)@, final(arr)@, lo as int, hi as int),
        final(arr)@[bounds.0 as int] <= final(arr)@[bounds.1 as int],
        forall|k: int|
            lo <= k < bounds.0 ==> #[trigger] final(arr)@[k] < final(arr)@[bounds.0 as int],
        forall|k: int|
            bounds.0 < k < bounds.1 ==> final(arr)@[bounds.0 as int] <= #[trigger] final(arr)@[k]
                <= final(arr)@[bounds.1 as int],
        forall|k: int|
            bounds.1 < k <= hi ==> #[trigger] final(arr)@[k] > final(arr)@[bounds.1 as int],
        hi - lo >= 4 ==> candidate_is_ranked(
            old(arr)@,
            lo as int,
            hi as int,
            final(arr)@[bounds.0 as int],
            1,
        ),
        hi - lo >= 4 ==> candidate_is_ranked(
            old(arr)@,
            lo as int,
            hi as int,
            final(arr)@[bounds.1 as int],
            3,
        ),
{
    if hi - lo >= 4 {
        let mid: usize = lo + (hi - lo) / 2;
        let low_quarter: usize = lo + (mid - lo) / 2;
        let high_quarter: usize = mid + (hi - mid) / 2;
        order_five(arr, lo, low_quarter, mid, high_quarter, hi);
        proof {
            lemma_swap_reorders(arr@, low_quarter as int, lo as int, lo as int, hi as int);
        }
        swap_at(arr, low_quarter, lo);
        proof {
            lemma_swap_reorders(arr@, high_quarter as int, hi as int, lo as int, hi as int);
        }
        swap_at(arr, high_quarter, hi);
    } else {
        compare_swap(arr, lo, hi);
    }
    let pivot1: i64 = arr[lo];
    let pivot2: i64 = arr[hi];
    let mut lt: usize = lo + 1;
    let mut gt: usize = hi - 1;
    let mut i: usize = lo + 1;
    while i <= gt
        invariant
            lo < lt <= i <= gt + 1 <= hi < arr@.len(),
            arr@[lo as int] == pivot1,
            arr@[hi as int] == pivot2,
            pivot1 <= pivot2,
            reorders_range(old(arr)@, arr@, lo as int, hi as int),
            hi - lo >= 4 ==> candidate_is_ranked(old(arr)@, lo as int, hi as int, pivot1, 1),
            hi - lo >= 4 ==> candidate_is_ranked(old(arr)@, lo as int, hi as int, pivot2, 3),
            forall|k: int| lo < k < lt ==> arr@[k] < pivot1,
            forall|k: int| lt <= k < i ==> pivot1 <= #[trigger] arr@[k] <= pivot2,
            forall|k: int| gt < k < hi ==> arr@[k] > pivot2,
        decreases gt + 1 - i,
    {
        if arr[i] < pivot1 {
            proof {
                lemma_swap_reorders(arr@, i as int, lt as int, lo as int, hi as int);
            }
            swap_at(arr, i, lt);
            lt += 1;
            i += 1;
        } else if arr[i] > pivot2 {
            proof {
                lemma_swap_reorders(arr@, i as int, gt as int, lo as int, hi as int);
            }
            swap_at(arr, i, gt);
            gt -= 1;
        } else {
            i += 1;
        }
    }
    lt -= 1;
    proof {
        lemma_swap_reorders(arr@, lo as int, lt as int, lo as int, hi as int);
    }
    swap_at(arr, lo, lt);
    gt += 1;
    proof {
        lemma_swap_reorders(arr@, hi as int, gt as int, lo as int, hi as int);
    }
    swap_at(arr, hi, gt);
    (lt, gt)
}

} // verus!
