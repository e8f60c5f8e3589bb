//! The mathematical vocabulary of the engine: what it means for a range to be
//! ordered, and for one sequence to be a rearrangement of another.

use vstd::prelude::*;
use vstd::multiset::group_multiset_axioms;
use vstd::seq_lib::{group_to_multiset_ensures, lemma_multiset_commutative, lemma_sorted_unique};
use vstd::relations::{sorted_by, total_ordering};

verus! {

/// The positions `lo..=hi` of `s` hold their values in non-descending order.
pub open spec fn sorted_range(s: Seq<i64>, lo: int, hi: int) -> bool {
    forall|i: int, j: int| lo <= i <= j <= hi ==> s[i] <= s[j]
}

/// The whole of `s` is in non-descending order.
pub open spec fn is_sorted(s: Seq<i64>) -> bool {
    sorted_range(s, 0, s.len() - 1)
}

/// `b` holds the values of `a`, each as often as `a` does.
pub open spec fn is_permutation(a: Seq<i64>, b: Seq<i64>) -> bool {
    a.to_multiset() == b.to_multiset()
}

/// `b` is `a` with the values at the positions `lo..=hi` rearranged among
/// themselves: nothing moved outside that range, nothing was lost or made up.
pub open spec fn reorders_range(a: Seq<i64>, b: Seq<i64>, lo: int, hi: int) -> bool {
    &&& b.len() == a.len()
    &&& forall|k: int| 0 <= k < a.len() && !(lo <= k <= hi) ==> b[k] == a[k]
    &&& is_permutation(a, b)
}

/// `s` with the values at `i` and `j` exchanged.
pub open spec fn swapped(s: Seq<i64>, i: int, j: int) -> Seq<i64> {
    s.update(i, s[j]).update(j, s[i])
}

/// Exchanging two values of a sequence keeps its multiset of values.
pub proof fn lemma_swap_permutes(s: Seq<i64>, i: int, j: int)
    requires
        0 <= i < s.len(),
        0 <= j < s.len(),
    ensures
        is_permutation(s, swapped(s, i, j)),
{
    broadcast use group_multiset_axioms;
    broadcast use group_to_multiset_ensures;

    let t = s.update(i, s[j]);
    assert(t.to_multiset() == s.to_multiset().insert(s[j]).remove(s[i]));
    assert(t[j] == s[j]);
    assert(t.update(j, s[i]).to_multiset() == t.to_multiset().insert(s[i]).remove(s[j]));
    assert(s.to_multiset().count(s[i]) > 0);
    assert(s.to_multiset().count(s[j]) > 0);
    assert(swapped(s, i, j).to_multiset() =~= s.to_multiset());
}

/// Exchanging two values inside `lo..=hi` rearranges that range.
pub proof fn lemma_swap_reorders(s: Seq<i64>, i: int, j: int, lo: int, hi: int)
    requires
        0 <= lo <= i <= hi < s.len(),
        lo <= j <= hi,
    ensures
        reorders_range(s, swapped(s, i, j), lo, hi),
{
    lemma_swap_permutes(s, i, j);
}

/// A rearrangement of `lo..=hi` rearranges the slice `lo..=hi` taken alone.
pub proof fn lemma_reorder_of_slice(a: Seq<i64>, b: Seq<i64>, lo: int, hi: int)
    requires
        0 <= lo <= hi < a.len(),
        reorders_range(a, b, lo, hi),
    ensures
        is_permutation(a.subrange(lo, hi + 1), b.subrange(lo, hi + 1)),
{
    broadcast use group_multiset_axioms;

    let n = a.len() as int;
    let pre = a.subrange(0, lo);
    let post = a.subrange(hi + 1, n);
    let ma = a.subrange(lo, hi + 1);
    let mb = b.subrange(lo, hi + 1);
    assert(b.subrange(0, lo) =~= pre);
    assert(b.subrange(hi + 1, n) =~= post);
    assert(a =~= (pre + ma) + post);
    assert(b =~= (pre + mb) + post);
    lemma_multiset_commutative(pre, ma);
    lemma_multiset_commutative(pre + ma, post);
    lemma_multiset_commutative(pre, mb);
    lemma_multiset_commutative(pre + mb, post);
    assert forall|v: i64| ma.to_multiset().count(v) == mb.to_multiset().count(v) by {
        assert(a.to_multiset().count(v) == pre.to_multiset().count(v) + ma.to_multiset().count(v)
            + post.to_multiset().count(v));
        assert(b.to_multiset().count(v) == pre.to_multiset().count(v) + mb.to_multiset().count(v)
            + post.to_multiset().count(v));
    }
    assert(ma.to_multiset() =~= mb.to_multiset());
}

/// Every value found in `lo..=hi` after a rearrangement of that range was in
/// that range before it.
pub proof fn lemma_reorder_origin(a: Seq<i64>, b: Seq<i64>, lo: int, hi: int, k: int) -> (m: int)
    requires
        0 <= lo <= k <= hi < a.len(),
        reorders_range(a, b, lo, hi),
    ensures
        lo <= m <= hi,
        a[m] == b[k],
{
    broadcast use group_to_multiset_ensures;

    lemma_reorder_of_slice(a, b, lo, hi);
    let ma = a.subrange(lo, hi + 1);
    let mb = b.subrange(lo, hi + 1);
    assert(mb[k - lo] == b[k]);
    assert(mb.contains(b[k]));
    assert(mb.to_multiset().count(b[k]) > 0);
    assert(ma.to_multiset().count(b[k]) > 0);
    assert(ma.contains(b[k]));
    let w = choose|w: int| 0 <= w < ma.len() && ma[w] == b[k];
    lo + w
}

/// A value that nothing in `lo..=hi` exceeds is still not exceeded there after
/// the range is rearranged.
pub proof fn lemma_reorder_keeps_upper_bound(a: Seq<i64>, b: Seq<i64>, lo: int, hi: int, v: i64)
    requires
        0 <= lo,
        hi < a.len(),
        reorders_range(a, b, lo, hi),
        forall|k: int| lo <= k <= hi ==> a[k] <= v,
    ensures
        forall|k: int| lo <= k <= hi ==> b[k] <= v,
{
    assert forall|k: int| lo <= k <= hi implies b[k] <= v by {
        let m = lemma_reorder_origin(a, b, lo, hi, k);
    }
}

/// A value that exceeds nothing in `lo..=hi` still exceeds nothing there after
/// the range is rearranged.
pub proof fn lemma_reorder_keeps_lower_bound(a: Seq<i64>, b: Seq<i64>, lo: int, hi: int, v: i64)
    requires
        0 <= lo,
        hi < a.len(),
        reorders_range(a, b, lo, hi),
        forall|k: int| lo <= k <= hi ==> v <= a[k],
    ensures
        forall|k: int| lo <= k <= hi ==> v <= b[k],
{
    assert forall|k: int| lo <= k <= hi implies v <= b[k] by {
        let m = lemma_reorder_origin(a, b, lo, hi, k);
    }
}

/// Two sorted sequences with the same multiset of values are the same
/// sequence: a multiset of integers has exactly one ascending arrangement.
pub proof fn lemma_sorted_permutation_unique(a: Seq<i64>, b: Seq<i64>)
    requires
        is_sorted(a),
        is_sorted(b),
        is_permutation(a, b),
    ensures
        a == b,
{
    let leq = |x: i64, y: i64| x <= y;
    assert(total_ordering(leq));
    assert(sorted_by(a, leq));
    assert(sorted_by(b, leq));
    lemma_sorted_unique(a, b, leq);
}

/// Exchanges the values at positions `a` and `b`.
pub fn swap_at(arr: &mut [i64], a: usize, b: usize)
    requires
        a < old(arr)@.len(),
        b < old(arr)@.len(),
    ensures
        final(arr)@ == swapped(old(arr)@, a as int, b as int),
{
    let x: i64 = arr[a];
    let y: i64 = arr[b];
    arr[a] = y;
    arr[b] = x;
}

} // verus!
