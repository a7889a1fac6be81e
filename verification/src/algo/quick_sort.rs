//! Quicksort: partition the range around a pivot, so that smaller values
//! come before it and larger ones after it, and recurse on the two halves.

use vstd::prelude::*;

use crate::algo::sorting::lemma_multiset_transfers_bound;
use crate::algo::sorting::lemma_swap_preserves_multiset;
use crate::algo::sorting::sorted;
use crate::algo::sorting::sorted_between;

verus! {

/// Reorders `array[low ..= high]` around the pivot `array[high]`: values at
/// most the pivot land before it, strictly greater ones after it. Returns
/// the pivot's final index. Nothing outside the range moves.
pub fn partition(array: &mut [i32], low: usize, high: usize) -> (p: usize)
    requires
        low <= high < old(array).len(),
    ensures
        low <= p <= high,
        final(array).len() == old(array).len(),
        forall|k: int| 0 <= k < low ==> final(array)[k] == old(array)[k],
        forall|k: int| high < k < old(array).len() ==> final(array)[k] == old(array)[k],
        final(array)@.subrange(low as int, high + 1).to_multiset() == old(array)@.subrange(
            low as int,
            high + 1,
        ).to_multiset(),
        final(array)[p as int] == old(array)[high as int],
        forall|k: int| low <= k < p ==> final(array)[k] <= final(array)[p as int],
        forall|k: int| p < k <= high ==> final(array)[k] > final(array)[p as int],
{
    let ghost orig: Seq<i32> = array@;
    let mut i = low;
    for idx in low..high
        invariant
            low <= i <= idx <= high < array.len(),
            array.len() == orig.len(),
            array[high as int] == orig[high as int],
            forall|k: int| 0 <= k < low ==> array[k] == orig[k],
            forall|k: int| high < k < orig.len() ==> array[k] == orig[k],
            array@.subrange(low as int, high + 1).to_multiset() == orig.subrange(
                low as int,
                high + 1,
            ).to_multiset(),
            forall|k: int| low <= k < i ==> array[k] <= orig[high as int],
            forall|k: int| i <= k < idx ==> array[k] > orig[high as int],
    {
        if array[idx] <= array[high] {
            let ghost before = array@;
            let a = array[i];
            let b = array[idx];
            array[i] = b;
            array[idx] = a;
            proof {
                lemma_swap_between(before, array@, low as int, high as int, i as int, idx as int);
            }
            i += 1;
        }
    }

    let ghost before = array@;
    let a = array[i];
    let b = array[high];
    array[i] = b;
    array[high] = a;
    proof {
        lemma_swap_between(before, array@, low as int, high as int, i as int, high as int);
    }
    i
}

/// Exchanging two positions inside `lo ..= hi` keeps the multiset of the
/// values in that range.
proof fn lemma_swap_between(before: Seq<i32>, after: Seq<i32>, lo: int, hi: int, i: int, j: int)
    requires
        0 <= lo <= i <= j <= hi < before.len(),
        after =~= before.update(i, before[j]).update(j, before[i]),
    ensures
        after.subrange(lo, hi + 1).to_multiset() == before.subrange(lo, hi + 1).to_multiset(),
{
    let sub = before.subrange(lo, hi + 1);
    assert(after.subrange(lo, hi + 1) =~= sub.update(i - lo, sub[j - lo]).update(
        j - lo,
        sub[i - lo],
    ));
    lemma_swap_preserves_multiset(sub, i - lo, j - lo);
}

/// Sorts `array[low ..= high]` in place by recursive partitioning; ranges
/// with `low >= high` are already sorted and left alone. Nothing outside
/// the range moves.
#[verifier::rlimit(100)]
pub fn quick_sort(array: &mut [i32], low: usize, high: usize)
    requires
        low >= high || high < old(array).len(),
    ensures
        final(array).len() == old(array).len(),
        low >= high ==> final(array)@ == old(array)@,
        low < high ==> forall|k: int| 0 <= k < low ==> final(array)[k] == old(array)[k],
        low < high ==> forall|k: int|
            high < k < old(array).len() ==> final(array)[k] == old(array)[k],
        low < high ==> final(array)@.subrange(low as int, high + 1).to_multiset() == old(
            array,
        )@.subrange(low as int, high + 1).to_multiset(),
        low < high ==> sorted_between(final(array)@, low as int, high as int),
    decreases high - low,
{
    if low >= high {
        return;
    }

    let ghost orig: Seq<i32> = array@;
    let pivot_idx = partition(array, low, high);
    let ghost after_part: Seq<i32> = array@;
    let ghost pivot: i32 = after_part[pivot_idx as int];

    if pivot_idx > low {
        quick_sort(array, low, pivot_idx - 1);
    }
    let ghost after_left: Seq<i32> = array@;
    if pivot_idx < high {
        quick_sort(array, pivot_idx + 1, high);
    }

    proof {
        let lo = low as int;
        let hi = high as int;
        let p = pivot_idx as int;
        let fin = array@;

        // The pivot and the right half did not move while the left half was
        // sorted, and the pivot and the left half did not move after that.
        assert(after_left[p] == pivot);
        assert(fin[p] == pivot);
        assert(forall|k: int| p <= k <= hi ==> after_left[k] == after_part[k]);
        assert(forall|k: int| lo <= k <= p ==> fin[k] == after_left[k]);

        // Every value left of the pivot stays at most the pivot: sorting the
        // left half only permutes it.
        if p > lo {
            assert(after_left.subrange(lo, p).to_multiset() == after_part.subrange(
                lo,
                p,
            ).to_multiset());
            lemma_multiset_transfers_bound(
                after_part.subrange(lo, p),
                after_left.subrange(lo, p),
                |x: i32| x <= pivot,
            );
            assert(forall|k: int|
                lo <= k < p ==> after_left.subrange(lo, p)[k - lo] == after_left[k]);
            assert(forall|k: int| lo <= k < p ==> fin[k] <= pivot);
        }

        // Likewise every value right of the pivot stays above it.
        if p < hi {
            assert(fin.subrange(p + 1, hi + 1).to_multiset() == after_left.subrange(
                p + 1,
                hi + 1,
            ).to_multiset());
            lemma_multiset_transfers_bound(
                after_left.subrange(p + 1, hi + 1),
                fin.subrange(p + 1, hi + 1),
                |x: i32| x > pivot,
            );
            assert(forall|k: int|
                p < k <= hi ==> after_left.subrange(p + 1, hi + 1)[k - p - 1] == after_left[k]);
            assert(forall|k: int|
                p < k <= hi ==> fin.subrange(p + 1, hi + 1)[k - p - 1] == fin[k]);
            assert(forall|k: int| p < k <= hi ==> fin[k] > pivot);
        }

        assert(sorted_between(fin, lo, hi)) by {
            assert forall|x: int, y: int|
                lo <= x <= y <= hi && 0 <= x && y < fin.len() implies fin[x] <= fin[y] by {
                if y < p {
                    assert(fin[x] <= fin[y]);
                } else if x > p {
                    assert(fin[x] <= fin[y]);
                } else if x < p && y == p {
                    assert(fin[x] <= pivot);
                } else if x == p && y > p {
                    assert(fin[y] > pivot);
                } else if x < p && y > p {
                    assert(fin[x] <= pivot);
                    assert(fin[y] > pivot);
                }
            }
        }

        // The two half-sorts together permute the whole range.
        assert(fin.subrange(lo, hi + 1).to_multiset() == orig.subrange(lo, hi + 1).to_multiset())
            by {
            lemma_split_multiset(after_part, after_left, lo, p, hi);
            lemma_split_multiset_right(after_left, fin, lo, p, hi);
        }
    }
}

/// Sequences that agree outside `lo .. p` and permute each other inside it
/// permute each other on all of `lo ..= hi`.
proof fn lemma_split_multiset(s1: Seq<i32>, s2: Seq<i32>, lo: int, p: int, hi: int)
    requires
        s1.len() == s2.len(),
        0 <= lo <= p <= hi < s1.len(),
        s1.subrange(lo, p).to_multiset() == s2.subrange(lo, p).to_multiset(),
        forall|k: int| p <= k <= hi ==> s1[k] == s2[k],
    ensures
        s1.subrange(lo, hi + 1).to_multiset() == s2.subrange(lo, hi + 1).to_multiset(),
{
    assert(s1.subrange(lo, hi + 1) =~= s1.subrange(lo, p) + s1.subrange(p, hi + 1));
    assert(s2.subrange(lo, hi + 1) =~= s2.subrange(lo, p) + s2.subrange(p, hi + 1));
    assert(s1.subrange(p, hi + 1) =~= s2.subrange(p, hi + 1));
    vstd::seq_lib::lemma_multiset_commutative(s1.subrange(lo, p), s1.subrange(p, hi + 1));
    vstd::seq_lib::lemma_multiset_commutative(s2.subrange(lo, p), s2.subrange(p, hi + 1));
}

/// The mirror image: agreement on `lo ..= p` and permutation inside
/// `p + 1 ..= hi` give permutation on all of `lo ..= hi`.
proof fn lemma_split_multiset_right(s1: Seq<i32>, s2: Seq<i32>, lo: int, p: int, hi: int)
    requires
        s1.len() == s2.len(),
        0 <= lo <= p <= hi < s1.len(),
        s1.subrange(p + 1, hi + 1).to_multiset() == s2.subrange(p + 1, hi + 1).to_multiset(),
        forall|k: int| lo <= k <= p ==> s1[k] == s2[k],
    ensures
        s1.subrange(lo, hi + 1).to_multiset() == s2.subrange(lo, hi + 1).to_multiset(),
{
    assert(s1.subrange(lo, hi + 1) =~= s1.subrange(lo, p + 1) + s1.subrange(p + 1, hi + 1));
    assert(s2.subrange(lo, hi + 1) =~= s2.subrange(lo, p + 1) + s2.subrange(p + 1, hi + 1));
    assert(s1.subrange(lo, p + 1) =~= s2.subrange(lo, p + 1));
    vstd::seq_lib::lemma_multiset_commutative(s1.subrange(lo, p + 1), s1.subrange(p + 1, hi + 1));
    vstd::seq_lib::lemma_multiset_commutative(s2.subrange(lo, p + 1), s2.subrange(p + 1, hi + 1));
}

/// Sorts the whole slice in place with quicksort. The slice ends up in
/// non-decreasing order and holds exactly the values it started with.
pub fn sort(array: &mut [i32])
    ensures
        final(array).len() == old(array).len(),
        sorted(final(array)@),
        final(array)@.to_multiset() == old(array)@.to_multiset(),
{
    let n = array.len();
    if n > 1 {
        quick_sort(array, 0, n - 1);
        proof {
            assert(array@.subrange(0, n as int) =~= array@);
            assert(old(array)@.subrange(0, n as int) =~= old(array)@);
        }
    }
}

} // verus!
