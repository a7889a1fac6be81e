//! Bubble sort: repeatedly swap adjacent values that are out of order. The
//! O(n^2) running time rules it out for large inputs, but it stays a
//! convenient first sort because it is so simple to write.

use vstd::prelude::*;

use crate::algo::sorting::lemma_swap_preserves_multiset;
use crate::algo::sorting::sorted;

verus! {

/// Sorts the vector in non-decreasing order by bubbling the largest of the
/// unsorted values to the back on every outer pass. The result holds
/// exactly the values that came in.
pub fn bubble_sort(vec: Vec<i32>) -> (r: Vec<i32>)
    ensures
        sorted(r@),
        r@.to_multiset() == vec@.to_multiset(),
{
    let mut vec = vec;
    let ghost input: Seq<i32> = vec@;
    if vec.is_empty() {
        return vec;
    }

    let n = vec.len();
    for i in 0..n
        invariant
            vec.len() == n,
            vec@.to_multiset() == input.to_multiset(),
            // The last i values are in their final, sorted positions.
            forall|p: int, q: int| 0 <= p <= q < n && n - i <= q ==> vec[p] <= vec[q],
    {
        // The scan stops one early because it looks at j + 1, and it can
        // also skip the i values already bubbled to the back.
        for j in 0..n - 1 - i
            invariant
                vec.len() == n,
                i < n,
                vec@.to_multiset() == input.to_multiset(),
                forall|p: int, q: int| 0 <= p <= q < n && n - i <= q ==> vec[p] <= vec[q],
                // vec[j] is the largest of the first j + 1 values.
                forall|p: int| 0 <= p <= j ==> vec[p] <= vec[j as int],
        {
            if vec[j] > vec[j + 1] {
                let ghost before = vec@;
                let a = vec[j];
                let b = vec[j + 1];
                vec[j] = b;
                vec[j + 1] = a;
                proof {
                    lemma_swap_preserves_multiset(before, j as int, j + 1);
                    assert(vec@ =~= before.update(j as int, before[j + 1]).update(
                        j + 1,
                        before[j as int],
                    ));
                }
            }
        }
    }

    vec
}

} // verus!
