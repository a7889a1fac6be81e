//! Binary search over an ordered slice: start at the middle, keep the half
//! that can still hold the needle, and repeat until the range is empty. This
//! takes O(log(n)) comparisons, against O(n) for a linear scan, but the
//! slice has to be sorted for the answer to mean anything.

use vstd::prelude::*;

use crate::algo::sorting::sorted;

verus! {

/// The result of a successful binary search: a matching index.
#[derive(Debug, Clone, Copy, PartialEq, Eq, Structural)]
pub struct MatchingIdx(pub i32);

/// Looks for `needle` in `ordered_haystack` by repeated halving. Any index
/// returned holds the needle; when the slice really is sorted, a `None`
/// answer means the needle is nowhere in it.
pub fn binary_search(ordered_haystack: &[i32], needle: i32) -> (r: Option<MatchingIdx>)
    requires
        ordered_haystack.len() <= i32::MAX,
    ensures
        r matches Some(m) ==> 0 <= m.0 < ordered_haystack.len() && ordered_haystack[m.0 as int]
            == needle,
        sorted(ordered_haystack@) ==> (r is None <==> forall|i: int|
            0 <= i < ordered_haystack.len() ==> ordered_haystack[i] != needle),
{
    let mut lower_idx: i32 = 0;
    let mut higher_idx: i32 = ordered_haystack.len() as i32;

    while lower_idx < higher_idx
        invariant
            0 <= lower_idx <= higher_idx <= ordered_haystack.len() <= i32::MAX,
            sorted(ordered_haystack@) ==> forall|i: int|
                0 <= i < ordered_haystack.len() && ordered_haystack[i] == needle ==> lower_idx <= i
                    < higher_idx,
        decreases higher_idx - lower_idx,
    {
        // The offset from lower_idx keeps the midpoint inside the current
        // search window whatever its position in the slice.
        let mid_idx = lower_idx + (higher_idx - lower_idx) / 2;
        let mid = ordered_haystack[mid_idx as usize];
        if mid < needle {
            lower_idx = mid_idx + 1;
        } else if mid == needle {
            return Some(MatchingIdx(mid_idx));
        } else {
            higher_idx = mid_idx;
        }
    }

    None
}

} // verus!
