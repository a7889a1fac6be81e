//! Linear search: walk the slice from the front and stop at the first value
//! equal to the needle. O(n) comparisons, but it asks nothing of the order
//! of the slice.

use vstd::prelude::*;
use vstd::std_specs::cmp::PartialEqSpec;

verus! {

/// Walks `haystack` front to back and returns a reference to the first
/// value equal to `needle`, or `None` when no value is. For types whose
/// `==` obeys its specification, the answer is pinned exactly: `Some` holds
/// the first match and `None` means no element matches.
pub fn linear_search<T: PartialEq>(haystack: &[T], needle: T) -> (r: Option<&T>)
    ensures
        T::obeys_eq_spec() ==> match r {
            Option::Some(v) => exists|i: int|
                {
                    &&& 0 <= i < haystack.len()
                    &&& *v == haystack[i]
                    &&& haystack[i].eq_spec(&needle)
                    &&& forall|j: int| 0 <= j < i ==> !haystack[j].eq_spec(&needle)
                },
            Option::None => forall|i: int|
                0 <= i < haystack.len() ==> !haystack[i].eq_spec(&needle),
        },
{
    let mut idx: usize = 0;
    while idx < haystack.len()
        invariant
            idx <= haystack.len(),
            T::obeys_eq_spec() ==> forall|j: int| 0 <= j < idx ==> !haystack[j].eq_spec(&needle),
        decreases haystack.len() - idx,
    {
        let val = &haystack[idx];
        if *val == needle {
            proof {
                if T::obeys_eq_spec() {
                    assert(0 <= idx < haystack.len() && *val == haystack[idx as int]
                        && haystack[idx as int].eq_spec(&needle));
                }
            }
            return Some(val);
        }
        idx += 1;
    }

    None
}

} // verus!
