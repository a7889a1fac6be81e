//! The ordering vocabulary shared by the searching and sorting exercises:
//! what it means for a sequence to be sorted, and the facts about swaps and
//! multisets that the sorting proofs lean on.

use vstd::prelude::*;
use vstd::seq_lib::group_to_multiset_ensures;
use vstd::seq_lib::to_multiset_update;

verus! {

/// Sorted in non-decreasing order: any earlier element is at most any later
/// one.
pub open spec fn sorted(s: Seq<i32>) -> bool {
    forall|i: int, j: int| 0 <= i <= j < s.len() ==> s[i] <= s[j]
}

/// Sorted in non-decreasing order within the index range `lo ..= hi`.
pub open spec fn sorted_between(s: Seq<i32>, lo: int, hi: int) -> bool {
    forall|i: int, j: int| lo <= i <= j <= hi && 0 <= i && j < s.len() ==> s[i] <= s[j]
}

/// Exchanging two positions of a sequence leaves its multiset of values
/// unchanged.
pub proof fn lemma_swap_preserves_multiset<A>(s: Seq<A>, i: int, j: int)
    requires
        0 <= i < s.len(),
        0 <= j < s.len(),
    ensures
        s.update(i, s[j]).update(j, s[i]).to_multiset() == s.to_multiset(),
{
    broadcast use to_multiset_update, group_to_multiset_ensures;

    let m = s.to_multiset();
    let s1 = s.update(i, s[j]);
    if i == j {
        assert(s1.update(j, s[i]) =~= s);
    } else {
        assert(s1[j] == s[j]);
        assert(s1.update(j, s[i]).to_multiset() == m.insert(s[j]).remove(s[i]).insert(
            s[i],
        ).remove(s[j]));
        assert(m.insert(s[j]).remove(s[i]).insert(s[i]).remove(s[j]) =~= m) by {
            assert(s.contains(s[i]));
            assert(s.contains(s[j]));
            assert(m.count(s[i]) > 0);
            assert(m.count(s[j]) > 0);
        }
    }
}

/// Two sequences with the same multiset of values satisfy the same
/// elementwise predicates: a bound that holds of every value of one holds
/// of every value of the other.
pub proof fn lemma_multiset_transfers_bound<A>(s1: Seq<A>, s2: Seq<A>, p: spec_fn(A) -> bool)
    requires
        s1.to_multiset() == s2.to_multiset(),
        forall|k: int| 0 <= k < s1.len() ==> p(s1[k]),
    ensures
        forall|k: int| 0 <= k < s2.len() ==> p(s2[k]),
{
    broadcast use group_to_multiset_ensures;

    assert forall|k: int| 0 <= k < s2.len() implies p(s2[k]) by {
        assert(s2.contains(s2[k]));
        assert(s2.to_multiset().count(s2[k]) > 0);
        assert(s1.contains(s2[k]));
        let i = choose|i: int| 0 <= i < s1.len() && s1[i] == s2[k];
        assert(p(s1[i]));
    }
}

} // verus!
