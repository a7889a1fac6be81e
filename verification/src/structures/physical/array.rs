//! A growable array with explicit capacity bookkeeping: the capacity
//! starts at zero and doubles every time the values outgrow it, starting
//! from one. The values live in a standard vector; `cap` and `len` record
//! the doubling schedule and the current count.

use vstd::prelude::*;
use vstd::std_specs::cmp::PartialEqSpec;

use crate::algo::sorting::sorted;

verus! {

/// The growable array: `len` values in a buffer of capacity `cap`.
pub struct Array<T> {
    pub buf: Vec<T>,
    pub cap: usize,
    pub len: usize,
}

impl<T> View for Array<T> {
    type V = Seq<T>;

    open spec fn view(&self) -> Seq<T> {
        self.buf@
    }
}

impl<T> Array<T> {
    /// The bookkeeping matches the buffer.
    pub open spec fn inv(&self) -> bool {
        self.len == self.buf@.len() && self.len <= self.cap
    }

    /// The capacity the doubling schedule has reached.
    pub open spec fn spec_cap(&self) -> nat {
        self.cap as nat
    }

    /// An array with no values and no capacity yet.
    pub fn new() -> (r: Self)
        ensures
            r.inv(),
            r@ == Seq::<T>::empty(),
            r.spec_cap() == 0,
    {
        Self { buf: Vec::new(), cap: 0, len: 0 }
    }

    /// A reference to the value at `idx`.
    pub fn get(&self, idx: usize) -> (r: &T)
        requires
            self.inv(),
            idx < self@.len(),
        ensures
            *r == self@[idx as int],
    {
        &self.buf[idx]
    }

    /// Replaces the value at `idx` with `item`.
    pub fn set(&mut self, idx: usize, item: T)
        requires
            old(self).inv(),
            idx < old(self)@.len(),
        ensures
            final(self).inv(),
            final(self)@ == old(self)@.update(idx as int, item),
            final(self).spec_cap() == old(self).spec_cap(),
    {
        self.buf[idx] = item;
    }

    /// Doubles the capacity, or brings it from zero to one. The values are
    /// untouched.
    pub fn grow(&mut self)
        requires
            old(self).cap <= usize::MAX / 2,
        ensures
            final(self)@ == old(self)@,
            final(self).len == old(self).len,
            old(self).inv() ==> final(self).inv(),
            old(self).cap == 0 ==> final(self).cap == 1,
            old(self).cap > 0 ==> final(self).cap == 2 * old(self).cap,
    {
        if self.cap == 0 {
            self.cap = 1;
        } else {
            self.cap = 2 * self.cap;
        }
    }

    /// Appends `item` behind the last value, growing the capacity first
    /// when it is exhausted.
    pub fn push(&mut self, item: T)
        requires
            old(self).inv(),
            old(self)@.len() < usize::MAX / 2,
        ensures
            final(self).inv(),
            final(self)@ == old(self)@.push(item),
            old(self)@.len() < old(self).spec_cap() ==> final(self).cap == old(self).cap,
            old(self)@.len() == old(self).spec_cap() ==> final(self).cap == (if old(self).cap == 0 {
                1int
            } else {
                2 * old(self).cap
            }),
    {
        if self.len == self.cap {
            self.grow();
        }

        self.buf.push(item);
        self.len += 1;
    }

    /// Removes and returns the last value, if any. The capacity stays as
    /// it is.
    pub fn pop(&mut self) -> (r: Option<T>)
        requires
            old(self).inv(),
        ensures
            final(self).inv(),
            final(self).spec_cap() == old(self).spec_cap(),
            old(self)@.len() == 0 ==> r is None && final(self)@ == old(self)@,
            old(self)@.len() > 0 ==> r == Some(old(self)@.last()) && final(self)@ == old(
                self,
            )@.drop_last(),
    {
        if self.len == 0 {
            None
        } else {
            self.len -= 1;
            self.buf.pop()
        }
    }

    /// Inserts `item` at `index`, shifting what follows one place back;
    /// inserting right behind the last value works like a push.
    pub fn insert(&mut self, index: usize, item: T)
        requires
            old(self).inv(),
            index <= old(self)@.len(),
            old(self)@.len() < usize::MAX / 2,
        ensures
            final(self).inv(),
            final(self)@ == old(self)@.insert(index as int, item),
            old(self)@.len() < old(self).spec_cap() ==> final(self).cap == old(self).cap,
            old(self)@.len() == old(self).spec_cap() ==> final(self).cap == (if old(self).cap == 0 {
                1int
            } else {
                2 * old(self).cap
            }),
    {
        if self.len == self.cap {
            self.grow();
        }

        self.buf.insert(index, item);
        self.len += 1;
    }

    /// Removes and returns the value at `index`, shifting what follows one
    /// place forward. The capacity stays as it is.
    pub fn remove(&mut self, index: usize) -> (r: T)
        requires
            old(self).inv(),
            index < old(self)@.len(),
        ensures
            final(self).inv(),
            final(self).spec_cap() == old(self).spec_cap(),
            r == old(self)@[index as int],
            final(self)@ == old(self)@.remove(index as int),
    {
        self.len -= 1;
        self.buf.remove(index)
    }

}

impl<T: Eq> Array<T> {
    /// Walks the values front to back and returns the index of the first
    /// one equal to `other`, or `None` when no value is. For types whose
    /// `==` obeys its specification, the answer is pinned exactly.
    pub fn linear_search(&self, other: &T) -> (r: Option<usize>)
        requires
            self.inv(),
        ensures
            T::obeys_eq_spec() ==> match r {
                Option::Some(i) => i < self@.len() && self@[i as int].eq_spec(other) && (forall|
                    j: int,
                |
                    0 <= j < i ==> !self@[j].eq_spec(other)),
                Option::None => forall|j: int| 0 <= j < self@.len() ==> !self@[j].eq_spec(other),
            },
    {
        let mut idx: usize = 0;
        while idx < self.len
            invariant
                self.inv(),
                idx <= self@.len(),
                T::obeys_eq_spec() ==> forall|j: int| 0 <= j < idx ==> !self@[j].eq_spec(other),
            decreases self@.len() - idx,
        {
            let v = &self.buf[idx];
            if v == other {
                return Some(idx);
            }
            idx += 1;
        }
        None
    }
}

impl Array<i32> {
    /// Looks for `other` by repeated halving. Any index returned holds the
    /// value; when the array is sorted, a `None` answer means the value is
    /// nowhere in it.
    pub fn binary_search(&self, other: &i32) -> (r: Option<usize>)
        requires
            self.inv(),
        ensures
            r matches Some(i) ==> i < self@.len() && self@[i as int] == *other,
            sorted(self@) ==> (r is None <==> forall|i: int|
                0 <= i < self@.len() ==> self@[i] != *other),
    {
        if self.len == 0 {
            return None;
        }

        let mut low_idx: usize = 0;
        let mut high_idx: usize = self.len;

        while low_idx < high_idx
            invariant
                self.inv(),
                low_idx <= high_idx <= self@.len(),
                sorted(self@) ==> forall|i: int|
                    0 <= i < self@.len() && self@[i] == *other ==> low_idx <= i < high_idx,
            decreases high_idx - low_idx,
        {
            let mid_idx = low_idx + (high_idx - low_idx) / 2;
            let mid = self.buf[mid_idx];
            if *other == mid {
                return Some(mid_idx);
            } else if *other < mid {
                high_idx = mid_idx;
            } else {
                low_idx = mid_idx + 1;
            }
        }
        None
    }

    /// Inserts `item` in front of the first strictly greater value, so a
    /// sorted array stays sorted.
    pub fn push_sorted(&mut self, item: i32)
        requires
            old(self).inv(),
            old(self)@.len() < usize::MAX / 2,
        ensures
            final(self).inv(),
            exists|i: int|
                {
                    &&& 0 <= i <= old(self)@.len()
                    &&& forall|j: int| 0 <= j < i ==> !(item < old(self)@[j])
                    &&& (i < old(self)@.len() ==> item < old(self)@[i])
                    &&& final(self)@ == old(self)@.insert(i, item)
                },
            sorted(old(self)@) ==> sorted(final(self)@),
    {
        let mut insert_idx = self.len;
        let mut idx: usize = 0;
        while idx < self.len
            invariant_except_break
                insert_idx == self@.len(),
            invariant
                self.inv(),
                idx <= self@.len(),
                forall|j: int| 0 <= j < idx ==> !(item < self@[j]),
            ensures
                insert_idx <= self@.len(),
                forall|j: int| 0 <= j < insert_idx ==> !(item < self@[j]),
                insert_idx < self@.len() ==> item < self@[insert_idx as int],
            decreases self@.len() - idx,
        {
            if item < self.buf[idx] {
                insert_idx = idx;
                break;
            }
            idx += 1;
        }

        let ghost before: Seq<i32> = self@;
        let ghost ip: int = insert_idx as int;
        self.insert(insert_idx, item);
        proof {
            if sorted(before) {
                let now = self@;
                assert forall|x: int, y: int| 0 <= x <= y < now.len() implies now[x] <= now[y] by {
                    assert(now =~= before.insert(ip, item));
                    if x < ip && y == ip {
                        assert(now[x] == before[x]);
                    } else if x == ip && y > ip {
                        assert(now[y] == before[y - 1]);
                        assert(!(item < before[ip - 1]) || ip == 0);
                        assert(item < before[ip] || ip == before.len());
                    }
                }
            }
        }
    }

    /// Whether the values are in non-decreasing order.
    pub fn is_sorted(&self) -> (r: bool)
        requires
            self.inv(),
        ensures
            r == sorted(self@),
    {
        let mut idx: usize = 0;
        while idx < self.len
            invariant
                self.inv(),
                idx <= self@.len(),
                forall|j: int| 0 <= j < idx && j + 1 < self@.len() ==> #[trigger] self@[j] <= self@[j + 1],
            ensures
                forall|j: int| 0 <= j && j + 1 < self@.len() ==> #[trigger] self@[j] <= self@[j + 1],
            decreases self@.len() - idx,
        {
            if idx + 1 >= self.len {
                break;
            }

            if self.buf[idx] > self.buf[idx + 1] {
                proof {
                    assert(!sorted(self@));
                }
                return false;
            }
            idx += 1;
        }
        proof {
            lemma_adjacent_sorted(self@);
        }
        true
    }
}

/// A sequence whose every value is at most its successor is sorted
/// outright: any earlier value is at most any later one.
proof fn lemma_adjacent_sorted(s: Seq<i32>)
    requires
        forall|j: int| 0 <= j && j + 1 < s.len() ==> #[trigger] s[j] <= s[j + 1],
    ensures
        sorted(s),
{
    assert forall|i: int, j: int| 0 <= i <= j < s.len() implies s[i] <= s[j] by {
        lemma_pair_sorted(s, i, j);
    }
}

proof fn lemma_pair_sorted(s: Seq<i32>, i: int, j: int)
    requires
        forall|k: int| 0 <= k && k + 1 < s.len() ==> #[trigger] s[k] <= s[k + 1],
        0 <= i <= j < s.len(),
    ensures
        s[i] <= s[j],
    decreases j - i,
{
    if i < j {
        lemma_pair_sorted(s, i, j - 1);
    }
}

} // verus!
