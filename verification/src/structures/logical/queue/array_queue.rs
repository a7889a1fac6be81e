use vstd::prelude::*;

use super::Queue;
use super::QueueErr;

verus! {

broadcast use vstd::std_specs::vec::axiom_spec_len;

/// A bounded queue over a fixed block of optional slots: the first `len`
/// slots hold the values, oldest first, and the slots behind them stay
/// empty. Dequeuing shifts every remaining value one slot forward.
pub struct ArrayQueue<T> {
    pub inner_queue: Vec<Option<T>>,
    pub len: usize,
    pub cap: usize,
}

impl<T> ArrayQueue<T> {
    /// A queue able to hold `cap` values; zero capacity is refused.
    pub fn with_capacity(cap: usize) -> (r: Result<Self, QueueErr>)
        ensures
            cap == 0 ==> r == Err::<Self, QueueErr>(QueueErr::ZeroCapacityNotAllowed),
            cap > 0 ==> (r matches Ok(q) && q.inv() && q.contents() == Seq::<T>::empty()
                && q.capacity() == cap),
    {
        if cap == 0 {
            return Err(QueueErr::ZeroCapacityNotAllowed);
        }

        let mut inner_queue: Vec<Option<T>> = Vec::new();
        for k in 0..cap
            invariant
                inner_queue@.len() == k,
                forall|j: int| 0 <= j < k ==> inner_queue@[j] is None,
        {
            inner_queue.push(None);
        }

        Ok(Self { inner_queue, len: 0, cap })
    }

    /// An iterator over references to the slots, front of the queue first:
    /// the occupied slots come as `Some`, the free ones as `None`.
    pub fn iter(&self) -> (r: ArrayQueueIter<'_, T>)
        ensures
            r.rest@ == self.slots(),
    {
        ArrayQueueIter { rest: self.inner_queue.as_slice() }
    }

    /// An iterator over mutable references to the slots, front first.
    pub fn iter_mut(&mut self) -> (r: ArrayQueueIterMut<'_, T>)
        ensures
            iter_mut_remaining(r) == old(self).slots(),
    {
        ArrayQueueIterMut { rest: Some(self.inner_queue.as_mut_slice()) }
    }

    /// The raw slots, occupied or not.
    pub closed spec fn slots(&self) -> Seq<Option<T>> {
        self.inner_queue@
    }
}

impl<T> Queue for ArrayQueue<T> {
    type Item = T;

    closed spec fn contents(&self) -> Seq<T> {
        Seq::new(self.len as nat, |i: int| self.inner_queue@[i].unwrap())
    }

    closed spec fn capacity(&self) -> nat {
        self.cap as nat
    }

    closed spec fn inv(&self) -> bool {
        &&& self.cap >= 1
        &&& self.cap == self.inner_queue@.len()
        &&& self.len <= self.cap
        &&& forall|k: int| 0 <= k < self.len ==> (#[trigger] self.inner_queue@[k]) is Some
        &&& forall|k: int|
            self.len <= k < self.inner_queue@.len() ==> (#[trigger] self.inner_queue@[k]) is None
    }

    fn enqueue(&mut self, val: T) -> (r: Result<(), QueueErr>) {
        if self.is_full() {
            Err(QueueErr::QueueOverflow)
        } else {
            self.inner_queue[self.len] = Some(val);
            proof {
                vstd::std_specs::vec::axiom_spec_len(&self.inner_queue);
            }
            self.len += 1;
            proof {
                assert(self.contents() =~= old(self).contents().push(val));
            }
            Ok(())
        }
    }

    fn dequeue(&mut self) -> (r: Option<T>) {
        if self.is_empty() {
            None
        } else {
            let ghost orig: Seq<Option<T>> = self.inner_queue@;
            let prev_head = {
                let slot = &mut self.inner_queue[0];
                slot.take()
            };
            self.len -= 1;
            let shift_count = self.len;
            // Shift what remains one slot forward; the freed slot at the
            // back goes back to `None`.
            for i in 0..shift_count
                invariant
                    self.len == shift_count,
                    self.cap == old(self).cap,
                    self.len < self.cap == self.inner_queue@.len(),
                    orig.len() == self.inner_queue@.len(),
                    forall|j: int| 0 <= j < i ==> self.inner_queue@[j] == orig[j + 1],
                    self.inner_queue@[i as int] is None,
                    forall|j: int| i < j < orig.len() ==> self.inner_queue@[j] == orig[j],
            {
                let moved = {
                    let slot = &mut self.inner_queue[i + 1];
                    slot.take()
                };
                self.inner_queue[i] = moved;
            }
            proof {
                assert forall|k: int| 0 <= k < self.len implies (#[trigger] self.inner_queue@[k])
                    is Some by {
                    assert(self.inner_queue@[k] == orig[k + 1]);
                    assert(old(self).inner_queue@[k + 1] is Some);
                }
                assert forall|k: int|
                    self.len <= k < self.inner_queue@.len() implies (#[trigger] self.inner_queue@[k])
                    is None by {
                    if k > self.len {
                        assert(self.inner_queue@[k] == orig[k]);
                        assert(old(self).inner_queue@[k] is None);
                    }
                }
                assert(self.contents() =~= old(self).contents().drop_first());
            }
            prev_head
        }
    }

    fn peek_next(&self) -> (r: Option<&T>) {
        match &self.inner_queue[0] {
            Some(v) => Some(v),
            None => None,
        }
    }

    fn peek_next_mut(&mut self) -> (r: Option<&mut T>) {
        let slot = &mut self.inner_queue[0];
        slot.as_mut()
    }

    fn peek(&self, idx: usize) -> (r: Option<&T>) {
        match &self.inner_queue[idx] {
            Some(v) => Some(v),
            None => None,
        }
    }

    fn peek_mut(&mut self, idx: usize) -> (r: Option<&mut T>) {
        let slot = &mut self.inner_queue[idx];
        slot.as_mut()
    }

    fn is_empty(&self) -> (r: bool) {
        self.len == 0
    }

    fn is_full(&self) -> (r: bool) {
        self.len == self.cap
    }
}

/// An iterator over references to a queue's slots; `rest` holds the slots
/// not yet visited.
pub struct ArrayQueueIter<'a, T> {
    pub rest: &'a [Option<T>],
}

impl<'a, T> ArrayQueueIter<'a, T> {
    /// A reference to the next slot, stepping the iterator past it.
    pub fn next(&mut self) -> (r: Option<&'a Option<T>>)
        ensures
            old(self).rest@.len() == 0 ==> r is None && final(self).rest@ == old(self).rest@,
            old(self).rest@.len() > 0 ==> (r matches Some(v) && *v == old(self).rest@[0] && final(self).rest@ == old(self).rest@.drop_first()),
    {
        let ghost orig_rest: Seq<Option<T>> = self.rest@;
        if self.rest.len() == 0 {
            None
        } else {
            let (head, tail) = self.rest.split_at(1);
            self.rest = tail;
            proof {
                assert(tail@ =~= orig_rest.drop_first());
            }
            Some(&head[0])
        }
    }
}

/// The slots an iterator over mutable references still has to visit.
pub open spec fn iter_mut_remaining<T>(it: ArrayQueueIterMut<'_, T>) -> Seq<Option<T>> {
    match it.rest {
        Option::None => Seq::empty(),
        Option::Some(s) => s@,
    }
}

/// An iterator over mutable references to a queue's slots; `rest` holds
/// the slots not yet visited.
pub struct ArrayQueueIterMut<'a, T> {
    pub rest: Option<&'a mut [Option<T>]>,
}

impl<'a, T> ArrayQueueIterMut<'a, T> {
    /// A mutable reference to the next slot, stepping the iterator past
    /// it.
    pub fn next(&mut self) -> (r: Option<&'a mut Option<T>>)
        ensures
            iter_mut_remaining(*old(self)).len() == 0 ==> r is None && iter_mut_remaining(
                *final(self),
            ).len() == 0,
            iter_mut_remaining(*old(self)).len() > 0 ==> r is Some && *r.unwrap()
                == iter_mut_remaining(*old(self))[0] && iter_mut_remaining(*final(self))
                == iter_mut_remaining(*old(self)).drop_first(),
    {
        match self.rest.take() {
            Some(s) => {
                if s.len() == 0 {
                    None
                } else {
                    let (head, tail) = s.split_at_mut(1);
                    self.rest = Some(tail);
                    head.first_mut()
                }
            }
            None => None,
        }
    }
}

} // verus!
