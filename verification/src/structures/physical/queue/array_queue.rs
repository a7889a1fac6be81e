use vstd::prelude::*;

use super::Queue;
use super::QueueErr;

verus! {

broadcast use vstd::std_specs::vec::axiom_spec_len;

/// A bounded queue over a fixed block of optional slots: the first `len`
/// slots hold the values, oldest first, and the slots behind them stay
/// empty. Dequeuing shifts every remaining value one slot forward.
pub struct ArrayQueue<T> {
    pub inner_queue: Vec<Option<T>>,
    pub len: usize,
    pub cap: usize,
}

impl<T> ArrayQueue<T> {
    /// A queue able to hold `cap` values; zero capacity is refused.
    pub fn with_capacity(cap: usize) -> (r: Result<Self, QueueErr>)
        ensures
            cap == 0 ==> r == Err::<Self, QueueErr>(QueueErr::ZeroCapacityNotAllowed),
            cap > 0 ==> (r matches Ok(q) && q.inv() && q.contents() == Seq::<T>::empty()
                && q.capacity() == cap),
    {
        if cap == 0 {
            return Err(QueueErr::ZeroCapacityNotAllowed);
        }

        let mut inner_queue: Vec<Option<T>> = Vec::new();
        for k in 0..cap
            invariant
                inner_queue@.len() == k,
                forall|j: int| 0 <= j < k ==> inner_queue@[j] is None,
        {
            inner_queue.push(None);
        }

        Ok(Self { inner_queue, len: 0, cap })
    }

}

impl<T> Queue for ArrayQueue<T> {
    type Item = T;

    closed spec fn contents(&self) -> Seq<T> {
        Seq::new(self.len as nat, |i: int| self.inner_queue@[i].unwrap())
    }

    closed spec fn capacity(&self) -> nat {
        self.cap as nat
    }

    closed spec fn inv(&self) -> bool {
        &&& self.cap >= 1
        &&& self.cap == self.inner_queue@.len()
        &&& self.len <= self.cap
        &&& forall|k: int| 0 <= k < self.len ==> (#[trigger] self.inner_queue@[k]) is Some
        &&& forall|k: int|
            self.len <= k < self.inner_queue@.len() ==> (#[trigger] self.inner_queue@[k]) is None
    }

    fn enqueue(&mut self, val: T) -> (r: Result<(), QueueErr>) {
        if self.is_full() {
            Err(QueueErr::StackOverflow)
        } else {
            self.inner_queue[self.len] = Some(val);
            proof {
                vstd::std_specs::vec::axiom_spec_len(&self.inner_queue);
            }
            self.len += 1;
            proof {
                assert(self.contents() =~= old(self).contents().push(val));
            }
            Ok(())
        }
    }

    fn dequeue(&mut self) -> (r: Option<T>) {
        if self.is_empty() {
            None
        } else {
            let ghost orig: Seq<Option<T>> = self.inner_queue@;
            let prev_head = {
                let slot = &mut self.inner_queue[0];
                slot.take()
            };
            self.len -= 1;
            let shift_count = self.len;
            // Shift what remains one slot forward; the freed slot at the
            // back goes back to `None`.
            for i in 0..shift_count
                invariant
                    self.len == shift_count,
                    self.cap == old(self).cap,
                    self.len < self.cap == self.inner_queue@.len(),
                    orig.len() == self.inner_queue@.len(),
                    forall|j: int| 0 <= j < i ==> self.inner_queue@[j] == orig[j + 1],
                    self.inner_queue@[i as int] is None,
                    forall|j: int| i < j < orig.len() ==> self.inner_queue@[j] == orig[j],
            {
                let moved = {
                    let slot = &mut self.inner_queue[i + 1];
                    slot.take()
                };
                self.inner_queue[i] = moved;
            }
            proof {
                assert forall|k: int| 0 <= k < self.len implies (#[trigger] self.inner_queue@[k])
                    is Some by {
                    assert(self.inner_queue@[k] == orig[k + 1]);
                    assert(old(self).inner_queue@[k + 1] is Some);
                }
                assert forall|k: int|
                    self.len <= k < self.inner_queue@.len() implies (#[trigger] self.inner_queue@[k])
                    is None by {
                    if k > self.len {
                        assert(self.inner_queue@[k] == orig[k]);
                        assert(old(self).inner_queue@[k] is None);
                    }
                }
                assert(self.contents() =~= old(self).contents().drop_first());
            }
            prev_head
        }
    }

    fn peek_next(&self) -> (r: Option<&T>) {
        match &self.inner_queue[0] {
            Some(v) => Some(v),
            None => None,
        }
    }

    fn peek_next_mut(&mut self) -> (r: Option<&mut T>) {
        let slot = &mut self.inner_queue[0];
        slot.as_mut()
    }

    fn peek(&self, idx: usize) -> (r: Option<&T>) {
        match &self.inner_queue[idx] {
            Some(v) => Some(v),
            None => None,
        }
    }

    fn peek_mut(&mut self, idx: usize) -> (r: Option<&mut T>) {
        let slot = &mut self.inner_queue[idx];
        slot.as_mut()
    }

    fn is_empty(&self) -> (r: bool) {
        self.len == 0
    }

    fn is_full(&self) -> (r: bool) {
        self.len == self.cap
    }
}

} // verus!
