use vstd::prelude::*;

pub use array_queue::ArrayQueue;
pub use array_queue::ArrayQueueIter;
pub use array_queue::ArrayQueueIterMut;
pub use linked_queue::LinkedQueue;
pub use linked_queue::LinkedQueueIter;
pub use linked_queue::LinkedQueueIterMut;

mod array_queue;
mod linked_queue;

verus! {

/// A bounded queue (FIFO). Each implementation exposes its stored values
/// as the sequence `contents`, oldest first, a fixed `capacity`, and an
/// invariant `inv` that its constructor establishes and every operation
/// preserves.
pub trait Queue: Sized {
    type Item;

    /// The stored values, oldest (next to leave) first.
    spec fn contents(&self) -> Seq<Self::Item>;

    /// How many values the queue can hold at most.
    spec fn capacity(&self) -> nat;

    /// The implementation's internal invariant.
    spec fn inv(&self) -> bool;

    /// Insert a new value at the back, unless the queue is full.
    fn enqueue(&mut self, val: Self::Item) -> (r: Result<(), QueueErr>)
        requires
            old(self).inv(),
        ensures
            final(self).inv(),
            final(self).capacity() == old(self).capacity(),
            old(self).contents().len() < old(self).capacity() ==> r is Ok && final(self).contents()
                == old(self).contents().push(val),
            old(self).contents().len() >= old(self).capacity() ==> r == Err::<(), QueueErr>(
                QueueErr::QueueOverflow,
            ) && final(self).contents() == old(self).contents(),
    ;

    /// Remove and return the oldest value, if any.
    fn dequeue(&mut self) -> (r: Option<Self::Item>)
        requires
            old(self).inv(),
        ensures
            final(self).inv(),
            final(self).capacity() == old(self).capacity(),
            old(self).contents().len() == 0 ==> r is None && final(self).contents() == old(self).contents(),
            old(self).contents().len() > 0 ==> r == Some(old(self).contents()[0]) && final(self).contents() == old(self).contents().drop_first(),
    ;

    /// A reference to the oldest value, if any.
    fn peek_next(&self) -> (r: Option<&Self::Item>)
        requires
            self.inv(),
        ensures
            self.contents().len() == 0 ==> r is None,
            self.contents().len() > 0 ==> (r matches Some(v) && *v == self.contents()[0]),
    ;

    /// A mutable reference to the oldest value, if any; writing through it
    /// replaces that value and touches nothing else.
    fn peek_next_mut(&mut self) -> (r: Option<&mut Self::Item>)
        requires
            old(self).inv(),
        ensures
            final(self).inv(),
            final(self).capacity() == old(self).capacity(),
            old(self).contents().len() == 0 ==> r is None && final(self).contents() == old(self).contents(),
            old(self).contents().len() > 0 ==> r is Some && *r.unwrap() == old(self).contents()[0]
                && final(self).contents() == old(self).contents().update(0, *final(r.unwrap())),
    ;

    /// A reference to the value at `idx` within `contents`, if that index
    /// is occupied.
    fn peek(&self, idx: usize) -> (r: Option<&Self::Item>)
        requires
            self.inv(),
            idx < self.capacity(),
        ensures
            idx < self.contents().len() ==> (r matches Some(v) && *v == self.contents()[idx as int]),
            idx >= self.contents().len() ==> r is None,
    ;

    /// A mutable reference to the value at `idx` within `contents`, if
    /// that index is occupied; writing through it replaces that value and
    /// touches nothing else.
    fn peek_mut(&mut self, idx: usize) -> (r: Option<&mut Self::Item>)
        requires
            old(self).inv(),
            idx < old(self).capacity(),
        ensures
            final(self).inv(),
            final(self).capacity() == old(self).capacity(),
            idx >= old(self).contents().len() ==> r is None && final(self).contents() == old(self).contents(),
            idx < old(self).contents().len() ==> r is Some && *r.unwrap() == old(self).contents()[
                idx as int] && final(self).contents() == old(self).contents().update(
                idx as int,
                *final(r.unwrap()),
            ),
    ;

    /// Whether the queue holds no value.
    fn is_empty(&self) -> (r: bool)
        requires
            self.inv(),
        ensures
            r == (self.contents().len() == 0),
    ;

    /// Whether the queue holds as many values as it can.
    fn is_full(&self) -> (r: bool)
        requires
            self.inv(),
        ensures
            r == (self.contents().len() == self.capacity()),
    ;
}

/// What can go wrong with a bounded queue.
#[derive(Debug, PartialEq, Eq, Structural)]
pub enum QueueErr {
    ZeroCapacityNotAllowed,
    QueueOverflow,
}

impl QueueErr {
    /// The human-readable description of the error.
    pub fn message(&self) -> (s: String)
        ensures
            *self is QueueOverflow ==> s@
                == "Unable to insert a new value in the queue, limit reached"@,
            *self is ZeroCapacityNotAllowed ==> s@
                == "Unable to initialize a queue with no capacity"@,
    {
        match self {
            QueueErr::QueueOverflow => "Unable to insert a new value in the queue, limit reached".to_owned(),
            QueueErr::ZeroCapacityNotAllowed => "Unable to initialize a queue with no capacity".to_owned(),
        }
    }
}

} // verus!
