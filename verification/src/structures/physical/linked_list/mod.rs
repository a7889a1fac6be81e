use vstd::prelude::*;

pub use singly_linked_list::SinglyLinkedList;

mod singly_linked_list;

verus! {

/// Linked list abstract data type: the behaviours every linked list of this
/// crate offers, stated against the sequence of stored values, head first.
pub trait LinkedList<T>: Sized {
    /// The values held by the list, from head to tail.
    spec fn values(&self) -> Seq<T>;

    /// Insert a new value at the head of the list.
    fn push(&mut self, val: T)
        ensures
            final(self).values() == seq![val] + old(self).values(),
    ;

    /// Pop the head of the list.
    fn pop(&mut self) -> (r: Option<T>)
        ensures
            old(self).values().len() == 0 ==> r is None && final(self).values()
                == old(self).values(),
            old(self).values().len() > 0 ==> r == Some(old(self).values()[0])
                && final(self).values() == old(self).values().drop_first(),
    ;

    /// A reference to the head value.
    fn peek(&self) -> (r: Option<&T>)
        ensures
            self.values().len() == 0 ==> r is None,
            self.values().len() > 0 ==> (r matches Some(v) && *v == self.values()[0]),
    ;

    /// A mutable reference to the head value; writing through it replaces
    /// the head value and touches nothing else.
    fn peek_mut(&mut self) -> (r: Option<&mut T>)
        ensures
            old(self).values().len() == 0 ==> r is None && final(self).values()
                == old(self).values(),
            old(self).values().len() > 0 ==> r is Some && *r.unwrap() == old(self).values()[0]
                && final(self).values() == old(self).values().update(0, *final(r.unwrap())),
    ;

    /// Reverse the order of the values.
    fn reverse(&mut self)
        ensures
            final(self).values() == old(self).values().reverse(),
    ;
}

} // verus!
