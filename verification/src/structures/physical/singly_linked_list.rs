use vstd::prelude::*;

verus! {

/// A node of the singly linked list: one value and the link to the rest of
/// the chain.
#[derive(Debug, PartialEq, Eq)]
pub struct Node<T> {
    pub val: T,
    pub next: Option<Box<Node<T>>>,
}

/// The sequence of values stored in a chain of nodes, head first.
pub open spec fn chain_seq<T>(n: Option<Box<Node<T>>>) -> Seq<T>
    decreases n,
{
    match n {
        Option::None => Seq::empty(),
        Option::Some(node) => seq![node.val] + chain_seq(node.next),
    }
}

/// A singly linked list of owned nodes; the head holds the most recently
/// pushed value, so pushes and pops both work on the front of the chain.
#[derive(Debug)]
pub struct SinglyLinkedList<T> {
    pub head: Option<Box<Node<T>>>,
}

impl<T> View for SinglyLinkedList<T> {
    type V = Seq<T>;

    open spec fn view(&self) -> Seq<T> {
        chain_seq(self.head)
    }
}

impl<T> SinglyLinkedList<T> {
    /// A list with no nodes.
    pub fn empty() -> (r: Self)
        ensures
            r@ == Seq::<T>::empty(),
    {
        Self { head: None }
    }

    /// Puts `val` in front of every value already in the list.
    pub fn push(&mut self, val: T)
        ensures
            final(self)@ == seq![val] + old(self)@,
    {
        let prev_head = self.head.take();
        let new_head = Node { val, next: prev_head };
        self.head = Some(Box::new(new_head));
    }

    /// Removes and returns the most recently pushed value, if any.
    pub fn pop(&mut self) -> (r: Option<T>)
        ensures
            old(self)@.len() == 0 ==> r is None && final(self)@ == old(self)@,
            old(self)@.len() > 0 ==> r == Some(old(self)@[0]) && final(self)@ == old(self)@.drop_first(),
    {
        match self.head.take() {
            Some(popped) => {
                let node = *popped;
                self.head = node.next;
                Some(node.val)
            }
            None => None,
        }
    }

    /// A reference to the most recently pushed value, if any.
    pub fn peek(&self) -> (r: Option<&T>)
        ensures
            self@.len() == 0 ==> r is None,
            self@.len() > 0 ==> (r matches Some(v) && *v == self@[0]),
    {
        match &self.head {
            Some(node) => Some(&node.val),
            None => None,
        }
    }

    /// A mutable reference to the most recently pushed value, if any; writing
    /// through it replaces the head value and touches nothing else.
    pub fn peek_mut(&mut self) -> (r: Option<&mut T>)
        ensures
            old(self)@.len() == 0 ==> r is None && final(self)@ == old(self)@,
            old(self)@.len() > 0 ==> r is Some && *r.unwrap() == old(self)@[0] && final(self)@
                == old(self)@.update(0, *final(r.unwrap())),
    {
        match self.head.as_mut() {
            Some(node) => Some(&mut node.val),
            None => None,
        }
    }
}

} // verus!
