use vstd::prelude::*;

use super::LinkedList;

verus! {

/// A node of the singly linked list: one value and the link to the rest of
/// the chain.
#[derive(Debug)]
pub struct SinglyLinkedNode<T> {
    pub val: T,
    pub next: Option<Box<SinglyLinkedNode<T>>>,
}

impl<T> SinglyLinkedNode<T> {
    fn new(val: T, next: Option<Box<SinglyLinkedNode<T>>>) -> (r: Self)
        ensures
            r.val == val,
            r.next == next,
    {
        Self { val, next }
    }
}

/// The sequence of values stored in a chain of nodes, head first.
pub open spec fn chain_seq<T>(n: Option<Box<SinglyLinkedNode<T>>>) -> Seq<T>
    decreases n,
{
    match n {
        Option::None => Seq::empty(),
        Option::Some(node) => seq![node.val] + chain_seq(node.next),
    }
}

/// The sequence of values reachable from a borrowed position in a chain.
pub open spec fn rest_seq<T>(n: Option<&SinglyLinkedNode<T>>) -> Seq<T> {
    match n {
        Option::None => Seq::empty(),
        Option::Some(node) => seq![node.val] + chain_seq(node.next),
    }
}

/// A singly linked list of owned nodes; pushes and pops work on the head.
pub struct SinglyLinkedList<T> {
    pub head: Option<Box<SinglyLinkedNode<T>>>,
}

impl<T> View for SinglyLinkedList<T> {
    type V = Seq<T>;

    open spec fn view(&self) -> Seq<T> {
        chain_seq(self.head)
    }
}

impl<T> SinglyLinkedList<T> {
    /// A list with no nodes.
    pub fn new() -> (r: Self)
        ensures
            r@ == Seq::<T>::empty(),
    {
        Self { head: None }
    }

    /// An iterator over references to the values, head first.
    pub fn iter(&self) -> (r: SinglyLinkedIter<T>)
        ensures
            rest_seq(r.rest) == self@,
    {
        SinglyLinkedIter {
            rest: match &self.head {
                Some(node) => Some(&**node),
                None => None,
            },
        }
    }

    /// An iterator over mutable references to the values, head first.
    pub fn iter_mut(&mut self) -> (r: SinglyLinkedIterMut<'_, T>)
        ensures
            mut_rest_seq(r.rest) == old(self)@,
    {
        SinglyLinkedIterMut {
            rest: match self.head.as_mut() {
                Some(node) => Some(&mut **node),
                None => None,
            },
        }
    }
}

impl<T> LinkedList<T> for SinglyLinkedList<T> {
    open spec fn values(&self) -> Seq<T> {
        chain_seq(self.head)
    }

    fn push(&mut self, val: T) {
        if self.head.is_none() {
            self.head = Some(Box::new(SinglyLinkedNode::new(val, None)));
        } else {
            let prev_head = self.head.take();
            self.head = Some(Box::new(SinglyLinkedNode::new(val, prev_head)));
        }
    }

    fn pop(&mut self) -> (r: Option<T>) {
        match self.head.take() {
            Some(prev_head) => {
                let node = *prev_head;
                self.head = node.next;
                Some(node.val)
            }
            None => None,
        }
    }

    fn peek(&self) -> (r: Option<&T>) {
        match &self.head {
            Some(node) => Some(&node.val),
            None => None,
        }
    }

    fn peek_mut(&mut self) -> (r: Option<&mut T>) {
        match self.head.as_mut() {
            Some(node) => Some(&mut node.val),
            None => None,
        }
    }

    fn reverse(&mut self) {
        let ghost orig: Seq<T> = chain_seq(self.head);
        let mut rest = self.head.take();
        let mut acc: Option<Box<SinglyLinkedNode<T>>> = None;
        loop
            invariant
                chain_seq(acc).reverse() + chain_seq(rest) == orig,
            ensures
                chain_seq(acc).reverse() + chain_seq(rest) == orig,
                rest is None,
            decreases chain_seq(rest).len(),
        {
            match rest.take() {
                Some(boxed) => {
                    let node = *boxed;
                    rest = node.next;
                    let prev_acc = acc;
                    acc = Some(Box::new(SinglyLinkedNode { val: node.val, next: prev_acc }));
                    proof {
                        assert(chain_seq(acc).reverse() =~= chain_seq(prev_acc).reverse()
                            + seq![node.val]);
                        assert(chain_seq(acc).reverse() + chain_seq(rest) =~= orig);
                    }
                }
                None => {
                    break;
                }
            }
        }
        self.head = acc;
        proof {
            assert(chain_seq(acc) =~= orig.reverse());
        }
    }
}

/// An iterator over references to a list's values; `rest` points at the
/// next node to visit.
pub struct SinglyLinkedIter<'a, T> {
    pub rest: Option<&'a SinglyLinkedNode<T>>,
}

impl<'a, T> SinglyLinkedIter<'a, T> {
    /// A reference to the next value, stepping the iterator past it.
    pub fn next(&mut self) -> (r: Option<&'a T>)
        ensures
            rest_seq(old(self).rest).len() == 0 ==> r is None && final(self).rest is None,
            rest_seq(old(self).rest).len() > 0 ==> (r matches Some(v) && *v == rest_seq(
                old(self).rest,
            )[0] && rest_seq(final(self).rest) == rest_seq(old(self).rest).drop_first()),
    {
        match self.rest {
            Some(node) => {
                self.rest = match &node.next {
                    Some(b) => Some(&**b),
                    None => None,
                };
                proof {
                    assert(rest_seq(self.rest) =~= rest_seq(old(self).rest).drop_first());
                }
                Some(&node.val)
            }
            None => None,
        }
    }
}

/// The sequence of values currently reachable from a mutably borrowed
/// position in a chain.
pub open spec fn mut_rest_seq<T>(n: Option<&mut SinglyLinkedNode<T>>) -> Seq<T> {
    match n {
        Option::None => Seq::empty(),
        Option::Some(m) => seq![m.val] + chain_seq(m.next),
    }
}

/// An iterator over mutable references to a list's values; `rest` points at
/// the next node to visit.
pub struct SinglyLinkedIterMut<'a, T> {
    pub rest: Option<&'a mut SinglyLinkedNode<T>>,
}

impl<'a, T> SinglyLinkedIterMut<'a, T> {
    /// A mutable reference to the next value, stepping the iterator past it.
    pub fn next(&mut self) -> (r: Option<&'a mut T>)
        ensures
            mut_rest_seq(old(self).rest).len() == 0 ==> r is None && final(self).rest is None,
            mut_rest_seq(old(self).rest).len() > 0 ==> r is Some && *r.unwrap() == mut_rest_seq(
                old(self).rest,
            )[0] && mut_rest_seq(final(self).rest) == mut_rest_seq(old(self).rest).drop_first(),
    {
        match self.rest.take() {
            Some(node) => {
                self.rest = match node.next.as_mut() {
                    Some(b) => Some(&mut **b),
                    None => None,
                };
                Some(&mut node.val)
            }
            None => None,
        }
    }
}

} // verus!
