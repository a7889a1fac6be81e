//! Two stacks (LIFO): `Stack`, a constrained interface over a double-ended
//! queue from the standard library, and `NodeStack`, built from owned
//! linked nodes.

use std::collections::VecDeque;
use vstd::prelude::*;

verus! {

/// A stack over a double-ended queue: values are pushed and popped at the
/// back, so the view keeps the top of the stack last.
pub struct Stack<T> {
    content: VecDeque<T>,
}

impl<T> View for Stack<T> {
    type V = Seq<T>;

    closed spec fn view(&self) -> Seq<T> {
        self.content@
    }
}

/// Relies on VecDeque::back_mut: a mutable reference to the last element,
/// or `None` when the deque is empty.
#[verifier::external_body]
fn deque_back_mut<T>(v: &mut VecDeque<T>) -> (r: Option<&mut T>)
    ensures
        old(v).len() == 0 ==> r is None && final(v)@ == old(v)@,
        old(v).len() > 0 ==> r is Some && *r.unwrap() == old(v)@.last() && final(v)@ == old(v)@.update(old(v)@.len() - 1, *final(r.unwrap())),
{
    v.back_mut()
}

impl<T> Stack<T> {
    /// A stack with nothing on it.
    pub fn new() -> (r: Self)
        ensures
            r@ == Seq::<T>::empty(),
    {
        Self { content: VecDeque::new() }
    }

    /// Puts `el` on top of the stack.
    pub fn push(&mut self, el: T)
        ensures
            final(self)@ == old(self)@.push(el),
    {
        self.content.push_back(el);
    }

    /// Takes the most recently pushed value off the stack.
    pub fn pop(&mut self) -> (r: Option<T>)
        ensures
            old(self)@.len() == 0 ==> r is None && final(self)@ == old(self)@,
            old(self)@.len() > 0 ==> r == Some(old(self)@.last()) && final(self)@ == old(self)@.drop_last(),
    {
        self.content.pop_back()
    }

    /// A reference to the value on top of the stack, if any.
    pub fn peek(&mut self) -> (r: Option<&T>)
        ensures
            final(self)@ == old(self)@,
            old(self)@.len() == 0 ==> r is None,
            old(self)@.len() > 0 ==> (r matches Some(v) && *v == old(self)@.last()),
    {
        if self.content.len() == 0 {
            None
        } else {
            Some(&self.content[self.content.len() - 1])
        }
    }

    /// A mutable reference to the value on top of the stack, if any;
    /// writing through it replaces the top value and touches nothing else.
    pub fn peek_mut(&mut self) -> (r: Option<&mut T>)
        ensures
            old(self)@.len() == 0 ==> r is None && final(self)@ == old(self)@,
            old(self)@.len() > 0 ==> r is Some && *r.unwrap() == old(self)@.last() && final(self)@ == old(self)@.update(old(self)@.len() - 1, *final(r.unwrap())),
    {
        deque_back_mut(&mut self.content)
    }
}

/// A node of the linked stack: one value and the link toward the bottom.
struct Node<T> {
    val: T,
    next: Option<Box<Node<T>>>,
}

/// The values stored in a chain of nodes, top of the stack first.
spec fn chain_seq<T>(n: Option<Box<Node<T>>>) -> Seq<T>
    decreases n,
{
    match n {
        Option::None => Seq::empty(),
        Option::Some(node) => seq![node.val] + chain_seq(node.next),
    }
}

/// A stack built from owned linked nodes; the outermost node is the top of
/// the stack, so the view keeps the top first.
pub struct NodeStack<T> {
    len: usize,
    top: Option<Box<Node<T>>>,
}

impl<T> View for NodeStack<T> {
    type V = Seq<T>;

    closed spec fn view(&self) -> Seq<T> {
        chain_seq(self.top)
    }
}

impl<T> NodeStack<T> {
    /// The length bookkeeping matches the chain of nodes.
    pub closed spec fn wf(&self) -> bool {
        self.len == chain_seq(self.top).len()
    }

    /// A stack with nothing on it.
    pub fn new() -> (r: Self)
        ensures
            r.wf(),
            r@ == Seq::<T>::empty(),
    {
        Self { len: 0, top: None }
    }

    /// Puts `val` on top of the stack.
    pub fn push(&mut self, val: T)
        requires
            old(self).wf(),
            old(self)@.len() < usize::MAX,
        ensures
            final(self).wf(),
            final(self)@ == seq![val] + old(self)@,
    {
        let prev_top = self.top.take();
        self.top = Some(Box::new(Node { val, next: prev_top }));
        self.len += 1;
    }

    /// Takes the most recently pushed value off the stack.
    pub fn pop(&mut self) -> (r: Option<T>)
        requires
            old(self).wf(),
        ensures
            final(self).wf(),
            old(self)@.len() == 0 ==> r is None && final(self)@ == old(self)@,
            old(self)@.len() > 0 ==> r == Some(old(self)@[0]) && final(self)@ == old(self)@.drop_first(),
    {
        match self.top.take() {
            Some(prev_top) => {
                let node = *prev_top;
                self.top = node.next;
                self.len -= 1;
                Some(node.val)
            }
            None => None,
        }
    }

    /// A reference to the value on top of the stack, if any.
    pub fn peek(&self) -> (r: Option<&T>)
        ensures
            self@.len() == 0 ==> r is None,
            self@.len() > 0 ==> (r matches Some(v) && *v == self@[0]),
    {
        match &self.top {
            Some(node) => Some(&node.val),
            None => None,
        }
    }

    /// A mutable reference to the value on top of the stack, if any;
    /// writing through it replaces the top value and touches nothing else.
    pub fn peek_mut(&mut self) -> (r: Option<&mut T>)
        requires
            old(self).wf(),
        ensures
            final(self).wf(),
            old(self)@.len() == 0 ==> r is None && final(self)@ == old(self)@,
            old(self)@.len() > 0 ==> r is Some && *r.unwrap() == old(self)@[0] && final(self)@
                == old(self)@.update(0, *final(r.unwrap())),
    {
        match self.top.as_mut() {
            Some(node) => Some(&mut node.val),
            None => None,
        }
    }
}

} // verus!
