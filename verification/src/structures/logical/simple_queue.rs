//! Two queues (FIFO): `Queue`, a constrained interface over a double-ended
//! queue from the standard library, and `NodeQueue`, built from owned
//! linked nodes.

use std::collections::VecDeque;
use vstd::prelude::*;

verus! {

/// A queue over a double-ended queue: values enter at the back and leave
/// at the front, so the view keeps the oldest value first.
pub struct Queue<T> {
    content: VecDeque<T>,
}

impl<T> View for Queue<T> {
    type V = Seq<T>;

    closed spec fn view(&self) -> Seq<T> {
        self.content@
    }
}

/// Relies on VecDeque::front_mut: a mutable reference to the first
/// element, or `None` when the deque is empty.
#[verifier::external_body]
fn deque_front_mut<T>(v: &mut VecDeque<T>) -> (r: Option<&mut T>)
    ensures
        old(v).len() == 0 ==> r is None && final(v)@ == old(v)@,
        old(v).len() > 0 ==> r is Some && *r.unwrap() == old(v)@[0] && final(v)@ == old(v)@.update(0, *final(r.unwrap())),
{
    v.front_mut()
}

impl<T> Queue<T> {
    /// A queue with nothing in it.
    pub fn new() -> (r: Self)
        ensures
            r@ == Seq::<T>::empty(),
    {
        Self { content: VecDeque::new() }
    }

    /// Puts `el` at the back of the queue.
    pub fn enqueue(&mut self, el: T)
        ensures
            final(self)@ == old(self)@.push(el),
    {
        self.content.push_back(el)
    }

    /// Takes the oldest value off the front of the queue.
    pub fn deque(&mut self) -> (r: Option<T>)
        ensures
            old(self)@.len() == 0 ==> r is None && final(self)@ == old(self)@,
            old(self)@.len() > 0 ==> r == Some(old(self)@[0]) && final(self)@ == old(self)@.drop_first(),
    {
        self.content.pop_front()
    }

    /// A reference to the value at the front of the queue, if any.
    pub fn peek(&self) -> (r: Option<&T>)
        ensures
            self@.len() == 0 ==> r is None,
            self@.len() > 0 ==> (r matches Some(v) && *v == self@[0]),
    {
        if self.content.len() == 0 {
            None
        } else {
            Some(&self.content[0])
        }
    }

    /// A mutable reference to the value at the front of the queue, if any;
    /// writing through it replaces the front value and touches nothing
    /// else.
    pub fn peek_mut(&mut self) -> (r: Option<&mut T>)
        ensures
            old(self)@.len() == 0 ==> r is None && final(self)@ == old(self)@,
            old(self)@.len() > 0 ==> r is Some && *r.unwrap() == old(self)@[0] && final(self)@
                == old(self)@.update(0, *final(r.unwrap())),
    {
        deque_front_mut(&mut self.content)
    }
}

/// A node of the linked queue: one value and the link toward the back.
struct Node<T> {
    val: T,
    next: Option<Box<Node<T>>>,
}

/// The values stored in a chain of nodes, front of the queue first.
spec fn chain_seq<T>(n: Option<Box<Node<T>>>) -> Seq<T>
    decreases n,
{
    match n {
        Option::None => Seq::empty(),
        Option::Some(node) => seq![node.val] + chain_seq(node.next),
    }
}

/// The values stored from a node onward, that node's value first.
spec fn node_seq<T>(n: Node<T>) -> Seq<T> {
    seq![n.val] + chain_seq(n.next)
}

/// Walks to the end of the chain and hangs a new node there.
fn append_to_chain<T>(node: &mut Node<T>, val: T)
    ensures
        node_seq(*final(node)) == node_seq(*old(node)).push(val),
    decreases node_seq(*old(node)).len(),
{
    match &mut node.next {
        Some(next) => {
            append_to_chain(&mut **next, val);
            proof {
                assert(node_seq(*node) =~= node_seq(*old(node)).push(val));
            }
        }
        None => {
            node.next = Some(Box::new(Node { val, next: None }));
            proof {
                assert(node_seq(*node) =~= node_seq(*old(node)).push(val));
            }
        }
    }
}

/// A queue built from owned linked nodes; the outermost node is the front
/// of the queue, and new values are hung at the far end of the chain.
pub struct NodeQueue<T> {
    len: usize,
    head: Option<Box<Node<T>>>,
}

impl<T> View for NodeQueue<T> {
    type V = Seq<T>;

    closed spec fn view(&self) -> Seq<T> {
        chain_seq(self.head)
    }
}

impl<T> NodeQueue<T> {
    /// The length bookkeeping matches the chain of nodes.
    pub closed spec fn wf(&self) -> bool {
        self.len == chain_seq(self.head).len()
    }

    /// A queue with nothing in it.
    pub fn new() -> (r: Self)
        ensures
            r.wf(),
            r@ == Seq::<T>::empty(),
    {
        Self { len: 0, head: None }
    }

    /// Puts `val` at the back of the queue.
    pub fn enqueue(&mut self, val: T)
        requires
            old(self).wf(),
            old(self)@.len() < usize::MAX,
        ensures
            final(self).wf(),
            final(self)@ == old(self)@.push(val),
    {
        match self.head.as_mut() {
            Some(head) => {
                append_to_chain(&mut **head, val);
            }
            None => {
                self.head = Some(Box::new(Node { val, next: None }));
                proof {
                    assert(chain_seq(self.head) =~= old(self)@.push(val));
                }
            }
        }
        self.len += 1;
    }

    /// Takes the oldest value off the front of the queue.
    pub fn deque(&mut self) -> (r: Option<T>)
        requires
            old(self).wf(),
        ensures
            final(self).wf(),
            old(self)@.len() == 0 ==> r is None && final(self)@ == old(self)@,
            old(self)@.len() > 0 ==> r == Some(old(self)@[0]) && final(self)@ == old(self)@.drop_first(),
    {
        match self.head.take() {
            Some(prev_head) => {
                let node = *prev_head;
                self.head = node.next;
                self.len -= 1;
                Some(node.val)
            }
            None => None,
        }
    }

    /// A reference to the value at the front of the queue, if any.
    pub fn peek(&self) -> (r: Option<&T>)
        ensures
            self@.len() == 0 ==> r is None,
            self@.len() > 0 ==> (r matches Some(v) && *v == self@[0]),
    {
        match &self.head {
            Some(node) => Some(&node.val),
            None => None,
        }
    }

    /// A mutable reference to the value at the front of the queue, if any;
    /// writing through it replaces the front value and touches nothing
    /// else.
    pub fn peek_mut(&mut self) -> (r: Option<&mut T>)
        requires
            old(self).wf(),
        ensures
            final(self).wf(),
            old(self)@.len() == 0 ==> r is None && final(self)@ == old(self)@,
            old(self)@.len() > 0 ==> r is Some && *r.unwrap() == old(self)@[0] && final(self)@
                == old(self)@.update(0, *final(r.unwrap())),
    {
        match self.head.as_mut() {
            Some(node) => Some(&mut node.val),
            None => None,
        }
    }
}

} // verus!
