use vstd::prelude::*;

use super::Queue;
use super::QueueErr;

verus! {

/// A node of the linked queue: one value and the link toward the back.
pub struct LinkedQueueNode<T> {
    pub val: T,
    pub next: Option<Box<LinkedQueueNode<T>>>,
}

/// The values stored in a chain of nodes, front of the queue first.
pub open spec fn chain_seq<T>(n: Option<Box<LinkedQueueNode<T>>>) -> Seq<T>
    decreases n,
{
    match n {
        Option::None => Seq::empty(),
        Option::Some(node) => seq![node.val] + chain_seq(node.next),
    }
}

/// The values stored from a node onward, that node's value first.
pub open spec fn node_seq<T>(n: LinkedQueueNode<T>) -> Seq<T> {
    seq![n.val] + chain_seq(n.next)
}

/// The values reachable from a borrowed position in a chain.
pub open spec fn rest_seq<T>(n: Option<&LinkedQueueNode<T>>) -> Seq<T> {
    match n {
        Option::None => Seq::empty(),
        Option::Some(node) => seq![node.val] + chain_seq(node.next),
    }
}

/// A mutable reference to the value at index `k` of the chain hanging from
/// `node`; writing through it replaces that value and touches nothing else.
fn nth_val_mut<T>(node: &mut LinkedQueueNode<T>, k: usize) -> (r: &mut T)
    requires
        k < node_seq(*old(node)).len(),
    ensures
        *r == node_seq(*old(node))[k as int],
        node_seq(*final(node)) == node_seq(*old(node)).update(k as int, *final(r)),
    decreases k,
{
    if k == 0 {
        &mut node.val
    } else {
        match &mut node.next {
            Some(next) => nth_val_mut(&mut **next, k - 1),
            None => {
                proof {
                    assert(false);
                }
                &mut node.val
            }
        }
    }
}

/// Walks to the end of the chain and hangs a new node there.
fn append_to_chain<T>(node: &mut LinkedQueueNode<T>, val: T)
    ensures
        node_seq(*final(node)) == node_seq(*old(node)).push(val),
    decreases node_seq(*old(node)).len(),
{
    match &mut node.next {
        Some(next) => {
            append_to_chain(&mut **next, val);
            proof {
                assert(node_seq(*node) =~= node_seq(*old(node)).push(val));
            }
        }
        None => {
            node.next = Some(Box::new(LinkedQueueNode { val, next: None }));
            proof {
                assert(node_seq(*node) =~= node_seq(*old(node)).push(val));
            }
        }
    }
}

/// A bounded queue of owned linked nodes; the outermost node is the front
/// of the queue, and new values are hung at the far end of the chain.
pub struct LinkedQueue<T> {
    pub head: Option<Box<LinkedQueueNode<T>>>,
    pub len: usize,
    pub cap: usize,
}

impl<T> LinkedQueue<T> {
    /// A queue able to hold `cap` values; zero capacity is refused.
    pub fn with_capacity(cap: usize) -> (r: Result<Self, QueueErr>)
        ensures
            cap == 0 ==> r == Err::<Self, QueueErr>(QueueErr::ZeroCapacityNotAllowed),
            cap > 0 ==> (r matches Ok(q) && q.inv() && q.contents() == Seq::<T>::empty()
                && q.capacity() == cap),
    {
        if cap == 0 {
            return Err(QueueErr::ZeroCapacityNotAllowed);
        }

        Ok(Self { head: None, len: 0, cap })
    }

    /// An iterator over references to the values, front of the queue
    /// first.
    pub fn iter(&self) -> (r: LinkedQueueIter<'_, T>)
        requires
            self.inv(),
        ensures
            rest_seq(r.rest) == self.contents(),
    {
        LinkedQueueIter {
            rest: match &self.head {
                Some(node) => Some(&**node),
                None => None,
            },
        }
    }

    /// An iterator over mutable references to the values, front first.
    pub fn iter_mut(&mut self) -> (r: LinkedQueueIterMut<'_, T>)
        requires
            old(self).inv(),
        ensures
            mut_rest_seq(r.rest) == old(self).contents(),
    {
        LinkedQueueIterMut {
            rest: match self.head.as_mut() {
                Some(node) => Some(&mut **node),
                None => None,
            },
        }
    }

}

impl<T> Queue for LinkedQueue<T> {
    type Item = T;

    closed spec fn contents(&self) -> Seq<T> {
        chain_seq(self.head)
    }

    closed spec fn capacity(&self) -> nat {
        self.cap as nat
    }

    closed spec fn inv(&self) -> bool {
        self.len == chain_seq(self.head).len() && self.len <= self.cap
    }

    fn enqueue(&mut self, val: T) -> (r: Result<(), QueueErr>) {
        if self.is_full() {
            return Err(QueueErr::QueueOverflow);
        }

        let ghost old_chain: Seq<T> = chain_seq(self.head);
        match self.head.as_mut() {
            Some(head) => {
                append_to_chain(&mut **head, val);
            }
            None => {
                self.head = Some(Box::new(LinkedQueueNode { val, next: None }));
                proof {
                    assert(chain_seq(self.head) =~= old_chain.push(val));
                }
            }
        }
        self.len += 1;
        Ok(())
    }

    fn dequeue(&mut self) -> (r: Option<T>) {
        match self.head.take() {
            Some(prev_head) => {
                let node = *prev_head;
                self.head = node.next;
                self.len -= 1;
                Some(node.val)
            }
            None => None,
        }
    }

    fn peek_next(&self) -> (r: Option<&T>) {
        match &self.head {
            Some(node) => Some(&node.val),
            None => None,
        }
    }

    fn peek_next_mut(&mut self) -> (r: Option<&mut T>) {
        match self.head.as_mut() {
            Some(node) => Some(&mut node.val),
            None => None,
        }
    }

    fn peek(&self, idx: usize) -> (r: Option<&T>) {
        if idx >= self.len {
            return None;
        }

        let mut k: usize = 0;
        let mut rest: Option<&LinkedQueueNode<T>> = match &self.head {
            Some(node) => Some(&**node),
            None => None,
        };
        while k < idx
            invariant
                k <= idx < self.contents().len(),
                rest_seq(rest) == self.contents().subrange(k as int, self.contents().len() as int),
            decreases idx - k,
        {
            let ghost prev = rest;
            match rest {
                Some(node) => {
                    rest = match &node.next {
                        Some(b) => Some(&**b),
                        None => None,
                    };
                    proof {
                        assert(rest_seq(rest) =~= rest_seq(prev).drop_first());
                        assert(rest_seq(rest) =~= self.contents().subrange(
                            k + 1,
                            self.contents().len() as int,
                        ));
                    }
                }
                None => {
                    proof {
                        assert(false);
                    }
                    return None;
                }
            }
            k += 1;
        }
        match rest {
            Some(node) => {
                proof {
                    assert(rest_seq(rest)[0] == self.contents()[idx as int]);
                }
                Some(&node.val)
            }
            None => {
                proof {
                    assert(false);
                }
                None
            }
        }
    }

    fn peek_mut(&mut self, idx: usize) -> (r: Option<&mut T>) {
        if idx >= self.len {
            return None;
        }

        match self.head.as_mut() {
            Some(node) => Some(nth_val_mut(&mut **node, idx)),
            None => {
                proof {
                    assert(false);
                }
                None
            }
        }
    }

    fn is_empty(&self) -> (r: bool) {
        self.len == 0
    }

    fn is_full(&self) -> (r: bool) {
        self.len == self.cap
    }
}

/// An iterator over references to a queue's values; `rest` points at the
/// next node to visit.
pub struct LinkedQueueIter<'a, T> {
    pub rest: Option<&'a LinkedQueueNode<T>>,
}

impl<'a, T> LinkedQueueIter<'a, T> {
    /// A reference to the next value, stepping the iterator past it.
    pub fn next(&mut self) -> (r: Option<&'a T>)
        ensures
            rest_seq(old(self).rest).len() == 0 ==> r is None && final(self).rest is None,
            rest_seq(old(self).rest).len() > 0 ==> (r matches Some(v) && *v == rest_seq(
                old(self).rest,
            )[0] && rest_seq(final(self).rest) == rest_seq(old(self).rest).drop_first()),
    {
        match self.rest {
            Some(node) => {
                self.rest = match &node.next {
                    Some(b) => Some(&**b),
                    None => None,
                };
                proof {
                    assert(rest_seq(self.rest) =~= rest_seq(old(self).rest).drop_first());
                }
                Some(&node.val)
            }
            None => None,
        }
    }
}

/// The values currently reachable from a mutably borrowed position in a
/// chain.
pub open spec fn mut_rest_seq<T>(n: Option<&mut LinkedQueueNode<T>>) -> Seq<T> {
    match n {
        Option::None => Seq::empty(),
        Option::Some(m) => seq![m.val] + chain_seq(m.next),
    }
}

/// An iterator over mutable references to a queue's values; `rest` points
/// at the next node to visit.
pub struct LinkedQueueIterMut<'a, T> {
    pub rest: Option<&'a mut LinkedQueueNode<T>>,
}

impl<'a, T> LinkedQueueIterMut<'a, T> {
    /// A mutable reference to the next value, stepping the iterator past
    /// it.
    pub fn next(&mut self) -> (r: Option<&'a mut T>)
        ensures
            mut_rest_seq(old(self).rest).len() == 0 ==> r is None && final(self).rest is None,
            mut_rest_seq(old(self).rest).len() > 0 ==> r is Some && *r.unwrap() == mut_rest_seq(
                old(self).rest,
            )[0] && mut_rest_seq(final(self).rest) == mut_rest_seq(old(self).rest).drop_first(),
    {
        match self.rest.take() {
            Some(node) => {
                self.rest = match node.next.as_mut() {
                    Some(b) => Some(&mut **b),
                    None => None,
                };
                Some(&mut node.val)
            }
            None => None,
        }
    }
}

} // verus!
