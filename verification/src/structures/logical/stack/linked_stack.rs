use vstd::prelude::*;

use super::Stack;
use super::StackErr;

verus! {

/// A node of the linked stack: one value and the link toward the bottom.
#[derive(Debug)]
pub struct LinkedStackNode<T> {
    pub val: T,
    pub next: Option<Box<LinkedStackNode<T>>>,
}

impl<T> LinkedStackNode<T> {
    fn new(val: T, next: Option<Box<LinkedStackNode<T>>>) -> (r: Self)
        ensures
            r.val == val,
            r.next == next,
    {
        Self { val, next }
    }
}

/// The values stored in a chain of nodes, top of the stack first.
pub open spec fn chain_seq<T>(n: Option<Box<LinkedStackNode<T>>>) -> Seq<T>
    decreases n,
{
    match n {
        Option::None => Seq::empty(),
        Option::Some(node) => seq![node.val] + chain_seq(node.next),
    }
}

/// The values stored from a node onward, that node's value first.
pub open spec fn node_seq<T>(n: LinkedStackNode<T>) -> Seq<T> {
    seq![n.val] + chain_seq(n.next)
}

/// The values reachable from a borrowed position in a chain.
pub open spec fn rest_seq<T>(n: Option<&LinkedStackNode<T>>) -> Seq<T> {
    match n {
        Option::None => Seq::empty(),
        Option::Some(node) => seq![node.val] + chain_seq(node.next),
    }
}

/// A mutable reference to the value at index `k` of the chain hanging from
/// `node`; writing through it replaces that value and touches nothing else.
fn nth_val_mut<T>(node: &mut LinkedStackNode<T>, k: usize) -> (r: &mut T)
    requires
        k < node_seq(*old(node)).len(),
    ensures
        *r == node_seq(*old(node))[k as int],
        node_seq(*final(node)) == node_seq(*old(node)).update(k as int, *final(r)),
    decreases k,
{
    if k == 0 {
        &mut node.val
    } else {
        match &mut node.next {
            Some(next) => {
                let r = nth_val_mut(&mut **next, k - 1);
                r
            }
            None => {
                proof {
                    assert(false);
                }
                &mut node.val
            }
        }
    }
}

/// A bounded stack of owned linked nodes; the outermost node is the top of
/// the stack, so the contents keep the top first.
#[derive(Debug)]
pub struct LinkedStack<T> {
    top: Option<Box<LinkedStackNode<T>>>,
    cap: usize,
    len: usize,
}

impl<T> LinkedStack<T> {
    /// A stack able to hold `cap` values; zero capacity is refused.
    pub fn with_capacity(cap: usize) -> (r: Result<Self, StackErr>)
        ensures
            cap == 0 ==> r == Err::<Self, StackErr>(StackErr::ZeroCapacityNotAllowed),
            cap > 0 ==> (r matches Ok(s) && s.inv() && s.contents() == Seq::<T>::empty()
                && s.capacity() == cap),
    {
        if cap == 0 {
            return Err(StackErr::ZeroCapacityNotAllowed);
        }

        Ok(Self { top: None, cap, len: 0 })
    }

    /// How many values the stack can hold at most.
    pub fn cap(&self) -> (r: usize)
        ensures
            r == self.capacity(),
    {
        self.cap
    }

    /// How many values the stack holds now.
    pub fn len(&self) -> (r: usize)
        requires
            self.inv(),
        ensures
            r == self.contents().len(),
    {
        self.len
    }

    /// An iterator over references to the values, top of the stack first.
    pub fn iter(&self) -> (r: LinkedStackIter<'_, T>)
        requires
            self.inv(),
        ensures
            rest_seq(r.rest) == self.contents(),
    {
        LinkedStackIter {
            rest: match &self.top {
                Some(node) => Some(&**node),
                None => None,
            },
        }
    }

    /// An iterator over mutable references to the values, top first.
    pub fn iter_mut(&mut self) -> (r: LinkedStackIterMut<'_, T>)
        requires
            old(self).inv(),
        ensures
            mut_rest_seq(r.rest) == old(self).contents(),
    {
        LinkedStackIterMut {
            rest: match self.top.as_mut() {
                Some(node) => Some(&mut **node),
                None => None,
            },
        }
    }
}

impl<T> Stack for LinkedStack<T> {
    type Item = T;

    open spec fn top_is_back() -> bool {
        false
    }

    closed spec fn contents(&self) -> Seq<T> {
        chain_seq(self.top)
    }

    closed spec fn capacity(&self) -> nat {
        self.cap as nat
    }

    closed spec fn inv(&self) -> bool {
        self.len == chain_seq(self.top).len() && self.len <= self.cap
    }

    fn push(&mut self, val: T) -> (r: Result<(), StackErr>) {
        if self.is_full() {
            return Err(StackErr::StackOverflow);
        }
        let new_top = Box::new(LinkedStackNode::new(val, self.top.take()));
        self.top = Some(new_top);
        self.len += 1;
        Ok(())
    }

    fn pop(&mut self) -> (r: Option<T>) {
        match self.top.take() {
            Some(old_top) => {
                let node = *old_top;
                self.top = node.next;
                self.len -= 1;
                proof {
                    assert(self.contents() =~= old(self).contents().remove(0));
                }
                Some(node.val)
            }
            None => None,
        }
    }

    fn peek_next(&self) -> (r: Option<&T>) {
        match &self.top {
            Some(node) => Some(&node.val),
            None => None,
        }
    }

    fn peek_next_mut(&mut self) -> (r: Option<&mut T>) {
        match self.top.as_mut() {
            Some(node) => Some(&mut node.val),
            None => None,
        }
    }

    fn peek(&self, idx: usize) -> (r: Option<&T>) {
        if idx >= self.len {
            return None;
        }

        let mut k: usize = 0;
        let mut rest: Option<&LinkedStackNode<T>> = match &self.top {
            Some(node) => Some(&**node),
            None => None,
        };
        while k < idx
            invariant
                k <= idx < self.contents().len(),
                rest_seq(rest) == self.contents().subrange(k as int, self.contents().len() as int),
            decreases idx - k,
        {
            let ghost prev = rest;
            match rest {
                Some(node) => {
                    rest = match &node.next {
                        Some(b) => Some(&**b),
                        None => None,
                    };
                    proof {
                        assert(rest_seq(rest) =~= rest_seq(prev).drop_first());
                        assert(rest_seq(rest) =~= self.contents().subrange(
                            k + 1,
                            self.contents().len() as int,
                        ));
                    }
                }
                None => {
                    proof {
                        assert(false);
                    }
                    return None;
                }
            }
            k += 1;
        }
        match rest {
            Some(node) => {
                proof {
                    assert(rest_seq(rest)[0] == self.contents()[idx as int]);
                }
                Some(&node.val)
            }
            None => {
                proof {
                    assert(false);
                }
                None
            }
        }
    }

    fn peek_mut(&mut self, idx: usize) -> (r: Option<&mut T>) {
        if idx >= self.len {
            return None;
        }

        match self.top.as_mut() {
            Some(node) => Some(nth_val_mut(&mut **node, idx)),
            None => {
                proof {
                    assert(false);
                }
                None
            }
        }
    }

    fn is_empty(&self) -> (r: bool) {
        self.len == 0
    }

    fn is_full(&self) -> (r: bool) {
        self.len == self.cap
    }
}

/// An iterator over references to a stack's values; `rest` points at the
/// next node to visit.
pub struct LinkedStackIter<'a, T> {
    pub rest: Option<&'a LinkedStackNode<T>>,
}

impl<'a, T> LinkedStackIter<'a, T> {
    /// A reference to the next value, stepping the iterator past it.
    pub fn next(&mut self) -> (r: Option<&'a T>)
        ensures
            rest_seq(old(self).rest).len() == 0 ==> r is None && final(self).rest is None,
            rest_seq(old(self).rest).len() > 0 ==> (r matches Some(v) && *v == rest_seq(
                old(self).rest,
            )[0] && rest_seq(final(self).rest) == rest_seq(old(self).rest).drop_first()),
    {
        match self.rest {
            Some(node) => {
                self.rest = match &node.next {
                    Some(b) => Some(&**b),
                    None => None,
                };
                proof {
                    assert(rest_seq(self.rest) =~= rest_seq(old(self).rest).drop_first());
                }
                Some(&node.val)
            }
            None => None,
        }
    }
}

/// The values currently reachable from a mutably borrowed position in a
/// chain.
pub open spec fn mut_rest_seq<T>(n: Option<&mut LinkedStackNode<T>>) -> Seq<T> {
    match n {
        Option::None => Seq::empty(),
        Option::Some(m) => seq![m.val] + chain_seq(m.next),
    }
}

/// An iterator over mutable references to a stack's values; `rest` points
/// at the next node to visit.
pub struct LinkedStackIterMut<'a, T> {
    pub rest: Option<&'a mut LinkedStackNode<T>>,
}

impl<'a, T> LinkedStackIterMut<'a, T> {
    /// A mutable reference to the next value, stepping the iterator past
    /// it.
    pub fn next(&mut self) -> (r: Option<&'a mut T>)
        ensures
            mut_rest_seq(old(self).rest).len() == 0 ==> r is None && final(self).rest is None,
            mut_rest_seq(old(self).rest).len() > 0 ==> r is Some && *r.unwrap() == mut_rest_seq(
                old(self).rest,
            )[0] && mut_rest_seq(final(self).rest) == mut_rest_seq(old(self).rest).drop_first(),
    {
        match self.rest.take() {
            Some(node) => {
                self.rest = match node.next.as_mut() {
                    Some(b) => Some(&mut **b),
                    None => None,
                };
                Some(&mut node.val)
            }
            None => None,
        }
    }
}

} // verus!
