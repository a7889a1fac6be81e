use vstd::prelude::*;

use super::Stack;
use super::StackErr;

verus! {

broadcast use vstd::std_specs::vec::axiom_spec_len;

/// A bounded stack over a fixed block of optional slots: the first `len`
/// slots hold the values, bottom first, and the slots above them stay
/// empty. The block's size is the capacity.
#[derive(Debug)]
pub struct ArrayStack<T> {
    inner_stack: Vec<Option<T>>,
    len: usize,
}

impl<T> ArrayStack<T> {
    /// A stack able to hold `capacity` values; zero capacity is refused.
    pub fn with_capacity(capacity: usize) -> (r: Result<Self, StackErr>)
        ensures
            capacity == 0 ==> r == Err::<Self, StackErr>(StackErr::ZeroCapacityNotAllowed),
            capacity > 0 ==> (r matches Ok(s) && s.inv() && s.contents() == Seq::<T>::empty()
                && s.capacity() == capacity),
    {
        if capacity == 0 {
            return Err(StackErr::ZeroCapacityNotAllowed);
        }

        let mut inner_stack: Vec<Option<T>> = Vec::with_capacity(capacity);
        for k in 0..capacity
            invariant
                inner_stack@.len() == k,
                forall|j: int| 0 <= j < k ==> inner_stack@[j] is None,
        {
            inner_stack.push(None);
        }

        Ok(Self { inner_stack, len: 0 })
    }

    /// How many values the stack can hold at most.
    pub fn cap(&self) -> (r: usize)
        ensures
            r == self.capacity(),
    {
        self.inner_stack.len()
    }

    /// How many values the stack holds now.
    pub fn len(&self) -> (r: usize)
        requires
            self.inv(),
        ensures
            r == self.contents().len(),
    {
        self.len
    }
}

impl<T> Stack for ArrayStack<T> {
    type Item = T;

    open spec fn top_is_back() -> bool {
        true
    }

    closed spec fn contents(&self) -> Seq<T> {
        Seq::new(self.len as nat, |i: int| self.inner_stack@[i].unwrap())
    }

    closed spec fn capacity(&self) -> nat {
        self.inner_stack@.len()
    }

    closed spec fn inv(&self) -> bool {
        &&& self.len <= self.inner_stack@.len()
        &&& forall|k: int| 0 <= k < self.len ==> (#[trigger] self.inner_stack@[k]) is Some
        &&& forall|k: int|
            self.len <= k < self.inner_stack@.len() ==> (#[trigger] self.inner_stack@[k]) is None
    }

    fn push(&mut self, val: T) -> (r: Result<(), StackErr>) {
        if self.is_full() {
            return Err(StackErr::StackOverflow);
        }
        self.inner_stack[self.len] = Some(val);
        proof {
            vstd::std_specs::vec::axiom_spec_len(&self.inner_stack);
        }
        self.len += 1;
        proof {
            assert(self.contents() =~= old(self).contents().push(val));
        }
        Ok(())
    }

    fn pop(&mut self) -> (r: Option<T>) {
        if self.len == 0 {
            return None;
        }
        let slot = &mut self.inner_stack[self.len - 1];
        let item = slot.take();
        self.len -= 1;
        proof {
            assert(self.contents() =~= old(self).contents().remove(old(self).contents().len() - 1));
        }
        item
    }

    fn peek_next(&self) -> (r: Option<&T>) {
        if self.len == 0 {
            return None;
        }
        match &self.inner_stack[self.len - 1] {
            Some(v) => Some(v),
            None => {
                proof {
                    assert(false);
                }
                None
            }
        }
    }

    fn peek_next_mut(&mut self) -> (r: Option<&mut T>) {
        if self.len == 0 {
            return None;
        }
        let idx = self.len - 1;
        let slot = &mut self.inner_stack[idx];
        slot.as_mut()
    }

    fn peek(&self, idx: usize) -> (r: Option<&T>) {
        if idx >= self.inner_stack.len() {
            return None;
        }
        match &self.inner_stack[idx] {
            Some(v) => Some(v),
            None => None,
        }
    }

    fn peek_mut(&mut self, idx: usize) -> (r: Option<&mut T>) {
        if idx >= self.inner_stack.len() {
            return None;
        }
        let slot = &mut self.inner_stack[idx];
        slot.as_mut()
    }

    fn is_empty(&self) -> (r: bool) {
        self.len == 0
    }

    fn is_full(&self) -> (r: bool) {
        self.len == self.inner_stack.len()
    }
}

} // verus!
