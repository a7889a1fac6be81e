use vstd::prelude::*;

pub use array_stack::ArrayStack;
pub use linked_stack::LinkedStack;
pub use linked_stack::LinkedStackIter;
pub use linked_stack::LinkedStackIterMut;

mod array_stack;
mod linked_stack;

verus! {

/// A bounded stack (LIFO). Each implementation exposes its stored values as
/// the sequence `contents`, a fixed `capacity`, and an invariant `inv` that
/// its constructor establishes and every operation preserves;
/// `top_is_back` says at which end of `contents` the top of the stack sits.
pub trait Stack: Sized {
    type Item;

    /// Whether the top of the stack is the last of `contents` (true for
    /// the array-backed stack) or the first (true for the linked stack).
    spec fn top_is_back() -> bool;

    /// The stored values; `top_is_back` gives the orientation.
    spec fn contents(&self) -> Seq<Self::Item>;

    /// How many values the stack can hold at most.
    spec fn capacity(&self) -> nat;

    /// The implementation's internal invariant.
    spec fn inv(&self) -> bool;

    /// The index of the top value within `contents`.
    open spec fn top_index(&self) -> int {
        if Self::top_is_back() {
            self.contents().len() - 1
        } else {
            0
        }
    }

    /// Insert a new value at the top, unless the stack is full.
    fn push(&mut self, val: Self::Item) -> (r: Result<(), StackErr>)
        requires
            old(self).inv(),
        ensures
            final(self).inv(),
            final(self).capacity() == old(self).capacity(),
            old(self).contents().len() < old(self).capacity() ==> r is Ok && final(self).contents()
                == (if Self::top_is_back() {
                old(self).contents().push(val)
            } else {
                seq![val] + old(self).contents()
            }),
            old(self).contents().len() >= old(self).capacity() ==> r == Err::<(), StackErr>(
                StackErr::StackOverflow,
            ) && final(self).contents() == old(self).contents(),
    ;

    /// Remove and return the top value, if any.
    fn pop(&mut self) -> (r: Option<Self::Item>)
        requires
            old(self).inv(),
        ensures
            final(self).inv(),
            final(self).capacity() == old(self).capacity(),
            old(self).contents().len() == 0 ==> r is None && final(self).contents() == old(self).contents(),
            old(self).contents().len() > 0 ==> r == Some(
                old(self).contents()[old(self).top_index()],
            ) && final(self).contents() == old(self).contents().remove(old(self).top_index()),
    ;

    /// A reference to the top value, if any.
    fn peek_next(&self) -> (r: Option<&Self::Item>)
        requires
            self.inv(),
        ensures
            self.contents().len() == 0 ==> r is None,
            self.contents().len() > 0 ==> (r matches Some(v) && *v == self.contents()[
                self.top_index()]),
    ;

    /// A mutable reference to the top value, if any; writing through it
    /// replaces the top value and touches nothing else.
    fn peek_next_mut(&mut self) -> (r: Option<&mut Self::Item>)
        requires
            old(self).inv(),
        ensures
            final(self).inv(),
            final(self).capacity() == old(self).capacity(),
            old(self).contents().len() == 0 ==> r is None && final(self).contents() == old(self).contents(),
            old(self).contents().len() > 0 ==> r is Some && *r.unwrap() == old(self).contents()[
                old(self).top_index()] && final(self).contents() == old(self).contents().update(
                old(self).top_index(),
                *final(r.unwrap()),
            ),
    ;

    /// A reference to the value at `idx` within `contents`, if that index
    /// is occupied.
    fn peek(&self, idx: usize) -> (r: Option<&Self::Item>)
        requires
            self.inv(),
        ensures
            idx < self.contents().len() ==> (r matches Some(v) && *v == self.contents()[idx as int]),
            idx >= self.contents().len() ==> r is None,
    ;

    /// A mutable reference to the value at `idx` within `contents`, if
    /// that index is occupied; writing through it replaces that value and
    /// touches nothing else.
    fn peek_mut(&mut self, idx: usize) -> (r: Option<&mut Self::Item>)
        requires
            old(self).inv(),
        ensures
            final(self).inv(),
            final(self).capacity() == old(self).capacity(),
            idx >= old(self).contents().len() ==> r is None && final(self).contents() == old(self).contents(),
            idx < old(self).contents().len() ==> r is Some && *r.unwrap() == old(self).contents()[
                idx as int] && final(self).contents() == old(self).contents().update(
                idx as int,
                *final(r.unwrap()),
            ),
    ;

    /// Whether the stack holds no value.
    fn is_empty(&self) -> (r: bool)
        requires
            self.inv(),
        ensures
            r == (self.contents().len() == 0),
    ;

    /// Whether the stack holds as many values as it can.
    fn is_full(&self) -> (r: bool)
        requires
            self.inv(),
        ensures
            r == (self.contents().len() == self.capacity()),
    ;
}

/// What can go wrong with a bounded stack.
#[derive(Debug, PartialEq, Eq, Structural)]
pub enum StackErr {
    ZeroCapacityNotAllowed,
    StackOverflow,
}

impl StackErr {
    /// The human-readable description of the error.
    pub fn message(&self) -> (s: String)
        ensures
            *self is StackOverflow ==> s@
                == "Unable to insert a new value in the stack, limit reached"@,
            *self is ZeroCapacityNotAllowed ==> s@
                == "Unable to initialize a stack with no capacity"@,
    {
        match self {
            StackErr::StackOverflow => "Unable to insert a new value in the stack, limit reached".to_owned(),
            StackErr::ZeroCapacityNotAllowed => "Unable to initialize a stack with no capacity".to_owned(),
        }
    }
}

} // verus!
