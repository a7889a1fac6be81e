use dsa::structures::logical::simple_stack::NodeStack;
use dsa::structures::logical::simple_stack::Stack;
use dsa::structures::logical::stack::ArrayStack;
use dsa::structures::logical::stack::LinkedStack;
use dsa::structures::logical::stack::Stack as BoundedStack;
use dsa::structures::logical::stack::StackErr;

#[test]
fn stack_push_peek() {
    let mut stack = Stack::<u32>::new();
    stack.push(1);
    stack.push(2);
    assert_eq!(stack.peek(), Some(&2));
}

#[test]
fn stack_pop() {
    let mut stack = Stack::<u32>::new();
    stack.push(1);
    stack.push(2);
    assert_eq!(stack.pop(), Some(2));
}

#[test]
fn stack_peek_mut() {
    let mut stack = Stack::<u32>::new();
    stack.push(1);
    if let Some(el) = stack.peek_mut() {
        *el = 77;
    }
    assert_eq!(stack.peek(), Some(&77));
}

#[test]
fn node_stack_push_peek() {
    let mut node_stack = NodeStack::<u32>::new();
    node_stack.push(1);
    node_stack.push(2);
    node_stack.push(3);
    assert_eq!(&*node_stack.peek().unwrap(), &3);
}

#[test]
fn node_stack_pop() {
    let mut node_stack: NodeStack<u32> = NodeStack::new();
    node_stack.push(3);
    node_stack.push(7);
    node_stack.push(5);
    node_stack.push(1);
    assert_eq!(node_stack.pop(), Some(1));
    assert_eq!(node_stack.pop(), Some(5));
    assert_eq!(node_stack.pop(), Some(7));
    assert_eq!(node_stack.pop(), Some(3));
}

#[test]
fn node_stack_peek_mut() {
    let mut node_stack: NodeStack<u32> = NodeStack::new();
    node_stack.push(3);
    node_stack.push(7);
    if let Some(val) = node_stack.peek_mut() {
        *val = 77;
    }
    assert_eq!(&*node_stack.peek().unwrap(), &77);
}

#[test]
fn array_stack_new() {
    let stack_new_res = ArrayStack::<i32>::with_capacity(5);
    assert!(stack_new_res.is_ok());
}

#[test]
fn array_stack_new_fail_with_zero() {
    let stack_new_res = ArrayStack::<i32>::with_capacity(0);
    assert!(stack_new_res.is_err());
    assert_eq!(
        StackErr::ZeroCapacityNotAllowed,
        stack_new_res.err().unwrap()
    );
}

#[test]
fn array_stack_capacity() {
    let stack_new_res = ArrayStack::<i32>::with_capacity(5).unwrap();
    assert_eq!(5, stack_new_res.cap());
}

#[test]
fn array_stack_len() {
    let stack_new_res = ArrayStack::<i32>::with_capacity(5).unwrap();
    assert_eq!(0, stack_new_res.len());
}

#[test]
fn array_stack_is_empty() {
    let stack_new_res = ArrayStack::<i32>::with_capacity(5).unwrap();
    assert!(stack_new_res.is_empty());
}

#[test]
fn array_stack_is_full() {
    let mut stack_new_res = ArrayStack::<i32>::with_capacity(2).unwrap();
    stack_new_res.push(1).unwrap();
    stack_new_res.push(2).unwrap();
    assert!(stack_new_res.is_full());
}

#[test]
fn array_stack_push() {
    let mut stack_new_res = ArrayStack::<i32>::with_capacity(5).unwrap();
    stack_new_res.push(1).unwrap();
    stack_new_res.push(2).unwrap();
    assert_eq!(2, stack_new_res.len());
}

#[test]
fn array_stack_push_overflow() {
    let mut stack = ArrayStack::<i32>::with_capacity(1).unwrap();
    stack.push(1).unwrap();
    assert_eq!(Err(StackErr::StackOverflow), stack.push(2));
}

#[test]
fn array_stack_pop() {
    let mut stack_new_res = ArrayStack::<i32>::with_capacity(5).unwrap();
    stack_new_res.push(1).unwrap();
    stack_new_res.push(2).unwrap();
    assert_eq!(Some(2), stack_new_res.pop());
    assert_eq!(1, stack_new_res.len());
}

#[test]
fn array_stack_peek_next() {
    let mut stack_new_res = ArrayStack::<i32>::with_capacity(5).unwrap();
    assert_eq!(None, stack_new_res.peek_next());
    stack_new_res.push(1).unwrap();
    stack_new_res.push(2).unwrap();
    assert_eq!(Some(&2), stack_new_res.peek_next());
    stack_new_res.push(3).unwrap();
    assert_eq!(Some(&3), stack_new_res.peek_next());
}

#[test]
fn array_stack_peek_next_mut() {
    let mut stack_new_res = ArrayStack::<i32>::with_capacity(5).unwrap();
    stack_new_res.push(1).unwrap();
    stack_new_res.push(2).unwrap();
    assert_eq!(Some(&2), stack_new_res.peek_next());
    stack_new_res.peek_next_mut().map(|v| *v = 10).unwrap();
    assert_eq!(Some(&10), stack_new_res.peek_next());
}

#[test]
fn array_stack_peek() {
    let mut stack_new_res = ArrayStack::<i32>::with_capacity(5).unwrap();
    assert_eq!(None, stack_new_res.peek(0));
    stack_new_res.push(1).unwrap();
    stack_new_res.push(2).unwrap();
    assert_eq!(Some(&1), stack_new_res.peek(0));
    assert_eq!(Some(&2), stack_new_res.peek(1));
}

#[test]
fn array_stack_peek_mut() {
    let mut stack_new_res = ArrayStack::<i32>::with_capacity(5).unwrap();
    assert_eq!(None, stack_new_res.peek(0));
    stack_new_res.push(1).unwrap();
    stack_new_res.push(2).unwrap();
    assert_eq!(Some(&1), stack_new_res.peek(0));
    assert_eq!(Some(&2), stack_new_res.peek(1));
    stack_new_res.peek_mut(0).map(|v| *v = 7).unwrap();
    assert_eq!(Some(&7), stack_new_res.peek(0));
}

#[test]
fn linked_stack_new() {
    let linked_stack = LinkedStack::<i32>::with_capacity(5);
    assert!(linked_stack.is_ok());
}

#[test]
fn linked_stack_new_with_zero_cap() {
    let linked_stack = LinkedStack::<i32>::with_capacity(0);
    assert!(linked_stack.is_err());
}

#[test]
fn linked_stack_cap() {
    let linked_stack = LinkedStack::<i32>::with_capacity(5).unwrap();
    assert_eq!(5, linked_stack.cap());
}

#[test]
fn linked_stack_len() {
    let linked_stack = LinkedStack::<i32>::with_capacity(5).unwrap();
    assert_eq!(0, linked_stack.len());
}

#[test]
fn linked_stack_push() {
    let mut linked_stack = LinkedStack::<i32>::with_capacity(2).unwrap();
    linked_stack.push(1).unwrap();
    linked_stack.push(2).unwrap();
    assert_eq!(2, linked_stack.len());
    let push_res = linked_stack.push(3);
    assert!(push_res.is_err());
    assert_eq!(StackErr::StackOverflow, push_res.err().unwrap());
}

#[test]
fn linked_stack_pop() {
    let mut linked_stack = LinkedStack::<i32>::with_capacity(2).unwrap();
    linked_stack.push(1).unwrap();
    linked_stack.push(2).unwrap();
    assert_eq!(2, linked_stack.len());
    assert_eq!(Some(2), linked_stack.pop());
    assert_eq!(1, linked_stack.len());
}

#[test]
fn linked_stack_iter() {
    let mut linked_stack = LinkedStack::<i32>::with_capacity(3).unwrap();
    linked_stack.push(1).unwrap();
    linked_stack.push(2).unwrap();
    linked_stack.push(3).unwrap();
    let mut iter = linked_stack.iter();
    assert_eq!(Some(&3), iter.next());
    assert_eq!(Some(&2), iter.next());
    assert_eq!(Some(&1), iter.next());
    assert_eq!(None, iter.next());
}

#[test]
fn linked_stack_iter_mut() {
    let mut linked_stack = LinkedStack::<i32>::with_capacity(3).unwrap();
    linked_stack.push(1).unwrap();
    linked_stack.push(2).unwrap();
    linked_stack.push(3).unwrap();
    let mut iter = linked_stack.iter_mut();
    assert_eq!(Some(&mut 3), iter.next());
    assert_eq!(Some(&mut 2), iter.next());
    assert_eq!(Some(&mut 1), iter.next());
    assert_eq!(None, iter.next());
}

#[test]
fn linked_stack_peek_next() {
    let mut linked_stack = LinkedStack::<i32>::with_capacity(3).unwrap();
    linked_stack.push(1).unwrap();
    linked_stack.push(2).unwrap();
    linked_stack.push(3).unwrap();
    assert_eq!(Some(&3), linked_stack.peek_next());
    linked_stack.pop();
    assert_eq!(Some(&2), linked_stack.peek_next());
    linked_stack.pop();
    linked_stack.pop();
    assert_eq!(None, linked_stack.peek_next());
}

#[test]
fn linked_stack_peek() {
    let mut linked_stack = LinkedStack::<i32>::with_capacity(3).unwrap();
    linked_stack.push(1).unwrap();
    linked_stack.push(2).unwrap();
    linked_stack.push(3).unwrap();
    assert_eq!(Some(&2), linked_stack.peek(1));
    assert_eq!(Some(&1), linked_stack.peek(2));
    assert_eq!(Some(&3), linked_stack.peek(0));
    assert_eq!(None, linked_stack.peek(5));
}

#[test]
fn linked_stack_peek_mut() {
    let mut linked_stack = LinkedStack::<i32>::with_capacity(3).unwrap();
    linked_stack.push(1).unwrap();
    linked_stack.push(2).unwrap();
    linked_stack.push(3).unwrap();
    assert_eq!(Some(&mut 2), linked_stack.peek_mut(1));
    assert_eq!(Some(&mut 1), linked_stack.peek_mut(2));
    assert_eq!(Some(&mut 3), linked_stack.peek_mut(0));
    assert_eq!(None, linked_stack.peek_mut(5));
}

#[test]
fn stack_err_messages() {
    assert_eq!(
        "Unable to insert a new value in the stack, limit reached",
        StackErr::StackOverflow.message()
    );
    assert_eq!(
        "Unable to initialize a stack with no capacity",
        StackErr::ZeroCapacityNotAllowed.message()
    );
}

#[test]
fn node_stack_pop_empty() {
    let mut node_stack: NodeStack<u32> = NodeStack::new();
    assert_eq!(None, node_stack.pop());
    assert_eq!(None, node_stack.peek());
}

#[test]
fn stack_pop_empty() {
    let mut stack = Stack::<u32>::new();
    assert_eq!(None, stack.pop());
    assert_eq!(None, stack.peek());
    assert!(stack.peek_mut().is_none());
}
