use dsa::structures::logical::queue::ArrayQueue;
use dsa::structures::logical::queue::LinkedQueue;
use dsa::structures::logical::queue::Queue as BoundedQueue;
use dsa::structures::logical::queue::QueueErr;
use dsa::structures::logical::simple_queue::NodeQueue;
use dsa::structures::logical::simple_queue::Queue;
use dsa::structures::physical::queue::ArrayQueue as PhysicalArrayQueue;
use dsa::structures::physical::queue::Queue as PhysicalQueue;
use dsa::structures::physical::queue::QueueErr as PhysicalQueueErr;

#[test]
fn queue_enqueue_peek() {
    let mut queue: Queue<u32> = Queue::new();
    queue.enqueue(3);
    queue.enqueue(7);
    assert_eq!(queue.peek(), Some(&3));
}

#[test]
fn queue_deque() {
    let mut queue: Queue<u32> = Queue::new();
    queue.enqueue(3);
    queue.enqueue(7);
    assert_eq!(queue.deque(), Some(3));
}

#[test]
fn queue_peek_mut() {
    let mut queue: Queue<u32> = Queue::new();
    queue.enqueue(3);
    if let Some(el) = queue.peek_mut() {
        *el = 77;
    }
    assert_eq!(queue.peek(), Some(&77));
}

#[test]
fn node_queue_enqueue() {
    let mut node_queue: NodeQueue<u32> = NodeQueue::new();
    node_queue.enqueue(3);
    node_queue.enqueue(7);
    assert_eq!(&*node_queue.peek().unwrap(), &3);
}

#[test]
fn node_queue_deque() {
    let mut node_queue: NodeQueue<u32> = NodeQueue::new();
    node_queue.enqueue(3);
    node_queue.enqueue(7);
    assert_eq!(node_queue.deque(), Some(3));
    assert_eq!(&*node_queue.peek().unwrap(), &7);
    assert_eq!(node_queue.deque(), Some(7));
}

#[test]
fn node_queue_peek_mut() {
    let mut node_queue: NodeQueue<u32> = NodeQueue::new();
    node_queue.enqueue(3);
    node_queue.enqueue(7);
    if let Some(el) = node_queue.peek_mut() {
        *el = 77;
    }
    assert_eq!(&*node_queue.peek().unwrap(), &77);
}

#[test]
fn array_queue_array_queue_new() {
    let queue = ArrayQueue::<i32>::with_capacity(5);
    assert!(queue.is_ok());
    let queue = queue.unwrap();
    assert_eq!(5, queue.cap);
    assert_eq!(0, queue.len);

    let queue = PhysicalArrayQueue::<i32>::with_capacity(5);
    assert!(queue.is_ok());
    let queue = queue.unwrap();
    assert_eq!(5, queue.cap);
    assert_eq!(0, queue.len);
}

#[test]
fn array_queue_array_queue_new_zero_cap() {
    let queue = ArrayQueue::<i32>::with_capacity(0);
    assert!(queue.is_err());
    assert_eq!(QueueErr::ZeroCapacityNotAllowed, queue.err().unwrap());

    let queue = PhysicalArrayQueue::<i32>::with_capacity(0);
    assert!(queue.is_err());
    assert_eq!(PhysicalQueueErr::ZeroCapacityNotAllowed, queue.err().unwrap());
}

#[test]
fn array_queue_is_empty() {
    let queue = ArrayQueue::<i32>::with_capacity(2).unwrap();
    assert!(queue.is_empty());
}

#[test]
fn array_queue_enqueue() {
    let mut queue = ArrayQueue::<i32>::with_capacity(2).unwrap();
    let _ = queue.enqueue(1);
    let _ = queue.enqueue(2);
    assert_eq!(Some(1), queue.inner_queue[0]);
    assert_eq!(Some(2), queue.inner_queue[1]);
}

#[test]
fn array_queue_enqueue_overflow() {
    let mut queue = ArrayQueue::<i32>::with_capacity(2).unwrap();
    let _ = queue.enqueue(1);
    let _ = queue.enqueue(2);
    let res = queue.enqueue(3);
    assert!(res.is_err());
    assert_eq!(Some(QueueErr::QueueOverflow), res.err());
}

#[test]
fn array_queue_is_full() {
    let mut queue = ArrayQueue::<i32>::with_capacity(2).unwrap();
    let _ = queue.enqueue(1);
    let _ = queue.enqueue(2);
    assert!(queue.is_full());
    assert!(!queue.is_empty());
}

#[test]
fn array_queue_dequeue() {
    let mut queue = ArrayQueue::<i32>::with_capacity(2).unwrap();
    let _ = queue.enqueue(1);
    let _ = queue.enqueue(2);
    assert_eq!(Some(1), queue.dequeue());
    assert_eq!(Some(2), queue.dequeue());
    assert_eq!(None, queue.dequeue());
}

#[test]
fn array_queue_peek_next() {
    let mut queue = ArrayQueue::<i32>::with_capacity(2).unwrap();
    let _ = queue.enqueue(1);
    let _ = queue.enqueue(2);
    assert_eq!(Some(&1), queue.peek_next());
}

#[test]
fn array_queue_peek_next_mut() {
    let mut queue = ArrayQueue::<i32>::with_capacity(2).unwrap();
    let _ = queue.enqueue(1);
    let _ = queue.enqueue(2);
    assert_eq!(Some(&mut 1), queue.peek_next_mut());
}

#[test]
fn array_queue_peek() {
    let mut queue = ArrayQueue::<i32>::with_capacity(2).unwrap();
    let _ = queue.enqueue(1);
    let _ = queue.enqueue(2);
    assert_eq!(Some(&1), queue.peek(0));
    assert_eq!(Some(&2), queue.peek(1));
}

#[test]
fn array_queue_peek_mut() {
    let mut queue = ArrayQueue::<i32>::with_capacity(2).unwrap();
    let _ = queue.enqueue(1);
    let _ = queue.enqueue(2);
    assert_eq!(Some(&mut 1), queue.peek_mut(0));
    assert_eq!(Some(&mut 2), queue.peek_mut(1));
}

#[test]
fn array_queue_iter() {
    let mut queue = ArrayQueue::<i32>::with_capacity(3).unwrap();
    let _ = queue.enqueue(1);
    let _ = queue.enqueue(2);
    let _ = queue.enqueue(3);
    let mut iter = queue.iter();
    assert_eq!(Some(&Some(1)), iter.next());
    assert_eq!(Some(&Some(2)), iter.next());
    assert_eq!(Some(&Some(3)), iter.next());
    assert_eq!(None, iter.next());
}

#[test]
fn array_queue_iter_mut() {
    let mut queue = ArrayQueue::<i32>::with_capacity(3).unwrap();
    let _ = queue.enqueue(1);
    let _ = queue.enqueue(2);
    let _ = queue.enqueue(3);
    let mut iter = queue.iter_mut();
    assert_eq!(Some(&mut Some(1)), iter.next());
    assert_eq!(Some(&mut Some(2)), iter.next());
    assert_eq!(Some(&mut Some(3)), iter.next());
    assert_eq!(None, iter.next());
}

#[test]
fn linked_queue_new() {
    let queue = LinkedQueue::<i32>::with_capacity(2);
    assert!(queue.is_ok());
    let queue = queue.unwrap();
    assert_eq!(0, queue.len);
    assert_eq!(2, queue.cap);
}

#[test]
fn linked_queue_new_fail_zero_cap() {
    let queue = LinkedQueue::<i32>::with_capacity(0);
    assert!(queue.is_err());
    assert_eq!(Some(QueueErr::ZeroCapacityNotAllowed), queue.err());
}

#[test]
fn linked_queue_enqueue() {
    let mut queue = LinkedQueue::<i32>::with_capacity(2).unwrap();
    let _ = queue.enqueue(1);
    assert!(queue.head.is_some());
    assert_eq!(1, queue.len);
    let _ = queue.enqueue(2);
    assert_eq!(2, queue.len);
}

#[test]
fn linked_queue_iter() {
    let mut queue = LinkedQueue::<i32>::with_capacity(2).unwrap();
    let _ = queue.enqueue(1);
    let _ = queue.enqueue(2);
    let mut iter = queue.iter();
    assert_eq!(Some(&1), iter.next());
    assert_eq!(Some(&2), iter.next());
    assert_eq!(None, iter.next());
}

#[test]
fn linked_queue_iter_mut() {
    let mut queue = LinkedQueue::<i32>::with_capacity(2).unwrap();
    let _ = queue.enqueue(1);
    let _ = queue.enqueue(2);
    let mut iter = queue.iter_mut();
    if let Some(v) = iter.next() {
        *v = 11;
    }
    assert_eq!(Some(&mut 2), iter.next());
    assert_eq!(None, iter.next());
    assert_eq!(Some(&11), queue.peek(0));
}

#[test]
fn linked_queue_dequeue() {
    let mut queue = LinkedQueue::<i32>::with_capacity(2).unwrap();
    let _ = queue.enqueue(1);
    let _ = queue.enqueue(2);
    assert_eq!(Some(1), queue.dequeue());
    assert_eq!(Some(2), queue.dequeue());
    assert_eq!(None, queue.dequeue());
}

#[test]
fn linked_queue_enqueue_overflow() {
    let mut queue = LinkedQueue::<i32>::with_capacity(1).unwrap();
    assert!(queue.enqueue(1).is_ok());
    assert_eq!(Err(QueueErr::QueueOverflow), queue.enqueue(2));
}

#[test]
fn linked_queue_peek_next() {
    let mut queue = LinkedQueue::<i32>::with_capacity(2).unwrap();
    let _ = queue.enqueue(1);
    assert_eq!(Some(&1), queue.peek_next());
    let _ = queue.enqueue(2);
    assert_eq!(Some(&1), queue.peek_next());
}

#[test]
fn linked_queue_peek_next_mut() {
    let mut queue = LinkedQueue::<i32>::with_capacity(2).unwrap();
    let _ = queue.enqueue(1);
    assert_eq!(Some(&mut 1), queue.peek_next_mut());
    let _ = queue.enqueue(2);
    assert_eq!(Some(&mut 1), queue.peek_next_mut());
}

#[test]
fn linked_queue_peek() {
    let mut queue = LinkedQueue::<i32>::with_capacity(2).unwrap();
    let _ = queue.enqueue(1);
    let _ = queue.enqueue(2);
    assert_eq!(Some(&2), queue.peek(1));
    assert_eq!(Some(&1), queue.peek(0));
    assert_eq!(None, queue.peek(7));
}

#[test]
fn linked_queue_peek_mut() {
    let mut queue = LinkedQueue::<i32>::with_capacity(2).unwrap();
    let _ = queue.enqueue(1);
    let _ = queue.enqueue(2);
    assert_eq!(Some(&mut 2), queue.peek_mut(1));
    assert_eq!(Some(&mut 1), queue.peek_mut(0));
    assert_eq!(None, queue.peek_mut(7));
}

#[test]
fn queue_err_messages() {
    assert_eq!(
        "Unable to insert a new value in the queue, limit reached",
        QueueErr::QueueOverflow.message()
    );
    assert_eq!(
        "Unable to initialize a queue with no capacity",
        QueueErr::ZeroCapacityNotAllowed.message()
    );
    assert_eq!(
        "Unable to insert a new value in the stack, limit reached",
        PhysicalQueueErr::StackOverflow.message()
    );
}

#[test]
fn physical_array_queue_round_trip() {
    let mut queue = PhysicalArrayQueue::<i32>::with_capacity(2).unwrap();
    assert!(queue.enqueue(4).is_ok());
    assert!(queue.enqueue(5).is_ok());
    assert_eq!(Err(PhysicalQueueErr::StackOverflow), queue.enqueue(6));
    assert_eq!(Some(&4), queue.peek_next());
    assert_eq!(Some(4), queue.dequeue());
    assert_eq!(Some(5), queue.dequeue());
    assert_eq!(None, queue.dequeue());
}

#[test]
fn node_queue_deque_empty() {
    let mut node_queue: NodeQueue<u32> = NodeQueue::new();
    assert_eq!(None, node_queue.deque());
    assert_eq!(None, node_queue.peek());
}

#[test]
fn queue_deque_empty() {
    let mut queue: Queue<u32> = Queue::new();
    assert_eq!(None, queue.deque());
    assert_eq!(None, queue.peek());
    assert!(queue.peek_mut().is_none());
}
