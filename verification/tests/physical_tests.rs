use dsa::structures::physical::array::Array;
use dsa::structures::physical::linked_list::LinkedList;
use dsa::structures::physical::linked_list::SinglyLinkedList as IterableList;
use dsa::structures::physical::matrix::DiagonalMatrix;
use dsa::structures::physical::singly_linked_list::SinglyLinkedList as PhysicalList;
use dsa::structures::singly_linked_list::SinglyLinkedList;

#[test]
fn create_empty_array() {
    let arr = Array::<i32>::new();
    assert_eq!(0, arr.cap);
    assert_eq!(0, arr.len);
}

#[test]
fn grow_array() {
    let mut arr = Array::<i32>::new();
    assert_eq!(0, arr.cap);
    assert_eq!(0, arr.len);
    arr.grow();
    assert_eq!(1, arr.cap);
    assert_eq!(0, arr.len);
    arr.grow();
    assert_eq!(2, arr.cap);
    assert_eq!(0, arr.len);
    arr.grow();
    assert_eq!(4, arr.cap);
    assert_eq!(0, arr.len);
}

#[test]
fn array_get() {
    let mut arr = Array::<i32>::new();
    arr.push(1);
    arr.push(3);
    arr.push(7);
    assert_eq!(&7, arr.get(2));
    assert_eq!(&1, arr.get(0));
    assert_eq!(&7, arr.get(2));
}

#[test]
fn array_set() {
    let mut arr = Array::<i32>::new();
    arr.push(1);
    arr.push(3);
    arr.push(7);
    arr.set(0, 9);
    assert_eq!(&9, arr.get(0));
    assert_eq!(&7, arr.get(2));
    arr.set(2, 11);
    assert_eq!(&11, arr.get(2));
}

#[test]
fn array_push() {
    let mut arr = Array::<i32>::new();
    arr.push(1);
    assert_eq!(1, arr.cap);
    assert_eq!(1, arr.len);
    arr.push(3);
    assert_eq!(2, arr.cap);
    assert_eq!(2, arr.len);
    arr.push(7);
    assert_eq!(4, arr.cap);
    assert_eq!(3, arr.len);
}

#[test]
fn array_pop() {
    let mut arr = Array::<i32>::new();
    assert_eq!(None, arr.pop());
    arr.push(1);
    assert_eq!(1, arr.cap);
    assert_eq!(1, arr.len);
    arr.push(3);
    assert_eq!(2, arr.cap);
    assert_eq!(2, arr.len);
    arr.push(7);
    assert_eq!(4, arr.cap);
    assert_eq!(3, arr.len);
    assert_eq!(Some(7), arr.pop());
    assert_eq!(4, arr.cap);
    assert_eq!(2, arr.len);
    assert_eq!(Some(3), arr.pop());
    assert_eq!(4, arr.cap);
    assert_eq!(1, arr.len);
    assert_eq!(Some(1), arr.pop());
    assert_eq!(None, arr.pop());
}

#[test]
fn array_insert() {
    let mut arr = Array::<i32>::new();
    arr.push(1);
    arr.push(3);
    arr.push(7);
    arr.insert(1, 9);
    assert_eq!(4, arr.cap);
    assert_eq!(4, arr.len);
    assert_eq!(9, *arr.get(1));
    assert_eq!(3, *arr.get(2));
}

#[test]
fn array_insert_tail() {
    let mut arr = Array::<i32>::new();
    arr.push(1);
    arr.push(3);
    arr.push(5);
    arr.push(7);
    arr.insert(arr.len, 9);
    assert_eq!(8, arr.cap);
    assert_eq!(5, arr.len);
    assert_eq!(9, *arr.get(arr.len - 1));
}

#[test]
fn array_remove() {
    let mut arr = Array::<i32>::new();
    arr.push(1);
    arr.push(3);
    arr.push(7);
    assert_eq!(3, arr.remove(1));
    assert_eq!(4, arr.cap);
    assert_eq!(2, arr.len);
    assert_eq!(7, *arr.get(1));
}

#[test]
fn array_remove_tail() {
    let mut arr = Array::<i32>::new();
    arr.push(1);
    arr.push(3);
    arr.push(7);
    assert_eq!(7, arr.remove(arr.len - 1));
    assert_eq!(4, arr.cap);
    assert_eq!(2, arr.len);
    assert_eq!(3, *arr.get(arr.len - 1));
}

#[test]
fn array_at_index() {
    let mut arr = Array::<i32>::new();
    arr.push(1);
    assert_eq!(1, arr.cap);
    assert_eq!(1, arr.len);
    assert_eq!(1, *arr.get(0));
}

#[test]
fn array_linear_search() {
    let mut arr = Array::<i32>::new();
    arr.push(1);
    arr.push(3);
    arr.push(5);
    arr.push(7);
    assert_eq!(Some(3), arr.linear_search(&7));
    assert_eq!(None, arr.linear_search(&9));
}

#[test]
fn array_binary_search() {
    let mut arr = Array::<i32>::new();
    arr.push(1);
    arr.push(3);
    arr.push(5);
    arr.push(7);
    arr.push(9);
    arr.push(11);
    arr.push(12);
    assert_eq!(Some(3), arr.binary_search(&7));
    assert_eq!(Some(1), arr.binary_search(&3));
    assert_eq!(Some(6), arr.binary_search(&12));
    assert_eq!(None, arr.binary_search(&13))
}

#[test]
fn array_push_sorted() {
    let mut arr = Array::<i32>::new();
    arr.push_sorted(1);
    arr.push_sorted(3);
    arr.push_sorted(5);
    arr.push_sorted(7);
    arr.push_sorted(9);
    arr.push_sorted(11);
    arr.push_sorted(12);
    assert_eq!(&7, arr.get(3));
    assert_eq!(&11, arr.get(5));
    arr.push_sorted(6);
    assert_eq!(&6, arr.get(3));
    assert_eq!(&7, arr.get(4));
    assert_eq!(&11, arr.get(6));
    arr.push_sorted(13);
    assert_eq!(&13, arr.get(arr.len - 1));
}

#[test]
fn array_is_sorted() {
    let mut arr = Array::<i32>::new();
    arr.push(1);
    arr.push(3);
    arr.push(7);
    assert!(arr.is_sorted());
    let mut unsorted_arr = Array::<i32>::new();
    unsorted_arr.push(1);
    unsorted_arr.push(7);
    unsorted_arr.push(3);
    assert!(!unsorted_arr.is_sorted());
}

#[test]
fn singly_linked_list_empty_linked_list() {
    let list: SinglyLinkedList<i32> = SinglyLinkedList::empty();
    assert_eq!(None, list.head);
    let list: PhysicalList<i32> = PhysicalList::empty();
    assert_eq!(None, list.head);
}

#[test]
fn singly_linked_list_linked_list_push_single() {
    let mut list: SinglyLinkedList<i32> = SinglyLinkedList::empty();
    list.push(3);
    assert!(list.head.is_some());
    assert!(list
        .head
        .is_some_and(|node| node.val == 3 && node.next.is_none()));
    let mut list: PhysicalList<i32> = PhysicalList::empty();
    list.push(3);
    assert!(list.head.is_some());
    assert!(list
        .head
        .is_some_and(|node| node.val == 3 && node.next.is_none()));
}

#[test]
fn singly_linked_list_linked_list_push_mutilple() {
    let mut list: SinglyLinkedList<i32> = SinglyLinkedList::empty();
    list.push(3);
    list.push(7);
    list.push(2);
    assert!(list.head.is_some());
    assert!(list.head.is_some_and(|node| node.val == 2
        && node.next.is_some_and(|next_node| next_node.val == 7
            && next_node
                .next
                .is_some_and(|tail| tail.val == 3 && tail.next.is_none()))));
    let mut list: PhysicalList<i32> = PhysicalList::empty();
    list.push(3);
    list.push(7);
    list.push(2);
    assert!(list.head.is_some_and(|node| node.val == 2
        && node.next.is_some_and(|next_node| next_node.val == 7
            && next_node
                .next
                .is_some_and(|tail| tail.val == 3 && tail.next.is_none()))));
}

#[test]
fn singly_linked_list_linked_list_pop_single() {
    let mut list: SinglyLinkedList<i32> = SinglyLinkedList::empty();
    list.push(3);
    assert!(list.head.is_some());
    let val = list.pop();
    assert_eq!(Some(3), val);
    assert!(list.head.is_none());
    let mut list: PhysicalList<i32> = PhysicalList::empty();
    list.push(3);
    assert!(list.head.is_some());
    let val = list.pop();
    assert_eq!(Some(3), val);
    assert!(list.head.is_none());
}

#[test]
fn singly_linked_list_linked_list_pop_multiple() {
    let mut list: SinglyLinkedList<i32> = SinglyLinkedList::empty();
    list.push(3);
    list.push(7);
    list.push(2);
    let val = list.pop();
    assert_eq!(Some(2), val);
    let val = list.pop();
    assert_eq!(Some(7), val);
    let val = list.pop();
    assert_eq!(Some(3), val);
    assert!(list.head.is_none());
    let mut list: PhysicalList<i32> = PhysicalList::empty();
    list.push(3);
    list.push(7);
    list.push(2);
    assert_eq!(Some(2), list.pop());
    assert_eq!(Some(7), list.pop());
    assert_eq!(Some(3), list.pop());
    assert!(list.head.is_none());
}

#[test]
fn singly_linked_list_linked_list_peek() {
    let mut list: SinglyLinkedList<i32> = SinglyLinkedList::empty();
    list.push(3);
    assert_eq!(Some(&3), list.peek());
    let mut list: PhysicalList<i32> = PhysicalList::empty();
    list.push(3);
    assert_eq!(Some(&3), list.peek());
}

#[test]
fn linked_list_peek_mut() {
    let mut list: PhysicalList<i32> = PhysicalList::empty();
    list.push(3);
    if let Some(val) = list.peek_mut() {
        *val = 7;
    }
    assert_eq!(Some(&7), list.peek());
}

#[test]
fn singly_linked_list_new() {
    let list = IterableList::<i32>::new();
    assert!(list.head.is_none());
}

#[test]
fn singly_linked_list_push() {
    let mut list = IterableList::<i32>::new();
    list.push(1);
    assert!(list.head.is_some());
    list.push(2);
    assert!(list.head.is_some());
}

#[test]
fn singly_linked_list_pop() {
    let mut list = IterableList::<i32>::new();
    list.push(1);
    list.push(2);
    assert_eq!(Some(2), list.pop());
    assert!(list.head.is_some());
    assert_eq!(Some(1), list.pop());
    assert!(list.head.is_none());
    assert_eq!(None, list.pop());
}

#[test]
fn singly_linked_list_peek() {
    let mut list = IterableList::<i32>::new();
    assert_eq!(None, list.peek());
    list.push(1);
    list.push(2);
    assert_eq!(Some(&2), list.peek());
    list.pop();
    list.pop();
    assert_eq!(None, list.peek());
}

#[test]
fn singly_linked_list_peek_mut() {
    let mut list = IterableList::<i32>::new();
    assert_eq!(None, list.peek());
    list.push(1);
    list.push(2);
    if let Some(v) = list.peek_mut() {
        *v = 7;
    }
    assert_eq!(Some(&7), list.peek());
}

#[test]
fn singly_linked_list_iter() {
    let mut list = IterableList::<i32>::new();
    list.push(1);
    list.push(2);
    list.push(3);
    let mut iter = list.iter();
    assert_eq!(Some(&3), iter.next());
    assert_eq!(Some(&2), iter.next());
    assert_eq!(Some(&1), iter.next());
    assert_eq!(None, iter.next());
}

#[test]
fn singly_linked_list_iter_mut() {
    let mut list = IterableList::<i32>::new();
    list.push(1);
    list.push(2);
    list.push(3);
    let mut iter = list.iter_mut();
    assert_eq!(Some(&mut 3), iter.next());
    assert_eq!(Some(&mut 2), iter.next());
    assert_eq!(Some(&mut 1), iter.next());
    assert_eq!(None, iter.next());
}

#[test]
fn singly_linked_list_reverse() {
    let mut list = IterableList::<i32>::new();
    list.push(1);
    list.push(2);
    list.push(3);
    list.reverse();
    assert_eq!(Some(1), list.pop());
    assert_eq!(Some(2), list.pop());
    assert_eq!(Some(3), list.pop());
    assert_eq!(None, list.pop());
}

#[test]
fn diagonal_matrix_get_set() {
    let mut m = DiagonalMatrix::new(3);
    assert_eq!(None, m.get(2, 2));
    m.set(2, 2, 5);
    assert_eq!(Some(5), m.get(2, 2));
    m.set(1, 2, 9);
    assert_eq!(None, m.get(1, 2));
}

#[test]
fn diagonal_matrix_render() {
    let mut m = DiagonalMatrix::new(3);
    m.set(1, 1, 7);
    m.set(2, 2, 13);
    m.set(3, 3, -5);
    assert_eq!("700\n0130\n00-5\n", m.render());
}
