use dsa::structures::logical::tree::binary_tree::LinkedBinaryTree;
use dsa::structures::logical::tree::binary_tree::LinkedBinaryTreeNode;

#[test]
fn linked_binary_tree_new() {
    let binary_tree = LinkedBinaryTree::<i32>::new();
    assert!(binary_tree.root.is_none());
}

#[test]
fn linked_binary_tree_is_full() {
    let mut binary_tree = LinkedBinaryTree::<i32>::new();
    binary_tree.root = Some(Box::new(LinkedBinaryTreeNode::new(1)));
    assert!(binary_tree.is_full());
    binary_tree.root.as_mut().unwrap().set_left(2);
    assert!(!binary_tree.is_full());
    binary_tree.root.as_mut().unwrap().set_right(3);
    assert!(binary_tree.is_full());
    binary_tree
        .root
        .as_mut()
        .unwrap()
        .left
        .as_mut()
        .unwrap()
        .set_right(4);
    assert!(!binary_tree.is_full());
}

#[test]
fn linked_binary_tree_is_complete() {
    let mut binary_tree = LinkedBinaryTree::<i32>::new();
    binary_tree.root = Some(Box::new(LinkedBinaryTreeNode::new(1)));
    binary_tree.root.as_mut().unwrap().set_left(2);
    assert!(binary_tree.is_complete());
    binary_tree.root.as_mut().unwrap().set_right(3);
    assert!(binary_tree.is_complete());
    binary_tree
        .root
        .as_mut()
        .unwrap()
        .left
        .as_mut()
        .unwrap()
        .set_right(4);
    assert!(!binary_tree.is_complete());
}

#[test]
fn linked_binary_tree_trav_pre_order() {
    let mut binary_tree = LinkedBinaryTree::<i32>::new();
    binary_tree.root = Some(Box::new(LinkedBinaryTreeNode::new(1)));
    binary_tree.root.as_mut().unwrap().set_left(2);
    binary_tree.root.as_mut().unwrap().set_right(3);
    binary_tree
        .root
        .as_mut()
        .unwrap()
        .left
        .as_mut()
        .unwrap()
        .set_right(4);
    let mut result = String::new();
    binary_tree.traverse_pre_order(&mut result);
    assert_eq!("1 2 4 3 ", result.as_str());
}

#[test]
fn linked_binary_tree_trav_in_order() {
    let mut binary_tree = LinkedBinaryTree::<i32>::new();
    binary_tree.root = Some(Box::new(LinkedBinaryTreeNode::new(1)));
    binary_tree.root.as_mut().unwrap().set_left(2);
    binary_tree.root.as_mut().unwrap().set_right(3);
    binary_tree
        .root
        .as_mut()
        .unwrap()
        .left
        .as_mut()
        .unwrap()
        .set_right(4);
    let mut result = String::new();
    binary_tree.traverse_in_order(&mut result);
    assert_eq!("2 4 1 3 ", result.as_str());
}

#[test]
fn linked_binary_tree_trav_post_order() {
    let mut binary_tree = LinkedBinaryTree::<i32>::new();
    binary_tree.root = Some(Box::new(LinkedBinaryTreeNode::new(1)));
    binary_tree.root.as_mut().unwrap().set_left(2);
    binary_tree.root.as_mut().unwrap().set_right(3);
    binary_tree
        .root
        .as_mut()
        .unwrap()
        .left
        .as_mut()
        .unwrap()
        .set_right(4);
    let mut result = String::new();
    binary_tree.traverse_post_order(&mut result);
    assert_eq!("4 2 3 1 ", result.as_str());
}

#[test]
fn linked_binary_tree_trav_level_order() {
    let mut binary_tree = LinkedBinaryTree::<i32>::new();
    binary_tree.root = Some(Box::new(LinkedBinaryTreeNode::new(1)));
    binary_tree.root.as_mut().unwrap().set_left(2);
    binary_tree.root.as_mut().unwrap().set_right(3);
    binary_tree
        .root
        .as_mut()
        .unwrap()
        .left
        .as_mut()
        .unwrap()
        .set_right(4);
    let mut result = String::new();
    binary_tree.traverse_level_order(&mut result);
    assert_eq!("1 2 3 4 ", result.as_str());
}

#[test]
fn linked_binary_tree_count() {
    let mut binary_tree = LinkedBinaryTree::<i32>::new();
    binary_tree.root = Some(Box::new(LinkedBinaryTreeNode::new(1)));
    binary_tree.root.as_mut().unwrap().set_left(2);
    binary_tree.root.as_mut().unwrap().set_right(3);
    binary_tree
        .root
        .as_mut()
        .unwrap()
        .left
        .as_mut()
        .unwrap()
        .set_right(4);
    assert_eq!(4, binary_tree.count());
}

#[test]
fn linked_binary_tree_node_count() {
    let mut node = LinkedBinaryTreeNode::new(1);
    node.set_left(2);
    node.set_right(3);
    assert_eq!(3, node.count());
}

#[test]
fn linked_binary_tree_negative_values_render() {
    let mut binary_tree = LinkedBinaryTree::<i32>::new();
    binary_tree.root = Some(Box::new(LinkedBinaryTreeNode::new(-12)));
    binary_tree.root.as_mut().unwrap().set_left(0);
    let mut result = String::new();
    binary_tree.traverse_pre_order(&mut result);
    assert_eq!("-12 0 ", result.as_str());
}
