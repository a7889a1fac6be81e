//! A binary tree of owned linked nodes, with the classic structural tests
//! (full, complete) and the four traversals: pre-order, in-order,
//! post-order and level-order, each rendering the values as text.

use vstd::prelude::*;

use crate::decimal::dec_str;

verus! {

/// A node of the binary tree: one value and up to two children.
pub struct LinkedBinaryTreeNode<T> {
    pub val: T,
    pub left: Option<Box<LinkedBinaryTreeNode<T>>>,
    pub right: Option<Box<LinkedBinaryTreeNode<T>>>,
}

/// A binary tree: just its root, if any.
pub struct LinkedBinaryTree<T> {
    pub root: Option<Box<LinkedBinaryTreeNode<T>>>,
}

/// How many nodes hang from this link.
pub open spec fn subtree_size<T>(n: Option<Box<LinkedBinaryTreeNode<T>>>) -> nat
    decreases n,
{
    match n {
        Option::None => 0,
        Option::Some(node) => 1 + subtree_size(node.left) + subtree_size(node.right),
    }
}

/// How many nodes this node's subtree holds, itself included.
pub open spec fn node_size<T>(n: LinkedBinaryTreeNode<T>) -> nat {
    1 + subtree_size(n.left) + subtree_size(n.right)
}

/// Full at the node level: every node has either two children or none.
pub open spec fn node_full<T>(n: LinkedBinaryTreeNode<T>) -> bool
    decreases n,
{
    match (n.left, n.right) {
        (Option::Some(left), Option::Some(right)) => node_full(*left) && node_full(*right),
        (Option::None, Option::None) => true,
        _ => false,
    }
}

/// Complete at the node level: a right child never comes without a left
/// one, recursively.
pub open spec fn node_complete<T>(n: LinkedBinaryTreeNode<T>) -> bool
    decreases n,
{
    match (n.left, n.right) {
        (Option::Some(left), Option::Some(right)) => node_complete(*left) && node_complete(
            *right,
        ),
        (Option::None, Option::Some(_)) => false,
        _ => true,
    }
}

/// A rendered value followed by one space.
pub open spec fn val_text(v: i32) -> Seq<char> {
    dec_str(v as int) + seq![' ']
}

/// The pre-order text of a subtree: the node, its left subtree, its right
/// subtree.
pub open spec fn pre_text(n: Option<Box<LinkedBinaryTreeNode<i32>>>) -> Seq<char>
    decreases n,
{
    match n {
        Option::None => Seq::empty(),
        Option::Some(node) => val_text(node.val) + pre_text(node.left) + pre_text(node.right),
    }
}

/// The in-order text of a subtree: its left subtree, the node, its right
/// subtree.
pub open spec fn in_text(n: Option<Box<LinkedBinaryTreeNode<i32>>>) -> Seq<char>
    decreases n,
{
    match n {
        Option::None => Seq::empty(),
        Option::Some(node) => in_text(node.left) + val_text(node.val) + in_text(node.right),
    }
}

/// The post-order text of a subtree: its left subtree, its right subtree,
/// the node.
pub open spec fn post_text(n: Option<Box<LinkedBinaryTreeNode<i32>>>) -> Seq<char>
    decreases n,
{
    match n {
        Option::None => Seq::empty(),
        Option::Some(node) => post_text(node.left) + post_text(node.right) + val_text(node.val),
    }
}

/// The children of a node that are present, left before right.
pub open spec fn kids(n: LinkedBinaryTreeNode<i32>) -> Seq<LinkedBinaryTreeNode<i32>> {
    (match n.left {
        Option::Some(left) => seq![*left],
        Option::None => Seq::empty(),
    }) + (match n.right {
        Option::Some(right) => seq![*right],
        Option::None => Seq::empty(),
    })
}

/// The text a breadth-first visit emits at a node: its present children's
/// values, left before right.
pub open spec fn kids_text(n: LinkedBinaryTreeNode<i32>) -> Seq<char> {
    (match n.left {
        Option::Some(left) => val_text(left.val),
        Option::None => Seq::empty(),
    }) + (match n.right {
        Option::Some(right) => val_text(right.val),
        Option::None => Seq::empty(),
    })
}

/// The total node count of a frontier of subtrees.
pub open spec fn queue_size(q: Seq<LinkedBinaryTreeNode<i32>>) -> nat
    decreases q.len(),
{
    if q.len() == 0 {
        0
    } else {
        node_size(q[0]) + queue_size(q.drop_first())
    }
}

proof fn lemma_queue_size_concat(a: Seq<LinkedBinaryTreeNode<i32>>, b: Seq<
    LinkedBinaryTreeNode<i32>,
>)
    ensures
        queue_size(a + b) == queue_size(a) + queue_size(b),
    decreases a.len(),
{
    if a.len() == 0 {
        assert(a + b =~= b);
    } else {
        assert((a + b).drop_first() =~= a.drop_first() + b);
        assert((a + b)[0] == a[0]);
        lemma_queue_size_concat(a.drop_first(), b);
    }
}

proof fn lemma_queue_size_single(x: LinkedBinaryTreeNode<i32>)
    ensures
        queue_size(seq![x]) == node_size(x),
{
    assert(seq![x].drop_first() =~= Seq::<LinkedBinaryTreeNode<i32>>::empty());
    assert(queue_size(seq![x].drop_first()) == 0);
}

proof fn lemma_kids_size(n: LinkedBinaryTreeNode<i32>)
    ensures
        queue_size(kids(n)) + 1 == node_size(n),
{
    match (n.left, n.right) {
        (Option::Some(left), Option::Some(right)) => {
            assert(kids(n) =~= seq![*left] + seq![*right]);
            lemma_queue_size_concat(seq![*left], seq![*right]);
            lemma_queue_size_single(*left);
            lemma_queue_size_single(*right);
        }
        (Option::Some(left), Option::None) => {
            assert(kids(n) =~= seq![*left]);
            lemma_queue_size_single(*left);
        }
        (Option::None, Option::Some(right)) => {
            assert(kids(n) =~= seq![*right]);
            lemma_queue_size_single(*right);
        }
        (Option::None, Option::None) => {
            assert(kids(n) =~= Seq::<LinkedBinaryTreeNode<i32>>::empty());
            assert(queue_size(kids(n)) == 0);
        }
    }
}

/// The text a breadth-first visit emits from a frontier of subtrees
/// onward.
pub open spec fn bfs_text(q: Seq<LinkedBinaryTreeNode<i32>>) -> Seq<char>
    decreases queue_size(q),
    via bfs_text_decreases
{
    if q.len() == 0 {
        Seq::empty()
    } else {
        kids_text(q[0]) + bfs_text(q.drop_first() + kids(q[0]))
    }
}

#[via_fn]
proof fn bfs_text_decreases(q: Seq<LinkedBinaryTreeNode<i32>>) {
    if q.len() > 0 {
        lemma_queue_size_concat(q.drop_first(), kids(q[0]));
        lemma_kids_size(q[0]);
    }
}

/// The level-order text of a tree: the root's value, followed by each
/// visited node's children, level by level.
pub open spec fn level_order_text(t: &LinkedBinaryTree<i32>) -> Seq<char> {
    match t.root {
        Option::None => Seq::empty(),
        Option::Some(root) => val_text(root.val) + bfs_text(seq![*root]),
    }
}

/// The nodes an iteration frontier of references stands for.
pub open spec fn deref_queue(q: Seq<&LinkedBinaryTreeNode<i32>>) -> Seq<
    LinkedBinaryTreeNode<i32>,
> {
    Seq::new(q.len(), |i: int| *q[i])
}

impl<T> LinkedBinaryTree<T> {
    /// A tree with no nodes.
    pub fn new() -> (r: Self)
        ensures
            r.root is None,
    {
        Self { root: None }
    }

    /// How many nodes the tree holds.
    pub fn count(&self) -> (r: usize)
        requires
            subtree_size(self.root) <= usize::MAX,
        ensures
            r == subtree_size(self.root),
    {
        match &self.root {
            Some(root) => root.count(),
            None => 0,
        }
    }

    /// Whether every node has either two children or none; a tree with no
    /// root does not count as full.
    pub fn is_full(&self) -> (r: bool)
        ensures
            r == match self.root {
                Option::Some(root) => node_full(*root),
                Option::None => false,
            },
    {
        match &self.root {
            Some(root) => root.is_full(),
            None => false,
        }
    }

    /// Whether no right child comes without a left one; a tree with no
    /// root does not count as complete.
    pub fn is_complete(&self) -> (r: bool)
        ensures
            r == match self.root {
                Option::Some(root) => node_complete(*root),
                Option::None => false,
            },
    {
        match &self.root {
            Some(root) => root.is_complete(),
            None => false,
        }
    }
}

impl<T> LinkedBinaryTreeNode<T> {
    /// A leaf holding `val`.
    pub fn new(val: T) -> (r: Self)
        ensures
            r.val == val,
            r.left is None,
            r.right is None,
    {
        Self { val, left: None, right: None }
    }

    /// How many nodes this subtree holds, this node included.
    pub fn count(&self) -> (r: usize)
        requires
            node_size(*self) <= usize::MAX,
        ensures
            r == node_size(*self),
        decreases *self,
    {
        let left_count = match &self.left {
            Some(left) => left.count(),
            None => 0,
        };

        let right_count = match &self.right {
            Some(right) => right.count(),
            None => 0,
        };

        left_count + right_count + 1
    }

    /// Hangs a new leaf holding `val` as the left child.
    pub fn set_left(&mut self, val: T)
        ensures
            final(self).val == old(self).val,
            final(self).right == old(self).right,
            final(self).left matches Some(l) && l.val == val && l.left is None && l.right is None,
    {
        self.left = Some(Box::new(LinkedBinaryTreeNode::new(val)));
    }

    /// Hangs a new leaf holding `val` as the right child.
    pub fn set_right(&mut self, val: T)
        ensures
            final(self).val == old(self).val,
            final(self).left == old(self).left,
            final(self).right matches Some(r) && r.val == val && r.left is None && r.right is None,
    {
        self.right = Some(Box::new(LinkedBinaryTreeNode::new(val)));
    }

    /// Whether every node of this subtree has either two children or none.
    pub fn is_full(&self) -> (r: bool)
        ensures
            r == node_full(*self),
        decreases *self,
    {
        match (&self.left, &self.right) {
            (Some(left), Some(right)) => left.is_full() && right.is_full(),
            (None, None) => true,
            _ => false,
        }
    }

    /// Whether no right child of this subtree comes without a left one.
    pub fn is_complete(&self) -> (r: bool)
        ensures
            r == node_complete(*self),
        decreases *self,
    {
        match (&self.left, &self.right) {
            (Some(left), Some(right)) => left.is_complete() && right.is_complete(),
            (None, Some(_)) => false,
            _ => true,
        }
    }
}

/// Appends one rendered value and a space.
fn append_val(result_recip: &mut String, val: i32)
    ensures
        final(result_recip)@ == old(result_recip)@ + val_text(val),
{
    let rendered = crate::decimal::i32_to_string(val);
    result_recip.append(rendered.as_str());
    proof {
        reveal_strlit(" ");
    }
    result_recip.append(" ");
    proof {
        assert(final(result_recip)@ =~= old(result_recip)@ + val_text(val));
    }
}

impl LinkedBinaryTreeNode<i32> {
    /// Writes this subtree pre-order: the node, then its left subtree,
    /// then its right one.
    pub fn traverse_pre_order(&self, result_recip: &mut String)
        ensures
            final(result_recip)@ == old(result_recip)@ + val_text(self.val) + pre_text(self.left)
                + pre_text(self.right),
        decreases *self,
    {
        append_val(result_recip, self.val);
        if let Some(left) = &self.left {
            left.traverse_pre_order(result_recip);
        }
        if let Some(right) = &self.right {
            right.traverse_pre_order(result_recip);
        }
    }

    /// Writes this subtree in-order: its left subtree, then the node, then
    /// its right subtree.
    pub fn traverse_in_order(&self, result_recip: &mut String)
        ensures
            final(result_recip)@ == old(result_recip)@ + in_text(self.left) + val_text(self.val)
                + in_text(self.right),
        decreases *self,
    {
        if let Some(left) = &self.left {
            left.traverse_in_order(result_recip);
        }
        append_val(result_recip, self.val);
        if let Some(right) = &self.right {
            right.traverse_in_order(result_recip);
        }
    }

    /// Writes this subtree post-order: its left subtree, then its right
    /// one, then the node.
    pub fn traverse_post_order(&self, result_recip: &mut String)
        ensures
            final(result_recip)@ == old(result_recip)@ + post_text(self.left) + post_text(
                self.right,
            ) + val_text(self.val),
        decreases *self,
    {
        if let Some(left) = &self.left {
            left.traverse_post_order(result_recip);
        }
        if let Some(right) = &self.right {
            right.traverse_post_order(result_recip);
        }
        append_val(result_recip, self.val);
    }
}

impl LinkedBinaryTree<i32> {
    /// Writes the whole tree pre-order.
    pub fn traverse_pre_order(&self, result_recip: &mut String)
        ensures
            final(result_recip)@ == old(result_recip)@ + pre_text(self.root),
    {
        if let Some(root) = &self.root {
            root.traverse_pre_order(result_recip);
        }
    }

    /// Writes the whole tree in-order.
    pub fn traverse_in_order(&self, result_recip: &mut String)
        ensures
            final(result_recip)@ == old(result_recip)@ + in_text(self.root),
    {
        if let Some(root) = &self.root {
            root.traverse_in_order(result_recip);
        }
    }

    /// Writes the whole tree post-order.
    pub fn traverse_post_order(&self, result_recip: &mut String)
        ensures
            final(result_recip)@ == old(result_recip)@ + post_text(self.root),
    {
        if let Some(root) = &self.root {
            root.traverse_post_order(result_recip);
        }
    }

    /// Writes the tree level by level: the root first, followed by each
    /// visited node's children, left before right.
    pub fn traverse_level_order(&self, result_recip: &mut String)
        ensures
            final(result_recip)@ == old(result_recip)@ + level_order_text(self),
    {
        let ghost target: Seq<char> = old(result_recip)@ + level_order_text(self);
        if let Some(root) = &self.root {
            append_val(result_recip, root.val);
            let mut queue: Vec<&LinkedBinaryTreeNode<i32>> = Vec::new();
            queue.push(&**root);
            proof {
                assert(deref_queue(queue@) =~= seq![**root]);
            }
            while queue.len() > 0
                invariant
                    target =~= result_recip@ + bfs_text(deref_queue(queue@)),
                decreases queue_size(deref_queue(queue@)),
            {
                let ghost q_before = deref_queue(queue@);
                let node = queue.remove(0);
                proof {
                    assert(deref_queue(queue@) =~= q_before.drop_first());
                }
                let ghost mid_queue = deref_queue(queue@);
                if let Some(left) = &node.left {
                    append_val(result_recip, left.val);
                    queue.push(&**left);
                }
                if let Some(right) = &node.right {
                    append_val(result_recip, right.val);
                    queue.push(&**right);
                }
                proof {
                    assert(deref_queue(queue@) =~= mid_queue + kids(q_before[0]));
                    assert(bfs_text(q_before) == kids_text(q_before[0]) + bfs_text(
                        q_before.drop_first() + kids(q_before[0]),
                    ));
                    assert(target =~= result_recip@ + bfs_text(deref_queue(queue@)));
                    lemma_queue_size_concat(q_before.drop_first(), kids(q_before[0]));
                    lemma_kids_size(q_before[0]);
                }
            }
        }
    }
}

} // verus!
