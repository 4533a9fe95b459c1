//! The binary-tree node model.
//!
//! A node owns its children outright (`Option<Box<TreeNode>>`); a tree is
//! owned by its root, and the duplicate report holds deep clones of the
//! reported subtrees, so the report outlives the tree it was drawn from.

use vstd::prelude::*;

verus! {

/// One vertex of a binary tree: a value and two optional children.
#[derive(Debug, PartialEq, Eq)]
pub struct TreeNode {
    pub val: u64,
    pub left: Option<Box<TreeNode>>,
    pub right: Option<Box<TreeNode>>,
}

/// An optional child, unboxed: `Some(*b)` for a present child, `None` for an
/// absent one.  Contracts use it to speak about children without mentioning
/// the box.
pub open spec fn opt_tree(o: Option<Box<TreeNode>>) -> Option<TreeNode> {
    match o {
        Option::Some(b) => Option::Some(*b),
        Option::None => Option::None,
    }
}

impl TreeNode {
    /// Create a leaf node holding `val`.
    pub fn new(val: u64) -> (r: Self)
        ensures
            r.val == val,
            r.left is None,
            r.right is None,
    {
        TreeNode { val, left: Option::None, right: Option::None }
    }

    /// Replace the left child, leaving the value and the right child alone.
    pub fn set_left(&mut self, new_left: Option<TreeNode>)
        ensures
            final(self).val == old(self).val,
            final(self).right == old(self).right,
            opt_tree(final(self).left) == new_left,
    {
        self.left = match new_left {
            Option::Some(t) => Option::Some(Box::new(t)),
            Option::None => Option::None,
        };
    }

    /// Replace the right child, leaving the value and the left child alone.
    pub fn set_right(&mut self, new_right: Option<TreeNode>)
        ensures
            final(self).val == old(self).val,
            final(self).left == old(self).left,
            opt_tree(final(self).right) == new_right,
    {
        self.right = match new_right {
            Option::Some(t) => Option::Some(Box::new(t)),
            Option::None => Option::None,
        };
    }
}

/// Every subtree of the optional tree `o`, in post-order; empty when absent.
pub open spec fn subtrees_opt(o: Option<Box<TreeNode>>) -> Seq<TreeNode>
    decreases o,
{
    match o {
        Option::None => Seq::empty(),
        Option::Some(t) => subtrees(*t),
    }
}

/// Every subtree rooted at or below `t`, in post-order: left's subtrees,
/// then right's, then `t` itself.  This is the order in which the traversal
/// classifies subtrees.
pub open spec fn subtrees(t: TreeNode) -> Seq<TreeNode>
    decreases t,
{
    subtrees_opt(t.left) + subtrees_opt(t.right) + seq![t]
}

/// The number of nodes of the subtree rooted at `t`.
pub open spec fn tree_size(t: TreeNode) -> nat {
    subtrees(t).len()
}

impl Clone for TreeNode {
    /// A deep copy, equal to the original.
    fn clone(&self) -> (res: Self)
        ensures
            res == *self,
        decreases *self,
    {
        let res = TreeNode {
            val: self.val,
            left: (match &self.left {
                Option::Some(node) => Option::Some(Box::new((&**node).clone())),
                Option::None => Option::None,
            }),
            right: (match &self.right {
                Option::Some(node) => Option::Some(Box::new((&**node).clone())),
                Option::None => Option::None,
            }),
        };
        res
    }
}

} // verus!
