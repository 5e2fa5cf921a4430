use vstd::prelude::*;
use crate::treenode_lib::{TreeNode, mirror, postorder, preorder, law_mirror_reverses_traversal};

verus! {

/// Mirrors binary trees.
pub struct Solution;

impl Solution {
    /// Swaps the left and right child of every node; inverting twice gives back the tree.
    pub fn invert_tree(root: Option<Box<TreeNode>>) -> (inverted: Option<Box<TreeNode>>)
        ensures
            inverted == mirror(root),
            postorder(inverted) == preorder(root).reverse(),
        decreases root,
    {
        proof {
            law_mirror_reverses_traversal(root);
        }
        match root {
            Some(node) => {
                let TreeNode { val, left, right } = *node;
                let new_left = Solution::invert_tree(right);
                let new_right = Solution::invert_tree(left);
                Some(Box::new(TreeNode { val, left: new_left, right: new_right }))
            },
            None => None,
        }
    }
}

} // verus!
