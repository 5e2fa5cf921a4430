use vstd::prelude::*;
use crate::treenode_lib::TreeNode;

verus! {

/// Compares binary trees node by node.
pub struct Solution;

impl Solution {
    /// Whether the two trees have the same shape and the same value at every node.
    pub fn is_same_tree(p: Option<Box<TreeNode>>, q: Option<Box<TreeNode>>) -> (same: bool)
        ensures
            same == (p == q),
        decreases p,
    {
        if p.is_none() && q.is_none() {
            return true;
        }
        if p.is_none() || q.is_none() {
            return false;
        }
        let p = p.unwrap();
        let q = q.unwrap();
        let TreeNode { val: pv, left: pl, right: pr } = *p;
        let TreeNode { val: qv, left: ql, right: qr } = *q;
        pv == qv && Solution::is_same_tree(pl, ql) && Solution::is_same_tree(pr, qr)
    }

    /// Whether the two trees have the same shape and the same value at every node; both are
    /// first checked for emptiness, then compared by their roots and subtrees.
    pub fn is_same_tree_r2(p: Option<Box<TreeNode>>, q: Option<Box<TreeNode>>) -> (same: bool)
        ensures
            same == (p == q),
    {
        if p.is_none() && q.is_none() {
            return true;
        }
        if p.is_none() || q.is_none() {
            return false;
        }
        if let (Some(p), Some(q)) = (p, q) {
            let p = *p;
            let q = *q;
            p.val == q.val && Solution::is_same_tree(p.left, q.left) && Solution::is_same_tree(p.right, q.right)
        } else {
            false
        }
    }

    /// Whether the two trees have the same shape and the same value at every node, by one
    /// match on the pair of trees.
    pub fn is_same_tree_r1(p: Option<Box<TreeNode>>, q: Option<Box<TreeNode>>) -> (same: bool)
        ensures
            same == (p == q),
    {
        match (p, q) {
            (None, None) => true,
            (Some(p_node), Some(q_node)) => {
                let p_node = *p_node;
                let q_node = *q_node;
                p_node.val == q_node.val && Solution::is_same_tree(p_node.left, q_node.left)
                    && Solution::is_same_tree(p_node.right, q_node.right)
            },
            _ => false,
        }
    }
}

} // verus!
