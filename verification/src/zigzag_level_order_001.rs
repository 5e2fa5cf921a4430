use vstd::prelude::*;
pub use crate::treenode_lib::TreeNode;
use crate::zigzag_level_order::{tree_levels, zigzag};

verus! {

/// Reads binary trees level by level in alternating directions.
pub struct Solution;

impl Solution {
    /// The values of each level of the tree, the first level read left to right, the next
    /// right to left, and so on; no levels for the empty tree.
    pub fn zigzag_level_order(root: Option<Box<TreeNode>>) -> (levels: Vec<Vec<i32>>)
        ensures
            levels@.len() == tree_levels(root).len(),
            forall|i: int| 0 <= i < levels@.len() ==> #[trigger] levels@[i]@ == zigzag(tree_levels(root))[i],
    {
        crate::zigzag_level_order::Solution::zigzag_level_order(root)
    }
}

} // verus!
