use vstd::prelude::*;
use crate::listnode_lib::{ListNode, list_seq, node_vals, link_nodes_onto};
use crate::merge_two_lists::merge_seq;

verus! {

/// Merges two lists by moving their nodes, so no value is copied.
pub struct Solution {}

impl Solution {
    /// Merges two lists by repeatedly detaching the head node with the smaller value; on equal
    /// values the node of `list2` comes first. The nodes of the longer list that remain are
    /// kept as they are at the end.
    pub fn merge_two_lists(list1: Option<Box<ListNode>>, list2: Option<Box<ListNode>>) -> (merged: Option<Box<ListNode>>)
        ensures
            list_seq(merged) == merge_seq(list_seq(list1), list_seq(list2)),
    {
        let ghost total = merge_seq(list_seq(list1), list_seq(list2));
        let mut list1 = list1;
        let mut list2 = list2;
        let mut taken: Vec<Box<ListNode>> = Vec::new();
        while list1.is_some() && list2.is_some()
            invariant
                node_vals(taken@) + merge_seq(list_seq(list1), list_seq(list2)) == total,
            decreases list_seq(list1).len() + list_seq(list2).len(),
        {
            let ghost before = taken@;
            let ghost s1 = list_seq(list1);
            let ghost s2 = list_seq(list2);
            if list1.as_ref().unwrap().val < list2.as_ref().unwrap().val {
                let mut node = list1.unwrap();
                list1 = node.next.take();
                let ghost v = node.val;
                taken.push(node);
                assert(s1.drop_first() == list_seq(list1));
                assert(node_vals(taken@) =~= node_vals(before).push(v));
                assert(node_vals(taken@) + merge_seq(list_seq(list1), list_seq(list2))
                    =~= node_vals(before) + (seq![v] + merge_seq(s1.drop_first(), s2)));
            } else {
                let mut node = list2.unwrap();
                list2 = node.next.take();
                let ghost v = node.val;
                taken.push(node);
                assert(s2.drop_first() == list_seq(list2));
                assert(node_vals(taken@) =~= node_vals(before).push(v));
                assert(node_vals(taken@) + merge_seq(list_seq(list1), list_seq(list2))
                    =~= node_vals(before) + (seq![v] + merge_seq(s1, s2.drop_first())));
            }
        }
        let rest = if list1.is_none() { list2 } else { list1 };
        link_nodes_onto(taken, rest)
    }
}

} // verus!
