use vstd::prelude::*;
use std::collections::HashSet;
use crate::listnode_lib::{ListNode, list_seq, node_vals, link_nodes};

verus! {

broadcast use vstd::std_specs::hash::group_hash_axioms;

/// Holds of the values that do not occur in `nums`.
pub open spec fn absent_from(nums: Seq<i32>) -> spec_fn(i32) -> bool {
    |x: i32| !nums.contains(x)
}

/// Deletes from a list the nodes whose values occur in an array.
pub struct Solution;

impl Solution {
    /// Removes every node whose value occurs in `nums`; the other nodes keep their order.
    pub fn modified_list(nums: Vec<i32>, head: Option<Box<ListNode>>) -> (list: Option<Box<ListNode>>)
        ensures
            list_seq(list) == list_seq(head).filter(absent_from(nums@)),
    {
        let mut present: HashSet<i32> = HashSet::new();
        for i in 0..nums.len()
            invariant
                present@ == nums@.take(i as int).to_set(),
        {
            present.insert(nums[i]);
            assert(nums@.take(i + 1) =~= nums@.take(i as int).push(nums[i as int]));
            proof { nums@.take(i as int).lemma_push_to_set_commute(nums[i as int]); }
        }
        assert(nums@.take(nums.len() as int) =~= nums@);
        let ghost s = list_seq(head);
        let ghost p = absent_from(nums@);
        let mut rest = head;
        let mut kept: Vec<Box<ListNode>> = Vec::new();
        let ghost mut k: int = 0;
        proof {
            assert(s.take(0) =~= Seq::<i32>::empty());
            assert(s.skip(0) =~= s);
        }
        while rest.is_some()
            invariant
                0 <= k <= s.len(),
                list_seq(rest) == s.skip(k),
                node_vals(kept@) == s.take(k).filter(p),
                p == absent_from(nums@),
                present@ == nums@.to_set(),
            decreases s.len() - k,
        {
            let ghost rs = list_seq(rest);
            let mut node = rest.unwrap();
            proof {
                assert(rs =~= seq![node.val] + list_seq(node.next));
                assert(rs[0] == s.skip(k)[0]);
            }
            rest = node.next.take();
            proof {
                assert(s.take(k + 1) =~= s.take(k).push(s[k]));
                s.take(k).lemma_filter_push(s[k], p);
                assert(s.skip(k + 1) =~= s.skip(k).drop_first());
            }
            if !present.contains(&node.val) {
                let ghost before = kept@;
                kept.push(node);
                assert(node_vals(kept@) =~= node_vals(before).push(s[k]));
            }
            proof {
                k = k + 1;
            }
        }
        assert(s.take(k) =~= s);
        link_nodes(kept)
    }
}

} // verus!
