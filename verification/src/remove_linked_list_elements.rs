use vstd::prelude::*;
use crate::listnode_lib::{ListNode, list_seq, node_vals, link_nodes};

verus! {

/// Holds of the values that differ from `val`.
pub open spec fn differs_from(val: i32) -> spec_fn(i32) -> bool {
    |x: i32| x != val
}

/// The values of `s` other than `val`, in order.
pub open spec fn without_value(s: Seq<i32>, val: i32) -> Seq<i32> {
    s.filter(differs_from(val))
}

/// Removing a value twice removes no more than removing it once.
pub proof fn lemma_without_value_idempotent(s: Seq<i32>, val: i32)
    ensures
        without_value(without_value(s, val), val) == without_value(s, val),
{
    let p = differs_from(val);
    let f = s.filter(p);
    assert forall|i: int| 0 <= i < f.len() implies p(#[trigger] f[i]) by {
        s.lemma_filter_pred(p, i);
    }
    lemma_filter_keeps_all(f, p);
}

/// Filtering keeps a sequence whose values all pass.
pub proof fn lemma_filter_keeps_all(s: Seq<i32>, p: spec_fn(i32) -> bool)
    requires
        forall|i: int| 0 <= i < s.len() ==> p(#[trigger] s[i]),
    ensures
        s.filter(p) == s,
    decreases s.len(),
{
    if s.len() > 0 {
        lemma_filter_keeps_all(s.drop_last(), p);
        s.drop_last().lemma_filter_push(s.last(), p);
        assert(s.drop_last().push(s.last()) =~= s);
    }
}

/// Removes the nodes holding a given value from a list.
pub struct Solution;

impl Solution {
    /// Removes every node whose value is `val`; the other nodes keep their order.
    pub fn remove_elements(head: Option<Box<ListNode>>, val: i32) -> (list: Option<Box<ListNode>>)
        ensures
            list_seq(list) == without_value(list_seq(head), val),
    {
        let ghost s = list_seq(head);
        let ghost p = differs_from(val);
        let mut rest = head;
        let mut kept: Vec<Box<ListNode>> = Vec::new();
        let ghost mut k: int = 0;
        proof {
            assert(s.take(0) =~= Seq::<i32>::empty());
            assert(s.skip(0) =~= s);
        }
        while rest.is_some()
            invariant
                0 <= k <= s.len(),
                list_seq(rest) == s.skip(k),
                node_vals(kept@) == s.take(k).filter(p),
                p == differs_from(val),
            decreases s.len() - k,
        {
            let ghost rs = list_seq(rest);
            let mut node = rest.unwrap();
            proof {
                assert(rs =~= seq![node.val] + list_seq(node.next));
                assert(rs[0] == s.skip(k)[0]);
            }
            rest = node.next.take();
            proof {
                assert(s.take(k + 1) =~= s.take(k).push(s[k]));
                s.take(k).lemma_filter_push(s[k], p);
                assert(s.skip(k + 1) =~= s.skip(k).drop_first());
            }
            if node.val != val {
                let ghost before = kept@;
                kept.push(node);
                assert(node_vals(kept@) =~= node_vals(before).push(s[k]));
            }
            proof {
                k = k + 1;
            }
        }
        assert(s.take(k) =~= s);
        link_nodes(kept)
    }
}

} // verus!
