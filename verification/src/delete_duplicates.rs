use vstd::prelude::*;
use crate::listnode_lib::{ListNode, list_seq, node_vals, link_nodes};

verus! {

/// `s` with every run of equal neighbouring values collapsed to its first value.
pub open spec fn collapse_runs(s: Seq<i32>) -> Seq<i32>
    decreases s.len(),
{
    if s.len() == 0 {
        s
    } else if s.len() >= 2 && s[s.len() - 1] == s[s.len() - 2] {
        collapse_runs(s.drop_last())
    } else {
        collapse_runs(s.drop_last()).push(s.last())
    }
}

/// No two neighbouring values of `s` are equal.
pub open spec fn no_adjacent_repeats(s: Seq<i32>) -> bool {
    forall|i: int| 0 <= i < s.len() - 1 ==> #[trigger] s[i] != s[i + 1]
}

/// The values of `s` strictly increase.
pub open spec fn is_strictly_increasing(s: Seq<i32>) -> bool {
    forall|i: int, j: int| 0 <= i < j < s.len() ==> s[i] < s[j]
}

proof fn lemma_collapse_runs_last(s: Seq<i32>)
    requires
        s.len() > 0,
    ensures
        collapse_runs(s).len() > 0,
        collapse_runs(s).last() == s.last(),
    decreases s.len(),
{
    if s.len() >= 2 && s[s.len() - 1] == s[s.len() - 2] {
        lemma_collapse_runs_last(s.drop_last());
    }
}

/// Every value of `collapse_runs(s)` is a value of `s`, and `s` is no shorter.
proof fn lemma_collapse_runs_values(s: Seq<i32>)
    ensures
        collapse_runs(s).len() <= s.len(),
        forall|i: int| 0 <= i < collapse_runs(s).len() ==> s.contains(#[trigger] collapse_runs(s)[i]),
    decreases s.len(),
{
    if s.len() > 0 {
        lemma_collapse_runs_values(s.drop_last());
        let r = collapse_runs(s);
        assert forall|i: int| 0 <= i < r.len() implies s.contains(#[trigger] r[i]) by {
            if i < collapse_runs(s.drop_last()).len() {
                let j = choose|j: int| 0 <= j < s.drop_last().len() && s.drop_last()[j] == collapse_runs(s.drop_last())[i];
                assert(s[j] == r[i]);
            } else {
                assert(s[s.len() - 1] == r[i]);
            }
        }
    }
}

/// Collapsing runs leaves no two equal neighbours.
pub proof fn lemma_collapse_runs_no_adjacent_repeats(s: Seq<i32>)
    ensures
        no_adjacent_repeats(collapse_runs(s)),
    decreases s.len(),
{
    if s.len() > 0 {
        lemma_collapse_runs_no_adjacent_repeats(s.drop_last());
        if !(s.len() >= 2 && s[s.len() - 1] == s[s.len() - 2]) && s.len() >= 2 {
            lemma_collapse_runs_last(s.drop_last());
        }
    }
}

/// Collapsing the runs of a sorted sequence leaves a strictly increasing sequence with the
/// same values.
pub proof fn lemma_collapse_runs_of_sorted(s: Seq<i32>)
    requires
        forall|i: int, j: int| 0 <= i < j < s.len() ==> s[i] <= s[j],
    ensures
        is_strictly_increasing(collapse_runs(s)),
        collapse_runs(s).to_set() == s.to_set(),
    decreases s.len(),
{
    if s.len() > 0 {
        let t = s.drop_last();
        lemma_collapse_runs_of_sorted(t);
        lemma_collapse_runs_values(t);
        let r = collapse_runs(s);
        if s.len() >= 2 && s[s.len() - 1] == s[s.len() - 2] {
            assert(s =~= t.push(s.last()));
            t.lemma_push_to_set_commute(s.last());
            assert(t.contains(s.last()));
            assert(t.to_set().insert(s.last()) =~= t.to_set());
        } else {
            assert(s =~= t.push(s.last()));
            t.lemma_push_to_set_commute(s.last());
            collapse_runs(t).lemma_push_to_set_commute(s.last());
            assert forall|i: int, j: int| 0 <= i < j < r.len() implies r[i] < r[j] by {
                if j == r.len() - 1 && i < collapse_runs(t).len() {
                    let k = choose|k: int| 0 <= k < t.len() && t[k] == collapse_runs(t)[i];
                    assert(s[k] <= s[s.len() - 1]);
                    if s.len() >= 2 {
                        assert(s[k] <= s[s.len() - 2]);
                    }
                }
            }
        }
    }
}

/// Collapsing runs a second time changes nothing.
pub proof fn lemma_collapse_runs_idempotent(s: Seq<i32>)
    ensures
        collapse_runs(collapse_runs(s)) == collapse_runs(s),
{
    lemma_collapse_runs_no_adjacent_repeats(s);
    lemma_no_repeats_unchanged(collapse_runs(s));
}

proof fn lemma_no_repeats_unchanged(s: Seq<i32>)
    requires
        no_adjacent_repeats(s),
    ensures
        collapse_runs(s) == s,
    decreases s.len(),
{
    if s.len() > 0 {
        lemma_no_repeats_unchanged(s.drop_last());
        if s.len() >= 2 {
            assert(s[s.len() - 2] != s[s.len() - 1]);
        }
        assert(s.drop_last().push(s.last()) =~= s);
    }
}

/// Removes the repeated values of a sorted list.
pub struct Solution;

impl Solution {
    /// Keeps the first node of each run of equal neighbouring values and removes the others.
    /// A sorted list becomes strictly increasing with the same values.
    pub fn delete_duplicates(head: Option<Box<ListNode>>) -> (list: Option<Box<ListNode>>)
        ensures
            list_seq(list) == collapse_runs(list_seq(head)),
    {
        let ghost s = list_seq(head);
        let mut rest = head;
        let mut kept: Vec<Box<ListNode>> = Vec::new();
        let mut prev: Option<i32> = None;
        let ghost mut k: int = 0;
        proof {
            assert(s.take(0) =~= Seq::<i32>::empty());
            assert(s.skip(0) =~= s);
        }
        while rest.is_some()
            invariant
                0 <= k <= s.len(),
                list_seq(rest) == s.skip(k),
                node_vals(kept@) == collapse_runs(s.take(k)),
                k == 0 <==> prev is None,
                k > 0 ==> prev == Some(s[k - 1]),
            decreases s.len() - k,
        {
            let ghost rs = list_seq(rest);
            let mut node = rest.unwrap();
            proof {
                assert(rs =~= seq![node.val] + list_seq(node.next));
                assert(rs[0] == s.skip(k)[0]);
                assert(s.take(k + 1).drop_last() =~= s.take(k));
                assert(s.skip(k + 1) =~= s.skip(k).drop_first());
            }
            rest = node.next.take();
            let v = node.val;
            let repeated = match prev {
                Some(p) => p == v,
                None => false,
            };
            if !repeated {
                let ghost before = kept@;
                kept.push(node);
                assert(node_vals(kept@) =~= node_vals(before).push(v));
            }
            prev = Some(v);
            proof {
                k = k + 1;
            }
        }
        assert(s.take(k) =~= s);
        link_nodes(kept)
    }
}

} // verus!
