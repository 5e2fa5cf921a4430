use vstd::prelude::*;
use vstd::seq_lib::lemma_multiset_commutative;
use crate::listnode_lib::{ListNode, list_seq, into_values, to_list};

verus! {

/// Merges `a` and `b` by repeatedly taking the smaller head; on equal heads the head of `b`
/// goes first; once one side is empty the rest of the other follows.
pub open spec fn merge_seq(a: Seq<i32>, b: Seq<i32>) -> Seq<i32>
    decreases a.len() + b.len(),
{
    if a.len() == 0 {
        b
    } else if b.len() == 0 {
        a
    } else if a[0] < b[0] {
        seq![a[0]] + merge_seq(a.drop_first(), b)
    } else {
        seq![b[0]] + merge_seq(a, b.drop_first())
    }
}

/// The values of `s` never decrease.
pub open spec fn is_sorted(s: Seq<i32>) -> bool {
    forall|i: int, j: int| 0 <= i < j < s.len() ==> s[i] <= s[j]
}

/// Merging keeps every value of both inputs, each as many times as it occurs.
pub proof fn lemma_merge_is_permutation(a: Seq<i32>, b: Seq<i32>)
    ensures
        merge_seq(a, b).to_multiset() == a.to_multiset().add(b.to_multiset()),
    decreases a.len() + b.len(),
{
    broadcast use vstd::multiset::group_multiset_axioms;

    if a.len() == 0 {
        lemma_multiset_commutative(a, b);
        assert(a + b =~= b);
    } else if b.len() == 0 {
        lemma_multiset_commutative(a, b);
        assert(a + b =~= a);
    } else if a[0] < b[0] {
        lemma_merge_is_permutation(a.drop_first(), b);
        lemma_multiset_commutative(seq![a[0]], merge_seq(a.drop_first(), b));
        lemma_multiset_commutative(seq![a[0]], a.drop_first());
        assert(seq![a[0]] + a.drop_first() =~= a);
        assert(a.to_multiset().add(b.to_multiset()) =~= seq![a[0]].to_multiset().add(
            a.drop_first().to_multiset().add(b.to_multiset()),
        ));
    } else {
        lemma_merge_is_permutation(a, b.drop_first());
        lemma_multiset_commutative(seq![b[0]], merge_seq(a, b.drop_first()));
        lemma_multiset_commutative(seq![b[0]], b.drop_first());
        assert(seq![b[0]] + b.drop_first() =~= b);
        assert(a.to_multiset().add(b.to_multiset()) =~= seq![b[0]].to_multiset().add(
            a.to_multiset().add(b.drop_first().to_multiset()),
        ));
    }
}

proof fn lemma_merge_lower_bound(a: Seq<i32>, b: Seq<i32>, x: i32)
    requires
        forall|i: int| 0 <= i < a.len() ==> x <= #[trigger] a[i],
        forall|i: int| 0 <= i < b.len() ==> x <= #[trigger] b[i],
    ensures
        forall|i: int| 0 <= i < merge_seq(a, b).len() ==> x <= #[trigger] merge_seq(a, b)[i],
    decreases a.len() + b.len(),
{
    if a.len() > 0 && b.len() > 0 {
        if a[0] < b[0] {
            lemma_merge_lower_bound(a.drop_first(), b, x);
        } else {
            lemma_merge_lower_bound(a, b.drop_first(), x);
        }
        assert forall|i: int| 0 <= i < merge_seq(a, b).len() implies x <= #[trigger] merge_seq(a, b)[i] by {
            if i > 0 {
                if a[0] < b[0] {
                    assert(merge_seq(a, b)[i] == merge_seq(a.drop_first(), b)[i - 1]);
                } else {
                    assert(merge_seq(a, b)[i] == merge_seq(a, b.drop_first())[i - 1]);
                }
            }
        }
    }
}

/// Merging two sorted sequences gives a sorted sequence.
pub proof fn lemma_merge_of_sorted_is_sorted(a: Seq<i32>, b: Seq<i32>)
    requires
        is_sorted(a),
        is_sorted(b),
    ensures
        is_sorted(merge_seq(a, b)),
    decreases a.len() + b.len(),
{
    if a.len() > 0 && b.len() > 0 {
        let m = merge_seq(a, b);
        if a[0] < b[0] {
            let rest = merge_seq(a.drop_first(), b);
            lemma_merge_of_sorted_is_sorted(a.drop_first(), b);
            lemma_merge_lower_bound(a.drop_first(), b, a[0]);
            assert forall|i: int, j: int| 0 <= i < j < m.len() implies m[i] <= m[j] by {
                assert(m[j] == rest[j - 1]);
                if i > 0 {
                    assert(m[i] == rest[i - 1]);
                }
            }
        } else {
            let rest = merge_seq(a, b.drop_first());
            lemma_merge_of_sorted_is_sorted(a, b.drop_first());
            lemma_merge_lower_bound(a, b.drop_first(), b[0]);
            assert forall|i: int, j: int| 0 <= i < j < m.len() implies m[i] <= m[j] by {
                assert(m[j] == rest[j - 1]);
                if i > 0 {
                    assert(m[i] == rest[i - 1]);
                }
            }
        }
    }
}

/// Merging takes one step: the smaller head (the head of `b` on a tie) leads the merge of the rest.
proof fn lemma_merge_step(a: Seq<i32>, b: Seq<i32>, i: int, j: int)
    requires
        0 <= i < a.len(),
        0 <= j < b.len(),
    ensures
        a[i] < b[j] ==> merge_seq(a.skip(i), b.skip(j)) == seq![a[i]] + merge_seq(a.skip(i + 1), b.skip(j)),
        !(a[i] < b[j]) ==> merge_seq(a.skip(i), b.skip(j)) == seq![b[j]] + merge_seq(a.skip(i), b.skip(j + 1)),
{
    assert(a.skip(i).drop_first() =~= a.skip(i + 1));
    assert(b.skip(j).drop_first() =~= b.skip(j + 1));
}

/// Merges the sorted lists `list1` and `list2` into one list by taking values in order.
pub struct Solution;

impl Solution {
    /// Merges two lists by repeatedly taking the smaller head value; on equal heads the head
    /// of `list2` comes first. Two sorted lists give their sorted union.
    pub fn merge_two_lists(list1: Option<Box<ListNode>>, list2: Option<Box<ListNode>>) -> (merged: Option<Box<ListNode>>)
        ensures
            list_seq(merged) == merge_seq(list_seq(list1), list_seq(list2)),
    {
        let a = into_values(list1);
        let b = into_values(list2);
        let ghost total = merge_seq(a@, b@);
        let mut out: Vec<i32> = Vec::new();
        let mut i: usize = 0;
        let mut j: usize = 0;
        proof {
            assert(a@.skip(0) =~= a@);
            assert(b@.skip(0) =~= b@);
        }
        while i < a.len() && j < b.len()
            invariant
                i <= a.len(),
                j <= b.len(),
                out@ + merge_seq(a@.skip(i as int), b@.skip(j as int)) == total,
            decreases a.len() + b.len() - i - j,
        {
            proof {
                lemma_merge_step(a@, b@, i as int, j as int);
            }
            if a[i] < b[j] {
                let ghost rest = merge_seq(a@.skip(i + 1), b@.skip(j as int));
                assert(out@.push(a[i as int]) + rest =~= out@ + (seq![a[i as int]] + rest));
                out.push(a[i]);
                i = i + 1;
            } else {
                let ghost rest = merge_seq(a@.skip(i as int), b@.skip(j + 1));
                assert(out@.push(b[j as int]) + rest =~= out@ + (seq![b[j as int]] + rest));
                out.push(b[j]);
                j = j + 1;
            }
        }
        let ghost head = out@;
        if i < a.len() {
            assert(b@.skip(j as int).len() == 0);
            while i < a.len()
                invariant
                    i <= a.len(),
                    out@ + a@.skip(i as int) == total,
                decreases a.len() - i,
            {
                assert(a@.skip(i as int) =~= seq![a[i as int]] + a@.skip(i + 1));
                assert(out@.push(a[i as int]) + a@.skip(i + 1) =~= out@ + a@.skip(i as int));
                out.push(a[i]);
                i = i + 1;
            }
        } else {
            assert(a@.skip(i as int).len() == 0);
            while j < b.len()
                invariant
                    j <= b.len(),
                    out@ + b@.skip(j as int) == total,
                decreases b.len() - j,
            {
                assert(b@.skip(j as int) =~= seq![b[j as int]] + b@.skip(j + 1));
                assert(out@.push(b[j as int]) + b@.skip(j + 1) =~= out@ + b@.skip(j as int));
                out.push(b[j]);
                j = j + 1;
            }
            assert(out@ =~= out@ + b@.skip(j as int));
        }
        proof {
            assert(out@ =~= total);
        }
        to_list(out)
    }
}

} // verus!
