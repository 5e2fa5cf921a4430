use vstd::prelude::*;
use crate::listnode_lib::{ListNode, list_seq, node_vals, link_nodes};

verus! {

/// No value after position `i` of `s` is greater than `s[i]`.
pub open spec fn none_greater_after(s: Seq<i32>, i: int) -> bool {
    forall|j: int| i < j < s.len() ==> #[trigger] s[j] <= s[i]
}

/// The values of `s` that no later value exceeds, in order.
pub open spec fn suffix_maxima(s: Seq<i32>) -> Seq<i32>
    decreases s.len(),
{
    if s.len() == 0 {
        s
    } else if none_greater_after(s, 0) {
        seq![s[0]] + suffix_maxima(s.drop_first())
    } else {
        suffix_maxima(s.drop_first())
    }
}

/// Holds of the values at least `x`.
pub open spec fn at_least(x: i32) -> spec_fn(i32) -> bool {
    |y: i32| y >= x
}

/// The values of `s` never increase.
pub open spec fn is_non_increasing(s: Seq<i32>) -> bool {
    forall|i: int, j: int| 0 <= i < j < s.len() ==> s[i] >= s[j]
}

proof fn lemma_suffix_maxima_values(s: Seq<i32>)
    ensures
        forall|i: int| 0 <= i < suffix_maxima(s).len() ==> s.contains(#[trigger] suffix_maxima(s)[i]),
    decreases s.len(),
{
    if s.len() > 0 {
        let t = s.drop_first();
        lemma_suffix_maxima_values(t);
        let r = suffix_maxima(s);
        assert forall|i: int| 0 <= i < r.len() implies s.contains(#[trigger] r[i]) by {
            if none_greater_after(s, 0) {
                if i == 0 {
                    assert(s[0] == r[0]);
                } else {
                    assert(r[i] == suffix_maxima(t)[i - 1]);
                    let j = choose|j: int| 0 <= j < t.len() && t[j] == suffix_maxima(t)[i - 1];
                    assert(s[j + 1] == r[i]);
                }
            } else {
                let j = choose|j: int| 0 <= j < t.len() && t[j] == suffix_maxima(t)[i];
                assert(s[j + 1] == r[i]);
            }
        }
    }
}

/// The values kept never increase.
pub proof fn lemma_suffix_maxima_non_increasing(s: Seq<i32>)
    ensures
        is_non_increasing(suffix_maxima(s)),
    decreases s.len(),
{
    if s.len() > 0 {
        let t = s.drop_first();
        lemma_suffix_maxima_non_increasing(t);
        lemma_suffix_maxima_values(t);
        if none_greater_after(s, 0) {
            let r = suffix_maxima(s);
            assert forall|i: int, j: int| 0 <= i < j < r.len() implies r[i] >= r[j] by {
                assert(r[j] == suffix_maxima(t)[j - 1]);
                if i == 0 {
                    let k = choose|k: int| 0 <= k < t.len() && t[k] == suffix_maxima(t)[j - 1];
                    assert(s[k + 1] <= s[0]);
                } else {
                    assert(r[i] == suffix_maxima(t)[i - 1]);
                }
            }
        }
    }
}

/// Appending `x` drops the kept values below `x` and keeps `x` itself.
proof fn lemma_suffix_maxima_push(s: Seq<i32>, x: i32)
    ensures
        suffix_maxima(s.push(x)) == suffix_maxima(s).filter(at_least(x)).push(x),
    decreases s.len(),
{
    let p = at_least(x);
    if s.len() == 0 {
        assert(s.push(x).drop_first() =~= Seq::<i32>::empty());
        assert(none_greater_after(s.push(x), 0));
        assert(suffix_maxima(Seq::<i32>::empty()) =~= Seq::<i32>::empty());
        assert(suffix_maxima(s) =~= Seq::<i32>::empty());
        assert(Seq::<i32>::empty().filter(p) =~= Seq::<i32>::empty());
        assert(suffix_maxima(s.push(x)) =~= seq![x]);
    } else {
        let t = s.drop_first();
        lemma_suffix_maxima_push(t, x);
        assert(s.push(x).drop_first() =~= t.push(x));
        assert(s.push(x)[0] == s[0]);
        let rest = suffix_maxima(t);
        if none_greater_after(s, 0) && s[0] >= x {
            assert(none_greater_after(s.push(x), 0)) by {
                assert forall|j: int| 0 < j < s.push(x).len() implies #[trigger] s.push(x)[j] <= s.push(x)[0] by {
                    if j < s.len() {
                        assert(s.push(x)[j] == s[j]);
                    }
                }
            }
            seq![s[0]].lemma_filter_push(s[0], p);
            assert(seq![s[0]] =~= Seq::<i32>::empty().push(s[0]));
            assert(Seq::<i32>::empty().filter(p) =~= Seq::<i32>::empty());
            Seq::filter_distributes_over_add(seq![s[0]], rest, p);
            assert(seq![s[0]].filter(p) =~= seq![s[0]]) by {
                Seq::<i32>::empty().lemma_filter_push(s[0], p);
            }
            assert(suffix_maxima(s.push(x)) =~= seq![s[0]] + rest.filter(p).push(x));
        } else {
            assert(!none_greater_after(s.push(x), 0)) by {
                if none_greater_after(s, 0) {
                    assert(s.push(x)[s.len() as int] == x);
                } else {
                    let j = choose|j: int| 0 < j < s.len() && !(#[trigger] s[j] <= s[0]);
                    assert(s.push(x)[j] == s[j]);
                }
            }
            if none_greater_after(s, 0) {
                Seq::filter_distributes_over_add(seq![s[0]], rest, p);
                assert(seq![s[0]].filter(p) =~= Seq::<i32>::empty()) by {
                    Seq::<i32>::empty().lemma_filter_push(s[0], p);
                    assert(seq![s[0]] =~= Seq::<i32>::empty().push(s[0]));
                    assert(Seq::<i32>::empty().filter(p) =~= Seq::<i32>::empty());
                }
                assert(seq![s[0]] + rest =~= suffix_maxima(s));
                assert(Seq::<i32>::empty() + rest.filter(p) =~= rest.filter(p));
            }
        }
    }
}

/// For a non-increasing sequence `v = kept + dropped` whose dropped part is below `x` and whose
/// kept part ends at `x` or above, the values at least `x` are exactly `kept`.
proof fn lemma_filter_of_split(kept: Seq<i32>, dropped: Seq<i32>, x: i32)
    requires
        is_non_increasing(kept + dropped),
        kept.len() > 0 ==> kept.last() >= x,
        forall|i: int| 0 <= i < dropped.len() ==> #[trigger] dropped[i] < x,
    ensures
        (kept + dropped).filter(at_least(x)) == kept,
{
    let p = at_least(x);
    Seq::filter_distributes_over_add(kept, dropped, p);
    assert forall|i: int| 0 <= i < kept.len() implies p(#[trigger] kept[i]) by {
        assert((kept + dropped)[i] >= (kept + dropped)[kept.len() - 1]);
    }
    crate::remove_linked_list_elements::lemma_filter_keeps_all(kept, p);
    dropped.lemma_all_neg_filter_empty(p);
    assert(kept + dropped.filter(p) =~= kept);
}

/// Removes the nodes that have a greater value somewhere after them.
pub struct Solution;

impl Solution {
    /// Keeps the nodes that no later node exceeds, in order; the result never increases.
    pub fn remove_nodes(head: Option<Box<ListNode>>) -> (list: Option<Box<ListNode>>)
        ensures
            list_seq(list) == suffix_maxima(list_seq(head)),
    {
        let ghost s = list_seq(head);
        let mut rest = head;
        let mut stack: Vec<Box<ListNode>> = Vec::new();
        let ghost mut k: int = 0;
        proof {
            assert(s.take(0) =~= Seq::<i32>::empty());
            assert(s.skip(0) =~= s);
        }
        while rest.is_some()
            invariant
                0 <= k <= s.len(),
                list_seq(rest) == s.skip(k),
                node_vals(stack@) == suffix_maxima(s.take(k)),
            decreases s.len() - k,
        {
            let ghost rs = list_seq(rest);
            let mut node = rest.unwrap();
            proof {
                assert(rs =~= seq![node.val] + list_seq(node.next));
                assert(rs[0] == s.skip(k)[0]);
                assert(s.take(k + 1) =~= s.take(k).push(s[k]));
                assert(s.skip(k + 1) =~= s.skip(k).drop_first());
                lemma_suffix_maxima_push(s.take(k), s[k]);
                lemma_suffix_maxima_non_increasing(s.take(k));
            }
            rest = node.next.take();
            let ghost v = node.val;
            let ghost full = node_vals(stack@);
            while stack.len() > 0 && stack[stack.len() - 1].val < node.val
                invariant
                    node.val == v,
                    is_non_increasing(full),
                    node_vals(stack@) == full.take(stack@.len() as int),
                    stack@.len() <= full.len(),
                    forall|i: int| stack@.len() <= i < full.len() ==> #[trigger] full[i] < v,
                decreases stack.len(),
            {
                let ghost before = stack@;
                stack.pop();
                assert(before =~= stack@.push(before.last()));
                assert(node_vals(stack@) =~= node_vals(before).drop_last());
                assert(full[stack@.len() as int] == node_vals(before).last());
            }
            proof {
                let n = stack@.len() as int;
                assert(full =~= full.take(n) + full.skip(n));
                if n > 0 {
                    assert(full.take(n).last() == node_vals(stack@).last());
                }
                lemma_filter_of_split(full.take(n), full.skip(n), v);
            }
            let ghost kept = stack@;
            stack.push(node);
            assert(node_vals(stack@) =~= node_vals(kept).push(v));
            proof {
                k = k + 1;
            }
        }
        assert(s.take(k) =~= s);
        link_nodes(stack)
    }
}

} // verus!
