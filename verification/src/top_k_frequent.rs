use vstd::prelude::*;
use std::collections::HashMap;
use vstd::std_specs::iter::IteratorSpec;

verus! {

broadcast use vstd::std_specs::hash::group_hash_axioms;

/// Number of occurrences of `v` in `s`.
pub open spec fn occurrences(s: Seq<i32>, v: i32) -> nat
    decreases s.len(),
{
    if s.len() == 0 {
        0
    } else {
        occurrences(s.drop_last(), v) + if s.last() == v { 1nat } else { 0nat }
    }
}

/// `(count, value)` pairs ordered by count, then by value.
pub open spec fn pair_lt(a: (i32, i32), b: (i32, i32)) -> bool {
    a.0 < b.0 || (a.0 == b.0 && a.1 < b.1)
}

/// `p` pairs a value of `s` with its number of occurrences in `s`.
pub open spec fn is_frequency_entry(s: Seq<i32>, p: (i32, i32)) -> bool {
    s.contains(p.1) && p.0 == occurrences(s, p.1)
}

/// The pair that fills the places of a ranking that `s` has no entry for.
pub open spec fn placeholder() -> (i32, i32) {
    (0i32, 0i32)
}

/// Ascending order in which only placeholders may repeat.
pub open spec fn is_ascending(h: Seq<(i32, i32)>) -> bool {
    forall|i: int, j: int|
        0 <= i < j < h.len() ==> pair_lt(#[trigger] h[i], #[trigger] h[j]) || (h[i]
            == placeholder() && h[j] == placeholder())
}

/// `ranking` holds, in ascending order, the `k` largest frequency entries of `s`, preceded
/// by placeholders when `s` has fewer than `k` distinct values.
pub open spec fn is_top_k_ranking(s: Seq<i32>, k: int, ranking: Seq<(i32, i32)>) -> bool {
    &&& ranking.len() == k
    &&& is_ascending(ranking)
    &&& forall|i: int|
        0 <= i < k ==> #[trigger] ranking[i] == placeholder() || is_frequency_entry(s, ranking[i])
    &&& forall|p: (i32, i32)|
        #[trigger] is_frequency_entry(s, p) && !ranking.contains(p) ==> k == 0 || pair_lt(
            p,
            ranking[0],
        )
}

/// The values of a ranking, in its order.
pub open spec fn ranked_values(ranking: Seq<(i32, i32)>) -> Seq<i32> {
    ranking.map_values(|p: (i32, i32)| p.1)
}

proof fn lemma_occurrences_bound(s: Seq<i32>, v: i32)
    ensures
        occurrences(s, v) <= s.len(),
        s.contains(v) ==> occurrences(s, v) >= 1,
        !s.contains(v) ==> occurrences(s, v) == 0,
    decreases s.len(),
{
    if s.len() > 0 {
        lemma_occurrences_bound(s.drop_last(), v);
        if s.contains(v) && s.last() != v {
            let i = choose|i: int| 0 <= i < s.len() && s[i] == v;
            assert(s.drop_last()[i] == v);
        }
        if s.drop_last().contains(v) {
            let i = choose|i: int| 0 <= i < s.drop_last().len() && s.drop_last()[i] == v;
            assert(s[i] == v);
        }
    }
}

/// Every place holds a placeholder or a pair that counts at least one occurrence.
spec fn placeholders_or_counted(r: Seq<(i32, i32)>) -> bool {
    forall|i: int| 0 <= i < r.len() ==> #[trigger] r[i] == placeholder() || r[i].0 >= 1
}

proof fn lemma_ranking_places(s: Seq<i32>, k: int, r: Seq<(i32, i32)>)
    requires
        is_top_k_ranking(s, k, r),
    ensures
        placeholders_or_counted(r),
{
    assert forall|i: int| 0 <= i < r.len() implies #[trigger] r[i] == placeholder() || r[i].0
        >= 1 by {
        if r[i] != placeholder() {
            lemma_occurrences_bound(s, r[i].1);
        }
    }
}

/// Two ascending sequences of one length that hold the same counted pairs are equal.
proof fn lemma_ascending_same_pairs(a: Seq<(i32, i32)>, b: Seq<(i32, i32)>)
    requires
        a.len() == b.len(),
        is_ascending(a),
        is_ascending(b),
        placeholders_or_counted(a),
        placeholders_or_counted(b),
        forall|x: (i32, i32)| x != placeholder() ==> (a.contains(x) <==> b.contains(x)),
    ensures
        a == b,
    decreases a.len(),
{
    if a.len() == 0 {
        assert(a =~= b);
    } else {
        let n = a.len() - 1;
        let x = a[n];
        if x == placeholder() {
            assert forall|i: int| 0 <= i < a.len() implies #[trigger] a[i] == placeholder() by {
                if i < n {
                    assert(pair_lt(a[i], a[n]) || (a[i] == placeholder() && a[n] == placeholder()));
                }
            }
            assert forall|j: int| 0 <= j < b.len() implies #[trigger] b[j] == placeholder() by {
                if b[j] != placeholder() {
                    assert(b.contains(b[j]));
                    let i = choose|i: int| 0 <= i < a.len() && a[i] == b[j];
                    assert(a[i] == placeholder());
                }
            }
            assert(a =~= b);
        } else {
            let y = b[n];
            assert(a.contains(x));
            let j = choose|j: int| 0 <= j < b.len() && b[j] == x;
            if j < n {
                assert(pair_lt(b[j], b[n]) || (b[j] == placeholder() && b[n] == placeholder()));
            }
            assert(y != placeholder());
            assert(b.contains(y));
            let i = choose|i: int| 0 <= i < a.len() && a[i] == y;
            if i < n {
                assert(pair_lt(a[i], a[n]) || (a[i] == placeholder() && a[n] == placeholder()));
            }
            assert(x == y);
            let a2 = a.drop_last();
            let b2 = b.drop_last();
            assert forall|z: (i32, i32)| z != placeholder() implies (a2.contains(z) <==> b2.contains(
                z,
            )) by {
                if a2.contains(z) {
                    let p = choose|p: int| 0 <= p < a2.len() && a2[p] == z;
                    assert(pair_lt(a[p], a[n]) || (a[p] == placeholder() && a[n] == placeholder()));
                    assert(a.contains(z));
                    let q = choose|q: int| 0 <= q < b.len() && b[q] == z;
                    assert(q != n);
                    assert(b2[q] == z);
                }
                if b2.contains(z) {
                    let p = choose|p: int| 0 <= p < b2.len() && b2[p] == z;
                    assert(pair_lt(b[p], b[n]) || (b[p] == placeholder() && b[n] == placeholder()));
                    assert(b.contains(z));
                    let q = choose|q: int| 0 <= q < a.len() && a[q] == z;
                    assert(q != n);
                    assert(a2[q] == z);
                }
            }
            assert(is_ascending(a2)) by {
                assert forall|p: int, q: int| 0 <= p < q < a2.len() implies pair_lt(
                    #[trigger] a2[p],
                    #[trigger] a2[q],
                ) || (a2[p] == placeholder() && a2[q] == placeholder()) by {
                    assert(a2[p] == a[p] && a2[q] == a[q]);
                }
            }
            assert(is_ascending(b2)) by {
                assert forall|p: int, q: int| 0 <= p < q < b2.len() implies pair_lt(
                    #[trigger] b2[p],
                    #[trigger] b2[q],
                ) || (b2[p] == placeholder() && b2[q] == placeholder()) by {
                    assert(b2[p] == b[p] && b2[q] == b[q]);
                }
            }
            assert(placeholders_or_counted(a2)) by {
                assert forall|p: int| 0 <= p < a2.len() implies #[trigger] a2[p] == placeholder()
                    || a2[p].0 >= 1 by {
                    assert(a2[p] == a[p]);
                }
            }
            assert(placeholders_or_counted(b2)) by {
                assert forall|p: int| 0 <= p < b2.len() implies #[trigger] b2[p] == placeholder()
                    || b2[p].0 >= 1 by {
                    assert(b2[p] == b[p]);
                }
            }
            lemma_ascending_same_pairs(a2, b2);
            assert(a =~= b2.push(y));
        }
    }
}

/// A counted pair of one ranking is in every other ranking of the same values and size.
proof fn lemma_ranked_in_both(s: Seq<i32>, k: int, r1: Seq<(i32, i32)>, r2: Seq<(i32, i32)>, x: (
    i32,
    i32,
))
    requires
        is_top_k_ranking(s, k, r1),
        is_top_k_ranking(s, k, r2),
        x != placeholder(),
        r1.contains(x),
    ensures
        r2.contains(x),
{
    broadcast use vstd::seq_lib::group_seq_properties;
    broadcast use vstd::set::group_set_axioms;

    if !r2.contains(x) {
        let i = choose|i: int| 0 <= i < r1.len() && r1[i] == x;
        assert(r1[i] == placeholder() || is_frequency_entry(s, r1[i]));
        lemma_occurrences_bound(s, x.1);
        assert(pair_lt(x, r2[0]));
        if i > 0 {
            assert(pair_lt(r1[0], r1[i]) || (r1[0] == placeholder() && r1[i] == placeholder()));
        }
        assert(r1[0] == x || pair_lt(r1[0], x));
        assert forall|j: int| 0 <= j < k implies #[trigger] r2[j] != placeholder() && pair_lt(
            x,
            r2[j],
        ) && r1.contains(r2[j]) by {
            if j > 0 {
                assert(pair_lt(r2[0], r2[j]) || (r2[0] == placeholder() && r2[j] == placeholder()));
            }
            assert(r2[j] == placeholder() || is_frequency_entry(s, r2[j]));
            if !r1.contains(r2[j]) {
                assert(is_frequency_entry(s, r2[j]));
            }
        }
        assert(r2.no_duplicates()) by {
            assert forall|p: int, q: int| 0 <= p < r2.len() && 0 <= q < r2.len() && p != q implies
                r2[p] != r2[q] by {
                if p < q {
                    assert(pair_lt(r2[p], r2[q]) || (r2[p] == placeholder() && r2[q]
                        == placeholder()));
                } else {
                    assert(pair_lt(r2[q], r2[p]) || (r2[q] == placeholder() && r2[p]
                        == placeholder()));
                }
            }
        }
        r2.unique_seq_to_set();
        r1.lemma_cardinality_of_set();
        assert(r1.to_set().contains(x));
        let rest = r1.to_set().remove(x);
        assert(r2.to_set().subset_of(rest)) by {
            assert forall|z: (i32, i32)| r2.to_set().contains(z) implies rest.contains(z) by {
                let j = choose|j: int| 0 <= j < r2.len() && r2[j] == z;
                assert(r1.contains(r2[j]));
            }
        }
        vstd::set_lib::lemma_len_subset(r2.to_set(), rest);
    }
}

/// A ranking is determined by the values and its size: whatever order the counts are
/// visited in, the same `k` pairs come out in the same order.
pub proof fn law_top_k_ranking_is_unique(
    s: Seq<i32>,
    k: int,
    r1: Seq<(i32, i32)>,
    r2: Seq<(i32, i32)>,
)
    requires
        is_top_k_ranking(s, k, r1),
        is_top_k_ranking(s, k, r2),
    ensures
        r1 == r2,
        ranked_values(r1) == ranked_values(r2),
{
    lemma_ranking_places(s, k, r1);
    lemma_ranking_places(s, k, r2);
    assert forall|x: (i32, i32)| x != placeholder() implies (r1.contains(x) <==> r2.contains(x)) by {
        if r1.contains(x) {
            lemma_ranked_in_both(s, k, r1, r2, x);
        }
        if r2.contains(x) {
            lemma_ranked_in_both(s, k, r2, r1, x);
        }
    }
    lemma_ascending_same_pairs(r1, r2);
}

fn pair_less(a: (i32, i32), b: (i32, i32)) -> (r: bool)
    ensures
        r == pair_lt(a, b),
{
    a.0 < b.0 || (a.0 == b.0 && a.1 < b.1)
}

/// Counts the occurrences of each value of `nums`.
fn count_occurrences(nums: &Vec<i32>) -> (counts: HashMap<i32, i32>)
    requires
        nums.len() <= i32::MAX,
    ensures
        forall|v: i32| #[trigger] counts@.contains_key(v) <==> nums@.contains(v),
        forall|v: i32| #[trigger] counts@.contains_key(v) ==> counts@[v] == occurrences(nums@, v),
{
    let mut counts: HashMap<i32, i32> = HashMap::new();
    let mut i: usize = 0;
    while i < nums.len()
        invariant
            0 <= i <= nums.len(),
            nums.len() <= i32::MAX,
            forall|v: i32| #[trigger]
                counts@.contains_key(v) <==> nums@.take(i as int).contains(v),
            forall|v: i32| #[trigger]
                counts@.contains_key(v) ==> counts@[v] == occurrences(nums@.take(i as int), v),
        decreases nums.len() - i,
    {
        let n = nums[i];
        let ghost before = nums@.take(i as int);
        let ghost after = nums@.take(i + 1);
        proof {
            lemma_occurrences_bound(before, n);
            assert(after.drop_last() =~= before);
            assert(after.last() == n);
        }
        let c: i32 = match counts.get(&n) {
            Some(c) => *c,
            None => 0,
        };
        counts.insert(n, c + 1);
        proof {
            assert forall|v: i32| #[trigger] counts@.contains_key(v) <==> after.contains(v) by {
                if after.contains(v) && v != n {
                    let j = choose|j: int| 0 <= j < after.len() && after[j] == v;
                    assert(before[j] == v);
                }
                if before.contains(v) {
                    let j = choose|j: int| 0 <= j < before.len() && before[j] == v;
                    assert(after[j] == v);
                }
                assert(after[i as int] == n);
            }
        }
        i = i + 1;
    }
    assert(nums@.take(nums.len() as int) =~= nums@);
    counts
}

/// Adds entry `e` to the ascending ranking `heap` and drops its least pair, keeping its
/// length: the ranking is unchanged when `e` is below all of it.
fn push_pop(heap: &mut Vec<(i32, i32)>, e: (i32, i32))
    requires
        is_ascending(old(heap)@),
        e.0 >= 1,
        !old(heap)@.contains(e),
    ensures
        old(heap)@.len() == 0 || !pair_lt(old(heap)@[0], e) ==> final(heap)@ == old(heap)@,
        old(heap)@.len() > 0 && pair_lt(old(heap)@[0], e) ==> {
            let d = old(heap)@.drop_first();
            exists|p: int| 0 <= p <= d.len() && final(heap)@ == d.insert(p, e)
        },
        is_ascending(final(heap)@),
        final(heap)@.len() == old(heap)@.len(),
{
    if heap.len() == 0 {
        return;
    }
    if !pair_less(heap[0], e) {
        return;
    }
    let ghost old_heap = heap@;
    heap.remove(0);
    let ghost d = heap@;
    assert(d =~= old_heap.drop_first());
    let mut p: usize = 0;
    while p < heap.len() && pair_less(heap[p], e)
        invariant
            heap@ == d,
            0 <= p <= d.len(),
            forall|q: int| 0 <= q < p ==> pair_lt(#[trigger] d[q], e),
        decreases d.len() - p,
    {
        p = p + 1;
    }
    heap.insert(p, e);
    proof {
        let h = heap@;
        assert(is_ascending(d)) by {
            assert forall|i: int, j: int| 0 <= i < j < d.len() implies pair_lt(
                #[trigger] d[i],
                #[trigger] d[j],
            ) || (d[i] == placeholder() && d[j] == placeholder()) by {
                assert(d[i] == old_heap[i + 1] && d[j] == old_heap[j + 1]);
            }
        }
        assert forall|q: int| p <= q < d.len() implies pair_lt(e, #[trigger] d[q]) by {
            assert(d[p as int] != e) by {
                assert(old_heap[p + 1] == d[p as int]);
            }
            assert(!pair_lt(d[p as int], e));
            if q > p {
                assert(pair_lt(d[p as int], d[q]) || (d[p as int] == placeholder() && d[q]
                    == placeholder()));
            }
        }
        assert forall|i: int, j: int| 0 <= i < j < h.len() implies pair_lt(
            #[trigger] h[i],
            #[trigger] h[j],
        ) || (h[i] == placeholder() && h[j] == placeholder()) by {
            if j < p {
                assert(h[i] == d[i] && h[j] == d[j]);
            } else if j == p {
                assert(h[i] == d[i]);
            } else if i < p {
                assert(h[i] == d[i] && h[j] == d[j - 1]);
                assert(pair_lt(e, d[j - 1]));
            } else if i == p {
                assert(h[j] == d[j - 1]);
            } else {
                assert(h[i] == d[i - 1] && h[j] == d[j - 1]);
            }
        }
    }
}

/// Finds the most frequent values.
pub struct Solution;

impl Solution {
    /// The `k` most frequent values of `nums`, ranked by number of occurrences and then by
    /// value, least first. When `nums` has fewer than `k` distinct values, the missing places
    /// come first and hold `0`.
    pub fn top_k_frequent(nums: Vec<i32>, k: i32) -> (res: Vec<i32>)
        requires
            k >= 0,
            nums.len() <= i32::MAX,
        ensures
            exists|ranking: Seq<(i32, i32)>|
                is_top_k_ranking(nums@, k as int, ranking) && res@ == ranked_values(ranking),
    {
        let mut heap: Vec<(i32, i32)> = Vec::new();
        let mut j: i32 = 0;
        while j < k
            invariant
                0 <= j <= k,
                heap@.len() == j,
                forall|q: int| 0 <= q < j ==> #[trigger] heap@[q] == placeholder(),
            decreases k - j,
        {
            heap.push((0, 0));
            j = j + 1;
        }
        let counts = count_occurrences(&nums);
        let ghost s = nums@;
        let ghost all = vstd::std_specs::hash::spec_hash_map_iter(&counts).remaining();
        let ghost entries = all.map_values(|kv: (&i32, &i32)| (*kv.1, *kv.0));
        let ghost mut t: int = 0;
        proof {
            assert forall|i: int| 0 <= i < entries.len() implies is_frequency_entry(
                s,
                #[trigger] entries[i],
            ) && entries[i].0 >= 1 by {
                assert(counts@.contains_key(*all[i].0));
                lemma_occurrences_bound(s, *all[i].0);
            }
        }
        for kv in it: counts.iter()
            invariant
                it.seq() == all,
                t == it.index(),
                0 <= t <= all.len(),
                entries.len() == all.len(),
                all.no_duplicates(),
                forall|i: int|
                    0 <= i < entries.len() ==> #[trigger] entries[i] == (*all[i].1, *all[i].0),
                forall|i: int|
                    0 <= i < all.len() ==> counts@.contains_key(*#[trigger] all[i].0) && counts@[*all[i].0]
                        == *all[i].1,
                forall|i: int|
                    0 <= i < entries.len() ==> is_frequency_entry(s, #[trigger] entries[i])
                        && entries[i].0 >= 1,
                heap@.len() == k,
                is_ascending(heap@),
                forall|i: int|
                    0 <= i < k ==> #[trigger] heap@[i] == placeholder() || (is_frequency_entry(
                        s,
                        heap@[i],
                    ) && entries.take(t).contains(heap@[i])),
                forall|p: (i32, i32)|
                    #[trigger] entries.take(t).contains(p) && !heap@.contains(p) ==> k == 0
                        || pair_lt(p, heap@[0]),
        {
            let e: (i32, i32) = (*kv.1, *kv.0);
            let ghost done = entries.take(t);
            let ghost h0 = heap@;
            proof {
                assert(all[t] == kv);
                assert(entries[t] == e);
                assert(!done.contains(e)) by {
                    if done.contains(e) {
                        let q = choose|q: int| 0 <= q < done.len() && done[q] == e;
                        assert(entries[q] == e);
                        assert(*all[q].0 == *all[t].0);
                        assert(all[q] == all[t]);
                    }
                }
                assert(!h0.contains(e)) by {
                    if h0.contains(e) {
                        let q = choose|q: int| 0 <= q < h0.len() && h0[q] == e;
                        assert(h0[q] != placeholder());
                    }
                }
            }
            push_pop(&mut heap, e);
            proof {
                let h = heap@;
                let next = entries.take(t + 1);
                assert(next =~= done.push(e));
                if h0.len() > 0 && pair_lt(h0[0], e) {
                    let d = h0.drop_first();
                    let p = choose|p: int| 0 <= p <= d.len() && h == d.insert(p, e);
                    assert(h[0] == e || h[0] == h0[1]) by {
                        if p > 0 {
                            assert(h[0] == d[0]);
                        }
                    }
                    assert forall|i: int| 0 <= i < k implies #[trigger] h[i] == placeholder() || (
                    is_frequency_entry(s, h[i]) && next.contains(h[i])) by {
                        if i < p {
                            assert(h[i] == h0[i + 1]);
                            if h[i] != placeholder() {
                                let q = choose|q: int| 0 <= q < done.len() && done[q] == h[i];
                                assert(next[q] == h[i]);
                            }
                        } else if i == p {
                            assert(h[i] == e);
                            assert(next[t] == e);
                        } else {
                            assert(h[i] == h0[i]);
                            if h[i] != placeholder() {
                                let q = choose|q: int| 0 <= q < done.len() && done[q] == h[i];
                                assert(next[q] == h[i]);
                            }
                        }
                    }
                    assert forall|x: (i32, i32)| #[trigger]
                        next.contains(x) && !h.contains(x) implies k == 0 || pair_lt(x, h[0]) by {
                        let m = h0[0];
                        // The removed least pair sits below everything left.
                        if h0.len() > 1 {
                            assert(pair_lt(m, h0[1]) || (m == placeholder() && h0[1]
                                == placeholder()));
                        }
                        if x == e {
                            assert(h[p] == e);
                        } else {
                            let q = choose|q: int| 0 <= q < next.len() && next[q] == x;
                            assert(done[q] == x);
                            if h0.contains(x) {
                                let r = choose|r: int| 0 <= r < h0.len() && h0[r] == x;
                                if r > 0 {
                                    if r - 1 < p {
                                        assert(h[r - 1] == x);
                                    } else {
                                        assert(h[r] == x);
                                    }
                                }
                                assert(x == m);
                                assert(m != placeholder()) by {
                                    lemma_occurrences_bound(s, x.1);
                                }
                            } else {
                                assert(done.contains(x));
                                assert(pair_lt(x, m));
                                assert(m != placeholder());
                            }
                        }
                    }
                } else {
                    assert(h == h0);
                    assert forall|i: int| 0 <= i < k implies #[trigger] h[i] == placeholder() || (
                    is_frequency_entry(s, h[i]) && next.contains(h[i])) by {
                        if h[i] != placeholder() {
                            let q = choose|q: int| 0 <= q < done.len() && done[q] == h[i];
                            assert(next[q] == h[i]);
                        }
                    }
                    assert forall|x: (i32, i32)| #[trigger]
                        next.contains(x) && !h.contains(x) implies k == 0 || pair_lt(x, h[0]) by {
                        if x == e {
                            if k > 0 {
                                assert(h0[0] != e);
                            }
                        } else {
                            let q = choose|q: int| 0 <= q < next.len() && next[q] == x;
                            assert(done[q] == x);
                            assert(done.contains(x));
                        }
                    }
                }
                t = t + 1;
            }
        }
        proof {
            assert(entries.take(t) =~= entries);
            assert forall|p: (i32, i32)| #[trigger]
                is_frequency_entry(s, p) && !heap@.contains(p) implies k == 0 || pair_lt(
                p,
                heap@[0],
            ) by {
                assert(counts@.contains_key(p.1));
                let kv = (&p.1, &counts@[p.1]);
                assert(all.contains(kv));
                let q = choose|q: int| 0 <= q < all.len() && all[q] == kv;
                assert(entries[q] == p);
                assert(entries.contains(p));
            }
        }
        let mut res: Vec<i32> = Vec::new();
        let mut i: usize = 0;
        while i < heap.len()
            invariant
                0 <= i <= heap@.len(),
                res@ == ranked_values(heap@.take(i as int)),
            decreases heap@.len() - i,
        {
            res.push(heap[i].1);
            i = i + 1;
            assert(ranked_values(heap@.take(i as int)) =~= ranked_values(heap@.take(i - 1)).push(
                heap@[i - 1].1,
            ));
        }
        assert(heap@.take(heap@.len() as int) =~= heap@);
        res
    }
}

} // verus!
