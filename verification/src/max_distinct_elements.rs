use vstd::prelude::*;

verus! {

/// `s` is in non-decreasing order.
pub open spec fn is_sorted(s: Seq<i32>) -> bool {
    forall|i: int, j: int| 0 <= i <= j < s.len() ==> s[i] <= s[j]
}

/// std's `slice::sort`, which its documentation says sorts the slice in ascending order:
/// afterwards it holds the same values, in non-decreasing order.
#[verifier::external_body]
fn sort_ascending(v: &mut Vec<i32>)
    ensures
        final(v)@.to_multiset() == old(v)@.to_multiset(),
        is_sorted(final(v)@),
{
    v.sort();
}

/// The value the greedy pass gives `n` after the last value it placed, `prev`: as low as
/// possible within `[n - k, n + k]` but above `prev`, or `n + k` when that is not above it.
pub open spec fn placement(n: int, k: int, prev: int) -> int {
    let lowest = if n - k > prev + 1 { n - k } else { prev + 1 };
    if n + k < lowest { n + k } else { lowest }
}

/// The greedy pass over the values `s`, in order: how many values it makes distinct, and
/// the last value it placed (`i32::MIN` before any).
pub open spec fn greedy(s: Seq<i32>, k: int) -> (int, int)
    decreases s.len(),
{
    if s.len() == 0 {
        (0, i32::MIN as int)
    } else {
        let (count, prev) = greedy(s.drop_last(), k);
        let v = placement(s.last() as int, k, prev);
        if v > prev {
            (count + 1, v)
        } else {
            (count, prev)
        }
    }
}

/// The pass over `s` stays within `i32`: every `n - k`, `n + k` and the value after the
/// last one placed fit.
#[verifier::opaque]
pub open spec fn greedy_fits(s: Seq<i32>, k: int) -> bool {
    forall|i: int|
        0 <= i < s.len() ==> {
            &&& i32::MIN <= #[trigger] s[i] - k <= i32::MAX
            &&& i32::MIN <= s[i] + k <= i32::MAX
            &&& greedy(s.take(i), k).1 + 1 <= i32::MAX
        }
}

/// Two sorted arrangements of the same values are the same sequence.
proof fn lemma_sorted_is_unique(x: Seq<i32>, y: Seq<i32>)
    requires
        is_sorted(x),
        is_sorted(y),
        x.to_multiset() == y.to_multiset(),
    ensures
        x == y,
{
    let leq = |a: i32, b: i32| a <= b;
    assert(vstd::relations::sorted_by(x, leq));
    assert(vstd::relations::sorted_by(y, leq));
    assert(vstd::relations::total_ordering(leq));
    vstd::seq_lib::lemma_sorted_unique(x, y, leq);
}

/// Value `d` lies within `k` of `n`.
pub open spec fn within(n: int, k: int, d: int) -> bool {
    n - k <= d <= n + k
}

/// `t` moves each value of `s` by at most `k`.
pub open spec fn is_adjustment(s: Seq<i32>, k: int, t: Seq<int>) -> bool {
    &&& t.len() == s.len()
    &&& forall|i: int| 0 <= i < s.len() ==> within(s[i] as int, k, #[trigger] t[i])
}

/// The values the greedy pass places, in order.
pub open spec fn greedy_values(s: Seq<i32>, k: int) -> Seq<int>
    decreases s.len(),
{
    if s.len() == 0 {
        Seq::empty()
    } else {
        let q = greedy_values(s.drop_last(), k);
        let prev = last_placed(q);
        let v = placement(s.last() as int, k, prev);
        if v > prev {
            q.push(v)
        } else {
            q
        }
    }
}

/// The last value placed, or `i32::MIN` before any.
pub open spec fn last_placed(q: Seq<int>) -> int {
    if q.len() == 0 {
        i32::MIN as int
    } else {
        q.last()
    }
}

/// The value placed before `q[b]`, or `i32::MIN` for the first.
pub open spec fn placed_before(q: Seq<int>, b: int) -> int {
    if b == 0 {
        i32::MIN as int
    } else {
        q[b - 1]
    }
}

/// Distinct values matched, in increasing order, to values of `s` at increasing positions
/// below `bound`, each within `k` of its value.
pub open spec fn is_chain(s: Seq<i32>, k: int, js: Seq<int>, ds: Seq<int>, bound: int) -> bool {
    &&& js.len() == ds.len()
    &&& forall|a: int|
        0 <= a < js.len() ==> 0 <= #[trigger] js[a] < bound && within(
            s[js[a]] as int,
            k,
            ds[a],
        )
    &&& forall|a: int, b: int| 0 <= a < b < js.len() ==> #[trigger] js[a] < #[trigger] js[b]
    &&& forall|a: int, b: int| 0 <= a < b < ds.len() ==> #[trigger] ds[a] < #[trigger] ds[b]
}

/// Every value of `s` moved down by `k` stays above `i32::MIN`, the mark for "nothing
/// placed yet".
pub open spec fn above_sentinel(s: Seq<i32>, k: int) -> bool {
    forall|i: int| 0 <= i < s.len() ==> #[trigger] s[i] - k > i32::MIN
}

proof fn lemma_greedy_values_count(s: Seq<i32>, k: int)
    ensures
        greedy(s, k) == (greedy_values(s, k).len() as int, last_placed(greedy_values(s, k))),
    decreases s.len(),
{
    if s.len() > 0 {
        lemma_greedy_values_count(s.drop_last(), k);
    }
}

/// What the greedy values satisfy: they increase, the last is within reach of the last
/// value, and each is at most the lowest candidate of the value that placed it.
proof fn lemma_greedy_values_shape(s: Seq<i32>, k: int)
    requires
        is_sorted(s),
        k >= 0,
        above_sentinel(s, k),
    ensures
        forall|a: int, b: int|
            0 <= a < b < greedy_values(s, k).len() ==> #[trigger] greedy_values(s, k)[a]
                < #[trigger] greedy_values(s, k)[b],
        greedy_values(s, k).len() > 0 ==> last_placed(greedy_values(s, k)) <= s.last() + k,
        s.len() > 0 ==> forall|b: int|
            0 <= b < greedy_values(s, k).len() ==> #[trigger] greedy_values(s, k)[b] <= (if s.last()
                - k > placed_before(greedy_values(s, k), b) + 1 {
                s.last() - k
            } else {
                placed_before(greedy_values(s, k), b) + 1
            }),
        s.len() > 0 ==> greedy_values(s, k).len() > 0,
    decreases s.len(),
{
    if s.len() > 0 {
        let s2 = s.drop_last();
        let q2 = greedy_values(s2, k);
        let q = greedy_values(s, k);
        assert(is_sorted(s2));
        assert(above_sentinel(s2, k)) by {
            assert forall|i: int| 0 <= i < s2.len() implies #[trigger] s2[i] - k > i32::MIN by {
                assert(s2[i] == s[i]);
            }
        }
        lemma_greedy_values_shape(s2, k);
        let n = s.last() as int;
        let prev = last_placed(q2);
        if s2.len() > 0 {
            assert(s2.last() <= s.last()) by {
                assert(s[s.len() - 2] <= s[s.len() - 1]);
            }
        }
        assert(n - k > i32::MIN) by {
            assert(s[s.len() - 1] - k > i32::MIN);
        }
        assert forall|b: int| 0 <= b < q.len() implies #[trigger] q[b] <= (if n - k > placed_before(
            q,
            b,
        ) + 1 {
            n - k
        } else {
            placed_before(q, b) + 1
        }) by {
            if b < q2.len() {
                assert(q[b] == q2[b]);
                assert(placed_before(q, b) == placed_before(q2, b));
            }
        }
    }
}

/// The greedy pass stays ahead of every chain: it places at least as many values, and its
/// `a`-th value is at most the chain's `a`-th.
proof fn lemma_greedy_stays_ahead(s: Seq<i32>, k: int, js: Seq<int>, ds: Seq<int>)
    requires
        is_sorted(s),
        k >= 0,
        above_sentinel(s, k),
        is_chain(s, k, js, ds, s.len() as int),
    ensures
        ds.len() <= greedy_values(s, k).len(),
        forall|a: int| 0 <= a < ds.len() ==> #[trigger] greedy_values(s, k)[a] <= ds[a],
    decreases s.len(),
{
    if ds.len() > 0 {
        assert(0 <= js[0] < s.len());
        let s2 = s.drop_last();
        let i = s.len() - 1;
        let q2 = greedy_values(s2, k);
        let q = greedy_values(s, k);
        let n = s.last() as int;
        assert(is_sorted(s2));
        assert(above_sentinel(s2, k)) by {
            assert forall|x: int| 0 <= x < s2.len() implies #[trigger] s2[x] - k > i32::MIN by {
                assert(s2[x] == s[x]);
            }
        }
        assert(forall|a: int| 0 <= a < q2.len() ==> #[trigger] q[a] == q2[a]);
        let m = ds.len() - 1;
        if js[m] < i {
            assert(is_chain(s2, k, js, ds, s2.len() as int)) by {
                assert forall|a: int| 0 <= a < js.len() implies 0 <= #[trigger] js[a] < s2.len()
                    && within(s2[js[a]] as int, k, ds[a]) by {
                    if a < m {
                        assert(js[a] < js[m]);
                    }
                    assert(s2[js[a]] == s[js[a]]);
                }
            }
            lemma_greedy_stays_ahead(s2, k, js, ds);
            assert(q.len() >= q2.len());
        } else {
            let js2 = js.drop_last();
            let ds2 = ds.drop_last();
            assert(is_chain(s2, k, js2, ds2, s2.len() as int)) by {
                assert forall|a: int| 0 <= a < js2.len() implies 0 <= #[trigger] js2[a] < s2.len()
                    && within(s2[js2[a]] as int, k, ds2[a]) by {
                    assert(js[a] < js[m]);
                    assert(s2[js[a]] == s[js[a]]);
                }
                assert forall|a: int, b: int| 0 <= a < b < js2.len() implies #[trigger] js2[a]
                    < #[trigger] js2[b] by {
                    assert(js[a] < js[b]);
                }
                assert forall|a: int, b: int| 0 <= a < b < ds2.len() implies #[trigger] ds2[a]
                    < #[trigger] ds2[b] by {
                    assert(ds[a] < ds[b]);
                }
            }
            lemma_greedy_stays_ahead(s2, k, js2, ds2);
            assert(within(n, k, ds[m]));
            if m > 0 {
                assert(ds[m - 1] < ds[m]);
                assert(q2[m - 1] <= ds2[m - 1]);
            }
            assert(n - k > i32::MIN) by {
                assert(s[i] - k > i32::MIN);
            }
            if m > 0 {
                assert(ds2[m - 1] == ds[m - 1]);
            }
            if q2.len() > m {
                lemma_greedy_values_shape(s2, k);
                assert(s2.len() > 0);
                assert(s2.last() <= n) by {
                    assert(s[s.len() - 2] <= s[s.len() - 1]);
                }
                assert(q2[m] <= (if s2.last() - k > placed_before(q2, m) + 1 {
                    s2.last() - k
                } else {
                    placed_before(q2, m) + 1
                }));
                assert(q[m] == q2[m]);
                assert(q[m] <= ds[m]);
            } else {
                assert(q2.len() == m);
                assert(last_placed(q2) < ds[m]);
                let v = placement(n, k, last_placed(q2));
                assert(v <= ds[m]);
                assert(v > last_placed(q2));
                assert(q == q2.push(v));
                assert(q[m] <= ds[m]);
            }
            assert forall|a: int| 0 <= a < ds.len() implies #[trigger] q[a] <= ds[a] by {
                if a < m {
                    assert(q2[a] <= ds2[a]);
                }
            }
        }
    }
}

/// A chain that also takes value `y`, within reach of the value at position `j` past all
/// of the chain's positions.
proof fn lemma_chain_insert(s: Seq<i32>, k: int, js: Seq<int>, ds: Seq<int>, y: int, j: int) -> (r: (
    Seq<int>,
    Seq<int>,
))
    requires
        is_sorted(s),
        0 <= j < s.len(),
        is_chain(s, k, js, ds, j),
        !ds.contains(y),
        within(s[j] as int, k, y),
    ensures
        is_chain(s, k, r.0, r.1, j + 1),
        r.1.to_set() == ds.to_set().insert(y),
    decreases ds.len(),
{
    broadcast use vstd::seq_lib::group_seq_properties;

    if ds.len() == 0 {
        let r = (seq![j], seq![y]);
        assert(r.1.to_set() =~= ds.to_set().insert(y));
        r
    } else if y > ds.last() {
        let r = (js.push(j), ds.push(y));
        ds.lemma_push_to_set_commute(y);
        assert(is_chain(s, k, r.0, r.1, j + 1)) by {
            assert forall|a: int, b: int| 0 <= a < b < r.1.len() implies #[trigger] r.1[a]
                < #[trigger] r.1[b] by {
                if b == ds.len() && a < ds.len() - 1 {
                    assert(ds[a] < ds[ds.len() - 1]);
                }
            }
        }
        r
    } else {
        let m = ds.len() - 1;
        let j2 = js[m];
        let d = ds[m];
        assert(y != d);
        assert(s[j2] <= s[j]);
        let js2 = js.drop_last();
        let ds2 = ds.drop_last();
        assert(is_chain(s, k, js2, ds2, j2)) by {
            assert forall|a: int| 0 <= a < js2.len() implies 0 <= #[trigger] js2[a] < j2 && within(
                s[js2[a]] as int,
                k,
                ds2[a],
            ) by {
                assert(js[a] < js[m]);
            }
            assert forall|a: int, b: int| 0 <= a < b < js2.len() implies #[trigger] js2[a]
                < #[trigger] js2[b] by {
                assert(js[a] < js[b]);
            }
            assert forall|a: int, b: int| 0 <= a < b < ds2.len() implies #[trigger] ds2[a]
                < #[trigger] ds2[b] by {
                assert(ds[a] < ds[b]);
            }
        }
        assert(!ds2.contains(y)) by {
            if ds2.contains(y) {
                let a = choose|a: int| 0 <= a < ds2.len() && ds2[a] == y;
                assert(ds[a] == y);
            }
        }
        let r2 = lemma_chain_insert(s, k, js2, ds2, y, j2);
        let r = (r2.0.push(j), r2.1.push(d));
        assert(ds =~= ds2.push(d));
        r2.1.lemma_push_to_set_commute(d);
        ds2.lemma_push_to_set_commute(d);
        assert(r.1.to_set() =~= ds.to_set().insert(y));
        assert forall|x: int| 0 <= x < r2.1.len() implies #[trigger] r2.1[x] < d by {
            assert(r2.1.to_set().contains(r2.1[x]));
            if r2.1[x] != y {
                assert(ds2.to_set().contains(r2.1[x]));
                let a = choose|a: int| 0 <= a < ds2.len() && ds2[a] == r2.1[x];
                assert(ds[a] < ds[m]);
            }
        }
        assert(is_chain(s, k, r.0, r.1, j + 1)) by {
            assert forall|a: int| 0 <= a < r.0.len() implies 0 <= #[trigger] r.0[a] < j + 1
                && within(s[r.0[a]] as int, k, r.1[a]) by {
                if a < r2.0.len() {
                    assert(r.0[a] == r2.0[a] && r.1[a] == r2.1[a]);
                } else {
                    assert(s[j2] + k <= s[j] + k);
                }
            }
            assert forall|a: int, b: int| 0 <= a < b < r.0.len() implies #[trigger] r.0[a]
                < #[trigger] r.0[b] by {
                if b < r2.0.len() {
                    assert(r.0[a] == r2.0[a] && r.0[b] == r2.0[b]);
                } else {
                    assert(r.0[a] == r2.0[a]);
                }
            }
            assert forall|a: int, b: int| 0 <= a < b < r.1.len() implies #[trigger] r.1[a]
                < #[trigger] r.1[b] by {
                if b < r2.1.len() {
                    assert(r.1[a] == r2.1[a] && r.1[b] == r2.1[b]);
                } else {
                    assert(r.1[a] == r2.1[a]);
                }
            }
        }
        r
    }
}

/// The distinct values of an adjustment of the first `i` values form a chain.
proof fn lemma_adjustment_chain(s: Seq<i32>, k: int, t: Seq<int>, i: int) -> (r: (
    Seq<int>,
    Seq<int>,
))
    requires
        is_sorted(s),
        is_adjustment(s, k, t),
        0 <= i <= s.len(),
    ensures
        is_chain(s, k, r.0, r.1, i),
        r.1.to_set() == t.take(i).to_set(),
    decreases i,
{
    broadcast use vstd::seq_lib::group_seq_properties;

    if i == 0 {
        let r = (Seq::<int>::empty(), Seq::<int>::empty());
        assert(r.1.to_set() =~= t.take(0).to_set());
        r
    } else {
        let r2 = lemma_adjustment_chain(s, k, t, i - 1);
        let y = t[i - 1];
        assert(t.take(i) =~= t.take(i - 1).push(y));
        t.take(i - 1).lemma_push_to_set_commute(y);
        if r2.1.contains(y) {
            assert(t.take(i - 1).to_set().contains(y)) by {
                assert(r2.1.to_set().contains(y));
            }
            assert(t.take(i).to_set() =~= t.take(i - 1).to_set());
            r2
        } else {
            assert(within(s[i - 1] as int, k, y));
            lemma_chain_insert(s, k, r2.0, r2.1, y, i - 1)
        }
    }
}

/// Moving each value to the greedy value it received, or to the last value placed before
/// it when it received none, is an adjustment whose values are the greedy values.
proof fn lemma_greedy_adjustment(s: Seq<i32>, k: int) -> (t: Seq<int>)
    requires
        is_sorted(s),
        k >= 0,
        above_sentinel(s, k),
    ensures
        is_adjustment(s, k, t),
        t.to_set() == greedy_values(s, k).to_set(),
    decreases s.len(),
{
    broadcast use vstd::seq_lib::group_seq_properties;

    if s.len() == 0 {
        let t = Seq::<int>::empty();
        assert(t.to_set() =~= greedy_values(s, k).to_set());
        t
    } else {
        let s2 = s.drop_last();
        assert(is_sorted(s2));
        assert(above_sentinel(s2, k)) by {
            assert forall|x: int| 0 <= x < s2.len() implies #[trigger] s2[x] - k > i32::MIN by {
                assert(s2[x] == s[x]);
            }
        }
        let t2 = lemma_greedy_adjustment(s2, k);
        let q2 = greedy_values(s2, k);
        let q = greedy_values(s, k);
        let n = s.last() as int;
        let prev = last_placed(q2);
        let v = placement(n, k, prev);
        assert(n - k > i32::MIN) by {
            assert(s[s.len() - 1] - k > i32::MIN);
        }
        lemma_greedy_values_shape(s2, k);
        if s2.len() > 0 {
            assert(s2.last() <= s.last()) by {
                assert(s[s.len() - 2] <= s[s.len() - 1]);
            }
        }
        let y = if v > prev { v } else { prev };
        let t = t2.push(y);
        t2.lemma_push_to_set_commute(y);
        if v > prev {
            q2.lemma_push_to_set_commute(v);
            assert(q == q2.push(v));
            assert(t.to_set() =~= q.to_set());
        } else {
            assert(q2.len() > 0);
            assert(q2.to_set().contains(prev)) by {
                assert(q2[q2.len() - 1] == prev);
            }
            assert(t.to_set() =~= q.to_set());
        }
        assert(is_adjustment(s, k, t)) by {
            assert forall|x: int| 0 <= x < s.len() implies within(s[x] as int, k, #[trigger] t[x]) by {
                if x < s2.len() {
                    assert(t[x] == t2[x] && s[x] == s2[x]);
                }
            }
        }
        t
    }
}

/// The greedy pass is optimal: no way of moving each of the sorted values `s` by at most
/// `k` makes more values distinct than it counts, and some way makes exactly that many.
/// (Stated for `k >= 0` and values that stay above `i32::MIN` when moved down, which the
/// pass uses as the mark for "nothing placed yet".)
pub proof fn law_greedy_is_optimal(s: Seq<i32>, k: int, t: Seq<int>)
    requires
        is_sorted(s),
        k >= 0,
        above_sentinel(s, k),
        is_adjustment(s, k, t),
    ensures
        t.to_set().len() <= greedy(s, k).0,
        exists|u: Seq<int>| is_adjustment(s, k, u) && u.to_set().len() == greedy(s, k).0,
{
    lemma_greedy_values_count(s, k);
    let r = lemma_adjustment_chain(s, k, t, s.len() as int);
    assert(t.take(s.len() as int) =~= t);
    lemma_greedy_stays_ahead(s, k, r.0, r.1);
    assert(r.1.no_duplicates()) by {
        assert forall|a: int, b: int| 0 <= a < r.1.len() && 0 <= b < r.1.len() && a != b implies r.1[a]
            != r.1[b] by {
            if a < b {
                assert(r.1[a] < r.1[b]);
            } else {
                assert(r.1[b] < r.1[a]);
            }
        }
    }
    r.1.unique_seq_to_set();
    let q = greedy_values(s, k);
    let u = lemma_greedy_adjustment(s, k);
    lemma_greedy_values_shape(s, k);
    assert(q.no_duplicates()) by {
        assert forall|a: int, b: int| 0 <= a < q.len() && 0 <= b < q.len() && a != b implies q[a]
            != q[b] by {
            if a < b {
                assert(q[a] < q[b]);
            } else {
                assert(q[b] < q[a]);
            }
        }
    }
    q.unique_seq_to_set();
}

/// Counts values made distinct by small changes.
pub struct Solution;

impl Solution {
    /// How many distinct values `nums` can be made to hold when each value may move by at
    /// most `k`, as the greedy pass over the sorted values finds: each value takes the
    /// lowest free value in its range.
    pub fn max_distinct_elements(nums: Vec<i32>, k: i32) -> (r: i32)
        requires
            nums.len() <= i32::MAX,
            forall|s: Seq<i32>| is_sorted(s) && s.to_multiset() == nums@.to_multiset() ==> greedy_fits(s, k as int),
        ensures
            forall|s: Seq<i32>|
                is_sorted(s) && s.to_multiset() == nums@.to_multiset() ==> r == #[trigger] greedy(
                    s,
                    k as int,
                ).0,
    {
        let ghost original = nums@;
        let mut nums = nums;
        sort_ascending(&mut nums);
        let ghost s = nums@;
        proof {
            original.to_multiset_ensures();
            s.to_multiset_ensures();
            assert(greedy_fits(s, k as int));
        }
        let mut prev: i32 = i32::MIN;
        let mut cnt: i32 = 0;
        let mut i: usize = 0;
        while i < nums.len()
            invariant
                s == nums@,
                greedy_fits(s, k as int),
                0 <= i <= s.len(),
                s.len() <= i32::MAX,
                (cnt as int, prev as int) == greedy(s.take(i as int), k as int),
                0 <= cnt <= i,
            decreases s.len() - i,
        {
            let n = nums[i];
            proof {
                reveal(greedy_fits);
                assert(i32::MIN <= s[i as int] - k <= i32::MAX);
            }
            assert(s.take(i + 1).drop_last() =~= s.take(i as int));
            assert(s.take(i + 1).last() == n);
            let lowest = if n - k > prev + 1 { n - k } else { prev + 1 };
            let v = if n + k < lowest { n + k } else { lowest };
            if v > prev {
                cnt = cnt + 1;
                prev = v;
            }
            i = i + 1;
        }
        assert(s.take(s.len() as int) =~= s);
        proof {
            assert forall|u: Seq<i32>|
                is_sorted(u) && u.to_multiset() == original.to_multiset() implies cnt == #[trigger] greedy(
                u,
                k as int,
            ).0 by {
                lemma_sorted_is_unique(s, u);
            }
        }
        cnt
    }
}

} // verus!
