use vstd::prelude::*;
use std::collections::HashSet;
use vstd::std_specs::iter::IteratorSpec;

verus! {

broadcast use vstd::std_specs::hash::group_hash_axioms;

/// `s` holds at least three different values.
pub open spec fn has_three_distinct(s: Seq<i32>) -> bool {
    exists|i: int, j: int, k: int|
        0 <= i < s.len() && 0 <= j < s.len() && 0 <= k < s.len() && #[trigger] s[i] > #[trigger] s[j]
            && s[j] > #[trigger] s[k]
}

/// Exactly two different values of `s` exceed `r`.
pub open spec fn exactly_two_above(s: Seq<i32>, r: i32) -> bool {
    exists|i: int, j: int|
        0 <= i < s.len() && 0 <= j < s.len() && #[trigger] s[i] > #[trigger] s[j] && s[j] > r && forall|k: int|
            0 <= k < s.len() && #[trigger] s[k] > r ==> s[k] == s[i] || s[k] == s[j]
}

/// `r` is the third largest distinct value of `s` when `s` has three distinct values, and
/// otherwise its largest value.
pub open spec fn is_third_max(s: Seq<i32>, r: i32) -> bool {
    &&& s.contains(r)
    &&& if has_three_distinct(s) {
        exactly_two_above(s, r)
    } else {
        forall|k: int| 0 <= k < s.len() ==> #[trigger] s[k] <= r
    }
}

/// `t` holds the (up to) three largest distinct values of `s`, largest first.
pub open spec fn holds_top_three(s: Seq<i32>, t: Seq<i32>) -> bool {
    &&& t.len() <= 3
    &&& forall|i: int, j: int| 0 <= i < j < t.len() ==> t[i] > t[j]
    &&& forall|i: int| 0 <= i < t.len() ==> s.contains(#[trigger] t[i])
    &&& forall|k: int| 0 <= k < s.len() ==> t.contains(#[trigger] s[k]) || (t.len() == 3 && s[k] < t[2])
}

/// The three largest distinct values after `n` joins those of `t`.
pub open spec fn top_insert(t: Seq<i32>, n: i32) -> Seq<i32> {
    if t.len() == 0 {
        seq![n]
    } else if n > t[0] {
        if t.len() == 3 { seq![n, t[0], t[1]] } else { seq![n] + t }
    } else if t.len() == 1 {
        seq![t[0], n]
    } else if n > t[1] {
        if t.len() == 3 { seq![t[0], n, t[1]] } else { seq![t[0], n, t[1]] }
    } else if t.len() == 2 {
        seq![t[0], t[1], n]
    } else if n > t[2] {
        seq![t[0], t[1], n]
    } else {
        t
    }
}

/// The value a top-three summary answers with: the third value if there are three, else the largest.
pub open spec fn top_answer(t: Seq<i32>) -> i32 {
    if t.len() == 3 { t[2] } else { t[0] }
}

proof fn lemma_top_insert(s: Seq<i32>, t: Seq<i32>, n: i32)
    requires
        holds_top_three(s, t),
    ensures
        holds_top_three(s.push(n), if t.contains(n) { t } else { top_insert(t, n) }),
{
    let s2 = s.push(n);
    let t2 = if t.contains(n) { t } else { top_insert(t, n) };
    assert forall|i: int| 0 <= i < t2.len() implies s2.contains(#[trigger] t2[i]) by {
        if t2[i] == n {
            assert(s2[s.len() as int] == n);
        } else {
            assert(t.contains(t2[i]));
            let j = choose|j: int| 0 <= j < t.len() && t[j] == t2[i];
            assert(s.contains(t[j]));
            let k = choose|k: int| 0 <= k < s.len() && s[k] == t[j];
            assert(s2[k] == s[k]);
        }
    }
    assert forall|k: int| 0 <= k < s2.len() implies t2.contains(#[trigger] s2[k]) || (t2.len() == 3 && s2[k] < t2[2]) by {
        if k == s.len() {
            if !t.contains(n) {
                if t.len() == 0 { assert(t2[0] == n); }
                else if n > t[0] { assert(t2[0] == n); }
                else if t.len() == 1 { assert(t2[1] == n); }
                else if n > t[1] { assert(t2[1] == n); }
                else if t.len() == 2 { assert(t2[2] == n); }
                else if n > t[2] { assert(t2[2] == n); }
            }
        } else {
            assert(s2[k] == s[k]);
            if t.contains(s[k]) {
                let j = choose|j: int| 0 <= j < t.len() && t[j] == s[k];
                if !t.contains(n) {
                    if j == 0 { assert(t2.contains(t[0]) || t2.len() == 3 && t[0] < t2[2]) by {
                        if t.len() == 0 {} else if n > t[0] { assert(t2[1] == t[0]); } else { assert(t2[0] == t[0]); }
                    } }
                    else if j == 1 { assert(t2.contains(t[1]) || t2.len() == 3 && t[1] < t2[2]) by {
                        if n > t[0] { assert(t2[2] == t[1]); } else if n > t[1] { assert(t2[2] == t[1]); } else { assert(t2[1] == t[1]); }
                    } }
                    else { assert(t2.contains(t[2]) || t2.len() == 3 && t[2] < t2[2]) by {
                        if n > t[1] { } else if n > t[2] { } else { assert(t2[2] == t[2]); }
                    } }
                }
            }
        }
    }
}

proof fn lemma_top_answer(s: Seq<i32>, t: Seq<i32>)
    requires
        holds_top_three(s, t),
        s.len() > 0,
    ensures
        is_third_max(s, top_answer(t)),
{
    assert(t.contains(s[0]) || t.len() == 3);
    if t.len() == 3 {
        lemma_top_full_facts(s, t);
        lemma_top_answer_full(s, t);
    } else {
        lemma_top_answer_short(s, t);
    }
}

proof fn lemma_top_full_facts(s: Seq<i32>, t: Seq<i32>)
    requires
        holds_top_three(s, t),
        t.len() == 3,
    ensures
        s.contains(t[0]),
        s.contains(t[1]),
        s.contains(t[2]),
        t[0] > t[1] > t[2],
        forall|m: int| 0 <= m < s.len() && #[trigger] s[m] > t[2] ==> s[m] == t[0] || s[m] == t[1],
{
    assert forall|m: int| 0 <= m < s.len() && #[trigger] s[m] > t[2] implies s[m] == t[0] || s[m] == t[1] by {
        assert(t.contains(s[m]) || s[m] < t[2]);
    }
}

proof fn lemma_top_answer_full(s: Seq<i32>, t: Seq<i32>)
    requires
        t.len() == 3,
        s.contains(t[0]),
        s.contains(t[1]),
        s.contains(t[2]),
        t[0] > t[1] > t[2],
        forall|m: int| 0 <= m < s.len() && #[trigger] s[m] > t[2] ==> s[m] == t[0] || s[m] == t[1],
    ensures
        is_third_max(s, top_answer(t)),
{
    let r = t[2];
    let i = choose|i: int| 0 <= i < s.len() && s[i] == t[0];
    let j = choose|j: int| 0 <= j < s.len() && s[j] == t[1];
    let k = choose|k: int| 0 <= k < s.len() && s[k] == t[2];
    assert(s[i] > s[j] && s[j] > s[k]);
    assert(has_three_distinct(s));
    assert(exactly_two_above(s, r));
}

proof fn lemma_top_answer_short(s: Seq<i32>, t: Seq<i32>)
    requires
        holds_top_three(s, t),
        t.len() < 3,
        s.len() > 0,
    ensures
        is_third_max(s, top_answer(t)),
        !has_three_distinct(s),
{
    assert(t.contains(s[0]));
    assert(t.len() > 0);
    let r = t[0];
    assert(s.contains(t[0]));
    assert forall|m: int| 0 <= m < s.len() implies #[trigger] s[m] <= r by {
        assert(t.contains(s[m]));
        let q = choose|q: int| 0 <= q < t.len() && t[q] == s[m];
    }
    assert forall|i: int, j: int, k: int|
        0 <= i < s.len() && 0 <= j < s.len() && 0 <= k < s.len() && #[trigger] s[i] > #[trigger] s[j]
            implies !(s[j] > #[trigger] s[k]) by {
        assert(t.contains(s[i]));
        assert(t.contains(s[j]));
        assert(t.contains(s[k]));
        let a = choose|q: int| 0 <= q < t.len() && t[q] == s[i];
        let b = choose|q: int| 0 <= q < t.len() && t[q] == s[j];
        let c = choose|q: int| 0 <= q < t.len() && t[q] == s[k];
    }
    assert(!has_three_distinct(s));
}

/// A value is the third maximum of a sequence in at most one way.
pub proof fn lemma_third_max_unique(s: Seq<i32>, r1: i32, r2: i32)
    requires
        is_third_max(s, r1),
        is_third_max(s, r2),
    ensures
        r1 == r2,
{
    let k1 = choose|k: int| 0 <= k < s.len() && s[k] == r1;
    let k2 = choose|k: int| 0 <= k < s.len() && s[k] == r2;
    if has_three_distinct(s) {
        let (i1, j1) = choose|i: int, j: int|
            0 <= i < s.len() && 0 <= j < s.len() && #[trigger] s[i] > #[trigger] s[j] && s[j] > r1 && forall|k: int|
                0 <= k < s.len() && #[trigger] s[k] > r1 ==> s[k] == s[i] || s[k] == s[j];
        let (i2, j2) = choose|i: int, j: int|
            0 <= i < s.len() && 0 <= j < s.len() && #[trigger] s[i] > #[trigger] s[j] && s[j] > r2 && forall|k: int|
                0 <= k < s.len() && #[trigger] s[k] > r2 ==> s[k] == s[i] || s[k] == s[j];
        if r1 < r2 {
            assert(s[k2] > r1);
            assert(s[i2] > r1);
            assert(s[j2] > r1);
        } else if r2 < r1 {
            assert(s[k1] > r2);
            assert(s[i1] > r2);
            assert(s[j1] > r2);
        }
    } else {
        assert(s[k1] <= r2);
        assert(s[k2] <= r1);
    }
}

/// Finds the third largest distinct value, keeping the top three in three slots.
pub struct Solution;

spec fn slots_seq(h0: Option<i32>, h1: Option<i32>, h2: Option<i32>) -> Seq<i32> {
    if h0 is None {
        Seq::empty()
    } else if h1 is None {
        seq![h0->0]
    } else if h2 is None {
        seq![h0->0, h1->0]
    } else {
        seq![h0->0, h1->0, h2->0]
    }
}

impl Solution {
    /// The third largest distinct value of `nums`, or its largest value when it has fewer
    /// than three distinct values.
    pub fn third_max(nums: Vec<i32>) -> (r: i32)
        requires
            nums.len() > 0,
        ensures
            is_third_max(nums@, r),
    {
        let mut h0: Option<i32> = None;
        let mut h1: Option<i32> = None;
        let mut h2: Option<i32> = None;
        for i in 0..nums.len()
            invariant
                h0 is None ==> h1 is None,
                h1 is None ==> h2 is None,
                holds_top_three(nums@.take(i as int), slots_seq(h0, h1, h2)),
        {
            let n = nums[i];
            let ghost t = slots_seq(h0, h1, h2);
            proof {
                lemma_top_insert(nums@.take(i as int), t, n);
                assert(nums@.take(i + 1) =~= nums@.take(i as int).push(n));
            }
            if h0 == Some(n) || h1 == Some(n) || h2 == Some(n) {
                assert(t.contains(n)) by {
                    if h0 == Some(n) { assert(t[0] == n); } else if h1 == Some(n) { assert(t[1] == n); } else { assert(t[2] == n); }
                }
            } else if h0.is_none() || n > h0.unwrap() {
                h2 = h1;
                h1 = h0;
                h0 = Some(n);
            } else if h1.is_none() || (h0.unwrap() > n && n > h1.unwrap()) {
                h2 = h1;
                h1 = Some(n);
            } else if h2.is_none() || (h1.unwrap() > n && n > h2.unwrap()) {
                h2 = Some(n);
            }
            assert(slots_seq(h0, h1, h2) =~= if t.contains(n) { t } else { top_insert(t, n) });
        }
        proof {
            assert(nums@.take(nums.len() as int) =~= nums@);
            lemma_top_answer(nums@, slots_seq(h0, h1, h2));
        }
        match h2 {
            Some(v) => v,
            None => h0.unwrap(),
        }
    }
}

/// Membership is all that a top-three summary depends on.
proof fn lemma_top_three_same_values(d: Seq<i32>, s: Seq<i32>, t: Seq<i32>)
    requires
        holds_top_three(d, t),
        d.to_set() == s.to_set(),
    ensures
        holds_top_three(s, t),
{
    assert forall|i: int| 0 <= i < t.len() implies s.contains(#[trigger] t[i]) by {
        assert(d.to_set().contains(t[i]));
    }
    assert forall|k: int| 0 <= k < s.len() implies t.contains(#[trigger] s[k]) || (t.len() == 3 && s[k] < t[2]) by {
        assert(s.to_set().contains(s[k]));
        assert(d.contains(s[k]));
        let j = choose|j: int| 0 <= j < d.len() && d[j] == s[k];
    }
}

/// Inserts `n` into the descending sequence `top` and keeps its three largest values.
fn insert_top_three(top: &mut Vec<i32>, n: i32)
    requires
        old(top)@.len() <= 3,
        forall|i: int, j: int| 0 <= i < j < old(top)@.len() ==> old(top)@[i] > old(top)@[j],
        !old(top)@.contains(n),
    ensures
        final(top)@ == top_insert(old(top)@, n),
{
    let ghost t = top@;
    let mut p: usize = 0;
    while p < top.len() && top[p] > n
        invariant
            top@ == t,
            p <= t.len(),
            forall|q: int| 0 <= q < p ==> t[q] > n,
        decreases t.len() - p,
    {
        p = p + 1;
    }
    assert(forall|q: int| p <= q < t.len() ==> t[q] < n) by {
        assert forall|q: int| p <= q < t.len() implies t[q] < n by {
            assert(t[p as int] < n) by { assert(t[p as int] != n); }
            if q > p { assert(t[p as int] > t[q]); }
        }
    }
    top.insert(p, n);
    if top.len() > 3 {
        top.pop();
    }
    assert(top@ =~= top_insert(t, n));
}

/// Finds the third largest distinct value from the set of distinct values.
pub struct Solution1;

impl Solution1 {
    /// The third largest distinct value of `nums`, or its largest value when it has fewer
    /// than three distinct values, or `i32::MIN` when it is empty.
    pub fn third_max(nums: Vec<i32>) -> (r: i32)
        ensures
            nums.len() > 0 ==> is_third_max(nums@, r),
            nums.len() == 0 ==> r == i32::MIN,
    {
        let mut distinct: HashSet<i32> = HashSet::new();
        for i in 0..nums.len()
            invariant
                distinct@ == nums@.take(i as int).to_set(),
        {
            distinct.insert(nums[i]);
            proof {
                assert(nums@.take(i + 1) =~= nums@.take(i as int).push(nums[i as int]));
                nums@.take(i as int).lemma_push_to_set_commute(nums[i as int]);
            }
        }
        assert(nums@.take(nums.len() as int) =~= nums@);
        let mut top: Vec<i32> = Vec::new();
        let mut mx = i32::MIN;
        let ghost all = vstd::std_specs::hash::spec_hash_keys_iter(&distinct).remaining();
        let ghost full = all.unref();
        let ghost mut k: int = 0;
        for n in it: distinct.iter()
            invariant
                it.seq() == all,
                full == all.unref(),
                k == it.index(),
                0 <= k <= full.len(),
                all.len() == full.len(),
                all.no_duplicates(),
                full.to_set() == nums@.to_set(),
                holds_top_three(full.take(k), top@),
                forall|m: int| 0 <= m < k ==> #[trigger] full[m] <= mx,
                k > 0 ==> full.take(k).contains(mx),
                k == 0 ==> mx == i32::MIN,
        {
            let ghost d = full;
            proof {
                assert(k < all.len());
                assert(all[k] == n);
                assert(d[k] == *n);
            }
            assert(!top@.contains(*n)) by {
                if top@.contains(*n) {
                    let q = choose|q: int| 0 <= q < top@.len() && top@[q] == *n;
                    assert(d.take(k).contains(top@[q]));
                    let m = choose|m: int| 0 <= m < k && d.take(k)[m] == top@[q];
                    assert(all[m] == all[k]);
                }
            }
            proof {
                lemma_top_insert(d.take(k), top@, *n);
                assert(d.take(k + 1) =~= d.take(k).push(*n));
            }
            let ghost t = top@;
            if top.len() < 3 || top[top.len() - 1] < *n {
                insert_top_three(&mut top, *n);
            }
            assert(top@ == top_insert(t, *n));
            if *n > mx {
                mx = *n;
            }
            assert(d.take(k + 1).contains(mx)) by {
                if *n == mx {
                    assert(d.take(k + 1)[k] == *n);
                } else {
                    let m = choose|m: int| 0 <= m < k && d.take(k)[m] == mx;
                    assert(d.take(k + 1)[m] == mx);
                }
            }
            proof {
                k = k + 1;
            }
        }
        proof {
            let d = full;
            assert(d.take(k) =~= d);
            if nums.len() > 0 {
                lemma_top_three_same_values(d, nums@, top@);
                if top@.len() == 3 {
                    lemma_top_answer(nums@, top@);
                } else {
                    lemma_top_answer_short(nums@, top@);
                    assert(d.contains(mx)) by {
                        if k == 0 {
                            assert(nums@.to_set().contains(nums@[0]));
                            assert(d.to_set().contains(nums@[0]));
                        }
                    }
                    assert(d.to_set().contains(mx));
                    assert forall|j: int| 0 <= j < nums@.len() implies #[trigger] nums@[j] <= mx by {
                        assert(nums@.to_set().contains(nums@[j]));
                        assert(d.to_set().contains(nums@[j]));
                        let m = choose|m: int| 0 <= m < d.len() && d[m] == nums@[j];
                    }
                }
            } else {
                assert(d.len() == 0) by {
                    if d.len() > 0 { assert(d.to_set().contains(d[0])); }
                }
            }
        }
        if top.len() < 3 {
            mx
        } else {
            top[2]
        }
    }
}

} // verus!
