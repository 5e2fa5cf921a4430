use vstd::prelude::*;
use std::collections::HashMap;

verus! {

broadcast use vstd::std_specs::hash::group_hash_axioms;

/// Position `p` holds the first value after position `j` that is greater than `s[j]`.
pub open spec fn is_next_greater(s: Seq<i32>, j: int, p: int) -> bool {
    &&& 0 <= j < p < s.len()
    &&& s[p] > s[j]
    &&& forall|q: int| j < q < p ==> #[trigger] s[q] <= s[j]
}

/// Position `p` is the next greater position of some occurrence of `v`.
pub open spec fn ends_next_greater_of(s: Seq<i32>, v: i32, p: int) -> bool {
    exists|j: int| #[trigger] is_next_greater(s, j, p) && s[j] == v
}

/// The last position before `end` that is the next greater position of some occurrence of
/// `v`, or `-1`.
pub open spec fn last_next_greater_end(s: Seq<i32>, v: i32, end: int) -> int
    decreases end,
{
    if end <= 0 {
        -1
    } else if ends_next_greater_of(s, v, end - 1) {
        end - 1
    } else {
        last_next_greater_end(s, v, end - 1)
    }
}

/// The answer for `v`: the value at the last position that is the next greater position of
/// an occurrence of `v` in `s` (which, for a value that occurs once, is its next greater
/// value), or `-1` when no occurrence of `v` has a greater value after it.
pub open spec fn next_greater_value(s: Seq<i32>, v: i32) -> i32 {
    let p = last_next_greater_end(s, v, s.len() as int);
    if p >= 0 { s[p] } else { -1i32 }
}

proof fn lemma_last_next_greater_end_range(s: Seq<i32>, v: i32, end: int)
    requires
        0 <= end <= s.len(),
    ensures
        -1 <= last_next_greater_end(s, v, end) < end,
    decreases end,
{
    if end > 0 {
        lemma_last_next_greater_end_range(s, v, end - 1);
    }
}

/// Whether position `j` is still waiting for a greater value among positions before `end`.
pub open spec fn waiting(s: Seq<i32>, j: int, end: int) -> bool {
    forall|q: int| j < q < end ==> #[trigger] s[q] <= s[j]
}

spec fn stack_values(s: Seq<i32>, st: Seq<int>) -> Seq<i32> {
    st.map_values(|j: int| s[j])
}

/// Finds, for values of one array, the next greater value in another.
pub struct Solution;

impl Solution {
    /// For each value `v` of `nums1`, the next greater value of `v` in `nums2` (the first
    /// greater value after it), or `-1` when there is none or `v` does not occur in `nums2`.
    /// When `v` occurs more than once, the answer comes from the last position of `nums2`
    /// that is the next greater position of one of its occurrences.
    pub fn next_greater_element(nums1: Vec<i32>, nums2: Vec<i32>) -> (answers: Vec<i32>)
        ensures
            answers@.len() == nums1@.len(),
            forall|i: int| 0 <= i < nums1@.len() ==> #[trigger] answers@[i] == next_greater_value(nums2@, nums1@[i]),
    {
        let ghost s = nums2@;
        let mut map: HashMap<i32, i32> = HashMap::new();
        let mut stack: Vec<i32> = Vec::new();
        let ghost mut st: Seq<int> = Seq::empty();
        let mut i: usize = 0;
        while i < nums2.len()
            invariant
                0 <= i <= nums2@.len(),
                s == nums2@,
                stack@ == stack_values(s, st),
                forall|a: int, b: int| 0 <= a < b < st.len() ==> st[a] < st[b],
                forall|a: int| 0 <= a < st.len() ==> 0 <= #[trigger] st[a] < i,
                forall|j: int| 0 <= j < i ==> (#[trigger] waiting(s, j, i as int) <==> st.contains(j)),
                forall|v: i32| #[trigger] map@.contains_key(v) <==> last_next_greater_end(s, v, i as int) >= 0,
                forall|v: i32| #[trigger] map@.contains_key(v) ==> map@[v] == s[last_next_greater_end(s, v, i as int)],
            decreases nums2@.len() - i,
        {
            let n = nums2[i];
            let ghost st0 = st;
            let ghost map0 = map@;
            proof {
                assert forall|a: int, b: int| 0 <= a < b < st0.len() implies s[st0[a]] >= s[st0[b]] by {
                    assert(0 <= st0[a] < i);
                    assert(st0.contains(st0[a]));
                    assert(waiting(s, st0[a], i as int));
                    assert(s[st0[b]] <= s[st0[a]]);
                }
            }
            while stack.len() > 0 && stack[stack.len() - 1] < n
                invariant
                    s == nums2@,
                    n == s[i as int],
                    i < s.len(),
                    forall|a: int, b: int| 0 <= a < b < st0.len() ==> s[st0[a]] >= s[st0[b]],
                    forall|a: int, b: int| 0 <= a < b < st0.len() ==> st0[a] < st0[b],
                    forall|a: int| 0 <= a < st0.len() ==> 0 <= #[trigger] st0[a] < i,
                    forall|j: int| 0 <= j < i ==> (#[trigger] waiting(s, j, i as int) <==> st0.contains(j)),
                    st.len() <= st0.len(),
                    st == st0.take(st.len() as int),
                    stack@ == stack_values(s, st),
                    forall|a: int| st.len() <= a < st0.len() ==> s[#[trigger] st0[a]] < n,
                    forall|v: i32| #[trigger] map@.contains_key(v) <==> (map0.contains_key(v)
                        || exists|a: int| st.len() <= a < st0.len() && s[#[trigger] st0[a]] == v),
                    forall|v: i32| #[trigger] map@.contains_key(v) ==> map@[v] == if (exists|a: int| st.len() <= a < st0.len() && s[#[trigger] st0[a]] == v) { n } else { map0[v] },
                decreases stack.len(),
            {
                let top = stack.pop().unwrap();
                proof {
                    assert(top == s[st.last()]);
                    st = st.drop_last();
                }
                map.insert(top, n);
                proof {
                    assert(st0[st.len() as int] == st0.take((st.len() + 1) as int).last());
                    assert forall|v: i32| #[trigger] map@.contains_key(v) <==> (map0.contains_key(v)
                        || exists|a: int| st.len() <= a < st0.len() && s[#[trigger] st0[a]] == v) by {
                        if v == top {
                            assert(s[st0[st.len() as int]] == v);
                        }
                    }
                    assert forall|v: i32| #[trigger] map@.contains_key(v) implies map@[v] == if (exists|a: int| st.len() <= a < st0.len() && s[#[trigger] st0[a]] == v) { n } else { map0[v] } by {
                        if v == top {
                            assert(s[st0[st.len() as int]] == v);
                        }
                    }
                }
            }
            proof {
                let popped_from = st.len() as int;
                // Every position left on the stack holds a value at least `n`.
                assert forall|a: int| 0 <= a < popped_from implies s[#[trigger] st0[a]] >= n by {
                    if popped_from > 0 {
                        assert(st0[popped_from - 1] == st.last());
                        assert(s[st0[a]] >= s[st0[popped_from - 1]]);
                    }
                }
                // A position ends a next-greater pair at `i` exactly when it was popped.
                assert forall|j: int| #![trigger is_next_greater(s, j, i as int)]
                    is_next_greater(s, j, i as int) <==> (exists|a: int| popped_from <= a < st0.len() && #[trigger] st0[a] == j) by {
                    if is_next_greater(s, j, i as int) {
                        assert(waiting(s, j, i as int));
                        assert(st0.contains(j));
                        let a = choose|a: int| 0 <= a < st0.len() && st0[a] == j;
                        if a < popped_from {
                            assert(s[st0[a]] >= n);
                        }
                    }
                    if exists|a: int| popped_from <= a < st0.len() && #[trigger] st0[a] == j {
                        let a = choose|a: int| popped_from <= a < st0.len() && #[trigger] st0[a] == j;
                        assert(st0.contains(j));
                        assert(waiting(s, j, i as int));
                    }
                }
                assert forall|v: i32| #[trigger] ends_next_greater_of(s, v, i as int)
                    <==> (exists|a: int| popped_from <= a < st0.len() && s[#[trigger] st0[a]] == v) by {
                    if ends_next_greater_of(s, v, i as int) {
                        let j = choose|j: int| #[trigger] is_next_greater(s, j, i as int) && s[j] == v;
                        let a = choose|a: int| popped_from <= a < st0.len() && #[trigger] st0[a] == j;
                        assert(s[st0[a]] == v);
                    }
                    if exists|a: int| popped_from <= a < st0.len() && s[#[trigger] st0[a]] == v {
                        let a = choose|a: int| popped_from <= a < st0.len() && s[#[trigger] st0[a]] == v;
                        assert(is_next_greater(s, st0[a], i as int));
                    }
                }
            }
            stack.push(n);
            proof {
                let old_st = st;
                st = st.push(i as int);
                assert(stack@ =~= stack_values(s, st));
                assert forall|j: int| 0 <= j < i + 1 implies (#[trigger] waiting(s, j, i + 1) <==> st.contains(j)) by {
                    if j == i {
                        assert(st[st.len() - 1] == j);
                    } else {
                        if waiting(s, j, i + 1) {
                            assert(waiting(s, j, i as int));
                            let a = choose|a: int| 0 <= a < st0.len() && st0[a] == j;
                            if a >= old_st.len() {
                                assert(s[st0[a]] < n);
                                assert(s[i as int] <= s[j]);
                            }
                            assert(old_st[a] == j);
                            assert(st[a] == j);
                        }
                        if st.contains(j) {
                            let a = choose|a: int| 0 <= a < st.len() && st[a] == j;
                            assert(a < old_st.len());
                            assert(st0[a] == j);
                            assert(st0.contains(j));
                            assert(waiting(s, j, i as int));
                            assert(s[st0[a]] >= n);
                        }
                    }
                }
                assert forall|a: int, b: int| 0 <= a < b < st.len() implies st[a] < st[b] by {
                    if b < old_st.len() {
                        assert(st[a] == st0[a] && st[b] == st0[b]);
                    } else {
                        assert(st[a] == st0[a]);
                    }
                }
            }
            i = i + 1;
        }
        let mut answers: Vec<i32> = Vec::new();
        for i in 0..nums1.len()
            invariant
                s == nums2@,
                forall|v: i32| #[trigger] map@.contains_key(v) <==> last_next_greater_end(s, v, s.len() as int) >= 0,
                forall|v: i32| #[trigger] map@.contains_key(v) ==> map@[v] == s[last_next_greater_end(s, v, s.len() as int)],
                answers@.len() == i,
                forall|k: int| 0 <= k < i ==> #[trigger] answers@[k] == next_greater_value(s, nums1@[k]),
        {
            let v = nums1[i];
            let answer = match map.get(&v) {
                Some(g) => *g,
                None => -1,
            };
            answers.push(answer);
        }
        answers
    }
}

} // verus!
