use vstd::prelude::*;
use std::collections::HashMap;

verus! {

broadcast use vstd::std_specs::hash::group_hash_axioms;

/// The last position before `end` at which `s` holds `v`, or `-1` when there is none.
pub open spec fn last_index_before(s: Seq<i32>, v: int, end: int) -> int
    decreases end,
{
    if end <= 0 {
        -1
    } else if s[end - 1] == v {
        end - 1
    } else {
        last_index_before(s, v, end - 1)
    }
}

/// Some earlier value of `s` adds up with `s[j]` to `target`.
pub open spec fn pair_ends_at(s: Seq<i32>, target: int, j: int) -> bool {
    exists|k: int| 0 <= k < j && s[k] + s[j] == target
}

/// No pair adding up to `target` ends before position `j`.
pub open spec fn no_pair_before(s: Seq<i32>, target: int, j: int) -> bool {
    forall|i: int| 0 <= i < j ==> !#[trigger] pair_ends_at(s, target, i)
}

proof fn lemma_last_index_before(s: Seq<i32>, v: int, end: int)
    requires
        0 <= end <= s.len(),
    ensures
        -1 <= last_index_before(s, v, end) < end,
        last_index_before(s, v, end) >= 0 ==> s[last_index_before(s, v, end)] == v,
        last_index_before(s, v, end) == -1 <==> forall|k: int| 0 <= k < end ==> s[k] != v,
        forall|k: int| last_index_before(s, v, end) < k < end ==> s[k] != v,
    decreases end,
{
    if end > 0 {
        lemma_last_index_before(s, v, end - 1);
    }
}

/// Finds two positions whose values add up to a target.
pub struct Solution;

impl Solution {
    /// Returns `[k, j]` for the first position `j` whose value adds up with an earlier one to
    /// `target`, `k` being the last such earlier position; returns an empty vector when no
    /// two values add up to `target`. Positions are given as `i32`, as Rust's `as` gives them.
    pub fn two_sum(nums: Vec<i32>, target: i32) -> (pair: Vec<i32>)
        requires
            forall|i: int| 0 <= i < nums.len() && no_pair_before(nums@, target as int, i)
                ==> i32::MIN <= target - #[trigger] nums[i] <= i32::MAX,
        ensures
            pair@.len() == 0 <==> no_pair_before(nums@, target as int, nums.len() as int),
            pair@.len() == 0 || pair@.len() == 2,
            pair@.len() == 2 ==> exists|j: int| #![trigger pair_ends_at(nums@, target as int, j)]
                0 <= j < nums.len() && pair_ends_at(nums@, target as int, j) && no_pair_before(nums@, target as int, j)
                && pair@[1] == j as i32 && pair@[0] == last_index_before(nums@, target - nums[j], j) as i32,
    {
        let ghost s = nums@;
        let mut map: HashMap<i32, i32> = HashMap::new();
        for i in 0..nums.len()
            invariant
                s == nums@,
                forall|i: int| 0 <= i < nums.len() && no_pair_before(nums@, target as int, i)
                    ==> i32::MIN <= target - #[trigger] nums[i] <= i32::MAX,
                no_pair_before(s, target as int, i as int),
                forall|v: i32| #[trigger] map@.contains_key(v) <==> last_index_before(s, v as int, i as int) >= 0,
                forall|v: i32| #[trigger] map@.contains_key(v) ==> map@[v] == last_index_before(s, v as int, i as int) as i32,
        {
            let n = target - nums[i];
            proof {
                lemma_last_index_before(s, n as int, i as int);
            }
            match map.get(&n) {
                Some(k) => {
                    let k = *k;
                    let ghost kk = last_index_before(s, n as int, i as int);
                    assert(pair_ends_at(s, target as int, i as int)) by {
                        assert(s[kk] + s[i as int] == target);
                    }
                    let mut pair: Vec<i32> = Vec::new();
                    pair.push(k);
                    pair.push(i as i32);
                    return pair;
                },
                None => {},
            }
            proof {
                assert(!pair_ends_at(s, target as int, i as int)) by {
                    if pair_ends_at(s, target as int, i as int) {
                        let k = choose|k: int| 0 <= k < i && s[k] + s[i as int] == target;
                        assert(s[k] == n);
                    }
                }
                assert forall|j: int| 0 <= j < i + 1 implies !#[trigger] pair_ends_at(s, target as int, j) by {
                    if j < i {
                        assert(no_pair_before(s, target as int, i as int));
                    }
                }
            }
            map.insert(nums[i], i as i32);
            proof {
                assert forall|v: i32| #[trigger] map@.contains_key(v) <==> last_index_before(s, v as int, i + 1) >= 0 by {
                    lemma_last_index_before(s, v as int, i as int);
                }
            }
        }
        Vec::new()
    }
}

} // verus!
