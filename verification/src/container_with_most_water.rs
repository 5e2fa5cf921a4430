use vstd::prelude::*;

verus! {

/// The water held between lines `i` and `j`: their distance times the lower line.
pub open spec fn area(h: Seq<i32>, i: int, j: int) -> int {
    (j - i) * (if h[i] <= h[j] { h[i] as int } else { h[j] as int })
}

/// The pairs the search visits from lines `i` and `j` on all hold an amount that fits in
/// `i32`: the search computes the amount of `i` and `j`, then moves past the lower line
/// (past `j` when they are equal).
pub open spec fn search_fits_i32(h: Seq<i32>, i: int, j: int) -> bool
    decreases j - i,
{
    if i >= j || i < 0 || j >= h.len() {
        true
    } else {
        &&& i32::MIN <= area(h, i, j) <= i32::MAX
        &&& if h[i] < h[j] {
            search_fits_i32(h, i + 1, j)
        } else {
            search_fits_i32(h, i, j - 1)
        }
    }
}

proof fn lemma_area_bound(h: Seq<i32>, a: int, b: int, lo: int, hi: int, left_lower: bool)
    requires
        0 <= lo <= a < b <= hi < h.len(),
        left_lower ==> a == lo && h[lo] < h[hi],
        !left_lower ==> b == hi && h[lo] >= h[hi],
    ensures
        area(h, a, b) <= 0 || area(h, a, b) <= area(h, lo, hi),
{
    let m = if h[lo] <= h[hi] { h[lo] as int } else { h[hi] as int };
    let mab = if h[a] <= h[b] { h[a] as int } else { h[b] as int };
    if left_lower {
        assert(mab <= h[lo]);
        assert(m == h[lo]);
    } else {
        assert(mab <= h[hi]);
        assert(m == h[hi]);
    }
    if mab < 0 {
        assert((b - a) * mab <= 0) by (nonlinear_arith)
            requires 0 <= b - a, mab < 0;
    } else {
        assert((b - a) * mab <= (hi - lo) * m) by (nonlinear_arith)
            requires 0 <= b - a <= hi - lo, 0 <= mab <= m;
    }
}

/// Finds the two lines that hold the most water.
pub struct Solution;

impl Solution {
    /// The most water any two lines can hold: the largest distance times lower height over
    /// all pairs of lines, or zero when that is negative or there is no pair.
    pub fn max_area(height: Vec<i32>) -> (most: i32)
        requires
            height.len() >= 1,
            height.len() - 1 <= i32::MAX,
            search_fits_i32(height@, 0, height.len() - 1),
        ensures
            most >= 0,
            forall|i: int, j: int| 0 <= i < j < height.len() ==> area(height@, i, j) <= most,
            most == 0 || exists|i: int, j: int| 0 <= i < j < height.len() && area(height@, i, j) == most,
    {
        let ghost h = height@;
        let mut i: usize = 0;
        let mut j: usize = height.len() - 1;
        let mut mx: i32 = 0;
        while i < j
            invariant
                h == height@,
                i <= j < h.len(),
                h.len() - 1 <= i32::MAX,
                search_fits_i32(h, i as int, j as int),
                mx >= 0,
                forall|a: int, b: int| 0 <= a < b < h.len() && !(i <= a && b <= j) ==> area(h, a, b) <= mx,
                mx == 0 || exists|a: int, b: int| 0 <= a < b < h.len() && area(h, a, b) == mx,
            decreases j - i,
        {
            let low = if height[i] <= height[j] { height[i] } else { height[j] };
            assert(i32::MIN <= area(h, i as int, j as int) <= i32::MAX);
            assert((j - i) as int * low as int == area(h, i as int, j as int));
            let current: i32 = ((j - i) as i32) * low;
            if current > mx {
                mx = current;
            }
            let ghost lo = i as int;
            let ghost hi = j as int;
            if height[i] < height[j] {
                proof {
                    assert forall|b: int| lo < b <= hi implies area(h, lo, b) <= mx by {
                        lemma_area_bound(h, lo, b, lo, hi, true);
                    }
                }
                i = i + 1;
            } else {
                proof {
                    assert forall|a: int| lo <= a < hi implies area(h, a, hi) <= mx by {
                        lemma_area_bound(h, a, hi, lo, hi, false);
                    }
                }
                j = j - 1;
            }
        }
        proof {
            assert forall|a: int, b: int| 0 <= a < b < h.len() implies area(h, a, b) <= mx by {
                assert(!(i <= a && b <= j));
            }
        }
        mx
    }
}

} // verus!
