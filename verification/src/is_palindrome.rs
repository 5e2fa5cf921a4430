use vstd::prelude::*;
use crate::text::{decimal, push_decimal_i64};

verus! {

/// `s` reads the same forwards and backwards.
pub open spec fn is_palindrome_seq<T>(s: Seq<T>) -> bool {
    forall|i: int| 0 <= i < s.len() ==> #[trigger] s[i] == s[s.len() - 1 - i]
}

/// Tells palindromic integers apart.
pub struct Solution;

impl Solution {
    /// Whether the decimal form of `x` (with its `-` sign when negative) is a palindrome.
    pub fn is_palindrome(x: i32) -> (r: bool)
        ensures
            r == is_palindrome_seq(decimal(x as int)),
    {
        let mut text = String::new();
        push_decimal_i64(&mut text, x as i64);
        let ghost s = text@;
        assert(s == decimal(x as int));
        let n = text.as_str().unicode_len();
        let mut i: usize = 0;
        while i < n
            invariant
                0 <= i <= n,
                n == s.len(),
                text@ == s,
                s == decimal(x as int),
                forall|j: int| 0 <= j < i ==> #[trigger] s[j] == s[s.len() - 1 - j],
            decreases n - i,
        {
            if text.as_str().get_char(i) != text.as_str().get_char(n - 1 - i) {
                assert(!is_palindrome_seq(s)) by {
                    assert(s[i as int] != s[s.len() - 1 - i]);
                }
                return false;
            }
            i = i + 1;
        }
        true
    }
}

} // verus!
