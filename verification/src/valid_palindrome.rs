use vstd::prelude::*;
use vstd::utf8::encode_utf8;
use crate::is_palindrome::is_palindrome_seq;

verus! {

/// `w` is a palindrome once at most one of its elements is deleted.
pub open spec fn palindrome_after_one_deletion(w: Seq<u8>) -> bool {
    is_palindrome_seq(w) || exists|i: int| 0 <= i < w.len() && #[trigger] is_palindrome_seq(w.remove(i))
}

/// The window `b[st..=ed]` (empty when `ed < st`).
pub open spec fn window(b: Seq<u8>, st: int, ed: int) -> Seq<u8> {
    b.subrange(st, ed + 1)
}

proof fn lemma_palindrome_inner(w: Seq<u8>)
    requires
        w.len() >= 2,
        w[0] == w.last(),
    ensures
        is_palindrome_seq(w) <==> is_palindrome_seq(w.subrange(1, w.len() - 1)),
{
    let inner = w.subrange(1, w.len() - 1);
    if is_palindrome_seq(inner) {
        assert forall|i: int| 0 <= i < w.len() implies #[trigger] w[i] == w[w.len() - 1 - i] by {
            if 0 < i < w.len() - 1 {
                assert(inner[i - 1] == inner[inner.len() - 1 - (i - 1)]);
            }
        }
    }
    if is_palindrome_seq(w) {
        assert forall|i: int| 0 <= i < inner.len() implies #[trigger] inner[i] == inner[inner.len() - 1 - i] by {
            assert(w[i + 1] == w[w.len() - 1 - (i + 1)]);
        }
    }
}

proof fn lemma_wrap_palindrome(a: u8, m: Seq<u8>)
    ensures
        is_palindrome_seq(seq![a] + m + seq![a]) <==> is_palindrome_seq(m),
{
    let w = seq![a] + m + seq![a];
    assert(w.subrange(1, w.len() - 1) =~= m);
    lemma_palindrome_inner(w);
}

/// Deleting one element keeps palindromes as the two ends stay the same.
proof fn lemma_deletion_inner(w: Seq<u8>)
    requires
        w.len() >= 2,
        w[0] == w.last(),
    ensures
        palindrome_after_one_deletion(w) <==> palindrome_after_one_deletion(w.subrange(1, w.len() - 1)),
{
    let a = w[0];
    let inner = w.subrange(1, w.len() - 1);
    let n = w.len();
    assert(w =~= seq![a] + inner + seq![a]);
    lemma_palindrome_inner(w);
    if palindrome_after_one_deletion(inner) && !is_palindrome_seq(inner) {
        let i = choose|i: int| 0 <= i < inner.len() && #[trigger] is_palindrome_seq(inner.remove(i));
        assert(w.remove(i + 1) =~= seq![a] + inner.remove(i) + seq![a]);
        lemma_wrap_palindrome(a, inner.remove(i));
        assert(is_palindrome_seq(w.remove(i + 1)));
    }
    if palindrome_after_one_deletion(w) && !is_palindrome_seq(w) {
        let i = choose|i: int| 0 <= i < w.len() && #[trigger] is_palindrome_seq(w.remove(i));
        if i == 0 {
            let p = w.remove(0);
            assert(p =~= inner + seq![a]);
            if inner.len() > 0 {
                let q = inner.remove(0);
                assert forall|j: int| 0 <= j < q.len() implies #[trigger] q[j] == q[q.len() - 1 - j] by {
                    assert(q[j] == p[j + 1]);
                    assert(p[j + 1] == p[p.len() - 1 - (j + 1)]);
                    assert(q[q.len() - 1 - j] == p[p.len() - 2 - j]);
                }
                assert(is_palindrome_seq(inner.remove(0)));
            } else {
                assert(is_palindrome_seq(inner));
            }
        } else if i == n - 1 {
            let p = w.remove(n - 1);
            assert(p =~= seq![a] + inner);
            if inner.len() > 0 {
                let k = inner.len() - 1;
                let q = inner.remove(k);
                assert forall|j: int| 0 <= j < q.len() implies #[trigger] q[j] == q[q.len() - 1 - j] by {
                    assert(q[j] == p[j + 1]);
                    assert(p[j + 1] == p[p.len() - 1 - (j + 1)]);
                    assert(q[q.len() - 1 - j] == p[p.len() - 1 - j - 1]);
                }
                assert(is_palindrome_seq(inner.remove(k)));
            } else {
                assert(is_palindrome_seq(inner));
            }
        } else {
            assert(w.remove(i) =~= seq![a] + inner.remove(i - 1) + seq![a]);
            lemma_wrap_palindrome(a, inner.remove(i - 1));
            assert(is_palindrome_seq(inner.remove(i - 1)));
        }
    }
}

/// With different ends, only deleting an end can help.
proof fn lemma_deletion_mismatch(w: Seq<u8>)
    requires
        w.len() >= 2,
        w[0] != w.last(),
    ensures
        palindrome_after_one_deletion(w) <==> (is_palindrome_seq(w.subrange(1, w.len() as int))
            || is_palindrome_seq(w.subrange(0, w.len() - 1))),
{
    let n = w.len();
    assert(w.remove(0) =~= w.subrange(1, n as int));
    assert(w.remove(n - 1) =~= w.subrange(0, n - 1));
    if is_palindrome_seq(w) {
        assert(w[0] == w[n - 1 - 0]);
    }
    if palindrome_after_one_deletion(w) && !is_palindrome_seq(w) {
        let i = choose|i: int| 0 <= i < w.len() && #[trigger] is_palindrome_seq(w.remove(i));
        if 0 < i < n - 1 {
            let p = w.remove(i);
            assert(p[0] == w[0]);
            assert(p[p.len() - 1] == w[n - 1]);
            assert(p[0] == p[p.len() - 1 - 0]);
        }
    }
    if is_palindrome_seq(w.subrange(1, n as int)) {
        assert(is_palindrome_seq(w.remove(0)));
    }
    if is_palindrome_seq(w.subrange(0, n - 1)) {
        assert(is_palindrome_seq(w.remove(n - 1)));
    }
}

proof fn lemma_short_window(w: Seq<u8>)
    requires
        w.len() <= 1,
    ensures
        is_palindrome_seq(w),
        palindrome_after_one_deletion(w),
{
}

/// Checks the window `s[st..=ed]`: a palindrome when `failed`, otherwise a palindrome after at
/// most one deletion.
fn helper(st: usize, ed: usize, s: &[u8], failed: bool) -> (r: bool)
    requires
        st <= ed + 1,
        ed < s@.len(),
    ensures
        r == if failed {
            is_palindrome_seq(window(s@, st as int, ed as int))
        } else {
            palindrome_after_one_deletion(window(s@, st as int, ed as int))
        },
    decreases ed + 1 - st,
{
    let ghost target = window(s@, st as int, ed as int);
    let mut lo = st;
    let mut hi = ed;
    while lo < hi
        invariant
            st <= lo <= hi + 1,
            hi <= ed < s@.len(),
            target == window(s@, st as int, ed as int),
            (if failed { is_palindrome_seq(target) } else { palindrome_after_one_deletion(target) })
                == (if failed {
                is_palindrome_seq(window(s@, lo as int, hi as int))
            } else {
                palindrome_after_one_deletion(window(s@, lo as int, hi as int))
            }),
        decreases hi + 1 - lo,
    {
        let ghost w = window(s@, lo as int, hi as int);
        assert(w[0] == s@[lo as int] && w.last() == s@[hi as int]);
        if s[lo] != s[hi] {
            if failed {
                assert(!is_palindrome_seq(w)) by {
                    assert(w[0] != w[w.len() - 1 - 0]);
                }
                return false;
            } else {
                proof {
                    lemma_deletion_mismatch(w);
                    assert(w.subrange(1, w.len() as int) =~= window(s@, lo + 1, hi as int));
                    assert(w.subrange(0, w.len() - 1) =~= window(s@, lo as int, hi - 1));
                }
                return helper(lo + 1, hi, s, true) || helper(lo, hi - 1, s, true);
            }
        }
        proof {
            lemma_palindrome_inner(w);
            lemma_deletion_inner(w);
            assert(w.subrange(1, w.len() - 1) =~= window(s@, lo + 1, hi - 1));
        }
        lo = lo + 1;
        hi = hi - 1;
    }
    proof {
        lemma_short_window(window(s@, lo as int, hi as int));
    }
    true
}

/// Tells strings that are almost palindromes.
pub struct Solution;

impl Solution {
    /// Whether the bytes of `s` read the same both ways once at most one byte is deleted.
    pub fn valid_palindrome(s: String) -> (r: bool)
        ensures
            r == palindrome_after_one_deletion(encode_utf8(s@)),
    {
        let bytes = s.as_str().as_bytes();
        if bytes.len() == 0 {
            proof {
                lemma_short_window(encode_utf8(s@));
            }
            return true;
        }
        let r = helper(0, bytes.len() - 1, bytes, false);
        assert(window(bytes@, 0, bytes@.len() - 1) =~= bytes@);
        r
    }
}

} // verus!
