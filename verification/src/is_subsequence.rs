use vstd::prelude::*;

verus! {

/// `idx` picks, in increasing order, positions of `t` that spell out `s`.
pub open spec fn embeds(s: Seq<char>, t: Seq<char>, idx: Seq<int>) -> bool {
    &&& idx.len() == s.len()
    &&& forall|i: int| 0 <= i < s.len() ==> 0 <= #[trigger] idx[i] < t.len() && t[idx[i]] == s[i]
    &&& forall|i: int, j: int| 0 <= i < j < s.len() ==> #[trigger] idx[i] < #[trigger] idx[j]
}

/// `s` can be obtained from `t` by deleting characters.
pub open spec fn is_subsequence_of(s: Seq<char>, t: Seq<char>) -> bool {
    exists|idx: Seq<int>| embeds(s, t, idx)
}

/// A first character that differs from the first character of `t` is matched later in `t`.
proof fn lemma_skip_unmatched(s: Seq<char>, t: Seq<char>)
    requires
        is_subsequence_of(s, t),
        s.len() > 0,
        t.len() > 0,
        s[0] != t[0],
    ensures
        is_subsequence_of(s, t.skip(1)),
{
    let idx = choose|idx: Seq<int>| embeds(s, t, idx);
    let shifted = idx.map_values(|p: int| p - 1);
    assert forall|i: int| 0 <= i < s.len() implies 0 <= #[trigger] shifted[i] < t.skip(1).len()
        && t.skip(1)[shifted[i]] == s[i] by {
        if i > 0 {
            assert(idx[0] < idx[i]);
        }
        assert(idx[0] != 0);
    }
    assert forall|i: int, j: int| 0 <= i < j < s.len() implies #[trigger] shifted[i]
        < #[trigger] shifted[j] by {
        assert(idx[i] < idx[j]);
    }
    assert(embeds(s, t.skip(1), shifted));
}

/// Matching the first characters of both leaves the rest of `s` a subsequence of the rest
/// of `t`.
proof fn lemma_skip_matched(s: Seq<char>, t: Seq<char>)
    requires
        is_subsequence_of(s, t),
        s.len() > 0,
        t.len() > 0,
        s[0] == t[0],
    ensures
        is_subsequence_of(s.skip(1), t.skip(1)),
{
    let idx = choose|idx: Seq<int>| embeds(s, t, idx);
    let shifted = idx.skip(1).map_values(|p: int| p - 1);
    let rest = s.skip(1);
    assert forall|i: int| 0 <= i < rest.len() implies 0 <= #[trigger] shifted[i] < t.skip(1).len()
        && t.skip(1)[shifted[i]] == rest[i] by {
        assert(idx[0] < idx[i + 1]);
        assert(0 <= idx[i + 1] < t.len() && t[idx[i + 1]] == s[i + 1]);
    }
    assert forall|i: int, j: int| 0 <= i < j < rest.len() implies #[trigger] shifted[i]
        < #[trigger] shifted[j] by {
        assert(idx[i + 1] < idx[j + 1]);
    }
    assert(embeds(rest, t.skip(1), shifted));
}

/// Whether `s` is a subsequence of `t`: its characters appear in `t` in the same order,
/// not necessarily next to each other.
pub fn is_subsequence(s: String, t: String) -> (r: bool)
    ensures
        r == is_subsequence_of(s@, t@),
{
    let ss = s.as_str();
    let ts = t.as_str();
    let n = ss.unicode_len();
    let m = ts.unicode_len();
    let mut i: usize = 0;
    let mut j: usize = 0;
    let ghost mut idx: Seq<int> = Seq::empty();
    assert(s@.skip(0) =~= s@);
    assert(t@.skip(0) =~= t@);
    while i < n
        invariant
            0 <= i <= n,
            0 <= j <= m,
            n == s@.len(),
            m == t@.len(),
            ss@ == s@,
            ts@ == t@,
            embeds(s@.take(i as int), t@, idx),
            forall|q: int| 0 <= q < idx.len() ==> #[trigger] idx[q] < j,
            is_subsequence_of(s@, t@) ==> is_subsequence_of(s@.skip(i as int), t@.skip(j as int)),
        decreases n - i,
    {
        let sc = ss.get_char(i);
        let mut found = false;
        while j < m && !found
            invariant
                0 <= i < n,
                0 <= j <= m,
                n == s@.len(),
                m == t@.len(),
                ss@ == s@,
                ts@ == t@,
                sc == s@[i as int],
                !found ==> embeds(s@.take(i as int), t@, idx),
                !found ==> forall|q: int| 0 <= q < idx.len() ==> #[trigger] idx[q] < j,
                found ==> embeds(s@.take(i + 1), t@, idx) && forall|q: int|
                    0 <= q < idx.len() ==> #[trigger] idx[q] < j,
                !found ==> (is_subsequence_of(s@, t@) ==> is_subsequence_of(
                    s@.skip(i as int),
                    t@.skip(j as int),
                )),
                found ==> (is_subsequence_of(s@, t@) ==> is_subsequence_of(
                    s@.skip(i + 1),
                    t@.skip(j as int),
                )),
            decreases m - j, (if found { 0int } else { 1int }),
        {
            let tc = ts.get_char(j);
            proof {
                assert(s@.skip(i as int)[0] == sc);
                assert(t@.skip(j as int)[0] == tc);
                assert(t@.skip(j as int).skip(1) =~= t@.skip(j + 1));
                assert(s@.skip(i as int).skip(1) =~= s@.skip(i + 1));
                if is_subsequence_of(s@, t@) {
                    if tc == sc {
                        lemma_skip_matched(s@.skip(i as int), t@.skip(j as int));
                    } else {
                        lemma_skip_unmatched(s@.skip(i as int), t@.skip(j as int));
                    }
                }
            }
            if tc == sc {
                proof {
                    let old_idx = idx;
                    idx = idx.push(j as int);
                    assert(embeds(s@.take(i + 1), t@, idx)) by {
                        assert forall|a: int| 0 <= a < i + 1 implies 0 <= #[trigger] idx[a] < t@.len()
                            && t@[idx[a]] == s@.take(i + 1)[a] by {
                            if a < i {
                                assert(idx[a] == old_idx[a]);
                                assert(s@.take(i as int)[a] == s@.take(i + 1)[a]);
                            }
                        }
                        assert forall|a: int, b: int| 0 <= a < b < i + 1 implies #[trigger] idx[a]
                            < #[trigger] idx[b] by {
                            if b == i {
                                assert(old_idx[a] < j);
                            } else {
                                assert(old_idx[a] < old_idx[b]);
                            }
                        }
                    }
                }
                found = true;
            }
            j = j + 1;
        }
        if !found {
            proof {
                if is_subsequence_of(s@, t@) {
                    let rest = s@.skip(i as int);
                    assert(t@.skip(j as int).len() == 0);
                    let w = choose|w: Seq<int>| embeds(rest, t@.skip(j as int), w);
                    assert(rest.len() > 0);
                    assert(0 <= w[0] < t@.skip(j as int).len());
                }
            }
            return false;
        }
        i = i + 1;
    }
    proof {
        assert(s@.take(n as int) =~= s@);
    }
    true
}

} // verus!
