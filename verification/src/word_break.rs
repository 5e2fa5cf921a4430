use vstd::prelude::*;
use std::collections::HashSet;
use vstd::utf8::{encode_utf8, is_char_boundary};

verus! {

broadcast use vstd::std_specs::hash::group_hash_axioms;

/// Word `w` occurs in `b` at byte position `i`.
pub open spec fn matches_at(b: Seq<u8>, w: Seq<u8>, i: int) -> bool {
    0 <= i && i + w.len() <= b.len() && b.subrange(i, i + w.len()) == w
}

/// The bytes of `b` from position `i` on split into words of `ws`.
pub open spec fn segmentable_from(b: Seq<u8>, ws: Seq<Seq<u8>>, i: int) -> bool
    decreases b.len() - i, ws.len() + 1,
{
    if i < 0 || i > b.len() {
        false
    } else if i == b.len() {
        true
    } else {
        fits_from(b, ws, i, 0)
    }
}

/// Some word of `ws` from index `j` on occurs at `i` and the rest after it splits into
/// words.
pub open spec fn fits_from(b: Seq<u8>, ws: Seq<Seq<u8>>, i: int, j: int) -> bool
    decreases b.len() - i, ws.len() - j,
{
    if j < 0 || j >= ws.len() || i < 0 || i >= b.len() {
        false
    } else {
        (ws[j].len() > 0 && matches_at(b, ws[j], i) && segmentable_from(b, ws, i + ws[j].len()))
            || fits_from(b, ws, i, j + 1)
    }
}

/// The search from position `i` cuts `b` only at char boundaries and never tries an empty
/// word before the end: the inputs on which the search neither slices inside a character
/// nor recurses forever. (The search tries the words in order and stops at the first that
/// leads to a split.)
pub open spec fn search_is_safe(b: Seq<u8>, ws: Seq<Seq<u8>>, i: int) -> bool
    decreases b.len() - i, ws.len() + 1,
{
    if i < 0 || i > b.len() {
        false
    } else if i == b.len() {
        true
    } else {
        words_are_safe(b, ws, i, 0)
    }
}

/// The search at `i` is safe from word `j` on (see [`search_is_safe`]).
pub open spec fn words_are_safe(b: Seq<u8>, ws: Seq<Seq<u8>>, i: int, j: int) -> bool
    decreases b.len() - i, ws.len() - j,
{
    if j < 0 || j >= ws.len() || i < 0 || i >= b.len() {
        true
    } else if i + ws[j].len() > b.len() {
        words_are_safe(b, ws, i, j + 1)
    } else if ws[j].len() == 0 || !is_char_boundary(b, i + ws[j].len()) {
        false
    } else if matches_at(b, ws[j], i) {
        search_is_safe(b, ws, i + ws[j].len()) && (segmentable_from(b, ws, i + ws[j].len())
            || words_are_safe(b, ws, i, j + 1))
    } else {
        words_are_safe(b, ws, i, j + 1)
    }
}

/// The UTF-8 bytes of each word.
pub open spec fn word_bytes(words: Seq<String>) -> Seq<Seq<u8>> {
    words.map_values(|w: String| encode_utf8(w@))
}

/// No position known to fail splits into words.
pub open spec fn failures_are_sound(b: Seq<u8>, ws: Seq<Seq<u8>>, fails: Set<usize>) -> bool {
    forall|p: usize| #[trigger] fails.contains(p) ==> !segmentable_from(b, ws, p as int)
}

/// The words that `parts` names, in order.
pub open spec fn chosen_words(ws: Seq<Seq<u8>>, parts: Seq<int>) -> Seq<Seq<u8>> {
    parts.map_values(|j: int| ws[j])
}

/// `parts` names words of `ws` (by index, each as often as wanted) whose concatenation is
/// exactly `t`.
pub open spec fn is_split_into(t: Seq<u8>, ws: Seq<Seq<u8>>, parts: Seq<int>) -> bool {
    &&& forall|q: int| 0 <= q < parts.len() ==> 0 <= #[trigger] parts[q] < ws.len()
    &&& chosen_words(ws, parts).flatten() == t
}

proof fn lemma_chosen_words_cons(ws: Seq<Seq<u8>>, j: int, parts: Seq<int>)
    ensures
        chosen_words(ws, seq![j] + parts).flatten() == ws[j] + chosen_words(ws, parts).flatten(),
{
    let c = chosen_words(ws, seq![j] + parts);
    assert(c.first() == ws[j]);
    assert(c.drop_first() =~= chosen_words(ws, parts));
}

proof fn lemma_segmentable_gives_split(b: Seq<u8>, ws: Seq<Seq<u8>>, i: int)
    requires
        segmentable_from(b, ws, i),
    ensures
        exists|parts: Seq<int>| is_split_into(b.subrange(i, b.len() as int), ws, parts),
    decreases b.len() - i, ws.len() + 1,
{
    if i == b.len() {
        let parts = Seq::<int>::empty();
        assert(chosen_words(ws, parts) =~= Seq::<Seq<u8>>::empty());
        assert(b.subrange(i, b.len() as int) =~= Seq::<u8>::empty());
        assert(is_split_into(b.subrange(i, b.len() as int), ws, parts));
    } else {
        lemma_fits_gives_split(b, ws, i, 0);
    }
}

proof fn lemma_fits_gives_split(b: Seq<u8>, ws: Seq<Seq<u8>>, i: int, j: int)
    requires
        fits_from(b, ws, i, j),
    ensures
        exists|parts: Seq<int>| is_split_into(b.subrange(i, b.len() as int), ws, parts),
    decreases b.len() - i, ws.len() - j,
{
    let w = ws[j];
    if w.len() > 0 && matches_at(b, w, i) && segmentable_from(b, ws, i + w.len()) {
        let next = i + w.len();
        lemma_segmentable_gives_split(b, ws, next);
        let rest = choose|parts: Seq<int>| is_split_into(b.subrange(next, b.len() as int), ws, parts);
        let parts = seq![j] + rest;
        lemma_chosen_words_cons(ws, j, rest);
        assert(b.subrange(i, b.len() as int) =~= w + b.subrange(i + w.len(), b.len() as int));
        assert forall|q: int| 0 <= q < parts.len() implies 0 <= #[trigger] parts[q] < ws.len() by {
            if q > 0 {
                assert(parts[q] == rest[q - 1]);
            }
        }
        assert(is_split_into(b.subrange(i, b.len() as int), ws, parts));
    } else {
        lemma_fits_gives_split(b, ws, i, j + 1);
    }
}

proof fn lemma_word_fits(b: Seq<u8>, ws: Seq<Seq<u8>>, i: int, j0: int, j: int)
    requires
        0 <= j0 <= j < ws.len(),
        0 <= i < b.len(),
        ws[j].len() > 0,
        matches_at(b, ws[j], i),
        segmentable_from(b, ws, i + ws[j].len()),
    ensures
        fits_from(b, ws, i, j0),
    decreases j - j0,
{
    if j0 < j {
        lemma_word_fits(b, ws, i, j0 + 1, j);
    }
}

proof fn lemma_split_gives_segmentable(b: Seq<u8>, ws: Seq<Seq<u8>>, i: int, parts: Seq<int>)
    requires
        0 <= i <= b.len(),
        is_split_into(b.subrange(i, b.len() as int), ws, parts),
    ensures
        segmentable_from(b, ws, i),
    decreases parts.len(),
{
    if parts.len() == 0 {
        assert(b.subrange(i, b.len() as int).len() == 0);
    } else {
        let j = parts[0];
        let w = ws[j];
        let rest = parts.drop_first();
        assert(parts =~= seq![j] + rest);
        lemma_chosen_words_cons(ws, j, rest);
        let t = b.subrange(i, b.len() as int);
        let tail = chosen_words(ws, rest).flatten();
        assert(t == w + tail);
        assert forall|q: int| 0 <= q < rest.len() implies 0 <= #[trigger] rest[q] < ws.len() by {
            assert(rest[q] == parts[q + 1]);
        }
        if w.len() == 0 {
            assert(w + tail =~= tail);
            lemma_split_gives_segmentable(b, ws, i, rest);
        } else {
            assert(b.subrange(i + w.len(), b.len() as int) =~= tail) by {
                assert forall|q: int| 0 <= q < tail.len() implies #[trigger] tail[q]
                    == b.subrange(i + w.len(), b.len() as int)[q] by {
                    assert(t[w.len() + q] == tail[q]);
                }
            }
            assert(b.subrange(i, i + w.len()) =~= w) by {
                assert forall|q: int| 0 <= q < w.len() implies #[trigger] w[q] == b.subrange(
                    i,
                    i + w.len(),
                )[q] by {
                    assert(t[q] == w[q]);
                }
            }
            lemma_split_gives_segmentable(b, ws, i + w.len(), rest);
            lemma_word_fits(b, ws, i, 0, j);
        }
    }
}

/// The search's verdict is the plain one: the bytes from position `i` on split into
/// dictionary words exactly when some choice of words, repeated as often as wanted,
/// concatenates to them.
pub proof fn law_segmentable_iff_split(b: Seq<u8>, ws: Seq<Seq<u8>>, i: int)
    requires
        0 <= i <= b.len(),
    ensures
        segmentable_from(b, ws, i) <==> exists|parts: Seq<int>|
            is_split_into(b.subrange(i, b.len() as int), ws, parts),
{
    if segmentable_from(b, ws, i) {
        lemma_segmentable_gives_split(b, ws, i);
    }
    if exists|parts: Seq<int>| is_split_into(b.subrange(i, b.len() as int), ws, parts) {
        let parts = choose|parts: Seq<int>|
            is_split_into(b.subrange(i, b.len() as int), ws, parts);
        lemma_split_gives_segmentable(b, ws, i, parts);
    }
}

fn occurs_at(b: &Vec<u8>, w: &Vec<u8>, i: usize) -> (r: bool)
    requires
        i <= b.len(),
    ensures
        r == matches_at(b@, w@, i as int),
{
    let n = b.len();
    let m = w.len();
    if m > n - i {
        return false;
    }
    let mut k: usize = 0;
    while k < m
        invariant
            0 <= k <= m,
            n == b@.len(),
            m == w@.len(),
            i + m <= n,
            forall|q: int| 0 <= q < k ==> #[trigger] b@[i + q] == w@[q],
        decreases m - k,
    {
        if b[i + k] != w[k] {
            assert(b@.subrange(i as int, i + w@.len())[k as int] != w@[k as int]);
            return false;
        }
        k = k + 1;
    }
    assert forall|q: int| 0 <= q < w@.len() implies #[trigger] b@.subrange(i as int, i + w@.len())[q] == w@[q] by {
        assert(b@[i + q] == w@[q]);
    }
    assert(b@.subrange(i as int, i + w@.len()) =~= w@);
    true
}

fn check(i: usize, fail_points: &mut HashSet<usize>, b: &Vec<u8>, ws: &Vec<Vec<u8>>) -> (r: bool)
    requires
        i <= b@.len(),
        search_is_safe(b@, ws@.map_values(|w: Vec<u8>| w@), i as int),
        failures_are_sound(b@, ws@.map_values(|w: Vec<u8>| w@), old(fail_points)@),
    ensures
        r == segmentable_from(b@, ws@.map_values(|w: Vec<u8>| w@), i as int),
        failures_are_sound(b@, ws@.map_values(|w: Vec<u8>| w@), final(fail_points)@),
    decreases b@.len() - i,
{
    let ghost words = ws@.map_values(|w: Vec<u8>| w@);
    if i == b.len() {
        return true;
    }
    if fail_points.contains(&i) {
        return false;
    }
    let mut j: usize = 0;
    while j < ws.len()
        invariant
            0 <= j <= ws@.len(),
            i < b@.len(),
            words == ws@.map_values(|w: Vec<u8>| w@),
            segmentable_from(b@, words, i as int) == fits_from(b@, words, i as int, j as int),
            words_are_safe(b@, words, i as int, j as int),
            failures_are_sound(b@, words, fail_points@),
        decreases ws@.len() - j,
    {
        let w = &ws[j];
        assert(words[j as int] == w@);
        if w.len() <= b.len() - i && occurs_at(b, w, i) {
            if check(i + w.len(), fail_points, b, ws) {
                return true;
            }
        }
        j = j + 1;
    }
    fail_points.insert(i);
    false
}

/// Splits strings into dictionary words.
pub struct Solution;

impl Solution {
    /// Whether `s` is a concatenation of words of `word_dict` (any number of each; compared
    /// byte by byte). The search must cut `s` only at char boundaries and meet no empty word
    /// before the end (see [`search_is_safe`]).
    pub fn word_break(s: String, word_dict: Vec<String>) -> (r: bool)
        requires
            search_is_safe(encode_utf8(s@), word_bytes(word_dict@), 0),
        ensures
            r == segmentable_from(encode_utf8(s@), word_bytes(word_dict@), 0),
            r <==> exists|parts: Seq<int>|
                is_split_into(encode_utf8(s@), word_bytes(word_dict@), parts),
    {
        let b = s.as_str().as_bytes_vec();
        let mut ws: Vec<Vec<u8>> = Vec::new();
        let mut k: usize = 0;
        while k < word_dict.len()
            invariant
                0 <= k <= word_dict@.len(),
                ws@.map_values(|w: Vec<u8>| w@) == word_bytes(word_dict@).take(k as int),
            decreases word_dict@.len() - k,
        {
            let ghost before = ws@;
            ws.push(word_dict[k].as_str().as_bytes_vec());
            assert(ws@.map_values(|w: Vec<u8>| w@) =~= before.map_values(|w: Vec<u8>| w@).push(encode_utf8(word_dict@[k as int]@)));
            assert(word_bytes(word_dict@).take(k + 1) =~= word_bytes(word_dict@).take(k as int).push(encode_utf8(word_dict@[k as int]@)));
            k = k + 1;
        }
        assert(word_bytes(word_dict@).take(word_dict@.len() as int) =~= word_bytes(word_dict@));
        let mut fail_points: HashSet<usize> = HashSet::new();
        proof {
            law_segmentable_iff_split(b@, word_bytes(word_dict@), 0);
            assert(b@.subrange(0, b@.len() as int) =~= b@);
        }
        check(0, &mut fail_points, &b, &ws)
    }
}

} // verus!
