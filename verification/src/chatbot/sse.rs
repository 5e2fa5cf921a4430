use vstd::prelude::*;
use crate::text::{
    chars_occur_at, chars_of, occurs_at, piece_views, slice_chars, split_by, split_chars,
    string_of, trim_chars, trimmed, newline_sep, separator, Separator,
};

verus! {

/// `s` begins with `p`.
pub open spec fn starts_with(s: Seq<char>, p: Seq<char>) -> bool {
    occurs_at(s, p, 0)
}

/// `line` without its trailing carriage return, if it has one.
pub open spec fn strip_cr(line: Seq<char>) -> Seq<char> {
    if line.len() > 0 && line.last() == '\r' {
        line.drop_last()
    } else {
        line
    }
}

/// The lines of `s`, as `str::lines` gives them: split at line feeds, each line that ends
/// at a line feed without the carriage return before it, and no empty line after a
/// final line feed.
pub open spec fn lines_of(s: Seq<char>) -> Seq<Seq<char>> {
    let pieces = split_by(s, newline_sep());
    let ended = pieces.drop_last().map_values(|p: Seq<char>| strip_cr(p));
    if pieces.last().len() == 0 {
        ended
    } else {
        ended.push(pieces.last())
    }
}

/// `line` without all the leading copies of `p`, as `str::trim_start_matches` gives it.
pub open spec fn strip_prefixes(line: Seq<char>, p: Seq<char>) -> Seq<char>
    decreases line.len(),
{
    if p.len() > 0 && starts_with(line, p) {
        strip_prefixes(line.skip(p.len() as int), p)
    } else {
        line
    }
}

/// The payload of a `data:` line, with the field name and surrounding white space removed.
pub open spec fn data_payload(line: Seq<char>) -> Seq<char> {
    trimmed(strip_prefixes(line, "data:"@))
}

/// The payloads of the `data:` lines among `lines`, up to a `[DONE]` payload, and whether
/// one was met.
pub open spec fn line_payloads(lines: Seq<Seq<char>>) -> (Seq<Seq<char>>, bool)
    decreases lines.len(),
{
    if lines.len() == 0 {
        (Seq::empty(), false)
    } else if !starts_with(lines[0], "data:"@) {
        line_payloads(lines.drop_first())
    } else if data_payload(lines[0]) == "[DONE]"@ {
        (Seq::empty(), true)
    } else {
        let rest = line_payloads(lines.drop_first());
        (seq![data_payload(lines[0])] + rest.0, rest.1)
    }
}

/// A `data:` line of an event.
pub open spec fn is_data_line(line: Seq<char>) -> bool {
    starts_with(line, "data:"@)
}

/// A `data:` line whose payload is the end marker `[DONE]`.
pub open spec fn is_done_line(line: Seq<char>) -> bool {
    is_data_line(line) && data_payload(line) == "[DONE]"@
}

proof fn lemma_filter_single(l: Seq<char>)
    ensures
        seq![l].filter(|x: Seq<char>| is_data_line(x)) == if is_data_line(l) {
            seq![l]
        } else {
            Seq::<Seq<char>>::empty()
        },
{
    reveal(Seq::filter);
    let f = |x: Seq<char>| is_data_line(x);
    let s = seq![l];
    assert(s.drop_last() =~= Seq::<Seq<char>>::empty());
    assert(s.drop_last().filter(f) == s.drop_last());
    assert(s.last() == l);
    assert(f(l) == is_data_line(l));
    assert(Seq::<Seq<char>>::empty().push(l) =~= seq![l]);
    assert(s.filter(f) == if f(s.last()) { s.drop_last().filter(f).push(s.last()) } else { s.drop_last().filter(f) });
}

/// The payloads of a frame's lines are exactly the payloads of its `data:` lines, in order,
/// up to the first `[DONE]`, which ends the scan: every other line contributes nothing and
/// does not stop it. Here `k` is the position of the first `[DONE]` line, or the number of
/// lines when there is none.
pub proof fn law_payloads_are_the_data_lines_before_done(lines: Seq<Seq<char>>, k: int)
    requires
        0 <= k <= lines.len(),
        forall|i: int| 0 <= i < k ==> !is_done_line(#[trigger] lines[i]),
        k == lines.len() || is_done_line(lines[k]),
    ensures
        line_payloads(lines) == (
            lines.take(k).filter(|x: Seq<char>| is_data_line(x)).map_values(|x: Seq<char>| data_payload(x)),
            k < lines.len(),
        ),
    decreases lines.len(),
{
    let f = |x: Seq<char>| is_data_line(x);
    let g = |x: Seq<char>| data_payload(x);
    if lines.len() == 0 {
        assert(lines.take(k) =~= Seq::<Seq<char>>::empty());
        reveal(Seq::filter);
        assert(Seq::<Seq<char>>::empty().filter(f) =~= Seq::<Seq<char>>::empty());
        assert(Seq::<Seq<char>>::empty().map_values(g) =~= Seq::<Seq<char>>::empty());
    } else if k == 0 {
        assert(lines.take(0) =~= Seq::<Seq<char>>::empty());
        reveal(Seq::filter);
        assert(Seq::<Seq<char>>::empty().filter(f) =~= Seq::<Seq<char>>::empty());
        assert(Seq::<Seq<char>>::empty().map_values(g) =~= Seq::<Seq<char>>::empty());
    } else {
        let l = lines[0];
        let rest = lines.drop_first();
        assert forall|i: int| 0 <= i < k - 1 implies !is_done_line(#[trigger] rest[i]) by {
            assert(rest[i] == lines[i + 1]);
        }
        if k < lines.len() {
            assert(rest[k - 1] == lines[k]);
        }
        law_payloads_are_the_data_lines_before_done(rest, k - 1);
        assert(lines.take(k) =~= seq![l] + rest.take(k - 1));
        Seq::filter_distributes_over_add(seq![l], rest.take(k - 1), f);
        lemma_filter_single(l);
        let tail = rest.take(k - 1).filter(f);
        assert(!is_done_line(lines[0]));
        if is_data_line(l) {
            assert((seq![l] + tail).map_values(g) =~= seq![data_payload(l)] + tail.map_values(g));
        } else {
            assert(Seq::<Seq<char>>::empty() + tail =~= tail);
        }
    }
}

/// A line that is not a `data:` line is passed over: the payloads and the end marker are
/// those of the lines after it.
pub proof fn law_other_lines_are_skipped(l: Seq<char>, ls: Seq<Seq<char>>)
    requires
        !is_data_line(l),
    ensures
        line_payloads(seq![l] + ls) == line_payloads(ls),
{
    assert((seq![l] + ls)[0] == l);
    assert((seq![l] + ls).drop_first() =~= ls);
}

/// The position of the first blank line (`\n\n`) in `s` at or after `from`, or `-1`.
pub open spec fn find_frame_end(s: Seq<char>, from: int) -> int
    decreases s.len() - from,
{
    if from < 0 || from + 1 >= s.len() {
        -1
    } else if s[from] == '\n' && s[from + 1] == '\n' {
        from
    } else {
        find_frame_end(s, from + 1)
    }
}

/// The frames of `buffer` that a blank line ends: the payloads they carry up to `[DONE]`,
/// whether `[DONE]` came, and what remains of the buffer after the last frame taken.
pub open spec fn drain_frames(buffer: Seq<char>) -> (Seq<Seq<char>>, bool, Seq<char>)
    decreases buffer.len(),
{
    let end = find_frame_end(buffer, 0);
    if end < 0 {
        (Seq::empty(), false, buffer)
    } else {
        let (payloads, done) = line_payloads(lines_of(buffer.take(end)));
        let rest = buffer.skip(end + 2);
        proof {
            lemma_find_frame_end_range(buffer, 0);
        }
        if done {
            (payloads, true, rest)
        } else {
            let more = drain_frames(rest);
            (payloads + more.0, more.1, more.2)
        }
    }
}

/// A blank line (two line feeds in a row) starts at position `i` of `s`.
pub open spec fn blank_line_at(s: Seq<char>, i: int) -> bool {
    0 <= i && i + 1 < s.len() && s[i] == '\n' && s[i + 1] == '\n'
}

/// The search for a frame's end finds the first blank line at or after `from`, and reports
/// none only when there is none.
pub proof fn law_frame_end_is_first_blank_line(s: Seq<char>, from: int)
    requires
        0 <= from,
    ensures
        find_frame_end(s, from) == -1 <==> forall|i: int| from <= i ==> !#[trigger] blank_line_at(s, i),
        find_frame_end(s, from) != -1 ==> {
            let e = find_frame_end(s, from);
            &&& from <= e
            &&& blank_line_at(s, e)
            &&& forall|i: int| from <= i < e ==> !#[trigger] blank_line_at(s, i)
        },
    decreases s.len() - from,
{
    if from + 1 >= s.len() {
        assert forall|i: int| from <= i implies !#[trigger] blank_line_at(s, i) by {}
    } else if s[from] == '\n' && s[from + 1] == '\n' {
        assert(blank_line_at(s, from));
    } else {
        law_frame_end_is_first_blank_line(s, from + 1);
        assert(!blank_line_at(s, from));
        if find_frame_end(s, from) == -1 {
            assert forall|i: int| from <= i implies !#[trigger] blank_line_at(s, i) by {
                if i > from {
                    assert(from + 1 <= i);
                }
            }
        }
        if forall|i: int| from <= i ==> !#[trigger] blank_line_at(s, i) {
            assert forall|i: int| from + 1 <= i implies !#[trigger] blank_line_at(s, i) by {
                assert(from <= i);
            }
        }
    }
}

/// After draining, unless the end marker came, what stays in the buffer holds no blank
/// line: every complete frame has been taken.
pub proof fn law_drained_buffer_has_no_frame(buffer: Seq<char>)
    ensures
        !drain_frames(buffer).1 ==> forall|i: int| 0 <= i ==> !#[trigger] blank_line_at(drain_frames(buffer).2, i),
    decreases buffer.len(),
{
    let end = find_frame_end(buffer, 0);
    law_frame_end_is_first_blank_line(buffer, 0);
    if end >= 0 {
        lemma_find_frame_end_range(buffer, 0);
        let (payloads, done) = line_payloads(lines_of(buffer.take(end)));
        if !done {
            law_drained_buffer_has_no_frame(buffer.skip(end + 2));
        }
    }
}

/// The decoder of a server-sent event stream: the text received but not yet framed, and
/// whether the `[DONE]` event came.
pub struct SseDecoder {
    pub buffer: Vec<char>,
    pub done: bool,
}

/// A blank line found lies within `s`, at or after `from`.
pub proof fn lemma_find_frame_end_range(s: Seq<char>, from: int)
    requires
        0 <= from,
    ensures
        find_frame_end(s, from) == -1 || (from <= find_frame_end(s, from) && find_frame_end(s, from) + 1 < s.len()
            && s[find_frame_end(s, from)] == '\n' && s[find_frame_end(s, from) + 1] == '\n'),
    decreases s.len() - from,
{
    if from + 1 < s.len() && !(s[from] == '\n' && s[from + 1] == '\n') {
        lemma_find_frame_end_range(s, from + 1);
    }
}

/// The position of the first blank line in `v`, if any.
fn frame_end(v: &Vec<char>) -> (r: Option<usize>)
    ensures
        r is None ==> find_frame_end(v@, 0) == -1,
        r is Some ==> find_frame_end(v@, 0) == r->0 && r->0 + 1 < v@.len(),
{
    let mut i: usize = 0;
    while v.len() > 0 && i < v.len() - 1
        invariant
            0 <= i <= v.len(),
            find_frame_end(v@, 0) == find_frame_end(v@, i as int),
        decreases v.len() - i,
    {
        if v[i] == '\n' && v[i + 1] == '\n' {
            return Some(i);
        }
        i = i + 1;
    }
    None
}

/// The lines of `v` (see [`lines_of`]).
pub(crate) fn lines(v: &Vec<char>) -> (ls: Vec<Vec<char>>)
    ensures
        piece_views(ls@) == lines_of(v@),
{
    let pieces = split_chars(v, Separator::Newline);
    let ghost all = piece_views(pieces@);
    assert(separator(Separator::Newline) == newline_sep());
    let n = pieces.len();
    assert(n > 0) by {
        crate::text::lemma_split_by_nonempty(v@, newline_sep());
    }
    let mut ls: Vec<Vec<char>> = Vec::new();
    let mut i: usize = 0;
    while i + 1 < n
        invariant
            0 <= i <= n - 1,
            n == pieces@.len(),
            all == piece_views(pieces@),
            piece_views(ls@) == all.take(i as int).map_values(|p: Seq<char>| strip_cr(p)),
        decreases n - i,
    {
        let p = &pieces[i];
        let ghost before = ls@;
        let line = if p.len() > 0 && p[p.len() - 1] == '\r' {
            slice_chars(p, 0, p.len() - 1)
        } else {
            p.clone()
        };
        proof {
            assert(p@ == all[i as int]);
            if p@.len() > 0 && p@.last() == '\r' {
                assert(line@ =~= p@.drop_last());
            }
        }
        ls.push(line);
        assert(all.take(i + 1) =~= all.take(i as int).push(all[i as int]));
        assert(all.take(i + 1).map_values(|p: Seq<char>| strip_cr(p)) =~= all.take(i as int).map_values(|p: Seq<char>| strip_cr(p)).push(strip_cr(all[i as int])));
        assert(piece_views(ls@) =~= piece_views(before).push(line@));
        assert(piece_views(ls@) =~= all.take(i + 1).map_values(|p: Seq<char>| strip_cr(p)));
        i = i + 1;
    }
    assert(all.take(n - 1) =~= all.drop_last());
    if pieces[n - 1].len() > 0 {
        let ghost before = ls@;
        ls.push(pieces[n - 1].clone());
        assert(piece_views(ls@) =~= piece_views(before).push(all.last()));
    }
    ls
}

proof fn lemma_strip_prefixes_len(line: Seq<char>, p: Seq<char>)
    ensures
        strip_prefixes(line, p).len() <= line.len(),
    decreases line.len(),
{
    if p.len() > 0 && starts_with(line, p) {
        lemma_strip_prefixes_len(line.skip(p.len() as int), p);
    }
}

/// The payload of a `data:` line (see [`data_payload`]).
fn payload_of(line: &Vec<char>) -> (r: Vec<char>)
    ensures
        r@ == data_payload(line@),
{
    let field = chars_of("data:");
    proof {
        reveal_strlit("data:");
    }
    let mut start: usize = 0;
    assert(line@.skip(0) =~= line@);
    let mut more = chars_occur_at(line, &field, start);
    let n = line.len();
    while more
        invariant
            n == line@.len(),
            more == occurs_at(line@, field@, start as int),
            field@ == "data:"@,
            field@.len() == 5,
            0 <= start <= line@.len(),
            strip_prefixes(line@, "data:"@) == strip_prefixes(line@.skip(start as int), "data:"@),
        decreases line@.len() - start,
    {
        proof {
            let rest = line@.skip(start as int);
            assert(rest.subrange(0, 5) =~= line@.subrange(start as int, start + 5));
            assert(starts_with(rest, "data:"@));
            assert(rest.skip(5) =~= line@.skip(start + 5));
        }
        assert(start + 5 <= line@.len());
        start = start + 5;
        more = chars_occur_at(line, &field, start);
    }
    proof {
        let rest = line@.skip(start as int);
        if start + 5 <= line@.len() {
            assert(rest.subrange(0, 5) =~= line@.subrange(start as int, start + 5));
        }
    }
    let rest = slice_chars(line, start, line.len());
    assert(rest@ =~= line@.skip(start as int));
    trim_chars(&rest)
}

fn is_done_marker(v: &Vec<char>) -> (r: bool)
    ensures
        r == (v@ == "[DONE]"@),
{
    let marker = chars_of("[DONE]");
    if v.len() != marker.len() {
        return false;
    }
    let r = chars_occur_at(v, &marker, 0);
    proof {
        if r {
            assert(v@.subrange(0, v@.len() as int) =~= v@);
        } else {
            assert(v@.subrange(0, v@.len() as int) =~= v@);
        }
    }
    r
}

/// The payloads of a frame up to `[DONE]`, and whether `[DONE]` came.
fn frame_payloads(frame: &Vec<char>) -> (r: (Vec<Vec<char>>, bool))
    ensures
        (piece_views(r.0@), r.1) == line_payloads(lines_of(frame@)),
{
    let ls = lines(frame);
    let ghost all = piece_views(ls@);
    let field = chars_of("data:");
    let mut payloads: Vec<Vec<char>> = Vec::new();
    let mut i: usize = 0;
    assert(all.skip(0) =~= all);
    assert(piece_views(payloads@) + line_payloads(all).0 =~= line_payloads(all).0);
    while i < ls.len()
        invariant
            0 <= i <= ls@.len(),
            all == piece_views(ls@),
            all == lines_of(frame@),
            field@ == "data:"@,
            line_payloads(all) == (piece_views(payloads@) + line_payloads(all.skip(i as int)).0, line_payloads(all.skip(i as int)).1),
        decreases ls@.len() - i,
    {
        let ghost rest = all.skip(i as int);
        assert(rest[0] == ls@[i as int]@);
        assert(rest.drop_first() =~= all.skip(i + 1));
        if chars_occur_at(&ls[i], &field, 0) {
            let p = payload_of(&ls[i]);
            if is_done_marker(&p) {
                assert(line_payloads(rest) == (Seq::<Seq<char>>::empty(), true));
                assert(piece_views(payloads@) + Seq::<Seq<char>>::empty() =~= piece_views(payloads@));
                return (payloads, true);
            }
            let ghost before = payloads@;
            payloads.push(p);
            assert(piece_views(payloads@) =~= piece_views(before).push(data_payload(rest[0])));
            assert(piece_views(before) + line_payloads(rest).0 =~= piece_views(payloads@)
                + line_payloads(all.skip(i + 1)).0);
        }
        i = i + 1;
    }
    assert(all.skip(ls@.len() as int) =~= Seq::<Seq<char>>::empty());
    assert(piece_views(payloads@) + Seq::<Seq<char>>::empty() =~= piece_views(payloads@));
    (payloads, false)
}

impl SseDecoder {
    /// A decoder that has received nothing.
    pub fn new() -> (d: SseDecoder)
        ensures
            d.buffer@ == Seq::<char>::empty(),
            !d.done,
    {
        SseDecoder { buffer: Vec::new(), done: false }
    }

    /// Takes the next piece of the stream and hands back the payloads of the events it
    /// completes, up to `[DONE]` (see [`drain_frames`]).
    pub fn push_text(&mut self, text: &str) -> (payloads: Vec<String>)
        requires
            !old(self).done,
        ensures
            ({
                let (ps, done, rest) = drain_frames(old(self).buffer@ + text@);
                &&& payloads@.map_values(|s: String| s@) == ps
                &&& final(self).done == done
                &&& final(self).buffer@ == rest
            }),
    {
        let incoming = chars_of(text);
        let ghost start = self.buffer@ + text@;
        let mut k: usize = 0;
        while k < incoming.len()
            invariant
                0 <= k <= incoming@.len(),
                incoming@ == text@,
                self.buffer@ == old(self).buffer@ + text@.take(k as int),
                self.done == old(self).done,
                !old(self).done,
            decreases incoming@.len() - k,
        {
            self.buffer.push(incoming[k]);
            assert(old(self).buffer@ + text@.take(k + 1) =~= (old(self).buffer@ + text@.take(k as int)).push(text@[k as int]));
            k = k + 1;
        }
        assert(text@.take(text@.len() as int) =~= text@);
        let mut payloads: Vec<String> = Vec::new();
        assert(payloads@.map_values(|s: String| s@) =~= Seq::<Seq<char>>::empty());
        assert(Seq::<Seq<char>>::empty() + drain_frames(start).0 =~= drain_frames(start).0);
        while !self.done
            invariant
                start == old(self).buffer@ + text@,
                drain_frames(start) == ({
                    let more = drain_frames(self.buffer@);
                    if self.done {
                        (payloads@.map_values(|s: String| s@), true, self.buffer@)
                    } else {
                        (payloads@.map_values(|s: String| s@) + more.0, more.1, more.2)
                    }
                }),
            decreases self.buffer@.len(),
        {
            let ghost buf = self.buffer@;
            match frame_end(&self.buffer) {
                None => {
                    assert(drain_frames(buf) == (Seq::<Seq<char>>::empty(), false, buf));
                    assert(payloads@.map_values(|s: String| s@) + Seq::<Seq<char>>::empty() =~= payloads@.map_values(|s: String| s@));
                    assert(drain_frames(start).0 == payloads@.map_values(|s: String| s@));
                    assert(drain_frames(start).1 == self.done);
                    assert(drain_frames(start).2 == self.buffer@);
                    return payloads;
                },
                Some(end) => {
                    let frame = slice_chars(&self.buffer, 0, end);
                    assert(frame@ =~= buf.take(end as int));
                    let (ps, done) = frame_payloads(&frame);
                    let mut j: usize = 0;
                    let ghost before = payloads@.map_values(|s: String| s@);
                    while j < ps.len()
                        invariant
                            0 <= j <= ps@.len(),
                            payloads@.map_values(|s: String| s@) == before + piece_views(ps@).take(j as int),
                        decreases ps@.len() - j,
                    {
                        let ghost b2 = payloads@;
                        payloads.push(string_of(&ps[j]));
                        assert(payloads@.map_values(|s: String| s@) =~= b2.map_values(|s: String| s@).push(ps@[j as int]@));
                        assert(piece_views(ps@).take(j + 1) =~= piece_views(ps@).take(j as int).push(ps@[j as int]@));
                        j = j + 1;
                    }
                    assert(piece_views(ps@).take(ps@.len() as int) =~= piece_views(ps@));
                    let blen = self.buffer.len();
                    assert(end + 1 < blen);
                    let rest = slice_chars(&self.buffer, end + 2, blen);
                    assert(rest@ =~= buf.skip(end + 2));
                    self.buffer = rest;
                    self.done = done;
                    proof {
                        let more = drain_frames(rest@);
                        assert(before + (piece_views(ps@) + more.0) =~= (before + piece_views(ps@)) + more.0);
                    }
                },
            }
        }
        payloads
    }
}


proof fn lemma_find_frame_end_prefix(a: Seq<char>, b: Seq<char>, from: int)
    requires
        0 <= from,
    ensures
        find_frame_end(a, from) >= 0 ==> find_frame_end(a + b, from) == find_frame_end(a, from),
    decreases a.len() - from,
{
    if from + 1 < a.len() {
        assert((a + b)[from] == a[from] && (a + b)[from + 1] == a[from + 1]);
        if !(a[from] == '\n' && a[from + 1] == '\n') {
            lemma_find_frame_end_prefix(a, b, from + 1);
        }
    }
}

/// How the stream is cut into pieces does not change the events: taking `a` and then
/// `b` gives the payloads, the end marker and the remaining text that taking `a + b` at
/// once gives.
pub proof fn law_chunking_does_not_matter(a: Seq<char>, b: Seq<char>)
    ensures
        ({
            let first = drain_frames(a);
            let whole = drain_frames(a + b);
            if first.1 {
                whole == (first.0, true, first.2 + b)
            } else {
                let second = drain_frames(first.2 + b);
                whole == (first.0 + second.0, second.1, second.2)
            }
        }),
    decreases a.len(),
{
    let end = find_frame_end(a, 0);
    if end < 0 {
        assert(drain_frames(a) == (Seq::<Seq<char>>::empty(), false, a));
        assert(Seq::<Seq<char>>::empty() + drain_frames(a + b).0 =~= drain_frames(a + b).0);
    } else {
        lemma_find_frame_end_range(a, 0);
        lemma_find_frame_end_prefix(a, b, 0);
        assert((a + b).take(end) =~= a.take(end));
        assert((a + b).skip(end + 2) =~= a.skip(end + 2) + b);
        let (payloads, done) = line_payloads(lines_of(a.take(end)));
        if !done {
            law_chunking_does_not_matter(a.skip(end + 2), b);
            let first = drain_frames(a.skip(end + 2));
            if !first.1 {
                let second = drain_frames(first.2 + b);
                assert(payloads + (first.0 + second.0) =~= (payloads + first.0) + second.0);
            }
        }
    }
}

} // verus!
