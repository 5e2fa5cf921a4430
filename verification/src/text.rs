use vstd::prelude::*;

verus! {

/// Appends `c` to `s` (std's `String::push`, documented as appending the char at the end).
#[verifier::external_body]
pub fn push_char(s: &mut String, c: char)
    ensures
        final(s)@ == old(s)@.push(c),
{
    s.push(c);
}

/// The decimal digit character for `d`, which lies in `0..10`.
pub open spec fn digit_char(d: int) -> char {
    if d == 0 { '0' } else if d == 1 { '1' } else if d == 2 { '2' } else if d == 3 { '3' } else if d == 4 { '4' }
    else if d == 5 { '5' } else if d == 6 { '6' } else if d == 7 { '7' } else if d == 8 { '8' } else { '9' }
}

/// The decimal digits of the natural number `n`, most significant first, with no leading zero
/// (`"0"` for zero).
pub open spec fn decimal_digits(n: nat) -> Seq<char>
    decreases n,
{
    if n < 10 {
        seq![digit_char(n as int)]
    } else {
        decimal_digits(n / 10).push(digit_char((n % 10) as int))
    }
}

/// The decimal form of the integer `n`, as Rust prints it: a `-` before the digits of a
/// negative number.
pub open spec fn decimal(n: int) -> Seq<char> {
    if n < 0 { seq!['-'] + decimal_digits((-n) as nat) } else { decimal_digits(n as nat) }
}

fn digit_to_char(d: u64) -> (c: char)
    requires
        d < 10,
    ensures
        c == digit_char(d as int),
{
    if d == 0 { '0' } else if d == 1 { '1' } else if d == 2 { '2' } else if d == 3 { '3' } else if d == 4 { '4' }
    else if d == 5 { '5' } else if d == 6 { '6' } else if d == 7 { '7' } else if d == 8 { '8' } else { '9' }
}

/// Appends the decimal digits of `n` to `out`.
pub fn push_decimal_digits(out: &mut String, n: u64)
    ensures
        final(out)@ == old(out)@ + decimal_digits(n as nat),
    decreases n,
{
    if n < 10 {
        push_char(out, digit_to_char(n));
        assert(decimal_digits(n as nat) == seq![digit_char(n as int)]);
        assert(old(out)@.push(digit_char(n as int)) =~= old(out)@ + seq![digit_char(n as int)]);
    } else {
        push_decimal_digits(out, n / 10);
        push_char(out, digit_to_char(n % 10));
        assert(decimal_digits(n as nat) == decimal_digits((n / 10) as nat).push(digit_char((n % 10) as int)));
        assert((old(out)@ + decimal_digits((n / 10) as nat)).push(digit_char((n % 10) as int))
            =~= old(out)@ + decimal_digits(n as nat));
    }
}

/// Appends the decimal form of `n` to `out`.
pub fn push_decimal_i64(out: &mut String, n: i64)
    ensures
        final(out)@ == old(out)@ + decimal(n as int),
{
    if n < 0 {
        push_char(out, '-');
        let magnitude: u64 = if n == i64::MIN { 9223372036854775808u64 } else { (-n) as u64 };
        assert(magnitude as int == -(n as int));
        push_decimal_digits(out, magnitude);
        assert(old(out)@.push('-') + decimal_digits(magnitude as nat) =~= old(out)@ + (seq!['-'] + decimal_digits(magnitude as nat)));
    } else {
        push_decimal_digits(out, n as u64);
    }
}

/// Appends the characters of `tail` to `out`.
pub fn push_str(out: &mut String, tail: &str)
    ensures
        final(out)@ == old(out)@ + tail@,
{
    out.append(tail);
}

/// Appends the characters of `tail` to `out`.
pub fn push_string(out: &mut String, tail: &String)
    ensures
        final(out)@ == old(out)@ + tail@,
{
    out.append(tail.as_str());
}



/// Unicode's `White_Space` characters, which `char::is_whitespace` recognises.
pub open spec fn is_whitespace(c: char) -> bool {
    ||| c == '\t' || c == '\n' || c == '\u{0B}' || c == '\u{0C}' || c == '\r' || c == ' '
    ||| c == '\u{85}' || c == '\u{A0}' || c == '\u{1680}'
    ||| ('\u{2000}' <= c && c <= '\u{200A}')
    ||| c == '\u{2028}' || c == '\u{2029}' || c == '\u{202F}' || c == '\u{205F}' || c == '\u{3000}'
}

/// Whether `c` is a Unicode white-space character.
pub fn is_whitespace_char(c: char) -> (r: bool)
    ensures
        r == is_whitespace(c),
{
    c == '\t' || c == '\n' || c == '\u{0B}' || c == '\u{0C}' || c == '\r' || c == ' ' || c
        == '\u{85}' || c == '\u{A0}' || c == '\u{1680}' || ('\u{2000}' <= c && c <= '\u{200A}')
        || c == '\u{2028}' || c == '\u{2029}' || c == '\u{202F}' || c == '\u{205F}' || c
        == '\u{3000}'
}

/// `s` without its leading white space.
pub open spec fn trim_start(s: Seq<char>) -> Seq<char>
    decreases s.len(),
{
    if s.len() > 0 && is_whitespace(s[0]) {
        trim_start(s.drop_first())
    } else {
        s
    }
}

/// `s` without its trailing white space.
pub open spec fn trim_end(s: Seq<char>) -> Seq<char>
    decreases s.len(),
{
    if s.len() > 0 && is_whitespace(s.last()) {
        trim_end(s.drop_last())
    } else {
        s
    }
}

/// `s` without leading and trailing white space, as `str::trim` gives it.
pub open spec fn trimmed(s: Seq<char>) -> Seq<char> {
    trim_end(trim_start(s))
}

/// The pieces of `s` between the characters that `is_sep` accepts, empty pieces included,
/// as `str::split` with a character predicate gives them.
pub open spec fn split_by(s: Seq<char>, is_sep: spec_fn(char) -> bool) -> Seq<Seq<char>>
    decreases s.len(),
{
    if s.len() == 0 {
        seq![Seq::empty()]
    } else {
        let pieces = split_by(s.drop_last(), is_sep);
        if is_sep(s.last()) {
            pieces.push(Seq::empty())
        } else {
            pieces.update(pieces.len() - 1, pieces.last().push(s.last()))
        }
    }
}

/// Splitting always gives at least one piece.
pub proof fn lemma_split_by_nonempty(s: Seq<char>, is_sep: spec_fn(char) -> bool)
    ensures
        split_by(s, is_sep).len() >= 1,
    decreases s.len(),
{
    if s.len() > 0 {
        lemma_split_by_nonempty(s.drop_last(), is_sep);
    }
}

/// No piece of a split holds a separator: every separator is a cut.
pub proof fn law_pieces_hold_no_separator(s: Seq<char>, is_sep: spec_fn(char) -> bool)
    ensures
        forall|i: int, j: int|
            0 <= i < split_by(s, is_sep).len() && 0 <= j < split_by(s, is_sep)[i].len() ==> !is_sep(
                #[trigger] split_by(s, is_sep)[i][j],
            ),
    decreases s.len(),
{
    if s.len() > 0 {
        law_pieces_hold_no_separator(s.drop_last(), is_sep);
        lemma_split_by_nonempty(s.drop_last(), is_sep);
        let pieces = split_by(s.drop_last(), is_sep);
        let all = split_by(s, is_sep);
        assert forall|i: int, j: int| 0 <= i < all.len() && 0 <= j < all[i].len() implies !is_sep(
            #[trigger] all[i][j],
        ) by {
            if is_sep(s.last()) {
                if i < pieces.len() {
                    assert(all[i] == pieces[i]);
                }
            } else {
                if i < pieces.len() - 1 {
                    assert(all[i] == pieces[i]);
                } else {
                    assert(all[i] == pieces.last().push(s.last()));
                    if j < pieces.last().len() {
                        assert(all[i][j] == pieces[pieces.len() - 1][j]);
                    }
                }
            }
        }
    }
}

/// The words of a text are non-empty and hold no white space.
pub proof fn law_words_hold_no_white_space(s: Seq<char>)
    ensures
        forall|i: int| 0 <= i < words(s).len() ==> #[trigger] words(s)[i].len() > 0,
        forall|i: int, j: int|
            0 <= i < words(s).len() && 0 <= j < words(s)[i].len() ==> !is_whitespace(#[trigger] words(s)[i][j]),
{
    let pieces = split_by(s, whitespace_sep());
    let pred = |w: Seq<char>| w.len() > 0;
    law_pieces_hold_no_separator(s, whitespace_sep());
    pieces.filter_lemma(pred);
    assert forall|i: int, j: int|
        0 <= i < words(s).len() && 0 <= j < words(s)[i].len() implies !is_whitespace(#[trigger] words(s)[i][j]) by {
        let w = words(s)[i];
        assert(pieces.filter(pred).contains(w));
        pieces.lemma_filter_contains_rev(pred, w);
        let k = choose|k: int| 0 <= k < pieces.len() && pieces[k] == w;
        assert(!whitespace_sep()(pieces[k][j]));
    }
}

/// Every character of pieces joined with a separator comes from a piece or the separator.
pub proof fn lemma_join_with_chars(pieces: Seq<Seq<char>>, sep: Seq<char>, ok: spec_fn(char) -> bool)
    requires
        forall|i: int, j: int| 0 <= i < pieces.len() && 0 <= j < pieces[i].len() ==> ok(#[trigger] pieces[i][j]),
        forall|j: int| 0 <= j < sep.len() ==> ok(#[trigger] sep[j]),
    ensures
        forall|j: int| 0 <= j < join_with(pieces, sep).len() ==> ok(#[trigger] join_with(pieces, sep)[j]),
    decreases pieces.len(),
{
    if pieces.len() == 1 {
        assert forall|j: int| 0 <= j < join_with(pieces, sep).len() implies ok(#[trigger] join_with(pieces, sep)[j]) by {
            assert(pieces[0][j] == join_with(pieces, sep)[j]);
        }
    } else if pieces.len() > 1 {
        let init = pieces.drop_last();
        assert forall|i: int, j: int| 0 <= i < init.len() && 0 <= j < init[i].len() implies ok(#[trigger] init[i][j]) by {
            assert(init[i] == pieces[i]);
        }
        lemma_join_with_chars(init, sep, ok);
        let a = join_with(init, sep);
        let l = pieces.last();
        let r = a + sep + l;
        assert forall|j: int| 0 <= j < r.len() implies ok(#[trigger] r[j]) by {
            if j < a.len() {
                assert(r[j] == a[j]);
            } else if j < a.len() + sep.len() {
                assert(r[j] == sep[j - a.len()]);
            } else {
                assert(r[j] == pieces[pieces.len() - 1][j - a.len() - sep.len()]);
            }
        }
    }
}

/// The white-space predicate as a value.
pub open spec fn whitespace_sep() -> spec_fn(char) -> bool {
    |c: char| is_whitespace(c)
}

/// The words of `s`: its maximal runs of characters other than white space, as
/// `str::split_whitespace` gives them.
pub open spec fn words(s: Seq<char>) -> Seq<Seq<char>> {
    split_by(s, whitespace_sep()).filter(|w: Seq<char>| w.len() > 0)
}

/// `pieces` joined with `sep` between each two.
pub open spec fn join_with(pieces: Seq<Seq<char>>, sep: Seq<char>) -> Seq<char>
    decreases pieces.len(),
{
    if pieces.len() == 0 {
        Seq::empty()
    } else if pieces.len() == 1 {
        pieces[0]
    } else {
        join_with(pieces.drop_last(), sep) + sep + pieces.last()
    }
}

/// The ASCII lower-case form of `c`; other characters are kept.
pub open spec fn ascii_lower(c: char) -> char {
    if 'A' <= c && c <= 'Z' {
        ((c as u32) + 32) as char
    } else {
        c
    }
}

/// `a` and `b` are equal up to ASCII case, as `str::eq_ignore_ascii_case` decides.
pub open spec fn eq_ignore_ascii_case(a: Seq<char>, b: Seq<char>) -> bool {
    a.len() == b.len() && forall|i: int| 0 <= i < a.len() ==> ascii_lower(#[trigger] a[i]) == ascii_lower(b[i])
}

/// `pat` occurs in `s` at position `i`.
pub open spec fn occurs_at(s: Seq<char>, pat: Seq<char>, i: int) -> bool {
    0 <= i && i + pat.len() <= s.len() && s.subrange(i, i + pat.len()) == pat
}

/// `pat` occurs somewhere in `s`.
pub open spec fn contains_seq(s: Seq<char>, pat: Seq<char>) -> bool {
    exists|i: int| occurs_at(s, pat, i)
}

/// The characters of `s`.
pub fn chars_of(s: &str) -> (v: Vec<char>)
    ensures
        v@ == s@,
{
    let mut v: Vec<char> = Vec::new();
    proof {
        vstd::string::axiom_spec_iter(s);
    }
    for c in it: s.chars()
        invariant
            it.seq() == s@,
            v@ == it.seq().take(it.index()),
    {
        assert(it.seq().take(it.index() + 1) =~= it.seq().take(it.index()).push(c));
        v.push(c);
    }
    assert(s@.take(s@.len() as int) =~= s@);
    v
}

/// A string of the characters of `v`.
pub fn string_of(v: &Vec<char>) -> (s: String)
    ensures
        s@ == v@,
{
    let mut s = String::new();
    let mut i: usize = 0;
    while i < v.len()
        invariant
            0 <= i <= v.len(),
            s@ == v@.take(i as int),
        decreases v.len() - i,
    {
        push_char(&mut s, v[i]);
        assert(v@.take(i + 1) =~= v@.take(i as int).push(v@[i as int]));
        i = i + 1;
    }
    assert(v@.take(v.len() as int) =~= v@);
    s
}

/// The characters `v[from..to]`.
pub fn slice_chars(v: &Vec<char>, from: usize, to: usize) -> (r: Vec<char>)
    requires
        from <= to <= v.len(),
    ensures
        r@ == v@.subrange(from as int, to as int),
{
    let mut r: Vec<char> = Vec::new();
    let mut i = from;
    while i < to
        invariant
            from <= i <= to <= v.len(),
            r@ == v@.subrange(from as int, i as int),
        decreases to - i,
    {
        r.push(v[i]);
        assert(v@.subrange(from as int, i + 1) =~= v@.subrange(from as int, i as int).push(v@[i as int]));
        i = i + 1;
    }
    r
}

proof fn lemma_trim_start_skip(s: Seq<char>, i: int)
    requires
        0 <= i <= s.len(),
        forall|j: int| 0 <= j < i ==> is_whitespace(#[trigger] s[j]),
        i == s.len() || !is_whitespace(s[i]),
    ensures
        trim_start(s) == s.skip(i),
    decreases i,
{
    if i > 0 {
        assert(s.drop_first().skip(i - 1) =~= s.skip(i));
        lemma_trim_start_skip(s.drop_first(), i - 1);
    } else {
        assert(s.skip(0) =~= s);
    }
}

proof fn lemma_trim_end_take(s: Seq<char>, j: int)
    requires
        0 <= j <= s.len(),
        forall|k: int| j <= k < s.len() ==> is_whitespace(#[trigger] s[k]),
        j == 0 || !is_whitespace(s[j - 1]),
    ensures
        trim_end(s) == s.take(j),
    decreases s.len() - j,
{
    if j < s.len() {
        assert(s.drop_last().take(j) =~= s.take(j));
        lemma_trim_end_take(s.drop_last(), j);
    } else {
        assert(s.take(j) =~= s);
    }
}

/// `v` without leading and trailing white space.
pub fn trim_chars(v: &Vec<char>) -> (r: Vec<char>)
    ensures
        r@ == trimmed(v@),
{
    let mut i: usize = 0;
    while i < v.len() && is_whitespace_char(v[i])
        invariant
            0 <= i <= v.len(),
            forall|j: int| 0 <= j < i ==> is_whitespace(#[trigger] v@[j]),
        decreases v.len() - i,
    {
        i = i + 1;
    }
    proof {
        lemma_trim_start_skip(v@, i as int);
    }
    let mut j: usize = v.len();
    while j > i && is_whitespace_char(v[j - 1])
        invariant
            i <= j <= v.len(),
            forall|k: int| j <= k < v.len() ==> is_whitespace(#[trigger] v@[k]),
        decreases j,
    {
        j = j - 1;
    }
    proof {
        let rest = v@.skip(i as int);
        assert forall|k: int| j - i <= k < rest.len() implies is_whitespace(#[trigger] rest[k]) by {
            assert(rest[k] == v@[k + i]);
        }
        if j > i {
            assert(rest[j - i - 1] == v@[j - 1]);
        }
        lemma_trim_end_take(rest, j - i);
        assert(rest.take(j - i) =~= v@.subrange(i as int, j as int));
    }
    slice_chars(v, i, j)
}

/// `s` without leading and trailing white space.
pub fn trim(s: &str) -> (r: String)
    ensures
        r@ == trimmed(s@),
{
    let v = chars_of(s);
    let t = trim_chars(&v);
    string_of(&t)
}

/// The ASCII lower-case form of `c`.
pub fn to_ascii_lower(c: char) -> (r: char)
    ensures
        r == ascii_lower(c),
{
    if 'A' <= c && c <= 'Z' {
        let code: u8 = (c as u8) + 32;
        code as char
    } else {
        c
    }
}

/// Whether `a` and `b` are equal up to ASCII case.
pub fn chars_eq_ignore_ascii_case(a: &Vec<char>, b: &Vec<char>) -> (r: bool)
    ensures
        r == eq_ignore_ascii_case(a@, b@),
{
    if a.len() != b.len() {
        return false;
    }
    let mut i: usize = 0;
    while i < a.len()
        invariant
            0 <= i <= a.len(),
            a.len() == b.len(),
            forall|k: int| 0 <= k < i ==> ascii_lower(#[trigger] a@[k]) == ascii_lower(b@[k]),
        decreases a.len() - i,
    {
        if to_ascii_lower(a[i]) != to_ascii_lower(b[i]) {
            return false;
        }
        i = i + 1;
    }
    true
}

/// Whether `pat` occurs in `v` at position `i`.
pub fn chars_occur_at(v: &Vec<char>, pat: &Vec<char>, i: usize) -> (r: bool)
    ensures
        r == occurs_at(v@, pat@, i as int),
{
    if pat.len() > v.len() || i > v.len() - pat.len() {
        return false;
    }
    let mut k: usize = 0;
    while k < pat.len()
        invariant
            0 <= k <= pat.len(),
            i + pat.len() <= v.len(),
            forall|q: int| 0 <= q < k ==> #[trigger] v@[i + q] == pat@[q],
        decreases pat.len() - k,
    {
        if v[i + k] != pat[k] {
            assert(v@.subrange(i as int, i + pat.len())[k as int] != pat@[k as int]);
            return false;
        }
        k = k + 1;
    }
    assert forall|q: int| 0 <= q < pat.len() implies #[trigger] v@.subrange(i as int, i + pat.len())[q] == pat@[q] by {
        assert(v@[i + q] == pat@[q]);
    }
    assert(v@.subrange(i as int, i + pat.len()) =~= pat@);
    true
}

/// Whether `pat` occurs somewhere in `v`.
pub fn chars_contain(v: &Vec<char>, pat: &Vec<char>) -> (r: bool)
    ensures
        r == contains_seq(v@, pat@),
{
    if pat.len() > v.len() {
        assert(!contains_seq(v@, pat@));
        return false;
    }
    let last = v.len() - pat.len();
    let mut i: usize = 0;
    while i < last
        invariant
            pat.len() <= v.len(),
            last == v.len() - pat.len(),
            0 <= i <= last,
            forall|q: int| 0 <= q < i ==> !#[trigger] occurs_at(v@, pat@, q),
        decreases last - i,
    {
        if chars_occur_at(v, pat, i) {
            return true;
        }
        i = i + 1;
    }
    if chars_occur_at(v, pat, last) {
        return true;
    }
    assert forall|q: int| !#[trigger] occurs_at(v@, pat@, q) by {
        if 0 <= q < i {
        }
    }
    false
}


/// The separators that split a shell command into words: white space and `| & ; ( ) < >`.
pub open spec fn is_shell_separator(c: char) -> bool {
    is_whitespace(c) || c == '|' || c == '&' || c == ';' || c == '(' || c == ')' || c == '<' || c
        == '>'
}

/// The shell-separator predicate as a value.
pub open spec fn shell_sep() -> spec_fn(char) -> bool {
    |c: char| is_shell_separator(c)
}

/// The line-feed predicate as a value.
pub open spec fn newline_sep() -> spec_fn(char) -> bool {
    |c: char| c == '\n'
}

/// Which characters separate the pieces that `split_chars` cuts.
#[derive(Clone, Copy)]
pub enum Separator {
    /// White space.
    Whitespace,
    /// White space and the shell punctuation `| & ; ( ) < >`.
    Shell,
    /// Line feeds.
    Newline,
}

/// The separator predicate that `split_chars` uses.
pub open spec fn separator(kind: Separator) -> spec_fn(char) -> bool {
    match kind {
        Separator::Whitespace => whitespace_sep(),
        Separator::Shell => shell_sep(),
        Separator::Newline => newline_sep(),
    }
}

/// The character sequences held by `pieces`.
pub open spec fn piece_views(pieces: Seq<Vec<char>>) -> Seq<Seq<char>> {
    pieces.map_values(|p: Vec<char>| p@)
}

/// The filter that keeps non-empty pieces.
pub open spec fn non_empty() -> spec_fn(Seq<char>) -> bool {
    |w: Seq<char>| w.len() > 0
}

fn is_separator(c: char, kind: Separator) -> (r: bool)
    ensures
        r == separator(kind)(c),
{
    match kind {
        Separator::Whitespace => is_whitespace_char(c),
        Separator::Shell => is_whitespace_char(c) || c == '|' || c == '&' || c == ';' || c == '('
            || c == ')' || c == '<' || c == '>',
        Separator::Newline => c == '\n',
    }
}

/// The pieces of `v` between the separators of `kind`, empty pieces included.
pub fn split_chars(v: &Vec<char>, kind: Separator) -> (pieces: Vec<Vec<char>>)
    ensures
        piece_views(pieces@) == split_by(v@, separator(kind)),
{
    let ghost sep = separator(kind);
    let mut pieces: Vec<Vec<char>> = Vec::new();
    let mut current: Vec<char> = Vec::new();
    let mut i: usize = 0;
    assert(v@.take(0) =~= Seq::<char>::empty());
    assert(piece_views(pieces@).push(current@) =~= seq![Seq::<char>::empty()]);
    while i < v.len()
        invariant
            0 <= i <= v.len(),
            sep == separator(kind),
            piece_views(pieces@).push(current@) == split_by(v@.take(i as int), sep),
        decreases v.len() - i,
    {
        let c = v[i];
        let ghost before = v@.take(i as int);
        let ghost old_pieces = pieces@;
        let ghost old_current = current@;
        assert(v@.take(i + 1).drop_last() =~= before);
        assert(v@.take(i + 1).last() == c);
        if is_separator(c, kind) {
            pieces.push(current);
            current = Vec::new();
            assert(piece_views(pieces@) =~= piece_views(old_pieces).push(old_current));
            assert(piece_views(pieces@).push(current@) =~= split_by(before, sep).push(
                Seq::empty(),
            ));
        } else {
            current.push(c);
            assert(piece_views(pieces@).push(current@) =~= split_by(before, sep).update(
                split_by(before, sep).len() - 1,
                split_by(before, sep).last().push(c),
            ));
        }
        i = i + 1;
    }
    pieces.push(current);
    assert(v@.take(v.len() as int) =~= v@);
    assert(piece_views(pieces@) =~= split_by(v@, sep));
    pieces
}

/// The words of `v`: its maximal runs of non-white-space characters.
pub fn words_of(v: &Vec<char>) -> (ws: Vec<Vec<char>>)
    ensures
        piece_views(ws@) == words(v@),
{
    let pieces = split_chars(v, Separator::Whitespace);
    let ghost all = piece_views(pieces@);
    let mut ws: Vec<Vec<char>> = Vec::new();
    let mut i: usize = 0;
    while i < pieces.len()
        invariant
            0 <= i <= pieces.len(),
            all == piece_views(pieces@),
            piece_views(ws@) == all.take(i as int).filter(non_empty()),
        decreases pieces.len() - i,
    {
        let ghost before = ws@;
        proof {
            assert(all.take(i + 1) =~= all.take(i as int).push(all[i as int]));
            all.take(i as int).lemma_filter_push(all[i as int], non_empty());
        }
        if pieces[i].len() > 0 {
            ws.push(pieces[i].clone());
            assert(piece_views(ws@) =~= piece_views(before).push(all[i as int]));
        }
        i = i + 1;
    }
    assert(all.take(pieces.len() as int) =~= all);
    assert(whitespace_sep() == separator(Separator::Whitespace));
    ws
}

/// `pieces` joined with single spaces.
pub fn join_with_spaces(pieces: &Vec<Vec<char>>) -> (r: Vec<char>)
    ensures
        r@ == join_with(piece_views(pieces@), seq![' ']),
{
    let ghost all = piece_views(pieces@);
    let mut r: Vec<char> = Vec::new();
    let mut i: usize = 0;
    while i < pieces.len()
        invariant
            0 <= i <= pieces.len(),
            all == piece_views(pieces@),
            r@ == join_with(all.take(i as int), seq![' ']),
        decreases pieces.len() - i,
    {
        let ghost before = r@;
        if i > 0 {
            r.push(' ');
        }
        let mut k: usize = 0;
        while k < pieces[i].len()
            invariant
                0 <= i < pieces.len(),
                0 <= k <= pieces@[i as int]@.len(),
                all == piece_views(pieces@),
                r@ == (if i > 0 { before + seq![' '] } else { before }) + pieces@[i as int]@.take(k as int),
            decreases pieces@[i as int]@.len() - k,
        {
            r.push(pieces[i][k]);
            assert(pieces@[i as int]@.take(k + 1) =~= pieces@[i as int]@.take(k as int).push(pieces@[i as int]@[k as int]));
            k = k + 1;
        }
        proof {
            let next = all.take(i + 1);
            assert(pieces@[i as int]@.take(k as int) =~= all[i as int]);
            assert(next.drop_last() =~= all.take(i as int));
            if i == 0 {
                assert(before =~= Seq::<char>::empty());
                assert(r@ =~= next[0]);
            } else {
                assert(r@ =~= join_with(next.drop_last(), seq![' ']) + seq![' '] + next.last());
            }
        }
        i = i + 1;
    }
    assert(all.take(pieces.len() as int) =~= all);
    r
}


/// `c` is an ASCII decimal digit.
pub open spec fn is_digit(c: char) -> bool {
    '0' <= c && c <= '9'
}

/// The value of the decimal digits `s`.
pub open spec fn digits_value(s: Seq<char>) -> nat
    decreases s.len(),
{
    if s.len() == 0 {
        0
    } else {
        digits_value(s.drop_last()) * 10 + ((s.last() as u32) - ('0' as u32)) as nat
    }
}

/// What `usize::from_str` reads from `s`: an optional `+`, then one or more decimal digits
/// whose value fits in a `usize`; `None` for anything else.
pub open spec fn parsed_usize(s: Seq<char>) -> Option<nat> {
    let digits = unsigned_digits(s);
    if digits.len() > 0 && all_digits(digits) && digits_value(digits) <= usize::MAX {
        Some(digits_value(digits))
    } else {
        None
    }
}

/// `s` without a leading `+`.
pub open spec fn unsigned_digits(s: Seq<char>) -> Seq<char> {
    if s.len() > 0 && s[0] == '+' {
        s.drop_first()
    } else {
        s
    }
}

/// Every character of `s` is a decimal digit.
pub open spec fn all_digits(s: Seq<char>) -> bool {
    forall|i: int| 0 <= i < s.len() ==> is_digit(#[trigger] s[i])
}

proof fn lemma_digits_value_monotone(s: Seq<char>, i: int)
    requires
        0 <= i <= s.len(),
        forall|j: int| 0 <= j < s.len() ==> is_digit(#[trigger] s[j]),
    ensures
        digits_value(s.take(i)) <= digits_value(s),
    decreases s.len() - i,
{
    if i < s.len() {
        lemma_digits_value_monotone(s, i + 1);
        assert(s.take(i + 1).drop_last() =~= s.take(i));
    } else {
        assert(s.take(i) =~= s);
    }
}

/// Reads a `usize` from `v` (see [`parsed_usize`]).
pub fn parse_usize(v: &Vec<char>) -> (r: Option<usize>)
    ensures
        match r {
            Some(n) => parsed_usize(v@) == Some(n as nat),
            None => parsed_usize(v@) is None,
        },
{
    let start: usize = if v.len() > 0 && v[0] == '+' { 1 } else { 0 };
    let ghost digits = unsigned_digits(v@);
    assert(digits =~= v@.skip(start as int));
    if start == v.len() {
        return None;
    }
    let mut value: usize = 0;
    let mut i: usize = start;
    while i < v.len()
        invariant
            start <= i <= v@.len(),
            digits =~= v@.skip(start as int),
            digits == unsigned_digits(v@),
            forall|j: int| 0 <= j < i - start ==> is_digit(#[trigger] digits[j]),
            value as nat == digits_value(digits.take(i - start)),
        decreases v@.len() - i,
    {
        let c = v[i];
        if !('0' <= c && c <= '9') {
            assert(digits[i - start] == c);
            assert(!all_digits(digits)) by {
                assert(!is_digit(digits[i - start]));
            }
            assert(parsed_usize(v@) is None);
            return None;
        }
        let d: usize = ((c as u32) - ('0' as u32)) as usize;
        assert(digits.take(i - start + 1).drop_last() =~= digits.take(i - start));
        assert(digits.take(i - start + 1).last() == c);
        match value.checked_mul(10) {
            Some(m) => match m.checked_add(d) {
                Some(n) => {
                    value = n;
                },
                None => {
                    proof {
                        assert(digits_value(digits.take(i - start + 1)) > usize::MAX);
                        if all_digits(digits) {
                            lemma_digits_value_monotone(digits, i - start + 1);
                            assert(digits_value(digits) > usize::MAX);
                        }
                        assert(parsed_usize(v@) is None);
                    }
                    return None;
                },
            },
            None => {
                proof {
                    assert(digits_value(digits.take(i - start + 1)) > usize::MAX) by (nonlinear_arith)
                        requires
                            digits_value(digits.take(i - start + 1)) == value * 10 + d,
                            value * 10 > usize::MAX,
                    ;
                    if all_digits(digits) {
                        lemma_digits_value_monotone(digits, i - start + 1);
                        assert(digits_value(digits) > usize::MAX);
                    }
                    assert(parsed_usize(v@) is None);
                }
                return None;
            },
        }
        i = i + 1;
    }
    assert(digits.take(v@.len() - start) =~= digits);
    Some(value)
}

} // verus!
