use vstd::prelude::*;

verus! {

/// `c` opens a bracket pair.
pub open spec fn is_opener(c: char) -> bool {
    c == '(' || c == '[' || c == '{'
}

/// The character that closes the bracket `c` opens.
pub open spec fn closer_of(c: char) -> char {
    if c == '(' {
        ')'
    } else if c == '[' {
        ']'
    } else {
        '}'
    }
}

/// The brackets left open, innermost last, after reading `s`; `None` once some character
/// of `s` is neither an opener nor the closer of the innermost open bracket.
pub open spec fn open_brackets(s: Seq<char>) -> Option<Seq<char>>
    decreases s.len(),
{
    if s.len() == 0 {
        Some(Seq::empty())
    } else {
        match open_brackets(s.drop_last()) {
            None => None,
            Some(open) => if is_opener(s.last()) {
                Some(open.push(s.last()))
            } else if open.len() > 0 && closer_of(open.last()) == s.last() {
                Some(open.drop_last())
            } else {
                None
            },
        }
    }
}

/// `s` is made of brackets, each closed in order by its matching closer.
pub open spec fn is_balanced(s: Seq<char>) -> bool {
    open_brackets(s) == Some(Seq::<char>::empty())
}

/// `c` closes a bracket pair.
pub open spec fn is_closer(c: char) -> bool {
    c == ')' || c == ']' || c == '}'
}

/// How many characters of `s` open a bracket.
pub open spec fn count_openers(s: Seq<char>) -> nat
    decreases s.len(),
{
    if s.len() == 0 {
        0
    } else {
        count_openers(s.drop_last()) + if is_opener(s.last()) { 1nat } else { 0nat }
    }
}

/// How many characters of `s` close a bracket.
pub open spec fn count_closers(s: Seq<char>) -> nat
    decreases s.len(),
{
    if s.len() == 0 {
        0
    } else {
        count_closers(s.drop_last()) + if is_closer(s.last()) { 1nat } else { 0nat }
    }
}

proof fn lemma_open_count(s: Seq<char>)
    requires
        open_brackets(s) is Some,
    ensures
        count_openers(s) == count_closers(s) + open_brackets(s)->0.len(),
        forall|i: int| 0 <= i < s.len() ==> is_opener(#[trigger] s[i]) || is_closer(s[i]),
    decreases s.len(),
{
    if s.len() > 0 {
        lemma_open_count(s.drop_last());
        assert forall|i: int| 0 <= i < s.len() implies is_opener(#[trigger] s[i]) || is_closer(s[i]) by {
            if i < s.len() - 1 {
                assert(s[i] == s.drop_last()[i]);
            }
        }
    }
}

/// A balanced string is made of brackets only, and no prefix closes more brackets than it
/// opens, while the whole string closes as many as it opens.
pub proof fn law_balanced_never_closes_more_than_opened(s: Seq<char>)
    requires
        is_balanced(s),
    ensures
        forall|i: int| 0 <= i <= s.len() ==> count_closers(#[trigger] s.take(i)) <= count_openers(s.take(i)),
        count_openers(s) == count_closers(s),
        forall|i: int| 0 <= i < s.len() ==> is_opener(#[trigger] s[i]) || is_closer(s[i]),
{
    lemma_open_count(s);
    assert forall|i: int| 0 <= i <= s.len() implies count_closers(#[trigger] s.take(i)) <= count_openers(
        s.take(i),
    ) by {
        if open_brackets(s.take(i)) is None {
            lemma_open_brackets_none_stays(s, i);
        }
        lemma_open_count(s.take(i));
    }
}

proof fn lemma_open_brackets_concat(a: Seq<char>, b: Seq<char>)
    requires
        open_brackets(a) is Some,
        open_brackets(b) is Some,
    ensures
        open_brackets(a + b) == Some(open_brackets(a)->0 + open_brackets(b)->0),
    decreases b.len(),
{
    let p = open_brackets(a)->0;
    if b.len() == 0 {
        assert(a + b =~= a);
        assert(p + Seq::<char>::empty() =~= p);
    } else {
        let b2 = b.drop_last();
        lemma_open_brackets_concat(a, b2);
        let st2 = open_brackets(b2)->0;
        assert((a + b).drop_last() =~= a + b2);
        assert((a + b).last() == b.last());
        let c = b.last();
        if is_opener(c) {
            assert((p + st2).push(c) =~= p + st2.push(c));
        } else {
            assert((p + st2).last() == st2.last());
            assert((p + st2).drop_last() =~= p + st2.drop_last());
        }
    }
}

/// The empty string is balanced.
pub proof fn law_empty_is_balanced()
    ensures
        is_balanced(Seq::<char>::empty()),
{
}

/// Two balanced strings in a row are balanced.
pub proof fn law_balanced_concat(a: Seq<char>, b: Seq<char>)
    requires
        is_balanced(a),
        is_balanced(b),
    ensures
        is_balanced(a + b),
{
    lemma_open_brackets_concat(a, b);
    assert(Seq::<char>::empty() + Seq::<char>::empty() =~= Seq::<char>::empty());
}

/// A balanced string wrapped in a matching pair of brackets is balanced.
pub proof fn law_balanced_wrapped(open: char, s: Seq<char>)
    requires
        is_opener(open),
        is_balanced(s),
    ensures
        is_balanced(seq![open] + s + seq![closer_of(open)]),
{
    let o = seq![open];
    assert(o.drop_last() =~= Seq::<char>::empty());
    assert(open_brackets(o.drop_last()) == Some(Seq::<char>::empty()));
    assert(o.last() == open);
    assert(open_brackets(o) == Some(Seq::<char>::empty().push(open)));
    lemma_open_brackets_concat(o, s);
    let w = seq![open] + s + seq![closer_of(open)];
    assert(w.drop_last() =~= o + s);
    assert(Seq::<char>::empty().push(open) + Seq::<char>::empty() =~= seq![open]);
    assert(seq![open].drop_last() =~= Seq::<char>::empty());
}

fn opens(c: char) -> (r: bool)
    ensures
        r == is_opener(c),
{
    c == '(' || c == '[' || c == '{'
}

fn closing(c: char) -> (r: char)
    ensures
        r == closer_of(c),
{
    if c == '(' {
        ')'
    } else if c == '[' {
        ']'
    } else {
        '}'
    }
}

/// Checks bracket strings.
pub struct Solution {}

impl Solution {
    /// Whether `s` is a balanced bracket string (see [`is_balanced`]).
    pub fn is_valid(s: String) -> (r: bool)
        ensures
            r == is_balanced(s@),
            r ==> count_openers(s@) == count_closers(s@),
            r ==> forall|i: int| 0 <= i <= s@.len() ==> count_closers(#[trigger] s@.take(i)) <= count_openers(s@.take(i)),
    {
        let text = s.as_str();
        let n = text.unicode_len();
        let mut stack: Vec<char> = Vec::new();
        let mut i: usize = 0;
        while i < n
            invariant
                0 <= i <= n,
                n == s@.len(),
                text@ == s@,
                open_brackets(s@.take(i as int)) == Some(stack@),
            decreases n - i,
        {
            let a = text.get_char(i);
            proof {
                assert(s@.take(i + 1).drop_last() =~= s@.take(i as int));
                assert(s@.take(i + 1).last() == a);
            }
            if opens(a) {
                stack.push(a);
            } else if stack.len() > 0 && closing(stack[stack.len() - 1]) == a {
                stack.pop();
            } else {
                proof {
                    lemma_open_brackets_none_stays(s@, i as int + 1);
                    assert(s@.take(s@.len() as int) =~= s@);
                }
                return false;
            }
            i = i + 1;
        }
        assert(s@.take(n as int) =~= s@);
        if stack.len() == 0 {
            assert(stack@ =~= Seq::<char>::empty());
            proof {
                law_balanced_never_closes_more_than_opened(s@);
            }
        }
        stack.len() == 0
    }
}

/// Once a prefix closes nothing, every longer prefix does too.
proof fn lemma_open_brackets_none_stays(s: Seq<char>, i: int)
    requires
        0 <= i <= s.len(),
        open_brackets(s.take(i)) is None,
    ensures
        open_brackets(s) is None,
    decreases s.len() - i,
{
    if i < s.len() {
        assert(s.take(i + 1).drop_last() =~= s.take(i));
        lemma_open_brackets_none_stays(s, i + 1);
    } else {
        assert(s.take(i) =~= s);
    }
}

} // verus!
