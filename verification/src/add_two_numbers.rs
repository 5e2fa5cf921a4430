use vstd::prelude::*;
use crate::listnode_lib::{ListNode, list_seq, into_values, to_list};

verus! {

/// `10` raised to `e`.
pub open spec fn pow10(e: nat) -> int
    decreases e,
{
    if e == 0 { 1 } else { 10 * pow10((e - 1) as nat) }
}

/// The number whose decimal digits are `s`, least significant digit first.
pub open spec fn digits_value(s: Seq<i32>) -> int
    decreases s.len(),
{
    if s.len() == 0 { 0 } else { s[0] + 10 * digits_value(s.drop_first()) }
}

/// Every value of `s` is a decimal digit.
pub open spec fn all_digits(s: Seq<i32>) -> bool {
    forall|i: int| 0 <= i < s.len() ==> 0 <= #[trigger] s[i] <= 9
}

/// `v` divided by ten, rounded toward zero, as Rust's integer division gives it.
pub open spec fn div10(v: int) -> int {
    if v >= 0 { v / 10 } else { -((-v) / 10) }
}

/// The carry into position `i` of the addition of `a` and `b`.
pub open spec fn carry_into(a: Seq<i32>, b: Seq<i32>, i: nat) -> int
    decreases i,
{
    if i == 0 {
        0
    } else {
        div10(digit_at(a, i - 1) + digit_at(b, i - 1) + carry_into(a, b, (i - 1) as nat))
    }
}

/// Every step of the addition stays inside `i32`: at each position up to the longer list,
/// the two values added, and then the carry added to that.
pub open spec fn sums_fit_i32(a: Seq<i32>, b: Seq<i32>) -> bool {
    forall|i: int|
        0 <= i < a.len() || 0 <= i < b.len() ==> {
            &&& i32::MIN <= #[trigger] digit_at(a, i) + digit_at(b, i) <= i32::MAX
            &&& i32::MIN <= digit_at(a, i) + digit_at(b, i) + carry_into(a, b, i as nat) <= i32::MAX
        }
}

proof fn lemma_pow10_positive(e: nat)
    ensures
        pow10(e) >= 1,
    decreases e,
{
    if e > 0 {
        lemma_pow10_positive((e - 1) as nat);
    }
}

/// Appending `x` to `s` adds `x` times ten to the length of `s`.
proof fn lemma_digits_value_push(s: Seq<i32>, x: i32)
    ensures
        digits_value(s.push(x)) == digits_value(s) + pow10(s.len()) * x,
    decreases s.len(),
{
    if s.len() == 0 {
        assert(s.push(x).drop_first() =~= Seq::<i32>::empty());
        assert(digits_value(Seq::<i32>::empty()) == 0);
        assert(digits_value(s) == 0);
        assert(pow10(0) == 1);
    } else {
        assert(s.push(x).drop_first() =~= s.drop_first().push(x));
        assert(s.push(x)[0] == s[0]);
        assert(pow10(s.len()) == 10 * pow10(s.drop_first().len()));
        lemma_digits_value_push(s.drop_first(), x);
        let a = digits_value(s.drop_first());
        let p = pow10(s.drop_first().len());
        assert(10 * (a + p * x) == 10 * a + (10 * p) * x) by (nonlinear_arith);
    }
}

/// The value of the digits of `s` from position `i` on, or zero past its end.
spec fn tail_value(s: Seq<i32>, i: int) -> int {
    if i < s.len() { digits_value(s.subrange(i, s.len() as int)) } else { 0 }
}

/// The value at position `i` of `s`, or zero past its end.
pub open spec fn digit_at(s: Seq<i32>, i: int) -> int {
    if i < s.len() { s[i] as int } else { 0 }
}

proof fn lemma_tail_value_step(s: Seq<i32>, i: int)
    requires
        0 <= i,
    ensures
        tail_value(s, i) == digit_at(s, i) + 10 * tail_value(s, i + 1),
{
    if i < s.len() {
        let sub = s.subrange(i, s.len() as int);
        assert(sub.drop_first() =~= s.subrange(i + 1, s.len() as int));
        assert(digits_value(sub) == sub[0] + 10 * digits_value(sub.drop_first()));
        if i + 1 == s.len() {
            assert(sub.drop_first() =~= Seq::<i32>::empty());
            assert(digits_value(sub.drop_first()) == 0);
        }
    }
}

proof fn lemma_step_arith(total: int, out: int, p: int, carry: int, a: int, b: int, ta: int, tb: int, d: int, c2: int)
    requires
        total == out + p * (carry + (a + 10 * ta) + (b + 10 * tb)),
        a + b + carry == 10 * c2 + d,
    ensures
        total == (out + p * d) + (10 * p) * (c2 + ta + tb),
{
    assert(p * (carry + (a + 10 * ta) + (b + 10 * tb)) == p * d + (10 * p) * (c2 + ta + tb)) by (nonlinear_arith)
        requires a + b + carry == 10 * c2 + d;
}

/// Solutions to the list problems on decimal numbers.
pub struct Solution;

impl Solution {
    /// Adds two numbers stored as lists of decimal digits, least significant digit first.
    ///
    /// The value of the result is the sum of the values of the inputs. When the inputs hold
    /// decimal digits, so does the result, which is as long as the longer input, or one longer
    /// with a final digit `1` when the sum carries out.
    pub fn add_two_numbers(l1: Option<Box<ListNode>>, l2: Option<Box<ListNode>>) -> (sum: Option<Box<ListNode>>)
        requires
            sums_fit_i32(list_seq(l1), list_seq(l2)),
        ensures
            digits_value(list_seq(sum)) == digits_value(list_seq(l1)) + digits_value(list_seq(l2)),
            all_digits(list_seq(l1)) && all_digits(list_seq(l2)) ==> {
                let n = if list_seq(l1).len() >= list_seq(l2).len() { list_seq(l1).len() } else { list_seq(l2).len() };
                &&& all_digits(list_seq(sum))
                &&& (list_seq(sum).len() == n || (list_seq(sum).len() == n + 1 && list_seq(sum).last() == 1))
            },
    {
        let a = into_values(l1);
        let b = into_values(l2);
        let ghost sa = a@;
        let ghost sb = b@;
        let n: usize = if a.len() >= b.len() { a.len() } else { b.len() };
        let ghost digits = all_digits(sa) && all_digits(sb);
        let mut out: Vec<i32> = Vec::new();
        let mut carry: i32 = 0;
        proof {
            assert(sa.subrange(0, sa.len() as int) =~= sa);
            assert(sb.subrange(0, sb.len() as int) =~= sb);
        }
        for i in 0..n
            invariant
                a@ == sa,
                b@ == sb,
                n == if sa.len() >= sb.len() { sa.len() } else { sb.len() },
                sums_fit_i32(sa, sb),
                out@.len() == i,
                carry == carry_into(sa, sb, i as nat),
                digits_value(sa) + digits_value(sb)
                    == digits_value(out@) + pow10(i as nat) * (carry + tail_value(sa, i as int) + tail_value(sb, i as int)),
                digits == (all_digits(sa) && all_digits(sb)),
                digits ==> 0 <= carry <= 1 && all_digits(out@),
        {
            let v1: i32 = if i < a.len() { a[i] } else { 0 };
            let v2: i32 = if i < b.len() { b[i] } else { 0 };
            assert(v1 == digit_at(sa, i as int) && v2 == digit_at(sb, i as int));
            let v = v1 + v2 + carry;
            let d = v % 10;
            let c2 = v / 10;
            proof {
                lemma_tail_value_step(sa, i as int);
                lemma_tail_value_step(sb, i as int);
                lemma_step_arith(
                    digits_value(sa) + digits_value(sb),
                    digits_value(out@),
                    pow10(i as nat),
                    carry as int,
                    digit_at(sa, i as int),
                    digit_at(sb, i as int),
                    tail_value(sa, i as int + 1),
                    tail_value(sb, i as int + 1),
                    d as int,
                    c2 as int,
                );
                lemma_digits_value_push(out@, d);
            }
            out.push(d);
            assert(c2 == div10(v as int));
            carry = c2;
        }
        proof {
            assert(tail_value(sa, n as int) == 0);
            assert(tail_value(sb, n as int) == 0);
        }
        let ghost carry0 = carry;
        while carry != 0
            invariant
                digits_value(sa) + digits_value(sb) == digits_value(out@) + pow10(out@.len()) * carry,
                digits ==> all_digits(out@) && 0 <= carry <= 1,
                digits ==> (out@.len() == n && carry == carry0) || (out@.len() == n + 1 && carry == 0 && out@.last() == 1),
            decreases (if carry >= 0 { carry as int } else { -carry as int }),
        {
            let d = carry % 10;
            let c2 = carry / 10;
            proof {
                lemma_step_arith(
                    digits_value(sa) + digits_value(sb),
                    digits_value(out@),
                    pow10(out@.len()),
                    carry as int, 0, 0, 0, 0,
                    d as int,
                    c2 as int,
                );
                lemma_digits_value_push(out@, d);
            }
            out.push(d);
            carry = c2;
        }
        to_list(out)
    }
}

} // verus!
