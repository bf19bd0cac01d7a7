use vstd::prelude::*;
use vstd::string::*;

verus! {

/// The character of a decimal digit.
pub open spec fn digit_char(d: nat) -> char {
    if d == 0 { '0' } else if d == 1 { '1' } else if d == 2 { '2' } else if d == 3 { '3' }
    else if d == 4 { '4' } else if d == 5 { '5' } else if d == 6 { '6' } else if d == 7 { '7' }
    else if d == 8 { '8' } else { '9' }
}

/// Base-10 digits of a natural number, most significant first, with no leading zero.
pub open spec fn decimal(n: nat) -> Seq<char>
    decreases n,
{
    if n < 10 {
        seq![digit_char(n)]
    } else {
        decimal(n / 10).push(digit_char(n % 10))
    }
}

fn digit_str(d: u64) -> (r: &'static str)
    requires
        d < 10,
    ensures
        r@ == seq![digit_char(d as nat)],
{
    proof {
        reveal_strlit("0");
        reveal_strlit("1");
        reveal_strlit("2");
        reveal_strlit("3");
        reveal_strlit("4");
        reveal_strlit("5");
        reveal_strlit("6");
        reveal_strlit("7");
        reveal_strlit("8");
        reveal_strlit("9");
    }
    if d == 0 { "0" } else if d == 1 { "1" } else if d == 2 { "2" } else if d == 3 { "3" }
    else if d == 4 { "4" } else if d == 5 { "5" } else if d == 6 { "6" } else if d == 7 { "7" }
    else if d == 8 { "8" } else { assert(d == 9); "9" }
}

/// Appends the base-10 digits of `n` to `out`.
pub fn push_decimal(out: &mut String, n: u64)
    ensures
        final(out)@ == old(out)@ + decimal(n as nat),
    decreases n,
{
    if n < 10 {
        out.append(digit_str(n));
    } else {
        push_decimal(out, n / 10);
        out.append(digit_str(n % 10));
    }
}

/// The base-10 digits of `n`.
pub fn decimal_string(n: u64) -> (r: String)
    ensures
        r@ == decimal(n as nat),
{
    let mut s = String::new();
    push_decimal(&mut s, n);
    assert(s@ =~= decimal(n as nat));
    s
}


/// The text of an integer: a minus sign before the digits of a negative one.
pub open spec fn int_text(i: int) -> Seq<char> {
    if i < 0 {
        "-"@ + decimal((-i) as nat)
    } else {
        decimal(i as nat)
    }
}

/// Appends the text of `i` to `out`.
pub fn push_int(out: &mut String, i: i64)
    ensures
        final(out)@ == old(out)@ + int_text(i as int),
{
    if i < 0 {
        out.append("-");
        let m: u64 = ((-(i + 1)) as u64) + 1;
        push_decimal(out, m);
    } else {
        push_decimal(out, i as u64);
    }
}

pub open spec fn is_digit(c: char) -> bool {
    '0' <= c && c <= '9'
}

pub open spec fn digit_value(c: char) -> int {
    (c as int) - ('0' as int)
}

pub open spec fn all_digits(s: Seq<char>) -> bool {
    forall|i: int| 0 <= i < s.len() ==> is_digit(#[trigger] s[i])
}

/// The number that a run of digits writes in base 10.
pub open spec fn digits_value(s: Seq<char>) -> int
    decreases s.len(),
{
    if s.len() == 0 {
        0
    } else {
        digits_value(s.drop_last()) * 10 + digit_value(s.last())
    }
}

pub open spec fn has_sign(s: Seq<char>) -> bool {
    s.len() > 0 && (s[0] == '-' || s[0] == '+')
}

/// The digits of a signed integer text, after its sign if any.
pub open spec fn unsigned_part(s: Seq<char>) -> Seq<char> {
    if has_sign(s) { s.drop_first() } else { s }
}

/// An optional sign followed by at least one digit.
pub open spec fn int_syntax(s: Seq<char>) -> bool {
    unsigned_part(s).len() > 0 && all_digits(unsigned_part(s))
}

/// The integer a base-10 text writes.
pub open spec fn int_text_value(s: Seq<char>) -> int {
    if s.len() > 0 && s[0] == '-' {
        -digits_value(unsigned_part(s))
    } else {
        digits_value(unsigned_part(s))
    }
}

/// What parsing a base-10 `i64` from a text gives: `None` where the text is no integer or
/// the integer does not fit.
pub open spec fn parse_int(s: Seq<char>) -> Option<i64> {
    if int_syntax(s) && i64::MIN <= int_text_value(s) <= i64::MAX {
        Some(int_text_value(s) as i64)
    } else {
        None
    }
}

/// A run of digits writes a number that is not negative.
pub proof fn lemma_digits_value_nonneg(s: Seq<char>)
    requires
        all_digits(s),
    ensures
        digits_value(s) >= 0,
    decreases s.len(),
{
    if s.len() > 0 {
        assert(all_digits(s.drop_last()));
        lemma_digits_value_nonneg(s.drop_last());
        assert(is_digit(s[s.len() - 1]));
    }
}

/// Parses an optionally signed base-10 integer.
pub fn parse_i64(s: &str) -> (r: Option<i64>)
    ensures
        r == parse_int(s@),
{
    let n = s.unicode_len();
    if n == 0 {
        return None;
    }
    let c0 = s.get_char(0);
    let neg = c0 == '-';
    let start: usize = if c0 == '-' || c0 == '+' { 1 } else { 0 };
    let ghost body = unsigned_part(s@);
    assert(body =~= s@.subrange(start as int, n as int));
    if start == n {
        return None;
    }
    // 2^63: the largest magnitude that a negative value can have
    let limit: u64 = 0x8000_0000_0000_0000;
    let mut acc: u64 = 0;
    let mut i: usize = start;
    while i < n
        invariant
            start <= i <= n,
            n == s@.len(),
            body =~= s@.subrange(start as int, n as int),
            body == unsigned_part(s@),
            neg == (s@[0] == '-'),
            all_digits(s@.subrange(start as int, i as int)),
            acc == (if digits_value(s@.subrange(start as int, i as int)) > limit {
                limit + 1
            } else {
                digits_value(s@.subrange(start as int, i as int))
            }),
            limit == 0x8000_0000_0000_0000u64,
        decreases n - i,
    {
        let c = s.get_char(i);
        let ghost p = s@.subrange(start as int, i as int);
        let ghost q = s@.subrange(start as int, i + 1);
        assert(q.drop_last() =~= p);
        if !('0' <= c && c <= '9') {
            assert(!all_digits(body)) by {
                assert(body[i - start] == c);
            }
            return None;
        }
        proof {
            lemma_digits_value_nonneg(p);
            assert(all_digits(q));
        }
        let d: u64 = (c as u32 - '0' as u32) as u64;
        if acc > limit {
            assert(digits_value(q) >= digits_value(p)) by (nonlinear_arith)
                requires
                    digits_value(q) == digits_value(p) * 10 + d,
                    digits_value(p) >= 0,
                    d >= 0,
            ;
        } else if acc > (limit - d) / 10 {
            assert(digits_value(q) > limit) by (nonlinear_arith)
                requires
                    digits_value(q) == acc * 10 + d,
                    acc > (limit - d) / 10,
                    d < 10,
                    limit == 0x8000_0000_0000_0000u64,
            ;
            acc = limit + 1;
        } else {
            assert(acc * 10 + d <= limit) by (nonlinear_arith)
                requires
                    acc <= (limit - d) / 10,
                    d < 10,
            ;
            acc = acc * 10 + d;
        }
        i = i + 1;
    }
    assert(s@.subrange(start as int, n as int) =~= body);
    if neg {
        if acc > limit {
            None
        } else if acc == limit {
            Some(i64::MIN)
        } else {
            Some(-(acc as i64))
        }
    } else {
        if acc >= limit {
            None
        } else {
            Some(acc as i64)
        }
    }
}


pub open spec fn is_ascii_upper(c: char) -> bool {
    'A' <= c && c <= 'Z'
}

/// Whether `t` is the character `c` with an ASCII capital made small.
pub open spec fn lower_char_is(c: char, t: char) -> bool {
    if is_ascii_upper(c) {
        (c as u32) + 32 == (t as u32)
    } else {
        c == t
    }
}

/// Whether `t` is the text `s` with its ASCII capitals made small.
pub open spec fn lowered_is(s: Seq<char>, t: Seq<char>) -> bool {
    s.len() == t.len() && forall|j: int| 0 <= j < s.len() ==> lower_char_is(s[j], #[trigger] t[j])
}

/// Whether `s`, with ASCII capitals made small, is `t`.
pub fn lower_equals(s: &str, t: &str) -> (r: bool)
    ensures
        r == lowered_is(s@, t@),
{
    let n = s.unicode_len();
    let m = t.unicode_len();
    if n != m {
        return false;
    }
    let mut i: usize = 0;
    while i < n
        invariant
            i <= n,
            n == s@.len(),
            n == t@.len(),
            forall|j: int| 0 <= j < i ==> lower_char_is(s@[j], #[trigger] t@[j]),
        decreases n - i,
    {
        let c = s.get_char(i);
        let d = t.get_char(i);
        let ok = if 'A' <= c && c <= 'Z' { (c as u32) + 32 == (d as u32) } else { c == d };
        if !ok {
            return false;
        }
        i = i + 1;
    }
    true
}

} // verus!
