use vstd::prelude::*;
use vstd::string::*;
use vstd::arithmetic::div_mod::{lemma_fundamental_div_mod, lemma_fundamental_div_mod_converse};
use crate::text::{
    all_digits, decimal, digits_value, int_syntax, int_text_value, is_digit,
    lemma_digits_value_nonneg, push_decimal, unsigned_part,
};

verus! {

pub open spec fn pow10(n: nat) -> nat
    decreases n,
{
    if n == 0 { 1 } else { 10 * pow10((n - 1) as nat) }
}

/// Largest number of digits after the point.
pub const MAX_SCALE: u32 = 18;

/// 2^63: the largest magnitude a decimal may have.
pub const MAX_MAGNITUDE: u64 = 0x8000_0000_0000_0000;

/// The mathematical form of a decimal: its value is `magnitude / 10^scale`, negated
/// when `negative`.
pub struct DecimalView {
    pub negative: bool,
    pub magnitude: nat,
    pub scale: nat,
}

/// The one written form of each value: no trailing zero after the point, no negative zero,
/// and the value's integer part within the range of `i64`.
pub open spec fn canonical(d: DecimalView) -> bool {
    &&& d.scale <= MAX_SCALE
    &&& d.magnitude <= MAX_MAGNITUDE
    &&& (!d.negative ==> d.magnitude < MAX_MAGNITUDE)
    &&& (d.scale == 0 || d.magnitude % 10 != 0)
    &&& (d.magnitude == 0 ==> !d.negative)
}

/// The signed count of `10^-scale` units.
pub open spec fn signed_magnitude(d: DecimalView) -> int {
    if d.negative { -(d.magnitude as int) } else { d.magnitude as int }
}

/// The integer a decimal equals, if it has no fractional part.
pub open spec fn decimal_int(d: DecimalView) -> Option<int> {
    if d.scale == 0 { Some(signed_magnitude(d)) } else { None }
}

/// A canonical decimal without a fractional part equals an `i64`.
pub proof fn lemma_canonical_int_fits(d: DecimalView)
    requires
        canonical(d),
    ensures
        decimal_int(d) matches Some(i) ==> i64::MIN <= i <= i64::MAX,
{
}

/// A decimal in microseconds, rounded down.
pub open spec fn decimal_micros(d: DecimalView) -> int {
    (signed_magnitude(d) * 1_000_000) / (pow10(d.scale) as int)
}

/// `ds` with zeros in front, up to `n` characters.
pub open spec fn zero_padded(ds: Seq<char>, n: nat) -> Seq<char> {
    if ds.len() >= n {
        ds
    } else {
        Seq::new((n - ds.len()) as nat, |i: int| '0') + ds
    }
}

/// The text of a decimal: the integer part, then the digits after the point, if any.
pub open spec fn decimal_text(d: DecimalView) -> Seq<char> {
    (if d.negative { "-"@ } else { Seq::empty() }) + decimal(d.magnitude / pow10(d.scale))
        + (if d.scale == 0 {
        Seq::empty()
    } else {
        "."@ + zero_padded(decimal(d.magnitude % pow10(d.scale)), d.scale)
    })
}

/// The decimal equal to an integer.
pub open spec fn int_decimal(i: int) -> DecimalView {
    DecimalView { negative: i < 0, magnitude: (if i < 0 { -i } else { i }) as nat, scale: 0 }
}

/// A decimal number in its canonical form; it stands for a document's floating-point
/// values.
#[derive(PartialEq, Eq, Structural, Clone, Copy, Debug)]
pub struct Decimal {
    negative: bool,
    magnitude: u64,
    scale: u32,
}

impl View for Decimal {
    type V = DecimalView;

    closed spec fn view(&self) -> DecimalView {
        DecimalView {
            negative: self.negative,
            magnitude: self.magnitude as nat,
            scale: self.scale as nat,
        }
    }
}

proof fn lemma_pow10_le(a: nat, b: nat)
    requires
        a <= b,
    ensures
        1 <= pow10(a) <= pow10(b),
    decreases b,
{
    if a < b {
        lemma_pow10_le(a, (b - 1) as nat);
    } else if a > 0 {
        lemma_pow10_le((a - 1) as nat, (a - 1) as nat);
    }
}

fn pow10_u64(n: u32) -> (r: u64)
    requires
        n <= MAX_SCALE,
    ensures
        r == pow10(n as nat),
    decreases n,
{
    if n == 0 {
        1
    } else {
        proof {
            lemma_pow10_le((n - 1) as nat, 17);
            reveal_with_fuel(pow10, 18);
            assert(pow10(17) == 100000000000000000nat);
        }
        10 * pow10_u64(n - 1)
    }
}

impl Decimal {
    /// Every decimal is in canonical form; a caller learns it by `use_type_invariant`.
    #[verifier::type_invariant]
    pub open spec fn inv(&self) -> bool {
        canonical(self@)
    }

    /// The decimal `magnitude / 10^scale`, negated when `negative`, where that is its
    /// canonical form.
    pub fn new(negative: bool, magnitude: u64, scale: u32) -> (r: Option<Decimal>)
        ensures
            canonical(DecimalView { negative, magnitude: magnitude as nat, scale: scale as nat })
                <==> r is Some,
            r matches Some(d) ==> d@ == (DecimalView {
                negative,
                magnitude: magnitude as nat,
                scale: scale as nat,
            }),
    {
        if scale <= MAX_SCALE && magnitude <= MAX_MAGNITUDE && (negative || magnitude
            < MAX_MAGNITUDE) && (scale == 0 || magnitude % 10 != 0) && (magnitude != 0
            || !negative) {
            Some(Decimal { negative, magnitude, scale })
        } else {
            None
        }
    }

    /// The decimal equal to an integer.
    pub fn from_int(i: i64) -> (r: Decimal)
        ensures
            r@ == int_decimal(i as int),
    {
        if i < 0 {
            Decimal { negative: true, magnitude: ((-(i + 1)) as u64) + 1, scale: 0 }
        } else {
            Decimal { negative: false, magnitude: i as u64, scale: 0 }
        }
    }

    pub fn is_negative(&self) -> (r: bool)
        ensures
            r == self@.negative,
    {
        self.negative
    }

    pub fn magnitude(&self) -> (r: u64)
        ensures
            r == self@.magnitude,
    {
        self.magnitude
    }

    pub fn scale(&self) -> (r: u32)
        ensures
            r == self@.scale,
    {
        self.scale
    }

    /// The integer this decimal equals, if it has no fractional part.
    pub fn to_int(&self) -> (r: Option<i64>)
        ensures
            r matches Some(i) ==> decimal_int(self@) == Some(i as int),
            r is None ==> decimal_int(self@) is None,
    {
        proof {
            use_type_invariant(self);
        }
        if self.scale != 0 {
            None
        } else if self.negative {
            if self.magnitude == MAX_MAGNITUDE {
                Some(i64::MIN)
            } else {
                Some(-(self.magnitude as i64))
            }
        } else {
            Some(self.magnitude as i64)
        }
    }

    /// Appends the text of this decimal to `out`.
    pub fn push_text(&self, out: &mut String)
        ensures
            final(out)@ == old(out)@ + decimal_text(self@),
    {
        proof {
            use_type_invariant(self);
        }
        let ghost start = out@;
        if self.negative {
            out.append("-");
        }
        let p = pow10_u64(self.scale);
        proof {
            lemma_pow10_le(self.scale as nat, self.scale as nat);
        }
        push_decimal(out, self.magnitude / p);
        if self.scale != 0 {
            out.append(".");
            let mut frac = String::new();
            push_decimal(&mut frac, self.magnitude % p);
            let len = frac.as_str().unicode_len();
            let ghost before = out@;
            if len < self.scale as usize {
                let mut k: usize = 0;
                let zeros: usize = self.scale as usize - len;
                while k < zeros
                    invariant
                        k <= zeros,
                        out@ == before + Seq::new(k as nat, |i: int| '0'),
                    decreases zeros - k,
                {
                    out.append("0");
                    proof {
                        reveal_strlit("0");
                    }
                    assert(out@ =~= before + Seq::new((k + 1) as nat, |i: int| '0'));
                    k = k + 1;
                }
            }
            out.append(frac.as_str());
        }
        assert(out@ =~= start + decimal_text(self@));
    }

    /// This decimal in microseconds, rounded down.
    pub fn to_micros(&self) -> (r: i128)
        ensures
            r == decimal_micros(self@),
    {
        proof {
            use_type_invariant(self);
        }
        let p = pow10_u64(self.scale) as u128;
        proof {
            lemma_pow10_le(self.scale as nat, self.scale as nat);
        }
        let num: u128 = self.magnitude as u128 * 1_000_000;
        let q = num / p;
        let m = num % p;
        proof {
            lemma_fundamental_div_mod(num as int, p as int);
            assert(q <= num) by (nonlinear_arith)
                requires
                    num == p * q + m,
                    p >= 1,
                    m >= 0,
            ;
        }
        if !self.negative {
            q as i128
        } else if m == 0 {
            proof {
                assert(-(num as int) == (-(q as int)) * (p as int) + 0) by (nonlinear_arith)
                    requires
                        num == p * q + m,
                        m == 0,
                ;
                lemma_fundamental_div_mod_converse(-(num as int), p as int, -(q as int), 0);
            }
            -(q as i128)
        } else {
            proof {
                assert(-(num as int) == (-(q as int) - 1) * (p as int) + (p as int - m as int))
                    by (nonlinear_arith)
                    requires
                        num == p * q + m,
                ;
                assert(m < p) by {
                    lemma_fundamental_div_mod(num as int, p as int);
                }
                lemma_fundamental_div_mod_converse(
                    -(num as int),
                    p as int,
                    -(q as int) - 1,
                    p as int - m as int,
                );
            }
            -(q as i128) - 1
        }
    }
}

pub open spec fn is_mantissa_char(c: char) -> bool {
    is_digit(c) || c == '.'
}

pub open spec fn all_mantissa(b: Seq<char>) -> bool {
    forall|i: int| 0 <= i < b.len() ==> is_mantissa_char(#[trigger] b[i])
}

/// Whether the mantissa of `b`, its digits and points, ends at `k`.
pub open spec fn mantissa_end(b: Seq<char>, k: int) -> bool {
    0 <= k <= b.len() && all_mantissa(b.take(k)) && (k == b.len() || !is_mantissa_char(b[k]))
}

/// The length of the mantissa of `b`.
pub open spec fn mantissa_len(b: Seq<char>) -> int {
    choose|k: int| mantissa_end(b, k)
}

/// Whether mantissa `m` has its point at `p`, with only digits around it, at least one.
pub open spec fn point_at(m: Seq<char>, p: int) -> bool {
    &&& 0 <= p < m.len()
    &&& m.len() >= 2
    &&& m[p] == '.'
    &&& all_digits(m.take(p))
    &&& all_digits(m.skip(p + 1))
}

/// Digits, or digits with one point among them; at least one digit.
pub open spec fn mantissa_ok(m: Seq<char>) -> bool {
    (m.len() > 0 && all_digits(m)) || exists|p: int| point_at(m, p)
}

/// The digits before the point of a mantissa.
pub open spec fn integer_digits(m: Seq<char>) -> Seq<char> {
    if all_digits(m) { m } else { m.take(choose|p: int| point_at(m, p)) }
}

/// The digits after the point of a mantissa.
pub open spec fn fraction_digits(m: Seq<char>) -> Seq<char> {
    if all_digits(m) { Seq::empty() } else { m.skip((choose|p: int| point_at(m, p)) + 1) }
}

/// Nothing, or `e` or `E` followed by an optionally signed integer.
pub open spec fn exponent_ok(r: Seq<char>) -> bool {
    r.len() == 0 || ((r[0] == 'e' || r[0] == 'E') && int_syntax(r.skip(1)))
}

pub open spec fn exponent_value(r: Seq<char>) -> int {
    if r.len() == 0 { 0 } else { int_text_value(r.skip(1)) }
}

/// A mantissa, then an optional exponent.
pub open spec fn number_syntax(b: Seq<char>) -> bool {
    mantissa_ok(b.take(mantissa_len(b))) && exponent_ok(b.skip(mantissa_len(b)))
}

/// `f` without its trailing zeros.
pub open spec fn strip_zeros(f: Seq<char>) -> Seq<char>
    decreases f.len(),
{
    if f.len() > 0 && f.last() == '0' {
        strip_zeros(f.drop_last())
    } else {
        f
    }
}

/// All digits of the mantissa of `b`, before and after its point.
pub open spec fn mantissa_digits(b: Seq<char>) -> Seq<char> {
    integer_digits(b.take(mantissa_len(b))) + fraction_digits(b.take(mantissa_len(b)))
}

/// The decimal of digits `ds` with `fl` of them after the point, times ten to the `e`,
/// negated when `neg`, in the one form a decimal may take.
pub open spec fn decimal_from(ds: Seq<char>, e: int, fl: int, neg: bool) -> DecimalView {
    let v = digits_value(strip_zeros(ds));
    let k = e - fl + (ds.len() - strip_zeros(ds).len());
    let m: int = if v == 0 { 0 } else if k >= 0 { v * pow10(k as nat) } else { v };
    DecimalView {
        negative: neg && m != 0,
        magnitude: m as nat,
        scale: (if v == 0 || k >= 0 { 0 } else { -k }) as nat,
    }
}

/// The decimal that a text of number syntax writes.
pub open spec fn decimal_of_text(s: Seq<char>) -> DecimalView {
    let b = unsigned_part(s);
    decimal_from(
        mantissa_digits(b),
        exponent_value(b.skip(mantissa_len(b))),
        fraction_digits(b.take(mantissa_len(b))).len() as int,
        s.len() > 0 && s[0] == '-',
    )
}

/// What reading a decimal from a text gives: an optional sign, digits with at most one
/// point (`1.`, `.5`), and an optional exponent (`1e5`, `2.5E-3`); `None` where the text is
/// not of that form or its value has no decimal.
pub open spec fn parse_decimal_text(s: Seq<char>) -> Option<DecimalView> {
    if number_syntax(unsigned_part(s)) && canonical(decimal_of_text(s)) {
        Some(decimal_of_text(s))
    } else {
        None
    }
}

pub open spec fn capped(x: int, cap: int) -> int {
    if x > cap { cap + 1 } else { x }
}

/// Continues a base-10 reading of `pre` with the digits of `s` in `from..to`, capped
/// just above `cap`.
fn push_digits(
    s: &str,
    from: usize,
    to: usize,
    acc: u128,
    cap: u128,
    Ghost(pre): Ghost<Seq<char>>,
) -> (r: u128)
    requires
        from <= to <= s@.len(),
        cap <= 0x10_0000_0000_0000_0000_0000_0000u128,
        all_digits(pre),
        all_digits(s@.subrange(from as int, to as int)),
        acc == capped(digits_value(pre), cap as int),
    ensures
        r == capped(digits_value(pre + s@.subrange(from as int, to as int)), cap as int),
{
    let mut acc = acc;
    let mut i: usize = from;
    while i < to
        invariant
            from <= i <= to <= s@.len(),
            cap <= 0x10_0000_0000_0000_0000_0000_0000u128,
            all_digits(pre),
            all_digits(s@.subrange(from as int, to as int)),
            acc == capped(digits_value(pre + s@.subrange(from as int, i as int)), cap as int),
        decreases to - i,
    {
        let c = s.get_char(i);
        let ghost p = pre + s@.subrange(from as int, i as int);
        let ghost q = pre + s@.subrange(from as int, i + 1);
        assert(q.drop_last() =~= p);
        assert(q.last() == c);
        assert(s@.subrange(from as int, to as int)[i - from] == c);
        assert(all_digits(p)) by {
            assert forall|j: int| 0 <= j < p.len() implies is_digit(#[trigger] p[j]) by {
                if j >= pre.len() {
                    assert(p[j] == s@.subrange(from as int, to as int)[j - pre.len()]);
                }
            }
        }
        proof {
            lemma_digits_value_nonneg(p);
        }
        let d: u128 = (c as u32 - '0' as u32) as u128;
        if acc > cap {
            assert(digits_value(q) >= digits_value(p)) by (nonlinear_arith)
                requires
                    digits_value(q) == digits_value(p) * 10 + d,
                    digits_value(p) >= 0,
                    d >= 0,
            ;
        } else if d > cap || acc > (cap - d) / 10 {
            assert(digits_value(q) > cap) by (nonlinear_arith)
                requires
                    digits_value(q) == acc * 10 + d,
                    d > cap || acc > (cap - d) / 10,
                    acc >= 0,
                    d < 10,
            ;
            acc = cap + 1;
        } else {
            assert(acc * 10 + d <= cap) by (nonlinear_arith)
                requires
                    acc <= (cap - d) / 10,
                    d <= cap,
                    d < 10,
            ;
            acc = acc * 10 + d;
        }
        i = i + 1;
    }
    acc
}

fn digit_at(s: &str, i: usize) -> (r: bool)
    requires
        i < s@.len(),
    ensures
        r == is_digit(s@[i as int]),
{
    let c = s.get_char(i);
    '0' <= c && c <= '9'
}

fn mantissa_at(s: &str, i: usize) -> (r: bool)
    requires
        i < s@.len(),
    ensures
        r == is_mantissa_char(s@[i as int]),
{
    let c = s.get_char(i);
    ('0' <= c && c <= '9') || c == '.'
}

proof fn lemma_mantissa_end_unique(b: Seq<char>, k: int)
    requires
        mantissa_end(b, k),
    ensures
        mantissa_len(b) == k,
{
    let j = mantissa_len(b);
    assert(mantissa_end(b, j));
    if j < k {
        assert(b.take(k)[j] == b[j]);
    } else if k < j {
        assert(b.take(j)[k] == b[k]);
    }
}

proof fn lemma_point_unique(m: Seq<char>, p: int, q: int)
    requires
        point_at(m, p),
        point_at(m, q),
    ensures
        p == q,
{
    if p < q {
        assert(m.skip(p + 1)[q - p - 1] == m[q]);
    } else if q < p {
        assert(m.skip(q + 1)[p - q - 1] == m[p]);
    }
}

proof fn lemma_pow10_big(k: nat, v: int)
    requires
        k >= 19,
        v >= 1,
    ensures
        v * pow10(k) > MAX_MAGNITUDE,
{
    lemma_pow10_le(19, k);
    reveal_with_fuel(pow10, 20);
    assert(pow10(19) == 10000000000000000000nat);
    assert(v * pow10(k) >= pow10(k)) by (nonlinear_arith)
        requires
            v >= 1,
            pow10(k) >= 1,
    ;
}

/// Reads an exponent `e`/`E` with an optionally signed integer at `from`, to the end of
/// `s`: its sign and its magnitude capped just above 2^100.
fn read_exponent(s: &str, from: usize) -> (r: Option<(bool, u128)>)
    requires
        from <= s@.len(),
    ensures
        r is Some <==> int_syntax(s@.skip(from as int)),
        r matches Some((neg, e)) ==> neg == (s@.skip(from as int)[0] == '-') && e == capped(
            digits_value(unsigned_part(s@.skip(from as int))),
            0x10_0000_0000_0000_0000_0000_0000u128 as int,
        ),
{
    let n = s.unicode_len();
    let ghost t = s@.skip(from as int);
    if from == n {
        return None;
    }
    let c = s.get_char(from);
    let start: usize = if c == '-' || c == '+' { from + 1 } else { from };
    assert(unsigned_part(t) =~= s@.subrange(start as int, n as int));
    if start == n {
        return None;
    }
    let mut j: usize = start;
    while j < n && digit_at(s, j)
        invariant
            start <= j <= n,
            n == s@.len(),
            all_digits(s@.subrange(start as int, j as int)),
        decreases n - j,
    {
        assert(s@.subrange(start as int, j + 1) =~= s@.subrange(start as int, j as int).push(s@[j as int]));
        j = j + 1;
    }
    if j < n {
        assert(unsigned_part(t)[j - start] == s@[j as int]);
        return None;
    }
    assert(Seq::<char>::empty() + s@.subrange(start as int, n as int) =~= s@.subrange(start as int, n as int));
    let e = push_digits(s, start, n, 0, 0x10_0000_0000_0000_0000_0000_0000u128, Ghost(Seq::empty()));
    Some((c == '-', e))
}

/// Reads a decimal: an optional sign, digits with at most one point and at least one
/// digit, and an optional exponent.
#[verifier::rlimit(100)]
pub fn parse_decimal(s: &str) -> (r: Option<Decimal>)
    ensures
        r matches Some(d) ==> parse_decimal_text(s@) == Some(d@),
        r is None ==> parse_decimal_text(s@) is None,
{
    let n = s.unicode_len();
    if n == 0 {
        assert(unsigned_part(s@).len() == 0);
        assert(mantissa_end(unsigned_part(s@), 0));
        proof { lemma_mantissa_end_unique(unsigned_part(s@), 0); }
        return None;
    }
    let c0 = s.get_char(0);
    let start: usize = if c0 == '-' || c0 == '+' { 1 } else { 0 };
    let ghost b = unsigned_part(s@);
    assert(b =~= s@.subrange(start as int, n as int));
    // where the mantissa ends
    let mut k: usize = start;
    while k < n && mantissa_at(s, k)
        invariant
            start <= k <= n,
            n == s@.len(),
            all_mantissa(s@.subrange(start as int, k as int)),
        decreases n - k,
    {
        assert(s@.subrange(start as int, k + 1) =~= s@.subrange(start as int, k as int).push(s@[k as int]));
        k = k + 1;
    }
    let ghost ml = k - start;
    let ghost m = b.take(ml);
    proof {
        assert(b.take(ml) =~= s@.subrange(start as int, k as int));
        if k < n {
            assert(b[ml] == s@[k as int]);
        }
        assert(mantissa_end(b, ml));
        lemma_mantissa_end_unique(b, ml);
    }
    // the point, if any
    let mut p: usize = k;
    let mut i: usize = start;
    while i < k
        invariant
            start <= i <= k <= n,
            n == s@.len(),
            m =~= s@.subrange(start as int, k as int),
            b == unsigned_part(s@),
            mantissa_len(b) == ml,
            m == b.take(ml),
            all_mantissa(m),
            p == k || (start <= p < i && m[p - start] == '.'),
            forall|j: int| 0 <= j < i - start && j != p - start ==> is_digit(#[trigger] m[j]),
        decreases k - i,
    {
        let c = s.get_char(i);
        assert(m[i - start] == c);
        if c == '.' {
            if p < k {
                proof {
                    let pp = p - start;
                    let ii = i - start;
                    assert(!all_digits(m)) by {
                        assert(!is_digit(m[ii]));
                    }
                    assert forall|q: int| !point_at(m, q) by {
                        if point_at(m, q) {
                            if q == pp {
                                assert(m.skip(q + 1)[ii - q - 1] == m[ii]);
                            } else if pp < q {
                                assert(m.take(q)[pp] == m[pp]);
                            } else {
                                assert(m.skip(q + 1)[pp - q - 1] == m[pp]);
                            }
                        }
                    }
                    assert(!mantissa_ok(m));
                }
                return None;
            }
            p = i;
        } else {
            assert(is_mantissa_char(m[i - start]));
        }
        i = i + 1;
    }
    let intlen: usize = p - start;
    let fraclen: usize = if p < k { k - p - 1 } else { 0 };
    if intlen + fraclen == 0 {
        proof {
            if p < k {
                assert(m.len() == 1);
            }
            assert forall|q: int| !point_at(m, q) by {}
            assert(!mantissa_ok(m));
        }
        return None;
    }
    proof {
        if p < k {
            let pp = p - start;
            assert(!all_digits(m)) by {
                assert(!is_digit(m[pp]));
            }
            assert(all_digits(m.take(pp))) by {
                assert forall|j: int| 0 <= j < pp implies is_digit(#[trigger] m.take(pp)[j]) by {
                    assert(m.take(pp)[j] == m[j]);
                }
            }
            assert(all_digits(m.skip(pp + 1))) by {
                assert forall|j: int| 0 <= j < m.len() - pp - 1 implies is_digit(#[trigger] m.skip(pp + 1)[j]) by {
                    assert(m.skip(pp + 1)[j] == m[j + pp + 1]);
                }
            }
            assert(point_at(m, pp));
            let q = choose|q: int| point_at(m, q);
            lemma_point_unique(m, q, pp);
            assert(integer_digits(m) =~= s@.subrange(start as int, p as int));
            assert(fraction_digits(m) =~= s@.subrange(p + 1, k as int));
        } else {
            assert(all_digits(m)) by {
                assert forall|j: int| 0 <= j < m.len() implies is_digit(#[trigger] m[j]) by {}
            }
            assert(integer_digits(m) =~= s@.subrange(start as int, p as int));
            assert(fraction_digits(m) =~= Seq::<char>::empty());
        }
        assert(mantissa_ok(m));
    }
    // the exponent, if any
    let ghost rest = b.skip(ml);
    assert(rest =~= s@.skip(k as int));
    let mut eneg = false;
    let mut ecap: u128 = 0;
    if k < n {
        let c = s.get_char(k);
        if c != 'e' && c != 'E' {
            assert(rest[0] == c);
            return None;
        }
        assert(rest.skip(1) =~= s@.skip(k + 1));
        match read_exponent(s, k + 1) {
            Some((ng, e)) => {
                eneg = ng;
                ecap = e;
            },
            None => {
                return None;
            },
        }
    }
    let ghost ev = exponent_value(rest);
    let ghost ed = if k < n { digits_value(unsigned_part(rest.skip(1))) } else { 0 };
    assert(ecap == capped(ed, 0x10_0000_0000_0000_0000_0000_0000u128 as int));
    assert(ev == if eneg { -ed } else { ed });
    proof {
        if k < n {
            lemma_digits_value_nonneg(unsigned_part(rest.skip(1)));
        }
    }
    assert(exponent_ok(rest));
    assert(number_syntax(b));
    proof {
        assert(mantissa_digits(b) =~= integer_digits(m) + fraction_digits(m));
        assert(all_digits(integer_digits(m)) && all_digits(fraction_digits(m))) by {
            if p < k {
                let q = choose|q: int| point_at(m, q);
                assert(point_at(m, q));
            }
        }
        assert forall|j: int| 0 <= j < intlen + fraclen implies #[trigger] mantissa_digits(b)[j] == s@[pos_of(start as int, p as int, intlen as int, j)] by {
            if j >= intlen {
                assert(fraction_digits(m)[j - intlen] == s@[p + 1 + j - intlen]);
            }
        }
        assert(all_digits(mantissa_digits(b))) by {
            assert forall|j: int| 0 <= j < mantissa_digits(b).len() implies is_digit(#[trigger] mantissa_digits(b)[j]) by {
                if j < intlen {
                    assert(integer_digits(m)[j] == mantissa_digits(b)[j]);
                } else {
                    assert(fraction_digits(m)[j - intlen] == mantissa_digits(b)[j]);
                }
            }
        }
    }
    decimal_from_digits(s, start, p, k, intlen, fraclen, Ghost(mantissa_digits(b)), eneg, ecap, Ghost(ev), c0 == '-')
}

/// The decimal of the mantissa digits of `s` (those before the point at `p` from `start`,
/// and `fraclen` after it), times ten to an exponent whose magnitude `ecap` is capped just
/// above 2^100, negated when `neg`.
#[verifier::rlimit(100)]
fn decimal_from_digits(
    s: &str,
    start: usize,
    p: usize,
    k: usize,
    intlen: usize,
    fraclen: usize,
    Ghost(ds): Ghost<Seq<char>>,
    eneg: bool,
    ecap: u128,
    Ghost(ev): Ghost<int>,
    neg: bool,
) -> (r: Option<Decimal>)
    requires
        start + intlen == p,
        p <= k <= s@.len(),
        p < k ==> p + 1 + fraclen == k,
        p == k ==> fraclen == 0,
        ds.len() == intlen + fraclen,
        all_digits(ds),
        forall|j: int| 0 <= j < intlen + fraclen ==> #[trigger] ds[j] == s@[pos_of(start as int, p as int, intlen as int, j)],
        ecap <= 0x10_0000_0000_0000_0000_0000_0000u128 + 1,
        ecap <= 0x10_0000_0000_0000_0000_0000_0000u128 ==> ev == (if eneg { -(ecap as int) } else { ecap as int }),
        ecap > 0x10_0000_0000_0000_0000_0000_0000u128 ==> (if eneg { ev < -(0x10_0000_0000_0000_0000_0000_0000u128 as int) } else { ev > 0x10_0000_0000_0000_0000_0000_0000u128 as int }),
    ensures
        r is Some <==> canonical(decimal_from(ds, ev, fraclen as int, neg)),
        r matches Some(d) ==> d@ == decimal_from(ds, ev, fraclen as int, neg),
{
    let total: usize = intlen + fraclen;
    let n = s.unicode_len();
    // the digits, without their trailing zeros
    let mut l2: usize = total;
    assert(ds.take(total as int) =~= ds);
    while l2 > 0 && s.get_char(digit_pos(start, p, intlen, l2 - 1)) == '0'
        invariant
            l2 <= total,
            ds.len() == total,
            total == intlen + fraclen,
            start + intlen == p,
            p <= k <= n,
            n == s@.len(),
            p < k ==> p + 1 + fraclen == k,
            p == k ==> fraclen == 0,
            forall|j: int| 0 <= j < total ==> #[trigger] ds[j] == s@[pos_of(start as int, p as int, intlen as int, j)],
            strip_zeros(ds) == strip_zeros(ds.take(l2 as int)),
        decreases l2,
    {
        assert(ds.take(l2 as int).drop_last() =~= ds.take(l2 - 1));
        assert(ds.take(l2 as int).last() == ds[l2 - 1]);
        l2 = l2 - 1;
    }
    let ghost d2 = ds.take(l2 as int);
    proof {
        if l2 > 0 {
            assert(d2.last() == ds[l2 - 1]);
        }
        assert(strip_zeros(d2) == d2);
    }
    // the value of those digits, capped just above 2^63
    let il: usize = if l2 < intlen { l2 } else { intlen };
    proof {
        assert(all_digits(s@.subrange(start as int, (start + il) as int))) by {
            assert forall|j: int| 0 <= j < il implies is_digit(#[trigger] s@.subrange(start as int, (start + il) as int)[j]) by {
                assert(ds[j] == s@[start + j]);
            }
        }
    }
    assert(Seq::<char>::empty() + s@.subrange(start as int, (start + il) as int) =~= s@.subrange(start as int, (start + il) as int));
    let mut acc = push_digits(s, start, start + il, 0, MAX_MAGNITUDE as u128, Ghost(Seq::empty()));
    if l2 > intlen {
        let ghost pre = s@.subrange(start as int, (start + il) as int);
        proof {
            assert(all_digits(s@.subrange(p + 1, (p + 1 + (l2 - intlen)) as int))) by {
                assert forall|j: int| 0 <= j < l2 - intlen implies is_digit(#[trigger] s@.subrange(p + 1, (p + 1 + (l2 - intlen)) as int)[j]) by {
                    assert(ds[intlen + j] == s@[p + 1 + j]);
                }
            }
        }
        acc = push_digits(s, p + 1, p + 1 + (l2 - intlen), acc, MAX_MAGNITUDE as u128, Ghost(pre));
        assert(d2 =~= pre + s@.subrange(p + 1, (p + 1 + (l2 - intlen)) as int)) by {
            assert forall|j: int| 0 <= j < l2 implies #[trigger] d2[j] == (pre + s@.subrange(p + 1, (p + 1 + (l2 - intlen)) as int))[j] by {
                assert(d2[j] == ds[j]);
            }
        }
    } else {
        assert(d2 =~= s@.subrange(start as int, (start + il) as int)) by {
            assert forall|j: int| 0 <= j < l2 implies #[trigger] d2[j] == s@.subrange(start as int, (start + il) as int)[j] by {
                assert(d2[j] == ds[j]);
            }
        }
    }
    let ghost v = digits_value(d2);
    let ghost shift_true = ev - fraclen + (total - l2);
    assert(acc == capped(v, MAX_MAGNITUDE as int));
    proof {
        assert(all_digits(d2)) by {
            assert forall|j: int| 0 <= j < d2.len() implies is_digit(#[trigger] d2[j]) by {
                assert(d2[j] == ds[j]);
            }
        }
        lemma_digits_value_nonneg(d2);
    }
    if acc == 0 {
        return Decimal::new(false, 0, 0);
    }
    if acc > MAX_MAGNITUDE as u128 {
        proof {
            if shift_true >= 0 {
                lemma_pow10_le(0, shift_true as nat);
                assert(v * pow10(shift_true as nat) >= v) by (nonlinear_arith)
                    requires
                        v >= 0,
                        pow10(shift_true as nat) >= 1,
                ;
            }
        }
        return None;
    }
    let e_exec: i128 = if eneg { -(ecap as i128) } else { ecap as i128 };
    let shift: i128 = e_exec - fraclen as i128 + (total - l2) as i128;
    proof {
        if ecap <= 0x10_0000_0000_0000_0000_0000_0000u128 {
            assert(shift == shift_true);
        }
    }
    if shift >= 19 {
        proof {
            lemma_pow10_big(shift_true as nat, v);
        }
        return None;
    }
    if shift <= -19 {
        return None;
    }
    assert(shift == shift_true);
    if shift >= 0 {
        let pw = pow10_u64(shift as u32);
        assert(acc * (pw as u128) <= 0x8000_0000_0000_0000u128 * 0xffff_ffff_ffff_ffffu128) by (nonlinear_arith)
            requires
                acc <= 0x8000_0000_0000_0000u128,
                pw <= 0xffff_ffff_ffff_ffffu64,
        ;
        let mag: u128 = acc * pw as u128;
        assert(acc as int == v);
        assert(mag as int == v * pow10(shift as nat));
        if mag > MAX_MAGNITUDE as u128 {
            return None;
        }
        Decimal::new(neg && mag != 0, mag as u64, 0)
    } else {
        assert(acc as int == v);
        Decimal::new(neg, acc as u64, (-shift) as u32)
    }
}

/// Where digit `j` of a mantissa stands in its text.
pub open spec fn pos_of(start: int, p: int, intlen: int, j: int) -> int {
    if j < intlen { start + j } else { p + 1 + (j - intlen) }
}

fn digit_pos(start: usize, p: usize, intlen: usize, j: usize) -> (r: usize)
    requires
        start + intlen == p,
        j < intlen || p + 1 + (j - intlen) <= usize::MAX,
    ensures
        r == pos_of(start as int, p as int, intlen as int, j as int),
{
    if j < intlen { start + j } else { p + 1 + (j - intlen) }
}

} // verus!
