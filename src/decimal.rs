//! Exact decimal numbers, the coordinates of every shape.

use vstd::prelude::*;

verus! {

/// The largest number of digits after the decimal point.
pub const MAX_SCALE: u32 = 18;

/// `10` raised to `n`.
pub open spec fn pow10(n: nat) -> int
    decreases n,
{
    if n == 0 {
        1
    } else {
        10 * pow10((n - 1) as nat)
    }
}

/// A mantissa that a `Decimal` can hold: an `i64` whose negation is one too.
pub open spec fn mantissa_fits(m: int) -> bool {
    -(i64::MAX as int) <= m <= i64::MAX as int
}

/// The number `mantissa / 10^scale`.
///
/// The representation follows the text it was read from: `1.0` is
/// `(10, 1)` and `1` is `(1, 0)`.
#[derive(Clone, Copy, Debug, PartialEq, Eq, Structural)]
pub struct Decimal {
    pub mantissa: i64,
    pub scale: u32,
}

/// Why a numeric token was refused.
#[derive(Clone, Copy, Debug, PartialEq, Eq, Structural)]
pub enum NumberError {
    /// The token is not an optional `-` followed by digits with at most one
    /// decimal point, at least one of them a digit.
    Malformed,
    /// The digits do not fit in 64 bits, or more than `MAX_SCALE` follow the point.
    OutOfRange,
}

pub open spec fn is_digit(c: char) -> bool {
    '0' <= c <= '9'
}

pub open spec fn digit_value(c: char) -> int {
    c as int - '0' as int
}

/// The number that the digits of `u` spell when the point is left out.
pub open spec fn digits_value(u: Seq<char>) -> int
    decreases u.len(),
{
    if u.len() == 0 {
        0
    } else if is_digit(u.last()) {
        10 * digits_value(u.drop_last()) + digit_value(u.last())
    } else {
        digits_value(u.drop_last())
    }
}

/// How many characters follow the decimal point of `u` (none without one).
pub open spec fn fraction_len(u: Seq<char>) -> nat
    decreases u.len(),
{
    if u.len() == 0 {
        0
    } else if u.drop_last().contains('.') {
        fraction_len(u.drop_last()) + 1
    } else {
        0
    }
}

/// Every character is a digit or a decimal point.
pub open spec fn only_numeral_chars(u: Seq<char>) -> bool {
    forall|i: int| 0 <= i < u.len() ==> is_digit(#[trigger] u[i]) || u[i] == '.'
}

/// No two characters are decimal points.
pub open spec fn at_most_one_point(u: Seq<char>) -> bool {
    forall|i: int, j: int|
        #![trigger u[i], u[j]]
        0 <= i < j < u.len() && u[i] == '.' ==> u[j] != '.'
}

pub open spec fn has_digit(u: Seq<char>) -> bool {
    exists|i: int| 0 <= i < u.len() && is_digit(#[trigger] u[i])
}

/// Digits with at most one decimal point, and at least one digit.
pub open spec fn is_numeral(u: Seq<char>) -> bool {
    only_numeral_chars(u) && at_most_one_point(u) && has_digit(u)
}

pub open spec fn is_negative(t: Seq<char>) -> bool {
    t.len() > 0 && t[0] == '-'
}

/// The token without its leading minus sign.
pub open spec fn unsigned_part(t: Seq<char>) -> Seq<char> {
    if is_negative(t) {
        t.drop_first()
    } else {
        t
    }
}

/// What a numeric token reads as.
pub open spec fn parse_spec(t: Seq<char>) -> Result<Decimal, NumberError> {
    let u = unsigned_part(t);
    let v = digits_value(u);
    if !is_numeral(u) {
        Err(NumberError::Malformed)
    } else if v > i64::MAX || fraction_len(u) > MAX_SCALE {
        Err(NumberError::OutOfRange)
    } else {
        Ok(
            Decimal {
                mantissa: (if is_negative(t) {
                    -v
                } else {
                    v
                }) as i64,
                scale: fraction_len(u) as u32,
            },
        )
    }
}

/// The exact sum, at the larger of the two scales, if its mantissa fits.
pub open spec fn sum_spec(a: Decimal, b: Decimal) -> Option<Decimal> {
    let s: nat = if a.scale >= b.scale {
        a.scale as nat
    } else {
        b.scale as nat
    };
    let m = a.mantissa * pow10((s - a.scale) as nat) + b.mantissa * pow10((s - b.scale) as nat);
    if mantissa_fits(m) {
        Some(Decimal { mantissa: m as i64, scale: s as u32 })
    } else {
        None
    }
}

proof fn lemma_pow10_monotonic(n: nat, m: nat)
    requires
        n <= m,
    ensures
        1 <= pow10(n) <= pow10(m),
    decreases m,
{
    if m > n {
        lemma_pow10_monotonic(n, (m - 1) as nat);
    } else if n > 0 {
        lemma_pow10_monotonic((n - 1) as nat, (n - 1) as nat);
    }
}

proof fn lemma_pow10_bounds(n: nat)
    requires
        n <= MAX_SCALE,
    ensures
        1 <= pow10(n) <= 1_000_000_000_000_000_000,
{
    lemma_pow10_monotonic(n, 18);
    reveal_with_fuel(pow10, 19);
}

proof fn lemma_digits_value_grows(u: Seq<char>, c: char)
    requires
        is_digit(c),
    ensures
        digits_value(u.push(c)) == 10 * digits_value(u) + digit_value(c),
        digits_value(u) >= 0,
{
    lemma_digits_value_nonneg(u);
    assert(u.push(c).drop_last() =~= u);
}

proof fn lemma_digits_value_nonneg(u: Seq<char>)
    ensures
        digits_value(u) >= 0,
    decreases u.len(),
{
    if u.len() > 0 {
        lemma_digits_value_nonneg(u.drop_last());
    }
}

/// Every number that a token reads as holds the representation invariant.
pub proof fn lemma_parse_wf(t: Seq<char>)
    ensures
        parse_spec(t) matches Ok(d) ==> d.wf(),
{
    lemma_digits_value_nonneg(unsigned_part(t));
}

impl Decimal {
    /// Holds of every `Decimal` that this crate makes.
    pub open spec fn wf(self) -> bool {
        mantissa_fits(self.mantissa as int) && self.scale <= MAX_SCALE
    }

    /// The whole number `value`.
    pub fn integer(value: i32) -> (r: Decimal)
        ensures
            r.wf(),
            r.mantissa == value as i64,
            r.scale == 0,
    {
        Decimal { mantissa: value as i64, scale: 0 }
    }

    /// The decimal text of the number (`-0.05` for `(-5, 2)`).
    pub fn to_chars(self) -> (r: Vec<char>)
        requires
            self.wf(),
        ensures
            r@ == decimal_text(self),
    {
        let negative = self.mantissa < 0;
        let magnitude: u64 = if negative {
            (-self.mantissa) as u64
        } else {
            self.mantissa as u64
        };
        let mut digits: Vec<char> = Vec::new();
        push_digits(magnitude, &mut digits);
        assert(digits@ =~= nat_digits(magnitude as nat));
        proof {
            lemma_nat_digits_len(magnitude as nat);
        }
        let mut out: Vec<char> = Vec::new();
        if negative {
            out.push('-');
        }
        let ghost sign = out@;
        if self.scale == 0 {
            out.append(&mut digits);
            return out;
        }
        let width: usize = self.scale as usize + 1;
        let need: usize = if digits.len() < width {
            width - digits.len()
        } else {
            0
        };
        let mut p: Vec<char> = Vec::new();
        while p.len() < need
            invariant
                p@.len() <= need,
                forall|k: int| 0 <= k < p@.len() ==> p@[k] == '0',
            decreases need - p@.len(),
        {
            p.push('0');
        }
        let ghost padded = zero_padded(nat_digits(magnitude as nat), width as nat);
        assert(p@ =~= Seq::new(need as nat, |k: int| '0'));
        p.append(&mut digits);
        assert(p@ =~= padded);
        let cut: usize = p.len() - self.scale as usize;
        let mut i: usize = 0;
        while i < p.len()
            invariant
                p@ == padded,
                cut == p@.len() - self.scale,
                0 < cut < p@.len(),
                i <= p@.len(),
                out@ == (if i <= cut {
                    sign + p@.take(i as int)
                } else {
                    sign + p@.take(cut as int) + seq!['.'] + p@.subrange(cut as int, i as int)
                }),
            decreases p@.len() - i,
        {
            if i == cut {
                out.push('.');
            }
            out.push(p[i]);
            proof {
                if i < cut {
                    assert(sign + p@.take(i + 1) =~= (sign + p@.take(i as int)).push(p@[i as int]));
                } else {
                    assert(sign + p@.take(cut as int) + seq!['.'] + p@.subrange(cut as int, i + 1)
                        =~= (sign + p@.take(cut as int) + seq!['.'] + p@.subrange(cut as int, i as int)).push(p@[i as int]));
                }
            }
            i = i + 1;
        }
        assert(p@.subrange(cut as int, p@.len() as int) =~= p@.skip(cut as int));
        out
    }

    /// The number with the opposite sign.
    pub fn negate(self) -> (r: Decimal)
        requires
            self.wf(),
        ensures
            r.wf(),
            r.mantissa == -self.mantissa,
            r.scale == self.scale,
    {
        Decimal { mantissa: -self.mantissa, scale: self.scale }
    }

    /// The exact sum, or `None` where its mantissa does not fit.
    pub fn checked_add(self, other: Decimal) -> (r: Option<Decimal>)
        requires
            self.wf(),
            other.wf(),
        ensures
            r == sum_spec(self, other),
            r matches Some(d) ==> d.wf(),
    {
        let s: u32 = if self.scale >= other.scale {
            self.scale
        } else {
            other.scale
        };
        let fa = power_of_ten(s - self.scale);
        let fb = power_of_ten(s - other.scale);
        proof {
            lemma_pow10_bounds((s - self.scale) as nat);
            lemma_pow10_bounds((s - other.scale) as nat);
            assert(-(i64::MAX as int) * fa >= -(i64::MAX as int) * 1_000_000_000_000_000_000)
                by (nonlinear_arith)
                requires
                    1 <= fa <= 1_000_000_000_000_000_000,
            ;
            assert((i64::MAX as int) * fa <= (i64::MAX as int) * 1_000_000_000_000_000_000)
                by (nonlinear_arith)
                requires
                    1 <= fa <= 1_000_000_000_000_000_000,
            ;
            assert(-(i64::MAX as int) * fb >= -(i64::MAX as int) * 1_000_000_000_000_000_000)
                by (nonlinear_arith)
                requires
                    1 <= fb <= 1_000_000_000_000_000_000,
            ;
            assert((i64::MAX as int) * fb <= (i64::MAX as int) * 1_000_000_000_000_000_000)
                by (nonlinear_arith)
                requires
                    1 <= fb <= 1_000_000_000_000_000_000,
            ;
            assert(-(i64::MAX as int) * fa <= self.mantissa * fa <= (i64::MAX as int) * fa)
                by (nonlinear_arith)
                requires
                    1 <= fa,
                    -(i64::MAX as int) <= self.mantissa <= i64::MAX as int,
            ;
            assert(-(i64::MAX as int) * fb <= other.mantissa * fb <= (i64::MAX as int) * fb)
                by (nonlinear_arith)
                requires
                    1 <= fb,
                    -(i64::MAX as int) <= other.mantissa <= i64::MAX as int,
            ;
        }
        let m: i128 = (self.mantissa as i128) * fa + (other.mantissa as i128) * fb;
        if m < -(i64::MAX as i128) || m > i64::MAX as i128 {
            None
        } else {
            Some(Decimal { mantissa: m as i64, scale: s })
        }
    }
}

proof fn lemma_numeral_push(p: Seq<char>, c: char)
    ensures
        only_numeral_chars(p.push(c)) == (only_numeral_chars(p) && (is_digit(c) || c == '.')),
        at_most_one_point(p.push(c)) == (at_most_one_point(p) && !(c == '.' && p.contains('.'))),
        has_digit(p.push(c)) == (has_digit(p) || is_digit(c)),
        p.push(c).drop_last() == p,
{
    let q = p.push(c);
    assert(q.drop_last() =~= p);
    assert(q[p.len() as int] == c);
    if only_numeral_chars(q) {
        assert forall|i: int| 0 <= i < p.len() implies is_digit(#[trigger] p[i]) || p[i] == '.' by {
            assert(q[i] == p[i]);
        }
    }
    if at_most_one_point(q) {
        assert forall|i: int, j: int|
            #![trigger p[i], p[j]]
            0 <= i < j < p.len() && p[i] == '.' implies p[j] != '.' by {
            assert(q[i] == p[i] && q[j] == p[j]);
        }
        if c == '.' && p.contains('.') {
            let a = choose|a: int| 0 <= a < p.len() && p[a] == '.';
            assert(q[a] == '.' && q[p.len() as int] == '.');
        }
    }
    if has_digit(p) {
        let a = choose|a: int| 0 <= a < p.len() && is_digit(#[trigger] p[a]);
        assert(q[a] == p[a]);
    }
    if has_digit(q) && !is_digit(c) {
        let a = choose|a: int| 0 <= a < q.len() && is_digit(#[trigger] q[a]);
        assert(p[a] == q[a]);
    }
}

proof fn lemma_numeral_prefix(u: Seq<char>, k: int)
    requires
        0 <= k <= u.len(),
    ensures
        only_numeral_chars(u) ==> only_numeral_chars(u.subrange(0, k)),
        at_most_one_point(u) ==> at_most_one_point(u.subrange(0, k)),
{
    let q = u.subrange(0, k);
    if only_numeral_chars(u) {
        assert forall|i: int| 0 <= i < q.len() implies is_digit(#[trigger] q[i]) || q[i] == '.' by {
            assert(q[i] == u[i]);
        }
    }
    if at_most_one_point(u) {
        assert forall|i: int, j: int|
            #![trigger q[i], q[j]]
            0 <= i < j < q.len() && q[i] == '.' implies q[j] != '.' by {
            assert(q[i] == u[i] && q[j] == u[j]);
        }
    }
}

/// Reads a numeric token: an optional `-`, then digits with at most one
/// decimal point (`12`, `-0.5`, `.5`, `5.`).
pub fn parse_token(t: &Vec<char>) -> (r: Result<Decimal, NumberError>)
    ensures
        r == parse_spec(t@),
        r matches Ok(d) ==> d.wf(),
{
    let n = t.len();
    let negative = n > 0 && t[0] == '-';
    let start: usize = if negative {
        1
    } else {
        0
    };
    let ghost u = unsigned_part(t@);
    assert(u =~= t@.subrange(start as int, n as int));
    let mut m: i64 = 0;
    let mut too_large = false;
    let mut seen_point = false;
    let mut seen_digit = false;
    let mut frac: usize = 0;
    let mut i: usize = start;
    while i < n
        invariant
            start <= i <= n == t@.len(),
            u == t@.subrange(start as int, n as int),
            u == unsigned_part(t@),
            only_numeral_chars(u.subrange(0, i - start)),
            at_most_one_point(u.subrange(0, i - start)),
            seen_point == u.subrange(0, i - start).contains('.'),
            seen_digit == has_digit(u.subrange(0, i - start)),
            frac == fraction_len(u.subrange(0, i - start)),
            frac <= i,
            !too_large ==> m == digits_value(u.subrange(0, i - start)),
            too_large ==> digits_value(u.subrange(0, i - start)) > i64::MAX,
            0 <= m,
        decreases n - i,
    {
        let ghost p = u.subrange(0, i - start);
        let c = t[i];
        assert(u.subrange(0, i + 1 - start) =~= p.push(c));
        proof {
            lemma_digits_value_nonneg(p);
            lemma_numeral_push(p, c);
            lemma_numeral_prefix(u, i + 1 - start);
        }
        if '0' <= c && c <= '9' {
            proof {
                lemma_digits_value_grows(p, c);
            }
            if !too_large {
                let d = (c as u32 - '0' as u32) as i64;
                if m > (i64::MAX - d) / 10 {
                    too_large = true;
                } else {
                    m = m * 10 + d;
                }
            }
            seen_digit = true;
            if seen_point {
                frac = frac + 1;
            }
        } else if c == '.' {
            if seen_point {
                return Err(NumberError::Malformed);
            }
            seen_point = true;
            assert(p.push(c)[p.len() as int] == '.');
        } else {
            return Err(NumberError::Malformed);
        }
        i = i + 1;
    }
    assert(u.subrange(0, n - start) =~= u);
    if !seen_digit {
        return Err(NumberError::Malformed);
    }
    if too_large || frac > MAX_SCALE as usize {
        return Err(NumberError::OutOfRange);
    }
    let mantissa = if negative {
        -m
    } else {
        m
    };
    Ok(Decimal { mantissa, scale: frac as u32 })
}

/// Relies on `str::chars`: the characters of `s`, in order.
#[verifier::external_body]
pub(crate) fn chars_of(s: &str) -> (r: Vec<char>)
    ensures
        r@ == s@,
{
    s.chars().collect()
}

/// Reads a whole text as one number.
pub fn parse_number(text: &str) -> (r: Result<Decimal, NumberError>)
    ensures
        r == parse_spec(text@),
        r matches Ok(d) ==> d.wf(),
{
    let chars = chars_of(text);
    parse_token(&chars)
}

/// The character of the digit `v`.
pub open spec fn digit_char(v: nat) -> char {
    (v + '0' as nat) as char
}

/// The decimal digits of `n`, most significant first, with no leading zero.
pub open spec fn nat_digits(n: nat) -> Seq<char>
    decreases n,
{
    if n < 10 {
        seq![digit_char(n)]
    } else {
        nat_digits(n / 10).push(digit_char(n % 10))
    }
}

/// `s` with zeros put in front until it is `width` long.
pub open spec fn zero_padded(s: Seq<char>, width: nat) -> Seq<char> {
    if s.len() < width {
        Seq::new((width - s.len()) as nat, |i: int| '0') + s
    } else {
        s
    }
}

/// The text of `d`: a minus sign where it is negative, then its digits, with
/// a point before the last `scale` of them and a zero before the point.
pub open spec fn decimal_text(d: Decimal) -> Seq<char> {
    let m = d.mantissa as int;
    let sign = if m < 0 {
        seq!['-']
    } else {
        Seq::empty()
    };
    let digits = nat_digits((if m < 0 {
        -m
    } else {
        m
    }) as nat);
    if d.scale == 0 {
        sign + digits
    } else {
        let p = zero_padded(digits, (d.scale + 1) as nat);
        let cut = p.len() - d.scale;
        sign + p.take(cut) + seq!['.'] + p.skip(cut)
    }
}

proof fn lemma_nat_digits_len(n: nat)
    ensures
        nat_digits(n).len() >= 1,
    decreases n,
{
    if n >= 10 {
        lemma_nat_digits_len(n / 10);
    }
}

/// Appends the digits of `n` to `out`.
fn push_digits(n: u64, out: &mut Vec<char>)
    ensures
        final(out)@ == old(out)@ + nat_digits(n as nat),
    decreases n,
{
    if n < 10 {
        out.push(((n as u8) + 48u8) as char);
        assert(old(out)@ + nat_digits(n as nat) =~= old(out)@.push(digit_char(n as nat)));
    } else {
        push_digits(n / 10, out);
        out.push((((n % 10) as u8) + 48u8) as char);
        assert(old(out)@ + nat_digits(n as nat) =~= old(out)@ + nat_digits((n / 10) as nat).push(
            digit_char((n % 10) as nat),
        ));
    }
}

proof fn lemma_digit_char(v: nat)
    requires
        v < 10,
    ensures
        is_digit(digit_char(v)),
        digit_value(digit_char(v)) == v,
{
}

/// Every character of `s` is a digit.
pub open spec fn all_digits(s: Seq<char>) -> bool {
    forall|i: int| 0 <= i < s.len() ==> is_digit(#[trigger] s[i])
}

proof fn lemma_nat_digits(n: nat)
    ensures
        all_digits(nat_digits(n)),
        nat_digits(n).len() >= 1,
        digits_value(nat_digits(n)) == n,
    decreases n,
{
    if n < 10 {
        lemma_digit_char(n);
        assert(seq![digit_char(n)].drop_last() =~= Seq::<char>::empty());
        assert(digits_value(Seq::<char>::empty()) == 0);
    } else {
        lemma_nat_digits(n / 10);
        lemma_digit_char(n % 10);
        let s = nat_digits(n / 10).push(digit_char(n % 10));
        assert(s.drop_last() =~= nat_digits(n / 10));
        assert(s.last() == digit_char(n % 10));
        assert(10 * (n / 10) + n % 10 == n);
        assert forall|i: int| 0 <= i < s.len() implies is_digit(#[trigger] s[i]) by {
            if i < s.len() - 1 {
                assert(s[i] == nat_digits(n / 10)[i]);
            }
        }
    }
}

proof fn lemma_zeros_value(k: nat, s: Seq<char>)
    ensures
        digits_value(Seq::new(k, |i: int| '0') + s) == digits_value(s),
    decreases s.len(), k,
{
    let z = Seq::new(k, |i: int| '0');
    if s.len() > 0 {
        assert((z + s).drop_last() =~= z + s.drop_last());
        assert((z + s).last() == s.last());
        lemma_zeros_value(k, s.drop_last());
    } else {
        assert(z + s =~= z);
        if k > 0 {
            let z1 = Seq::new((k - 1) as nat, |i: int| '0');
            assert(z.drop_last() =~= z1 + Seq::<char>::empty());
            lemma_zeros_value((k - 1) as nat, Seq::<char>::empty());
            assert(z1 + Seq::<char>::empty() =~= z1);
            assert(is_digit(z.last()) && digit_value(z.last()) == 0);
        }
    }
}

proof fn lemma_point_value(x: Seq<char>, y: Seq<char>)
    ensures
        digits_value(x + seq!['.'] + y) == digits_value(x + y),
    decreases y.len(),
{
    if y.len() > 0 {
        assert((x + seq!['.'] + y).drop_last() =~= x + seq!['.'] + y.drop_last());
        assert((x + y).drop_last() =~= x + y.drop_last());
        assert((x + seq!['.'] + y).last() == y.last());
        assert((x + y).last() == y.last());
        lemma_point_value(x, y.drop_last());
    } else {
        assert((x + seq!['.'] + y).drop_last() =~= x);
        assert(x + y =~= x);
    }
}

proof fn lemma_point_fraction(x: Seq<char>, y: Seq<char>)
    requires
        !x.contains('.'),
    ensures
        fraction_len(x + seq!['.'] + y) == y.len(),
    decreases y.len(),
{
    let w = x + seq!['.'] + y;
    if y.len() > 0 {
        assert(w.drop_last() =~= x + seq!['.'] + y.drop_last());
        assert(w.drop_last()[x.len() as int] == '.');
        lemma_point_fraction(x, y.drop_last());
    } else {
        assert(w.drop_last() =~= x);
    }
}

/// Writing a number out as text and reading that text back gives the same
/// number, representation included.
pub proof fn law_text_round_trip(d: Decimal)
    requires
        d.wf(),
    ensures
        parse_spec(decimal_text(d)) == Ok::<Decimal, NumberError>(d),
        is_negative(decimal_text(d)) == (d.mantissa < 0),
{
    let m = d.mantissa as int;
    let mag: nat = (if m < 0 {
        -m
    } else {
        m
    }) as nat;
    let digits = nat_digits(mag);
    lemma_nat_digits(mag);
    let sign = if m < 0 {
        seq!['-']
    } else {
        Seq::<char>::empty()
    };
    let t = decimal_text(d);
    // The part after the sign.
    let u = if d.scale == 0 {
        digits
    } else {
        let p = zero_padded(digits, (d.scale + 1) as nat);
        let cut = p.len() - d.scale;
        p.take(cut) + seq!['.'] + p.skip(cut)
    };
    assert(t =~= sign + u);
    let p = zero_padded(digits, (d.scale + 1) as nat);
    assert(all_digits(p)) by {
        if digits.len() < d.scale + 1 {
            let z = Seq::new((d.scale + 1 - digits.len()) as nat, |i: int| '0');
            assert forall|i: int| 0 <= i < p.len() implies is_digit(#[trigger] p[i]) by {
                if i >= z.len() {
                    assert(p[i] == digits[i - z.len()]);
                }
            }
        }
    }
    assert(digits_value(p) == mag) by {
        if digits.len() < d.scale + 1 {
            lemma_zeros_value((d.scale + 1 - digits.len()) as nat, digits);
        }
    }
    assert(u.len() >= 1 && is_digit(u[0])) by {
        if d.scale > 0 {
            let cut = p.len() - d.scale;
            assert(u[0] == p[0]);
        }
    }
    assert(unsigned_part(t) =~= u) by {
        if m < 0 {
            assert(t.drop_first() =~= u);
        } else {
            assert(t =~= u);
        }
    }
    assert(is_negative(t) == (m < 0));
    assert(has_digit(u)) by {
        assert(is_digit(u[0]));
    }
    if d.scale == 0 {
        assert(only_numeral_chars(u));
        assert(!u.contains('.')) by {
            if u.contains('.') {
                let k = choose|k: int| 0 <= k < u.len() && u[k] == '.';
                assert(is_digit(u[k]));
            }
        }
        assert(u.drop_last().contains('.') == false) by {
            if u.drop_last().contains('.') {
                let k = choose|k: int| 0 <= k < u.drop_last().len() && u.drop_last()[k] == '.';
                assert(u[k] == '.');
            }
        }
        assert(fraction_len(u) == 0);
    } else {
        let cut = p.len() - d.scale;
        let x = p.take(cut);
        let y = p.skip(cut);
        assert(x + y =~= p);
        lemma_point_value(x, y);
        assert(!x.contains('.')) by {
            if x.contains('.') {
                let k = choose|k: int| 0 <= k < x.len() && x[k] == '.';
                assert(x[k] == p[k]);
            }
        }
        lemma_point_fraction(x, y);
        assert(only_numeral_chars(u)) by {
            assert forall|i: int| 0 <= i < u.len() implies is_digit(#[trigger] u[i]) || u[i] == '.' by {
                if i < x.len() {
                    assert(u[i] == p[i]);
                } else if i > x.len() {
                    assert(u[i] == p[i - 1]);
                }
            }
        }
        assert(at_most_one_point(u)) by {
            assert forall|i: int, j: int|
                #![trigger u[i], u[j]]
                0 <= i < j < u.len() && u[i] == '.' implies u[j] != '.' by {
                if i < x.len() {
                    assert(u[i] == p[i]);
                } else if i > x.len() {
                    assert(u[i] == p[i - 1]);
                }
                assert(u[j] == p[j - 1]);
            }
        }
    }
}

/// The text of a number is an optional minus sign, present exactly for a
/// negative number, then digits and at most one point.
pub proof fn lemma_text_shape(d: Decimal)
    requires
        d.wf(),
    ensures
        decimal_text(d).len() > 0,
        (d.mantissa < 0) == (decimal_text(d)[0] == '-'),
        forall|i: int|
            #![trigger decimal_text(d)[i]]
            (if d.mantissa < 0 { 1int } else { 0int }) <= i < decimal_text(d).len() ==> is_digit(decimal_text(d)[i]) || decimal_text(d)[i] == '.',
{
    law_text_round_trip(d);
    let t = decimal_text(d);
    let u = unsigned_part(t);
    assert(is_numeral(u));
    assert forall|i: int|
        #![trigger decimal_text(d)[i]]
        (if d.mantissa < 0 { 1int } else { 0int }) <= i < decimal_text(d).len() implies is_digit(decimal_text(d)[i]) || decimal_text(d)[i] == '.' by {
        if d.mantissa < 0 {
            assert(t[i] == u[i - 1]);
        } else {
            assert(t[i] == u[i]);
        }
    }
}

/// `10^n` for `n <= MAX_SCALE`.
fn power_of_ten(n: u32) -> (r: i128)
    requires
        n <= MAX_SCALE,
    ensures
        r == pow10(n as nat),
{
    let mut r: i128 = 1;
    let mut i: u32 = 0;
    while i < n
        invariant
            i <= n <= MAX_SCALE,
            r == pow10(i as nat),
        decreases n - i,
    {
        proof {
            lemma_pow10_bounds(i as nat);
        }
        r = r * 10;
        i = i + 1;
    }
    r
}

} // verus!
