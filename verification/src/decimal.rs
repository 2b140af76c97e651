//! Real-valued readings. A number is held as an exact decimal: a sign, a
//! whole number and the count of its digits that stand behind the decimal
//! point. Beside the numbers stand the two infinities and what is no number.

use crate::numerals::{
    all_digits, chars_of, digits_of, digits_value, is_digit, lemma_digits_of_shape,
    lemma_digits_round_trip, lemma_digits_value_leading_zeros, lemma_digits_value_prefix,
    push_digit, push_nat, to_digit,
};
use vstd::prelude::*;

verus! {

/// A decimal number: `mantissa / 10^scale`, negated where `negative` is set.
#[derive(Clone, Copy, Debug, PartialEq, Eq)]
pub struct Decimal {
    pub negative: bool,
    pub mantissa: u128,
    pub scale: u8,
}

/// A run of `n` zeros.
pub open spec fn zeros(n: nat) -> Seq<char> {
    Seq::new(n, |i: int| '0')
}

/// Ten to the power `n`.
pub open spec fn pow10(n: nat) -> nat
    decreases n,
{
    if n == 0 {
        1
    } else {
        10 * pow10((n - 1) as nat)
    }
}

/// The text of `mantissa / 10^scale`: the numeral of the mantissa with a point
/// set `scale` digits from its end, after a zero and further zeros where the
/// numeral is too short for that.
pub open spec fn magnitude_text(mantissa: nat, scale: nat) -> Seq<char> {
    let d = digits_of(mantissa);
    if scale == 0 {
        d
    } else if d.len() > scale {
        d.take(d.len() - scale) + seq!['.'] + d.skip(d.len() - scale)
    } else {
        seq!['0', '.'] + zeros((scale - d.len()) as nat) + d
    }
}

/// The mantissa and scale with the zeros at the end of the fraction taken off.
pub open spec fn trimmed(mantissa: nat, scale: nat) -> (nat, nat)
    decreases scale,
{
    if scale > 0 && mantissa % 10 == 0 {
        trimmed(mantissa / 10, (scale - 1) as nat)
    } else {
        (mantissa, scale)
    }
}

/// The number of digits that `s` begins with.
pub open spec fn digit_run(s: Seq<char>) -> nat
    decreases s.len(),
{
    if s.len() > 0 && is_digit(s[0]) {
        1 + digit_run(s.skip(1))
    } else {
        0
    }
}

/// What an unsigned decimal denotes, as mantissa and scale before trimming:
/// one digit or more, then, if anything follows, a point and one digit or more.
pub open spec fn parse_magnitude(s: Seq<char>) -> Option<(nat, nat)> {
    let p = digit_run(s) as int;
    if p == 0 {
        None
    } else if p == s.len() {
        Some((digits_value(s), 0))
    } else if s[p] == '.' && s.len() > p + 1 && all_digits(s.skip(p + 1)) {
        Some((digits_value(s.take(p) + s.skip(p + 1)), (s.len() - p - 1) as nat))
    } else {
        None
    }
}

/// What a decimal denotes: an optional minus sign, then an unsigned decimal
/// whose fraction has at most 255 digits and whose digits, read as one whole
/// number, fit 128 bits. The result is in lowest terms.
pub open spec fn parse_decimal(s: Seq<char>) -> Option<Decimal> {
    let negative = s.len() > 0 && s[0] == '-';
    let body = if negative {
        s.skip(1)
    } else {
        s
    };
    match parse_magnitude(body) {
        Some((m, k)) => if m <= u128::MAX && k <= u8::MAX {
            let (tm, tk) = trimmed(m, k);
            Some(Decimal { negative, mantissa: tm as u128, scale: tk as u8 })
        } else {
            None
        },
        None => None,
    }
}

/// The decimal `mantissa / 10^scale` with the given sign, in lowest terms.
pub open spec fn lowest_terms(negative: bool, mantissa: nat, scale: nat) -> Decimal {
    let (m, k) = trimmed(mantissa, scale);
    Decimal { negative, mantissa: m as u128, scale: k as u8 }
}

/// The sum of two decimals, formed over the larger of their scales. There is
/// none where a mantissa brought to that scale, or the sum of two of one
/// sign, does not fit 128 bits. Two decimals of opposite sign and equal
/// magnitude give zero without a sign.
pub open spec fn sum_of(a: Decimal, b: Decimal) -> Option<Decimal> {
    let k = if a.scale >= b.scale {
        a.scale as nat
    } else {
        b.scale as nat
    };
    let x = a.mantissa * pow10((k - a.scale) as nat);
    let y = b.mantissa * pow10((k - b.scale) as nat);
    if x > u128::MAX || y > u128::MAX {
        None
    } else if a.negative == b.negative {
        if x + y > u128::MAX {
            None
        } else {
            Some(lowest_terms(a.negative, (x + y) as nat, k))
        }
    } else if x == y {
        Some(lowest_terms(false, 0, k))
    } else if x > y {
        Some(lowest_terms(a.negative, (x - y) as nat, k))
    } else {
        Some(lowest_terms(b.negative, (y - x) as nat, k))
    }
}

impl Decimal {
    /// Lowest terms: no zero ends the fraction.
    pub open spec fn wf(self) -> bool {
        self.scale == 0 || self.mantissa % 10 != 0
    }

    /// The decimal text of the number.
    pub open spec fn text(self) -> Seq<char> {
        if self.negative {
            seq!['-'] + magnitude_text(self.mantissa as nat, self.scale as nat)
        } else {
            magnitude_text(self.mantissa as nat, self.scale as nat)
        }
    }

    /// The number as a signed count of units of `10^-k`, for `k` no smaller
    /// than the scale.
    pub open spec fn units(self, k: nat) -> int {
        let magnitude = self.mantissa * pow10((k - self.scale) as nat);
        if self.negative {
            -magnitude
        } else {
            magnitude as int
        }
    }

    /// Zero.
    pub fn zero() -> (r: Decimal)
        ensures
            r == (Decimal { negative: false, mantissa: 0, scale: 0 }),
            r.wf(),
    {
        Decimal { negative: false, mantissa: 0, scale: 0 }
    }

    /// The number `mantissa / 10^scale` with the given sign, in lowest terms.
    pub fn new(negative: bool, mantissa: u128, scale: u8) -> (r: Decimal)
        ensures
            r.wf(),
            r.negative == negative,
            (r.mantissa as nat, r.scale as nat) == trimmed(mantissa as nat, scale as nat),
    {
        let mut m = mantissa;
        let mut k = scale;
        while k > 0 && m % 10 == 0
            invariant
                trimmed(m as nat, k as nat) == trimmed(mantissa as nat, scale as nat),
            decreases k,
        {
            m = m / 10;
            k = k - 1;
        }
        Decimal { negative, mantissa: m, scale: k }
    }

    /// The mantissa of the number brought to the scale `k`, where it fits
    /// 128 bits.
    pub fn scaled_to(&self, k: u8) -> (r: Option<u128>)
        requires
            k >= self.scale,
        ensures
            r is Some <==> self.mantissa * pow10((k - self.scale) as nat) <= u128::MAX,
            r matches Some(m) ==> m == self.mantissa * pow10((k - self.scale) as nat),
    {
        let mut m = self.mantissa;
        let mut s = self.scale;
        assert(self.mantissa * pow10(0) == self.mantissa) by (nonlinear_arith)
            requires
                pow10(0) == 1,
        ;
        while s < k
            invariant
                self.scale <= s <= k,
                m == self.mantissa * pow10((s - self.scale) as nat),
            decreases k - s,
        {
            proof {
                let done = (s - self.scale) as nat;
                let left = (k - s) as nat;
                lemma_pow10_add(done, left);
                lemma_pow10_add(done, 1);
                lemma_pow10_add(1, (left - 1) as nat);
                assert(pow10(1) == 10) by {
                    reveal_with_fuel(pow10, 2);
                }
                lemma_pow10_positive((left - 1) as nat);
                let target = self.mantissa * pow10((k - self.scale) as nat);
                assert(target == m * 10 * pow10((left - 1) as nat)) by (nonlinear_arith)
                    requires
                        target == self.mantissa * pow10((k - self.scale) as nat),
                        pow10((k - self.scale) as nat) == pow10(done) * pow10(left),
                        pow10(left) == 10 * pow10((left - 1) as nat),
                        m == self.mantissa * pow10(done),
                ;
                assert(target >= m * 10) by (nonlinear_arith)
                    requires
                        target == m * 10 * pow10((left - 1) as nat),
                        pow10((left - 1) as nat) >= 1,
                ;
                assert(m * 10 == self.mantissa * pow10((done + 1) as nat)) by (nonlinear_arith)
                    requires
                        m == self.mantissa * pow10(done),
                        pow10((done + 1) as nat) == pow10(done) * 10,
                ;
            }
            match m.checked_mul(10) {
                None => {
                    return None;
                },
                Some(x) => {
                    m = x;
                },
            }
            s = s + 1;
        }
        Some(m)
    }

    /// The sum of this number and `other`, in lowest terms; nothing where it
    /// cannot be formed in 128 bits.
    pub fn checked_add(&self, other: &Decimal) -> (r: Option<Decimal>)
        ensures
            r == sum_of(*self, *other),
            r matches Some(x) ==> x.wf(),
    {
        let k = if self.scale >= other.scale {
            self.scale
        } else {
            other.scale
        };
        let x = match self.scaled_to(k) {
            Some(x) => x,
            None => {
                return None;
            },
        };
        let y = match other.scaled_to(k) {
            Some(y) => y,
            None => {
                return None;
            },
        };
        if self.negative == other.negative {
            match x.checked_add(y) {
                Some(m) => Some(Decimal::new(self.negative, m, k)),
                None => None,
            }
        } else if x == y {
            Some(Decimal::new(false, 0, k))
        } else if x > y {
            Some(Decimal::new(self.negative, x - y, k))
        } else {
            Some(Decimal::new(other.negative, y - x, k))
        }
    }

    /// Appends the decimal text of the number to `out`.
    pub fn push_text(&self, out: &mut String)
        ensures
            final(out)@ == old(out)@ + self.text(),
    {
        proof {
            reveal_strlit("-");
            reveal_strlit(".");
            reveal_strlit("0");
        }
        if self.negative {
            out.append("-");
        }
        let ghost head = out@;
        let mut numeral = String::new();
        push_nat(&mut numeral, self.mantissa);
        let digits = chars_of(numeral.as_str());
        let ghost d = digits_of(self.mantissa as nat);
        assert(digits@ =~= d);
        proof {
            lemma_digits_of_shape(self.mantissa as nat);
        }
        let n = digits.len();
        let k = self.scale as usize;
        if k == 0 {
            out.append(numeral.as_str());
        } else if n > k {
            let mut i: usize = 0;
            while i < n - k
                invariant
                    i <= n - k,
                    n == digits.len(),
                    digits@ == d,
                    all_digits(d),
                    out@ == head + d.take(i as int),
                decreases n - k - i,
            {
                push_char_digit(out, digits[i]);
                assert(d.take(i as int).push(d[i as int]) =~= d.take(i + 1));
                i = i + 1;
            }
            out.append(".");
            while i < n
                invariant
                    0 < k < n,
                    n - k <= i <= n,
                    n == digits.len(),
                    digits@ == d,
                    all_digits(d),
                    out@ == head + d.take(n - k) + seq!['.'] + d.subrange(n - k, i as int),
                decreases n - i,
            {
                push_char_digit(out, digits[i]);
                assert(d.subrange(n - k, i as int).push(d[i as int]) =~= d.subrange(n - k, i + 1));
                i = i + 1;
            }
            assert(d.subrange(n - k, n as int) =~= d.skip(n - k));
        } else {
            out.append("0");
            out.append(".");
            let mut z: usize = 0;
            while z < k - n
                invariant
                    z <= k - n,
                    out@ == head + seq!['0', '.'] + zeros(z as nat),
                decreases k - n - z,
            {
                proof {
                    reveal_strlit("0");
                }
                out.append("0");
                assert(out@ =~= head + seq!['0', '.'] + zeros((z + 1) as nat));
                z = z + 1;
            }
            out.append(numeral.as_str());
        }
        assert(out@ =~= old(out)@ + self.text());
    }

    /// The decimal text of the number.
    pub fn to_text(&self) -> (s: String)
        ensures
            s@ == self.text(),
    {
        let mut s = String::new();
        self.push_text(&mut s);
        s
    }

    /// Reads `text[start..end]` as a decimal.
    pub fn read(text: &Vec<char>, start: usize, end: usize) -> (r: Option<Decimal>)
        requires
            start <= end <= text.len(),
        ensures
            r == parse_decimal(text@.subrange(start as int, end as int)),
            r matches Some(x) ==> x.wf(),
    {
        let ghost s = text@.subrange(start as int, end as int);
        let negative = start < end && text[start] == '-';
        let from = if negative {
            start + 1
        } else {
            start
        };
        let ghost body = text@.subrange(from as int, end as int);
        assert(body =~= if negative {
            s.skip(1)
        } else {
            s
        });
        let p = end_of_digits(text, from, end);
        if p == from {
            return None;
        }
        let ghost whole = text@.subrange(from as int, p as int);
        assert(whole =~= body.take(p - from));
        let units = continue_digits(text, from, p, 0, Ghost(Seq::empty()));
        assert(Seq::<char>::empty() + whole =~= whole);
        if p == end {
            assert(whole =~= body);
            return match units {
                Some(m) => {
                    assert(trimmed(m as nat, 0) == (m as nat, 0nat));
                    Some(Decimal { negative, mantissa: m, scale: 0 })
                },
                None => None,
            };
        }
        if text[p] != '.' || end - p - 1 == 0 {
            return None;
        }
        let ghost fraction = text@.subrange(p + 1, end as int);
        assert(fraction =~= body.skip(p - from + 1));
        assert(body[p - from] == text@[p as int]);
        match units {
            None => {
                proof {
                    lemma_digits_value_prefix(whole + fraction, whole.len() as int);
                    assert((whole + fraction).take(whole.len() as int) =~= whole);
                }
                None
            },
            Some(m) => match continue_digits(text, p + 1, end, m, Ghost(whole)) {
                None => None,
                Some(all) => {
                    if end - p - 1 > 255 {
                        None
                    } else {
                        Some(Decimal::new(negative, all, (end - p - 1) as u8))
                    }
                },
            },
        }
    }

    /// The decimal that the text denotes, if it denotes one.
    pub fn from_text(text: &str) -> (r: Option<Decimal>)
        ensures
            r == parse_decimal(text@),
            r matches Some(x) ==> x.wf(),
    {
        let v = chars_of(text);
        assert(v@.subrange(0, v.len() as int) =~= v@);
        Decimal::read(&v, 0, v.len())
    }
}

/// A real-valued reading: a decimal, or one of the values that stand outside
/// the numbers.
#[derive(Clone, Copy, Debug, PartialEq, Eq)]
pub enum Real {
    /// A number.
    Finite(Decimal),
    /// Beyond every number; below every number where the flag is set.
    Infinite(bool),
    /// No number at all.
    NotANumber,
}

/// The text of what is beyond every number.
pub open spec fn infinity_text() -> Seq<char> {
    seq!['i', 'n', 'f']
}

/// The text of what is below every number.
pub open spec fn negative_infinity_text() -> Seq<char> {
    seq!['-', 'i', 'n', 'f']
}

/// The text of what is no number.
pub open spec fn nan_text() -> Seq<char> {
    seq!['N', 'a', 'N']
}

/// What the text of a reading denotes: `NaN`, `inf` and `-inf` denote the
/// values outside the numbers; any other text denotes what it denotes as a
/// decimal.
pub open spec fn parse_real(s: Seq<char>) -> Option<Real> {
    if s == nan_text() {
        Some(Real::NotANumber)
    } else if s == infinity_text() {
        Some(Real::Infinite(false))
    } else if s == negative_infinity_text() {
        Some(Real::Infinite(true))
    } else {
        match parse_decimal(s) {
            Some(d) => Some(Real::Finite(d)),
            None => None,
        }
    }
}

/// The sum of two readings. Two numbers give their exact sum, and none where
/// that cannot be formed. With what is no number the sum is no number; so is
/// the sum of the two infinities of opposite sign. An infinity with anything
/// else gives that infinity.
pub open spec fn real_sum(a: Real, b: Real) -> Option<Real> {
    match (a, b) {
        (Real::Finite(x), Real::Finite(y)) => match sum_of(x, y) {
            Some(z) => Some(Real::Finite(z)),
            None => None,
        },
        (Real::NotANumber, _) => Some(Real::NotANumber),
        (_, Real::NotANumber) => Some(Real::NotANumber),
        (Real::Infinite(p), Real::Infinite(q)) => if p == q {
            Some(Real::Infinite(p))
        } else {
            Some(Real::NotANumber)
        },
        (Real::Infinite(p), Real::Finite(_)) => Some(Real::Infinite(p)),
        (Real::Finite(_), Real::Infinite(q)) => Some(Real::Infinite(q)),
    }
}

impl Real {
    /// A number is in lowest terms.
    pub open spec fn wf(self) -> bool {
        match self {
            Real::Finite(d) => d.wf(),
            _ => true,
        }
    }

    /// The text of the reading: that of a number, or `inf`, `-inf` or `NaN`.
    pub open spec fn text(self) -> Seq<char> {
        match self {
            Real::Finite(d) => d.text(),
            Real::Infinite(false) => infinity_text(),
            Real::Infinite(true) => negative_infinity_text(),
            Real::NotANumber => nan_text(),
        }
    }

    /// Zero.
    pub fn zero() -> (r: Real)
        ensures
            r == Real::Finite(Decimal { negative: false, mantissa: 0, scale: 0 }),
            r.wf(),
    {
        Real::Finite(Decimal::zero())
    }

    /// Appends the text of the reading to `out`.
    pub fn push_text(&self, out: &mut String)
        ensures
            final(out)@ == old(out)@ + self.text(),
    {
        match self {
            Real::Finite(d) => {
                d.push_text(out);
            },
            Real::Infinite(negative) => {
                proof {
                    reveal_strlit("inf");
                    reveal_strlit("-inf");
                }
                if *negative {
                    out.append("-inf");
                    assert(out@ =~= old(out)@ + negative_infinity_text());
                } else {
                    out.append("inf");
                    assert(out@ =~= old(out)@ + infinity_text());
                }
            },
            Real::NotANumber => {
                proof {
                    reveal_strlit("NaN");
                }
                out.append("NaN");
                assert(out@ =~= old(out)@ + nan_text());
            },
        }
    }

    /// The text of the reading.
    pub fn to_text(&self) -> (s: String)
        ensures
            s@ == self.text(),
    {
        let mut s = String::new();
        self.push_text(&mut s);
        s
    }

    /// Reads `text[start..end]` as a reading.
    pub fn read(text: &Vec<char>, start: usize, end: usize) -> (r: Option<Real>)
        requires
            start <= end <= text.len(),
        ensures
            r == parse_real(text@.subrange(start as int, end as int)),
            r matches Some(x) ==> x.wf(),
    {
        let ghost s = text@.subrange(start as int, end as int);
        let n = end - start;
        if n == 3 && text[start] == 'N' && text[start + 1] == 'a' && text[start + 2] == 'N' {
            assert(s =~= nan_text());
            return Some(Real::NotANumber);
        }
        assert(s != nan_text()) by {
            if s == nan_text() {
                assert(s[0] == 'N' && s[1] == 'a' && s[2] == 'N');
            }
        }
        if n == 3 && text[start] == 'i' && text[start + 1] == 'n' && text[start + 2] == 'f' {
            assert(s =~= infinity_text());
            return Some(Real::Infinite(false));
        }
        assert(s != infinity_text()) by {
            if s == infinity_text() {
                assert(s[0] == 'i' && s[1] == 'n' && s[2] == 'f');
            }
        }
        if n == 4 && text[start] == '-' && text[start + 1] == 'i' && text[start + 2] == 'n' && text[start
            + 3] == 'f' {
            assert(s =~= negative_infinity_text());
            return Some(Real::Infinite(true));
        }
        assert(s != negative_infinity_text()) by {
            if s == negative_infinity_text() {
                assert(s[0] == '-' && s[1] == 'i' && s[2] == 'n' && s[3] == 'f');
            }
        }
        match Decimal::read(text, start, end) {
            Some(d) => Some(Real::Finite(d)),
            None => None,
        }
    }

    /// The reading that the text denotes, if it denotes one.
    pub fn from_text(text: &str) -> (r: Option<Real>)
        ensures
            r == parse_real(text@),
            r matches Some(x) ==> x.wf(),
    {
        let v = chars_of(text);
        assert(v@.subrange(0, v.len() as int) =~= v@);
        Real::read(&v, 0, v.len())
    }

    /// The sum of this reading and `other`; nothing where both are numbers
    /// whose sum cannot be formed.
    pub fn checked_add(&self, other: &Real) -> (r: Option<Real>)
        ensures
            r == real_sum(*self, *other),
            r matches Some(x) ==> x.wf(),
    {
        match (self, other) {
            (Real::Finite(x), Real::Finite(y)) => match x.checked_add(y) {
                Some(z) => Some(Real::Finite(z)),
                None => None,
            },
            (Real::NotANumber, _) => Some(Real::NotANumber),
            (_, Real::NotANumber) => Some(Real::NotANumber),
            (Real::Infinite(p), Real::Infinite(q)) => if *p == *q {
                Some(Real::Infinite(*p))
            } else {
                Some(Real::NotANumber)
            },
            (Real::Infinite(p), Real::Finite(_)) => Some(Real::Infinite(*p)),
            (Real::Finite(_), Real::Infinite(q)) => Some(Real::Infinite(*q)),
        }
    }
}

/// The text of a reading whose number is in lowest terms reads back as that
/// reading.
pub proof fn lemma_real_round_trip(x: Real)
    requires
        x.wf(),
    ensures
        parse_real(x.text()) == Some(x),
{
    match x {
        Real::Finite(d) => {
            lemma_decimal_round_trip(d);
            lemma_magnitude_round_trip(d.mantissa as nat, d.scale as nat);
            let t = d.text();
            let m = magnitude_text(d.mantissa as nat, d.scale as nat);
            if d.negative {
                assert(t[1] == m[0]);
                assert(negative_infinity_text()[1] == 'i');
                assert(t[0] == '-');
            } else {
                assert(t[0] == m[0]);
            }
            assert(nan_text()[0] == 'N');
            assert(infinity_text()[0] == 'i');
            assert(negative_infinity_text()[0] == '-');
        },
        Real::Infinite(negative) => {
            assert(infinity_text()[0] == 'i');
            assert(negative_infinity_text()[0] == '-');
            assert(nan_text()[0] == 'N');
        },
        Real::NotANumber => {},
    }
}

/// The text of a reading is not empty and holds no comma.
pub proof fn lemma_real_text_chars(x: Real)
    ensures
        x.text().len() >= 1,
        forall|i: int| 0 <= i < x.text().len() ==> #[trigger] x.text()[i] != ',',
{
    match x {
        Real::Finite(d) => {
            lemma_decimal_text_chars(d);
        },
        _ => {},
    }
}

/// A power of ten is at least one.
pub proof fn lemma_pow10_positive(n: nat)
    ensures
        pow10(n) >= 1,
    decreases n,
{
    if n > 0 {
        lemma_pow10_positive((n - 1) as nat);
    }
}

/// Powers of ten multiply as their exponents add.
pub proof fn lemma_pow10_add(a: nat, b: nat)
    ensures
        pow10(a + b) == pow10(a) * pow10(b),
    decreases a,
{
    if a > 0 {
        lemma_pow10_add((a - 1) as nat, b);
        assert(pow10(a + b) == 10 * pow10((a + b - 1) as nat));
        assert(10 * (pow10((a - 1) as nat) * pow10(b)) == (10 * pow10((a - 1) as nat)) * pow10(b))
            by (nonlinear_arith);
    } else {
        assert(pow10(0) * pow10(b) == pow10(b)) by (nonlinear_arith)
            requires
                pow10(0) == 1,
        ;
    }
}

/// Taking the zeros off the end of a fraction does not change the number.
pub proof fn lemma_trimmed_value(mantissa: nat, scale: nat)
    ensures
        trimmed(mantissa, scale).1 <= scale,
        trimmed(mantissa, scale).0 * pow10((scale - trimmed(mantissa, scale).1) as nat)
            == mantissa,
        trimmed(mantissa, scale).0 <= mantissa,
        trimmed(mantissa, scale).1 == 0 || trimmed(mantissa, scale).0 % 10 != 0,
    decreases scale,
{
    if scale > 0 && mantissa % 10 == 0 {
        lemma_trimmed_value(mantissa / 10, (scale - 1) as nat);
        let (m, k) = trimmed(mantissa / 10, (scale - 1) as nat);
        let gap = (scale - 1 - k) as nat;
        assert(pow10(gap + 1) == 10 * pow10(gap));
        assert(m * pow10(gap + 1) == mantissa) by (nonlinear_arith)
            requires
                m * pow10(gap) == mantissa / 10,
                mantissa % 10 == 0,
                pow10(gap + 1) == 10 * pow10(gap),
        ;
    } else {
        assert(mantissa * pow10(0) == mantissa) by (nonlinear_arith)
            requires
                pow10(0) == 1,
        ;
    }
}

/// The sum of two decimals, counted in units of the larger of their scales,
/// is the sum of the two counts: nothing is rounded.
pub proof fn lemma_sum_exact(a: Decimal, b: Decimal)
    requires
        sum_of(a, b) is Some,
    ensures
        ({
            let k = if a.scale >= b.scale {
                a.scale as nat
            } else {
                b.scale as nat
            };
            let c = sum_of(a, b)->0;
            c.wf() && c.scale <= k && c.units(k) == a.units(k) + b.units(k)
        }),
{
    let k = if a.scale >= b.scale {
        a.scale as nat
    } else {
        b.scale as nat
    };
    let x = a.mantissa * pow10((k - a.scale) as nat);
    let y = b.mantissa * pow10((k - b.scale) as nat);
    let m: nat = if a.negative == b.negative {
        (x + y) as nat
    } else if x >= y {
        (x - y) as nat
    } else {
        (y - x) as nat
    };
    lemma_trimmed_value(m, k);
}

/// A run of digits that stops at the end or at another character has the
/// length of the run.
pub proof fn lemma_digit_run(run: Seq<char>, rest: Seq<char>)
    requires
        all_digits(run),
        rest.len() == 0 || !is_digit(rest[0]),
    ensures
        digit_run(run + rest) == run.len(),
    decreases run.len(),
{
    let s = run + rest;
    if run.len() == 0 {
        assert(s =~= rest);
    } else {
        assert(s[0] == run[0]);
        assert(s.skip(1) =~= run.skip(1) + rest);
        assert forall|i: int| 0 <= i < run.skip(1).len() implies is_digit(
            #[trigger] run.skip(1)[i],
        ) by {
            assert(run.skip(1)[i] == run[i + 1]);
        }
        lemma_digit_run(run.skip(1), rest);
    }
}

/// The text of a nonnegative decimal in lowest terms reads back as its
/// mantissa and scale.
pub proof fn lemma_magnitude_round_trip(mantissa: nat, scale: nat)
    ensures
        parse_magnitude(magnitude_text(mantissa, scale)) == Some((mantissa, scale)),
        is_digit(magnitude_text(mantissa, scale)[0]),
{
    let d = digits_of(mantissa);
    let t = magnitude_text(mantissa, scale);
    lemma_digits_of_shape(mantissa);
    lemma_digits_round_trip(mantissa);
    assert(is_digit(d[0]));
    if scale == 0 {
        lemma_digit_run(d, Seq::<char>::empty());
        assert(d + Seq::<char>::empty() =~= d);
    } else if d.len() > scale {
        let a = d.len() - scale;
        let whole = d.take(a);
        let rest = seq!['.'] + d.skip(a);
        assert(t =~= whole + rest);
        assert(rest[0] == '.');
        lemma_digit_run(whole, rest);
        assert(t[0] == d[0]);
        assert(t[a] == '.');
        assert(t.skip(a + 1) =~= d.skip(a));
        assert(t.take(a) =~= whole);
        assert(whole + d.skip(a) =~= d);
        assert forall|i: int| 0 <= i < d.skip(a).len() implies is_digit(
            #[trigger] d.skip(a)[i],
        ) by {
            assert(d.skip(a)[i] == d[i + a]);
        }
    } else {
        let pad = zeros((scale - d.len()) as nat);
        let whole = seq!['0'];
        let rest = seq!['.'] + pad + d;
        assert(t =~= whole + rest);
        assert(rest[0] == '.');
        lemma_digit_run(whole, rest);
        assert(t[0] == '0');
        assert(t[1] == '.');
        assert(t.skip(2) =~= pad + d);
        assert(t.take(1) =~= whole);
        assert(whole + (pad + d) =~= (whole + pad) + d);
        lemma_digits_value_leading_zeros(whole + pad, d);
        assert forall|i: int| 0 <= i < (pad + d).len() implies is_digit(
            #[trigger] (pad + d)[i],
        ) by {
            if i >= pad.len() {
                assert((pad + d)[i] == d[i - pad.len()]);
            }
        }
    }
}

/// The text of a decimal in lowest terms reads back as that decimal.
pub proof fn lemma_decimal_round_trip(x: Decimal)
    requires
        x.wf(),
    ensures
        parse_decimal(x.text()) == Some(x),
{
    let t = magnitude_text(x.mantissa as nat, x.scale as nat);
    lemma_magnitude_round_trip(x.mantissa as nat, x.scale as nat);
    if x.negative {
        assert(x.text().skip(1) =~= t);
    } else {
        assert(x.text()[0] != '-');
    }
}

/// The text of a decimal holds a minus sign, a point and digits, nothing else.
pub proof fn lemma_decimal_text_chars(x: Decimal)
    ensures
        x.text().len() >= 1,
        forall|i: int|
            0 <= i < x.text().len() ==> #[trigger] x.text()[i] == '-' || x.text()[i] == '.'
                || is_digit(x.text()[i]),
{
    lemma_digits_of_shape(x.mantissa as nat);
}

/// The index at which the run of digits that begins at `from` ends.
pub fn end_of_digits(text: &Vec<char>, from: usize, end: usize) -> (p: usize)
    requires
        from <= end <= text.len(),
    ensures
        from <= p <= end,
        p - from == digit_run(text@.subrange(from as int, end as int)),
        all_digits(text@.subrange(from as int, p as int)),
{
    let ghost body = text@.subrange(from as int, end as int);
    assert(body.skip(0) =~= body);
    let mut p: usize = from;
    while p < end && to_digit(text[p]).is_some()
        invariant
            from <= p <= end <= text.len(),
            body == text@.subrange(from as int, end as int),
            digit_run(body) == (p - from) + digit_run(body.skip(p - from)),
            all_digits(text@.subrange(from as int, p as int)),
        decreases end - p,
    {
        proof {
            let rest = body.skip(p - from);
            assert(rest[0] == text@[p as int]);
            assert(rest.skip(1) =~= body.skip(p - from + 1));
            let seen = text@.subrange(from as int, p + 1);
            assert forall|j: int| 0 <= j < seen.len() implies is_digit(#[trigger] seen[j]) by {
                if j < p - from {
                    assert(seen[j] == text@.subrange(from as int, p as int)[j]);
                }
            }
        }
        p = p + 1;
    }
    proof {
        let rest = body.skip(p - from);
        if p < end {
            assert(rest[0] == text@[p as int]);
        }
        assert(digit_run(rest) == 0);
    }
    p
}

/// Reads the digits `text[start..end]` behind the digits `before`, whose
/// value is `acc`. There is a result exactly when the run holds digits only
/// and the digits before it and the run, read as one number, fit 128 bits.
fn continue_digits(
    text: &Vec<char>,
    start: usize,
    end: usize,
    acc: u128,
    Ghost(before): Ghost<Seq<char>>,
) -> (r: Option<u128>)
    requires
        start <= end <= text.len(),
        acc == digits_value(before),
    ensures
        r is Some <==> all_digits(text@.subrange(start as int, end as int)) && digits_value(
            before + text@.subrange(start as int, end as int),
        ) <= u128::MAX,
        r matches Some(n) ==> n == digits_value(before + text@.subrange(start as int, end as int)),
{
    let ghost run = text@.subrange(start as int, end as int);
    let mut acc = acc;
    let mut i: usize = start;
    assert(before + run.take(0) =~= before);
    while i < end
        invariant
            start <= i <= end <= text.len(),
            run == text@.subrange(start as int, end as int),
            all_digits(run.take(i - start)),
            acc == digits_value(before + run.take(i - start)),
        decreases end - i,
    {
        let ghost seen = run.take(i - start + 1);
        proof {
            assert((before + seen).drop_last() =~= before + run.take(i - start));
            assert((before + seen).last() == text@[i as int]);
            assert((before + run).take(before.len() + i - start + 1) =~= before + seen);
            lemma_digits_value_prefix(before + run, before.len() + i - start + 1);
        }
        match to_digit(text[i]) {
            None => {
                assert(!is_digit(run[i - start]));
                return None;
            },
            Some(d) => {
                if acc > (u128::MAX - d as u128) / 10 {
                    return None;
                }
                acc = acc * 10 + d as u128;
                proof {
                    assert forall|k: int| 0 <= k < seen.len() implies is_digit(
                        #[trigger] seen[k],
                    ) by {
                        if k < seen.len() - 1 {
                            assert(seen[k] == run.take(i - start)[k]);
                        }
                    }
                }
            },
        }
        i = i + 1;
    }
    assert(run.take(i - start) =~= run);
    Some(acc)
}

/// Appends the digit character `c` to `out`.
pub fn push_char_digit(out: &mut String, c: char)
    requires
        is_digit(c),
    ensures
        final(out)@ == old(out)@.push(c),
{
    let d = to_digit(c).unwrap();
    push_digit(out, d);
}

} // verus!
