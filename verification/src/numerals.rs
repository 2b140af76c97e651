//! Decimal numerals: the text form of the integers that samples, commands
//! and time stamps carry, and the way back from text to number.

use vstd::prelude::*;

verus! {

/// The character that stands for the decimal digit `d`.
pub open spec fn digit_char(d: nat) -> char {
    ((48 + d) as u8) as char
}

/// Whether `c` is one of `0` to `9`.
pub open spec fn is_digit(c: char) -> bool {
    '0' <= c && c <= '9'
}

/// The number that the digit `c` stands for.
pub open spec fn digit_value(c: char) -> nat {
    (c as u32 - 48) as nat
}

/// Whether every character of `s` is a decimal digit.
pub open spec fn all_digits(s: Seq<char>) -> bool {
    forall|i: int| 0 <= i < s.len() ==> is_digit(#[trigger] s[i])
}

/// The decimal numeral of `n`: most significant digit first, no leading zero.
pub open spec fn digits_of(n: nat) -> Seq<char>
    decreases n,
{
    if n < 10 {
        seq![digit_char(n)]
    } else {
        digits_of(n / 10).push(digit_char(n % 10))
    }
}

/// The number that a run of digits denotes, read most significant digit first.
pub open spec fn digits_value(s: Seq<char>) -> nat
    decreases s.len(),
{
    if s.len() == 0 {
        0
    } else {
        digits_value(s.drop_last()) * 10 + digit_value(s.last())
    }
}

/// The text of a signed integer: a minus sign for a negative one, then the
/// numeral of its magnitude.
pub open spec fn int_text(i: int) -> Seq<char> {
    if i < 0 {
        seq!['-'] + digits_of((-i) as nat)
    } else {
        digits_of(i as nat)
    }
}

/// What an unsigned numeral denotes: an optional `+`, then one digit or more.
/// Anything else denotes nothing.
pub open spec fn parse_unsigned(s: Seq<char>) -> Option<nat> {
    let body = if s.len() > 0 && s[0] == '+' {
        s.skip(1)
    } else {
        s
    };
    if body.len() > 0 && all_digits(body) {
        Some(digits_value(body))
    } else {
        None
    }
}

/// What a signed numeral denotes: an optional `+` or `-`, then one digit or more.
pub open spec fn parse_signed(s: Seq<char>) -> Option<int> {
    if s.len() > 0 && s[0] == '-' {
        let body = s.skip(1);
        if body.len() > 0 && all_digits(body) {
            Some(-(digits_value(body) as int))
        } else {
            None
        }
    } else {
        match parse_unsigned(s) {
            Some(n) => Some(n as int),
            None => None,
        }
    }
}

/// A numeral is never empty and holds digits only.
pub proof fn lemma_digits_of_shape(n: nat)
    ensures
        digits_of(n).len() >= 1,
        all_digits(digits_of(n)),
    decreases n,
{
    if n >= 10 {
        lemma_digits_of_shape(n / 10);
        let init = digits_of(n / 10);
        let all = init.push(digit_char(n % 10));
        assert forall|i: int| 0 <= i < all.len() implies is_digit(#[trigger] all[i]) by {
            if i < init.len() {
                assert(all[i] == init[i]);
            }
        }
    }
}

/// Reading a numeral gives back the number it was written for.
pub proof fn lemma_digits_round_trip(n: nat)
    ensures
        digits_value(digits_of(n)) == n,
    decreases n,
{
    if n < 10 {
        let s = seq![digit_char(n)];
        assert(s.drop_last().len() == 0);
        assert(digits_value(s.drop_last()) == 0);
    } else {
        lemma_digits_round_trip(n / 10);
        let s = digits_of(n / 10).push(digit_char(n % 10));
        assert(s.drop_last() =~= digits_of(n / 10));
    }
}

/// The value of a run of digits grows with each digit read.
pub proof fn lemma_digits_value_prefix(s: Seq<char>, k: int)
    requires
        0 <= k <= s.len(),
    ensures
        digits_value(s.take(k)) <= digits_value(s),
    decreases s.len() - k,
{
    if k < s.len() {
        lemma_digits_value_prefix(s, k + 1);
        assert(s.take(k + 1).drop_last() =~= s.take(k));
    } else {
        assert(s.take(k) =~= s);
    }
}

/// Zeros in front of a run of digits do not change its value.
pub proof fn lemma_digits_value_leading_zeros(z: Seq<char>, s: Seq<char>)
    requires
        forall|i: int| 0 <= i < z.len() ==> z[i] == '0',
    ensures
        digits_value(z + s) == digits_value(s),
    decreases s.len(),
{
    if s.len() == 0 {
        assert(z + s =~= z);
        lemma_digits_value_zeros(z);
    } else {
        lemma_digits_value_leading_zeros(z, s.drop_last());
        assert((z + s).drop_last() =~= z + s.drop_last());
    }
}

/// A run of zeros has the value zero.
pub proof fn lemma_digits_value_zeros(z: Seq<char>)
    requires
        forall|i: int| 0 <= i < z.len() ==> z[i] == '0',
    ensures
        digits_value(z) == 0,
    decreases z.len(),
{
    if z.len() > 0 {
        lemma_digits_value_zeros(z.drop_last());
    }
}

/// The text of an integer reads back as that integer.
pub proof fn lemma_int_text_round_trip(i: int)
    ensures
        parse_signed(int_text(i)) == Some(i),
{
    if i < 0 {
        let n = (-i) as nat;
        lemma_digits_of_shape(n);
        lemma_digits_round_trip(n);
        assert(int_text(i).skip(1) =~= digits_of(n));
    } else {
        let n = i as nat;
        lemma_digits_of_shape(n);
        lemma_digits_round_trip(n);
        assert(is_digit(digits_of(n)[0]));
    }
}

/// The text of a natural number reads back as that number.
pub proof fn lemma_nat_text_round_trip(n: nat)
    ensures
        parse_unsigned(digits_of(n)) == Some(n),
{
    lemma_digits_of_shape(n);
    lemma_digits_round_trip(n);
    assert(is_digit(digits_of(n)[0]));
}

/// The text of an integer holds a minus sign and digits, nothing else.
pub proof fn lemma_int_text_chars(i: int)
    ensures
        int_text(i).len() >= 1,
        forall|k: int| 0 <= k < int_text(i).len() ==> #[trigger] int_text(i)[k] == '-' || is_digit(
            int_text(i)[k],
        ),
{
    if i < 0 {
        lemma_digits_of_shape((-i) as nat);
    } else {
        lemma_digits_of_shape(i as nat);
    }
}

/// The digit that `c` stands for, if it is one.
pub fn to_digit(c: char) -> (r: Option<u8>)
    ensures
        r is Some <==> is_digit(c),
        r matches Some(d) ==> d == digit_value(c) && d < 10 && digit_char(d as nat) == c,
{
    if '0' <= c && c <= '9' {
        Some(((c as u32) - 48) as u8)
    } else {
        None
    }
}

/// Appends the digit `d` to `out`.
pub fn push_digit(out: &mut String, d: u8)
    requires
        d < 10,
    ensures
        final(out)@ == old(out)@.push(digit_char(d as nat)),
{
    proof {
        reveal_strlit("0");
        reveal_strlit("1");
        reveal_strlit("2");
        reveal_strlit("3");
        reveal_strlit("4");
        reveal_strlit("5");
        reveal_strlit("6");
        reveal_strlit("7");
        reveal_strlit("8");
        reveal_strlit("9");
    }
    let lit = match d {
        0 => "0",
        1 => "1",
        2 => "2",
        3 => "3",
        4 => "4",
        5 => "5",
        6 => "6",
        7 => "7",
        8 => "8",
        _ => "9",
    };
    assert(lit@ =~= seq![digit_char(d as nat)]);
    out.append(lit);
    assert(out@ =~= old(out)@.push(digit_char(d as nat)));
}

/// Appends the decimal numeral of `n` to `out`.
pub fn push_nat(out: &mut String, n: u128)
    ensures
        final(out)@ == old(out)@ + digits_of(n as nat),
    decreases n,
{
    if n < 10 {
        push_digit(out, n as u8);
        assert(out@ =~= old(out)@ + digits_of(n as nat));
    } else {
        push_nat(out, n / 10);
        push_digit(out, (n % 10) as u8);
        assert(out@ =~= old(out)@ + digits_of(n as nat));
    }
}

/// Appends the text of the signed integer `i` to `out`.
pub fn push_int(out: &mut String, i: i16)
    ensures
        final(out)@ == old(out)@ + int_text(i as int),
{
    if i < 0 {
        proof {
            reveal_strlit("-");
        }
        out.append("-");
        let magnitude: u128 = (-(i as i32)) as u128;
        push_nat(out, magnitude);
        assert(out@ =~= old(out)@ + int_text(i as int));
    } else {
        push_nat(out, i as u128);
    }
}

/// Reads the run of digits `text[start..end]` as a number no larger than `limit`.
/// There is a result exactly when the run is not empty, holds digits only and
/// denotes a number within the limit.
pub fn read_digits(text: &Vec<char>, start: usize, end: usize, limit: u128) -> (r: Option<u128>)
    requires
        start <= end <= text.len(),
    ensures
        r is Some <==> {
            &&& start < end
            &&& all_digits(text@.subrange(start as int, end as int))
            &&& digits_value(text@.subrange(start as int, end as int)) <= limit
        },
        r matches Some(n) ==> n == digits_value(text@.subrange(start as int, end as int)),
{
    let ghost run = text@.subrange(start as int, end as int);
    if start == end {
        return None;
    }
    let mut acc: u128 = 0;
    let mut i: usize = start;
    while i < end
        invariant
            start <= i <= end <= text.len(),
            run == text@.subrange(start as int, end as int),
            all_digits(run.take(i - start)),
            acc == digits_value(run.take(i - start)),
            acc <= limit,
        decreases end - i,
    {
        let ghost seen = run.take(i - start + 1);
        proof {
            assert(seen.drop_last() =~= run.take(i - start));
            assert(seen.last() == text@[i as int]);
            lemma_digits_value_prefix(run, i - start + 1);
        }
        match to_digit(text[i]) {
            None => {
                assert(!is_digit(run[i - start]));
                return None;
            },
            Some(d) => {
                if acc > limit / 10 {
                    return None;
                }
                let shifted: u128 = acc * 10;
                if d as u128 > limit - shifted {
                    return None;
                }
                acc = shifted + d as u128;
                proof {
                    assert forall|k: int| 0 <= k < seen.len() implies is_digit(
                        #[trigger] seen[k],
                    ) by {
                        if k < seen.len() - 1 {
                            assert(seen[k] == run.take(i - start)[k]);
                        }
                    }
                }
            },
        }
        i = i + 1;
    }
    assert(run.take(i - start) =~= run);
    Some(acc)
}

/// Reads `text[start..end]` as an unsigned numeral no larger than `limit`.
pub fn read_unsigned(text: &Vec<char>, start: usize, end: usize, limit: u128) -> (r: Option<u128>)
    requires
        start <= end <= text.len(),
    ensures
        r is Some <==> (parse_unsigned(text@.subrange(start as int, end as int)) matches Some(n)
            && n <= limit),
        r matches Some(n) ==> parse_unsigned(text@.subrange(start as int, end as int)) == Some(
            n as nat,
        ),
{
    let ghost s = text@.subrange(start as int, end as int);
    if start < end && text[start] == '+' {
        assert(s.skip(1) =~= text@.subrange(start + 1, end as int));
        read_digits(text, start + 1, end, limit)
    } else {
        read_digits(text, start, end, limit)
    }
}

/// Whether `text[start..end]` is an unsigned numeral, of whatever size.
pub fn is_unsigned(text: &Vec<char>, start: usize, end: usize) -> (b: bool)
    requires
        start <= end <= text.len(),
    ensures
        b == parse_unsigned(text@.subrange(start as int, end as int)) is Some,
{
    let ghost s = text@.subrange(start as int, end as int);
    let from = if start < end && text[start] == '+' {
        start + 1
    } else {
        start
    };
    let ghost body = text@.subrange(from as int, end as int);
    assert(body =~= if s.len() > 0 && s[0] == '+' {
        s.skip(1)
    } else {
        s
    });
    if from == end {
        return false;
    }
    let mut i: usize = from;
    while i < end
        invariant
            from <= i <= end <= text.len(),
            from < end,
            s == text@.subrange(start as int, end as int),
            body == text@.subrange(from as int, end as int),
            body == if s.len() > 0 && s[0] == '+' {
                s.skip(1)
            } else {
                s
            },
            all_digits(body.take(i - from)),
        decreases end - i,
    {
        if to_digit(text[i]).is_none() {
            assert(body[i - from] == text@[i as int]);
            assert(!all_digits(body));
            return false;
        }
        proof {
            let seen = body.take(i - from + 1);
            assert forall|k: int| 0 <= k < seen.len() implies is_digit(#[trigger] seen[k]) by {
                if k < seen.len() - 1 {
                    assert(seen[k] == body.take(i - from)[k]);
                }
            }
        }
        i = i + 1;
    }
    assert(body.take(i - from) =~= body);
    true
}

/// Reads `text[start..end]` as a signed numeral that fits sixteen bits.
pub fn read_i16(text: &Vec<char>, start: usize, end: usize) -> (r: Option<i16>)
    requires
        start <= end <= text.len(),
    ensures
        r is Some <==> (parse_signed(text@.subrange(start as int, end as int)) matches Some(v)
            && i16::MIN <= v <= i16::MAX),
        r matches Some(v) ==> parse_signed(text@.subrange(start as int, end as int)) == Some(
            v as int,
        ),
{
    let ghost s = text@.subrange(start as int, end as int);
    if start < end && text[start] == '-' {
        assert(s.skip(1) =~= text@.subrange(start + 1, end as int));
        match read_digits(text, start + 1, end, 32768) {
            Some(n) => Some((-(n as i32)) as i16),
            None => None,
        }
    } else {
        match read_unsigned(text, start, end, 32767) {
            Some(n) => Some(n as i16),
            None => None,
        }
    }
}

/// The characters of `s`, one by one.
pub fn chars_of(s: &str) -> (v: Vec<char>)
    ensures
        v@ == s@,
{
    let mut v: Vec<char> = Vec::new();
    for c in it: s.chars()
        invariant
            it.seq() == s@,
            v@ == s@.take(it.index() as int),
    {
        assert(c == it.seq()[it.index() as int]);
        assert(s@.take(it.index() as int).push(c) =~= s@.take(it.index() + 1));
        v.push(c);
    }
    assert(s@.take(s@.len() as int) =~= s@);
    v
}

} // verus!
