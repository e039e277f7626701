use vstd::prelude::*;
use crate::err::Error;

verus! {

/// Whether `c` is one of the ten decimal digits.
pub open spec fn is_digit(c: char) -> bool {
    '0' <= c <= '9'
}

/// The number that a decimal digit stands for.
pub open spec fn digit_value(c: char) -> nat {
    (c as u32 - '0' as u32) as nat
}

/// The decimal digit that stands for `d`, for `d` below ten.
pub open spec fn digit_char(d: nat) -> char {
    (('0' as u8 + d) as u8) as char
}

/// How many decimal digits the text starts with.
pub open spec fn digits_len(s: Seq<char>) -> nat
    decreases s.len(),
{
    if s.len() > 0 && is_digit(s[0]) {
        1 + digits_len(s.skip(1))
    } else {
        0
    }
}

/// The number written by a run of decimal digits, most significant first.
pub open spec fn decimal_value(s: Seq<char>) -> nat
    decreases s.len(),
{
    if s.len() == 0 {
        0
    } else {
        decimal_value(s.drop_last()) * 10 + digit_value(s.last())
    }
}

/// The decimal digits of `n`, most significant first, without leading zeros.
pub open spec fn decimal(n: nat) -> Seq<char>
    decreases n,
{
    if n < 10 {
        seq![digit_char(n)]
    } else {
        decimal(n / 10) + seq![digit_char(n % 10)]
    }
}

/// The text of a signed number: a minus sign before the digits of a negative
/// one.
pub open spec fn signed_decimal(v: int) -> Seq<char> {
    if v < 0 {
        seq!['-'] + decimal((-v) as nat)
    } else {
        decimal(v as nat)
    }
}

/// The number at the start of the text and how many characters write it.
///
/// The number is the longest run of digits the text starts with. Empty text
/// is an unexpected end of input; text that does not start with a digit is
/// not an integer.
pub open spec fn leading_number(s: Seq<char>) -> Result<(nat, int), Error> {
    if s.len() == 0 {
        Err(Error::Eof)
    } else if !is_digit(s[0]) {
        Err(Error::ExpectedInteger)
    } else {
        let n = digits_len(s) as int;
        Ok((decimal_value(s.take(n)), n))
    }
}

/// The unsigned number at the start of the text, which must not exceed `max`.
pub open spec fn leading_unsigned(s: Seq<char>, max: nat) -> Result<(nat, int), Error> {
    match leading_number(s) {
        Ok((v, n)) => if v > max {
            Err(Error::IntegerOverflow)
        } else {
            Ok((v, n))
        },
        Err(e) => Err(e),
    }
}

/// The signed number at the start of the text, which must lie between `min`
/// and `max`: an optional minus sign, then an unsigned number.
pub open spec fn leading_signed(s: Seq<char>, min: int, max: int) -> Result<(int, int), Error> {
    let negative = s.len() > 0 && s[0] == '-';
    let digits = if negative { s.skip(1) } else { s };
    match leading_number(digits) {
        Ok((m, n)) => {
            let v = if negative { -(m as int) } else { m as int };
            if min <= v <= max {
                Ok((v, if negative { n + 1 } else { n }))
            } else {
                Err(Error::IntegerOverflow)
            }
        },
        Err(e) => Err(e),
    }
}

/// A text that starts with `k` digits, and goes on with something else or
/// ends there, starts with exactly `k` digits.
pub proof fn lemma_digits_len(s: Seq<char>, k: int)
    requires
        0 <= k <= s.len(),
        forall|j: int| 0 <= j < k ==> is_digit(#[trigger] s[j]),
    ensures
        digits_len(s) >= k,
        (k == s.len() || !is_digit(s[k])) ==> digits_len(s) == k,
    decreases k,
{
    if k > 0 {
        let t = s.skip(1);
        assert forall|j: int| 0 <= j < k - 1 implies is_digit(#[trigger] t[j]) by {
            assert(t[j] == s[j + 1]);
        }
        lemma_digits_len(t, k - 1);
    }
}

/// Every character counted by `digits_len` is a digit.
pub proof fn lemma_digits_are_digits(s: Seq<char>)
    ensures
        digits_len(s) <= s.len(),
        forall|j: int| 0 <= j < digits_len(s) ==> is_digit(#[trigger] s[j]),
        digits_len(s) < s.len() ==> !is_digit(s[digits_len(s) as int]),
    decreases s.len(),
{
    if s.len() > 0 && is_digit(s[0]) {
        let t = s.skip(1);
        lemma_digits_are_digits(t);
        assert forall|j: int| 0 <= j < digits_len(s) implies is_digit(#[trigger] s[j]) by {
            if j > 0 {
                assert(s[j] == t[j - 1]);
            }
        }
        if digits_len(s) < s.len() {
            assert(s[digits_len(s) as int] == t[digits_len(t) as int]);
        }
    }
}

/// A longer prefix of a text writes a number that is no smaller.
pub proof fn lemma_decimal_value_grows(s: Seq<char>, i: int, n: int)
    requires
        0 <= i <= n <= s.len(),
    ensures
        decimal_value(s.take(i)) <= decimal_value(s.take(n)),
    decreases n - i,
{
    if i < n {
        lemma_decimal_value_grows(s, i, n - 1);
        assert(s.take(n).drop_last() == s.take(n - 1));
    }
}

/// Reads the unsigned number that `v[start..]` starts with.
pub fn scan_unsigned(v: &Vec<char>, start: usize, max: u64) -> (r: Result<(u64, usize), Error>)
    requires
        start <= v.len(),
    ensures
        match r {
            Ok((value, len)) => leading_unsigned(v@.skip(start as int), max as nat) == Ok::<
                (nat, int),
                Error,
            >((value as nat, len as int)),
            Err(e) => leading_unsigned(v@.skip(start as int), max as nat) == Err::<
                (nat, int),
                Error,
            >(e),
        },
        r matches Ok((_, len)) ==> 0 < len <= v.len() - start,
{
    let ghost s = v@.skip(start as int);
    let n: usize = v.len() - start;
    if n == 0 {
        return Err(Error::Eof);
    }
    let first = v[start];
    assert(first == s[0]);
    if !(first >= '0' && first <= '9') {
        return Err(Error::ExpectedInteger);
    }
    let mut acc: u64 = 0;
    let mut i: usize = 0;
    assert(s.take(0) == Seq::<char>::empty());
    while i < n && v[start + i] >= '0' && v[start + i] <= '9'
        invariant
            start <= v.len(),
            n == v.len() - start,
            s == v@.skip(start as int),
            i <= n,
            acc == decimal_value(s.take(i as int)),
            acc <= max,
            forall|j: int| 0 <= j < i ==> is_digit(#[trigger] s[j]),
        decreases n - i,
    {
        let c = v[start + i];
        assert(c == s[i as int]);
        let d: u64 = (c as u32 - '0' as u32) as u64;
        let next: u128 = acc as u128 * 10 + d as u128;
        proof {
            assert(s.take(i + 1).drop_last() == s.take(i as int));
            assert(next == decimal_value(s.take(i + 1)));
        }
        if next > max as u128 {
            proof {
                lemma_digits_len(s, i + 1);
                lemma_digits_are_digits(s);
                lemma_decimal_value_grows(s, i + 1, digits_len(s) as int);
            }
            return Err(Error::IntegerOverflow);
        }
        acc = next as u64;
        i += 1;
    }
    proof {
        if i < n {
            assert(v[start + i] == s[i as int]);
        }
        lemma_digits_len(s, i as int);
    }
    Ok((acc, i))
}

/// The largest magnitude that a signed 64-bit number can have.
pub const MAX_MAGNITUDE: u64 = 9223372036854775808;

/// Reads the signed number that `v[start..]` starts with.
pub fn scan_signed(v: &Vec<char>, start: usize, min: i64, max: i64) -> (r: Result<
    (i64, usize),
    Error,
>)
    requires
        start <= v.len(),
    ensures
        match r {
            Ok((value, len)) => leading_signed(v@.skip(start as int), min as int, max as int)
                == Ok::<(int, int), Error>((value as int, len as int)),
            Err(e) => leading_signed(v@.skip(start as int), min as int, max as int) == Err::<
                (int, int),
                Error,
            >(e),
        },
        r matches Ok((_, len)) ==> 0 < len <= v.len() - start,
{
    let ghost s = v@.skip(start as int);
    let negative = start < v.len() && v[start] == '-';
    proof {
        if start < v.len() {
            assert(v[start as int] == s[0]);
        }
    }
    let from: usize = if negative { start + 1 } else { start };
    proof {
        if negative {
            assert(s.skip(1) == v@.skip(from as int));
        }
    }
    let (magnitude, len) = match scan_unsigned(v, from, MAX_MAGNITUDE) {
        Ok(found) => found,
        Err(e) => {
            return Err(e);
        },
    };
    let value: i64 = if negative {
        if magnitude == MAX_MAGNITUDE {
            i64::MIN
        } else {
            0 - (magnitude as i64)
        }
    } else {
        if magnitude == MAX_MAGNITUDE {
            return Err(Error::IntegerOverflow);
        }
        magnitude as i64
    };
    if value < min || value > max {
        return Err(Error::IntegerOverflow);
    }
    let total: usize = if negative { len + 1 } else { len };
    Ok((value, total))
}

/// Appends the decimal digits of `n` to `out`.
pub fn push_decimal(out: &mut Vec<char>, n: u64)
    ensures
        final(out)@ == old(out)@ + decimal(n as nat),
{
    let mut low: Vec<char> = Vec::new();
    let mut m: u64 = n;
    while m >= 10
        invariant
            decimal(n as nat) == decimal(m as nat) + low@.reverse(),
        decreases m,
    {
        let d: u8 = (m % 10) as u8;
        let ghost before = low@;
        low.push((48u8 + d) as char);
        assert(low@.reverse() == seq![digit_char((m % 10) as nat)] + before.reverse());
        m = m / 10;
    }
    let d: u8 = m as u8;
    let ghost before = low@;
    low.push((48u8 + d) as char);
    assert(low@.reverse() == seq![digit_char(m as nat)] + before.reverse());
    assert(decimal(n as nat) == low@.reverse());
    let mut k: usize = low.len();
    while k > 0
        invariant
            k <= low.len(),
            out@ == old(out)@ + low@.reverse().take(low.len() - k),
        decreases k,
    {
        k -= 1;
        out.push(low[k]);
    }
    assert(low@.reverse().take(low.len() as int) == low@.reverse());
}

/// Appends the text of the signed number `v` to `out`.
pub fn push_signed(out: &mut Vec<char>, v: i64)
    ensures
        final(out)@ == old(out)@ + signed_decimal(v as int),
{
    if v < 0 {
        out.push('-');
        let magnitude: u64 = if v == i64::MIN { MAX_MAGNITUDE } else { (0 - v) as u64 };
        push_decimal(out, magnitude);
    } else {
        push_decimal(out, v as u64);
    }
}

} // verus!
