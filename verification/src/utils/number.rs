//! Signed decimal numerals: what a numeral denotes, reading one, writing one.

use vstd::prelude::*;
use crate::utils::text::chars_of;

verus! {

/// Why a text is not a numeral that fits.
#[derive(Clone, Copy, Debug, PartialEq, Eq, Structural)]
pub enum IntError {
    /// The text is empty.
    Empty,
    /// The text is not an optional sign followed by one or more digits.
    InvalidDigit,
    /// The numeral is above the largest value allowed.
    PosOverflow,
    /// The numeral is below the smallest value allowed.
    NegOverflow,
}

/// Whether the character is a decimal digit.
pub open spec fn is_digit(c: char) -> bool {
    '0' <= c <= '9'
}

/// The number that a decimal digit denotes.
pub open spec fn digit_value(c: char) -> int {
    c as int - '0' as int
}

/// Whether every character is a decimal digit.
pub open spec fn all_digits(s: Seq<char>) -> bool {
    forall|i: int| 0 <= i < s.len() ==> is_digit(#[trigger] s[i])
}

/// The number that a run of decimal digits denotes.
pub open spec fn digits_value(s: Seq<char>) -> int
    decreases s.len(),
{
    if s.len() == 0 {
        0
    } else {
        digits_value(s.drop_last()) * 10 + digit_value(s.last())
    }
}

/// Whether the numeral starts with a sign.
pub open spec fn has_sign(s: Seq<char>) -> bool {
    s.len() > 0 && (s[0] == '-' || s[0] == '+')
}

/// The digits of a numeral: the text without its sign.
pub open spec fn digits_part(s: Seq<char>) -> Seq<char> {
    if has_sign(s) {
        s.skip(1)
    } else {
        s
    }
}

/// A numeral is an optional `+` or `-` followed by one or more decimal digits.
pub open spec fn is_numeral(s: Seq<char>) -> bool {
    digits_part(s).len() > 0 && all_digits(digits_part(s))
}

/// The integer that a numeral denotes.
pub open spec fn numeral_value(s: Seq<char>) -> int {
    if s.len() > 0 && s[0] == '-' {
        -digits_value(digits_part(s))
    } else {
        digits_value(digits_part(s))
    }
}

/// What reading `s` as an integer between `min` and `max` gives.
pub open spec fn parse_spec(s: Seq<char>, min: int, max: int) -> Result<int, IntError> {
    if s.len() == 0 {
        Err(IntError::Empty)
    } else if !is_numeral(s) {
        Err(IntError::InvalidDigit)
    } else if numeral_value(s) > max {
        Err(IntError::PosOverflow)
    } else if numeral_value(s) < min {
        Err(IntError::NegOverflow)
    } else {
        Ok(numeral_value(s))
    }
}

/// The decimal digit for `d`.
pub open spec fn digit_char(d: int) -> char {
    if d == 0 {
        '0'
    } else if d == 1 {
        '1'
    } else if d == 2 {
        '2'
    } else if d == 3 {
        '3'
    } else if d == 4 {
        '4'
    } else if d == 5 {
        '5'
    } else if d == 6 {
        '6'
    } else if d == 7 {
        '7'
    } else if d == 8 {
        '8'
    } else {
        '9'
    }
}

/// The digits of a natural number, most significant first, without leading zeros.
pub open spec fn digits_of(n: nat) -> Seq<char>
    decreases n,
{
    if n < 10 {
        seq![digit_char(n as int)]
    } else {
        digits_of(n / 10).push(digit_char((n % 10) as int))
    }
}

/// The numeral of an integer: a `-` for a negative one, then its digits.
pub open spec fn numeral_of(n: int) -> Seq<char> {
    if n < 0 {
        seq!['-'] + digits_of((-n) as nat)
    } else {
        digits_of(n as nat)
    }
}

/// A run of digits denotes no negative number.
pub proof fn lemma_digits_value_bounds(s: Seq<char>)
    requires
        all_digits(s),
    ensures
        digits_value(s) >= 0,
    decreases s.len(),
{
    if s.len() > 0 {
        lemma_digits_value_bounds(s.drop_last());
    }
}

/// A longer run of digits denotes at least as much as any of its prefixes.
pub proof fn lemma_digits_value_prefix(s: Seq<char>, k: int)
    requires
        all_digits(s),
        0 <= k <= s.len(),
    ensures
        digits_value(s.take(k)) <= digits_value(s),
    decreases s.len() - k,
{
    if k == s.len() {
        assert(s.take(k) =~= s);
    } else {
        lemma_digits_value_prefix(s, k + 1);
        assert(s.take(k + 1).drop_last() =~= s.take(k));
        assert(all_digits(s.take(k))) by {
            assert forall|i: int| 0 <= i < s.take(k).len() implies is_digit(#[trigger] s.take(k)[i]) by {
                assert(s.take(k)[i] == s[i]);
            }
        }
        lemma_digits_value_bounds(s.take(k));
        assert(is_digit(s[k]));
        assert(s.take(k + 1).last() == s[k]);
    }
}

/// The digit of a number below ten denotes that number.
pub proof fn lemma_digit_char(d: int)
    requires
        0 <= d < 10,
    ensures
        is_digit(digit_char(d)),
        digit_value(digit_char(d)) == d,
        digit_char(d) != '-',
        digit_char(d) != '+',
{
}

/// The digits of a natural number are digits, at least one, and denote
/// the number.
pub proof fn lemma_digits_of(n: nat)
    ensures
        digits_of(n).len() >= 1,
        all_digits(digits_of(n)),
        digits_value(digits_of(n)) == n,
    decreases n,
{
    if n < 10 {
        lemma_digit_char(n as int);
        let s = digits_of(n);
        assert(s.drop_last() =~= Seq::<char>::empty());
        assert(digits_value(s.drop_last()) == 0);
    } else {
        lemma_digits_of(n / 10);
        lemma_digit_char((n % 10) as int);
        let s = digits_of(n);
        assert(s.drop_last() =~= digits_of(n / 10));
        assert(s.last() == digit_char((n % 10) as int));
        assert forall|i: int| 0 <= i < s.len() implies is_digit(#[trigger] s[i]) by {
            if i < s.len() - 1 {
                assert(s[i] == digits_of(n / 10)[i]);
            }
        }
    }
}

/// The numeral of an integer is a numeral, and reading it gives the
/// integer back.
pub proof fn lemma_numeral_roundtrip(n: int, min: int, max: int)
    requires
        min <= n <= max,
    ensures
        is_numeral(numeral_of(n)),
        numeral_value(numeral_of(n)) == n,
        parse_spec(numeral_of(n), min, max) == Ok::<int, IntError>(n),
{
    if n < 0 {
        let d = digits_of((-n) as nat);
        lemma_digits_of((-n) as nat);
        let s = numeral_of(n);
        assert(s[0] == '-');
        assert(s.skip(1) =~= d);
    } else {
        let d = digits_of(n as nat);
        lemma_digits_of(n as nat);
        assert(is_digit(d[0]));
        assert(!has_sign(d));
    }
}

fn digit_of(c: char) -> (r: Option<u8>)
    ensures
        r is Some == is_digit(c),
        r matches Some(d) ==> d == digit_value(c) && d < 10,
{
    if c >= '0' && c <= '9' {
        Some((c as u32 - '0' as u32) as u8)
    } else {
        None
    }
}

/// Reads `s` as a decimal integer between `min` and `max`.
pub fn parse_int(s: &str, min: i128, max: i128) -> (r: Result<i128, IntError>)
    requires
        min <= 0 <= max,
    ensures
        match r {
            Ok(n) => parse_spec(s@, min as int, max as int) == Ok::<int, IntError>(n as int),
            Err(e) => parse_spec(s@, min as int, max as int) == Err::<int, IntError>(e),
        },
{
    let v = chars_of(s);
    if v.len() == 0 {
        return Err(IntError::Empty);
    }
    let negative = v[0] == '-';
    let start: usize = if v[0] == '-' || v[0] == '+' { 1 } else { 0 };
    let ghost digits = digits_part(s@);
    assert(digits =~= v@.skip(start as int));
    if start == v.len() {
        return Err(IntError::InvalidDigit);
    }
    // First pass: every character after the sign is a digit.
    let mut j: usize = start;
    while j < v.len()
        invariant
            start <= j <= v.len(),
            digits == v@.skip(start as int),
            digits == digits_part(s@),
            s@.len() > 0,
            forall|k: int| start <= k < j ==> is_digit(v@[k]),
        decreases v.len() - j,
    {
        if digit_of(v[j]).is_none() {
            assert(digits[j - start] == v@[j as int]);
            return Err(IntError::InvalidDigit);
        }
        j += 1;
    }
    assert(all_digits(digits)) by {
        assert forall|k: int| 0 <= k < digits.len() implies is_digit(#[trigger] digits[k]) by {
            assert(digits[k] == v@[k + start]);
        }
    }
    // Second pass: accumulate on the sign's side, watching the bound.
    let mut acc: i128 = 0;
    let mut i: usize = start;
    while i < v.len()
        invariant
            start <= i <= v.len(),
            start < v.len(),
            min <= 0 <= max,
            s@.len() > 0,
            negative == (s@[0] == '-'),
            digits == v@.skip(start as int),
            digits == digits_part(s@),
            all_digits(digits),
            negative ==> acc == -digits_value(digits.take(i - start)) && min <= acc <= 0,
            !negative ==> acc == digits_value(digits.take(i - start)) && 0 <= acc <= max,
        decreases v.len() - i,
    {
        let d: i128 = match digit_of(v[i]) {
            Some(d) => d as i128,
            None => {
                assert(digits[i - start] == v@[i as int]);
                return Err(IntError::InvalidDigit);
            },
        };
        proof {
            assert(digits[i - start] == v@[i as int]);
            assert(digits.take(i - start + 1).drop_last() =~= digits.take(i - start));
            assert(digits.take(i - start + 1).last() == v@[i as int]);
            lemma_digits_value_prefix(digits, i - start + 1);
        }
        if negative {
            let next = match acc.checked_mul(10) {
                Some(m) => m.checked_sub(d),
                None => None,
            };
            match next {
                Some(a) if a >= min => {
                    acc = a;
                },
                _ => {
                    return Err(IntError::NegOverflow);
                },
            }
        } else {
            let next = match acc.checked_mul(10) {
                Some(m) => m.checked_add(d),
                None => None,
            };
            match next {
                Some(a) if a <= max => {
                    acc = a;
                },
                _ => {
                    return Err(IntError::PosOverflow);
                },
            }
        }
        i += 1;
    }
    assert(digits.take(v.len() - start) =~= digits);
    Ok(acc)
}

/// Reads `s` as a decimal integer of the machine's word size.
pub fn parse_isize(s: &str) -> (r: Result<isize, IntError>)
    ensures
        match r {
            Ok(n) => parse_spec(s@, isize::MIN as int, isize::MAX as int) == Ok::<int, IntError>(n as int),
            Err(e) => parse_spec(s@, isize::MIN as int, isize::MAX as int) == Err::<int, IntError>(e),
        },
{
    match parse_int(s, isize::MIN as i128, isize::MAX as i128) {
        Ok(n) => Ok(n as isize),
        Err(e) => Err(e),
    }
}

/// What reading `s` as a position gives: a numeral without a `-`, in range.
pub open spec fn parse_position_spec(s: Seq<char>) -> Result<int, IntError> {
    if s.len() > 0 && s[0] == '-' {
        Err(IntError::InvalidDigit)
    } else {
        parse_spec(s, 0, usize::MAX as int)
    }
}

/// Reads `s` as a position: a decimal numeral that may start with `+` but
/// not with `-`.
pub fn parse_usize(s: &str) -> (r: Result<usize, IntError>)
    ensures
        match r {
            Ok(n) => parse_position_spec(s@) == Ok::<int, IntError>(n as int),
            Err(e) => parse_position_spec(s@) == Err::<int, IntError>(e),
        },
{
    if s.unicode_len() > 0 && s.get_char(0) == '-' {
        return Err(IntError::InvalidDigit);
    }
    match parse_int(s, 0, usize::MAX as i128) {
        Ok(n) => Ok(n as usize),
        Err(e) => Err(e),
    }
}

/// Reads `s` as a wide decimal integer.
pub fn parse_i128(s: &str) -> (r: Result<i128, IntError>)
    ensures
        match r {
            Ok(n) => parse_spec(s@, i128::MIN as int, i128::MAX as int) == Ok::<int, IntError>(n as int),
            Err(e) => parse_spec(s@, i128::MIN as int, i128::MAX as int) == Err::<int, IntError>(e),
        },
{
    parse_int(s, i128::MIN, i128::MAX)
}

/// The character of a decimal digit.
pub fn char_of_digit(d: u8) -> (c: char)
    requires
        d < 10,
    ensures
        c == digit_char(d as int),
{
    if d == 0 {
        '0'
    } else if d == 1 {
        '1'
    } else if d == 2 {
        '2'
    } else if d == 3 {
        '3'
    } else if d == 4 {
        '4'
    } else if d == 5 {
        '5'
    } else if d == 6 {
        '6'
    } else if d == 7 {
        '7'
    } else if d == 8 {
        '8'
    } else {
        '9'
    }
}

/// The digits of `n`, most significant first.
fn digits_string(n: u128) -> (r: String)
    ensures
        r@ == digits_of(n as nat),
    decreases n,
{
    if n < 10 {
        let mut s = String::new();
        s.push(char_of_digit(n as u8));
        assert(s@ =~= digits_of(n as nat));
        s
    } else {
        let mut s = digits_string(n / 10);
        s.push(char_of_digit((n % 10) as u8));
        s
    }
}

/// The numeral of `n`.
pub fn int_to_string(n: i128) -> (r: String)
    ensures
        r@ == numeral_of(n as int),
{
    if n < 0 {
        let mut s = String::new();
        s.push('-');
        let magnitude: u128 = (-(n + 1)) as u128 + 1;
        let d = digits_string(magnitude);
        s.append(d.as_str());
        s
    } else {
        digits_string(n as u128)
    }
}

} // verus!
