//! Numbers as they are written: integers and decimal literals.

use crate::strings::{chars_of, is_word};
#[allow(unused_imports)]
use crate::strings::lowercase;
use vstd::prelude::*;

verus! {

/// Whether a string has digits only.
pub open spec fn all_digits(s: Seq<char>) -> bool {
    forall|i: int| 0 <= i < s.len() ==> '0' <= #[trigger] s[i] <= '9'
}

/// The number that digits stand for.
pub open spec fn digits_value(s: Seq<char>) -> nat
    decreases s.len(),
{
    if s.len() == 0 {
        0
    } else {
        (digits_value(s.drop_last()) * 10 + (s.last() as u32 - '0' as u32)) as nat
    }
}

/// Whether a string begins with a plus or a minus sign.
pub open spec fn has_sign(s: Seq<char>) -> bool {
    s.len() > 0 && (s[0] == '+' || s[0] == '-')
}

/// A string without the sign at its start.
pub open spec fn unsigned_part(s: Seq<char>) -> Seq<char> {
    if has_sign(s) {
        s.skip(1)
    } else {
        s
    }
}

/// The integer that a string stands for, if it is one: an optional sign, then
/// one or more digits.
pub open spec fn integer_value(s: Seq<char>) -> Option<int> {
    let digits = unsigned_part(s);
    if digits.len() == 0 || !all_digits(digits) {
        None
    } else if s[0] == '-' {
        Some(-digits_value(digits))
    } else {
        Some(digits_value(digits) as int)
    }
}

/// The integer that a string stands for, if there is no minus sign and it is
/// not above `max`.
pub open spec fn unsigned_value(s: Seq<char>, max: int) -> Option<int> {
    match integer_value(s) {
        Some(n) if s[0] != '-' && n <= max => Some(n),
        _ => None,
    }
}

/// The integer that a string stands for, if it is within the bounds.
pub open spec fn signed_value(s: Seq<char>, min: int, max: int) -> Option<int> {
    match integer_value(s) {
        Some(n) if min <= n <= max => Some(n),
        _ => None,
    }
}

pub open spec fn u8_value(s: Seq<char>) -> Option<u8> {
    match unsigned_value(s, u8::MAX as int) {
        Some(n) => Some(n as u8),
        None => None,
    }
}

pub open spec fn u16_value(s: Seq<char>) -> Option<u16> {
    match unsigned_value(s, u16::MAX as int) {
        Some(n) => Some(n as u16),
        None => None,
    }
}

pub open spec fn u32_value(s: Seq<char>) -> Option<u32> {
    match unsigned_value(s, u32::MAX as int) {
        Some(n) => Some(n as u32),
        None => None,
    }
}

pub open spec fn i32_value(s: Seq<char>) -> Option<i32> {
    match signed_value(s, i32::MIN as int, i32::MAX as int) {
        Some(n) => Some(n as i32),
        None => None,
    }
}

pub open spec fn i64_value(s: Seq<char>) -> Option<i64> {
    match signed_value(s, i64::MIN as int, i64::MAX as int) {
        Some(n) => Some(n as i64),
        None => None,
    }
}

/// The place where the digits from `i` on end.
pub open spec fn digits_end(s: Seq<char>, i: int) -> int
    decreases s.len() - i,
{
    if 0 <= i < s.len() && '0' <= s[i] <= '9' {
        digits_end(s, i + 1)
    } else {
        i
    }
}

/// Whether the rest from `i` on is empty or an exponent: `e` or `E`, an
/// optional sign, then one or more digits.
pub open spec fn exponent_at(s: Seq<char>, i: int) -> bool {
    ||| i == s.len()
    ||| {
        let digits = unsigned_part(s.skip(i + 1));
        (s[i] == 'e' || s[i] == 'E') && digits.len() > 0 && all_digits(digits)
    }
}

/// Whether a string is a decimal number without sign: digits with an optional
/// point among them or at either end, one digit at least, and an optional
/// exponent.
pub open spec fn is_decimal(s: Seq<char>) -> bool {
    let whole = digits_end(s, 0);
    if whole < s.len() && s[whole] == '.' {
        let end = digits_end(s, whole + 1);
        end > 1 && exponent_at(s, end)
    } else {
        whole > 0 && exponent_at(s, whole)
    }
}

/// Whether a string is a floating point literal: an optional sign, then a
/// decimal number, `inf`, `infinity` or `nan`, in capital or small letters.
pub open spec fn is_float_literal(s: Seq<char>) -> bool {
    let magnitude = unsigned_part(s);
    ||| is_decimal(magnitude)
    ||| lowercase(magnitude) == "inf"@
    ||| lowercase(magnitude) == "infinity"@
    ||| lowercase(magnitude) == "nan"@
}

/// More digits never make a smaller number.
proof fn lemma_digits_value_grows(s: Seq<char>, k: int)
    requires
        all_digits(s),
        0 <= k <= s.len(),
    ensures
        digits_value(s.take(k)) <= digits_value(s),
    decreases s.len() - k,
{
    if k < s.len() {
        lemma_digits_value_grows(s.drop_last(), k);
        assert(s.drop_last().take(k) =~= s.take(k));
    } else {
        assert(s.take(k) =~= s);
    }
}

fn is_digit(c: char) -> (r: bool)
    ensures
        r == ('0' <= c <= '9'),
{
    '0' <= c && c <= '9'
}

/// The number that the digits of `a` from `from` on stand for, unless it is
/// above `max`.
fn read_digits(a: &Vec<char>, from: usize, max: u64) -> (r: Option<u64>)
    requires
        from <= a.len(),
    ensures
        ({
            let digits = a@.skip(from as int);
            match r {
                Some(n) => digits.len() > 0 && all_digits(digits) && digits_value(digits) == n && n
                    <= max,
                None => digits.len() == 0 || !all_digits(digits) || digits_value(digits) > max,
            }
        }),
{
    let ghost digits = a@.skip(from as int);
    if from == a.len() {
        return None;
    }
    let mut value: u64 = 0;
    let mut i: usize = from;
    while i < a.len()
        invariant
            from <= i <= a.len(),
            digits == a@.skip(from as int),
            all_digits(digits.take(i - from)),
            digits_value(digits.take(i - from)) == value,
            value <= max,
        decreases a.len() - i,
    {
        assert(digits[i - from] == a@[i as int]);
        if !is_digit(a[i]) {
            return None;
        }
        let ghost k = i - from;
        assert(digits.take(k + 1).drop_last() =~= digits.take(k));
        let digit: u32 = a[i] as u32 - '0' as u32;
        let next: u128 = value as u128 * 10 + digit as u128;
        assert(digits_value(digits.take(k + 1)) == next);
        if next > max as u128 {
            proof {
                if all_digits(digits) {
                    lemma_digits_value_grows(digits, k + 1);
                }
            }
            return None;
        }
        value = next as u64;
        i += 1;
    }
    assert(digits.take(digits.len() as int) =~= digits);
    Some(value)
}

/// Reads an integer without a minus sign.
fn parse_unsigned(s: &str, max: u64) -> (r: Option<u64>)
    ensures
        match r {
            Some(n) => unsigned_value(s@, max as int) == Some(n as int),
            None => unsigned_value(s@, max as int) is None,
        },
{
    let a = chars_of(s);
    assert(s@.skip(0) =~= s@);
    if a.len() > 0 && a[0] == '-' {
        None
    } else if a.len() > 0 && a[0] == '+' {
        read_digits(&a, 1, max)
    } else {
        read_digits(&a, 0, max)
    }
}

/// Reads an integer from `-max - 1` to `max`.
fn parse_signed(s: &str, max: i64) -> (r: Option<i64>)
    requires
        max > 0,
    ensures
        match r {
            Some(n) => signed_value(s@, -max - 1, max as int) == Some(n as int),
            None => signed_value(s@, -max - 1, max as int) is None,
        },
{
    let a = chars_of(s);
    assert(s@.skip(0) =~= s@);
    if a.len() > 0 && a[0] == '-' {
        match read_digits(&a, 1, max as u64 + 1) {
            Some(n) => {
                if n == max as u64 + 1 {
                    Some(-max - 1)
                } else {
                    Some(-(n as i64))
                }
            },
            None => None,
        }
    } else {
        let from: usize = if a.len() > 0 && a[0] == '+' { 1 } else { 0 };
        match read_digits(&a, from, max as u64) {
            Some(n) => Some(n as i64),
            None => None,
        }
    }
}

pub fn parse_u8(s: &str) -> (r: Option<u8>)
    ensures
        r == u8_value(s@),
{
    match parse_unsigned(s, 0xff) {
        Some(n) => Some(n as u8),
        None => None,
    }
}

pub fn parse_u16(s: &str) -> (r: Option<u16>)
    ensures
        r == u16_value(s@),
{
    match parse_unsigned(s, 0xffff) {
        Some(n) => Some(n as u16),
        None => None,
    }
}

pub fn parse_u32(s: &str) -> (r: Option<u32>)
    ensures
        r == u32_value(s@),
{
    match parse_unsigned(s, 0xffff_ffff) {
        Some(n) => Some(n as u32),
        None => None,
    }
}

pub fn parse_i32(s: &str) -> (r: Option<i32>)
    ensures
        r == i32_value(s@),
{
    match parse_signed(s, 0x7fff_ffff) {
        Some(n) => Some(n as i32),
        None => None,
    }
}

pub fn parse_i64(s: &str) -> (r: Option<i64>)
    ensures
        r == i64_value(s@),
{
    parse_signed(s, 0x7fff_ffff_ffff_ffff)
}

/// The place where the digits from `from` on end.
fn skip_digits(a: &Vec<char>, from: usize) -> (r: usize)
    requires
        from <= a.len(),
    ensures
        r == digits_end(a@, from as int),
        from <= r <= a.len(),
{
    let mut i: usize = from;
    while i < a.len() && is_digit(a[i])
        invariant
            from <= i <= a.len(),
            digits_end(a@, from as int) == digits_end(a@, i as int),
        decreases a.len() - i,
    {
        i += 1;
    }
    i
}

/// The digits of a string end at its end exactly if it has digits only.
proof fn lemma_digits_to_end(s: Seq<char>, i: int)
    requires
        0 <= i <= s.len(),
    ensures
        (digits_end(s, i) == s.len()) == all_digits(s.skip(i)),
    decreases s.len() - i,
{
    if i < s.len() {
        lemma_digits_to_end(s, i + 1);
        let rest = s.skip(i);
        assert(rest[0] == s[i]);
        assert forall|j: int| 0 <= j < s.skip(i + 1).len() implies #[trigger] s.skip(i + 1)[j]
            == rest[j + 1] by {}
        if all_digits(s.skip(i + 1)) && '0' <= s[i] <= '9' {
            assert forall|j: int| 0 <= j < rest.len() implies '0' <= #[trigger] rest[j] <= '9' by {
                if j > 0 {
                    assert(s.skip(i + 1)[j - 1] == rest[j]);
                }
            }
        }
    }
}

/// Whether the rest from `i` on is empty or an exponent.
fn is_exponent(a: &Vec<char>, i: usize) -> (r: bool)
    requires
        i <= a.len(),
    ensures
        r == exponent_at(a@, i as int),
{
    if i == a.len() {
        return true;
    }
    if a[i] != 'e' && a[i] != 'E' {
        return false;
    }
    let from: usize = if i + 1 < a.len() && (a[i + 1] == '+' || a[i + 1] == '-') {
        i + 2
    } else {
        i + 1
    };
    proof {
        let rest = a@.skip(i + 1);
        if i + 1 < a.len() {
            assert(rest[0] == a@[i + 1]);
        }
        assert(unsigned_part(rest) =~= a@.skip(from as int));
        lemma_digits_to_end(a@, from as int);
    }
    from < a.len() && skip_digits(a, from) == a.len()
}

/// Whether `s` is a floating point literal.
pub fn is_float(s: &str) -> (r: bool)
    ensures
        r == is_float_literal(s@),
{
    let len: usize = s.unicode_len();
    let magnitude = if len > 0 && (s.get_char(0) == '+' || s.get_char(0) == '-') {
        assert(s@.skip(1) =~= s@.subrange(1, len as int));
        s.substring_char(1, len)
    } else {
        s
    };
    if is_word(magnitude, "inf") || is_word(magnitude, "infinity") || is_word(magnitude, "nan") {
        return true;
    }
    let a = chars_of(magnitude);
    let whole = skip_digits(&a, 0);
    if whole < a.len() && a[whole] == '.' {
        let end = skip_digits(&a, whole + 1);
        end > 1 && is_exponent(&a, end)
    } else {
        whole > 0 && is_exponent(&a, whole)
    }
}

} // verus!
