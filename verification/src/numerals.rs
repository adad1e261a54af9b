//! Which strings are read as which numbers.

#[allow(unused_imports)]
use crate::numbers::{
    all_digits, digits_end, digits_value, exponent_at, has_sign, i32_value, i64_value,
    integer_value, is_decimal, is_float_literal, u16_value, u32_value, u8_value, unsigned_part,
};
#[allow(unused_imports)]
use crate::strings::lowercase;
use vstd::prelude::*;

verus! {

/// A number in decimal digits, without zeros before it.
pub open spec fn decimal(n: nat) -> Seq<char>
    decreases n,
{
    if n < 10 {
        seq!["0123456789"@[n as int]]
    } else {
        decimal(n / 10).push("0123456789"@[(n % 10) as int])
    }
}

/// Whether a string is a number in decimal digits, with any number of zeros
/// before it.
pub open spec fn is_numeral(s: Seq<char>, n: nat) -> bool {
    let zeros = s.len() - decimal(n).len();
    &&& zeros >= 0
    &&& s.skip(zeros) == decimal(n)
    &&& forall|i: int| 0 <= i < zeros ==> s[i] == '0'
}

/// Whether a string is a number in decimal digits, maybe after a plus sign.
pub open spec fn is_unsigned_numeral(s: Seq<char>, n: nat) -> bool {
    is_numeral(s, n) || s.len() > 0 && s[0] == '+' && is_numeral(s.skip(1), n)
}

/// Whether a string is an integer in decimal digits, after a minus sign if it
/// is negative, and else maybe after a sign.
pub open spec fn is_signed_numeral(s: Seq<char>, n: int) -> bool {
    ||| n >= 0 && is_unsigned_numeral(s, n as nat)
    ||| n <= 0 && s.len() > 0 && s[0] == '-' && is_numeral(s.skip(1), (-n) as nat)
}

proof fn lemma_digit(n: nat)
    requires
        n < 10,
    ensures
        '0' <= "0123456789"@[n as int] <= '9',
        "0123456789"@[n as int] as u32 - '0' as u32 == n,
{
    reveal_strlit("0123456789");
}

/// The digit whose value is that of a digit is that digit.
proof fn lemma_digit_of(c: char)
    requires
        '0' <= c <= '9',
    ensures
        "0123456789"@[c as u32 - '0' as u32] == c,
{
    reveal_strlit("0123456789");
}

proof fn lemma_decimal(n: nat)
    ensures
        decimal(n).len() > 0,
        all_digits(decimal(n)),
        n > 0 ==> decimal(n)[0] != '0',
    decreases n,
{
    lemma_digit(n % 10);
    if n >= 10 {
        lemma_decimal(n / 10);
    } else {
        lemma_digit(n);
    }
}

proof fn lemma_numeral_of_digits(s: Seq<char>)
    requires
        s.len() > 0,
        all_digits(s),
    ensures
        is_numeral(s, digits_value(s)),
    decreases s.len(),
{
    let c = s.last();
    let head = s.drop_last();
    let d = (c as u32 - '0' as u32) as nat;
    lemma_digit_of(c);
    let n = digits_value(s);
    if head.len() == 0 {
        assert(digits_value(head) == 0);
        assert(s =~= decimal(n));
        assert(s.skip(0) =~= s);
    } else {
        lemma_numeral_of_digits(head);
        let v = digits_value(head);
        assert(n == v * 10 + d);
        lemma_decimal(v);
        if v == 0 {
            lemma_digit(0);
            assert(decimal(0).len() == 1);
            assert(head.skip(head.len() - 1)[0] == decimal(0)[0]);
            assert(s.skip(s.len() - 1) =~= decimal(n));
            assert forall|i: int| 0 <= i < s.len() - 1 implies s[i] == '0' by {
                assert(s[i] == head[i]);
            }
        } else {
            assert(n / 10 == v && n % 10 == d);
            let zeros = head.len() - decimal(v).len();
            assert(s.skip(zeros) =~= head.skip(zeros).push(c));
            assert forall|i: int| 0 <= i < zeros implies s[i] == '0' by {
                assert(s[i] == head[i]);
            }
        }
    }
}

proof fn lemma_zeros_value(s: Seq<char>)
    requires
        forall|i: int| 0 <= i < s.len() ==> s[i] == '0',
    ensures
        digits_value(s) == 0,
    decreases s.len(),
{
    if s.len() > 0 {
        lemma_zeros_value(s.drop_last());
    }
}

proof fn lemma_digits_of_numeral(s: Seq<char>, n: nat)
    requires
        is_numeral(s, n),
    ensures
        s.len() > 0,
        all_digits(s),
        digits_value(s) == n,
    decreases n,
{
    lemma_decimal(n);
    let zeros = s.len() - decimal(n).len();
    let head = s.drop_last();
    assert forall|i: int| 0 <= i < s.len() implies '0' <= #[trigger] s[i] <= '9' by {
        if i >= zeros {
            assert(s[i] == s.skip(zeros)[i - zeros]);
        }
    }
    assert(s.last() == s.skip(zeros).last());
    if n < 10 {
        lemma_digit(n);
        lemma_zeros_value(head);
    } else {
        lemma_digit(n % 10);
        assert(head.skip(zeros) =~= decimal(n).drop_last());
        assert(decimal(n).drop_last() =~= decimal(n / 10));
        assert forall|i: int| 0 <= i < zeros implies head[i] == '0' by {
            assert(head[i] == s[i]);
        }
        lemma_digits_of_numeral(head, n / 10);
    }
}

/// The strings of one or more digits are those of a number.
proof fn lemma_numeral(s: Seq<char>, n: nat)
    ensures
        is_numeral(s, n) == (s.len() > 0 && all_digits(s) && digits_value(s) == n),
{
    if is_numeral(s, n) {
        lemma_digits_of_numeral(s, n);
    }
    if s.len() > 0 && all_digits(s) {
        lemma_numeral_of_digits(s);
    }
}

proof fn lemma_signed_numeral(s: Seq<char>, n: int)
    ensures
        is_signed_numeral(s, n) == (integer_value(s) == Some(n)),
        n >= 0 ==> is_unsigned_numeral(s, n as nat) == (integer_value(s) == Some(n) && s[0] != '-'),
{
    let m = if n >= 0 {
        n as nat
    } else {
        (-n) as nat
    };
    lemma_numeral(s, m);
    if s.len() > 0 {
        lemma_numeral(s.skip(1), m);
    }
    if is_numeral(s, m) {
        assert('0' <= s[0] <= '9');
    }
}

/// A number in decimal digits is read as that number.
pub proof fn law_decimal(n: nat)
    ensures
        is_unsigned_numeral(decimal(n), n),
        is_signed_numeral(decimal(n), n as int),
{
    assert(decimal(n).skip(0) =~= decimal(n));
}

/// The strings that are read as a number of at most 255.
pub proof fn law_u8_numerals(s: Seq<char>, n: u8)
    ensures
        (u8_value(s) == Some(n)) == is_unsigned_numeral(s, n as nat),
{
    lemma_signed_numeral(s, n as int);
}

/// The strings that are read as a number of at most 65535.
pub proof fn law_u16_numerals(s: Seq<char>, n: u16)
    ensures
        (u16_value(s) == Some(n)) == is_unsigned_numeral(s, n as nat),
{
    lemma_signed_numeral(s, n as int);
}

/// The strings that are read as a number below 2^32.
pub proof fn law_u32_numerals(s: Seq<char>, n: u32)
    ensures
        (u32_value(s) == Some(n)) == is_unsigned_numeral(s, n as nat),
{
    lemma_signed_numeral(s, n as int);
}

/// The strings that are read as an integer from -2^31 on and below 2^31.
pub proof fn law_i32_numerals(s: Seq<char>, n: i32)
    ensures
        (i32_value(s) == Some(n)) == is_signed_numeral(s, n as int),
{
    lemma_signed_numeral(s, n as int);
}

/// The strings that are read as an integer from -2^63 on and below 2^63.
pub proof fn law_i64_numerals(s: Seq<char>, n: i64)
    ensures
        (i64_value(s) == Some(n)) == is_signed_numeral(s, n as int),
{
    lemma_signed_numeral(s, n as int);
}

/// No string is read as two numbers.
pub proof fn law_numerals_differ(s: Seq<char>, m: int, n: int)
    requires
        is_signed_numeral(s, m),
        is_signed_numeral(s, n),
    ensures
        m == n,
{
    lemma_signed_numeral(s, m);
    lemma_signed_numeral(s, n);
}

/// A numeral has digits and signs only.
pub proof fn lemma_numeral_chars(s: Seq<char>, n: int)
    requires
        is_signed_numeral(s, n),
    ensures
        s.len() > 0,
        forall|i: int|
            0 <= i < s.len() ==> '0' <= #[trigger] s[i] <= '9' || s[i] == '+' || s[i] == '-',
{
    lemma_signed_numeral(s, n);
    let digits = unsigned_part(s);
    assert forall|i: int| 0 <= i < s.len() implies '0' <= #[trigger] s[i] <= '9' || s[i] == '+'
        || s[i] == '-' by {
        if has_sign(s) {
            if i > 0 {
                assert(s[i] == digits[i - 1]);
            }
        } else {
            assert(s[i] == digits[i]);
        }
    }
}

/// Whether a string is empty or an exponent: `e` or `E`, maybe a sign, then one
/// or more digits.
pub open spec fn is_exponent(s: Seq<char>) -> bool {
    s.len() == 0 || {
        let digits = if s.len() > 1 && (s[1] == '+' || s[1] == '-') {
            s.skip(2)
        } else {
            s.skip(1)
        };
        (s[0] == 'e' || s[0] == 'E') && digits.len() > 0 && all_digits(digits)
    }
}

/// Whether a string is made of digits, maybe a point and more digits, and maybe
/// an exponent. There is a digit on one side of the point at least.
pub open spec fn has_decimal_parts(
    s: Seq<char>,
    whole: Seq<char>,
    fraction: Seq<char>,
    exponent: Seq<char>,
) -> bool {
    &&& all_digits(whole) && all_digits(fraction) && whole.len() + fraction.len() > 0
    &&& is_exponent(exponent)
    &&& s == whole + seq!['.'] + fraction + exponent || (fraction.len() == 0 && s == whole
        + exponent)
}

/// Whether a string is a decimal number without a sign.
pub open spec fn is_decimal_numeral(s: Seq<char>) -> bool {
    exists|whole: Seq<char>, fraction: Seq<char>, exponent: Seq<char>|
        has_decimal_parts(s, whole, fraction, exponent)
}

/// Whether a string is a decimal number or the word for infinity or for no
/// number, in capital or small letters, and maybe a sign before it.
pub open spec fn is_float_numeral(s: Seq<char>) -> bool {
    let magnitude = if s.len() > 0 && (s[0] == '+' || s[0] == '-') {
        s.skip(1)
    } else {
        s
    };
    ||| is_decimal_numeral(magnitude)
    ||| lowercase(magnitude) == "inf"@
    ||| lowercase(magnitude) == "infinity"@
    ||| lowercase(magnitude) == "nan"@
}

proof fn lemma_digits_end(s: Seq<char>, i: int)
    requires
        0 <= i <= s.len(),
    ensures
        i <= digits_end(s, i) <= s.len(),
        forall|j: int| i <= j < digits_end(s, i) ==> '0' <= #[trigger] s[j] <= '9',
        digits_end(s, i) < s.len() ==> !('0' <= s[digits_end(s, i)] <= '9'),
    decreases s.len() - i,
{
    if i < s.len() && '0' <= s[i] <= '9' {
        lemma_digits_end(s, i + 1);
    }
}

proof fn lemma_digits_end_at(s: Seq<char>, i: int, n: int)
    requires
        0 <= i <= n <= s.len(),
        forall|j: int| i <= j < n ==> '0' <= #[trigger] s[j] <= '9',
        n < s.len() ==> !('0' <= s[n] <= '9'),
    ensures
        digits_end(s, i) == n,
{
    lemma_digits_end(s, i);
    let end = digits_end(s, i);
    if end < n {
        assert('0' <= s[end] <= '9');
    }
    if n < end {
        assert('0' <= s[n] <= '9');
    }
}

proof fn lemma_exponent(s: Seq<char>, i: int)
    requires
        0 <= i <= s.len(),
    ensures
        exponent_at(s, i) == is_exponent(s.skip(i)),
{
    let e = s.skip(i);
    if i < s.len() {
        assert(e[0] == s[i]);
        assert(e.skip(1) =~= s.skip(i + 1));
        if e.len() > 1 {
            assert(e[1] == s.skip(i + 1)[0]);
            assert(e.skip(2) =~= s.skip(i + 1).skip(1));
        }
    }
}

proof fn lemma_decimal_parts(
    s: Seq<char>,
    whole: Seq<char>,
    fraction: Seq<char>,
    exponent: Seq<char>,
)
    requires
        has_decimal_parts(s, whole, fraction, exponent),
    ensures
        is_decimal(s),
{
    let n = whole.len() as int;
    assert forall|j: int| 0 <= j < n implies '0' <= #[trigger] s[j] <= '9' by {
        assert(s[j] == whole[j]);
    }
    if s == whole + seq!['.'] + fraction + exponent {
        assert(s[n] == '.');
        lemma_digits_end_at(s, 0, n);
        let end = n + 1 + fraction.len();
        assert forall|j: int| n + 1 <= j < end implies '0' <= #[trigger] s[j] <= '9' by {
            assert(s[j] == fraction[j - n - 1]);
        }
        if exponent.len() > 0 {
            assert(s[end] == exponent[0]);
        }
        lemma_digits_end_at(s, n + 1, end);
        lemma_exponent(s, end);
        assert(s.skip(end) =~= exponent);
    } else {
        if exponent.len() > 0 {
            assert(s[n] == exponent[0]);
        }
        lemma_digits_end_at(s, 0, n);
        lemma_exponent(s, n);
        assert(s.skip(n) =~= exponent);
    }
}

proof fn lemma_parts_of_decimal(s: Seq<char>)
    requires
        is_decimal(s),
    ensures
        is_decimal_numeral(s),
{
    let n = digits_end(s, 0);
    lemma_digits_end(s, 0);
    let whole = s.take(n);
    if n < s.len() && s[n] == '.' {
        let end = digits_end(s, n + 1);
        lemma_digits_end(s, n + 1);
        lemma_exponent(s, end);
        let fraction = s.subrange(n + 1, end);
        let exponent = s.skip(end);
        assert(s =~= whole + seq!['.'] + fraction + exponent);
        assert(has_decimal_parts(s, whole, fraction, exponent));
    } else {
        lemma_exponent(s, n);
        let exponent = s.skip(n);
        assert(s =~= whole + exponent);
        assert(has_decimal_parts(s, whole, Seq::empty(), exponent));
    }
}

/// The strings that are read as a floating point number.
pub proof fn law_float_numerals(s: Seq<char>)
    ensures
        is_float_literal(s) == is_float_numeral(s),
{
    let magnitude = unsigned_part(s);
    if is_decimal(magnitude) {
        lemma_parts_of_decimal(magnitude);
    }
    if is_decimal_numeral(magnitude) {
        let (whole, fraction, exponent) = choose|
            whole: Seq<char>,
            fraction: Seq<char>,
            exponent: Seq<char>,
        |
            has_decimal_parts(magnitude, whole, fraction, exponent);
        lemma_decimal_parts(magnitude, whole, fraction, exponent);
    }
}

/// A floating point number does not start with the end of a comparison.
pub proof fn lemma_float_start(s: Seq<char>)
    requires
        is_float_literal(s),
    ensures
        s.len() > 0 && s[0] != '=',
{
    reveal_strlit("inf");
    reveal_strlit("infinity");
    reveal_strlit("nan");
    let magnitude = unsigned_part(s);
    assert(lowercase(magnitude).len() == magnitude.len());
    if s.len() == 0 {
        assert(digits_end(s, 0) == 0);
    } else if s[0] == '=' {
        assert(lowercase(s)[0] == '=');
        assert(digits_end(s, 0) == 0);
    }
}

} // verus!
