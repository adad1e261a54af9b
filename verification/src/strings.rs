//! Characters and plain strings: trimming, comparing, splitting.

use std::borrow::Cow;
use vstd::prelude::*;

verus! {

/// Whether a character has the Unicode property White_Space.
pub open spec fn white_space(c: char) -> bool {
    ||| '\u{9}' <= c <= '\u{d}' || c == ' ' || c == '\u{85}' || c == '\u{a0}' || c == '\u{1680}'
    ||| '\u{2000}' <= c <= '\u{200a}' || c == '\u{2028}' || c == '\u{2029}' || c == '\u{202f}'
    ||| c == '\u{205f}' || c == '\u{3000}'
}

/// `char::is_whitespace` tells whether a character has the Unicode property
/// White_Space.
pub assume_specification[ char::is_whitespace ](c: char) -> (r: bool)
    ensures
        r == white_space(c),
;

/// A string without the white space at its two ends.
pub open spec fn trimmed(s: Seq<char>) -> Seq<char>
    decreases s.len(),
{
    if s.len() > 0 && white_space(s.first()) {
        trimmed(s.drop_first())
    } else if s.len() > 0 && white_space(s.last()) {
        trimmed(s.drop_last())
    } else {
        s
    }
}

/// The small letter of an ASCII capital, any other character unchanged.
pub open spec fn lower(c: char) -> char {
    if 'A' <= c <= 'Z' {
        ((c as u8 + 32) as u8) as char
    } else {
        c
    }
}

/// A string with its ASCII capitals made small.
pub open spec fn lowercase(s: Seq<char>) -> Seq<char> {
    s.map_values(|c: char| lower(c))
}

/// Each of the 26 capitals becomes the small letter at the same place of the
/// alphabet, and no other character changes.
pub proof fn law_lowercase(s: Seq<char>, i: int, k: int, c: char)
    ensures
        lowercase(s).len() == s.len(),
        0 <= i < s.len() ==> lowercase(s)[i] == lower(s[i]),
        0 <= k < 26 ==> lower("ABCDEFGHIJKLMNOPQRSTUVWXYZ"@[k])
            == "abcdefghijklmnopqrstuvwxyz"@[k],
        !"ABCDEFGHIJKLMNOPQRSTUVWXYZ"@.contains(c) ==> lower(c) == c,
{
    reveal_strlit("ABCDEFGHIJKLMNOPQRSTUVWXYZ");
    reveal_strlit("abcdefghijklmnopqrstuvwxyz");
    let capitals = "ABCDEFGHIJKLMNOPQRSTUVWXYZ"@;
    if 'A' <= c <= 'Z' {
        assert(capitals[c as u32 - 'A' as u32] == c);
    }
}

/// The first place where `c` stands, or the length where it stands nowhere.
pub open spec fn position(s: Seq<char>, c: char) -> int
    decreases s.len(),
{
    if s.len() == 0 || s[0] == c {
        0
    } else {
        1 + position(s.skip(1), c)
    }
}

/// What stands before the first place of `c`, and what stands after it.
pub proof fn law_position(a: Seq<char>, c: char, b: Seq<char>)
    requires
        forall|i: int| 0 <= i < a.len() ==> a[i] != c,
    ensures
        position(a, c) == a.len(),
        position(a + seq![c] + b, c) == a.len(),
    decreases a.len(),
{
    let s = a + seq![c] + b;
    if a.len() == 0 {
        assert(s[0] == c);
    } else {
        law_position(a.skip(1), c, b);
        assert(s[0] == a[0]);
        assert(s.skip(1) =~= a.skip(1) + seq![c] + b);
    }
}

/// The first place of `c` is within the string, and no `c` stands before it.
pub proof fn lemma_position(s: Seq<char>, c: char)
    ensures
        0 <= position(s, c) <= s.len(),
        position(s, c) < s.len() ==> s[position(s, c)] == c,
        forall|i: int| 0 <= i < position(s, c) ==> s[i] != c,
    decreases s.len(),
{
    if s.len() > 0 && s[0] != c {
        lemma_position(s.skip(1), c);
        assert forall|i: int| 0 <= i < position(s, c) implies s[i] != c by {
            if i > 0 {
                assert(s[i] == s.skip(1)[i - 1]);
            }
        }
    }
}

/// Whether `s` begins with `prefix`.
pub open spec fn has_prefix(s: Seq<char>, prefix: Seq<char>) -> bool {
    prefix.len() <= s.len() && s.take(prefix.len() as int) == prefix
}

/// The characters of a string.
pub fn chars_of(s: &str) -> (r: Vec<char>)
    ensures
        r@ == s@,
{
    let mut r: Vec<char> = Vec::new();
    for c in it: s.chars()
        invariant
            it.seq() == s@,
            r@ == s@.take(it.index() as int),
    {
        r.push(c);
    }
    assert(s@.take(s@.len() as int) == s@);
    r
}

/// The text that a `Cow` borrows or owns.
pub fn cow_str<'b>(text: &'b Cow<'_, str>) -> (r: &'b str)
    ensures
        r@ == text@,
{
    match text {
        Cow::Borrowed(borrowed) => borrowed,
        Cow::Owned(owned) => owned.as_str(),
    }
}

/// Whether two strings are the same.
pub fn same(a: &str, b: &str) -> (r: bool)
    ensures
        r == (a@ == b@),
{
    a.to_owned() == b.to_owned()
}

pub fn lower_char(c: char) -> (r: char)
    ensures
        r == lower(c),
{
    if 'A' <= c && c <= 'Z' {
        (c as u8 + 32) as char
    } else {
        c
    }
}

/// Whether `s`, with its ASCII capitals made small, is `word`.
pub fn is_word(s: &str, word: &str) -> (r: bool)
    ensures
        r == (lowercase(s@) == word@),
{
    let a = chars_of(s);
    let b = chars_of(word);
    if a.len() != b.len() {
        return false;
    }
    let mut i: usize = 0;
    while i < a.len()
        invariant
            i <= a.len(),
            a@ == s@,
            b@ == word@,
            a.len() == b.len(),
            forall|j: int| 0 <= j < i ==> lower(s@[j]) == word@[j],
        decreases a.len() - i,
    {
        if lower_char(a[i]) != b[i] {
            assert(lowercase(s@)[i as int] != word@[i as int]);
            return false;
        }
        i += 1;
    }
    assert(lowercase(s@) =~= word@);
    true
}

/// Whether `s` begins with `prefix`.
pub fn starts_with(s: &str, prefix: &str) -> (r: bool)
    ensures
        r == has_prefix(s@, prefix@),
{
    let n: usize = prefix.unicode_len();
    if s.unicode_len() < n {
        return false;
    }
    same(s.substring_char(0, n), prefix)
}

/// The first place where `c` stands in `s`, or the length of `s`.
pub fn find_char(s: &str, c: char) -> (r: usize)
    ensures
        r == position(s@, c),
        r <= s@.len(),
        r < s@.len() ==> s@[r as int] == c,
        forall|j: int| 0 <= j < r ==> s@[j] != c,
{
    let a = chars_of(s);
    let mut i: usize = 0;
    assert(s@.skip(0) == s@);
    while i < a.len() && a[i] != c
        invariant
            i <= a.len(),
            a@ == s@,
            forall|j: int| 0 <= j < i ==> s@[j] != c,
            position(s@, c) == i + position(s@.skip(i as int), c),
        decreases a.len() - i,
    {
        assert(s@.skip(i as int).skip(1) == s@.skip(i + 1));
        i += 1;
    }
    i
}

/// A string without the white space at its two ends.
pub fn trim(s: &str) -> (r: &str)
    ensures
        r@ == trimmed(s@),
{
    let a = chars_of(s);
    let mut from: usize = 0;
    let mut to: usize = a.len();
    assert(s@.subrange(0, to as int) == s@);
    while from < to && a[from].is_whitespace()
        invariant
            from <= to == a.len(),
            a@ == s@,
            trimmed(s@) == trimmed(s@.subrange(from as int, to as int)),
        decreases to - from,
    {
        assert(s@.subrange(from as int, to as int).drop_first() == s@.subrange(
            from + 1,
            to as int,
        ));
        from += 1;
    }
    while from < to && a[to - 1].is_whitespace()
        invariant
            from <= to <= a.len(),
            a@ == s@,
            from < to ==> !white_space(s@[from as int]),
            trimmed(s@) == trimmed(s@.subrange(from as int, to as int)),
        decreases to - from,
    {
        assert(s@.subrange(from as int, to as int).drop_last() == s@.subrange(
            from as int,
            to - 1,
        ));
        to -= 1;
    }
    s.substring_char(from, to)
}

} // verus!
