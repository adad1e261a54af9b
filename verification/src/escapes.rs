//! Escape sequences and wildcards in the text of a term.

use crate::ast::{OptionalRe, OptionalReView, ParseError, ParseResult};
use crate::regexes::{
    is_match, replace_all, Conversion, ESCAPED, GLOB_TOKEN, INVALID_ESCAPE, MAYBE_ESCAPED, WILDCARD,
};
#[allow(unused_imports)]
use crate::regexes::{
    all_accepted, backslashes_before, escapable, quoted, replaced, undefined_escape,
    unescaped_wildcard, ConversionView, Tokens,
};
use crate::strings::{chars_of, cow_str, find_char};
use std::borrow::Cow;
use vstd::prelude::*;

verus! {

/// A string with a quote in the place of each backslash and quote.
pub open spec fn quotes_unescaped(s: Seq<char>) -> Seq<char>
    decreases s.len(),
{
    if s.len() == 0 {
        Seq::empty()
    } else if s.len() >= 2 && s[0] == '\\' && s[1] == '"' {
        seq!['"'] + quotes_unescaped(s.skip(2))
    } else {
        seq![s[0]] + quotes_unescaped(s.skip(1))
    }
}

/// Whether each backslash, read from left to right, is followed by an
/// escapable character, which it escapes.
pub open spec fn well_escaped(s: Seq<char>) -> bool
    decreases s.len(),
{
    if s.len() == 0 {
        true
    } else if s[0] == '\\' {
        s.len() >= 2 && escapable(s[1]) && well_escaped(s.skip(2))
    } else {
        well_escaped(s.skip(1))
    }
}

/// The SQL pattern for a text with wildcards.
pub open spec fn glob_of(s: Seq<char>) -> Seq<char> {
    replaced(Tokens::Glob, s, ConversionView::Glob)
}

/// The regular expression for a text with wildcards, each of which stands for
/// characters that `wildcard` matches.
pub open spec fn re_of(s: Seq<char>, wildcard: Seq<char>) -> Seq<char> {
    replaced(Tokens::MaybeEscaped, s, ConversionView::Re(wildcard))
}

/// A text with each escaped character in the place of its escape sequence.
pub open spec fn plain_of(s: Seq<char>) -> Seq<char> {
    replaced(Tokens::Escaped, s, ConversionView::Plain)
}

/// What a text stands for: an SQL pattern, if its escape sequences are defined.
pub open spec fn to_glob(s: Seq<char>) -> Option<Seq<char>> {
    if undefined_escape(s) {
        None
    } else {
        Some(glob_of(s))
    }
}

/// What a text stands for: a regular expression if it has an unescaped
/// wildcard, else plain text, if its escape sequences are defined.
pub open spec fn to_custom_re(s: Seq<char>, wildcard: Seq<char>) -> Option<OptionalReView> {
    if undefined_escape(s) {
        None
    } else if unescaped_wildcard(s) {
        Some(OptionalReView::Re(re_of(s, wildcard)))
    } else {
        Some(OptionalReView::Text(plain_of(s)))
    }
}

/// The same with the dot for wildcard.
pub open spec fn to_re(s: Seq<char>) -> Option<OptionalReView> {
    to_custom_re(s, seq!['.'])
}

/// The same, with plain text quoted so that the result is a regular expression
/// in each case.
pub open spec fn to_enforced_re(s: Seq<char>) -> Option<Seq<char>> {
    match to_re(s) {
        None => None,
        Some(OptionalReView::Text(text)) => Some(quoted(text)),
        Some(OptionalReView::Re(re)) => Some(re),
    }
}

/// Backslashes before a place, counted in the rest of a string.
proof fn lemma_backslashes_in_rest(s: Seq<char>, k: int, i: int)
    requires
        0 <= k,
        0 <= i,
        k + i <= s.len(),
    ensures
        backslashes_before(s.skip(k), i) <= i,
        backslashes_before(s, k + i) == if backslashes_before(s.skip(k), i) == i {
            i + backslashes_before(s, k)
        } else {
            backslashes_before(s.skip(k), i) as int
        },
    decreases i,
{
    if i > 0 {
        lemma_backslashes_in_rest(s, k, i - 1);
        assert(s.skip(k)[i - 1] == s[k + i - 1]);
    }
}

/// Where the first `k` characters end in an even number of backslashes, the
/// rest of a string has the same places after an odd number of them.
pub proof fn lemma_parity_in_rest(s: Seq<char>, k: int)
    requires
        0 <= k <= s.len(),
        backslashes_before(s, k) % 2 == 0,
    ensures
        forall|i: int|
            0 <= i <= s.len() - k ==> #[trigger] backslashes_before(s.skip(k), i) % 2
                == backslashes_before(s, k + i) % 2,
{
    assert forall|i: int| 0 <= i <= s.len() - k implies #[trigger] backslashes_before(
        s.skip(k),
        i,
    ) % 2 == backslashes_before(s, k + i) % 2 by {
        lemma_backslashes_in_rest(s, k, i);
    }
}

/// An escape sequence is undefined exactly if some backslash, read from left
/// to right, has nothing to escape.
pub proof fn lemma_well_escaped(s: Seq<char>)
    ensures
        undefined_escape(s) == !well_escaped(s),
    decreases s.len(),
{
    if s.len() == 0 {
        assert(backslashes_before(s, 0) == 0);
    } else {
        reveal_with_fuel(backslashes_before, 3);
        let k: int = if s[0] == '\\' { 2 } else { 1 };
        if k == 2 && (s.len() < 2 || !escapable(s[1])) {
            assert(backslashes_before(s, 1) == 1);
        } else {
            lemma_well_escaped(s.skip(k));
            lemma_parity_in_rest(s, k);
            if undefined_escape(s.skip(k)) {
                let i = choose|i: int|
                    0 <= i <= s.skip(k).len() && #[trigger] backslashes_before(s.skip(k), i) % 2
                        == 1 && (i == s.skip(k).len() || !escapable(s.skip(k)[i]));
                assert(backslashes_before(s, k + i) % 2 == 1);
            }
            if undefined_escape(s) {
                let i = choose|i: int|
                    0 <= i <= s.len() && #[trigger] backslashes_before(s, i) % 2 == 1 && (i
                        == s.len() || !escapable(s[i]));
                assert(i >= k);
                assert(backslashes_before(s.skip(k), i - k) % 2 == backslashes_before(
                    s,
                    k + (i - k),
                ) % 2);
            }
        }
    }
}

/// Each token of a text whose escape sequences are defined can be converted.
proof fn lemma_glob_accepts(s: Seq<char>)
    requires
        well_escaped(s),
    ensures
        all_accepted(Tokens::Glob, s, ConversionView::Glob),
    decreases s.len(),
{
    if s.len() > 0 {
        if s[0] == '\\' {
            lemma_glob_accepts(s.skip(2));
            assert(s.take(2) =~= seq!['\\', s[1]]);
        } else {
            lemma_glob_accepts(s.skip(1));
            assert(s.take(1) =~= seq![s[0]]);
        }
    }
}

proof fn lemma_re_accepts(s: Seq<char>, wildcard: Seq<char>)
    ensures
        all_accepted(Tokens::MaybeEscaped, s, ConversionView::Re(wildcard)),
    decreases s.len(),
{
    if s.len() > 0 {
        lemma_re_accepts(s.skip(1), wildcard);
        if s.len() >= 2 {
            lemma_re_accepts(s.skip(2), wildcard);
        }
    }
}

proof fn lemma_plain_accepts(s: Seq<char>)
    ensures
        all_accepted(Tokens::Escaped, s, ConversionView::Plain),
    decreases s.len(),
{
    if s.len() > 0 {
        lemma_plain_accepts(s.skip(1));
        if s.len() >= 2 {
            lemma_plain_accepts(s.skip(2));
        }
    }
}

/// The patterns for replacement differ.
proof fn lemma_token_patterns()
    ensures
        forall|a: Tokens, b: Tokens| #[trigger] a.pattern() == #[trigger] b.pattern() ==> a == b,
{
    reveal_strlit(r"\\.|[*%]");
    reveal_strlit(r"\\?.");
    reveal_strlit(r"\\(.)");
    assert(GLOB_TOKEN@.len() == 8);
    assert(MAYBE_ESCAPED@.len() == 4);
    assert(ESCAPED@.len() == 5);
}

/// Check string for invalid escape sequences.
pub fn is_invalid_escape(txt: &str) -> (r: bool)
    ensures
        r == undefined_escape(txt@),
{
    // odd number of \s not followed by an escapable character
    is_match(INVALID_ESCAPE, txt)
}

/// Text without a quote has nothing to convert.
pub proof fn law_no_quotes(s: Seq<char>)
    requires
        forall|i: int| 0 <= i < s.len() ==> s[i] != '"',
    ensures
        quotes_unescaped(s) == s,
    decreases s.len(),
{
    if s.len() > 0 {
        law_no_quotes(s.skip(1));
        assert(seq![s[0]] + s.skip(1) =~= s);
    }
}

/// For strings without unescaped ", convert \" to "
pub fn unescape_quotes(s: &str) -> (r: Cow<'_, str>)
    ensures
        r@ == quotes_unescaped(s@),
{
    let a = chars_of(s);
    if find_char(s, '"') == a.len() {
        proof {
            law_no_quotes(s@);
        }
        return Cow::Borrowed(s);
    }
    let mut out = String::new();
    let mut done: usize = 0;
    let mut i: usize = 0;
    assert(s@.skip(0) == s@);
    while i < a.len()
        invariant
            done <= i <= a.len(),
            a@ == s@,
            quotes_unescaped(s@) == out@ + s@.subrange(done as int, i as int) + quotes_unescaped(
                s@.skip(i as int),
            ),
        decreases a.len() - i,
    {
        if i + 1 < a.len() && a[i] == '\\' && a[i + 1] == '"' {
            assert(s@.skip(i as int).skip(2) =~= s@.skip(i + 2));
            out.append(s.substring_char(done, i));
            done = i + 1;
            i = i + 2;
            assert(s@.subrange(done as int, i as int) =~= seq!['"']);
        } else {
            assert(s@.skip(i as int).skip(1) =~= s@.skip(i + 1));
            assert(s@.subrange(done as int, i + 1) =~= s@.subrange(done as int, i as int)
                + seq![s@[i as int]]);
            i = i + 1;
        }
    }
    assert(s@.skip(i as int) =~= Seq::empty());
    out.append(s.substring_char(done, i));
    Cow::Owned(out)
}

/// Handle escaped characters and convert Anki wildcards to SQL wildcards.
/// Return error if there is an undefined escape sequence.
pub fn unescape_to_glob(txt: &str) -> (r: ParseResult<Cow<'_, str>>)
    ensures
        match r {
            Ok(glob) => to_glob(txt@) == Some(glob@),
            Err(_) => to_glob(txt@) is None,
        },
{
    if is_invalid_escape(txt) {
        Err(ParseError {  })
    } else {
        proof {
            lemma_well_escaped(txt@);
            lemma_glob_accepts(txt@);
            lemma_token_patterns();
            assert(GLOB_TOKEN@ == Tokens::Glob.pattern());
        }
        // escape sequences and unescaped special characters which need conversion
        Ok(replace_all(GLOB_TOKEN, txt, &Conversion::Glob))
    }
}

/// Handle escaped characters and convert to regex if there are wildcards.
/// Return error if there is an undefined escape sequence.
pub fn unescape_to_re(txt: &str) -> (r: ParseResult<OptionalRe<'_>>)
    ensures
        match r {
            Ok(re) => to_re(txt@) == Some(re@),
            Err(_) => to_re(txt@) is None,
        },
{
    proof {
        reveal_strlit(".");
        assert("."@ =~= seq!['.']);
    }
    unescape_to_custom_re(txt, ".")
}

/// Handle escaped characters and if there are wildcards, convert to a regex using the given wildcard.
/// Return error if there is an undefined escape sequence.
pub fn unescape_to_custom_re<'a>(txt: &'a str, wildcard: &str) -> (r: ParseResult<OptionalRe<'a>>)
    ensures
        match r {
            Ok(re) => to_custom_re(txt@, wildcard@) == Some(re@),
            Err(_) => to_custom_re(txt@, wildcard@) is None,
        },
{
    if is_invalid_escape(txt) {
        Err(ParseError {  })
    } else {
        proof {
            lemma_token_patterns();
        }
        if is_match(WILDCARD, txt) {
            proof {
                lemma_re_accepts(txt@, wildcard@);
                assert(MAYBE_ESCAPED@ == Tokens::MaybeEscaped.pattern());
            }
            Ok(OptionalRe::Re(replace_all(MAYBE_ESCAPED, txt, &Conversion::Re(wildcard))))
        } else {
            proof {
                lemma_plain_accepts(txt@);
                assert(ESCAPED@ == Tokens::Escaped.pattern());
            }
            Ok(OptionalRe::Text(replace_all(ESCAPED, txt, &Conversion::Plain)))
        }
    }
}

/// Handle escaped characters and convert to regex.
/// Return error if there is an undefined escape sequence.
pub fn unescape_to_enforced_re(txt: &str) -> (r: ParseResult<String>)
    ensures
        match r {
            Ok(re) => to_enforced_re(txt@) == Some(re@),
            Err(_) => to_enforced_re(txt@) is None,
        },
{
    match unescape_to_re(txt) {
        Ok(OptionalRe::Text(text)) => Ok(regex::escape(cow_str(&text))),
        Ok(OptionalRe::Re(re)) => Ok(cow_str(&re).to_owned()),
        Err(e) => Err(e),
    }
}

} // verus!
