//! The regular expressions of the search language, and what they match.

use crate::strings::chars_of;
use regex::{Captures, Regex};
use std::borrow::Cow;
use vstd::prelude::*;

verus! {

/// An odd number of backslashes, not followed by an escapable character.
pub const INVALID_ESCAPE: &'static str = r#"(^|[^\\])(\\\\)*\\([^\\":*_()]|$)"#;

/// A wildcard after an even number of backslashes.
pub const WILDCARD: &'static str = r"(^|[^\\])(\\\\)*[*_]";

/// Numbers with a comma between each two.
pub const ID_LIST: &'static str = r"^(\d+,)*\d+$";

/// One decimal digit.
pub const DIGIT: &'static str = r"\d";

/// Escape sequences and unescaped characters that need conversion.
pub const GLOB_TOKEN: &'static str = r"\\.|[*%]";

/// A character, with the backslash before it if there is one.
pub const MAYBE_ESCAPED: &'static str = r"\\?.";

/// A character after a backslash.
pub const ESCAPED: &'static str = r"\\(.)";

/// The characters that may stand after a backslash.
pub open spec fn escapable(c: char) -> bool {
    c == '\\' || c == '"' || c == ':' || c == '*' || c == '_' || c == '(' || c == ')'
}

/// How many backslashes stand directly before place `i`.
pub open spec fn backslashes_before(s: Seq<char>, i: int) -> nat
    decreases i,
{
    if 0 < i <= s.len() && s[i - 1] == '\\' {
        1 + backslashes_before(s, i - 1)
    } else {
        0
    }
}

/// Whether an odd number of backslashes stands somewhere before a character
/// that is not escapable, or before the end.
pub open spec fn undefined_escape(s: Seq<char>) -> bool {
    exists|i: int|
        0 <= i <= s.len() && #[trigger] backslashes_before(s, i) % 2 == 1 && (i == s.len()
            || !escapable(s[i]))
}

/// Whether `*` or `_` stands somewhere after an even number of backslashes.
pub open spec fn unescaped_wildcard(s: Seq<char>) -> bool {
    exists|i: int|
        0 <= i < s.len() && #[trigger] backslashes_before(s, i) % 2 == 0 && (s[i] == '*' || s[i]
            == '_')
}

/// Whether `Regex::is_match` finds the pattern somewhere in the text.
pub uninterp spec fn regex_is_match(pattern: Seq<char>, text: Seq<char>) -> bool;

/// Whether a character is a decimal digit, of any script.
pub open spec fn decimal_digit(c: char) -> bool {
    if c as u32 <= 0x7f {
        '0' <= c <= '9'
    } else {
        regex_is_match(DIGIT@, seq![c])
    }
}

/// Whether a string is made of numbers with a comma between each two.
pub open spec fn is_id_list(s: Seq<char>) -> bool {
    &&& s.len() > 0
    &&& forall|i: int|
        0 <= i < s.len() ==> decimal_digit(#[trigger] s[i]) || (s[i] == ',' && 0 < i < s.len() - 1
            && decimal_digit(s[i - 1]))
}

/// Whether a character has a meaning of its own in a regular expression.
pub open spec fn is_meta(c: char) -> bool {
    ||| c == '\\' || c == '.' || c == '+' || c == '*' || c == '?' || c == '(' || c == ')'
    ||| c == '|' || c == '[' || c == ']' || c == '{' || c == '}' || c == '^' || c == '$'
    ||| c == '#' || c == '&' || c == '-' || c == '~'
}

/// A string with a backslash before each of its meta characters.
pub open spec fn quoted(s: Seq<char>) -> Seq<char>
    decreases s.len(),
{
    if s.len() == 0 {
        Seq::empty()
    } else if is_meta(s[0]) {
        seq!['\\', s[0]] + quoted(s.skip(1))
    } else {
        seq![s[0]] + quoted(s.skip(1))
    }
}

/// What one of the patterns for replacement finds.
pub enum Tokens {
    Glob,
    MaybeEscaped,
    Escaped,
}

impl Tokens {
    pub open spec fn pattern(self) -> Seq<char> {
        match self {
            Tokens::Glob => GLOB_TOKEN@,
            Tokens::MaybeEscaped => MAYBE_ESCAPED@,
            Tokens::Escaped => ESCAPED@,
        }
    }

    /// The length of the match at the start of `s`, zero where there is none.
    /// The dot of a pattern is any character but the newline.
    pub open spec fn at_start(self, s: Seq<char>) -> nat {
        if s.len() >= 2 && s[0] == '\\' && s[1] != '\n' {
            2
        } else if s.len() >= 1 && (match self {
            Tokens::Glob => s[0] == '*' || s[0] == '%',
            Tokens::MaybeEscaped => s[0] != '\n',
            Tokens::Escaped => false,
        }) {
            1
        } else {
            0
        }
    }
}

/// What becomes of a token.
pub enum ConversionView {
    Glob,
    Re(Seq<char>),
    Plain,
}

impl ConversionView {
    /// The tokens for which there is a replacement.
    pub open spec fn accepts(self, token: Seq<char>) -> bool {
        match self {
            ConversionView::Glob => {
                ||| token == seq!['*']
                ||| token == seq!['%']
                ||| token.len() == 2 && token[0] == '\\' && escapable(token[1])
            },
            ConversionView::Re(_) => true,
            ConversionView::Plain => token.len() > 0,
        }
    }

    pub open spec fn replacement(self, token: Seq<char>) -> Seq<char> {
        match self {
            ConversionView::Glob => glob_replacement(token),
            ConversionView::Re(wildcard) => re_replacement(token, wildcard),
            ConversionView::Plain => token.skip(1),
        }
    }
}

/// A token in the language of SQL patterns, where `%` is any text, `_` any
/// character, and a backslash escapes.
pub open spec fn glob_replacement(token: Seq<char>) -> Seq<char> {
    if token == seq!['*'] {
        seq!['%']
    } else if token == seq!['%'] {
        seq!['\\', '%']
    } else if token == seq!['\\', '\\'] || token == seq!['\\', '_'] {
        token
    } else {
        token.skip(1)
    }
}

/// A token in the language of regular expressions, where `wildcard` matches
/// one character that `_` may stand for.
pub open spec fn re_replacement(token: Seq<char>, wildcard: Seq<char>) -> Seq<char> {
    if token == seq!['*'] {
        wildcard.push('*')
    } else if token == seq!['_'] {
        wildcard
    } else if token == seq!['\\', '"'] || token == seq!['\\', ':'] || token == seq!['\\', '_'] {
        token.skip(1)
    } else if token == seq!['\\', '\\'] || token == seq!['\\', '*'] || token == seq!['\\', '(']
        || token == seq!['\\', ')'] {
        token
    } else {
        quoted(token)
    }
}

/// Whether there is a replacement for each token that is met from left to
/// right.
pub open spec fn all_accepted(tokens: Tokens, s: Seq<char>, conversion: ConversionView) -> bool
    decreases s.len(),
{
    if s.len() == 0 {
        true
    } else if tokens.at_start(s) == 0 {
        all_accepted(tokens, s.skip(1), conversion)
    } else {
        let n = tokens.at_start(s) as int;
        conversion.accepts(s.take(n)) && all_accepted(tokens, s.skip(n), conversion)
    }
}

/// A string with each token, met from left to right, replaced.
pub open spec fn replaced(tokens: Tokens, s: Seq<char>, conversion: ConversionView) -> Seq<char>
    decreases s.len(),
{
    if s.len() == 0 {
        Seq::empty()
    } else if tokens.at_start(s) == 0 {
        seq![s[0]] + replaced(tokens, s.skip(1), conversion)
    } else {
        let n = tokens.at_start(s) as int;
        conversion.replacement(s.take(n)) + replaced(tokens, s.skip(n), conversion)
    }
}

/// `Regex::is_match`, on a regular expression that `Regex::new` makes of
/// `pattern`, which is one of those of this module. It finds whether the
/// pattern matches anywhere in the text: for each of the patterns this says
/// what that means for the characters of the text. Of `\d` it says that it
/// matches the ASCII digits, and in `ID_LIST` the same characters beyond ASCII
/// that it matches when they stand alone; which these are is not spelled out.
#[verifier::external_body]
pub(crate) fn is_match(pattern: &str, text: &str) -> (r: bool)
    requires
        pattern@ == INVALID_ESCAPE@ || pattern@ == WILDCARD@ || pattern@ == ID_LIST@ || pattern@
            == DIGIT@,
    ensures
        r == regex_is_match(pattern@, text@),
        pattern@ == INVALID_ESCAPE@ ==> r == undefined_escape(text@),
        pattern@ == WILDCARD@ ==> r == unescaped_wildcard(text@),
        pattern@ == ID_LIST@ ==> r == is_id_list(text@),
        pattern@ == DIGIT@ && text@.len() == 1 ==> r == decimal_digit(text@[0]),
{
    Regex::new(pattern).unwrap().is_match(text)
}

/// `Regex::replace_all`, on a regular expression that `Regex::new` makes of
/// `pattern`, which is one of those of `Tokens`. It goes through the text from
/// left to right, copies what the pattern does not match, and puts what
/// `Conversion::replacement` returns in the place of each match.
#[verifier::external_body]
pub(crate) fn replace_all<'t>(pattern: &str, text: &'t str, conversion: &Conversion) -> (r: Cow<
    't,
    str,
>)
    requires
        exists|tokens: Tokens| pattern@ == #[trigger] tokens.pattern(),
        forall|tokens: Tokens|
            pattern@ == #[trigger] tokens.pattern() ==> all_accepted(
                tokens,
                text@,
                conversion@,
            ),
    ensures
        forall|tokens: Tokens|
            pattern@ == #[trigger] tokens.pattern() ==> r@ == replaced(
                tokens,
                text@,
                conversion@,
            ),
{
    Regex::new(pattern).unwrap().replace_all(
        text,
        |found: &Captures| conversion.replacement(&found[0]),
    )
}

/// `regex::escape` puts a backslash before each meta character.
pub assume_specification[ regex::escape ](pattern: &str) -> (r: String)
    ensures
        r@ == quoted(pattern@),
;

/// What becomes of a token: a part of an SQL pattern, a part of a regular
/// expression with the given wildcard, or the character that was escaped.
pub enum Conversion<'a> {
    Glob,
    Re(&'a str),
    Plain,
}

impl<'a> View for Conversion<'a> {
    type V = ConversionView;

    open spec fn view(&self) -> ConversionView {
        match self {
            Conversion::Glob => ConversionView::Glob,
            Conversion::Re(wildcard) => ConversionView::Re(wildcard@),
            Conversion::Plain => ConversionView::Plain,
        }
    }
}

impl<'a> Conversion<'a> {
    /// What stands in the place of a token.
    pub fn replacement(&self, token: &str) -> (r: String)
        requires
            self@.accepts(token@),
        ensures
            r@ == self@.replacement(token@),
    {
        let a = chars_of(token);
        match self {
            Conversion::Glob => {
                if a.len() == 1 {
                    if a[0] == '*' {
                        assert(token@ =~= seq!['*']);
                        proof {
                            reveal_strlit("%");
                        }
                        assert("%"@ =~= seq!['%']);
                        "%".to_owned()
                    } else {
                        assert(token@ =~= seq!['%']);
                        proof {
                            reveal_strlit("\\%");
                        }
                        assert("\\%"@ =~= seq!['\\', '%']);
                        "\\%".to_owned()
                    }
                } else if a[1] == '\\' || a[1] == '_' {
                    assert(token@ =~= seq!['\\', token@[1]]);
                    token.to_owned()
                } else {
                    assert(token@.skip(1) =~= token@.subrange(1, 2));
                    token.substring_char(1, 2).to_owned()
                }
            },
            Conversion::Re(wildcard) => {
                if a.len() == 1 && a[0] == '*' {
                    assert(token@ =~= seq!['*']);
                    let mut re = (*wildcard).to_owned();
                    proof {
                        reveal_strlit("*");
                    }
                    re.append("*");
                    assert(re@ =~= wildcard@.push('*'));
                    re
                } else if a.len() == 1 && a[0] == '_' {
                    assert(token@ =~= seq!['_']);
                    (*wildcard).to_owned()
                } else if a.len() == 2 && a[0] == '\\' && (a[1] == '"' || a[1] == ':' || a[1]
                    == '_') {
                    assert(token@ =~= seq!['\\', token@[1]]);
                    assert(token@.skip(1) =~= token@.subrange(1, 2));
                    token.substring_char(1, 2).to_owned()
                } else if a.len() == 2 && a[0] == '\\' && (a[1] == '\\' || a[1] == '*' || a[1]
                    == '(' || a[1] == ')') {
                    assert(token@ =~= seq!['\\', token@[1]]);
                    token.to_owned()
                } else {
                    regex::escape(token)
                }
            },
            Conversion::Plain => {
                assert(token@.skip(1) =~= token@.subrange(1, token@.len() as int));
                token.substring_char(1, a.len()).to_owned()
            },
        }
    }
}

} // verus!
