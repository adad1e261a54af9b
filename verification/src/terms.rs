//! What a single term asks for: plain text, or a key and an argument.

use crate::ast::{
    DeckID, NoteTypeID, ParseError, ParseResult, PropertyKind, SearchNode, StateKind, TemplateKind,
};
#[allow(unused_imports)]
use crate::ast::{OptionalRe, OptionalReView, PropertyView, SearchView, TemplateView};
use crate::escapes::{
    unescape_quotes, unescape_to_custom_re, unescape_to_enforced_re, unescape_to_glob,
    unescape_to_re,
};
#[allow(unused_imports)]
use crate::escapes::{quotes_unescaped, to_custom_re, to_enforced_re, to_glob, to_re};
use crate::numbers::{is_float, parse_i32, parse_i64, parse_u16, parse_u32, parse_u8};
#[allow(unused_imports)]
use crate::numbers::{
    i32_value, i64_value, is_float_literal, u16_value, u32_value, u8_value,
};
#[allow(unused_imports)]
use crate::regexes::is_id_list;
use crate::regexes::{is_match, ID_LIST};
use crate::strings::{chars_of, find_char, is_word, same, starts_with};
#[allow(unused_imports)]
use crate::strings::{has_prefix, lowercase, position};
use vstd::prelude::*;

verus! {

/// Whether a character is ASCII white space: space, tab, line feed, form feed
/// or carriage return.
pub open spec fn ascii_white_space(c: char) -> bool {
    c == ' ' || c == '\t' || c == '\n' || c == '\u{c}' || c == '\r'
}

/// The tag search for an argument.
pub open spec fn tag_of(s: Seq<char>) -> Option<OptionalReView> {
    if exists|i: int| 0 <= i < s.len() && ascii_white_space(#[trigger] s[i]) {
        None
    } else {
        to_custom_re(s, seq!['\\', 'S'])
    }
}

/// The card state that a word names.
pub open spec fn state_of(s: Seq<char>) -> Option<StateKind> {
    if s == "new"@ {
        Some(StateKind::New)
    } else if s == "review"@ {
        Some(StateKind::Review)
    } else if s == "learn"@ {
        Some(StateKind::Learning)
    } else if s == "due"@ {
        Some(StateKind::Due)
    } else if s == "buried"@ {
        Some(StateKind::Buried)
    } else if s == "buried-manually"@ {
        Some(StateKind::UserBuried)
    } else if s == "buried-sibling"@ {
        Some(StateKind::SchedBuried)
    } else if s == "suspended"@ {
        Some(StateKind::Suspended)
    } else {
        None
    }
}

/// The flag that a number from 0 to 4 names.
pub open spec fn flag_of(s: Seq<char>) -> Option<SearchView> {
    match u8_value(s) {
        Some(n) if n <= 4 => Some(SearchView::Flag(n)),
        _ => None,
    }
}

/// A number of days, optionally with a colon and an ease from 0 to 4.
pub open spec fn rated_of(s: Seq<char>) -> Option<SearchView> {
    let colon = position(s, ':');
    match u32_value(s.take(colon)) {
        None => None,
        Some(days) => if colon == s.len() {
            Some(SearchView::Rated { days, ease: None })
        } else {
            match u8_value(s.skip(colon + 1)) {
                Some(ease) if ease < 5 => Some(SearchView::Rated { days, ease: Some(ease) }),
                _ => None,
            }
        },
    }
}

/// A note type and, after a comma, a text.
pub open spec fn dupes_of(s: Seq<char>) -> Option<SearchView> {
    let comma = position(s, ',');
    match i64_value(s.take(comma)) {
        Some(id) if comma < s.len() => Some(
            SearchView::Duplicates {
                note_type_id: NoteTypeID(id),
                text: quotes_unescaped(s.skip(comma + 1)),
            },
        ),
        _ => None,
    }
}

/// The name of a property at the start of a string.
pub open spec fn property_name(s: Seq<char>) -> Option<Seq<char>> {
    if has_prefix(s, "ivl"@) {
        Some("ivl"@)
    } else if has_prefix(s, "due"@) {
        Some("due"@)
    } else if has_prefix(s, "reps"@) {
        Some("reps"@)
    } else if has_prefix(s, "lapses"@) {
        Some("lapses"@)
    } else if has_prefix(s, "ease"@) {
        Some("ease"@)
    } else {
        None
    }
}

/// The comparison at the start of a string.
pub open spec fn property_operator(s: Seq<char>) -> Option<Seq<char>> {
    if has_prefix(s, "<="@) {
        Some("<="@)
    } else if has_prefix(s, ">="@) {
        Some(">="@)
    } else if has_prefix(s, "!="@) {
        Some("!="@)
    } else if has_prefix(s, "="@) {
        Some("="@)
    } else if has_prefix(s, "<"@) {
        Some("<"@)
    } else if has_prefix(s, ">"@) {
        Some(">"@)
    } else {
        None
    }
}

/// The value that a property is compared with.
pub open spec fn property_value(name: Seq<char>, s: Seq<char>) -> Option<PropertyView> {
    if name == "ease"@ {
        if is_float_literal(s) {
            Some(PropertyView::Ease(s))
        } else {
            None
        }
    } else if name == "due"@ {
        match i32_value(s) {
            Some(n) => Some(PropertyView::Due(n)),
            None => None,
        }
    } else {
        match u32_value(s) {
            Some(n) => Some(
                if name == "ivl"@ {
                    PropertyView::Interval(n)
                } else if name == "reps"@ {
                    PropertyView::Reps(n)
                } else {
                    PropertyView::Lapses(n)
                },
            ),
            None => None,
        }
    }
}

/// The name of a property, a comparison and a value.
pub open spec fn prop_of(s: Seq<char>) -> Option<SearchView> {
    match property_name(s) {
        None => None,
        Some(name) => {
            let rest = s.skip(name.len() as int);
            match property_operator(rest) {
                None => None,
                Some(operator) => match property_value(name, rest.skip(operator.len() as int)) {
                    Some(kind) => Some(SearchView::Property { operator, kind }),
                    None => None,
                },
            }
        },
    }
}

/// The number of a card template, which counts from 1, or its name.
pub open spec fn template_of(s: Seq<char>) -> Option<SearchView> {
    match u16_value(s) {
        Some(n) => Some(
            SearchView::CardTemplate(
                TemplateView::Ordinal(
                    if n == 0 {
                        0
                    } else {
                        (n - 1) as u16
                    },
                ),
            ),
        ),
        None => match to_re(s) {
            Some(name) => Some(SearchView::CardTemplate(TemplateView::Name(name))),
            None => None,
        },
    }
}

/// A field and the text in it, which is a regular expression after `re:`.
pub open spec fn single_field_of(key: Seq<char>, val: Seq<char>) -> Option<SearchView> {
    let is_re = has_prefix(val, "re:"@);
    let text = if is_re {
        Some(quotes_unescaped(val.skip(3)))
    } else {
        to_glob(val)
    };
    match (to_re(key), text) {
        (Some(field), Some(text)) => Some(SearchView::SingleField { field, text, is_re }),
        _ => None,
    }
}

/// The search for a key, whose case does not matter, and its argument.
pub open spec fn argument_search(key: Seq<char>, val: Seq<char>) -> Option<SearchView> {
    let word = lowercase(key);
    if word == "added"@ {
        match u32_value(val) {
            Some(n) => Some(SearchView::AddedInDays(n)),
            None => None,
        }
    } else if word == "edited"@ {
        match u32_value(val) {
            Some(n) => Some(SearchView::EditedInDays(n)),
            None => None,
        }
    } else if word == "deck"@ {
        match to_enforced_re(val) {
            Some(re) => Some(SearchView::Deck(re)),
            None => None,
        }
    } else if word == "note"@ {
        match to_re(val) {
            Some(name) => Some(SearchView::NoteType(name)),
            None => None,
        }
    } else if word == "tag"@ {
        match tag_of(val) {
            Some(tag) => Some(SearchView::Tag(tag)),
            None => None,
        }
    } else if word == "mid"@ {
        match i64_value(val) {
            Some(id) => Some(SearchView::NoteTypeID(NoteTypeID(id))),
            None => None,
        }
    } else if word == "nid"@ {
        if is_id_list(val) {
            Some(SearchView::NoteIDs(val))
        } else {
            None
        }
    } else if word == "cid"@ {
        if is_id_list(val) {
            Some(SearchView::CardIDs(val))
        } else {
            None
        }
    } else if word == "did"@ {
        match i64_value(val) {
            Some(id) => Some(SearchView::DeckID(DeckID(id))),
            None => None,
        }
    } else if word == "card"@ {
        template_of(val)
    } else if word == "is"@ {
        match state_of(val) {
            Some(kind) => Some(SearchView::State(kind)),
            None => None,
        }
    } else if word == "flag"@ {
        flag_of(val)
    } else if word == "rated"@ {
        rated_of(val)
    } else if word == "dupe"@ || word == "dupes"@ {
        dupes_of(val)
    } else if word == "prop"@ {
        prop_of(val)
    } else if word == "re"@ {
        Some(SearchView::Regex(quotes_unescaped(val)))
    } else if word == "nc"@ {
        match to_glob(val) {
            Some(text) => Some(SearchView::NoCombining(text)),
            None => None,
        }
    } else if word == "w"@ {
        match to_enforced_re(val) {
            Some(re) => Some(SearchView::WordBoundary(re)),
            None => None,
        }
    } else {
        single_field_of(key, val)
    }
}

/// Whether the outcome of a search for a term has the given value.
pub open spec fn is_search(r: ParseResult<SearchNode>, value: Option<SearchView>) -> bool {
    match r {
        Ok(search) => value == Some(search@),
        Err(_) => value is None,
    }
}

/// Convert a colon-separated key/val pair into the relevant search type.
pub fn search_node_for_text_with_argument<'a>(key: &'a str, val: &'a str) -> (r: ParseResult<
    SearchNode<'a>,
>)
    ensures
        is_search(r, argument_search(key@, val@)),
{
    if is_word(key, "added") {
        match parse_u32(val) {
            Some(n) => Ok(SearchNode::AddedInDays(n)),
            None => Err(ParseError {  }),
        }
    } else if is_word(key, "edited") {
        match parse_u32(val) {
            Some(n) => Ok(SearchNode::EditedInDays(n)),
            None => Err(ParseError {  }),
        }
    } else if is_word(key, "deck") {
        match unescape_to_enforced_re(val) {
            Ok(re) => Ok(SearchNode::Deck(re)),
            Err(e) => Err(e),
        }
    } else if is_word(key, "note") {
        match unescape_to_re(val) {
            Ok(name) => Ok(SearchNode::NoteType(name)),
            Err(e) => Err(e),
        }
    } else if is_word(key, "tag") {
        match parse_tag(val) {
            Ok(tag) => Ok(SearchNode::Tag(tag)),
            Err(e) => Err(e),
        }
    } else if is_word(key, "mid") {
        match parse_i64(val) {
            Some(id) => Ok(SearchNode::NoteTypeID(NoteTypeID(id))),
            None => Err(ParseError {  }),
        }
    } else if is_word(key, "nid") {
        match check_id_list(val) {
            Ok(ids) => Ok(SearchNode::NoteIDs(ids)),
            Err(e) => Err(e),
        }
    } else if is_word(key, "cid") {
        match check_id_list(val) {
            Ok(ids) => Ok(SearchNode::CardIDs(ids)),
            Err(e) => Err(e),
        }
    } else if is_word(key, "did") {
        match parse_i64(val) {
            Some(id) => Ok(SearchNode::DeckID(DeckID(id))),
            None => Err(ParseError {  }),
        }
    } else if is_word(key, "card") {
        parse_template(val)
    } else if is_word(key, "is") {
        parse_state(val)
    } else if is_word(key, "flag") {
        parse_flag(val)
    } else if is_word(key, "rated") {
        parse_rated(val)
    } else if is_word(key, "dupe") || is_word(key, "dupes") {
        parse_dupes(val)
    } else if is_word(key, "prop") {
        parse_prop(val)
    } else if is_word(key, "re") {
        Ok(SearchNode::Regex(unescape_quotes(val)))
    } else if is_word(key, "nc") {
        match unescape_to_glob(val) {
            Ok(text) => Ok(SearchNode::NoCombining(text)),
            Err(e) => Err(e),
        }
    } else if is_word(key, "w") {
        match unescape_to_enforced_re(val) {
            Ok(re) => Ok(SearchNode::WordBoundary(re)),
            Err(e) => Err(e),
        }
    } else {
        // anything else is a field search
        parse_single_field(key, val)
    }
}

/// Ensure the string doesn't contain whitespace and unescape.
pub fn parse_tag(s: &str) -> (r: ParseResult<OptionalRe<'_>>)
    ensures
        match r {
            Ok(tag) => tag_of(s@) == Some(tag@),
            Err(_) => tag_of(s@) is None,
        },
{
    let a = chars_of(s);
    let mut i: usize = 0;
    while i < a.len()
        invariant
            i <= a.len(),
            a@ == s@,
            forall|j: int| 0 <= j < i ==> !ascii_white_space(#[trigger] s@[j]),
        decreases a.len() - i,
    {
        let c = a[i];
        if c == ' ' || c == '\t' || c == '\n' || c == '\u{c}' || c == '\r' {
            assert(ascii_white_space(s@[i as int]));
            return Err(ParseError {  });
        }
        i += 1;
    }
    proof {
        reveal_strlit(r"\S");
        assert(r"\S"@ =~= seq!['\\', 'S']);
    }
    unescape_to_custom_re(s, r"\S")
}

/// ensure a list of ids contains only numbers and commas, returning unchanged if true
/// used by nid: and cid:
pub fn check_id_list(s: &str) -> (r: ParseResult<&str>)
    ensures
        match r {
            Ok(ids) => is_id_list(s@) && ids@ == s@,
            Err(_) => !is_id_list(s@),
        },
{
    if is_match(ID_LIST, s) {
        Ok(s)
    } else {
        Err(ParseError {  })
    }
}

/// eg is:due
pub fn parse_state(s: &str) -> (r: ParseResult<SearchNode<'static>>)
    ensures
        is_search(
            r,
            match state_of(s@) {
                Some(kind) => Some(SearchView::State(kind)),
                None => None,
            },
        ),
{
    let kind = if same(s, "new") {
        StateKind::New
    } else if same(s, "review") {
        StateKind::Review
    } else if same(s, "learn") {
        StateKind::Learning
    } else if same(s, "due") {
        StateKind::Due
    } else if same(s, "buried") {
        StateKind::Buried
    } else if same(s, "buried-manually") {
        StateKind::UserBuried
    } else if same(s, "buried-sibling") {
        StateKind::SchedBuried
    } else if same(s, "suspended") {
        StateKind::Suspended
    } else {
        return Err(ParseError {  });
    };
    Ok(SearchNode::State(kind))
}

/// flag:0-4
pub fn parse_flag(s: &str) -> (r: ParseResult<SearchNode<'static>>)
    ensures
        is_search(r, flag_of(s@)),
{
    match parse_u8(s) {
        Some(n) => {
            if n > 4 {
                Err(ParseError {  })
            } else {
                Ok(SearchNode::Flag(n))
            }
        },
        None => Err(ParseError {  }),
    }
}

/// eg rated:3 or rated:10:2
/// second arg must be between 0-4
pub fn parse_rated(val: &str) -> (r: ParseResult<SearchNode<'static>>)
    ensures
        is_search(r, rated_of(val@)),
{
    let len: usize = val.unicode_len();
    let colon = find_char(val, ':');
    assert(val@.take(colon as int) =~= val@.subrange(0, colon as int));
    let days = match parse_u32(val.substring_char(0, colon)) {
        Some(days) => days,
        None => return Err(ParseError {  }),
    };
    let ease = if colon < len {
        assert(val@.skip(colon + 1) =~= val@.subrange(colon + 1, len as int));
        match parse_u8(val.substring_char(colon + 1, len)) {
            Some(n) => {
                if n < 5 {
                    Some(n)
                } else {
                    return Err(ParseError {  });
                }
            },
            None => return Err(ParseError {  }),
        }
    } else {
        None
    };
    Ok(SearchNode::Rated { days, ease })
}

/// eg dupes:1231,hello
pub fn parse_dupes(val: &str) -> (r: ParseResult<SearchNode<'_>>)
    ensures
        is_search(r, dupes_of(val@)),
{
    let len: usize = val.unicode_len();
    let comma = find_char(val, ',');
    assert(val@.take(comma as int) =~= val@.subrange(0, comma as int));
    let mid = match parse_i64(val.substring_char(0, comma)) {
        Some(id) => NoteTypeID(id),
        None => return Err(ParseError {  }),
    };
    if comma == len {
        return Err(ParseError {  });
    }
    assert(val@.skip(comma + 1) =~= val@.subrange(comma + 1, len as int));
    let text = val.substring_char(comma + 1, len);
    Ok(SearchNode::Duplicates { note_type_id: mid, text: unescape_quotes(text) })
}

/// The rest of a string after a prefix.
fn after<'a>(s: &'a str, prefix: &str) -> (r: &'a str)
    requires
        has_prefix(s@, prefix@),
    ensures
        r@ == s@.skip(prefix@.len() as int),
{
    assert(s@.skip(prefix@.len() as int) =~= s@.subrange(
        prefix@.len() as int,
        s@.len() as int,
    ));
    s.substring_char(prefix.unicode_len(), s.unicode_len())
}

/// eg prop:ivl>3, prop:ease!=2.5
pub fn parse_prop(val: &str) -> (r: ParseResult<SearchNode<'static>>)
    ensures
        is_search(r, prop_of(val@)),
{
    let key = if starts_with(val, "ivl") {
        "ivl"
    } else if starts_with(val, "due") {
        "due"
    } else if starts_with(val, "reps") {
        "reps"
    } else if starts_with(val, "lapses") {
        "lapses"
    } else if starts_with(val, "ease") {
        "ease"
    } else {
        return Err(ParseError {  });
    };
    let val = after(val, key);

    let operator = if starts_with(val, "<=") {
        "<="
    } else if starts_with(val, ">=") {
        ">="
    } else if starts_with(val, "!=") {
        "!="
    } else if starts_with(val, "=") {
        "="
    } else if starts_with(val, "<") {
        "<"
    } else if starts_with(val, ">") {
        ">"
    } else {
        return Err(ParseError {  });
    };
    let val = after(val, operator);

    let kind = if same(key, "ease") {
        if !is_float(val) {
            return Err(ParseError {  });
        }
        PropertyKind::Ease(val.to_owned())
    } else if same(key, "due") {
        match parse_i32(val) {
            Some(num) => PropertyKind::Due(num),
            None => return Err(ParseError {  }),
        }
    } else {
        match parse_u32(val) {
            Some(num) => {
                if same(key, "ivl") {
                    PropertyKind::Interval(num)
                } else if same(key, "reps") {
                    PropertyKind::Reps(num)
                } else {
                    PropertyKind::Lapses(num)
                }
            },
            None => return Err(ParseError {  }),
        }
    };

    Ok(SearchNode::Property { operator: operator.to_owned(), kind })
}

/// eg card:front, or card:2 for the second template
pub fn parse_template(val: &str) -> (r: ParseResult<SearchNode<'_>>)
    ensures
        is_search(r, template_of(val@)),
{
    match parse_u16(val) {
        Some(n) => {
            let ordinal: u16 = if n == 0 { 0 } else { n - 1 };
            Ok(SearchNode::CardTemplate(TemplateKind::Ordinal(ordinal)))
        },
        None => match unescape_to_re(val) {
            Ok(name) => Ok(SearchNode::CardTemplate(TemplateKind::Name(name))),
            Err(e) => Err(e),
        },
    }
}

/// eg front:text or front:re:text
pub fn parse_single_field<'a>(key: &'a str, val: &'a str) -> (r: ParseResult<SearchNode<'a>>)
    ensures
        is_search(r, single_field_of(key@, val@)),
{
    let field = match unescape_to_re(key) {
        Ok(field) => field,
        Err(e) => return Err(e),
    };
    if starts_with(val, "re:") {
        proof {
            reveal_strlit("re:");
        }
        let text = unescape_quotes(after(val, "re:"));
        Ok(SearchNode::SingleField { field, text, is_re: true })
    } else {
        match unescape_to_glob(val) {
            Ok(text) => Ok(SearchNode::SingleField { field, text, is_re: false }),
            Err(e) => Err(e),
        }
    }
}

} // verus!
