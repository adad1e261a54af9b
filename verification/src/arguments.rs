//! Which arguments a key takes, and what each of them asks for.

#[allow(unused_imports)]
use crate::ast::{DeckID, NoteTypeID, PropertyView, SearchView, StateKind, TemplateView};
#[allow(unused_imports)]
use crate::escapes::{quotes_unescaped, to_custom_re, to_enforced_re, to_glob, to_re};
#[allow(unused_imports)]
use crate::laws::{is_keyword, law_other_keys_are_fields};
#[allow(unused_imports)]
use crate::literals::{escape_quotes, law_escaped_quotes};
#[allow(unused_imports)]
use crate::numbers::{i64_value, u16_value};
#[allow(unused_imports)]
use crate::numerals::{
    is_float_numeral, is_signed_numeral, is_unsigned_numeral, law_float_numerals, law_i32_numerals,
    law_i64_numerals, law_u16_numerals, law_u32_numerals, law_u8_numerals, lemma_float_start,
    lemma_numeral_chars,
};
#[allow(unused_imports)]
use crate::regexes::is_id_list;
#[allow(unused_imports)]
use crate::strings::{has_prefix, law_position, lemma_position, lowercase, position};
#[allow(unused_imports)]
use crate::terms::{
    argument_search, ascii_white_space, property_name, property_operator, property_value,
};
use vstd::prelude::*;

verus! {

/// The keywords differ in their length or in their first two letters.
proof fn lemma_keywords_differ()
    ensures
        "added"@.len() == 5 && "added"@[0] == 'a',
        "edited"@.len() == 6,
        "deck"@.len() == 4 && "deck"@[0] == 'd' && "deck"@[1] == 'e',
        "note"@.len() == 4 && "note"@[0] == 'n',
        "tag"@.len() == 3 && "tag"@[0] == 't',
        "mid"@.len() == 3 && "mid"@[0] == 'm',
        "nid"@.len() == 3 && "nid"@[0] == 'n',
        "cid"@.len() == 3 && "cid"@[0] == 'c',
        "did"@.len() == 3 && "did"@[0] == 'd',
        "card"@.len() == 4 && "card"@[0] == 'c',
        "is"@.len() == 2 && "is"@[0] == 'i',
        "flag"@.len() == 4 && "flag"@[0] == 'f',
        "rated"@.len() == 5 && "rated"@[0] == 'r',
        "dupe"@.len() == 4 && "dupe"@[0] == 'd' && "dupe"@[1] == 'u',
        "dupes"@.len() == 5 && "dupes"@[0] == 'd',
        "prop"@.len() == 4 && "prop"@[0] == 'p',
        "re"@.len() == 2 && "re"@[0] == 'r',
        "nc"@.len() == 2 && "nc"@[0] == 'n',
        "w"@.len() == 1,
{
    reveal_strlit("added");
    reveal_strlit("edited");
    reveal_strlit("deck");
    reveal_strlit("note");
    reveal_strlit("tag");
    reveal_strlit("mid");
    reveal_strlit("nid");
    reveal_strlit("cid");
    reveal_strlit("did");
    reveal_strlit("card");
    reveal_strlit("is");
    reveal_strlit("flag");
    reveal_strlit("rated");
    reveal_strlit("dupe");
    reveal_strlit("dupes");
    reveal_strlit("prop");
    reveal_strlit("re");
    reveal_strlit("nc");
    reveal_strlit("w");
}

/// `added:` and `edited:` take a number of days, any that is below 2^32.
pub proof fn law_days(key: Seq<char>, val: Seq<char>, days: u32)
    ensures
        lowercase(key) == "added"@ ==> {
            &&& (argument_search(key, val) == Some(SearchView::AddedInDays(days)))
                == is_unsigned_numeral(val, days as nat)
            &&& argument_search(key, val) matches Some(search) ==> search is AddedInDays
        },
        lowercase(key) == "edited"@ ==> {
            &&& (argument_search(key, val) == Some(SearchView::EditedInDays(days)))
                == is_unsigned_numeral(val, days as nat)
            &&& argument_search(key, val) matches Some(search) ==> search is EditedInDays
        },
{
    lemma_keywords_differ();
    law_u32_numerals(val, days);
}

/// `mid:` and `did:` take an identifier, any that fits 64 bits with its sign.
pub proof fn law_ids(key: Seq<char>, val: Seq<char>, id: i64)
    ensures
        lowercase(key) == "mid"@ ==> {
            &&& (argument_search(key, val) == Some(SearchView::NoteTypeID(NoteTypeID(id))))
                == is_signed_numeral(val, id as int)
            &&& argument_search(key, val) matches Some(search) ==> search is NoteTypeID
        },
        lowercase(key) == "did"@ ==> {
            &&& (argument_search(key, val) == Some(SearchView::DeckID(DeckID(id))))
                == is_signed_numeral(val, id as int)
            &&& argument_search(key, val) matches Some(search) ==> search is DeckID
        },
{
    lemma_keywords_differ();
    law_i64_numerals(val, id);
}

/// `flag:` takes a number from 0 to 4.
pub proof fn law_flags(key: Seq<char>, val: Seq<char>, flag: u8)
    requires
        lowercase(key) == "flag"@,
    ensures
        (argument_search(key, val) == Some(SearchView::Flag(flag))) == (flag <= 4
            && is_unsigned_numeral(val, flag as nat)),
        argument_search(key, val) matches Some(search) ==> search is Flag,
{
    lemma_keywords_differ();
    law_u8_numerals(val, flag);
}

/// The word for a card state.
pub open spec fn state_word(kind: StateKind) -> Seq<char> {
    match kind {
        StateKind::New => "new"@,
        StateKind::Review => "review"@,
        StateKind::Learning => "learn"@,
        StateKind::Due => "due"@,
        StateKind::Buried => "buried"@,
        StateKind::UserBuried => "buried-manually"@,
        StateKind::SchedBuried => "buried-sibling"@,
        StateKind::Suspended => "suspended"@,
    }
}

/// `is:` takes the word for a card state.
pub proof fn law_states(key: Seq<char>, val: Seq<char>, kind: StateKind)
    requires
        lowercase(key) == "is"@,
    ensures
        (argument_search(key, val) == Some(SearchView::State(kind))) == (val == state_word(kind)),
        argument_search(key, val) matches Some(search) ==> search is State,
{
    lemma_keywords_differ();
    reveal_strlit("new");
    reveal_strlit("review");
    reveal_strlit("learn");
    reveal_strlit("due");
    reveal_strlit("buried");
    reveal_strlit("buried-manually");
    reveal_strlit("buried-sibling");
    reveal_strlit("suspended");
    assert("new"@[0] == 'n');
    assert("due"@[0] == 'd');
    assert("review"@[0] == 'r');
    assert("buried"@[0] == 'b');
}

/// Whether a string is a number of days and, if an ease is given, a colon and
/// that ease, which is at most 4.
pub open spec fn is_rating(val: Seq<char>, days: u32, ease: Option<u8>) -> bool {
    match ease {
        None => is_unsigned_numeral(val, days as nat),
        Some(ease) => ease <= 4 && exists|i: int|
            0 <= i < val.len() && #[trigger] val[i] == ':' && is_unsigned_numeral(
                val.take(i),
                days as nat,
            ) && is_unsigned_numeral(val.skip(i + 1), ease as nat),
    }
}

/// `rated:` takes a number of days, and maybe a colon and an ease from 0 to 4.
pub proof fn law_ratings(key: Seq<char>, val: Seq<char>, days: u32, ease: Option<u8>)
    requires
        lowercase(key) == "rated"@,
    ensures
        (argument_search(key, val) == Some(SearchView::Rated { days, ease })) == is_rating(
            val,
            days,
            ease,
        ),
        argument_search(key, val) matches Some(search) ==> search is Rated,
{
    lemma_keywords_differ();
    lemma_position(val, ':');
    let colon = position(val, ':');
    law_u32_numerals(val.take(colon), days);
    if let Some(ease) = ease {
        law_u8_numerals(val.skip(colon + 1), ease);
        if is_rating(val, days, Some(ease)) {
            let i = choose|i: int|
                0 <= i < val.len() && #[trigger] val[i] == ':' && is_unsigned_numeral(
                    val.take(i),
                    days as nat,
                ) && is_unsigned_numeral(val.skip(i + 1), ease as nat);
            lemma_numeral_chars(val.take(i), days as int);
            law_position(val.take(i), ':', val.skip(i + 1));
            assert(val.take(i) + seq![':'] + val.skip(i + 1) =~= val);
        }
    } else {
        if is_unsigned_numeral(val, days as nat) {
            lemma_numeral_chars(val, days as int);
            law_position(val, ':', val);
        }
        assert(val.take(val.len() as int) =~= val);
    }
}

/// A number of days alone is rated with any ease, and with a colon and an ease
/// behind it with that ease.
pub proof fn law_rating_written(
    key: Seq<char>,
    days_text: Seq<char>,
    days: u32,
    ease_text: Seq<char>,
    ease: u8,
)
    requires
        lowercase(key) == "rated"@,
        is_unsigned_numeral(days_text, days as nat),
        is_unsigned_numeral(ease_text, ease as nat),
        ease <= 4,
    ensures
        argument_search(key, days_text) == Some(SearchView::Rated { days, ease: None }),
        argument_search(key, days_text + seq![':'] + ease_text) == Some(
            SearchView::Rated { days, ease: Some(ease) },
        ),
{
    law_ratings(key, days_text, days, None);
    let val = days_text + seq![':'] + ease_text;
    let n = days_text.len() as int;
    assert(val.take(n) =~= days_text);
    assert(val.skip(n + 1) =~= ease_text);
    assert(val[n] == ':');
    law_ratings(key, val, days, Some(ease));
}

/// `dupe:` and `dupes:` take the identifier of a note type, any that fits 64
/// bits with its sign, a comma, and a text, in which quotes are escaped.
pub proof fn law_duplicates(
    key: Seq<char>,
    id_text: Seq<char>,
    id: i64,
    text: Seq<char>,
)
    requires
        lowercase(key) == "dupe"@ || lowercase(key) == "dupes"@,
        is_signed_numeral(id_text, id as int),
    ensures
        argument_search(key, id_text + seq![','] + escape_quotes(text)) == Some(
            SearchView::Duplicates { note_type_id: NoteTypeID(id), text },
        ),
        argument_search(key, id_text + seq![','] + text) == Some(
            SearchView::Duplicates { note_type_id: NoteTypeID(id), text: quotes_unescaped(text) },
        ),
        argument_search(key, id_text) is None,
{
    lemma_keywords_differ();
    lemma_numeral_chars(id_text, id as int);
    law_i64_numerals(id_text, id);
    law_escaped_quotes(text);
    let n = id_text.len() as int;
    let escaped = escape_quotes(text);
    law_position(id_text, ',', escaped);
    let val = id_text + seq![','] + escaped;
    assert(val.take(n) =~= id_text);
    assert(val.skip(n + 1) =~= escaped);
    law_position(id_text, ',', text);
    let val = id_text + seq![','] + text;
    assert(val.take(n) =~= id_text);
    assert(val.skip(n + 1) =~= text);
}

/// `dupe:` and `dupes:` take nothing else.
pub proof fn law_duplicates_form(key: Seq<char>, val: Seq<char>)
    requires
        lowercase(key) == "dupe"@ || lowercase(key) == "dupes"@,
    ensures
        argument_search(key, val) matches Some(search) ==> (search matches SearchView::Duplicates {
            note_type_id,
            text,
        } && exists|i: int|
            0 <= i < val.len() && #[trigger] val[i] == ',' && is_signed_numeral(
                val.take(i),
                note_type_id.0 as int,
            ) && text == quotes_unescaped(val.skip(i + 1))),
{
    lemma_keywords_differ();
    lemma_position(val, ',');
    if let Some(search) = argument_search(key, val) {
        let comma = position(val, ',');
        let id = i64_value(val.take(comma))->Some_0;
        law_i64_numerals(val.take(comma), id);
        assert(val[comma] == ',');
    }
}

/// The name of a property.
pub open spec fn property_word(kind: PropertyView) -> Seq<char> {
    match kind {
        PropertyView::Due(_) => "due"@,
        PropertyView::Interval(_) => "ivl"@,
        PropertyView::Reps(_) => "reps"@,
        PropertyView::Lapses(_) => "lapses"@,
        PropertyView::Ease(_) => "ease"@,
    }
}

/// Whether a string is the value of a property: a number that may be negative
/// for the days until a card is due, one that may have a fraction for the ease,
/// and else one without a sign.
pub open spec fn is_property_numeral(s: Seq<char>, kind: PropertyView) -> bool {
    match kind {
        PropertyView::Due(n) => is_signed_numeral(s, n as int),
        PropertyView::Interval(n) => is_unsigned_numeral(s, n as nat),
        PropertyView::Reps(n) => is_unsigned_numeral(s, n as nat),
        PropertyView::Lapses(n) => is_unsigned_numeral(s, n as nat),
        PropertyView::Ease(literal) => is_float_numeral(s) && literal == s,
    }
}

/// Whether a string is a comparison.
pub open spec fn is_comparison(s: Seq<char>) -> bool {
    ||| s == "<="@
    ||| s == ">="@
    ||| s == "!="@
    ||| s == "="@
    ||| s == "<"@
    ||| s == ">"@
}

proof fn lemma_property_words()
    ensures
        "due"@ == seq!['d', 'u', 'e'],
        "ivl"@ == seq!['i', 'v', 'l'],
        "reps"@ == seq!['r', 'e', 'p', 's'],
        "lapses"@ == seq!['l', 'a', 'p', 's', 'e', 's'],
        "ease"@ == seq!['e', 'a', 's', 'e'],
{
    reveal_strlit("due");
    reveal_strlit("ivl");
    reveal_strlit("reps");
    reveal_strlit("lapses");
    reveal_strlit("ease");
    assert("due"@ =~= seq!['d', 'u', 'e']);
    assert("ivl"@ =~= seq!['i', 'v', 'l']);
    assert("reps"@ =~= seq!['r', 'e', 'p', 's']);
    assert("lapses"@ =~= seq!['l', 'a', 'p', 's', 'e', 's']);
    assert("ease"@ =~= seq!['e', 'a', 's', 'e']);
}

proof fn lemma_comparisons()
    ensures
        "<="@ == seq!['<', '='],
        ">="@ == seq!['>', '='],
        "!="@ == seq!['!', '='],
        "="@ == seq!['='],
        "<"@ == seq!['<'],
        ">"@ == seq!['>'],
{
    reveal_strlit("<=");
    reveal_strlit(">=");
    reveal_strlit("!=");
    reveal_strlit("=");
    reveal_strlit("<");
    reveal_strlit(">");
    assert("<="@ =~= seq!['<', '=']);
    assert(">="@ =~= seq!['>', '=']);
    assert("!="@ =~= seq!['!', '=']);
    assert("="@ =~= seq!['=']);
    assert("<"@ =~= seq!['<']);
    assert(">"@ =~= seq!['>']);
}

/// A prefix decides the characters at the start.
proof fn lemma_prefix(s: Seq<char>, prefix: Seq<char>)
    ensures
        has_prefix(s, prefix) ==> forall|i: int|
            0 <= i < prefix.len() ==> s[i] == #[trigger] prefix[i],
        has_prefix(s, prefix) ==> s == prefix + s.skip(prefix.len() as int),
{
    if has_prefix(s, prefix) {
        assert forall|i: int| 0 <= i < prefix.len() implies s[i] == #[trigger] prefix[i] by {
            assert(s.take(prefix.len() as int)[i] == s[i]);
        }
        assert(s =~= prefix + s.skip(prefix.len() as int));
    }
}

proof fn lemma_property_name(name: Seq<char>, rest: Seq<char>)
    requires
        name == "due"@ || name == "ivl"@ || name == "reps"@ || name == "lapses"@ || name
            == "ease"@,
    ensures
        property_name(name + rest) == Some(name),
{
    lemma_property_words();
    let s = name + rest;
    assert(s.take(name.len() as int) =~= name);
    lemma_prefix(s, "ivl"@);
    lemma_prefix(s, "due"@);
    lemma_prefix(s, "reps"@);
    lemma_prefix(s, "lapses"@);
    lemma_prefix(s, "ease"@);
    assert(s[0] == name[0]);
    assert("ivl"@[0] == 'i' && "due"@[0] == 'd' && "reps"@[0] == 'r' && "lapses"@[0] == 'l'
        && "ease"@[0] == 'e');
}

proof fn lemma_property_operator(operator: Seq<char>, rest: Seq<char>)
    requires
        is_comparison(operator),
        rest.len() > 0 && rest[0] != '=',
    ensures
        property_operator(operator + rest) == Some(operator),
{
    lemma_comparisons();
    let s = operator + rest;
    assert(s.take(operator.len() as int) =~= operator);
    lemma_prefix(s, "<="@);
    lemma_prefix(s, ">="@);
    lemma_prefix(s, "!="@);
    lemma_prefix(s, "="@);
    lemma_prefix(s, "<"@);
    lemma_prefix(s, ">"@);
    assert(s[0] == operator[0]);
    assert(s[operator.len() as int] == rest[0]);
    assert("<="@[0] == '<' && ">="@[0] == '>' && "!="@[0] == '!' && "="@[0] == '=' && "<"@[0]
        == '<' && ">"@[0] == '>');
    assert("<="@[1] == '=' && ">="@[1] == '=' && "!="@[1] == '=');
    if operator.len() == 2 {
        assert(s[1] == operator[1]);
    }
}

proof fn lemma_property_value(s: Seq<char>, kind: PropertyView)
    ensures
        (property_value(property_word(kind), s) == Some(kind)) == is_property_numeral(s, kind),
{
    lemma_property_words();
    assert("due"@[0] == 'd' && "ivl"@[0] == 'i' && "reps"@[0] == 'r' && "lapses"@[0] == 'l'
        && "ease"@[0] == 'e');
    match kind {
        PropertyView::Due(n) => law_i32_numerals(s, n),
        PropertyView::Interval(n) => law_u32_numerals(s, n),
        PropertyView::Reps(n) => law_u32_numerals(s, n),
        PropertyView::Lapses(n) => law_u32_numerals(s, n),
        PropertyView::Ease(_) => law_float_numerals(s),
    }
}

/// The value that is read for a name is one of that name.
proof fn lemma_property_kind(s: Seq<char>, name: Seq<char>, operator: Seq<char>)
    requires
        property_name(s) == Some(name),
        property_operator(s.skip(name.len() as int)) == Some(operator),
    ensures
        s == name + operator + s.skip(name.len() as int).skip(operator.len() as int),
        is_comparison(operator),
        forall|number: Seq<char>|
            (#[trigger] property_value(name, number)) matches Some(kind) ==> property_word(kind)
                == name,
{
    let rest = s.skip(name.len() as int);
    lemma_prefix(s, name);
    lemma_prefix(rest, operator);
    assert(s =~= name + operator + rest.skip(operator.len() as int));
}

/// `prop:` takes the name of a property, a comparison and a value.
pub proof fn law_properties(
    key: Seq<char>,
    operator: Seq<char>,
    number: Seq<char>,
    kind: PropertyView,
)
    requires
        lowercase(key) == "prop"@,
        is_comparison(operator),
        is_property_numeral(number, kind),
    ensures
        argument_search(key, property_word(kind) + operator + number) == Some(
            SearchView::Property { operator, kind },
        ),
{
    lemma_keywords_differ();
    lemma_property_value(number, kind);
    match kind {
        PropertyView::Due(n) => lemma_numeral_chars(number, n as int),
        PropertyView::Interval(n) => lemma_numeral_chars(number, n as int),
        PropertyView::Reps(n) => lemma_numeral_chars(number, n as int),
        PropertyView::Lapses(n) => lemma_numeral_chars(number, n as int),
        PropertyView::Ease(_) => {
            law_float_numerals(number);
            lemma_float_start(number);
        },
    }
    let name = property_word(kind);
    let rest = operator + number;
    let val = name + operator + number;
    assert(val =~= name + rest);
    lemma_property_name(name, rest);
    lemma_property_operator(operator, number);
    assert(val.skip(name.len() as int) =~= rest);
    assert(rest.skip(operator.len() as int) =~= number);
}

/// `prop:` takes nothing else.
pub proof fn law_properties_form(key: Seq<char>, val: Seq<char>)
    requires
        lowercase(key) == "prop"@,
    ensures
        argument_search(key, val) matches Some(search) ==> (search matches SearchView::Property {
            operator,
            kind,
        } && is_comparison(operator) && exists|number: Seq<char>|
            #[trigger] is_property_numeral(number, kind) && val == property_word(kind) + operator
                + number),
{
    lemma_keywords_differ();
    if let Some(search) = argument_search(key, val) {
        let name = property_name(val)->Some_0;
        let rest = val.skip(name.len() as int);
        let operator = property_operator(rest)->Some_0;
        let number = rest.skip(operator.len() as int);
        let kind = property_value(name, number)->Some_0;
        lemma_property_kind(val, name, operator);
        lemma_property_value(number, kind);
    }
}

/// `card:` takes the number of a template, which counts from 1, or else a name.
pub proof fn law_templates(key: Seq<char>, val: Seq<char>, n: u16)
    requires
        lowercase(key) == "card"@,
    ensures
        is_unsigned_numeral(val, n as nat) ==> argument_search(key, val) == Some(
            SearchView::CardTemplate(
                TemplateView::Ordinal(
                    if n == 0 {
                        0
                    } else {
                        (n - 1) as u16
                    },
                ),
            ),
        ),
        (forall|n: u16| !is_unsigned_numeral(val, n as nat)) ==> match to_re(val) {
            Some(name) => argument_search(key, val) == Some(
                SearchView::CardTemplate(TemplateView::Name(name)),
            ),
            None => argument_search(key, val) is None,
        },
{
    lemma_keywords_differ();
    law_u16_numerals(val, n);
    if let Some(m) = u16_value(val) {
        law_u16_numerals(val, m);
    }
}

/// `nid:` and `cid:` take a list of numbers as it is.
pub proof fn law_id_lists(key: Seq<char>, val: Seq<char>)
    ensures
        lowercase(key) == "nid"@ ==> argument_search(key, val) == if is_id_list(val) {
            Some(SearchView::NoteIDs(val))
        } else {
            None
        },
        lowercase(key) == "cid"@ ==> argument_search(key, val) == if is_id_list(val) {
            Some(SearchView::CardIDs(val))
        } else {
            None
        },
{
    lemma_keywords_differ();
}

/// `deck:` and `w:` take a text as a regular expression, `note:` a text as it is
/// or as a regular expression, `nc:` a text as an SQL pattern, and `re:` a
/// regular expression, in which quotes are escaped.
pub proof fn law_texts(key: Seq<char>, val: Seq<char>)
    ensures
        lowercase(key) == "deck"@ ==> match to_enforced_re(val) {
            Some(re) => argument_search(key, val) == Some(SearchView::Deck(re)),
            None => argument_search(key, val) is None,
        },
        lowercase(key) == "w"@ ==> match to_enforced_re(val) {
            Some(re) => argument_search(key, val) == Some(SearchView::WordBoundary(re)),
            None => argument_search(key, val) is None,
        },
        lowercase(key) == "note"@ ==> match to_re(val) {
            Some(name) => argument_search(key, val) == Some(SearchView::NoteType(name)),
            None => argument_search(key, val) is None,
        },
        lowercase(key) == "nc"@ ==> match to_glob(val) {
            Some(text) => argument_search(key, val) == Some(SearchView::NoCombining(text)),
            None => argument_search(key, val) is None,
        },
        lowercase(key) == "re"@ ==> argument_search(key, val) == Some(
            SearchView::Regex(quotes_unescaped(val)),
        ),
{
    lemma_keywords_differ();
}

/// `tag:` takes a text without ASCII white space, in which a wildcard stands for
/// characters other than white space.
pub proof fn law_tags(key: Seq<char>, val: Seq<char>)
    requires
        lowercase(key) == "tag"@,
    ensures
        val.contains(' ') || val.contains('\t') || val.contains('\n') || val.contains('\u{c}')
            || val.contains('\r') ==> argument_search(key, val) is None,
        !val.contains(' ') && !val.contains('\t') && !val.contains('\n') && !val.contains('\u{c}')
            && !val.contains('\r') ==> match to_custom_re(val, seq!['\\', 'S']) {
            Some(tag) => argument_search(key, val) == Some(SearchView::Tag(tag)),
            None => argument_search(key, val) is None,
        },
{
    lemma_keywords_differ();
    if exists|i: int| 0 <= i < val.len() && ascii_white_space(#[trigger] val[i]) {
        let i = choose|i: int| 0 <= i < val.len() && ascii_white_space(#[trigger] val[i]);
        assert(val.contains(val[i]));
    }
}

/// Any other key is the name of a field. Its argument is a text as an SQL
/// pattern or, after `re:`, a regular expression.
pub proof fn law_fields(key: Seq<char>, val: Seq<char>)
    requires
        !is_keyword(lowercase(key)),
    ensures
        match to_re(key) {
            Some(field) => argument_search(key, "re:"@ + val) == Some(
                SearchView::SingleField { field, text: quotes_unescaped(val), is_re: true },
            ),
            None => argument_search(key, "re:"@ + val) is None,
        },
        val.len() < 3 || val.take(3) != "re:"@ ==> match (to_re(key), to_glob(val)) {
            (Some(field), Some(text)) => argument_search(key, val) == Some(
                SearchView::SingleField { field, text, is_re: false },
            ),
            _ => argument_search(key, val) is None,
        },
{
    law_other_keys_are_fields(key, val);
    reveal_strlit("re:");
    let re = "re:"@ + val;
    law_other_keys_are_fields(key, re);
    assert(re.take(3) =~= "re:"@);
    assert(re.skip(3) =~= val);
}

} // verus!
