use anki_search::ast::OptionalRe::{Re, Text};
use anki_search::ast::{
    DeckID, NoteTypeID, ParseError, PropertyKind, SearchNode, StateKind, TemplateKind,
};
use anki_search::grammar::search_node_for_text;
use anki_search::numbers::{is_float, parse_i32, parse_i64, parse_u16, parse_u32, parse_u8};
use anki_search::strings::trim;
use anki_search::terms::{
    check_id_list, parse_dupes, parse_flag, parse_prop, parse_rated, parse_single_field,
    parse_state, parse_tag, parse_template, search_node_for_text_with_argument,
};

#[test]
fn integers() {
    for s in [
        "", "+", "-", "0", "-0", "+0", "00", "7", "+7", "-7", "--7", "+-7", "7 ", " 7", "7a", "1_0",
        "255", "256", "+255", "-255", "0255", "65535", "65536", "4294967295", "4294967296",
        "2147483647", "2147483648", "-2147483648", "-2147483649", "9223372036854775807",
        "9223372036854775808", "-9223372036854775808", "-9223372036854775809",
        "99999999999999999999999999999999", "-99999999999999999999999999999999", "\u{661}", "1.0",
    ] {
        assert_eq!(parse_u8(s), s.parse::<u8>().ok(), "{:?}", s);
        assert_eq!(parse_u16(s), s.parse::<u16>().ok(), "{:?}", s);
        assert_eq!(parse_u32(s), s.parse::<u32>().ok(), "{:?}", s);
        assert_eq!(parse_i32(s), s.parse::<i32>().ok(), "{:?}", s);
        assert_eq!(parse_i64(s), s.parse::<i64>().ok(), "{:?}", s);
    }
}

#[test]
fn float_literals() {
    for s in [
        "", "+", "-", ".", "+.", "5", "5.", ".5", "5.5", "-5.5", "+.5", "5..5", "5.5.5", "e5",
        "5e", "5e5", "5E5", "5e+5", "5e-5", "5e+", "5e5.5", ".e5", "5.e5", ".5e5", "inf", "Inf",
        "-INF", "infinity", "+Infinity", "infinit", "nan", "NaN", "-nan", "nanx", " 5", "5 ", "1_0",
        "0x5", "--5", "5f", "\u{661}", "1e400", "123456789012345678901234567890",
    ] {
        assert_eq!(is_float(s), s.parse::<f32>().is_ok(), "{:?}", s);
    }
}

#[test]
fn trimming() {
    for s in [
        "", " ", "a", " a ", "\t\n\u{b}\u{c}\r a b \r\n", "\u{85}a\u{a0}", "\u{3000}a\u{2003}b\u{2029}",
        "\u{200b}a\u{200b}", "\u{1}a\u{1f}", "\u{1680}\u{202f}\u{205f}",
    ] {
        assert_eq!(trim(s), s.trim(), "{:?}", s);
    }
    let white = "\u{9}\u{a}\u{b}\u{c}\u{d} \u{85}\u{a0}\u{1680}\u{2000}\u{2001}\u{2002}\u{2003}\u{2004}\
        \u{2005}\u{2006}\u{2007}\u{2008}\u{2009}\u{200a}\u{2028}\u{2029}\u{202f}\u{205f}\u{3000}";
    for c in '\0'..='\u{10ffff}' {
        assert_eq!(trim(&c.to_string()).is_empty(), white.contains(c), "{:?}", c);
    }
}

#[test]
fn tags() {
    assert_eq!(parse_tag("hard").unwrap(), Text("hard".into()));
    assert_eq!(parse_tag("h*d_").unwrap(), Re(r"h\S*d\S".into()));
    assert_eq!(parse_tag(r"h\*").unwrap(), Text("h*".into()));
    assert_eq!(parse_tag("").unwrap(), Text("".into()));
    for s in ["a b", "\t", "a\n", "\u{c}b", "a\r"] {
        assert_eq!(parse_tag(s), Err(ParseError {}));
    }
    assert!(parse_tag("a\u{b}b").is_ok());
    assert!(parse_tag("a\u{3000}b").is_ok());
    assert!(parse_tag(r"\x").is_err());
}

#[test]
fn id_lists() {
    for s in ["1", "12", "1,2", "1237123712,2,3", "\u{661}\u{662},3"] {
        assert_eq!(check_id_list(s), Ok(s));
    }
    for s in ["", ",", "1,", ",1", "1,,2", "1 2", "1, 2", "a", "1a", "-1", "1\n", "\u{b2}"] {
        assert_eq!(check_id_list(s), Err(ParseError {}), "{:?}", s);
    }
}

#[test]
fn states() {
    for (s, kind) in [
        ("new", StateKind::New),
        ("review", StateKind::Review),
        ("learn", StateKind::Learning),
        ("due", StateKind::Due),
        ("buried", StateKind::Buried),
        ("buried-manually", StateKind::UserBuried),
        ("buried-sibling", StateKind::SchedBuried),
        ("suspended", StateKind::Suspended),
    ] {
        assert_eq!(parse_state(s), Ok(SearchNode::State(kind)));
    }
    for s in ["", "New", "learning", "buried-", "due "] {
        assert_eq!(parse_state(s), Err(ParseError {}));
    }
}

#[test]
fn flags() {
    for n in 0..=4 {
        assert_eq!(parse_flag(&n.to_string()), Ok(SearchNode::Flag(n)));
    }
    assert_eq!(parse_flag("+4"), Ok(SearchNode::Flag(4)));
    for s in ["", "5", "-1", "256", "a"] {
        assert_eq!(parse_flag(s), Err(ParseError {}));
    }
}

#[test]
fn ratings() {
    assert_eq!(parse_rated("3"), Ok(SearchNode::Rated { days: 3, ease: None }));
    assert_eq!(
        parse_rated("10:2"),
        Ok(SearchNode::Rated { days: 10, ease: Some(2) })
    );
    assert_eq!(
        parse_rated("10:0"),
        Ok(SearchNode::Rated { days: 10, ease: Some(0) })
    );
    assert_eq!(
        parse_rated("10:4"),
        Ok(SearchNode::Rated { days: 10, ease: Some(4) })
    );
    for s in ["", ":", "10:", ":2", "10:5", "10:2:1", "10:-1", "-1", "4294967296"] {
        assert_eq!(parse_rated(s), Err(ParseError {}), "{:?}", s);
    }
}

#[test]
fn duplicates() {
    assert_eq!(
        parse_dupes("1231,hello"),
        Ok(SearchNode::Duplicates { note_type_id: NoteTypeID(1231), text: "hello".into() })
    );
    assert_eq!(
        parse_dupes(r#"-1,a,b\"*"#),
        Ok(SearchNode::Duplicates { note_type_id: NoteTypeID(-1), text: "a,b\"*".into() })
    );
    assert_eq!(
        parse_dupes("1,"),
        Ok(SearchNode::Duplicates { note_type_id: NoteTypeID(1), text: "".into() })
    );
    for s in ["", ",", "1231", ",hello", "x,hello"] {
        assert_eq!(parse_dupes(s), Err(ParseError {}), "{:?}", s);
    }
}

fn property(operator: &str, kind: PropertyKind) -> Result<SearchNode<'static>, ParseError> {
    Ok(SearchNode::Property { operator: operator.into(), kind })
}

#[test]
fn properties() {
    assert_eq!(parse_prop("ivl>3"), property(">", PropertyKind::Interval(3)));
    assert_eq!(parse_prop("ivl>=3"), property(">=", PropertyKind::Interval(3)));
    assert_eq!(parse_prop("due<-3"), property("<", PropertyKind::Due(-3)));
    assert_eq!(parse_prop("due<=3"), property("<=", PropertyKind::Due(3)));
    assert_eq!(parse_prop("reps=3"), property("=", PropertyKind::Reps(3)));
    assert_eq!(parse_prop("lapses!=3"), property("!=", PropertyKind::Lapses(3)));
    assert_eq!(parse_prop("ease!=2.5"), property("!=", PropertyKind::Ease("2.5".into())));
    assert_eq!(parse_prop("ease=-inf"), property("=", PropertyKind::Ease("-inf".into())));
    for s in [
        "", "ivl", "ivl3", "ivl>", "ivl>-3", "ivl>3.3", "ivl=>3", "ivl==3", "ease>x", "ease>",
        "due>2147483648", "Ivl>3", "pos>3", "ivl >3",
    ] {
        assert_eq!(parse_prop(s), Err(ParseError {}), "{:?}", s);
    }
}

#[test]
fn templates() {
    let ordinal = |n| Ok(SearchNode::CardTemplate(TemplateKind::Ordinal(n)));
    assert_eq!(parse_template("0"), ordinal(0));
    assert_eq!(parse_template("1"), ordinal(0));
    assert_eq!(parse_template("2"), ordinal(1));
    assert_eq!(parse_template("65535"), ordinal(65534));
    let name = |name| Ok(SearchNode::CardTemplate(TemplateKind::Name(name)));
    assert_eq!(parse_template("65536"), name(Text("65536".into())));
    assert_eq!(parse_template("-1"), name(Text("-1".into())));
    assert_eq!(parse_template("fr*"), name(Re("fr.*".into())));
    assert_eq!(parse_template(r"\x"), Err(ParseError {}));
}

#[test]
fn fields() {
    assert_eq!(
        parse_single_field("Front", "a*"),
        Ok(SearchNode::SingleField {
            field: Text("Front".into()),
            text: "a%".into(),
            is_re: false
        })
    );
    assert_eq!(
        parse_single_field("f*", r#"re:\d\""#),
        Ok(SearchNode::SingleField {
            field: Re("f.*".into()),
            text: r#"\d""#.into(),
            is_re: true
        })
    );
    assert_eq!(
        parse_single_field("f", "re"),
        Ok(SearchNode::SingleField { field: Text("f".into()), text: "re".into(), is_re: false })
    );
    assert_eq!(parse_single_field(r"\x", "re:a"), Err(ParseError {}));
    assert_eq!(parse_single_field("f", r"\d"), Err(ParseError {}));
}

#[test]
fn keys() {
    let search = search_node_for_text_with_argument;
    assert_eq!(search("added", "3"), Ok(SearchNode::AddedInDays(3)));
    assert_eq!(search("edited", "3"), Ok(SearchNode::EditedInDays(3)));
    assert_eq!(search("deck", "a.b*"), Ok(SearchNode::Deck(r"a\.b.*".into())));
    assert_eq!(search("note", "basic"), Ok(SearchNode::NoteType(Text("basic".into()))));
    assert_eq!(search("tag", "a*"), Ok(SearchNode::Tag(Re(r"a\S*".into()))));
    assert_eq!(search("mid", "-5"), Ok(SearchNode::NoteTypeID(NoteTypeID(-5))));
    assert_eq!(search("did", "5"), Ok(SearchNode::DeckID(DeckID(5))));
    assert_eq!(search("nid", "1,2"), Ok(SearchNode::NoteIDs("1,2")));
    assert_eq!(search("cid", "1,2"), Ok(SearchNode::CardIDs("1,2")));
    assert_eq!(
        search("card", "1"),
        Ok(SearchNode::CardTemplate(TemplateKind::Ordinal(0)))
    );
    assert_eq!(search("is", "new"), Ok(SearchNode::State(StateKind::New)));
    assert_eq!(search("flag", "1"), Ok(SearchNode::Flag(1)));
    assert_eq!(search("rated", "1"), Ok(SearchNode::Rated { days: 1, ease: None }));
    assert_eq!(
        search("dupe", "1,x"),
        Ok(SearchNode::Duplicates { note_type_id: NoteTypeID(1), text: "x".into() })
    );
    assert_eq!(
        search("dupes", "1231,hello"),
        Ok(SearchNode::Duplicates { note_type_id: NoteTypeID(1231), text: "hello".into() })
    );
    assert_eq!(search("prop", "reps>0"), property(">", PropertyKind::Reps(0)));
    assert_eq!(search("re", r"\d+"), Ok(SearchNode::Regex(r"\d+".into())));
    assert_eq!(search("nc", "a*"), Ok(SearchNode::NoCombining("a%".into())));
    assert_eq!(search("w", "a.b"), Ok(SearchNode::WordBoundary(r"a\.b".into())));

    for key in ["added", "edited", "mid", "nid", "cid", "did", "is", "flag", "rated", "dupe", "dupes", "prop"]
    {
        assert_eq!(search(key, "?"), Err(ParseError {}), "{:?}", key);
    }
    for key in ["deck", "note", "tag", "card", "nc", "w", "other"] {
        assert_eq!(search(key, r"\?"), Err(ParseError {}), "{:?}", key);
    }
}

#[test]
fn key_case() {
    let search = search_node_for_text_with_argument;
    assert_eq!(search("ADDED", "3"), search("added", "3"));
    assert_eq!(search("Deck", "x"), search("deck", "x"));
    assert_eq!(
        search("Front", "x"),
        Ok(SearchNode::SingleField { field: Text("Front".into()), text: "x".into(), is_re: false })
    );
    // the sign for kelvin is no ASCII letter
    assert_eq!(
        search("dec\u{212a}", "x"),
        Ok(SearchNode::SingleField {
            field: Text("dec\u{212a}".into()),
            text: "x".into(),
            is_re: false
        })
    );
}

#[test]
fn terms_with_and_without_colon() {
    assert_eq!(
        search_node_for_text("a*b"),
        Ok(SearchNode::UnqualifiedText("a%b".into()))
    );
    assert_eq!(
        search_node_for_text(r"a\:b"),
        Ok(SearchNode::UnqualifiedText("a:b".into()))
    );
    assert_eq!(search_node_for_text(""), Ok(SearchNode::UnqualifiedText("".into())));
    assert_eq!(search_node_for_text("rated:1:2"), parse_rated("1:2"));
    assert_eq!(
        search_node_for_text("f:"),
        Ok(SearchNode::SingleField { field: Text("f".into()), text: "".into(), is_re: false })
    );
    for s in [":", ":x", "a\\", r"a\x"] {
        assert_eq!(search_node_for_text(s), Err(ParseError {}), "{:?}", s);
    }
}
