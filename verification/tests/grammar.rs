use anki_search::ast::Interrupt::{Error, Failure};
use anki_search::ast::OptionalRe::Text;
use anki_search::ast::{AnkiError, IResult, Node, SearchNode};
use anki_search::grammar::{
    group, group_inner, negated_node, node, parse, partially_quoted_term, quoted_term,
    quoted_term_inner, quoted_term_str, text, unquoted_term, whitespace0, Run,
};
use nom::bytes::complete::{escaped, is_not};
use nom::character::complete::{anychar, none_of};
use Node::{And, Group, Not, Or, Search};

fn plain(text: &str) -> Node<'_> {
    Search(SearchNode::UnqualifiedText(text.into()))
}

fn field<'a>(field: &'a str, text: &'a str) -> Node<'a> {
    Search(SearchNode::SingleField { field: Text(field.into()), text: text.into(), is_re: false })
}

fn outcome<'a>(r: nom::IResult<&'a str, &'a str>) -> IResult<&'a str, &'a str> {
    r.map_err(|_| Error)
}

#[test]
fn runs_of_escaped_text() {
    for s in [
        "", "a", "\\", "a\\", "\\a", "\\\\", "\\ ", "a\\ b", "a\\:b", "a:b", ":b", "a b", " b",
        "a\"b", "\"b", "a(b", "a)b", "a\\(b", "a\u{3000}b", "a\\\u{3000}b", "\u{3000}", "a\tb",
        "a\\\nb", "\\\"\\:\\(x", "\u{e9}\\\u{e9} \u{e9}", "a\\\\", "a\\\\\"", "a\\\\\\\"b c",
    ] {
        let unquoted: nom::IResult<&str, &str> =
            escaped(is_not("\"() \u{3000}\t\n\\"), '\\', none_of(" \u{3000}\t\n"))(s);
        assert_eq!(Run::Unquoted.escaped(s), outcome(unquoted), "{:?}", s);
        let quoted: nom::IResult<&str, &str> = escaped(is_not(r#""\"#), '\\', anychar)(s);
        assert_eq!(Run::Quoted.escaped(s), outcome(quoted), "{:?}", s);
        let key: nom::IResult<&str, &str> =
            escaped(is_not("\"(): \u{3000}\t\n\\"), '\\', none_of(": \u{3000}\t\n"))(s);
        assert_eq!(Run::Key.escaped(s), outcome(key), "{:?}", s);
        let term: nom::IResult<&str, &str> = escaped(is_not(r":\"), '\\', anychar)(s);
        assert_eq!(Run::Term.escaped(s), outcome(term), "{:?}", s);
    }
}

#[test]
fn white_space() {
    assert_eq!(whitespace0(""), Ok(("", vec![])));
    assert_eq!(whitespace0("a "), Ok(("a ", vec![])));
    assert_eq!(
        whitespace0(" \u{3000}\t\n\ra"),
        Ok(("\ra", vec![' ', '\u{3000}', '\t', '\n']))
    );
}

#[test]
fn quoted_terms() {
    assert_eq!(quoted_term_inner("ab\"c"), Ok(("\"c", "ab")));
    assert_eq!(quoted_term_str(r#""a b(\""c"#), Ok(("c", r#"a b(\""#)));
    for s in ["", "a", "\"", "\"\"", "\"a", "\"a\\\""] {
        assert_eq!(quoted_term_str(s), Err(Error), "{:?}", s);
        assert_eq!(quoted_term(s), Err(Error), "{:?}", s);
    }
    assert_eq!(quoted_term("\"and\" x"), Ok((" x", plain("and"))));
    assert_eq!(quoted_term("\"f:a b\""), Ok(("", field("f", "a b"))));
    assert_eq!(quoted_term("\"flag:9\""), Err(Error));
}

#[test]
fn partially_quoted_terms() {
    assert_eq!(partially_quoted_term("f:\"a b\"c"), Ok(("c", field("f", "a b"))));
    for s in [
        "", "f", "f:", "f:a", "f: \"a\"", "f\t:\"a\"", "g\tf:\"a\"", ":\"a\"", "f:\"\"", "f:\"a",
        "flag:\"9\"", "f\\:\"a\"",
    ] {
        assert_eq!(partially_quoted_term(s), Err(Error), "{:?}", s);
    }
}

#[test]
fn quotes_after_the_colon() {
    for (key, val) in [("f", "a b"), ("deck", "x:y"), ("tag", r#"\""#), ("re", r"\d("), (r"\*", "-")]
    {
        let around = format!("\"{}:{}\" x", key, val);
        let after = format!("{}:\"{}\" x", key, val);
        assert_eq!(quoted_term(&around), partially_quoted_term(&after));
        assert_eq!(quoted_term(&around).unwrap().0, " x");
    }
}

#[test]
fn unquoted_terms() {
    assert_eq!(unquoted_term("a b"), Ok((" b", plain("a"))));
    assert_eq!(unquoted_term("a)b"), Ok((")b", plain("a"))));
    assert_eq!(unquoted_term("a(b"), Ok(("(b", plain("a"))));
    assert_eq!(unquoted_term("a\"b"), Ok(("\"b", plain("a"))));
    assert_eq!(unquoted_term("a\u{3000}b"), Ok(("\u{3000}b", plain("a"))));
    assert_eq!(unquoted_term("a\tb"), Ok(("\tb", plain("a"))));
    assert_eq!(unquoted_term("a\nb"), Ok(("\nb", plain("a"))));
    assert_eq!(unquoted_term("a\rb"), Ok(("", plain("a\rb"))));
    assert_eq!(unquoted_term(r"a\(b"), Ok(("", plain("a(b"))));
    for s in ["or", "OR", "Or"] {
        assert_eq!(unquoted_term(s), Ok(("", Or)));
    }
    for s in ["and", "AND", "aNd"] {
        assert_eq!(unquoted_term(s), Ok(("", And)));
    }
    assert_eq!(unquoted_term("android"), Ok(("", plain("android"))));
    for s in ["", " a", ")", "(a", "\"a\"", "a\\", "a\\ b", "a\\\tb", "\ta", "flag:9", ":a"] {
        assert_eq!(unquoted_term(s), Err(Error), "{:?}", s);
    }
}

#[test]
fn alternatives_of_text() {
    assert_eq!(text("\"a b\""), Ok(("", plain("a b"))));
    assert_eq!(text("f:\"a b\""), Ok(("", field("f", "a b"))));
    assert_eq!(text("f:a b"), Ok((" b", field("f", "a"))));
    // where the argument in quotes is not valid, the key is read without it
    assert_eq!(text("f:\"\\x\""), Ok(("\"\\x\"", field("f", ""))));
    assert_eq!(text(""), Err(Error));
}

#[test]
fn groups() {
    assert_eq!(group("(a)b"), Ok(("b", Group(vec![plain("a")]))));
    assert_eq!(group("( a )"), Ok(("", Group(vec![plain("a")]))));
    for s in ["", "a", "(", "()", "( )", "(a", "(a flag:9)"] {
        assert_eq!(group(s), Err(Error), "{:?}", s);
    }
    for s in ["(and)", "(a or)", "((a and) b)"] {
        assert_eq!(group(s), Err(Failure), "{:?}", s);
    }
}

#[test]
fn lists() {
    assert_eq!(group_inner("a  b  )"), Ok((")", vec![plain("a"), And, plain("b")])));
    assert_eq!(
        group_inner("a or b and c"),
        Ok(("", vec![plain("a"), Or, plain("b"), And, plain("c")]))
    );
    assert_eq!(group_inner(""), Err(Error));
    assert_eq!(group_inner(")"), Err(Error));
    for s in ["and", "or a", "a and", "a and or b", "a or or b", "a and )"] {
        assert_eq!(group_inner(s), Err(Failure), "{:?}", s);
    }
}

#[test]
fn negations() {
    assert_eq!(negated_node("-a"), Ok(("", Not(Box::new(plain("a"))))));
    assert_eq!(
        negated_node("-(a)"),
        Ok(("", Not(Box::new(Group(vec![plain("a")])))))
    );
    assert_eq!(negated_node("--a"), Ok(("", Not(Box::new(plain("-a"))))));
    assert_eq!(negated_node("-and"), Ok(("", Not(Box::new(And)))));
    assert_eq!(negated_node("-"), Err(Error));
    assert_eq!(negated_node("- a"), Err(Error));
    assert_eq!(negated_node("a"), Err(Error));
    assert_eq!(negated_node("-(a and)"), Err(Failure));
    assert_eq!(node("  -a"), Ok(("", Not(Box::new(plain("a"))))));
    assert_eq!(node("-"), Ok(("", plain("-"))));
    assert_eq!(node("-(a"), Ok(("(a", plain("-"))));
    assert_eq!(node("  "), Err(Error));
}

#[test]
fn invalid_searches() {
    for s in [
        "and", "a or", "(", ")", "a)", "(a", "()", "\"", "\"\"", "\"a", "a \\", "flag:9", "a flag:9",
        "deck:\"\"", ":a", r"a\x",
    ] {
        assert_eq!(parse(s), Err(AnkiError::SearchError(None)), "{:?}", s);
    }
}

#[test]
fn white_space_around_and_between() {
    let expected = parse("a (b c)").unwrap();
    assert_eq!(parse("\u{a0}\r\n a  \u{3000}\t( b \n c  ) \u{2003}").unwrap(), expected);
    assert_eq!(parse("a(b c)").unwrap(), expected);
    for s in ["\u{a0}", "\t\r\n", "\u{3000}"] {
        assert_eq!(parse(s), Ok(vec![Search(SearchNode::WholeCollection)]));
    }
}

#[test]
fn implicit_and() {
    for (a, b) in [("a", "b"), ("-a", "(b or c)"), ("f:\"x y\"", "\"z\"")] {
        assert_eq!(
            parse(&format!("{} and {}", a, b)).unwrap(),
            parse(&format!("{} {}", a, b)).unwrap()
        );
    }
}

#[test]
fn joined_searches() {
    let searches = ["a", "a b or -c", "(a) (b c)", "f:\"x y\" \"z)\" -", "-(a)", "flag:1 re:x\\)"];
    for a in searches {
        for b in searches {
            for (join, node) in [
                (" ", And),
                ("\t\n\u{3000}", And),
                (" and ", And),
                ("\nAND\t", And),
                (" OR ", Or),
                (" or  ", Or),
            ] {
                let mut expected = parse(a).unwrap();
                expected.push(node);
                expected.extend(parse(b).unwrap());
                assert_eq!(parse(&format!("{}{}{}", a, join, b)).unwrap(), expected);
            }
        }
    }
}

#[test]
fn nodes_take_turns() {
    fn check(nodes: &[Node]) {
        assert_eq!(nodes.len() % 2, 1);
        for (i, node) in nodes.iter().enumerate() {
            assert_eq!(node.is_boolean(), i % 2 == 1);
            match node {
                Group(nodes) => check(nodes),
                Not(inner) => {
                    assert!(!matches!(**inner, Not(_)));
                    if let Group(nodes) = &**inner {
                        check(nodes);
                    }
                }
                _ => {}
            }
        }
    }
    for s in ["a", "a b or c", "(a b) -(c or -(d e)) f", "--a -b", "((a)) (b c)"] {
        check(&parse(s).unwrap());
    }
}

#[test]
fn brackets_around_a_search() {
    for s in ["a", "a b or -c", "(a) (b c)", "f:\"x y\" \"z)\" -", "-(a)", "flag:1 re:x\\)"] {
        let nodes = || parse(s).unwrap();
        assert_eq!(parse(&format!("({})", s)).unwrap(), vec![Group(nodes())]);
        assert_eq!(
            parse(&format!("-({})", s)).unwrap(),
            vec![Not(Box::new(Group(nodes())))]
        );
        assert_eq!(group(&format!("({})\"x", s)), Ok(("\"x", Group(nodes()))));
    }
}

#[test]
fn any_escape_in_quotes() {
    for c in ['b', ' ', '(', '"', '\\', ':', '\n', '\u{3000}'] {
        let quoted = format!("\"x\\{}y\"z", c);
        assert_eq!(quoted_term_str(&quoted), Ok(("z", format!("x\\{}y", c).as_str())));
    }
}

#[test]
fn any_text_in_quotes() {
    for (query, like) in [
        (r#""\*\_%""#, r"*\_\%"),
        (r#""\\\"\: \(\)""#, r#"\\": ()"#),
        (r#""and""#, "and"),
    ] {
        assert_eq!(parse(query).unwrap(), vec![plain(like)]);
    }
}
