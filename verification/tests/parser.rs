use anki_search::ast::{Node, OptionalRe, PropertyKind, SearchNode, StateKind, TemplateKind};
use anki_search::grammar::parse;
use Node::{And, Group, Not, Or, Search};
use OptionalRe::Text;
use SearchNode::{
    AddedInDays, CardTemplate, Deck, Flag, NoteIDs, NoteType, Property, Regex, SingleField, State,
    Tag, UnqualifiedText,
};

#[test]
fn parsing() {
    assert_eq!(parse("").unwrap(), vec![Search(SearchNode::WholeCollection)]);
    assert_eq!(parse("  ").unwrap(), vec![Search(SearchNode::WholeCollection)]);

    // leading/trailing boolean operators
    assert!(parse("foo and").is_err());
    assert!(parse("and foo").is_err());
    assert!(parse("and").is_err());

    // leading/trailing/interspersed whitespace
    assert_eq!(
        parse("  t   t2  ").unwrap(),
        vec![
            Search(UnqualifiedText("t".into())),
            And,
            Search(UnqualifiedText("t2".into()))
        ]
    );

    // including in groups
    assert_eq!(
        parse("(  t   t2  )").unwrap(),
        vec![Group(vec![
            Search(UnqualifiedText("t".into())),
            And,
            Search(UnqualifiedText("t2".into()))
        ])]
    );

    assert_eq!(
        parse(r#"hello  -(world and "foo:bar baz") OR test"#).unwrap(),
        vec![
            Search(UnqualifiedText("hello".into())),
            And,
            Not(Box::new(Group(vec![
                Search(UnqualifiedText("world".into())),
                And,
                Search(SingleField {
                    field: Text("foo".into()),
                    text: "bar baz".into(),
                    is_re: false,
                })
            ]))),
            Or,
            Search(UnqualifiedText("test".into()))
        ]
    );

    assert_eq!(
        parse("foo:re:bar").unwrap(),
        vec![Search(SingleField {
            field: Text("foo".into()),
            text: "bar".into(),
            is_re: true
        })]
    );

    // partially quoted text should handle escaping the same way
    assert_eq!(
        parse(r#""field:va\"lue""#).unwrap(),
        vec![Search(SingleField {
            field: Text("field".into()),
            text: "va\"lue".into(),
            is_re: false
        })]
    );
    assert_eq!(
        parse(r#""field:va\"lue""#).unwrap(),
        parse(r#"field:"va\"lue""#).unwrap(),
    );

    // any character should be escapable in quotes
    assert_eq!(
        parse(r#""re:\btest""#).unwrap(),
        vec![Search(Regex(r"\btest".into()))]
    );

    assert_eq!(parse("added:3").unwrap(), vec![Search(AddedInDays(3))]);
    assert_eq!(
        parse("card:front").unwrap(),
        vec![Search(CardTemplate(TemplateKind::Name(Text("front".into()))))]
    );
    assert_eq!(
        parse("card:3").unwrap(),
        vec![Search(CardTemplate(TemplateKind::Ordinal(2)))]
    );
    // 0 must not cause a crash due to underflow
    assert_eq!(
        parse("card:0").unwrap(),
        vec![Search(CardTemplate(TemplateKind::Ordinal(0)))]
    );
    assert_eq!(parse("deck:default").unwrap(), vec![Search(Deck("default".into()))]);
    assert_eq!(
        parse("deck:\"default one\"").unwrap(),
        vec![Search(Deck("default one".into()))]
    );

    assert_eq!(
        parse("note:basic").unwrap(),
        vec![Search(NoteType(Text("basic".into())))]
    );
    assert_eq!(parse("tag:hard").unwrap(), vec![Search(Tag(Text("hard".into())))]);
    assert_eq!(
        parse("nid:1237123712,2,3").unwrap(),
        vec![Search(NoteIDs("1237123712,2,3".into()))]
    );
    assert!(parse("nid:1237123712_2,3").is_err());
    assert_eq!(parse("is:due").unwrap(), vec![Search(State(StateKind::Due))]);
    assert_eq!(parse("flag:3").unwrap(), vec![Search(Flag(3))]);
    assert!(parse("flag:-1").is_err());
    assert!(parse("flag:5").is_err());

    assert_eq!(
        parse("prop:ivl>3").unwrap(),
        vec![Search(Property {
            operator: ">".into(),
            kind: PropertyKind::Interval(3)
        })]
    );
    assert!(parse("prop:ivl>3.3").is_err());
    match parse("prop:ease<=3.3").unwrap().as_slice() {
        [Search(Property { operator, kind: PropertyKind::Ease(literal) })] => {
            assert_eq!(operator, "<=");
            assert_eq!(literal.parse::<f32>().unwrap(), 3.3);
        }
        _ => unreachable!(),
    }
}
