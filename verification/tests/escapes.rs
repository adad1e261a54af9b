use anki_search::ast::OptionalRe::{Re, Text};
use anki_search::ast::ParseError;
use anki_search::escapes::{
    is_invalid_escape, unescape_quotes, unescape_to_custom_re, unescape_to_enforced_re,
    unescape_to_glob, unescape_to_re,
};

/// Every string of at most `len` of the characters.
fn strings(alphabet: &[char], len: usize) -> Vec<String> {
    let mut all = vec![String::new()];
    let mut last = all.clone();
    for _ in 0..len {
        let mut next = vec![];
        for s in &last {
            for c in alphabet {
                next.push(format!("{}{}", s, c));
            }
        }
        all.extend(next.clone());
        last = next;
    }
    all
}

/// The parts of a text: single characters, and backslashes with what follows.
fn parts(s: &str) -> Vec<String> {
    let mut parts: Vec<String> = vec![];
    let mut chars = s.chars();
    while let Some(c) = chars.next() {
        let mut part = c.to_string();
        if c == '\\' {
            part.extend(chars.next());
        }
        parts.push(part);
    }
    parts
}

fn defined(part: &str) -> bool {
    match part.strip_prefix('\\') {
        Some(rest) => [r"\", "\"", ":", "*", "_", "(", ")"].contains(&rest),
        None => true,
    }
}

#[test]
fn undefined_escapes() {
    for s in strings(&['\\', '*', 'a', '"', '\n'], 4) {
        let expected = !parts(&s).iter().all(|part| defined(part));
        assert_eq!(is_invalid_escape(&s), expected, "{:?}", s);
        assert_eq!(unescape_to_glob(&s).is_err(), expected, "{:?}", s);
        assert_eq!(unescape_to_re(&s).is_err(), expected, "{:?}", s);
        assert_eq!(unescape_to_enforced_re(&s).is_err(), expected, "{:?}", s);
    }
    assert_eq!(unescape_to_glob(r"\x"), Err(ParseError {}));
    assert_eq!(unescape_to_glob("a\\"), Err(ParseError {}));
    assert_eq!(unescape_to_re("\\\n"), Err(ParseError {}));
}

#[test]
fn escaped_backslashes() {
    assert!(!is_invalid_escape(r"\\"));
    assert!(!is_invalid_escape(r"a\\b"));
    assert!(is_invalid_escape(r"\\\"));
    assert!(is_invalid_escape(r"\\\b"));
    assert_eq!(unescape_to_glob(r"\\").unwrap(), r"\\");
    assert_eq!(unescape_to_re(r"\\").unwrap(), Text(r"\".into()));
    assert_eq!(unescape_to_re(r"\\*").unwrap(), Re(r"\\.*".into()));
    assert_eq!(unescape_to_enforced_re(r"\\").unwrap(), r"\\");
}

#[test]
fn globs() {
    assert_eq!(unescape_to_glob("").unwrap(), "");
    assert_eq!(unescape_to_glob("plain text").unwrap(), "plain text");
    assert_eq!(unescape_to_glob("a*%").unwrap(), r"a%\%");
    assert_eq!(unescape_to_glob("a_b").unwrap(), "a_b");
    assert_eq!(
        unescape_to_glob(r#"\\\"\:\*\_\(\)"#).unwrap(),
        r#"\\":*\_()"#
    );
    assert_eq!(unescape_to_glob("a\n*").unwrap(), "a\n%");
}

#[test]
fn globs_part_by_part() {
    for s in strings(&['\\', '*', '%', '_', 'a'], 4) {
        if let Ok(glob) = unescape_to_glob(&s) {
            let expected: String = parts(&s)
                .iter()
                .map(|part| match part.as_str() {
                    r"\*" => "*",
                    "*" => "%",
                    "%" => r"\%",
                    other => other,
                })
                .collect();
            assert_eq!(glob, expected, "{:?}", s);
        }
    }
}

#[test]
fn regular_expressions() {
    assert_eq!(unescape_to_re("basic").unwrap(), Text("basic".into()));
    assert_eq!(unescape_to_re("a.b").unwrap(), Text("a.b".into()));
    assert_eq!(unescape_to_re(r"a\*").unwrap(), Text("a*".into()));
    assert_eq!(unescape_to_re(r"a\_\:").unwrap(), Text("a_:".into()));
    assert_eq!(unescape_to_re("a*").unwrap(), Re("a.*".into()));
    assert_eq!(unescape_to_re("a_").unwrap(), Re("a.".into()));
    assert_eq!(unescape_to_re("a.*").unwrap(), Re(r"a\..*".into()));
    assert_eq!(
        unescape_to_re(r#"_\"\:\_\\\*\(\)+"#).unwrap(),
        Re(r#".":_\\\*\(\)\+"#.into())
    );
    assert_eq!(unescape_to_re("\n*").unwrap(), Re("\n.*".into()));
    assert_eq!(
        unescape_to_custom_re("a*_", r"\S").unwrap(),
        Re(r"a\S*\S".into())
    );
    assert_eq!(unescape_to_enforced_re("a.b").unwrap(), r"a\.b");
    assert_eq!(unescape_to_enforced_re("a*").unwrap(), "a.*");
    assert_eq!(
        unescape_to_enforced_re("+?|[]{}^$#&-~").unwrap(),
        r"\+\?\|\[\]\{\}\^\$\#\&\-\~"
    );
}

#[test]
fn wildcards_decide() {
    for s in strings(&['\\', '*', '_', 'a', '\n'], 4) {
        match unescape_to_re(&s) {
            Ok(Text(text)) => {
                let parts = parts(&s);
                assert!(!parts.iter().any(|part| part == "*" || part == "_"));
                let plain: String = parts
                    .iter()
                    .map(|part| part.strip_prefix('\\').unwrap_or(part))
                    .collect();
                assert_eq!(text, plain);
            }
            Ok(Re(_)) => {
                assert!(parts(&s).iter().any(|part| part == "*" || part == "_"));
            }
            Err(_) => {}
        }
    }
}

#[test]
fn quotes() {
    assert_eq!(unescape_quotes(""), "");
    assert_eq!(unescape_quotes(r"no \b quote"), r"no \b quote");
    assert_eq!(unescape_quotes(r#"a\"b"#), "a\"b");
    assert_eq!(unescape_quotes(r#"\"\""#), "\"\"");
    assert_eq!(unescape_quotes(r#"\\""#), r#"\""#);
    assert_eq!(unescape_quotes("a\"b"), "a\"b");
    for s in strings(&['\\', '"', 'a'], 6) {
        assert_eq!(unescape_quotes(&s), s.replace("\\\"", "\""));
        assert_eq!(unescape_quotes(&s.replace('"', "\\\"")), s);
    }
}

#[test]
fn any_text_can_be_escaped() {
    for text in strings(&['\\', '*', '"', '_', 'x', '%'], 4) {
        let mut escaped = String::new();
        let mut like = String::new();
        for c in text.chars() {
            if r#"\":*_()"#.contains(c) {
                escaped.push('\\');
            }
            escaped.push(c);
            if r"\_%".contains(c) {
                like.push('\\');
            }
            like.push(c);
        }
        assert_eq!(unescape_to_re(&escaped).unwrap(), Text(text.as_str().into()));
        assert_eq!(unescape_to_glob(&escaped).unwrap(), like);
    }
}
