//! Text that stands for itself, and how escape sequences make any text so.

#[allow(unused_imports)]
use crate::ast::{Interrupt, NodeView, OptionalReView, SearchView};
#[allow(unused_imports)]
use crate::escapes::{
    glob_of, lemma_parity_in_rest, lemma_well_escaped, plain_of, quotes_unescaped, re_of,
    to_custom_re, to_enforced_re, to_glob, to_re, well_escaped,
};
#[allow(unused_imports)]
use crate::grammar::{leading_spaces, quoted_node, search_of, term_search, unspaced, Run};
#[allow(unused_imports)]
use crate::laws::lemma_single_node;
#[allow(unused_imports)]
use crate::quoting::lemma_quoted_text;
#[allow(unused_imports)]
use crate::regexes::{
    backslashes_before, decimal_digit, escapable, is_id_list, is_meta, quoted, unescaped_wildcard,
};
use vstd::prelude::*;

verus! {

/// A text with a backslash before each escapable character.
pub open spec fn escape_all(t: Seq<char>) -> Seq<char>
    decreases t.len(),
{
    if t.len() == 0 {
        Seq::empty()
    } else if escapable(t[0]) {
        seq!['\\', t[0]] + escape_all(t.skip(1))
    } else {
        seq![t[0]] + escape_all(t.skip(1))
    }
}

/// The SQL pattern that matches a text and nothing else: a backslash stands
/// before each character that has a meaning in patterns.
pub open spec fn sql_literal(t: Seq<char>) -> Seq<char>
    decreases t.len(),
{
    if t.len() == 0 {
        Seq::empty()
    } else if t[0] == '\\' || t[0] == '_' || t[0] == '%' {
        seq!['\\', t[0]] + sql_literal(t.skip(1))
    } else {
        seq![t[0]] + sql_literal(t.skip(1))
    }
}

/// Whether some wildcard, read from left to right, is not escaped.
pub open spec fn has_wildcard(s: Seq<char>) -> bool
    decreases s.len(),
{
    if s.len() == 0 {
        false
    } else if s[0] == '\\' {
        s.len() >= 2 && has_wildcard(s.skip(2))
    } else {
        s[0] == '*' || s[0] == '_' || has_wildcard(s.skip(1))
    }
}

/// A wildcard is unescaped exactly if it is met, read from left to right, at a
/// place where no escape sequence takes it.
pub proof fn lemma_wildcard(s: Seq<char>)
    ensures
        unescaped_wildcard(s) == has_wildcard(s),
    decreases s.len(),
{
    if s.len() > 0 {
        reveal_with_fuel(backslashes_before, 3);
        let k: int = if s[0] == '\\' {
            2
        } else {
            1
        };
        if k <= s.len() {
            lemma_wildcard(s.skip(k));
            lemma_parity_in_rest(s, k);
            if unescaped_wildcard(s.skip(k)) {
                let i = choose|i: int|
                    0 <= i < s.skip(k).len() && #[trigger] backslashes_before(s.skip(k), i) % 2
                        == 0 && (s.skip(k)[i] == '*' || s.skip(k)[i] == '_');
                assert(backslashes_before(s, k + i) % 2 == 0);
            }
            if unescaped_wildcard(s) {
                let i = choose|i: int|
                    0 <= i < s.len() && #[trigger] backslashes_before(s, i) % 2 == 0 && (s[i]
                        == '*' || s[i] == '_');
                if i >= k {
                    assert(backslashes_before(s.skip(k), i - k) % 2 == backslashes_before(
                        s,
                        k + (i - k),
                    ) % 2);
                }
            }
            if s[0] == '*' || s[0] == '_' {
                assert(backslashes_before(s, 0) % 2 == 0);
            }
        }
    }
}

/// The parts of the law on escaped text.
proof fn lemma_escape_all(t: Seq<char>)
    ensures
        well_escaped(escape_all(t)),
        !has_wildcard(escape_all(t)),
        plain_of(escape_all(t)) == t,
        glob_of(escape_all(t)) == sql_literal(t),
    decreases t.len(),
{
    if t.len() > 0 {
        lemma_escape_all(t.skip(1));
        let s = escape_all(t);
        let rest = escape_all(t.skip(1));
        assert(seq![t[0]] + t.skip(1) =~= t);
        if escapable(t[0]) {
            assert(s.skip(2) =~= rest);
            assert(s.take(2) =~= seq!['\\', t[0]]);
            assert(s.take(2).skip(1) =~= seq![t[0]]);
        } else {
            assert(s.skip(1) =~= rest);
            assert(s.take(1) =~= seq![t[0]]);
        }
    }
}

/// A text whose special characters are all escaped stands for itself: as plain
/// text, as an SQL pattern and as a regular expression.
pub proof fn law_escaped_text(t: Seq<char>, wildcard: Seq<char>)
    ensures
        to_custom_re(escape_all(t), wildcard) == Some(OptionalReView::Text(t)),
        to_glob(escape_all(t)) == Some(sql_literal(t)),
        to_enforced_re(escape_all(t)) == Some(quoted(t)),
{
    lemma_escape_all(t);
    lemma_well_escaped(escape_all(t));
    lemma_wildcard(escape_all(t));
}

/// Escaped text goes on to its end, in quotes and as a term.
proof fn lemma_escape_all_runs(t: Seq<char>, s: Seq<char>, i: int)
    requires
        0 <= i <= s.len(),
        s.skip(i) == escape_all(t),
    ensures
        Run::Quoted.end(s, i) == Some(s.len() as int),
        Run::Term.end(s, i) == Some(s.len() as int),
    decreases t.len(),
{
    assert(s.skip(i).len() == s.len() - i);
    if t.len() > 0 {
        let e = escape_all(t);
        assert(e[0] == s[i]);
        if escapable(t[0]) {
            assert(e[1] == s[i + 1]);
            assert(s.skip(i + 2) =~= e.skip(2));
            assert(e.skip(2) =~= escape_all(t.skip(1)));
            lemma_escape_all_runs(t.skip(1), s, i + 2);
        } else {
            assert(s.skip(i + 1) =~= e.skip(1));
            assert(e.skip(1) =~= escape_all(t.skip(1)));
            lemma_escape_all_runs(t.skip(1), s, i + 1);
        }
    }
}

/// Any text can be searched for: in quotes, with its special characters
/// escaped, it is a search for just that text.
pub proof fn law_any_text_can_be_searched(t: Seq<char>)
    requires
        t.len() > 0,
    ensures
        search_of(seq!['"'] + escape_all(t) + seq!['"']) == Some(
            seq![NodeView::Search(SearchView::UnqualifiedText(sql_literal(t)))],
        ),
{
    let e = escape_all(t);
    let end = Seq::<char>::empty();
    let node = NodeView::Search(SearchView::UnqualifiedText(sql_literal(t)));
    assert(e.skip(0) =~= e);
    lemma_escape_all_runs(t, e, 0);
    law_escaped_text(t, end);
    assert(e.take(e.len() as int) =~= e);
    assert(term_search(e) == Some(SearchView::UnqualifiedText(sql_literal(t))));
    lemma_quoted_text(e, end);
    let s = seq!['"'] + e + seq!['"'];
    assert(s + end =~= s);
    assert(quoted_node(s) == Ok::<(Seq<char>, NodeView), Interrupt>((end, node)));
    assert(leading_spaces(s) == 0);
    assert(unspaced(s) =~= s);
    lemma_single_node(s, node);
}

/// The SQL pattern of two texts, one after the other, is that of the first and
/// then that of the second, unless an escape sequence lies across the border.
pub proof fn law_glob_concat(a: Seq<char>, b: Seq<char>)
    requires
        well_escaped(a),
    ensures
        glob_of(a + b) == glob_of(a) + glob_of(b),
    decreases a.len(),
{
    if a.len() == 0 {
        assert(a + b =~= b);
        assert(glob_of(a) + glob_of(b) =~= glob_of(b));
    } else {
        let s = a + b;
        assert(s[0] == a[0]);
        if a[0] == '\\' {
            law_glob_concat(a.skip(2), b);
            assert(s[1] == a[1]);
            assert(s.skip(2) =~= a.skip(2) + b);
            assert(s.take(2) =~= a.take(2));
            assert(glob_of(s) =~= glob_of(a) + glob_of(b));
        } else {
            law_glob_concat(a.skip(1), b);
            assert(s.skip(1) =~= a.skip(1) + b);
            assert(s.take(1) =~= a.take(1));
            assert(glob_of(s) =~= glob_of(a) + glob_of(b));
        }
    }
}

/// Text without backslashes, wildcards and `%` stands for itself.
pub proof fn law_plain_text(s: Seq<char>)
    requires
        forall|i: int|
            0 <= i < s.len() ==> #[trigger] s[i] != '\\' && s[i] != '*' && s[i] != '_' && s[i]
                != '%',
    ensures
        to_glob(s) == Some(s),
        to_re(s) == Some(OptionalReView::Text(s)),
{
    lemma_plain_text(s);
    lemma_well_escaped(s);
    lemma_wildcard(s);
}

proof fn lemma_plain_text(s: Seq<char>)
    requires
        forall|i: int|
            0 <= i < s.len() ==> #[trigger] s[i] != '\\' && s[i] != '*' && s[i] != '_' && s[i]
                != '%',
    ensures
        well_escaped(s),
        !has_wildcard(s),
        glob_of(s) == s,
        plain_of(s) == s,
    decreases s.len(),
{
    if s.len() > 0 {
        lemma_plain_text(s.skip(1));
        assert(seq![s[0]] + s.skip(1) =~= s);
    }
}

/// Whether the escape sequences of a text are defined is the same for each use
/// of the text.
pub proof fn law_same_errors(s: Seq<char>, wildcard: Seq<char>)
    ensures
        (to_glob(s) is Some) == well_escaped(s),
        (to_custom_re(s, wildcard) is Some) == well_escaped(s),
        (to_enforced_re(s) is Some) == well_escaped(s),
{
    lemma_well_escaped(s);
}

/// A text with a backslash before each quote.
pub open spec fn escape_quotes(t: Seq<char>) -> Seq<char>
    decreases t.len(),
{
    if t.len() == 0 {
        Seq::empty()
    } else if t[0] == '"' {
        seq!['\\', '"'] + escape_quotes(t.skip(1))
    } else {
        seq![t[0]] + escape_quotes(t.skip(1))
    }
}

/// To escape the quotes of a text is undone by `unescape_quotes`.
pub proof fn law_escaped_quotes(t: Seq<char>)
    ensures
        quotes_unescaped(escape_quotes(t)) == t,
    decreases t.len(),
{
    if t.len() > 0 {
        law_escaped_quotes(t.skip(1));
        let s = escape_quotes(t);
        let rest = escape_quotes(t.skip(1));
        assert(seq![t[0]] + t.skip(1) =~= t);
        if t[0] == '"' {
            assert(s.skip(2) =~= rest);
        } else {
            assert(s.skip(1) =~= rest);
            if rest.len() > 0 {
                assert(s[1] == rest[0]);
                assert(rest[0] != '"');
            }
        }
    }
}

/// The regular expression of two texts, one after the other, is that of the
/// first and then that of the second, unless an escape sequence lies across the
/// border.
pub proof fn law_re_concat(a: Seq<char>, b: Seq<char>, wildcard: Seq<char>)
    requires
        well_escaped(a),
    ensures
        re_of(a + b, wildcard) == re_of(a, wildcard) + re_of(b, wildcard),
    decreases a.len(),
{
    let s = a + b;
    if a.len() == 0 {
        assert(s =~= b);
        assert(re_of(a, wildcard) + re_of(b, wildcard) =~= re_of(b, wildcard));
    } else {
        assert(s[0] == a[0]);
        let k: int = if a[0] == '\\' {
            2
        } else {
            1
        };
        law_re_concat(a.skip(k), b, wildcard);
        assert(s[k - 1] == a[k - 1]);
        assert(s.skip(k) =~= a.skip(k) + b);
        assert(s.take(k) =~= a.take(k));
        assert(re_of(s, wildcard) =~= re_of(a, wildcard) + re_of(b, wildcard));
    }
}

/// The plain text of two texts, one after the other, is that of the first and
/// then that of the second, unless an escape sequence lies across the border.
pub proof fn law_plain_concat(a: Seq<char>, b: Seq<char>)
    requires
        well_escaped(a),
    ensures
        plain_of(a + b) == plain_of(a) + plain_of(b),
    decreases a.len(),
{
    let s = a + b;
    if a.len() == 0 {
        assert(s =~= b);
        assert(plain_of(a) + plain_of(b) =~= plain_of(b));
    } else {
        assert(s[0] == a[0]);
        let k: int = if a[0] == '\\' {
            2
        } else {
            1
        };
        law_plain_concat(a.skip(k), b);
        assert(s[k - 1] == a[k - 1]);
        assert(s.skip(k) =~= a.skip(k) + b);
        assert(s.take(k) =~= a.take(k));
        assert(plain_of(s) =~= plain_of(a) + plain_of(b));
    }
}

/// Quoted text is made of the quoted characters, one after the other.
pub proof fn law_quoted(a: Seq<char>, b: Seq<char>, c: char)
    ensures
        quoted(a + b) == quoted(a) + quoted(b),
        quoted(seq![c]) == if r"\.+*?()|[]{}^$#&-~"@.contains(c) {
            seq!['\\', c]
        } else {
            seq![c]
        },
        quoted(Seq::empty()) == Seq::<char>::empty(),
    decreases a.len(),
{
    let s = a + b;
    if a.len() == 0 {
        assert(s =~= b);
        assert(quoted(a) + quoted(b) =~= quoted(b));
    } else {
        law_quoted(a.skip(1), b, c);
        assert(s.skip(1) =~= a.skip(1) + b);
        assert(quoted(s) =~= quoted(a) + quoted(b));
    }
    let end = Seq::<char>::empty();
    assert(seq![c].skip(1) =~= end);
    assert(quoted(end) == end);
    assert(quoted(seq![c]) =~= if is_meta(c) {
        seq!['\\', c]
    } else {
        seq![c]
    });
    reveal_strlit(r"\.+*?()|[]{}^$#&-~");
    let metas = r"\.+*?()|[]{}^$#&-~"@;
    assert(metas =~= seq![
        '\\', '.', '+', '*', '?', '(', ')', '|', '[', ']', '{', '}', '^', '$', '#', '&', '-', '~',
    ]);
    if is_meta(c) {
        assert(metas[0] == '\\' && metas[1] == '.' && metas[2] == '+' && metas[3] == '*' && metas[4]
            == '?' && metas[5] == '(' && metas[6] == ')' && metas[7] == '|' && metas[8] == '['
            && metas[9] == ']' && metas[10] == '{' && metas[11] == '}' && metas[12] == '^'
            && metas[13] == '$' && metas[14] == '#' && metas[15] == '&' && metas[16] == '-'
            && metas[17] == '~');
    }
}

/// What a single character stands for, alone and behind a backslash: as an SQL
/// pattern, as a regular expression and as plain text.
pub proof fn law_pieces(c: char, wildcard: Seq<char>)
    ensures
        glob_of(seq![c]) == if c == '*' {
            seq!['%']
        } else if c == '%' {
            seq!['\\', '%']
        } else {
            seq![c]
        },
        re_of(seq![c], wildcard) == if c == '*' {
            wildcard + seq!['*']
        } else if c == '_' {
            wildcard
        } else {
            quoted(seq![c])
        },
        plain_of(seq![c]) == seq![c],
        escapable(c) ==> glob_of(seq!['\\', c]) == if c == '\\' || c == '_' {
            seq!['\\', c]
        } else {
            seq![c]
        },
        escapable(c) ==> re_of(seq!['\\', c], wildcard) == quoted(seq![c]),
        escapable(c) ==> plain_of(seq!['\\', c]) == seq![c],
{
    let end = Seq::<char>::empty();
    let one = seq![c];
    let two = seq!['\\', c];
    assert(one.skip(1) =~= end);
    assert(one.take(1) =~= one);
    assert(two.skip(2) =~= end);
    assert(two.take(2) =~= two);
    assert(two.skip(1) =~= one);
    assert(quoted(end) =~= end);
    assert(one[0] == c && two[1] == c);
    assert(glob_of(end) == end);
    assert(re_of(end, wildcard) == end);
    assert(plain_of(end) == end);
    assert(seq!['*'][0] == '*' && seq!['%'][0] == '%' && seq!['_'][0] == '_');
    assert(glob_of(one) =~= if c == '*' {
        seq!['%']
    } else if c == '%' {
        seq!['\\', '%']
    } else {
        seq![c]
    });
    assert(quoted(one) =~= if is_meta(c) {
        two
    } else {
        one
    });
    assert(c == '\n' ==> re_of(one, wildcard) =~= one);
    assert(wildcard.push('*') =~= wildcard + seq!['*']);
    assert(re_of(one, wildcard) =~= if c == '*' {
        wildcard + seq!['*']
    } else if c == '_' {
        wildcard
    } else {
        quoted(one)
    });
    assert(plain_of(one) =~= one);
    if escapable(c) {
        assert(seq!['\\', '\\'][1] == '\\' && seq!['\\', '_'][1] == '_');
        assert(seq!['\\', '"'][1] == '"');
        assert(seq!['\\', ':'][1] == ':' && seq!['\\', '*'][1] == '*' && seq!['\\', '('][1] == '(');
        assert(seq!['\\', ')'][1] == ')');
        assert(glob_of(two) =~= if c == '\\' || c == '_' {
            two
        } else {
            one
        });
        assert(re_of(two, wildcard) =~= quoted(one));
        assert(plain_of(two) =~= one);
    }
}

/// A backslash needs an escapable character behind it, which it takes away; all
/// other characters may stand anywhere.
pub proof fn law_escape_sequences(a: Seq<char>, c: char, b: Seq<char>)
    requires
        well_escaped(a),
    ensures
        escapable(c) == r#"\":*_()"#@.contains(c),
        !well_escaped(a + seq!['\\']),
        well_escaped(a + seq!['\\', c] + b) == (escapable(c) && well_escaped(b)),
        c != '\\' ==> well_escaped(a + seq![c] + b) == well_escaped(b),
        well_escaped(a + b) == well_escaped(b),
    decreases a.len(),
{
    reveal_strlit(r#"\":*_()"#);
    let special = r#"\":*_()"#@;
    assert(special =~= seq!['\\', '"', ':', '*', '_', '(', ')']);
    assert(special[0] == '\\' && special[1] == '"' && special[2] == ':' && special[3] == '*'
        && special[4] == '_' && special[5] == '(' && special[6] == ')');
    let lone = a + seq!['\\'];
    let escaped = a + seq!['\\', c] + b;
    let plain = a + seq![c] + b;
    let both = a + b;
    if a.len() == 0 {
        assert(lone[0] == '\\');
        assert(escaped[0] == '\\' && escaped[1] == c);
        assert(escaped.skip(2) =~= b);
        assert(plain[0] == c);
        assert(plain.skip(1) =~= b);
        assert(both =~= b);
    } else {
        let k: int = if a[0] == '\\' {
            2
        } else {
            1
        };
        law_escape_sequences(a.skip(k), c, b);
        assert(lone[0] == a[0] && escaped[0] == a[0] && plain[0] == a[0] && both[0] == a[0]);
        assert(lone[k - 1] == a[k - 1] && escaped[k - 1] == a[k - 1] && plain[k - 1] == a[k - 1]
            && both[k - 1] == a[k - 1]);
        assert(lone.skip(k) =~= a.skip(k) + seq!['\\']);
        assert(escaped.skip(k) =~= a.skip(k) + seq!['\\', c] + b);
        assert(plain.skip(k) =~= a.skip(k) + seq![c] + b);
        assert(both.skip(k) =~= a.skip(k) + b);
    }
}

/// A text has a wildcard if `*` or `_` is in it and not escaped, and then it is
/// a regular expression; else it is plain text.
pub proof fn law_wildcards(a: Seq<char>, c: char, b: Seq<char>, wildcard: Seq<char>)
    requires
        well_escaped(a),
        well_escaped(b),
    ensures
        has_wildcard(a + b) == (has_wildcard(a) || has_wildcard(b)),
        c != '\\' ==> has_wildcard(seq![c]) == (c == '*' || c == '_'),
        !has_wildcard(seq!['\\', c]),
        to_custom_re(a, wildcard) == Some(
            if has_wildcard(a) {
                OptionalReView::Re(re_of(a, wildcard))
            } else {
                OptionalReView::Text(plain_of(a))
            },
        ),
        to_re(a) == to_custom_re(a, seq!['.']),
        to_enforced_re(a) == Some(re_of(a, seq!['.'])),
        to_glob(a) == Some(glob_of(a)),
    decreases a.len(),
{
    lemma_well_escaped(a);
    lemma_wildcard(a);
    lemma_no_wildcard(a, seq!['.']);
    let end = Seq::<char>::empty();
    assert(seq!['\\', c].skip(2) =~= end);
    assert(seq![c].skip(1) =~= end);
    assert(!has_wildcard(end));
    let s = a + b;
    if a.len() == 0 {
        assert(s =~= b);
    } else {
        let k: int = if a[0] == '\\' {
            2
        } else {
            1
        };
        law_wildcards(a.skip(k), c, b, wildcard);
        assert(s[0] == a[0]);
        assert(s.skip(k) =~= a.skip(k) + b);
    }
}

/// A text without wildcard, as a regular expression, matches that text and
/// nothing else.
proof fn lemma_no_wildcard(s: Seq<char>, wildcard: Seq<char>)
    requires
        well_escaped(s),
    ensures
        !has_wildcard(s) ==> re_of(s, wildcard) == quoted(plain_of(s)),
    decreases s.len(),
{
    if s.len() > 0 && !has_wildcard(s) {
        let k: int = if s[0] == '\\' {
            2
        } else {
            1
        };
        let head = s.take(k);
        let rest = s.skip(k);
        lemma_no_wildcard(rest, wildcard);
        assert(s =~= head + rest);
        let c = head[k - 1];
        assert(head =~= if k == 2 {
            seq!['\\', c]
        } else {
            seq![c]
        });
        let end = Seq::<char>::empty();
        assert(head.skip(k) =~= end);
        assert(well_escaped(end));
        assert(well_escaped(head));
        law_re_concat(head, rest, wildcard);
        law_plain_concat(head, rest);
        law_pieces(c, wildcard);
        law_quoted(plain_of(head), plain_of(rest), c);
    }
}

/// A text whose special characters are all escaped, as a regular expression,
/// matches that text and nothing else, whatever the wildcard.
pub proof fn law_escaped_text_as_re(t: Seq<char>, wildcard: Seq<char>)
    ensures
        re_of(escape_all(t), wildcard) == quoted(t),
{
    lemma_escape_all(t);
    lemma_no_wildcard(escape_all(t), wildcard);
}

/// Each backslash and quote becomes a quote, and nothing else changes.
pub proof fn law_quotes(a: Seq<char>, b: Seq<char>, c: char)
    requires
        !(a.len() > 0 && a.last() == '\\' && b.len() > 0 && b[0] == '"'),
    ensures
        quotes_unescaped(a + b) == quotes_unescaped(a) + quotes_unescaped(b),
        quotes_unescaped(seq![c]) == seq![c],
        quotes_unescaped(seq!['\\', '"']) == seq!['"'],
        quotes_unescaped(Seq::empty()) == Seq::<char>::empty(),
    decreases a.len(),
{
    let end = Seq::<char>::empty();
    assert(seq![c].skip(1) =~= end);
    assert(seq!['\\', '"'].skip(2) =~= end);
    assert(seq![c] + end =~= seq![c]);
    assert(seq!['"'] + end =~= seq!['"']);
    assert(quotes_unescaped(end) == end);
    let s = a + b;
    if a.len() == 0 {
        assert(s =~= b);
        assert(quotes_unescaped(a) + quotes_unescaped(b) =~= quotes_unescaped(b));
    } else {
        assert(s[0] == a[0]);
        if a.len() >= 2 {
            assert(s[1] == a[1]);
        } else if b.len() > 0 {
            assert(s[1] == b[0]);
        }
        let k: int = if a.len() >= 2 && a[0] == '\\' && a[1] == '"' {
            2
        } else {
            1
        };
        law_quotes(a.skip(k), b, c);
        assert(s.skip(k) =~= a.skip(k) + b);
        assert(quotes_unescaped(s) =~= quotes_unescaped(a) + quotes_unescaped(b));
    }
}

/// A list of numbers is one number or a number, a comma and a list of numbers.
/// The ASCII characters of a number are the digits.
pub proof fn law_id_list(number: Seq<char>, list: Seq<char>, c: char)
    requires
        !number.contains(','),
    ensures
        is_id_list(number) == (number.len() > 0 && forall|i: int|
            0 <= i < number.len() ==> decimal_digit(#[trigger] number[i])),
        is_id_list(number + seq![','] + list) == (is_id_list(number) && is_id_list(list)),
        c as u32 <= 0x7f ==> decimal_digit(c) == "0123456789"@.contains(c),
{
    reveal_strlit("0123456789");
    let digits = "0123456789"@;
    assert(digits =~= seq!['0', '1', '2', '3', '4', '5', '6', '7', '8', '9']);
    if '0' <= c <= '9' {
        assert(digits[c as u32 - '0' as u32] == c);
    }
    assert forall|i: int| 0 <= i < number.len() implies #[trigger] number[i] != ',' by {
        assert(number.contains(number[i]));
    }
    let s = number + seq![','] + list;
    let n = number.len() as int;
    assert(s[n] == ',');
    assert forall|i: int| 0 <= i < n implies s[i] == #[trigger] number[i] by {}
    assert forall|i: int| 0 <= i < list.len() implies s[n + 1 + i] == #[trigger] list[i] by {}
    assert(!decimal_digit(','));
    if is_id_list(s) {
        assert(s[n] == ',' && 0 < n < s.len() - 1 && decimal_digit(s[n - 1]));
        assert forall|i: int| 0 <= i < n implies decimal_digit(#[trigger] number[i]) by {
            assert(s[i] == number[i]);
        }
        assert forall|i: int| 0 <= i < list.len() implies decimal_digit(#[trigger] list[i]) || (
        list[i] == ',' && 0 < i < list.len() - 1 && decimal_digit(list[i - 1])) by {
            assert(s[n + 1 + i] == list[i]);
            if i == 0 {
                assert(s[n] == ',');
            } else {
                assert(s[n + 1 + (i - 1)] == list[i - 1]);
            }
        }
    }
    if is_id_list(number) && is_id_list(list) {
        assert forall|i: int| 0 <= i < s.len() implies decimal_digit(#[trigger] s[i]) || (s[i]
            == ',' && 0 < i < s.len() - 1 && decimal_digit(s[i - 1])) by {
            if i < n {
                assert(s[i] == number[i]);
            } else if i == n {
                assert(s[n - 1] == number[n - 1]);
            } else {
                assert(s[i] == list[i - n - 1]);
                if i > n + 1 {
                    assert(s[i - 1] == list[i - n - 2]);
                }
            }
        }
    }
}

} // verus!
