//! How terms make a search: in quotes and without, negated, in brackets, and
//! one after the other.

#[allow(unused_imports)]
use crate::ast::{Interrupt, NodeView, SearchView};
#[allow(unused_imports)]
use crate::brackets::law_brackets;
#[allow(unused_imports)]
use crate::escapes::to_glob;
#[allow(unused_imports)]
use crate::grammar::{
    any_node, group_node, group_or_term, is_space, joined, leading_spaces, lemma_leading_spaces,
    lemma_node_progress, lemma_run_end, more_nodes, partially_quoted_node, quoted_text, search_of,
    some_nodes, starts, term_node, term_search, unspaced, Run,
};
#[allow(unused_imports)]
use crate::laws::{
    is_gap, law_boolean_words, law_nodes_alternate, law_white_space_between, lemma_search_after,
    lemma_single_node, lemma_trimmed_len,
};
#[allow(unused_imports)]
use crate::quoting::{law_quotes_after_colon, lemma_quoted_text, lemma_run_through};
#[allow(unused_imports)]
use crate::strings::{lower, lowercase, trimmed, white_space};
#[allow(unused_imports)]
use crate::tails::{lemma_nodes_join, lemma_nodes_then, lemma_unquoted_after_key};
#[allow(unused_imports)]
use crate::terms::argument_search;
use vstd::prelude::*;

verus! {

/// Whether a string has the characters for which `stops` holds only behind a
/// backslash, no backslash with nothing behind it, and none before a character
/// for which `fixed` holds.
pub open spec fn is_text(
    t: Seq<char>,
    stops: spec_fn(char) -> bool,
    fixed: spec_fn(char) -> bool,
) -> bool
    decreases t.len(),
{
    if t.len() == 0 {
        true
    } else if t[0] == '\\' {
        t.len() >= 2 && !fixed(t[1]) && is_text(t.skip(2), stops, fixed)
    } else {
        !stops(t[0]) && is_text(t.skip(1), stops, fixed)
    }
}

/// Whether a string can stand outside of quotes: quotes and brackets in it are
/// escaped, and there is no white space.
pub open spec fn is_unquoted_text(t: Seq<char>) -> bool {
    is_text(
        t,
        |c: char|
            c == '"' || c == '(' || c == ')' || c == ' ' || c == '\u{3000}' || c == '\t' || c
                == '\n',
        |c: char| c == ' ' || c == '\u{3000}' || c == '\t' || c == '\n',
    )
}

/// Whether a string can stand in quotes: quotes in it are escaped.
pub open spec fn is_quoted_text(t: Seq<char>) -> bool {
    is_text(t, |c: char| c == '"', |c: char| false)
}

/// Whether a string can stand outside of quotes before a colon.
pub open spec fn is_key_text(t: Seq<char>) -> bool {
    is_text(
        t,
        |c: char|
            c == '"' || c == '(' || c == ')' || c == ':' || c == ' ' || c == '\u{3000}' || c == '\t'
                || c == '\n',
        |c: char| c == ':' || c == ' ' || c == '\u{3000}' || c == '\t' || c == '\n',
    )
}

/// Whether the colons in a string are escaped.
pub open spec fn has_no_colon(t: Seq<char>) -> bool {
    is_text(t, |c: char| c == ':', |c: char| false)
}

/// A string in quotes.
pub open spec fn in_quotes(t: Seq<char>) -> Seq<char> {
    seq!['"'] + t + seq!['"']
}

proof fn lemma_text_run(
    run: Run,
    t: Seq<char>,
    i: int,
    stops: spec_fn(char) -> bool,
    fixed: spec_fn(char) -> bool,
)
    requires
        0 <= i <= t.len(),
        forall|c: char| c != '\\' ==> #[trigger] run.ends(c) == stops(c),
        forall|c: char| #[trigger] run.allows(c) == !fixed(c),
    ensures
        (run.end(t, i) == Some(t.len() as int)) == is_text(t.skip(i), stops, fixed),
    decreases t.len() - i,
{
    let rest = t.skip(i);
    if i < t.len() {
        assert(rest[0] == t[i]);
        assert(run.ends(t[i]) == stops(t[i]) || t[i] == '\\');
        lemma_text_run(run, t, i + 1, stops, fixed);
        assert(rest.skip(1) =~= t.skip(i + 1));
        if i + 1 < t.len() {
            assert(rest[1] == t[i + 1]);
            assert(run.allows(t[i + 1]) == !fixed(t[i + 1]));
            lemma_text_run(run, t, i + 2, stops, fixed);
            assert(rest.skip(2) =~= t.skip(i + 2));
        }
    }
}

/// What is read as text, of each kind, and as white space.
pub proof fn law_texts_read(t: Seq<char>, c: char)
    ensures
        (Run::Unquoted.end(t, 0) == Some(t.len() as int)) == is_unquoted_text(t),
        (Run::Quoted.end(t, 0) == Some(t.len() as int)) == is_quoted_text(t),
        (Run::Key.end(t, 0) == Some(t.len() as int)) == is_key_text(t),
        (Run::Term.end(t, 0) == Some(t.len() as int)) == has_no_colon(t),
        is_space(c) == (c == ' ' || c == '\u{3000}' || c == '\t' || c == '\n'),
{
    assert(t.skip(0) =~= t);
    lemma_text_run(
        Run::Unquoted,
        t,
        0,
        |c: char|
            c == '"' || c == '(' || c == ')' || c == ' ' || c == '\u{3000}' || c == '\t' || c
                == '\n',
        |c: char| c == ' ' || c == '\u{3000}' || c == '\t' || c == '\n',
    );
    lemma_text_run(Run::Quoted, t, 0, |c: char| c == '"', |c: char| false);
    lemma_text_run(
        Run::Key,
        t,
        0,
        |c: char|
            c == '"' || c == '(' || c == ')' || c == ':' || c == ' ' || c == '\u{3000}' || c == '\t'
                || c == '\n',
        |c: char| c == ':' || c == ' ' || c == '\u{3000}' || c == '\t' || c == '\n',
    );
    lemma_text_run(Run::Term, t, 0, |c: char| c == ':', |c: char| false);
}

/// What a search for one term asks for.
pub open spec fn one_term(search: Option<SearchView>) -> Option<Seq<NodeView>> {
    match search {
        Some(search) => Some(seq![NodeView::Search(search)]),
        None => None,
    }
}

/// A string at whose start no node stands is no search.
proof fn lemma_no_node(s: Seq<char>)
    requires
        trimmed(s) == s,
        s.len() > 0,
        any_node(s) is Err,
    ensures
        search_of(s) is None,
{
}

/// A term in quotes is read up to the closing quote, whatever follows.
pub proof fn law_quoted_term(t: Seq<char>, rest: Seq<char>)
    requires
        t.len() > 0,
        is_quoted_text(t),
    ensures
        any_node(in_quotes(t) + rest) == match term_search(t) {
            Some(search) => Ok((rest, NodeView::Search(search))),
            None => Err(Interrupt::Error),
        },
        group_or_term(in_quotes(t) + rest) == any_node(in_quotes(t) + rest),
{
    law_texts_read(t, ' ');
    let s = in_quotes(t) + rest;
    lemma_quoted_text(t, rest);
    assert(s[0] == '"');
    assert(Run::Key.end(s, 0) == Some(0int));
    assert(Run::Unquoted.end(s, 0) == Some(0int));
    assert(leading_spaces(s) == 0);
    assert(unspaced(s) =~= s);
}

/// A term in quotes is a search for what the term asks for.
proof fn lemma_search_in_quotes(t: Seq<char>)
    requires
        t.len() > 0,
        is_quoted_text(t),
    ensures
        search_of(in_quotes(t)) == one_term(term_search(t)),
{
    let end = Seq::<char>::empty();
    let s = in_quotes(t);
    assert(s + end =~= s);
    law_quoted_term(t, end);
    lemma_trimmed_len(s);
    if let Some(search) = term_search(t) {
        lemma_single_node(s, NodeView::Search(search));
    } else {
        lemma_no_node(s);
    }
}

proof fn lemma_term_without_colon(t: Seq<char>)
    requires
        t.len() > 0,
        has_no_colon(t),
    ensures
        term_search(t) == match to_glob(t) {
            Some(text) => Some(SearchView::UnqualifiedText(text)),
            None => None,
        },
{
    law_texts_read(t, ' ');
    assert(t.skip(t.len() as int) =~= Seq::empty());
    assert(t.take(t.len() as int) =~= t);
}

#[verifier::spinoff_prover]
#[verifier::rlimit(40)]
proof fn lemma_term_with_colon(key: Seq<char>, val: Seq<char>)
    requires
        has_no_colon(key),
    ensures
        term_search(key + seq![':'] + val) == if key.len() > 0 {
            argument_search(key, val)
        } else {
            None
        },
{
    law_texts_read(key, ' ');
    let s = key + seq![':'] + val;
    let tail = seq![':'] + val;
    assert(s =~= key + tail);
    lemma_run_through(Run::Term, key, tail, 0);
    assert(s[key.len() as int] == ':');
    assert(Run::Term.end(s, 0) == Some(key.len() as int));
    assert(s.skip(key.len() as int) =~= tail);
    assert(s.take(key.len() as int) =~= key);
    assert(tail.skip(1) =~= val);
}

/// Text in quotes without a colon is searched for, as an SQL pattern.
pub proof fn law_text_in_quotes(t: Seq<char>)
    requires
        t.len() > 0,
        is_quoted_text(t),
        has_no_colon(t),
    ensures
        search_of(in_quotes(t)) == one_term(
            match to_glob(t) {
                Some(text) => Some(SearchView::UnqualifiedText(text)),
                None => None,
            },
        ),
{
    lemma_search_in_quotes(t);
    lemma_term_without_colon(t);
}

/// Text in quotes with a colon is a key and its argument. The first colon that
/// is not escaped parts them.
pub proof fn law_argument_in_quotes(key: Seq<char>, val: Seq<char>)
    requires
        has_no_colon(key),
        is_quoted_text(key + seq![':'] + val),
    ensures
        search_of(in_quotes(key + seq![':'] + val)) == one_term(
            if key.len() > 0 {
                argument_search(key, val)
            } else {
                None
            },
        ),
{
    lemma_search_in_quotes(key + seq![':'] + val);
    lemma_term_with_colon(key, val);
}

/// Quotes may stand around the argument alone.
#[verifier::spinoff_prover]
#[verifier::rlimit(40)]
pub proof fn law_quotes_around_argument(key: Seq<char>, val: Seq<char>)
    requires
        key.len() > 0,
        val.len() > 0,
        is_key_text(key),
        is_quoted_text(val),
        key[0] != '-',
        !white_space(key[0]),
        argument_search(key, val) is Some,
    ensures
        search_of(key + seq![':'] + in_quotes(val)) == one_term(argument_search(key, val)),
        search_of(key + seq![':'] + in_quotes(val)) == search_of(in_quotes(key + seq![':'] + val)),
{
    let end = Seq::<char>::empty();
    law_texts_read(key, key[0]);
    law_texts_read(val, ' ');
    law_quotes_after_colon(key, val, end);
    let s = key + seq![':'] + in_quotes(val);
    assert(s =~= key + seq![':'] + (seq!['"'] + val + seq!['"'] + end));
    assert(s[0] == key[0]);
    if key[0] == '(' || key[0] == '"' {
        assert(Run::Key.end(key, 0) == Some(0int));
    }
    assert(leading_spaces(s) == 0);
    assert(unspaced(s) =~= s);
    lemma_trimmed_len(s);
    let search = argument_search(key, val)->Some_0;
    lemma_single_node(s, NodeView::Search(search));
    let both = in_quotes(key + seq![':'] + val);
    assert(both =~= seq!['"'] + (key + seq![':'] + val) + seq!['"'] + end);
    assert(both[0] == '"');
    assert(leading_spaces(both) == 0);
    assert(unspaced(both) =~= both);
    lemma_trimmed_len(both);
    lemma_single_node(both, NodeView::Search(search));
}

/// A term outside of quotes is read up to white space, a quote or a bracket. (A
/// quote right behind a colon belongs to the term.)
#[verifier::spinoff_prover]
#[verifier::rlimit(40)]
pub proof fn law_unquoted_term(t: Seq<char>, rest: Seq<char>)
    requires
        t.len() > 0,
        is_unquoted_text(t),
        rest.len() > 0 ==> Run::Unquoted.ends(rest[0]) && rest[0] != '\\' && (rest[0] == '"'
            ==> t.last() != ':'),
    ensures
        group_or_term(t + rest) == if lowercase(t) == "or"@ {
            Ok((rest, NodeView::Or))
        } else if lowercase(t) == "and"@ {
            Ok((rest, NodeView::And))
        } else {
            match term_search(t) {
                Some(search) => Ok((rest, NodeView::Search(search))),
                None => Err(Interrupt::Error),
            }
        },
        leading_spaces(t + rest) == 0,
{
    law_texts_read(t, t[0]);
    let s = t + rest;
    let n = t.len() as int;
    assert(s[0] == t[0]);
    lemma_run_through(Run::Unquoted, t, rest, 0);
    if rest.len() > 0 {
        assert(s[n] == rest[0]);
    }
    assert(Run::Unquoted.end(s, 0) == Some(n));
    assert(s.skip(n) =~= rest);
    assert(s.take(n) =~= t);
    assert(!Run::Unquoted.ends(t[0]) || t[0] == '\\') by {
        if t[0] != '\\' && Run::Unquoted.ends(t[0]) {
            assert(Run::Unquoted.end(t, 0) == Some(0int));
        }
    }
    if let Some(k) = Run::Key.end(s, 0) {
        lemma_run_end(Run::Key, s, 0);
        let after = s.skip(k);
        if starts(after, ':') && starts(after.skip(1), '"') {
            assert(s[k] == ':');
            assert(s[k + 1] == '"');
            lemma_unquoted_after_key(s, 0);
            assert(s[n] == '"');
            assert(t.last() == s[n - 1]);
        }
    }
}

/// A term outside of quotes asks for the same as in quotes.
#[verifier::spinoff_prover]
#[verifier::rlimit(40)]
pub proof fn law_quotes_left_out(t: Seq<char>)
    requires
        t.len() > 0,
        is_unquoted_text(t),
        !white_space(t.first()),
        !white_space(t.last()),
        t[0] != '-' || t.len() == 1,
        lowercase(t) != "or"@,
        lowercase(t) != "and"@,
    ensures
        search_of(t) == search_of(in_quotes(t)),
{
    let end = Seq::<char>::empty();
    lemma_unquoted_is_quoted(t);
    lemma_search_in_quotes(t);
    law_unquoted_term(t, end);
    assert(t + end =~= t);
    assert(unspaced(t) =~= t);
    lemma_trimmed_len(t);
    if t[0] == '-' {
        assert(t.skip(1) =~= end);
        assert(group_or_term(end) == Err::<(Seq<char>, NodeView), Interrupt>(Interrupt::Error));
    }
    if let Some(search) = term_search(t) {
        lemma_single_node(t, NodeView::Search(search));
    } else {
        lemma_no_node(t);
    }
}

/// What can stand outside of quotes can stand in quotes.
proof fn lemma_unquoted_is_quoted(t: Seq<char>)
    requires
        is_unquoted_text(t),
    ensures
        is_quoted_text(t),
    decreases t.len(),
{
    if t.len() > 0 {
        if t[0] == '\\' {
            lemma_unquoted_is_quoted(t.skip(2));
        } else {
            lemma_unquoted_is_quoted(t.skip(1));
        }
    }
}

/// Text without quotes and without a colon is searched for, as an SQL pattern.
pub proof fn law_plain_term(t: Seq<char>)
    requires
        t.len() > 0,
        is_unquoted_text(t),
        has_no_colon(t),
        !white_space(t.first()),
        !white_space(t.last()),
        t[0] != '-' || t.len() == 1,
        lowercase(t) != "or"@,
        lowercase(t) != "and"@,
    ensures
        search_of(t) == one_term(
            match to_glob(t) {
                Some(text) => Some(SearchView::UnqualifiedText(text)),
                None => None,
            },
        ),
{
    law_quotes_left_out(t);
    lemma_unquoted_is_quoted(t);
    law_text_in_quotes(t);
}

/// Text without quotes and with a colon is a key and its argument. The first
/// colon that is not escaped parts them.
pub proof fn law_plain_argument(key: Seq<char>, val: Seq<char>)
    requires
        key.len() > 0,
        has_no_colon(key),
        is_unquoted_text(key + seq![':'] + val),
        !white_space(key.first()),
        val.len() > 0 ==> !white_space(val.last()),
        key[0] != '-',
    ensures
        search_of(key + seq![':'] + val) == one_term(argument_search(key, val)),
{
    let t = key + seq![':'] + val;
    assert(t[key.len() as int] == ':');
    lemma_no_word_with_colon(t, key.len() as int);
    if val.len() > 0 {
        assert(t.last() == val.last());
    }
    law_quotes_left_out(t);
    lemma_unquoted_is_quoted(t);
    law_argument_in_quotes(key, val);
}

/// A minus sign before a search negates its first node.
#[verifier::spinoff_prover]
#[verifier::rlimit(40)]
pub proof fn law_minus(s: Seq<char>, nodes: Seq<NodeView>)
    requires
        s.len() > 0,
        !white_space(s.first()),
        !white_space(s.last()),
        s[0] != '-',
        search_of(s) == Some(nodes),
    ensures
        nodes.len() > 0,
        search_of(seq!['-'] + s) == Some(
            seq![NodeView::Not(Box::new(nodes[0]))] + nodes.skip(1),
        ),
{
    lemma_trimmed_len(s);
    let negation = seq!['-'] + s;
    assert(negation.last() == s.last());
    lemma_trimmed_len(negation);
    law_nodes_alternate(s);
    law_texts_read(s, s[0]);
    assert(leading_spaces(s) == 0);
    assert(unspaced(s) =~= s);
    assert(leading_spaces(negation) == 0);
    assert(unspaced(negation) =~= negation);
    assert(negation.skip(1) =~= s);
    lemma_node_progress(s);
    lemma_node_progress(negation);
    let (rest, first) = any_node(s)->Ok_0;
    let not = NodeView::Not(Box::new(first));
    assert(any_node(negation) == Ok::<(Seq<char>, NodeView), Interrupt>((rest, not)));
    let one = joined(Seq::empty(), first);
    let other = joined(Seq::empty(), not);
    assert(some_nodes(s) == more_nodes(rest, one));
    assert(some_nodes(negation) == more_nodes(rest, other));
    assert(one =~= seq![first]);
    assert(other =~= seq![not]);
    assert(one.skip(1) =~= other.skip(1));
    lemma_other_first(rest, one, other);
}

/// A minus sign right before a node negates it, and leaves the same rest.
pub proof fn law_minus_before_node(s: Seq<char>, rest: Seq<char>, node: NodeView)
    requires
        s.len() > 0,
        !is_space(s[0]),
        s[0] != '-',
        any_node(s) == Ok::<(Seq<char>, NodeView), Interrupt>((rest, node)),
    ensures
        any_node(seq!['-'] + s) == Ok::<(Seq<char>, NodeView), Interrupt>(
            (rest, NodeView::Not(Box::new(node))),
        ),
{
    let negation = seq!['-'] + s;
    assert(leading_spaces(s) == 0);
    assert(unspaced(s) =~= s);
    assert(leading_spaces(negation) == 0);
    assert(unspaced(negation) =~= negation);
    assert(negation.skip(1) =~= s);
}

/// A list fails after an even number of other nodes, if it fails without them.
proof fn lemma_failed_after(s: Seq<char>, before: Seq<NodeView>, nodes: Seq<NodeView>)
    requires
        before.len() % 2 == 0,
        before.len() > 0 ==> before.last().is_boolean(),
        more_nodes(s, nodes) is Err,
    ensures
        more_nodes(s, before + nodes) is Err,
    decreases s.len(),
{
    lemma_node_progress(s);
    if nodes.len() > 0 {
        assert((before + nodes).last() == nodes.last());
    } else {
        assert(before + nodes =~= before);
    }
    if let Ok((rest, node)) = any_node(s) {
        if !(nodes.len() % 2 == 0 && node.is_boolean()) {
            lemma_failed_after(rest, before, joined(nodes, node));
            assert(before + joined(nodes, node) =~= joined(before + nodes, node));
        }
    }
}

/// A list is its first node, and if more follows, a word that joins or an `And`
/// in its place, and the list of the rest.
pub proof fn law_first_node(s: Seq<char>, rest: Seq<char>, first: NodeView)
    requires
        any_node(s) == Ok::<(Seq<char>, NodeView), Interrupt>((rest, first)),
    ensures
        first.is_boolean() ==> some_nodes(s) is Err,
        !first.is_boolean() ==> match any_node(rest) {
            Err(Interrupt::Error) => some_nodes(s) == Ok::<(Seq<char>, Seq<NodeView>), Interrupt>(
                (unspaced(rest), seq![first]),
            ),
            Err(Interrupt::Failure) => some_nodes(s) is Err,
            Ok((last, next)) => if next.is_boolean() {
                match some_nodes(last) {
                    Ok((end, nodes)) => some_nodes(s) == Ok::<
                        (Seq<char>, Seq<NodeView>),
                        Interrupt,
                    >((end, seq![first, next] + nodes)),
                    Err(_) => some_nodes(s) is Err,
                }
            } else {
                match some_nodes(rest) {
                    Ok((end, nodes)) => some_nodes(s) == Ok::<
                        (Seq<char>, Seq<NodeView>),
                        Interrupt,
                    >((end, seq![first, NodeView::And] + nodes)),
                    Err(_) => some_nodes(s) is Err,
                }
            },
        },
{
    lemma_node_progress(s);
    lemma_node_progress(rest);
    let one = joined(Seq::empty(), first);
    assert(one =~= seq![first]);
    if !first.is_boolean() {
        assert(some_nodes(s) == more_nodes(rest, one));
        if let Ok((last, next)) = any_node(rest) {
            let before = seq![
                first,
                if next.is_boolean() {
                    next
                } else {
                    NodeView::And
                },
            ];
            assert(before.last().is_boolean());
            let tail = if next.is_boolean() {
                last
            } else {
                rest
            };
            if next.is_boolean() {
                assert(joined(one, next) =~= before);
            } else {
                assert(joined(one, next) =~= joined(before, next));
            }
            assert(more_nodes(rest, one) == more_nodes(tail, before));
            if some_nodes(tail) is Ok {
                lemma_search_after(tail, before);
            } else {
                lemma_failed_after(tail, before, Seq::empty());
                assert(before + Seq::empty() =~= before);
            }
        }
    }
}

/// Nodes that are read depend on those before them only in their number and the
/// kind of the last.
proof fn lemma_other_first(s: Seq<char>, one: Seq<NodeView>, other: Seq<NodeView>)
    requires
        one.len() == other.len() > 0,
        !one[0].is_boolean(),
        !other[0].is_boolean(),
        one.skip(1) == other.skip(1),
        more_nodes(s, one) is Ok,
    ensures
        more_nodes(s, one) matches Ok((rest, all)) && all.len() > 0 && all[0] == one[0]
            && more_nodes(s, other) == Ok::<(Seq<char>, Seq<NodeView>), Interrupt>(
            (rest, seq![other[0]] + all.skip(1)),
        ),
    decreases s.len(),
{
    lemma_node_progress(s);
    match any_node(s) {
        Ok((rest, node)) => {
            let more = joined(one, node);
            let others = joined(other, node);
            assert(more[0] == one[0] && others[0] == other[0]);
            assert(more.skip(1) =~= joined(one, node).skip(1));
            assert forall|i: int| 1 <= i < one.len() implies one[i] == #[trigger] other[i] by {
                assert(one[i] == one.skip(1)[i - 1]);
                assert(other[i] == other.skip(1)[i - 1]);
            }
            assert(more.skip(1) =~= others.skip(1));
            lemma_other_first(rest, more, others);
        },
        Err(_) => {
            if one.len() > 1 {
                assert(one.last() == one.skip(1).last());
                assert(other.last() == other.skip(1).last());
            }
            assert(other =~= seq![other[0]] + one.skip(1));
        },
    }
}

/// A minus sign before a term outside of quotes negates the term, also if it is
/// `and` or `or`. Where the term is no valid one, the minus sign belongs to it.
#[verifier::spinoff_prover]
#[verifier::rlimit(40)]
pub proof fn law_minus_before_term(t: Seq<char>)
    requires
        t.len() > 0,
        is_unquoted_text(t),
        !white_space(t.last()),
    ensures
        lowercase(t) == "and"@ ==> search_of(seq!['-'] + t) == Some(
            seq![NodeView::Not(Box::new(NodeView::And))],
        ),
        lowercase(t) == "or"@ ==> search_of(seq!['-'] + t) == Some(
            seq![NodeView::Not(Box::new(NodeView::Or))],
        ),
        lowercase(t) != "and"@ && lowercase(t) != "or"@ ==> match search_of(in_quotes(t)) {
            Some(nodes) => nodes.len() == 1 && search_of(seq!['-'] + t) == Some(
                seq![NodeView::Not(Box::new(nodes[0]))],
            ),
            None => search_of(seq!['-'] + t) == search_of(in_quotes(seq!['-'] + t)),
        },
{
    let end = Seq::<char>::empty();
    let s = seq!['-'] + t;
    reveal_strlit("and");
    reveal_strlit("or");
    lemma_unquoted_is_quoted(t);
    lemma_search_in_quotes(t);
    law_unquoted_term(t, end);
    assert(t + end =~= t);
    assert(s.skip(1) =~= t);
    assert(is_unquoted_text(s));
    lemma_unquoted_is_quoted(s);
    lemma_search_in_quotes(s);
    law_unquoted_term(s, end);
    assert(s + end =~= s);
    assert(unspaced(s) =~= s);
    assert(s.last() == t.last());
    lemma_trimmed_len(s);
    assert(lowercase(s)[0] == '-');
    if lowercase(t) == "or"@ {
        lemma_single_node(s, NodeView::Not(Box::new(NodeView::Or)));
    } else if lowercase(t) == "and"@ {
        assert("or"@.len() != "and"@.len());
        lemma_single_node(s, NodeView::Not(Box::new(NodeView::And)));
    } else if let Some(search) = term_search(t) {
        lemma_single_node(s, NodeView::Not(Box::new(NodeView::Search(search))));
    } else if let Some(search) = term_search(s) {
        lemma_single_node(s, NodeView::Search(search));
    } else {
        lemma_no_node(s);
    }
}

/// A node and, right behind it, a search.
#[verifier::spinoff_prover]
#[verifier::rlimit(40)]
proof fn lemma_node_before(x: Seq<char>, node: NodeView, b: Seq<char>, nb: Seq<NodeView>)
    requires
        x.len() > 0,
        !white_space(x.first()),
        any_node(x + b) == Ok::<(Seq<char>, NodeView), Interrupt>((b, node)),
        !node.is_boolean(),
        b.len() > 0,
        !white_space(b.first()),
        !white_space(b.last()),
        search_of(b) == Some(nb),
    ensures
        search_of(x + b) == Some(seq![node, NodeView::And] + nb),
{
    let s = x + b;
    lemma_trimmed_len(b);
    lemma_trimmed_len(s);
    lemma_node_progress(s);
    lemma_node_progress(b);
    let one = joined(Seq::empty(), node);
    assert(one =~= seq![node]);
    assert(some_nodes(s) == more_nodes(b, one));
    let before = seq![node, NodeView::And];
    lemma_search_after(b, before);
    let (rest, first) = any_node(b)->Ok_0;
    assert(joined(one, first) =~= joined(before, first));
    assert(more_nodes(b, one) == more_nodes(b, before));
}

/// Brackets need no white space behind them: what follows is joined by `And`.
pub proof fn law_no_space_after_brackets(
    a: Seq<char>,
    na: Seq<NodeView>,
    b: Seq<char>,
    nb: Seq<NodeView>,
)
    requires
        a.len() > 0,
        !white_space(a.first()),
        !white_space(a.last()),
        search_of(a) == Some(na),
        b.len() > 0,
        !white_space(b.first()),
        !white_space(b.last()),
        search_of(b) == Some(nb),
    ensures
        search_of(seq!['('] + a + seq![')'] + b) == Some(
            seq![NodeView::Group(na), NodeView::And] + nb,
        ),
{
    let x = seq!['('] + a + seq![')'];
    let node = NodeView::Group(na);
    lemma_trimmed_len(a);
    assert(some_nodes(a)->Ok_0.0 =~= Seq::empty());
    law_brackets(a, na, b);
    assert(leading_spaces(x + b) == 0);
    assert(unspaced(x + b) =~= x + b);
    assert(any_node(x + b) == Ok::<(Seq<char>, NodeView), Interrupt>((b, node)));
    lemma_node_before(x, node, b, nb);
}

/// Quotes need no white space behind them: what follows is joined by `And`.
#[verifier::spinoff_prover]
#[verifier::rlimit(40)]
pub proof fn law_no_space_after_quotes(
    t: Seq<char>,
    nt: Seq<NodeView>,
    b: Seq<char>,
    nb: Seq<NodeView>,
)
    requires
        t.len() > 0,
        is_quoted_text(t),
        search_of(in_quotes(t)) == Some(nt),
        b.len() > 0,
        !white_space(b.first()),
        !white_space(b.last()),
        search_of(b) == Some(nb),
    ensures
        search_of(in_quotes(t) + b) == Some(nt + seq![NodeView::And] + nb),
{
    lemma_search_in_quotes(t);
    let node = NodeView::Search(term_search(t)->Some_0);
    law_quoted_term(t, b);
    lemma_node_before(in_quotes(t), node, b, nb);
    assert(nt + seq![NodeView::And] + nb =~= seq![node, NodeView::And] + nb);
}

/// Quotes around an argument need no white space behind them: what follows is
/// joined by `And`.
#[verifier::spinoff_prover]
#[verifier::rlimit(40)]
pub proof fn law_no_space_after_argument(
    key: Seq<char>,
    val: Seq<char>,
    search: SearchView,
    b: Seq<char>,
    nb: Seq<NodeView>,
)
    requires
        key.len() > 0,
        val.len() > 0,
        is_key_text(key),
        is_quoted_text(val),
        key[0] != '-',
        !white_space(key[0]),
        argument_search(key, val) == Some(search),
        b.len() > 0,
        !white_space(b.first()),
        !white_space(b.last()),
        search_of(b) == Some(nb),
    ensures
        search_of(key + seq![':'] + in_quotes(val) + b) == Some(
            seq![NodeView::Search(search), NodeView::And] + nb,
        ),
{
    let x = key + seq![':'] + in_quotes(val);
    let s = x + b;
    law_texts_read(key, key[0]);
    law_texts_read(val, ' ');
    law_quotes_after_colon(key, val, b);
    assert(s =~= key + seq![':'] + (seq!['"'] + val + seq!['"'] + b));
    assert(s[0] == key[0]);
    if key[0] == '(' || key[0] == '"' {
        assert(Run::Key.end(key, 0) == Some(0int));
    }
    assert(leading_spaces(s) == 0);
    assert(unspaced(s) =~= s);
    lemma_node_before(x, NodeView::Search(search), b, nb);
}

/// A node, a word that joins, and a search. There may be no white space before
/// the word.
#[verifier::spinoff_prover]
#[verifier::rlimit(40)]
proof fn lemma_node_joined(
    x: Seq<char>,
    node: NodeView,
    gap: Seq<char>,
    word: Seq<char>,
    next_gap: Seq<char>,
    b: Seq<char>,
    nb: Seq<NodeView>,
)
    requires
        x.len() > 0,
        !white_space(x.first()),
        any_node(x + (gap + (word + (next_gap + b)))) == Ok::<(Seq<char>, NodeView), Interrupt>(
            (gap + (word + (next_gap + b)), node),
        ),
        !node.is_boolean(),
        is_gap(gap),
        is_gap(next_gap),
        next_gap.len() > 0 || b[0] == '"' || b[0] == '(',
        lowercase(word) == "and"@ || lowercase(word) == "or"@,
        b.len() > 0,
        !white_space(b.first()),
        !white_space(b.last()),
        search_of(b) == Some(nb),
    ensures
        search_of(x + gap + word + next_gap + b) == Some(seq![node, word_node(word)] + nb),
{
    let last = next_gap + b;
    let middle = word + last;
    let u = gap + middle;
    let s = x + gap + word + next_gap + b;
    assert(s =~= x + u);
    lemma_trimmed_len(b);
    assert(s.first() == x.first() && s.last() == b.last());
    lemma_trimmed_len(s);
    lemma_node_progress(s);
    let one = joined(Seq::empty(), node);
    assert(one =~= seq![node]);
    assert(some_nodes(s) == more_nodes(u, one));
    law_white_space_between(gap, middle, one);
    assert(last[0] == if next_gap.len() > 0 {
        next_gap[0]
    } else {
        b[0]
    });
    lemma_boolean_node(word, last);
    lemma_node_progress(middle);
    let before = seq![node, word_node(word)];
    assert(joined(one, word_node(word)) =~= before);
    assert(more_nodes(middle, one) == more_nodes(last, before));
    law_white_space_between(next_gap, b, before);
    lemma_search_after(b, before);
}

/// The node for a word that joins.
pub open spec fn word_node(word: Seq<char>) -> NodeView {
    if lowercase(word) == "and"@ {
        NodeView::And
    } else {
        NodeView::Or
    }
}

/// Behind brackets, `and` and `or` need no white space before them.
pub proof fn law_word_after_brackets(
    a: Seq<char>,
    na: Seq<NodeView>,
    gap: Seq<char>,
    word: Seq<char>,
    next_gap: Seq<char>,
    b: Seq<char>,
    nb: Seq<NodeView>,
)
    requires
        a.len() > 0,
        !white_space(a.first()),
        !white_space(a.last()),
        search_of(a) == Some(na),
        is_gap(gap),
        is_gap(next_gap),
        next_gap.len() > 0 || b[0] == '"' || b[0] == '(',
        lowercase(word) == "and"@ || lowercase(word) == "or"@,
        b.len() > 0,
        !white_space(b.first()),
        !white_space(b.last()),
        search_of(b) == Some(nb),
    ensures
        search_of(seq!['('] + a + seq![')'] + gap + word + next_gap + b) == Some(
            seq![NodeView::Group(na), word_node(word)] + nb,
        ),
{
    let x = seq!['('] + a + seq![')'];
    let u = gap + (word + (next_gap + b));
    lemma_trimmed_len(a);
    assert(some_nodes(a)->Ok_0.0 =~= Seq::empty());
    law_brackets(a, na, u);
    assert(leading_spaces(x + u) == 0);
    assert(unspaced(x + u) =~= x + u);
    lemma_node_joined(x, NodeView::Group(na), gap, word, next_gap, b, nb);
}

/// Behind quotes, `and` and `or` need no white space before them.
pub proof fn law_word_after_quotes(
    t: Seq<char>,
    search: SearchView,
    gap: Seq<char>,
    word: Seq<char>,
    next_gap: Seq<char>,
    b: Seq<char>,
    nb: Seq<NodeView>,
)
    requires
        t.len() > 0,
        is_quoted_text(t),
        search_of(in_quotes(t)) == Some(seq![NodeView::Search(search)]),
        is_gap(gap),
        is_gap(next_gap),
        next_gap.len() > 0 || b[0] == '"' || b[0] == '(',
        lowercase(word) == "and"@ || lowercase(word) == "or"@,
        b.len() > 0,
        !white_space(b.first()),
        !white_space(b.last()),
        search_of(b) == Some(nb),
    ensures
        search_of(in_quotes(t) + gap + word + next_gap + b) == Some(
            seq![NodeView::Search(search), word_node(word)] + nb,
        ),
{
    lemma_search_in_quotes(t);
    assert(seq![NodeView::Search(search)][0] == NodeView::Search(search));
    assert(term_search(t) == Some(search));
    law_quoted_term(t, gap + (word + (next_gap + b)));
    lemma_node_joined(in_quotes(t), NodeView::Search(search), gap, word, next_gap, b, nb);
}

/// Where a key does not take an argument that stands in quotes, the key is read
/// with no argument, and the quotes as a term of their own.
#[verifier::spinoff_prover]
#[verifier::rlimit(40)]
pub proof fn law_argument_not_taken(key: Seq<char>, val: Seq<char>)
    requires
        key.len() > 0,
        val.len() > 0,
        is_key_text(key),
        is_quoted_text(val),
        key[0] != '-',
        !white_space(key[0]),
        argument_search(key, val) is None,
    ensures
        search_of(key + seq![':'] + in_quotes(val)) == match (
            argument_search(key, Seq::empty()),
            search_of(in_quotes(val)),
        ) {
            (Some(search), Some(nodes)) => Some(
                seq![NodeView::Search(search), NodeView::And] + nodes,
            ),
            _ => None,
        },
{
    let end = Seq::<char>::empty();
    let t = key + seq![':'];
    let b = in_quotes(val);
    let s = t + b;
    law_texts_read(key, key[0]);
    law_texts_read(val, ' ');
    law_quotes_after_colon(key, val, end);
    assert(s =~= key + seq![':'] + (seq!['"'] + val + seq!['"'] + end));
    assert(partially_quoted_node(s) is Err);
    lemma_key_term(key);
    assert(t + end =~= key + seq![':'] + end);
    lemma_term_with_colon(key, end);
    assert(t + end =~= t);
    let n = t.len() as int;
    assert(s[0] == key[0]);
    assert(s[n] == '"');
    lemma_run_through(Run::Unquoted, t, b, 0);
    assert(Run::Unquoted.end(s, 0) == Some(n));
    assert(s.skip(n) =~= b);
    assert(s.take(n) =~= t);
    if key[0] == '(' || key[0] == '"' {
        assert(Run::Key.end(key, 0) == Some(0int));
    }
    assert(leading_spaces(s) == 0);
    assert(unspaced(s) =~= s);
    lemma_trimmed_len(s);
    lemma_search_in_quotes(val);
    law_quoted_term(val, end);
    assert(b + end =~= b);
    match argument_search(key, end) {
        None => {
            lemma_no_node(s);
        },
        Some(search) => {
            let node = NodeView::Search(search);
            assert(any_node(s) == Ok::<(Seq<char>, NodeView), Interrupt>((b, node)));
            if let Some(nodes) = search_of(b) {
                lemma_node_before(t, node, b, nodes);
            } else {
                lemma_node_progress(s);
                let one = joined(Seq::empty(), node);
                assert(one =~= seq![node]);
                assert(some_nodes(s) == more_nodes(b, one));
                assert(leading_spaces(b) == 0);
                assert(unspaced(b) =~= b);
                assert(any_node(b) is Err);
            }
        },
    }
}

/// A key and its colon can stand outside of quotes, and are no word that joins.
proof fn lemma_key_term(key: Seq<char>)
    requires
        key.len() > 0,
        is_key_text(key),
    ensures
        has_no_colon(key),
        Run::Unquoted.end(key + seq![':'], 0) == Some(key.len() + 1int),
        lowercase(key + seq![':']) != "or"@,
        lowercase(key + seq![':']) != "and"@,
{
    lemma_key_runs(key);
    law_texts_read(key, ' ');
    let t = key + seq![':'];
    let n = key.len() as int;
    lemma_run_through(Run::Unquoted, key, seq![':'], 0);
    assert(t[n] == ':');
    assert(Run::Unquoted.end(t, n) == Run::Unquoted.end(t, n + 1));
    lemma_no_word_with_colon(t, n);
}

proof fn lemma_key_runs(key: Seq<char>)
    requires
        is_key_text(key),
    ensures
        has_no_colon(key),
        is_unquoted_text(key),
    decreases key.len(),
{
    if key.len() > 0 {
        if key[0] == '\\' {
            lemma_key_runs(key.skip(2));
        } else {
            lemma_key_runs(key.skip(1));
        }
    }
}

/// A string with a colon is no word that joins.
proof fn lemma_no_word_with_colon(t: Seq<char>, n: int)
    requires
        0 <= n < t.len(),
        t[n] == ':',
    ensures
        lowercase(t) != "or"@,
        lowercase(t) != "and"@,
{
    reveal_strlit("or");
    reveal_strlit("and");
    assert(lowercase(t).len() == t.len());
    assert(lowercase(t)[n] == ':');
    if lowercase(t) == "or"@ {
        assert(n == 0 || n == 1);
    }
    if lowercase(t) == "and"@ {
        assert(n == 0 || n == 1 || n == 2);
    }
}

/// A quote or a bracket ends a term without quotes, and what it opens is joined
/// by `And`. (A quote right behind a colon belongs to the term.)
#[verifier::spinoff_prover]
#[verifier::rlimit(40)]
pub proof fn law_no_space_before(
    t: Seq<char>,
    search: SearchView,
    b: Seq<char>,
    nb: Seq<NodeView>,
)
    requires
        t.len() > 0,
        is_unquoted_text(t),
        !white_space(t.first()),
        t[0] != '-',
        lowercase(t) != "or"@,
        lowercase(t) != "and"@,
        search_of(in_quotes(t)) == Some(seq![NodeView::Search(search)]),
        b.len() > 0,
        b[0] == '(' || b[0] == '"' && t.last() != ':',
        !white_space(b.last()),
        search_of(b) == Some(nb),
    ensures
        search_of(t + b) == Some(seq![NodeView::Search(search), NodeView::And] + nb),
{
    lemma_unquoted_is_quoted(t);
    lemma_search_in_quotes(t);
    assert(seq![NodeView::Search(search)][0] == NodeView::Search(search));
    assert(term_search(t) == Some(search));
    law_unquoted_term(t, b);
    assert((t + b)[0] == t[0]);
    assert(unspaced(t + b) =~= t + b);
    lemma_node_before(t, NodeView::Search(search), b, nb);
}

/// White space inside brackets does not count.
pub proof fn law_space_in_brackets(
    w: Seq<char>,
    s: Seq<char>,
    next_w: Seq<char>,
    nodes: Seq<NodeView>,
)
    requires
        is_gap(w),
        is_gap(next_w),
        s.len() > 0,
        !white_space(s.first()),
        !white_space(s.last()),
        search_of(s) == Some(nodes),
    ensures
        search_of(seq!['('] + w + s + next_w + seq![')']) == Some(seq![NodeView::Group(nodes)]),
{
    let end = Seq::<char>::empty();
    lemma_trimmed_len(s);
    law_nodes_alternate(s);
    let inner = w + s + next_w;
    assert(inner =~= w + (s + next_w));
    law_white_space_between(w, s + next_w, Seq::empty());
    lemma_leading_spaces(end);
    assert(unspaced(end) =~= end);
    assert(any_node(end) == Err::<(Seq<char>, NodeView), Interrupt>(Interrupt::Error));
    assert(more_nodes(end, nodes) == Ok::<(Seq<char>, Seq<NodeView>), Interrupt>((end, nodes)));
    assert(some_nodes(s)->Ok_0.0 =~= end);
    if next_w.len() == 0 {
        assert(s + next_w =~= s);
    } else {
        lemma_nodes_join(s, next_w, Seq::empty());
        assert(next_w + end =~= next_w);
        law_white_space_between(next_w, end, nodes);
    }
    law_brackets(inner, nodes, end);
    let group = seq!['('] + w + s + next_w + seq![')'];
    assert(group =~= seq!['('] + inner + seq![')'] + end);
    assert(leading_spaces(group) == 0);
    assert(unspaced(group) =~= group);
    lemma_trimmed_len(group);
    lemma_single_node(group, NodeView::Group(nodes));
}

/// A search does not start with a word that joins.
pub proof fn law_no_boolean_at_start(word: Seq<char>, rest: Seq<char>)
    requires
        lowercase(word) == "and"@ || lowercase(word) == "or"@,
        rest.len() > 0 ==> rest[0] == '"' || rest[0] == '(' || rest[0] == ')' || rest[0] == ' '
            || rest[0] == '\u{3000}' || rest[0] == '\t' || rest[0] == '\n',
    ensures
        search_of(word + rest) is None,
{
    lemma_boolean_node(word, rest);
    lemma_boolean_word(word);
    let s = word + rest;
    let t = trimmed(s);
    lemma_trimmed_end(word, rest);
    let n = t.len() - word.len();
    let kept = rest.take(n);
    assert(t =~= word + kept);
    if n > 0 {
        assert(kept[0] == rest[0]);
    }
    lemma_boolean_node(word, kept);
    lemma_node_progress(t);
}

proof fn lemma_boolean_word(word: Seq<char>)
    requires
        lowercase(word) == "and"@ || lowercase(word) == "or"@,
    ensures
        word.len() > 0,
        forall|i: int| 0 <= i < word.len() ==> 'A' <= #[trigger] word[i] <= 'z',
{
    reveal_strlit("and");
    reveal_strlit("or");
    assert(lowercase(word).len() == word.len());
    assert forall|i: int| 0 <= i < word.len() implies 'A' <= #[trigger] word[i] <= 'z' by {
        assert(i == 0 || i == 1 || i == 2);
        assert(lowercase(word)[i] == lower(word[i]));
    }
}

/// A word that joins, as a node.
proof fn lemma_boolean_node(word: Seq<char>, rest: Seq<char>)
    requires
        lowercase(word) == "and"@ || lowercase(word) == "or"@,
        rest.len() > 0 ==> Run::Unquoted.ends(rest[0]),
    ensures
        any_node(word + rest) == Ok::<(Seq<char>, NodeView), Interrupt>((rest, word_node(word))),
        word_node(word).is_boolean(),
{
    law_boolean_words(word, rest);
    lemma_boolean_word(word);
    let s = word + rest;
    assert(s[0] == word[0]);
    assert(leading_spaces(s) == 0);
    assert(unspaced(s) =~= s);
}

/// Trimming leaves what stands before white space at the end.
proof fn lemma_trimmed_end(a: Seq<char>, b: Seq<char>)
    requires
        a.len() > 0,
        !white_space(a.first()),
        !white_space(a.last()),
    ensures
        a.len() <= trimmed(a + b).len() <= a.len() + b.len(),
        trimmed(a + b) == a + b.take(trimmed(a + b).len() - a.len()),
    decreases b.len(),
{
    let s = a + b;
    assert(s.first() == a.first());
    if b.len() == 0 {
        assert(s =~= a);
        lemma_trimmed_len(a);
        assert(a + b.take(0) =~= a);
    } else if white_space(s.last()) {
        lemma_trimmed_end(a, b.drop_last());
        assert(s.drop_last() =~= a + b.drop_last());
        let n = trimmed(s).len() - a.len();
        assert(b.drop_last().take(n) =~= b.take(n));
    } else {
        assert(b.take(b.len() as int) =~= b);
    }
}

/// A search does not end in a word that joins.
#[verifier::spinoff_prover]
#[verifier::rlimit(40)]
pub proof fn law_no_boolean_at_end(a: Seq<char>, gap: Seq<char>, word: Seq<char>)
    requires
        a.len() > 0,
        !white_space(a.first()),
        !white_space(a.last()),
        search_of(a) is Some,
        is_gap(gap),
        gap.len() > 0,
        lowercase(word) == "and"@ || lowercase(word) == "or"@,
    ensures
        search_of(a + gap + word) is None,
{
    let end = Seq::<char>::empty();
    let na = search_of(a)->Some_0;
    lemma_trimmed_len(a);
    law_nodes_alternate(a);
    lemma_boolean_word(word);
    let s = a + gap + word;
    let u = gap + word;
    assert(s =~= a + u);
    assert(s.last() == word.last());
    lemma_trimmed_len(s);
    lemma_nodes_join(a, u, Seq::empty());
    law_white_space_between(gap, word, na);
    assert(word + end =~= word);
    lemma_boolean_node(word, end);
    lemma_node_progress(word);
    let node = any_node(word)->Ok_0.1;
    assert(more_nodes(word, na) == more_nodes(end, joined(na, node)));
    lemma_leading_spaces(end);
    assert(unspaced(end) =~= end);
    assert(any_node(end) == Err::<(Seq<char>, NodeView), Interrupt>(Interrupt::Error));
    assert(joined(na, node).last() == node);
}

/// After a node, two words that join in a row fail.
proof fn lemma_two_booleans(
    nodes: Seq<NodeView>,
    word: Seq<char>,
    gap: Seq<char>,
    next: Seq<char>,
)
    requires
        nodes.len() % 2 == 1,
        is_gap(gap),
        gap.len() > 0,
        lowercase(word) == "and"@ || lowercase(word) == "or"@,
        any_node(next) matches Ok((_, node)) && node.is_boolean(),
    ensures
        more_nodes(word + (gap + next), nodes) is Err,
{
    let last = gap + next;
    assert(last[0] == gap[0]);
    lemma_boolean_node(word, last);
    lemma_node_progress(word + last);
    let node = any_node(word + last)->Ok_0.1;
    let before = joined(nodes, node);
    assert(more_nodes(word + last, nodes) == more_nodes(last, before));
    law_white_space_between(gap, next, before);
    lemma_node_progress(next);
}

/// A search does not have two words that join in a row.
#[verifier::spinoff_prover]
#[verifier::rlimit(40)]
pub proof fn law_no_two_booleans(
    a: Seq<char>,
    gap: Seq<char>,
    word: Seq<char>,
    next_gap: Seq<char>,
    next_word: Seq<char>,
    rest: Seq<char>,
)
    requires
        a.len() > 0,
        !white_space(a.first()),
        !white_space(a.last()),
        search_of(a) is Some,
        is_gap(gap),
        gap.len() > 0,
        is_gap(next_gap),
        next_gap.len() > 0,
        lowercase(word) == "and"@ || lowercase(word) == "or"@,
        lowercase(next_word) == "and"@ || lowercase(next_word) == "or"@,
        rest.len() > 0 ==> is_space(rest[0]) && !white_space(rest.last()),
    ensures
        search_of(a + gap + word + next_gap + next_word + rest) is None,
{
    let na = search_of(a)->Some_0;
    let next = next_word + rest;
    let middle = word + (next_gap + next);
    let u = gap + middle;
    let s = a + gap + word + next_gap + next_word + rest;
    assert(s =~= a + u);
    assert(trimmed(s) == s) by {
        lemma_boolean_word(next_word);
        assert(s.first() == a.first());
        if rest.len() > 0 {
            assert(s.last() == rest.last());
        } else {
            assert(s.last() == next_word.last());
        }
        lemma_trimmed_len(s);
    }
    lemma_trimmed_len(a);
    law_nodes_alternate(a);
    lemma_boolean_node(next_word, rest);
    lemma_two_booleans(na, word, next_gap, next);
    assert(u[0] == gap[0]);
    lemma_nodes_join(a, u, Seq::empty());
    law_white_space_between(gap, middle, na);
}

/// A bracket that is not closed makes no search.
pub proof fn law_open_bracket(a: Seq<char>)
    requires
        a.len() > 0,
        !white_space(a.first()),
        !white_space(a.last()),
        search_of(a) is Some,
    ensures
        search_of(seq!['('] + a) is None,
{
    lemma_trimmed_len(a);
    let s = seq!['('] + a;
    assert(s.last() == a.last());
    lemma_trimmed_len(s);
    assert(s.skip(1) =~= a);
    lemma_no_term_at_bracket(s);
    lemma_no_node(s);
}

/// A bracket that is not opened makes no search.
pub proof fn law_extra_bracket(a: Seq<char>, rest: Seq<char>)
    requires
        a.len() > 0,
        !white_space(a.first()),
        !white_space(a.last()),
        search_of(a) is Some,
        rest.len() > 0 ==> !white_space(rest.last()),
    ensures
        search_of(a + seq![')'] + rest) is None,
{
    lemma_trimmed_len(a);
    let u = seq![')'] + rest;
    let s = a + seq![')'] + rest;
    assert(s =~= a + u);
    assert(s.first() == a.first());
    if rest.len() > 0 {
        assert(s.last() == rest.last());
    } else {
        assert(s.last() == ')');
    }
    lemma_trimmed_len(s);
    lemma_nodes_then(a, u, Seq::empty());
}

/// Brackets with nothing in them make no search.
pub proof fn law_empty_brackets(w: Seq<char>, rest: Seq<char>)
    requires
        is_gap(w),
        rest.len() > 0 ==> !white_space(rest.last()),
    ensures
        search_of(seq!['('] + w + seq![')'] + rest) is None,
{
    let u = seq![')'] + rest;
    let s = seq!['('] + w + seq![')'] + rest;
    assert(s.skip(1) =~= w + u);
    if rest.len() > 0 {
        assert(s.last() == rest.last());
    } else {
        assert(s.last() == ')');
    }
    lemma_trimmed_len(s);
    law_white_space_between(w, u, Seq::empty());
    lemma_no_term_at_bracket(u);
    assert(some_nodes(s.skip(1)) == Err::<(Seq<char>, Seq<NodeView>), Interrupt>(Interrupt::Error));
    lemma_no_term_at_bracket(s);
    lemma_no_node(s);
}

/// No term starts with a bracket.
proof fn lemma_no_term_at_bracket(s: Seq<char>)
    requires
        starts(s, '(') || starts(s, ')'),
    ensures
        term_node(s) == Err::<(Seq<char>, NodeView), Interrupt>(Interrupt::Error),
        unspaced(s) == s,
        any_node(s) == match group_node(s) {
            Err(Interrupt::Error) => Err(Interrupt::Error),
            r => r,
        },
{
    assert(Run::Key.end(s, 0) == Some(0int));
    assert(Run::Unquoted.end(s, 0) == Some(0int));
    assert(leading_spaces(s) == 0);
    assert(unspaced(s) =~= s);
}

/// Quotes that are not closed or empty are no search.
pub proof fn law_quotes_balance(t: Seq<char>, rest: Seq<char>)
    requires
        is_quoted_text(t),
        t.len() > 0 ==> !white_space(t.last()),
        rest.len() > 0 ==> !white_space(rest.last()),
    ensures
        search_of(seq!['"'] + t) is None,
        search_of(seq!['"', '"'] + rest) is None,
{
    law_texts_read(t, ' ');
    let s = seq!['"'] + t;
    assert(s.skip(1) =~= t);
    assert(t.skip(t.len() as int) =~= Seq::empty());
    if t.len() > 0 {
        assert(s.last() == t.last());
    }
    lemma_no_quoted_text(s);
    let s = seq!['"', '"'] + rest;
    assert(s.skip(1)[0] == '"');
    assert(Run::Quoted.end(s.skip(1), 0) == Some(0int));
    if rest.len() > 0 {
        assert(s.last() == rest.last());
    }
    lemma_no_quoted_text(s);
}

proof fn lemma_no_quoted_text(s: Seq<char>)
    requires
        starts(s, '"'),
        quoted_text(s) is Err,
        !white_space(s.last()),
    ensures
        search_of(s) is None,
{
    assert(Run::Key.end(s, 0) == Some(0int));
    assert(Run::Unquoted.end(s, 0) == Some(0int));
    assert(leading_spaces(s) == 0);
    assert(unspaced(s) =~= s);
    lemma_trimmed_len(s);
    lemma_no_node(s);
}

} // verus!
