//! What is read from the start of a string is the same whatever follows, if what
//! follows starts with a closing bracket or white space.

#[allow(unused_imports)]
use crate::ast::{Interrupt, NodeView};
#[allow(unused_imports)]
use crate::grammar::{
    any_node, group_node, group_or_term, is_space, joined, leading_spaces, lemma_leading_spaces,
    lemma_node_progress, lemma_run_end, lemma_term_progress, more_nodes, negated,
    partially_quoted_node, quoted_node, quoted_text, some_nodes, starts, term_node,
    unquoted_node, unspaced, Run,
};
#[allow(unused_imports)]
use crate::laws::{is_gap, law_white_space_between};
#[allow(unused_imports)]
use crate::quoting::{lemma_run_ends_within, lemma_run_shift, lemma_run_through};
use vstd::prelude::*;

verus! {

/// Whether what follows starts with a closing bracket or white space, either of
/// which ends a term.
pub open spec fn ends_term(u: Seq<char>) -> bool {
    starts(u, ')') || u.len() > 0 && is_space(u[0])
}

/// Whether a string starts with a quote that nothing closes.
spec fn open_quote(s: Seq<char>) -> bool {
    starts(s, '"') && quoted_text(s) is Err
}

/// Text in quotes is the same whatever follows.
proof fn lemma_quoted_text_then(s: Seq<char>, u: Seq<char>)
    requires
        quoted_text(s) is Ok,
    ensures
        quoted_text(s + u) matches Ok((rest, text)) && quoted_text(s) == Ok::<
            (Seq<char>, Seq<char>),
            Interrupt,
        >((quoted_text(s)->Ok_0.0, text)) && rest == quoted_text(s)->Ok_0.0 + u,
{
    let inner = s.skip(1);
    assert((s + u)[0] == s[0]);
    assert((s + u).skip(1) =~= inner + u);
    lemma_run_end(Run::Quoted, inner, 0);
    lemma_run_ends_within(Run::Quoted, inner, u, 0);
    let n = Run::Quoted.end(inner, 0)->Some_0;
    assert((inner + u).take(n) =~= inner.take(n));
    assert((inner + u).skip(n) =~= inner.skip(n) + u);
    assert((inner.skip(n) + u).skip(1) =~= inner.skip(n).skip(1) + u);
}

/// Where there is no text in quotes and no open quote, none comes of what
/// follows.
proof fn lemma_no_quoted_text_then(s: Seq<char>, u: Seq<char>)
    requires
        quoted_text(s) is Err,
        !open_quote(s),
        ends_term(u),
    ensures
        quoted_text(s + u) is Err,
{
    if s.len() > 0 {
        assert((s + u)[0] == s[0]);
    } else {
        assert((s + u)[0] == u[0]);
    }
}

/// A key that is cut short by a bad escape is so whatever follows.
proof fn lemma_bad_key_then(s: Seq<char>, u: Seq<char>, i: int)
    requires
        0 <= i <= s.len(),
        Run::Key.end(s, i) is None,
        Run::Unquoted.end(s, i) is Some,
    ensures
        Run::Key.end(s + u, i) is None,
    decreases s.len() - i,
{
    assert((s + u)[i] == s[i]);
    if s[i] == '\\' {
        assert((s + u)[i + 1] == s[i + 1]);
        if Run::Key.allows(s[i + 1]) {
            lemma_bad_key_then(s, u, i + 2);
        }
    } else {
        lemma_bad_key_then(s, u, i + 1);
    }
}

/// Text outside of quotes goes on after the colon of a key, up to the quote.
pub proof fn lemma_unquoted_after_key(s: Seq<char>, i: int)
    requires
        0 <= i <= s.len(),
        Run::Key.end(s, i) matches Some(n) && n + 1 < s.len() && s[n] == ':' && s[n + 1] == '"',
    ensures
        Run::Unquoted.end(s, i) == Some(Run::Key.end(s, i)->Some_0 + 1),
    decreases s.len() - i,
{
    lemma_run_end(Run::Key, s, i);
    if s[i] == '\\' {
        lemma_unquoted_after_key(s, i + 2);
    } else if !Run::Key.ends(s[i]) {
        lemma_unquoted_after_key(s, i + 1);
    } else {
        assert(Run::Unquoted.end(s, i + 1) == Some(i + 1));
    }
}

/// A term that is not in quotes begins with text outside of quotes.
proof fn lemma_term_run(s: Seq<char>)
    requires
        term_node(s) is Ok,
        !starts(s, '"'),
    ensures
        Run::Unquoted.end(s, 0) is Some,
        s.len() > 0,
{
    lemma_term_progress(s);
    if partially_quoted_node(s) is Ok {
        lemma_run_end(Run::Key, s, 0);
        let n = Run::Key.end(s, 0)->Some_0;
        assert(s.skip(n)[0] == s[n]);
        assert(s.skip(n).skip(1)[0] == s[n + 1]);
        lemma_unquoted_after_key(s, 0);
    }
}

/// The text outside of quotes ends at the bracket or white space, if not before it.
proof fn lemma_unquoted_then(s: Seq<char>, u: Seq<char>)
    requires
        s.len() > 0,
        Run::Unquoted.end(s, 0) is Some,
        ends_term(u),
    ensures
        unquoted_node(s + u) == match unquoted_node(s) {
            Ok((rest, node)) => Ok((rest + u, node)),
            Err(e) => Err(e),
        },
{
    lemma_run_end(Run::Unquoted, s, 0);
    let n = Run::Unquoted.end(s, 0)->Some_0;
    if n < s.len() {
        lemma_run_ends_within(Run::Unquoted, s, u, 0);
    } else {
        lemma_run_through(Run::Unquoted, s, u, 0);
        assert((s + u)[s.len() as int] == u[0]);
    }
    assert(Run::Unquoted.end(s + u, 0) == Some(n));
    assert((s + u).take(n) =~= s.take(n));
    assert((s + u).skip(n) =~= s.skip(n) + u);
}

/// A key with an argument in quotes is the same whatever follows.
proof fn lemma_partially_quoted_then(s: Seq<char>, u: Seq<char>)
    requires
        partially_quoted_node(s) is Ok,
    ensures
        partially_quoted_node(s + u) == match partially_quoted_node(s) {
            Ok((rest, node)) => Ok((rest + u, node)),
            Err(e) => Err(e),
        },
{
    lemma_run_end(Run::Key, s, 0);
    let n = Run::Key.end(s, 0)->Some_0;
    lemma_run_ends_within(Run::Key, s, u, 0);
    assert((s + u).take(n) =~= s.take(n));
    assert((s + u).skip(n) =~= s.skip(n) + u);
    assert((s.skip(n) + u).skip(1) =~= s.skip(n).skip(1) + u);
    lemma_quoted_text_then(s.skip(n).skip(1), u);
}

/// Where no key with an argument in quotes stands, what follows makes none, but
/// for an argument whose quotes are still open.
proof fn lemma_not_partially_quoted_then(s: Seq<char>, u: Seq<char>)
    requires
        partially_quoted_node(s) is Err,
        s.len() > 0,
        Run::Unquoted.end(s, 0) matches Some(m) && !open_quote(s.skip(m)),
        ends_term(u),
    ensures
        partially_quoted_node(s + u) is Err,
{
    lemma_run_end(Run::Key, s, 0);
    match Run::Key.end(s, 0) {
        None => {
            lemma_bad_key_then(s, u, 0);
        },
        Some(n) => {
            if n == s.len() {
                lemma_run_through(Run::Key, s, u, 0);
                assert((s + u)[n] == u[0]);
                assert(Run::Key.end(s + u, 0) == Some(n));
                assert((s + u).skip(n) =~= u);
            } else {
                lemma_run_ends_within(Run::Key, s, u, 0);
                assert((s + u).take(n) =~= s.take(n));
                assert((s + u).skip(n) =~= s.skip(n) + u);
                assert((s.skip(n) + u)[0] == s.skip(n)[0]);
                if n > 0 && s[n] == ':' {
                    let r = s.skip(n).skip(1);
                    assert((s.skip(n) + u).skip(1) =~= r + u);
                    if quoted_text(r) is Ok {
                        lemma_quoted_text_then(r, u);
                    } else {
                        if starts(r, '"') {
                            assert(r[0] == s[n + 1]);
                            lemma_unquoted_after_key(s, 0);
                            assert(s.skip(n + 1) =~= r);
                        }
                        lemma_no_quoted_text_then(r, u);
                    }
                }
            }
        },
    }
}

/// No term starts with a closing bracket or white space.
proof fn lemma_no_term_at_end(s: Seq<char>)
    requires
        ends_term(s),
    ensures
        term_node(s) == Err::<(Seq<char>, NodeView), Interrupt>(Interrupt::Error),
        group_or_term(s) == Err::<(Seq<char>, NodeView), Interrupt>(Interrupt::Error),
        negated(s) == Err::<(Seq<char>, NodeView), Interrupt>(Interrupt::Error),
{
    assert(Run::Key.end(s, 0) == Some(0int));
    assert(Run::Unquoted.end(s, 0) == Some(0int));
}

/// A quote at the start that nothing closes is no term.
proof fn lemma_no_term_at_open_quote(s: Seq<char>)
    requires
        starts(s, '"'),
        quoted_node(s) is Err,
    ensures
        term_node(s) is Err,
{
    assert(Run::Key.end(s, 0) == Some(0int));
    assert(Run::Unquoted.end(s, 0) == Some(0int));
}

/// A term is the same with more after it, unless it leaves an open quote.
proof fn lemma_term_then(s: Seq<char>, u: Seq<char>)
    requires
        term_node(s) matches Ok((rest, _)) && !open_quote(rest),
        ends_term(u),
    ensures
        term_node(s + u) == match term_node(s) {
            Ok((rest, node)) => Ok((rest + u, node)),
            Err(e) => Err(e),
        },
{
    lemma_term_progress(s);
    assert((s + u)[0] == s[0]);
    if quoted_node(s) is Ok {
        lemma_quoted_text_then(s, u);
    } else {
        if starts(s, '"') {
            lemma_no_term_at_open_quote(s);
        }
        lemma_term_run(s);
        if partially_quoted_node(s) is Ok {
            lemma_partially_quoted_then(s, u);
        } else {
            lemma_not_partially_quoted_then(s, u);
            lemma_unquoted_then(s, u);
        }
    }
}

/// Where no term stands, what follows makes none, but for one with open quotes.
proof fn lemma_no_term_then(s: Seq<char>, u: Seq<char>)
    requires
        term_node(s) is Err,
        s.len() > 0,
        !starts(s, '"'),
        Run::Unquoted.end(s, 0) matches Some(m) && !open_quote(s.skip(m)),
        ends_term(u),
    ensures
        term_node(s + u) == Err::<(Seq<char>, NodeView), Interrupt>(Interrupt::Error),
{
    assert((s + u)[0] == s[0]);
    lemma_not_partially_quoted_then(s, u);
    lemma_unquoted_then(s, u);
}

/// Whether a list of nodes can go on or come to its end: a node is next, or
/// the end, or a closing bracket.
spec fn goes_on(s: Seq<char>) -> bool {
    any_node(s) is Ok || unspaced(s).len() == 0 || starts(unspaced(s), ')')
}

/// A list neither goes on nor ends at an open quote.
proof fn lemma_goes_on(s: Seq<char>)
    requires
        goes_on(s),
    ensures
        !open_quote(s),
{
    if open_quote(s) {
        assert(leading_spaces(s) == 0);
        assert(unspaced(s) =~= s);
        lemma_no_term_at_open_quote(s);
    }
}

proof fn lemma_unspaced_then(s: Seq<char>, u: Seq<char>)
    requires
        unspaced(s).len() > 0 || starts(u, ')'),
    ensures
        unspaced(s + u) == unspaced(s) + u,
    decreases s.len(),
{
    lemma_leading_spaces(s);
    if s.len() == 0 {
        assert(s + u =~= u);
        assert(leading_spaces(u) == 0);
        assert(unspaced(s) + u =~= u);
        assert(unspaced(u) =~= u);
    } else {
        assert((s + u)[0] == s[0]);
        if is_space(s[0]) {
            lemma_leading_spaces(s.skip(1));
            lemma_leading_spaces(s.skip(1) + u);
            assert(unspaced(s) =~= unspaced(s.skip(1)));
            lemma_unspaced_then(s.skip(1), u);
            assert((s + u).skip(1) =~= s.skip(1) + u);
            assert(unspaced(s + u) =~= unspaced(s.skip(1) + u));
        } else {
            assert(unspaced(s + u) =~= s + u);
            assert(unspaced(s) =~= s);
        }
    }
}

/// A minus sign that negates nothing does not come to negate something by
/// what follows.
proof fn lemma_not_negated_then(t: Seq<char>, u: Seq<char>)
    requires
        starts(t, '-'),
        group_or_term(t.skip(1)) == Err::<(Seq<char>, NodeView), Interrupt>(Interrupt::Error),
        term_node(t) matches Ok((rest, _)) && goes_on(rest),
        ends_term(u),
    ensures
        group_or_term(t.skip(1) + u) == Err::<(Seq<char>, NodeView), Interrupt>(Interrupt::Error),
{
    let inner = t.skip(1);
    let rest = term_node(t)->Ok_0.0;
    lemma_goes_on(rest);
    if inner.len() == 0 {
        assert(inner + u =~= u);
        lemma_no_term_at_end(u);
    } else {
        assert((inner + u)[0] == inner[0]);
        lemma_term_run(t);
        assert(t =~= seq!['-'] + inner);
        lemma_run_shift(Run::Unquoted, seq!['-'], inner, 0);
        assert(Run::Unquoted.end(t, 0) == Run::Unquoted.end(t, 1));
        let m = Run::Unquoted.end(inner, 0)->Some_0;
        lemma_run_end(Run::Unquoted, inner, 0);
        assert(t.skip(m + 1) =~= inner.skip(m));
        if starts(inner, '(') || starts(inner, '"') {
            assert(t[1] == inner[0]);
            assert(Run::Key.end(t, 1) == Some(1int));
            assert(Run::Key.end(t, 0) == Some(1int));
            assert(t.skip(1)[0] == t[1]);
            assert(Run::Unquoted.end(t, 1) == Some(1int));
            assert(rest == inner);
            assert(leading_spaces(inner) == 0);
            assert(unspaced(inner) =~= inner);
        } else {
            if partially_quoted_node(t) is Ok {
                lemma_run_end(Run::Key, t, 0);
                let n = Run::Key.end(t, 0)->Some_0;
                assert(t.skip(n)[0] == t[n]);
                assert(t.skip(n).skip(1)[0] == t[n + 1]);
                lemma_unquoted_after_key(t, 0);
                assert(t.skip(n + 1) =~= t.skip(n).skip(1));
            }
            lemma_no_term_then(inner, u);
        }
    }
}

/// A group is the same with more after it.
proof fn lemma_group_then(s: Seq<char>, u: Seq<char>)
    requires
        group_node(s) is Ok,
        ends_term(u),
    ensures
        group_node(s + u) == match group_node(s) {
            Ok((rest, node)) => Ok((rest + u, node)),
            Err(e) => Err(e),
        },
    decreases s.len(), 0int,
{
    assert((s + u)[0] == s[0]);
    assert((s + u).skip(1) =~= s.skip(1) + u);
    lemma_nodes_then(s.skip(1), u, Seq::empty());
    let rest = some_nodes(s.skip(1))->Ok_0.0;
    assert((rest + u)[0] == rest[0]);
    assert((rest + u).skip(1) =~= rest.skip(1) + u);
}

proof fn lemma_group_or_term_then(s: Seq<char>, u: Seq<char>)
    requires
        group_or_term(s) matches Ok((rest, _)) && goes_on(rest),
        ends_term(u),
    ensures
        group_or_term(s + u) == match group_or_term(s) {
            Ok((rest, node)) => Ok((rest + u, node)),
            Err(e) => Err(e),
        },
    decreases s.len(), 1int,
{
    if group_node(s) is Ok {
        lemma_group_then(s, u);
    } else {
        lemma_goes_on(group_or_term(s)->Ok_0.0);
        lemma_term_progress(s);
        assert((s + u)[0] == s[0]);
        if starts(s, '(') {
            assert(Run::Key.end(s, 0) == Some(0int));
            assert(Run::Unquoted.end(s, 0) == Some(0int));
        }
        lemma_term_then(s, u);
    }
}

/// A node is the same with more after it, if what it leaves goes on.
proof fn lemma_node_then(s: Seq<char>, u: Seq<char>)
    requires
        any_node(s) matches Ok((rest, _)) && goes_on(rest),
        ends_term(u),
    ensures
        any_node(s + u) == match any_node(s) {
            Ok((rest, node)) => Ok((rest + u, node)),
            Err(e) => Err(e),
        },
    decreases s.len(), 2int,
{
    lemma_leading_spaces(s);
    let t = unspaced(s);
    if t.len() == 0 {
        lemma_term_progress(t);
    } else {
        lemma_unspaced_then(s, u);
        assert((t + u)[0] == t[0]);
        if starts(t, '-') {
            assert((t + u).skip(1) =~= t.skip(1) + u);
            if negated(t) is Ok {
                lemma_group_or_term_then(t.skip(1), u);
            } else {
                lemma_not_negated_then(t, u);
                lemma_group_or_term_then(t, u);
            }
        } else {
            lemma_group_or_term_then(t, u);
        }
    }
}

/// Nodes up to a closing bracket or the end are the same with more after
/// them, which starts with a closing bracket if they go on to the end.
pub proof fn lemma_nodes_then(s: Seq<char>, u: Seq<char>, nodes: Seq<NodeView>)
    requires
        more_nodes(s, nodes) matches Ok((rest, _)) && (rest.len() == 0 && starts(u, ')') || starts(
            rest,
            ')',
        )),
        ends_term(u),
    ensures
        more_nodes(s + u, nodes) == match more_nodes(s, nodes) {
            Ok((rest, all)) => Ok((rest + u, all)),
            Err(e) => Err(e),
        },
    decreases s.len(), 3int,
{
    lemma_node_progress(s);
    lemma_node_progress(s + u);
    match any_node(s) {
        Ok((rest, node)) => {
            let more = joined(nodes, node);
            assert(more_nodes(s, nodes) == more_nodes(rest, more));
            assert(goes_on(rest));
            lemma_node_then(s, u);
            lemma_nodes_then(rest, u, more);
        },
        Err(_) => {
            lemma_unspaced_then(s, u);
            let t = unspaced(s) + u;
            if unspaced(s).len() > 0 {
                assert(t[0] == unspaced(s)[0]);
            } else {
                assert(t[0] == u[0]);
            }
            lemma_no_term_at_end(t);
        },
    }
}

/// After nodes that go on to the end of a string, reading goes on in what
/// follows.
pub proof fn lemma_nodes_join(s: Seq<char>, u: Seq<char>, nodes: Seq<NodeView>)
    requires
        more_nodes(s, nodes) matches Ok((rest, _)) && rest.len() == 0,
        ends_term(u),
    ensures
        more_nodes(s + u, nodes) == more_nodes(u, more_nodes(s, nodes)->Ok_0.1),
    decreases s.len(),
{
    lemma_node_progress(s);
    lemma_node_progress(s + u);
    match any_node(s) {
        Ok((rest, node)) => {
            let more = joined(nodes, node);
            assert(more_nodes(s, nodes) == more_nodes(rest, more));
            assert(goes_on(rest));
            lemma_node_then(s, u);
            lemma_nodes_join(rest, u, more);
        },
        Err(_) => {
            lemma_all_spaces(s);
            law_white_space_between(s, u, nodes);
        },
    }
}

/// A string of which nothing is left without white space has nothing else.
proof fn lemma_all_spaces(s: Seq<char>)
    requires
        unspaced(s).len() == 0,
    ensures
        is_gap(s),
    decreases s.len(),
{
    if s.len() > 0 {
        lemma_leading_spaces(s);
        lemma_leading_spaces(s.skip(1));
        lemma_all_spaces(s.skip(1));
        assert forall|i: int| 0 <= i < s.len() implies is_space(#[trigger] s[i]) by {
            if i > 0 {
                assert(s[i] == s.skip(1)[i - 1]);
            }
        }
    }
}

} // verus!
