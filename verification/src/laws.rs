//! What holds of every search.

#[allow(unused_imports)]
use crate::ast::{Interrupt, NodeView, SearchView};
#[allow(unused_imports)]
use crate::grammar::{
    any_node, group_node, is_space, joined, leading_spaces, lemma_leading_spaces,
    lemma_node_progress, lemma_run_end, more_nodes, partially_quoted_node, quoted_node,
    quoted_text, search_of, some_nodes, term_node, term_search, unspaced, Run,
};
#[allow(unused_imports)]
use crate::strings::{lower, lowercase, trimmed, white_space};
#[allow(unused_imports)]
use crate::tails::lemma_nodes_join;
#[allow(unused_imports)]
use crate::terms::{
    argument_search, dupes_of, flag_of, prop_of, rated_of, single_field_of, template_of,
};
use vstd::prelude::*;

verus! {

/// Whether a node is one that a search can be made of: a negation is not
/// negated again, a group holds a list, and the whole collection is not
/// searched for in the middle of other nodes.
pub open spec fn sound_node(node: NodeView) -> bool
    decreases node,
{
    match node {
        NodeView::And => true,
        NodeView::Or => true,
        NodeView::Not(inner) => !(*inner is Not) && sound_node(*inner),
        NodeView::Group(nodes) => sound_list(nodes),
        NodeView::Search(search) => !(search is WholeCollection),
    }
}

/// Whether a list has an odd number of nodes, of which the second, the fourth
/// and so on join their neighbours, and the others do not.
pub open spec fn sound_list(nodes: Seq<NodeView>) -> bool
    decreases nodes,
{
    &&& nodes.len() % 2 == 1
    &&& forall|i: int|
        0 <= i < nodes.len() ==> (#[trigger] nodes[i]).is_boolean() == (i % 2 == 1)
    &&& forall|i: int| 0 <= i < nodes.len() ==> sound_node(#[trigger] nodes[i])
}

/// Whether nodes can be the start of a list.
spec fn sound_start(nodes: Seq<NodeView>) -> bool {
    &&& forall|i: int|
        0 <= i < nodes.len() ==> (#[trigger] nodes[i]).is_boolean() == (i % 2 == 1)
    &&& forall|i: int| 0 <= i < nodes.len() ==> sound_node(#[trigger] nodes[i])
}

/// No key asks for the whole collection.
#[verifier::spinoff_prover]
#[verifier::rlimit(40)]
proof fn lemma_sound_argument(key: Seq<char>, val: Seq<char>)
    ensures
        argument_search(key, val) matches Some(search) ==> !(search is WholeCollection),
{
    assert(template_of(val) matches Some(search) ==> search is CardTemplate);
    assert(flag_of(val) matches Some(search) ==> search is Flag);
    assert(rated_of(val) matches Some(search) ==> search is Rated);
    assert(dupes_of(val) matches Some(search) ==> search is Duplicates);
    assert(prop_of(val) matches Some(search) ==> search is Property);
    assert(single_field_of(key, val) matches Some(search) ==> search is SingleField);
}

proof fn lemma_sound_term_search(s: Seq<char>)
    ensures
        term_search(s) matches Some(search) ==> !(search is WholeCollection),
{
    if let Ok((tail, head)) = Run::Term.split(s) {
        if tail.len() > 0 {
            lemma_sound_argument(head, tail.skip(1));
        }
    }
}

/// A term is no negation and no group, and asks for less than everything.
#[verifier::spinoff_prover]
proof fn lemma_sound_term(s: Seq<char>)
    ensures
        term_node(s) matches Ok((_, node)) ==> sound_node(node) && !(node is Not),
{
    if quoted_node(s) is Ok {
        lemma_sound_term_search(quoted_text(s)->Ok_0.1);
    } else if partially_quoted_node(s) is Ok {
        let (rest, key) = Run::Key.split(s)->Ok_0;
        lemma_sound_argument(key, quoted_text(rest.skip(1))->Ok_0.1);
    } else if let Ok((_, text)) = Run::Unquoted.split(s) {
        lemma_sound_term_search(text);
    }
}

proof fn lemma_sound_nodes(s: Seq<char>, nodes: Seq<NodeView>)
    requires
        sound_start(nodes),
    ensures
        more_nodes(s, nodes) matches Ok((_, all)) ==> sound_list(all),
    decreases s.len(), 3int,
{
    lemma_sound_node(s);
    if let Ok((rest, node)) = any_node(s) {
        if rest.len() < s.len() && !(nodes.len() % 2 == 0 && node.is_boolean()) {
            assert(sound_node(NodeView::And));
            assert(sound_start(joined(nodes, node)));
            lemma_sound_nodes(rest, joined(nodes, node));
        }
    }
}

proof fn lemma_sound_group(s: Seq<char>)
    ensures
        group_node(s) matches Ok((_, node)) ==> sound_node(node) && node is Group,
    decreases s.len(), 0int,
{
    if s.len() > 0 {
        lemma_sound_nodes(s.skip(1), Seq::empty());
    }
}

proof fn lemma_sound_node(s: Seq<char>)
    ensures
        any_node(s) matches Ok((_, node)) ==> sound_node(node),
    decreases s.len(), 2int,
{
    lemma_leading_spaces(s);
    let t = unspaced(s);
    lemma_sound_group(t);
    lemma_sound_term(t);
    if t.len() > 0 {
        lemma_sound_group(t.skip(1));
        lemma_sound_term(t.skip(1));
    }
}

/// The nodes of a list take turns: one that does not join, one that joins, and
/// so on, with none that joins at either end. The same holds inside each group.
pub proof fn law_nodes_alternate(s: Seq<char>)
    ensures
        some_nodes(s) matches Ok((_, nodes)) ==> sound_list(nodes),
{
    lemma_sound_nodes(s, Seq::empty());
}

/// A search for the whole collection stands alone, and is what white space and
/// nothing else asks for. Any other search is a list whose nodes take turns.
pub proof fn law_whole_collection(input: Seq<char>)
    ensures
        (search_of(input) == Some(seq![NodeView::Search(SearchView::WholeCollection)])) == (trimmed(
            input,
        ).len() == 0),
        trimmed(input).len() > 0 ==> (search_of(input) matches Some(nodes) ==> sound_list(nodes)),
{
    law_nodes_alternate(trimmed(input));
    if let Some(nodes) = search_of(input) {
        if trimmed(input).len() > 0 {
            assert(sound_node(nodes[0]));
        }
    }
}

/// Whether a string has white space only.
pub open spec fn is_blank(s: Seq<char>) -> bool {
    forall|i: int| 0 <= i < s.len() ==> white_space(#[trigger] s[i])
}

proof fn lemma_trimmed_before(s: Seq<char>, b: Seq<char>)
    requires
        is_blank(b),
    ensures
        trimmed(s + b) == trimmed(s),
    decreases s.len() + b.len(),
{
    if b.len() == 0 {
        assert(s + b =~= s);
    } else if s.len() > 0 && white_space(s.first()) {
        lemma_trimmed_before(s.drop_first(), b);
        assert((s + b).drop_first() =~= s.drop_first() + b);
    } else if s.len() == 0 {
        lemma_trimmed_before(s, b.drop_first());
        assert((s + b).drop_first() =~= s + b.drop_first());
        assert((s + b).first() == b[0]);
    } else {
        lemma_trimmed_before(s, b.drop_last());
        assert((s + b).drop_last() =~= s + b.drop_last());
        assert((s + b).last() == b[b.len() - 1]);
    }
}

proof fn lemma_trimmed_after(a: Seq<char>, s: Seq<char>)
    requires
        is_blank(a),
    ensures
        trimmed(a + s) == trimmed(s),
    decreases a.len(),
{
    if a.len() == 0 {
        assert(a + s =~= s);
    } else {
        lemma_trimmed_after(a.drop_first(), s);
        assert((a + s).drop_first() =~= a.drop_first() + s);
        assert((a + s).first() == a[0]);
    }
}

/// Trimming takes the white space at the two ends away, and nothing else.
pub proof fn law_trim(a: Seq<char>, s: Seq<char>, b: Seq<char>)
    requires
        is_blank(a),
        is_blank(b),
        s.len() > 0 ==> !white_space(s.first()) && !white_space(s.last()),
    ensures
        trimmed(a + s + b) == s,
{
    lemma_trimmed_before(a + s, b);
    lemma_trimmed_after(a, s);
}

/// White space around a search does not change it.
pub proof fn law_white_space_around(a: Seq<char>, s: Seq<char>, b: Seq<char>)
    requires
        is_blank(a),
        is_blank(b),
    ensures
        search_of(a + s + b) == search_of(s),
{
    lemma_trimmed_before(a + s, b);
    lemma_trimmed_after(a, s);
}

/// Whether a string has only characters that may stand between nodes.
pub open spec fn is_gap(w: Seq<char>) -> bool {
    forall|i: int| 0 <= i < w.len() ==> is_space(#[trigger] w[i])
}

proof fn lemma_unspaced(w: Seq<char>, s: Seq<char>)
    requires
        is_gap(w),
    ensures
        unspaced(w + s) == unspaced(s),
    decreases w.len(),
{
    if w.len() == 0 {
        assert(w + s =~= s);
    } else {
        lemma_unspaced(w.skip(1), s);
        lemma_leading_spaces(s);
        lemma_leading_spaces(w.skip(1) + s);
        assert((w + s).skip(1) =~= w.skip(1) + s);
        assert((w + s)[0] == w[0]);
        assert((w + s).skip(1).skip(leading_spaces(w.skip(1) + s)) =~= (w + s).skip(
            1 + leading_spaces(w.skip(1) + s),
        ));
    }
}

/// However much white space stands before a node, the node is the same, and
/// so are the nodes after it.
pub proof fn law_white_space_between(w: Seq<char>, s: Seq<char>, nodes: Seq<NodeView>)
    requires
        is_gap(w),
    ensures
        any_node(w + s) == any_node(s),
        more_nodes(w + s, nodes) == more_nodes(s, nodes),
{
    lemma_unspaced(w, s);
    lemma_node_progress(s);
    lemma_node_progress(w + s);
}

/// Between two nodes, `and` may be left out: what comes of the nodes so far
/// and the rest is the same with and without it.
pub proof fn law_implicit_and(s: Seq<char>, nodes: Seq<NodeView>)
    requires
        nodes.len() % 2 == 1,
    ensures
        any_node(s) matches Ok((rest, node)) ==> node is And ==> (any_node(rest) matches Ok(
            (_, next),
        ) ==> !next.is_boolean() ==> more_nodes(s, nodes) == more_nodes(rest, nodes)),
{
    lemma_node_progress(s);
    if let Ok((rest, node)) = any_node(s) {
        lemma_node_progress(rest);
        if node is And {
            if let Ok((last, next)) = any_node(rest) {
                assert(more_nodes(rest, joined(nodes, node)) == if next.is_boolean() {
                    Err(Interrupt::Failure)
                } else {
                    more_nodes(last, joined(joined(nodes, node), next))
                });
                assert(joined(joined(nodes, node), next) =~= nodes.push(NodeView::And).push(next));
            }
        }
    }
}

/// The words `and` and `or` join nodes, in capital or small letters, if they
/// stand alone.
pub proof fn law_boolean_words(word: Seq<char>, rest: Seq<char>)
    requires
        lowercase(word) == "and"@ || lowercase(word) == "or"@,
        rest.len() > 0 ==> Run::Unquoted.ends(rest[0]),
    ensures
        term_node(word + rest) == Ok::<(Seq<char>, NodeView), Interrupt>(
            (
                rest,
                if lowercase(word) == "and"@ {
                    NodeView::And
                } else {
                    NodeView::Or
                },
            ),
        ),
{
    reveal_strlit("and");
    reveal_strlit("or");
    let s = word + rest;
    let n = word.len() as int;
    assert(lowercase(word).len() == n);
    assert forall|i: int| 0 <= i < n implies {
        let c = #[trigger] s[i];
        !Run::Key.ends(c) && !Run::Unquoted.ends(c) && c != '\\'
    } by {
        assert(s[i] == word[i]);
        let c = lowercase(word)[i];
        assert(c == lower(word[i]));
        assert(i == 0 || i == 1 || i == 2);
        assert(c == 'a' || c == 'n' || c == 'd' || c == 'o' || c == 'r');
    }
    reveal_with_fuel(Run::end, 4);
    if rest.len() > 0 {
        assert(s[n] == rest[0]);
    }
    assert(Run::Unquoted.end(s, 0) == Some(n));
    assert(Run::Key.end(s, 0) == Some(n));
    assert(s.skip(n) =~= rest);
    assert(s.take(n) =~= word);
}

/// The keys that are not names of fields.
pub open spec fn is_keyword(word: Seq<char>) -> bool {
    ||| word == "added"@ || word == "edited"@ || word == "deck"@ || word == "note"@ || word == "tag"@
    ||| word == "mid"@ || word == "nid"@ || word == "cid"@ || word == "did"@ || word == "card"@
    ||| word == "is"@ || word == "flag"@ || word == "rated"@ || word == "dupe"@ || word == "dupes"@
    ||| word == "prop"@ || word == "re"@ || word == "nc"@ || word == "w"@
}

/// The case of a key does not matter, unless it is the name of a field.
pub proof fn law_key_case(a: Seq<char>, b: Seq<char>, val: Seq<char>)
    requires
        lowercase(a) == lowercase(b),
        is_keyword(lowercase(a)),
    ensures
        argument_search(a, val) == argument_search(b, val),
{
}

/// A key that is no keyword is the name of a field.
pub proof fn law_other_keys_are_fields(key: Seq<char>, val: Seq<char>)
    requires
        !is_keyword(lowercase(key)),
    ensures
        argument_search(key, val) == single_field_of(key, val),
{
}

/// A flag is at most 4.
pub proof fn law_flag_bound(key: Seq<char>, val: Seq<char>, flag: u8)
    requires
        argument_search(key, val) == Some(SearchView::Flag(flag)),
    ensures
        flag <= 4,
{
    assert(lowercase(key) == "flag"@);
}

/// The ease of a rating is at most 4.
pub proof fn law_ease_bound(key: Seq<char>, val: Seq<char>, days: u32, ease: u8)
    requires
        argument_search(key, val) == Some(SearchView::Rated { days, ease: Some(ease) }),
    ensures
        ease <= 4,
{
    assert(lowercase(key) == "rated"@);
}

/// Whether `rest` is what is left of `s` when something is read from its start.
pub open spec fn is_rest(rest: Seq<char>, s: Seq<char>) -> bool {
    rest.len() <= s.len() && rest == s.skip(s.len() - rest.len())
}

proof fn lemma_is_rest(s: Seq<char>, k: int)
    requires
        0 <= k <= s.len(),
    ensures
        is_rest(s.skip(k), s),
{
}

proof fn lemma_rest_of_rest(a: Seq<char>, b: Seq<char>, s: Seq<char>)
    requires
        is_rest(a, b),
        is_rest(b, s),
    ensures
        is_rest(a, s),
{
    assert(s.skip(s.len() - b.len()).skip(b.len() - a.len()) =~= s.skip(s.len() - a.len()));
}

proof fn lemma_quoted_text_rest(s: Seq<char>)
    ensures
        quoted_text(s) matches Ok((rest, _)) ==> is_rest(rest, s),
{
    if let Ok((rest, _)) = quoted_text(s) {
        lemma_run_end(Run::Quoted, s.skip(1), 0);
        let n = Run::Quoted.end(s.skip(1), 0)->Some_0;
        assert(rest =~= s.skip(n + 2));
    }
}

proof fn lemma_term_rest(s: Seq<char>)
    ensures
        term_node(s) matches Ok((rest, _)) ==> is_rest(rest, s),
{
    lemma_quoted_text_rest(s);
    lemma_run_end(Run::Unquoted, s, 0);
    lemma_run_end(Run::Key, s, 0);
    if let Ok((rest, _)) = partially_quoted_node(s) {
        let n = Run::Key.end(s, 0)->Some_0;
        let argument = s.skip(n).skip(1);
        assert(argument =~= s.skip(n + 1));
        lemma_quoted_text_rest(argument);
        lemma_rest_of_rest(rest, argument, s);
    }
}

proof fn lemma_group_rest(s: Seq<char>)
    ensures
        group_node(s) matches Ok((rest, _)) ==> is_rest(rest, s),
    decreases s.len(), 0int,
{
    if let Ok((rest, _)) = group_node(s) {
        law_nodes_leave_rest(s.skip(1), Seq::empty());
        let inner = some_nodes(s.skip(1))->Ok_0.0;
        lemma_rest_of_rest(inner, s.skip(1), s);
        lemma_rest_of_rest(rest, inner, s);
    }
}

/// What a node leaves is the rest of the string after the part that was read.
pub proof fn law_node_leaves_rest(s: Seq<char>)
    ensures
        any_node(s) matches Ok((rest, _)) ==> is_rest(rest, s) && rest.len() < s.len(),
    decreases s.len(), 2int,
{
    lemma_node_progress(s);
    lemma_leading_spaces(s);
    let t = unspaced(s);
    lemma_is_rest(s, leading_spaces(s));
    lemma_term_rest(t);
    lemma_group_rest(t);
    if t.len() > 0 {
        lemma_term_rest(t.skip(1));
        lemma_group_rest(t.skip(1));
    }
    if let Ok((rest, _)) = any_node(s) {
        if !is_rest(rest, t) {
            lemma_is_rest(t, 1);
            lemma_rest_of_rest(rest, t.skip(1), t);
        }
        lemma_rest_of_rest(rest, t, s);
    }
}

/// What a list of nodes leaves is the rest of the string after the part that
/// was read.
pub proof fn law_nodes_leave_rest(s: Seq<char>, nodes: Seq<NodeView>)
    ensures
        more_nodes(s, nodes) matches Ok((rest, _)) ==> is_rest(rest, s),
    decreases s.len(), 3int,
{
    law_node_leaves_rest(s);
    lemma_leading_spaces(s);
    lemma_is_rest(s, leading_spaces(s));
    if let Ok((next, node)) = any_node(s) {
        law_nodes_leave_rest(next, joined(nodes, node));
        if let Ok((rest, _)) = more_nodes(s, nodes) {
            lemma_rest_of_rest(rest, next, s);
        }
    }
}

/// A string that is one node is a list of that node.
pub proof fn lemma_single_node(s: Seq<char>, node: NodeView)
    requires
        trimmed(s) == s,
        any_node(s) == Ok::<(Seq<char>, NodeView), Interrupt>((Seq::empty(), node)),
        !node.is_boolean(),
    ensures
        search_of(s) == Some(seq![node]),
{
    let end = Seq::<char>::empty();
    lemma_node_progress(s);
    lemma_node_progress(end);
    lemma_leading_spaces(end);
    assert(unspaced(end) =~= end);
    assert(any_node(end) == Err::<(Seq<char>, NodeView), Interrupt>(Interrupt::Error));
    assert(joined(Seq::empty(), node) =~= seq![node]);
    assert(more_nodes(end, seq![node]) == Ok::<(Seq<char>, Seq<NodeView>), Interrupt>(
        (end, seq![node]),
    ));
    assert(some_nodes(s) == more_nodes(end, joined(Seq::empty(), node)));
}

/// Nodes that come after an even number of others are the same as without
/// them.
proof fn lemma_nodes_after(s: Seq<char>, before: Seq<NodeView>, nodes: Seq<NodeView>)
    requires
        before.len() % 2 == 0,
        nodes.len() > 0,
        more_nodes(s, nodes) is Ok,
    ensures
        more_nodes(s, before + nodes) == match more_nodes(s, nodes) {
            Ok((rest, all)) => Ok((rest, before + all)),
            Err(e) => Err(e),
        },
    decreases s.len(),
{
    lemma_node_progress(s);
    assert((before + nodes).last() == nodes.last());
    if let Ok((rest, node)) = any_node(s) {
        lemma_nodes_after(rest, before, joined(nodes, node));
        assert(before + joined(nodes, node) =~= joined(before + nodes, node));
    }
}

/// The nodes of a search, after others that end in a word that joins.
pub proof fn lemma_search_after(b: Seq<char>, before: Seq<NodeView>)
    requires
        before.len() % 2 == 0,
        some_nodes(b) is Ok,
    ensures
        more_nodes(b, before) == match some_nodes(b) {
            Ok((rest, all)) => Ok((rest, before + all)),
            Err(e) => Err(e),
        },
        any_node(b) matches Ok((_, first)) && !first.is_boolean(),
{
    lemma_node_progress(b);
    if let Ok((rest, first)) = any_node(b) {
        let one = joined(Seq::empty(), first);
        assert(some_nodes(b) == more_nodes(rest, one));
        assert(joined(before, first) =~= before + one);
        lemma_nodes_after(rest, before, one);
    }
}

/// Only a string without white space at its ends is left as it is.
pub proof fn lemma_trimmed_len(s: Seq<char>)
    ensures
        trimmed(s).len() <= s.len(),
        s.len() > 0 ==> (trimmed(s) == s) == (!white_space(s.first()) && !white_space(s.last())),
    decreases s.len(),
{
    if s.len() > 0 {
        lemma_trimmed_len(s.drop_first());
        lemma_trimmed_len(s.drop_last());
    }
}

/// Two searches with white space between them are one search, of the nodes of
/// the first, `And`, and the nodes of the second.
#[verifier::spinoff_prover]
#[verifier::rlimit(40)]
pub proof fn law_searches_side_by_side(
    a: Seq<char>,
    na: Seq<NodeView>,
    gap: Seq<char>,
    b: Seq<char>,
    nb: Seq<NodeView>,
)
    requires
        trimmed(a) == a,
        a.len() > 0,
        search_of(a) == Some(na),
        trimmed(b) == b,
        b.len() > 0,
        search_of(b) == Some(nb),
        is_gap(gap),
        gap.len() > 0,
    ensures
        search_of(a + gap + b) == Some(na + seq![NodeView::And] + nb),
{
    let s = a + gap + b;
    let u = gap + b;
    assert(s =~= a + u);
    lemma_trimmed_len(a);
    lemma_trimmed_len(b);
    lemma_trimmed_len(s);
    law_nodes_alternate(a);
    lemma_nodes_join(a, u, Seq::empty());
    law_white_space_between(gap, b, na);
    let before = na.push(NodeView::And);
    lemma_search_after(b, before);
    lemma_node_progress(b);
    let (rest, first) = any_node(b)->Ok_0;
    assert(joined(na, first) =~= joined(before, first));
    assert(more_nodes(b, na) == more_nodes(b, before));
    assert(before + nb =~= na + seq![NodeView::And] + nb);
}

/// Two searches with `and` or `or` between them are one search, of the nodes of
/// the first, the word, and the nodes of the second. Before a quote or a bracket
/// the word needs no white space.
#[verifier::spinoff_prover]
#[verifier::rlimit(40)]
pub proof fn law_searches_joined(
    a: Seq<char>,
    na: Seq<NodeView>,
    gap: Seq<char>,
    word: Seq<char>,
    next_gap: Seq<char>,
    b: Seq<char>,
    nb: Seq<NodeView>,
)
    requires
        trimmed(a) == a,
        a.len() > 0,
        search_of(a) == Some(na),
        trimmed(b) == b,
        b.len() > 0,
        search_of(b) == Some(nb),
        is_gap(gap),
        gap.len() > 0,
        is_gap(next_gap),
        next_gap.len() > 0 || b[0] == '"' || b[0] == '(',
        lowercase(word) == "and"@ || lowercase(word) == "or"@,
    ensures
        search_of(a + gap + word + next_gap + b) == Some(
            na + seq![
                if lowercase(word) == "and"@ {
                    NodeView::And
                } else {
                    NodeView::Or
                },
            ] + nb,
        ),
{
    let s = a + gap + word + next_gap + b;
    let last = next_gap + b;
    let middle = word + last;
    let u = gap + middle;
    assert(s =~= a + u);
    lemma_trimmed_len(a);
    lemma_trimmed_len(b);
    lemma_trimmed_len(s);
    law_nodes_alternate(a);
    lemma_nodes_join(a, u, Seq::empty());
    law_white_space_between(gap, middle, na);
    assert(last[0] == if next_gap.len() > 0 {
        next_gap[0]
    } else {
        b[0]
    });
    law_boolean_words(word, last);
    let node = if lowercase(word) == "and"@ {
        NodeView::And
    } else {
        NodeView::Or
    };
    assert(any_node(middle) == Ok::<(Seq<char>, NodeView), Interrupt>((last, node))) by {
        reveal_strlit("and");
        reveal_strlit("or");
        assert(lowercase(word).len() == word.len());
        assert(middle[0] == word[0]);
        assert(lowercase(word)[0] == lower(word[0]));
        assert(leading_spaces(middle) == 0);
        assert(unspaced(middle) =~= middle);
    }
    let before = na.push(node);
    assert(joined(na, node) == before);
    assert(more_nodes(middle, na) == more_nodes(last, before));
    law_white_space_between(next_gap, b, before);
    lemma_search_after(b, before);
    assert(before + nb =~= na + seq![node] + nb);
}

/// Two searches joined by a space, by `and` or by `OR`: the nodes of the first,
/// the node that joins, and the nodes of the second.
#[verifier::spinoff_prover]
#[verifier::rlimit(40)]
pub proof fn law_join(a: Seq<char>, na: Seq<NodeView>, b: Seq<char>, nb: Seq<NodeView>)
    requires
        trimmed(a) == a,
        a.len() > 0,
        search_of(a) == Some(na),
        trimmed(b) == b,
        b.len() > 0,
        search_of(b) == Some(nb),
    ensures
        search_of(a + " "@ + b) == Some(na + seq![NodeView::And] + nb),
        search_of(a + " and "@ + b) == Some(na + seq![NodeView::And] + nb),
        search_of(a + " OR "@ + b) == Some(na + seq![NodeView::Or] + nb),
{
    let gap = seq![' '];
    assert(a + " "@ + b == a + gap + b) by {
        reveal_strlit(" ");
        assert(" "@ =~= gap);
    }
    law_searches_side_by_side(a, na, gap, b, nb);

    let and = seq!['a', 'n', 'd'];
    assert(lowercase(and) == "and"@) by {
        reveal_strlit("and");
        assert(lowercase(and) =~= "and"@);
    }
    assert(a + gap + and + gap + b == a + " and "@ + b) by {
        reveal_strlit(" and ");
        assert(gap + and + gap =~= " and "@);
        assert(a + gap + and + gap + b =~= a + (gap + and + gap) + b);
    }
    law_searches_joined(a, na, gap, and, gap, b, nb);

    let or = seq!['O', 'R'];
    assert(lowercase(or) == "or"@ && "or"@ != "and"@) by {
        reveal_strlit("and");
        reveal_strlit("or");
        assert(lower('O') == 'o' && lower('R') == 'r');
        assert(lowercase(or) =~= "or"@);
        assert("or"@.len() != "and"@.len());
    }
    assert(a + gap + or + gap + b == a + " OR "@ + b) by {
        reveal_strlit(" OR ");
        assert(gap + or + gap =~= " OR "@);
        assert(a + gap + or + gap + b =~= a + (gap + or + gap) + b);
    }
    law_searches_joined(a, na, gap, or, gap, b, nb);
}

} // verus!
