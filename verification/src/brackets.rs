//! A search in brackets is a group of the same nodes.

#[allow(unused_imports)]
use crate::ast::{Interrupt, NodeView};
#[allow(unused_imports)]
use crate::grammar::{any_node, group_node, search_of, some_nodes, unspaced};
#[allow(unused_imports)]
use crate::laws::lemma_single_node;
#[allow(unused_imports)]
use crate::strings::trimmed;
#[allow(unused_imports)]
use crate::tails::lemma_nodes_then;
use vstd::prelude::*;

verus! {

/// Nodes in brackets are a group of the same nodes, whatever follows the
/// closing bracket.
pub proof fn law_brackets(s: Seq<char>, nodes: Seq<NodeView>, rest: Seq<char>)
    requires
        some_nodes(s) == Ok::<(Seq<char>, Seq<NodeView>), Interrupt>((Seq::empty(), nodes)),
    ensures
        group_node(seq!['('] + s + seq![')'] + rest) == Ok::<(Seq<char>, NodeView), Interrupt>(
            (rest, NodeView::Group(nodes)),
        ),
{
    let u = seq![')'] + rest;
    lemma_nodes_then(s, u, Seq::empty());
    let all = seq!['('] + s + seq![')'] + rest;
    assert(all.skip(1) =~= s + u);
    assert(Seq::empty() + u =~= u);
    assert(u.skip(1) =~= rest);
}

/// A search in brackets is one group, of the nodes of the search. With a minus
/// sign before the brackets it is the negation of that group.
pub proof fn law_search_in_brackets(s: Seq<char>, nodes: Seq<NodeView>)
    requires
        trimmed(s) == s,
        s.len() > 0,
        search_of(s) == Some(nodes),
    ensures
        search_of(seq!['('] + s + seq![')']) == Some(seq![NodeView::Group(nodes)]),
        search_of(seq!['-', '('] + s + seq![')']) == Some(
            seq![NodeView::Not(Box::new(NodeView::Group(nodes)))],
        ),
{
    let end = Seq::<char>::empty();
    assert(some_nodes(s)->Ok_0.0 =~= end);
    law_brackets(s, nodes, end);
    let group = seq!['('] + s + seq![')'];
    assert(group + end =~= group);
    assert(unspaced(group) =~= group);
    assert(any_node(group) == Ok::<(Seq<char>, NodeView), Interrupt>((end, NodeView::Group(nodes))));
    lemma_single_node(group, NodeView::Group(nodes));

    let negation = seq!['-', '('] + s + seq![')'];
    assert(negation.skip(1) =~= group);
    assert(unspaced(negation) =~= negation);
    lemma_single_node(negation, NodeView::Not(Box::new(NodeView::Group(nodes))));
}

} // verus!
