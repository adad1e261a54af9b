//! The nodes that a search is made of, and the plain values that contracts
//! speak of in their place.

use std::borrow::Cow;
use vstd::prelude::*;

verus! {

/// The identifier of a deck.
#[derive(Debug, Clone, Copy, PartialEq, Eq)]
pub struct DeckID(pub i64);

/// The identifier of a note type.
#[derive(Debug, Clone, Copy, PartialEq, Eq)]
pub struct NoteTypeID(pub i64);

/// A term that is no valid search.
#[derive(Debug, Clone, Copy, PartialEq, Eq)]
pub struct ParseError {}

pub type ParseResult<T> = Result<T, ParseError>;

/// How a parser of a part of the input fails: after `Error` another
/// alternative may be tried, after `Failure` none is.
#[derive(Debug, Clone, Copy, PartialEq, Eq)]
pub enum Interrupt {
    Error,
    Failure,
}

/// What is left of the input, and what was read from its start.
pub type IResult<I, O> = Result<(I, O), Interrupt>;

/// The error that a caller of `parse` sees.
#[derive(Debug, PartialEq, Eq)]
pub enum AnkiError {
    SearchError(Option<String>),
}

/// Text that stands for itself, or a regular expression.
#[derive(Debug, PartialEq)]
pub enum OptionalRe<'a> {
    Text(Cow<'a, str>),
    Re(Cow<'a, str>),
}

#[derive(Debug, PartialEq)]
pub enum Node<'a> {
    And,
    Or,
    Not(Box<Node<'a>>),
    Group(Vec<Node<'a>>),
    Search(SearchNode<'a>),
}

#[derive(Debug, PartialEq)]
pub enum SearchNode<'a> {
    // text without a colon
    UnqualifiedText(Cow<'a, str>),
    // foo:bar, where foo doesn't match a term below
    SingleField { field: OptionalRe<'a>, text: Cow<'a, str>, is_re: bool },
    AddedInDays(u32),
    EditedInDays(u32),
    CardTemplate(TemplateKind<'a>),
    Deck(String),
    DeckID(DeckID),
    NoteTypeID(NoteTypeID),
    NoteType(OptionalRe<'a>),
    Rated { days: u32, ease: Option<u8> },
    Tag(OptionalRe<'a>),
    Duplicates { note_type_id: NoteTypeID, text: Cow<'a, str> },
    State(StateKind),
    Flag(u8),
    NoteIDs(&'a str),
    CardIDs(&'a str),
    Property { operator: String, kind: PropertyKind },
    WholeCollection,
    Regex(Cow<'a, str>),
    NoCombining(Cow<'a, str>),
    WordBoundary(String),
}

#[derive(Debug, PartialEq)]
pub enum PropertyKind {
    Due(i32),
    Interval(u32),
    Reps(u32),
    Lapses(u32),
    /// The ease factor, as the decimal literal that was written.
    Ease(String),
}

#[derive(Debug, Clone, Copy, PartialEq, Eq)]
pub enum StateKind {
    New,
    Review,
    Learning,
    Due,
    Buried,
    UserBuried,
    SchedBuried,
    Suspended,
}

#[derive(Debug, PartialEq)]
pub enum TemplateKind<'a> {
    Ordinal(u16),
    Name(OptionalRe<'a>),
}

/// The value of an `OptionalRe`.
pub enum OptionalReView {
    Text(Seq<char>),
    Re(Seq<char>),
}

/// The value of a `TemplateKind`.
pub enum TemplateView {
    Ordinal(u16),
    Name(OptionalReView),
}

/// The value of a `PropertyKind`.
pub enum PropertyView {
    Due(i32),
    Interval(u32),
    Reps(u32),
    Lapses(u32),
    Ease(Seq<char>),
}

/// The value of a `SearchNode`.
pub enum SearchView {
    UnqualifiedText(Seq<char>),
    SingleField { field: OptionalReView, text: Seq<char>, is_re: bool },
    AddedInDays(u32),
    EditedInDays(u32),
    CardTemplate(TemplateView),
    Deck(Seq<char>),
    DeckID(DeckID),
    NoteTypeID(NoteTypeID),
    NoteType(OptionalReView),
    Rated { days: u32, ease: Option<u8> },
    Tag(OptionalReView),
    Duplicates { note_type_id: NoteTypeID, text: Seq<char> },
    State(StateKind),
    Flag(u8),
    NoteIDs(Seq<char>),
    CardIDs(Seq<char>),
    Property { operator: Seq<char>, kind: PropertyView },
    WholeCollection,
    Regex(Seq<char>),
    NoCombining(Seq<char>),
    WordBoundary(Seq<char>),
}

/// The value of a `Node`.
pub enum NodeView {
    And,
    Or,
    Not(Box<NodeView>),
    Group(Seq<NodeView>),
    Search(SearchView),
}

impl<'a> View for OptionalRe<'a> {
    type V = OptionalReView;

    open spec fn view(&self) -> OptionalReView {
        match self {
            OptionalRe::Text(text) => OptionalReView::Text(text@),
            OptionalRe::Re(text) => OptionalReView::Re(text@),
        }
    }
}

impl<'a> View for TemplateKind<'a> {
    type V = TemplateView;

    open spec fn view(&self) -> TemplateView {
        match self {
            TemplateKind::Ordinal(n) => TemplateView::Ordinal(*n),
            TemplateKind::Name(name) => TemplateView::Name(name@),
        }
    }
}

impl View for PropertyKind {
    type V = PropertyView;

    open spec fn view(&self) -> PropertyView {
        match self {
            PropertyKind::Due(n) => PropertyView::Due(*n),
            PropertyKind::Interval(n) => PropertyView::Interval(*n),
            PropertyKind::Reps(n) => PropertyView::Reps(*n),
            PropertyKind::Lapses(n) => PropertyView::Lapses(*n),
            PropertyKind::Ease(literal) => PropertyView::Ease(literal@),
        }
    }
}

impl<'a> View for SearchNode<'a> {
    type V = SearchView;

    open spec fn view(&self) -> SearchView {
        match self {
            SearchNode::UnqualifiedText(text) => SearchView::UnqualifiedText(text@),
            SearchNode::SingleField { field, text, is_re } => SearchView::SingleField {
                field: field@,
                text: text@,
                is_re: *is_re,
            },
            SearchNode::AddedInDays(n) => SearchView::AddedInDays(*n),
            SearchNode::EditedInDays(n) => SearchView::EditedInDays(*n),
            SearchNode::CardTemplate(kind) => SearchView::CardTemplate(kind@),
            SearchNode::Deck(re) => SearchView::Deck(re@),
            SearchNode::DeckID(id) => SearchView::DeckID(*id),
            SearchNode::NoteTypeID(id) => SearchView::NoteTypeID(*id),
            SearchNode::NoteType(name) => SearchView::NoteType(name@),
            SearchNode::Rated { days, ease } => SearchView::Rated { days: *days, ease: *ease },
            SearchNode::Tag(tag) => SearchView::Tag(tag@),
            SearchNode::Duplicates { note_type_id, text } => SearchView::Duplicates {
                note_type_id: *note_type_id,
                text: text@,
            },
            SearchNode::State(kind) => SearchView::State(*kind),
            SearchNode::Flag(n) => SearchView::Flag(*n),
            SearchNode::NoteIDs(ids) => SearchView::NoteIDs(ids@),
            SearchNode::CardIDs(ids) => SearchView::CardIDs(ids@),
            SearchNode::Property { operator, kind } => SearchView::Property {
                operator: operator@,
                kind: kind@,
            },
            SearchNode::WholeCollection => SearchView::WholeCollection,
            SearchNode::Regex(text) => SearchView::Regex(text@),
            SearchNode::NoCombining(text) => SearchView::NoCombining(text@),
            SearchNode::WordBoundary(re) => SearchView::WordBoundary(re@),
        }
    }
}

/// The value of a node.
pub open spec fn node_view(node: Node) -> NodeView
    decreases node,
{
    match node {
        Node::And => NodeView::And,
        Node::Or => NodeView::Or,
        Node::Not(inner) => NodeView::Not(Box::new(node_view(*inner))),
        Node::Group(nodes) => NodeView::Group(nodes_view(nodes@)),
        Node::Search(search) => NodeView::Search(search@),
    }
}

/// The values of a list of nodes.
pub open spec fn nodes_view(nodes: Seq<Node>) -> Seq<NodeView>
    decreases nodes,
{
    if nodes.len() == 0 {
        Seq::empty()
    } else {
        nodes_view(nodes.drop_last()).push(node_view(nodes.last()))
    }
}

impl<'a> View for Node<'a> {
    type V = NodeView;

    open spec fn view(&self) -> NodeView {
        node_view(*self)
    }
}

/// The value of a list has the value of each of its nodes in its place.
pub proof fn lemma_nodes_view(nodes: Seq<Node>)
    ensures
        nodes_view(nodes).len() == nodes.len(),
        forall|i: int| 0 <= i < nodes.len() ==> #[trigger] nodes_view(nodes)[i] == nodes[i]@,
    decreases nodes.len(),
{
    if nodes.len() > 0 {
        lemma_nodes_view(nodes.drop_last());
    }
}

/// The value of a list with one node more.
pub proof fn lemma_nodes_view_push(nodes: Seq<Node>, node: Node)
    ensures
        nodes_view(nodes.push(node)) == nodes_view(nodes).push(node@),
{
    assert(nodes.push(node).drop_last() =~= nodes);
}

/// The value of a list has as many nodes, in the same order, and the value of a
/// node has the same kind and the values of its parts.
pub proof fn law_node_values(
    nodes: Seq<Node>,
    i: int,
    inner: Node,
    list: Vec<Node>,
    search: SearchNode,
)
    ensures
        nodes_view(nodes).len() == nodes.len(),
        0 <= i < nodes.len() ==> nodes_view(nodes)[i] == nodes[i]@,
        Node::And@ == NodeView::And,
        Node::Or@ == NodeView::Or,
        Node::Not(Box::new(inner))@ == NodeView::Not(Box::new(inner@)),
        Node::Group(list)@ == NodeView::Group(nodes_view(list@)),
        Node::Search(search)@ == NodeView::Search(search@),
{
    lemma_nodes_view(nodes);
}

/// The value of a search has the same kind, and the same text and numbers.
pub proof fn law_search_values(
    text: Cow<str>,
    other: Cow<str>,
    owned: String,
    slice: &str,
    is_re: bool,
    n: u32,
    ordinal: u16,
    flag: u8,
    ease: Option<u8>,
    deck: DeckID,
    note_type: NoteTypeID,
    state: StateKind,
)
    ensures
        SearchNode::UnqualifiedText(text)@ == SearchView::UnqualifiedText(text@),
        (SearchNode::SingleField { field: OptionalRe::Text(other), text, is_re })@
            == (SearchView::SingleField {
            field: OptionalReView::Text(other@),
            text: text@,
            is_re,
        }),
        (SearchNode::SingleField { field: OptionalRe::Re(other), text, is_re })@
            == (SearchView::SingleField { field: OptionalReView::Re(other@), text: text@, is_re }),
        SearchNode::AddedInDays(n)@ == SearchView::AddedInDays(n),
        SearchNode::EditedInDays(n)@ == SearchView::EditedInDays(n),
        SearchNode::CardTemplate(TemplateKind::Ordinal(ordinal))@ == SearchView::CardTemplate(
            TemplateView::Ordinal(ordinal),
        ),
        SearchNode::CardTemplate(TemplateKind::Name(OptionalRe::Text(text)))@
            == SearchView::CardTemplate(TemplateView::Name(OptionalReView::Text(text@))),
        SearchNode::CardTemplate(TemplateKind::Name(OptionalRe::Re(text)))@
            == SearchView::CardTemplate(TemplateView::Name(OptionalReView::Re(text@))),
        SearchNode::Deck(owned)@ == SearchView::Deck(owned@),
        SearchNode::DeckID(deck)@ == SearchView::DeckID(deck),
        SearchNode::NoteTypeID(note_type)@ == SearchView::NoteTypeID(note_type),
        SearchNode::NoteType(OptionalRe::Text(text))@ == SearchView::NoteType(
            OptionalReView::Text(text@),
        ),
        SearchNode::NoteType(OptionalRe::Re(text))@ == SearchView::NoteType(
            OptionalReView::Re(text@),
        ),
        (SearchNode::Rated { days: n, ease })@ == (SearchView::Rated { days: n, ease }),
        SearchNode::Tag(OptionalRe::Text(text))@ == SearchView::Tag(OptionalReView::Text(text@)),
        SearchNode::Tag(OptionalRe::Re(text))@ == SearchView::Tag(OptionalReView::Re(text@)),
        (SearchNode::Duplicates { note_type_id: note_type, text })@ == (SearchView::Duplicates {
            note_type_id: note_type,
            text: text@,
        }),
        SearchNode::State(state)@ == SearchView::State(state),
        SearchNode::Flag(flag)@ == SearchView::Flag(flag),
        SearchNode::NoteIDs(slice)@ == SearchView::NoteIDs(slice@),
        SearchNode::CardIDs(slice)@ == SearchView::CardIDs(slice@),
        SearchNode::WholeCollection@ == SearchView::WholeCollection,
        SearchNode::Regex(text)@ == SearchView::Regex(text@),
        SearchNode::NoCombining(text)@ == SearchView::NoCombining(text@),
        SearchNode::WordBoundary(owned)@ == SearchView::WordBoundary(owned@),
{
}

/// The value of a property search has the same comparison, name and number.
pub proof fn law_property_values(operator: String, due: i32, n: u32, literal: String)
    ensures
        (SearchNode::Property { operator, kind: PropertyKind::Due(due) })@ == (SearchView::Property {
            operator: operator@,
            kind: PropertyView::Due(due),
        }),
        (SearchNode::Property { operator, kind: PropertyKind::Interval(n) })@
            == (SearchView::Property { operator: operator@, kind: PropertyView::Interval(n) }),
        (SearchNode::Property { operator, kind: PropertyKind::Reps(n) })@ == (SearchView::Property {
            operator: operator@,
            kind: PropertyView::Reps(n),
        }),
        (SearchNode::Property { operator, kind: PropertyKind::Lapses(n) })@ == (SearchView::Property {
            operator: operator@,
            kind: PropertyView::Lapses(n),
        }),
        (SearchNode::Property { operator, kind: PropertyKind::Ease(literal) })@
            == (SearchView::Property { operator: operator@, kind: PropertyView::Ease(literal@) }),
{
}

impl<'a> Node<'a> {
    /// Whether the node joins its neighbours.
    pub fn is_boolean(&self) -> (r: bool)
        ensures
            r == self@.is_boolean(),
    {
        matches!(self, Node::And | Node::Or)
    }
}

impl NodeView {
    /// Whether the node joins its neighbours.
    pub open spec fn is_boolean(self) -> bool {
        self is And || self is Or
    }
}

} // verus!
