//! The grammar of searches: terms, groups, and the nodes between them.

use crate::ast::{AnkiError, IResult, Interrupt, Node, ParseError, ParseResult, SearchNode};
#[allow(unused_imports)]
use crate::ast::{lemma_nodes_view, lemma_nodes_view_push, nodes_view, NodeView, SearchView};
use crate::escapes::unescape_to_glob;
#[allow(unused_imports)]
use crate::escapes::to_glob;
use crate::strings::{chars_of, is_word, trim};
#[allow(unused_imports)]
use crate::strings::{lowercase, trimmed};
use crate::terms::search_node_for_text_with_argument;
#[allow(unused_imports)]
use crate::terms::{argument_search, is_search};
use vstd::prelude::*;

verus! {

/// A kind of text in which a backslash escapes the character after it.
pub enum Run {
    /// Text outside of quotes.
    Unquoted,
    /// Text between quotes.
    Quoted,
    /// A key outside of quotes, before its colon.
    Key,
    /// A term, up to its first colon.
    Term,
}

impl Run {
    /// The characters that end the text, unless they are escaped.
    pub open spec fn ends(self, c: char) -> bool {
        match self {
            Run::Unquoted => c == '"' || c == '(' || c == ')' || is_space(c),
            Run::Quoted => c == '"',
            Run::Key => c == '"' || c == '(' || c == ')' || c == ':' || is_space(c),
            Run::Term => c == ':',
        }
    }

    /// The characters that a backslash may stand before.
    pub open spec fn allows(self, c: char) -> bool {
        match self {
            Run::Unquoted => !is_space(c),
            Run::Quoted => true,
            Run::Key => c != ':' && !is_space(c),
            Run::Term => true,
        }
    }

    /// Where the text that is read from `i` on ends, if no backslash is in it
    /// that has nothing to escape.
    pub open spec fn end(self, s: Seq<char>, i: int) -> Option<int>
        decreases s.len() - i,
    {
        if i >= s.len() {
            Some(i)
        } else if s[i] == '\\' {
            if i + 1 < s.len() && self.allows(s[i + 1]) {
                self.end(s, i + 2)
            } else {
                None
            }
        } else if self.ends(s[i]) {
            Some(i)
        } else {
            self.end(s, i + 1)
        }
    }

    /// The text at the start of a string and the rest. There is no text if the
    /// string starts with a character that ends it.
    pub open spec fn split(self, s: Seq<char>) -> IResult<Seq<char>, Seq<char>> {
        match self.end(s, 0) {
            Some(n) if n > 0 || s.len() == 0 => Ok((s.skip(n), s.take(n))),
            _ => Err(Interrupt::Error),
        }
    }

    fn ends_at(&self, c: char) -> (r: bool)
        ensures
            r == self.ends(c),
    {
        match self {
            Run::Unquoted => c == '"' || c == '(' || c == ')' || is_space_char(c),
            Run::Quoted => c == '"',
            Run::Key => c == '"' || c == '(' || c == ')' || c == ':' || is_space_char(c),
            Run::Term => c == ':',
        }
    }

    fn can_escape(&self, c: char) -> (r: bool)
        ensures
            r == self.allows(c),
    {
        match self {
            Run::Unquoted => !is_space_char(c),
            Run::Quoted => true,
            Run::Key => c != ':' && !is_space_char(c),
            Run::Term => true,
        }
    }

    /// Splits the text off the start of a string.
    pub fn escaped<'a>(&self, s: &'a str) -> (r: IResult<&'a str, &'a str>)
        ensures
            text_result(r) == self.split(s@),
    {
        let a = chars_of(s);
        let mut i: usize = 0;
        while i < a.len() && (a[i] == '\\' || !self.ends_at(a[i]))
            invariant
                i <= a.len(),
                a@ == s@,
                self.end(s@, 0) == self.end(s@, i as int),
            decreases a.len() - i,
        {
            if a[i] == '\\' {
                if i + 1 < a.len() && self.can_escape(a[i + 1]) {
                    i += 2;
                } else {
                    return Err(Interrupt::Error);
                }
            } else {
                i += 1;
            }
        }
        if i == 0 && a.len() > 0 {
            return Err(Interrupt::Error);
        }
        assert(s@.skip(i as int) =~= s@.subrange(i as int, s@.len() as int));
        assert(s@.take(i as int) =~= s@.subrange(0, i as int));
        Ok((s.substring_char(i, a.len()), s.substring_char(0, i)))
    }
}

/// The value of a result with text.
pub open spec fn text_result(r: IResult<&str, &str>) -> IResult<Seq<char>, Seq<char>> {
    match r {
        Ok((rest, text)) => Ok((rest@, text@)),
        Err(e) => Err(e),
    }
}

/// The value of a result with a node.
pub open spec fn node_result(r: IResult<&str, Node>) -> IResult<Seq<char>, NodeView> {
    match r {
        Ok((rest, node)) => Ok((rest@, node@)),
        Err(e) => Err(e),
    }
}

/// The value of a result with a list of nodes.
pub open spec fn nodes_result(r: IResult<&str, Vec<Node>>) -> IResult<Seq<char>, Seq<NodeView>> {
    match r {
        Ok((rest, nodes)) => Ok((rest@, nodes_view(nodes@))),
        Err(e) => Err(e),
    }
}

/// White space between nodes.
pub open spec fn is_space(c: char) -> bool {
    c == ' ' || c == '\u{3000}' || c == '\t' || c == '\n'
}

fn is_space_char(c: char) -> (r: bool)
    ensures
        r == is_space(c),
{
    c == ' ' || c == '\u{3000}' || c == '\t' || c == '\n'
}

/// How many characters of white space stand at the start.
pub open spec fn leading_spaces(s: Seq<char>) -> int
    decreases s.len(),
{
    if s.len() > 0 && is_space(s[0]) {
        1 + leading_spaces(s.skip(1))
    } else {
        0
    }
}

/// A string without the white space at its start.
pub open spec fn unspaced(s: Seq<char>) -> Seq<char> {
    s.skip(leading_spaces(s))
}

/// White space at the start is within the string.
pub proof fn lemma_leading_spaces(s: Seq<char>)
    ensures
        0 <= leading_spaces(s) <= s.len(),
    decreases s.len(),
{
    if s.len() > 0 && is_space(s[0]) {
        lemma_leading_spaces(s.skip(1));
    }
}

/// Whether `c` stands at the start.
pub open spec fn starts(s: Seq<char>, c: char) -> bool {
    s.len() > 0 && s[0] == c
}

/// What a term asks for: text without a colon is searched for as it is.
pub open spec fn term_search(s: Seq<char>) -> Option<SearchView> {
    match Run::Term.split(s) {
        Err(_) => None,
        Ok((tail, head)) => if tail.len() == 0 {
            match to_glob(head) {
                Some(text) => Some(SearchView::UnqualifiedText(text)),
                None => None,
            }
        } else {
            argument_search(head, tail.skip(1))
        },
    }
}

/// Text between quotes, which is not empty.
pub open spec fn quoted_text(s: Seq<char>) -> IResult<Seq<char>, Seq<char>> {
    if !starts(s, '"') {
        Err(Interrupt::Error)
    } else {
        match Run::Quoted.split(s.skip(1)) {
            Ok((rest, text)) if starts(rest, '"') => Ok((rest.skip(1), text)),
            _ => Err(Interrupt::Error),
        }
    }
}

/// A term in quotes.
pub open spec fn quoted_node(s: Seq<char>) -> IResult<Seq<char>, NodeView> {
    match quoted_text(s) {
        Err(e) => Err(e),
        Ok((rest, text)) => match term_search(text) {
            Some(search) => Ok((rest, NodeView::Search(search))),
            None => Err(Interrupt::Error),
        },
    }
}

/// A key, a colon, and an argument in quotes.
pub open spec fn partially_quoted_node(s: Seq<char>) -> IResult<Seq<char>, NodeView> {
    match Run::Key.split(s) {
        Ok((rest, key)) if starts(rest, ':') => match quoted_text(rest.skip(1)) {
            Err(e) => Err(e),
            Ok((rest, val)) => match argument_search(key, val) {
                Some(search) => Ok((rest, NodeView::Search(search))),
                None => Err(Interrupt::Error),
            },
        },
        _ => Err(Interrupt::Error),
    }
}

/// A term outside of quotes, or a word that joins two nodes.
pub open spec fn unquoted_node(s: Seq<char>) -> IResult<Seq<char>, NodeView> {
    match Run::Unquoted.split(s) {
        Ok((rest, text)) if text.len() > 0 => if lowercase(text) == "or"@ {
            Ok((rest, NodeView::Or))
        } else if lowercase(text) == "and"@ {
            Ok((rest, NodeView::And))
        } else {
            match term_search(text) {
                Some(search) => Ok((rest, NodeView::Search(search))),
                None => Err(Interrupt::Error),
            }
        },
        _ => Err(Interrupt::Error),
    }
}

/// A term: in quotes, with its argument in quotes, or without quotes. The
/// first of these that succeeds counts.
pub open spec fn term_node(s: Seq<char>) -> IResult<Seq<char>, NodeView> {
    if quoted_node(s) is Ok {
        quoted_node(s)
    } else if partially_quoted_node(s) is Ok {
        partially_quoted_node(s)
    } else {
        unquoted_node(s)
    }
}

/// A list with one node more. Between two nodes that do not join, `And` is
/// put.
pub open spec fn joined(nodes: Seq<NodeView>, node: NodeView) -> Seq<NodeView> {
    if nodes.len() % 2 == 1 && !node.is_boolean() {
        nodes.push(NodeView::And).push(node)
    } else {
        nodes.push(node)
    }
}

/// The nodes at the start of a string, after those already read. They end
/// where no further node can be read. A word that joins needs a node on either
/// side. (Reading a node always leaves less of the string.)
pub open spec fn more_nodes(s: Seq<char>, nodes: Seq<NodeView>) -> IResult<
    Seq<char>,
    Seq<NodeView>,
>
    decreases s.len(), 3int,
{
    match any_node(s) {
        Ok((rest, node)) => if nodes.len() % 2 == 0 && node.is_boolean() {
            Err(Interrupt::Failure)
        } else if rest.len() < s.len() {
            more_nodes(rest, joined(nodes, node))
        } else {
            Err(Interrupt::Failure)
        },
        Err(Interrupt::Failure) => Err(Interrupt::Failure),
        Err(Interrupt::Error) => if nodes.len() == 0 {
            Err(Interrupt::Error)
        } else if nodes.last().is_boolean() {
            Err(Interrupt::Failure)
        } else {
            Ok((unspaced(s), nodes))
        },
    }
}

/// One or more nodes, and the white space after them.
pub open spec fn some_nodes(s: Seq<char>) -> IResult<Seq<char>, Seq<NodeView>>
    decreases s.len(), 4int,
{
    more_nodes(s, Seq::empty())
}

/// One or more nodes surrounded by brackets.
pub open spec fn group_node(s: Seq<char>) -> IResult<Seq<char>, NodeView>
    decreases s.len(), 0int,
{
    if !starts(s, '(') {
        Err(Interrupt::Error)
    } else {
        match some_nodes(s.skip(1)) {
            Err(e) => Err(e),
            Ok((rest, nodes)) => if starts(rest, ')') {
                Ok((rest.skip(1), NodeView::Group(nodes)))
            } else {
                Err(Interrupt::Error)
            },
        }
    }
}

/// A group or, where there is none, a term.
pub open spec fn group_or_term(s: Seq<char>) -> IResult<Seq<char>, NodeView>
    decreases s.len(), 1int,
{
    match group_node(s) {
        Err(Interrupt::Error) => term_node(s),
        r => r,
    }
}

/// A minus sign before a group or a term.
pub open spec fn negated(s: Seq<char>) -> IResult<Seq<char>, NodeView>
    decreases s.len(), 0int,
{
    if !starts(s, '-') {
        Err(Interrupt::Error)
    } else {
        match group_or_term(s.skip(1)) {
            Ok((rest, node)) => Ok((rest, NodeView::Not(Box::new(node)))),
            Err(e) => Err(e),
        }
    }
}

/// Optional white space, then a negated or plain group or term.
pub open spec fn any_node(s: Seq<char>) -> IResult<Seq<char>, NodeView>
    decreases s.len(), 2int,
{
    let t = unspaced(s);
    proof {
        lemma_leading_spaces(s);
    }
    match negated(t) {
        Err(Interrupt::Error) => group_or_term(t),
        r => r,
    }
}

/// The nodes that a search is made of, if it is valid.
pub open spec fn search_of(input: Seq<char>) -> Option<Seq<NodeView>> {
    let s = trimmed(input);
    if s.len() == 0 {
        Some(seq![NodeView::Search(SearchView::WholeCollection)])
    } else {
        match some_nodes(s) {
            Ok((rest, nodes)) if rest.len() == 0 => Some(nodes),
            _ => None,
        }
    }
}

/// Text ends within the string.
pub proof fn lemma_run_end(run: Run, s: Seq<char>, i: int)
    requires
        0 <= i <= s.len(),
    ensures
        run.end(s, i) matches Some(n) ==> i <= n <= s.len(),
    decreases s.len() - i,
{
    if i < s.len() {
        lemma_run_end(run, s, i + 1);
        if i + 1 < s.len() {
            lemma_run_end(run, s, i + 2);
        }
    }
}

/// A term takes at least one character.
pub proof fn lemma_term_progress(s: Seq<char>)
    ensures
        term_node(s) matches Ok((rest, _)) ==> rest.len() < s.len(),
{
    lemma_run_end(Run::Unquoted, s, 0);
    lemma_run_end(Run::Key, s, 0);
    if s.len() > 0 {
        lemma_run_end(Run::Quoted, s.skip(1), 0);
    }
    if let Ok((rest, key)) = Run::Key.split(s) {
        if starts(rest, ':') && starts(rest.skip(1), '"') {
            lemma_run_end(Run::Quoted, rest.skip(1).skip(1), 0);
        }
    }
}

/// A list of nodes never leaves more of the string than there was.
proof fn lemma_nodes_progress(s: Seq<char>, nodes: Seq<NodeView>)
    ensures
        more_nodes(s, nodes) matches Ok((rest, _)) ==> rest.len() <= s.len(),
    decreases s.len(), 3int,
{
    lemma_leading_spaces(s);
    if let Ok((rest, node)) = any_node(s) {
        if rest.len() < s.len() {
            lemma_nodes_progress(rest, joined(nodes, node));
        }
    }
}

proof fn lemma_group_progress(s: Seq<char>)
    ensures
        group_node(s) matches Ok((rest, _)) ==> rest.len() < s.len(),
    decreases s.len(), 0int,
{
    if s.len() > 0 {
        lemma_nodes_progress(s.skip(1), Seq::empty());
    }
}

proof fn lemma_group_or_term_progress(s: Seq<char>)
    ensures
        group_or_term(s) matches Ok((rest, _)) ==> rest.len() < s.len(),
{
    lemma_group_progress(s);
    lemma_term_progress(s);
}

/// A node takes at least one character.
pub proof fn lemma_node_progress(s: Seq<char>)
    ensures
        any_node(s) matches Ok((rest, _)) ==> rest.len() < s.len(),
{
    lemma_leading_spaces(s);
    let t = unspaced(s);
    lemma_group_or_term_progress(t);
    if t.len() > 0 {
        lemma_group_or_term_progress(t.skip(1));
    }
}

/// Whether `c` stands at the start of `s`, and the rest after it.
fn char_at_start<'a>(c: char, s: &'a str) -> (r: Option<&'a str>)
    ensures
        match r {
            Some(rest) => starts(s@, c) && rest@ == s@.skip(1),
            None => !starts(s@, c),
        },
{
    let len: usize = s.unicode_len();
    if len > 0 && s.get_char(0) == c {
        assert(s@.skip(1) =~= s@.subrange(1, len as int));
        Some(s.substring_char(1, len))
    } else {
        None
    }
}

/// Parse the input string into a list of nodes.
pub fn parse(input: &str) -> (r: Result<Vec<Node<'_>>, AnkiError>)
    ensures
        match r {
            Ok(nodes) => search_of(input@) == Some(nodes_view(nodes@)),
            Err(e) => search_of(input@) is None && e == AnkiError::SearchError(None),
        },
{
    let input = trim(input);
    if input.is_empty() {
        let nodes = vec![Node::Search(SearchNode::WholeCollection)];
        proof {
            lemma_nodes_view(nodes@);
            assert(nodes_view(nodes@) =~= seq![NodeView::Search(SearchView::WholeCollection)]);
        }
        return Ok(nodes);
    }
    match group_inner(input) {
        Ok((rest, nodes)) => {
            if rest.is_empty() {
                Ok(nodes)
            } else {
                Err(AnkiError::SearchError(None))
            }
        },
        Err(_) => Err(AnkiError::SearchError(None)),
    }
}

/// One or more nodes surrounded by brackets, eg (one OR two)
pub fn group(s: &str) -> (r: IResult<&str, Node<'_>>)
    ensures
        node_result(r) == group_node(s@),
    decreases s@.len(), 0int,
{
    let inner = match char_at_start('(', s) {
        Some(inner) => inner,
        None => return Err(Interrupt::Error),
    };
    match group_inner(inner) {
        Ok((rest, nodes)) => match char_at_start(')', rest) {
            Some(rest) => Ok((rest, Node::Group(nodes))),
            None => Err(Interrupt::Error),
        },
        Err(e) => Err(e),
    }
}

/// One or more nodes inside brackets, eg 'one OR two -three'
pub fn group_inner(input: &str) -> (r: IResult<&str, Vec<Node<'_>>>)
    ensures
        nodes_result(r) == some_nodes(input@),
    decreases input@.len(), 3int,
{
    let mut remaining = input;
    let mut nodes: Vec<Node<'_>> = Vec::new();

    loop
        invariant
            some_nodes(input@) == more_nodes(remaining@, nodes_view(nodes@)),
            remaining@.len() <= input@.len(),
        ensures
            any_node(remaining@) == Err::<(Seq<char>, NodeView), Interrupt>(Interrupt::Error),
        decreases remaining@.len(),
    {
        proof {
            lemma_nodes_view(nodes@);
            lemma_node_progress(remaining@);
        }
        match node(remaining) {
            Ok((rem, node)) => {
                remaining = rem;
                if nodes.len() % 2 == 0 {
                    // before adding the node, if the length is even then the node
                    // must not be a boolean
                    if node.is_boolean() {
                        return Err(Interrupt::Failure);
                    }
                } else {
                    // if the length is odd, the next item must be a boolean. if it's
                    // not, add an implicit and
                    if !node.is_boolean() {
                        proof {
                            lemma_nodes_view_push(nodes@, Node::And);
                        }
                        nodes.push(Node::And);
                    }
                }
                proof {
                    lemma_nodes_view_push(nodes@, node);
                }
                nodes.push(node);
            },
            Err(Interrupt::Error) => {
                break;
            },
            Err(Interrupt::Failure) => {
                return Err(Interrupt::Failure);
            },
        }
    }

    proof {
        lemma_nodes_view(nodes@);
    }
    if nodes.len() == 0 {
        Err(Interrupt::Error)
    } else if nodes[nodes.len() - 1].is_boolean() {
        // no trailing and/or
        Err(Interrupt::Failure)
    } else {
        // chomp any trailing whitespace
        match whitespace0(remaining) {
            Ok((remaining, _)) => Ok((remaining, nodes)),
            Err(e) => Err(e),
        }
    }
}

/// Any white space, which may be none
pub fn whitespace0(s: &str) -> (r: IResult<&str, Vec<char>>)
    ensures
        r matches Ok((rest, spaces)) && rest@ == unspaced(s@) && spaces@ == s@.take(
            leading_spaces(s@),
        ),
{
    let a = chars_of(s);
    let mut spaces: Vec<char> = Vec::new();
    let mut i: usize = 0;
    assert(s@.skip(0) =~= s@);
    while i < a.len() && is_space_char(a[i])
        invariant
            i <= a.len(),
            a@ == s@,
            spaces@ == s@.take(i as int),
            leading_spaces(s@) == i + leading_spaces(s@.skip(i as int)),
        decreases a.len() - i,
    {
        assert(s@.skip(i as int).skip(1) =~= s@.skip(i + 1));
        spaces.push(a[i]);
        assert(spaces@ =~= s@.take(i + 1));
        i += 1;
    }
    assert(s@.skip(i as int) =~= s@.subrange(i as int, s@.len() as int));
    Ok((s.substring_char(i, a.len()), spaces))
}

/// Optional leading space, then a (negated) group or text
pub fn node(s: &str) -> (r: IResult<&str, Node<'_>>)
    ensures
        node_result(r) == any_node(s@),
    decreases s@.len(), 2int,
{
    proof {
        lemma_leading_spaces(s@);
    }
    let s = match whitespace0(s) {
        Ok((s, _)) => s,
        Err(e) => return Err(e),
    };
    match negated_node(s) {
        Err(Interrupt::Error) => group_or_text(s),
        r => r,
    }
}

/// A group or, where there is none, text
fn group_or_text(s: &str) -> (r: IResult<&str, Node<'_>>)
    ensures
        node_result(r) == group_or_term(s@),
    decreases s@.len(), 1int,
{
    match group(s) {
        Err(Interrupt::Error) => text(s),
        r => r,
    }
}

/// A minus sign before a group or text
pub fn negated_node(s: &str) -> (r: IResult<&str, Node<'_>>)
    ensures
        node_result(r) == negated(s@),
    decreases s@.len(), 0int,
{
    let inner = match char_at_start('-', s) {
        Some(inner) => inner,
        None => return Err(Interrupt::Error),
    };
    match group_or_text(inner) {
        Ok((rest, node)) => Ok((rest, Node::Not(Box::new(node)))),
        Err(e) => Err(e),
    }
}

/// Either quoted or unquoted text
pub fn text(s: &str) -> (r: IResult<&str, Node<'_>>)
    ensures
        node_result(r) == term_node(s@),
{
    let quoted = quoted_term(s);
    if quoted.is_ok() {
        return quoted;
    }
    let partially_quoted = partially_quoted_term(s);
    if partially_quoted.is_ok() {
        return partially_quoted;
    }
    unquoted_term(s)
}

/// Determine if text is a qualified search, and handle escaped chars.
pub fn search_node_for_text(s: &str) -> (r: ParseResult<SearchNode<'_>>)
    ensures
        is_search(r, term_search(s@)),
{
    match Run::Term.escaped(s) {
        Ok((tail, head)) => {
            if tail.is_empty() {
                match unescape_to_glob(head) {
                    Ok(text) => Ok(SearchNode::UnqualifiedText(text)),
                    Err(e) => Err(e),
                }
            } else {
                let len: usize = tail.unicode_len();
                assert(tail@.skip(1) =~= tail@.subrange(1, len as int));
                search_node_for_text_with_argument(head, tail.substring_char(1, len))
            }
        },
        Err(_) => Err(ParseError {  }),
    }
}

/// Unquoted text, terminated by whitespace or unescaped ", ( or )
pub fn unquoted_term(s: &str) -> (r: IResult<&str, Node<'_>>)
    ensures
        node_result(r) == unquoted_node(s@),
{
    match Run::Unquoted.escaped(s) {
        Ok((rest, text)) => {
            if text.is_empty() {
                // nothing is left of the input
                Err(Interrupt::Error)
            } else if is_word(text, "or") {
                Ok((rest, Node::Or))
            } else if is_word(text, "and") {
                Ok((rest, Node::And))
            } else {
                match search_node_for_text(text) {
                    Ok(search) => Ok((rest, Node::Search(search))),
                    Err(_) => Err(Interrupt::Error),
                }
            }
        },
        Err(e) => Err(e),
    }
}

/// Quoted text, including the outer double quotes.
pub fn quoted_term(s: &str) -> (r: IResult<&str, Node<'_>>)
    ensures
        node_result(r) == quoted_node(s@),
{
    match quoted_term_str(s) {
        Ok((rest, text)) => match search_node_for_text(text) {
            Ok(search) => Ok((rest, Node::Search(search))),
            Err(_) => Err(Interrupt::Error),
        },
        Err(e) => Err(e),
    }
}

/// The text between two double quotes.
pub fn quoted_term_str(s: &str) -> (r: IResult<&str, &str>)
    ensures
        text_result(r) == quoted_text(s@),
{
    let inner = match char_at_start('"', s) {
        Some(inner) => inner,
        None => return Err(Interrupt::Error),
    };
    match quoted_term_inner(inner) {
        Ok((rest, text)) => match char_at_start('"', rest) {
            Some(rest) => Ok((rest, text)),
            None => Err(Interrupt::Error),
        },
        Err(e) => Err(e),
    }
}

/// Quoted text, terminated by a non-escaped double quote
pub fn quoted_term_inner(s: &str) -> (r: IResult<&str, &str>)
    ensures
        text_result(r) == Run::Quoted.split(s@),
{
    Run::Quoted.escaped(s)
}

/// eg deck:"foo bar" - quotes must come after the :
pub fn partially_quoted_term(s: &str) -> (r: IResult<&str, Node<'_>>)
    ensures
        node_result(r) == partially_quoted_node(s@),
{
    let (rest, key) = match Run::Key.escaped(s) {
        Ok((rest, key)) => (rest, key),
        Err(e) => return Err(e),
    };
    let rest = match char_at_start(':', rest) {
        Some(rest) => rest,
        None => return Err(Interrupt::Error),
    };
    match quoted_term_str(rest) {
        Ok((rest, val)) => match search_node_for_text_with_argument(key, val) {
            Ok(search) => Ok((rest, Node::Search(search))),
            Err(_) => Err(Interrupt::Error),
        },
        Err(e) => Err(e),
    }
}

} // verus!
