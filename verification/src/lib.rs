//! A verified parser for the collection search language: it turns a query
//! such as `deck:french -(is:new or flag:1)` into a list of nodes.
//!
//! `grammar::parse` is the entry. What it returns is `grammar::search_of` of
//! its input, which is defined there from the rules of the grammar, in `terms`
//! from the keys and their arguments, and in `escapes` from the escape
//! sequences and wildcards in the text. The modules `laws`, `quoting`,
//! `tails`, `brackets` and `searches` prove what holds of every search,
//! `arguments` what holds of every key, `numerals` of every number, and
//! `literals` of every text.

pub mod arguments;
pub mod ast;
pub mod brackets;
pub mod escapes;
pub mod grammar;
pub mod laws;
pub mod literals;
pub mod numbers;
pub mod numerals;
pub mod quoting;
pub mod regexes;
pub mod searches;
pub mod strings;
pub mod tails;
pub mod terms;

pub use ast::{
    AnkiError, DeckID, Node, NoteTypeID, OptionalRe, ParseError, ParseResult, PropertyKind,
    SearchNode, StateKind, TemplateKind,
};
pub use grammar::parse;
