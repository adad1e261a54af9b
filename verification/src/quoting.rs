//! Quotes around a term and quotes around its argument mean the same.

#[allow(unused_imports)]
use crate::ast::{Interrupt, NodeView};
#[allow(unused_imports)]
use crate::grammar::{partially_quoted_node, quoted_node, quoted_text, Run};
#[allow(unused_imports)]
use crate::terms::argument_search;
use vstd::prelude::*;

verus! {

/// Text that goes on to the end of `a` goes on in what follows.
pub proof fn lemma_run_through(run: Run, a: Seq<char>, b: Seq<char>, i: int)
    requires
        0 <= i <= a.len(),
        run.end(a, i) == Some(a.len() as int),
    ensures
        run.end(a + b, i) == run.end(a + b, a.len() as int),
    decreases a.len() - i,
{
    if i < a.len() {
        assert((a + b)[i] == a[i]);
        if a[i] == '\\' {
            assert((a + b)[i + 1] == a[i + 1]);
            lemma_run_through(run, a, b, i + 2);
        } else {
            lemma_run_through(run, a, b, i + 1);
        }
    }
}

/// Where text ends does not depend on what stands before it.
pub proof fn lemma_run_shift(run: Run, a: Seq<char>, b: Seq<char>, i: int)
    requires
        0 <= i,
    ensures
        run.end(a + b, a.len() + i) == match run.end(b, i) {
            Some(n) => Some(a.len() + n),
            None => None,
        },
    decreases b.len() - i,
{
    if i < b.len() {
        assert((a + b)[a.len() + i] == b[i]);
        if i + 1 < b.len() {
            assert((a + b)[a.len() + i + 1] == b[i + 1]);
            lemma_run_shift(run, a, b, i + 2);
        }
        lemma_run_shift(run, a, b, i + 1);
    }
}

/// Text that ends within `a` ends at the same place whatever follows.
pub proof fn lemma_run_ends_within(run: Run, a: Seq<char>, b: Seq<char>, i: int)
    requires
        0 <= i <= a.len(),
        run.end(a, i) matches Some(n) && n < a.len(),
    ensures
        run.end(a + b, i) == run.end(a, i),
    decreases a.len() - i,
{
    assert((a + b)[i] == a[i]);
    if a[i] == '\\' {
        assert((a + b)[i + 1] == a[i + 1]);
        lemma_run_ends_within(run, a, b, i + 2);
    } else if !run.ends(a[i]) {
        lemma_run_ends_within(run, a, b, i + 1);
    }
}

/// A key can stand in quotes, and has no colon.
proof fn lemma_key_run(key: Seq<char>, i: int)
    requires
        0 <= i <= key.len(),
        Run::Key.end(key, i) == Some(key.len() as int),
    ensures
        Run::Quoted.end(key, i) == Some(key.len() as int),
        Run::Term.end(key, i) == Some(key.len() as int),
    decreases key.len() - i,
{
    if i < key.len() {
        if key[i] == '\\' {
            lemma_key_run(key, i + 2);
        } else {
            lemma_key_run(key, i + 1);
        }
    }
}

/// The text between quotes is the whole text up to the closing quote.
pub proof fn lemma_quoted_text(text: Seq<char>, rest: Seq<char>)
    requires
        text.len() > 0,
        Run::Quoted.end(text, 0) == Some(text.len() as int),
    ensures
        quoted_text(seq!['"'] + text + seq!['"'] + rest) == Ok::<
            (Seq<char>, Seq<char>),
            Interrupt,
        >((rest, text)),
{
    let s = seq!['"'] + text + seq!['"'] + rest;
    let after = seq!['"'] + rest;
    assert(s.skip(1) =~= text + after);
    lemma_run_through(Run::Quoted, text, after, 0);
    lemma_run_shift(Run::Quoted, text, after, 0);
    assert((text + after).skip(text.len() as int) =~= after);
    assert((text + after).take(text.len() as int) =~= text);
    assert(after.skip(1) =~= rest);
}

/// Quotes after the colon mean the same as quotes around key and argument.
pub proof fn law_quotes_after_colon(key: Seq<char>, val: Seq<char>, rest: Seq<char>)
    requires
        key.len() > 0,
        val.len() > 0,
        Run::Key.end(key, 0) == Some(key.len() as int),
        Run::Quoted.end(val, 0) == Some(val.len() as int),
    ensures
        quoted_node(seq!['"'] + (key + seq![':'] + val) + seq!['"'] + rest)
            == partially_quoted_node(key + seq![':'] + (seq!['"'] + val + seq!['"'] + rest)),
        partially_quoted_node(key + seq![':'] + (seq!['"'] + val + seq!['"'] + rest))
            == match argument_search(key, val) {
            Some(search) => Ok((rest, NodeView::Search(search))),
            None => Err(Interrupt::Error),
        },
{
    lemma_key_run(key, 0);
    // quotes around both
    let text = key + seq![':'] + val;
    let tail = seq![':'] + val;
    assert(text =~= key + tail);
    lemma_run_through(Run::Quoted, key, tail, 0);
    lemma_run_shift(Run::Quoted, key, tail, 0);
    lemma_run_shift(Run::Quoted, seq![':'], val, 0);
    assert(Run::Quoted.end(tail, 0) == Run::Quoted.end(tail, 1));
    lemma_quoted_text(text, rest);
    lemma_run_through(Run::Term, key, tail, 0);
    assert(Run::Term.end(text, 0) == Some(key.len() as int));
    assert(text.skip(key.len() as int) =~= tail);
    assert(text.take(key.len() as int) =~= key);
    assert(tail.skip(1) =~= val);
    // quotes after the colon
    let argument = seq!['"'] + val + seq!['"'] + rest;
    let s = key + seq![':'] + argument;
    assert(s =~= key + (seq![':'] + argument));
    lemma_run_through(Run::Key, key, seq![':'] + argument, 0);
    assert(Run::Key.end(s, 0) == Some(key.len() as int));
    assert(s.skip(key.len() as int) =~= seq![':'] + argument);
    assert(s.take(key.len() as int) =~= key);
    assert((seq![':'] + argument).skip(1) =~= argument);
    lemma_quoted_text(val, rest);
}

/// In quotes, any character can be escaped.
pub proof fn law_any_escape_in_quotes(a: Seq<char>, c: char, b: Seq<char>, rest: Seq<char>)
    requires
        Run::Quoted.end(a, 0) == Some(a.len() as int),
        Run::Quoted.end(b, 0) == Some(b.len() as int),
    ensures
        quoted_text(seq!['"'] + (a + seq!['\\', c] + b) + seq!['"'] + rest) == Ok::<
            (Seq<char>, Seq<char>),
            Interrupt,
        >((rest, a + seq!['\\', c] + b)),
{
    let text = a + seq!['\\', c] + b;
    let tail = seq!['\\', c] + b;
    assert(text =~= a + tail);
    lemma_run_through(Run::Quoted, a, tail, 0);
    lemma_run_shift(Run::Quoted, a, tail, 0);
    assert(Run::Quoted.end(tail, 0) == Run::Quoted.end(tail, 2));
    lemma_run_shift(Run::Quoted, seq!['\\', c], b, 0);
    lemma_quoted_text(text, rest);
}

} // verus!
