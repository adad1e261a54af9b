# anki_search

A parser for the search language of a flashcard collection, written in Verus.
`parse` turns a query into a list of nodes; its contract says, for every input,
whether the query is valid and which nodes it is made of.

- `src/ast.rs`: the nodes, and the mathematical values that contracts speak of
- `src/grammar.rs`: nodes, groups and terms, and `parse`
- `src/terms.rs`: the keys of a term (`deck:`, `is:`, `prop:` ...) and their
  arguments
- `src/escapes.rs`: escape sequences and wildcards, as SQL patterns or regular
  expressions
- `src/regexes.rs`: the calls into the `regex` crate and what is taken on trust
  of them
- `src/numbers.rs`, `src/strings.rs`: integers, decimal literals, characters
- `src/laws.rs`, `src/quoting.rs`, `src/tails.rs`, `src/brackets.rs`,
  `src/literals.rs`: what is proved of every search
- `app/`: property searches with the ease factor as a floating point number
