# rust_cesk

A small imperative language (integers, booleans, unit, arrays, functions, `if`, `while`,
blocks) with a lexer, a parser and a CESK abstract machine that runs a parsed program one
transition at a time. The library is written in Verus: every function states its result
over a mathematical model and is proved against it.

Layout:

- `src/ast` — the syntax tree, its views (`ExprV`, `StmtV`, `FunV`), and `Program`, which
  keeps one function per name in name order.
- `src/parser/lexer` — tokens and the lexer; `lex_spec` says which tokens a text has.
- `src/parser` — the grammar as spec functions over tokens (`grammar.rs`), the parsers that
  follow it (`common.rs`) and `parse`.
- `src/conf` — configurations of the machine, their parts (environment, store, control,
  continuation), the program handler, and the transition relation `step` that the
  executable `Config::try_next` is proved to follow.
- `src/visit` — the visitor interface and the order of a walk (`visit.rs`), the successor
  map, a scope-collecting type checker, and drawing the tree in the DOT language.
- `src/display.rs` — the text in which values, operators, types, statements and tokens
  are shown.
- `app/main.rs` — reads a program from standard input and steps the machine, printing each
  configuration.
