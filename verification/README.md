# kata

The front end of the Kata language — a functional language in prefix
notation that keeps data, pure functions and actions apart — written in
Verus, with its behaviour stated in contracts and proved.

## Layout

- `src/lexer/` splits source text into tokens (`KataLexer::lex`) and inserts
  the INDENT and DEDENT tokens of significant indentation
  (`KataLexer::lex_with_indent`). Both are specified by spec functions over
  the characters of the source (`spec_lex`, `spec_layout`).
- `src/ast/` holds the syntax tree, a view of each node as a plain value, and
  how each node is written back as text.
- `src/parser/` reads a token vector into a module. Each grammar rule is a
  spec function on token positions (`type_expr_at`, `pattern_at`,
  `expression_at`, `statement_at`, `top_level_at`, `module_at`), and each
  parser function is proved to compute exactly what its rule says.
- `src/type_checker/` orders declarations by their dependencies
  (`dag.rs`), checks them with unification and multiple dispatch
  (`inference.rs`, `checker.rs`), enforces the orphan rule and interface
  contracts (`interfaces.rs`), and audits that pure functions never refer to an
  action (`effects.rs`).
- `src/tast/` is the typed tree the checker produces.
- `src/type_checker/table.rs` is the name-keyed table the checker keeps its
  scopes, dispatch entries, types and interfaces in: a vector of entries
  with distinct names, in the order they were first inserted. The
  environment is keyed by `String`; vstd's specification of `HashMap`
  holds only for keys whose hashing it models (integers and `bool`), and
  for a `String` key that model would have to be assumed, so a lookup in a
  `HashMap<String, _>` gives back nothing Verus can reason about. The
  table states exactly what each insert and lookup does, which the
  checker's proofs rely on.
- `src/type_checker/unify_laws.rs` proves what substitutions and
  unification promise: applying a composition is applying its parts in
  turn, and a substitution that unification gives makes the two types
  equal.
- `src/text.rs` holds the few text operations the rest builds on.
- `app/main.rs` is the command-line program: it reads a file, runs the
  library, and reports errors with source snippets.
- `tests/` runs the library on concrete inputs.

## Verifying

Every function in `src/` is verified by Verus; the laws the library keeps
(for example that layout tokens always balance, or that an inner scope
shadows an outer one) are public proof functions named `law_*`.

## Scope

The crate is a front end and stops at the typed tree: it does not lower
programs to an intermediate form, generate code, run them, or offer an
interactive prompt.
