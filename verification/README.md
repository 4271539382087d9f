# nakati

The front end and a first interpreter of the Nakati programming language, written in
Verus: every function of the library carries a contract that Verus proves.

## Layout

- `src/text.rs`, `src/chars.rs`: strings and characters as sequences, and the few std
  and outside calls the library makes on them.
- `src/source.rs`, `src/common.rs`: sources split into graphemes, spans over them, and
  `OptionalResult`.
- `src/token.rs`, `src/lexer.rs`: tokens and the lexer, specified by `lex_outcome`.
- `src/ast.rs`: the syntax tree, its printed form (`print_tree`) and its view without
  spans (`ast_view`).
- `src/grammar.rs`: the grammar as spec functions over a stream of tokens;
  `src/parser.rs`: the parser, proved to build what the grammar gives.
- `src/module.rs`: module labels (`@developer/package:path`).
- `src/types/`: monotypes, polytypes and substitutions.
- `src/interpreter.rs`: the tree-walking interpreter, proved against a big-step
  semantics (`eval`) with scopes held in an arena (`World`).
- `src/bytecode/`: the bytecode format and its virtual machine.
- `tests/`: tests run against the compiled library.
- `app/`: the program around the library (global source registry, file reading, and
  running the virtual machine).
