# rcc

A compiler front end for a simplified variant of Java (MiniJava), written in
Verus: a lexical analyzer, a recursive-descent parser that builds an AST and a
scoped symbol table, a static semantic analyzer, a comment/whitespace
preprocessor and a three-address-code generator. Every phase carries a
contract that says exactly what it returns, stated over mathematical models
of tokens, trees and tables, and Verus proves the code against it.

## Layout

- `src/text.rs`: character classes and verified string building.
- `src/lexical_analyzer.rs`: `tokenize`, with the whole scanner given as a
  spec function (`spec_tokenize`), and `suggest_keyword`.
- `src/syntatic_analyzer.rs`: the parser; `src/syntatic_analyzer/grammar.rs`
  states the grammar as a function on token sequences, and
  `src/syntatic_analyzer/relaxed.rs` compares the strict and lax modes.
- `src/symbol_table.rs`: the scoped symbol table and its rendering.
- `src/ast.rs`: the AST and its pretty-printer.
- `src/semantic_analyzer.rs`: the type, class and inheritance rules.
- `src/tac.rs`: three-address code and its rendering.
- `src/preprocessor.rs`: comment and whitespace removal with a source map.
- `src/diagnostics.rs`: the token listing and the error reports.
- `app/main.rs`: the command-line driver (argument handling, file I/O).
- `tests/`: the test suites.

The `law_*` proof functions state the properties that hold across calls,
such as the lax mode accepting every program the strict grammar accepts, or
the semantic errors coming out sorted and complete.
