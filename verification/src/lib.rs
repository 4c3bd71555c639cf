//! Compiler front end for a simplified variant of Java (MiniJava): a lexical
//! analyzer, a recursive-descent parser that builds an AST and a scoped symbol
//! table, a static semantic analyzer, a comment/whitespace preprocessor and a
//! three-address-code generator.

pub mod text;
pub mod lexical_analyzer;
pub mod symbol_table;
pub mod ast;
pub mod syntatic_analyzer;
pub mod semantic_analyzer;
pub mod tac;
pub mod preprocessor;
pub mod diagnostics;
