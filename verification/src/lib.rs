//! Core of a small s-expression language: a finite-state lexer, a
//! bracket-matching parser with reader macros, and a tree-walking evaluator
//! over chained lexical environments.
pub mod ast;
pub mod dec;
pub mod env;
pub mod eval;
pub mod laws;
pub mod lexer;
pub mod macros;
pub mod parser;
pub mod printer;
pub mod repl;
pub mod text;
