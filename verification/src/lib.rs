//! A small imperative scripting language: a tokenizer, a recursive-descent
//! parser that builds a syntax tree, and a tree-walking evaluator with a
//! global table, a local set and a function table.
//!
//! `lexer` turns text into tokens, `parser` turns tokens into a `Program`,
//! and `eval` runs the program. What parsing and evaluation mean is stated
//! once, as functions on sequences, in `parser::grammar` and
//! `eval::semantics`; the parser and the evaluator are proved to compute
//! exactly that. `parser::laws` and `eval::laws` hold what follows from it.
//! Numbers are kept as the literals that denote them (`number`): the
//! library checks their grammar and computes nothing with them.

pub mod lexer;
pub mod number;
pub mod parser;
pub mod eval;
