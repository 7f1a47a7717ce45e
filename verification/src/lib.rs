//! A tree-walking interpreter for a small dynamically-typed expression
//! language: integers, booleans, strings, `let`/`return` statements,
//! conditionals, and first-class functions with lexical closures.
//!
//! The pipeline is lexer -> Pratt parser -> abstract syntax tree ->
//! tree-walking evaluator with a chain of lexical environments.  Every stage
//! is specified against a mathematical model: the lexer against a spec-level
//! token function over the input bytes, the parser against a spec-level
//! recursive-descent parser over the token models, and the evaluator against
//! a fuel-indexed spec-level interpreter.

pub mod ast;
pub mod lexer;
pub mod parser;
pub mod object;
pub mod env;
pub mod eval;
