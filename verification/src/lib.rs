//! A tree-walking interpreter for a small dynamically typed scripting
//! language: C-like syntax with variables, first-class functions with
//! closures, control flow, and numbers, strings, booleans and nil as
//! values.
//!
//! The pipeline has three stages — lexer, recursive-descent parser and
//! evaluator over a lexically nested environment — and each stage is
//! verified: a mathematical mirror (`spec_scan`, `spec_parse`, the
//! semantics in `sem`) says what the stage computes, and the executable
//! code is proved to compute exactly that.  `laws` states and proves the
//! pipeline's general laws.  The only trusted parts are small wrappers:
//! IEEE 754 arithmetic, decimal conversion and rendering through
//! `rustc_apfloat`, a handful of string and character primitives of std,
//! and the wall clock.

pub mod num;
pub mod strtab;
pub mod token;
pub mod ast;
pub mod lexer;
pub mod parser;
pub mod types;
pub mod env;
pub mod sem;
pub mod interp;
pub mod printer;
pub mod laws;
