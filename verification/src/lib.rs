//! Gejang: an interpreter for a small dynamically typed scripting language.
//!
//! The tree walker is the interpreter proper: a parser, the static resolver
//! that tells the evaluator how many lexical scopes lie between a variable
//! reference and its binding, and the evaluator. The bytecode interpreter is
//! a second, much smaller way to run arithmetic.
pub mod bytecode;
pub mod shared;
pub mod walker;
