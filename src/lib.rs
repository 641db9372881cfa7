//! A type checker for a dependently typed lambda calculus with two sorts.
pub mod term;
pub mod index;
pub mod statics;
pub mod lex;
pub mod scope;
pub mod parser;
pub mod parse;
