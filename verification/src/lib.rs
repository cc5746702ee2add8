//! A small calculator language: a lexer, a precedence-climbing parser and a
//! tree-walking evaluator over a variable environment.
//!
//! Numbers are IEEE 754 doubles, carried as their 64-bit patterns. The library
//! compares and tests them itself; the four rounded operations and the reading
//! of a decimal literal are asked of a floating-point unit that the caller
//! hands to the evaluator.

pub mod ast;
pub mod errors;
pub mod evaluator;
pub mod lexer;
pub mod number;
pub mod output;
pub mod parse_laws;
pub mod parser;
pub mod session;
