//! A small Lisp: text to tokens, tokens to expressions, expressions to values.
//!
//! - `number`: the numbers of the language, as IEEE-754 bit patterns;
//! - `decimal`: numbers as text;
//! - `risp_type`: expressions, failures, and the chain of scopes;
//! - `parser`: tokens and expressions from text;
//! - `primitives`: the built-in functions and the root scope;
//! - `host`: the program around the evaluator, and the record of what passes
//!   between the two;
//! - `semantics`: what a program means;
//! - `eval`, `repl`: the functions that compute it;
//! - `extension`, `laws`: what holds of every program.

pub mod decimal;
pub mod eval;
pub mod extension;
pub mod host;
pub mod laws;
pub mod number;
pub mod parser;
pub mod primitives;
pub mod repl;
pub mod risp_type;
pub mod semantics;
