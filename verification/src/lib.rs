//! A miniature logic-programming engine: facts and rules, and queries that
//! are answered against them by unification and resolution.
//!
//! - [`term`]: terms, and their mathematical model.
//! - [`bindings`]: binding environments.
//! - [`semantics`]: what unification and resolution mean.
//! - [`interpreter`]: the engine, proved to compute that meaning.
//! - [`laws`]: laws of unification.
//! - [`lexer`] and [`parser`]: from program text to terms.

pub mod bindings;
pub mod error;
pub mod interpreter;
pub mod laws;
pub mod lexer;
pub mod parser;
pub mod semantics;
pub mod term;
