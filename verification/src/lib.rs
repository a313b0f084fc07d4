//! Combinatory-logic terms: parsing, reduction and canonical rendering.
//!
//! A term is built from the primitive combinators S, K, I, W, C and B,
//! single-character free variables, and left-associative juxtaposition.
//! Parsing consults a table of single-character definitions; applying a
//! term to an argument either stores the argument (while the combinator
//! is unsaturated) or fires the combinator's rewrite rule.
pub mod config;
pub mod defs;
pub mod laws;
pub mod model;
pub mod parser;
pub mod reduce;
pub mod source;
pub mod term;

pub use config::Args;
pub use defs::Defs;
pub use model::TermV;
pub use source::assignment;
pub use term::Expr;
