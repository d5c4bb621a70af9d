//! Decides whether a type satisfies a boolean expression over named
//! capabilities.
//!
//! An expression is written with capability references, `!`, `&`, `^`, `|`
//! and parentheses. [`evaluator::evaluate`] reads it from text, resolves each
//! capability reference against a [`registry::Registry`], builds the
//! expression tree by precedence and folds it into one `bool`.
//!
//! - [`registry`]: the declared capabilities, the rules, and the probe.
//! - [`lexer`]: from text to tokens.
//! - [`token`]: the tokens, and the operator at which an expression splits.
//! - [`parser`]: from tokens to the tree.
//! - [`expr`]: the tree and its value.
//! - [`evaluator`]: all of it in one call.
//! - [`grammar`], [`laws`], [`text_laws`]: what is proved of them.

pub mod _bool;
pub mod registry;
pub mod token;
pub mod expr;
pub mod parser;
pub mod lexer;
pub mod evaluator;
pub mod grammar;
pub mod laws;
pub mod text_laws;
