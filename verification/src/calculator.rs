//! The reading side of a calculator: words, tokens and expression trees.
//!
//! What an expression is worth is floating-point arithmetic and is left to
//! the caller; what is decided here is how a line falls into tokens and how
//! the tokens nest.

pub mod expression;
pub mod token;
