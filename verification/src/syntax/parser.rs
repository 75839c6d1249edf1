//! Turning tokens into trees of expressions.

pub mod parser;
pub mod sexpr;
pub mod shape;
