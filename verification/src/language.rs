//! A line-aware reader of parenthesised expressions.
//!
//! This reader keeps line breaks as tokens and builds nested lists directly,
//! a list owning its members. Space separates tokens; a parenthesis is a
//! token of its own; every other run of bytes is a word, which ends in front
//! of the next space or parenthesis. A word that runs into the end of the
//! input is an error that carries its range; a word that runs into a line
//! break is dropped.

pub mod ast;
pub mod error;
pub mod parser;
pub mod program;
pub mod sexpr;
pub mod token;
pub mod tokenizer;
