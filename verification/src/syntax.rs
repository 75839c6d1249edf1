//! Lexical and syntactic analysis of source text.

pub mod parser;
pub mod tokenizer;
