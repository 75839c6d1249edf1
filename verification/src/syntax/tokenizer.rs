//! Turning a source buffer into tokens.

pub mod token;
pub mod tokenized;
