//! The back end: the assembly program, its text, and where it is kept.

pub mod assembler;
pub mod cached;
pub mod codegen;
pub mod compiled;
pub mod saved;
