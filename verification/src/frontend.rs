//! The front end: syntax trees, symbol tables and control-flow graphs.

pub mod ast;
pub mod cfg;
pub mod symboltable;
