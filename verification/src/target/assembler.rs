//! Assembly programs.

pub mod assembly;
pub mod fasm;
