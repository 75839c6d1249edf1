//! What a compilation is given: its configuration and its source.

pub mod configuration;
pub mod source;
