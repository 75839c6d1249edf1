//! The types of the source language.

pub mod designators;
