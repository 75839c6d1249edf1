//! A compiler pipeline for a parenthesised expression language, from source
//! text to assembly text.
//!
//! * `syntax` holds the tokenizer and the arena parser.
//! * `frontend` holds syntax trees, symbol tables and graphs of basic blocks.
//! * `target` holds the assembly program, the code generators and the
//!   artifact cache.
//! * `input` holds the configuration and the source of a compilation.
//! * `language` holds a line-aware reader of nested lists.
//! * `types` and `text` hold type designators and decimal numerals.

pub mod frontend;
pub mod input;
pub mod language;
pub mod syntax;
pub mod target;
pub mod text;
pub mod types;
