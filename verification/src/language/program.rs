//! Programs as sources of tokens.

use super::tokenizer::Tokenizer;
use vstd::prelude::*;

verus! {

/// Something that can be read as a program.
pub trait Program<'a> {
    type Error;

    /// A tokenizer over the text of the program.
    fn tokens(&self) -> Tokenizer<'a>;
}

} // verus!
