//! What every assembly program can do.

use vstd::prelude::*;

verus! {

/// A program that can be turned into the bytes an assembler reads.
pub trait Assembly {
    type Error;

    /// Renders the program, or says why it cannot be rendered.
    fn assemble(&self) -> Result<Vec<u8>, Self::Error>;
}

} // verus!
