//! The configuration of a compilation. It is chosen outside the library and
//! handed through as it is.

use vstd::prelude::*;

verus! {

/// What is built, for which platform, and with which assembler.
#[derive(Clone, Copy, Debug, PartialEq, Eq, Structural)]
pub enum Configuration {
    Compiled { platform: Platform, bintype: Type, target: Target, assembler: Assembler },
}

/// The platforms to build for.
#[derive(Clone, Copy, Debug, PartialEq, Eq, Structural)]
pub enum Platform {
    Linux,
}

/// The kinds of binary.
#[derive(Clone, Copy, Debug, PartialEq, Eq, Structural)]
pub enum Type {
    Executable,
    Library,
}

/// The object formats.
#[derive(Clone, Copy, Debug, PartialEq, Eq, Structural)]
pub enum Target {
    ELF64,
}

/// The assemblers.
#[derive(Clone, Copy, Debug, PartialEq, Eq, Structural)]
pub enum Assembler {
    Fasm,
}

impl Configuration {
    /// The kind of binary to build.
    pub fn bintype(&self) -> (bintype: Type)
        ensures
            bintype == self->bintype,
    {
        match self {
            Configuration::Compiled { bintype, .. } => *bintype,
        }
    }

    /// The object format to build.
    pub fn target(&self) -> (target: Target)
        ensures
            target == self->target,
    {
        match self {
            Configuration::Compiled { target, .. } => *target,
        }
    }
}

} // verus!
