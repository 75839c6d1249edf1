//! Saved artifacts: the text of a program, kept for good.
//!
//! Saving goes like caching, in three steps, but what is saved is meant to
//! stay: a file that is there already is a failure of the writing like any
//! other.

use super::assembler::assembly::Assembly;
use super::cached::{CachePlan, Cached, IoFailure};
use vstd::prelude::*;
use vstd::string::StringExecFns;

verus! {

/// Why a program was not saved.
#[derive(Debug)]
pub enum SaveError<E> {
    /// Creating or writing the file failed.
    IO(IoFailure),
    /// The program could not be rendered.
    AsmError(E),
}

/// A saved program: the path of its file, and the bytes written there.
#[derive(Debug)]
pub struct Saved {
    path: String,
    bytes: Vec<u8>,
}

impl Saved {
    /// The path of the file.
    pub closed spec fn path(&self) -> Seq<char> {
        self.path@
    }

    /// The bytes that were saved.
    pub closed spec fn contents(&self) -> Seq<u8> {
        self.bytes@
    }

    /// Plans the writing of a program under `path` with the name `name`,
    /// given what rendering it came to: its bytes, or the error, which is
    /// handed on.
    pub fn planned<E>(path: &str, name: &str, rendered: Result<Vec<u8>, E>) -> (r: Result<
        CachePlan,
        SaveError<E>,
    >)
        ensures
            match rendered {
                Ok(bytes) => r is Ok && r->Ok_0.bytes@ == bytes@ && r->Ok_0.key@ == name@
                    && r->Ok_0.path@ == path@ + name@,
                Err(error) => r == Err::<CachePlan, SaveError<E>>(SaveError::AsmError(error)),
            },
    {
        match rendered {
            Ok(bytes) => Ok(
                CachePlan { key: String::from_str(name), path: Cached::full_path(path, name), bytes },
            ),
            Err(error) => Err(SaveError::AsmError(error)),
        }
    }

    /// Renders `assembly`, once, and plans the writing of the result under
    /// `path` with the name `name`. What the plan holds, or which error comes
    /// back, is what `planned` makes of the rendering.
    pub fn plan<A: Assembly>(path: &str, name: &str, assembly: &A) -> (r: Result<
        CachePlan,
        SaveError<A::Error>,
    >)
        ensures
            match r {
                Ok(plan) => plan.key@ == name@ && plan.path@ == path@ + name@,
                Err(SaveError::AsmError(_)) => true,
                Err(_) => false,
            },
    {
        Self::planned(path, name, assembly.assemble())
    }

    /// Takes in how the writing of `plan` went.
    pub fn conclude<E>(plan: CachePlan, outcome: Result<(), IoFailure>) -> (r: Result<
        Saved,
        SaveError<E>,
    >)
        ensures
            match outcome {
                Ok(()) => r is Ok && r->Ok_0.path() == plan.path@ && r->Ok_0.contents()
                    == plan.bytes@,
                Err(failure) => r == Err::<Saved, SaveError<E>>(SaveError::IO(failure)),
            },
    {
        match outcome {
            Ok(()) => Ok(Saved { path: plan.path, bytes: plan.bytes }),
            Err(failure) => Err(SaveError::IO(failure)),
        }
    }

    /// The bytes that were saved.
    pub fn bytes(&self) -> (bytes: &Vec<u8>)
        ensures
            bytes@ == self.contents(),
    {
        &self.bytes
    }

    /// The path of the file.
    pub fn location(&self) -> (path: &String)
        ensures
            path@ == self.path(),
    {
        &self.path
    }
}

/// A program that has been written: cached, or saved.
#[derive(Debug)]
pub enum Written {
    Cached(Cached),
    Saved(Saved),
}

impl Written {
    /// The bytes that were written.
    pub fn bytes(&self) -> (bytes: &Vec<u8>)
        ensures
            bytes@ == match *self {
                Written::Cached(entry) => entry.contents(),
                Written::Saved(entry) => entry.contents(),
            },
    {
        match self {
            Written::Cached(entry) => entry.bytes(),
            Written::Saved(entry) => entry.bytes(),
        }
    }
}

} // verus!
