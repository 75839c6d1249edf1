//! A source together with the configuration it is compiled under.

use super::configuration::Configuration;
use vstd::prelude::*;

verus! {

/// Code in some form, and the configuration of its compilation.
pub struct Source<T> {
    config: Configuration,
    abstract_code: T,
}

impl<T> Source<T> {
    /// The configuration.
    pub closed spec fn configuration(&self) -> Configuration {
        self.config
    }

    /// The code.
    pub closed spec fn contents(&self) -> T {
        self.abstract_code
    }

    /// The code `input`, to be compiled under `config`.
    pub fn new(config: Configuration, input: T) -> (source: Self)
        ensures
            source.configuration() == config,
            source.contents() == input,
    {
        Self { config, abstract_code: input }
    }

    /// The configuration.
    pub fn config(&self) -> (config: Configuration)
        ensures
            config == self.configuration(),
    {
        self.config
    }

    /// The code.
    pub fn code(&self) -> (code: &T)
        ensures
            *code == self.contents(),
    {
        &self.abstract_code
    }
}

} // verus!
