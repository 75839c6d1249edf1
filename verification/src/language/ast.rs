//! The lists of a program, read one after another.

use super::error::{SyntaxError, SyntaxErrorView};
use super::parser::{Parser, kept, members_of, opens_list, stray};
use super::sexpr::{Cell, Sexpr};
use super::token::TokenView;
use vstd::prelude::*;

verus! {

/// The lists read so far from a parser.
#[derive(Debug)]
pub struct AST<'a> {
    config: Parser<'a>,
    source: Vec<Sexpr<'a>>,
}

impl<'a> AST<'a> {
    /// The parser is in order.
    pub closed spec fn wf(&self) -> bool {
        self.config.wf()
    }

    /// The tokens that have not been read.
    pub closed spec fn remaining(&self) -> Seq<Result<TokenView, SyntaxErrorView>> {
        self.config.remaining()
    }

    /// The lists read so far, in order.
    pub closed spec fn lists(&self) -> Seq<Sexpr<'a>> {
        self.source@
    }

    /// Nothing read yet from `config`.
    pub fn new(config: Parser<'a>) -> (ast: Self)
        requires
            config.wf(),
        ensures
            ast.wf(),
            ast.remaining() == config.remaining(),
            ast.lists().len() == 0,
    {
        Self { config, source: Vec::new() }
    }

    /// Reads one more list and keeps it. Returns whether there was one to
    /// read, or the error; an error leaves the lists as they were.
    pub fn parse(&mut self) -> (r: Result<bool, SyntaxError<'a>>)
        requires
            old(self).wf(),
        ensures
            final(self).wf(),
            ({
                let tokens = old(self).remaining();
                match r {
                    Ok(false) => tokens.len() == 0 && final(self).lists() == old(self).lists(),
                    Ok(true) => tokens.len() > 0 && opens_list(tokens[0]) && members_of(
                        tokens.drop_first(),
                    ) is Done && final(self).lists().len() == old(self).lists().len() + 1
                        && final(self).lists().drop_last() == old(self).lists() && kept(
                        final(self).lists().last(),
                    ) && final(self).lists().last()@ == Cell::List(
                        members_of(tokens.drop_first())->Done_members,
                    ),
                    Err(error) => tokens.len() > 0 && final(self).lists() == old(self).lists()
                        && if opens_list(tokens[0]) {
                        members_of(tokens.drop_first()) is Failed && error@ == members_of(
                            tokens.drop_first(),
                        )->Failed_error
                    } else {
                        error@ == stray(tokens[0])
                    },
                }
            }),
    {
        match self.config.parse() {
            None => Ok(false),
            Some(Ok(expr)) => {
                self.source.push(expr);
                Ok(true)
            },
            Some(Err(err)) => Err(err),
        }
    }

    /// The number of lists read so far.
    pub fn len(&self) -> (n: usize)
        ensures
            n == self.lists().len(),
    {
        self.source.len()
    }

    /// List number `index`, if it has been read.
    pub fn get(&self, index: usize) -> (list: Option<&Sexpr<'a>>)
        ensures
            list is Some <==> index < self.lists().len(),
            list matches Some(l) ==> *l == self.lists()[index as int],
    {
        if index < self.source.len() {
            Some(&self.source[index])
        } else {
            None
        }
    }
}

} // verus!
