//! What can go wrong when a list is read.

use super::token::{Token, TokenType, TokenTypeView, TokenView};
use vstd::prelude::*;

verus! {

/// What a syntax error is, as a mathematical value.
pub enum SyntaxErrorView {
    Expected { expected: TokenTypeView, got: TokenView },
    UnexpectedEnd,
    UnexpectedStart,
    UnexpectedR(int),
    EndWithWord { start: int, end: int, text: Seq<u8> },
}

/// Why no list could be read.
#[derive(Debug)]
pub enum SyntaxError<'a> {
    /// A token of another kind was expected in place of `got`.
    Expected { expected: TokenType<'a>, got: Token<'a> },
    /// The tokens ran out inside a list.
    UnexpectedEnd,
    /// The first token is neither an opening nor a closing parenthesis.
    UnexpectedStart,
    /// The first token is a closing parenthesis, at this offset.
    UnexpectedR(usize),
    /// A word ran into the end of the input: it starts at `start`, the input
    /// ends at `end`, and `literal` is the source between the two.
    EndWithWord { start: usize, end: usize, literal: &'a [u8] },
}

impl<'a> View for SyntaxError<'a> {
    type V = SyntaxErrorView;

    open spec fn view(&self) -> SyntaxErrorView {
        match *self {
            SyntaxError::Expected { expected, got } => SyntaxErrorView::Expected {
                expected: expected@,
                got: got@,
            },
            SyntaxError::UnexpectedEnd => SyntaxErrorView::UnexpectedEnd,
            SyntaxError::UnexpectedStart => SyntaxErrorView::UnexpectedStart,
            SyntaxError::UnexpectedR(pos) => SyntaxErrorView::UnexpectedR(pos as int),
            SyntaxError::EndWithWord { start, end, literal } => SyntaxErrorView::EndWithWord {
                start: start as int,
                end: end as int,
                text: literal@,
            },
        }
    }
}

} // verus!
