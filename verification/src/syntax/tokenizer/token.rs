//! Tokens and the lexemes they carry.

use std::ops::Range;
use vstd::prelude::*;

verus! {

/// The classes a lexeme can fall into.
#[derive(Clone, Copy, Debug, PartialEq, Eq, Structural)]
pub enum LexemeKind {
    String,
    Atom,
    Symbol,
    Extension,
    Nil,
}

/// What a lexeme is, as a mathematical value: its class, the half-open byte
/// range `start..end` it occupies in the source, and the bytes it stands for.
pub struct LexemeView {
    pub kind: LexemeKind,
    pub start: int,
    pub end: int,
    pub text: Seq<u8>,
}

impl LexemeView {
    /// The lexeme lies inside `source`, and slicing `source` by its range
    /// gives back its text.
    pub open spec fn spells(self, source: Seq<u8>) -> bool {
        &&& 0 <= self.start <= self.end <= source.len()
        &&& source.subrange(self.start, self.end) == self.text
    }
}

/// A classified fragment of the source buffer.
///
/// Every variant records the half-open byte range of its content, sigils and
/// quotes excluded. All but `Nil` also borrow that content from the source
/// buffer; a `Nil` always stands for the reserved word.
#[derive(Debug)]
pub enum Lexeme<'a> {
    String { range: Range<usize>, literal: &'a [u8] },
    Atom { range: Range<usize>, literal: &'a [u8] },
    Symbol { range: Range<usize>, literal: &'a [u8] },
    Extension { range: Range<usize>, literal: &'a [u8] },
    Nil { range: Range<usize> },
}

/// The bytes of the reserved word `nil`.
pub open spec fn nil_text() -> Seq<u8> {
    seq![110u8, 105u8, 108u8]
}

impl<'a> View for Lexeme<'a> {
    type V = LexemeView;

    open spec fn view(&self) -> LexemeView {
        match *self {
            Lexeme::String { range, literal } => LexemeView {
                kind: LexemeKind::String,
                start: range.start as int,
                end: range.end as int,
                text: literal@,
            },
            Lexeme::Atom { range, literal } => LexemeView {
                kind: LexemeKind::Atom,
                start: range.start as int,
                end: range.end as int,
                text: literal@,
            },
            Lexeme::Symbol { range, literal } => LexemeView {
                kind: LexemeKind::Symbol,
                start: range.start as int,
                end: range.end as int,
                text: literal@,
            },
            Lexeme::Extension { range, literal } => LexemeView {
                kind: LexemeKind::Extension,
                start: range.start as int,
                end: range.end as int,
                text: literal@,
            },
            Lexeme::Nil { range } => LexemeView {
                kind: LexemeKind::Nil,
                start: range.start as int,
                end: range.end as int,
                text: nil_text(),
            },
        }
    }
}

impl<'a> Lexeme<'a> {
    /// The class of this lexeme.
    pub fn kind(&self) -> (k: LexemeKind)
        ensures
            k == self@.kind,
    {
        match self {
            Lexeme::String { .. } => LexemeKind::String,
            Lexeme::Atom { .. } => LexemeKind::Atom,
            Lexeme::Symbol { .. } => LexemeKind::Symbol,
            Lexeme::Extension { .. } => LexemeKind::Extension,
            Lexeme::Nil { .. } => LexemeKind::Nil,
        }
    }

    /// The offset of the first byte of the content.
    pub fn start(&self) -> (s: usize)
        ensures
            s == self@.start,
    {
        match self {
            Lexeme::String { range, .. } => range.start,
            Lexeme::Atom { range, .. } => range.start,
            Lexeme::Symbol { range, .. } => range.start,
            Lexeme::Extension { range, .. } => range.start,
            Lexeme::Nil { range } => range.start,
        }
    }

    /// The offset just past the last byte of the content.
    pub fn end(&self) -> (e: usize)
        ensures
            e == self@.end,
    {
        match self {
            Lexeme::String { range, .. } => range.end,
            Lexeme::Atom { range, .. } => range.end,
            Lexeme::Symbol { range, .. } => range.end,
            Lexeme::Extension { range, .. } => range.end,
            Lexeme::Nil { range } => range.end,
        }
    }

    /// The borrowed content; a `Nil` carries none.
    pub fn literal(&self) -> (l: Option<&'a [u8]>)
        ensures
            l is None <==> self@.kind == LexemeKind::Nil,
            l matches Some(bytes) ==> bytes@ == self@.text,
    {
        match self {
            Lexeme::String { literal, .. } => Some(*literal),
            Lexeme::Atom { literal, .. } => Some(*literal),
            Lexeme::Symbol { literal, .. } => Some(*literal),
            Lexeme::Extension { literal, .. } => Some(*literal),
            Lexeme::Nil { .. } => None,
        }
    }

    /// Slices `source` by the recorded range. The slice exists exactly when
    /// the range lies inside `source`; for a lexeme that spells its text in
    /// `source`, it is that text.
    pub fn reconstruct<'b>(&self, source: &'b [u8]) -> (r: Option<&'b [u8]>)
        ensures
            r is Some <==> self@.start <= self@.end <= source@.len(),
            r matches Some(bytes) ==> bytes@ == source@.subrange(self@.start, self@.end),
            self@.spells(source@) ==> r is Some && r->0@ == self@.text,
    {
        let start = self.start();
        let end = self.end();
        if start <= end && end <= source.len() {
            Some(&source[start..end])
        } else {
            None
        }
    }

    /// An independent copy that borrows the same content.
    pub fn duplicate(&self) -> (copy: Lexeme<'a>)
        ensures
            copy == *self,
    {
        match self {
            Lexeme::String { range, literal } => Lexeme::String {
                range: range.start..range.end,
                literal: *literal,
            },
            Lexeme::Atom { range, literal } => Lexeme::Atom {
                range: range.start..range.end,
                literal: *literal,
            },
            Lexeme::Symbol { range, literal } => Lexeme::Symbol {
                range: range.start..range.end,
                literal: *literal,
            },
            Lexeme::Extension { range, literal } => Lexeme::Extension {
                range: range.start..range.end,
                literal: *literal,
            },
            Lexeme::Nil { range } => Lexeme::Nil { range: range.start..range.end },
        }
    }
}

/// What a token is, as a mathematical value.
pub enum TokenView {
    LParen(int),
    RParen(int),
    Lexeme(LexemeView),
}

/// One lexical token: a parenthesis at a byte offset, or a lexeme.
#[derive(Debug)]
pub enum Token<'a> {
    LParen(usize),
    RParen(usize),
    Lexeme(Lexeme<'a>),
}

impl<'a> View for Token<'a> {
    type V = TokenView;

    open spec fn view(&self) -> TokenView {
        match *self {
            Token::LParen(pos) => TokenView::LParen(pos as int),
            Token::RParen(pos) => TokenView::RParen(pos as int),
            Token::Lexeme(lexeme) => TokenView::Lexeme(lexeme@),
        }
    }
}

impl<'a> Token<'a> {
    /// An independent copy that borrows the same content.
    pub fn duplicate(&self) -> (copy: Token<'a>)
        ensures
            copy == *self,
    {
        match self {
            Token::LParen(pos) => Token::LParen(*pos),
            Token::RParen(pos) => Token::RParen(*pos),
            Token::Lexeme(lexeme) => Token::Lexeme(lexeme.duplicate()),
        }
    }
}

} // verus!
