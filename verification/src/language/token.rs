//! The tokens of the line-aware reader.

use std::ops::Range;
use vstd::prelude::*;

verus! {

/// What a word is, as a mathematical value.
pub enum SexprItemView {
    Atom(Seq<u8>),
    Symbol(Seq<u8>),
    Extension(Seq<u8>),
    Nil,
}

/// A word, classified by how it starts: `#` starts an extension, `:` a
/// symbol; `nil` is nil; anything else is an atom. Sigils are part of the
/// text.
#[derive(Debug)]
pub enum SexprItem<'a> {
    Atom(&'a [u8]),
    Symbol(&'a [u8]),
    Extension(&'a [u8]),
    Nil,
}

impl<'a> View for SexprItem<'a> {
    type V = SexprItemView;

    open spec fn view(&self) -> SexprItemView {
        match *self {
            SexprItem::Atom(text) => SexprItemView::Atom(text@),
            SexprItem::Symbol(text) => SexprItemView::Symbol(text@),
            SexprItem::Extension(text) => SexprItemView::Extension(text@),
            SexprItem::Nil => SexprItemView::Nil,
        }
    }
}

/// What a kind of token is, as a mathematical value.
pub enum TokenTypeView {
    LParen,
    RParen,
    EndLine,
    Text(SexprItemView),
}

/// The kinds of token.
#[allow(non_camel_case_types)]
#[derive(Debug)]
pub enum TokenType<'a> {
    L_PAREN,
    R_PAREN,
    END_LINE,
    STRING(SexprItem<'a>),
}

impl<'a> View for TokenType<'a> {
    type V = TokenTypeView;

    open spec fn view(&self) -> TokenTypeView {
        match *self {
            TokenType::L_PAREN => TokenTypeView::LParen,
            TokenType::R_PAREN => TokenTypeView::RParen,
            TokenType::END_LINE => TokenTypeView::EndLine,
            TokenType::STRING(item) => TokenTypeView::Text(item@),
        }
    }
}

/// What a token is, as a mathematical value.
pub struct TokenView {
    pub start: int,
    pub end: int,
    pub token: TokenTypeView,
}

/// A token: its kind, and the offsets of its first and of its last byte.
#[derive(Debug)]
pub struct Token<'a> {
    range: Range<usize>,
    pub token: TokenType<'a>,
}

impl<'a> View for Token<'a> {
    type V = TokenView;

    closed spec fn view(&self) -> TokenView {
        TokenView { start: self.range.start as int, end: self.range.end as int, token: self.token@ }
    }
}

/// The bytes of the word `nil`.
pub open spec fn nil_word() -> Seq<u8> {
    seq![110u8, 105u8, 108u8]
}

/// The class of a word.
pub open spec fn classified(text: Seq<u8>) -> SexprItemView {
    if text.len() > 0 && text[0] == 35 {
        SexprItemView::Extension(text)
    } else if text.len() > 0 && text[0] == 58 {
        SexprItemView::Symbol(text)
    } else if text == nil_word() {
        SexprItemView::Nil
    } else {
        SexprItemView::Atom(text)
    }
}

/// The kind of token that a byte is on its own, if it is one.
pub open spec fn punctuation(byte: u8) -> Option<TokenTypeView> {
    if byte == 40 {
        Some(TokenTypeView::LParen)
    } else if byte == 41 {
        Some(TokenTypeView::RParen)
    } else if byte == 10 {
        Some(TokenTypeView::EndLine)
    } else {
        None
    }
}

impl<'a> From<&'a [u8]> for TokenType<'a> {
    /// The token of a word.
    fn from(value: &'a [u8]) -> (token: Self) {
        if value.len() > 0 && value[0] == 35 {
            TokenType::STRING(SexprItem::Extension(value))
        } else if value.len() > 0 && value[0] == 58 {
            TokenType::STRING(SexprItem::Symbol(value))
        } else if value.len() == 3 && value[0] == 110 && value[1] == 105 && value[2] == 108 {
            TokenType::STRING(SexprItem::Nil)
        } else {
            TokenType::STRING(SexprItem::Atom(value))
        }
    }
}

impl<'a> vstd::std_specs::convert::FromSpecImpl<&'a [u8]> for TokenType<'a> {
    open spec fn obeys_from_spec() -> bool {
        true
    }

    open spec fn from_spec(value: &'a [u8]) -> Self {
        if value@.len() > 0 && value@[0] == 35 {
            TokenType::STRING(SexprItem::Extension(value))
        } else if value@.len() > 0 && value@[0] == 58 {
            TokenType::STRING(SexprItem::Symbol(value))
        } else if value@.len() == 3 && value@[0] == 110 && value@[1] == 105 && value@[2] == 108 {
            TokenType::STRING(SexprItem::Nil)
        } else {
            TokenType::STRING(SexprItem::Atom(value))
        }
    }
}

impl<'a> TokenType<'a> {
    /// The token of a word.
    pub fn word(value: &'a [u8]) -> (token: Self)
        ensures
            token@ == TokenTypeView::Text(classified(value@)),
    {
        let token = TokenType::from(value);
        proof {
            if value@.len() == 3 && value@[0] == 110 && value@[1] == 105 && value@[2] == 108 {
                assert(value@ =~= nil_word());
            }
        }
        token
    }

    /// The token that a byte is on its own, if it is one: a parenthesis or a
    /// line break.
    pub fn of_byte(value: u8) -> (token: Option<Self>)
        ensures
            match token {
                Some(t) => punctuation(value) == Some(t@),
                None => punctuation(value) is None,
            },
    {
        if value == 40 {
            Some(TokenType::L_PAREN)
        } else if value == 41 {
            Some(TokenType::R_PAREN)
        } else if value == 10 {
            Some(TokenType::END_LINE)
        } else {
            None
        }
    }
}

impl<'a> Token<'a> {
    /// The token that the byte at `index` is on its own, if it is one.
    pub fn at(index: usize, value: u8) -> (token: Option<Self>)
        ensures
            match token {
                Some(t) => punctuation(value) == Some(t@.token) && t@.start == index && t@.end
                    == index,
                None => punctuation(value) is None,
            },
    {
        match TokenType::of_byte(value) {
            Some(token) => Some(Token { range: index..index, token }),
            None => None,
        }
    }

    /// The token of the word `text`, which lies at `range`.
    pub fn word(range: Range<usize>, text: &'a [u8]) -> (token: Self)
        ensures
            token@ == (TokenView {
                start: range.start as int,
                end: range.end as int,
                token: TokenTypeView::Text(classified(text@)),
            }),
    {
        Token { range, token: TokenType::word(text) }
    }

    /// The kind of the token.
    pub fn kind(&self) -> (kind: &TokenType<'a>)
        ensures
            kind@ == self@.token,
    {
        &self.token
    }

    /// The offset of the first byte of the token.
    pub fn start(&self) -> (start: usize)
        ensures
            start == self@.start,
    {
        self.range.start
    }

    /// The offset of the last byte of the token.
    pub fn end(&self) -> (end: usize)
        ensures
            end == self@.end,
    {
        self.range.end
    }
}

} // verus!
