//! The tokenizer: a single forward pass over a borrowed source buffer.
//!
//! ASCII space separates tokens and is otherwise skipped. `(` and `)` are
//! tokens of their own. Any other byte opens a lexeme; its first byte decides
//! its class: `#` an extension, `:` an atom, `"` a string, anything else a
//! symbol (or `nil`). A string runs to the next `"`. Every other lexeme runs to
//! the next space or parenthesis, which is left in place. A newline is an
//! ordinary byte. A lexeme that runs into the end of the input is an error.

use super::token::{Lexeme, LexemeKind, LexemeView, Token, TokenView, nil_text};
use vstd::prelude::*;
use vstd::string::StringSliceAdditionalSpecFns;

verus! {

/// The space, which separates tokens.
pub const SPACE: u8 = 32;

/// The double quote, which opens and closes a string.
pub const QUOTE: u8 = 34;

/// The sigil of an extension.
pub const HASH: u8 = 35;

/// The opening parenthesis.
pub const LPAREN: u8 = 40;

/// The closing parenthesis.
pub const RPAREN: u8 = 41;

/// The sigil of an atom.
pub const COLON: u8 = 58;

/// The ways a lexeme can run into the end of the input.
#[derive(Clone, Copy, Debug, PartialEq, Eq, Structural)]
pub enum TokenizerErrorKind {
    StringDelimeterError,
    EndWithAtom,
    EndWithExt,
    EndWithSymbol,
}

/// What a tokenizer error is, as a mathematical value.
pub struct TokenizerErrorView {
    pub kind: TokenizerErrorKind,
    pub start: int,
    pub end: int,
    pub text: Seq<u8>,
}

/// A lexeme that reached the end of the input without its delimiter.
///
/// `start` is the offset of the lexeme's first byte (its sigil or opening
/// quote included), `end` is the length of the input, and `literal` is the
/// source between the two.
#[derive(Debug)]
pub enum TokenizerError<'a> {
    StringDelimeterError { start: usize, end: usize, literal: &'a [u8] },
    EndWithAtom { start: usize, end: usize, literal: &'a [u8] },
    EndWithExt { start: usize, end: usize, literal: &'a [u8] },
    EndWithSymbol { start: usize, end: usize, literal: &'a [u8] },
}

impl<'a> View for TokenizerError<'a> {
    type V = TokenizerErrorView;

    open spec fn view(&self) -> TokenizerErrorView {
        match *self {
            TokenizerError::StringDelimeterError { start, end, literal } => TokenizerErrorView {
                kind: TokenizerErrorKind::StringDelimeterError,
                start: start as int,
                end: end as int,
                text: literal@,
            },
            TokenizerError::EndWithAtom { start, end, literal } => TokenizerErrorView {
                kind: TokenizerErrorKind::EndWithAtom,
                start: start as int,
                end: end as int,
                text: literal@,
            },
            TokenizerError::EndWithExt { start, end, literal } => TokenizerErrorView {
                kind: TokenizerErrorKind::EndWithExt,
                start: start as int,
                end: end as int,
                text: literal@,
            },
            TokenizerError::EndWithSymbol { start, end, literal } => TokenizerErrorView {
                kind: TokenizerErrorKind::EndWithSymbol,
                start: start as int,
                end: end as int,
                text: literal@,
            },
        }
    }
}

impl<'a> TokenizerError<'a> {
    /// Which delimiter was missing.
    pub fn kind(&self) -> (k: TokenizerErrorKind)
        ensures
            k == self@.kind,
    {
        match self {
            TokenizerError::StringDelimeterError { .. } => TokenizerErrorKind::StringDelimeterError,
            TokenizerError::EndWithAtom { .. } => TokenizerErrorKind::EndWithAtom,
            TokenizerError::EndWithExt { .. } => TokenizerErrorKind::EndWithExt,
            TokenizerError::EndWithSymbol { .. } => TokenizerErrorKind::EndWithSymbol,
        }
    }

    /// The offset at which the offending lexeme starts.
    pub fn start(&self) -> (s: usize)
        ensures
            s == self@.start,
    {
        match self {
            TokenizerError::StringDelimeterError { start, .. } => *start,
            TokenizerError::EndWithAtom { start, .. } => *start,
            TokenizerError::EndWithExt { start, .. } => *start,
            TokenizerError::EndWithSymbol { start, .. } => *start,
        }
    }

    /// The offset at which the input ended.
    pub fn end(&self) -> (e: usize)
        ensures
            e == self@.end,
    {
        match self {
            TokenizerError::StringDelimeterError { end, .. } => *end,
            TokenizerError::EndWithAtom { end, .. } => *end,
            TokenizerError::EndWithExt { end, .. } => *end,
            TokenizerError::EndWithSymbol { end, .. } => *end,
        }
    }

    /// The raw text of the offending lexeme.
    pub fn literal(&self) -> (l: &'a [u8])
        ensures
            l@ == self@.text,
    {
        match self {
            TokenizerError::StringDelimeterError { literal, .. } => *literal,
            TokenizerError::EndWithAtom { literal, .. } => *literal,
            TokenizerError::EndWithExt { literal, .. } => *literal,
            TokenizerError::EndWithSymbol { literal, .. } => *literal,
        }
    }
}

/// A byte that ends a lexeme other than a string.
pub open spec fn is_delimiter(b: u8) -> bool {
    b == SPACE || b == LPAREN || b == RPAREN
}

/// The first offset at or after `from` that holds no space, or the length of
/// `s` if only spaces are left.
pub open spec fn skip_spaces(s: Seq<u8>, from: int) -> int
    decreases s.len() - from,
{
    if 0 <= from < s.len() && s[from] == SPACE {
        skip_spaces(s, from + 1)
    } else {
        from
    }
}

/// The first offset at or after `from` that holds a delimiter, or the length
/// of `s` if there is none.
pub open spec fn lexeme_end(s: Seq<u8>, from: int) -> int
    decreases s.len() - from,
{
    if 0 <= from < s.len() && !is_delimiter(s[from]) {
        lexeme_end(s, from + 1)
    } else {
        from
    }
}

/// The first offset at or after `from` that holds a double quote, or the
/// length of `s` if there is none.
pub open spec fn string_end(s: Seq<u8>, from: int) -> int
    decreases s.len() - from,
{
    if 0 <= from < s.len() && s[from] != QUOTE {
        string_end(s, from + 1)
    } else {
        from
    }
}

/// One step of the tokenizer: what it yields, and where it stands afterwards.
pub struct Scan {
    pub item: Option<Result<TokenView, TokenizerErrorView>>,
    pub next: int,
}

/// The error for a lexeme that starts at `start` and runs into the end of `s`.
pub open spec fn unterminated(s: Seq<u8>, start: int, kind: TokenizerErrorKind) -> Scan {
    Scan {
        item: Some(
            Err(
                TokenizerErrorView {
                    kind,
                    start,
                    end: s.len() as int,
                    text: s.subrange(start, s.len() as int),
                },
            ),
        ),
        next: s.len() as int,
    }
}

/// The lexeme of class `kind` whose content is `s[start..end]`, with the
/// tokenizer left at `next`.
pub open spec fn lexeme_at(s: Seq<u8>, kind: LexemeKind, start: int, end: int, next: int) -> Scan {
    Scan {
        item: Some(
            Ok(TokenView::Lexeme(LexemeView { kind, start, end, text: s.subrange(start, end) })),
        ),
        next,
    }
}

/// What the tokenizer yields from offset `pos` of `s`.
pub open spec fn scan_token(s: Seq<u8>, pos: int) -> Scan {
    let i = skip_spaces(s, pos);
    if i >= s.len() {
        Scan { item: None, next: s.len() as int }
    } else if s[i] == LPAREN {
        Scan { item: Some(Ok(TokenView::LParen(i))), next: i + 1 }
    } else if s[i] == RPAREN {
        Scan { item: Some(Ok(TokenView::RParen(i))), next: i + 1 }
    } else if s[i] == QUOTE {
        let e = string_end(s, i + 1);
        if e >= s.len() {
            unterminated(s, i, TokenizerErrorKind::StringDelimeterError)
        } else {
            lexeme_at(s, LexemeKind::String, i + 1, e, e + 1)
        }
    } else if s[i] == HASH {
        let e = lexeme_end(s, i + 1);
        if e >= s.len() {
            unterminated(s, i, TokenizerErrorKind::EndWithExt)
        } else {
            lexeme_at(s, LexemeKind::Extension, i + 1, e, e)
        }
    } else if s[i] == COLON {
        let e = lexeme_end(s, i + 1);
        if e >= s.len() {
            unterminated(s, i, TokenizerErrorKind::EndWithAtom)
        } else {
            lexeme_at(s, LexemeKind::Atom, i + 1, e, e)
        }
    } else {
        let e = lexeme_end(s, i);
        if e >= s.len() {
            unterminated(s, i, TokenizerErrorKind::EndWithSymbol)
        } else if s.subrange(i, e) == nil_text() {
            lexeme_at(s, LexemeKind::Nil, i, e, e)
        } else {
            lexeme_at(s, LexemeKind::Symbol, i, e, e)
        }
    }
}

/// Everything the tokenizer yields from offset `pos` of `s` on, in order.
pub open spec fn token_stream(s: Seq<u8>, pos: int) -> Seq<Result<TokenView, TokenizerErrorView>>
    decreases s.len() - pos,
{
    let scan = scan_token(s, pos);
    match scan.item {
        None => Seq::empty(),
        Some(item) => if pos < scan.next <= s.len() {
            seq![item] + token_stream(s, scan.next)
        } else {
            seq![item]
        },
    }
}

/// `skip_spaces` stops at the first byte that is no space.
pub proof fn lemma_skip_spaces(s: Seq<u8>, from: int)
    requires
        0 <= from <= s.len(),
    ensures
        from <= skip_spaces(s, from) <= s.len(),
        forall|j: int| from <= j < skip_spaces(s, from) ==> s[j] == SPACE,
        skip_spaces(s, from) < s.len() ==> s[skip_spaces(s, from)] != SPACE,
    decreases s.len() - from,
{
    if from < s.len() && s[from] == SPACE {
        lemma_skip_spaces(s, from + 1);
    }
}

/// `lexeme_end` stops at the first delimiter.
pub proof fn lemma_lexeme_end(s: Seq<u8>, from: int)
    requires
        0 <= from <= s.len(),
    ensures
        from <= lexeme_end(s, from) <= s.len(),
        forall|j: int| from <= j < lexeme_end(s, from) ==> !is_delimiter(s[j]),
        lexeme_end(s, from) < s.len() ==> is_delimiter(s[lexeme_end(s, from)]),
    decreases s.len() - from,
{
    if from < s.len() && !is_delimiter(s[from]) {
        lemma_lexeme_end(s, from + 1);
    }
}

/// `string_end` stops at the first double quote.
pub proof fn lemma_string_end(s: Seq<u8>, from: int)
    requires
        0 <= from <= s.len(),
    ensures
        from <= string_end(s, from) <= s.len(),
        forall|j: int| from <= j < string_end(s, from) ==> s[j] != QUOTE,
        string_end(s, from) < s.len() ==> s[string_end(s, from)] == QUOTE,
    decreases s.len() - from,
{
    if from < s.len() && s[from] != QUOTE {
        lemma_string_end(s, from + 1);
    }
}

/// A step that yields something moves forward and stays inside the input;
/// a step that yields nothing, or an error, stands at the end of the input.
pub proof fn lemma_scan_advances(s: Seq<u8>, pos: int)
    requires
        0 <= pos <= s.len(),
    ensures
        pos <= scan_token(s, pos).next <= s.len(),
        scan_token(s, pos).item is Some ==> pos < scan_token(s, pos).next,
        scan_token(s, pos).item is None ==> scan_token(s, pos).next == s.len(),
        scan_token(s, pos).item matches Some(Err(_)) ==> scan_token(s, pos).next == s.len(),
{
    lemma_skip_spaces(s, pos);
    let i = skip_spaces(s, pos);
    if i < s.len() {
        lemma_string_end(s, i + 1);
        lemma_lexeme_end(s, i);
    }
}

/// Every lexeme the tokenizer yields spells its text in the source: slicing
/// the source by the recorded range gives back exactly the recorded bytes.
/// Every error likewise carries the source from the lexeme's start to the end
/// of the input.
pub proof fn lemma_scan_round_trip(s: Seq<u8>, pos: int)
    requires
        0 <= pos <= s.len(),
    ensures
        scan_token(s, pos).item matches Some(Ok(TokenView::Lexeme(lexeme))) ==> lexeme.spells(s)
            && pos <= lexeme.start,
        scan_token(s, pos).item matches Some(Ok(TokenView::LParen(at))) ==> pos <= at < s.len()
            && s[at] == LPAREN,
        scan_token(s, pos).item matches Some(Ok(TokenView::RParen(at))) ==> pos <= at < s.len()
            && s[at] == RPAREN,
        scan_token(s, pos).item matches Some(Err(error)) ==> pos <= error.start < error.end
            == s.len() && error.text == s.subrange(error.start, error.end),
{
    lemma_skip_spaces(s, pos);
    let i = skip_spaces(s, pos);
    if i < s.len() {
        lemma_string_end(s, i + 1);
        lemma_lexeme_end(s, i);
    }
}

/// A lexeme is classified as `Nil` exactly when it is a bare `nil`: no sigil
/// or quote in front, and those three bytes as its whole content.
pub proof fn lemma_nil_classification(s: Seq<u8>, pos: int)
    requires
        0 <= pos <= s.len(),
    ensures
        scan_token(s, pos).item matches Some(Ok(TokenView::Lexeme(lexeme))) ==> (lexeme.kind
            == LexemeKind::Nil <==> lexeme.text == nil_text() && lexeme.start == skip_spaces(
            s,
            pos,
        )),
{
}

/// The view of one item of the token stream.
pub open spec fn item_view<'a>(item: Result<Token<'a>, TokenizerError<'a>>) -> Result<
    TokenView,
    TokenizerErrorView,
> {
    match item {
        Ok(token) => Ok(token@),
        Err(error) => Err(error@),
    }
}

/// A tokenizer over a borrowed source buffer.
#[derive(Debug)]
pub struct Tokenized<'a> {
    input: &'a [u8],
    pos: usize,
}

impl<'a> Tokenized<'a> {
    /// The whole source buffer.
    pub closed spec fn source(&self) -> Seq<u8> {
        self.input@
    }

    /// The offset from which the next token is scanned.
    pub closed spec fn offset(&self) -> int {
        self.pos as int
    }

    /// The offset lies inside the source.
    pub open spec fn wf(&self) -> bool {
        0 <= self.offset() <= self.source().len()
    }

    /// The items still to come, in order.
    pub open spec fn stream(&self) -> Seq<Result<TokenView, TokenizerErrorView>> {
        token_stream(self.source(), self.offset())
    }

    /// A tokenizer at the start of `input`.
    pub fn new(input: &'a [u8]) -> (tokens: Self)
        ensures
            tokens.wf(),
            tokens.source() == input@,
            tokens.offset() == 0,
    {
        Tokenized { input, pos: 0 }
    }

    /// The current offset into the source.
    pub fn position(&self) -> (pos: usize)
        ensures
            pos == self.offset(),
    {
        self.pos
    }

    /// The source buffer this tokenizer reads.
    pub fn input(&self) -> (input: &'a [u8])
        ensures
            input@ == self.source(),
    {
        self.input
    }

    /// Moves past the bytes that belong to a lexeme: up to the next delimiter
    /// or the end of the input.
    fn scan_lexeme(&mut self)
        requires
            old(self).wf(),
        ensures
            final(self).wf(),
            final(self).source() == old(self).source(),
            final(self).offset() == lexeme_end(old(self).source(), old(self).offset()),
    {
        let ghost from = self.pos as int;
        while self.pos < self.input.len() && !(self.input[self.pos] == SPACE
            || self.input[self.pos] == LPAREN || self.input[self.pos] == RPAREN)
            invariant
                self.input == old(self).input,
                from <= self.pos <= self.input@.len(),
                lexeme_end(self.input@, from) == lexeme_end(self.input@, self.pos as int),
            decreases self.input@.len() - self.pos,
        {
            self.pos = self.pos + 1;
        }
    }

    /// Scans the rest of a string whose opening quote stands at `start`.
    fn tokenize_string(&mut self, start: usize) -> (r: Option<
        Result<Token<'a>, TokenizerError<'a>>,
    >)
        requires
            old(self).wf(),
            start < old(self).source().len(),
            old(self).offset() == start + 1,
        ensures
            final(self).wf(),
            final(self).source() == old(self).source(),
            r is Some,
            ({
                let s = old(self).source();
                let e = string_end(s, start + 1);
                let scan = if e >= s.len() {
                    unterminated(s, start as int, TokenizerErrorKind::StringDelimeterError)
                } else {
                    lexeme_at(s, LexemeKind::String, start + 1, e, e + 1)
                };
                scan.item == Some(item_view(r->0)) && scan.next == final(self).offset()
            }),
    {
        let ghost from = self.pos as int;
        while self.pos < self.input.len() && self.input[self.pos] != QUOTE
            invariant
                self.input == old(self).input,
                from <= self.pos <= self.input@.len(),
                string_end(self.input@, from) == string_end(self.input@, self.pos as int),
            decreases self.input@.len() - self.pos,
        {
            self.pos = self.pos + 1;
        }
        let end = self.pos;
        if end >= self.input.len() {
            Some(
                Err(
                    TokenizerError::StringDelimeterError {
                        start,
                        end,
                        literal: &self.input[start..end],
                    },
                ),
            )
        } else {
            self.pos = end + 1;
            Some(
                Ok(
                    Token::Lexeme(
                        Lexeme::String {
                            range: start + 1..end,
                            literal: &self.input[start + 1..end],
                        },
                    ),
                ),
            )
        }
    }

    /// Scans the rest of an atom whose `:` stands at `start`.
    fn tokenize_atom(&mut self, start: usize) -> (r: Option<Result<Token<'a>, TokenizerError<'a>>>)
        requires
            old(self).wf(),
            start < old(self).source().len(),
            old(self).offset() == start + 1,
        ensures
            final(self).wf(),
            final(self).source() == old(self).source(),
            r is Some,
            ({
                let s = old(self).source();
                let e = lexeme_end(s, start + 1);
                let scan = if e >= s.len() {
                    unterminated(s, start as int, TokenizerErrorKind::EndWithAtom)
                } else {
                    lexeme_at(s, LexemeKind::Atom, start + 1, e, e)
                };
                scan.item == Some(item_view(r->0)) && scan.next == final(self).offset()
            }),
    {
        self.scan_lexeme();
        let end = self.pos;
        proof {
            lemma_lexeme_end(self.input@, start + 1);
        }
        if end >= self.input.len() {
            Some(Err(TokenizerError::EndWithAtom { start, end, literal: &self.input[start..end] }))
        } else {
            Some(
                Ok(
                    Token::Lexeme(
                        Lexeme::Atom { range: start + 1..end, literal: &self.input[start + 1..end] },
                    ),
                ),
            )
        }
    }

    /// Scans the rest of an extension whose `#` stands at `start`.
    fn tokenize_extension(&mut self, start: usize) -> (r: Option<
        Result<Token<'a>, TokenizerError<'a>>,
    >)
        requires
            old(self).wf(),
            start < old(self).source().len(),
            old(self).offset() == start + 1,
        ensures
            final(self).wf(),
            final(self).source() == old(self).source(),
            r is Some,
            ({
                let s = old(self).source();
                let e = lexeme_end(s, start + 1);
                let scan = if e >= s.len() {
                    unterminated(s, start as int, TokenizerErrorKind::EndWithExt)
                } else {
                    lexeme_at(s, LexemeKind::Extension, start + 1, e, e)
                };
                scan.item == Some(item_view(r->0)) && scan.next == final(self).offset()
            }),
    {
        self.scan_lexeme();
        let end = self.pos;
        proof {
            lemma_lexeme_end(self.input@, start + 1);
        }
        if end >= self.input.len() {
            Some(Err(TokenizerError::EndWithExt { start, end, literal: &self.input[start..end] }))
        } else {
            Some(
                Ok(
                    Token::Lexeme(
                        Lexeme::Extension {
                            range: start + 1..end,
                            literal: &self.input[start + 1..end],
                        },
                    ),
                ),
            )
        }
    }

    /// Scans a symbol, or the reserved word `nil`, that starts at `start`.
    fn tokenize_symbol_or_nil(&mut self, start: usize) -> (r: Option<
        Result<Token<'a>, TokenizerError<'a>>,
    >)
        requires
            old(self).wf(),
            start < old(self).source().len(),
            old(self).offset() == start,
        ensures
            final(self).wf(),
            final(self).source() == old(self).source(),
            r is Some,
            ({
                let s = old(self).source();
                let e = lexeme_end(s, start as int);
                let scan = if e >= s.len() {
                    unterminated(s, start as int, TokenizerErrorKind::EndWithSymbol)
                } else if s.subrange(start as int, e) == nil_text() {
                    lexeme_at(s, LexemeKind::Nil, start as int, e, e)
                } else {
                    lexeme_at(s, LexemeKind::Symbol, start as int, e, e)
                };
                scan.item == Some(item_view(r->0)) && scan.next == final(self).offset()
            }),
    {
        self.scan_lexeme();
        let end = self.pos;
        proof {
            lemma_lexeme_end(self.input@, start as int);
        }
        if end >= self.input.len() {
            Some(Err(TokenizerError::EndWithSymbol { start, end, literal: &self.input[start..end] }))
        } else {
            let literal = &self.input[start..end];
            if is_nil(literal) {
                Some(Ok(Token::Lexeme(Lexeme::Nil { range: start..end })))
            } else {
                Some(Ok(Token::Lexeme(Lexeme::Symbol { range: start..end, literal })))
            }
        }
    }

    /// The next token, or the error that ends the stream, or `None` once the
    /// input is exhausted.
    pub fn next(&mut self) -> (r: Option<Result<Token<'a>, TokenizerError<'a>>>)
        requires
            old(self).wf(),
        ensures
            final(self).wf(),
            final(self).source() == old(self).source(),
            ({
                let scan = scan_token(old(self).source(), old(self).offset());
                &&& final(self).offset() == scan.next
                &&& match r {
                    Some(item) => scan.item == Some(item_view(item)),
                    None => scan.item is None,
                }
            }),
            match r {
                Some(item) => old(self).stream().len() > 0 && old(self).stream()[0] == item_view(
                    item,
                ) && final(self).stream() == old(self).stream().drop_first(),
                None => old(self).stream().len() == 0 && final(self).stream().len() == 0,
            },
            r matches Some(Ok(Token::Lexeme(lexeme))) ==> lexeme@.spells(old(self).source()),
            r matches Some(Err(error)) ==> error@.text == old(self).source().subrange(
                error@.start,
                error@.end,
            ),
    {
        let ghost from = self.pos as int;
        proof {
            lemma_scan_round_trip(self.input@, from);
        }
        while self.pos < self.input.len() && self.input[self.pos] == SPACE
            invariant
                self.input == old(self).input,
                from <= self.pos <= self.input@.len(),
                skip_spaces(self.input@, from) == skip_spaces(self.input@, self.pos as int),
            decreases self.input@.len() - self.pos,
        {
            self.pos = self.pos + 1;
        }
        proof {
            lemma_stream_unfold(self.input@, from);
        }
        if self.pos >= self.input.len() {
            return None;
        }
        let start = self.pos;
        let first = self.input[start];
        if first == LPAREN {
            self.pos = start + 1;
            Some(Ok(Token::LParen(start)))
        } else if first == RPAREN {
            self.pos = start + 1;
            Some(Ok(Token::RParen(start)))
        } else if first == QUOTE {
            self.pos = start + 1;
            self.tokenize_string(start)
        } else if first == HASH {
            self.pos = start + 1;
            self.tokenize_extension(start)
        } else if first == COLON {
            self.pos = start + 1;
            self.tokenize_atom(start)
        } else {
            self.tokenize_symbol_or_nil(start)
        }
    }
}

/// Whether `bytes` is the reserved word `nil`.
pub fn is_nil(bytes: &[u8]) -> (r: bool)
    ensures
        r <==> bytes@ == nil_text(),
{
    let r = bytes.len() == 3 && bytes[0] == 110 && bytes[1] == 105 && bytes[2] == 108;
    proof {
        if r {
            assert(bytes@ =~= nil_text());
        }
    }
    r
}

/// The token stream is its first item followed by the stream from where the
/// first step ends; it is empty exactly when the first step yields nothing.
pub proof fn lemma_stream_unfold(s: Seq<u8>, pos: int)
    requires
        0 <= pos <= s.len(),
    ensures
        scan_token(s, pos).item is None ==> token_stream(s, pos).len() == 0,
        scan_token(s, pos).item matches Some(item) ==> token_stream(s, pos).len() > 0
            && token_stream(s, pos)[0] == item && token_stream(s, pos).drop_first()
            == token_stream(s, scan_token(s, pos).next),
{
    lemma_scan_advances(s, pos);
}

/// Anything that hands out the items of a token stream one at a time.
pub trait TokenSource<'a> {
    /// The source is in a state from which it can be read.
    spec fn ready(&self) -> bool;

    /// The items still to come, in order.
    spec fn remaining(&self) -> Seq<Result<TokenView, TokenizerErrorView>>;

    /// Takes the first of the remaining items, if there is one.
    fn pull(&mut self) -> (r: Option<Result<Token<'a>, TokenizerError<'a>>>)
        requires
            old(self).ready(),
        ensures
            final(self).ready(),
            match r {
                Some(item) => old(self).remaining().len() > 0 && old(self).remaining()[0]
                    == item_view(item) && final(self).remaining() == old(
                    self,
                ).remaining().drop_first(),
                None => old(self).remaining().len() == 0 && final(self).remaining().len() == 0,
            },
    ;
}

impl<'a> TokenSource<'a> for Tokenized<'a> {
    open spec fn ready(&self) -> bool {
        self.wf()
    }

    open spec fn remaining(&self) -> Seq<Result<TokenView, TokenizerErrorView>> {
        self.stream()
    }

    fn pull(&mut self) -> (r: Option<Result<Token<'a>, TokenizerError<'a>>>) {
        self.next()
    }
}

/// The views of a run of tokens, as items of a stream without errors.
pub open spec fn token_items<'a>(tokens: Seq<Token<'a>>) -> Seq<
    Result<TokenView, TokenizerErrorView>,
> {
    Seq::new(tokens.len(), |i: int| Ok(tokens[i]@))
}

/// A cursor over tokens that were collected beforehand.
#[derive(Debug)]
pub struct TokenCursor<'a> {
    tokens: Vec<Token<'a>>,
    at: usize,
}

impl<'a> TokenCursor<'a> {
    /// All the tokens, read or not.
    pub closed spec fn all(&self) -> Seq<Token<'a>> {
        self.tokens@
    }

    /// How many tokens have been read.
    pub closed spec fn taken(&self) -> int {
        self.at as int
    }

    /// A cursor in front of the first of `tokens`.
    pub fn new(tokens: Vec<Token<'a>>) -> (cursor: Self)
        ensures
            cursor.ready(),
            cursor.all() == tokens@,
            cursor.taken() == 0,
            cursor.remaining() == token_items(tokens@),
    {
        let cursor = TokenCursor { tokens, at: 0 };
        cursor
    }
}

impl<'a> TokenSource<'a> for TokenCursor<'a> {
    open spec fn ready(&self) -> bool {
        0 <= self.taken() <= self.all().len()
    }

    open spec fn remaining(&self) -> Seq<Result<TokenView, TokenizerErrorView>> {
        token_items(self.all().skip(self.taken()))
    }

    fn pull(&mut self) -> (r: Option<Result<Token<'a>, TokenizerError<'a>>>) {
        if self.at < self.tokens.len() {
            let token = self.tokens[self.at].duplicate();
            self.at = self.at + 1;
            Some(Ok(token))
        } else {
            None
        }
    }
}

/// Types whose text can be tokenized.
pub trait Tokens<'a> {
    /// The bytes that are tokenized.
    spec fn text(&self) -> Seq<u8>;

    /// A tokenizer at the start of the text.
    fn tokens(&'a self) -> (tokens: Tokenized<'a>)
        ensures
            tokens.wf(),
            tokens.source() == self.text(),
            tokens.offset() == 0,
    ;
}

impl<'a> Tokens<'a> for str {
    open spec fn text(&self) -> Seq<u8> {
        self.spec_bytes()
    }

    fn tokens(&'a self) -> (tokens: Tokenized<'a>) {
        Tokenized::new(self.as_bytes())
    }
}

impl<'a> Tokens<'a> for String {
    open spec fn text(&self) -> Seq<u8> {
        vstd::utf8::encode_utf8(self@)
    }

    fn tokens(&'a self) -> (tokens: Tokenized<'a>) {
        Tokenized::new(self.as_str().as_bytes())
    }
}

impl<'a> Tokens<'a> for [u8] {
    open spec fn text(&self) -> Seq<u8> {
        self@
    }

    fn tokens(&'a self) -> (tokens: Tokenized<'a>) {
        Tokenized::new(self)
    }
}

} // verus!
