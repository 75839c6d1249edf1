//! The tokenizer of the line-aware reader.

use super::error::{SyntaxError, SyntaxErrorView};
use super::token::{Token, TokenTypeView, TokenView, classified, punctuation};
use vstd::prelude::*;

verus! {

/// A byte in front of which a word ends.
pub open spec fn ends_word(byte: u8) -> bool {
    byte == 32 || byte == 40 || byte == 41
}

/// What a step of the tokenizer yields, a token or an error, and where it
/// stands afterwards.
pub struct Step {
    pub token: Option<Result<TokenView, SyntaxErrorView>>,
    pub next: int,
}

/// The view of what a step yields.
pub open spec fn step_view<'a>(item: Result<Token<'a>, SyntaxError<'a>>) -> Result<
    TokenView,
    SyntaxErrorView,
> {
    match item {
        Ok(token) => Ok(token@),
        Err(error) => Err(error@),
    }
}

/// What the tokenizer yields from offset `pos` of `s`, with the word it is
/// in, if any, starting at `start`.
///
/// A space is skipped, and a word can start behind it. A line break or a
/// parenthesis is a token, whatever came before it. Any other byte belongs to
/// a word, which is a token once the byte that follows ends it; the offsets of
/// the token are those of its first and last byte. A word that runs into the
/// end of the input is an error, which carries the source from the start of
/// the word to the end of the input. Behind the input nothing is yielded.
pub open spec fn scan(s: Seq<u8>, pos: int, start: int) -> Step
    decreases s.len() - pos,
{
    if !(0 <= pos < s.len()) {
        Step { token: None, next: s.len() as int }
    } else if s[pos] == 32 {
        scan(s, pos + 1, pos + 1)
    } else if punctuation(s[pos]) is Some {
        Step {
            token: Some(Ok(TokenView { start: pos, end: pos, token: punctuation(s[pos])->0 })),
            next: pos + 1,
        }
    } else if pos + 1 >= s.len() {
        Step {
            token: Some(
                Err(
                    SyntaxErrorView::EndWithWord {
                        start,
                        end: s.len() as int,
                        text: s.subrange(start, s.len() as int),
                    },
                ),
            ),
            next: s.len() as int,
        }
    } else if ends_word(s[pos + 1]) {
        Step {
            token: Some(
                Ok(
                    TokenView {
                        start,
                        end: pos,
                        token: TokenTypeView::Text(classified(s.subrange(start, pos + 1))),
                    },
                ),
            ),
            next: pos + 1,
        }
    } else {
        scan(s, pos + 1, start)
    }
}

/// All that the tokenizer yields from offset `pos` of `s` on.
pub open spec fn tokens_from(s: Seq<u8>, pos: int) -> Seq<Result<TokenView, SyntaxErrorView>>
    decreases s.len() - pos,
{
    let step = scan(s, pos, pos);
    match step.token {
        None => Seq::empty(),
        Some(token) => if pos < step.next <= s.len() {
            seq![token] + tokens_from(s, step.next)
        } else {
            seq![token]
        },
    }
}

/// A step that yields a token moves forward and stays inside the input; a
/// step that yields none stands at the end of the input.
pub proof fn lemma_scan(s: Seq<u8>, pos: int, start: int)
    requires
        0 <= pos <= s.len(),
    ensures
        pos <= scan(s, pos, start).next <= s.len(),
        scan(s, pos, start).token is Some ==> pos < scan(s, pos, start).next,
        scan(s, pos, start).token is None ==> scan(s, pos, start).next == s.len(),
    decreases s.len() - pos,
{
    if pos < s.len() {
        if s[pos] == 32 {
            lemma_scan(s, pos + 1, pos + 1);
        } else if punctuation(s[pos]) is Some {
        } else if pos + 1 >= s.len() {
        } else if !ends_word(s[pos + 1]) {
            lemma_scan(s, pos + 1, start);
        }
    }
}

/// A tokenizer over a borrowed source.
#[derive(Debug)]
pub struct Tokenizer<'a> {
    program: usize,
    program_source: &'a [u8],
}

impl<'a> Tokenizer<'a> {
    /// The source.
    pub closed spec fn source(&self) -> Seq<u8> {
        self.program_source@
    }

    /// The offset from which the next token is scanned.
    pub closed spec fn offset(&self) -> int {
        self.program as int
    }

    /// The offset lies inside the source.
    pub open spec fn wf(&self) -> bool {
        0 <= self.offset() <= self.source().len()
    }

    /// What is still to come: tokens, and the error of a word that runs into
    /// the end of the input.
    pub open spec fn remaining(&self) -> Seq<Result<TokenView, SyntaxErrorView>> {
        tokens_from(self.source(), self.offset())
    }

    /// A tokenizer at the start of `source`.
    pub fn new(source: &'a String) -> (tokens: Self)
        ensures
            tokens.wf(),
            tokens.source() == vstd::utf8::encode_utf8(source@),
            tokens.offset() == 0,
    {
        Tokenizer { program_source: source.as_str().as_bytes(), program: 0 }
    }

    /// A tokenizer at the start of `source`.
    pub fn over(source: &'a [u8]) -> (tokens: Self)
        ensures
            tokens.wf(),
            tokens.source() == source@,
            tokens.offset() == 0,
    {
        Tokenizer { program_source: source, program: 0 }
    }

    /// Scans on from the current offset, inside a word that starts at
    /// `start`.
    fn next_skip_whitespace(&mut self, start: usize) -> (r: Option<
        Result<Token<'a>, SyntaxError<'a>>,
    >)
        requires
            old(self).wf(),
            start <= old(self).offset(),
        ensures
            final(self).wf(),
            final(self).source() == old(self).source(),
            final(self).offset() == scan(old(self).source(), old(self).offset(), start as int).next,
            match r {
                Some(item) => scan(old(self).source(), old(self).offset(), start as int).token
                    == Some(step_view(item)),
                None => scan(old(self).source(), old(self).offset(), start as int).token is None,
            },
    {
        let mut word = start;
        loop
            invariant
                self.wf(),
                self.program_source == old(self).program_source,
                word <= self.program,
                scan(old(self).source(), old(self).offset(), start as int) == scan(
                    self.program_source@,
                    self.program as int,
                    word as int,
                ),
            decreases self.program_source@.len() - self.program,
        {
            if self.program >= self.program_source.len() {
                return None;
            }
            let index = self.program;
            let byte = self.program_source[index];
            self.program = index + 1;
            if byte == 32 {
                word = index + 1;
            } else {
                match Token::at(index, byte) {
                    Some(token) => {
                        return Some(Ok(token));
                    },
                    None => {
                        let end = self.program_source.len();
                        if index + 1 >= end {
                            return Some(
                                Err(
                                    SyntaxError::EndWithWord {
                                        start: word,
                                        end,
                                        literal: &self.program_source[word..end],
                                    },
                                ),
                            );
                        }
                        let peek = self.program_source[index + 1];
                        if peek == 32 || peek == 40 || peek == 41 {
                            return Some(
                                Ok(Token::word(word..index, &self.program_source[word..index + 1])),
                            );
                        }
                    },
                }
            }
        }
    }

    /// The next token, or the error of a word that runs into the end of the
    /// input, or `None` once the input is exhausted.
    pub fn next(&mut self) -> (r: Option<Result<Token<'a>, SyntaxError<'a>>>)
        requires
            old(self).wf(),
        ensures
            final(self).wf(),
            final(self).source() == old(self).source(),
            match r {
                Some(item) => old(self).remaining().len() > 0 && old(self).remaining()[0]
                    == step_view(item) && final(self).remaining() == old(self).remaining().drop_first(),
                None => old(self).remaining().len() == 0 && final(self).remaining().len() == 0,
            },
    {
        proof {
            lemma_scan(self.source(), self.offset(), self.offset());
        }
        if self.program >= self.program_source.len() {
            return None;
        }
        let token_start = self.program;
        let r = self.next_skip_whitespace(token_start);
        r
    }
}

} // verus!
