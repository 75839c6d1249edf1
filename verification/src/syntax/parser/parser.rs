//! The streaming parser: one tree per top-level form, read on demand.

use super::sexpr::{
    Arena, ListPtr, Sexpr, Zipper, ZipperError, lemma_reading_shift, trees_of,
};
use super::shape::{
    ParseFailure, Reading, Tree, all_tokens, flatten, flatten_all, leaf_count,
    lemma_flatten_all_push, lemma_leaf_count, lemma_reading_unique, lexeme_count, opens, reads_failure,
    reads_form, shapes, stays_open,
};
use crate::syntax::tokenizer::token::{Lexeme, Token, TokenView};
use crate::syntax::tokenizer::tokenized::{
    TokenSource, Tokenized, TokenizerError, TokenizerErrorView,
};
use vstd::prelude::*;

verus! {

/// Why no tree could be read.
#[derive(Debug)]
pub enum ParserError<'a> {
    /// The tokenizer reported an error.
    Tokenizer(TokenizerError<'a>),
    /// A closing parenthesis, at this offset, where a form should start.
    UnexpectedR(usize),
    /// A bare lexeme where a form should start.
    UnexpectedLexeme(Lexeme<'a>),
    /// The input ended inside an open list.
    UnexpectedEOF,
}

impl<'a> View for ParserError<'a> {
    type V = ParseFailure;

    open spec fn view(&self) -> ParseFailure {
        match *self {
            ParserError::Tokenizer(error) => ParseFailure::Tokenizer(error@),
            ParserError::UnexpectedR(pos) => ParseFailure::UnexpectedR(pos as int),
            ParserError::UnexpectedLexeme(lexeme) => ParseFailure::UnexpectedLexeme(lexeme@),
            ParserError::UnexpectedEOF => ParseFailure::UnexpectedEOF,
        }
    }
}

impl<'a> From<TokenizerError<'a>> for ParserError<'a> {
    fn from(value: TokenizerError<'a>) -> (error: Self) {
        ParserError::Tokenizer(value)
    }
}

impl<'a> vstd::std_specs::convert::FromSpecImpl<TokenizerError<'a>> for ParserError<'a> {
    open spec fn obeys_from_spec() -> bool {
        true
    }

    open spec fn from_spec(value: TokenizerError<'a>) -> Self {
        ParserError::Tokenizer(value)
    }
}

impl<'a> ParserError<'a> {
    /// The same failure, as the streaming parser reports it.
    pub fn from_zipper(error: ZipperError<'a>) -> (r: Self)
        ensures
            r@ == error@,
    {
        match error {
            ZipperError::TokenizerError(inner) => ParserError::Tokenizer(inner),
            ZipperError::UnexpectedEOF => ParserError::UnexpectedEOF,
            ZipperError::UnexpectedR(pos) => ParserError::UnexpectedR(pos),
            ZipperError::UnexpectedLexeme(lexeme) => ParserError::UnexpectedLexeme(lexeme),
        }
    }
}

/// A parser over a tokenizer. Each call of `next` reads one top-level form.
#[derive(Debug)]
pub struct Parsed<'a> {
    tokens: Tokenized<'a>,
}

impl<'a> Parsed<'a> {
    /// The tokenizer is in order.
    pub closed spec fn wf(&self) -> bool {
        self.tokens.wf()
    }

    /// The items of the token stream that have not been read.
    pub closed spec fn remaining(&self) -> Seq<Result<TokenView, TokenizerErrorView>> {
        self.tokens.stream()
    }

    /// A parser that reads from `tokens`.
    pub fn new(tokens: Tokenized<'a>) -> (parsed: Self)
        requires
            tokens.wf(),
        ensures
            parsed.wf(),
            parsed.remaining() == tokens.stream(),
    {
        Self { tokens }
    }

    /// Reads the rest of a form whose innermost open list is `cur`, filling
    /// `mem`.
    fn parse_list(&mut self, cur: ListPtr, mem: &mut Arena<'a>) -> (r: Result<(), ParserError<'a>>)
        requires
            old(self).wf(),
            old(mem).parsing(cur as int),
        ensures
            final(self).wf(),
            ({
                let items = old(self).remaining();
                let n = items.len() - final(self).remaining().len();
                let text = old(mem).open_text(cur as int);
                &&& 0 <= n <= items.len()
                &&& final(self).remaining() == items.skip(n)
                &&& final(mem).grown_from(old(mem))
                &&& final(mem).store().len() == old(mem).store().len() + opens(
                    shapes(items.take(n)),
                )
                &&& match r {
                    Ok(()) => n > 0 && all_tokens(items.take(n)) && final(mem).complete()
                        && flatten(final(mem).tree(0)) == text + shapes(items.take(n))
                        && stays_open(text + shapes(items.take(n - 1))),
                    Err(ParserError::UnexpectedEOF) => n == items.len() && all_tokens(items)
                        && stays_open(text + shapes(items)),
                    Err(ParserError::Tokenizer(error)) => n > 0 && items[n - 1] == Err::<
                        TokenView,
                        TokenizerErrorView,
                    >(error@) && all_tokens(items.take(n - 1)) && stays_open(
                        text + shapes(items.take(n - 1)),
                    ),
                    Err(_) => false,
                }
            }),
    {
        match Zipper::next_sexpr(&mut self.tokens, cur, mem) {
            Ok(()) => Ok(()),
            Err(error) => Err(ParserError::from_zipper(error)),
        }
    }

    /// Reads the next top-level form.
    ///
    /// The outcome is determined by the items that remain in the token
    /// stream: `None` if there are none; the tree that is written as the first
    /// items, if they are tokens that make up a complete form; else the one
    /// failure that ends the reading. The items read are gone from the stream;
    /// nothing is skipped to find the start of another form. How the arena of
    /// the tree is built is what `Sexpr::lemma_arena` and
    /// `Arena::lemma_structure` say.
    pub fn next(&mut self) -> (r: Option<Result<Sexpr<'a>, ParserError<'a>>>)
        requires
            old(self).wf(),
        ensures
            final(self).wf(),
            ({
                let items = old(self).remaining();
                let n = items.len() - final(self).remaining().len();
                &&& 0 <= n <= items.len()
                &&& final(self).remaining() == items.skip(n)
                &&& match r {
                    None => items.len() == 0,
                    Some(Ok(sexpr)) => reads_form(items, n) && sexpr.wf() && flatten(sexpr.tree())
                        == shapes(items.take(n)) && leaf_count(sexpr.tree()) == lexeme_count(
                        shapes(items.take(n)),
                    ),
                    Some(Err(error)) => reads_failure(items, n, error@),
                }
            }),
            forall|m: int| reads_form(old(self).remaining(), m) ==> r matches Some(Ok(_)),
    {
        let ghost items = self.tokens.stream();
        let r = match self.tokens.next() {
            Some(Ok(Token::LParen(_))) => {
                let mut arena = Arena::begin();
                let ghost rest = self.tokens.stream();
                match self.parse_list(0, &mut arena) {
                    Ok(()) => {
                        proof {
                            let m = rest.len() - self.tokens.stream().len();
                            lemma_reading_shift(items, m);
                            arena.lemma_complete_is_form();
                            lemma_leaf_count(arena.tree(0));
                        }
                        Some(Ok(Sexpr::from_arena(arena)))
                    },
                    Err(error) => {
                        proof {
                            let m = rest.len() - self.tokens.stream().len();
                            lemma_reading_shift(items, m);
                            if error@ is Tokenizer {
                                lemma_reading_shift(items, m - 1);
                            }
                        }
                        Some(Err(error))
                    },
                }
            },
            Some(Ok(Token::RParen(pos))) => Some(Err(ParserError::UnexpectedR(pos))),
            Some(Ok(Token::Lexeme(lexeme))) => Some(Err(ParserError::UnexpectedLexeme(lexeme))),
            Some(Err(err)) => Some(Err(ParserError::from(err))),
            None => None,
        };
        proof {
            let n = items.len() - self.tokens.stream().len();
            assert forall|m: int| reads_form(items, m) implies r matches Some(Ok(_)) by {
                match r {
                    None => {},
                    Some(Ok(_)) => {},
                    Some(Err(error)) => {
                        lemma_reading_unique(
                            items,
                            Reading::Form(m),
                            Reading::Failure(n, error@),
                        );
                    },
                }
            }
        }
        r
    }
}

/// The first `k` items of the stream are tokens that make up exactly the
/// forms that `trees` are written as, one after another.
pub open spec fn reads_forms(
    items: Seq<Result<TokenView, TokenizerErrorView>>,
    k: int,
    trees: Seq<Tree>,
) -> bool {
    &&& 0 <= k <= items.len()
    &&& all_tokens(items.take(k))
    &&& flatten_all(trees) == shapes(items.take(k))
    &&& forall|i: int| 0 <= i < trees.len() ==> (#[trigger] trees[i]) is Node
}

/// The first `n` items of the stream are the forms that `trees` are written
/// as, followed by the items on which reading one more form fails with
/// `failure`.
pub open spec fn fails_behind(
    items: Seq<Result<TokenView, TokenizerErrorView>>,
    n: int,
    trees: Seq<Tree>,
    failure: ParseFailure,
) -> bool {
    exists|k: int| #[trigger]
        reads_forms(items, k, trees) && k < n && reads_failure(items.skip(k), n - k, failure)
}

/// Reading one more form behind the forms read so far.
proof fn lemma_reads_one_more(
    items: Seq<Result<TokenView, TokenizerErrorView>>,
    k: int,
    trees: Seq<Tree>,
    m: int,
    tree: Tree,
)
    requires
        reads_forms(items, k, trees),
        reads_form(items.skip(k), m),
        flatten(tree) == shapes(items.skip(k).take(m)),
    ensures
        reads_forms(items, k + m, trees.push(tree)),
{
    let rest = items.skip(k);
    lemma_flatten_all_push(trees, tree);
    assert(shapes(items.take(k + m)) =~= shapes(items.take(k)) + shapes(rest.take(m)));
    assert forall|i: int| 0 <= i < k + m implies (#[trigger] items.take(k + m)[i]) is Ok by {
        if i >= k {
            assert(rest.take(m)[i - k] is Ok);
        }
    }
}

impl<'a> Parsed<'a> {
    /// Reads top-level forms until the input ends or one cannot be read.
    ///
    /// Returns the trees of the forms read, in order, and the failure that
    /// ended the reading, if one did. Without a failure all of the stream was
    /// read, and made up exactly those forms. With a failure the forms make up
    /// the stream up to where reading the next form started, and the failure
    /// is that of reading one form from there.
    pub fn parse_all(&mut self) -> (r: (Vec<Sexpr<'a>>, Option<ParserError<'a>>))
        requires
            old(self).wf(),
        ensures
            final(self).wf(),
            forall|i: int| 0 <= i < r.0@.len() ==> (#[trigger] r.0@[i]).wf(),
            ({
                let items = old(self).remaining();
                let n = items.len() - final(self).remaining().len();
                &&& 0 <= n <= items.len()
                &&& final(self).remaining() == items.skip(n)
                &&& match r.1 {
                    None => n == items.len() && reads_forms(items, n, trees_of(r.0@)),
                    Some(error) => fails_behind(items, n, trees_of(r.0@), error@),
                }
            }),
    {
        let ghost items = self.remaining();
        let ghost mut k: int = 0;
        let mut forms: Vec<Sexpr<'a>> = Vec::new();
        proof {
            assert(shapes(items.take(0)) =~= flatten_all(trees_of(forms@)));
        }
        loop
            invariant
                items == old(self).remaining(),
                self.wf(),
                0 <= k <= items.len(),
                self.remaining() == items.skip(k),
                reads_forms(items, k, trees_of(forms@)),
                forall|i: int| 0 <= i < forms@.len() ==> (#[trigger] forms@[i]).wf(),
            decreases items.len() - k,
        {
            let ghost rest = self.remaining();
            match self.next() {
                None => {
                    return (forms, None);
                },
                Some(Err(error)) => {
                    return (forms, Some(error));
                },
                Some(Ok(sexpr)) => {
                    proof {
                        let m = rest.len() - self.remaining().len();
                        lemma_reads_one_more(items, k, trees_of(forms@), m, sexpr.tree());
                        assert(trees_of(forms@.push(sexpr)) =~= trees_of(forms@).push(sexpr.tree()));
                        k = k + m;
                    }
                    forms.push(sexpr);
                },
            }
        }
    }
}

} // verus!
