//! The parser of the line-aware reader.

use super::error::{SyntaxError, SyntaxErrorView};
use super::sexpr::{Cell, Sexpr, cell_of, cells_of};
use super::token::{TokenType, TokenTypeView, TokenView};
use super::tokenizer::Tokenizer;
use vstd::prelude::*;
use vstd::std_specs::convert::FromSpec;

verus! {

/// How reading the members of a list ends, and how many tokens it uses: with
/// the members, the end mark last, or with an error.
pub enum Read {
    Done { members: Seq<Cell>, used: int },
    Failed { error: SyntaxErrorView, used: int },
}

/// A reading that comes behind `used` tokens which made up the members
/// `front`.
pub open spec fn after(front: Seq<Cell>, used: int, read: Read) -> Read {
    match read {
        Read::Done { members, used: more } => Read::Done {
            members: front + members,
            used: used + more,
        },
        Read::Failed { error, used: more } => Read::Failed { error, used: used + more },
    }
}

/// Reading the members of a list whose opening parenthesis has been read.
///
/// A closing parenthesis ends the list. A word is a member. An opening
/// parenthesis starts a nested list, which is read in the same way and is a
/// member. A line break is an error, and so are an error of the tokenizer and
/// the end of the tokens.
pub open spec fn members_of(tokens: Seq<Result<TokenView, SyntaxErrorView>>) -> Read
    decreases tokens.len(),
{
    if tokens.len() == 0 {
        Read::Failed { error: SyntaxErrorView::UnexpectedEnd, used: 0 }
    } else {
        let rest = tokens.drop_first();
        match tokens[0] {
            Err(error) => Read::Failed { error, used: 1 },
            Ok(token) => match token.token {
                TokenTypeView::RParen => Read::Done { members: seq![Cell::EndList], used: 1 },
                TokenTypeView::EndLine => Read::Failed {
                    error: SyntaxErrorView::Expected {
                        expected: TokenTypeView::RParen,
                        got: token,
                    },
                    used: 1,
                },
                TokenTypeView::Text(_) => after(seq![Cell::Item(token)], 1, members_of(rest)),
                TokenTypeView::LParen => match members_of(rest) {
                    Read::Failed { error, used } => Read::Failed { error, used: used + 1 },
                    Read::Done { members, used } => if 0 <= used <= rest.len() {
                        after(seq![Cell::List(members)], used + 1, members_of(rest.skip(used)))
                    } else {
                        Read::Failed { error: SyntaxErrorView::UnexpectedEnd, used: used + 1 }
                    },
                },
            },
        }
    }
}

/// Reading the members of a list uses at least one token, unless there is
/// none, and no more than there are.
pub proof fn lemma_members_used(tokens: Seq<Result<TokenView, SyntaxErrorView>>)
    ensures
        match members_of(tokens) {
            Read::Done { used, .. } => 0 < used <= tokens.len(),
            Read::Failed { used, .. } => 0 <= used <= tokens.len(),
        },
    decreases tokens.len(),
{
    if tokens.len() > 0 {
        let rest = tokens.drop_first();
        lemma_members_used(rest);
        match members_of(rest) {
            Read::Done { used, .. } => {
                lemma_members_used(rest.skip(used));
            },
            _ => {},
        }
    }
}

/// The members of a list, the first one included.
pub open spec fn members(list: Sexpr) -> Seq<Cell> {
    match cell_of(list) {
        Cell::List(members) => members,
        _ => Seq::empty(),
    }
}

/// A list that has no first member has no others either.
pub open spec fn tidy(list: Sexpr) -> bool {
    match list {
        Sexpr::List { car, cdr } => *car is None ==> cdr@.len() == 0,
        _ => false,
    }
}

/// Every list in the expression, the expression itself included, holds its
/// first member apart from the others: it has no other members unless it has
/// a first one.
pub open spec fn kept(sexpr: Sexpr) -> bool
    decreases sexpr,
{
    match sexpr {
        Sexpr::List { car, cdr } => tidy(sexpr) && (match *car {
            Some(head) => kept(head),
            None => true,
        }) && all_kept(cdr@),
        _ => true,
    }
}

/// Every expression of the run is kept in that way.
pub open spec fn all_kept(sexprs: Seq<Sexpr>) -> bool
    decreases sexprs,
{
    sexprs.len() == 0 || (all_kept(sexprs.drop_last()) && kept(sexprs.last()))
}

/// The error of a first item that does not open a list: an error of the
/// tokenizer is handed on; a closing parenthesis is an error that carries its
/// offset; any other token is an unexpected start.
pub open spec fn stray(item: Result<TokenView, SyntaxErrorView>) -> SyntaxErrorView {
    match item {
        Err(error) => error,
        Ok(token) => if token.token is RParen {
            SyntaxErrorView::UnexpectedR(token.start)
        } else {
            SyntaxErrorView::UnexpectedStart
        },
    }
}

/// Whether an item of the stream is an opening parenthesis.
pub open spec fn opens_list(item: Result<TokenView, SyntaxErrorView>) -> bool {
    item matches Ok(token) && token.token is LParen
}

/// A parser over a tokenizer. Each call of `parse` reads one list.
#[derive(Debug)]
pub struct Parser<'a> {
    iter: Tokenizer<'a>,
}

impl<'a> From<Tokenizer<'a>> for Parser<'a> {
    fn from(value: Tokenizer<'a>) -> (parser: Self) {
        Self { iter: value }
    }
}

impl<'a> vstd::std_specs::convert::FromSpecImpl<Tokenizer<'a>> for Parser<'a> {
    open spec fn obeys_from_spec() -> bool {
        true
    }

    closed spec fn from_spec(value: Tokenizer<'a>) -> Self {
        Self { iter: value }
    }
}

impl<'a> Parser<'a> {
    /// The tokenizer is in order.
    pub closed spec fn wf(&self) -> bool {
        self.iter.wf()
    }

    /// The tokens that have not been read.
    pub closed spec fn remaining(&self) -> Seq<Result<TokenView, SyntaxErrorView>> {
        self.iter.remaining()
    }

    /// A parser made from a tokenizer is in order if the tokenizer is, and
    /// reads the tokens of the tokenizer.
    pub proof fn lemma_from(tokens: Tokenizer<'a>)
        ensures
            Parser::from_spec(tokens).wf() == tokens.wf(),
            Parser::from_spec(tokens).remaining() == tokens.remaining(),
    {
    }

    /// A parser that reads from `tokens`.
    pub fn new(tokens: Tokenizer<'a>) -> (parser: Self)
        requires
            tokens.wf(),
        ensures
            parser.wf(),
            parser.remaining() == tokens.remaining(),
    {
        Parser::from(tokens)
    }

    /// Reads one list.
    ///
    /// Without tokens there is nothing to read. A first token that does not
    /// open a list is an error; for a closing parenthesis the error carries
    /// its offset. Otherwise the members of the list are read; the list holds
    /// them, the end mark last, and it and every list in it holds its first
    /// member apart.
    pub fn parse(&mut self) -> (r: Option<Result<Sexpr<'a>, SyntaxError<'a>>>)
        requires
            old(self).wf(),
        ensures
            final(self).wf(),
            ({
                let tokens = old(self).remaining();
                match r {
                    None => tokens.len() == 0 && final(self).remaining().len() == 0,
                    Some(result) => tokens.len() > 0 && if opens_list(tokens[0]) {
                        match members_of(tokens.drop_first()) {
                            Read::Done { members, used } => result is Ok && result->Ok_0@
                                == Cell::List(members) && result->Ok_0 is List && kept(
                                result->Ok_0,
                            ) && final(self).remaining() == tokens.skip(used + 1),
                            Read::Failed { error, used } => result is Err && result->Err_0@ == error
                                && final(self).remaining() == tokens.skip(used + 1),
                        }
                    } else {
                        result is Err && result->Err_0@ == stray(tokens[0]) && final(self).remaining() == tokens.skip(1)
                    },
                }
            }),
    {
        let ghost tokens = self.remaining();
        let root = Sexpr::new();
        proof {
            assert(all_kept(root->cdr@));
            assert(kept(root));
            if tokens.len() > 0 {
                lemma_members_used(tokens.drop_first());
            }
        }
        match self.iter.next() {
            Some(Ok(token)) => match token.kind() {
                TokenType::L_PAREN => {
                    let list = self.next(root);
                    Some(list)
                },
                TokenType::R_PAREN => Some(Err(SyntaxError::UnexpectedR(token.start()))),
                _ => Some(Err(SyntaxError::UnexpectedStart)),
            },
            Some(Err(error)) => Some(Err(error)),
            None => None,
        }
    }

    /// Reads a nested list whose opening parenthesis has been read.
    fn new_list(&mut self) -> (r: Result<Sexpr<'a>, SyntaxError<'a>>)
        requires
            old(self).wf(),
        ensures
            final(self).wf(),
            match members_of(old(self).remaining()) {
                Read::Done { members, used } => r is Ok && r->Ok_0 is List && kept(r->Ok_0)
                    && r->Ok_0@ == Cell::List(members) && final(self).remaining() == old(self).remaining().skip(used),
                Read::Failed { error, used } => r is Err && r->Err_0@ == error && final(self).remaining() == old(self).remaining().skip(used),
            },
        decreases old(self).remaining().len(), 1nat,
    {
        let root = Sexpr::new();
        proof {
            assert(all_kept(root->cdr@));
            assert(kept(root));
        }
        self.next(root)
    }

    /// Reads the members of `parent`, whose opening parenthesis has been
    /// read, adds them to it and ends it.
    fn next(&mut self, parent: Sexpr<'a>) -> (r: Result<Sexpr<'a>, SyntaxError<'a>>)
        requires
            old(self).wf(),
            parent.is_open(),
            kept(parent),
        ensures
            final(self).wf(),
            match members_of(old(self).remaining()) {
                Read::Done { members: read, used } => r is Ok && r->Ok_0 is List && kept(r->Ok_0)
                    && r->Ok_0@ == Cell::List(members(parent) + read) && final(self).remaining()
                    == old(self).remaining().skip(used),
                Read::Failed { error, used } => r is Err && r->Err_0@ == error && final(self).remaining() == old(self).remaining().skip(used),
            },
        decreases old(self).remaining().len(), 0nat,
    {
        let ghost tokens = self.remaining();
        let ghost mut n: int = 0;
        let ghost mut added: Seq<Cell> = Seq::empty();
        let mut list = parent;
        let ghost first = members(parent);
        proof {
            assert(tokens.skip(0) =~= tokens);
            assert(first + added =~= first);
            match members_of(tokens) {
                Read::Done { members, used } => {
                    assert(added + members =~= members);
                },
                _ => {},
            }
        }
        loop
            invariant
                tokens == old(self).remaining(),
                self.wf(),
                0 <= n <= tokens.len(),
                self.remaining() == tokens.skip(n),
                list.is_open(),
                kept(list),
                first == members(parent),
                members(list) == first + added,
                members_of(tokens) == after(added, n, members_of(tokens.skip(n))),
            decreases tokens.len() - n,
        {
            let ghost rest = self.remaining();
            proof {
                lemma_members_used(rest);
                lemma_members_used(rest.drop_first());
                if rest.len() > 0 {
                    assert(rest.drop_first() =~= tokens.skip(n + 1));
                    assert(rest[0] == tokens[n]);
                }
            }
            let token = match self.iter.next() {
                Some(Ok(token)) => token,
                Some(Err(error)) => {
                    proof {
                        assert(rest.skip(1) =~= tokens.skip(n + 1));
                    }
                    return Err(error);
                },
                None => {
                    return Err(SyntaxError::UnexpectedEnd);
                },
            };
            match token.kind() {
                TokenType::L_PAREN => {
                    let ghost inner_tokens = self.remaining();
                    match self.new_list() {
                        Ok(nested) => {
                            proof {
                                let used = members_of(inner_tokens)->Done_used;
                                lemma_members_used(inner_tokens);
                                lemma_add(list, nested);
                                assert(inner_tokens.skip(used) =~= tokens.skip(n + 1 + used));
                                let more = members_of(inner_tokens.skip(used));
                                let member = seq![cell_of(nested)];
                                match more {
                                    Read::Done { members, used: last } => {
                                        assert(added + (member + members) =~= (added + member)
                                            + members);
                                    },
                                    _ => {},
                                }
                                assert(first + (added + member) =~= (first + added).push(
                                    cell_of(nested),
                                ));
                                added = added + member;
                                n = n + 1 + used;
                            }
                            list.add(nested);
                            proof {
                                assert(members(list) == first + added);
                                assert(kept(list));
                            }
                        },
                        Err(err) => {
                            proof {
                                let used = members_of(inner_tokens)->Failed_used;
                                assert(inner_tokens.skip(used) =~= tokens.skip(n + 1 + used));
                            }
                            return Err(err);
                        },
                    }
                },
                TokenType::R_PAREN => {
                    proof {
                        assert(kept(Sexpr::<'a>::EndList));
                        lemma_add(list, Sexpr::EndList);
                        assert(added + seq![Cell::EndList] =~= added.push(Cell::EndList));
                        assert(first + (added + seq![Cell::EndList]) =~= (first + added).push(
                            Cell::EndList,
                        ));
                    }
                    list.endlist();
                    proof {
                        assert(members(list) == (first + added).push(Cell::EndList));
                        assert(kept(list));
                        assert(cell_of(list) == Cell::List(members(list)));
                    }
                    return Ok(list);
                },
                TokenType::END_LINE => {
                    return Err(SyntaxError::Expected { expected: TokenType::R_PAREN, got: token });
                },
                TokenType::STRING(_) => {
                    proof {
                        let item = Sexpr::Item(token);
                        assert(kept(item));
                        lemma_add(list, item);
                        let member = seq![Cell::Item(token@)];
                        match members_of(tokens.skip(n + 1)) {
                            Read::Done { members, used: last } => {
                                assert(added + (member + members) =~= (added + member) + members);
                            },
                            _ => {},
                        }
                        assert(first + (added + member) =~= (first + added).push(cell_of(item)));
                        added = added + member;
                        n = n + 1;
                    }
                    list.add(Sexpr::Item(token));
                    proof {
                        assert(members(list) == first + added);
                        assert(kept(list));
                    }
                },
            }
        }
    }
}

/// What adding a member does to a list that holds its first member apart.
pub proof fn lemma_add(list: Sexpr, item: Sexpr)
    requires
        list is List,
        kept(list),
        kept(item),
    ensures
        forall|after: Sexpr|
            after is List && (*list->car is None ==> *after->car == Some(item) && after->cdr@
                == list->cdr@) && (*list->car is Some ==> after->car == list->car && after->cdr@
                == list->cdr@.push(item)) ==> #[trigger] members(after) == members(list).push(
                cell_of(item),
            ) && kept(after),
{
    assert forall|after: Sexpr|
        after is List && (*list->car is None ==> *after->car == Some(item) && after->cdr@
            == list->cdr@) && (*list->car is Some ==> after->car == list->car && after->cdr@
            == list->cdr@.push(item)) implies #[trigger] members(after) == members(list).push(
        cell_of(item),
    ) && kept(after) by {
        if *list->car is None {
            assert(cells_of(list->cdr@) =~= Seq::<Cell>::empty());
            assert(all_kept(after->cdr@));
        } else {
            assert(after->cdr@.drop_last() =~= list->cdr@);
            assert(cells_of(after->cdr@) == cells_of(list->cdr@).push(cell_of(item)));
            assert(all_kept(after->cdr@));
        }
        assert(kept(after));
    }
}

} // verus!
