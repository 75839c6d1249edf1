//! Nested lists that own their members.

use super::token::{Token, TokenView};
use vstd::prelude::*;

verus! {

/// An expression: an item, a list, or the mark that ends a list. A list
/// keeps its first member apart from the others.
#[derive(Debug)]
pub enum Sexpr<'a> {
    EndList,
    Item(Token<'a>),
    List { car: Box<Option<Sexpr<'a>>>, cdr: Vec<Sexpr<'a>> },
}

/// What an expression is, as a mathematical value; a list is the run of
/// its members, the first one included.
pub enum Cell {
    EndList,
    Item(TokenView),
    List(Seq<Cell>),
}

/// The view of an expression.
pub open spec fn cell_of(sexpr: Sexpr) -> Cell
    decreases sexpr,
{
    match sexpr {
        Sexpr::EndList => Cell::EndList,
        Sexpr::Item(token) => Cell::Item(token@),
        Sexpr::List { car, cdr } => match *car {
            Some(head) => Cell::List(seq![cell_of(head)] + cells_of(cdr@)),
            None => Cell::List(cells_of(cdr@)),
        },
    }
}

/// The views of a run of expressions.
pub open spec fn cells_of(sexprs: Seq<Sexpr>) -> Seq<Cell>
    decreases sexprs,
{
    if sexprs.len() == 0 {
        Seq::empty()
    } else {
        cells_of(sexprs.drop_last()).push(cell_of(sexprs.last()))
    }
}

impl<'a> View for Sexpr<'a> {
    type V = Cell;

    open spec fn view(&self) -> Cell {
        cell_of(*self)
    }
}

/// What is left of a list that is taken apart: nothing, or its first member
/// and the others.
#[derive(Debug)]
pub enum List<'a> {
    Void,
    Packed { car: Sexpr<'a>, cdr: Vec<Sexpr<'a>> },
}

impl<'a> From<Option<(Sexpr<'a>, Vec<Sexpr<'a>>)>> for List<'a> {
    fn from(value: Option<(Sexpr<'a>, Vec<Sexpr<'a>>)>) -> (list: Self) {
        match value {
            None => List::Void,
            Some((head, tail)) => List::Packed { car: head, cdr: tail },
        }
    }
}

impl<'a> vstd::std_specs::convert::FromSpecImpl<Option<(Sexpr<'a>, Vec<Sexpr<'a>>)>> for List<'a> {
    open spec fn obeys_from_spec() -> bool {
        true
    }

    open spec fn from_spec(value: Option<(Sexpr<'a>, Vec<Sexpr<'a>>)>) -> Self {
        match value {
            None => List::Void,
            Some((head, tail)) => List::Packed { car: head, cdr: tail },
        }
    }
}

impl<'a> Sexpr<'a> {
    /// Whether this is a list that has been ended: its first member, or the
    /// last of the others, is the end mark.
    pub open spec fn is_closed(&self) -> bool {
        match *self {
            Sexpr::List { car, cdr } => *car matches Some(Sexpr::EndList) || (cdr@.len() > 0
                && cdr@.last() is EndList),
            _ => false,
        }
    }

    /// Whether this is a list that members can be added to.
    pub open spec fn is_open(&self) -> bool {
        *self is List && !self.is_closed()
    }

    /// An empty list.
    pub fn new() -> (list: Self)
        ensures
            list.is_open(),
            list@ == Cell::List(Seq::empty()),
            list->car == Box::new(None::<Sexpr<'a>>),
            list->cdr@.len() == 0,
    {
        let list = Self::List { car: Box::new(None), cdr: Vec::new() };
        proof {
            assert(cells_of(list->cdr@) =~= Seq::<Cell>::empty());
        }
        list
    }

    /// Whether members can be added.
    pub fn accepts(&self) -> (open: bool)
        ensures
            open == self.is_open(),
    {
        match self {
            Sexpr::List { car, cdr } => {
                match &**car {
                    Some(Sexpr::EndList) => false,
                    _ => {
                        if cdr.len() > 0 {
                            match &cdr[cdr.len() - 1] {
                                Sexpr::EndList => false,
                                _ => true,
                            }
                        } else {
                            true
                        }
                    },
                }
            },
            _ => false,
        }
    }

    /// Adds a member at the end of the list: as its first member if it has
    /// none, else behind the others.
    pub fn add(&mut self, item: Sexpr<'a>)
        requires
            old(self).is_open(),
        ensures
            *final(self) is List,
            *old(self)->car is None ==> *final(self)->car == Some(item) && final(self)->cdr@
                == old(self)->cdr@,
            *old(self)->car is Some ==> final(self)->car == old(self)->car && final(self)->cdr@
                == old(self)->cdr@.push(item),
    {
        match self {
            Sexpr::List { car, cdr } => {
                if car.is_none() {
                    **car = Some(item);
                } else {
                    cdr.push(item);
                }
            },
            _ => {},
        }
    }

    /// Ends the list: the end mark becomes its first member if it has none,
    /// else it is added behind the others.
    pub fn endlist(&mut self)
        requires
            *old(self) is List,
        ensures
            *final(self) is List,
            final(self).is_closed(),
            *old(self)->car is None ==> *final(self)->car == Some(Sexpr::<'a>::EndList)
                && final(self)->cdr@ == old(self)->cdr@,
            *old(self)->car is Some ==> final(self)->car == old(self)->car && final(self)->cdr@
                == old(self)->cdr@.push(Sexpr::EndList),
    {
        match self {
            Sexpr::List { car, cdr } => {
                if car.is_none() {
                    **car = Some(Sexpr::EndList);
                } else {
                    cdr.push(Sexpr::EndList);
                }
            },
            _ => {},
        }
    }

    /// Takes the expression apart: nothing for the end mark, the token of an
    /// item, or what is left of a list.
    pub fn next(self) -> (r: Option<Result<Token<'a>, List<'a>>>)
        ensures
            match self {
                Sexpr::EndList => r is None,
                Sexpr::Item(item) => r == Some(Ok::<Token<'a>, List<'a>>(item)),
                Sexpr::List { car, cdr } => match *car {
                    Some(head) => r == Some(
                        Err::<Token<'a>, List<'a>>(List::Packed { car: head, cdr }),
                    ),
                    None => r == Some(Err::<Token<'a>, List<'a>>(List::Void)),
                },
            },
    {
        match self {
            Self::EndList => None,
            Self::Item(item) => Some(Ok(item)),
            Self::List { car, cdr } => match *car {
                Some(head) => Some(Err(List::from(Some((head, cdr))))),
                None => Some(Err(List::from(None))),
            },
        }
    }
}

} // verus!
