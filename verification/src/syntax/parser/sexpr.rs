//! The arena that parse trees live in.
//!
//! Lists are stored flat and addressed by their index. A list names its
//! parent and its children by index, so the tree needs no shared ownership.
//! Lists are allocated in the order their opening parentheses are read: a
//! child always has a larger index than its parent. A list is attached to its
//! parent when its closing parenthesis is read, and is closed from then on.

use super::shape::{
    ParseFailure, Shape, Tree, all_tokens, flatten, flatten_all, is_form, leaf_count,
    leaf_count_all, lemma_flatten_all_balanced, lemma_flatten_all_push, lemma_flatten_balanced,
    lemma_leaf_count, lemma_opens_concat, lemma_opens_node, lemma_opens_push,
    lemma_opens_trees_push, lemma_stays_open_concat, lexeme_count, never_negative, opens,
    reads_failure, reads_form, shapes, stays_open,
};
use crate::syntax::tokenizer::token::{Lexeme, LexemeView, Token, TokenView};
use crate::syntax::tokenizer::tokenized::{
    TokenCursor, TokenSource, Tokenized, TokenizerError, TokenizerErrorView,
};
use vstd::prelude::*;

verus! {

/// The identity of a list: its index in the arena.
pub type ListPtr = usize;

/// A lexeme as a member of a list.
#[derive(Debug)]
pub struct Item<'a> {
    data: Lexeme<'a>,
    parent: ListPtr,
}

impl<'a> Item<'a> {
    /// The lexeme this item wraps.
    pub closed spec fn lexeme(&self) -> LexemeView {
        self.data@
    }

    /// The list this item belongs to.
    pub closed spec fn owner(&self) -> int {
        self.parent as int
    }

    /// The lexeme `lexeme` as a member of list `parent`.
    pub fn new(lexeme: Lexeme<'a>, parent: ListPtr) -> (item: Self)
        ensures
            item.lexeme() == lexeme@,
            item.owner() == parent,
    {
        Self { data: lexeme, parent }
    }

    /// The lexeme this item wraps.
    pub fn data(&self) -> (lexeme: &Lexeme<'a>)
        ensures
            lexeme@ == self.lexeme(),
    {
        &self.data
    }

    /// The list this item belongs to.
    pub fn get_parent(&self) -> (parent: ListPtr)
        ensures
            parent == self.owner(),
    {
        self.parent
    }
}

/// A member of a list: a nested list, by identity, or an item.
#[derive(Debug)]
pub enum SexprType<'a> {
    List(ListPtr),
    Item(Item<'a>),
}

/// An ordered list of members, with the identity of its parent list.
#[derive(Debug)]
pub struct List<'a> {
    items: Vec<SexprType<'a>>,
    parent: Option<ListPtr>,
    closed: bool,
}

impl<'a> List<'a> {
    /// The members, in order.
    pub closed spec fn entries(&self) -> Seq<SexprType<'a>> {
        self.items@
    }

    /// The parent list, if this is not a root.
    pub closed spec fn parent_id(&self) -> Option<ListPtr> {
        self.parent
    }

    /// Whether the closing parenthesis has been read.
    pub closed spec fn sealed(&self) -> bool {
        self.closed
    }

    /// An empty, open list without a parent.
    pub fn root() -> (list: Self)
        ensures
            list.entries().len() == 0,
            list.parent_id() is None,
            !list.sealed(),
    {
        Self { items: Vec::new(), parent: None, closed: false }
    }

    /// An empty, open list whose parent is `parent`.
    pub fn new(parent: ListPtr) -> (list: Self)
        ensures
            list.entries().len() == 0,
            list.parent_id() == Some(parent),
            !list.sealed(),
    {
        Self { items: Vec::new(), parent: Some(parent), closed: false }
    }

    /// Gives up the list for its members.
    pub fn iter(self) -> (items: Vec<SexprType<'a>>)
        ensures
            items@ == self.entries(),
    {
        self.items
    }

    /// The parent list, if this is not a root.
    pub fn get_parent(&self) -> (parent: Option<ListPtr>)
        ensures
            parent == self.parent_id(),
    {
        self.parent
    }

    /// Whether the closing parenthesis has been read.
    pub fn is_closed(&self) -> (closed: bool)
        ensures
            closed == self.sealed(),
    {
        self.closed
    }

    /// The number of members.
    pub fn len(&self) -> (n: usize)
        ensures
            n == self.entries().len(),
    {
        self.items.len()
    }

    /// The member at `index`, if there is one.
    pub fn get(&self, index: usize) -> (member: Option<&SexprType<'a>>)
        ensures
            member is Some <==> index < self.entries().len(),
            member matches Some(m) ==> *m == self.entries()[index as int],
    {
        if index < self.items.len() {
            Some(&self.items[index])
        } else {
            None
        }
    }
}

/// A flat store of lists.
#[derive(Debug)]
pub struct Arena<'a> {
    lists: Vec<List<'a>>,
}

impl<'a> Arena<'a> {
    /// The lists, by identity.
    pub closed spec fn store(&self) -> Seq<List<'a>> {
        self.lists@
    }

    /// An arena without lists.
    pub fn new() -> (arena: Self)
        ensures
            arena.store().len() == 0,
    {
        Self { lists: Vec::new() }
    }

    /// Stores `list` and returns its identity.
    pub fn push(&mut self, list: List<'a>) -> (id: ListPtr)
        ensures
            final(self).store() == old(self).store().push(list),
            id == old(self).store().len(),
    {
        self.lists.push(list);
        self.lists.len() - 1
    }

    /// The list with identity `id`, if there is one.
    pub fn get(&self, id: ListPtr) -> (list: Option<&List<'a>>)
        ensures
            list is Some <==> id < self.store().len(),
            list matches Some(l) ==> *l == self.store()[id as int],
    {
        if id < self.lists.len() {
            Some(&self.lists[id])
        } else {
            None
        }
    }

    /// The list with identity `id`, to change it, if there is one.
    pub fn get_mut(&mut self, id: ListPtr) -> (list: Option<&mut List<'a>>)
        ensures
            list is Some <==> id < old(self).store().len(),
            list matches Some(l) ==> *l == old(self).store()[id as int] && final(self).store()
                == old(self).store().update(id as int, *final(l)),
            list is None ==> final(self).store() == old(self).store(),
    {
        if id < self.lists.len() {
            Some(&mut self.lists[id])
        } else {
            None
        }
    }

    /// The number of lists.
    pub fn len(&self) -> (n: usize)
        ensures
            n == self.store().len(),
    {
        self.lists.len()
    }
}

impl<'a> Arena<'a> {
    /// The number of members of list `id`, or zero if there is no such list.
    pub closed spec fn fanout(&self, id: int) -> int {
        if 0 <= id < self.lists@.len() {
            self.lists@[id].items@.len() as int
        } else {
            0
        }
    }

    /// The tree that list `id` and everything below it stand for.
    pub closed spec fn tree(&self, id: int) -> Tree
        decreases self.store().len() - id, self.fanout(id) + 1,
    {
        Tree::Node(self.item_trees(id, self.fanout(id)))
    }

    /// The trees of the first `k` members of list `id`.
    pub closed spec fn item_trees(&self, id: int, k: int) -> Seq<Tree>
        decreases self.store().len() - id, k,
    {
        if k <= 0 || k > self.fanout(id) {
            Seq::empty()
        } else {
            let before = self.item_trees(id, k - 1);
            match self.lists@[id].items@[k - 1] {
                SexprType::Item(item) => before.push(Tree::Leaf(item.data@)),
                SexprType::List(child) => if id < child < self.lists@.len() {
                    before.push(self.tree(child as int))
                } else {
                    before.push(Tree::Node(Seq::empty()))
                },
            }
        }
    }

    /// Member `k` of list `j` is in order: an item knows its list; a nested
    /// list comes later in the arena, is closed, and names `j` as its parent.
    pub closed spec fn entry_ok(&self, j: int, k: int) -> bool {
        match self.lists@[j].items@[k] {
            SexprType::List(child) => j < child < self.lists@.len() && self.lists@[child as int].closed
                && self.lists@[child as int].parent == Some(j as usize),
            SexprType::Item(item) => item.parent == j,
        }
    }

    /// List `j` names an earlier list as its parent; only list 0 has none.
    pub closed spec fn parent_ok(&self, j: int) -> bool {
        match self.lists@[j].parent {
            Some(p) => p < j,
            None => j == 0,
        }
    }

    /// Every member and every parent link is in order.
    pub closed spec fn linked(&self) -> bool {
        &&& forall|j: int, k: int|
            0 <= j < self.lists@.len() && 0 <= k < self.lists@[j].items@.len()
                ==> #[trigger] self.entry_ok(j, k)
        &&& forall|j: int| 0 <= j < self.lists@.len() ==> #[trigger] self.parent_ok(j)
    }

    /// Whether list `j` is `cur` or one of its ancestors.
    pub closed spec fn on_chain(&self, cur: int, j: int) -> bool
        decreases cur,
    {
        0 <= cur < self.lists@.len() && (j == cur || match self.lists@[cur].parent {
            Some(p) => p < cur && self.on_chain(p as int, j),
            None => false,
        })
    }

    /// The links are in order, and the open lists are exactly `cur` and its
    /// ancestors.
    pub closed spec fn chained(&self, cur: int) -> bool {
        &&& self.linked()
        &&& 0 <= cur < self.lists@.len()
        &&& forall|j: int|
            0 <= j < self.lists@.len() ==> (!(#[trigger] self.lists@[j]).closed <==> self.on_chain(
                cur,
                j,
            ))
    }

    /// The links are in order and every list is closed.
    pub closed spec fn sealed(&self) -> bool {
        &&& self.linked()
        &&& self.lists@.len() > 0
        &&& forall|j: int| 0 <= j < self.lists@.len() ==> (#[trigger] self.lists@[j]).closed
    }

    /// Member `k` of list `j`, if it is a nested list, has the identity that
    /// the order of the opening parentheses gives it: that of `j`, plus one
    /// for each list that the members before it hold, plus one.
    pub closed spec fn numbered_entry(&self, j: int, k: int) -> bool {
        match self.lists@[j].items@[k] {
            SexprType::List(child) => child == j + 1 + opens(flatten_all(self.item_trees(j, k))),
            SexprType::Item(_) => true,
        }
    }

    /// List `j` is a member of the list it names as its parent, if it names
    /// one.
    pub closed spec fn held(&self, j: int) -> bool {
        match self.lists@[j].parent {
            Some(p) => p < self.lists@.len() && exists|k: int|
                0 <= k < self.lists@[p as int].items@.len() && #[trigger] self.lists@[p as int].items@[k]
                    == SexprType::<'a>::List(j as usize),
            None => true,
        }
    }

    /// Every nested list has the identity that the order of the opening
    /// parentheses gives it, and every closed list is a member of its parent.
    pub closed spec fn numbered(&self) -> bool {
        &&& forall|j: int, k: int|
            0 <= j < self.lists@.len() && 0 <= k < self.lists@[j].items@.len()
                ==> #[trigger] self.numbered_entry(j, k)
        &&& forall|j: int|
            0 <= j < self.lists@.len() && self.lists@[j].closed ==> #[trigger] self.held(j)
    }

    /// The identity of `cur` and of each of its ancestors is the number of
    /// opening parentheses that were read before its own.
    pub closed spec fn chain_numbered(&self, cur: int) -> bool
        decreases cur,
    {
        0 <= cur < self.lists@.len() && match self.lists@[cur].parent {
            Some(p) => p < cur && cur == opens(self.open_text(p as int)) && self.chain_numbered(
                p as int,
            ),
            None => cur == 0,
        }
    }

    /// The lists are numbered in the order of their opening parentheses, and
    /// there are as many lists as opening parentheses have been read.
    pub closed spec fn counting(&self, cur: int) -> bool {
        &&& self.numbered()
        &&& self.chain_numbered(cur)
        &&& self.lists@.len() == opens(self.open_text(cur))
    }

    /// The arena is in the middle of a parse with `cur` as the list being
    /// filled: the links are in order, the open lists are exactly `cur` and
    /// its ancestors, and the lists are numbered in the order in which their
    /// opening parentheses were read.
    pub closed spec fn parsing(&self, cur: int) -> bool {
        self.chained(cur) && self.counting(cur)
    }

    /// The arena holds one finished tree, rooted at list 0: the links are in
    /// order, every list is closed and a member of its parent, and the lists
    /// are numbered in the order of their opening parentheses.
    pub closed spec fn complete(&self) -> bool {
        &&& self.sealed()
        &&& self.numbered()
        &&& self.lists@.len() == opens(flatten(self.tree(0)))
    }

    /// What has been read so far of the form being parsed, as far as it is
    /// recorded in `cur` and its ancestors: for each of them, outermost
    /// first, its opening parenthesis and its members so far.
    pub closed spec fn open_text(&self, cur: int) -> Seq<Shape>
        decreases cur,
    {
        if 0 <= cur < self.lists@.len() {
            let own = seq![Shape::Open] + flatten_all(self.item_trees(cur, self.fanout(cur)));
            match self.lists@[cur].parent {
                Some(p) => if p < cur {
                    self.open_text(p as int) + own
                } else {
                    own
                },
                None => own,
            }
        } else {
            Seq::empty()
        }
    }

    /// `later` has every closed list of `self` unchanged, and no list's
    /// parent changed.
    closed spec fn extended_by(&self, later: &Arena<'a>) -> bool {
        &&& self.lists@.len() <= later.lists@.len()
        &&& forall|j: int|
            0 <= j < self.lists@.len() && (#[trigger] self.lists@[j]).closed ==> later.lists@[j]
                == self.lists@[j]
        &&& forall|j: int|
            0 <= j < self.lists@.len() ==> (#[trigger] later.lists@[j]).parent
                == self.lists@[j].parent
    }

    /// `later` has the lists up to and including `id` unchanged.
    closed spec fn same_upto(&self, later: &Arena<'a>, id: int) -> bool {
        forall|j: int| 0 <= j <= id && j < self.lists@.len() ==> (#[trigger] later.lists@[j])
            == self.lists@[j]
    }

    /// The tree of a closed list is the same in an arena that keeps the closed
    /// lists.
    proof fn lemma_frame_tree(&self, later: &Arena<'a>, id: int)
        requires
            self.linked(),
            self.extended_by(later),
            0 <= id < self.lists@.len(),
            self.lists@[id].closed,
        ensures
            later.tree(id) == self.tree(id),
        decreases self.store().len() - id, self.fanout(id) + 1,
    {
        self.lemma_frame_items(later, id, self.fanout(id));
    }

    /// The trees of the members of a list are the same in an arena that keeps
    /// the closed lists and those members.
    proof fn lemma_frame_items(&self, later: &Arena<'a>, id: int, k: int)
        requires
            self.linked(),
            self.extended_by(later),
            0 <= id < self.lists@.len(),
            0 <= k <= self.fanout(id),
            k <= later.fanout(id),
            forall|i: int| 0 <= i < k ==> later.lists@[id].items@[i] == self.lists@[id].items@[i],
        ensures
            later.item_trees(id, k) == self.item_trees(id, k),
        decreases self.store().len() - id, k,
    {
        if k > 0 {
            self.lemma_frame_items(later, id, k - 1);
            assert(self.entry_ok(id, k - 1));
            match self.lists@[id].items@[k - 1] {
                SexprType::Item(item) => {},
                SexprType::List(child) => {
                    self.lemma_frame_tree(later, child as int);
                },
            }
        }
    }

    /// The ancestors of a list are the same in an arena that keeps the
    /// parents.
    proof fn lemma_frame_chain(&self, later: &Arena<'a>, cur: int, j: int)
        requires
            self.extended_by(later),
            0 <= cur < self.lists@.len(),
        ensures
            later.on_chain(cur, j) == self.on_chain(cur, j),
        decreases cur,
    {
        match self.lists@[cur].parent {
            Some(p) => {
                if p < cur {
                    self.lemma_frame_chain(later, p as int, j);
                }
            },
            None => {},
        }
    }

    /// What has been read is the same in an arena that keeps the closed lists
    /// and the lists up to the one being filled.
    proof fn lemma_frame_open_text(&self, later: &Arena<'a>, id: int)
        requires
            self.linked(),
            self.extended_by(later),
            self.same_upto(later, id),
            0 <= id < self.lists@.len(),
        ensures
            later.open_text(id) == self.open_text(id),
        decreases id,
    {
        self.lemma_frame_items(later, id, self.fanout(id));
        match self.lists@[id].parent {
            Some(p) => {
                if p < id {
                    self.lemma_frame_open_text(later, p as int);
                }
            },
            None => {},
        }
    }

    /// The numbering of a list and its ancestors is the same in an arena
    /// that keeps the closed lists and the lists up to its parent.
    proof fn lemma_frame_numbering(&self, later: &Arena<'a>, cur: int)
        requires
            self.linked(),
            self.extended_by(later),
            0 <= cur < self.lists@.len(),
            self.lists@[cur].parent matches Some(p) ==> self.same_upto(later, p as int),
        ensures
            later.chain_numbered(cur) == self.chain_numbered(cur),
        decreases cur,
    {
        assert(self.parent_ok(cur));
        assert(later.lists@[cur].parent == self.lists@[cur].parent);
        match self.lists@[cur].parent {
            Some(p) => {
                assert(self.parent_ok(p as int));
                self.lemma_frame_open_text(later, p as int);
                match self.lists@[p as int].parent {
                    Some(pp) => {
                        assert forall|j: int|
                            0 <= j <= pp && j < self.lists@.len() implies (
                        #[trigger] later.lists@[j]) == self.lists@[j] by {}
                    },
                    None => {},
                }
                self.lemma_frame_numbering(later, p as int);
            },
            None => {},
        }
    }

    /// Every list keeps the members it has, in their places.
    closed spec fn keeps_members(&self, later: &Arena<'a>) -> bool {
        forall|j: int, i: int|
            0 <= j < self.lists@.len() && 0 <= i < self.lists@[j].items@.len() ==> i
                < later.lists@[j].items@.len() && (#[trigger] later.lists@[j].items@[i])
                == self.lists@[j].items@[i]
    }

    /// The numbers of the nested lists and the places of the closed lists
    /// are the same in an arena that keeps the closed lists and all members.
    proof fn lemma_frame_numbered(&self, later: &Arena<'a>)
        requires
            self.linked(),
            self.numbered(),
            self.extended_by(later),
            self.keeps_members(later),
        ensures
            forall|j: int, k: int|
                0 <= j < self.lists@.len() && 0 <= k < self.lists@[j].items@.len()
                    ==> #[trigger] later.numbered_entry(j, k),
            forall|j: int|
                0 <= j < self.lists@.len() && self.lists@[j].closed ==> #[trigger] later.held(j),
    {
        assert forall|j: int, k: int|
            0 <= j < self.lists@.len() && 0 <= k
                < self.lists@[j].items@.len() implies #[trigger] later.numbered_entry(j, k) by {
            assert(self.numbered_entry(j, k));
            assert forall|i: int| 0 <= i < k implies later.lists@[j].items@[i]
                == self.lists@[j].items@[i] by {
                assert(later.lists@[j].items@[i] == self.lists@[j].items@[i]);
            }
            assert(later.lists@[j].items@[k] == self.lists@[j].items@[k]);
            self.lemma_frame_items(later, j, k);
        }
        assert forall|j: int|
            0 <= j < self.lists@.len() && self.lists@[j].closed implies #[trigger] later.held(
            j,
        ) by {
            assert(self.held(j));
            assert(later.lists@[j] == self.lists@[j]);
            match self.lists@[j].parent {
                Some(p) => {
                    let k = choose|k: int|
                        0 <= k < self.lists@[p as int].items@.len() && #[trigger] self.lists@[p as int].items@[k]
                            == SexprType::<'a>::List(j as usize);
                    assert(later.lists@[p as int].items@[k] == self.lists@[p as int].items@[k]);
                },
                None => {},
            }
        }
    }

    /// What has been read up to a list that is numbered holds as many
    /// opening parentheses as the identity of the list, its own, and those of
    /// its members.
    proof fn lemma_text_count(&self, cur: int)
        requires
            self.chain_numbered(cur),
        ensures
            opens(self.open_text(cur)) == cur + 1 + opens(
                flatten_all(self.item_trees(cur, self.fanout(cur))),
            ),
    {
        let inner = flatten_all(self.item_trees(cur, self.fanout(cur)));
        let open = seq![Shape::Open];
        lemma_opens_push(Seq::empty(), Shape::Open);
        lemma_opens_concat(open, inner);
        match self.lists@[cur].parent {
            Some(p) => {
                lemma_opens_concat(self.open_text(p as int), open + inner);
                assert(self.open_text(cur) == self.open_text(p as int) + (open + inner));
            },
            None => {
                assert(self.open_text(cur) == open + inner);
            },
        }
    }

    /// Opening a list keeps the numbering.
    proof fn lemma_counting_open(&self, later: &Arena<'a>, cur: usize)
        requires
            self.chained(cur as int),
            self.counting(cur as int),
            later.lists@.len() == self.lists@.len() + 1,
            forall|j: int| 0 <= j < self.lists@.len() ==> (#[trigger] later.lists@[j])
                == self.lists@[j],
            later.lists@[self.lists@.len() as int].items@.len() == 0,
            !later.lists@[self.lists@.len() as int].closed,
            later.lists@[self.lists@.len() as int].parent == Some(cur),
            later.open_text(self.lists@.len() as int) == self.open_text(cur as int).push(Shape::Open),
        ensures
            later.counting(self.lists@.len() as int),
    {
        let cur = cur as int;
        let child = self.lists@.len() as int;
        assert(self.extended_by(later));
        assert(self.keeps_members(later));
        self.lemma_frame_numbered(later);
        assert(self.same_upto(later, cur));
        assert(self.parent_ok(cur));
        match self.lists@[cur].parent {
            Some(p) => {
                assert(self.same_upto(later, p as int));
            },
            None => {},
        }
        self.lemma_frame_numbering(later, cur);
        self.lemma_frame_open_text(later, cur);
        lemma_opens_push(self.open_text(cur), Shape::Open);
        assert(later.chain_numbered(child));
        assert(later.numbered()) by {
            assert forall|j: int|
                0 <= j < later.lists@.len() && later.lists@[j].closed implies #[trigger] later.held(
                j,
            ) by {
                if j == child {
                    assert(self.on_chain(cur, cur));
                    assert(later.lists@[cur].items@.len() == self.lists@[cur].items@.len());
                }
            }
        }
    }

    /// Appending an item keeps the numbering.
    proof fn lemma_counting_push(&self, later: &Arena<'a>, cur: usize, shape: Shape)
        requires
            self.chained(cur as int),
            self.counting(cur as int),
            !(shape is Open),
            later.lists@.len() == self.lists@.len(),
            forall|j: int| 0 <= j < self.lists@.len() && j != cur as int ==> (#[trigger] later.lists@[j])
                == self.lists@[j],
            later.lists@[cur as int].parent == self.lists@[cur as int].parent,
            later.lists@[cur as int].closed == self.lists@[cur as int].closed,
            later.lists@[cur as int].items@.len() == self.lists@[cur as int].items@.len() + 1,
            forall|i: int| 0 <= i < self.lists@[cur as int].items@.len() ==> later.lists@[cur as int].items@[i]
                == self.lists@[cur as int].items@[i],
            later.lists@[cur as int].items@[self.lists@[cur as int].items@.len() as int] is Item,
            later.open_text(cur as int) == self.open_text(cur as int).push(shape),
        ensures
            later.counting(cur as int),
    {
        let cur = cur as int;
        assert(self.on_chain(cur, cur));
        assert(self.extended_by(later));
        assert(self.keeps_members(later));
        self.lemma_frame_numbered(later);
        assert(self.parent_ok(cur));
        match self.lists@[cur].parent {
            Some(p) => {
                assert(self.same_upto(later, p as int));
            },
            None => {},
        }
        self.lemma_frame_numbering(later, cur);
        lemma_opens_push(self.open_text(cur), shape);
        assert(later.numbered()) by {
            assert forall|j: int, k: int|
                0 <= j < later.lists@.len() && 0 <= k
                    < later.lists@[j].items@.len() implies #[trigger] later.numbered_entry(
                j,
                k,
            ) by {
                if !(j == cur && k == self.lists@[cur].items@.len()) {
                    assert(later.lists@[j].items@.len() == self.lists@[j].items@.len() || j == cur);
                }
            }
        }
    }

    /// Closing a list and attaching it to its parent keeps the numbering.
    proof fn lemma_counting_close(&self, later: &Arena<'a>, cur: usize, p: usize)
        requires
            self.chained(cur as int),
            self.counting(cur as int),
            p < cur,
            self.lists@[cur as int].parent == Some(p),
            later.linked(),
            later.lists@.len() == self.lists@.len(),
            forall|j: int|
                0 <= j < self.lists@.len() && j != cur as int && j != p as int ==> (#[trigger] later.lists@[j])
                    == self.lists@[j],
            later.lists@[cur as int].parent == self.lists@[cur as int].parent,
            later.lists@[cur as int].closed,
            later.lists@[cur as int].items@ == self.lists@[cur as int].items@,
            later.lists@[p as int].parent == self.lists@[p as int].parent,
            later.lists@[p as int].closed == self.lists@[p as int].closed,
            later.lists@[p as int].items@ == self.lists@[p as int].items@.push(SexprType::List(cur)),
            later.open_text(p as int) == self.open_text(cur as int).push(Shape::Close),
        ensures
            later.counting(p as int),
    {
        let cur = cur as int;
        let p = p as int;
        let n = self.lists@[p].items@.len() as int;
        assert(self.on_chain(cur, cur));
        assert(self.parent_ok(cur));
        assert(self.on_chain(p, p));
        assert(self.on_chain(cur, p));
        assert(!self.lists@[p].closed);
        assert(self.extended_by(later));
        assert(self.keeps_members(later));
        self.lemma_frame_numbered(later);
        assert(self.parent_ok(p));
        match self.lists@[p].parent {
            Some(pp) => {
                assert(self.same_upto(later, pp as int));
            },
            None => {},
        }
        self.lemma_frame_numbering(later, p);
        self.lemma_text_count(p);
        self.lemma_frame_items(later, p, n);
        lemma_opens_push(self.open_text(cur), Shape::Close);
        assert(later.numbered_entry(p, n));
        assert(later.held(cur)) by {
            assert(later.lists@[p].items@[n] == SexprType::<'a>::List((cur as usize)));
        }
        assert(later.numbered()) by {
            assert forall|j: int, k: int|
                0 <= j < later.lists@.len() && 0 <= k
                    < later.lists@[j].items@.len() implies #[trigger] later.numbered_entry(
                j,
                k,
            ) by {
                if !(j == p && k == n) {
                    assert(later.lists@[j].items@.len() == self.lists@[j].items@.len() || j == p);
                }
            }
        }
    }

    /// Closing the root keeps the numbering, and there are as many lists as
    /// the tree has opening parentheses.
    proof fn lemma_counting_seal(&self, later: &Arena<'a>)
        requires
            self.chained(0),
            self.counting(0),
            self.lists@[0].parent is None,
            later.lists@.len() == self.lists@.len(),
            forall|j: int| 0 < j < self.lists@.len() ==> (#[trigger] later.lists@[j])
                == self.lists@[j],
            later.lists@[0].parent == self.lists@[0].parent,
            later.lists@[0].items@ == self.lists@[0].items@,
            flatten(later.tree(0)) == self.open_text(0).push(Shape::Close),
        ensures
            later.numbered(),
            later.lists@.len() == opens(flatten(later.tree(0))),
    {
        assert(self.on_chain(0, 0));
        assert(self.extended_by(later));
        assert(self.keeps_members(later));
        self.lemma_frame_numbered(later);
        lemma_opens_push(self.open_text(0), Shape::Close);
        assert(later.held(0));
    }

    /// In the middle of a parse the form is not yet closed: what has been
    /// read so far is not empty, and every non-empty prefix of it is inside an
    /// open list.
    pub proof fn lemma_open_text_stays_open(&self, cur: int)
        requires
            self.parsing(cur),
        ensures
            self.open_text(cur).len() > 0,
            stays_open(self.open_text(cur)),
    {
        self.lemma_open_text_chain(cur);
    }

    /// What is recorded in a list and its ancestors stays open.
    proof fn lemma_open_text_chain(&self, cur: int)
        requires
            self.linked(),
            0 <= cur < self.lists@.len(),
        ensures
            self.open_text(cur).len() > 0,
            stays_open(self.open_text(cur)),
        decreases cur,
    {
        let open = seq![Shape::Open];
        let inner = flatten_all(self.item_trees(cur, self.fanout(cur)));
        lemma_flatten_all_balanced(self.item_trees(cur, self.fanout(cur)));
        assert(never_negative(open)) by {
            assert forall|m: int| 0 <= m <= open.len() implies super::shape::depth(
                #[trigger] open.take(m),
            ) >= 0 by {
                if m == 1 {
                    assert(open.take(1) =~= open);
                    assert(open.drop_last() =~= Seq::<Shape>::empty());
                    assert(super::shape::depth(Seq::<Shape>::empty()) == 0);
                }
            }
        }
        assert(stays_open(open)) by {
            assert forall|m: int| 0 < m <= open.len() implies super::shape::depth(
                #[trigger] open.take(m),
            ) > 0 by {
                assert(open.take(1) =~= open);
            }
        }
        let parent_text = match self.lists@[cur].parent {
            Some(p) => if p < cur {
                self.open_text(p as int)
            } else {
                Seq::empty()
            },
            None => Seq::empty(),
        };
        if parent_text.len() > 0 {
            let p = self.lists@[cur].parent->0;
            self.lemma_open_text_chain(p as int);
            lemma_stays_open_concat(parent_text, open);
            lemma_stays_open_concat(parent_text + open, inner);
            assert(self.open_text(cur) =~= parent_text + open + inner);
        } else {
            lemma_stays_open_concat(open, inner);
        }
    }

    /// A finished arena holds a list at 0, and its tree is written as one
    /// complete form.
    pub proof fn lemma_complete_is_form(&self)
        requires
            self.complete(),
        ensures
            self.store().len() > 0,
            self.tree(0) is Node,
            is_form(flatten(self.tree(0))),
    {
        lemma_flatten_balanced(self.tree(0));
    }
}

impl<'a> Arena<'a> {
    /// Every list of `earlier` is still there under its identity, names the
    /// same parent, and has the members it had, in their places, in front of
    /// any new ones.
    pub open spec fn grown_from(&self, earlier: &Arena<'a>) -> bool {
        &&& earlier.store().len() <= self.store().len()
        &&& forall|j: int|
            0 <= j < earlier.store().len() ==> (#[trigger] self.store()[j]).parent_id()
                == earlier.store()[j].parent_id() && earlier.store()[j].entries().len()
                <= self.store()[j].entries().len() && self.store()[j].entries().take(
                earlier.store()[j].entries().len() as int,
            ) == earlier.store()[j].entries()
    }

    /// Whether list `p` has the list `j` among its members.
    pub open spec fn holds(&self, p: int, j: int) -> bool {
        exists|k: int|
            0 <= k < self.store()[p].entries().len() && #[trigger] self.store()[p].entries()[k]
                == SexprType::<'a>::List(j as usize)
    }

    /// Growing is transitive.
    pub proof fn lemma_grown_trans(&self, middle: &Arena<'a>, earlier: &Arena<'a>)
        requires
            middle.grown_from(earlier),
            self.grown_from(middle),
        ensures
            self.grown_from(earlier),
    {
        assert forall|j: int| 0 <= j < earlier.store().len() implies (
        #[trigger] self.store()[j]).parent_id() == earlier.store()[j].parent_id()
            && earlier.store()[j].entries().len() <= self.store()[j].entries().len()
            && self.store()[j].entries().take(earlier.store()[j].entries().len() as int)
            == earlier.store()[j].entries() by {
            let a = earlier.store()[j].entries();
            let b = middle.store()[j].entries();
            let c = self.store()[j].entries();
            assert(middle.store()[j].parent_id() == earlier.store()[j].parent_id());
            assert(b.take(a.len() as int) == a);
            assert(c.take(b.len() as int) == b);
            assert(c.take(a.len() as int) =~= c.take(b.len() as int).take(a.len() as int));
        }
    }

    /// The trees of the first `k` members of a list are the first `k` of the
    /// trees of its first `n` members.
    proof fn lemma_item_trees_take(&self, id: int, k: int, n: int)
        requires
            0 <= k <= n <= self.fanout(id),
        ensures
            self.item_trees(id, n).len() == n,
            self.item_trees(id, k) == self.item_trees(id, n).take(k),
        decreases n - k,
    {
        self.lemma_item_trees_len(id, n);
        self.lemma_item_trees_len(id, k);
        if k < n {
            self.lemma_item_trees_take(id, k, n - 1);
            self.lemma_item_trees_len(id, n - 1);
            assert(self.item_trees(id, n).take(k) =~= self.item_trees(id, n - 1).take(k));
        } else {
            assert(self.item_trees(id, n).take(k) =~= self.item_trees(id, n));
        }
    }

    /// A list has as many member trees as members counted.
    proof fn lemma_item_trees_len(&self, id: int, k: int)
        requires
            0 <= k <= self.fanout(id),
        ensures
            self.item_trees(id, k).len() == k,
        decreases k,
    {
        if k > 0 {
            self.lemma_item_trees_len(id, k - 1);
        }
    }

    /// The members of a list up to and including a nested list hold more
    /// lists than the members before it.
    proof fn lemma_opens_grow(&self, id: int, k1: int, k2: int)
        requires
            self.linked(),
            0 <= id < self.lists@.len(),
            0 <= k1 < k2 <= self.fanout(id),
            self.lists@[id].items@[k1] is List,
        ensures
            opens(flatten_all(self.item_trees(id, k1))) < opens(
                flatten_all(self.item_trees(id, k2)),
            ),
        decreases k2 - k1,
    {
        let before = self.item_trees(id, k2 - 1);
        let last = self.item_trees(id, k2).last();
        assert(self.item_trees(id, k2) == before.push(last));
        lemma_opens_trees_push(before, last);
        if k2 - 1 > k1 {
            self.lemma_opens_grow(id, k1, k2 - 1);
        } else {
            assert(self.entry_ok(id, k1));
            let child = self.lists@[id].items@[k1]->List_0 as int;
            lemma_opens_node(self.item_trees(child, self.fanout(child)));
            assert(last == self.tree(child));
            assert(self.tree(child) == Tree::Node(self.item_trees(child, self.fanout(child))));
        }
    }

    /// How a finished arena is built.
    ///
    /// It has as many lists as its tree has opening parentheses. List 0 is
    /// the root and names no parent; every other list names an earlier list
    /// as its parent and is a member of it. Every list is closed. An item
    /// names the list it is a member of. A nested list comes later in the
    /// arena than the list it is a member of, names that list as its parent,
    /// and has the identity that the order of the opening parentheses gives
    /// it: that of the list, plus one for each list that the members before it
    /// hold, plus one. No list is a member at two places.
    pub proof fn lemma_structure(&self)
        requires
            self.complete(),
        ensures
            self.store().len() > 0,
            self.store().len() == opens(flatten(self.tree(0))),
            self.store()[0].parent_id() is None,
            forall|j: int| 0 <= j < self.store().len() ==> (#[trigger] self.store()[j]).sealed(),
            forall|j: int|
                0 < j < self.store().len() ==> (#[trigger] self.store()[j]).parent_id() is Some
                    && self.store()[j].parent_id()->0 < j && self.holds(
                    self.store()[j].parent_id()->0 as int,
                    j,
                ),
            forall|j: int, k: int|
                0 <= j < self.store().len() && 0 <= k < self.store()[j].entries().len()
                    ==> match #[trigger] self.store()[j].entries()[k] {
                    SexprType::Item(item) => item.owner() == j,
                    SexprType::List(child) => j < child < self.store().len()
                        && self.store()[child as int].parent_id() == Some(j as usize) && child == j
                        + 1 + opens(flatten_all(self.tree(j)->Node_0.take(k))),
                },
            forall|j: int, k1: int, k2: int|
                0 <= j < self.store().len() && 0 <= k1 < k2 < self.store()[j].entries().len()
                    && self.store()[j].entries()[k1] is List ==> #[trigger] self.store()[j].entries()[k1]
                    != #[trigger] self.store()[j].entries()[k2],
    {
        assert(self.parent_ok(0));
        assert forall|j: int| 0 < j < self.store().len() implies (
        #[trigger] self.store()[j]).parent_id() is Some && self.store()[j].parent_id()->0 < j
            && self.holds(self.store()[j].parent_id()->0 as int, j) by {
            assert(self.parent_ok(j));
            assert(self.held(j));
        }
        assert forall|j: int, k: int|
            0 <= j < self.store().len() && 0 <= k
                < self.store()[j].entries().len() implies match #[trigger] self.store()[j].entries()[k] {
            SexprType::Item(item) => item.owner() == j,
            SexprType::List(child) => j < child < self.store().len()
                && self.store()[child as int].parent_id() == Some(j as usize) && child == j + 1
                + opens(flatten_all(self.tree(j)->Node_0.take(k))),
        } by {
            assert(self.entry_ok(j, k));
            assert(self.numbered_entry(j, k));
            self.lemma_item_trees_take(j, k, self.fanout(j));
        }
        assert forall|j: int, k1: int, k2: int|
            0 <= j < self.store().len() && 0 <= k1 < k2 < self.store()[j].entries().len()
                && self.store()[j].entries()[k1] is List implies #[trigger] self.store()[j].entries()[k1]
            != #[trigger] self.store()[j].entries()[k2] by {
            assert(self.numbered_entry(j, k1));
            assert(self.numbered_entry(j, k2));
            self.lemma_opens_grow(j, k1, k2);
        }
    }

    /// Starts a parse: an arena whose only list is an open root.
    pub fn begin() -> (arena: Self)
        ensures
            arena.parsing(0),
            arena.open_text(0) == seq![Shape::Open],
    {
        let mut arena = Arena::new();
        arena.lists.push(List::root());
        proof {
            assert(arena.chained(0));
            assert(arena.open_text(0) == seq![Shape::Open]);
            lemma_opens_push(Seq::empty(), Shape::Open);
            assert(arena.chain_numbered(0));
            assert(arena.numbered());
        }
        arena
    }

    /// Reads an opening parenthesis: allocates a new open list with parent
    /// `cur` and returns its identity, which is the list to fill from now on.
    pub fn open_list(&mut self, cur: ListPtr) -> (child: ListPtr)
        requires
            old(self).parsing(cur as int),
        ensures
            final(self).parsing(child as int),
            final(self).open_text(child as int) == old(self).open_text(cur as int).push(
                Shape::Open,
            ),
            final(self).store().len() == old(self).store().len() + 1,
            child == old(self).store().len(),
            final(self).store()[child as int].parent_id() == Some(cur),
            final(self).grown_from(old(self)),
    {
        let ghost before = *self;
        self.lists.push(List::new(cur));
        let child = self.lists.len() - 1;
        proof {
            let after = *self;
            assert(after.linked()) by {
                assert forall|j: int, k: int|
                    0 <= j < after.lists@.len() && 0 <= k < after.lists@[j].items@.len() implies #[trigger] after.entry_ok(
                    j,
                    k,
                ) by {
                    assert(before.entry_ok(j, k));
                }
                assert forall|j: int| 0 <= j < after.lists@.len() implies #[trigger] after.parent_ok(
                    j,
                ) by {
                    if j < before.lists@.len() {
                        assert(before.parent_ok(j));
                    }
                }
            }
            assert forall|j: int| 0 <= j < after.lists@.len() implies (!(
            #[trigger] after.lists@[j]).closed <==> after.on_chain(child as int, j)) by {
                before.lemma_frame_chain(&after, cur as int, j);
            }
            before.lemma_frame_open_text(&after, cur as int);
            assert(after.chained(child as int));
            assert(after.open_text(child as int) == before.open_text(cur as int).push(Shape::Open));
            before.lemma_counting_open(&after, cur);
            assert(after.grown_from(&before)) by {
                assert forall|j: int| 0 <= j < before.lists@.len() implies after.lists@[j].items@.take(
                    before.lists@[j].items@.len() as int,
                ) == before.lists@[j].items@ by {
                    assert(after.lists@[j].items@.take(before.lists@[j].items@.len() as int)
                        =~= before.lists@[j].items@);
                }
            }
        }
        child
    }

    /// Reads a lexeme: appends it as an item to `cur`.
    pub fn push_lexeme(&mut self, cur: ListPtr, lexeme: Lexeme<'a>)
        requires
            old(self).parsing(cur as int),
        ensures
            final(self).parsing(cur as int),
            final(self).open_text(cur as int) == old(self).open_text(cur as int).push(
                Shape::Leaf(lexeme@),
            ),
            final(self).store().len() == old(self).store().len(),
            final(self).grown_from(old(self)),
    {
        let ghost before = *self;
        self.lists[cur].items.push(SexprType::Item(Item::new(lexeme, cur)));
        proof {
            let after = *self;
            let n = before.fanout(cur as int);
            assert(after.linked()) by {
                assert forall|j: int, k: int|
                    0 <= j < after.lists@.len() && 0 <= k < after.lists@[j].items@.len() implies #[trigger] after.entry_ok(
                    j,
                    k,
                ) by {
                    if !(j == cur && k == n) {
                        assert(before.entry_ok(j, k));
                    }
                }
                assert forall|j: int| 0 <= j < after.lists@.len() implies #[trigger] after.parent_ok(
                    j,
                ) by {
                    assert(before.parent_ok(j));
                }
            }
            assert forall|j: int| 0 <= j < after.lists@.len() implies (!(
            #[trigger] after.lists@[j]).closed <==> after.on_chain(cur as int, j)) by {
                before.lemma_frame_chain(&after, cur as int, j);
            }
            before.lemma_frame_items(&after, cur as int, n);
            lemma_flatten_all_push(before.item_trees(cur as int, n), Tree::Leaf(lexeme@));
            assert(before.parent_ok(cur as int));
            match before.lists@[cur as int].parent {
                Some(p) => {
                    before.lemma_frame_open_text(&after, p as int);
                },
                None => {},
            }
            assert(after.chained(cur as int));
            assert(after.open_text(cur as int) == before.open_text(cur as int).push(
                Shape::Leaf(lexeme@),
            ));
            before.lemma_counting_push(&after, cur, Shape::Leaf(lexeme@));
            assert(after.grown_from(&before)) by {
                assert forall|j: int| 0 <= j < before.lists@.len() implies after.lists@[j].items@.take(
                    before.lists@[j].items@.len() as int,
                ) == before.lists@[j].items@ by {
                    assert(after.lists@[j].items@.take(before.lists@[j].items@.len() as int)
                        =~= before.lists@[j].items@);
                }
            }
        }
    }

    /// Reads a closing parenthesis: closes `cur` and attaches it to its
    /// parent, which is the list to fill from now on. Without a parent, `cur`
    /// was the root and the tree is finished.
    pub fn close_list(&mut self, cur: ListPtr) -> (parent: Option<ListPtr>)
        requires
            old(self).parsing(cur as int),
        ensures
            final(self).store().len() == old(self).store().len(),
            final(self).grown_from(old(self)),
            parent == old(self).store()[cur as int].parent_id(),
            match parent {
                Some(p) => final(self).parsing(p as int) && final(self).open_text(p as int) == old(
                    self,
                ).open_text(cur as int).push(Shape::Close),
                None => cur == 0 && final(self).complete() && flatten(final(self).tree(0)) == old(
                    self,
                ).open_text(cur as int).push(Shape::Close),
            },
    {
        let ghost before = *self;
        proof {
            assert(before.parent_ok(cur as int));
        }
        self.lists[cur].closed = true;
        let parent = self.lists[cur].parent;
        match parent {
            Some(p) => {
                proof {
                    assert(before.on_chain(p as int, p as int));
                }
                self.lists[p].items.push(SexprType::List(cur));
                proof {
                    let after = *self;
                    let n = before.fanout(p as int);
                    let m = before.fanout(cur as int);
                    assert(after.linked()) by {
                        assert forall|j: int, k: int|
                            0 <= j < after.lists@.len() && 0 <= k
                                < after.lists@[j].items@.len() implies #[trigger] after.entry_ok(
                            j,
                            k,
                        ) by {
                            if !(j == p && k == n) {
                                assert(before.entry_ok(j, k));
                            }
                        }
                        assert forall|j: int|
                            0 <= j < after.lists@.len() implies #[trigger] after.parent_ok(j) by {
                            assert(before.parent_ok(j));
                        }
                    }
                    assert forall|j: int| 0 <= j < after.lists@.len() implies (!(
                    #[trigger] after.lists@[j]).closed <==> after.on_chain(p as int, j)) by {
                        before.lemma_frame_chain(&after, p as int, j);
                        before.lemma_chain_bound(p as int, j);
                    }
                    before.lemma_frame_items(&after, p as int, n);
                    before.lemma_frame_items(&after, cur as int, m);
                    lemma_flatten_all_push(before.item_trees(p as int, n), after.tree(cur as int));
                    assert(before.parent_ok(p as int));
                    match before.lists@[p as int].parent {
                        Some(pp) => {
                            before.lemma_frame_open_text(&after, pp as int);
                        },
                        None => {},
                    }
                    let items_c = before.item_trees(cur as int, m);
                    assert(before.open_text(cur as int) == before.open_text(p as int) + (
                    seq![Shape::Open] + flatten_all(items_c)));
                    assert(after.chained(p as int));
                    assert(after.open_text(p as int) == before.open_text(cur as int).push(
                        Shape::Close,
                    ));
                    before.lemma_counting_close(&after, cur, p);
                }
            },
            None => {
                proof {
                    let after = *self;
                    let m = before.fanout(cur as int);
                    assert(after.linked()) by {
                        assert forall|j: int, k: int|
                            0 <= j < after.lists@.len() && 0 <= k
                                < after.lists@[j].items@.len() implies #[trigger] after.entry_ok(
                            j,
                            k,
                        ) by {
                            assert(before.entry_ok(j, k));
                        }
                        assert forall|j: int|
                            0 <= j < after.lists@.len() implies #[trigger] after.parent_ok(j) by {
                            assert(before.parent_ok(j));
                        }
                    }
                    before.lemma_frame_items(&after, cur as int, m);
                    assert(after.sealed());
                    assert(flatten(after.tree(0)) == before.open_text(cur as int).push(
                        Shape::Close,
                    ));
                    before.lemma_counting_seal(&after);
                }
            },
        }
        proof {
            let after = *self;
            assert(after.grown_from(&before)) by {
                assert forall|j: int| 0 <= j < before.lists@.len() implies after.lists@[j].items@.take(
                    before.lists@[j].items@.len() as int,
                ) == before.lists@[j].items@ by {
                    assert(after.lists@[j].items@.take(before.lists@[j].items@.len() as int)
                        =~= before.lists@[j].items@);
                }
            }
        }
        parent
    }

    /// Only `cur` and earlier lists are on the chain of `cur`.
    proof fn lemma_chain_bound(&self, cur: int, j: int)
        ensures
            self.on_chain(cur, j) ==> 0 <= j <= cur,
        decreases cur,
    {
        if 0 <= cur < self.lists@.len() {
            match self.lists@[cur].parent {
                Some(p) => {
                    if p < cur {
                        self.lemma_chain_bound(p as int, j);
                    }
                },
                None => {},
            }
        }
    }
}


/// Why a zipper could not be made from a token stream.
#[derive(Debug)]
pub enum ZipperError<'a> {
    TokenizerError(TokenizerError<'a>),
    UnexpectedEOF,
    UnexpectedR(usize),
    UnexpectedLexeme(Lexeme<'a>),
}

impl<'a> View for ZipperError<'a> {
    type V = ParseFailure;

    open spec fn view(&self) -> ParseFailure {
        match *self {
            ZipperError::TokenizerError(error) => ParseFailure::Tokenizer(error@),
            ZipperError::UnexpectedEOF => ParseFailure::UnexpectedEOF,
            ZipperError::UnexpectedR(pos) => ParseFailure::UnexpectedR(pos as int),
            ZipperError::UnexpectedLexeme(lexeme) => ParseFailure::UnexpectedLexeme(lexeme@),
        }
    }
}

impl<'a> From<TokenizerError<'a>> for ZipperError<'a> {
    fn from(value: TokenizerError<'a>) -> (error: Self) {
        ZipperError::TokenizerError(value)
    }
}

impl<'a> vstd::std_specs::convert::FromSpecImpl<TokenizerError<'a>> for ZipperError<'a> {
    open spec fn obeys_from_spec() -> bool {
        true
    }

    open spec fn from_spec(value: TokenizerError<'a>) -> Self {
        ZipperError::TokenizerError(value)
    }
}

/// The tokens among the items of a stream, in order.
pub open spec fn tokens_of(items: Seq<Result<TokenView, TokenizerErrorView>>) -> Seq<TokenView>
    decreases items.len(),
{
    if items.len() == 0 {
        Seq::empty()
    } else {
        match items.last() {
            Ok(token) => tokens_of(items.drop_last()).push(token),
            Err(_) => tokens_of(items.drop_last()),
        }
    }
}

/// The errors among the items of a stream, in order.
pub open spec fn errors_of(items: Seq<Result<TokenView, TokenizerErrorView>>) -> Seq<
    TokenizerErrorView,
>
    decreases items.len(),
{
    if items.len() == 0 {
        Seq::empty()
    } else {
        match items.last() {
            Ok(_) => errors_of(items.drop_last()),
            Err(error) => errors_of(items.drop_last()).push(error),
        }
    }
}

/// A stream without errors is the stream of its tokens.
pub proof fn lemma_no_errors(items: Seq<Result<TokenView, TokenizerErrorView>>)
    ensures
        errors_of(items).len() == 0 <==> all_tokens(items),
        all_tokens(items) ==> tokens_of(items).len() == items.len() && forall|i: int|
            0 <= i < items.len() ==> items[i] == Ok::<TokenView, TokenizerErrorView>(
                #[trigger] tokens_of(items)[i],
            ),
    decreases items.len(),
{
    if items.len() > 0 {
        let front = items.drop_last();
        lemma_no_errors(front);
        if errors_of(items).len() == 0 {
            assert forall|i: int| 0 <= i < items.len() implies (#[trigger] items[i]) is Ok by {
                if i < front.len() {
                    assert(front[i] is Ok);
                }
            }
        }
    }
}

/// `tree` is written as a complete form with which `items` starts.
pub open spec fn form_of(items: Seq<Result<TokenView, TokenizerErrorView>>, tree: Tree) -> bool {
    exists|n: int| #[trigger] reads_form(items, n) && flatten(tree) == shapes(items.take(n))
}

/// Reading one form from `items` fails with `failure`.
pub open spec fn failure_of(
    items: Seq<Result<TokenView, TokenizerErrorView>>,
    failure: ParseFailure,
) -> bool {
    exists|n: int| #[trigger] reads_failure(items, n, failure)
}

/// A parse tree under construction or finished, held in its arena.
#[derive(Debug)]
pub struct Zipper<'a> {
    mem: Arena<'a>,
}

/// A finished parse tree, held in its arena.
#[derive(Debug)]
pub struct Sexpr<'a> {
    mem: Arena<'a>,
}

impl<'a> Zipper<'a> {
    /// The arena holds one finished tree.
    pub closed spec fn wf(&self) -> bool {
        self.mem.complete()
    }

    /// The tree this zipper holds.
    pub closed spec fn tree(&self) -> Tree {
        self.mem.tree(0)
    }

    /// The arena this zipper holds.
    pub closed spec fn arena(&self) -> Arena<'a> {
        self.mem
    }

    /// The lists of the tree, by identity; list 0 is the root.
    pub closed spec fn lists(&self) -> Seq<List<'a>> {
        self.mem.lists@
    }

    /// A zipper is in order if its arena is finished; its tree is that of
    /// list 0 of the arena, its lists are those of the arena.
    pub proof fn lemma_arena(&self)
        ensures
            self.wf() == self.arena().complete(),
            self.tree() == self.arena().tree(0),
            self.lists() == self.arena().store(),
    {
    }

    /// Reads `tokens` to its end, keeping tokens and errors apart.
    fn drain(tokens: &mut Tokenized<'a>) -> (parts: (Vec<Token<'a>>, Vec<ZipperError<'a>>))
        requires
            old(tokens).wf(),
        ensures
            final(tokens).wf(),
            final(tokens).source() == old(tokens).source(),
            final(tokens).stream().len() == 0,
            parts.0@.len() == tokens_of(old(tokens).stream()).len(),
            forall|i: int|
                0 <= i < parts.0@.len() ==> (#[trigger] parts.0@[i])@ == tokens_of(
                    old(tokens).stream(),
                )[i],
            parts.1@.len() == errors_of(old(tokens).stream()).len(),
            forall|i: int|
                0 <= i < parts.1@.len() ==> (#[trigger] parts.1@[i])@ == ParseFailure::Tokenizer(
                    errors_of(old(tokens).stream())[i],
                ),
    {
        let ghost items = tokens.stream();
        let ghost mut n: int = 0;
        let mut found: Vec<Token<'a>> = Vec::new();
        let mut errors: Vec<ZipperError<'a>> = Vec::new();
        loop
            invariant
                tokens.wf(),
                tokens.source() == old(tokens).source(),
                0 <= n <= items.len(),
                tokens.stream() == items.skip(n),
                found@.len() == tokens_of(items.take(n)).len(),
                forall|i: int|
                    0 <= i < found@.len() ==> (#[trigger] found@[i])@ == tokens_of(items.take(n))[i],
                errors@.len() == errors_of(items.take(n)).len(),
                forall|i: int|
                    0 <= i < errors@.len() ==> (#[trigger] errors@[i])@ == ParseFailure::Tokenizer(
                        errors_of(items.take(n))[i],
                    ),
            ensures
                tokens.wf(),
                tokens.source() == old(tokens).source(),
                tokens.stream().len() == 0,
                found@.len() == tokens_of(items).len(),
                forall|i: int|
                    0 <= i < found@.len() ==> (#[trigger] found@[i])@ == tokens_of(items)[i],
                errors@.len() == errors_of(items).len(),
                forall|i: int|
                    0 <= i < errors@.len() ==> (#[trigger] errors@[i])@ == ParseFailure::Tokenizer(
                        errors_of(items)[i],
                    ),
            decreases items.len() - n,
        {
            let item = tokens.next();
            proof {
                if n < items.len() {
                    assert(items.take(n + 1).drop_last() =~= items.take(n));
                } else {
                    assert(items.take(n) =~= items);
                }
            }
            match item {
                None => {
                    break ;
                },
                Some(Ok(token)) => {
                    found.push(token);
                },
                Some(Err(error)) => {
                    errors.push(ZipperError::TokenizerError(error));
                },
            }
            proof {
                n = n + 1;
            }
        }
        (found, errors)
    }

    /// Tokenizes all of the input, then parses the first form of it.
    ///
    /// If the tokenizer reports errors, they are returned, each wrapped, and
    /// nothing is parsed. Otherwise the outcome is that of reading one form
    /// from the tokens: `None` if there are none, the zipper of the first
    /// form, or the one failure that ended the reading.
    pub fn new(tokens: &mut Tokenized<'a>) -> (r: Option<Result<Self, Vec<ZipperError<'a>>>>)
        requires
            old(tokens).wf(),
        ensures
            final(tokens).wf(),
            final(tokens).source() == old(tokens).source(),
            final(tokens).stream().len() == 0,
            ({
                let items = old(tokens).stream();
                match r {
                    None => items.len() == 0,
                    Some(Ok(zipper)) => zipper.wf() && all_tokens(items) && form_of(
                        items,
                        zipper.tree(),
                    ),
                    Some(Err(errors)) => if all_tokens(items) {
                        errors@.len() == 1 && failure_of(items, errors@[0]@)
                    } else {
                        errors@.len() == errors_of(items).len() && forall|i: int|
                            0 <= i < errors@.len() ==> (#[trigger] errors@[i])@
                                == ParseFailure::Tokenizer(errors_of(items)[i])
                    },
                }
            }),
    {
        let ghost items = tokens.stream();
        let (found, errors) = Self::drain(tokens);
        proof {
            lemma_no_errors(items);
        }
        if errors.len() == 0 {
            let mut cursor = TokenCursor::new(found);
            proof {
                assert(cursor.remaining() =~= items);
            }
            let root = Self::next_root(&mut cursor);
            match root {
                Some(Ok(zipper)) => {
                    Some(Ok(zipper))
                },
                Some(Err(error)) => {
                    let mut errors: Vec<ZipperError<'a>> = Vec::new();
                    errors.push(error);
                    Some(Err(errors))
                },
                None => None,
            }
        } else {
            Some(Err(errors))
        }
    }

    /// Reads one form from `tokens`.
    ///
    /// The outcome is determined by the items that remain in `tokens`: `None`
    /// if there are none; the zipper of the tree that is written as the first
    /// items, if they are tokens that make up a complete form; else the one
    /// failure that ends the reading. The items read are gone from `tokens`,
    /// the others remain. How the arena of the zipper is built from its tree
    /// is what `lemma_arena` and `Arena::lemma_structure` say: one list for
    /// each opening parenthesis, numbered in their order.
    pub fn next_root<S: TokenSource<'a>>(tokens: &mut S) -> (r: Option<Result<Self, ZipperError<'a>>>)
        requires
            old(tokens).ready(),
        ensures
            final(tokens).ready(),
            ({
                let items = old(tokens).remaining();
                let n = items.len() - final(tokens).remaining().len();
                &&& 0 <= n <= items.len()
                &&& final(tokens).remaining() == items.skip(n)
                &&& match r {
                    None => items.len() == 0,
                    Some(Ok(zipper)) => reads_form(items, n) && zipper.wf() && flatten(
                        zipper.tree(),
                    ) == shapes(items.take(n)),
                    Some(Err(error)) => reads_failure(items, n, error@),
                }
            }),
    {
        let ghost items = tokens.remaining();
        match tokens.pull() {
            Some(Ok(Token::LParen(_))) => {
                let mut arena = Arena::begin();
                let ghost rest = tokens.remaining();
                match Self::next_sexpr(tokens, 0, &mut arena) {
                    Ok(()) => {
                        proof {
                            let m = rest.len() - tokens.remaining().len();
                            lemma_reading_shift(items, m);
                            arena.lemma_complete_is_form();
                        }
                        Some(Ok(Self { mem: arena }))
                    },
                    Err(error) => {
                        proof {
                            let m = rest.len() - tokens.remaining().len();
                            lemma_reading_shift(items, m);
                            if error@ is Tokenizer {
                                lemma_reading_shift(items, m - 1);
                            }
                        }
                        Some(Err(error))
                    },
                }
            },
            Some(Ok(Token::RParen(pos))) => Some(Err(ZipperError::UnexpectedR(pos))),
            Some(Ok(Token::Lexeme(lexeme))) => Some(Err(ZipperError::UnexpectedLexeme(lexeme))),
            Some(Err(error)) => Some(Err(ZipperError::TokenizerError(error))),
            None => None,
        }
    }

    /// Reads the rest of a form whose innermost open list is `cur`, filling
    /// `mem`.
    ///
    /// On an opening parenthesis a new list with parent `cur` is allocated and
    /// becomes the list to fill. On a closing parenthesis the list is closed
    /// and attached to its parent, which becomes the list to fill; without a
    /// parent the form is complete. A lexeme is appended to the list as an
    /// item. Reading stops at the first error of the tokenizer, and fails when
    /// the tokens run out. The lists that were in `mem` stay as they were but
    /// for new members; one list is added for each opening parenthesis read.
    pub fn next_sexpr<S: TokenSource<'a>>(tokens: &mut S, cur: ListPtr, mem: &mut Arena<'a>) -> (r:
        Result<(), ZipperError<'a>>)
        requires
            old(tokens).ready(),
            old(mem).parsing(cur as int),
        ensures
            final(tokens).ready(),
            ({
                let items = old(tokens).remaining();
                let n = items.len() - final(tokens).remaining().len();
                let text = old(mem).open_text(cur as int);
                &&& 0 <= n <= items.len()
                &&& final(tokens).remaining() == items.skip(n)
                &&& final(mem).grown_from(old(mem))
                &&& final(mem).store().len() == old(mem).store().len() + opens(
                    shapes(items.take(n)),
                )
                &&& match r {
                    Ok(()) => n > 0 && all_tokens(items.take(n)) && final(mem).complete()
                        && flatten(final(mem).tree(0)) == text + shapes(items.take(n))
                        && stays_open(text + shapes(items.take(n - 1))),
                    Err(ZipperError::UnexpectedEOF) => n == items.len() && all_tokens(items)
                        && stays_open(text + shapes(items)),
                    Err(ZipperError::TokenizerError(error)) => n > 0 && items[n - 1] == Err::<
                        TokenView,
                        TokenizerErrorView,
                    >(error@) && all_tokens(items.take(n - 1)) && stays_open(
                        text + shapes(items.take(n - 1)),
                    ),
                    Err(_) => false,
                }
            }),
    {
        let ghost items = tokens.remaining();
        let ghost text = mem.open_text(cur as int);
        let ghost start = *mem;
        let ghost mut n: int = 0;
        let mut at = cur;
        proof {
            assert(shapes(items.take(0)) =~= Seq::<Shape>::empty());
            assert(mem.grown_from(&start)) by {
                assert forall|j: int| 0 <= j < start.store().len() implies mem.store()[j].entries().take(
                    start.store()[j].entries().len() as int,
                ) == start.store()[j].entries() by {
                    assert(mem.store()[j].entries().take(start.store()[j].entries().len() as int)
                        =~= start.store()[j].entries());
                }
            }
        }
        loop
            invariant
                items == old(tokens).remaining(),
                text == old(mem).open_text(cur as int),
                start == *old(mem),
                tokens.ready(),
                mem.parsing(at as int),
                0 <= n <= items.len(),
                tokens.remaining() == items.skip(n),
                all_tokens(items.take(n)),
                mem.open_text(at as int) == text + shapes(items.take(n)),
                mem.grown_from(&start),
                mem.store().len() == start.store().len() + opens(shapes(items.take(n))),
            decreases items.len() - n,
        {
            let ghost earlier = *mem;
            let item = tokens.pull();
            proof {
                mem.lemma_open_text_stays_open(at as int);
                if n < items.len() {
                    assert(items.skip(n)[0] == items[n]);
                    assert(shapes(items.take(n + 1)) =~= shapes(items.take(n)).push(
                        shapes(items)[n],
                    ));
                    lemma_opens_push(shapes(items.take(n)), shapes(items)[n]);
                }
            }
            match item {
                None => {
                    proof {
                        assert(items.take(n) == items);
                    }
                    return Err(ZipperError::UnexpectedEOF);
                },
                Some(Err(error)) => {
                    return Err(ZipperError::TokenizerError(error));
                },
                Some(Ok(Token::LParen(_))) => {
                    at = mem.open_list(at);
                    proof {
                        mem.lemma_grown_trans(&earlier, &start);
                    }
                },
                Some(Ok(Token::RParen(_))) => {
                    let parent = mem.close_list(at);
                    proof {
                        mem.lemma_grown_trans(&earlier, &start);
                    }
                    match parent {
                        Some(parent) => {
                            at = parent;
                        },
                        None => {
                            return Ok(());
                        },
                    }
                },
                Some(Ok(Token::Lexeme(lexeme))) => {
                    mem.push_lexeme(at, lexeme);
                    proof {
                        mem.lemma_grown_trans(&earlier, &start);
                    }
                },
            }
            proof {
                n = n + 1;
            }
        }
    }

    /// Gives up the zipper for the finished tree.
    pub fn iter(self) -> (sexpr: Sexpr<'a>)
        requires
            self.wf(),
        ensures
            sexpr.wf(),
            sexpr.tree() == self.tree(),
            sexpr.arena() == self.arena(),
            sexpr.lists() == self.lists(),
    {
        Sexpr { mem: self.mem }
    }
}

/// Relates reading from a stream to reading from the stream behind its first
/// item, which is an opening parenthesis.
pub proof fn lemma_reading_shift(items: Seq<Result<TokenView, TokenizerErrorView>>, m: int)
    requires
        items.len() > 0,
        items[0] is Ok,
        0 <= m < items.len(),
    ensures
        items.skip(1).skip(m) == items.skip(m + 1),
        items.take(m + 1) == seq![items[0]] + items.skip(1).take(m),
        shapes(items.take(m + 1)) == seq![shapes(items)[0]] + shapes(items.skip(1).take(m)),
        all_tokens(items.skip(1).take(m)) ==> all_tokens(items.take(m + 1)),
        m + 1 == items.len() ==> items.take(m + 1) == items && items.skip(1).take(m) == items.skip(
            1,
        ),
        items.skip(1).len() == items.len() - 1,
        m > 0 ==> items.skip(1)[m - 1] == items[m],
        shapes(items.take(m + 1)).len() == m + 1,
        shapes(items.take(m + 1))[0] == shapes(items)[0],
        m > 0 ==> shapes(items.take(m + 1)).drop_last() == shapes(items.take(m)),
{
    if all_tokens(items.skip(1).take(m)) {
        assert forall|i: int| 0 <= i < m + 1 implies (#[trigger] items.take(m + 1)[i]) is Ok by {
            if i > 0 {
                assert(items.skip(1).take(m)[i - 1] is Ok);
            }
        }
    }
}

impl<'a> Arena<'a> {
    /// The trees of the first `k` members of a list, one by one.
    proof fn lemma_item_trees(&self, id: int, k: int)
        requires
            self.linked(),
            0 <= id < self.lists@.len(),
            0 <= k <= self.fanout(id),
        ensures
            self.item_trees(id, k).len() == k,
            forall|i: int|
                0 <= i < k ==> match #[trigger] self.lists@[id].items@[i] {
                    SexprType::Item(item) => self.item_trees(id, k)[i] == Tree::Leaf(item.data@),
                    SexprType::List(child) => id < child < self.lists@.len() && self.item_trees(
                        id,
                        k,
                    )[i] == self.tree(child as int),
                },
        decreases k,
    {
        if k > 0 {
            self.lemma_item_trees(id, k - 1);
            assert(self.entry_ok(id, k - 1));
        }
    }

    /// The leaves of the first members of a list are among the leaves of all
    /// its members.
    proof fn lemma_leaves_grow(&self, id: int, k: int, n: int)
        requires
            0 <= k <= n <= self.fanout(id),
        ensures
            leaf_count_all(self.item_trees(id, k)) <= leaf_count_all(self.item_trees(id, n)),
        decreases n - k,
    {
        if k < n {
            self.lemma_leaves_grow(id, k, n - 1);
            let before = self.item_trees(id, n - 1);
            let last = self.item_trees(id, n).last();
            lemma_flatten_all_push(before, last);
        }
    }

    /// The number of lexemes in list `id` and everything below it, unless
    /// that number does not fit in a `usize`.
    pub fn count_leaves(&self, id: ListPtr) -> (count: Option<usize>)
        requires
            self.complete(),
            id < self.store().len(),
        ensures
            count == if leaf_count(self.tree(id as int)) <= usize::MAX {
                Some(leaf_count(self.tree(id as int)) as usize)
            } else {
                None
            },
        decreases self.store().len() - id,
    {
        let list = &self.lists[id];
        let ghost fanout = self.fanout(id as int);
        let mut total: usize = 0;
        let mut k: usize = 0;
        while k < list.items.len()
            invariant
                self.complete(),
                id < self.lists@.len(),
                *list == self.lists@[id as int],
                fanout == self.fanout(id as int),
                k <= fanout,
                total == leaf_count_all(self.item_trees(id as int, k as int)),
            decreases fanout - k,
        {
            proof {
                assert(self.entry_ok(id as int, k as int));
                self.lemma_leaves_grow(id as int, k as int + 1, fanout);
                let before = self.item_trees(id as int, k as int);
                let last = self.item_trees(id as int, k as int + 1).last();
                lemma_flatten_all_push(before, last);
            }
            let more = match &list.items[k] {
                SexprType::Item(_) => Some(1usize),
                SexprType::List(child) => self.count_leaves(*child),
            };
            let sum = match more {
                Some(m) => total.checked_add(m),
                None => None,
            };
            match sum {
                Some(t) => {
                    total = t;
                },
                None => {
                    return None;
                },
            }
            k = k + 1;
        }
        Some(total)
    }
}

impl<'a> Sexpr<'a> {
    /// The arena holds one finished tree.
    pub closed spec fn wf(&self) -> bool {
        self.mem.complete()
    }

    /// The tree this value holds.
    pub closed spec fn tree(&self) -> Tree {
        self.mem.tree(0)
    }

    /// The lists of the tree, by identity; list 0 is the root.
    pub closed spec fn lists(&self) -> Seq<List<'a>> {
        self.mem.lists@
    }

    /// The tree that list `id` and everything below it stand for.
    pub closed spec fn subtree(&self, id: int) -> Tree {
        self.mem.tree(id)
    }

    /// The arena that holds the tree.
    pub closed spec fn arena(&self) -> Arena<'a> {
        self.mem
    }

    /// A tree is in order if its arena is finished; the tree, its lists and
    /// the trees of its lists are those of the arena.
    pub proof fn lemma_arena(&self)
        ensures
            self.wf() == self.arena().complete(),
            self.tree() == self.arena().tree(0),
            self.lists() == self.arena().store(),
            forall|id: int| self.subtree(id) == #[trigger] self.arena().tree(id),
    {
    }

    /// A finished tree has a root.
    pub proof fn lemma_has_root(&self)
        requires
            self.wf(),
        ensures
            self.lists().len() > 0,
    {
    }

    /// The tree of a list is a node with one child for each member, in
    /// order: a leaf with the lexeme for an item, and the tree of the nested
    /// list, which comes later in the arena, for a list. The tree of the whole
    /// is the tree of list 0.
    pub proof fn lemma_subtree(&self, id: int)
        requires
            self.wf(),
            0 <= id < self.lists().len(),
        ensures
            self.tree() == self.subtree(0),
            self.subtree(id) is Node,
            self.subtree(id)->Node_0.len() == self.lists()[id].entries().len(),
            forall|k: int|
                0 <= k < self.lists()[id].entries().len() ==> match #[trigger] self.lists()[id].entries()[k] {
                    SexprType::Item(item) => self.subtree(id)->Node_0[k] == Tree::Leaf(
                        item.lexeme(),
                    ),
                    SexprType::List(child) => id < child < self.lists().len() && self.subtree(
                        id,
                    )->Node_0[k] == self.subtree(child as int) && self.subtree(child as int) is Node,
                },
    {
        self.mem.lemma_item_trees(id, self.mem.fanout(id));
    }

    /// Takes a finished arena as a tree.
    pub fn from_arena(mem: Arena<'a>) -> (sexpr: Self)
        requires
            mem.complete(),
        ensures
            sexpr.wf(),
            sexpr.tree() == mem.tree(0),
            sexpr.lists() == mem.store(),
            sexpr.arena() == mem,
    {
        Sexpr { mem }
    }

    /// A cursor in front of the first list.
    pub fn traverse_ref(&'a self) -> (cursor: InorderTraverseRef<'a>)
        ensures
            cursor.position() == 0,
            cursor.lists() == self.lists(),
    {
        InorderTraverseRef { next: (0, 0), cur_node: None, mem_ref: &self.mem }
    }

    /// The number of lists in the tree.
    pub fn len(&self) -> (n: usize)
        ensures
            n == self.lists().len(),
    {
        self.mem.len()
    }

    /// The list with identity `id`, if there is one.
    pub fn get(&self, id: ListPtr) -> (list: Option<&List<'a>>)
        ensures
            list is Some <==> id < self.lists().len(),
            list matches Some(l) ==> *l == self.lists()[id as int],
    {
        self.mem.get(id)
    }

    /// The number of lexemes in the tree, unless it does not fit in a `usize`.
    pub fn leaf_count(&self) -> (count: Option<usize>)
        requires
            self.wf(),
        ensures
            count == if leaf_count(self.tree()) <= usize::MAX {
                Some(leaf_count(self.tree()) as usize)
            } else {
                None
            },
    {
        self.mem.count_leaves(0)
    }
}

/// The trees of a run of parsed forms.
pub open spec fn trees_of(forms: Seq<Sexpr>) -> Seq<Tree> {
    Seq::new(forms.len(), |i: int| forms[i].tree())
}

/// A tree has as many leaves as the tokens it was read from have lexemes.
pub proof fn lemma_leaves_are_lexemes(tree: Tree, consumed: Seq<Shape>)
    requires
        flatten(tree) == consumed,
    ensures
        leaf_count(tree) == lexeme_count(consumed),
{
    lemma_leaf_count(tree);
}

/// A cursor that walks the lists of a tree in the order of their identities,
/// which is the order in which their opening parentheses were read.
pub struct InorderTraverseRef<'a> {
    next: (ListPtr, usize),
    cur_node: Option<&'a List<'a>>,
    mem_ref: &'a Arena<'a>,
}

impl<'a> InorderTraverseRef<'a> {
    /// The identity of the list that the next step yields.
    pub closed spec fn position(&self) -> int {
        self.next.0 as int
    }

    /// The lists that are walked.
    pub closed spec fn lists(&self) -> Seq<List<'a>> {
        self.mem_ref.lists@
    }
}

/// Something that can be walked one step at a time.
pub trait Traverser {
    type Item;

    fn step(&mut self) -> Option<Self::Item>;
}

impl<'a> Traverser for InorderTraverseRef<'a> {
    type Item = &'a List<'a>;

    /// Yields the list at the cursor and moves on, or `None` behind the last
    /// list.
    fn step(&mut self) -> (list: Option<&'a List<'a>>)
        ensures
            final(self).lists() == old(self).lists(),
            match list {
                Some(l) => old(self).position() < old(self).lists().len() && *l == old(
                    self,
                ).lists()[old(self).position()] && final(self).position() == old(self).position()
                    + 1,
                None => old(self).position() >= old(self).lists().len() && final(self).position()
                    == old(self).position(),
            },
    {
        if self.next.0 < self.mem_ref.len() {
            let list = self.mem_ref.get(self.next.0);
            self.next.0 = self.next.0 + 1;
            self.cur_node = list;
            list
        } else {
            None
        }
    }
}

} // verus!
