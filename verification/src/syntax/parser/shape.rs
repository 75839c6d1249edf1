//! The mathematics of parenthesised forms: what a parse tree is, which token
//! sequence it stands for, and when a token sequence is one complete form.

use crate::syntax::tokenizer::token::{LexemeView, TokenView};
use crate::syntax::tokenizer::tokenized::TokenizerErrorView;
use vstd::prelude::*;

verus! {

/// A token without the offset of its parenthesis.
pub enum Shape {
    Open,
    Close,
    Leaf(LexemeView),
}

/// A parse tree: a lexeme, or a list of subtrees.
pub enum Tree {
    Leaf(LexemeView),
    Node(Seq<Tree>),
}

/// The shape of one token.
pub open spec fn shape_of(token: TokenView) -> Shape {
    match token {
        TokenView::LParen(_) => Shape::Open,
        TokenView::RParen(_) => Shape::Close,
        TokenView::Lexeme(lexeme) => Shape::Leaf(lexeme),
    }
}

/// The shapes of a run of stream items; an error has the shape of a closing
/// parenthesis, so it is never part of a complete form's interior.
pub open spec fn shapes(items: Seq<Result<TokenView, TokenizerErrorView>>) -> Seq<Shape> {
    Seq::new(
        items.len(),
        |i: int|
            match items[i] {
                Ok(token) => shape_of(token),
                Err(_) => Shape::Close,
            },
    )
}

/// Whether every item of the run is a token.
pub open spec fn all_tokens(items: Seq<Result<TokenView, TokenizerErrorView>>) -> bool {
    forall|i: int| 0 <= i < items.len() ==> (#[trigger] items[i]) is Ok
}

/// The token shapes that a tree is written as.
pub open spec fn flatten(tree: Tree) -> Seq<Shape>
    decreases tree,
{
    match tree {
        Tree::Leaf(lexeme) => seq![Shape::Leaf(lexeme)],
        Tree::Node(children) => seq![Shape::Open] + flatten_all(children) + seq![Shape::Close],
    }
}

/// The token shapes that a run of trees is written as, one after another.
pub open spec fn flatten_all(trees: Seq<Tree>) -> Seq<Shape>
    decreases trees,
{
    if trees.len() == 0 {
        Seq::empty()
    } else {
        flatten_all(trees.drop_last()) + flatten(trees.last())
    }
}

/// The number of lexemes in a tree.
pub open spec fn leaf_count(tree: Tree) -> nat
    decreases tree,
{
    match tree {
        Tree::Leaf(_) => 1,
        Tree::Node(children) => leaf_count_all(children),
    }
}

/// The number of lexemes in a run of trees.
pub open spec fn leaf_count_all(trees: Seq<Tree>) -> nat
    decreases trees,
{
    if trees.len() == 0 {
        0
    } else {
        leaf_count_all(trees.drop_last()) + leaf_count(trees.last())
    }
}

/// What one shape adds to the nesting depth.
pub open spec fn step(shape: Shape) -> int {
    match shape {
        Shape::Open => 1,
        Shape::Close => -1,
        Shape::Leaf(_) => 0,
    }
}

/// Opening minus closing parentheses in `s`.
pub open spec fn depth(s: Seq<Shape>) -> int
    decreases s.len(),
{
    if s.len() == 0 {
        0
    } else {
        depth(s.drop_last()) + step(s.last())
    }
}

/// The number of lexemes in `s`.
pub open spec fn lexeme_count(s: Seq<Shape>) -> nat
    decreases s.len(),
{
    if s.len() == 0 {
        0
    } else {
        lexeme_count(s.drop_last()) + if s.last() is Leaf {
            1nat
        } else {
            0nat
        }
    }
}

/// No prefix of `s` closes more than it opens.
pub open spec fn never_negative(s: Seq<Shape>) -> bool {
    forall|m: int| 0 <= m <= s.len() ==> depth(#[trigger] s.take(m)) >= 0
}

/// Every non-empty prefix of `s` is inside a list that is still open.
pub open spec fn stays_open(s: Seq<Shape>) -> bool {
    forall|m: int| 0 < m <= s.len() ==> depth(#[trigger] s.take(m)) > 0
}

/// `s` is exactly one parenthesised form: it opens a list, closes it with its
/// last shape, and not before.
pub open spec fn is_form(s: Seq<Shape>) -> bool {
    &&& s.len() >= 2
    &&& s[0] == Shape::Open
    &&& depth(s) == 0
    &&& stays_open(s.drop_last())
}

/// The depth of two runs, one after the other, is the sum of their depths.
pub proof fn lemma_depth_concat(a: Seq<Shape>, b: Seq<Shape>)
    ensures
        depth(a + b) == depth(a) + depth(b),
    decreases b.len(),
{
    if b.len() > 0 {
        assert((a + b).drop_last() =~= a + b.drop_last());
        lemma_depth_concat(a, b.drop_last());
    }
}

/// Two runs, one after the other, have the lexemes of both.
pub proof fn lemma_lexeme_count_concat(a: Seq<Shape>, b: Seq<Shape>)
    ensures
        lexeme_count(a + b) == lexeme_count(a) + lexeme_count(b),
    decreases b.len(),
{
    if b.len() > 0 {
        assert((a + b).drop_last() =~= a + b.drop_last());
        lemma_lexeme_count_concat(a, b.drop_last());
    }
}

/// The depth and lexeme count of a single shape, and of `s` with one shape
/// appended.
pub proof fn lemma_depth_push(s: Seq<Shape>, shape: Shape)
    ensures
        depth(s.push(shape)) == depth(s) + step(shape),
        lexeme_count(s.push(shape)) == lexeme_count(s) + if shape is Leaf {
            1nat
        } else {
            0nat
        },
        depth(seq![shape]) == step(shape),
{
    assert(s.push(shape).drop_last() =~= s);
    assert(seq![shape].drop_last() =~= Seq::<Shape>::empty());
    assert(depth(Seq::<Shape>::empty()) == 0);
}

/// A prefix of `a + b` is a prefix of `a`, or `a` followed by a prefix of `b`.
pub proof fn lemma_take_concat(a: Seq<Shape>, b: Seq<Shape>, m: int)
    requires
        0 <= m <= a.len() + b.len(),
    ensures
        m <= a.len() ==> (a + b).take(m) == a.take(m),
        m >= a.len() ==> (a + b).take(m) == a + b.take(m - a.len()),
{
}

/// Appending to a run that closes all it opened keeps prefixes non-negative.
pub proof fn lemma_never_negative_concat(a: Seq<Shape>, b: Seq<Shape>)
    requires
        never_negative(a),
        never_negative(b),
    ensures
        never_negative(a + b),
{
    assert forall|m: int| 0 <= m <= (a + b).len() implies depth(#[trigger] (a + b).take(m))
        >= 0 by {
        lemma_take_concat(a, b, m);
        if m > a.len() {
            lemma_depth_concat(a, b.take(m - a.len()));
            assert(a.take(a.len() as int) =~= a);
        }
    }
}

/// Inside an open list, material that never closes more than it opens
/// leaves the list open.
pub proof fn lemma_stays_open_concat(a: Seq<Shape>, b: Seq<Shape>)
    requires
        a.len() > 0,
        stays_open(a),
        never_negative(b),
    ensures
        stays_open(a + b),
{
    assert forall|m: int| 0 < m <= (a + b).len() implies depth(#[trigger] (a + b).take(m))
        > 0 by {
        lemma_take_concat(a, b, m);
        if m > a.len() {
            lemma_depth_concat(a, b.take(m - a.len()));
            assert(a.take(a.len() as int) =~= a);
        }
    }
}

/// A tree is written with as many closing as opening parentheses, and never
/// closes a list it has not opened. The same holds of a run of trees.
pub proof fn lemma_flatten_balanced(tree: Tree)
    ensures
        depth(flatten(tree)) == 0,
        never_negative(flatten(tree)),
        tree is Node ==> is_form(flatten(tree)),
    decreases tree, 1nat,
{
    match tree {
        Tree::Leaf(lexeme) => {
            let s = seq![Shape::Leaf(lexeme)];
            lemma_depth_push(Seq::empty(), Shape::Leaf(lexeme));
            assert forall|m: int| 0 <= m <= s.len() implies depth(#[trigger] s.take(m)) >= 0 by {
                if m == 1 {
                    assert(s.take(1) =~= s);
                }
            }
        },
        Tree::Node(children) => {
            let inner = flatten_all(children);
            let open = seq![Shape::Open];
            let s = open + inner + seq![Shape::Close];
            lemma_flatten_all_balanced(children);
            lemma_depth_push(Seq::empty(), Shape::Open);
            lemma_depth_concat(open, inner);
            assert(s.drop_last() =~= open + inner);
            assert(stays_open(open)) by {
                assert forall|m: int| 0 < m <= open.len() implies depth(#[trigger] open.take(m))
                    > 0 by {
                    assert(open.take(1) =~= open);
                }
            }
            lemma_stays_open_concat(open, inner);
            assert(never_negative(s)) by {
                assert forall|m: int| 0 <= m <= s.len() implies depth(#[trigger] s.take(m))
                    >= 0 by {
                    if m == s.len() {
                        assert(s.take(m) =~= s);
                    } else if m > 0 {
                        assert(s.take(m) =~= s.drop_last().take(m));
                    }
                }
            }
        },
    }
}

/// A run of trees is written with as many closing as opening parentheses,
/// and never closes a list it has not opened.
pub proof fn lemma_flatten_all_balanced(trees: Seq<Tree>)
    ensures
        depth(flatten_all(trees)) == 0,
        never_negative(flatten_all(trees)),
    decreases trees, 0nat,
{
    if trees.len() > 0 {
        lemma_flatten_all_balanced(trees.drop_last());
        lemma_flatten_balanced(trees.last());
        lemma_depth_concat(flatten_all(trees.drop_last()), flatten(trees.last()));
        lemma_never_negative_concat(flatten_all(trees.drop_last()), flatten(trees.last()));
    }
}

/// A tree has as many leaves as its written form has lexemes.
pub proof fn lemma_leaf_count(tree: Tree)
    ensures
        leaf_count(tree) == lexeme_count(flatten(tree)),
    decreases tree, 1nat,
{
    match tree {
        Tree::Leaf(lexeme) => {
            lemma_depth_push(Seq::empty(), Shape::Leaf(lexeme));
        },
        Tree::Node(children) => {
            let inner = flatten_all(children);
            let open = seq![Shape::Open];
            lemma_leaf_count_all(children);
            lemma_depth_push(Seq::empty(), Shape::Open);
            lemma_depth_push(Seq::empty(), Shape::Close);
            lemma_lexeme_count_concat(open, inner);
            lemma_lexeme_count_concat(open + inner, seq![Shape::Close]);
        },
    }
}

/// A run of trees has as many leaves as its written form has lexemes.
pub proof fn lemma_leaf_count_all(trees: Seq<Tree>)
    ensures
        leaf_count_all(trees) == lexeme_count(flatten_all(trees)),
    decreases trees, 0nat,
{
    if trees.len() > 0 {
        lemma_leaf_count_all(trees.drop_last());
        lemma_leaf_count(trees.last());
        lemma_lexeme_count_concat(flatten_all(trees.drop_last()), flatten(trees.last()));
    }
}

/// Appending one tree to a run appends its written form.
pub proof fn lemma_flatten_all_push(trees: Seq<Tree>, tree: Tree)
    ensures
        flatten_all(trees.push(tree)) == flatten_all(trees) + flatten(tree),
        leaf_count_all(trees.push(tree)) == leaf_count_all(trees) + leaf_count(tree),
{
    assert(trees.push(tree).drop_last() =~= trees);
}

/// The ways in which reading one form from a token stream can fail.
pub enum ParseFailure {
    /// The tokenizer reported an error.
    Tokenizer(TokenizerErrorView),
    /// A closing parenthesis, at this offset, where a form should start.
    UnexpectedR(int),
    /// A bare lexeme where a form should start.
    UnexpectedLexeme(LexemeView),
    /// The stream ended inside an open list.
    UnexpectedEOF,
}

/// How reading one form from a stream ends: with the number of items read,
/// and either a complete form or a failure.
pub enum Reading {
    Form(int),
    Failure(int, ParseFailure),
}

/// The first `n` items of the stream are tokens that make up exactly one
/// complete form.
pub open spec fn reads_form(items: Seq<Result<TokenView, TokenizerErrorView>>, n: int) -> bool {
    &&& 0 < n <= items.len()
    &&& all_tokens(items.take(n))
    &&& is_form(shapes(items.take(n)))
}

/// Reading the stream fails with `failure` on its item number `n`, or, for
/// the end of the stream, after all its `n` items:
/// a closing parenthesis or a lexeme where the form should start; an error of
/// the tokenizer, at the start or inside a list that is still open; the end of
/// the stream inside a list that is still open.
pub open spec fn reads_failure(
    items: Seq<Result<TokenView, TokenizerErrorView>>,
    n: int,
    failure: ParseFailure,
) -> bool {
    &&& 0 < n <= items.len()
    &&& match failure {
        ParseFailure::UnexpectedR(pos) => n == 1 && items[0] == Ok::<
            TokenView,
            TokenizerErrorView,
        >(TokenView::RParen(pos)),
        ParseFailure::UnexpectedLexeme(lexeme) => n == 1 && items[0] == Ok::<
            TokenView,
            TokenizerErrorView,
        >(TokenView::Lexeme(lexeme)),
        ParseFailure::Tokenizer(error) => items[n - 1] == Err::<TokenView, TokenizerErrorView>(
            error,
        ) && all_tokens(items.take(n - 1)) && stays_open(shapes(items.take(n - 1))),
        ParseFailure::UnexpectedEOF => n == items.len() && all_tokens(items) && stays_open(
            shapes(items),
        ),
    }
}

/// Whether `reading` is a way in which reading one form from `items` can end.
pub open spec fn admissible(
    items: Seq<Result<TokenView, TokenizerErrorView>>,
    reading: Reading,
) -> bool {
    match reading {
        Reading::Form(n) => reads_form(items, n),
        Reading::Failure(n, failure) => reads_failure(items, n, failure),
    }
}

/// The shapes of a prefix of a prefix.
pub proof fn lemma_shapes_take(
    items: Seq<Result<TokenView, TokenizerErrorView>>,
    n: int,
    m: int,
)
    requires
        0 <= m <= n <= items.len(),
    ensures
        shapes(items.take(n)).take(m) == shapes(items.take(m)),
        shapes(items).take(m) == shapes(items.take(m)),
{
}

/// The depth after the first shape is the step of that shape.
pub proof fn lemma_depth_first(s: Seq<Shape>)
    requires
        s.len() > 0,
    ensures
        depth(s.take(1)) == step(s[0]),
{
    assert(s.take(1) =~= seq![s[0]]);
    lemma_depth_push(Seq::empty(), s[0]);
}

/// A run that stays open starts with an opening parenthesis.
pub proof fn lemma_stays_open_first(s: Seq<Shape>)
    requires
        s.len() > 0,
        stays_open(s),
    ensures
        s[0] == Shape::Open,
{
    lemma_depth_first(s);
}

/// A complete form is closed, so no run that starts with it stays open, and
/// no longer run is a complete form.
proof fn lemma_form_excludes(items: Seq<Result<TokenView, TokenizerErrorView>>, n: int, m: int)
    requires
        reads_form(items, n),
        n <= m <= items.len(),
    ensures
        !stays_open(shapes(items.take(m))),
        n < m ==> !is_form(shapes(items.take(m))),
{
    lemma_shapes_take(items, m, n);
    if n < m {
        let longer = shapes(items.take(m));
        assert(longer.drop_last().take(n) =~= longer.take(n));
    }
}

/// Reading one form from a stream can end in one way only: the number of
/// items read, whether a form was read, and the failure otherwise are all
/// determined by the stream.
pub proof fn lemma_reading_unique(
    items: Seq<Result<TokenView, TokenizerErrorView>>,
    a: Reading,
    b: Reading,
)
    requires
        admissible(items, a),
        admissible(items, b),
    ensures
        a == b,
{
    match (a, b) {
        (Reading::Form(n1), Reading::Form(n2)) => {
            if n1 < n2 {
                lemma_form_excludes(items, n1, n2);
            } else if n2 < n1 {
                lemma_form_excludes(items, n2, n1);
            }
        },
        (Reading::Form(n), Reading::Failure(m, failure)) => {
            lemma_form_fails_not(items, n, m, failure);
        },
        (Reading::Failure(m, failure), Reading::Form(n)) => {
            lemma_form_fails_not(items, n, m, failure);
        },
        (Reading::Failure(n1, f1), Reading::Failure(n2, f2)) => {
            lemma_failure_unique(items, n1, f1, n2, f2);
            lemma_failure_unique(items, n2, f2, n1, f1);
        },
    }
}

/// Reading a stream that starts with a complete form does not fail.
proof fn lemma_form_fails_not(
    items: Seq<Result<TokenView, TokenizerErrorView>>,
    n: int,
    m: int,
    failure: ParseFailure,
)
    requires
        reads_form(items, n),
    ensures
        !reads_failure(items, m, failure),
{
    if reads_failure(items, m, failure) {
        match failure {
            ParseFailure::UnexpectedR(_) => {},
            ParseFailure::UnexpectedLexeme(_) => {},
            ParseFailure::Tokenizer(_) => {
                if m <= n {
                    assert(items.take(n)[m - 1] == items[m - 1]);
                } else {
                    lemma_form_excludes(items, n, m - 1);
                }
            },
            ParseFailure::UnexpectedEOF => {
                lemma_form_excludes(items, n, items.len() as int);
                assert(items.take(items.len() as int) =~= items);
            },
        }
    }
}

/// Reading a stream fails in one way only.
proof fn lemma_failure_unique(
    items: Seq<Result<TokenView, TokenizerErrorView>>,
    n1: int,
    f1: ParseFailure,
    n2: int,
    f2: ParseFailure,
)
    requires
        reads_failure(items, n1, f1),
        reads_failure(items, n2, f2),
    ensures
        f1 is UnexpectedR ==> n1 == n2 && f1 == f2,
        f1 is UnexpectedLexeme ==> n1 == n2 && f1 == f2,
        f1 is Tokenizer && f2 is Tokenizer ==> n1 == n2 && f1 == f2,
        f1 is UnexpectedEOF && f2 is UnexpectedEOF ==> n1 == n2 && f1 == f2,
        f1 is Tokenizer ==> !(f2 is UnexpectedEOF),
{
    if f1 is UnexpectedR || f1 is UnexpectedLexeme {
        match f2 {
            ParseFailure::UnexpectedR(_) => {},
            ParseFailure::UnexpectedLexeme(_) => {},
            ParseFailure::Tokenizer(_) => {
                if n2 > 1 {
                    lemma_stays_open_first(shapes(items.take(n2 - 1)));
                }
            },
            ParseFailure::UnexpectedEOF => {
                lemma_stays_open_first(shapes(items));
            },
        }
    }
    if f1 is Tokenizer && f2 is Tokenizer {
        if n1 < n2 {
            assert(items.take(n2 - 1)[n1 - 1] == items[n1 - 1]);
        } else if n2 < n1 {
            assert(items.take(n1 - 1)[n2 - 1] == items[n2 - 1]);
        }
    }
}

/// The written form of a run of trees is that of the first tree followed
/// by that of the others.
pub proof fn lemma_flatten_all_front(trees: Seq<Tree>)
    requires
        trees.len() > 0,
    ensures
        flatten_all(trees) == flatten(trees[0]) + flatten_all(trees.drop_first()),
    decreases trees.len(),
{
    if trees.len() == 1 {
        assert(trees.drop_last() =~= Seq::<Tree>::empty());
        assert(trees.drop_first() =~= Seq::<Tree>::empty());
    } else {
        let front = trees.drop_last();
        lemma_flatten_all_front(front);
        assert(front.drop_first() =~= trees.drop_first().drop_last());
    }
}

/// No tree is written as the beginning of what another tree is written as:
/// if the written forms of two trees, each followed by something, are the
/// same, the trees are the same and so is what follows.
pub proof fn lemma_flatten_prefix_free(a: Tree, b: Tree, after_a: Seq<Shape>, after_b: Seq<Shape>)
    requires
        flatten(a) + after_a == flatten(b) + after_b,
    ensures
        a == b,
        after_a == after_b,
    decreases a, 1nat,
{
    let whole = flatten(a) + after_a;
    assert(whole[0] == flatten(b)[0]);
    match a {
        Tree::Leaf(lexeme) => {
            assert(after_b =~= whole.skip(1));
        },
        Tree::Node(children) => {
            let others = b->Node_0;
            let close = seq![Shape::Close];
            let rest_a = flatten_all(children) + (close + after_a);
            let rest_b = flatten_all(others) + (close + after_b);
            assert(rest_a =~= whole.skip(1));
            assert(rest_b =~= (flatten(b) + after_b).skip(1));
            lemma_flatten_all_prefix_free(children, others, after_a, after_b);
        },
    }
}

/// The same for the members of a list up to its closing parenthesis.
pub proof fn lemma_flatten_all_prefix_free(
    a: Seq<Tree>,
    b: Seq<Tree>,
    after_a: Seq<Shape>,
    after_b: Seq<Shape>,
)
    requires
        flatten_all(a) + (seq![Shape::Close] + after_a) == flatten_all(b) + (seq![Shape::Close]
            + after_b),
    ensures
        a == b,
        after_a == after_b,
    decreases a, 0nat,
{
    let close = seq![Shape::Close];
    let whole = flatten_all(a) + (close + after_a);
    if a.len() == 0 {
        if b.len() > 0 {
            lemma_flatten_all_front(b);
        }
        assert(after_b =~= whole.skip(1));
    } else {
        lemma_flatten_all_front(a);
        if b.len() == 0 {
            assert((flatten_all(b) + (close + after_b))[0] == Shape::Close);
        } else {
            lemma_flatten_all_front(b);
            let tail_a = flatten_all(a.drop_first()) + (close + after_a);
            let tail_b = flatten_all(b.drop_first()) + (close + after_b);
            assert(flatten(a[0]) + tail_a =~= whole);
            assert(flatten(b[0]) + tail_b =~= flatten_all(b) + (close + after_b));
            lemma_flatten_prefix_free(a[0], b[0], tail_a, tail_b);
            lemma_flatten_all_prefix_free(a.drop_first(), b.drop_first(), after_a, after_b);
            assert(b =~= seq![b[0]] + b.drop_first());
        }
    }
}

/// A tree is determined by what it is written as, and so is a run of trees
/// that are lists.
pub proof fn lemma_flatten_injective(a: Tree, b: Tree)
    requires
        flatten(a) == flatten(b),
    ensures
        a == b,
{
    lemma_flatten_prefix_free(a, b, Seq::empty(), Seq::empty());
}

/// A run of trees is determined by what it is written as.
pub proof fn lemma_flatten_all_injective(a: Seq<Tree>, b: Seq<Tree>)
    requires
        flatten_all(a) == flatten_all(b),
    ensures
        a == b,
{
    lemma_flatten_all_prefix_free(a, b, Seq::empty(), Seq::empty());
}

/// The number of opening parentheses in `s`.
pub open spec fn opens(s: Seq<Shape>) -> nat
    decreases s.len(),
{
    if s.len() == 0 {
        0
    } else {
        opens(s.drop_last()) + if s.last() is Open {
            1nat
        } else {
            0nat
        }
    }
}

/// Two runs, one after the other, have the opening parentheses of both.
pub proof fn lemma_opens_concat(a: Seq<Shape>, b: Seq<Shape>)
    ensures
        opens(a + b) == opens(a) + opens(b),
    decreases b.len(),
{
    if b.len() == 0 {
        assert(a + b =~= a);
    } else {
        assert((a + b).drop_last() =~= a + b.drop_last());
        lemma_opens_concat(a, b.drop_last());
    }
}

/// A run with one more shape has one more opening parenthesis if the shape
/// is one, and as many otherwise.
pub proof fn lemma_opens_push(s: Seq<Shape>, shape: Shape)
    ensures
        opens(s.push(shape)) == opens(s) + if shape is Open {
            1nat
        } else {
            0nat
        },
        opens(seq![shape]) == if shape is Open {
            1nat
        } else {
            0nat
        },
{
    assert(s.push(shape).drop_last() =~= s);
    assert(seq![shape].drop_last() =~= Seq::<Shape>::empty());
    assert(opens(Seq::<Shape>::empty()) == 0);
}

/// A list is written with one opening parenthesis more than its members.
pub proof fn lemma_opens_node(children: Seq<Tree>)
    ensures
        opens(flatten(Tree::Node(children))) == 1 + opens(flatten_all(children)),
{
    let open = seq![Shape::Open];
    let inner = flatten_all(children);
    lemma_opens_push(Seq::empty(), Shape::Open);
    lemma_opens_push(open + inner, Shape::Close);
    lemma_opens_concat(open, inner);
    assert(flatten(Tree::Node(children)) =~= (open + inner).push(Shape::Close));
}

/// A run of trees with one more tree has the opening parentheses of both.
pub proof fn lemma_opens_trees_push(trees: Seq<Tree>, tree: Tree)
    ensures
        opens(flatten_all(trees.push(tree))) == opens(flatten_all(trees)) + opens(flatten(tree)),
{
    lemma_flatten_all_push(trees, tree);
    lemma_opens_concat(flatten_all(trees), flatten(tree));
}

} // verus!
