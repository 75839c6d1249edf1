//! Lowering a compilation unit to a graph of basic blocks.
//!
//! Blocks are addressed by their index in the graph. Lowering goes
//! innermost-first: the operands of an expression are lowered before the
//! instruction that combines them. A literal becomes a single assignment of
//! its temporary, which the symbol table holds; a binary expression becomes a
//! binary assignment to the variable it initialises or, where it has none, to
//! a new temporary of the type of its left operand. A function is lowered
//! into a block of its own, named after it. Lowering stops at the first
//! error and keeps what was lowered until then.

use super::ast::{
    AST, ASTKind, BinExpr, BinOp, Expr, Func, Source, UnaryExpr, Value, Variable,
};
use super::symboltable::{
    Scope, Symbol, SymbolMap, SymbolView, TableId, find_val, fresh_name, lemma_find_is_first,
    lemma_find_val, resolve, scopes_wf, with_temporary,
};
use vstd::prelude::*;
use vstd::string::StringExecFns;

verus! {

/// The identity of a block: its index in the graph.
pub type BlockId = usize;

/// What an instruction is, as a mathematical value.
pub enum InstructionView {
    BAssign { lhs: Seq<char>, lop: Seq<char>, op: BinOp, rop: Seq<char> },
    SAssign { lhs: Seq<char>, symbol: SymbolView },
    Mov { lhs: Seq<char>, rhs: Seq<char> },
    Goto(BlockId),
    Call(BlockId),
}

/// An instruction of a basic block.
#[derive(Debug)]
pub enum Instruction {
    BAssign(BinAssign),
    SAssign(SingleAssign),
    Mov(Move),
    Goto(Goto),
    Call(Call),
}

/// `lhs = lop op rop`
#[derive(Debug)]
pub struct BinAssign {
    pub lhs: String,
    pub lop: String,
    pub op: BinOp,
    pub rop: String,
}

/// `lhs = rhs`, where `rhs` is the symbol of a literal.
#[derive(Debug)]
pub struct SingleAssign {
    pub lhs: String,
    pub rhs: Symbol,
}

/// `lhs = rhs`, where both are names.
#[derive(Debug)]
pub struct Move {
    pub lhs: String,
    pub rhs: String,
}

/// A jump to a block.
#[derive(Debug)]
pub struct Goto {
    pub id: BlockId,
}

/// A call of the function whose body starts at a block.
#[derive(Debug)]
pub struct Call {
    pub id: BlockId,
}

/// A message for the debugger.
#[derive(Debug)]
pub struct DebugPrint {
    pub val: String,
}

impl View for Instruction {
    type V = InstructionView;

    open spec fn view(&self) -> InstructionView {
        match *self {
            Instruction::BAssign(b) => InstructionView::BAssign {
                lhs: b.lhs@,
                lop: b.lop@,
                op: b.op,
                rop: b.rop@,
            },
            Instruction::SAssign(s) => InstructionView::SAssign { lhs: s.lhs@, symbol: s.rhs@ },
            Instruction::Mov(m) => InstructionView::Mov { lhs: m.lhs@, rhs: m.rhs@ },
            Instruction::Goto(g) => InstructionView::Goto(g.id),
            Instruction::Call(c) => InstructionView::Call(c.id),
        }
    }
}

/// The edges on one side of a block: to one block, or to several.
#[derive(Debug)]
pub enum Vertices {
    Linear(BlockId),
    Branch(Vec<BlockId>),
}

/// The blocks that the edges on one side of a block lead to, in order.
pub open spec fn targets(edges: Option<Vertices>) -> Seq<BlockId> {
    match edges {
        None => Seq::empty(),
        Some(Vertices::Linear(id)) => seq![id],
        Some(Vertices::Branch(ids)) => ids@,
    }
}

/// The shapes that the edges on one side of a block can have: none, one
/// linear edge, or a branch.
pub enum EdgeKind {
    Absent,
    Linear,
    Branch,
}

/// The shape of the edges on one side of a block.
pub open spec fn kind_of(edges: Option<Vertices>) -> EdgeKind {
    match edges {
        None => EdgeKind::Absent,
        Some(Vertices::Linear(_)) => EdgeKind::Linear,
        Some(Vertices::Branch(_)) => EdgeKind::Branch,
    }
}

/// The shape of the edges after `times` more edges have been added: one edge
/// where there was none is linear; anything more is a branch.
pub open spec fn linked_kind(kind: EdgeKind, times: nat) -> EdgeKind {
    if times == 0 {
        kind
    } else if kind is Absent && times == 1 {
        EdgeKind::Linear
    } else {
        EdgeKind::Branch
    }
}

/// How often block `j` is among `ids`.
pub open spec fn occurrences(ids: Seq<BlockId>, j: int) -> nat
    decreases ids.len(),
{
    if ids.len() == 0 {
        0
    } else {
        occurrences(ids.drop_last(), j) + if ids.last() == j {
            1nat
        } else {
            0nat
        }
    }
}

impl Vertices {
    /// The edges `edges` and one more, to `id`: a linear edge where there
    /// was none, else a branch that ends with it.
    pub fn with(edges: Option<Vertices>, id: BlockId) -> (more: Option<Vertices>)
        ensures
            targets(more) == targets(edges).push(id),
            more is Some,
            edges is None ==> more == Some(Vertices::Linear(id)),
            edges is Some ==> more->0 is Branch,
    {
        match edges {
            None => Some(Vertices::Linear(id)),
            Some(Vertices::Linear(first)) => {
                let mut ids: Vec<BlockId> = Vec::new();
                ids.push(first);
                ids.push(id);
                Some(Vertices::Branch(ids))
            },
            Some(Vertices::Branch(ids)) => {
                let mut ids = ids;
                ids.push(id);
                Some(Vertices::Branch(ids))
            },
        }
    }

    /// The number of edges.
    pub fn count(edges: &Option<Vertices>) -> (n: usize)
        ensures
            n == targets(*edges).len(),
    {
        match edges {
            None => 0,
            Some(Vertices::Linear(_)) => 1,
            Some(Vertices::Branch(ids)) => ids.len(),
        }
    }

    /// The block that edge number `index` leads to.
    pub fn target(edges: &Option<Vertices>, index: usize) -> (id: Option<BlockId>)
        ensures
            id is Some <==> index < targets(*edges).len(),
            id matches Some(t) ==> t == targets(*edges)[index as int],
    {
        match edges {
            None => None,
            Some(Vertices::Linear(only)) => if index == 0 {
                Some(*only)
            } else {
                None
            },
            Some(Vertices::Branch(ids)) => if index < ids.len() {
                Some(ids[index])
            } else {
                None
            },
        }
    }

    /// Whether one of the edges leads to `id`.
    pub fn leads_to(edges: &Option<Vertices>, id: BlockId) -> (found: bool)
        ensures
            found <==> targets(*edges).contains(id),
    {
        match edges {
            None => false,
            Some(Vertices::Linear(only)) => {
                proof {
                    assert(seq![*only][0] == *only);
                }
                *only == id
            },
            Some(Vertices::Branch(ids)) => {
                let mut i: usize = 0;
                while i < ids.len()
                    invariant
                        i <= ids.len(),
                        targets(*edges) == ids@,
                        forall|j: int| 0 <= j < i ==> ids@[j] != id,
                    decreases ids.len() - i,
                {
                    if ids[i] == id {
                        return true;
                    }
                    i = i + 1;
                }
                false
            },
        }
    }
}

/// What a block is, as a mathematical value.
pub struct BlockView {
    pub id: BlockId,
    pub name: Seq<char>,
    pub prev: Seq<BlockId>,
    pub code: Seq<InstructionView>,
    pub next: Seq<BlockId>,
}

/// A straight-line run of instructions with the edges that lead into it and
/// out of it.
#[derive(Debug)]
pub struct BasicBlock {
    prev: Option<Vertices>,
    instrs: Vec<Instruction>,
    next: Option<Vertices>,
    id: BlockId,
    name: String,
}

impl View for BasicBlock {
    type V = BlockView;

    closed spec fn view(&self) -> BlockView {
        BlockView {
            id: self.id,
            name: self.name@,
            prev: targets(self.prev),
            code: Seq::new(self.instrs@.len(), |i: int| self.instrs@[i]@),
            next: targets(self.next),
        }
    }
}

impl BasicBlock {
    /// The edges that lead into the block.
    pub closed spec fn incoming(&self) -> Option<Vertices> {
        self.prev
    }

    /// The edges that lead out of the block.
    pub closed spec fn outgoing(&self) -> Option<Vertices> {
        self.next
    }

    /// An empty block with the given incoming edges and no outgoing ones.
    pub fn new(prev: Option<Vertices>, id: BlockId, name: &str) -> (block: Self)
        ensures
            block@ == (BlockView {
                id,
                name: name@,
                prev: targets(prev),
                code: Seq::empty(),
                next: Seq::empty(),
            }),
            block.incoming() == prev,
            block.outgoing() is None,
    {
        let block = Self {
            prev,
            instrs: Vec::new(),
            next: None,
            id,
            name: String::from_str(name),
        };
        proof {
            assert(block@.code =~= Seq::<InstructionView>::empty());
        }
        block
    }

    /// The block that every lowering starts from: number 0, named `entry`,
    /// empty and without edges.
    pub fn entry() -> (block: Self)
        ensures
            block@ == (BlockView {
                id: 0,
                name: "entry"@,
                prev: Seq::empty(),
                code: Seq::empty(),
                next: Seq::empty(),
            }),
            block.incoming() is None,
            block.outgoing() is None,
    {
        Self::new(None, 0, "entry")
    }

    /// Appends an instruction.
    pub fn add(&mut self, instr: Instruction)
        ensures
            final(self)@ == (BlockView { code: old(self)@.code.push(instr@), ..old(self)@ }),
            final(self).incoming() == old(self).incoming(),
            final(self).outgoing() == old(self).outgoing(),
    {
        self.instrs.push(instr);
        proof {
            assert(self@.code =~= old(self)@.code.push(instr@));
        }
    }

    /// Adds an outgoing edge to `id`.
    fn link_to(&mut self, id: BlockId)
        ensures
            final(self)@ == (BlockView { next: old(self)@.next.push(id), ..old(self)@ }),
            final(self).incoming() == old(self).incoming(),
            kind_of(final(self).outgoing()) == linked_kind(kind_of(old(self).outgoing()), 1),
    {
        let edges = self.next.take();
        self.next = Vertices::with(edges, id);
    }

    /// The identity of the block.
    pub fn id(&self) -> (id: BlockId)
        ensures
            id == self@.id,
    {
        self.id
    }

    /// The name of the block.
    pub fn name(&self) -> (name: &String)
        ensures
            name@ == self@.name,
    {
        &self.name
    }

    /// The number of instructions.
    pub fn len(&self) -> (n: usize)
        ensures
            n == self@.code.len(),
    {
        self.instrs.len()
    }

    /// Instruction number `index`, if there is one.
    pub fn get(&self, index: usize) -> (instr: Option<&Instruction>)
        ensures
            instr is Some <==> index < self@.code.len(),
            instr matches Some(i) ==> i@ == self@.code[index as int],
    {
        if index < self.instrs.len() {
            Some(&self.instrs[index])
        } else {
            None
        }
    }

    /// The edges that lead into the block.
    pub fn prev(&self) -> (edges: &Option<Vertices>)
        ensures
            *edges == self.incoming(),
            targets(*edges) == self@.prev,
    {
        &self.prev
    }

    /// The edges that lead out of the block.
    pub fn next(&self) -> (edges: &Option<Vertices>)
        ensures
            *edges == self.outgoing(),
            targets(*edges) == self@.next,
    {
        &self.next
    }
}

/// Why a node could not be lowered.
#[derive(Debug)]
pub enum CfgError {
    /// There is no block with this identity.
    UnknownBlock(BlockId),
    /// The current scope holds no temporary for this literal.
    UnknownLiteral(Value),
    /// No scope on the way to the global scope binds this name.
    Undefined(String),
    /// The node is neither a literal nor an expression.
    NotAnOperand,
}

/// What a lowering error is, as a mathematical value.
pub enum CfgErrorView {
    UnknownBlock(BlockId),
    UnknownLiteral(Value),
    Undefined(Seq<char>),
    NotAnOperand,
}

impl View for CfgError {
    type V = CfgErrorView;

    open spec fn view(&self) -> CfgErrorView {
        match *self {
            CfgError::UnknownBlock(id) => CfgErrorView::UnknownBlock(id),
            CfgError::UnknownLiteral(val) => CfgErrorView::UnknownLiteral(val),
            CfgError::Undefined(name) => CfgErrorView::Undefined(name@),
            CfgError::NotAnOperand => CfgErrorView::NotAnOperand,
        }
    }
}

/// What a graph under construction is, as a mathematical value: its blocks,
/// the scopes of its symbol table, the scope that names are resolved from,
/// and the scope that the next top-level function is lowered in.
pub struct CfgView {
    pub blocks: Seq<BlockView>,
    pub scopes: Seq<Scope>,
    pub pos: TableId,
    pub next_scope: TableId,
}

/// The result of lowering: the graph afterwards, and the name that holds
/// the value of what was lowered (empty if it has no value), or the error
/// that stopped the lowering.
pub struct Lowered {
    pub cfg: CfgView,
    pub result: Result<Seq<char>, CfgErrorView>,
}

/// The graph with one more instruction at the end of block `block`.
pub open spec fn emitted(cfg: CfgView, block: int, instr: InstructionView) -> CfgView {
    CfgView {
        blocks: cfg.blocks.update(
            block,
            BlockView { code: cfg.blocks[block].code.push(instr), ..cfg.blocks[block] },
        ),
        ..cfg
    }
}

/// Lowering that stops with `error` and leaves the graph as it is.
pub open spec fn failed(cfg: CfgView, error: CfgErrorView) -> Lowered {
    Lowered { cfg, result: Err(error) }
}

/// A literal is lowered to a single assignment of the first temporary of the
/// current scope that holds it; its value is in that temporary.
pub open spec fn lowered_val(cfg: CfgView, val: Value, block: BlockId) -> Lowered {
    if block >= cfg.blocks.len() {
        failed(cfg, CfgErrorView::UnknownBlock(block))
    } else if cfg.pos >= cfg.scopes.len() {
        failed(cfg, CfgErrorView::UnknownLiteral(val))
    } else {
        let entries = cfg.scopes[cfg.pos as int].entries;
        let at = find_val(entries, val, 0);
        if at >= entries.len() {
            failed(cfg, CfgErrorView::UnknownLiteral(val))
        } else {
            Lowered {
                cfg: emitted(
                    cfg,
                    block as int,
                    InstructionView::SAssign { lhs: entries[at].0, symbol: entries[at].1 },
                ),
                result: Ok(entries[at].0),
            }
        }
    }
}

/// An operand is a literal or an expression.
pub open spec fn lowered_operand(cfg: CfgView, kind: ASTKind, block: BlockId) -> Lowered
    decreases kind,
{
    match kind {
        ASTKind::Val(val) => lowered_val(cfg, val, block),
        ASTKind::Expr(expr) => lowered_expr(cfg, expr, block),
        _ => if block >= cfg.blocks.len() {
            failed(cfg, CfgErrorView::UnknownBlock(block))
        } else {
            failed(cfg, CfgErrorView::NotAnOperand)
        },
    }
}

/// An identifier is lowered to nothing: its value is under its name, which
/// must resolve. A binary expression is lowered to a new temporary.
pub open spec fn lowered_expr(cfg: CfgView, expr: Expr, block: BlockId) -> Lowered
    decreases expr,
{
    match expr {
        Expr::Noop(val) => lowered_val(cfg, val, block),
        Expr::Unary(UnaryExpr::Id(id)) => if block >= cfg.blocks.len() {
            failed(cfg, CfgErrorView::UnknownBlock(block))
        } else if resolve(cfg.scopes, cfg.pos as int, id.0@) is Some {
            Lowered { cfg, result: Ok(id.0@) }
        } else {
            failed(cfg, CfgErrorView::Undefined(id.0@))
        },
        Expr::Binary(bin) => lowered_bin(cfg, bin, None, block),
    }
}

/// A binary expression is lowered operands first, the left one before the
/// right one, and then to a binary assignment. The assignment is to `dest`
/// or, without one, to the lowest-numbered free temporary of the current
/// scope, which is bound there as a variable of the type that the left
/// operand resolves to.
pub open spec fn lowered_bin(
    cfg: CfgView,
    bin: BinExpr,
    dest: Option<Seq<char>>,
    block: BlockId,
) -> Lowered
    decreases bin,
{
    let left = lowered_operand(cfg, bin.lhs.kind, block);
    match left.result {
        Err(_) => left,
        Ok(lop) => {
            let right = lowered_operand(left.cfg, bin.rhs.kind, block);
            match right.result {
                Err(_) => right,
                Ok(rop) => match dest {
                    Some(lhs) => Lowered {
                        cfg: emitted(
                            right.cfg,
                            block as int,
                            InstructionView::BAssign { lhs, lop, op: bin.op, rop },
                        ),
                        result: Ok(lhs),
                    },
                    None => match resolve(right.cfg.scopes, right.cfg.pos as int, lop) {
                        None => failed(right.cfg, CfgErrorView::Undefined(lop)),
                        Some(symbol) => {
                            let lhs = fresh_name(right.cfg.scopes[right.cfg.pos as int].entries);
                            let named = CfgView {
                                scopes: with_temporary(
                                    right.cfg.scopes,
                                    right.cfg.pos as int,
                                    symbol.ty,
                                ),
                                ..right.cfg
                            };
                            Lowered {
                                cfg: emitted(
                                    named,
                                    block as int,
                                    InstructionView::BAssign { lhs, lop, op: bin.op, rop },
                                ),
                                result: Ok(lhs),
                            }
                        },
                    },
                },
            }
        },
    }
}

/// A declaration with a binary expression is lowered to a binary assignment
/// to its name; any other declaration to its expression and a move to its
/// name.
pub open spec fn lowered_var(cfg: CfgView, var: Variable, block: BlockId) -> Lowered
    decreases var,
{
    match var.2 {
        Expr::Binary(bin) => lowered_bin(cfg, bin, Some(var.1@), block),
        other => {
            let value = lowered_expr(cfg, other, block);
            match value.result {
                Err(_) => value,
                Ok(rhs) => Lowered {
                    cfg: emitted(
                        value.cfg,
                        block as int,
                        InstructionView::Mov { lhs: var.1@, rhs },
                    ),
                    result: Ok(var.1@),
                },
            }
        },
    }
}

/// What lowering a node into block `block` does.
///
/// A return statement is lowered to what it returns. A parameter or a
/// signature is lowered to nothing. A function is lowered into a new block.
pub open spec fn lowered_kind(cfg: CfgView, kind: ASTKind, block: BlockId) -> Lowered
    decreases kind,
{
    match kind {
        ASTKind::Val(val) => lowered_val(cfg, val, block),
        ASTKind::Expr(expr) => lowered_expr(cfg, expr, block),
        ASTKind::VarDec(var) => lowered_var(cfg, var, block),
        ASTKind::Return(ret) => lowered_kind(cfg, ret.0.kind, block),
        ASTKind::Func(func) => lowered_func(cfg, func, block),
        _ => if block >= cfg.blocks.len() {
            failed(cfg, CfgErrorView::UnknownBlock(block))
        } else {
            Lowered { cfg, result: Ok(Seq::empty()) }
        },
    }
}

/// The scope that follows `scope`.
pub open spec fn scope_after(scope: TableId) -> TableId {
    if scope < usize::MAX {
        (scope + 1) as usize
    } else {
        scope
    }
}

/// A function is lowered into a new block without edges, which is named
/// after the function and comes behind all others. At the top level, which
/// is where names resolve from the global scope, the body is lowered in the
/// next scope that no function has been lowered in; inside another function
/// it is lowered in the scope of that function. Afterwards names resolve
/// from where they did before.
pub open spec fn lowered_func(cfg: CfgView, func: Func, block: BlockId) -> Lowered
    decreases func,
{
    if block >= cfg.blocks.len() {
        failed(cfg, CfgErrorView::UnknownBlock(block))
    } else {
        let body_block = cfg.blocks.len() as usize;
        let inner = CfgView {
            blocks: cfg.blocks.push(
                BlockView {
                    id: body_block,
                    name: func.0.1@,
                    prev: Seq::empty(),
                    code: Seq::empty(),
                    next: Seq::empty(),
                },
            ),
            scopes: cfg.scopes,
            pos: if cfg.pos == 0 {
                cfg.next_scope
            } else {
                cfg.pos
            },
            next_scope: if cfg.pos == 0 {
                scope_after(cfg.next_scope)
            } else {
                cfg.next_scope
            },
        };
        let body = lowered_body(inner, func.1@, 0, body_block);
        Lowered {
            cfg: CfgView { pos: cfg.pos, ..body.cfg },
            result: match body.result {
                Ok(_) => Ok(func.0.1@),
                Err(error) => Err(error),
            },
        }
    }
}

/// The nodes of a body are lowered in order, from number `from` on, up to
/// and including the first that fails.
pub open spec fn lowered_body(cfg: CfgView, nodes: Seq<AST>, from: int, block: BlockId) -> Lowered
    decreases nodes, nodes.len() - from,
{
    if 0 <= from < nodes.len() {
        let one = lowered_kind(cfg, nodes[from].kind, block);
        match one.result {
            Err(_) => one,
            Ok(_) => lowered_body(one.cfg, nodes, from + 1, block),
        }
    } else {
        Lowered { cfg, result: Ok(Seq::empty()) }
    }
}

/// The view of the block that every lowering starts from.
pub open spec fn entry_view() -> BlockView {
    BlockView {
        id: 0,
        name: "entry"@,
        prev: Seq::empty(),
        code: Seq::empty(),
        next: Seq::empty(),
    }
}

/// The graph to lower into: the one there is, or one with an entry block if
/// it has no block.
pub open spec fn with_entry(cfg: CfgView) -> CfgView {
    if cfg.blocks.len() == 0 {
        CfgView { blocks: seq![entry_view()], ..cfg }
    } else {
        cfg
    }
}

/// Every block is stored under its identity, and every edge is recorded at
/// both its ends: a block that another leads to names that other among the
/// blocks that lead into it, and the other way round.
pub open spec fn graph_wf(blocks: Seq<BlockView>) -> bool {
    &&& forall|i: int| 0 <= i < blocks.len() ==> (#[trigger] blocks[i]).id == i
    &&& forall|a: int, k: int|
        0 <= a < blocks.len() && 0 <= k < blocks[a].next.len() ==> (#[trigger] blocks[a].next[k])
            < blocks.len() && blocks[blocks[a].next[k] as int].prev.contains(a as usize)
    &&& forall|b: int, k: int|
        0 <= b < blocks.len() && 0 <= k < blocks[b].prev.len() ==> (#[trigger] blocks[b].prev[k])
            < blocks.len() && blocks[blocks[b].prev[k] as int].next.contains(b as usize)
}

/// Whether a result holds the name, or the error, of a lowering.
pub open spec fn names(result: Result<String, CfgError>, lowered: Result<
    Seq<char>,
    CfgErrorView,
>) -> bool {
    match result {
        Ok(name) => lowered == Ok::<Seq<char>, CfgErrorView>(name@),
        Err(error) => lowered == Err::<Seq<char>, CfgErrorView>(error@),
    }
}

/// Whether a result reports the success, or the error, of a lowering.
pub open spec fn reports(result: Result<(), CfgError>, lowered: Result<
    Seq<char>,
    CfgErrorView,
>) -> bool {
    match result {
        Ok(()) => lowered is Ok,
        Err(error) => lowered == Err::<Seq<char>, CfgErrorView>(error@),
    }
}

/// A graph of basic blocks under construction, with the symbol table that
/// its names are resolved in.
#[derive(Debug)]
pub struct Cfg {
    blocks: Vec<BasicBlock>,
    map: SymbolMap,
    pos: usize,
    next_scope: usize,
}

impl View for Cfg {
    type V = CfgView;

    closed spec fn view(&self) -> CfgView {
        CfgView {
            blocks: Seq::new(self.blocks@.len(), |i: int| self.blocks@[i]@),
            scopes: self.map@,
            pos: self.pos,
            next_scope: self.next_scope,
        }
    }
}

impl Cfg {
    /// The blocks as they are stored, by identity.
    pub closed spec fn stored(&self) -> Seq<BasicBlock> {
        self.blocks@
    }

    /// The blocks and scopes are in order.
    pub open spec fn wf(&self) -> bool {
        graph_wf(self@.blocks) && scopes_wf(self@.scopes)
    }

    /// A graph without blocks over the scopes of `map`. Names resolve from
    /// the global scope; the first top-level function is lowered in scope 1.
    pub fn new(map: SymbolMap) -> (cfg: Self)
        requires
            map.wf(),
        ensures
            cfg.wf(),
            cfg@ == (CfgView { blocks: Seq::empty(), scopes: map@, pos: 0, next_scope: 1 }),
    {
        let cfg = Self { blocks: Vec::new(), map, pos: 0, next_scope: 1 };
        proof {
            assert(cfg@.blocks =~= Seq::<BlockView>::empty());
        }
        cfg
    }

    /// The number of blocks.
    pub fn len(&self) -> (n: usize)
        ensures
            n == self@.blocks.len(),
    {
        self.blocks.len()
    }

    /// The block with identity `id`, if there is one.
    pub fn block(&self, id: BlockId) -> (block: Option<&BasicBlock>)
        ensures
            block is Some <==> id < self@.blocks.len(),
            block matches Some(b) ==> b@ == self@.blocks[id as int],
    {
        if id < self.blocks.len() {
            Some(&self.blocks[id])
        } else {
            None
        }
    }

    /// The symbol table.
    pub fn symbols(&self) -> (map: &SymbolMap)
        ensures
            map@ == self@.scopes,
    {
        &self.map
    }

    /// Appends an instruction to block `block`, if there is such a block.
    pub fn push(&mut self, block: BlockId, instr: Instruction) -> (r: Result<(), CfgError>)
        requires
            old(self).wf(),
        ensures
            final(self).wf(),
            match r {
                Ok(()) => block < old(self)@.blocks.len() && final(self)@ == emitted(
                    old(self)@,
                    block as int,
                    instr@,
                ),
                Err(error) => block >= old(self)@.blocks.len() && final(self)@ == old(self)@
                    && error@ == CfgErrorView::UnknownBlock(block),
            },
    {
        if block < self.blocks.len() {
            self.emit(block, instr);
            Ok(())
        } else {
            Err(CfgError::UnknownBlock(block))
        }
    }

    /// Appends an instruction to block `block`.
    fn emit(&mut self, block: BlockId, instr: Instruction)
        requires
            old(self).wf(),
            block < old(self)@.blocks.len(),
        ensures
            final(self).wf(),
            final(self)@ == emitted(old(self)@, block as int, instr@),
    {
        self.blocks[block].add(instr);
        proof {
            assert(self@.blocks =~= emitted(old(self)@, block as int, instr@).blocks);
        }
    }

    /// Lowers a literal into block `block`.
    pub fn fold_val(&mut self, val: Value, block: BlockId) -> (r: Result<String, CfgError>)
        requires
            old(self).wf(),
        ensures
            final(self).wf(),
            final(self)@ == lowered_val(old(self)@, val, block).cfg,
            names(r, lowered_val(old(self)@, val, block).result),
    {
        if block >= self.blocks.len() {
            return Err(CfgError::UnknownBlock(block));
        }
        let name = match self.map.get_from_val(self.pos, val) {
            Some(name) => name.clone(),
            None => {
                return Err(CfgError::UnknownLiteral(val));
            },
        };
        proof {
            let entries = self@.scopes[self.pos as int].entries;
            let at = find_val(entries, val, 0);
            lemma_find_val(entries, val, 0);
            lemma_find_is_first(entries, name@, at);
        }
        let symbol = match self.map.get(self.pos, name.as_str()) {
            Some(symbol) => symbol.clone(),
            None => {
                return Err(CfgError::UnknownLiteral(val));
            },
        };
        let ins = SingleAssign { lhs: name.clone(), rhs: symbol };
        self.emit(block, Instruction::SAssign(ins));
        Ok(name)
    }

    /// Lowers an operand of a binary expression into block `block`.
    fn fold_operand(&mut self, kind: &ASTKind, block: BlockId) -> (r: Result<String, CfgError>)
        requires
            old(self).wf(),
        ensures
            final(self).wf(),
            final(self)@ == lowered_operand(old(self)@, *kind, block).cfg,
            names(r, lowered_operand(old(self)@, *kind, block).result),
        decreases kind,
    {
        match kind {
            ASTKind::Val(val) => self.fold_val(*val, block),
            ASTKind::Expr(expr) => self.fold_expr(expr, block),
            _ => {
                if block >= self.blocks.len() {
                    Err(CfgError::UnknownBlock(block))
                } else {
                    Err(CfgError::NotAnOperand)
                }
            },
        }
    }

    /// Lowers an expression into block `block` and returns the name that
    /// holds its value.
    pub fn fold_expr(&mut self, expr: &Expr, block: BlockId) -> (r: Result<String, CfgError>)
        requires
            old(self).wf(),
        ensures
            final(self).wf(),
            final(self)@ == lowered_expr(old(self)@, *expr, block).cfg,
            names(r, lowered_expr(old(self)@, *expr, block).result),
        decreases expr,
    {
        match expr {
            Expr::Noop(val) => self.fold_val(*val, block),
            Expr::Unary(UnaryExpr::Id(id)) => {
                if block >= self.blocks.len() {
                    return Err(CfgError::UnknownBlock(block));
                }
                match self.map.lookup(self.pos, id.0) {
                    Ok(_) => Ok(String::from_str(id.0)),
                    Err(_) => Err(CfgError::Undefined(String::from_str(id.0))),
                }
            },
            Expr::Binary(bin) => self.fold_bin(bin, None, block),
        }
    }

    /// Lowers a binary expression into block `block`, with its value in
    /// `dest` or, without one, in a new temporary.
    fn fold_bin(&mut self, bin: &BinExpr, dest: Option<String>, block: BlockId) -> (r: Result<
        String,
        CfgError,
    >)
        requires
            old(self).wf(),
        ensures
            final(self).wf(),
            final(self)@ == lowered_bin(
                old(self)@,
                *bin,
                match dest {
                    Some(d) => Some(d@),
                    None => None,
                },
                block,
            ).cfg,
            names(
                r,
                lowered_bin(
                    old(self)@,
                    *bin,
                    match dest {
                        Some(d) => Some(d@),
                        None => None,
                    },
                    block,
                ).result,
            ),
        decreases bin,
    {
        let lop = match self.fold_operand(&bin.lhs.kind, block) {
            Ok(name) => name,
            Err(error) => {
                return Err(error);
            },
        };
        proof {
            lemma_operand_keeps_blocks(self@, bin.rhs.kind, block);
        }
        let rop = match self.fold_operand(&bin.rhs.kind, block) {
            Ok(name) => name,
            Err(error) => {
                return Err(error);
            },
        };
        let lhs = match dest {
            Some(name) => name,
            None => {
                let ty = match self.map.lookup(self.pos, lop.as_str()) {
                    Ok(symbol) => symbol.get_type().clone(),
                    Err(_) => {
                        return Err(CfgError::Undefined(lop));
                    },
                };
                match self.map.insert_temp(self.pos, ty) {
                    Some(name) => {
                        name
                    },
                    None => {
                        return Err(CfgError::Undefined(lop));
                    },
                }
            },
        };
        let ins = BinAssign { lhs: lhs.clone(), lop, op: bin.op, rop };
        self.emit(block, Instruction::BAssign(ins));
        Ok(lhs)
    }

    /// Lowers a declaration into block `block`.
    fn fold_var(&mut self, var: &Variable, block: BlockId) -> (r: Result<String, CfgError>)
        requires
            old(self).wf(),
        ensures
            final(self).wf(),
            final(self)@ == lowered_var(old(self)@, *var, block).cfg,
            names(r, lowered_var(old(self)@, *var, block).result),
        decreases var,
    {
        match &var.2 {
            Expr::Binary(bin) => self.fold_bin(bin, Some(String::from_str(var.1)), block),
            other => {
                let rhs = match self.fold_expr(other, block) {
                    Ok(name) => name,
                    Err(error) => {
                        return Err(error);
                    },
                };
                let ins = Move { lhs: String::from_str(var.1), rhs };
                self.emit(block, Instruction::Mov(ins));
                Ok(String::from_str(var.1))
            },
        }
    }

    /// Lowers a node into block `block`.
    pub fn fold_ast(&mut self, ast: &ASTKind, block: BlockId) -> (r: Result<(), CfgError>)
        requires
            old(self).wf(),
        ensures
            final(self).wf(),
            final(self)@ == lowered_kind(old(self)@, *ast, block).cfg,
            reports(r, lowered_kind(old(self)@, *ast, block).result),
        decreases ast,
    {
        match ast {
            ASTKind::Val(val) => match self.fold_val(*val, block) {
                Ok(_) => Ok(()),
                Err(error) => Err(error),
            },
            ASTKind::Expr(expr) => match self.fold_expr(expr, block) {
                Ok(_) => Ok(()),
                Err(error) => Err(error),
            },
            ASTKind::VarDec(var) => match self.fold_var(var, block) {
                Ok(_) => Ok(()),
                Err(error) => Err(error),
            },
            ASTKind::Return(ret) => self.fold_ast(&ret.0.kind, block),
            ASTKind::Func(func) => self.fold_func(func, block),
            _ => {
                if block >= self.blocks.len() {
                    Err(CfgError::UnknownBlock(block))
                } else {
                    Ok(())
                }
            },
        }
    }

    /// Lowers a function into a block of its own.
    fn fold_func(&mut self, func: &Func, block: BlockId) -> (r: Result<(), CfgError>)
        requires
            old(self).wf(),
        ensures
            final(self).wf(),
            final(self)@ == lowered_func(old(self)@, *func, block).cfg,
            reports(r, lowered_func(old(self)@, *func, block).result),
        decreases func,
    {
        if block >= self.blocks.len() {
            return Err(CfgError::UnknownBlock(block));
        }
        let outer = self.pos;
        let body_block = self.blocks.len();
        self.blocks.push(BasicBlock::new(None, body_block, func.0.1));
        if outer == 0 {
            self.pos = self.next_scope;
            if self.next_scope < usize::MAX {
                self.next_scope = self.next_scope + 1;
            }
        }
        proof {
            let pushed = old(self)@.blocks.push(
                BlockView {
                    id: body_block,
                    name: func.0.1@,
                    prev: Seq::empty(),
                    code: Seq::empty(),
                    next: Seq::empty(),
                },
            );
            assert(self@.blocks =~= pushed);
        }
        let r = self.fold_body(&func.1, body_block, Ghost(*func));
        self.pos = outer;
        r
    }

    /// Lowers the nodes of a body into block `block`, in order.
    fn fold_body(&mut self, nodes: &Vec<AST>, block: BlockId, Ghost(whole): Ghost<Func>) -> (r:
        Result<(), CfgError>)
        requires
            old(self).wf(),
            whole.1 == *nodes,
        ensures
            final(self).wf(),
            final(self)@ == lowered_body(old(self)@, nodes@, 0, block).cfg,
            reports(r, lowered_body(old(self)@, nodes@, 0, block).result),
        decreases whole, 0nat,
    {
        let mut i: usize = 0;
        while i < nodes.len()
            invariant
                self.wf(),
                i <= nodes.len(),
                whole.1 == *nodes,
                lowered_body(old(self)@, nodes@, 0, block) == lowered_body(
                    self@,
                    nodes@,
                    i as int,
                    block,
                ),
            decreases nodes.len() - i,
        {
            match self.fold_ast(&nodes[i].kind, block) {
                Ok(()) => {},
                Err(error) => {
                    return Err(error);
                },
            }
            i = i + 1;
        }
        Ok(())
    }

    /// Lowers a compilation unit: its nodes, in order, into the entry block,
    /// which is made first if the graph has no block.
    pub fn fill_from_source(&mut self, source: &Source) -> (r: Result<(), CfgError>)
        requires
            old(self).wf(),
        ensures
            final(self).wf(),
            final(self)@ == lowered_body(with_entry(old(self)@), source.0@, 0, 0).cfg,
            reports(r, lowered_body(with_entry(old(self)@), source.0@, 0, 0).result),
    {
        if self.blocks.len() == 0 {
            self.blocks.push(BasicBlock::entry());
            proof {
                assert(self@.blocks =~= seq![entry_view()]);
            }
        }
        let mut i: usize = 0;
        while i < source.0.len()
            invariant
                self.wf(),
                i <= source.0.len(),
                lowered_body(with_entry(old(self)@), source.0@, 0, 0) == lowered_body(
                    self@,
                    source.0@,
                    i as int,
                    0,
                ),
            decreases source.0.len() - i,
        {
            match self.fold_ast(&source.0[i].kind, 0) {
                Ok(()) => {},
                Err(error) => {
                    return Err(error);
                },
            }
            i = i + 1;
        }
        Ok(())
    }
}

/// Lowering keeps the blocks there are, and succeeds only into a block
/// that exists.
pub open spec fn keeps_blocks(cfg: CfgView, lowered: Lowered, block: BlockId) -> bool {
    &&& lowered.cfg.blocks.len() >= cfg.blocks.len()
    &&& lowered.result is Ok ==> block < cfg.blocks.len()
}

/// Lowering an operand keeps the blocks.
pub proof fn lemma_operand_keeps_blocks(cfg: CfgView, kind: ASTKind, block: BlockId)
    ensures
        keeps_blocks(cfg, lowered_operand(cfg, kind, block), block),
    decreases kind,
{
    match kind {
        ASTKind::Expr(expr) => lemma_expr_keeps_blocks(cfg, expr, block),
        _ => {},
    }
}

/// Lowering an expression keeps the blocks.
pub proof fn lemma_expr_keeps_blocks(cfg: CfgView, expr: Expr, block: BlockId)
    ensures
        keeps_blocks(cfg, lowered_expr(cfg, expr, block), block),
    decreases expr,
{
    match expr {
        Expr::Binary(bin) => lemma_bin_keeps_blocks(cfg, bin, None, block),
        _ => {},
    }
}

/// Lowering a binary expression keeps the blocks.
pub proof fn lemma_bin_keeps_blocks(
    cfg: CfgView,
    bin: BinExpr,
    dest: Option<Seq<char>>,
    block: BlockId,
)
    ensures
        keeps_blocks(cfg, lowered_bin(cfg, bin, dest, block), block),
    decreases bin,
{
    lemma_operand_keeps_blocks(cfg, bin.lhs.kind, block);
    let left = lowered_operand(cfg, bin.lhs.kind, block);
    if left.result is Ok {
        lemma_operand_keeps_blocks(left.cfg, bin.rhs.kind, block);
    }
}

/// Lowering a declaration keeps the blocks.
pub proof fn lemma_var_keeps_blocks(cfg: CfgView, var: Variable, block: BlockId)
    ensures
        keeps_blocks(cfg, lowered_var(cfg, var, block), block),
    decreases var,
{
    match var.2 {
        Expr::Binary(bin) => lemma_bin_keeps_blocks(cfg, bin, Some(var.1@), block),
        other => lemma_expr_keeps_blocks(cfg, other, block),
    }
}

/// Lowering a node keeps the blocks.
pub proof fn lemma_kind_keeps_blocks(cfg: CfgView, kind: ASTKind, block: BlockId)
    ensures
        keeps_blocks(cfg, lowered_kind(cfg, kind, block), block),
    decreases kind,
{
    match kind {
        ASTKind::Expr(expr) => lemma_expr_keeps_blocks(cfg, expr, block),
        ASTKind::VarDec(var) => lemma_var_keeps_blocks(cfg, var, block),
        ASTKind::Return(ret) => lemma_kind_keeps_blocks(cfg, ret.0.kind, block),
        ASTKind::Func(func) => lemma_func_keeps_blocks(cfg, func, block),
        _ => {},
    }
}

/// Lowering a function keeps the blocks.
pub proof fn lemma_func_keeps_blocks(cfg: CfgView, func: Func, block: BlockId)
    ensures
        keeps_blocks(cfg, lowered_func(cfg, func, block), block),
    decreases func,
{
    if block < cfg.blocks.len() {
        let body_block = cfg.blocks.len() as usize;
        let inner = CfgView {
            blocks: cfg.blocks.push(
                BlockView {
                    id: body_block,
                    name: func.0.1@,
                    prev: Seq::empty(),
                    code: Seq::empty(),
                    next: Seq::empty(),
                },
            ),
            scopes: cfg.scopes,
            pos: if cfg.pos == 0 {
                cfg.next_scope
            } else {
                cfg.pos
            },
            next_scope: if cfg.pos == 0 {
                scope_after(cfg.next_scope)
            } else {
                cfg.next_scope
            },
        };
        lemma_body_keeps_blocks(inner, func.1@, 0, body_block);
    }
}

/// Lowering a body removes no block.
pub proof fn lemma_body_keeps_blocks(cfg: CfgView, nodes: Seq<AST>, from: int, block: BlockId)
    ensures
        lowered_body(cfg, nodes, from, block).cfg.blocks.len() >= cfg.blocks.len(),
    decreases nodes, nodes.len() - from,
{
    if 0 <= from < nodes.len() {
        lemma_kind_keeps_blocks(cfg, nodes[from].kind, block);
        let one = lowered_kind(cfg, nodes[from].kind, block);
        if one.result is Ok {
            lemma_body_keeps_blocks(one.cfg, nodes, from + 1, block);
        }
    }
}

/// The first index at or after `from` of an identity that is not among the
/// first `count` blocks, or the number of identities if all are.
pub open spec fn first_unknown(ids: Seq<BlockId>, count: int, from: int) -> int
    decreases ids.len() - from,
{
    if 0 <= from < ids.len() && ids[from] < count {
        first_unknown(ids, count, from + 1)
    } else {
        from
    }
}

/// The blocks after an edge to `id` has been added to each of the first `k`
/// of `preds`.
pub open spec fn linked(blocks: Seq<BlockView>, preds: Seq<BlockId>, k: int, id: BlockId) -> Seq<
    BlockView,
>
    decreases k,
{
    if k <= 0 {
        blocks
    } else {
        let before = linked(blocks, preds, k - 1, id);
        let p = preds[k - 1] as int;
        if 0 <= p < before.len() {
            before.update(p, BlockView { next: before[p].next.push(id), ..before[p] })
        } else {
            before
        }
    }
}

/// The result of adding a block: the graph afterwards, and the identity of
/// the new block or the error.
pub struct Added {
    pub cfg: CfgView,
    pub result: Result<BlockId, CfgErrorView>,
}

/// What adding a block named `name`, with edges from the blocks `preds`
/// into it, does to a graph.
///
/// If one of `preds` is no block, the first such is reported and nothing
/// changes. Otherwise the new block comes behind all others, with `preds` as
/// the blocks that lead into it, and each of them gets an edge that leads to
/// it, behind the edges it has.
pub open spec fn added_block(cfg: CfgView, preds: Seq<BlockId>, name: Seq<char>) -> Added {
    let bad = first_unknown(preds, cfg.blocks.len() as int, 0);
    if bad < preds.len() {
        Added { cfg, result: Err(CfgErrorView::UnknownBlock(preds[bad])) }
    } else {
        let id = cfg.blocks.len() as usize;
        Added {
            cfg: CfgView {
                blocks: linked(cfg.blocks, preds, preds.len() as int, id).push(
                    BlockView { id, name, prev: preds, code: Seq::empty(), next: Seq::empty() },
                ),
                ..cfg
            },
            result: Ok(id),
        }
    }
}

/// `first_unknown` stops at the first identity that is no block.
pub proof fn lemma_first_unknown(ids: Seq<BlockId>, count: int, from: int)
    requires
        0 <= from <= ids.len(),
    ensures
        from <= first_unknown(ids, count, from) <= ids.len(),
        forall|j: int| from <= j < first_unknown(ids, count, from) ==> ids[j] < count,
        first_unknown(ids, count, from) < ids.len() ==> ids[first_unknown(ids, count, from)]
            >= count,
    decreases ids.len() - from,
{
    if from < ids.len() && ids[from] < count {
        lemma_first_unknown(ids, count, from + 1);
    }
}

/// Whether block `i` is one of the first `k` of `preds`.
pub open spec fn among(preds: Seq<BlockId>, k: int, i: int) -> bool {
    exists|m: int| 0 <= m < k && #[trigger] preds[m] == i
}

/// Adding edges changes nothing but the outgoing edges: the edges a block
/// had stay in front, every edge behind them leads to `id` and belongs to one
/// of the first `k` of `preds`, and each of those has one.
pub proof fn lemma_linked(blocks: Seq<BlockView>, preds: Seq<BlockId>, k: int, id: BlockId)
    requires
        0 <= k <= preds.len(),
        forall|j: int| 0 <= j < preds.len() ==> preds[j] < blocks.len(),
    ensures
        linked(blocks, preds, k, id).len() == blocks.len(),
        forall|i: int|
            0 <= i < blocks.len() ==> {
                let after = #[trigger] linked(blocks, preds, k, id)[i];
                &&& after.id == blocks[i].id
                &&& after.name == blocks[i].name
                &&& after.prev == blocks[i].prev
                &&& after.code == blocks[i].code
                &&& after.next.len() >= blocks[i].next.len()
                &&& after.next.take(blocks[i].next.len() as int) == blocks[i].next
                &&& forall|j: int|
                    blocks[i].next.len() <= j < after.next.len() ==> #[trigger] after.next[j] == id
                        && among(preds, k, i)
            },
        forall|m: int|
            0 <= m < k ==> linked(blocks, preds, k, id)[(#[trigger] preds[m]) as int].next.contains(
                id,
            ),
    decreases k,
{
    if k > 0 {
        lemma_linked(blocks, preds, k - 1, id);
        let before = linked(blocks, preds, k - 1, id);
        let after = linked(blocks, preds, k, id);
        let p = preds[k - 1] as int;
        assert forall|i: int| 0 <= i < blocks.len() implies {
            let a = #[trigger] after[i];
            &&& a.id == blocks[i].id
            &&& a.name == blocks[i].name
            &&& a.prev == blocks[i].prev
            &&& a.code == blocks[i].code
            &&& a.next.len() >= blocks[i].next.len()
            &&& a.next.take(blocks[i].next.len() as int) == blocks[i].next
            &&& forall|j: int|
                blocks[i].next.len() <= j < a.next.len() ==> #[trigger] a.next[j] == id && among(
                    preds,
                    k,
                    i,
                )
        } by {
            let b = before[i];
            let a = after[i];
            assert(a.next.take(blocks[i].next.len() as int) =~= b.next.take(
                blocks[i].next.len() as int,
            ));
            assert forall|j: int| blocks[i].next.len() <= j < a.next.len() implies #[trigger] a.next[j]
                == id && among(preds, k, i) by {
                if j < b.next.len() {
                    assert(b.next[j] == id && among(preds, k - 1, i));
                    let w = choose|w: int| 0 <= w < k - 1 && #[trigger] preds[w] == i;
                    assert(preds[w] == i);
                } else {
                    assert(preds[k - 1] == i);
                }
            }
        }
        assert forall|m: int| 0 <= m < k implies after[(#[trigger] preds[m]) as int].next.contains(
            id,
        ) by {
            let q = preds[m] as int;
            if q == p {
                assert(after[q].next[before[q].next.len() as int] == id);
            } else {
                let row = before[q].next;
                let w = choose|w: int| 0 <= w < row.len() && #[trigger] row[w] == id;
                assert(after[q].next[w] == id);
            }
        }
    } else {
        assert forall|i: int| 0 <= i < blocks.len() implies (#[trigger] linked(
            blocks,
            preds,
            k,
            id,
        )[i]).next.take(blocks[i].next.len() as int) == blocks[i].next by {
            assert(blocks[i].next.take(blocks[i].next.len() as int) =~= blocks[i].next);
        }
    }
}

/// Adding a block with edges from existing blocks keeps a graph in order.
pub proof fn lemma_added_block_wf(blocks: Seq<BlockView>, preds: Seq<BlockId>, name: Seq<char>)
    requires
        graph_wf(blocks),
        blocks.len() <= usize::MAX,
        forall|j: int| 0 <= j < preds.len() ==> preds[j] < blocks.len(),
    ensures
        graph_wf(
            linked(blocks, preds, preds.len() as int, blocks.len() as usize).push(
                BlockView {
                    id: blocks.len() as usize,
                    name,
                    prev: preds,
                    code: Seq::empty(),
                    next: Seq::empty(),
                },
            ),
        ),
{
    let id = blocks.len() as usize;
    let n = preds.len() as int;
    let inner = linked(blocks, preds, n, id);
    let after = inner.push(
        BlockView { id, name, prev: preds, code: Seq::empty(), next: Seq::empty() },
    );
    lemma_linked(blocks, preds, n, id);
    assert forall|a: int, k: int|
        0 <= a < after.len() && 0 <= k < after[a].next.len() implies (#[trigger] after[a].next[k])
        < after.len() && after[after[a].next[k] as int].prev.contains(a as usize) by {
        assert(a < blocks.len());
        let row = inner[a];
        if k < blocks[a].next.len() {
            assert(row.next.take(blocks[a].next.len() as int)[k] == row.next[k]);
            assert(blocks[a].next[k] < blocks.len());
            let t = blocks[a].next[k] as int;
            assert(inner[t].prev == blocks[t].prev);
        } else {
            assert(row.next[k] == id && among(preds, n, a));
            let w = choose|w: int| 0 <= w < n && #[trigger] preds[w] == a;
            assert(preds[w] == a as usize);
        }
    }
    assert forall|b: int, k: int|
        0 <= b < after.len() && 0 <= k < after[b].prev.len() implies (#[trigger] after[b].prev[k])
        < after.len() && after[after[b].prev[k] as int].next.contains(b as usize) by {
        if b < blocks.len() {
            let row = inner[b];
            assert(blocks[b].prev[k] < blocks.len());
            let p = blocks[b].prev[k] as int;
            let out = blocks[p].next;
            let w = choose|w: int| 0 <= w < out.len() && #[trigger] out[w] == b;
            assert(inner[p].next.take(blocks[p].next.len() as int)[w] == inner[p].next[w]);
            assert(inner[p].next[w] == b as usize);
        } else {
            assert(inner[preds[k] as int].next.contains(id));
        }
    }
    assert forall|i: int| 0 <= i < after.len() implies (#[trigger] after[i]).id == i by {
        if i < blocks.len() {
            assert(inner[i].id == blocks[i].id);
        }
    }
}

impl Cfg {
    /// Adds an empty block named `name`, with edges from the blocks that
    /// `prev` names into it, and returns its identity.
    pub fn new_block(&mut self, prev: Option<Vertices>, name: &str) -> (r: Result<BlockId, CfgError>)
        requires
            old(self).wf(),
        ensures
            final(self).wf(),
            final(self)@ == added_block(old(self)@, targets(prev), name@).cfg,
            match r {
                Ok(id) => added_block(old(self)@, targets(prev), name@).result == Ok::<
                    BlockId,
                    CfgErrorView,
                >(id),
                Err(error) => added_block(old(self)@, targets(prev), name@).result == Err::<
                    BlockId,
                    CfgErrorView,
                >(error@),
            },
            match r {
                Ok(id) => {
                    &&& final(self).stored().len() == old(self).stored().len() + 1
                    &&& final(self).stored()[id as int].incoming() == prev
                    &&& final(self).stored()[id as int].outgoing() is None
                    &&& forall|j: int|
                        0 <= j < old(self).stored().len() ==> (#[trigger] final(self).stored()[j]).incoming() == old(self).stored()[j].incoming() && kind_of(
                            final(self).stored()[j].outgoing(),
                        ) == linked_kind(
                            kind_of(old(self).stored()[j].outgoing()),
                            occurrences(targets(prev), j),
                        )
                },
                Err(_) => final(self).stored() == old(self).stored(),
            },
    {
        let ghost preds = targets(prev);
        let count = Vertices::count(&prev);
        let id = self.blocks.len();
        let mut i: usize = 0;
        while i < count
            invariant
                i <= count,
                count == preds.len(),
                preds == targets(prev),
                id == self.blocks@.len(),
                *self == *old(self),
                self.wf(),
                first_unknown(preds, id as int, 0) == first_unknown(preds, id as int, i as int),
            decreases count - i,
        {
            match Vertices::target(&prev, i) {
                Some(p) => {
                    if p >= id {
                        return Err(CfgError::UnknownBlock(p));
                    }
                },
                None => {},
            }
            i = i + 1;
        }
        proof {
            lemma_first_unknown(preds, id as int, 0);
        }
        let mut k: usize = 0;
        while k < count
            invariant
                k <= count,
                count == preds.len(),
                preds == targets(prev),
                id == old(self)@.blocks.len(),
                forall|j: int| 0 <= j < preds.len() ==> preds[j] < id,
                self@.blocks == linked(old(self)@.blocks, preds, k as int, id),
                self@.scopes == old(self)@.scopes,
                self@.pos == old(self)@.pos,
                self@.next_scope == old(self)@.next_scope,
                self.blocks@.len() == id,
                old(self).blocks@.len() == id,
                forall|j: int|
                    0 <= j < id ==> (#[trigger] self.blocks@[j]).incoming() == old(self).blocks@[j].incoming() && kind_of(self.blocks@[j].outgoing()) == linked_kind(
                        kind_of(old(self).blocks@[j].outgoing()),
                        occurrences(preds.take(k as int), j),
                    ),
            decreases count - k,
        {
            proof {
                assert(preds.take(k as int + 1).drop_last() =~= preds.take(k as int));
                assert(preds.take(k as int + 1).last() == preds[k as int]);
            }
            match Vertices::target(&prev, k) {
                Some(p) => {
                    self.blocks[p].link_to(id);
                },
                None => {},
            }
            k = k + 1;
        }
        proof {
            assert(preds.take(count as int) =~= preds);
        }
        self.blocks.push(BasicBlock::new(prev, id, name));
        proof {
            let inner = linked(old(self)@.blocks, preds, preds.len() as int, id);
            assert(self@.blocks =~= inner.push(
                BlockView { id, name: name@, prev: preds, code: Seq::empty(), next: Seq::empty() },
            ));
            lemma_added_block_wf(old(self)@.blocks, preds, name@);
        }
        Ok(id)
    }
}

} // verus!
