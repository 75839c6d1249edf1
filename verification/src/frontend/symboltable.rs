//! Symbol tables: one table of names per lexical scope, and the scopes of a
//! compilation unit linked into a tree.
//!
//! A table keeps its bindings in the order in which their names were first
//! bound. Within a table a name is bound at most once.

use super::ast::{
    AST, ASTKind, BinExpr, Expr, Func, FuncDef, Param, Return, UnaryExpr, Value, Variable,
    value_of, value_type,
};
use crate::text::{decimal, lemma_decimal_injective, signed_decimal, unsigned_to_string};
use crate::types::designators::{TypeInstance, TypeView, type_text};
use vstd::prelude::*;
use vstd::string::StringExecFns;

verus! {

/// The role of a symbol in its scope.
#[derive(Clone, Copy, Debug, PartialEq, Eq, Structural)]
pub enum ScopeKind {
    Var,
    Param,
    Arg,
    FSign,
}

/// How a role is written.
pub open spec fn scope_text(kind: ScopeKind) -> Seq<char> {
    match kind {
        ScopeKind::Var => "Variable"@,
        ScopeKind::Param => "Parameter"@,
        ScopeKind::Arg => "Arguement"@,
        ScopeKind::FSign => "Signature"@,
    }
}

impl ScopeKind {
    /// The role as text.
    pub fn to_string(&self) -> (s: String)
        ensures
            s@ == scope_text(*self),
    {
        match self {
            ScopeKind::Var => String::from_str("Variable"),
            ScopeKind::Param => String::from_str("Parameter"),
            ScopeKind::Arg => String::from_str("Arguement"),
            ScopeKind::FSign => String::from_str("Signature"),
        }
    }
}

/// What a symbol is, as a mathematical value.
pub struct SymbolView {
    pub ty: TypeView,
    pub kind: ScopeKind,
    pub val: Option<Value>,
}

/// What is known of a name: its type, its role, and its value if it is a
/// literal.
#[derive(Debug)]
pub struct Symbol {
    _type: TypeInstance,
    kind: ScopeKind,
    val: Option<Value>,
}

impl View for Symbol {
    type V = SymbolView;

    closed spec fn view(&self) -> SymbolView {
        SymbolView { ty: self._type@, kind: self.kind, val: self.val }
    }
}

/// How a symbol is written: type, role and value, separated by bars.
pub open spec fn symbol_text(symbol: SymbolView) -> Seq<char> {
    type_text(symbol.ty) + " | "@ + scope_text(symbol.kind) + " | "@ + match symbol.val {
        Some(val) => signed_decimal(value_of(val)),
        None => "None"@,
    }
}

impl Symbol {
    /// A symbol of the given type and role, with the given value.
    pub fn new(_type: TypeInstance, kind: ScopeKind, val: Option<Value>) -> (symbol: Self)
        ensures
            symbol@ == (SymbolView { ty: _type@, kind, val }),
    {
        Self { _type, kind, val }
    }

    /// The type of the symbol.
    pub fn get_type(&self) -> (ty: &TypeInstance)
        ensures
            ty@ == self@.ty,
    {
        &self._type
    }

    /// The role of the symbol.
    pub fn kind(&self) -> (kind: ScopeKind)
        ensures
            kind == self@.kind,
    {
        self.kind
    }

    /// The value of the symbol, if it is a literal.
    pub fn val(&self) -> (val: Option<Value>)
        ensures
            val == self@.val,
    {
        self.val
    }

    /// The symbol as text.
    pub fn to_string(&self) -> (s: String)
        ensures
            s@ == symbol_text(self@),
    {
        let mut s = self._type.to_string();
        s.append(" | ");
        let kind = self.kind.to_string();
        s.append(kind.as_str());
        s.append(" | ");
        match self.val {
            Some(val) => {
                let text = val.to_string();
                s.append(text.as_str());
            },
            None => {
                s.append("None");
            },
        }
        s
    }
}

impl Clone for Symbol {
    fn clone(&self) -> (copy: Self)
        ensures
            copy@ == self@,
    {
        Symbol { _type: self._type.clone(), kind: self.kind, val: self.val }
    }
}

/// Why a symbol could not be bound or found.
#[derive(Debug)]
pub enum SymbolError {
    /// The name was bound already in the same scope, to this symbol.
    AlreadyExists(Symbol),
    /// No scope on the way to the global scope binds this name.
    Undefined(String),
}

/// The identity of a scope: its index in the map of scopes.
pub type TableId = usize;

/// The first index at or after `from` at which `name` is bound, or the
/// number of entries if it is bound at none.
pub open spec fn find(entries: Seq<(Seq<char>, SymbolView)>, name: Seq<char>, from: int) -> int
    decreases entries.len() - from,
{
    if 0 <= from < entries.len() && entries[from].0 != name {
        find(entries, name, from + 1)
    } else {
        from
    }
}

/// The symbol that `name` is bound to, if any.
pub open spec fn lookup(entries: Seq<(Seq<char>, SymbolView)>, name: Seq<char>) -> Option<
    SymbolView,
> {
    let at = find(entries, name, 0);
    if at < entries.len() {
        Some(entries[at].1)
    } else {
        None
    }
}

/// The entries after `name` is bound to `symbol`: in place if it was bound
/// before, else behind all others.
pub open spec fn bind(
    entries: Seq<(Seq<char>, SymbolView)>,
    name: Seq<char>,
    symbol: SymbolView,
) -> Seq<(Seq<char>, SymbolView)> {
    let at = find(entries, name, 0);
    if at < entries.len() {
        entries.update(at, (name, symbol))
    } else {
        entries.push((name, symbol))
    }
}

/// No name is bound twice.
pub open spec fn unique_names(entries: Seq<(Seq<char>, SymbolView)>) -> bool {
    forall|i: int, j: int|
        0 <= i < j < entries.len() ==> (#[trigger] entries[i]).0 != (#[trigger] entries[j]).0
}

/// `find` stops at the first entry that binds the name.
pub proof fn lemma_find(entries: Seq<(Seq<char>, SymbolView)>, name: Seq<char>, from: int)
    requires
        0 <= from <= entries.len(),
    ensures
        from <= find(entries, name, from) <= entries.len(),
        forall|j: int| from <= j < find(entries, name, from) ==> (#[trigger] entries[j]).0 != name,
        find(entries, name, from) < entries.len() ==> entries[find(entries, name, from)].0 == name,
    decreases entries.len() - from,
{
    if from < entries.len() && entries[from].0 != name {
        lemma_find(entries, name, from + 1);
    }
}

/// Two indices that bind the same name, none before them binding it, are the
/// same index.
pub proof fn lemma_find_is_first(entries: Seq<(Seq<char>, SymbolView)>, name: Seq<char>, at: int)
    requires
        0 <= at <= entries.len(),
        forall|j: int| 0 <= j < at ==> (#[trigger] entries[j]).0 != name,
        at < entries.len() ==> entries[at].0 == name,
    ensures
        find(entries, name, 0) == at,
{
    lemma_find(entries, name, 0);
    let f = find(entries, name, 0);
    if f < at {
    } else if at < f {
    }
}

/// Binding keeps names unique, binds the name to the symbol at the place
/// where it was bound before, if it was, and leaves every other name as it
/// was.
pub proof fn lemma_bind(
    entries: Seq<(Seq<char>, SymbolView)>,
    name: Seq<char>,
    symbol: SymbolView,
    other: Seq<char>,
)
    requires
        unique_names(entries),
    ensures
        unique_names(bind(entries, name, symbol)),
        find(bind(entries, name, symbol), name, 0) == find(entries, name, 0),
        lookup(bind(entries, name, symbol), name) == Some(symbol),
        other != name ==> lookup(bind(entries, name, symbol), other) == lookup(entries, other),
{
    let after = bind(entries, name, symbol);
    let at = find(entries, name, 0);
    lemma_find(entries, name, 0);
    lemma_find_is_first(after, name, at);
    if other != name {
        lemma_find(entries, other, 0);
        let a = find(entries, other, 0);
        if a < entries.len() {
            lemma_find_is_first(after, other, a);
        } else {
            lemma_find_is_first(after, other, after.len() as int);
        }
    }
}

/// The name of temporary number `n`.
pub open spec fn tmp_name(n: nat) -> Seq<char> {
    "t"@ + decimal(n)
}

/// Whether `name` is bound.
pub open spec fn is_bound(entries: Seq<(Seq<char>, SymbolView)>, name: Seq<char>) -> bool {
    find(entries, name, 0) < entries.len()
}

/// The lowest number at or above `from` whose temporary is not bound.
pub open spec fn first_free(entries: Seq<(Seq<char>, SymbolView)>, from: nat) -> nat
    decreases entries.len() + 1 - from,
{
    if from <= entries.len() && is_bound(entries, tmp_name(from)) {
        first_free(entries, from + 1)
    } else {
        from
    }
}

/// The name of the lowest-numbered temporary that is not bound.
pub open spec fn fresh_name(entries: Seq<(Seq<char>, SymbolView)>) -> Seq<char> {
    tmp_name(first_free(entries, 0))
}

/// Different temporaries have different names.
pub proof fn lemma_tmp_name_injective(a: nat, b: nat)
    requires
        tmp_name(a) == tmp_name(b),
    ensures
        a == b,
{
    assert(tmp_name(a).skip("t"@.len() as int) =~= decimal(a));
    assert(tmp_name(b).skip("t"@.len() as int) =~= decimal(b));
    lemma_decimal_injective(a, b);
}

/// A function that maps the `n + 1` numbers from 0 to `n` to the `n` numbers
/// below `n` sends two of them to the same number.
proof fn lemma_pigeonhole(f: spec_fn(int) -> int, n: int) -> (pair: (int, int))
    requires
        n >= 0,
        forall|i: int| 0 <= i <= n ==> 0 <= #[trigger] f(i) < n,
    ensures
        0 <= pair.0 < pair.1 <= n,
        f(pair.0) == f(pair.1),
    decreases n,
{
    if n == 0 {
        (0, 0)
    } else if exists|i: int| 0 <= i < n && #[trigger] f(i) == f(n) {
        let i = choose|i: int| 0 <= i < n && #[trigger] f(i) == f(n);
        (i, n)
    } else {
        let v = f(n);
        let g = |i: int|
            if f(i) > v {
                f(i) - 1
            } else {
                f(i)
            };
        let (i, j) = lemma_pigeonhole(g, n - 1);
        (i, j)
    }
}

/// If the first `k` temporaries are all bound, the table has at least `k`
/// entries.
pub proof fn lemma_bound_temporaries_fit(entries: Seq<(Seq<char>, SymbolView)>, k: nat)
    requires
        forall|j: nat| j < k ==> is_bound(entries, #[trigger] tmp_name(j)),
    ensures
        k <= entries.len(),
{
    if k > entries.len() {
        let n = entries.len() as int;
        let f = |j: int| find(entries, tmp_name(j as nat), 0);
        assert forall|i: int| 0 <= i <= n implies 0 <= #[trigger] f(i) < n by {
            lemma_find(entries, tmp_name(i as nat), 0);
        }
        let (i, j) = lemma_pigeonhole(f, n);
        lemma_find(entries, tmp_name(i as nat), 0);
        lemma_find(entries, tmp_name(j as nat), 0);
        lemma_tmp_name_injective(i as nat, j as nat);
    }
}

/// The lowest free temporary is free, every lower one is bound, and its
/// number is at most the number of entries.
pub proof fn lemma_first_free(entries: Seq<(Seq<char>, SymbolView)>, from: nat)
    requires
        forall|j: nat| j < from ==> is_bound(entries, #[trigger] tmp_name(j)),
    ensures
        from <= first_free(entries, from) <= entries.len(),
        !is_bound(entries, tmp_name(first_free(entries, from))),
        forall|j: nat|
            j < first_free(entries, from) ==> is_bound(entries, #[trigger] tmp_name(j)),
    decreases entries.len() + 1 - from,
{
    lemma_bound_temporaries_fit(entries, from);
    if is_bound(entries, tmp_name(from)) {
        lemma_first_free(entries, from + 1);
    }
}

/// The result of inserting a node into a table: the entries afterwards, and
/// the symbol that a name was bound to before, for the first name that was
/// bound twice.
pub struct Inserted {
    pub entries: Seq<(Seq<char>, SymbolView)>,
    pub clash: Option<SymbolView>,
}

/// The first of two clashes.
pub open spec fn first_clash(first: Option<SymbolView>, second: Option<SymbolView>) -> Option<
    SymbolView,
> {
    if first is Some {
        first
    } else {
        second
    }
}

/// Binding `name` to `symbol`: the name is bound to the symbol in any case;
/// if it was bound before, that is a clash with the symbol it was bound to.
pub open spec fn bound(
    entries: Seq<(Seq<char>, SymbolView)>,
    name: Seq<char>,
    symbol: SymbolView,
) -> Inserted {
    Inserted { entries: bind(entries, name, symbol), clash: lookup(entries, name) }
}

/// Binding a name a second time clashes with the symbol it was bound to
/// the first time, whatever it was bound to before that, and leaves it bound
/// to the second symbol.
pub proof fn lemma_second_binding_clashes(
    entries: Seq<(Seq<char>, SymbolView)>,
    name: Seq<char>,
    first: SymbolView,
    second: SymbolView,
)
    requires
        unique_names(entries),
    ensures
        bound(bound(entries, name, first).entries, name, second).clash == Some(first),
        lookup(bound(bound(entries, name, first).entries, name, second).entries, name) == Some(
            second,
        ),
        unique_names(bound(bound(entries, name, first).entries, name, second).entries),
{
    lemma_bind(entries, name, first, name);
    lemma_bind(bind(entries, name, first), name, second, name);
}

/// A literal is bound as a variable under the lowest-numbered free
/// temporary; that never is a clash.
pub open spec fn inserted_val(entries: Seq<(Seq<char>, SymbolView)>, val: Value) -> Inserted {
    Inserted {
        entries: entries.push(
            (
                fresh_name(entries),
                SymbolView { ty: value_type(val), kind: ScopeKind::Var, val: Some(val) },
            ),
        ),
        clash: None,
    }
}

/// A parameter is bound under its name.
pub open spec fn inserted_param(entries: Seq<(Seq<char>, SymbolView)>, param: Param) -> Inserted {
    bound(entries, param.1@, SymbolView { ty: param.0@, kind: ScopeKind::Param, val: None })
}

/// Parameters are bound in order, from number `from` on, up to and
/// including the first that clashes.
pub open spec fn inserted_params(
    entries: Seq<(Seq<char>, SymbolView)>,
    params: Seq<Param>,
    from: int,
) -> Inserted
    decreases params.len() - from,
{
    if 0 <= from < params.len() {
        let one = inserted_param(entries, params[from]);
        if one.clash is Some {
            one
        } else {
            inserted_params(one.entries, params, from + 1)
        }
    } else {
        Inserted { entries, clash: None }
    }
}

/// A signature binds its parameters and then, unless one of them clashed,
/// the function's name as a signature of the return type.
pub open spec fn inserted_fdef(entries: Seq<(Seq<char>, SymbolView)>, fdef: FuncDef) -> Inserted {
    let params = inserted_params(entries, fdef.2@, 0);
    if params.clash is Some {
        params
    } else {
        bound(
            params.entries,
            fdef.1@,
            SymbolView { ty: fdef.0@, kind: ScopeKind::FSign, val: None },
        )
    }
}

/// What inserting a node does to a table.
pub open spec fn inserted_kind(entries: Seq<(Seq<char>, SymbolView)>, kind: ASTKind) -> Inserted
    decreases kind,
{
    match kind {
        ASTKind::Expr(expr) => inserted_expr(entries, expr),
        ASTKind::Param(param) => inserted_param(entries, param),
        ASTKind::Return(ret) => inserted_kind(entries, ret.0.kind),
        ASTKind::Val(val) => inserted_val(entries, val),
        ASTKind::VarDec(var) => inserted_var(entries, var),
        ASTKind::FuncDef(fdef) => inserted_fdef(entries, fdef),
        ASTKind::Func(func) => inserted_body(entries, func.1@, 0),
    }
}

/// An expression binds its literals; an identifier binds nothing.
pub open spec fn inserted_expr(entries: Seq<(Seq<char>, SymbolView)>, expr: Expr) -> Inserted
    decreases expr,
{
    match expr {
        Expr::Binary(bin) => inserted_bin(entries, bin),
        Expr::Noop(val) => inserted_val(entries, val),
        Expr::Unary(_) => Inserted { entries, clash: None },
    }
}

/// Both operands are inserted, the left one first, whether or not the left
/// one clashed; the first clash is reported.
pub open spec fn inserted_bin(entries: Seq<(Seq<char>, SymbolView)>, bin: BinExpr) -> Inserted
    decreases bin,
{
    let left = inserted_kind(entries, bin.lhs.kind);
    let right = inserted_kind(left.entries, bin.rhs.kind);
    Inserted { entries: right.entries, clash: first_clash(left.clash, right.clash) }
}

/// A declaration inserts its expression and then, unless that clashed, binds
/// its name as a variable.
pub open spec fn inserted_var(entries: Seq<(Seq<char>, SymbolView)>, var: Variable) -> Inserted
    decreases var,
{
    let expr = inserted_expr(entries, var.2);
    if expr.clash is Some {
        expr
    } else {
        bound(expr.entries, var.1@, SymbolView { ty: var.0@, kind: ScopeKind::Var, val: None })
    }
}

/// The nodes of a body are inserted in order, from number `from` on, up to
/// and including the first that clashes.
pub open spec fn inserted_body(
    entries: Seq<(Seq<char>, SymbolView)>,
    nodes: Seq<AST>,
    from: int,
) -> Inserted
    decreases nodes, nodes.len() - from,
{
    if 0 <= from < nodes.len() {
        let one = inserted_kind(entries, nodes[from].kind);
        if one.clash is Some {
            one
        } else {
            inserted_body(one.entries, nodes, from + 1)
        }
    } else {
        Inserted { entries, clash: None }
    }
}

/// Whether a result reports the clash, or the absence of one.
pub open spec fn reports(result: Result<(), SymbolError>, clash: Option<SymbolView>) -> bool {
    match result {
        Ok(()) => clash is None,
        Err(SymbolError::AlreadyExists(prior)) => clash == Some(prior@),
        Err(SymbolError::Undefined(_)) => false,
    }
}

/// The names of one scope and what they are bound to, with the identity of
/// the enclosing scope.
#[derive(Debug)]
pub struct SymbolTable {
    table: Vec<(String, Symbol)>,
    parent: Option<TableId>,
}

impl SymbolTable {
    /// The bindings, in the order in which their names were first bound.
    pub closed spec fn entries(&self) -> Seq<(Seq<char>, SymbolView)> {
        Seq::new(self.table@.len(), |i: int| (self.table@[i].0@, self.table@[i].1@))
    }

    /// The enclosing scope, if this is not the global one.
    pub closed spec fn parent_id(&self) -> Option<TableId> {
        self.parent
    }

    /// No name is bound twice.
    pub open spec fn wf(&self) -> bool {
        unique_names(self.entries())
    }

    /// An empty table.
    pub fn new(parent: Option<TableId>) -> (table: Self)
        ensures
            table.wf(),
            table.entries() == Seq::<(Seq<char>, SymbolView)>::empty(),
            table.parent_id() == parent,
    {
        let table = SymbolTable { table: Vec::new(), parent };
        table
    }

    /// The enclosing scope, if this is not the global one.
    pub fn parent(&self) -> (parent: Option<TableId>)
        ensures
            parent == self.parent_id(),
    {
        self.parent
    }

    /// The number of names bound.
    pub fn len(&self) -> (n: usize)
        ensures
            n == self.entries().len(),
    {
        self.table.len()
    }

    /// The name of binding number `index`.
    pub fn name_at(&self, index: usize) -> (name: Option<&String>)
        ensures
            name is Some <==> index < self.entries().len(),
            name matches Some(n) ==> n@ == self.entries()[index as int].0,
    {
        if index < self.table.len() {
            Some(&self.table[index].0)
        } else {
            None
        }
    }

    /// The symbol of binding number `index`.
    pub fn symbol_at(&self, index: usize) -> (symbol: Option<&Symbol>)
        ensures
            symbol is Some <==> index < self.entries().len(),
            symbol matches Some(s) ==> s@ == self.entries()[index as int].1,
    {
        if index < self.table.len() {
            Some(&self.table[index].1)
        } else {
            None
        }
    }

    /// Where `name` is bound, if it is.
    fn index_of(&self, name: &String) -> (at: Option<usize>)
        ensures
            match at {
                Some(i) => i == find(self.entries(), name@, 0) && i < self.entries().len(),
                None => find(self.entries(), name@, 0) == self.entries().len(),
            },
    {
        let mut i: usize = 0;
        while i < self.table.len()
            invariant
                i <= self.table@.len(),
                find(self.entries(), name@, 0) == find(self.entries(), name@, i as int),
            decreases self.table@.len() - i,
        {
            if self.table[i].0 == *name {
                return Some(i);
            }
            i = i + 1;
        }
        None
    }

    /// The symbol that `name` is bound to in this scope, if any.
    pub fn get(&self, name: &str) -> (symbol: Option<&Symbol>)
        ensures
            match symbol {
                Some(s) => lookup(self.entries(), name@) == Some(s@),
                None => lookup(self.entries(), name@) is None,
            },
    {
        let key = String::from_str(name);
        match self.index_of(&key) {
            Some(i) => Some(&self.table[i].1),
            None => None,
        }
    }

    /// Binds `name` to `symbol` and returns the symbol it was bound to
    /// before, if any.
    fn put(&mut self, name: String, symbol: Symbol) -> (prior: Option<Symbol>)
        requires
            old(self).wf(),
        ensures
            final(self).wf(),
            final(self).parent_id() == old(self).parent_id(),
            final(self).entries() == bind(old(self).entries(), name@, symbol@),
            match prior {
                Some(p) => lookup(old(self).entries(), name@) == Some(p@),
                None => lookup(old(self).entries(), name@) is None,
            },
    {
        proof {
            lemma_find(self.entries(), name@, 0);
        }
        match self.index_of(&name) {
            Some(i) => {
                let mut held = symbol;
                std::mem::swap(&mut self.table[i].1, &mut held);
                proof {
                    assert(self.entries() =~= bind(old(self).entries(), name@, symbol@));
                }
                Some(held)
            },
            None => {
                self.table.push((name, symbol));
                proof {
                    assert(self.entries() =~= bind(old(self).entries(), name@, symbol@));
                }
                None
            },
        }
    }

    /// Binds `name` to `symbol`; it is an error if the name was bound.
    fn declare(&mut self, name: String, symbol: Symbol) -> (r: Result<(), SymbolError>)
        requires
            old(self).wf(),
        ensures
            final(self).wf(),
            final(self).parent_id() == old(self).parent_id(),
            final(self).entries() == bound(old(self).entries(), name@, symbol@).entries,
            reports(r, bound(old(self).entries(), name@, symbol@).clash),
    {
        match self.put(name, symbol) {
            None => Ok(()),
            Some(e) => Err(SymbolError::AlreadyExists(e)),
        }
    }

    /// The name of the lowest-numbered temporary that is not bound.
    fn gen_tmpname(&self) -> (name: String)
        ensures
            name@ == fresh_name(self.entries()),
            !is_bound(self.entries(), name@),
    {
        let mut id: usize = 0;
        let mut tmp_name = String::from_str("t");
        let digits = unsigned_to_string(id as u64);
        tmp_name.append(digits.as_str());
        let total = self.table.len();
        loop
            invariant
                total == self.entries().len(),
                tmp_name@ == self::tmp_name(id as nat),
                first_free(self.entries(), 0) == first_free(self.entries(), id as nat),
                forall|j: nat| j < id ==> is_bound(self.entries(), #[trigger] self::tmp_name(j)),
                id <= self.entries().len(),
            decreases self.entries().len() - id,
        {
            if self.index_of(&tmp_name).is_none() {
                return tmp_name;
            }
            proof {
                lemma_bound_temporaries_fit(self.entries(), (id + 1) as nat);
            }
            id = id + 1;
            tmp_name = String::from_str("t");
            let digits = unsigned_to_string(id as u64);
            tmp_name.append(digits.as_str());
        }
    }

    /// Inserts a node.
    fn insert_abstract(&mut self, kind: &ASTKind) -> (r: Result<(), SymbolError>)
        requires
            old(self).wf(),
        ensures
            final(self).wf(),
            final(self).parent_id() == old(self).parent_id(),
            final(self).entries() == inserted_kind(old(self).entries(), *kind).entries,
            reports(r, inserted_kind(old(self).entries(), *kind).clash),
        decreases kind,
    {
        match kind {
            ASTKind::Expr(expr) => self.insert_expr(expr),
            ASTKind::Param(param) => self.insert_param(param),
            ASTKind::Return(ret) => self.insert_return(ret),
            ASTKind::Val(val) => self.insert_val(val),
            ASTKind::VarDec(var) => self.insert_var(var),
            ASTKind::FuncDef(fdef) => self.insert_fdef(fdef),
            ASTKind::Func(func) => self.insert_func(func),
        }
    }

    /// Binds a literal under the lowest-numbered free temporary.
    fn insert_val(&mut self, val: &Value) -> (r: Result<(), SymbolError>)
        requires
            old(self).wf(),
        ensures
            final(self).wf(),
            final(self).parent_id() == old(self).parent_id(),
            final(self).entries() == inserted_val(old(self).entries(), *val).entries,
            r is Ok,
    {
        let name = self.gen_tmpname();
        let symbol = Symbol::new(val.get_type(), ScopeKind::Var, Some(*val));
        let _ = self.put(name, symbol);
        Ok(())
    }

    /// Binds a parameter under its name.
    fn insert_param(&mut self, param: &Param) -> (r: Result<(), SymbolError>)
        requires
            old(self).wf(),
        ensures
            final(self).wf(),
            final(self).parent_id() == old(self).parent_id(),
            final(self).entries() == inserted_param(old(self).entries(), *param).entries,
            reports(r, inserted_param(old(self).entries(), *param).clash),
    {
        self.declare(String::from_str(param.1), Symbol::new(param.0.clone(), ScopeKind::Param, None))
    }

    /// Inserts what a return statement returns.
    fn insert_return(&mut self, ret: &Return) -> (r: Result<(), SymbolError>)
        requires
            old(self).wf(),
        ensures
            final(self).wf(),
            final(self).parent_id() == old(self).parent_id(),
            final(self).entries() == inserted_kind(old(self).entries(), ret.0.kind).entries,
            reports(r, inserted_kind(old(self).entries(), ret.0.kind).clash),
        decreases ret,
    {
        self.insert_abstract(&ret.0.kind)
    }

    /// Binds the parameters of a signature, up to the first that clashes, and
    /// then the name of the function.
    fn insert_fdef(&mut self, fdef: &FuncDef) -> (r: Result<(), SymbolError>)
        requires
            old(self).wf(),
        ensures
            final(self).wf(),
            final(self).parent_id() == old(self).parent_id(),
            final(self).entries() == inserted_fdef(old(self).entries(), *fdef).entries,
            reports(r, inserted_fdef(old(self).entries(), *fdef).clash),
    {
        let mut i: usize = 0;
        while i < fdef.2.len()
            invariant
                self.wf(),
                self.parent_id() == old(self).parent_id(),
                i <= fdef.2.len(),
                inserted_params(old(self).entries(), fdef.2@, 0) == inserted_params(
                    self.entries(),
                    fdef.2@,
                    i as int,
                ),
            decreases fdef.2.len() - i,
        {
            match self.insert_param(&fdef.2[i]) {
                Ok(()) => (),
                Err(e) => {
                    return Err(e);
                },
            }
            i = i + 1;
        }
        self.declare(String::from_str(fdef.1), Symbol::new(fdef.0.clone(), ScopeKind::FSign, None))
    }

    /// Inserts the nodes of the body of a function, up to the first that
    /// clashes.
    fn insert_func(&mut self, f: &Func) -> (r: Result<(), SymbolError>)
        requires
            old(self).wf(),
        ensures
            final(self).wf(),
            final(self).parent_id() == old(self).parent_id(),
            final(self).entries() == inserted_body(old(self).entries(), f.1@, 0).entries,
            reports(r, inserted_body(old(self).entries(), f.1@, 0).clash),
        decreases f,
    {
        let mut i: usize = 0;
        while i < f.1.len()
            invariant
                self.wf(),
                self.parent_id() == old(self).parent_id(),
                i <= f.1.len(),
                inserted_body(old(self).entries(), f.1@, 0) == inserted_body(
                    self.entries(),
                    f.1@,
                    i as int,
                ),
                forall|j: int| 0 <= j < f.1.len() ==> decreases_to!(f => f.1[j]),
            decreases f.1.len() - i,
        {
            match self.insert_abstract(&f.1[i].kind) {
                Ok(()) => (),
                Err(e) => {
                    return Err(e);
                },
            }
            i = i + 1;
        }
        Ok(())
    }

    /// Inserts the expression of a declaration and then, unless that clashed,
    /// binds its name.
    fn insert_var(&mut self, var: &Variable) -> (r: Result<(), SymbolError>)
        requires
            old(self).wf(),
        ensures
            final(self).wf(),
            final(self).parent_id() == old(self).parent_id(),
            final(self).entries() == inserted_var(old(self).entries(), *var).entries,
            reports(r, inserted_var(old(self).entries(), *var).clash),
        decreases var,
    {
        let _type = var.0.clone();
        let name = var.1;
        let expr = &var.2;
        match self.insert_expr(expr) {
            Ok(()) => self.declare(String::from_str(name), Symbol::new(_type, ScopeKind::Var, None)),
            Err(e) => Err(e),
        }
    }

    /// Inserts an expression.
    fn insert_expr(&mut self, expr: &Expr) -> (r: Result<(), SymbolError>)
        requires
            old(self).wf(),
        ensures
            final(self).wf(),
            final(self).parent_id() == old(self).parent_id(),
            final(self).entries() == inserted_expr(old(self).entries(), *expr).entries,
            reports(r, inserted_expr(old(self).entries(), *expr).clash),
        decreases expr,
    {
        match expr {
            Expr::Binary(bin) => self.insert_bin_expr(bin),
            Expr::Noop(val) => self.insert_val(val),
            Expr::Unary(unary) => self.insert_unary(unary),
        }
    }

    /// Inserts both operands of a binary expression and reports the first
    /// clash.
    fn insert_bin_expr(&mut self, bin: &BinExpr) -> (r: Result<(), SymbolError>)
        requires
            old(self).wf(),
        ensures
            final(self).wf(),
            final(self).parent_id() == old(self).parent_id(),
            final(self).entries() == inserted_bin(old(self).entries(), *bin).entries,
            reports(r, inserted_bin(old(self).entries(), *bin).clash),
        decreases bin,
    {
        let lhs = self.insert_abstract(&bin.lhs.kind);
        let rhs = self.insert_abstract(&bin.rhs.kind);
        match (lhs, rhs) {
            (Ok(()), Ok(())) => Ok(()),
            (Err(e), Ok(())) => Err(e),
            (Ok(()), Err(e)) => Err(e),
            (Err(e), Err(_)) => Err(e),
        }
    }

    /// Inserts an expression with one operand, which binds nothing.
    fn insert_unary(&mut self, un: &UnaryExpr) -> (r: Result<(), SymbolError>)
        ensures
            *final(self) == *old(self),
            r is Ok,
    {
        match un {
            UnaryExpr::Id(_) => Ok(()),
        }
    }
}

/// What a table is, as a mathematical value: its bindings in order, and the
/// identity of the enclosing scope.
pub struct Scope {
    pub entries: Seq<(Seq<char>, SymbolView)>,
    pub parent: Option<TableId>,
}

impl View for SymbolTable {
    type V = Scope;

    open spec fn view(&self) -> Scope {
        Scope { entries: self.entries(), parent: self.parent_id() }
    }
}

/// How one binding is written: the name, a bar, the symbol, on a line of
/// its own.
pub open spec fn entry_text(entry: (Seq<char>, SymbolView)) -> Seq<char> {
    entry.0 + " | "@ + symbol_text(entry.1) + " \n"@
}

/// How a run of bindings is written.
pub open spec fn entries_text(entries: Seq<(Seq<char>, SymbolView)>) -> Seq<char>
    decreases entries.len(),
{
    if entries.len() == 0 {
        Seq::empty()
    } else {
        entries_text(entries.drop_last()) + entry_text(entries.last())
    }
}

/// How a table is written: a heading, then its bindings in order.
pub open spec fn table_text(entries: Seq<(Seq<char>, SymbolView)>) -> Seq<char> {
    "Name | Type | Scope | Value\n"@ + entries_text(entries)
}

impl SymbolTable {
    /// The table as text.
    pub fn to_string(&self) -> (s: String)
        ensures
            s@ == table_text(self.entries()),
    {
        let mut s = String::from_str("Name | Type | Scope | Value\n");
        let ghost head = s@;
        let mut i: usize = 0;
        while i < self.table.len()
            invariant
                i <= self.table@.len(),
                self.table@.len() == self.entries().len(),
                s@ == head + entries_text(self.entries().take(i as int)),
            decreases self.table@.len() - i,
        {
            s.append(self.table[i].0.as_str());
            s.append(" | ");
            let value = self.table[i].1.to_string();
            s.append(value.as_str());
            s.append(" \n");
            proof {
                assert(self.entries().take(i as int + 1).drop_last() =~= self.entries().take(
                    i as int,
                ));
            }
            i = i + 1;
        }
        proof {
            assert(self.entries().take(self.table@.len() as int) =~= self.entries());
        }
        s
    }

    /// The name of the first binding whose symbol holds the literal `val`.
    pub fn name_of_val(&self, val: Value) -> (name: Option<&String>)
        ensures
            match name {
                Some(n) => find_val(self.entries(), val, 0) < self.entries().len() && n@
                    == self.entries()[find_val(self.entries(), val, 0)].0,
                None => find_val(self.entries(), val, 0) == self.entries().len(),
            },
    {
        let mut i: usize = 0;
        while i < self.table.len()
            invariant
                i <= self.table@.len(),
                self.table@.len() == self.entries().len(),
                find_val(self.entries(), val, 0) == find_val(self.entries(), val, i as int),
            decreases self.table@.len() - i,
        {
            if let Some(value) = self.table[i].1.val {
                if val == value {
                    return Some(&self.table[i].0);
                }
            }
            i = i + 1;
        }
        None
    }
}

/// The first index at or after `from` whose symbol holds the literal `val`,
/// or the number of entries if none does.
pub open spec fn find_val(entries: Seq<(Seq<char>, SymbolView)>, val: Value, from: int) -> int
    decreases entries.len() - from,
{
    if 0 <= from < entries.len() && entries[from].1.val != Some(val) {
        find_val(entries, val, from + 1)
    } else {
        from
    }
}

/// `find_val` stops at the first entry that holds the literal.
pub proof fn lemma_find_val(entries: Seq<(Seq<char>, SymbolView)>, val: Value, from: int)
    requires
        0 <= from <= entries.len(),
    ensures
        from <= find_val(entries, val, from) <= entries.len(),
        forall|j: int|
            from <= j < find_val(entries, val, from) ==> (#[trigger] entries[j]).1.val != Some(val),
        find_val(entries, val, from) < entries.len() ==> entries[find_val(
            entries,
            val,
            from,
        )].1.val == Some(val),
    decreases entries.len() - from,
{
    if from < entries.len() && entries[from].1.val != Some(val) {
        lemma_find_val(entries, val, from + 1);
    }
}

/// The result of inserting into a map of scopes: the scopes afterwards, and
/// the first clash.
pub struct Filled {
    pub scopes: Seq<Scope>,
    pub clash: Option<SymbolView>,
}

/// `scopes` with the entries of scope `at` replaced.
pub open spec fn with_entries(
    scopes: Seq<Scope>,
    at: int,
    entries: Seq<(Seq<char>, SymbolView)>,
) -> Seq<Scope> {
    scopes.update(at, Scope { entries, parent: scopes[at].parent })
}

/// What inserting a node into scope `curr` does to the scopes.
///
/// A function binds its signature in `curr` and its body in a new scope,
/// whose parent is `curr` and which comes behind all others; the body is
/// inserted whether or not the signature clashed, and the first clash is
/// reported. Every other node is inserted into `curr`.
pub open spec fn map_inserted(scopes: Seq<Scope>, curr: int, kind: ASTKind) -> Filled {
    match kind {
        ASTKind::Func(func) => {
            let sign = inserted_fdef(scopes[curr].entries, func.0);
            let body = inserted_body(Seq::empty(), func.1@, 0);
            Filled {
                scopes: with_entries(scopes, curr, sign.entries).push(
                    Scope { entries: body.entries, parent: Some(curr as usize) },
                ),
                clash: first_clash(sign.clash, body.clash),
            }
        },
        _ => {
            let one = inserted_kind(scopes[curr].entries, kind);
            Filled { scopes: with_entries(scopes, curr, one.entries), clash: one.clash }
        },
    }
}

/// The nodes of a compilation unit are inserted into the global scope in
/// order, from number `from` on, up to and including the first that clashes.
pub open spec fn map_filled(scopes: Seq<Scope>, source: Seq<AST>, from: int) -> Filled
    decreases source.len() - from,
{
    if 0 <= from < source.len() {
        let one = map_inserted(scopes, 0, source[from].kind);
        if one.clash is Some {
            one
        } else {
            map_filled(one.scopes, source, from + 1)
        }
    } else {
        Filled { scopes, clash: None }
    }
}

/// The scopes to fill: those there are, or a global scope if there is none.
pub open spec fn with_global(scopes: Seq<Scope>) -> Seq<Scope> {
    if scopes.len() == 0 {
        seq![Scope { entries: Seq::empty(), parent: None }]
    } else {
        scopes
    }
}

/// What `name` resolves to from scope `id`: the symbol it is bound to in the
/// innermost scope that binds it, on the way from `id` to the global scope.
pub open spec fn resolve(scopes: Seq<Scope>, id: int, name: Seq<char>) -> Option<SymbolView>
    decreases id,
{
    if 0 <= id < scopes.len() {
        match lookup(scopes[id].entries, name) {
            Some(symbol) => Some(symbol),
            None => match scopes[id].parent {
                Some(p) => if p < id {
                    resolve(scopes, p as int, name)
                } else {
                    None
                },
                None => None,
            },
        }
    } else {
        None
    }
}

/// Every scope binds no name twice, and names an earlier scope as its
/// parent, if any.
pub open spec fn scopes_wf(scopes: Seq<Scope>) -> bool {
    forall|i: int|
        0 <= i < scopes.len() ==> unique_names((#[trigger] scopes[i]).entries) && (
        scopes[i].parent matches Some(p) ==> p < i)
}

/// The scopes of a compilation unit. Scope 0 is the global scope.
#[derive(Debug)]
pub struct SymbolMap {
    inner: Vec<SymbolTable>,
}

impl View for SymbolMap {
    type V = Seq<Scope>;

    closed spec fn view(&self) -> Seq<Scope> {
        Seq::new(self.inner@.len(), |i: int| self.inner@[i]@)
    }
}

impl SymbolMap {
    /// The scopes are in order.
    pub open spec fn wf(&self) -> bool {
        scopes_wf(self@)
    }

    /// A map without scopes.
    pub fn new() -> (map: Self)
        ensures
            map.wf(),
            map@.len() == 0,
    {
        Self { inner: Vec::new() }
    }

    /// The number of scopes.
    pub fn len(&self) -> (n: usize)
        ensures
            n == self@.len(),
    {
        self.inner.len()
    }

    /// The scope with identity `id`, if there is one.
    pub fn table(&self, id: TableId) -> (table: Option<&SymbolTable>)
        ensures
            table is Some <==> id < self@.len(),
            table matches Some(t) ==> t@ == self@[id as int],
    {
        if id < self.inner.len() {
            Some(&self.inner[id])
        } else {
            None
        }
    }

    /// Opens a new, empty scope inside `parent` and returns its identity.
    pub fn add(&mut self, parent: Option<TableId>) -> (id: TableId)
        requires
            old(self).wf(),
            parent matches Some(p) ==> p < old(self)@.len(),
        ensures
            final(self).wf(),
            id == old(self)@.len(),
            final(self)@ == old(self)@.push(Scope { entries: Seq::empty(), parent }),
    {
        self.inner.push(SymbolTable::new(parent));
        proof {
            assert(self@ =~= old(self)@.push(Scope { entries: Seq::empty(), parent }));
        }
        self.inner.len() - 1
    }

    /// Inserts a node into scope `curr`.
    pub fn insert(&mut self, curr: TableId, kind: &ASTKind) -> (r: Result<(), SymbolError>)
        requires
            old(self).wf(),
            curr < old(self)@.len(),
        ensures
            final(self).wf(),
            final(self)@ == map_inserted(old(self)@, curr as int, *kind).scopes,
            reports(r, map_inserted(old(self)@, curr as int, *kind).clash),
    {
        match kind {
            ASTKind::Expr(expr) => {
                let r = self.inner[curr].insert_expr(expr);
                proof {
                    assert(self@ =~= map_inserted(old(self)@, curr as int, *kind).scopes);
                }
                r
            },
            ASTKind::Param(param) => {
                let r = self.inner[curr].insert_param(param);
                proof {
                    assert(self@ =~= map_inserted(old(self)@, curr as int, *kind).scopes);
                }
                r
            },
            ASTKind::Return(ret) => {
                let r = self.inner[curr].insert_return(ret);
                proof {
                    assert(self@ =~= map_inserted(old(self)@, curr as int, *kind).scopes);
                }
                r
            },
            ASTKind::Val(val) => {
                let r = self.inner[curr].insert_val(val);
                proof {
                    assert(self@ =~= map_inserted(old(self)@, curr as int, *kind).scopes);
                }
                r
            },
            ASTKind::VarDec(var) => {
                let r = self.inner[curr].insert_var(var);
                proof {
                    assert(self@ =~= map_inserted(old(self)@, curr as int, *kind).scopes);
                }
                r
            },
            ASTKind::FuncDef(fdef) => {
                let r = self.inner[curr].insert_fdef(fdef);
                proof {
                    assert(self@ =~= map_inserted(old(self)@, curr as int, *kind).scopes);
                }
                r
            },
            ASTKind::Func(f) => {
                let sign = self.inner[curr].insert_fdef(&f.0);
                let mut scope = SymbolTable::new(Some(curr));
                let body = scope.insert_func(f);
                self.inner.push(scope);
                proof {
                    assert(self@ =~= map_inserted(old(self)@, curr as int, *kind).scopes);
                }
                match (sign, body) {
                    (Ok(()), Ok(())) => Ok(()),
                    (Err(e), Ok(())) => Err(e),
                    (Ok(()), Err(e)) => Err(e),
                    (Err(e), Err(_)) => Err(e),
                }
            },
        }
    }

    /// Inserts the nodes of a compilation unit into the global scope, in
    /// order, and stops at the first that clashes. The global scope is made
    /// first if the map has no scope yet.
    pub fn fill_from_source(&mut self, source: &[AST]) -> (r: Result<(), SymbolError>)
        requires
            old(self).wf(),
        ensures
            final(self).wf(),
            final(self)@ == map_filled(with_global(old(self)@), source@, 0).scopes,
            reports(r, map_filled(with_global(old(self)@), source@, 0).clash),
    {
        if self.inner.len() == 0 {
            self.inner.push(SymbolTable::new(None));
            proof {
                assert(self@ =~= with_global(old(self)@));
            }
        }
        let mut i: usize = 0;
        while i < source.len()
            invariant
                self.wf(),
                self@.len() > 0,
                i <= source@.len(),
                map_filled(with_global(old(self)@), source@, 0) == map_filled(
                    self@,
                    source@,
                    i as int,
                ),
            decreases source@.len() - i,
        {
            match self.insert(0, &source[i].kind) {
                Ok(()) => (),
                Err(e) => {
                    return Err(e);
                },
            }
            i = i + 1;
        }
        Ok(())
    }

    /// The symbol that `name` resolves to from scope `id`: that of the
    /// innermost scope that binds it, on the way from `id` through the
    /// enclosing scopes to the global scope; `None` if none of them binds it.
    /// What a scope binds itself is `table(id)` and its `get`.
    pub fn get(&self, id: TableId, name: &str) -> (symbol: Option<&Symbol>)
        ensures
            match symbol {
                Some(s) => resolve(self@, id as int, name@) == Some(s@),
                None => resolve(self@, id as int, name@) is None,
            },
    {
        let mut at = id;
        loop
            invariant
                resolve(self@, id as int, name@) == resolve(self@, at as int, name@),
            decreases at,
        {
            if at >= self.inner.len() {
                return None;
            }
            proof {
                assert(self@[at as int] == self.inner@[at as int]@);
            }
            match self.inner[at].get(name) {
                Some(symbol) => {
                    return Some(symbol);
                },
                None => {},
            }
            match self.inner[at].parent() {
                Some(p) => {
                    if p < at {
                        at = p;
                    } else {
                        return None;
                    }
                },
                None => {
                    return None;
                },
            }
        }
    }

    /// The name under which the literal `val` is first bound in scope `id`,
    /// if the scope exists and holds it.
    pub fn get_from_val(&self, id: TableId, val: Value) -> (name: Option<&String>)
        ensures
            match name {
                Some(n) => id < self@.len() && find_val(self@[id as int].entries, val, 0)
                    < self@[id as int].entries.len() && n@ == self@[id as int].entries[find_val(
                    self@[id as int].entries,
                    val,
                    0,
                )].0,
                None => id >= self@.len() || find_val(self@[id as int].entries, val, 0)
                    == self@[id as int].entries.len(),
            },
    {
        if id < self.inner.len() {
            self.inner[id].name_of_val(val)
        } else {
            None
        }
    }

    /// Resolves `name` from scope `id` outwards: the symbol of the innermost
    /// scope that binds it, or an error that names it if none does.
    pub fn lookup(&self, id: TableId, name: &str) -> (r: Result<&Symbol, SymbolError>)
        ensures
            match r {
                Ok(symbol) => resolve(self@, id as int, name@) == Some(symbol@),
                Err(SymbolError::Undefined(missing)) => resolve(self@, id as int, name@) is None
                    && missing@ == name@,
                Err(_) => false,
            },
    {
        match self.get(id, name) {
            Some(symbol) => Ok(symbol),
            None => Err(SymbolError::Undefined(String::from_str(name))),
        }
    }
}

/// The scopes after a fresh temporary of type `ty` is bound in scope `id`.
pub open spec fn with_temporary(scopes: Seq<Scope>, id: int, ty: TypeView) -> Seq<Scope> {
    with_entries(
        scopes,
        id,
        scopes[id].entries.push(
            (fresh_name(scopes[id].entries), SymbolView { ty, kind: ScopeKind::Var, val: None }),
        ),
    )
}

/// How the scopes are written: for each its number on a line, its table,
/// and an empty line.
pub open spec fn scopes_text(scopes: Seq<Scope>) -> Seq<char>
    decreases scopes.len(),
{
    if scopes.len() == 0 {
        Seq::empty()
    } else {
        scopes_text(scopes.drop_last()) + "POS: "@ + decimal((scopes.len() - 1) as nat) + "\n"@
            + table_text(scopes.last().entries) + "\n"@
    }
}

impl SymbolMap {
    /// Binds the lowest-numbered free temporary of scope `id` as a variable
    /// of type `ty` without a value, and returns its name; `None`, and
    /// nothing changed, if there is no such scope.
    pub fn insert_temp(&mut self, id: TableId, ty: TypeInstance) -> (name: Option<String>)
        requires
            old(self).wf(),
        ensures
            final(self).wf(),
            match name {
                Some(n) => id < old(self)@.len() && n@ == fresh_name(old(self)@[id as int].entries)
                    && final(self)@ == with_temporary(old(self)@, id as int, ty@),
                None => id >= old(self)@.len() && final(self)@ == old(self)@,
            },
    {
        if id < self.inner.len() {
            let name = self.inner[id].gen_tmpname();
            let symbol = Symbol::new(ty, ScopeKind::Var, None);
            let _ = self.inner[id].put(name.clone(), symbol);
            proof {
                assert(self@ =~= with_temporary(old(self)@, id as int, ty@));
            }
            Some(name)
        } else {
            None
        }
    }

    /// The scopes as text.
    pub fn to_string(&self) -> (s: String)
        ensures
            s@ == scopes_text(self@),
    {
        let mut s = String::new();
        let mut i: usize = 0;
        while i < self.inner.len()
            invariant
                i <= self.inner@.len(),
                self.inner@.len() == self@.len(),
                s@ == scopes_text(self@.take(i as int)),
            decreases self.inner@.len() - i,
        {
            s.append("POS: ");
            let number = unsigned_to_string(i as u64);
            s.append(number.as_str());
            s.append("\n");
            let table = self.inner[i].to_string();
            s.append(table.as_str());
            s.append("\n");
            proof {
                assert(self@.take(i as int + 1).drop_last() =~= self@.take(i as int));
            }
            i = i + 1;
        }
        proof {
            assert(self@.take(self.inner@.len() as int) =~= self@);
        }
        s
    }
}

} // verus!
