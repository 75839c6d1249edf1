//! The abstract syntax tree of a compilation unit, and how it is written.

use crate::text::{signed_decimal, signed_to_string, unsigned_to_string};
use crate::types::designators::{TypeInstance, TypeView, type_text};
use vstd::prelude::*;
use vstd::string::StringExecFns;

verus! {

/// A compilation unit: its top-level nodes, in order.
pub struct Source<'a>(pub Vec<AST<'a>>);

/// A node of the tree.
pub struct AST<'a> {
    pub kind: ASTKind<'a>,
}

impl<'a> AST<'a> {
    /// A node of kind `kind`.
    pub fn new(kind: ASTKind<'a>) -> (ast: Self)
        ensures
            ast.kind == kind,
    {
        Self { kind }
    }
}

/// What a node is.
pub enum ASTKind<'a> {
    Val(Value),
    VarDec(Variable<'a>),
    Param(Param<'a>),
    Expr(Expr<'a>),
    FuncDef(FuncDef<'a>),
    Func(Func<'a>),
    Return(Return<'a>),
}

/// A literal: a value that has no identifier of its own.
#[derive(Copy, Clone, Debug, Eq, PartialEq, PartialOrd, Ord, Structural)]
pub enum Value {
    Integer(SignKind),
}

/// A signed integer literal, by width.
#[derive(Copy, Clone, Debug, Eq, PartialEq, PartialOrd, Ord, Structural)]
pub enum Signed {
    Char(i8),
    Short(i16),
    Int(i32),
    Long(i64),
    LongLong(i64),
}

/// An unsigned integer literal, by width.
#[derive(Copy, Clone, Debug, Eq, PartialEq, PartialOrd, Ord, Structural)]
pub enum Unsigned {
    Char(u8),
    Short(u16),
    Int(u32),
    Long(u64),
    LongLong(u64),
}

/// An integer literal, signed or unsigned.
#[derive(Copy, Clone, Debug, Eq, PartialEq, PartialOrd, Ord, Structural)]
pub enum SignKind {
    Signed(Signed),
    Unsigned(Unsigned),
}

/// A variable declaration: type, name, and the expression it is bound to.
pub struct Variable<'a>(pub TypeInstance, pub &'a str, pub Expr<'a>);

/// An expression.
pub enum Expr<'a> {
    Binary(BinExpr<'a>),
    Unary(UnaryExpr<'a>),
    Noop(Value),
}

/// A binary expression: two operands and the operator between them.
pub struct BinExpr<'a> {
    pub lhs: Box<AST<'a>>,
    pub op: BinOp,
    pub rhs: Box<AST<'a>>,
}

/// An expression with one operand.
pub enum UnaryExpr<'a> {
    Id(Id<'a>),
}

/// An identifier.
pub struct Id<'a>(pub &'a str);

/// The binary operators.
#[derive(Copy, Clone, Debug, Eq, PartialEq, Structural)]
pub enum BinOp {
    Add,
    Sub,
    Mul,
    Div,
}

/// A parameter: type and name.
pub struct Param<'a>(pub TypeInstance, pub &'a str);

/// A function signature: return type, name and parameters.
pub struct FuncDef<'a>(pub TypeInstance, pub &'a str, pub Vec<Param<'a>>);

/// A function: its signature and the nodes of its body.
pub struct Func<'a>(pub FuncDef<'a>, pub Vec<AST<'a>>);

/// A return statement, with the node whose value is returned.
pub struct Return<'a>(pub Box<AST<'a>>);

/// The integer a signed literal holds.
pub open spec fn signed_value(s: Signed) -> int {
    match s {
        Signed::Char(c) => c as int,
        Signed::Short(c) => c as int,
        Signed::Int(c) => c as int,
        Signed::Long(c) => c as int,
        Signed::LongLong(c) => c as int,
    }
}

/// The integer an unsigned literal holds.
pub open spec fn unsigned_value(u: Unsigned) -> int {
    match u {
        Unsigned::Char(c) => c as int,
        Unsigned::Short(c) => c as int,
        Unsigned::Int(c) => c as int,
        Unsigned::Long(c) => c as int,
        Unsigned::LongLong(c) => c as int,
    }
}

/// The integer a literal holds.
pub open spec fn value_of(v: Value) -> int {
    match v {
        Value::Integer(SignKind::Signed(s)) => signed_value(s),
        Value::Integer(SignKind::Unsigned(u)) => unsigned_value(u),
    }
}

/// The type of a literal: its width decides, its sign does not.
pub open spec fn value_type(v: Value) -> TypeView {
    match v {
        Value::Integer(SignKind::Signed(Signed::Char(_))) => TypeView::Char,
        Value::Integer(SignKind::Signed(Signed::Int(_))) => TypeView::Int,
        Value::Integer(SignKind::Signed(Signed::Short(_))) => TypeView::Short,
        Value::Integer(SignKind::Signed(Signed::Long(_))) => TypeView::Long,
        Value::Integer(SignKind::Signed(Signed::LongLong(_))) => TypeView::LongLong,
        Value::Integer(SignKind::Unsigned(Unsigned::Char(_))) => TypeView::Char,
        Value::Integer(SignKind::Unsigned(Unsigned::Int(_))) => TypeView::Int,
        Value::Integer(SignKind::Unsigned(Unsigned::Short(_))) => TypeView::Short,
        Value::Integer(SignKind::Unsigned(Unsigned::Long(_))) => TypeView::Long,
        Value::Integer(SignKind::Unsigned(Unsigned::LongLong(_))) => TypeView::LongLong,
    }
}

/// How a binary operator is written.
pub open spec fn op_text(op: BinOp) -> Seq<char> {
    match op {
        BinOp::Add => "+"@,
        BinOp::Sub => "-"@,
        BinOp::Mul => "*"@,
        BinOp::Div => "/"@,
    }
}

/// How a parameter is written: its type, a space, its name.
pub open spec fn param_text(param: Param) -> Seq<char> {
    type_text(param.0@) + " "@ + param.1@
}

/// How a run of parameters is written: each followed by a comma.
pub open spec fn params_text(params: Seq<Param>) -> Seq<char>
    decreases params.len(),
{
    if params.len() == 0 {
        Seq::empty()
    } else {
        params_text(params.drop_last()) + param_text(params.last()) + ","@
    }
}

/// How a function signature is written, on a line of its own.
pub open spec fn funcdef_text(fdef: FuncDef) -> Seq<char> {
    type_text(fdef.0@) + " "@ + fdef.1@ + "("@ + params_text(fdef.2@) + ");\n"@
}

/// How a node is written.
pub open spec fn kind_text(kind: ASTKind) -> Seq<char>
    decreases kind,
{
    match kind {
        ASTKind::Expr(expr) => expr_text(expr),
        ASTKind::Val(val) => signed_decimal(value_of(val)),
        ASTKind::VarDec(var) => variable_text(var),
        ASTKind::FuncDef(fdef) => funcdef_text(fdef),
        ASTKind::Return(ret) => return_text(ret),
        ASTKind::Param(param) => param_text(param),
        ASTKind::Func(func) => func_text(func),
    }
}

/// How an expression is written.
pub open spec fn expr_text(expr: Expr) -> Seq<char>
    decreases expr,
{
    match expr {
        Expr::Binary(bin) => bin_text(bin),
        Expr::Unary(UnaryExpr::Id(id)) => id.0@,
        Expr::Noop(val) => signed_decimal(value_of(val)),
    }
}

/// How a binary expression is written: its operands around its operator.
pub open spec fn bin_text(bin: BinExpr) -> Seq<char>
    decreases bin,
{
    kind_text(bin.lhs.kind) + " "@ + op_text(bin.op) + " "@ + kind_text(bin.rhs.kind)
}

/// How a variable declaration is written, on a line of its own.
pub open spec fn variable_text(var: Variable) -> Seq<char>
    decreases var,
{
    type_text(var.0@) + " "@ + var.1@ + " = "@ + expr_text(var.2) + ";\n"@
}

/// How a return statement is written.
pub open spec fn return_text(ret: Return) -> Seq<char>
    decreases ret,
{
    "return "@ + kind_text(ret.0.kind) + ";"@
}

/// How a function is written: its signature, then its body in braces, each
/// node of it on a line of its own.
pub open spec fn func_text(func: Func) -> Seq<char>
    decreases func,
{
    funcdef_text(func.0) + " {\n"@ + body_text(func.1@) + "}\n"@
}

/// How the nodes of a body are written: each followed by a line break.
pub open spec fn body_text(nodes: Seq<AST>) -> Seq<char>
    decreases nodes,
{
    if nodes.len() == 0 {
        Seq::empty()
    } else {
        body_text(nodes.drop_last()) + kind_text(nodes.last().kind) + "\n"@
    }
}

impl Value {
    /// The type of the literal.
    pub fn get_type(&self) -> (ty: TypeInstance)
        ensures
            ty@ == value_type(*self),
    {
        match self {
            Value::Integer(SignKind::Signed(Signed::Char(_))) => TypeInstance::Char,
            Value::Integer(SignKind::Signed(Signed::Int(_))) => TypeInstance::Int,
            Value::Integer(SignKind::Signed(Signed::Short(_))) => TypeInstance::Short,
            Value::Integer(SignKind::Signed(Signed::Long(_))) => TypeInstance::Long,
            Value::Integer(SignKind::Signed(Signed::LongLong(_))) => TypeInstance::LongLong,
            Value::Integer(SignKind::Unsigned(Unsigned::Char(_))) => TypeInstance::Char,
            Value::Integer(SignKind::Unsigned(Unsigned::Int(_))) => TypeInstance::Int,
            Value::Integer(SignKind::Unsigned(Unsigned::Short(_))) => TypeInstance::Short,
            Value::Integer(SignKind::Unsigned(Unsigned::Long(_))) => TypeInstance::Long,
            Value::Integer(SignKind::Unsigned(Unsigned::LongLong(_))) => TypeInstance::LongLong,
        }
    }

    /// The literal as a decimal numeral.
    pub fn to_string(&self) -> (s: String)
        ensures
            s@ == signed_decimal(value_of(*self)),
    {
        match self {
            Value::Integer(kind) => kind.to_string(),
        }
    }
}

impl Signed {
    /// The literal as a decimal numeral.
    pub fn to_string(&self) -> (s: String)
        ensures
            s@ == signed_decimal(signed_value(*self)),
    {
        match self {
            Signed::Char(c) => signed_to_string(*c as i64),
            Signed::Short(c) => signed_to_string(*c as i64),
            Signed::Int(c) => signed_to_string(*c as i64),
            Signed::Long(c) => signed_to_string(*c),
            Signed::LongLong(c) => signed_to_string(*c),
        }
    }
}

impl Unsigned {
    /// The literal as a decimal numeral.
    pub fn to_string(&self) -> (s: String)
        ensures
            s@ == signed_decimal(unsigned_value(*self)),
    {
        match self {
            Unsigned::Char(c) => unsigned_to_string(*c as u64),
            Unsigned::Short(c) => unsigned_to_string(*c as u64),
            Unsigned::Int(c) => unsigned_to_string(*c as u64),
            Unsigned::Long(c) => unsigned_to_string(*c),
            Unsigned::LongLong(c) => unsigned_to_string(*c),
        }
    }
}

impl SignKind {
    /// The literal as a decimal numeral.
    pub fn to_string(&self) -> (s: String)
        ensures
            s@ == signed_decimal(value_of(Value::Integer(*self))),
    {
        match self {
            SignKind::Signed(i) => i.to_string(),
            SignKind::Unsigned(i) => i.to_string(),
        }
    }
}

impl BinOp {
    /// The operator as text.
    pub fn to_string(&self) -> (s: String)
        ensures
            s@ == op_text(*self),
    {
        match self {
            BinOp::Add => String::from_str("+"),
            BinOp::Sub => String::from_str("-"),
            BinOp::Mul => String::from_str("*"),
            BinOp::Div => String::from_str("/"),
        }
    }
}

impl<'a> Id<'a> {
    /// The identifier as text.
    pub fn to_string(&self) -> (s: String)
        ensures
            s@ == self.0@,
    {
        String::from_str(self.0)
    }
}

impl<'a> Param<'a> {
    /// The parameter as text.
    pub fn to_string(&self) -> (s: String)
        ensures
            s@ == param_text(*self),
    {
        let mut s = self.0.to_string();
        s.append(" ");
        s.append(self.1);
        s
    }
}

impl<'a> FuncDef<'a> {
    /// The signature as text.
    pub fn to_string(&self) -> (s: String)
        ensures
            s@ == funcdef_text(*self),
    {
        let mut s = self.0.to_string();
        s.append(" ");
        s.append(self.1);
        s.append("(");
        let ghost head = s@;
        let mut i: usize = 0;
        while i < self.2.len()
            invariant
                i <= self.2.len(),
                s@ == head + params_text(self.2@.take(i as int)),
            decreases self.2.len() - i,
        {
            let one = self.2[i].to_string();
            s.append(one.as_str());
            s.append(",");
            proof {
                assert(self.2@.take(i as int + 1).drop_last() =~= self.2@.take(i as int));
            }
            i = i + 1;
        }
        proof {
            assert(self.2@.take(self.2.len() as int) =~= self.2@);
        }
        s.append(");\n");
        s
    }
}

impl<'a> ASTKind<'a> {
    /// The node as text.
    pub fn to_string(&self) -> (s: String)
        ensures
            s@ == kind_text(*self),
        decreases self,
    {
        match self {
            ASTKind::Expr(expr) => expr.to_string(),
            ASTKind::Val(val) => val.to_string(),
            ASTKind::VarDec(var) => var.to_string(),
            ASTKind::FuncDef(fdef) => fdef.to_string(),
            ASTKind::Return(ret) => ret.to_string(),
            ASTKind::Param(param) => param.to_string(),
            ASTKind::Func(func) => func.to_string(),
        }
    }
}

impl<'a> Expr<'a> {
    /// The expression as text.
    pub fn to_string(&self) -> (s: String)
        ensures
            s@ == expr_text(*self),
        decreases self,
    {
        match self {
            Expr::Binary(bin) => bin.to_string(),
            Expr::Unary(un) => un.to_string(),
            Expr::Noop(no) => no.to_string(),
        }
    }
}

impl<'a> UnaryExpr<'a> {
    /// The expression as text.
    pub fn to_string(&self) -> (s: String)
        ensures
            s@ == expr_text(Expr::Unary(*self)),
    {
        match self {
            UnaryExpr::Id(id) => id.to_string(),
        }
    }
}

impl<'a> BinExpr<'a> {
    /// The expression as text.
    pub fn to_string(&self) -> (s: String)
        ensures
            s@ == bin_text(*self),
        decreases self,
    {
        let mut s = self.lhs.kind.to_string();
        s.append(" ");
        let op = self.op.to_string();
        s.append(op.as_str());
        s.append(" ");
        let rhs = self.rhs.kind.to_string();
        s.append(rhs.as_str());
        s
    }
}

impl<'a> Variable<'a> {
    /// The declaration as text.
    pub fn to_string(&self) -> (s: String)
        ensures
            s@ == variable_text(*self),
        decreases self,
    {
        let mut s = self.0.to_string();
        s.append(" ");
        s.append(self.1);
        s.append(" = ");
        let expr = self.2.to_string();
        s.append(expr.as_str());
        s.append(";\n");
        s
    }
}

impl<'a> Return<'a> {
    /// The statement as text.
    pub fn to_string(&self) -> (s: String)
        ensures
            s@ == return_text(*self),
        decreases self,
    {
        let mut s = String::from_str("return ");
        let value = self.0.kind.to_string();
        s.append(value.as_str());
        s.append(";");
        s
    }
}

impl<'a> Func<'a> {
    /// The function as text.
    pub fn to_string(&self) -> (s: String)
        ensures
            s@ == func_text(*self),
        decreases self,
    {
        let mut s = self.0.to_string();
        s.append(" {\n");
        let ghost head = s@;
        let mut i: usize = 0;
        while i < self.1.len()
            invariant
                i <= self.1.len(),
                s@ == head + body_text(self.1@.take(i as int)),
                forall|j: int| 0 <= j < self.1.len() ==> decreases_to!(self => self.1[j]),
            decreases self.1.len() - i,
        {
            let one = self.1[i].kind.to_string();
            s.append(one.as_str());
            s.append("\n");
            proof {
                assert(self.1@.take(i as int + 1).drop_last() =~= self.1@.take(i as int));
            }
            i = i + 1;
        }
        proof {
            assert(self.1@.take(self.1.len() as int) =~= self.1@);
        }
        s.append("}\n");
        s
    }
}

} // verus!
