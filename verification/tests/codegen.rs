use sexpr_compiler::frontend::ast::{
    ASTKind, BinExpr, BinOp, Expr, Func, FuncDef, Id, SignKind, Signed, Source, UnaryExpr,
    Unsigned, Value, Variable, AST,
};
use sexpr_compiler::frontend::cfg::{Call, Cfg, Goto, Instruction};
use sexpr_compiler::frontend::symboltable::SymbolMap;
use sexpr_compiler::target::assembler::fasm::FasmError;
use sexpr_compiler::target::cached::{CachError, Cached, MemoryStore};
use sexpr_compiler::target::codegen::{generate, immediate_of};
use sexpr_compiler::types::designators::TypeInstance;

fn unsigned(n: u32) -> Value {
    Value::Integer(SignKind::Unsigned(Unsigned::Int(n)))
}

fn lowered(source: &Source) -> Cfg {
    let mut map = SymbolMap::new();
    assert!(map.fill_from_source(&source.0).is_ok());
    let mut cfg = Cfg::new(map);
    assert!(cfg.fill_from_source(source).is_ok());
    cfg
}

#[test]
fn every_name_gets_a_place_and_every_block_a_label() {
    let body = vec![AST::new(ASTKind::VarDec(Variable(
        TypeInstance::Int,
        "z",
        Expr::Noop(unsigned(7)),
    )))];
    let source = Source(vec![
        AST::new(ASTKind::VarDec(Variable(TypeInstance::Int, "x", Expr::Noop(unsigned(4))))),
        AST::new(ASTKind::VarDec(Variable(
            TypeInstance::Int,
            "y",
            Expr::Unary(UnaryExpr::Id(Id("x"))),
        ))),
        AST::new(ASTKind::Func(Func(FuncDef(TypeInstance::Void, "main", Vec::new()), body))),
    ]);
    let cfg = lowered(&source);
    let program = generate(&cfg).unwrap();
    assert_eq!(
        String::from_utf8(program.render()).unwrap(),
        "format ELF64 executable\n\
         segment .data readable writable\n\
         t0 db\n\
         x db\n\
         y db\n\
         main db\n\
         t0 db\n\
         z db\n\
         segment .text readable executable\n\
         entry\n\
         mov [t0],4\n\
         mov rax,[t0]\n\
         mov [x],rax\n\
         mov rax,[x]\n\
         mov [y],rax\n\
         main\n\
         mov [t0],7\n\
         mov rax,[t0]\n\
         mov [z],rax\n\
         \n"
    );
}

#[test]
fn a_graph_without_blocks_has_empty_segments() {
    let cfg = Cfg::new(SymbolMap::new());
    let program = generate(&cfg).unwrap();
    assert_eq!(
        String::from_utf8(program.render()).unwrap(),
        "format ELF64 executable\n\
         segment .data readable writable\n\
         segment .text readable executable\n\
         \n"
    );
}

#[test]
fn arithmetic_is_not_generated() {
    let source = Source(vec![AST::new(ASTKind::VarDec(Variable(
        TypeInstance::Int,
        "x",
        Expr::Binary(BinExpr {
            lhs: Box::new(AST::new(ASTKind::Val(unsigned(1)))),
            op: BinOp::Add,
            rhs: Box::new(AST::new(ASTKind::Val(unsigned(2)))),
        }),
    )))]);
    let cfg = lowered(&source);
    assert!(matches!(generate(&cfg), Err(FasmError::NotCompiled)));
}

#[test]
fn a_negative_literal_is_not_generated() {
    let source = Source(vec![AST::new(ASTKind::Val(Value::Integer(SignKind::Signed(
        Signed::Int(-1),
    ))))]);
    let cfg = lowered(&source);
    assert!(matches!(generate(&cfg), Err(FasmError::NotCompiled)));
}

#[test]
fn jumps_and_calls_are_not_generated() {
    let mut cfg = Cfg::new(SymbolMap::new());
    assert!(cfg.new_block(None, "entry").is_ok());
    assert!(generate(&cfg).is_ok());
    let mut with_jump = Cfg::new(SymbolMap::new());
    assert!(with_jump.new_block(None, "entry").is_ok());
    assert!(with_jump.push(0, Instruction::Goto(Goto { id: 0 })).is_ok());
    assert!(matches!(generate(&with_jump), Err(FasmError::NotCompiled)));
    let mut with_call = Cfg::new(SymbolMap::new());
    assert!(with_call.new_block(None, "entry").is_ok());
    assert!(with_call.push(0, Instruction::Call(Call { id: 0 })).is_ok());
    assert!(with_call.push(1, Instruction::Call(Call { id: 0 })).is_err());
    assert!(matches!(generate(&with_call), Err(FasmError::NotCompiled)));
}

#[test]
fn literals_are_immediates_if_they_are_not_negative() {
    assert_eq!(immediate_of(unsigned(0)), Some(0));
    assert_eq!(immediate_of(Value::Integer(SignKind::Signed(Signed::Char(127)))), Some(127));
    assert_eq!(immediate_of(Value::Integer(SignKind::Signed(Signed::Char(-1)))), None);
    assert_eq!(immediate_of(Value::Integer(SignKind::Signed(Signed::Long(i64::MIN)))), None);
    assert_eq!(
        immediate_of(Value::Integer(SignKind::Signed(Signed::LongLong(i64::MAX)))),
        usize::try_from(i64::MAX).ok()
    );
    assert_eq!(
        immediate_of(Value::Integer(SignKind::Unsigned(Unsigned::Long(u64::MAX)))),
        usize::try_from(u64::MAX).ok()
    );
    assert_eq!(immediate_of(Value::Integer(SignKind::Unsigned(Unsigned::Short(9)))), Some(9));
}

#[test]
fn from_tree_to_cache() {
    let source = Source(vec![AST::new(ASTKind::VarDec(Variable(
        TypeInstance::Int,
        "x",
        Expr::Noop(unsigned(4)),
    )))]);
    let cfg = lowered(&source);
    let program = generate(&cfg).unwrap();
    let mut store = MemoryStore::new();
    let entry = Cached::new(&mut store, "cache/", "unit", &program).unwrap();
    assert_eq!(entry.bytes(), &program.render());
    assert!(matches!(
        Cached::new(&mut store, "cache/", "unit", &program),
        Err(CachError::Mutated)
    ));
    assert_eq!(store.read("cache/unit"), Some(&program.render()));
}
