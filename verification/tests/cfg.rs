use sexpr_compiler::frontend::ast::{
    ASTKind, BinExpr, BinOp, Expr, Func, FuncDef, Id, Param, Return, SignKind, Source, UnaryExpr,
    Unsigned, Value, Variable, AST,
};
use sexpr_compiler::frontend::cfg::{BasicBlock, Cfg, CfgError, Goto, Instruction, Vertices};
use sexpr_compiler::frontend::symboltable::SymbolMap;
use sexpr_compiler::types::designators::TypeInstance;

fn unsigned(n: u32) -> Value {
    Value::Integer(SignKind::Unsigned(Unsigned::Int(n)))
}

fn val(n: u32) -> Box<AST<'static>> {
    Box::new(AST::new(ASTKind::Val(unsigned(n))))
}

fn id(name: &'static str) -> Box<AST<'static>> {
    Box::new(AST::new(ASTKind::Expr(Expr::Unary(UnaryExpr::Id(Id(name))))))
}

fn lowered(source: &Source) -> (Cfg, Result<(), CfgError>) {
    let mut map = SymbolMap::new();
    assert!(map.fill_from_source(&source.0).is_ok());
    let mut cfg = Cfg::new(map);
    let r = cfg.fill_from_source(source);
    (cfg, r)
}

fn show(instr: &Instruction) -> String {
    match instr {
        Instruction::BAssign(b) => format!("{} = {} {} {}", b.lhs, b.lop, b.op.to_string(), b.rop),
        Instruction::SAssign(s) => format!("{} := {}", s.lhs, s.rhs.to_string()),
        Instruction::Mov(m) => format!("{} <- {}", m.lhs, m.rhs),
        Instruction::Goto(g) => format!("goto {}", g.id),
        Instruction::Call(c) => format!("call {}", c.id),
    }
}

fn code(block: &BasicBlock) -> Vec<String> {
    let mut lines = Vec::new();
    for i in 0..block.len() {
        lines.push(show(block.get(i).unwrap()));
    }
    lines
}

#[test]
fn a_function_is_lowered_into_a_block_of_its_own() {
    let expr = Expr::Binary(BinExpr { lhs: val(5), op: BinOp::Add, rhs: val(10) });
    let var = AST::new(ASTKind::VarDec(Variable(TypeInstance::Int, "a", expr)));
    let ret = AST::new(ASTKind::Return(Return(val(0))));
    let source = Source(vec![AST::new(ASTKind::Func(Func(
        FuncDef(TypeInstance::Void, "main", Vec::new()),
        vec![var, ret],
    )))]);
    let (cfg, r) = lowered(&source);
    assert!(r.is_ok());
    assert_eq!(cfg.len(), 2);
    let entry = cfg.block(0).unwrap();
    assert_eq!(entry.name(), "entry");
    assert_eq!(entry.id(), 0);
    assert_eq!(entry.len(), 0);
    let main = cfg.block(1).unwrap();
    assert_eq!(main.name(), "main");
    assert_eq!(main.id(), 1);
    assert_eq!(
        code(main),
        vec![
            "t0 := int | Variable | 5",
            "t1 := int | Variable | 10",
            "a = t0 + t1",
            "t2 := int | Variable | 0",
        ]
    );
    assert!(main.prev().is_none());
    assert!(main.next().is_none());
    assert!(cfg.block(2).is_none());
}

#[test]
fn a_declaration_without_a_binary_expression_is_a_move() {
    let source = Source(vec![
        AST::new(ASTKind::VarDec(Variable(TypeInstance::Int, "x", Expr::Noop(unsigned(4))))),
        AST::new(ASTKind::VarDec(Variable(
            TypeInstance::Int,
            "y",
            Expr::Unary(UnaryExpr::Id(Id("x"))),
        ))),
    ]);
    let (cfg, r) = lowered(&source);
    assert!(r.is_ok());
    assert_eq!(
        code(cfg.block(0).unwrap()),
        vec!["t0 := int | Variable | 4", "x <- t0", "y <- x"]
    );
}

#[test]
fn operands_are_lowered_before_the_expression_that_combines_them() {
    let inner = Expr::Binary(BinExpr { lhs: val(1), op: BinOp::Mul, rhs: val(2) });
    let outer = Expr::Binary(BinExpr {
        lhs: Box::new(AST::new(ASTKind::Expr(inner))),
        op: BinOp::Sub,
        rhs: val(3),
    });
    let source = Source(vec![AST::new(ASTKind::VarDec(Variable(
        TypeInstance::Long,
        "r",
        outer,
    )))]);
    let (cfg, r) = lowered(&source);
    assert!(r.is_ok());
    assert_eq!(
        code(cfg.block(0).unwrap()),
        vec![
            "t0 := int | Variable | 1",
            "t1 := int | Variable | 2",
            "t3 = t0 * t1",
            "t2 := int | Variable | 3",
            "r = t3 - t2",
        ]
    );
    let symbols = cfg.symbols();
    assert_eq!(symbols.get(0, "t3").unwrap().to_string(), "int | Variable | None");
}

#[test]
fn a_bare_binary_expression_goes_to_a_new_temporary() {
    let source = Source(vec![
        AST::new(ASTKind::Param(Param(TypeInstance::Char, "c"))),
        AST::new(ASTKind::Expr(Expr::Binary(BinExpr {
            lhs: id("c"),
            op: BinOp::Div,
            rhs: id("c"),
        }))),
    ]);
    let (cfg, r) = lowered(&source);
    assert!(r.is_ok());
    assert_eq!(code(cfg.block(0).unwrap()), vec!["t0 = c / c"]);
    assert_eq!(cfg.symbols().get(0, "t0").unwrap().to_string(), "char | Variable | None");
}

#[test]
fn an_unbound_name_stops_the_lowering() {
    let source = Source(vec![
        AST::new(ASTKind::Val(unsigned(1))),
        AST::new(ASTKind::VarDec(Variable(
            TypeInstance::Int,
            "y",
            Expr::Unary(UnaryExpr::Id(Id("missing"))),
        ))),
        AST::new(ASTKind::Val(unsigned(1))),
    ]);
    let (cfg, r) = lowered(&source);
    match r {
        Err(CfgError::Undefined(name)) => assert_eq!(name, "missing"),
        other => panic!("unexpected outcome: {:?}", other),
    }
    assert_eq!(code(cfg.block(0).unwrap()), vec!["t0 := int | Variable | 1"]);
}

#[test]
fn a_literal_the_table_does_not_hold_stops_the_lowering() {
    let mut cfg = Cfg::new(SymbolMap::new());
    let source = Source(vec![AST::new(ASTKind::Val(unsigned(1)))]);
    assert!(matches!(
        cfg.fill_from_source(&source),
        Err(CfgError::UnknownLiteral(_))
    ));
    assert_eq!(cfg.len(), 1);
}

#[test]
fn only_literals_and_expressions_are_operands() {
    let source = Source(vec![AST::new(ASTKind::Expr(Expr::Binary(BinExpr {
        lhs: Box::new(AST::new(ASTKind::Param(Param(TypeInstance::Int, "p")))),
        op: BinOp::Add,
        rhs: val(1),
    })))]);
    let (_, r) = lowered(&source);
    assert!(matches!(r, Err(CfgError::NotAnOperand)));
}

#[test]
fn folding_into_a_block_that_is_not_there_fails() {
    let mut map = SymbolMap::new();
    let source = [AST::new(ASTKind::Val(unsigned(1)))];
    assert!(map.fill_from_source(&source).is_ok());
    let mut cfg = Cfg::new(map);
    assert!(matches!(
        cfg.fold_val(unsigned(1), 0),
        Err(CfgError::UnknownBlock(0))
    ));
    assert!(matches!(
        cfg.fold_ast(&ASTKind::Val(unsigned(1)), 3),
        Err(CfgError::UnknownBlock(3))
    ));
    assert!(matches!(
        cfg.fold_expr(&Expr::Noop(unsigned(1)), 3),
        Err(CfgError::UnknownBlock(3))
    ));
    assert!(matches!(cfg.new_block(None, "b"), Ok(0)));
    assert_eq!(cfg.fold_val(unsigned(1), 0).unwrap(), "t0");
    assert_eq!(cfg.fold_expr(&Expr::Noop(unsigned(1)), 0).unwrap(), "t0");
    assert_eq!(cfg.block(0).unwrap().len(), 2);
}

#[test]
fn functions_are_lowered_in_their_own_scopes_in_order() {
    let f = Func(
        FuncDef(TypeInstance::Void, "f", Vec::new()),
        vec![AST::new(ASTKind::Val(unsigned(1)))],
    );
    let g = Func(
        FuncDef(TypeInstance::Void, "g", Vec::new()),
        vec![AST::new(ASTKind::Val(unsigned(2)))],
    );
    let source = Source(vec![
        AST::new(ASTKind::Val(unsigned(9))),
        AST::new(ASTKind::Func(f)),
        AST::new(ASTKind::Func(g)),
        AST::new(ASTKind::Val(unsigned(9))),
    ]);
    let (cfg, r) = lowered(&source);
    assert!(r.is_ok());
    assert_eq!(cfg.len(), 3);
    assert_eq!(
        code(cfg.block(0).unwrap()),
        vec!["t0 := int | Variable | 9", "t0 := int | Variable | 9"]
    );
    assert_eq!(cfg.block(1).unwrap().name(), "f");
    assert_eq!(code(cfg.block(1).unwrap()), vec!["t0 := int | Variable | 1"]);
    assert_eq!(cfg.block(2).unwrap().name(), "g");
    assert_eq!(code(cfg.block(2).unwrap()), vec!["t0 := int | Variable | 2"]);
}

#[test]
fn every_edge_is_recorded_at_both_ends() {
    let mut cfg = Cfg::new(SymbolMap::new());
    assert!(matches!(cfg.new_block(None, "entry"), Ok(0)));
    assert!(matches!(cfg.new_block(Some(Vertices::Linear(0)), "then"), Ok(1)));
    assert!(matches!(cfg.new_block(Some(Vertices::Linear(0)), "else"), Ok(2)));
    assert!(matches!(
        cfg.new_block(Some(Vertices::Branch(vec![1, 2])), "join"),
        Ok(3)
    ));
    let entry = cfg.block(0).unwrap();
    assert!(matches!(entry.next(), Some(Vertices::Branch(ids)) if ids == &vec![1, 2]));
    assert!(entry.prev().is_none());
    let then = cfg.block(1).unwrap();
    assert!(matches!(then.prev(), Some(Vertices::Linear(0))));
    assert!(matches!(then.next(), Some(Vertices::Linear(3))));
    let join = cfg.block(3).unwrap();
    assert!(matches!(join.prev(), Some(Vertices::Branch(ids)) if ids == &vec![1, 2]));
    assert!(join.next().is_none());
    for a in 0..cfg.len() {
        let block = cfg.block(a).unwrap();
        for k in 0..Vertices::count(block.next()) {
            let b = Vertices::target(block.next(), k).unwrap();
            assert!(Vertices::leads_to(cfg.block(b).unwrap().prev(), a));
        }
        for k in 0..Vertices::count(block.prev()) {
            let b = Vertices::target(block.prev(), k).unwrap();
            assert!(Vertices::leads_to(cfg.block(b).unwrap().next(), a));
        }
    }
}

#[test]
fn an_edge_from_a_block_that_is_not_there_adds_nothing() {
    let mut cfg = Cfg::new(SymbolMap::new());
    assert!(matches!(cfg.new_block(None, "entry"), Ok(0)));
    assert!(matches!(
        cfg.new_block(Some(Vertices::Branch(vec![0, 5, 7])), "b"),
        Err(CfgError::UnknownBlock(5))
    ));
    assert_eq!(cfg.len(), 1);
    assert!(cfg.block(0).unwrap().next().is_none());
    assert!(matches!(
        cfg.new_block(Some(Vertices::Linear(1)), "b"),
        Err(CfgError::UnknownBlock(1))
    ));
}

#[test]
fn edges_are_collected_in_order() {
    assert!(matches!(Vertices::with(None, 4), Some(Vertices::Linear(4))));
    let two = Vertices::with(Some(Vertices::Linear(4)), 2);
    assert!(matches!(&two, Some(Vertices::Branch(ids)) if ids == &vec![4, 2]));
    let three = Vertices::with(two, 9);
    assert_eq!(Vertices::count(&three), 3);
    assert_eq!(Vertices::target(&three, 2), Some(9));
    assert_eq!(Vertices::target(&three, 3), None);
    assert!(Vertices::leads_to(&three, 2));
    assert!(!Vertices::leads_to(&three, 3));
    assert_eq!(Vertices::count(&None), 0);
}

#[test]
fn blocks_can_be_built_by_hand() {
    let mut block = BasicBlock::new(Some(Vertices::Linear(0)), 1, "loop");
    block.add(Instruction::Goto(Goto { id: 1 }));
    assert_eq!(block.len(), 1);
    assert_eq!(code(&block), vec!["goto 1"]);
    assert!(block.get(1).is_none());
    let entry = BasicBlock::entry();
    assert_eq!(entry.name(), "entry");
    assert_eq!(entry.id(), 0);
}
