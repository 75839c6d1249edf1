use sexpr_compiler::frontend::ast::{
    ASTKind, BinExpr, BinOp, Expr, Func, FuncDef, Id, Param, Return, SignKind, Signed, Source,
    UnaryExpr, Unsigned, Value, Variable, AST,
};
use sexpr_compiler::frontend::symboltable::{
    ScopeKind, Symbol, SymbolError, SymbolMap, SymbolTable,
};
use sexpr_compiler::types::designators::TypeInstance;

fn unsigned(n: u32) -> Value {
    Value::Integer(SignKind::Unsigned(Unsigned::Int(n)))
}

fn main_function<'a>() -> ASTKind<'a> {
    let expr = Expr::Binary(BinExpr {
        lhs: Box::new(AST::new(ASTKind::Val(Value::Integer(SignKind::Unsigned(
            Unsigned::Int(5),
        ))))),
        op: BinOp::Add,
        rhs: Box::new(AST::new(ASTKind::Val(Value::Integer(SignKind::Unsigned(
            Unsigned::Int(10),
        ))))),
    });

    let var = AST::new(ASTKind::VarDec(Variable(TypeInstance::Int, "a", expr)));
    let ret = Return(Box::new(AST {
        kind: ASTKind::Val(Value::Integer(SignKind::Unsigned(Unsigned::Int(0)))),
    }));

    let ret_ast = AST {
        kind: ASTKind::Return(ret),
    };

    ASTKind::Func(Func(
        FuncDef(TypeInstance::Void, "main", Vec::new()),
        vec![var, ret_ast],
    ))
}

#[test]
fn print_simple_cprogram() {
    let ast = main_function();
    println!("{}", ast.to_string());
    assert_eq!(
        ast.to_string(),
        "void main();\n {\nint a = 5 + 10;\n\nreturn 0;\n}\n"
    );
}

#[test]
fn simple_table() {
    let main_ast = main_function();

    let source = Source(vec![AST::new(main_ast)]);
    let mut s_map = SymbolMap::new();
    let _ = s_map.fill_from_source(&source.0);

    for ast in source.0 {
        println!("{}", ast.kind.to_string());
    }

    println!("{}", s_map.to_string());

    assert_eq!(s_map.len(), 2);
    assert_eq!(
        s_map.to_string(),
        "POS: 0\nName | Type | Scope | Value\nmain | void | Signature | None \n\n\
         POS: 1\nName | Type | Scope | Value\nt0 | int | Variable | 5 \nt1 | int | Variable | 10 \n\
         a | int | Variable | None \nt2 | int | Variable | 0 \n\n"
    );
    assert_eq!(s_map.table(1).unwrap().parent(), Some(0));
    assert_eq!(s_map.table(0).unwrap().parent(), None);
    assert_eq!(
        s_map.get(1, "main").unwrap().to_string(),
        "void | Signature | None"
    );
    assert_eq!(
        s_map.get(1, "a").unwrap().to_string(),
        "int | Variable | None"
    );
    assert!(s_map.get(1, "nope").is_none());
    assert!(s_map.table(1).unwrap().get("main").is_none());
}

#[test]
fn a_name_bound_twice_reports_the_symbol_bound_first() {
    let mut map = SymbolMap::new();
    let first = [AST::new(ASTKind::Param(Param(TypeInstance::Int, "x")))];
    assert!(map.fill_from_source(&first).is_ok());
    let second = [AST::new(ASTKind::Param(Param(TypeInstance::Char, "x")))];
    match map.fill_from_source(&second) {
        Err(SymbolError::AlreadyExists(prior)) => {
            assert_eq!(prior.to_string(), "int | Parameter | None");
            assert_eq!(prior.kind(), ScopeKind::Param);
        }
        other => panic!("unexpected outcome: {:?}", other),
    }
    assert_eq!(map.table(0).unwrap().len(), 1);
    assert_eq!(
        map.get(0, "x").unwrap().to_string(),
        "char | Parameter | None"
    );
}

#[test]
fn two_parameters_of_one_signature_with_one_name_clash() {
    let mut map = SymbolMap::new();
    let fdef = FuncDef(
        TypeInstance::Void,
        "f",
        vec![Param(TypeInstance::Int, "x"), Param(TypeInstance::Long, "x")],
    );
    let source = [AST::new(ASTKind::FuncDef(fdef))];
    match map.fill_from_source(&source) {
        Err(SymbolError::AlreadyExists(prior)) => {
            assert_eq!(prior.to_string(), "int | Parameter | None")
        }
        other => panic!("unexpected outcome: {:?}", other),
    }
    assert!(map.get(0, "f").is_none());
}

#[test]
fn a_signature_binds_its_parameters_and_then_its_name() {
    let mut map = SymbolMap::new();
    let fdef = FuncDef(
        TypeInstance::Int,
        "f",
        vec![Param(TypeInstance::Int, "x"), Param(TypeInstance::Char, "y")],
    );
    let source = [AST::new(ASTKind::FuncDef(fdef))];
    assert!(map.fill_from_source(&source).is_ok());
    let table = map.table(0).unwrap();
    assert_eq!(table.len(), 3);
    assert_eq!(table.name_at(0).unwrap(), "x");
    assert_eq!(table.name_at(1).unwrap(), "y");
    assert_eq!(table.name_at(2).unwrap(), "f");
    assert_eq!(table.symbol_at(2).unwrap().kind(), ScopeKind::FSign);
    assert!(table.name_at(3).is_none());
}

#[test]
fn literals_get_the_lowest_free_temporary() {
    let mut map = SymbolMap::new();
    let source = [
        AST::new(ASTKind::Param(Param(TypeInstance::Int, "t1"))),
        AST::new(ASTKind::Val(unsigned(7))),
        AST::new(ASTKind::Val(unsigned(8))),
        AST::new(ASTKind::Val(unsigned(7))),
    ];
    assert!(map.fill_from_source(&source).is_ok());
    let table = map.table(0).unwrap();
    assert_eq!(table.name_at(0).unwrap(), "t1");
    assert_eq!(table.name_at(1).unwrap(), "t0");
    assert_eq!(table.name_at(2).unwrap(), "t2");
    assert_eq!(table.name_at(3).unwrap(), "t3");
    assert_eq!(map.get_from_val(0, unsigned(7)).unwrap(), "t0");
    assert_eq!(map.get_from_val(0, unsigned(8)).unwrap(), "t2");
    assert!(map.get_from_val(0, unsigned(9)).is_none());
    assert!(map.get_from_val(5, unsigned(7)).is_none());
    assert_eq!(map.get(0, "t2").unwrap().val(), Some(unsigned(8)));
}

#[test]
fn temporaries_go_past_nine() {
    let mut map = SymbolMap::new();
    let mut source = Vec::new();
    for n in 0..12 {
        source.push(AST::new(ASTKind::Val(unsigned(n))));
    }
    assert!(map.fill_from_source(&source).is_ok());
    let table = map.table(0).unwrap();
    assert_eq!(table.name_at(9).unwrap(), "t9");
    assert_eq!(table.name_at(10).unwrap(), "t10");
    assert_eq!(table.name_at(11).unwrap(), "t11");
}

#[test]
fn both_operands_are_inserted_and_the_first_clash_is_reported() {
    let mut map = SymbolMap::new();
    let source = [
        AST::new(ASTKind::Param(Param(TypeInstance::Int, "x"))),
        AST::new(ASTKind::Param(Param(TypeInstance::Long, "y"))),
        AST::new(ASTKind::Expr(Expr::Binary(BinExpr {
            lhs: Box::new(AST::new(ASTKind::Param(Param(TypeInstance::Char, "x")))),
            op: BinOp::Mul,
            rhs: Box::new(AST::new(ASTKind::Param(Param(TypeInstance::Char, "y")))),
        }))),
    ];
    match map.fill_from_source(&source) {
        Err(SymbolError::AlreadyExists(prior)) => {
            assert_eq!(prior.to_string(), "int | Parameter | None")
        }
        other => panic!("unexpected outcome: {:?}", other),
    }
    assert_eq!(
        map.get(0, "y").unwrap().to_string(),
        "char | Parameter | None"
    );
}

#[test]
fn a_declaration_whose_expression_clashes_is_not_bound() {
    let mut map = SymbolMap::new();
    let source = [
        AST::new(ASTKind::Param(Param(TypeInstance::Int, "x"))),
        AST::new(ASTKind::VarDec(Variable(
            TypeInstance::Int,
            "v",
            Expr::Binary(BinExpr {
                lhs: Box::new(AST::new(ASTKind::Param(Param(TypeInstance::Char, "x")))),
                op: BinOp::Sub,
                rhs: Box::new(AST::new(ASTKind::Val(unsigned(1)))),
            }),
        ))),
    ];
    assert!(map.fill_from_source(&source).is_err());
    assert!(map.get(0, "v").is_none());
    assert!(map.get(0, "t0").is_some());
}

#[test]
fn names_resolve_from_the_innermost_scope_outwards() {
    let mut map = SymbolMap::new();
    let body = vec![AST::new(ASTKind::VarDec(Variable(
        TypeInstance::Char,
        "x",
        Expr::Unary(UnaryExpr::Id(Id("g"))),
    )))];
    let source = [
        AST::new(ASTKind::Param(Param(TypeInstance::Int, "x"))),
        AST::new(ASTKind::Param(Param(TypeInstance::Long, "g"))),
        AST::new(ASTKind::Func(Func(
            FuncDef(TypeInstance::Void, "f", Vec::new()),
            body,
        ))),
    ];
    assert!(map.fill_from_source(&source).is_ok());
    assert_eq!(
        map.lookup(1, "x").unwrap().to_string(),
        "char | Variable | None"
    );
    assert_eq!(
        map.lookup(0, "x").unwrap().to_string(),
        "int | Parameter | None"
    );
    assert_eq!(
        map.lookup(1, "g").unwrap().to_string(),
        "long | Parameter | None"
    );
    assert_eq!(
        map.get(1, "g").unwrap().to_string(),
        "long | Parameter | None"
    );
    assert_eq!(
        map.get(1, "x").unwrap().to_string(),
        "char | Variable | None"
    );
    assert!(map.get(1, "nowhere").is_none());
    assert!(map.get(9, "x").is_none());
    assert!(map.table(1).unwrap().get("g").is_none());
    match map.lookup(1, "nowhere") {
        Err(SymbolError::Undefined(name)) => assert_eq!(name, "nowhere"),
        other => panic!("unexpected outcome: {:?}", other),
    }
    assert!(matches!(map.lookup(9, "x"), Err(SymbolError::Undefined(_))));
}

#[test]
fn a_function_body_is_inserted_even_if_the_signature_clashes() {
    let mut map = SymbolMap::new();
    let source = [
        AST::new(ASTKind::Param(Param(TypeInstance::Int, "f"))),
        AST::new(ASTKind::Func(Func(
            FuncDef(TypeInstance::Void, "f", Vec::new()),
            vec![AST::new(ASTKind::Val(unsigned(3)))],
        ))),
    ];
    assert!(matches!(
        map.fill_from_source(&source),
        Err(SymbolError::AlreadyExists(_))
    ));
    assert_eq!(map.len(), 2);
    assert_eq!(map.get_from_val(1, unsigned(3)).unwrap(), "t0");
}

#[test]
fn scopes_can_be_opened_and_temporaries_bound_by_hand() {
    let mut map = SymbolMap::new();
    assert_eq!(map.add(None), 0);
    assert_eq!(map.add(Some(0)), 1);
    assert_eq!(map.insert_temp(1, TypeInstance::Long), Some(String::from("t0")));
    assert_eq!(map.insert_temp(1, TypeInstance::Char), Some(String::from("t1")));
    assert_eq!(map.insert_temp(2, TypeInstance::Char), None);
    assert_eq!(map.get(1, "t1").unwrap().to_string(), "char | Variable | None");
    assert!(map
        .insert(1, &ASTKind::Param(Param(TypeInstance::Int, "p")))
        .is_ok());
    assert_eq!(map.table(1).unwrap().len(), 3);
}

#[test]
fn a_table_of_its_own() {
    let table = SymbolTable::new(Some(3));
    assert_eq!(table.parent(), Some(3));
    assert_eq!(table.len(), 0);
    assert!(table.get("x").is_none());
    assert_eq!(table.to_string(), "Name | Type | Scope | Value\n");
}

#[test]
fn a_symbol_is_written_with_its_value() {
    let symbol = Symbol::new(
        TypeInstance::Short,
        ScopeKind::Arg,
        Some(Value::Integer(SignKind::Signed(Signed::Short(-12)))),
    );
    assert_eq!(symbol.to_string(), "short | Arguement | -12");
    assert_eq!(symbol.clone().to_string(), "short | Arguement | -12");
    assert_eq!(symbol.get_type().to_string(), "short");
}

#[test]
fn values_have_the_type_of_their_width() {
    let cases = [
        (Value::Integer(SignKind::Signed(Signed::Char(1))), "char"),
        (Value::Integer(SignKind::Signed(Signed::Short(1))), "short"),
        (Value::Integer(SignKind::Signed(Signed::Int(1))), "int"),
        (Value::Integer(SignKind::Signed(Signed::Long(1))), "long"),
        (Value::Integer(SignKind::Signed(Signed::LongLong(1))), "long long"),
        (Value::Integer(SignKind::Unsigned(Unsigned::Char(1))), "char"),
        (Value::Integer(SignKind::Unsigned(Unsigned::Short(1))), "short"),
        (Value::Integer(SignKind::Unsigned(Unsigned::Int(1))), "int"),
        (Value::Integer(SignKind::Unsigned(Unsigned::Long(1))), "long"),
        (Value::Integer(SignKind::Unsigned(Unsigned::LongLong(1))), "long long"),
    ];
    for (value, text) in cases {
        assert_eq!(value.get_type().to_string(), text);
    }
}

#[test]
fn values_are_written_as_decimal_numerals() {
    assert_eq!(Value::Integer(SignKind::Signed(Signed::Long(i64::MIN))).to_string(), "-9223372036854775808");
    assert_eq!(Value::Integer(SignKind::Signed(Signed::Long(i64::MAX))).to_string(), "9223372036854775807");
    assert_eq!(Value::Integer(SignKind::Unsigned(Unsigned::LongLong(u64::MAX))).to_string(), "18446744073709551615");
    assert_eq!(Value::Integer(SignKind::Signed(Signed::Char(-128))).to_string(), "-128");
    assert_eq!(Value::Integer(SignKind::Unsigned(Unsigned::Char(0))).to_string(), "0");
    assert_eq!(Signed::Int(-7).to_string(), "-7");
    assert_eq!(Unsigned::Short(100).to_string(), "100");
    assert_eq!(SignKind::Unsigned(Unsigned::Int(10)).to_string(), "10");
}

#[test]
fn types_are_written_as_in_the_source_language() {
    assert_eq!(TypeInstance::Void.to_string(), "void");
    assert_eq!(
        TypeInstance::Ptr(Box::new(TypeInstance::Ptr(Box::new(TypeInstance::Char)))).to_string(),
        "**char"
    );
    let with_params = TypeInstance::Func(
        Box::new(TypeInstance::Int),
        String::from("f"),
        Some(vec![TypeInstance::Int, TypeInstance::LongLong]),
    );
    assert_eq!(with_params.to_string(), "int fint,long long,\n");
    assert_eq!(with_params.clone().to_string(), "int fint,long long,\n");
    let without = TypeInstance::Func(Box::new(TypeInstance::Void), String::from("g"), None);
    assert_eq!(without.to_string(), "void g()\n");
    let empty = TypeInstance::Func(Box::new(TypeInstance::Void), String::from("h"), Some(vec![]));
    assert_eq!(empty.to_string(), "void h\n");
}

#[test]
fn nodes_are_written_as_in_the_source_language() {
    assert_eq!(Param(TypeInstance::Int, "x").to_string(), "int x");
    assert_eq!(
        FuncDef(
            TypeInstance::Long,
            "f",
            vec![Param(TypeInstance::Int, "x"), Param(TypeInstance::Char, "y")]
        )
        .to_string(),
        "long f(int x,char y,);\n"
    );
    assert_eq!(Id("name").to_string(), "name");
    assert_eq!(UnaryExpr::Id(Id("name")).to_string(), "name");
    assert_eq!(BinOp::Add.to_string(), "+");
    assert_eq!(BinOp::Sub.to_string(), "-");
    assert_eq!(BinOp::Mul.to_string(), "*");
    assert_eq!(BinOp::Div.to_string(), "/");
    let nested = Expr::Binary(BinExpr {
        lhs: Box::new(AST::new(ASTKind::Expr(Expr::Unary(UnaryExpr::Id(Id("a")))))),
        op: BinOp::Div,
        rhs: Box::new(AST::new(ASTKind::Expr(Expr::Binary(BinExpr {
            lhs: Box::new(AST::new(ASTKind::Val(unsigned(1)))),
            op: BinOp::Sub,
            rhs: Box::new(AST::new(ASTKind::Val(unsigned(2)))),
        })))),
    });
    assert_eq!(nested.to_string(), "a / 1 - 2");
    assert_eq!(
        Return(Box::new(AST::new(ASTKind::Expr(Expr::Noop(unsigned(3)))))).to_string(),
        "return 3;"
    );
    assert_eq!(
        Variable(TypeInstance::Char, "c", Expr::Noop(unsigned(65))).to_string(),
        "char c = 65;\n"
    );
    assert_eq!(ScopeKind::Var.to_string(), "Variable");
    assert_eq!(ScopeKind::FSign.to_string(), "Signature");
}
