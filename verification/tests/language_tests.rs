use momonga::ast::{Expr, InfixOpKind, PostfixOpKind, PrefixOpKind, Stmt, VarStmt, Ident};
use momonga::data::{display_value, momonga_len, momonga_pop, momonga_push, new_builtins, Value};
use momonga::env::Env;
use momonga::error::{EvalError, ParseError};
use momonga::eval::eval;
use momonga::parser::AstBuilder;

fn ident(name: &str) -> Ident {
    Ident { name: name.to_string() }
}

fn var(name: &str, init: Expr) -> Stmt {
    Stmt::VarStmt(VarStmt { ident: ident(name), expr: Some(init) })
}

fn call(target: &str, args: Vec<Expr>) -> Expr {
    Expr::PostfixOp { kind: PostfixOpKind::Call(args), lhs: Box::new(Expr::ident(target)) }
}

#[test]
fn division_and_modulo_by_zero_fail() {
    // 2 / 0;
    let prog = vec![Stmt::ExprStmt(Expr::infix(
        InfixOpKind::Divide,
        Expr::literal_int(2),
        Expr::literal_int(0),
    ))];
    assert_eq!(eval(&prog, &mut Env::new_with_builtins()), Err(EvalError::ZeroDivision));
    // 2 % 0;
    let prog = vec![Stmt::ExprStmt(Expr::infix(
        InfixOpKind::Modulo,
        Expr::literal_int(2),
        Expr::literal_int(0),
    ))];
    assert_eq!(eval(&prog, &mut Env::new_with_builtins()), Err(EvalError::ZeroDivision));
    // 2 / 3; truncates toward zero
    let prog = vec![Stmt::ExprStmt(Expr::infix(
        InfixOpKind::Divide,
        Expr::literal_int(2),
        Expr::literal_int(3),
    ))];
    assert_eq!(eval(&prog, &mut Env::new_with_builtins()), Ok(Some(Value::Int(0))));
    // 2 - 3 * 5; precedence fixed by the tree: -(13)
    let prog = vec![Stmt::ExprStmt(Expr::infix(
        InfixOpKind::Subtract,
        Expr::literal_int(2),
        Expr::infix(InfixOpKind::Multiply, Expr::literal_int(3), Expr::literal_int(5)),
    ))];
    assert_eq!(eval(&prog, &mut Env::new_with_builtins()), Ok(Some(Value::Int(-13))));
    // truncating division with a negative dividend: (2 - 9) / 5 == -1
    let prog = vec![Stmt::ExprStmt(Expr::infix(
        InfixOpKind::Divide,
        Expr::infix(InfixOpKind::Subtract, Expr::literal_int(2), Expr::literal_int(9)),
        Expr::literal_int(5),
    ))];
    assert_eq!(eval(&prog, &mut Env::new_with_builtins()), Ok(Some(Value::Int(-1))));
    // (2 - 9) % 5 == -2 (remainder carries the dividend's sign)
    let prog = vec![Stmt::ExprStmt(Expr::infix(
        InfixOpKind::Modulo,
        Expr::infix(InfixOpKind::Subtract, Expr::literal_int(2), Expr::literal_int(9)),
        Expr::literal_int(5),
    ))];
    assert_eq!(eval(&prog, &mut Env::new_with_builtins()), Ok(Some(Value::Int(-2))));
}

#[test]
fn negation_of_minimum_magnitude_literal() {
    // -9223372036854775808; evaluates to the minimum integer
    let prog = vec![Stmt::ExprStmt(Expr::prefix(
        PrefixOpKind::Neg,
        Expr::literal_int(9223372036854775808),
    ))];
    assert_eq!(eval(&prog, &mut Env::new_with_builtins()), Ok(Some(Value::Int(i64::MIN))));
    // the same magnitude anywhere else is out of range
    let prog = vec![Stmt::ExprStmt(Expr::literal_int(9223372036854775808))];
    assert_eq!(eval(&prog, &mut Env::new_with_builtins()), Err(EvalError::OutOfRange));
    // negating a computed minimum is out of range: -(-9223372036854775808)
    let prog = vec![Stmt::ExprStmt(Expr::prefix(
        PrefixOpKind::Neg,
        Expr::prefix(PrefixOpKind::Neg, Expr::literal_int(9223372036854775808)),
    ))];
    assert_eq!(eval(&prog, &mut Env::new_with_builtins()), Err(EvalError::OutOfRange));
}

#[test]
fn assignment_to_undeclared_name_fails() {
    // x = 1;
    let prog = vec![Stmt::ExprStmt(Expr::infix(
        InfixOpKind::Assign,
        Expr::ident("x"),
        Expr::literal_int(1),
    ))];
    assert_eq!(eval(&prog, &mut Env::new_with_builtins()), Err(EvalError::Name));
    // x; (unbound)
    let prog = vec![Stmt::ExprStmt(Expr::ident("x"))];
    assert_eq!(eval(&prog, &mut Env::new_with_builtins()), Err(EvalError::Name));
    // 1 = x; assignment target must be an identifier
    let prog = vec![Stmt::ExprStmt(Expr::infix(
        InfixOpKind::Assign,
        Expr::literal_int(1),
        Expr::ident("x"),
    ))];
    assert_eq!(eval(&prog, &mut Env::new_with_builtins()), Err(EvalError::Type));
}

#[test]
fn block_scoping_hides_inner_declarations() {
    // var x = 1; { var x; x = 2; } x; == 1
    let prog = vec![
        var("x", Expr::literal_int(1)),
        Stmt::BlockStmt(vec![
            Stmt::VarStmt(VarStmt { ident: ident("x"), expr: None }),
            Stmt::ExprStmt(Expr::infix(
                InfixOpKind::Assign,
                Expr::ident("x"),
                Expr::literal_int(2),
            )),
        ]),
        Stmt::ExprStmt(Expr::ident("x")),
    ];
    assert_eq!(eval(&prog, &mut Env::new_with_builtins()), Ok(Some(Value::Int(1))));
    // var x = 1; { x = 2; } x; == 2 (assignment reaches outward)
    let prog = vec![
        var("x", Expr::literal_int(1)),
        Stmt::BlockStmt(vec![Stmt::ExprStmt(Expr::infix(
            InfixOpKind::Assign,
            Expr::ident("x"),
            Expr::literal_int(2),
        ))]),
        Stmt::ExprStmt(Expr::ident("x")),
    ];
    assert_eq!(eval(&prog, &mut Env::new_with_builtins()), Ok(Some(Value::Int(2))));
    // var x = 1; var x = 2; x; == 2 (redeclaration replaces)
    let prog = vec![
        var("x", Expr::literal_int(1)),
        var("x", Expr::literal_int(2)),
        Stmt::ExprStmt(Expr::ident("x")),
    ];
    assert_eq!(eval(&prog, &mut Env::new_with_builtins()), Ok(Some(Value::Int(2))));
}

#[test]
fn pushing_through_one_alias_is_seen_through_the_other() {
    // var a = [1, 2, 3]; var b = a; push(a, 4); len(b); == 4
    let prog = vec![
        var(
            "a",
            Expr::literal_array(vec![
                Expr::literal_int(1),
                Expr::literal_int(2),
                Expr::literal_int(3),
            ]),
        ),
        var("b", Expr::ident("a")),
        Stmt::ExprStmt(call("push", vec![Expr::ident("a"), Expr::literal_int(4)])),
        Stmt::ExprStmt(call("len", vec![Expr::ident("b")])),
    ];
    assert_eq!(eval(&prog, &mut Env::new_with_builtins()), Ok(Some(Value::Int(4))));
}

#[test]
fn pop_removes_exactly_the_last_element() {
    // var a = [1, 2, 3]; pop(a); == 3, then len(a) == 2
    let arr = Expr::literal_array(vec![
        Expr::literal_int(1),
        Expr::literal_int(2),
        Expr::literal_int(3),
    ]);
    let prog = vec![
        var("a", arr),
        Stmt::ExprStmt(call("pop", vec![Expr::ident("a")])),
    ];
    assert_eq!(eval(&prog, &mut Env::new_with_builtins()), Ok(Some(Value::Int(3))));
    let arr = Expr::literal_array(vec![Expr::literal_int(1)]);
    let prog = vec![
        var("a", arr),
        Stmt::ExprStmt(call("pop", vec![Expr::ident("a")])),
        Stmt::ExprStmt(call("pop", vec![Expr::ident("a")])),
    ];
    assert_eq!(eval(&prog, &mut Env::new_with_builtins()), Err(EvalError::Index));
}

#[test]
fn builtin_arity_and_type_errors() {
    // len();
    let prog = vec![Stmt::ExprStmt(call("len", vec![]))];
    assert_eq!(eval(&prog, &mut Env::new_with_builtins()), Err(EvalError::Argument));
    // len(1);
    let prog = vec![Stmt::ExprStmt(call("len", vec![Expr::literal_int(1)]))];
    assert_eq!(eval(&prog, &mut Env::new_with_builtins()), Err(EvalError::Type));
    // push("not array", 1);
    let prog = vec![Stmt::ExprStmt(call(
        "push",
        vec![
            Expr::literal_string("not array".to_string()),
            Expr::literal_int(1),
        ],
    ))];
    assert_eq!(eval(&prog, &mut Env::new_with_builtins()), Err(EvalError::Type));
    // len("Hello, World!");
    let prog = vec![Stmt::ExprStmt(call(
        "len",
        vec![Expr::literal_string("Hello, World!".to_string())],
    ))];
    assert_eq!(eval(&prog, &mut Env::new_with_builtins()), Ok(Some(Value::Int(13))));
}

#[test]
fn indexing_and_equality() {
    // [1, 2, 3][1]; == 2
    let prog = vec![Stmt::ExprStmt(Expr::PostfixOp {
        kind: PostfixOpKind::Index(Box::new(Expr::literal_int(1))),
        lhs: Box::new(Expr::literal_array(vec![
            Expr::literal_int(1),
            Expr::literal_int(2),
            Expr::literal_int(3),
        ])),
    })];
    assert_eq!(eval(&prog, &mut Env::new_with_builtins()), Ok(Some(Value::Int(2))));
    // [1, 2, 3][3]; out of bounds
    let prog = vec![Stmt::ExprStmt(Expr::PostfixOp {
        kind: PostfixOpKind::Index(Box::new(Expr::literal_int(3))),
        lhs: Box::new(Expr::literal_array(vec![
            Expr::literal_int(1),
            Expr::literal_int(2),
            Expr::literal_int(3),
        ])),
    })];
    assert_eq!(eval(&prog, &mut Env::new_with_builtins()), Err(EvalError::Index));
    // [1, 2, 3] == [1, 2, 3]; structural equality of arrays
    let arr = || {
        Expr::literal_array(vec![
            Expr::literal_int(1),
            Expr::literal_int(2),
            Expr::literal_int(3),
        ])
    };
    let prog = vec![Stmt::ExprStmt(Expr::infix(InfixOpKind::Eq, arr(), arr()))];
    assert_eq!(eval(&prog, &mut Env::new_with_builtins()), Ok(Some(Value::Bool(true))));
    // false && "foo" short-circuits without a type check
    let prog = vec![Stmt::ExprStmt(Expr::infix(
        InfixOpKind::And,
        Expr::literal_bool(false),
        Expr::literal_string("foo".to_string()),
    ))];
    assert_eq!(eval(&prog, &mut Env::new_with_builtins()), Ok(Some(Value::Bool(false))));
}

#[test]
fn print_appends_rendered_text_to_the_output() {
    // print([1, [true, none], "x"]);
    let prog = vec![Stmt::ExprStmt(call(
        "print",
        vec![Expr::literal_array(vec![
            Expr::literal_int(1),
            Expr::literal_array(vec![Expr::literal_bool(true), Expr::literal_none()]),
            Expr::literal_string("x".to_string()),
        ])],
    ))];
    let mut env = Env::new_with_builtins();
    assert_eq!(eval(&prog, &mut env), Ok(Some(Value::Nil)));
    assert_eq!(env.output.len(), 1);
    assert_eq!(env.output[0], "[1, [true, none], x]".to_string());
}

#[test]
fn builtins_apply_directly_to_values() {
    assert_eq!(new_builtins().len(), 4);
    let mut env = Env::new_with_builtins();
    let prog = vec![var(
        "a",
        Expr::literal_array(vec![Expr::literal_int(7)]),
    )];
    assert_eq!(eval(&prog, &mut env), Ok(None));
    let handle = match env.get("a") {
        Ok(v) => v,
        Err(e) => panic!("unexpected {:?}", e),
    };
    assert_eq!(momonga_len(&env, &vec![handle]), Ok(Value::Int(1)));
    assert_eq!(momonga_push(&mut env, &vec![handle, Value::Int(8)]), Ok(handle));
    assert_eq!(momonga_len(&env, &vec![handle]), Ok(Value::Int(2)));
    assert_eq!(momonga_pop(&mut env, &vec![handle]), Ok(Value::Int(8)));
    assert_eq!(display_value(&env, handle), Ok("[7]".to_string()));
}

#[test]
fn function_value_is_not_an_expression() {
    // func foo() { return; } foo;
    let prog = vec![
        Stmt::FuncDecl(momonga::ast::FuncDecl {
            ident_func: ident("foo"),
            ident_param: vec![],
            block: vec![Stmt::ReturnStmt(momonga::ast::ReturnStmt { expr: None })],
        }),
        Stmt::ExprStmt(Expr::ident("foo")),
    ];
    assert_eq!(
        eval(&prog, &mut Env::new_with_builtins()),
        Err(EvalError::InvalidExpression)
    );
    // true(); not callable
    let prog = vec![Stmt::ExprStmt(Expr::PostfixOp {
        kind: PostfixOpKind::Call(vec![]),
        lhs: Box::new(Expr::literal_bool(true)),
    })];
    assert_eq!(eval(&prog, &mut Env::new_with_builtins()), Err(EvalError::Type));
    // foo(); unbound
    let prog = vec![Stmt::ExprStmt(call("foo", vec![]))];
    assert_eq!(eval(&prog, &mut Env::new_with_builtins()), Err(EvalError::Name));
}

#[test]
fn if_condition_must_be_boolean() {
    // if (1) {}
    let prog = vec![Stmt::IfStmt(momonga::ast::IfStmt {
        condition: Expr::literal_int(1),
        block: vec![],
        else_clause: None,
    })];
    assert_eq!(eval(&prog, &mut Env::new_with_builtins()), Err(EvalError::Type));
    // + "foo"; unary plus needs an integer
    let prog = vec![Stmt::ExprStmt(Expr::prefix(
        PrefixOpKind::Pos,
        Expr::literal_string("foo".to_string()),
    ))];
    assert_eq!(eval(&prog, &mut Env::new_with_builtins()), Err(EvalError::Type));
}

#[test]
fn block_pruning_keeps_only_the_first_terminator() {
    // for(;;){ break; continue; } builds with the continue dropped
    let prog = vec![Stmt::ForStmt(momonga::ast::ForStmt {
        init: None,
        cond: None,
        afterthought: None,
        block: vec![Stmt::BreakStmt, Stmt::ContinueStmt],
    })];
    let mut builder = AstBuilder::new();
    let built = builder.program(&prog);
    assert_eq!(
        built,
        Ok(vec![Stmt::ForStmt(momonga::ast::ForStmt {
            init: None,
            cond: None,
            afterthought: None,
            block: vec![Stmt::BreakStmt],
        })])
    );
    // the symmetric case keeps only the continue
    let prog = vec![Stmt::ForStmt(momonga::ast::ForStmt {
        init: None,
        cond: None,
        afterthought: None,
        block: vec![Stmt::ContinueStmt, Stmt::BreakStmt],
    })];
    let mut builder = AstBuilder::new();
    let built = builder.program(&prog);
    assert_eq!(
        built,
        Ok(vec![Stmt::ForStmt(momonga::ast::ForStmt {
            init: None,
            cond: None,
            afterthought: None,
            block: vec![Stmt::ContinueStmt],
        })])
    );
}

#[test]
fn stray_jumps_fail_to_build() {
    for stray in [
        Stmt::BreakStmt,
        Stmt::ContinueStmt,
        Stmt::ReturnStmt(momonga::ast::ReturnStmt { expr: None }),
    ] {
        let mut builder = AstBuilder::new();
        assert_eq!(builder.program(&vec![stray]), Err(ParseError::BuildAst));
    }
    // return inside a block at top level is still stray
    let mut builder = AstBuilder::new();
    assert_eq!(
        builder.program(&vec![Stmt::BlockStmt(vec![Stmt::ReturnStmt(
            momonga::ast::ReturnStmt { expr: None }
        )])]),
        Err(ParseError::BuildAst)
    );
    // but a return inside a function body is absorbed at the boundary
    let mut builder = AstBuilder::new();
    let prog = vec![Stmt::FuncDecl(momonga::ast::FuncDecl {
        ident_func: ident("foo"),
        ident_param: vec![],
        block: vec![Stmt::ReturnStmt(momonga::ast::ReturnStmt { expr: None })],
    })];
    assert!(builder.program(&prog).is_ok());
    // and a break inside a loop body is absorbed as well
    let mut builder = AstBuilder::new();
    let prog = vec![Stmt::ForStmt(momonga::ast::ForStmt {
        init: None,
        cond: None,
        afterthought: None,
        block: vec![Stmt::BreakStmt],
    })];
    assert!(builder.program(&prog).is_ok());
}

#[test]
fn division_overflow_is_out_of_range() {
    // (-9223372036854775808) / (-1);
    let min_lit = || Expr::prefix(PrefixOpKind::Neg, Expr::literal_int(9223372036854775808));
    let neg_one = || Expr::prefix(PrefixOpKind::Neg, Expr::literal_int(1));
    let prog = vec![Stmt::ExprStmt(Expr::infix(InfixOpKind::Divide, min_lit(), neg_one()))];
    assert_eq!(eval(&prog, &mut Env::new_with_builtins()), Err(EvalError::OutOfRange));
    let prog = vec![Stmt::ExprStmt(Expr::infix(InfixOpKind::Modulo, min_lit(), neg_one()))];
    assert_eq!(eval(&prog, &mut Env::new_with_builtins()), Err(EvalError::OutOfRange));
}

#[test]
fn len_counts_utf8_bytes() {
    // len of a one-character, two-byte string is 2
    let prog = vec![Stmt::ExprStmt(call(
        "len",
        vec![Expr::literal_string("\u{e9}".to_string())],
    ))];
    assert_eq!(eval(&prog, &mut Env::new_with_builtins()), Ok(Some(Value::Int(2))));
}

#[test]
fn string_concatenation_leaves_the_operands_alone() {
    // var a = "ab"; var b = a; a + "cd"; b; still renders "ab"
    let prog = vec![
        var("a", Expr::literal_string("ab".to_string())),
        var("b", Expr::ident("a")),
        Stmt::ExprStmt(Expr::infix(
            InfixOpKind::Add,
            Expr::ident("a"),
            Expr::literal_string("cd".to_string()),
        )),
        Stmt::ExprStmt(Expr::ident("b")),
    ];
    let mut env = Env::new_with_builtins();
    match eval(&prog, &mut env) {
        Ok(Some(v)) => assert_eq!(display_value(&env, v), Ok("ab".to_string())),
        other => panic!("unexpected result {:?}", other),
    }
}

#[test]
fn loop_body_declarations_do_not_survive_the_iteration() {
    // for (var i = 0; i < 2; i = i + 1) { if (i == 1) { y; } var y = 1; }
    // y is declared in the body scope, which is discarded each round, so the
    // read on the second round fails with a Name error.
    let prog = vec![Stmt::ForStmt(momonga::ast::ForStmt {
        init: Some(momonga::ast::ForStmtInit::Var(VarStmt {
            ident: ident("i"),
            expr: Some(Expr::literal_int(0)),
        })),
        cond: Some(Expr::infix(
            InfixOpKind::Lt,
            Expr::ident("i"),
            Expr::literal_int(2),
        )),
        afterthought: Some(Expr::infix(
            InfixOpKind::Assign,
            Expr::ident("i"),
            Expr::infix(InfixOpKind::Add, Expr::ident("i"), Expr::literal_int(1)),
        )),
        block: vec![
            Stmt::IfStmt(momonga::ast::IfStmt {
                condition: Expr::infix(InfixOpKind::Eq, Expr::ident("i"), Expr::literal_int(1)),
                block: vec![Stmt::ExprStmt(Expr::ident("y"))],
                else_clause: None,
            }),
            var("y", Expr::literal_int(1)),
        ],
    })];
    assert_eq!(eval(&prog, &mut Env::new_with_builtins()), Err(EvalError::Name));
}
