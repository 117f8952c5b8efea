use momonga::ast::{
    Expr, ForStmt, ForStmtInit, FuncDecl, Ident, IfStmt, InfixOpKind, PostfixOpKind, Stmt, VarStmt,
};
use momonga::data::{display_value, Value};
use momonga::env::Env;
use momonga::eval::eval;

fn ident(name: &str) -> Ident {
    Ident { name: name.to_string() }
}

fn call(target: &str, args: Vec<Expr>) -> Expr {
    Expr::PostfixOp { kind: PostfixOpKind::Call(args), lhs: Box::new(Expr::ident(target)) }
}

#[test]
fn stmt_is_evaluated_correctly() {
    // Empty program
    assert_eq!(eval(&vec![], &mut Env::new_with_builtins()), Ok(None));
    // BlockStmt: {}
    assert_eq!(
        eval(&vec![Stmt::BlockStmt(vec![])], &mut Env::new_with_builtins()),
        Ok(None)
    );
    // FuncDecl: func foo() {}
    assert_eq!(
        eval(
            &vec![Stmt::FuncDecl(FuncDecl {
                ident_func: ident("foo"),
                ident_param: vec![],
                block: vec![],
            })],
            &mut Env::new_with_builtins()
        ),
        Ok(None)
    );
    // IfStmt: if (true) { if (true) {} }
    assert_eq!(
        eval(
            &vec![Stmt::IfStmt(IfStmt {
                condition: Expr::literal_bool(true),
                block: vec![Stmt::IfStmt(IfStmt {
                    condition: Expr::literal_bool(true),
                    block: vec![],
                    else_clause: None,
                })],
                else_clause: None,
            })],
            &mut Env::new_with_builtins()
        ),
        Ok(None)
    );
    // if (true) { if (true) { none; } }
    assert_eq!(
        eval(
            &vec![Stmt::IfStmt(IfStmt {
                condition: Expr::literal_bool(true),
                block: vec![Stmt::IfStmt(IfStmt {
                    condition: Expr::literal_bool(true),
                    block: vec![Stmt::ExprStmt(Expr::literal_none())],
                    else_clause: None,
                })],
                else_clause: None,
            })],
            &mut Env::new_with_builtins()
        ),
        Ok(Some(Value::Nil))
    );
    // for (var i = 1; i < 10; i = i + 1) {}
    let for_header = |block: Vec<Stmt>| {
        Stmt::ForStmt(ForStmt {
            init: Some(ForStmtInit::Var(VarStmt {
                ident: ident("i"),
                expr: Some(Expr::literal_int(1)),
            })),
            cond: Some(Expr::infix(
                InfixOpKind::Lt,
                Expr::ident("i"),
                Expr::literal_int(10),
            )),
            afterthought: Some(Expr::infix(
                InfixOpKind::Assign,
                Expr::ident("i"),
                Expr::infix(InfixOpKind::Add, Expr::ident("i"), Expr::literal_int(1)),
            )),
            block,
        })
    };
    assert_eq!(
        eval(&vec![for_header(vec![])], &mut Env::new_with_builtins()),
        Ok(None)
    );
    // for (var i = 1; i < 10; i = i + 1) { i; }
    assert_eq!(
        eval(
            &vec![for_header(vec![Stmt::ExprStmt(Expr::ident("i"))])],
            &mut Env::new_with_builtins()
        ),
        Ok(Some(Value::Int(9)))
    );
    // var x;
    assert_eq!(
        eval(
            &vec![Stmt::VarStmt(VarStmt { ident: ident("x"), expr: None })],
            &mut Env::new_with_builtins()
        ),
        Ok(None)
    );
    // var x = 1;
    assert_eq!(
        eval(
            &vec![Stmt::VarStmt(VarStmt {
                ident: ident("x"),
                expr: Some(Expr::literal_int(1)),
            })],
            &mut Env::new_with_builtins()
        ),
        Ok(None)
    );
}

#[test]
fn ident_expression_is_evaluated_correctly() {
    // var x; x;
    assert_eq!(
        eval(
            &vec![
                Stmt::VarStmt(VarStmt { ident: ident("x"), expr: None }),
                Stmt::ExprStmt(Expr::ident("x")),
            ],
            &mut Env::new_with_builtins()
        ),
        Ok(Some(Value::Nil))
    );
    // var x = 1; x;
    assert_eq!(
        eval(
            &vec![
                Stmt::VarStmt(VarStmt {
                    ident: ident("x"),
                    expr: Some(Expr::literal_int(1)),
                }),
                Stmt::ExprStmt(Expr::ident("x")),
            ],
            &mut Env::new_with_builtins()
        ),
        Ok(Some(Value::Int(1)))
    );
}

#[test]
fn literal_ast_is_evaluated_correctly() {
    // Boolean
    assert_eq!(
        eval(&vec![Stmt::ExprStmt(Expr::literal_bool(true))], &mut Env::new_with_builtins()),
        Ok(Some(Value::Bool(true)))
    );
    assert_eq!(
        eval(&vec![Stmt::ExprStmt(Expr::literal_bool(false))], &mut Env::new_with_builtins()),
        Ok(Some(Value::Bool(false)))
    );
    // Integer
    assert_eq!(
        eval(&vec![Stmt::ExprStmt(Expr::literal_int(0))], &mut Env::new_with_builtins()),
        Ok(Some(Value::Int(0)))
    );
    assert_eq!(
        eval(&vec![Stmt::ExprStmt(Expr::literal_int(1))], &mut Env::new_with_builtins()),
        Ok(Some(Value::Int(1)))
    );
    assert_eq!(
        eval(
            &vec![Stmt::ExprStmt(Expr::literal_int(9223372036854775807))],
            &mut Env::new_with_builtins()
        ),
        Ok(Some(Value::Int(i64::MAX)))
    );
    // String: the value is a heap handle; its rendering is the contents.
    let mut env = Env::new_with_builtins();
    let r = eval(
        &vec![Stmt::ExprStmt(Expr::literal_string("foo".to_string()))],
        &mut env,
    );
    match r {
        Ok(Some(v)) => {
            assert!(matches!(v, Value::Str(_)));
            assert_eq!(display_value(&env, v), Ok("foo".to_string()));
        }
        other => panic!("unexpected result {:?}", other),
    }
    // Array: []
    let mut env = Env::new_with_builtins();
    let r = eval(&vec![Stmt::ExprStmt(Expr::literal_array(vec![]))], &mut env);
    match r {
        Ok(Some(v)) => {
            assert!(matches!(v, Value::Arr(_)));
            assert_eq!(display_value(&env, v), Ok("[]".to_string()));
        }
        other => panic!("unexpected result {:?}", other),
    }
    // Array: [1, 2, 3]
    let mut env = Env::new_with_builtins();
    let r = eval(
        &vec![Stmt::ExprStmt(Expr::literal_array(vec![
            Expr::literal_int(1),
            Expr::literal_int(2),
            Expr::literal_int(3),
        ]))],
        &mut env,
    );
    match r {
        Ok(Some(v)) => {
            assert_eq!(display_value(&env, v), Ok("[1, 2, 3]".to_string()));
        }
        other => panic!("unexpected result {:?}", other),
    }
    // None
    assert_eq!(
        eval(&vec![Stmt::ExprStmt(Expr::literal_none())], &mut Env::new_with_builtins()),
        Ok(Some(Value::Nil))
    );
}

#[test]
fn factorial_program_evaluates_to_120() {
    // func factorial(n){ if(n==0){return 1;} return n*factorial(n-1); } factorial(5);
    let body = vec![
        Stmt::IfStmt(IfStmt {
            condition: Expr::infix(InfixOpKind::Eq, Expr::ident("n"), Expr::literal_int(0)),
            block: vec![Stmt::ReturnStmt(momonga::ast::ReturnStmt {
                expr: Some(Expr::literal_int(1)),
            })],
            else_clause: None,
        }),
        Stmt::ReturnStmt(momonga::ast::ReturnStmt {
            expr: Some(Expr::infix(
                InfixOpKind::Multiply,
                Expr::ident("n"),
                call(
                    "factorial",
                    vec![Expr::infix(
                        InfixOpKind::Subtract,
                        Expr::ident("n"),
                        Expr::literal_int(1),
                    )],
                ),
            )),
        }),
    ];
    let prog = vec![
        Stmt::FuncDecl(FuncDecl {
            ident_func: ident("factorial"),
            ident_param: vec![ident("n")],
            block: body,
        }),
        Stmt::ExprStmt(call("factorial", vec![Expr::literal_int(5)])),
    ];
    assert_eq!(eval(&prog, &mut Env::new_with_builtins()), Ok(Some(Value::Int(120))));
}

#[test]
fn for_loop_break_leaves_counter_at_three() {
    // var i; for(i=0;i<10;i=i+1){ if(i==3){break;} } i;
    let prog = vec![
        Stmt::VarStmt(VarStmt { ident: ident("i"), expr: None }),
        Stmt::ForStmt(ForStmt {
            init: Some(ForStmtInit::Expr(Expr::infix(
                InfixOpKind::Assign,
                Expr::ident("i"),
                Expr::literal_int(0),
            ))),
            cond: Some(Expr::infix(
                InfixOpKind::Lt,
                Expr::ident("i"),
                Expr::literal_int(10),
            )),
            afterthought: Some(Expr::infix(
                InfixOpKind::Assign,
                Expr::ident("i"),
                Expr::infix(InfixOpKind::Add, Expr::ident("i"), Expr::literal_int(1)),
            )),
            block: vec![Stmt::IfStmt(IfStmt {
                condition: Expr::infix(InfixOpKind::Eq, Expr::ident("i"), Expr::literal_int(3)),
                block: vec![Stmt::BreakStmt],
                else_clause: None,
            })],
        }),
        Stmt::ExprStmt(Expr::ident("i")),
    ];
    assert_eq!(eval(&prog, &mut Env::new_with_builtins()), Ok(Some(Value::Int(3))));
}

#[test]
fn string_concatenation_builds_greeting() {
    // "Hello" + ", " + "World" + "!";
    let concat = |l: Expr, r: Expr| Expr::infix(InfixOpKind::Add, l, r);
    let prog = vec![Stmt::ExprStmt(concat(
        concat(
            concat(
                Expr::literal_string("Hello".to_string()),
                Expr::literal_string(", ".to_string()),
            ),
            Expr::literal_string("World".to_string()),
        ),
        Expr::literal_string("!".to_string()),
    ))];
    let mut env = Env::new_with_builtins();
    match eval(&prog, &mut env) {
        Ok(Some(v)) => assert_eq!(display_value(&env, v), Ok("Hello, World!".to_string())),
        other => panic!("unexpected result {:?}", other),
    }
}
