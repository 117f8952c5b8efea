use momonga::ast::{Expr, InfixOpKind, PostfixOpKind, PrefixOpKind};
use momonga::error::ParseError;
use momonga::parser::{climb, ExprPiece};

fn num(u: u64) -> ExprPiece {
    ExprPiece::Atom(Expr::literal_int(u))
}

fn op(k: InfixOpKind) -> ExprPiece {
    ExprPiece::Infix(k)
}

#[test]
fn multiplicative_binds_tighter_than_additive() {
    // 2 + 3 * 5 parses as 2 + (3 * 5)
    let pieces = vec![num(2), op(InfixOpKind::Add), num(3), op(InfixOpKind::Multiply), num(5)];
    assert_eq!(
        climb(&pieces),
        Ok(Expr::infix(
            InfixOpKind::Add,
            Expr::literal_int(2),
            Expr::infix(InfixOpKind::Multiply, Expr::literal_int(3), Expr::literal_int(5)),
        ))
    );
    // 2 * 3 + 5 parses as (2 * 3) + 5
    let pieces = vec![num(2), op(InfixOpKind::Multiply), num(3), op(InfixOpKind::Add), num(5)];
    assert_eq!(
        climb(&pieces),
        Ok(Expr::infix(
            InfixOpKind::Add,
            Expr::infix(InfixOpKind::Multiply, Expr::literal_int(2), Expr::literal_int(3)),
            Expr::literal_int(5),
        ))
    );
}

#[test]
fn additive_is_left_associative() {
    // 2 - 3 - 5 parses as (2 - 3) - 5
    let pieces = vec![num(2), op(InfixOpKind::Subtract), num(3), op(InfixOpKind::Subtract), num(5)];
    assert_eq!(
        climb(&pieces),
        Ok(Expr::infix(
            InfixOpKind::Subtract,
            Expr::infix(InfixOpKind::Subtract, Expr::literal_int(2), Expr::literal_int(3)),
            Expr::literal_int(5),
        ))
    );
}

#[test]
fn assignment_is_right_associative() {
    // x = y = 1 parses as x = (y = 1)
    let pieces = vec![
        ExprPiece::Atom(Expr::ident("x")),
        op(InfixOpKind::Assign),
        ExprPiece::Atom(Expr::ident("y")),
        op(InfixOpKind::Assign),
        num(1),
    ];
    assert_eq!(
        climb(&pieces),
        Ok(Expr::infix(
            InfixOpKind::Assign,
            Expr::ident("x"),
            Expr::infix(InfixOpKind::Assign, Expr::ident("y"), Expr::literal_int(1)),
        ))
    );
}

#[test]
fn comparison_binds_looser_than_additive() {
    // 5 - 3 == 2 parses as (5 - 3) == 2
    let pieces = vec![num(5), op(InfixOpKind::Subtract), num(3), op(InfixOpKind::Eq), num(2)];
    assert_eq!(
        climb(&pieces),
        Ok(Expr::infix(
            InfixOpKind::Eq,
            Expr::infix(InfixOpKind::Subtract, Expr::literal_int(5), Expr::literal_int(3)),
            Expr::literal_int(2),
        ))
    );
}

#[test]
fn postfix_binds_tighter_than_prefix() {
    // -foo() parses as -(foo())
    let pieces = vec![
        ExprPiece::Prefix(PrefixOpKind::Neg),
        ExprPiece::Atom(Expr::ident("foo")),
        ExprPiece::Call(vec![]),
    ];
    assert_eq!(
        climb(&pieces),
        Ok(Expr::prefix(
            PrefixOpKind::Neg,
            Expr::PostfixOp {
                kind: PostfixOpKind::Call(vec![]),
                lhs: Box::new(Expr::ident("foo")),
            },
        ))
    );
}

#[test]
fn postfix_pieces_fold_left_to_right() {
    // a[0](1) parses as (a[0])(1)
    let pieces = vec![
        ExprPiece::Atom(Expr::ident("a")),
        ExprPiece::Index(Expr::literal_int(0)),
        ExprPiece::Call(vec![Expr::literal_int(1)]),
    ];
    assert_eq!(
        climb(&pieces),
        Ok(Expr::PostfixOp {
            kind: PostfixOpKind::Call(vec![Expr::literal_int(1)]),
            lhs: Box::new(Expr::PostfixOp {
                kind: PostfixOpKind::Index(Box::new(Expr::literal_int(0))),
                lhs: Box::new(Expr::ident("a")),
            }),
        })
    );
}

#[test]
fn malformed_piece_sequences_fail_to_build() {
    // a bare operator
    assert_eq!(climb(&vec![op(InfixOpKind::Add)]), Err(ParseError::BuildAst));
    // a trailing operator
    assert_eq!(climb(&vec![num(1), op(InfixOpKind::Add)]), Err(ParseError::BuildAst));
    // two atoms in a row are not consumed whole
    assert_eq!(climb(&vec![num(1), num(2)]), Err(ParseError::BuildAst));
    // an empty sequence
    assert_eq!(climb(&vec![]), Err(ParseError::BuildAst));
}
