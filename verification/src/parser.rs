//! The structural pass of the parser: while a block's statement list is
//! built, a flow mode tracks whether a `continue`, `break` or `return` has
//! been produced. The statement after such a terminator is silently dropped,
//! a function body absorbs a pending return, a loop body absorbs a pending
//! continue or break, and a program in which the mode survives to the top
//! level fails to build. The grammar front-end that shapes raw text into the
//! tree this pass consumes is an outside collaborator.

use vstd::prelude::*;

use crate::ast::{
    expr_dup, ident_dup, opt_expr_dup, view_expr, view_exprs, view_for, view_for_init,
    view_idents, view_if, view_opt_expr, view_stmt, view_stmts, lemma_view_stmts, ElseV, Expr,
    ExprV, ForInitV, ForStmt, ForStmtInit, FuncDecl, FuncDeclV, Ident, IfStmt, IfStmtElseClause,
    IfV, InfixOpKind, PostfixOpKind, PrefixOpKind, Stmt, StmtV, VarStmt, var_dup, exprs_dup,
};
use crate::error::ParseError;

verus! {

/// The build-flow mode: normal, or carrying a pending jump.
#[derive(Debug, PartialEq, Eq, Clone, Copy, Structural)]
pub enum AstBuildFlow {
    Value,
    Break,
    Continue,
    Return,
}

/// One statement of a block: the pruned statement and the mode after it.
pub open spec fn prune_stmt(s: StmtV, f: AstBuildFlow) -> (StmtV, AstBuildFlow)
    decreases s,
{
    match s {
        StmtV::Continue => (s, AstBuildFlow::Continue),
        StmtV::Break => (s, AstBuildFlow::Break),
        StmtV::Return(e) => (s, AstBuildFlow::Return),
        StmtV::Block(b) => {
            let (b2, f2) = prune_stmts(b, f);
            (StmtV::Block(b2), f2)
        },
        StmtV::Func(fd) => {
            let (b2, f2) = prune_stmts(fd.body, f);
            (
                StmtV::Func(FuncDeclV { body: b2, ..fd }),
                if f2 is Return {
                    AstBuildFlow::Value
                } else {
                    f2
                },
            )
        },
        StmtV::If(iv) => {
            let (b2, f2) = prune_stmts(iv.body, f);
            match iv.els {
                Option::None => (StmtV::If(IfV { body: b2, ..iv }), f2),
                Option::Some(e) => {
                    let (e2, f3) = prune_else(e, f2);
                    (StmtV::If(IfV { body: b2, els: Option::Some(e2), ..iv }), f3)
                },
            }
        },
        StmtV::For(fv) => {
            let (b2, f2) = prune_stmts(fv.body, f);
            (
                StmtV::For(crate::ast::ForV { body: b2, ..fv }),
                if f2 is Continue || f2 is Break {
                    AstBuildFlow::Value
                } else {
                    f2
                },
            )
        },
        StmtV::Var(n, oe) => (s, f),
        StmtV::Expr(e) => (s, f),
    }
}

pub open spec fn prune_else(e: ElseV, f: AstBuildFlow) -> (ElseV, AstBuildFlow)
    decreases e,
{
    match e {
        ElseV::Block(b) => {
            let (b2, f2) = prune_stmts(b, f);
            (ElseV::Block(b2), f2)
        },
        ElseV::ElseIf(bi) => {
            let (b2, f2) = prune_stmts(bi.body, f);
            match bi.els {
                Option::None => (ElseV::ElseIf(Box::new(IfV { body: b2, ..*bi })), f2),
                Option::Some(e3) => {
                    let (e2, f3) = prune_else(e3, f2);
                    (
                        ElseV::ElseIf(Box::new(IfV { body: b2, els: Option::Some(e2), ..*bi })),
                        f3,
                    )
                },
            }
        },
    }
}

/// Whether a statement is a literal terminator: once one is produced, the
/// rest of its block is discarded.
pub open spec fn is_terminator(s: StmtV) -> bool {
    s is Continue || s is Break || s is Return
}

/// A block's statement list: statements in order, stopping at the first
/// literal terminator; everything after it is dropped.
pub open spec fn prune_stmts(ss: Seq<StmtV>, f: AstBuildFlow) -> (Seq<StmtV>, AstBuildFlow)
    decreases ss,
{
    if ss.len() == 0 {
        (Seq::empty(), f)
    } else {
        let (s2, f2) = prune_stmt(ss[0], f);
        if is_terminator(ss[0]) {
            (seq![s2], f2)
        } else {
            let (rest, f3) = prune_stmts(ss.drop_first(), f2);
            (seq![s2] + rest, f3)
        }
    }
}

/// The whole program: each top-level statement must leave the mode normal;
/// a jump that survives to the top level is a build failure.
pub open spec fn prune_program(ss: Seq<StmtV>) -> Result<Seq<StmtV>, ParseError>
    decreases ss,
{
    if ss.len() == 0 {
        Ok(Seq::empty())
    } else {
        let (s2, f2) = prune_stmt(ss[0], AstBuildFlow::Value);
        if f2 != AstBuildFlow::Value {
            Err(ParseError::BuildAst)
        } else {
            match prune_program(ss.drop_first()) {
                Ok(rest) => Ok(seq![s2] + rest),
                Err(e) => Err(e),
            }
        }
    }
}

/// The builder state: the flow mode, threaded through block construction.
pub struct AstBuilder {
    pub flow: AstBuildFlow,
}

impl AstBuilder {
    pub fn new() -> (r: Self)
        ensures
            r.flow == AstBuildFlow::Value,
    {
        Self { flow: AstBuildFlow::Value }
    }

    /// Build a whole program, rejecting any jump that escapes to the top
    /// level.
    pub fn program(&mut self, prog: &Vec<Stmt>) -> (r: Result<Vec<Stmt>, ParseError>)
        requires
            old(self).flow == AstBuildFlow::Value,
        ensures
            match prune_program(view_stmts(prog@)) {
                Ok(ss2) => r is Ok && view_stmts(r->Ok_0@) == ss2,
                Err(e) => r == Err::<Vec<Stmt>, ParseError>(e),
            },
    {
        let ghost sv = view_stmts(prog@);
        proof {
            lemma_view_stmts(prog@);
            assert(sv.skip(0) =~= sv);
        }
        let n = prog.len();
        let mut out: Vec<Stmt> = Vec::new();
        let mut i: usize = 0;
        while i < n
            invariant
                i <= n,
                n == prog@.len(),
                sv == view_stmts(prog@),
                sv.len() == n,
                self.flow == AstBuildFlow::Value,
                forall|k: int| 0 <= k < n ==> sv[k] == view_stmt(prog@[k]),
                match prune_program(sv.skip(i as int)) {
                    Ok(rest) => prune_program(sv) == Ok::<Seq<StmtV>, ParseError>(
                        view_stmts(out@) + rest,
                    ),
                    Err(e) => prune_program(sv) == Err::<Seq<StmtV>, ParseError>(e),
                },
            decreases n - i,
        {
            proof {
                lemma_view_stmts(out@);
                assert(sv.skip(i as int)[0] == sv[i as int]);
                assert(sv.skip(i as int).drop_first() =~= sv.skip(i as int + 1));
            }
            let s2 = self.stmt(&prog[i]);
            if !matches!(self.flow, AstBuildFlow::Value) {
                return Err(ParseError::BuildAst);
            }
            let ghost out0 = out@;
            out.push(s2);
            proof {
                lemma_view_stmts(out@);
                assert(view_stmts(out@) =~= view_stmts(out0).push(view_stmt(out@.last())));
                match prune_program(sv.skip(i as int + 1)) {
                    Ok(rest) => {
                        assert(view_stmts(out0) + (seq![view_stmt(out@.last())] + rest)
                            =~= view_stmts(out@) + rest);
                    },
                    Err(e) => {},
                }
            }
            i = i + 1;
        }
        proof {
            assert(sv.skip(n as int) =~= Seq::<StmtV>::empty());
            assert(view_stmts(out@) + Seq::<StmtV>::empty() =~= view_stmts(out@));
        }
        Ok(out)
    }

    /// Build one statement, updating the flow mode.
    pub fn stmt(&mut self, s: &Stmt) -> (r: Stmt)
        ensures
            (view_stmt(r), final(self).flow) == prune_stmt(view_stmt(*s), old(self).flow),
        decreases *s,
    {
        match s {
            Stmt::ContinueStmt => {
                self.flow = AstBuildFlow::Continue;
                Stmt::ContinueStmt
            },
            Stmt::BreakStmt => {
                self.flow = AstBuildFlow::Break;
                Stmt::BreakStmt
            },
            Stmt::ReturnStmt(rs) => {
                self.flow = AstBuildFlow::Return;
                Stmt::ReturnStmt(crate::ast::ReturnStmt { expr: opt_expr_dup(&rs.expr) })
            },
            Stmt::BlockStmt(b) => Stmt::BlockStmt(self.block_stmt(b)),
            Stmt::FuncDecl(fd) => Stmt::FuncDecl(self.func_decl(fd)),
            Stmt::IfStmt(iv) => Stmt::IfStmt(self.if_stmt(iv)),
            Stmt::ForStmt(fv) => Stmt::ForStmt(self.for_stmt(fv)),
            Stmt::VarStmt(v) => Stmt::VarStmt(var_dup(v)),
            Stmt::ExprStmt(e) => Stmt::ExprStmt(expr_dup(e)),
        }
    }

    /// Build a block's statement list, dropping whatever follows the first
    /// literal terminator.
    pub fn block_stmt(&mut self, ss: &Vec<Stmt>) -> (r: Vec<Stmt>)
        ensures
            (view_stmts(r@), final(self).flow) == prune_stmts(view_stmts(ss@), old(self).flow),
        decreases ss@,
    {
        let ghost sv = view_stmts(ss@);
        let ghost f0 = old(self).flow;
        proof {
            lemma_view_stmts(ss@);
            assert(sv.skip(0) =~= sv);
        }
        let n = ss.len();
        let mut out: Vec<Stmt> = Vec::new();
        let mut i: usize = 0;
        while i < n
            invariant
                i <= n,
                n == ss@.len(),
                sv == view_stmts(ss@),
                sv.len() == n,
                f0 == old(self).flow,
                forall|k: int| 0 <= k < n ==> sv[k] == view_stmt(ss@[k]),
                ({
                    let (rest, fr) = prune_stmts(sv.skip(i as int), self.flow);
                    prune_stmts(sv, f0) == (view_stmts(out@) + rest, fr)
                }),
            decreases n - i,
        {
            proof {
                lemma_view_stmts(out@);
                assert(sv.skip(i as int)[0] == sv[i as int]);
                assert(sv.skip(i as int).drop_first() =~= sv.skip(i as int + 1));
                crate::ast::lemma_stmtsv_size_elem(sv, i as int);
            }
            let s2 = self.stmt(&ss[i]);
            let stop = matches!(&ss[i], Stmt::ContinueStmt | Stmt::BreakStmt | Stmt::ReturnStmt(_));
            let ghost out0 = out@;
            out.push(s2);
            proof {
                lemma_view_stmts(out@);
                assert(view_stmts(out@) =~= view_stmts(out0).push(view_stmt(out@.last())));
                assert(stop == is_terminator(sv[i as int]));
                if stop {
                    assert(view_stmts(out0) + seq![view_stmt(out@.last())] =~= view_stmts(out@));
                } else {
                    let (rest, fr) = prune_stmts(sv.skip(i as int + 1), self.flow);
                    assert(view_stmts(out0) + (seq![view_stmt(out@.last())] + rest)
                        =~= view_stmts(out@) + rest);
                }
            }
            if stop {
                proof {
                    assert(view_stmts(out@) + Seq::<StmtV>::empty() =~= view_stmts(out@));
                }
                return out;
            }
            i = i + 1;
        }
        proof {
            assert(sv.skip(n as int) =~= Seq::<StmtV>::empty());
            assert(view_stmts(out@) + Seq::<StmtV>::empty() =~= view_stmts(out@));
        }
        out
    }

    /// A function body absorbs a pending return.
    pub fn func_decl(&mut self, fd: &FuncDecl) -> (r: FuncDecl)
        ensures
            ({
                let (s2, f2) = prune_stmt(view_stmt(Stmt::FuncDecl(*fd)), old(self).flow);
                view_stmt(Stmt::FuncDecl(r)) == s2 && final(self).flow == f2
            }),
        decreases *fd,
    {
        let body = self.block_stmt(&fd.block);
        if matches!(self.flow, AstBuildFlow::Return) {
            self.flow = AstBuildFlow::Value;
        }
        let mut params: Vec<Ident> = Vec::new();
        let np = fd.ident_param.len();
        let mut i: usize = 0;
        while i < np
            invariant
                i <= np,
                np == fd.ident_param@.len(),
                params@.len() == i,
                forall|k: int| 0 <= k < i ==> (#[trigger] params@[k]).name@
                    == fd.ident_param@[k].name@,
            decreases np - i,
        {
            params.push(ident_dup(&fd.ident_param[i]));
            i = i + 1;
        }
        let r = FuncDecl { ident_func: ident_dup(&fd.ident_func), ident_param: params, block: body };
        proof {
            assert(view_idents(r.ident_param@) =~= view_idents(fd.ident_param@));
        }
        r
    }

    /// An `if` threads the mode through its arms.
    pub fn if_stmt(&mut self, iv: &IfStmt) -> (r: IfStmt)
        ensures
            ({
                let (s2, f2) = prune_stmt(view_stmt(Stmt::IfStmt(*iv)), old(self).flow);
                view_stmt(Stmt::IfStmt(r)) == s2 && final(self).flow == f2
            }),
        decreases *iv,
    {
        let body = self.block_stmt(&iv.block);
        let els = match &iv.else_clause {
            Option::None => Option::None,
            Option::Some(e) => Option::Some(self.else_clause(e)),
        };
        IfStmt { condition: expr_dup(&iv.condition), block: body, else_clause: els }
    }

    pub fn else_clause(&mut self, e: &IfStmtElseClause) -> (r: IfStmtElseClause)
        ensures
            ({
                let (e2, f2) = prune_else(crate::ast::view_else(*e), old(self).flow);
                crate::ast::view_else(r) == e2 && final(self).flow == f2
            }),
        decreases *e,
    {
        match e {
            IfStmtElseClause::IfStmtBlock(b) => IfStmtElseClause::IfStmtBlock(self.block_stmt(b)),
            IfStmtElseClause::IfStmt(bi) => {
                let body = self.block_stmt(&bi.block);
                let els = match &bi.else_clause {
                    Option::None => Option::None,
                    Option::Some(e3) => Option::Some(self.else_clause(e3)),
                };
                IfStmtElseClause::IfStmt(
                    Box::new(IfStmt { condition: expr_dup(&bi.condition), block: body, else_clause: els }),
                )
            },
        }
    }

    /// A loop body absorbs a pending continue or break.
    pub fn for_stmt(&mut self, fv: &ForStmt) -> (r: ForStmt)
        ensures
            ({
                let (s2, f2) = prune_stmt(view_stmt(Stmt::ForStmt(*fv)), old(self).flow);
                view_stmt(Stmt::ForStmt(r)) == s2 && final(self).flow == f2
            }),
        decreases *fv,
    {
        let body = self.block_stmt(&fv.block);
        if matches!(self.flow, AstBuildFlow::Continue | AstBuildFlow::Break) {
            self.flow = AstBuildFlow::Value;
        }
        let init = match &fv.init {
            Option::Some(ForStmtInit::Var(vs)) => Option::Some(ForStmtInit::Var(var_dup(vs))),
            Option::Some(ForStmtInit::Expr(e)) => Option::Some(ForStmtInit::Expr(expr_dup(e))),
            Option::None => Option::None,
        };
        ForStmt {
            init,
            cond: opt_expr_dup(&fv.cond),
            afterthought: opt_expr_dup(&fv.afterthought),
            block: body,
        }
    }
}

// ---------------------------------------------------------------------------
// Laws of the structural pass.
// ---------------------------------------------------------------------------

/// A block that begins with a terminator keeps only that terminator: a
/// `break;` followed by a `continue;` builds to the `break;` alone.
pub proof fn lemma_pruning_keeps_only_first_terminator(ss: Seq<StmtV>, f: AstBuildFlow)
    requires
        ss.len() >= 1,
        is_terminator(ss[0]),
    ensures
        prune_stmts(ss, f).0 == seq![ss[0]],
{
    reveal_with_fuel(prune_stmts, 1);
    reveal_with_fuel(prune_stmt, 1);
    let (s2, f2) = prune_stmt(ss[0], f);
    assert(s2 == ss[0]);
    assert(prune_stmts(ss, f).0 =~= seq![ss[0]]);
}

/// A bare `return;`, `break;` or `continue;` at program top level fails to
/// build.
pub proof fn lemma_top_level_jump_fails(ss: Seq<StmtV>)
    requires
        ss.len() >= 1,
        is_terminator(ss[0]),
    ensures
        prune_program(ss) == Err::<Seq<StmtV>, ParseError>(ParseError::BuildAst),
{
}


// ---------------------------------------------------------------------------
// Expression construction: operator-precedence climbing. The grammar
// front-end delivers each expression as a flat sequence of pieces (prefix
// operators, atoms, postfix operators, infix operators, with nested
// expressions already shaped); the climb below binds them by the language's
// precedence order, lowest first: assignment (right-associative) < `||` <
// `&&` < comparisons < additive < multiplicative < unary prefix < postfix.
// ---------------------------------------------------------------------------

/// One piece of a flat expression: sub-expressions inside an index, a call's
/// arguments or an atom arrive already shaped.
#[derive(Debug, PartialEq, Eq)]
pub enum ExprPiece {
    Prefix(PrefixOpKind),
    Infix(InfixOpKind),
    Index(Expr),
    Call(Vec<Expr>),
    Atom(Expr),
}

pub ghost enum PieceV {
    Prefix(PrefixOpKind),
    Infix(InfixOpKind),
    Index(ExprV),
    Call(Seq<ExprV>),
    Atom(ExprV),
}

pub open spec fn view_piece(p: ExprPiece) -> PieceV {
    match p {
        ExprPiece::Prefix(k) => PieceV::Prefix(k),
        ExprPiece::Infix(k) => PieceV::Infix(k),
        ExprPiece::Index(e) => PieceV::Index(view_expr(e)),
        ExprPiece::Call(args) => PieceV::Call(view_exprs(args@)),
        ExprPiece::Atom(e) => PieceV::Atom(view_expr(e)),
    }
}

pub open spec fn view_pieces(ps: Seq<ExprPiece>) -> Seq<PieceV>
    decreases ps,
{
    if ps.len() == 0 {
        Seq::empty()
    } else {
        seq![view_piece(ps[0])] + view_pieces(ps.drop_first())
    }
}

pub proof fn lemma_view_pieces(ps: Seq<ExprPiece>)
    ensures
        view_pieces(ps).len() == ps.len(),
        forall|i: int| 0 <= i < ps.len() ==> view_pieces(ps)[i] == view_piece(ps[i]),
    decreases ps.len(),
{
    if ps.len() > 0 {
        lemma_view_pieces(ps.drop_first());
    }
}

/// Binding strength of an infix operator, loosest first: assignment, then
/// `||`, `&&`, the comparison group, additive, multiplicative.
pub open spec fn infix_prec(op: InfixOpKind) -> nat {
    match op {
        InfixOpKind::Assign => 1,
        InfixOpKind::Or => 2,
        InfixOpKind::And => 3,
        InfixOpKind::Eq => 4,
        InfixOpKind::NotEq => 4,
        InfixOpKind::Gt => 4,
        InfixOpKind::Ge => 4,
        InfixOpKind::Lt => 4,
        InfixOpKind::Le => 4,
        InfixOpKind::Add => 5,
        InfixOpKind::Subtract => 5,
        InfixOpKind::Multiply => 6,
        InfixOpKind::Divide => 6,
        InfixOpKind::Modulo => 6,
    }
}

/// Only assignment groups to the right.
pub open spec fn is_right_assoc(op: InfixOpKind) -> bool {
    op is Assign
}

/// Fold postfix pieces onto an already built operand: postfix binds tighter
/// than everything else, left to right.
pub open spec fn sc_postfix(ps: Seq<PieceV>, i: int, acc: ExprV) -> (ExprV, int)
    decreases ps.len() - i,
{
    if 0 <= i < ps.len() {
        match ps[i] {
            PieceV::Index(ix) => sc_postfix(
                ps,
                i + 1,
                ExprV::Index(Box::new(acc), Box::new(ix)),
            ),
            PieceV::Call(args) => sc_postfix(ps, i + 1, ExprV::Call(Box::new(acc), args)),
            _ => (acc, i),
        }
    } else {
        (acc, i)
    }
}

/// One unit: prefix operators wrap the atom together with its postfix
/// pieces, so postfix binds tighter than prefix.
pub open spec fn sc_unit(ps: Seq<PieceV>, i: int) -> Option<(ExprV, int)>
    decreases ps.len() - i,
{
    if 0 <= i < ps.len() {
        match ps[i] {
            PieceV::Prefix(k) => match sc_unit(ps, i + 1) {
                Option::Some((e, j)) => Option::Some((ExprV::Prefix(k, Box::new(e)), j)),
                Option::None => Option::None,
            },
            PieceV::Atom(a) => Option::Some(sc_postfix(ps, i + 1, a)),
            _ => Option::None,
        }
    } else {
        Option::None
    }
}

/// Precedence climbing proper: while the next operator binds at least as
/// tightly as `minp`, take it, build its right operand out of every operator
/// that binds tighter (or equally, for a right-associative operator), and
/// fold left.
pub open spec fn sc_infix(ps: Seq<PieceV>, i: int, lhs: ExprV, minp: nat) -> Option<(ExprV, int)>
    decreases ps.len() - i,
{
    if 0 <= i < ps.len() {
        match ps[i] {
            PieceV::Infix(op) => if infix_prec(op) >= minp {
                match sc_unit(ps, i + 1) {
                    Option::Some((rhs0, j)) => if i + 1 < j <= ps.len() {
                        let next = if is_right_assoc(op) {
                            infix_prec(op)
                        } else {
                            infix_prec(op) + 1
                        };
                        match sc_infix(ps, j, rhs0, next) {
                            Option::Some((rhs, k)) => if j <= k <= ps.len() {
                                sc_infix(
                                    ps,
                                    k,
                                    ExprV::Infix(op, Box::new(lhs), Box::new(rhs)),
                                    minp,
                                )
                            } else {
                                Option::None
                            },
                            Option::None => Option::None,
                        }
                    } else {
                        Option::None
                    },
                    Option::None => Option::None,
                }
            } else {
                Option::Some((lhs, i))
            },
            _ => Option::Some((lhs, i)),
        }
    } else {
        Option::Some((lhs, i))
    }
}

/// What `climb` builds from a flat piece sequence: one unit, then climbing
/// from the loosest level; the sequence must be consumed whole.
pub open spec fn spec_climb(ps: Seq<PieceV>) -> Result<ExprV, ParseError> {
    match sc_unit(ps, 0) {
        Option::Some((lhs, i)) => match sc_infix(ps, i, lhs, 1) {
            Option::Some((e, j)) => if j == ps.len() {
                Ok(e)
            } else {
                Err(ParseError::BuildAst)
            },
            Option::None => Err(ParseError::BuildAst),
        },
        Option::None => Err(ParseError::BuildAst),
    }
}

fn prec_of(op: InfixOpKind) -> (r: u8)
    ensures
        r == infix_prec(op),
{
    match op {
        InfixOpKind::Assign => 1,
        InfixOpKind::Or => 2,
        InfixOpKind::And => 3,
        InfixOpKind::Eq => 4,
        InfixOpKind::NotEq => 4,
        InfixOpKind::Gt => 4,
        InfixOpKind::Ge => 4,
        InfixOpKind::Lt => 4,
        InfixOpKind::Le => 4,
        InfixOpKind::Add => 5,
        InfixOpKind::Subtract => 5,
        InfixOpKind::Multiply => 6,
        InfixOpKind::Divide => 6,
        InfixOpKind::Modulo => 6,
    }
}

fn climb_postfix(pieces: &Vec<ExprPiece>, i: usize, acc: Expr) -> (r: (Expr, usize))
    requires
        i <= pieces@.len(),
    ensures
        i <= r.1 <= pieces@.len(),
        sc_postfix(view_pieces(pieces@), i as int, view_expr(acc)) == (view_expr(r.0), r.1 as int),
    decreases pieces@.len() - i,
{
    proof {
        lemma_view_pieces(pieces@);
    }
    if i < pieces.len() {
        match &pieces[i] {
            ExprPiece::Index(ix) => climb_postfix(
                pieces,
                i + 1,
                Expr::PostfixOp {
                    kind: PostfixOpKind::Index(Box::new(expr_dup(ix))),
                    lhs: Box::new(acc),
                },
            ),
            ExprPiece::Call(args) => climb_postfix(
                pieces,
                i + 1,
                Expr::PostfixOp {
                    kind: PostfixOpKind::Call(exprs_dup(args)),
                    lhs: Box::new(acc),
                },
            ),
            _ => (acc, i),
        }
    } else {
        (acc, i)
    }
}

fn climb_unit(pieces: &Vec<ExprPiece>, i: usize) -> (r: Result<(Expr, usize), ParseError>)
    requires
        i <= pieces@.len(),
    ensures
        match r {
            Ok((e, j)) => {
                &&& i < j <= pieces@.len()
                &&& sc_unit(view_pieces(pieces@), i as int) == Option::Some(
                    (view_expr(e), j as int),
                )
            },
            Err(er) => sc_unit(view_pieces(pieces@), i as int) is None && er
                == ParseError::BuildAst,
        },
    decreases pieces@.len() - i,
{
    proof {
        lemma_view_pieces(pieces@);
    }
    if i < pieces.len() {
        match &pieces[i] {
            ExprPiece::Prefix(k) => match climb_unit(pieces, i + 1) {
                Ok((e, j)) => Ok((Expr::PrefixOp { kind: *k, rhs: Box::new(e) }, j)),
                Err(er) => Err(er),
            },
            ExprPiece::Atom(a) => Ok(climb_postfix(pieces, i + 1, expr_dup(a))),
            _ => Err(ParseError::BuildAst),
        }
    } else {
        Err(ParseError::BuildAst)
    }
}

#[verifier::rlimit(50)]
#[verifier::spinoff_prover]
fn climb_infix(pieces: &Vec<ExprPiece>, i: usize, lhs: Expr, minp: u8) -> (r: Result<
    (Expr, usize),
    ParseError,
>)
    requires
        i <= pieces@.len(),
    ensures
        match r {
            Ok((e, j)) => {
                &&& i <= j <= pieces@.len()
                &&& sc_infix(view_pieces(pieces@), i as int, view_expr(lhs), minp as nat)
                    == Option::Some((view_expr(e), j as int))
            },
            Err(er) => sc_infix(view_pieces(pieces@), i as int, view_expr(lhs), minp as nat)
                is None && er == ParseError::BuildAst,
        },
    decreases pieces@.len() - i,
{
    proof {
        lemma_view_pieces(pieces@);
    }
    if i < pieces.len() {
        match &pieces[i] {
            ExprPiece::Infix(op) => {
                let op = *op;
                if prec_of(op) >= minp {
                    match climb_unit(pieces, i + 1) {
                        Ok((rhs0, j)) => {
                            let next: u8 = if matches!(op, InfixOpKind::Assign) {
                                prec_of(op)
                            } else {
                                prec_of(op) + 1
                            };
                            match climb_infix(pieces, j, rhs0, next) {
                                Ok((rhs, k)) => climb_infix(
                                    pieces,
                                    k,
                                    Expr::InfixOp {
                                        kind: op,
                                        lhs: Box::new(lhs),
                                        rhs: Box::new(rhs),
                                    },
                                    minp,
                                ),
                                Err(er) => Err(er),
                            }
                        },
                        Err(er) => Err(er),
                    }
                } else {
                    Ok((lhs, i))
                }
            },
            _ => Ok((lhs, i)),
        }
    } else {
        Ok((lhs, i))
    }
}

/// Build one expression from its flat pieces by the precedence order above.
pub fn climb(pieces: &Vec<ExprPiece>) -> (r: Result<Expr, ParseError>)
    ensures
        match r {
            Ok(e) => spec_climb(view_pieces(pieces@)) == Ok::<ExprV, ParseError>(view_expr(e)),
            Err(er) => spec_climb(view_pieces(pieces@)) == Err::<ExprV, ParseError>(er),
        },
{
    proof {
        lemma_view_pieces(pieces@);
    }
    match climb_unit(pieces, 0) {
        Ok((lhs, i)) => match climb_infix(pieces, i, lhs, 1) {
            Ok((e, j)) => if j == pieces.len() {
                Ok(e)
            } else {
                Err(ParseError::BuildAst)
            },
            Err(er) => Err(er),
        },
        Err(er) => Err(er),
    }
}

} // verus!
