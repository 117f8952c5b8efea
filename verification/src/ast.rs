//! The abstract syntax tree of the language, together with its mathematical
//! mirror (`StmtV`, `ExprV`, ...) used by the contracts of the builder and the
//! evaluator. The mirror replaces every `String` by a `Seq<char>` and every
//! `Vec` by a `Seq`, so that two trees that spell the same program are equal.

use vstd::prelude::*;

verus! {

pub type Program = Vec<Stmt>;

pub type BlockStmt = Vec<Stmt>;

pub type ExprStmt = Expr;

pub type ForStmtCond = Expr;

pub type ForStmtAfterthought = Expr;

#[derive(Debug, PartialEq, Eq)]
pub enum Stmt {
    BlockStmt(BlockStmt),
    FuncDecl(FuncDecl),
    IfStmt(IfStmt),
    ForStmt(ForStmt),
    VarStmt(VarStmt),
    ExprStmt(ExprStmt),
    ContinueStmt,
    BreakStmt,
    ReturnStmt(ReturnStmt),
}

#[derive(Debug, PartialEq, Eq)]
pub struct FuncDecl {
    pub ident_func: Ident,
    pub ident_param: Vec<Ident>,
    pub block: BlockStmt,
}

#[derive(Debug, PartialEq, Eq)]
pub struct IfStmt {
    pub condition: Expr,
    pub block: BlockStmt,
    pub else_clause: Option<IfStmtElseClause>,
}

#[derive(Debug, PartialEq, Eq)]
pub enum IfStmtElseClause {
    IfStmtBlock(BlockStmt),
    IfStmt(Box<IfStmt>),
}

#[derive(Debug, PartialEq, Eq)]
pub struct ForStmt {
    pub init: Option<ForStmtInit>,
    pub cond: Option<ForStmtCond>,
    pub afterthought: Option<ForStmtAfterthought>,
    pub block: BlockStmt,
}

#[derive(Debug, PartialEq, Eq)]
pub enum ForStmtInit {
    Var(VarStmt),
    Expr(Expr),
}

#[derive(Debug, PartialEq, Eq)]
pub struct VarStmt {
    pub ident: Ident,
    pub expr: Option<Expr>,
}

#[derive(Debug, PartialEq, Eq)]
pub struct ReturnStmt {
    pub expr: Option<Expr>,
}

#[derive(Debug, PartialEq, Eq)]
pub enum Expr {
    Literal(Literal),
    Ident(Ident),
    PrefixOp { kind: PrefixOpKind, rhs: Box<Expr> },
    InfixOp { kind: InfixOpKind, lhs: Box<Expr>, rhs: Box<Expr> },
    PostfixOp { kind: PostfixOpKind, lhs: Box<Expr> },
}

#[derive(Debug, PartialEq, Eq, Clone, Copy, Structural)]
pub enum PrefixOpKind {
    Pos,
    Neg,
    Not,
}

#[derive(Debug, PartialEq, Eq, Clone, Copy, Structural)]
pub enum InfixOpKind {
    Add,
    Subtract,
    Multiply,
    Divide,
    Modulo,
    Eq,
    NotEq,
    Gt,
    Ge,
    Lt,
    Le,
    And,
    Or,
    Assign,
}

#[derive(Debug, PartialEq, Eq)]
pub enum PostfixOpKind {
    Index(Box<Expr>),
    Call(Vec<Expr>),
}

#[derive(Debug, PartialEq, Eq)]
pub enum Literal {
    Bool(bool),
    Int(u64),
    Str(String),
    Array(Vec<Expr>),
    Nil,
}

#[derive(Debug, PartialEq, Eq)]
pub struct Ident {
    pub name: String,
}

// ---------------------------------------------------------------------------
// The mathematical mirror of the tree.
// ---------------------------------------------------------------------------

pub ghost enum StmtV {
    Block(Seq<StmtV>),
    Func(FuncDeclV),
    If(IfV),
    For(ForV),
    Var(Seq<char>, Option<ExprV>),
    Expr(ExprV),
    Continue,
    Break,
    Return(Option<ExprV>),
}

pub ghost struct FuncDeclV {
    pub name: Seq<char>,
    pub params: Seq<Seq<char>>,
    pub body: Seq<StmtV>,
}

pub ghost struct IfV {
    pub cond: ExprV,
    pub body: Seq<StmtV>,
    pub els: Option<ElseV>,
}

pub ghost enum ElseV {
    Block(Seq<StmtV>),
    ElseIf(Box<IfV>),
}

pub ghost struct ForV {
    pub init: Option<ForInitV>,
    pub cond: Option<ExprV>,
    pub after: Option<ExprV>,
    pub body: Seq<StmtV>,
}

pub ghost enum ForInitV {
    Var(Seq<char>, Option<ExprV>),
    Expr(ExprV),
}

pub ghost enum ExprV {
    Lit(LitV),
    Ident(Seq<char>),
    Prefix(PrefixOpKind, Box<ExprV>),
    Infix(InfixOpKind, Box<ExprV>, Box<ExprV>),
    Index(Box<ExprV>, Box<ExprV>),
    Call(Box<ExprV>, Seq<ExprV>),
}

pub ghost enum LitV {
    Bool(bool),
    Int(u64),
    Str(Seq<char>),
    Arr(Seq<ExprV>),
    Nil,
}

pub open spec fn view_idents(ids: Seq<Ident>) -> Seq<Seq<char>> {
    ids.map_values(|i: Ident| i.name@)
}

pub open spec fn view_stmts(ss: Seq<Stmt>) -> Seq<StmtV>
    decreases ss,
{
    if ss.len() == 0 {
        Seq::empty()
    } else {
        seq![view_stmt(ss[0])] + view_stmts(ss.drop_first())
    }
}

pub open spec fn view_stmt(s: Stmt) -> StmtV
    decreases s,
{
    match s {
        Stmt::BlockStmt(b) => StmtV::Block(view_stmts(b@)),
        Stmt::FuncDecl(fd) => StmtV::Func(
            FuncDeclV {
                name: fd.ident_func.name@,
                params: view_idents(fd.ident_param@),
                body: view_stmts(fd.block@),
            },
        ),
        Stmt::IfStmt(i) => StmtV::If(view_if(i)),
        Stmt::ForStmt(f) => StmtV::For(view_for(f)),
        Stmt::VarStmt(v) => StmtV::Var(v.ident.name@, view_opt_expr(v.expr)),
        Stmt::ExprStmt(e) => StmtV::Expr(view_expr(e)),
        Stmt::ContinueStmt => StmtV::Continue,
        Stmt::BreakStmt => StmtV::Break,
        Stmt::ReturnStmt(r) => StmtV::Return(view_opt_expr(r.expr)),
    }
}

pub open spec fn view_if(i: IfStmt) -> IfV
    decreases i,
{
    IfV {
        cond: view_expr(i.condition),
        body: view_stmts(i.block@),
        els: match i.else_clause {
            Option::Some(e) => Option::Some(view_else(e)),
            Option::None => Option::None,
        },
    }
}

pub open spec fn view_else(e: IfStmtElseClause) -> ElseV
    decreases e,
{
    match e {
        IfStmtElseClause::IfStmtBlock(b) => ElseV::Block(view_stmts(b@)),
        IfStmtElseClause::IfStmt(bi) => ElseV::ElseIf(Box::new(view_if(*bi))),
    }
}

pub open spec fn view_opt_expr(oe: Option<Expr>) -> Option<ExprV>
    decreases oe,
{
    match oe {
        Option::Some(e) => Option::Some(view_expr(e)),
        Option::None => Option::None,
    }
}

pub open spec fn view_for_init(oi: Option<ForStmtInit>) -> Option<ForInitV>
    decreases oi,
{
    match oi {
        Option::Some(ForStmtInit::Var(v)) => Option::Some(
            ForInitV::Var(v.ident.name@, view_opt_expr(v.expr)),
        ),
        Option::Some(ForStmtInit::Expr(e)) => Option::Some(ForInitV::Expr(view_expr(e))),
        Option::None => Option::None,
    }
}

pub open spec fn view_for(f: ForStmt) -> ForV
    decreases f,
{
    ForV {
        init: view_for_init(f.init),
        cond: view_opt_expr(f.cond),
        after: view_opt_expr(f.afterthought),
        body: view_stmts(f.block@),
    }
}

pub open spec fn view_exprs(es: Seq<Expr>) -> Seq<ExprV>
    decreases es,
{
    if es.len() == 0 {
        Seq::empty()
    } else {
        seq![view_expr(es[0])] + view_exprs(es.drop_first())
    }
}

pub open spec fn view_expr(e: Expr) -> ExprV
    decreases e,
{
    match e {
        Expr::Literal(l) => ExprV::Lit(view_literal(l)),
        Expr::Ident(i) => ExprV::Ident(i.name@),
        Expr::PrefixOp { kind, rhs } => ExprV::Prefix(kind, Box::new(view_expr(*rhs))),
        Expr::InfixOp { kind, lhs, rhs } => ExprV::Infix(
            kind,
            Box::new(view_expr(*lhs)),
            Box::new(view_expr(*rhs)),
        ),
        Expr::PostfixOp { kind, lhs } => match kind {
            PostfixOpKind::Index(ix) => ExprV::Index(Box::new(view_expr(*lhs)), Box::new(view_expr(*ix))),
            PostfixOpKind::Call(args) => ExprV::Call(Box::new(view_expr(*lhs)), view_exprs(args@)),
        },
    }
}

pub open spec fn view_literal(l: Literal) -> LitV
    decreases l,
{
    match l {
        Literal::Bool(b) => LitV::Bool(b),
        Literal::Int(i) => LitV::Int(i),
        Literal::Str(s) => LitV::Str(s@),
        Literal::Array(es) => LitV::Arr(view_exprs(es@)),
        Literal::Nil => LitV::Nil,
    }
}

pub proof fn lemma_view_stmts(ss: Seq<Stmt>)
    ensures
        view_stmts(ss).len() == ss.len(),
        forall|i: int| 0 <= i < ss.len() ==> view_stmts(ss)[i] == view_stmt(ss[i]),
    decreases ss.len(),
{
    if ss.len() > 0 {
        lemma_view_stmts(ss.drop_first());
    }
}

pub proof fn lemma_view_exprs(es: Seq<Expr>)
    ensures
        view_exprs(es).len() == es.len(),
        forall|i: int| 0 <= i < es.len() ==> view_exprs(es)[i] == view_expr(es[i]),
    decreases es.len(),
{
    if es.len() > 0 {
        lemma_view_exprs(es.drop_first());
    }
}

impl Expr {
    pub fn literal_bool(b: bool) -> (r: Self)
        ensures
            view_expr(r) == ExprV::Lit(LitV::Bool(b)),
    {
        proof {
            reveal_with_fuel(view_expr, 2);
        }
        Self::Literal(Literal::Bool(b))
    }

    pub fn literal_int(value: u64) -> (r: Self)
        ensures
            view_expr(r) == ExprV::Lit(LitV::Int(value)),
    {
        proof {
            reveal_with_fuel(view_expr, 2);
        }
        Self::Literal(Literal::Int(value))
    }

    pub fn literal_string(string: String) -> (r: Self)
        ensures
            view_expr(r) == ExprV::Lit(LitV::Str(string@)),
    {
        proof {
            reveal_with_fuel(view_expr, 2);
        }
        Self::Literal(Literal::Str(string))
    }

    pub fn literal_array(array: Vec<Expr>) -> (r: Self)
        ensures
            view_expr(r) == ExprV::Lit(LitV::Arr(view_exprs(array@))),
    {
        proof {
            reveal_with_fuel(view_expr, 2);
        }
        Self::Literal(Literal::Array(array))
    }

    pub fn literal_none() -> (r: Self)
        ensures
            view_expr(r) == ExprV::Lit(LitV::Nil),
    {
        proof {
            reveal_with_fuel(view_expr, 2);
        }
        Self::Literal(Literal::Nil)
    }

    pub fn ident(name: &str) -> (r: Self)
        ensures
            view_expr(r) == ExprV::Ident(name@),
    {
        Self::Ident(Ident { name: name.to_owned() })
    }

    pub fn prefix(kind: PrefixOpKind, rhs: Expr) -> (r: Self)
        ensures
            view_expr(r) == ExprV::Prefix(kind, Box::new(view_expr(rhs))),
    {
        Self::PrefixOp { kind, rhs: Box::new(rhs) }
    }

    pub fn infix(kind: InfixOpKind, lhs: Expr, rhs: Expr) -> (r: Self)
        ensures
            view_expr(r) == ExprV::Infix(kind, Box::new(view_expr(lhs)), Box::new(view_expr(rhs))),
    {
        Self::InfixOp { kind, lhs: Box::new(lhs), rhs: Box::new(rhs) }
    }
}



// ---------------------------------------------------------------------------
// Deep copies. A declared function owns a copy of its parameter list and
// body; the copy spells the same program as the original.
// ---------------------------------------------------------------------------

pub fn ident_dup(i: &Ident) -> (r: Ident)
    ensures
        r.name@ == i.name@,
{
    Ident { name: i.name.clone() }
}

pub fn stmts_dup(ss: &Vec<Stmt>) -> (r: Vec<Stmt>)
    ensures
        view_stmts(r@) == view_stmts(ss@),
    decreases ss@,
{
    let mut out: Vec<Stmt> = Vec::new();
    let n = ss.len();
    let mut i: usize = 0;
    while i < n
        invariant
            i <= n,
            n == ss@.len(),
            out@.len() == i,
            forall|k: int| 0 <= k < i ==> view_stmt(#[trigger] out@[k]) == view_stmt(ss@[k]),
        decreases n - i,
    {
        let s2 = stmt_dup(&ss[i]);
        out.push(s2);
        i = i + 1;
    }
    proof {
        lemma_view_stmts(out@);
        lemma_view_stmts(ss@);
        assert(view_stmts(out@) =~= view_stmts(ss@));
    }
    out
}

pub fn stmt_dup(s: &Stmt) -> (r: Stmt)
    ensures
        view_stmt(r) == view_stmt(*s),
    decreases *s,
{
    match s {
        Stmt::BlockStmt(b) => Stmt::BlockStmt(stmts_dup(b)),
        Stmt::FuncDecl(fd) => {
            let mut params: Vec<Ident> = Vec::new();
            let n = fd.ident_param.len();
            let mut i: usize = 0;
            while i < n
                invariant
                    i <= n,
                    n == fd.ident_param@.len(),
                    params@.len() == i,
                    forall|k: int| 0 <= k < i ==> (#[trigger] params@[k]).name@
                        == fd.ident_param@[k].name@,
                decreases n - i,
            {
                params.push(ident_dup(&fd.ident_param[i]));
                i = i + 1;
            }
            let r = Stmt::FuncDecl(FuncDecl {
                ident_func: ident_dup(&fd.ident_func),
                ident_param: params,
                block: stmts_dup(&fd.block),
            });
            proof {
                assert(view_idents(r->FuncDecl_0.ident_param@) =~= view_idents(fd.ident_param@));
            }
            r
        },
        Stmt::IfStmt(i) => Stmt::IfStmt(if_dup(i)),
        Stmt::ForStmt(f) => {
            let init = match &f.init {
                Option::Some(ForStmtInit::Var(v)) => Option::Some(ForStmtInit::Var(var_dup(v))),
                Option::Some(ForStmtInit::Expr(e)) => Option::Some(ForStmtInit::Expr(expr_dup(e))),
                Option::None => Option::None,
            };
            Stmt::ForStmt(ForStmt {
                init,
                cond: opt_expr_dup(&f.cond),
                afterthought: opt_expr_dup(&f.afterthought),
                block: stmts_dup(&f.block),
            })
        },
        Stmt::VarStmt(v) => Stmt::VarStmt(var_dup(v)),
        Stmt::ExprStmt(e) => Stmt::ExprStmt(expr_dup(e)),
        Stmt::ContinueStmt => Stmt::ContinueStmt,
        Stmt::BreakStmt => Stmt::BreakStmt,
        Stmt::ReturnStmt(r) => Stmt::ReturnStmt(ReturnStmt { expr: opt_expr_dup(&r.expr) }),
    }
}

pub fn var_dup(v: &VarStmt) -> (r: VarStmt)
    ensures
        r.ident.name@ == v.ident.name@,
        view_opt_expr(r.expr) == view_opt_expr(v.expr),
    decreases *v,
{
    VarStmt { ident: ident_dup(&v.ident), expr: opt_expr_dup(&v.expr) }
}

pub fn if_dup(i: &IfStmt) -> (r: IfStmt)
    ensures
        view_if(r) == view_if(*i),
    decreases *i,
{
    IfStmt {
        condition: expr_dup(&i.condition),
        block: stmts_dup(&i.block),
        else_clause: match &i.else_clause {
            Option::Some(IfStmtElseClause::IfStmtBlock(b)) => Option::Some(
                IfStmtElseClause::IfStmtBlock(stmts_dup(b)),
            ),
            Option::Some(IfStmtElseClause::IfStmt(bi)) => Option::Some(
                IfStmtElseClause::IfStmt(Box::new(if_dup(bi))),
            ),
            Option::None => Option::None,
        },
    }
}

pub fn opt_expr_dup(oe: &Option<Expr>) -> (r: Option<Expr>)
    ensures
        view_opt_expr(r) == view_opt_expr(*oe),
    decreases *oe,
{
    match oe {
        Option::Some(e) => Option::Some(expr_dup(e)),
        Option::None => Option::None,
    }
}

pub fn exprs_dup(es: &Vec<Expr>) -> (r: Vec<Expr>)
    ensures
        view_exprs(r@) == view_exprs(es@),
    decreases es@,
{
    let mut out: Vec<Expr> = Vec::new();
    let n = es.len();
    let mut i: usize = 0;
    while i < n
        invariant
            i <= n,
            n == es@.len(),
            out@.len() == i,
            forall|k: int| 0 <= k < i ==> view_expr(#[trigger] out@[k]) == view_expr(es@[k]),
        decreases n - i,
    {
        let e2 = expr_dup(&es[i]);
        out.push(e2);
        i = i + 1;
    }
    proof {
        lemma_view_exprs(out@);
        lemma_view_exprs(es@);
        assert(view_exprs(out@) =~= view_exprs(es@));
    }
    out
}

pub fn expr_dup(e: &Expr) -> (r: Expr)
    ensures
        view_expr(r) == view_expr(*e),
    decreases *e,
{
    proof {
        reveal_with_fuel(view_expr, 2);
    }
    match e {
        Expr::Literal(l) => Expr::Literal(
            match l {
                Literal::Bool(b) => Literal::Bool(*b),
                Literal::Int(u) => Literal::Int(*u),
                Literal::Str(s) => Literal::Str(s.clone()),
                Literal::Array(es) => Literal::Array(exprs_dup(es)),
                Literal::Nil => Literal::Nil,
            },
        ),
        Expr::Ident(i) => Expr::Ident(ident_dup(i)),
        Expr::PrefixOp { kind, rhs } => Expr::PrefixOp { kind: *kind, rhs: Box::new(expr_dup(rhs)) },
        Expr::InfixOp { kind, lhs, rhs } => Expr::InfixOp {
            kind: *kind,
            lhs: Box::new(expr_dup(lhs)),
            rhs: Box::new(expr_dup(rhs)),
        },
        Expr::PostfixOp { kind, lhs } => Expr::PostfixOp {
            kind: match kind {
                PostfixOpKind::Index(ix) => PostfixOpKind::Index(Box::new(expr_dup(ix))),
                PostfixOpKind::Call(args) => PostfixOpKind::Call(exprs_dup(args)),
            },
            lhs: Box::new(expr_dup(lhs)),
        },
    }
}



// ---------------------------------------------------------------------------
// Structural sizes of the mirror tree, used as termination measures by the
// evaluator's specification.
// ---------------------------------------------------------------------------

pub open spec fn litv_size(l: LitV) -> nat
    decreases l,
{
    match l {
        LitV::Arr(es) => 1 + exprsv_size(es),
        _ => 1,
    }
}

pub open spec fn exprv_size(e: ExprV) -> nat
    decreases e,
{
    match e {
        ExprV::Lit(l) => 1 + litv_size(l),
        ExprV::Ident(_) => 1,
        ExprV::Prefix(_, be) => 1 + exprv_size(*be),
        ExprV::Infix(_, le, re) => 1 + exprv_size(*le) + exprv_size(*re),
        ExprV::Index(le, ie) => 1 + exprv_size(*le) + exprv_size(*ie),
        ExprV::Call(le, args) => 1 + exprv_size(*le) + exprsv_size(args),
    }
}

pub open spec fn exprsv_size(es: Seq<ExprV>) -> nat
    decreases es,
{
    if es.len() == 0 {
        1
    } else {
        1 + exprv_size(es[0]) + exprsv_size(es.drop_first())
    }
}

pub open spec fn oexprv_size(oe: Option<ExprV>) -> nat {
    match oe {
        Option::None => 1,
        Option::Some(e) => 1 + exprv_size(e),
    }
}

pub proof fn lemma_exprsv_size_elem(es: Seq<ExprV>, i: int)
    requires
        0 <= i < es.len(),
    ensures
        exprv_size(es[i]) < exprsv_size(es),
    decreases es.len(),
{
    if i > 0 {
        lemma_exprsv_size_elem(es.drop_first(), i - 1);
    }
}

pub open spec fn stmtv_size(s: StmtV) -> nat
    decreases s,
{
    match s {
        StmtV::Block(b) => 1 + stmtsv_size(b),
        StmtV::Func(_) => 1,
        StmtV::If(iv) => 1 + ifv_size(iv),
        StmtV::For(fv) => 2 + forv_size(fv),
        StmtV::Var(_, oe) => 1 + oexprv_size(oe),
        StmtV::Expr(e) => 1 + exprv_size(e),
        StmtV::Continue => 1,
        StmtV::Break => 1,
        StmtV::Return(oe) => 1 + oexprv_size(oe),
    }
}

pub open spec fn stmtsv_size(ss: Seq<StmtV>) -> nat
    decreases ss,
{
    if ss.len() == 0 {
        1
    } else {
        1 + stmtv_size(ss[0]) + stmtsv_size(ss.drop_first())
    }
}

pub open spec fn ifv_size(iv: IfV) -> nat
    decreases iv,
{
    1 + exprv_size(iv.cond) + stmtsv_size(iv.body) + (match iv.els {
        Option::None => 1nat,
        Option::Some(e) => 1 + elsev_size(e),
    })
}

pub open spec fn elsev_size(e: ElseV) -> nat
    decreases e,
{
    match e {
        ElseV::Block(b) => 1 + stmtsv_size(b),
        ElseV::ElseIf(bi) => 1 + ifv_size(*bi),
    }
}

pub open spec fn forinitv_size(init: Option<ForInitV>) -> nat {
    match init {
        Option::None => 1nat,
        Option::Some(ForInitV::Var(_, oe)) => 1 + oexprv_size(oe),
        Option::Some(ForInitV::Expr(e)) => 1 + exprv_size(e),
    }
}

pub open spec fn forv_size(fv: ForV) -> nat
    decreases fv,
{
    1 + forinitv_size(fv.init) + oexprv_size(fv.cond) + oexprv_size(fv.after) + stmtsv_size(
        fv.body,
    )
}

pub proof fn lemma_stmtsv_size_elem(ss: Seq<StmtV>, i: int)
    requires
        0 <= i < ss.len(),
    ensures
        stmtv_size(ss[i]) < stmtsv_size(ss),
    decreases ss.len(),
{
    if i > 0 {
        lemma_stmtsv_size_elem(ss.drop_first(), i - 1);
    }
}

} // verus!
