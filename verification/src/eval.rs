//! The tree-walking evaluator. Every statement step yields either a value (or
//! no value), or one of four non-local signals: continue, break, return, or a
//! typed error. The signals travel through nested block, loop and call
//! evaluation as one unified channel.
//!
//! Termination of the verified evaluator is obtained through a step budget
//! (`fuel`) that bounds the depth of function calls, loop iterations and deep
//! value recursion; the public entry point retries with a doubled budget until
//! the program finishes, so it diverges exactly on diverging programs.

use vstd::prelude::*;

use crate::ast::{
    ElseV, Expr, ExprV, ForInitV, ForStmt, ForStmtInit, ForV, FuncDecl, FuncDeclV, Ident, IfStmt,
    IfStmtElseClause, InfixOpKind, IfV, LitV, Literal, PostfixOpKind, PrefixOpKind, Program, Stmt,
    StmtV, VarStmt, ident_dup, stmts_dup, view_else, view_expr, view_exprs, view_for, view_if,
    view_for_init, view_idents, view_opt_expr, view_stmt, view_stmts, lemma_view_stmts,
    lemma_view_exprs, forinitv_size,
    elsev_size, exprsv_size, exprv_size, forv_size, ifv_size, lemma_exprsv_size_elem,
    lemma_stmtsv_size_elem, litv_size, oexprv_size, stmtsv_size, stmtv_size,
};
use crate::data::{
    momonga_len, momonga_pop, momonga_print, momonga_push, render_bool, render_int, s_len, s_pop,
    s_print, s_push, s_render, s_render_elems, s_render_tail, s_value_eq, value_eq, Array,
    BuiltinFn, FuncM, FuncVal, ValOut, Value,
};
use crate::env::{
    env_assign, env_declare, env_lookup, env_wf, Env, EnvM,
};
use crate::error::EvalError;

verus! {

/// The non-local outcomes of one evaluation step.
#[derive(Debug, PartialEq, Eq, Clone, Copy, Structural)]
pub enum JumpStmt {
    Continue,
    Break,
    Return(Value),
    Error(EvalError),
}

/// What stops a statement from producing a value: a jump signal, or the
/// exhaustion of the current step budget.
#[derive(Debug, PartialEq, Eq, Clone, Copy, Structural)]
pub(crate) enum Stop {
    Jump(JumpStmt),
    OutOfSteps,
}

/// The outcome of one specification-level evaluation step: a new machine
/// state with a result, a new state with a jump signal, or budget exhaustion
/// (about which nothing further is promised).
pub ghost enum EvalOut<T> {
    Done(EnvM, T),
    Jump(EnvM, JumpStmt),
    Spent,
}

/// The outcome an executable step reports, read back into the model.
pub(crate) open spec fn out_of<T>(m: EnvM, r: Result<T, Stop>) -> EvalOut<T> {
    match r {
        Ok(v) => EvalOut::Done(m, v),
        Err(Stop::Jump(j)) => EvalOut::Jump(m, j),
        Err(Stop::OutOfSteps) => EvalOut::Spent,
    }
}

/// The outcome of a state-free value operation, read back into the model.
pub(crate) open spec fn vout_of<T>(r: Result<T, Stop>) -> ValOut<T> {
    match r {
        Ok(v) => ValOut::Val(v),
        Err(Stop::Jump(JumpStmt::Error(e))) => ValOut::Fail(e),
        Err(Stop::Jump(_)) => ValOut::Fail(EvalError::Type),
        Err(Stop::OutOfSteps) => ValOut::Spent,
    }
}

/// Open a child scope.
pub open spec fn push_m(m: EnvM) -> EnvM {
    EnvM { scopes: m.scopes.push(Seq::empty()), ..m }
}

/// Close the innermost scope; the root scope stays.
pub open spec fn pop_m(m: EnvM) -> EnvM {
    EnvM {
        scopes: if m.scopes.len() >= 2 {
            m.scopes.drop_last()
        } else {
            m.scopes
        },
        ..m
    }
}

/// Close the scope a step opened, whatever the step's outcome was.
pub open spec fn popped<T>(o: EvalOut<T>) -> EvalOut<T> {
    match o {
        EvalOut::Done(m, v) => EvalOut::Done(pop_m(m), v),
        EvalOut::Jump(m, j) => EvalOut::Jump(pop_m(m), j),
        EvalOut::Spent => EvalOut::Spent,
    }
}


/// The value `2^63`: the one integer magnitude that only the negation of a
/// literal may produce.
pub const MAX_ABS_INT: u64 = 9223372036854775808;

// ---------------------------------------------------------------------------
// Truncating 64-bit arithmetic.
// ---------------------------------------------------------------------------

pub open spec fn mag(a: int) -> int {
    if a < 0 {
        -a
    } else {
        a
    }
}

/// Division truncating toward zero. The one overflowing quotient, at the
/// minimum value divided by negative one, never reaches this function: the
/// evaluator reports it as an OutOfRange failure, like the negation of the
/// minimum (the out-of-range branch here is a total-function placeholder).
pub open spec fn trunc_div_i64(a: int, b: int) -> i64 {
    let q = mag(a) / mag(b);
    if (a < 0) != (b < 0) {
        if q == MAX_ABS_INT {
            i64::MIN
        } else {
            (-q) as i64
        }
    } else {
        if q == MAX_ABS_INT {
            i64::MIN
        } else {
            q as i64
        }
    }
}

/// The remainder matching `trunc_div_i64`: it carries the sign of the
/// dividend.
pub open spec fn trunc_rem_i64(a: int, b: int) -> i64 {
    let rm = mag(a) % mag(b);
    if a < 0 {
        (-rm) as i64
    } else {
        rm as i64
    }
}

// ---------------------------------------------------------------------------
// The specification-level interpreter. Each function takes the machine model,
// a piece of the program, and the step budget, and yields the new model with
// a result, a jump signal, or budget exhaustion. The budget bounds the depth
// of function calls and the number of loop iterations.
// ---------------------------------------------------------------------------

/// Bind parameters positionally; extra parameters or extra arguments are
/// silently dropped.
pub open spec fn declare_params(m: EnvM, params: Seq<Seq<char>>, vals: Seq<Value>) -> EnvM
    decreases params.len(),
{
    if params.len() == 0 || vals.len() == 0 {
        m
    } else {
        declare_params(
            env_declare(m, params[0], vals[0]),
            params.drop_first(),
            vals.drop_first(),
        )
    }
}

/// A block's statements in order: the last statement's value is the block's
/// value, and any signal stops the block at once.
pub open spec fn s_stmts(m: EnvM, ss: Seq<StmtV>, fuel: nat) -> EvalOut<Option<Value>>
    decreases fuel, stmtsv_size(ss), 0nat,
{
    if ss.len() == 0 {
        EvalOut::Done(m, Option::None)
    } else {
        match s_stmt(m, ss[0], fuel) {
            EvalOut::Done(m1, v) => if ss.len() == 1 {
                EvalOut::Done(m1, v)
            } else {
                s_stmts(m1, ss.drop_first(), fuel)
            },
            EvalOut::Jump(m1, j) => EvalOut::Jump(m1, j),
            EvalOut::Spent => EvalOut::Spent,
        }
    }
}

pub open spec fn s_stmt(m: EnvM, s: StmtV, fuel: nat) -> EvalOut<Option<Value>>
    decreases fuel, stmtv_size(s), 0nat,
{
    match s {
        StmtV::Block(b) => popped(s_stmts(push_m(m), b, fuel)),
        StmtV::Func(fd) => EvalOut::Done(
            env_declare(
                EnvM { funcs: m.funcs.push(FuncM { params: fd.params, body: fd.body }), ..m },
                fd.name,
                Value::Func(m.funcs.len() as usize),
            ),
            Option::None,
        ),
        StmtV::If(iv) => s_if(m, iv, fuel),
        StmtV::For(fv) => s_for_stmt(m, fv, fuel),
        StmtV::Var(n, oe) => match oe {
            Option::None => EvalOut::Done(env_declare(m, n, Value::Nil), Option::None),
            Option::Some(e) => match s_expr(m, e, fuel) {
                EvalOut::Done(m1, v) => EvalOut::Done(env_declare(m1, n, v), Option::None),
                EvalOut::Jump(m1, j) => EvalOut::Jump(m1, j),
                EvalOut::Spent => EvalOut::Spent,
            },
        },
        StmtV::Expr(e) => match s_expr(m, e, fuel) {
            EvalOut::Done(m1, v) => EvalOut::Done(m1, Option::Some(v)),
            EvalOut::Jump(m1, j) => EvalOut::Jump(m1, j),
            EvalOut::Spent => EvalOut::Spent,
        },
        StmtV::Continue => EvalOut::Jump(m, JumpStmt::Continue),
        StmtV::Break => EvalOut::Jump(m, JumpStmt::Break),
        StmtV::Return(oe) => match oe {
            Option::None => EvalOut::Jump(m, JumpStmt::Return(Value::Nil)),
            Option::Some(e) => match s_expr(m, e, fuel) {
                EvalOut::Done(m1, v) => EvalOut::Jump(m1, JumpStmt::Return(v)),
                EvalOut::Jump(m1, j) => EvalOut::Jump(m1, j),
                EvalOut::Spent => EvalOut::Spent,
            },
        },
    }
}

/// `if`: the condition must be a boolean; each arm runs in a fresh scope.
pub open spec fn s_if(m: EnvM, iv: IfV, fuel: nat) -> EvalOut<Option<Value>>
    decreases fuel, ifv_size(iv), 0nat,
{
    match s_expr(m, iv.cond, fuel) {
        EvalOut::Done(m1, Value::Bool(true)) => popped(s_stmts(push_m(m1), iv.body, fuel)),
        EvalOut::Done(m1, Value::Bool(false)) => match iv.els {
            Option::None => EvalOut::Done(m1, Option::None),
            Option::Some(e) => s_else(m1, e, fuel),
        },
        EvalOut::Done(m1, _) => EvalOut::Jump(m1, JumpStmt::Error(EvalError::Type)),
        EvalOut::Jump(m1, j) => EvalOut::Jump(m1, j),
        EvalOut::Spent => EvalOut::Spent,
    }
}

pub open spec fn s_else(m: EnvM, e: ElseV, fuel: nat) -> EvalOut<Option<Value>>
    decreases fuel, elsev_size(e), 0nat,
{
    match e {
        ElseV::Block(b) => popped(s_stmts(push_m(m), b, fuel)),
        ElseV::ElseIf(bi) => s_if(m, *bi, fuel),
    }
}

/// An optional afterthought or init expression, evaluated for effect.
pub open spec fn s_afterthought(m: EnvM, oe: Option<ExprV>, fuel: nat) -> EvalOut<Option<Value>>
    decreases fuel, oexprv_size(oe), 0nat,
{
    match oe {
        Option::None => EvalOut::Done(m, Option::None),
        Option::Some(e) => match s_expr(m, e, fuel) {
            EvalOut::Done(m1, _) => EvalOut::Done(m1, Option::None),
            EvalOut::Jump(m1, j) => EvalOut::Jump(m1, j),
            EvalOut::Spent => EvalOut::Spent,
        },
    }
}

/// `for`: one scope hosts the init binding, the condition, the afterthought
/// and the body across all iterations, and is discarded when the loop ends.
/// The loop header's init, already inside the loop's own scope.
pub open spec fn s_for_init(m: EnvM, init: Option<ForInitV>, fuel: nat) -> EvalOut<Option<Value>>
    decreases fuel, forinitv_size(init), 0nat,
{
    match init {
        Option::None => EvalOut::Done(m, Option::None),
        Option::Some(ForInitV::Var(n, oe)) => match oe {
            Option::None => EvalOut::Done(env_declare(m, n, Value::Nil), Option::None),
            Option::Some(e) => match s_expr(m, e, fuel) {
                EvalOut::Done(m2, v) => EvalOut::Done(env_declare(m2, n, v), Option::None),
                EvalOut::Jump(m2, j) => EvalOut::Jump(m2, j),
                EvalOut::Spent => EvalOut::Spent,
            },
        },
        Option::Some(ForInitV::Expr(e)) => match s_expr(m, e, fuel) {
            EvalOut::Done(m2, _) => EvalOut::Done(m2, Option::None),
            EvalOut::Jump(m2, j) => EvalOut::Jump(m2, j),
            EvalOut::Spent => EvalOut::Spent,
        },
    }
}

pub open spec fn s_for_stmt(m: EnvM, fv: ForV, fuel: nat) -> EvalOut<Option<Value>>
    decreases fuel, forv_size(fv), 1nat,
{
    match s_for_init(push_m(m), fv.init, fuel) {
        EvalOut::Done(m2, _) => popped(s_for_loop(m2, Option::None, fv, fuel)),
        EvalOut::Jump(m2, j) => EvalOut::Jump(pop_m(m2), j),
        EvalOut::Spent => EvalOut::Spent,
    }
}

/// One round of the loop: test the condition (absent condition means run
/// forever), run the body in a fresh child scope of the loop's own scope,
/// run the afterthought, and go round again. A break
/// ends the loop without a value; a continue skips to the afterthought; any
/// other signal leaves the loop at once. When the condition turns false the
/// loop's value is the last completed body's value.
pub open spec fn s_for_loop(m: EnvM, prev: Option<Value>, fv: ForV, fuel: nat) -> EvalOut<
    Option<Value>,
>
    decreases fuel, forv_size(fv), 0nat,
{
    if fuel == 0 {
        EvalOut::Spent
    } else {
        let cond_out = match fv.cond {
            Option::None => EvalOut::Done(m, Value::Bool(true)),
            Option::Some(c) => s_expr(m, c, fuel),
        };
        match cond_out {
            EvalOut::Done(m1, Value::Bool(false)) => EvalOut::Done(m1, prev),
            EvalOut::Done(m1, Value::Bool(true)) => match s_stmts(push_m(m1), fv.body, fuel) {
                EvalOut::Done(m2, v) => match s_afterthought(pop_m(m2), fv.after, fuel) {
                    EvalOut::Done(m3, _) => s_for_loop(m3, v, fv, (fuel - 1) as nat),
                    EvalOut::Jump(m3, j) => EvalOut::Jump(m3, j),
                    EvalOut::Spent => EvalOut::Spent,
                },
                EvalOut::Jump(m2, JumpStmt::Continue) => match s_afterthought(
                    pop_m(m2),
                    fv.after,
                    fuel,
                ) {
                    EvalOut::Done(m3, _) => s_for_loop(m3, Option::None, fv, (fuel - 1) as nat),
                    EvalOut::Jump(m3, j) => EvalOut::Jump(m3, j),
                    EvalOut::Spent => EvalOut::Spent,
                },
                EvalOut::Jump(m2, JumpStmt::Break) => EvalOut::Done(pop_m(m2), Option::None),
                EvalOut::Jump(m2, j) => EvalOut::Jump(pop_m(m2), j),
                EvalOut::Spent => EvalOut::Spent,
            },
            EvalOut::Done(m1, _) => EvalOut::Jump(m1, JumpStmt::Error(EvalError::Type)),
            EvalOut::Jump(m1, j) => EvalOut::Jump(m1, j),
            EvalOut::Spent => EvalOut::Spent,
        }
    }
}

/// A binary operator on two already evaluated operands (all but the
/// short-circuiting `&&`/`||` and assignment).
pub open spec fn s_binop(m: EnvM, kind: InfixOpKind, a: Value, b: Value, fuel: nat) -> EvalOut<
    Value,
> {
    match kind {
        InfixOpKind::Add => match (a, b) {
            (Value::Int(x), Value::Int(y)) => EvalOut::Done(
                m,
                Value::Int(vstd::wrapping::i64_specs::wrapping_add(x, y)),
            ),
            (Value::Str(h1), Value::Str(h2)) => if h1 < m.strs.len() && h2 < m.strs.len() {
                let combined = m.strs[h1 as int] + m.strs[h2 as int];
                EvalOut::Done(
                    EnvM { strs: m.strs.push(combined), ..m },
                    Value::Str(m.strs.len() as usize),
                )
            } else {
                EvalOut::Jump(m, JumpStmt::Error(EvalError::Type))
            },
            _ => EvalOut::Jump(m, JumpStmt::Error(EvalError::Type)),
        },
        InfixOpKind::Subtract => match (a, b) {
            (Value::Int(x), Value::Int(y)) => EvalOut::Done(
                m,
                Value::Int(vstd::wrapping::i64_specs::wrapping_sub(x, y)),
            ),
            _ => EvalOut::Jump(m, JumpStmt::Error(EvalError::Type)),
        },
        InfixOpKind::Multiply => match (a, b) {
            (Value::Int(x), Value::Int(y)) => EvalOut::Done(
                m,
                Value::Int(vstd::wrapping::i64_specs::wrapping_mul(x, y)),
            ),
            _ => EvalOut::Jump(m, JumpStmt::Error(EvalError::Type)),
        },
        InfixOpKind::Divide => match (a, b) {
            (Value::Int(x), Value::Int(y)) => if y == 0 {
                EvalOut::Jump(m, JumpStmt::Error(EvalError::ZeroDivision))
            } else if x == i64::MIN && y == -1 {
                EvalOut::Jump(m, JumpStmt::Error(EvalError::OutOfRange))
            } else {
                EvalOut::Done(m, Value::Int(trunc_div_i64(x as int, y as int)))
            },
            _ => EvalOut::Jump(m, JumpStmt::Error(EvalError::Type)),
        },
        InfixOpKind::Modulo => match (a, b) {
            (Value::Int(x), Value::Int(y)) => if y == 0 {
                EvalOut::Jump(m, JumpStmt::Error(EvalError::ZeroDivision))
            } else if x == i64::MIN && y == -1 {
                EvalOut::Jump(m, JumpStmt::Error(EvalError::OutOfRange))
            } else {
                EvalOut::Done(m, Value::Int(trunc_rem_i64(x as int, y as int)))
            },
            _ => EvalOut::Jump(m, JumpStmt::Error(EvalError::Type)),
        },
        InfixOpKind::Eq => match s_value_eq(m, a, b, fuel) {
            ValOut::Val(x) => EvalOut::Done(m, Value::Bool(x)),
            ValOut::Fail(e) => EvalOut::Jump(m, JumpStmt::Error(e)),
            ValOut::Spent => EvalOut::Spent,
        },
        InfixOpKind::NotEq => match s_value_eq(m, a, b, fuel) {
            ValOut::Val(x) => EvalOut::Done(m, Value::Bool(!x)),
            ValOut::Fail(e) => EvalOut::Jump(m, JumpStmt::Error(e)),
            ValOut::Spent => EvalOut::Spent,
        },
        InfixOpKind::Gt => match (a, b) {
            (Value::Int(x), Value::Int(y)) => EvalOut::Done(m, Value::Bool(x > y)),
            _ => EvalOut::Jump(m, JumpStmt::Error(EvalError::Type)),
        },
        InfixOpKind::Ge => match (a, b) {
            (Value::Int(x), Value::Int(y)) => EvalOut::Done(m, Value::Bool(x >= y)),
            _ => EvalOut::Jump(m, JumpStmt::Error(EvalError::Type)),
        },
        InfixOpKind::Lt => match (a, b) {
            (Value::Int(x), Value::Int(y)) => EvalOut::Done(m, Value::Bool(x < y)),
            _ => EvalOut::Jump(m, JumpStmt::Error(EvalError::Type)),
        },
        InfixOpKind::Le => match (a, b) {
            (Value::Int(x), Value::Int(y)) => EvalOut::Done(m, Value::Bool(x <= y)),
            _ => EvalOut::Jump(m, JumpStmt::Error(EvalError::Type)),
        },
        _ => EvalOut::Jump(m, JumpStmt::Error(EvalError::Type)),
    }
}

/// A builtin applied to its already evaluated, arity-checked arguments.
pub open spec fn s_apply_builtin(m: EnvM, b: BuiltinFn, vals: Seq<Value>, fuel: nat) -> EvalOut<
    Value,
> {
    match b {
        BuiltinFn::Len => match s_len(m, vals[0]) {
            Ok(v) => EvalOut::Done(m, v),
            Err(e) => EvalOut::Jump(m, JumpStmt::Error(e)),
        },
        BuiltinFn::Push => match s_push(m, vals[0], vals[1]) {
            (m1, Ok(v)) => EvalOut::Done(m1, v),
            (m1, Err(e)) => EvalOut::Jump(m1, JumpStmt::Error(e)),
        },
        BuiltinFn::Pop => match s_pop(m, vals[0]) {
            (m1, Ok(v)) => EvalOut::Done(m1, v),
            (m1, Err(e)) => EvalOut::Jump(m1, JumpStmt::Error(e)),
        },
        BuiltinFn::Print => if fuel == 0 {
            EvalOut::Spent
        } else {
            s_print(m, vals[0], (fuel - 1) as nat)
        },
    }
}

pub open spec fn s_exprs(m: EnvM, es: Seq<ExprV>, fuel: nat) -> EvalOut<Seq<Value>>
    decreases fuel, exprsv_size(es), 0nat,
{
    if es.len() == 0 {
        EvalOut::Done(m, Seq::empty())
    } else {
        match s_expr(m, es[0], fuel) {
            EvalOut::Done(m1, v) => match s_exprs(m1, es.drop_first(), fuel) {
                EvalOut::Done(m2, vs) => EvalOut::Done(m2, seq![v] + vs),
                EvalOut::Jump(m2, j) => EvalOut::Jump(m2, j),
                EvalOut::Spent => EvalOut::Spent,
            },
            EvalOut::Jump(m1, j) => EvalOut::Jump(m1, j),
            EvalOut::Spent => EvalOut::Spent,
        }
    }
}

pub open spec fn s_literal(m: EnvM, l: LitV, fuel: nat) -> EvalOut<Value>
    decreases fuel, litv_size(l), 0nat,
{
    match l {
        LitV::Bool(b) => EvalOut::Done(m, Value::Bool(b)),
        LitV::Int(u) => if u >= MAX_ABS_INT {
            EvalOut::Jump(m, JumpStmt::Error(EvalError::OutOfRange))
        } else {
            EvalOut::Done(m, Value::Int(u as i64))
        },
        LitV::Str(sv) => EvalOut::Done(
            EnvM { strs: m.strs.push(sv), ..m },
            Value::Str(m.strs.len() as usize),
        ),
        LitV::Arr(es) => match s_exprs(m, es, fuel) {
            EvalOut::Done(m1, vs) => EvalOut::Done(
                EnvM { arrs: m1.arrs.push(vs), ..m1 },
                Value::Arr(m1.arrs.len() as usize),
            ),
            EvalOut::Jump(m1, j) => EvalOut::Jump(m1, j),
            EvalOut::Spent => EvalOut::Spent,
        },
        LitV::Nil => EvalOut::Done(m, Value::Nil),
    }
}

#[verifier::opaque]
pub open spec fn s_expr(m: EnvM, e: ExprV, fuel: nat) -> EvalOut<Value>
    decreases fuel, exprv_size(e), 1nat,
        via s_expr_decreases
{
    match e {
        ExprV::Lit(l) => s_literal(m, l, fuel),
        ExprV::Ident(n) => match env_lookup(m, n) {
            Option::None => EvalOut::Jump(m, JumpStmt::Error(EvalError::Name)),
            Option::Some(Value::Func(h)) => EvalOut::Jump(
                m,
                JumpStmt::Error(EvalError::InvalidExpression),
            ),
            Option::Some(v) => EvalOut::Done(m, v),
        },
        ExprV::Prefix(kind, be) => match kind {
            PrefixOpKind::Pos => match s_expr(m, *be, fuel) {
                EvalOut::Done(m1, Value::Int(i)) => EvalOut::Done(m1, Value::Int(i)),
                EvalOut::Done(m1, _) => EvalOut::Jump(m1, JumpStmt::Error(EvalError::Type)),
                EvalOut::Jump(m1, j) => EvalOut::Jump(m1, j),
                EvalOut::Spent => EvalOut::Spent,
            },
            PrefixOpKind::Neg => if *be == ExprV::Lit(LitV::Int(MAX_ABS_INT)) {
                EvalOut::Done(m, Value::Int(i64::MIN))
            } else {
                match s_expr(m, *be, fuel) {
                    EvalOut::Done(m1, Value::Int(i)) => if i == i64::MIN {
                        EvalOut::Jump(m1, JumpStmt::Error(EvalError::OutOfRange))
                    } else {
                        EvalOut::Done(m1, Value::Int((-(i as int)) as i64))
                    },
                    EvalOut::Done(m1, _) => EvalOut::Jump(m1, JumpStmt::Error(EvalError::Type)),
                    EvalOut::Jump(m1, j) => EvalOut::Jump(m1, j),
                    EvalOut::Spent => EvalOut::Spent,
                }
            },
            PrefixOpKind::Not => match s_expr(m, *be, fuel) {
                EvalOut::Done(m1, Value::Bool(b)) => EvalOut::Done(m1, Value::Bool(!b)),
                EvalOut::Done(m1, _) => EvalOut::Jump(m1, JumpStmt::Error(EvalError::Type)),
                EvalOut::Jump(m1, j) => EvalOut::Jump(m1, j),
                EvalOut::Spent => EvalOut::Spent,
            },
        },
        ExprV::Infix(kind, le, re) => match kind {
            InfixOpKind::Assign => match *le {
                ExprV::Ident(n) => match s_expr(m, *re, fuel) {
                    EvalOut::Done(m1, v) => match env_assign(m1, n, v) {
                        Option::Some(m2) => EvalOut::Done(m2, v),
                        Option::None => EvalOut::Jump(m1, JumpStmt::Error(EvalError::Name)),
                    },
                    EvalOut::Jump(m1, j) => EvalOut::Jump(m1, j),
                    EvalOut::Spent => EvalOut::Spent,
                },
                _ => EvalOut::Jump(m, JumpStmt::Error(EvalError::Type)),
            },
            InfixOpKind::And => match s_expr(m, *le, fuel) {
                EvalOut::Done(m1, Value::Bool(false)) => EvalOut::Done(m1, Value::Bool(false)),
                EvalOut::Done(m1, Value::Bool(true)) => match s_expr(m1, *re, fuel) {
                    EvalOut::Done(m2, Value::Bool(b)) => EvalOut::Done(m2, Value::Bool(b)),
                    EvalOut::Done(m2, _) => EvalOut::Jump(m2, JumpStmt::Error(EvalError::Type)),
                    EvalOut::Jump(m2, j) => EvalOut::Jump(m2, j),
                    EvalOut::Spent => EvalOut::Spent,
                },
                EvalOut::Done(m1, _) => EvalOut::Jump(m1, JumpStmt::Error(EvalError::Type)),
                EvalOut::Jump(m1, j) => EvalOut::Jump(m1, j),
                EvalOut::Spent => EvalOut::Spent,
            },
            InfixOpKind::Or => match s_expr(m, *le, fuel) {
                EvalOut::Done(m1, Value::Bool(true)) => EvalOut::Done(m1, Value::Bool(true)),
                EvalOut::Done(m1, Value::Bool(false)) => match s_expr(m1, *re, fuel) {
                    EvalOut::Done(m2, Value::Bool(b)) => EvalOut::Done(m2, Value::Bool(b)),
                    EvalOut::Done(m2, _) => EvalOut::Jump(m2, JumpStmt::Error(EvalError::Type)),
                    EvalOut::Jump(m2, j) => EvalOut::Jump(m2, j),
                    EvalOut::Spent => EvalOut::Spent,
                },
                EvalOut::Done(m1, _) => EvalOut::Jump(m1, JumpStmt::Error(EvalError::Type)),
                EvalOut::Jump(m1, j) => EvalOut::Jump(m1, j),
                EvalOut::Spent => EvalOut::Spent,
            },
            _ => match s_expr(m, *le, fuel) {
                EvalOut::Done(m1, v1) => match s_expr(m1, *re, fuel) {
                    EvalOut::Done(m2, v2) => s_binop(m2, kind, v1, v2, fuel),
                    EvalOut::Jump(m2, j) => EvalOut::Jump(m2, j),
                    EvalOut::Spent => EvalOut::Spent,
                },
                EvalOut::Jump(m1, j) => EvalOut::Jump(m1, j),
                EvalOut::Spent => EvalOut::Spent,
            },
        },
        ExprV::Index(le, ie) => match s_expr(m, *ie, fuel) {
            EvalOut::Done(m1, Value::Int(i)) => if i < 0 {
                EvalOut::Jump(m1, JumpStmt::Error(EvalError::Index))
            } else {
                match *le {
                    ExprV::Lit(LitV::Arr(es)) => if i < es.len() {
                        s_expr(m1, es[i as int], fuel)
                    } else {
                        EvalOut::Jump(m1, JumpStmt::Error(EvalError::Index))
                    },
                    _ => match s_expr(m1, *le, fuel) {
                        EvalOut::Done(m2, Value::Arr(h)) => if h < m2.arrs.len() {
                            if i < m2.arrs[h as int].len() {
                                EvalOut::Done(m2, m2.arrs[h as int][i as int])
                            } else {
                                EvalOut::Jump(m2, JumpStmt::Error(EvalError::Index))
                            }
                        } else {
                            EvalOut::Jump(m2, JumpStmt::Error(EvalError::Type))
                        },
                        EvalOut::Done(m2, _) => EvalOut::Jump(
                            m2,
                            JumpStmt::Error(EvalError::Type),
                        ),
                        EvalOut::Jump(m2, j) => EvalOut::Jump(m2, j),
                        EvalOut::Spent => EvalOut::Spent,
                    },
                }
            },
            EvalOut::Done(m1, _) => EvalOut::Jump(m1, JumpStmt::Error(EvalError::Type)),
            EvalOut::Jump(m1, j) => EvalOut::Jump(m1, j),
            EvalOut::Spent => EvalOut::Spent,
        },
        ExprV::Call(le, args) => match *le {
            ExprV::Ident(n) => s_call(m, n, args, fuel),
            _ => EvalOut::Jump(m, JumpStmt::Error(EvalError::Type)),
        },
    }
}

/// Apply the declared function at handle `h` to already evaluated arguments:
/// a fresh scope child of the caller's chain, positional binding, the body,
/// and the returned value (the unit value when the body never returns).
pub open spec fn s_invoke(m: EnvM, h: usize, vals: Seq<Value>, fuel: nat) -> EvalOut<Value>
    decreases fuel, 0nat, 0nat,
{
    if h >= m.funcs.len() {
        EvalOut::Jump(m, JumpStmt::Error(EvalError::Type))
    } else if fuel == 0 {
        EvalOut::Spent
    } else {
        let m2 = declare_params(push_m(m), m.funcs[h as int].params, vals);
        match s_stmts(m2, m.funcs[h as int].body, (fuel - 1) as nat) {
            EvalOut::Done(m3, _) => EvalOut::Done(pop_m(m3), Value::Nil),
            EvalOut::Jump(m3, JumpStmt::Return(v)) => EvalOut::Done(pop_m(m3), v),
            EvalOut::Jump(m3, j) => EvalOut::Jump(pop_m(m3), j),
            EvalOut::Spent => EvalOut::Spent,
        }
    }
}

/// A call: the target must be an identifier naming a function or builtin.
/// Builtins are arity-checked before their arguments are evaluated; declared
/// functions are not.
pub open spec fn s_call(m: EnvM, n: Seq<char>, args: Seq<ExprV>, fuel: nat) -> EvalOut<Value>
    decreases fuel, exprsv_size(args), 1nat,
{
    match env_lookup(m, n) {
        Option::None => EvalOut::Jump(m, JumpStmt::Error(EvalError::Name)),
        Option::Some(Value::Func(h)) => match s_exprs(m, args, fuel) {
            EvalOut::Done(m1, vals) => s_invoke(m1, h, vals, fuel),
            EvalOut::Jump(m1, j) => EvalOut::Jump(m1, j),
            EvalOut::Spent => EvalOut::Spent,
        },
        Option::Some(Value::Builtin(b)) => if args.len() != b.spec_arity() {
            EvalOut::Jump(m, JumpStmt::Error(EvalError::Argument))
        } else {
            match s_exprs(m, args, fuel) {
                EvalOut::Done(m1, vals) => s_apply_builtin(m1, b, vals, fuel),
                EvalOut::Jump(m1, j) => EvalOut::Jump(m1, j),
                EvalOut::Spent => EvalOut::Spent,
            }
        },
        Option::Some(_) => EvalOut::Jump(m, JumpStmt::Error(EvalError::Type)),
    }
}



#[via_fn]
proof fn s_expr_decreases(m: EnvM, e: ExprV, fuel: nat) {
    match e {
        ExprV::Index(le, ie) => match *le {
            ExprV::Lit(LitV::Arr(es)) => {
                reveal_with_fuel(exprv_size, 3);
                assert(litv_size(LitV::Arr(es)) == 1 + exprsv_size(es));
                assert(exprv_size(*le) == 1 + litv_size(LitV::Arr(es)));
                assert(exprv_size(e) == 1 + exprv_size(*le) + exprv_size(*ie));
                assert forall|i: int| 0 <= i < es.len() implies exprv_size(#[trigger] es[i])
                    < exprsv_size(es) by {
                    lemma_exprsv_size_elem(es, i);
                }
            },
            _ => {},
        },
        _ => {},
    }
}


// ---------------------------------------------------------------------------
// Executable arithmetic helpers.
// ---------------------------------------------------------------------------

fn mag_u64(a: i64) -> (r: u64)
    ensures
        r == mag(a as int),
{
    if a == i64::MIN {
        9223372036854775808u64
    } else if a < 0 {
        (-a) as u64
    } else {
        a as u64
    }
}

fn div_trunc(a: i64, b: i64) -> (r: i64)
    requires
        b != 0,
    ensures
        r == trunc_div_i64(a as int, b as int),
{
    let am = mag_u64(a);
    let bm = mag_u64(b);
    let q = am / bm;
    if (a < 0) != (b < 0) {
        if q == MAX_ABS_INT {
            i64::MIN
        } else {
            -(q as i64)
        }
    } else {
        if q == MAX_ABS_INT {
            i64::MIN
        } else {
            q as i64
        }
    }
}

fn rem_trunc(a: i64, b: i64) -> (r: i64)
    requires
        b != 0,
    ensures
        r == trunc_rem_i64(a as int, b as int),
{
    let am = mag_u64(a);
    let bm = mag_u64(b);
    let rm = am % bm;
    if a < 0 {
        -(rm as i64)
    } else {
        rm as i64
    }
}

// ---------------------------------------------------------------------------
// Executable evaluation.
// ---------------------------------------------------------------------------

/// Resolve an identifier, mapping an unbound name to a Name failure.
pub(crate) fn eval_ident(env: &Env, ident: &Ident) -> (r: Result<Value, Stop>)
    ensures
        match env_lookup(env@, ident.name@) {
            Option::Some(v) => r == Ok::<Value, Stop>(v),
            Option::None => r == Err::<Value, Stop>(Stop::Jump(JumpStmt::Error(EvalError::Name))),
        },
{
    match env.get(ident.name.as_str()) {
        Ok(v) => Ok(v),
        Err(e) => Err(Stop::Jump(JumpStmt::Error(e))),
    }
}

/// A binary operator on two already evaluated operands.
fn apply_binop(env: &mut Env, kind: InfixOpKind, a: Value, b: Value, fuel: u64) -> (r: Result<
    Value,
    Stop,
>)
    requires
        env_wf(old(env)@),
    ensures
        env_wf(final(env)@),
        out_of(final(env)@, r) == s_binop(old(env)@, kind, a, b, fuel as nat),
{
    proof {
        reveal(s_binop);
    }
    match kind {
        InfixOpKind::Add => match (a, b) {
            (Value::Int(x), Value::Int(y)) => Ok(Value::Int(x.wrapping_add(y))),
            (Value::Str(h1), Value::Str(h2)) => if h1 < env.strs.len() && h2 < env.strs.len() {
                let second = env.strs[h2].clone();
                let mut combined = env.strs[h1].clone();
                combined.append(second.as_str());
                let hn = env.strs.len();
                env.strs.push(combined);
                proof {
                    let m2 = s_binop(old(env)@, kind, a, b, fuel as nat)->Done_0;
                    assert(env@.strs =~~= m2.strs);
                    assert(env@ =~~= m2);
                }
                Ok(Value::Str(hn))
            } else {
                Err(Stop::Jump(JumpStmt::Error(EvalError::Type)))
            },
            _ => Err(Stop::Jump(JumpStmt::Error(EvalError::Type))),
        },
        InfixOpKind::Subtract => match (a, b) {
            (Value::Int(x), Value::Int(y)) => Ok(Value::Int(x.wrapping_sub(y))),
            _ => Err(Stop::Jump(JumpStmt::Error(EvalError::Type))),
        },
        InfixOpKind::Multiply => match (a, b) {
            (Value::Int(x), Value::Int(y)) => Ok(Value::Int(x.wrapping_mul(y))),
            _ => Err(Stop::Jump(JumpStmt::Error(EvalError::Type))),
        },
        InfixOpKind::Divide => match (a, b) {
            (Value::Int(x), Value::Int(y)) => if y == 0 {
                Err(Stop::Jump(JumpStmt::Error(EvalError::ZeroDivision)))
            } else if x == i64::MIN && y == -1 {
                Err(Stop::Jump(JumpStmt::Error(EvalError::OutOfRange)))
            } else {
                Ok(Value::Int(div_trunc(x, y)))
            },
            _ => Err(Stop::Jump(JumpStmt::Error(EvalError::Type))),
        },
        InfixOpKind::Modulo => match (a, b) {
            (Value::Int(x), Value::Int(y)) => if y == 0 {
                Err(Stop::Jump(JumpStmt::Error(EvalError::ZeroDivision)))
            } else if x == i64::MIN && y == -1 {
                Err(Stop::Jump(JumpStmt::Error(EvalError::OutOfRange)))
            } else {
                Ok(Value::Int(rem_trunc(x, y)))
            },
            _ => Err(Stop::Jump(JumpStmt::Error(EvalError::Type))),
        },
        InfixOpKind::Eq => match value_eq(env, a, b, fuel) {
            Ok(x) => Ok(Value::Bool(x)),
            Err(e) => Err(e),
        },
        InfixOpKind::NotEq => match value_eq(env, a, b, fuel) {
            Ok(x) => Ok(Value::Bool(!x)),
            Err(e) => Err(e),
        },
        InfixOpKind::Gt => match (a, b) {
            (Value::Int(x), Value::Int(y)) => Ok(Value::Bool(x > y)),
            _ => Err(Stop::Jump(JumpStmt::Error(EvalError::Type))),
        },
        InfixOpKind::Ge => match (a, b) {
            (Value::Int(x), Value::Int(y)) => Ok(Value::Bool(x >= y)),
            _ => Err(Stop::Jump(JumpStmt::Error(EvalError::Type))),
        },
        InfixOpKind::Lt => match (a, b) {
            (Value::Int(x), Value::Int(y)) => Ok(Value::Bool(x < y)),
            _ => Err(Stop::Jump(JumpStmt::Error(EvalError::Type))),
        },
        InfixOpKind::Le => match (a, b) {
            (Value::Int(x), Value::Int(y)) => Ok(Value::Bool(x <= y)),
            _ => Err(Stop::Jump(JumpStmt::Error(EvalError::Type))),
        },
        _ => Err(Stop::Jump(JumpStmt::Error(EvalError::Type))),
    }
}

/// A builtin applied to its already evaluated, arity-checked arguments.
fn apply_builtin(env: &mut Env, b: BuiltinFn, args: &Vec<Value>, fuel: u64) -> (r: Result<
    Value,
    Stop,
>)
    requires
        env_wf(old(env)@),
        args@.len() == b.spec_arity(),
    ensures
        env_wf(final(env)@),
        out_of(final(env)@, r) == s_apply_builtin(old(env)@, b, args@, fuel as nat),
{
    proof {
        reveal(s_apply_builtin);
    }
    match b {
        BuiltinFn::Len => match momonga_len(env, args) {
            Ok(v) => Ok(v),
            Err(e) => Err(Stop::Jump(JumpStmt::Error(e))),
        },
        BuiltinFn::Push => match momonga_push(env, args) {
            Ok(v) => Ok(v),
            Err(e) => Err(Stop::Jump(JumpStmt::Error(e))),
        },
        BuiltinFn::Pop => match momonga_pop(env, args) {
            Ok(v) => Ok(v),
            Err(e) => Err(Stop::Jump(JumpStmt::Error(e))),
        },
        BuiltinFn::Print => if fuel == 0 {
            Err(Stop::OutOfSteps)
        } else {
            momonga_print(env, args, fuel - 1)
        },
    }
}


/// Evaluate a list of expressions left to right.
#[verifier::spinoff_prover]
#[verifier::rlimit(30)]
fn eval_expr_list(env: &mut Env, es: &Vec<Expr>, fuel: u64) -> (r: Result<Vec<Value>, Stop>)
    requires
        env_wf(old(env)@),
    ensures
        env_wf(final(env)@),
        out_of(final(env)@, match r {
            Ok(vs) => Ok::<Seq<Value>, Stop>(vs@),
            Err(e) => Err(e),
        }) == s_exprs(old(env)@, view_exprs(es@), fuel as nat),
        match r {
            Ok(vs) => vs@.len() == es@.len(),
            Err(e) => true,
        },
    decreases fuel, exprsv_size(view_exprs(es@)), 0nat,
{
    let ghost m0 = env@;
    let ghost ev = view_exprs(es@);
    proof {
        lemma_view_exprs(es@);
        assert(ev.skip(0) =~= ev);
        match s_exprs(m0, ev, fuel as nat) {
            EvalOut::Done(m2, vs) => {
                assert(Seq::<Value>::empty() + vs =~= vs);
            },
            _ => {},
        }
    }
    let n = es.len();
    let mut acc: Vec<Value> = Vec::new();
    let mut i: usize = 0;
    while i < n
        invariant
            i <= n,
            n == es@.len(),
            env_wf(env@),
            m0 == old(env)@,
            acc@.len() == i,
            ev == view_exprs(es@),
            ev.len() == n,
            forall|k: int| 0 <= k < n ==> ev[k] == view_expr(es@[k]),
            match s_exprs(env@, ev.skip(i as int), fuel as nat) {
                EvalOut::Done(m2, vs) => s_exprs(m0, ev, fuel as nat) == EvalOut::Done(
                    m2,
                    acc@ + vs,
                ),
                EvalOut::Jump(m2, j) => s_exprs(m0, ev, fuel as nat) == EvalOut::Jump::<
                    Seq<Value>,
                >(m2, j),
                EvalOut::Spent => s_exprs(m0, ev, fuel as nat) == EvalOut::Spent::<Seq<Value>>,
            },
        decreases n - i,
    {
        proof {
            reveal_with_fuel(s_exprs, 1);
            lemma_exprsv_size_elem(ev, i as int);
            assert(ev.skip(i as int)[0] == ev[i as int]);
            assert(ev.skip(i as int).drop_first() =~= ev.skip(i as int + 1));
        }
        let ghost envb = env@;
        match eval_expr(env, &es[i], fuel) {
            Ok(v) => {
                let ghost acc0 = acc@;
                acc.push(v);
                proof {
                    match s_exprs(env@, ev.skip(i as int + 1), fuel as nat) {
                        EvalOut::Done(m2, vs) => {
                            assert(acc0 + (seq![v] + vs) =~= acc@ + vs);
                        },
                        _ => {},
                    }
                }
            },
            Err(e) => {
                return Err(e);
            },
        }
        i = i + 1;
    }
    proof {
        assert(ev.skip(n as int) =~= Seq::<ExprV>::empty());
        assert(acc@ + Seq::<Value>::empty() =~= acc@);
    }
    Ok(acc)
}

#[verifier::spinoff_prover]
#[verifier::rlimit(30)]
pub(crate) fn eval_literal(env: &mut Env, literal: &Literal, fuel: u64) -> (r: Result<Value, Stop>)
    requires
        env_wf(old(env)@),
    ensures
        env_wf(final(env)@),
        out_of(final(env)@, r) == s_literal(old(env)@, crate::ast::view_literal(*literal), fuel as nat),
    decreases fuel, litv_size(crate::ast::view_literal(*literal)), 0nat,
{
    match literal {
        Literal::Bool(b) => Ok(Value::Bool(*b)),
        Literal::Int(u) => if *u >= MAX_ABS_INT {
            Err(Stop::Jump(JumpStmt::Error(EvalError::OutOfRange)))
        } else {
            Ok(Value::Int(*u as i64))
        },
        Literal::Str(st) => {
            let h = env.strs.len();
            env.strs.push(st.clone());
            proof {
                let m1 = s_literal(old(env)@, crate::ast::view_literal(*literal), fuel as nat)->Done_0;
                assert(env@.strs =~~= m1.strs);
                assert(env@ =~~= m1);
            }
            Ok(Value::Str(h))
        },
        Literal::Array(es) => match eval_expr_list(env, es, fuel) {
            Ok(vs) => {
                let h = env.arrs.len();
                let ghost envb = env@;
                let ghost vsv = vs@;
                env.arrs.push(Array { elems: vs });
                proof {
                    assert(env@.arrs =~~= envb.arrs.push(vsv));
                    assert(env@ =~~= (EnvM { arrs: envb.arrs.push(vsv), ..envb }));
                }
                Ok(Value::Arr(h))
            },
            Err(e) => Err(e),
        },
        Literal::Nil => Ok(Value::Nil),
    }
}

#[verifier::spinoff_prover]
#[verifier::rlimit(30)]
pub(crate) fn eval_var_stmt(env: &mut Env, var_stmt: &VarStmt, fuel: u64) -> (r: Result<
    Option<Value>,
    Stop,
>)
    requires
        env_wf(old(env)@),
    ensures
        env_wf(final(env)@),
        out_of(final(env)@, r) == s_stmt(
            old(env)@,
            StmtV::Var(var_stmt.ident.name@, view_opt_expr(var_stmt.expr)),
            fuel as nat,
        ),
    decreases fuel, stmtv_size(StmtV::Var(var_stmt.ident.name@, view_opt_expr(var_stmt.expr))), 0nat,
{
    match &var_stmt.expr {
        Option::Some(e) => match eval_expr(env, e, fuel) {
            Ok(v) => {
                env.set_var(var_stmt.ident.name.clone(), v);
                Ok(Option::None)
            },
            Err(e2) => Err(e2),
        },
        Option::None => {
            env.set_var(var_stmt.ident.name.clone(), Value::Nil);
            Ok(Option::None)
        },
    }
}

#[verifier::spinoff_prover]
#[verifier::rlimit(30)]
pub(crate) fn eval_expr_stmt(env: &mut Env, expr_stmt: &Expr, fuel: u64) -> (r: Result<
    Option<Value>,
    Stop,
>)
    requires
        env_wf(old(env)@),
    ensures
        env_wf(final(env)@),
        out_of(final(env)@, r) == s_stmt(old(env)@, StmtV::Expr(view_expr(*expr_stmt)), fuel as nat),
    decreases fuel, stmtv_size(StmtV::Expr(view_expr(*expr_stmt))), 0nat,
{
    match eval_expr(env, expr_stmt, fuel) {
        Ok(v) => Ok(Option::Some(v)),
        Err(e) => Err(e),
    }
}

/// Declare a function: the value owns a copy of the parameter names and the
/// body, and is bound in the innermost scope.
#[verifier::spinoff_prover]
#[verifier::rlimit(30)]
pub(crate) fn eval_func_decl(env: &mut Env, func_decl: &FuncDecl) -> (r: Result<Option<Value>, Stop>)
    requires
        env_wf(old(env)@),
    ensures
        env_wf(final(env)@),
        r == Ok::<Option<Value>, Stop>(Option::None),
        final(env)@ == env_declare(
            EnvM {
                funcs: old(env)@.funcs.push(
                    FuncM {
                        params: view_idents(func_decl.ident_param@),
                        body: view_stmts(func_decl.block@),
                    },
                ),
                ..old(env)@
            },
            func_decl.ident_func.name@,
            Value::Func(old(env)@.funcs.len() as usize),
        ),
{
    let ghost m0 = env@;
    let mut params: Vec<String> = Vec::new();
    let np = func_decl.ident_param.len();
    let mut i: usize = 0;
    while i < np
        invariant
            i <= np,
            np == func_decl.ident_param@.len(),
            params@.len() == i,
            forall|k: int| 0 <= k < i ==> (#[trigger] params@[k])@ == func_decl.ident_param@[k].name@,
        decreases np - i,
    {
        params.push(func_decl.ident_param[i].name.clone());
        i = i + 1;
    }
    let body = stmts_dup(&func_decl.block);
    let h = env.funcs.len();
    let f2 = FuncVal { params, body };
    proof {
        assert(f2@.params =~= view_idents(func_decl.ident_param@));
    }
    env.funcs.push(f2);
    proof {
        assert(env@.funcs =~~= m0.funcs.push(
            FuncM {
                params: view_idents(func_decl.ident_param@),
                body: view_stmts(func_decl.block@),
            },
        ));
        assert(env@ =~~= (EnvM {
            funcs: m0.funcs.push(
                FuncM {
                    params: view_idents(func_decl.ident_param@),
                    body: view_stmts(func_decl.block@),
                },
            ),
            ..m0
        }));
    }
    env.set(func_decl.ident_func.name.clone(), Value::Func(h));
    Ok(Option::None)
}

#[verifier::spinoff_prover]
#[verifier::rlimit(30)]
pub(crate) fn eval_if_stmt(env: &mut Env, if_stmt: &IfStmt, fuel: u64) -> (r: Result<
    Option<Value>,
    Stop,
>)
    requires
        env_wf(old(env)@),
    ensures
        env_wf(final(env)@),
        out_of(final(env)@, r) == s_if(old(env)@, view_if(*if_stmt), fuel as nat),
    decreases fuel, ifv_size(view_if(*if_stmt)), 0nat,
{
    match eval_expr(env, &if_stmt.condition, fuel) {
        Ok(Value::Bool(true)) => {
            env.push_scope();
            let rb = eval_block_stmt(env, &if_stmt.block, fuel);
            env.pop_scope();
            rb
        },
        Ok(Value::Bool(false)) => match &if_stmt.else_clause {
            Option::Some(e) => eval_if_stmt_else_clause(env, e, fuel),
            Option::None => Ok(Option::None),
        },
        Ok(_) => Err(Stop::Jump(JumpStmt::Error(EvalError::Type))),
        Err(e) => Err(e),
    }
}

#[verifier::spinoff_prover]
#[verifier::rlimit(30)]
pub(crate) fn eval_if_stmt_else_clause(env: &mut Env, clause: &IfStmtElseClause, fuel: u64) -> (r:
    Result<Option<Value>, Stop>)
    requires
        env_wf(old(env)@),
    ensures
        env_wf(final(env)@),
        out_of(final(env)@, r) == s_else(old(env)@, view_else(*clause), fuel as nat),
    decreases fuel, elsev_size(view_else(*clause)), 0nat,
{
    match clause {
        IfStmtElseClause::IfStmtBlock(b) => {
            env.push_scope();
            let rb = eval_block_stmt(env, b, fuel);
            env.pop_scope();
            rb
        },
        IfStmtElseClause::IfStmt(bi) => eval_if_stmt(env, bi, fuel),
    }
}

#[verifier::spinoff_prover]
#[verifier::rlimit(30)]
pub(crate) fn eval_for_stmt_afterthought(env: &mut Env, afterthought: &Option<Expr>, fuel: u64) -> (
    r: Result<Option<Value>, Stop>)
    requires
        env_wf(old(env)@),
    ensures
        env_wf(final(env)@),
        out_of(final(env)@, r) == s_afterthought(
            old(env)@,
            view_opt_expr(*afterthought),
            fuel as nat,
        ),
    decreases fuel, oexprv_size(view_opt_expr(*afterthought)), 0nat,
{
    match afterthought {
        Option::Some(e) => match eval_expr(env, e, fuel) {
            Ok(_) => Ok(Option::None),
            Err(e2) => Err(e2),
        },
        Option::None => Ok(Option::None),
    }
}

/// The loop header's init, run inside the loop's own scope.
#[verifier::spinoff_prover]
#[verifier::rlimit(30)]
fn eval_for_init(env: &mut Env, init: &Option<ForStmtInit>, fuel: u64) -> (r: Result<
    Option<Value>,
    Stop,
>)
    requires
        env_wf(old(env)@),
    ensures
        env_wf(final(env)@),
        out_of(final(env)@, r) == s_for_init(old(env)@, view_for_init(*init), fuel as nat),
    decreases fuel, forinitv_size(view_for_init(*init)), 0nat,
{
    match init {
        Option::Some(ForStmtInit::Var(vs)) => match &vs.expr {
            Option::Some(e) => match eval_expr(env, e, fuel) {
                Ok(v) => {
                    env.set_var(vs.ident.name.clone(), v);
                    Ok(Option::None)
                },
                Err(e2) => Err(e2),
            },
            Option::None => {
                env.set_var(vs.ident.name.clone(), Value::Nil);
                Ok(Option::None)
            },
        },
        Option::Some(ForStmtInit::Expr(e)) => match eval_expr(env, e, fuel) {
            Ok(_) => Ok(Option::None),
            Err(e2) => Err(e2),
        },
        Option::None => Ok(Option::None),
    }
}

#[verifier::rlimit(30)]
#[verifier::spinoff_prover]
pub(crate) fn eval_for_stmt(env: &mut Env, for_stmt: &ForStmt, fuel: u64) -> (r: Result<
    Option<Value>,
    Stop,
>)
    requires
        env_wf(old(env)@),
    ensures
        env_wf(final(env)@),
        out_of(final(env)@, r) == s_for_stmt(old(env)@, view_for(*for_stmt), fuel as nat),
    decreases fuel, forv_size(view_for(*for_stmt)), 1nat,
{
    let ghost m0 = env@;
    let ghost fv = view_for(*for_stmt);
    let ghost goal = s_for_stmt(m0, fv, fuel as nat);
    env.push_scope();
    match eval_for_init(env, &for_stmt.init, fuel) {
        Ok(_) => {},
        Err(Stop::Jump(j)) => {
            env.pop_scope();
            return Err(Stop::Jump(j));
        },
        Err(Stop::OutOfSteps) => {
            return Err(Stop::OutOfSteps);
        },
    }
    let mut prev: Option<Value> = Option::None;
    let mut rem: u64 = fuel;
    proof {
        assert(goal == popped(s_for_loop(env@, prev, fv, rem as nat)));
    }
    loop
        invariant
            env_wf(env@),
            rem <= fuel,
            m0 == old(env)@,
            fv == view_for(*for_stmt),
            goal == s_for_stmt(m0, fv, fuel as nat),
            popped(s_for_loop(env@, prev, fv, rem as nat)) == goal,
        decreases rem,
    {
        if rem == 0 {
            proof {
                reveal_with_fuel(s_for_loop, 1);
            }
            return Err(Stop::OutOfSteps);
        }
        match eval_for_round(env, for_stmt, rem, prev) {
            Round::CondFalse => {
                env.pop_scope();
                return Ok(prev);
            },
            Round::Broke => {
                env.pop_scope();
                return Ok(Option::None);
            },
            Round::Next(v) => {
                prev = v;
            },
            Round::Stopped(Stop::Jump(j)) => {
                env.pop_scope();
                return Err(Stop::Jump(j));
            },
            Round::Stopped(Stop::OutOfSteps) => {
                return Err(Stop::OutOfSteps);
            },
        }
        rem = rem - 1;
    }
}

/// What one round of a `for` loop did.
enum Round {
    /// The condition came out false: the loop ends with the carried value.
    CondFalse,
    /// The body broke out of the loop.
    Broke,
    /// The body and afterthought completed (or the body continued); the loop
    /// goes round again carrying this value.
    Next(Option<Value>),
    /// A signal leaves the loop at once.
    Stopped(Stop),
}

/// One round of a `for` loop: condition, body, afterthought.
#[verifier::rlimit(30)]
#[verifier::spinoff_prover]
fn eval_for_round(env: &mut Env, for_stmt: &ForStmt, rem: u64, prev: Option<Value>) -> (r: Round)
    requires
        env_wf(old(env)@),
        rem >= 1,
    ensures
        env_wf(final(env)@),
        s_for_loop(old(env)@, prev, view_for(*for_stmt), rem as nat) == match r {
            Round::CondFalse => EvalOut::Done(final(env)@, prev),
            Round::Broke => EvalOut::Done(final(env)@, Option::<Value>::None),
            Round::Next(v) => s_for_loop(final(env)@, v, view_for(*for_stmt), (rem - 1) as nat),
            Round::Stopped(Stop::Jump(j)) => EvalOut::Jump(final(env)@, j),
            Round::Stopped(Stop::OutOfSteps) => EvalOut::Spent,
        },
    decreases rem, forv_size(view_for(*for_stmt)), 0nat,
{
    let ghost fv = view_for(*for_stmt);
    let condb: bool = match &for_stmt.cond {
        Option::Some(c) => match eval_expr(env, c, rem) {
            Ok(Value::Bool(b)) => b,
            Ok(_) => {
                return Round::Stopped(Stop::Jump(JumpStmt::Error(EvalError::Type)));
            },
            Err(Stop::Jump(j)) => {
                return Round::Stopped(Stop::Jump(j));
            },
            Err(Stop::OutOfSteps) => {
                return Round::Stopped(Stop::OutOfSteps);
            },
        },
        Option::None => true,
    };
    if !condb {
        return Round::CondFalse;
    }
    env.push_scope();
    let rb = eval_block_stmt(env, &for_stmt.block, rem);
    env.pop_scope();
    match rb {
        Ok(v) => match eval_for_stmt_afterthought(env, &for_stmt.afterthought, rem) {
            Ok(_) => Round::Next(v),
            Err(e) => Round::Stopped(e),
        },
        Err(Stop::Jump(JumpStmt::Continue)) => match eval_for_stmt_afterthought(
            env,
            &for_stmt.afterthought,
            rem,
        ) {
            Ok(_) => Round::Next(Option::None),
            Err(e) => Round::Stopped(e),
        },
        Err(Stop::Jump(JumpStmt::Break)) => Round::Broke,
        Err(Stop::Jump(j)) => Round::Stopped(Stop::Jump(j)),
        Err(Stop::OutOfSteps) => Round::Stopped(Stop::OutOfSteps),
    }
}

/// A statement sequence: the statements run in order in the current scope;
/// the value of the sequence is the last statement's value.
/// One statement.
#[verifier::rlimit(30)]
#[verifier::spinoff_prover]
fn eval_stmt(env: &mut Env, stmt: &Stmt, fuel: u64) -> (r: Result<Option<Value>, Stop>)
    requires
        env_wf(old(env)@),
    ensures
        env_wf(final(env)@),
        out_of(final(env)@, r) == s_stmt(old(env)@, view_stmt(*stmt), fuel as nat),
    decreases fuel, stmtv_size(view_stmt(*stmt)), 2nat,
{
    match stmt {
        Stmt::BlockStmt(b) => {
            env.push_scope();
            let rb = eval_block_stmt(env, b, fuel);
            env.pop_scope();
            rb
        },
        Stmt::FuncDecl(fd) => eval_func_decl(env, fd),
        Stmt::IfStmt(i2) => eval_if_stmt(env, i2, fuel),
        Stmt::ForStmt(f) => eval_for_stmt(env, f, fuel),
        Stmt::VarStmt(v) => eval_var_stmt(env, v, fuel),
        Stmt::ExprStmt(e) => eval_expr_stmt(env, e, fuel),
        Stmt::ContinueStmt => Err(Stop::Jump(JumpStmt::Continue)),
        Stmt::BreakStmt => Err(Stop::Jump(JumpStmt::Break)),
        Stmt::ReturnStmt(rs) => match &rs.expr {
            Option::Some(e) => match eval_expr(env, e, fuel) {
                Ok(v) => Err(Stop::Jump(JumpStmt::Return(v))),
                Err(e2) => Err(e2),
            },
            Option::None => Err(Stop::Jump(JumpStmt::Return(Value::Nil))),
        },
    }
}

/// A statement sequence: the statements run in order in the current scope;
/// the value of the sequence is the last statement's value.
#[verifier::rlimit(30)]
#[verifier::spinoff_prover]
pub(crate) fn eval_block_stmt(env: &mut Env, block_stmt: &Vec<Stmt>, fuel: u64) -> (r: Result<
    Option<Value>,
    Stop,
>)
    requires
        env_wf(old(env)@),
    ensures
        env_wf(final(env)@),
        out_of(final(env)@, r) == s_stmts(old(env)@, view_stmts(block_stmt@), fuel as nat),
    decreases fuel, stmtsv_size(view_stmts(block_stmt@)), 1nat,
{
    let ghost m0 = env@;
    let ghost sv = view_stmts(block_stmt@);
    proof {
        lemma_view_stmts(block_stmt@);
        assert(sv.skip(0) =~= sv);
    }
    let n = block_stmt.len();
    if n == 0 {
        return Ok(Option::None);
    }
    let mut i: usize = 0;
    while i < n
        invariant
            i < n,
            n == block_stmt@.len(),
            env_wf(env@),
            m0 == old(env)@,
            sv == view_stmts(block_stmt@),
            sv.len() == n,
            forall|k: int| 0 <= k < n ==> sv[k] == view_stmt(block_stmt@[k]),
            s_stmts(m0, sv, fuel as nat) == s_stmts(env@, sv.skip(i as int), fuel as nat),
        decreases n - i,
    {
        let ghost mb = env@;
        proof {
            lemma_stmtsv_size_elem(sv, i as int);
            assert(sv.skip(i as int)[0] == sv[i as int]);
            assert(sv.skip(i as int).drop_first() =~= sv.skip(i as int + 1));
        }
        let r: Result<Option<Value>, Stop> = eval_stmt(env, &block_stmt[i], fuel);
        proof {
            reveal_with_fuel(s_stmts, 2);
            assert(s_stmts(mb, sv.skip(i as int), fuel as nat) == (match s_stmt(
                mb,
                sv[i as int],
                fuel as nat,
            ) {
                EvalOut::Done(m1x, vx) => if sv.skip(i as int).len() == 1 {
                    EvalOut::Done(m1x, vx)
                } else {
                    s_stmts(m1x, sv.skip(i as int).drop_first(), fuel as nat)
                },
                EvalOut::Jump(m1x, jx) => EvalOut::Jump(m1x, jx),
                EvalOut::Spent => EvalOut::Spent::<Option<Value>>,
            }));
        }
        match r {
            Ok(v) => {
                if i == n - 1 {
                    return Ok(v);
                }
            },
            Err(stop) => {
                return Err(stop);
            },
        }
        i = i + 1;
    }
    proof {
        assert(false);
    }
    Err(Stop::OutOfSteps)
}

#[verifier::spinoff_prover]
#[verifier::rlimit(30)]
pub(crate) fn eval_expr(env: &mut Env, expr: &Expr, fuel: u64) -> (r: Result<Value, Stop>)
    requires
        env_wf(old(env)@),
    ensures
        env_wf(final(env)@),
        out_of(final(env)@, r) == s_expr(old(env)@, view_expr(*expr), fuel as nat),
    decreases fuel, exprv_size(view_expr(*expr)), 3nat,
{
    let ghost m0 = env@;
    match expr {
        Expr::Literal(l) => {
            proof {
                lemma_s_expr_lit(m0, crate::ast::view_literal(*l), fuel as nat);
            }
            eval_literal(env, l, fuel)
        },
        Expr::Ident(id) => {
            proof {
                lemma_s_expr_ident(m0, id.name@, fuel as nat);
            }
            match eval_ident(env, id) {
                Ok(Value::Func(h)) => Err(
                    Stop::Jump(JumpStmt::Error(EvalError::InvalidExpression)),
                ),
                Ok(v) => Ok(v),
                Err(e) => Err(e),
            }
        },
        Expr::PrefixOp { kind, rhs } => eval_prefix_op(env, *kind, rhs, fuel),
        Expr::InfixOp { kind, lhs, rhs } => eval_infix_op(env, *kind, lhs, rhs, fuel),
        Expr::PostfixOp { kind, lhs } => match kind {
            PostfixOpKind::Index(index_expr) => eval_index_op(env, lhs, index_expr, fuel),
            PostfixOpKind::Call(args) => {
                proof {
                    lemma_s_expr_call(m0, view_expr(**lhs), view_exprs(args@), fuel as nat);
                }
                match &**lhs {
                    Expr::Ident(id) => eval_call(env, id, args, fuel),
                    _ => Err(Stop::Jump(JumpStmt::Error(EvalError::Type))),
                }
            },
        },
    }
}

#[verifier::rlimit(30)]
#[verifier::spinoff_prover]
fn eval_prefix_op(env: &mut Env, kind: PrefixOpKind, rhs: &Expr, fuel: u64) -> (r: Result<
    Value,
    Stop,
>)
    requires
        env_wf(old(env)@),
    ensures
        env_wf(final(env)@),
        out_of(final(env)@, r) == s_expr(
            old(env)@,
            ExprV::Prefix(kind, Box::new(view_expr(*rhs))),
            fuel as nat,
        ),
    decreases fuel, exprv_size(ExprV::Prefix(kind, Box::new(view_expr(*rhs)))), 0nat,
{
    proof {
        lemma_s_expr_prefix(env@, kind, view_expr(*rhs), fuel as nat);
    }
    match kind {
        PrefixOpKind::Pos => match eval_expr(env, rhs, fuel) {
            Ok(Value::Int(i)) => Ok(Value::Int(i)),
            Ok(_) => Err(Stop::Jump(JumpStmt::Error(EvalError::Type))),
            Err(e) => Err(e),
        },
        PrefixOpKind::Neg => {
            let is_min_literal: bool = match rhs {
                Expr::Literal(Literal::Int(u)) => *u == MAX_ABS_INT,
                _ => false,
            };
            proof {
                reveal_with_fuel(view_expr, 2);
                assert(is_min_literal == (view_expr(*rhs) == ExprV::Lit(LitV::Int(MAX_ABS_INT))));
            }
            if is_min_literal {
                Ok(Value::Int(i64::MIN))
            } else {
                match eval_expr(env, rhs, fuel) {
                    Ok(Value::Int(i)) => if i == i64::MIN {
                        Err(Stop::Jump(JumpStmt::Error(EvalError::OutOfRange)))
                    } else {
                        Ok(Value::Int(-i))
                    },
                    Ok(_) => Err(Stop::Jump(JumpStmt::Error(EvalError::Type))),
                    Err(e) => Err(e),
                }
            }
        },
        PrefixOpKind::Not => match eval_expr(env, rhs, fuel) {
            Ok(Value::Bool(b)) => Ok(Value::Bool(!b)),
            Ok(_) => Err(Stop::Jump(JumpStmt::Error(EvalError::Type))),
            Err(e) => Err(e),
        },
    }
}

#[verifier::rlimit(30)]
#[verifier::spinoff_prover]
fn eval_infix_op(env: &mut Env, kind: InfixOpKind, lhs: &Expr, rhs: &Expr, fuel: u64) -> (r: Result<
    Value,
    Stop,
>)
    requires
        env_wf(old(env)@),
    ensures
        env_wf(final(env)@),
        out_of(final(env)@, r) == s_expr(
            old(env)@,
            ExprV::Infix(kind, Box::new(view_expr(*lhs)), Box::new(view_expr(*rhs))),
            fuel as nat,
        ),
    decreases fuel, exprv_size(
        ExprV::Infix(kind, Box::new(view_expr(*lhs)), Box::new(view_expr(*rhs))),
    ), 0nat,
{
    proof {
        lemma_s_expr_infix(env@, kind, view_expr(*lhs), view_expr(*rhs), fuel as nat);
    }
    match kind {
        InfixOpKind::Assign => match lhs {
            Expr::Ident(id) => match eval_expr(env, rhs, fuel) {
                Ok(v) => match env.set_assign(id.name.as_str(), v) {
                    Ok(()) => Ok(v),
                    Err(e) => Err(Stop::Jump(JumpStmt::Error(e))),
                },
                Err(e) => Err(e),
            },
            _ => Err(Stop::Jump(JumpStmt::Error(EvalError::Type))),
        },
        InfixOpKind::And => match eval_expr(env, lhs, fuel) {
            Ok(Value::Bool(false)) => Ok(Value::Bool(false)),
            Ok(Value::Bool(true)) => match eval_expr(env, rhs, fuel) {
                Ok(Value::Bool(b)) => Ok(Value::Bool(b)),
                Ok(_) => Err(Stop::Jump(JumpStmt::Error(EvalError::Type))),
                Err(e) => Err(e),
            },
            Ok(_) => Err(Stop::Jump(JumpStmt::Error(EvalError::Type))),
            Err(e) => Err(e),
        },
        InfixOpKind::Or => match eval_expr(env, lhs, fuel) {
            Ok(Value::Bool(true)) => Ok(Value::Bool(true)),
            Ok(Value::Bool(false)) => match eval_expr(env, rhs, fuel) {
                Ok(Value::Bool(b)) => Ok(Value::Bool(b)),
                Ok(_) => Err(Stop::Jump(JumpStmt::Error(EvalError::Type))),
                Err(e) => Err(e),
            },
            Ok(_) => Err(Stop::Jump(JumpStmt::Error(EvalError::Type))),
            Err(e) => Err(e),
        },
        _ => match eval_expr(env, lhs, fuel) {
            Ok(v1) => match eval_expr(env, rhs, fuel) {
                Ok(v2) => apply_binop(env, kind, v1, v2, fuel),
                Err(e) => Err(e),
            },
            Err(e) => Err(e),
        },
    }
}

/// Indexing. The index is evaluated first. When the base is itself an array
/// literal, only the selected element expression is evaluated, so the other
/// elements' effects are skipped; any other base is evaluated in full and
/// must be an array.
#[verifier::rlimit(30)]
#[verifier::spinoff_prover]
fn eval_index_op(env: &mut Env, lhs: &Expr, index_expr: &Expr, fuel: u64) -> (r: Result<
    Value,
    Stop,
>)
    requires
        env_wf(old(env)@),
    ensures
        env_wf(final(env)@),
        out_of(final(env)@, r) == s_expr(
            old(env)@,
            ExprV::Index(Box::new(view_expr(*lhs)), Box::new(view_expr(*index_expr))),
            fuel as nat,
        ),
    decreases fuel, exprv_size(
        ExprV::Index(Box::new(view_expr(*lhs)), Box::new(view_expr(*index_expr))),
    ), 0nat,
{
    proof {
        lemma_s_expr_index(env@, view_expr(*lhs), view_expr(*index_expr), fuel as nat);
    }
    match eval_expr(env, index_expr, fuel) {
        Ok(Value::Int(ix)) => if ix < 0 {
            Err(Stop::Jump(JumpStmt::Error(EvalError::Index)))
        } else {
            match lhs {
                Expr::Literal(Literal::Array(es)) => {
                    proof {
                        reveal_with_fuel(view_expr, 2);
                        lemma_view_exprs(es@);
                    }
                    if (ix as u64) < (es.len() as u64) {
                        let idx = ix as usize;
                        proof {
                            lemma_view_exprs(es@);
                            lemma_exprsv_size_elem(view_exprs(es@), idx as int);
                            reveal_with_fuel(view_expr, 2);
                            reveal_with_fuel(exprv_size, 3);
                            assert(view_expr(*lhs) == ExprV::Lit(LitV::Arr(view_exprs(es@))));
                            assert(litv_size(LitV::Arr(view_exprs(es@))) == 1 + exprsv_size(
                                view_exprs(es@),
                            ));
                            assert(exprv_size(view_expr(*lhs)) == 2 + exprsv_size(
                                view_exprs(es@),
                            ));
                        }
                        eval_expr(env, &es[idx], fuel)
                    } else {
                        Err(Stop::Jump(JumpStmt::Error(EvalError::Index)))
                    }
                },
                _ => {
                    proof {
                        reveal_with_fuel(view_expr, 2);
                    }
                    match eval_expr(env, lhs, fuel) {
                        Ok(Value::Arr(h)) => if h < env.arrs.len() {
                            if (ix as u64) < (env.arrs[h].elems.len() as u64) {
                                Ok(env.arrs[h].elems[ix as usize])
                            } else {
                                Err(Stop::Jump(JumpStmt::Error(EvalError::Index)))
                            }
                        } else {
                            Err(Stop::Jump(JumpStmt::Error(EvalError::Type)))
                        },
                        Ok(_) => Err(Stop::Jump(JumpStmt::Error(EvalError::Type))),
                        Err(e) => Err(e),
                    }
                },
            }
        },
        Ok(_) => Err(Stop::Jump(JumpStmt::Error(EvalError::Type))),
        Err(e) => Err(e),
    }
}

/// Apply the declared function at handle `h` to already evaluated arguments.
#[verifier::rlimit(30)]
#[verifier::spinoff_prover]
fn invoke_function(env: &mut Env, h: usize, vals: &Vec<Value>, fuel: u64) -> (r: Result<
    Value,
    Stop,
>)
    requires
        env_wf(old(env)@),
    ensures
        env_wf(final(env)@),
        out_of(final(env)@, r) == s_invoke(old(env)@, h, vals@, fuel as nat),
    decreases fuel, 0nat, 0nat,
{
    if h >= env.funcs.len() {
        return Err(Stop::Jump(JumpStmt::Error(EvalError::Type)));
    }
    if fuel == 0 {
        return Err(Stop::OutOfSteps);
    }
    let ghost m1 = env@;
    let params = crate::env::clone_strings(&env.funcs[h].params);
    let body = stmts_dup(&env.funcs[h].body);
    proof {
        assert(view_stmts(body@) == m1.funcs[h as int].body);
        assert(params@.map_values(|s2: String| s2@) =~= m1.funcs[h as int].params);
    }
    env.push_scope();
    let ghost mp = env@;
    let ghost pv = m1.funcs[h as int].params;
    let kmax = if params.len() < vals.len() {
        params.len()
    } else {
        vals.len()
    };
    let mut k: usize = 0;
    proof {
        reveal_with_fuel(declare_params, 1);
        assert(pv.skip(0) =~= pv);
        assert(vals@.skip(0) =~= vals@);
    }
    while k < kmax
        invariant
            k <= kmax,
            env_wf(env@),
            m1 == old(env)@,
            mp == push_m(m1),
            fuel >= 1,
            h < m1.funcs.len(),
            pv == m1.funcs[h as int].params,
            view_stmts(body@) == m1.funcs[h as int].body,
            pv.len() == params@.len(),
            forall|j: int| 0 <= j < pv.len() ==> pv[j] == (#[trigger] params@[j])@,
            kmax == if params@.len() < vals@.len() {
                params@.len()
            } else {
                vals@.len()
            },
            declare_params(env@, pv.skip(k as int), vals@.skip(k as int)) == declare_params(
                mp,
                pv,
                vals@,
            ),
        decreases kmax - k,
    {
        proof {
            reveal_with_fuel(declare_params, 1);
            assert(pv.skip(k as int)[0] == pv[k as int]);
            assert(vals@.skip(k as int)[0] == vals@[k as int]);
            assert(pv.skip(k as int).drop_first() =~= pv.skip(k as int + 1));
            assert(vals@.skip(k as int).drop_first() =~= vals@.skip(k as int + 1));
        }
        env.set_var(params[k].clone(), vals[k]);
        k = k + 1;
    }
    proof {
        reveal_with_fuel(declare_params, 1);
        assert(pv.skip(kmax as int).len() == 0 || vals@.skip(kmax as int).len() == 0);
        assert(env@ == declare_params(mp, pv, vals@));
    }
    let rb = eval_block_stmt(env, &body, fuel - 1);
    env.pop_scope();
    match rb {
        Ok(_) => Ok(Value::Nil),
        Err(Stop::Jump(JumpStmt::Return(v))) => Ok(v),
        Err(Stop::Jump(j)) => Err(Stop::Jump(j)),
        Err(Stop::OutOfSteps) => Err(Stop::OutOfSteps),
    }
}

/// A call expression headed by an identifier.
#[verifier::rlimit(30)]
#[verifier::spinoff_prover]
fn eval_call(env: &mut Env, ident: &Ident, args: &Vec<Expr>, fuel: u64) -> (r: Result<Value, Stop>)
    requires
        env_wf(old(env)@),
    ensures
        env_wf(final(env)@),
        out_of(final(env)@, r) == s_call(old(env)@, ident.name@, view_exprs(args@), fuel as nat),
    decreases fuel, exprsv_size(view_exprs(args@)), 2nat,
{
    proof {
        lemma_view_exprs(args@);
    }
    match eval_ident(env, ident) {
        Ok(Value::Func(h)) => match eval_expr_list(env, args, fuel) {
            Ok(vals) => invoke_function(env, h, &vals, fuel),
            Err(e) => Err(e),
        },
        Ok(Value::Builtin(b)) => {
            if args.len() != b.arity() {
                return Err(Stop::Jump(JumpStmt::Error(EvalError::Argument)));
            }
            match eval_expr_list(env, args, fuel) {
                Ok(vals) => apply_builtin(env, b, &vals, fuel),
                Err(e) => Err(e),
            }
        },
        Ok(_) => Err(Stop::Jump(JumpStmt::Error(EvalError::Type))),
        Err(e) => Err(e),
    }
}

/// What the top-level entry point returns, at a given budget: the final
/// expression-statement's value, or the evaluation failure that stopped the
/// program. A stray jump signal at top level (which no built program can
/// produce) is reported as an invalid-expression failure.
pub open spec fn eval_result_matches(
    m0: EnvM,
    ss: Seq<StmtV>,
    fuel: nat,
    m2: EnvM,
    r: Result<Option<Value>, EvalError>,
) -> bool {
    match s_stmts(m0, ss, fuel) {
        EvalOut::Done(m1, v) => m2 == m1 && r == Ok::<Option<Value>, EvalError>(v),
        EvalOut::Jump(m1, JumpStmt::Error(e)) => m2 == m1 && r == Err::<Option<Value>, EvalError>(
            e,
        ),
        EvalOut::Jump(m1, _) => m2 == m1 && r == Err::<Option<Value>, EvalError>(
            EvalError::InvalidExpression,
        ),
        EvalOut::Spent => false,
    }
}

/// Run a program against the given machine. The step budget is regrown until
/// the program finishes, so a diverging program diverges here as well; a
/// program needing more than the largest budget (deeper than the machine
/// could ever build) is reported as an out-of-range failure.
#[verifier::spinoff_prover]
#[verifier::rlimit(30)]
pub fn eval(program: &Program, env: &mut Env) -> (r: Result<Option<Value>, EvalError>)
    requires
        env_wf(old(env)@),
    ensures
        env_wf(final(env)@),
        (exists|fuel: nat|
            eval_result_matches(
                old(env)@,
                view_stmts(program@),
                fuel,
                final(env)@,
                r,
            )) || (s_stmts(old(env)@, view_stmts(program@), u64::MAX as nat) is Spent && r == Err::<
            Option<Value>,
            EvalError,
        >(EvalError::OutOfRange) && final(env)@ == old(env)@),
{
    let mut fuel: u64 = 32;
    loop
        invariant
            env_wf(env@),
            env@ == old(env)@,
            fuel >= 1,
        decreases u64::MAX - fuel,
    {
        let mut work = crate::env::env_dup(env);
        match eval_block_stmt(&mut work, program, fuel) {
            Ok(v) => {
                proof {
                    assert(eval_result_matches(
                        old(env)@,
                        view_stmts(program@),
                        fuel as nat,
                        work@,
                        Ok(v),
                    ));
                }
                *env = work;
                return Ok(v);
            },
            Err(Stop::Jump(JumpStmt::Error(e))) => {
                proof {
                    assert(eval_result_matches(
                        old(env)@,
                        view_stmts(program@),
                        fuel as nat,
                        work@,
                        Err(e),
                    ));
                }
                *env = work;
                return Err(e);
            },
            Err(Stop::Jump(_)) => {
                proof {
                    assert(eval_result_matches(
                        old(env)@,
                        view_stmts(program@),
                        fuel as nat,
                        work@,
                        Err(EvalError::InvalidExpression),
                    ));
                }
                *env = work;
                return Err(EvalError::InvalidExpression);
            },
            Err(Stop::OutOfSteps) => {
                if fuel == u64::MAX {
                    return Err(EvalError::OutOfRange);
                }
                fuel = if fuel > u64::MAX / 2 {
                    u64::MAX
                } else {
                    fuel * 2
                };
            },
        }
    }
}



// The case equations of `s_expr`, one per constructor. Each is proved by a
// single unfolding in a small context.

#[verifier::spinoff_prover]
#[verifier::rlimit(30)]
proof fn lemma_s_expr_lit(m: EnvM, l: LitV, fuel: nat)
    ensures
        s_expr(m, ExprV::Lit(l), fuel) == s_literal(m, l, fuel),
{
    reveal_with_fuel(s_expr, 1);
}

#[verifier::spinoff_prover]
#[verifier::rlimit(30)]
proof fn lemma_s_expr_ident(m: EnvM, n: Seq<char>, fuel: nat)
    ensures
        s_expr(m, ExprV::Ident(n), fuel) == (match env_lookup(m, n) {
            Option::None => EvalOut::Jump::<Value>(m, JumpStmt::Error(EvalError::Name)),
            Option::Some(Value::Func(h)) => EvalOut::Jump(
                m,
                JumpStmt::Error(EvalError::InvalidExpression),
            ),
            Option::Some(v) => EvalOut::Done(m, v),
        }),
{
    reveal_with_fuel(s_expr, 1);
}

#[verifier::spinoff_prover]
#[verifier::rlimit(30)]
proof fn lemma_s_expr_prefix(m: EnvM, kind: PrefixOpKind, be: ExprV, fuel: nat)
    ensures
        s_expr(m, ExprV::Prefix(kind, Box::new(be)), fuel) == (match kind {
            PrefixOpKind::Pos => match s_expr(m, be, fuel) {
                EvalOut::Done(m1, Value::Int(i)) => EvalOut::Done(m1, Value::Int(i)),
                EvalOut::Done(m1, _) => EvalOut::Jump(m1, JumpStmt::Error(EvalError::Type)),
                EvalOut::Jump(m1, j) => EvalOut::Jump(m1, j),
                EvalOut::Spent => EvalOut::Spent::<Value>,
            },
            PrefixOpKind::Neg => if be == ExprV::Lit(LitV::Int(MAX_ABS_INT)) {
                EvalOut::Done(m, Value::Int(i64::MIN))
            } else {
                match s_expr(m, be, fuel) {
                    EvalOut::Done(m1, Value::Int(i)) => if i == i64::MIN {
                        EvalOut::Jump(m1, JumpStmt::Error(EvalError::OutOfRange))
                    } else {
                        EvalOut::Done(m1, Value::Int((-(i as int)) as i64))
                    },
                    EvalOut::Done(m1, _) => EvalOut::Jump(m1, JumpStmt::Error(EvalError::Type)),
                    EvalOut::Jump(m1, j) => EvalOut::Jump(m1, j),
                    EvalOut::Spent => EvalOut::Spent::<Value>,
                }
            },
            PrefixOpKind::Not => match s_expr(m, be, fuel) {
                EvalOut::Done(m1, Value::Bool(b)) => EvalOut::Done(m1, Value::Bool(!b)),
                EvalOut::Done(m1, _) => EvalOut::Jump(m1, JumpStmt::Error(EvalError::Type)),
                EvalOut::Jump(m1, j) => EvalOut::Jump(m1, j),
                EvalOut::Spent => EvalOut::Spent::<Value>,
            },
        }),
{
    reveal_with_fuel(s_expr, 1);
}

#[verifier::spinoff_prover]
#[verifier::rlimit(30)]
proof fn lemma_s_expr_infix(m: EnvM, kind: InfixOpKind, le: ExprV, re: ExprV, fuel: nat)
    ensures
        s_expr(m, ExprV::Infix(kind, Box::new(le), Box::new(re)), fuel) == (match kind {
            InfixOpKind::Assign => match le {
                ExprV::Ident(n) => match s_expr(m, re, fuel) {
                    EvalOut::Done(m1, v) => match env_assign(m1, n, v) {
                        Option::Some(m2) => EvalOut::Done(m2, v),
                        Option::None => EvalOut::Jump(m1, JumpStmt::Error(EvalError::Name)),
                    },
                    EvalOut::Jump(m1, j) => EvalOut::Jump(m1, j),
                    EvalOut::Spent => EvalOut::Spent::<Value>,
                },
                _ => EvalOut::Jump(m, JumpStmt::Error(EvalError::Type)),
            },
            InfixOpKind::And => match s_expr(m, le, fuel) {
                EvalOut::Done(m1, Value::Bool(false)) => EvalOut::Done(m1, Value::Bool(false)),
                EvalOut::Done(m1, Value::Bool(true)) => match s_expr(m1, re, fuel) {
                    EvalOut::Done(m2, Value::Bool(b)) => EvalOut::Done(m2, Value::Bool(b)),
                    EvalOut::Done(m2, _) => EvalOut::Jump(m2, JumpStmt::Error(EvalError::Type)),
                    EvalOut::Jump(m2, j) => EvalOut::Jump(m2, j),
                    EvalOut::Spent => EvalOut::Spent::<Value>,
                },
                EvalOut::Done(m1, _) => EvalOut::Jump(m1, JumpStmt::Error(EvalError::Type)),
                EvalOut::Jump(m1, j) => EvalOut::Jump(m1, j),
                EvalOut::Spent => EvalOut::Spent::<Value>,
            },
            InfixOpKind::Or => match s_expr(m, le, fuel) {
                EvalOut::Done(m1, Value::Bool(true)) => EvalOut::Done(m1, Value::Bool(true)),
                EvalOut::Done(m1, Value::Bool(false)) => match s_expr(m1, re, fuel) {
                    EvalOut::Done(m2, Value::Bool(b)) => EvalOut::Done(m2, Value::Bool(b)),
                    EvalOut::Done(m2, _) => EvalOut::Jump(m2, JumpStmt::Error(EvalError::Type)),
                    EvalOut::Jump(m2, j) => EvalOut::Jump(m2, j),
                    EvalOut::Spent => EvalOut::Spent::<Value>,
                },
                EvalOut::Done(m1, _) => EvalOut::Jump(m1, JumpStmt::Error(EvalError::Type)),
                EvalOut::Jump(m1, j) => EvalOut::Jump(m1, j),
                EvalOut::Spent => EvalOut::Spent::<Value>,
            },
            _ => match s_expr(m, le, fuel) {
                EvalOut::Done(m1, v1) => match s_expr(m1, re, fuel) {
                    EvalOut::Done(m2, v2) => s_binop(m2, kind, v1, v2, fuel),
                    EvalOut::Jump(m2, j) => EvalOut::Jump(m2, j),
                    EvalOut::Spent => EvalOut::Spent::<Value>,
                },
                EvalOut::Jump(m1, j) => EvalOut::Jump(m1, j),
                EvalOut::Spent => EvalOut::Spent::<Value>,
            },
        }),
{
    reveal_with_fuel(s_expr, 1);
}

#[verifier::spinoff_prover]
#[verifier::rlimit(30)]
/// The index case: note the array-literal base short-circuit, under which
/// only the selected element expression is evaluated.
proof fn lemma_s_expr_index(m: EnvM, le: ExprV, ie: ExprV, fuel: nat)
    ensures
        s_expr(m, ExprV::Index(Box::new(le), Box::new(ie)), fuel) == (match s_expr(m, ie, fuel) {
            EvalOut::Done(m1, Value::Int(i)) => if i < 0 {
                EvalOut::Jump(m1, JumpStmt::Error(EvalError::Index))
            } else {
                match le {
                    ExprV::Lit(LitV::Arr(es)) => if i < es.len() {
                        s_expr(m1, es[i as int], fuel)
                    } else {
                        EvalOut::Jump(m1, JumpStmt::Error(EvalError::Index))
                    },
                    _ => match s_expr(m1, le, fuel) {
                        EvalOut::Done(m2, Value::Arr(h)) => if h < m2.arrs.len() {
                            if i < m2.arrs[h as int].len() {
                                EvalOut::Done(m2, m2.arrs[h as int][i as int])
                            } else {
                                EvalOut::Jump(m2, JumpStmt::Error(EvalError::Index))
                            }
                        } else {
                            EvalOut::Jump(m2, JumpStmt::Error(EvalError::Type))
                        },
                        EvalOut::Done(m2, _) => EvalOut::Jump(m2, JumpStmt::Error(EvalError::Type)),
                        EvalOut::Jump(m2, j) => EvalOut::Jump(m2, j),
                        EvalOut::Spent => EvalOut::Spent::<Value>,
                    },
                }
            },
            EvalOut::Done(m1, _) => EvalOut::Jump(m1, JumpStmt::Error(EvalError::Type)),
            EvalOut::Jump(m1, j) => EvalOut::Jump(m1, j),
            EvalOut::Spent => EvalOut::Spent::<Value>,
        }),
{
    reveal_with_fuel(s_expr, 1);
}

#[verifier::spinoff_prover]
#[verifier::rlimit(30)]
proof fn lemma_s_expr_call(m: EnvM, le: ExprV, args: Seq<ExprV>, fuel: nat)
    ensures
        s_expr(m, ExprV::Call(Box::new(le), args), fuel) == (match le {
            ExprV::Ident(n) => s_call(m, n, args, fuel),
            _ => EvalOut::Jump::<Value>(m, JumpStmt::Error(EvalError::Type)),
        }),
{
    reveal_with_fuel(s_expr, 1);
}


// ---------------------------------------------------------------------------
// Laws of the semantics.
// ---------------------------------------------------------------------------

/// Division and modulo fail with ZeroDivision exactly when the divisor is
/// zero; the minimum value divided by negative one overflows and fails as
/// OutOfRange; otherwise they divide truncating toward zero, with the
/// remainder carrying the dividend's sign.
pub proof fn lemma_div_mod_semantics(m: EnvM, a: i64, b: i64, fuel: nat)
    ensures
        s_binop(m, InfixOpKind::Divide, Value::Int(a), Value::Int(b), fuel) == (if b == 0 {
            EvalOut::Jump::<Value>(m, JumpStmt::Error(EvalError::ZeroDivision))
        } else if a == i64::MIN && b == -1 {
            EvalOut::Jump::<Value>(m, JumpStmt::Error(EvalError::OutOfRange))
        } else {
            EvalOut::Done(m, Value::Int(trunc_div_i64(a as int, b as int)))
        }),
        s_binop(m, InfixOpKind::Modulo, Value::Int(a), Value::Int(b), fuel) == (if b == 0 {
            EvalOut::Jump::<Value>(m, JumpStmt::Error(EvalError::ZeroDivision))
        } else if a == i64::MIN && b == -1 {
            EvalOut::Jump::<Value>(m, JumpStmt::Error(EvalError::OutOfRange))
        } else {
            EvalOut::Done(m, Value::Int(trunc_rem_i64(a as int, b as int)))
        }),
        b != 0 && !(a == i64::MIN && b == -1) ==> {
            let q = trunc_div_i64(a as int, b as int) as int;
            let r = trunc_rem_i64(a as int, b as int) as int;
            &&& a == b * q + r
            &&& mag(r) < mag(b as int)
            &&& (r == 0 || (r < 0) == (a < 0))
        },
{
    if b != 0 && !(a == i64::MIN && b == -1) {
        let ma = mag(a as int);
        let mb = mag(b as int);
        let qm = ma / mb;
        let rm = ma % mb;
        assert(ma == mb * qm + rm) by (nonlinear_arith)
            requires
                mb > 0,
                qm == ma / mb,
                rm == ma % mb,
        ;
        assert(0 <= rm < mb);
        assert(qm <= ma) by (nonlinear_arith)
            requires
                mb >= 1,
                ma >= 0,
                qm == ma / mb,
        ;
        assert(qm == MAX_ABS_INT ==> ma == MAX_ABS_INT && mb == 1) by (nonlinear_arith)
            requires
                mb >= 1,
                ma <= MAX_ABS_INT,
                qm == ma / mb,
        ;
        let q = trunc_div_i64(a as int, b as int) as int;
        let r = trunc_rem_i64(a as int, b as int) as int;
        if a >= 0 && b > 0 {
            assert(a == b * q + r) by (nonlinear_arith)
                requires
                    a == mb * qm + rm,
                    b == mb,
                    q == qm,
                    r == rm,
            ;
        } else if a >= 0 && b < 0 {
            assert(a == b * q + r) by (nonlinear_arith)
                requires
                    a == mb * qm + rm,
                    b == -mb,
                    q == -qm,
                    r == rm,
            ;
        } else if a < 0 && b > 0 {
            assert(a == b * q + r) by (nonlinear_arith)
                requires
                    -a == mb * qm + rm,
                    b == mb,
                    q == -qm,
                    r == -rm,
            ;
        } else {
            assert(a == b * q + r) by (nonlinear_arith)
                requires
                    -a == mb * qm + rm,
                    b == -mb,
                    q == qm,
                    r == -rm,
            ;
        }
    }
}

/// Negating the minimum representable integer fails with OutOfRange, except
/// when the operand is the one literal that spells the minimum magnitude,
/// which evaluates to exactly the minimum value.
pub proof fn lemma_negation_round_trip(m: EnvM, e: ExprV, m1: EnvM, fuel: nat)
    ensures
        s_expr(m, ExprV::Prefix(PrefixOpKind::Neg, Box::new(ExprV::Lit(LitV::Int(MAX_ABS_INT)))), fuel)
            == EvalOut::Done(m, Value::Int(i64::MIN)),
        e != ExprV::Lit(LitV::Int(MAX_ABS_INT)) && s_expr(m, e, fuel) == EvalOut::Done(
            m1,
            Value::Int(i64::MIN),
        ) ==> s_expr(m, ExprV::Prefix(PrefixOpKind::Neg, Box::new(e)), fuel) == EvalOut::Jump::<
            Value,
        >(m1, JumpStmt::Error(EvalError::OutOfRange)),
{
    lemma_s_expr_prefix(m, PrefixOpKind::Neg, ExprV::Lit(LitV::Int(MAX_ABS_INT)), fuel);
    lemma_s_expr_prefix(m, PrefixOpKind::Neg, e, fuel);
}

/// A binding made in a freshly opened scope vanishes without trace when that
/// scope closes: the machine is exactly what it was before the block.
pub proof fn lemma_block_scope_discards(m: EnvM, n: Seq<char>, v: Value)
    requires
        env_wf(m),
    ensures
        pop_m(env_declare(push_m(m), n, v)) == m,
{
    let m1 = push_m(m);
    let m2 = env_declare(m1, n, v);
    assert(m2.scopes.drop_last() =~= m.scopes);
    assert(pop_m(m2) =~~= m);
}


/// A literal built of literals alone: array elements are themselves pure
/// literals, and integers stay below the reserved magnitude.
pub open spec fn lit_pure(l: LitV) -> bool
    decreases l,
{
    match l {
        LitV::Int(u) => u < MAX_ABS_INT,
        LitV::Arr(es) => lits_pure(es),
        _ => true,
    }
}

pub open spec fn lits_pure(es: Seq<ExprV>) -> bool
    decreases es,
{
    if es.len() == 0 {
        true
    } else {
        (es[0] is Lit && lit_pure(es[0]->Lit_0)) && lits_pure(es.drop_first())
    }
}

/// The canonical display of a pure literal: keywords, decimal digits, raw
/// string contents, and arrays in brackets with comma-space separators.
pub open spec fn canonical_literal_display(l: LitV) -> Seq<char>
    decreases l,
{
    match l {
        LitV::Bool(b) => render_bool(b),
        LitV::Int(u) => render_int(u as int),
        LitV::Str(sv) => sv,
        LitV::Nil => "none"@,
        LitV::Arr(es) => "["@ + canonical_elements_display(es) + "]"@,
    }
}

pub open spec fn canonical_elements_display(es: Seq<ExprV>) -> Seq<char>
    decreases es,
{
    if es.len() == 0 {
        Seq::empty()
    } else {
        (if es[0] is Lit {
            canonical_literal_display(es[0]->Lit_0)
        } else {
            Seq::empty()
        }) + canonical_tail_display(es.drop_first())
    }
}

pub open spec fn canonical_tail_display(es: Seq<ExprV>) -> Seq<char>
    decreases es,
{
    if es.len() == 0 {
        Seq::empty()
    } else {
        ", "@ + (if es[0] is Lit {
            canonical_literal_display(es[0]->Lit_0)
        } else {
            Seq::empty()
        }) + canonical_tail_display(es.drop_first())
    }
}

/// How many string cells evaluating a pure literal allocates.
pub open spec fn lit_strs(l: LitV) -> nat
    decreases l,
{
    match l {
        LitV::Str(sv) => 1,
        LitV::Arr(es) => lits_strs(es),
        _ => 0,
    }
}

pub open spec fn lits_strs(es: Seq<ExprV>) -> nat
    decreases es,
{
    if es.len() == 0 {
        0nat
    } else {
        (if es[0] is Lit {
            lit_strs(es[0]->Lit_0)
        } else {
            0nat
        }) + lits_strs(es.drop_first())
    }
}

/// How many array cells evaluating a pure literal allocates.
pub open spec fn lit_arrs(l: LitV) -> nat
    decreases l,
{
    match l {
        LitV::Arr(es) => 1 + lits_arrs(es),
        _ => 0,
    }
}

pub open spec fn lits_arrs(es: Seq<ExprV>) -> nat
    decreases es,
{
    if es.len() == 0 {
        0nat
    } else {
        (if es[0] is Lit {
            lit_arrs(es[0]->Lit_0)
        } else {
            0nat
        }) + lits_arrs(es.drop_first())
    }
}

/// Evaluating a pure literal never fails and never spends budget: it only
/// allocates, and the value it yields displays as the literal's canonical
/// form at every sufficient rendering depth.
#[verifier::rlimit(100)]
#[verifier::spinoff_prover]
pub proof fn lemma_lit_eval(m: EnvM, l: LitV, fuel: nat)
    requires
        lit_pure(l),
        m.strs.len() + lit_strs(l) <= usize::MAX,
        m.arrs.len() + lit_arrs(l) <= usize::MAX,
    ensures
        ({
            match s_literal(m, l, fuel) {
                EvalOut::Done(m2, v) => {
                    &&& crate::data::grows_from(m2, m)
                    &&& m2.strs.len() == m.strs.len() + lit_strs(l)
                    &&& m2.arrs.len() == m.arrs.len() + lit_arrs(l)
                    &&& forall|rf: nat|
                        rf >= litv_size(l) ==> #[trigger] s_render(m2, v, rf) == ValOut::Val(
                            canonical_literal_display(l),
                        )
                },
                _ => false,
            }
        }),
    decreases litv_size(l), 0nat,
{
    reveal_with_fuel(s_literal, 1);
    match l {
        LitV::Bool(b) => {
            assert forall|rf: nat| rf >= litv_size(l) implies #[trigger] s_render(m, Value::Bool(b), rf)
                == ValOut::Val(canonical_literal_display(l)) by {}
        },
        LitV::Int(u) => {
            assert forall|rf: nat|
                rf >= litv_size(l) implies #[trigger] s_render(m, Value::Int(u as i64), rf) == ValOut::Val(
                canonical_literal_display(l),
            ) by {}
        },
        LitV::Nil => {
            assert forall|rf: nat| rf >= litv_size(l) implies #[trigger] s_render(m, Value::Nil, rf)
                == ValOut::Val(canonical_literal_display(l)) by {}
        },
        LitV::Str(sv) => {
            let m2 = EnvM { strs: m.strs.push(sv), ..m };
            let h = m.strs.len() as usize;
            assert(m2.strs[h as int] == sv);
            assert forall|rf: nat| rf >= litv_size(l) implies #[trigger] s_render(m2, Value::Str(h), rf)
                == ValOut::Val(canonical_literal_display(l)) by {}
        },
        LitV::Arr(es) => {
            reveal_with_fuel(exprv_size, 2);
            lemma_lits_eval(m, es, fuel);
            match s_exprs(m, es, fuel) {
                EvalOut::Done(m2, vals) => {
                    let m3 = EnvM { arrs: m2.arrs.push(vals), ..m2 };
                    let h = m2.arrs.len() as usize;
                    assert(m3.arrs[h as int] == vals);
                    assert(crate::data::grows_from(m3, m));
                    assert forall|rf: nat|
                        rf >= litv_size(l) implies #[trigger] s_render(m3, Value::Arr(h), rf) == ValOut::Val(
                        canonical_literal_display(l),
                    ) by {
                        assert(litv_size(l) == 1 + exprsv_size(es));
                        assert(s_render_elems(m2, vals, (rf - 1) as nat) == ValOut::Val(
                            canonical_elements_display(es),
                        ));
                        assert(crate::data::grows_from(m3, m2));
                        crate::data::lemma_render_elems_grows(m2, m3, vals, (rf - 1) as nat);
                    }
                },
                _ => {
                    assert(false);
                },
            }
        },
    }
}

#[verifier::rlimit(100)]
#[verifier::spinoff_prover]
pub proof fn lemma_lits_eval(m: EnvM, es: Seq<ExprV>, fuel: nat)
    requires
        lits_pure(es),
        m.strs.len() + lits_strs(es) <= usize::MAX,
        m.arrs.len() + lits_arrs(es) <= usize::MAX,
    ensures
        ({
            match s_exprs(m, es, fuel) {
                EvalOut::Done(m2, vals) => {
                    &&& crate::data::grows_from(m2, m)
                    &&& m2.strs.len() == m.strs.len() + lits_strs(es)
                    &&& m2.arrs.len() == m.arrs.len() + lits_arrs(es)
                    &&& vals.len() == es.len()
                    &&& forall|rf: nat|
                        rf >= exprsv_size(es) ==> #[trigger] s_render_elems(m2, vals, rf) == ValOut::Val(
                            canonical_elements_display(es),
                        )
                    &&& forall|rf: nat|
                        rf >= exprsv_size(es) ==> #[trigger] s_render_tail(m2, vals, rf) == ValOut::Val(
                            canonical_tail_display(es),
                        )
                },
                _ => false,
            }
        }),
    decreases exprsv_size(es), 1nat,
{
    reveal_with_fuel(s_exprs, 1);
    reveal_with_fuel(exprv_size, 2);
    reveal_with_fuel(exprsv_size, 1);
    if es.len() == 0 {
        assert forall|rf: nat|
            rf >= exprsv_size(es) implies #[trigger] s_render_elems(m, Seq::<Value>::empty(), rf)
            == ValOut::Val(canonical_elements_display(es)) by {
            assert(canonical_elements_display(es) =~= Seq::<char>::empty());
        }
        assert forall|rf: nat|
            rf >= exprsv_size(es) implies #[trigger] s_render_tail(m, Seq::<Value>::empty(), rf)
            == ValOut::Val(canonical_tail_display(es)) by {
            assert(canonical_tail_display(es) =~= Seq::<char>::empty());
        }
    } else {
        let l0 = es[0]->Lit_0;
        assert(exprv_size(es[0]) == 1 + litv_size(l0));
        lemma_s_expr_lit(m, l0, fuel);
        lemma_lit_eval(m, l0, fuel);
        match s_literal(m, l0, fuel) {
            EvalOut::Done(m1, v0) => {
                lemma_lits_eval(m1, es.drop_first(), fuel);
                match s_exprs(m1, es.drop_first(), fuel) {
                    EvalOut::Done(m2, vals1) => {
                        let vals = seq![v0] + vals1;
                        assert(s_exprs(m, es, fuel) == EvalOut::Done(m2, vals));
                        assert(crate::data::grows_from(m2, m));
                        assert(vals[0] == v0);
                        assert(vals.drop_first() =~= vals1);
                        assert forall|rf: nat|
                            rf >= exprsv_size(es) implies #[trigger] s_render_elems(m2, vals, rf)
                            == ValOut::Val(canonical_elements_display(es)) by {
                            assert(s_render(m1, v0, rf) == ValOut::Val(
                                canonical_literal_display(l0),
                            ));
                            crate::data::lemma_render_grows(m1, m2, v0, rf);
                            assert(s_render_tail(m2, vals1, rf) == ValOut::Val(
                                canonical_tail_display(es.drop_first()),
                            ));
                        }
                        assert forall|rf: nat|
                            rf >= exprsv_size(es) implies #[trigger] s_render_tail(m2, vals, rf)
                            == ValOut::Val(canonical_tail_display(es)) by {
                            assert(s_render(m1, v0, rf) == ValOut::Val(
                                canonical_literal_display(l0),
                            ));
                            crate::data::lemma_render_grows(m1, m2, v0, rf);
                            assert(s_render_tail(m2, vals1, rf) == ValOut::Val(
                                canonical_tail_display(es.drop_first()),
                            ));
                        }
                    },
                    _ => {
                        assert(false);
                    },
                }
            },
            _ => {
                assert(false);
            },
        }
    }
}

/// A program of pure literal expression-statements.
pub open spec fn stmts_all_literals(ss: Seq<StmtV>) -> bool
    decreases ss,
{
    if ss.len() == 0 {
        true
    } else {
        (ss[0] is Expr && ss[0]->Expr_0 is Lit && lit_pure(ss[0]->Expr_0->Lit_0))
            && stmts_all_literals(ss.drop_first())
    }
}

pub open spec fn stmt_literal(s: StmtV) -> LitV {
    s->Expr_0->Lit_0
}

pub open spec fn stmts_strs(ss: Seq<StmtV>) -> nat
    decreases ss,
{
    if ss.len() == 0 {
        0nat
    } else {
        (if ss[0] is Expr && ss[0]->Expr_0 is Lit {
            lit_strs(stmt_literal(ss[0]))
        } else {
            0nat
        }) + stmts_strs(ss.drop_first())
    }
}

pub open spec fn stmts_arrs(ss: Seq<StmtV>) -> nat
    decreases ss,
{
    if ss.len() == 0 {
        0nat
    } else {
        (if ss[0] is Expr && ss[0]->Expr_0 is Lit {
            lit_arrs(stmt_literal(ss[0]))
        } else {
            0nat
        }) + stmts_arrs(ss.drop_first())
    }
}

/// A program consisting only of pure literal expression-statements succeeds
/// at every budget, and its result — the last statement's value — displays
/// as the last literal's canonical form at every sufficient rendering depth.
#[verifier::rlimit(100)]
#[verifier::spinoff_prover]
pub proof fn lemma_literal_program_display(m: EnvM, ss: Seq<StmtV>, fuel: nat)
    requires
        ss.len() >= 1,
        stmts_all_literals(ss),
        m.strs.len() + stmts_strs(ss) <= usize::MAX,
        m.arrs.len() + stmts_arrs(ss) <= usize::MAX,
    ensures
        ({
            match s_stmts(m, ss, fuel) {
                EvalOut::Done(m2, Option::Some(v)) => forall|rf: nat|
                    rf >= litv_size(stmt_literal(ss.last())) ==> #[trigger] s_render(m2, v, rf)
                        == ValOut::Val(canonical_literal_display(stmt_literal(ss.last()))),
                _ => false,
            }
        }),
    decreases ss.len(),
{
    reveal_with_fuel(s_stmts, 1);
    reveal_with_fuel(s_stmt, 1);
    let l0 = stmt_literal(ss[0]);
    lemma_s_expr_lit(m, l0, fuel);
    lemma_lit_eval(m, l0, fuel);
    match s_literal(m, l0, fuel) {
        EvalOut::Done(m1, v0) => {
            assert(s_stmt(m, ss[0], fuel) == EvalOut::Done(m1, Option::Some(v0)));
            if ss.len() == 1 {
                assert(ss.last() == ss[0]);
            } else {
                lemma_literal_program_display(m1, ss.drop_first(), fuel);
                assert(ss.drop_first().last() == ss.last());
            }
        },
        _ => {
            assert(false);
        },
    }
}

} // verus!
