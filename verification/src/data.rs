//! The runtime value model. Strings and arrays have shared mutable ownership:
//! a `Value` holds a handle into the interpreter's heap (see `Env`), so two
//! bindings to the same handle alias the same underlying buffer or sequence.
//! Booleans, integers and the unit value are copied by value.

use vstd::prelude::*;
use vstd::string::StrSliceExecFns;
use vstd::string::StringExecFns;

use crate::ast::{view_stmts, Stmt, StmtV};
use crate::env::{Env, EnvM};
use crate::error::EvalError;
use crate::eval::{out_of, vout_of, EvalOut, JumpStmt, Stop};

verus! {

#[derive(Debug, PartialEq, Eq, Clone, Copy, Structural)]
pub enum Value {
    Bool(bool),
    Int(i64),
    /// A handle into the heap of string buffers.
    Str(usize),
    /// A handle into the heap of arrays.
    Arr(usize),
    Nil,
    /// A handle into the table of declared functions.
    Func(usize),
    Builtin(BuiltinFn),
}

#[derive(Debug, PartialEq, Eq, Clone, Copy, Structural)]
pub enum BuiltinFn {
    Len,
    Push,
    Pop,
    Print,
}

impl BuiltinFn {
    /// Builtins are strictly arity-checked before their arguments are evaluated.
    pub open spec fn spec_arity(self) -> nat {
        match self {
            BuiltinFn::Len => 1,
            BuiltinFn::Push => 2,
            BuiltinFn::Pop => 1,
            BuiltinFn::Print => 1,
        }
    }

    pub fn arity(self) -> (r: usize)
        ensures
            r == self.spec_arity(),
    {
        match self {
            BuiltinFn::Len => 1,
            BuiltinFn::Push => 2,
            BuiltinFn::Pop => 1,
            BuiltinFn::Print => 1,
        }
    }
}

/// One heap cell holding the shared, mutable element sequence of an array.
#[derive(Debug)]
pub struct Array {
    pub elems: Vec<Value>,
}

/// One entry of the function table: the parameter names and the body that a
/// `func` declaration captured. Free variables of the body are not captured;
/// they are resolved through the scope chain at call time.
#[derive(Debug)]
pub struct FuncVal {
    pub params: Vec<String>,
    pub body: Vec<Stmt>,
}

/// The mathematical content of a function table entry.
pub ghost struct FuncM {
    pub params: Seq<Seq<char>>,
    pub body: Seq<StmtV>,
}

impl View for FuncVal {
    type V = FuncM;

    open spec fn view(&self) -> FuncM {
        FuncM {
            params: self.params@.map_values(|s: String| s@),
            body: view_stmts(self.body@),
        }
    }
}

/// The bindings that seed the root scope.
pub open spec fn builtins_model() -> Seq<(Seq<char>, Value)> {
    seq![
        ("len"@, Value::Builtin(BuiltinFn::Len)),
        ("push"@, Value::Builtin(BuiltinFn::Push)),
        ("pop"@, Value::Builtin(BuiltinFn::Pop)),
        ("print"@, Value::Builtin(BuiltinFn::Print)),
    ]
}

pub fn new_builtins() -> (r: Vec<(String, Value)>)
    ensures
        crate::env::scope_view(r@) == builtins_model(),
{
    let mut builtins: Vec<(String, Value)> = Vec::new();
    builtins.push(("len".to_owned(), Value::Builtin(BuiltinFn::Len)));
    builtins.push(("push".to_owned(), Value::Builtin(BuiltinFn::Push)));
    builtins.push(("pop".to_owned(), Value::Builtin(BuiltinFn::Pop)));
    builtins.push(("print".to_owned(), Value::Builtin(BuiltinFn::Print)));
    proof {
        assert(crate::env::scope_view(builtins@) =~= builtins_model());
    }
    builtins
}


// ---------------------------------------------------------------------------
// Display of values.
// ---------------------------------------------------------------------------

/// The outcome of a state-free value operation: a result, a typed failure, or
/// the exhaustion of the step budget (about which nothing further is promised).
pub ghost enum ValOut<T> {
    Val(T),
    Fail(EvalError),
    Spent,
}

pub open spec fn digit_char(d: int) -> char {
    if d == 0 {
        '0'
    } else if d == 1 {
        '1'
    } else if d == 2 {
        '2'
    } else if d == 3 {
        '3'
    } else if d == 4 {
        '4'
    } else if d == 5 {
        '5'
    } else if d == 6 {
        '6'
    } else if d == 7 {
        '7'
    } else if d == 8 {
        '8'
    } else {
        '9'
    }
}

/// The decimal digits of a nonnegative number, most significant first.
pub open spec fn dec_digits(n: int) -> Seq<char>
    decreases n,
{
    if n < 10 {
        seq![digit_char(n)]
    } else {
        dec_digits(n / 10).push(digit_char(n % 10))
    }
}

pub open spec fn render_int(i: int) -> Seq<char> {
    if i < 0 {
        seq!['-'] + dec_digits(-i)
    } else {
        dec_digits(i)
    }
}

pub open spec fn render_bool(b: bool) -> Seq<char> {
    if b {
        "true"@
    } else {
        "false"@
    }
}

/// The canonical display of a value: booleans and the unit value as keywords,
/// integers in decimal, strings as their raw contents, arrays in brackets with
/// comma-space separated elements. Function values have no display (Type
/// failure). The budget bounds the depth of array nesting followed.
pub open spec fn s_render(m: EnvM, v: Value, fuel: nat) -> ValOut<Seq<char>>
    decreases fuel, 0nat, 1nat,
{
    match v {
        Value::Bool(b) => ValOut::Val(render_bool(b)),
        Value::Int(i) => ValOut::Val(render_int(i as int)),
        Value::Str(h) => if h < m.strs.len() {
            ValOut::Val(m.strs[h as int])
        } else {
            ValOut::Fail(EvalError::Type)
        },
        Value::Arr(h) => if h < m.arrs.len() {
            if fuel == 0 {
                ValOut::Spent
            } else {
                match s_render_elems(m, m.arrs[h as int], (fuel - 1) as nat) {
                    ValOut::Val(inner) => ValOut::Val("["@ + inner + "]"@),
                    ValOut::Fail(e) => ValOut::Fail(e),
                    ValOut::Spent => ValOut::Spent,
                }
            }
        } else {
            ValOut::Fail(EvalError::Type)
        },
        Value::Nil => ValOut::Val("none"@),
        Value::Func(h) => ValOut::Fail(EvalError::Type),
        Value::Builtin(b) => ValOut::Fail(EvalError::Type),
    }
}

pub open spec fn s_render_elems(m: EnvM, vs: Seq<Value>, fuel: nat) -> ValOut<Seq<char>>
    decreases fuel, vs.len(), 3nat,
{
    if vs.len() == 0 {
        ValOut::Val(Seq::empty())
    } else {
        match s_render(m, vs[0], fuel) {
            ValOut::Val(s0) => match s_render_tail(m, vs.drop_first(), fuel) {
                ValOut::Val(rest) => ValOut::Val(s0 + rest),
                ValOut::Fail(e) => ValOut::Fail(e),
                ValOut::Spent => ValOut::Spent,
            },
            ValOut::Fail(e) => ValOut::Fail(e),
            ValOut::Spent => ValOut::Spent,
        }
    }
}

pub open spec fn s_render_tail(m: EnvM, vs: Seq<Value>, fuel: nat) -> ValOut<Seq<char>>
    decreases fuel, vs.len(), 2nat,
{
    if vs.len() == 0 {
        ValOut::Val(Seq::empty())
    } else {
        match s_render(m, vs[0], fuel) {
            ValOut::Val(s0) => match s_render_tail(m, vs.drop_first(), fuel) {
                ValOut::Val(rest) => ValOut::Val(", "@ + s0 + rest),
                ValOut::Fail(e) => ValOut::Fail(e),
                ValOut::Spent => ValOut::Spent,
            },
            ValOut::Fail(e) => ValOut::Fail(e),
            ValOut::Spent => ValOut::Spent,
        }
    }
}

// ---------------------------------------------------------------------------
// Structural equality of values.
// ---------------------------------------------------------------------------

/// Equality as the language's `==` sees it: booleans, integers, strings and
/// arrays of matching kinds compare structurally; any other pairing is a Type
/// failure. The budget bounds the depth of array nesting followed.
pub open spec fn s_value_eq(m: EnvM, a: Value, b: Value, fuel: nat) -> ValOut<bool>
    decreases fuel, 0nat, 2nat,
{
    match (a, b) {
        (Value::Bool(x), Value::Bool(y)) => ValOut::Val(x == y),
        (Value::Int(x), Value::Int(y)) => ValOut::Val(x == y),
        (Value::Str(h1), Value::Str(h2)) => if h1 < m.strs.len() && h2 < m.strs.len() {
            ValOut::Val(m.strs[h1 as int] == m.strs[h2 as int])
        } else {
            ValOut::Fail(EvalError::Type)
        },
        (Value::Arr(h1), Value::Arr(h2)) => s_elem_eq(m, a, b, fuel),
        _ => ValOut::Fail(EvalError::Type),
    }
}

/// Equality of values met inside arrays: mismatched kinds are plain inequality
/// there, the unit value equals itself, and builtin or function values compare
/// by identity.
pub open spec fn s_elem_eq(m: EnvM, a: Value, b: Value, fuel: nat) -> ValOut<bool>
    decreases fuel, 0nat, 1nat,
{
    match (a, b) {
        (Value::Bool(x), Value::Bool(y)) => ValOut::Val(x == y),
        (Value::Int(x), Value::Int(y)) => ValOut::Val(x == y),
        (Value::Str(h1), Value::Str(h2)) => if h1 < m.strs.len() && h2 < m.strs.len() {
            ValOut::Val(m.strs[h1 as int] == m.strs[h2 as int])
        } else {
            ValOut::Fail(EvalError::Type)
        },
        (Value::Arr(h1), Value::Arr(h2)) => if h1 < m.arrs.len() && h2 < m.arrs.len() {
            if fuel == 0 {
                ValOut::Spent
            } else if m.arrs[h1 as int].len() != m.arrs[h2 as int].len() {
                ValOut::Val(false)
            } else {
                s_elems_eq(m, m.arrs[h1 as int], m.arrs[h2 as int], (fuel - 1) as nat)
            }
        } else {
            ValOut::Fail(EvalError::Type)
        },
        (Value::Nil, Value::Nil) => ValOut::Val(true),
        (Value::Func(h1), Value::Func(h2)) => ValOut::Val(h1 == h2),
        (Value::Builtin(b1), Value::Builtin(b2)) => ValOut::Val(b1 == b2),
        _ => ValOut::Val(false),
    }
}

pub open spec fn s_elems_eq(m: EnvM, xs: Seq<Value>, ys: Seq<Value>, fuel: nat) -> ValOut<bool>
    decreases fuel, xs.len(), 2nat,
{
    if xs.len() == 0 || ys.len() == 0 {
        ValOut::Val(xs.len() == ys.len())
    } else {
        match s_elem_eq(m, xs[0], ys[0], fuel) {
            ValOut::Val(true) => s_elems_eq(m, xs.drop_first(), ys.drop_first(), fuel),
            ValOut::Val(false) => ValOut::Val(false),
            ValOut::Fail(e) => ValOut::Fail(e),
            ValOut::Spent => ValOut::Spent,
        }
    }
}

// ---------------------------------------------------------------------------
// Executable rendering.
// ---------------------------------------------------------------------------

fn digit_str(d: u64) -> (r: &'static str)
    requires
        d < 10,
    ensures
        r@ == seq![digit_char(d as int)],
{
    let r: &'static str = match d {
        0 => "0",
        1 => "1",
        2 => "2",
        3 => "3",
        4 => "4",
        5 => "5",
        6 => "6",
        7 => "7",
        8 => "8",
        _ => "9",
    };
    proof {
        reveal_strlit("0");
        reveal_strlit("1");
        reveal_strlit("2");
        reveal_strlit("3");
        reveal_strlit("4");
        reveal_strlit("5");
        reveal_strlit("6");
        reveal_strlit("7");
        reveal_strlit("8");
        reveal_strlit("9");
        assert(r@ =~= seq![digit_char(d as int)]);
    }
    r
}

fn u64_to_string(n: u64) -> (r: String)
    ensures
        r@ == dec_digits(n as int),
    decreases n,
{
    if n < 10 {
        digit_str(n).to_owned()
    } else {
        let mut s = u64_to_string(n / 10);
        s.append(digit_str(n % 10));
        s
    }
}

fn i64_to_string(i: i64) -> (r: String)
    ensures
        r@ == render_int(i as int),
{
    if i >= 0 {
        u64_to_string(i as u64)
    } else {
        let mag: u64 = if i == i64::MIN {
            9223372036854775808u64
        } else {
            (-i) as u64
        };
        let mut s = "-".to_owned();
        proof {
            reveal_strlit("-");
            assert("-"@ =~= seq!['-']);
        }
        s.append(u64_to_string(mag).as_str());
        s
    }
}

/// Render one value against the current heap, within the given budget.
pub(crate) fn render_value(env: &Env, v: Value, fuel: u64) -> (r: Result<String, Stop>)
    ensures
        vout_of(match r {
            Ok(s) => Ok::<Seq<char>, Stop>(s@),
            Err(e) => Err(e),
        }) == s_render(env@, v, fuel as nat),
    decreases fuel, 0nat, 1nat,
{
    match v {
        Value::Bool(b) => Ok(if b {
            "true".to_owned()
        } else {
            "false".to_owned()
        }),
        Value::Int(i) => Ok(i64_to_string(i)),
        Value::Str(h) => if h < env.strs.len() {
            Ok(env.strs[h].clone())
        } else {
            Err(Stop::Jump(JumpStmt::Error(EvalError::Type)))
        },
        Value::Arr(h) => if h < env.arrs.len() {
            if fuel == 0 {
                Err(Stop::OutOfSteps)
            } else {
                match render_elems(env, h, fuel - 1) {
                    Ok(inner) => {
                        let mut s = "[".to_owned();
                        s.append(inner.as_str());
                        s.append("]");
                        Ok(s)
                    },
                    Err(e) => Err(e),
                }
            }
        } else {
            Err(Stop::Jump(JumpStmt::Error(EvalError::Type)))
        },
        Value::Nil => Ok("none".to_owned()),
        Value::Func(_) => Err(Stop::Jump(JumpStmt::Error(EvalError::Type))),
        Value::Builtin(_) => Err(Stop::Jump(JumpStmt::Error(EvalError::Type))),
    }
}

/// Render the elements of the array at handle `h`, comma-space separated.
fn render_elems(env: &Env, h: usize, fuel: u64) -> (r: Result<String, Stop>)
    requires
        h < env@.arrs.len(),
    ensures
        vout_of(match r {
            Ok(s) => Ok::<Seq<char>, Stop>(s@),
            Err(e) => Err(e),
        }) == s_render_elems(env@, env@.arrs[h as int], fuel as nat),
    decreases fuel, env@.arrs[h as int].len(), 3nat,
{
    let ghost vs = env@.arrs[h as int];
    let n = env.arrs[h].elems.len();
    let mut out = String::new();
    if n == 0 {
        proof {
            assert(out@ =~= Seq::<char>::empty());
        }
        return Ok(out);
    }
    match render_value(env, env.arrs[h].elems[0], fuel) {
        Ok(s0) => {
            out.append(s0.as_str());
        },
        Err(e) => {
            return Err(e);
        },
    }
    let mut k: usize = 1;
    while k < n
        invariant
            1 <= k <= n,
            n == vs.len(),
            h < env@.arrs.len(),
            vs == env@.arrs[h as int],
            fuel <= u64::MAX,
            match s_render_tail(env@, vs.skip(k as int), fuel as nat) {
                ValOut::Val(rest) => s_render_elems(env@, vs, fuel as nat) == ValOut::Val(
                    out@ + rest,
                ),
                ValOut::Fail(e) => s_render_elems(env@, vs, fuel as nat) == ValOut::Fail::<
                    Seq<char>,
                >(e),
                ValOut::Spent => s_render_elems(env@, vs, fuel as nat) == ValOut::Spent::<
                    Seq<char>,
                >,
            },
        decreases n - k,
    {
        match render_value(env, env.arrs[h].elems[k], fuel) {
            Ok(sk) => {
                let ghost out0 = out@;
                out.append(", ");
                out.append(sk.as_str());
                proof {
                    assert(vs.skip(k as int)[0] == vs[k as int]);
                    assert(vs.skip(k as int).drop_first() =~= vs.skip(k as int + 1));
                    assert(out@ =~= out0 + ", "@ + sk@);
                    assert forall|rest2: Seq<char>| true implies out0 + (", "@ + sk@ + rest2) =~= out@
                        + rest2 by {}
                }
            },
            Err(e) => {
                proof {
                    assert(vs.skip(k as int)[0] == vs[k as int]);
                }
                return Err(e);
            },
        }
        k = k + 1;
    }
    proof {
        assert(vs.skip(n as int) =~= Seq::<Value>::empty());
        assert(out@ + Seq::<char>::empty() =~= out@);
    }
    Ok(out)
}

// ---------------------------------------------------------------------------
// Executable structural equality.
// ---------------------------------------------------------------------------

/// Equality as the language's `==` sees it.
pub(crate) fn value_eq(env: &Env, a: Value, b: Value, fuel: u64) -> (r: Result<bool, Stop>)
    ensures
        vout_of(r) == s_value_eq(env@, a, b, fuel as nat),
        match r {
            Err(Stop::Jump(j)) => j is Error,
            _ => true,
        },
{
    match (a, b) {
        (Value::Bool(x), Value::Bool(y)) => Ok(x == y),
        (Value::Int(x), Value::Int(y)) => Ok(x == y),
        (Value::Str(h1), Value::Str(h2)) => if h1 < env.strs.len() && h2 < env.strs.len() {
            Ok(env.strs[h1] == env.strs[h2])
        } else {
            Err(Stop::Jump(JumpStmt::Error(EvalError::Type)))
        },
        (Value::Arr(_), Value::Arr(_)) => elem_eq(env, a, b, fuel),
        _ => Err(Stop::Jump(JumpStmt::Error(EvalError::Type))),
    }
}

/// Equality of values met inside arrays.
fn elem_eq(env: &Env, a: Value, b: Value, fuel: u64) -> (r: Result<bool, Stop>)
    ensures
        vout_of(r) == s_elem_eq(env@, a, b, fuel as nat),
        match r {
            Err(Stop::Jump(j)) => j is Error,
            _ => true,
        },
    decreases fuel, 0nat, 1nat,
{
    match (a, b) {
        (Value::Bool(x), Value::Bool(y)) => Ok(x == y),
        (Value::Int(x), Value::Int(y)) => Ok(x == y),
        (Value::Str(h1), Value::Str(h2)) => if h1 < env.strs.len() && h2 < env.strs.len() {
            Ok(env.strs[h1] == env.strs[h2])
        } else {
            Err(Stop::Jump(JumpStmt::Error(EvalError::Type)))
        },
        (Value::Arr(h1), Value::Arr(h2)) => if h1 < env.arrs.len() && h2 < env.arrs.len() {
            if fuel == 0 {
                Err(Stop::OutOfSteps)
            } else if env.arrs[h1].elems.len() != env.arrs[h2].elems.len() {
                Ok(false)
            } else {
                elems_eq(env, h1, h2, fuel - 1)
            }
        } else {
            Err(Stop::Jump(JumpStmt::Error(EvalError::Type)))
        },
        (Value::Nil, Value::Nil) => Ok(true),
        (Value::Func(h1), Value::Func(h2)) => Ok(h1 == h2),
        (Value::Builtin(b1), Value::Builtin(b2)) => Ok(b1 == b2),
        _ => Ok(false),
    }
}

/// Pairwise equality of two equally long arrays, by handle.
fn elems_eq(env: &Env, h1: usize, h2: usize, fuel: u64) -> (r: Result<bool, Stop>)
    requires
        h1 < env@.arrs.len(),
        h2 < env@.arrs.len(),
        env@.arrs[h1 as int].len() == env@.arrs[h2 as int].len(),
    ensures
        vout_of(r) == s_elems_eq(env@, env@.arrs[h1 as int], env@.arrs[h2 as int], fuel as nat),
        match r {
            Err(Stop::Jump(j)) => j is Error,
            _ => true,
        },
    decreases fuel, env@.arrs[h1 as int].len(), 3nat,
{
    let ghost xs = env@.arrs[h1 as int];
    let ghost ys = env@.arrs[h2 as int];
    let n = env.arrs[h1].elems.len();
    proof {
        assert(xs.skip(0) =~= xs);
        assert(ys.skip(0) =~= ys);
    }
    let mut k: usize = 0;
    while k < n
        invariant
            k <= n,
            n == xs.len(),
            n == ys.len(),
            h1 < env@.arrs.len(),
            h2 < env@.arrs.len(),
            xs == env@.arrs[h1 as int],
            ys == env@.arrs[h2 as int],
            s_elems_eq(env@, xs.skip(k as int), ys.skip(k as int), fuel as nat) == s_elems_eq(
                env@,
                xs,
                ys,
                fuel as nat,
            ),
        decreases n - k,
    {
        proof {
            assert(xs.skip(k as int)[0] == xs[k as int]);
            assert(ys.skip(k as int)[0] == ys[k as int]);
            assert(xs.skip(k as int).drop_first() =~= xs.skip(k as int + 1));
            assert(ys.skip(k as int).drop_first() =~= ys.skip(k as int + 1));
        }
        match elem_eq(env, env.arrs[h1].elems[k], env.arrs[h2].elems[k], fuel) {
            Ok(true) => {},
            Ok(false) => {
                return Ok(false);
            },
            Err(e) => {
                return Err(e);
            },
        }
        k = k + 1;
    }
    proof {
        assert(xs.skip(n as int) =~= Seq::<Value>::empty());
        assert(ys.skip(n as int) =~= Seq::<Value>::empty());
    }
    Ok(true)
}

// ---------------------------------------------------------------------------
// The builtin functions.
// ---------------------------------------------------------------------------

/// The UTF-8 width of one character: one to four bytes by code point.
pub open spec fn char_utf8_len(c: char) -> nat {
    if (c as u32) < 0x80 {
        1
    } else if (c as u32) < 0x800 {
        2
    } else if (c as u32) < 0x10000 {
        3
    } else {
        4
    }
}

/// The UTF-8 byte length of a character sequence.
pub open spec fn utf8_len(s: Seq<char>) -> nat
    decreases s,
{
    if s.len() == 0 {
        0nat
    } else {
        char_utf8_len(s[0]) + utf8_len(s.drop_first())
    }
}

pub proof fn lemma_utf8_len_push(s: Seq<char>, c: char)
    ensures
        utf8_len(s.push(c)) == utf8_len(s) + char_utf8_len(c),
    decreases s.len(),
{
    reveal_with_fuel(utf8_len, 2);
    if s.len() == 0 {
        assert(s.push(c)[0] == c);
        assert(s.push(c).drop_first() =~= Seq::<char>::empty());
    } else {
        assert(s.push(c)[0] == s[0]);
        assert(s.push(c).drop_first() =~= s.drop_first().push(c));
        lemma_utf8_len_push(s.drop_first(), c);
    }
}

fn char_byte_len(c: char) -> (r: u64)
    ensures
        r == char_utf8_len(c),
        1 <= r <= 4,
{
    let u = c as u32;
    if u < 0x80 {
        1
    } else if u < 0x800 {
        2
    } else if u < 0x10000 {
        3
    } else {
        4
    }
}

/// The UTF-8 byte length of a string, saturated at the largest integer the
/// language can hold.
fn utf8_len_clipped(s: &str) -> (r: u64)
    ensures
        r == clip_len(utf8_len(s@)) as u64,
{
    let n = s.unicode_len();
    let mut total: u64 = 0;
    let mut i: usize = 0;
    proof {
        assert(s@.take(0) =~= Seq::<char>::empty());
    }
    while i < n
        invariant
            i <= n,
            n == s@.len(),
            total == clip_len(utf8_len(s@.take(i as int))) as u64,
        decreases n - i,
    {
        let bl = char_byte_len(s.get_char(i));
        proof {
            assert(s@.take(i as int).push(s@[i as int]) =~= s@.take(i as int + 1));
            lemma_utf8_len_push(s@.take(i as int), s@[i as int]);
        }
        total = if total > (i64::MAX as u64) - bl {
            i64::MAX as u64
        } else {
            total + bl
        };
        i = i + 1;
    }
    proof {
        assert(s@.take(n as int) =~= s@);
    }
    total
}

pub open spec fn clip_len(n: nat) -> i64 {
    if n > i64::MAX {
        i64::MAX
    } else {
        n as i64
    }
}

/// What `len` returns: the UTF-8 byte length of a string or the element
/// count of an array; any other argument is a Type failure.
pub open spec fn s_len(m: EnvM, v: Value) -> Result<Value, EvalError> {
    match v {
        Value::Str(h) => if h < m.strs.len() {
            Ok(Value::Int(clip_len(utf8_len(m.strs[h as int]))))
        } else {
            Err(EvalError::Type)
        },
        Value::Arr(h) => if h < m.arrs.len() {
            Ok(Value::Int(clip_len(m.arrs[h as int].len())))
        } else {
            Err(EvalError::Type)
        },
        _ => Err(EvalError::Type),
    }
}

pub fn momonga_len(env: &Env, args: &Vec<Value>) -> (r: Result<Value, EvalError>)
    requires
        args@.len() == 1,
    ensures
        r == s_len(env@, args@[0]),
{
    match args[0] {
        Value::Str(h) => if h < env.strs.len() {
            let n64 = utf8_len_clipped(env.strs[h].as_str());
            Ok(Value::Int(n64 as i64))
        } else {
            Err(EvalError::Type)
        },
        Value::Arr(h) => if h < env.arrs.len() {
            let n = env.arrs[h].elems.len();
            let len_i: i64 = if (n as u64) > (i64::MAX as u64) {
                i64::MAX
            } else {
                n as i64
            };
            proof {
                assert(n == env@.arrs[h as int].len());
                assert(len_i == clip_len(env@.arrs[h as int].len()));
            }
            Ok(Value::Int(len_i))
        } else {
            Err(EvalError::Type)
        },
        _ => Err(EvalError::Type),
    }
}

/// What `push` does: append the second argument to the array the first
/// argument names, in place, and return that same array.
pub open spec fn s_push(m: EnvM, a0: Value, a1: Value) -> (EnvM, Result<Value, EvalError>) {
    match a0 {
        Value::Arr(h) => if h < m.arrs.len() {
            (
                EnvM { arrs: m.arrs.update(h as int, m.arrs[h as int].push(a1)), ..m },
                Ok(Value::Arr(h)),
            )
        } else {
            (m, Err(EvalError::Type))
        },
        _ => (m, Err(EvalError::Type)),
    }
}

pub fn momonga_push(env: &mut Env, args: &Vec<Value>) -> (r: Result<Value, EvalError>)
    requires
        args@.len() == 2,
    ensures
        (final(env)@, r) == s_push(old(env)@, args@[0], args@[1]),
{
    match args[0] {
        Value::Arr(h) => if h < env.arrs.len() {
            env.arrs[h].elems.push(args[1]);
            proof {
                assert(env@.arrs =~~= s_push(old(env)@, args@[0], args@[1]).0.arrs);
                assert(env@ =~~= s_push(old(env)@, args@[0], args@[1]).0);
            }
            Ok(Value::Arr(h))
        } else {
            Err(EvalError::Type)
        },
        _ => Err(EvalError::Type),
    }
}

/// What `pop` does: remove the last element of the array the first argument
/// names and return it; popping from an empty array is an Index failure.
pub open spec fn s_pop(m: EnvM, a0: Value) -> (EnvM, Result<Value, EvalError>) {
    match a0 {
        Value::Arr(h) => if h < m.arrs.len() {
            if m.arrs[h as int].len() == 0 {
                (m, Err(EvalError::Index))
            } else {
                (
                    EnvM { arrs: m.arrs.update(h as int, m.arrs[h as int].drop_last()), ..m },
                    Ok(m.arrs[h as int].last()),
                )
            }
        } else {
            (m, Err(EvalError::Type))
        },
        _ => (m, Err(EvalError::Type)),
    }
}

pub fn momonga_pop(env: &mut Env, args: &Vec<Value>) -> (r: Result<Value, EvalError>)
    requires
        args@.len() == 1,
    ensures
        (final(env)@, r) == s_pop(old(env)@, args@[0]),
{
    match args[0] {
        Value::Arr(h) => if h < env.arrs.len() {
            match env.arrs[h].elems.pop() {
                Option::Some(v) => {
                    proof {
                        assert(env@.arrs =~~= s_pop(old(env)@, args@[0]).0.arrs);
                        assert(env@ =~~= s_pop(old(env)@, args@[0]).0);
                    }
                    Ok(v)
                },
                Option::None => Err(EvalError::Index),
            }
        } else {
            Err(EvalError::Type)
        },
        _ => Err(EvalError::Type),
    }
}

/// What `print` does: render its argument and append the text to the output
/// log, returning the unit value.
pub open spec fn s_print(m: EnvM, v: Value, fuel: nat) -> EvalOut<Value> {
    match s_render(m, v, fuel) {
        ValOut::Val(s) => EvalOut::Done(EnvM { output: m.output.push(s), ..m }, Value::Nil),
        ValOut::Fail(e) => EvalOut::Jump(m, JumpStmt::Error(e)),
        ValOut::Spent => EvalOut::Spent,
    }
}

pub(crate) fn momonga_print(env: &mut Env, args: &Vec<Value>, fuel: u64) -> (r: Result<
    Value,
    Stop,
>)
    requires
        args@.len() == 1,
    ensures
        out_of(final(env)@, r) == s_print(old(env)@, args@[0], fuel as nat),
        final(env)@.scopes == old(env)@.scopes,
{
    match render_value(env, args[0], fuel) {
        Ok(s) => {
            env.output.push(s);
            proof {
                let m1 = s_print(old(env)@, args@[0], fuel as nat)->Done_0;
                assert(env@.output =~~= m1.output);
                assert(env@ =~~= m1);
            }
            Ok(Value::Nil)
        },
        Err(Stop::Jump(JumpStmt::Error(e))) => Err(Stop::Jump(JumpStmt::Error(e))),
        Err(Stop::Jump(_)) => Err(Stop::Jump(JumpStmt::Error(EvalError::Type))),
        Err(Stop::OutOfSteps) => Err(Stop::OutOfSteps),
    }
}

/// Render a value for display. The budget is regrown until rendering either
/// finishes or fails; a value whose display is undefined (a function or
/// builtin) is a Type failure. A value needing more than the largest budget
/// (deeper than the machine could ever build) is reported as a Type failure
/// as well.
pub fn display_value(env: &Env, v: Value) -> (r: Result<String, EvalError>)
    ensures
        (exists|fuel: nat|
            #[trigger] s_render(env@, v, fuel) == (match r {
                Ok(s) => ValOut::Val(s@),
                Err(e) => ValOut::Fail::<Seq<char>>(e),
            })) || (s_render(env@, v, u64::MAX as nat) is Spent && r == Err::<String, EvalError>(
            EvalError::Type,
        )),
{
    let mut fuel: u64 = 32;
    loop
        invariant
            fuel >= 1,
        decreases u64::MAX - fuel,
    {
        match render_value(env, v, fuel) {
            Ok(s) => {
                proof {
                    assert(s_render(env@, v, fuel as nat) == ValOut::Val(s@));
                }
                return Ok(s);
            },
            Err(Stop::Jump(JumpStmt::Error(e))) => {
                proof {
                    assert(s_render(env@, v, fuel as nat) == ValOut::Fail::<Seq<char>>(e));
                }
                return Err(e);
            },
            Err(Stop::Jump(_)) => {
                proof {
                    assert(s_render(env@, v, fuel as nat) == ValOut::Fail::<Seq<char>>(
                        EvalError::Type,
                    ));
                }
                return Err(EvalError::Type);
            },
            Err(Stop::OutOfSteps) => {
                if fuel == u64::MAX {
                    return Err(EvalError::Type);
                }
                fuel = if fuel > u64::MAX / 2 {
                    u64::MAX
                } else {
                    fuel * 2
                };
            },
        }
    }
}


/// Aliasing: two names bound to the same array handle observe the same
/// mutation. After a push through either name, both still name the same
/// array, which has gained exactly the pushed element at its end.
pub proof fn lemma_push_aliasing(m: EnvM, x: Seq<char>, y: Seq<char>, h: usize, v: Value)
    requires
        crate::env::env_lookup(m, x) == Option::Some(Value::Arr(h)),
        crate::env::env_lookup(m, y) == Option::Some(Value::Arr(h)),
        h < m.arrs.len(),
    ensures
        ({
            let (m2, r) = s_push(m, Value::Arr(h), v);
            &&& r == Ok::<Value, EvalError>(Value::Arr(h))
            &&& crate::env::env_lookup(m2, x) == Option::Some(Value::Arr(h))
            &&& crate::env::env_lookup(m2, y) == Option::Some(Value::Arr(h))
            &&& m2.arrs[h as int] == m.arrs[h as int].push(v)
            &&& m2.arrs.len() == m.arrs.len()
        }),
{
    let (m2, r) = s_push(m, Value::Arr(h), v);
    assert(m2.scopes == m.scopes);
}


/// One machine state grown from another by evaluation steps that only
/// allocate: same scopes, functions and output, and the heaps extended at
/// the end.
pub open spec fn grows_from(m2: EnvM, m1: EnvM) -> bool {
    &&& m2.scopes == m1.scopes
    &&& m2.funcs == m1.funcs
    &&& m2.output == m1.output
    &&& m2.strs.len() >= m1.strs.len()
    &&& forall|i: int| 0 <= i < m1.strs.len() ==> m2.strs[i] == m1.strs[i]
    &&& m2.arrs.len() >= m1.arrs.len()
    &&& forall|i: int| 0 <= i < m1.arrs.len() ==> m2.arrs[i] == m1.arrs[i]
}

/// A successful rendering only reads cells that already exist, so it is
/// unchanged when the heaps grow.
pub proof fn lemma_render_grows(m1: EnvM, m2: EnvM, v: Value, fuel: nat)
    requires
        grows_from(m2, m1),
        s_render(m1, v, fuel) is Val,
    ensures
        s_render(m2, v, fuel) == s_render(m1, v, fuel),
    decreases fuel, 0nat, 1nat,
{
    match v {
        Value::Arr(h) => {
            lemma_render_elems_grows(m1, m2, m1.arrs[h as int], (fuel - 1) as nat);
        },
        _ => {},
    }
}

pub proof fn lemma_render_elems_grows(m1: EnvM, m2: EnvM, vs: Seq<Value>, fuel: nat)
    requires
        grows_from(m2, m1),
        s_render_elems(m1, vs, fuel) is Val,
    ensures
        s_render_elems(m2, vs, fuel) == s_render_elems(m1, vs, fuel),
    decreases fuel, vs.len(), 3nat,
{
    if vs.len() > 0 {
        lemma_render_grows(m1, m2, vs[0], fuel);
        lemma_render_tail_grows(m1, m2, vs.drop_first(), fuel);
    }
}

pub proof fn lemma_render_tail_grows(m1: EnvM, m2: EnvM, vs: Seq<Value>, fuel: nat)
    requires
        grows_from(m2, m1),
        s_render_tail(m1, vs, fuel) is Val,
    ensures
        s_render_tail(m2, vs, fuel) == s_render_tail(m1, vs, fuel),
    decreases fuel, vs.len(), 2nat,
{
    if vs.len() > 0 {
        lemma_render_grows(m1, m2, vs[0], fuel);
        lemma_render_tail_grows(m1, m2, vs.drop_first(), fuel);
    }
}

} // verus!
