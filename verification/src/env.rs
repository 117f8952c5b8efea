//! Name resolution across nested lexical scopes, together with the heaps that
//! back the shared mutable string and array values and the table of declared
//! functions. The scopes form a stack: the last scope is the innermost one,
//! and lookup walks it from the inside out.

use vstd::prelude::*;

use crate::ast::stmts_dup;
use crate::data::{builtins_model, new_builtins, Array, FuncM, FuncVal, Value};
use crate::error::EvalError;

verus! {

/// The mathematical content of the whole machine state.
#[verifier::ext_equal]
pub ghost struct EnvM {
    /// Innermost scope last; each scope binds names to values, latest binding last.
    pub scopes: Seq<Seq<(Seq<char>, Value)>>,
    /// The heap of string buffers, addressed by `Value::Str` handles.
    pub strs: Seq<Seq<char>>,
    /// The heap of arrays, addressed by `Value::Arr` handles.
    pub arrs: Seq<Seq<Value>>,
    /// The table of declared functions, addressed by `Value::Func` handles.
    pub funcs: Seq<FuncM>,
    /// The lines that `print` has emitted so far, oldest first.
    pub output: Seq<Seq<char>>,
}

pub open spec fn scope_view(sc: Seq<(String, Value)>) -> Seq<(Seq<char>, Value)> {
    sc.map_values(|p: (String, Value)| (p.0@, p.1))
}

pub struct Env {
    pub scopes: Vec<Vec<(String, Value)>>,
    pub strs: Vec<String>,
    pub arrs: Vec<Array>,
    pub funcs: Vec<FuncVal>,
    pub output: Vec<String>,
}

impl View for Env {
    type V = EnvM;

    open spec fn view(&self) -> EnvM {
        EnvM {
            scopes: self.scopes@.map_values(|sc: Vec<(String, Value)>| scope_view(sc@)),
            strs: self.strs@.map_values(|s: String| s@),
            arrs: self.arrs@.map_values(|a: Array| a.elems@),
            funcs: self.funcs@.map_values(|f: FuncVal| f@),
            output: self.output@.map_values(|s: String| s@),
        }
    }
}

/// The machine always keeps at least the root scope.
pub open spec fn env_wf(m: EnvM) -> bool {
    m.scopes.len() >= 1
}

// ---------------------------------------------------------------------------
// Lookup: local scope first, then each enclosing scope outward.
// ---------------------------------------------------------------------------

pub open spec fn lookup_in_scope(sc: Seq<(Seq<char>, Value)>, name: Seq<char>) -> Option<Value>
    decreases sc.len(),
{
    if sc.len() == 0 {
        Option::None
    } else if sc.last().0 == name {
        Option::Some(sc.last().1)
    } else {
        lookup_in_scope(sc.drop_last(), name)
    }
}

pub open spec fn lookup_scopes(scopes: Seq<Seq<(Seq<char>, Value)>>, name: Seq<char>) -> Option<
    Value,
>
    decreases scopes.len(),
{
    if scopes.len() == 0 {
        Option::None
    } else {
        match lookup_in_scope(scopes.last(), name) {
            Option::Some(v) => Option::Some(v),
            Option::None => lookup_scopes(scopes.drop_last(), name),
        }
    }
}

pub open spec fn env_lookup(m: EnvM, name: Seq<char>) -> Option<Value> {
    lookup_scopes(m.scopes, name)
}

/// Declaration inserts into the innermost scope, shadowing any older binding.
pub open spec fn env_declare(m: EnvM, name: Seq<char>, v: Value) -> EnvM {
    if m.scopes.len() == 0 {
        m
    } else {
        EnvM {
            scopes: m.scopes.update(m.scopes.len() - 1, m.scopes.last().push((name, v))),
            ..m
        }
    }
}

// ---------------------------------------------------------------------------
// Assignment: overwrite the binding in the scope where the name is found,
// never creating a new binding.
// ---------------------------------------------------------------------------

pub open spec fn assign_in_scope(sc: Seq<(Seq<char>, Value)>, name: Seq<char>, v: Value) -> Option<
    Seq<(Seq<char>, Value)>,
>
    decreases sc.len(),
{
    if sc.len() == 0 {
        Option::None
    } else if sc.last().0 == name {
        Option::Some(sc.update(sc.len() - 1, (name, v)))
    } else {
        match assign_in_scope(sc.drop_last(), name, v) {
            Option::Some(sc2) => Option::Some(sc2.push(sc.last())),
            Option::None => Option::None,
        }
    }
}

pub open spec fn assign_scopes(
    scopes: Seq<Seq<(Seq<char>, Value)>>,
    name: Seq<char>,
    v: Value,
) -> Option<Seq<Seq<(Seq<char>, Value)>>>
    decreases scopes.len(),
{
    if scopes.len() == 0 {
        Option::None
    } else {
        match assign_in_scope(scopes.last(), name, v) {
            Option::Some(sc2) => Option::Some(scopes.update(scopes.len() - 1, sc2)),
            Option::None => match assign_scopes(scopes.drop_last(), name, v) {
                Option::Some(rest) => Option::Some(rest.push(scopes.last())),
                Option::None => Option::None,
            },
        }
    }
}

pub open spec fn env_assign(m: EnvM, name: Seq<char>, v: Value) -> Option<EnvM> {
    match assign_scopes(m.scopes, name, v) {
        Option::Some(scopes) => Option::Some(EnvM { scopes, ..m }),
        Option::None => Option::None,
    }
}

// ---------------------------------------------------------------------------
// Facts connecting a scan position to the recursive definitions above.
// ---------------------------------------------------------------------------

proof fn lemma_lookup_in_scope_found(sc: Seq<(Seq<char>, Value)>, name: Seq<char>, j: int)
    requires
        0 <= j < sc.len(),
        sc[j].0 == name,
        forall|k: int| j < k < sc.len() ==> sc[k].0 != name,
    ensures
        lookup_in_scope(sc, name) == Option::Some(sc[j].1),
    decreases sc.len(),
{
    if j < sc.len() - 1 {
        lemma_lookup_in_scope_found(sc.drop_last(), name, j);
    }
}

proof fn lemma_lookup_in_scope_none(sc: Seq<(Seq<char>, Value)>, name: Seq<char>)
    requires
        forall|k: int| 0 <= k < sc.len() ==> sc[k].0 != name,
    ensures
        lookup_in_scope(sc, name) is None,
    decreases sc.len(),
{
    if sc.len() > 0 {
        lemma_lookup_in_scope_none(sc.drop_last(), name);
    }
}

proof fn lemma_lookup_scopes_found(scopes: Seq<Seq<(Seq<char>, Value)>>, name: Seq<char>, i: int)
    requires
        0 <= i < scopes.len(),
        lookup_in_scope(scopes[i], name) is Some,
        forall|k: int| i < k < scopes.len() ==> lookup_in_scope(#[trigger] scopes[k], name) is None,
    ensures
        lookup_scopes(scopes, name) == lookup_in_scope(scopes[i], name),
    decreases scopes.len(),
{
    if i < scopes.len() - 1 {
        lemma_lookup_scopes_found(scopes.drop_last(), name, i);
    }
}

proof fn lemma_lookup_scopes_none(scopes: Seq<Seq<(Seq<char>, Value)>>, name: Seq<char>)
    requires
        forall|k: int| 0 <= k < scopes.len() ==> lookup_in_scope(#[trigger] scopes[k], name) is None,
    ensures
        lookup_scopes(scopes, name) is None,
    decreases scopes.len(),
{
    if scopes.len() > 0 {
        lemma_lookup_scopes_none(scopes.drop_last(), name);
    }
}

proof fn lemma_assign_in_scope_found(sc: Seq<(Seq<char>, Value)>, name: Seq<char>, v: Value, j: int)
    requires
        0 <= j < sc.len(),
        sc[j].0 == name,
        forall|k: int| j < k < sc.len() ==> sc[k].0 != name,
    ensures
        assign_in_scope(sc, name, v) == Option::Some(sc.update(j, (name, v))),
    decreases sc.len(),
{
    if j == sc.len() - 1 {
        assert(sc.update(sc.len() - 1, (name, v)) =~= sc.update(j, (name, v)));
    } else {
        lemma_assign_in_scope_found(sc.drop_last(), name, v, j);
        assert(sc.drop_last().update(j, (name, v)).push(sc.last()) =~= sc.update(j, (name, v)));
    }
}

proof fn lemma_assign_in_scope_none(sc: Seq<(Seq<char>, Value)>, name: Seq<char>, v: Value)
    requires
        forall|k: int| 0 <= k < sc.len() ==> sc[k].0 != name,
    ensures
        assign_in_scope(sc, name, v) is None,
    decreases sc.len(),
{
    if sc.len() > 0 {
        lemma_assign_in_scope_none(sc.drop_last(), name, v);
    }
}

proof fn lemma_assign_scopes_found(
    scopes: Seq<Seq<(Seq<char>, Value)>>,
    name: Seq<char>,
    v: Value,
    i: int,
)
    requires
        0 <= i < scopes.len(),
        assign_in_scope(scopes[i], name, v) is Some,
        forall|k: int|
            i < k < scopes.len() ==> assign_in_scope(#[trigger] scopes[k], name, v) is None,
    ensures
        assign_scopes(scopes, name, v) == Option::Some(
            scopes.update(i, assign_in_scope(scopes[i], name, v)->Some_0),
        ),
    decreases scopes.len(),
{
    let sc2 = assign_in_scope(scopes[i], name, v)->Some_0;
    if i == scopes.len() - 1 {
        assert(scopes.update(scopes.len() - 1, sc2) =~= scopes.update(i, sc2));
    } else {
        lemma_assign_scopes_found(scopes.drop_last(), name, v, i);
        assert(scopes.drop_last().update(i, sc2).push(scopes.last()) =~= scopes.update(i, sc2));
    }
}

proof fn lemma_assign_scopes_none(scopes: Seq<Seq<(Seq<char>, Value)>>, name: Seq<char>, v: Value)
    requires
        forall|k: int|
            0 <= k < scopes.len() ==> assign_in_scope(#[trigger] scopes[k], name, v) is None,
    ensures
        assign_scopes(scopes, name, v) is None,
    decreases scopes.len(),
{
    if scopes.len() > 0 {
        lemma_assign_scopes_none(scopes.drop_last(), name, v);
    }
}

/// Search one scope for the latest binding of `name`.
fn find_in_scope(sc: &Vec<(String, Value)>, name: &String) -> (r: Option<usize>)
    ensures
        match r {
            Option::Some(j) => {
                &&& j < sc@.len()
                &&& sc@[j as int].0@ == name@
                &&& forall|k: int| j < k < sc@.len() ==> sc@[k].0@ != name@
            },
            Option::None => forall|k: int| 0 <= k < sc@.len() ==> sc@[k].0@ != name@,
        },
{
    let mut j: usize = sc.len();
    while j > 0
        invariant
            j <= sc@.len(),
            forall|k: int| j <= k < sc@.len() ==> sc@[k].0@ != name@,
        decreases j,
    {
        j = j - 1;
        if sc[j].0 == *name {
            return Option::Some(j);
        }
    }
    Option::None
}

impl Env {
    /// A fresh machine: one empty root scope, empty heaps, no output.
    pub fn new() -> (r: Env)
        ensures
            r@ == (EnvM {
                scopes: seq![Seq::<(Seq<char>, Value)>::empty()],
                strs: Seq::empty(),
                arrs: Seq::empty(),
                funcs: Seq::empty(),
                output: Seq::empty(),
            }),
            env_wf(r@),
    {
        let mut scopes: Vec<Vec<(String, Value)>> = Vec::new();
        scopes.push(Vec::new());
        let r = Env {
            scopes,
            strs: Vec::new(),
            arrs: Vec::new(),
            funcs: Vec::new(),
            output: Vec::new(),
        };
        proof {
            assert(r@.scopes =~~= seq![Seq::<(Seq<char>, Value)>::empty()]);
            assert(r@.strs =~= Seq::<Seq<char>>::empty());
            assert(r@.arrs =~= Seq::<Seq<Value>>::empty());
            assert(r@.funcs =~= Seq::<FuncM>::empty());
            assert(r@.output =~= Seq::<Seq<char>>::empty());
        }
        r
    }

    /// A fresh machine whose root scope is seeded with the builtin bindings.
    pub fn new_with_builtins() -> (r: Env)
        ensures
            r@ == (EnvM {
                scopes: seq![builtins_model()],
                strs: Seq::empty(),
                arrs: Seq::empty(),
                funcs: Seq::empty(),
                output: Seq::empty(),
            }),
            env_wf(r@),
    {
        let mut scopes: Vec<Vec<(String, Value)>> = Vec::new();
        scopes.push(new_builtins());
        let r = Env {
            scopes,
            strs: Vec::new(),
            arrs: Vec::new(),
            funcs: Vec::new(),
            output: Vec::new(),
        };
        proof {
            assert(r@.scopes =~= seq![builtins_model()]);
            assert(r@.strs =~= Seq::<Seq<char>>::empty());
            assert(r@.arrs =~= Seq::<Seq<Value>>::empty());
            assert(r@.funcs =~= Seq::<FuncM>::empty());
            assert(r@.output =~= Seq::<Seq<char>>::empty());
        }
        r
    }

    /// Open a new innermost scope.
    pub fn push_scope(&mut self)
        ensures
            final(self)@ == (EnvM { scopes: old(self)@.scopes.push(Seq::empty()), ..old(self)@ }),
    {
        self.scopes.push(Vec::new());
        proof {
            assert(self@.scopes =~~= old(self)@.scopes.push(Seq::<(Seq<char>, Value)>::empty()));
        }
    }

    /// Close the innermost scope; the root scope is never removed.
    pub fn pop_scope(&mut self)
        ensures
            final(self)@ == (EnvM {
                scopes: if old(self)@.scopes.len() >= 2 {
                    old(self)@.scopes.drop_last()
                } else {
                    old(self)@.scopes
                },
                ..old(self)@
            }),
    {
        if self.scopes.len() >= 2 {
            let _ = self.scopes.pop();
            proof {
                assert(self@.scopes =~~= old(self)@.scopes.drop_last());
            }
        } else {
            proof {
                assert(self@.scopes =~~= old(self)@.scopes);
            }
        }
    }

    /// Bind `name` in the innermost scope, shadowing any existing binding.
    pub fn set(&mut self, name: String, value: Value)
        requires
            env_wf(old(self)@),
        ensures
            final(self)@ == env_declare(old(self)@, name@, value),
            env_wf(final(self)@),
    {
        let i = self.scopes.len() - 1;
        self.scopes[i].push((name, value));
        proof {
            assert(self@.scopes =~~= env_declare(old(self)@, name@, value).scopes);
        }
    }

    /// `var` declaration: same insertion as `set`, always into the local scope.
    pub fn set_var(&mut self, name: String, value: Value)
        requires
            env_wf(old(self)@),
        ensures
            final(self)@ == env_declare(old(self)@, name@, value),
            env_wf(final(self)@),
    {
        self.set(name, value);
    }

    /// Overwrite an existing binding, searching outward; assignment to a name
    /// that no scope binds fails with a Name error and changes nothing.
    pub fn set_assign(&mut self, name: &str, value: Value) -> (r: Result<(), EvalError>)
        ensures
            match env_assign(old(self)@, name@, value) {
                Option::Some(m2) => r == Ok::<(), EvalError>(()) && final(self)@ == m2,
                Option::None => r == Err::<(), EvalError>(EvalError::Name) && final(self)@ == old(
                    self,
                )@,
            },
    {
        let ghost m0 = self@;
        match self.find_binding(name) {
            Option::Some((i, j)) => {
                let key: String = name.to_owned();
                proof {
                    lemma_assign_in_scope_found(m0.scopes[i as int], name@, value, j as int);
                    assert forall|k: int| i < k < m0.scopes.len() implies assign_in_scope(
                        #[trigger] m0.scopes[k],
                        name@,
                        value,
                    ) is None by {
                        lemma_assign_in_scope_none(m0.scopes[k], name@, value);
                    }
                    lemma_assign_scopes_found(m0.scopes, name@, value, i as int);
                }
                self.scopes[i][j] = (key, value);
                proof {
                    let m2 = env_assign(m0, name@, value)->Some_0;
                    assert(self@.scopes[i as int] =~= m2.scopes[i as int]);
                    assert(self@.scopes =~~= m2.scopes);
                    assert(self@ =~~= m2);
                }
                Ok(())
            },
            Option::None => {
                proof {
                    assert forall|k: int| 0 <= k < m0.scopes.len() implies assign_in_scope(
                        #[trigger] m0.scopes[k],
                        name@,
                        value,
                    ) is None by {
                        lemma_assign_in_scope_none(m0.scopes[k], name@, value);
                    }
                    lemma_assign_scopes_none(m0.scopes, name@, value);
                }
                Err(EvalError::Name)
            },
        }
    }

    /// Locate the binding that lookup or assignment would use: the innermost
    /// scope holding `name`, and the latest binding for it within that scope.
    fn find_binding(&self, name: &str) -> (r: Option<(usize, usize)>)
        ensures
            match r {
                Option::Some((i, j)) => {
                    &&& i < self@.scopes.len()
                    &&& j < self@.scopes[i as int].len()
                    &&& self@.scopes[i as int][j as int].0 == name@
                    &&& forall|k: int|
                        j < k < self@.scopes[i as int].len() ==> self@.scopes[i as int][k].0
                            != name@
                    &&& forall|k: int, j2: int|
                        i < k < self@.scopes.len() && 0 <= j2 < self@.scopes[k].len() ==> (
                        #[trigger] self@.scopes[k][j2]).0 != name@
                },
                Option::None => forall|k: int, j2: int|
                    0 <= k < self@.scopes.len() && 0 <= j2 < self@.scopes[k].len() ==> (
                    #[trigger] self@.scopes[k][j2]).0 != name@,
            },
    {
        let key: String = name.to_owned();
        let ghost m0 = self@;
        let mut i: usize = self.scopes.len();
        while i > 0
            invariant
                i <= self.scopes@.len(),
                self@ == m0,
                key@ == name@,
                forall|k: int, j2: int|
                    i <= k < m0.scopes.len() && 0 <= j2 < m0.scopes[k].len() ==> (
                    #[trigger] m0.scopes[k][j2]).0 != name@,
            decreases i,
        {
            i = i - 1;
            proof {
                assert(forall|k: int|
                    0 <= k < m0.scopes[i as int].len() ==> #[trigger] m0.scopes[i as int][k] == (
                        self.scopes@[i as int]@[k].0@,
                        self.scopes@[i as int]@[k].1,
                    ));
            }
            match find_in_scope(&self.scopes[i], &key) {
                Option::Some(j) => {
                    return Option::Some((i, j));
                },
                Option::None => {},
            }
        }
        Option::None
    }

    /// Resolve `name`: the local scope first, then outward; a name bound in no
    /// scope is a Name error.
    pub fn get(&self, name: &str) -> (r: Result<Value, EvalError>)
        ensures
            match env_lookup(self@, name@) {
                Option::Some(v) => r == Ok::<Value, EvalError>(v),
                Option::None => r == Err::<Value, EvalError>(EvalError::Name),
            },
    {
        let ghost m0 = self@;
        match self.find_binding(name) {
            Option::Some((i, j)) => {
                proof {
                    lemma_lookup_in_scope_found(m0.scopes[i as int], name@, j as int);
                    assert forall|k: int| i < k < m0.scopes.len() implies lookup_in_scope(
                        #[trigger] m0.scopes[k],
                        name@,
                    ) is None by {
                        lemma_lookup_in_scope_none(m0.scopes[k], name@);
                    }
                    lemma_lookup_scopes_found(m0.scopes, name@, i as int);
                    assert(m0.scopes[i as int][j as int].1 == self.scopes@[i as int]@[j as int].1);
                }
                Ok(self.scopes[i][j].1)
            },
            Option::None => {
                proof {
                    assert forall|k: int| 0 <= k < m0.scopes.len() implies lookup_in_scope(
                        #[trigger] m0.scopes[k],
                        name@,
                    ) is None by {
                        lemma_lookup_in_scope_none(m0.scopes[k], name@);
                    }
                    lemma_lookup_scopes_none(m0.scopes, name@);
                }
                Err(EvalError::Name)
            },
        }
    }
}


/// An element-for-element copy of a list of strings.
pub(crate) fn clone_strings(v: &Vec<String>) -> (r: Vec<String>)
    ensures
        r@ == v@,
{
    let mut out: Vec<String> = Vec::new();
    let n = v.len();
    let mut i: usize = 0;
    while i < n
        invariant
            i <= n,
            n == v@.len(),
            out@.len() == i,
            forall|k: int| 0 <= k < i ==> out@[k] == v@[k],
        decreases n - i,
    {
        out.push(v[i].clone());
        i = i + 1;
    }
    proof {
        assert(out@ =~= v@);
    }
    out
}

fn clone_values(v: &Vec<Value>) -> (r: Vec<Value>)
    ensures
        r@ == v@,
{
    let mut out: Vec<Value> = Vec::new();
    let n = v.len();
    let mut i: usize = 0;
    while i < n
        invariant
            i <= n,
            n == v@.len(),
            out@.len() == i,
            forall|k: int| 0 <= k < i ==> out@[k] == v@[k],
        decreases n - i,
    {
        out.push(v[i]);
        i = i + 1;
    }
    proof {
        assert(out@ =~= v@);
    }
    out
}

/// A full copy of the machine: same bindings, same heaps, same output.
pub fn env_dup(env: &Env) -> (r: Env)
    ensures
        r@ == env@,
{
    let mut scopes: Vec<Vec<(String, Value)>> = Vec::new();
    let ns = env.scopes.len();
    let mut i: usize = 0;
    while i < ns
        invariant
            i <= ns,
            ns == env.scopes@.len(),
            scopes@.len() == i,
            forall|k: int|
                0 <= k < i ==> scope_view(#[trigger] scopes@[k]@) == scope_view(env.scopes@[k]@),
        decreases ns - i,
    {
        let row = &env.scopes[i];
        let mut row2: Vec<(String, Value)> = Vec::new();
        let nr = row.len();
        let mut j: usize = 0;
        while j < nr
            invariant
                j <= nr,
                nr == row@.len(),
                row2@.len() == j,
                forall|k: int|
                    0 <= k < j ==> (#[trigger] row2@[k]).0@ == row@[k].0@ && row2@[k].1
                        == row@[k].1,
            decreases nr - j,
        {
            row2.push((row[j].0.clone(), row[j].1));
            j = j + 1;
        }
        proof {
            assert(scope_view(row2@) =~= scope_view(row@));
        }
        scopes.push(row2);
        i = i + 1;
    }
    let strs = clone_strings(&env.strs);
    let mut arrs: Vec<Array> = Vec::new();
    let na = env.arrs.len();
    let mut i2: usize = 0;
    while i2 < na
        invariant
            i2 <= na,
            na == env.arrs@.len(),
            arrs@.len() == i2,
            forall|k: int| 0 <= k < i2 ==> (#[trigger] arrs@[k]).elems@ == env.arrs@[k].elems@,
        decreases na - i2,
    {
        arrs.push(Array { elems: clone_values(&env.arrs[i2].elems) });
        i2 = i2 + 1;
    }
    let mut funcs: Vec<FuncVal> = Vec::new();
    let nf = env.funcs.len();
    let mut i3: usize = 0;
    while i3 < nf
        invariant
            i3 <= nf,
            nf == env.funcs@.len(),
            funcs@.len() == i3,
            forall|k: int| 0 <= k < i3 ==> (#[trigger] funcs@[k])@ == env.funcs@[k]@,
        decreases nf - i3,
    {
        let fv = &env.funcs[i3];
        let f2 = FuncVal { params: clone_strings(&fv.params), body: stmts_dup(&fv.body) };
        proof {
            assert(f2@.params =~= env.funcs@[i3 as int]@.params);
        }
        funcs.push(f2);
        i3 = i3 + 1;
    }
    let output = clone_strings(&env.output);
    let r = Env { scopes, strs, arrs, funcs, output };
    proof {
        assert(r@.scopes =~~= env@.scopes);
        assert(r@.strs =~~= env@.strs);
        assert(r@.arrs =~~= env@.arrs);
        assert(r@.funcs =~~= env@.funcs);
        assert(r@.output =~~= env@.output);
        assert(r@ =~~= env@);
    }
    r
}


/// Redeclaring a name in a scope replaces what lookup sees: after a
/// declaration, the name resolves to the new value.
pub proof fn lemma_redeclare_shadows(m: EnvM, n: Seq<char>, v: Value)
    requires
        env_wf(m),
    ensures
        env_lookup(env_declare(m, n, v), n) == Option::Some(v),
{
    let m2 = env_declare(m, n, v);
    assert(m2.scopes.last() == m.scopes.last().push((n, v)));
    assert(m2.scopes.last().last() == (n, v));
}

} // verus!
