use crate::ast::{is_builtin_op, pat_binds, str_eq, FnDef, Name, Pattern, Simp, Expr, Program};
use crate::builtins::{apply_builtin, builtin};
use std::rc::Rc;
use vstd::prelude::*;

verus! {

/// Why an evaluation stopped.
#[derive(Clone, Copy, PartialEq, Eq, Structural, Debug)]
pub enum EvalError {
    /// No arm of a `match` (or the pattern of a `let`) matched the value.
    NoMatch,
    /// A value that is neither a closure nor a built-in was applied.
    NotCallable,
    /// A closure was applied to the wrong number of arguments.
    Arity,
    /// A name was read before its binding was filled.
    Uninitialised,
    /// A name with no binding in scope.
    Unbound,
    /// A built-in operator got operands of the wrong kind or number.
    TypeMismatch,
    /// Integer overflow, or division by zero.
    Arith,
    /// The evaluation used up its budget of function calls.
    OutOfFuel,
}

/// A run-time value.
pub enum Value {
    Int(i64),
    Bool(bool),
    Unit,
    Data(Name, Vec<Value>),
    Closure(Env, Rc<FnDef>),
    BuiltIn(Name),
}

/// An environment: each name refers to a cell of the store. Cells are shared between the
/// environments that capture them, which is how a binding can refer to itself.
pub struct Env {
    pub bindings: Vec<(Name, usize)>,
}

/// The cells that environments refer to; an empty cell is a binding not filled yet.
pub struct Store {
    pub cells: Vec<Option<Value>>,
}

/// The mathematical value of a run-time value.
pub enum Val {
    Int(i64),
    Bool(bool),
    Unit,
    Data(Seq<char>, Seq<Val>),
    Closure(Seq<(Seq<char>, nat)>, FnDef),
    BuiltIn(Seq<char>),
}

pub open spec fn env_view(b: Seq<(Name, usize)>) -> Seq<(Seq<char>, nat)> {
    b.map_values(|p: (Name, usize)| (p.0@, p.1 as nat))
}

impl View for Env {
    type V = Seq<(Seq<char>, nat)>;

    open spec fn view(&self) -> Seq<(Seq<char>, nat)> {
        env_view(self.bindings@)
    }
}

pub open spec fn value_view(v: Value) -> Val
    decreases v,
{
    match v {
        Value::Int(i) => Val::Int(i),
        Value::Bool(b) => Val::Bool(b),
        Value::Unit => Val::Unit,
        Value::Data(c, vs) => Val::Data(c@, vals_view(vs@)),
        Value::Closure(env, f) => Val::Closure(env@, *f),
        Value::BuiltIn(op) => Val::BuiltIn(op@),
    }
}

pub open spec fn vals_view(s: Seq<Value>) -> Seq<Val>
    decreases s,
{
    if s.len() == 0 {
        Seq::empty()
    } else {
        vals_view(s.drop_last()).push(value_view(s.last()))
    }
}

impl View for Value {
    type V = Val;

    open spec fn view(&self) -> Val {
        value_view(*self)
    }
}

pub open spec fn cell_view(c: Option<Value>) -> Option<Val> {
    match c {
        Some(v) => Some(v@),
        None => None,
    }
}

impl View for Store {
    type V = Seq<Option<Val>>;

    open spec fn view(&self) -> Seq<Option<Val>> {
        self.cells@.map_values(|c: Option<Value>| cell_view(c))
    }
}

pub open spec fn res_view(r: Result<Value, EvalError>) -> Result<Val, EvalError> {
    match r {
        Ok(v) => Ok(v@),
        Err(e) => Err(e),
    }
}

pub proof fn lemma_vals_view_index(s: Seq<Value>)
    ensures
        vals_view(s).len() == s.len(),
        forall|j: int| 0 <= j < s.len() ==> #[trigger] vals_view(s)[j] == s[j]@,
    decreases s.len(),
{
    if s.len() > 0 {
        lemma_vals_view_index(s.drop_last());
        assert forall|j: int| 0 <= j < s.len() implies #[trigger] vals_view(s)[j] == s[j]@ by {
            if j < s.len() - 1 {
                assert(s.drop_last()[j] == s[j]);
            }
        }
    }
}

pub proof fn lemma_vals_view_ext(a: Seq<Value>, b: Seq<Value>)
    requires
        a.len() == b.len(),
        forall|j: int| 0 <= j < a.len() ==> (#[trigger] a[j])@ == b[j]@,
    ensures
        vals_view(a) == vals_view(b),
    decreases a.len(),
{
    if a.len() > 0 {
        lemma_vals_view_ext(a.drop_last(), b.drop_last());
    }
}

impl Clone for Env {
    fn clone(&self) -> (r: Env)
        ensures
            r@ == self@,
    {
        let mut b: Vec<(Name, usize)> = Vec::new();
        let mut i: usize = 0;
        while i < self.bindings.len()
            invariant
                i <= self.bindings.len(),
                b.len() == i,
                forall|j: int| 0 <= j < i ==> (#[trigger] b@[j]).0@ == self.bindings@[j].0@ && b@[j].1
                    == self.bindings@[j].1,
            decreases self.bindings.len() - i,
        {
            b.push((self.bindings[i].0.clone(), self.bindings[i].1));
            i += 1;
        }
        let r = Env { bindings: b };
        proof {
            assert(r@ =~= self@);
        }
        r
    }
}

/// Relies on `Rc::clone`: the new pointer refers to the same function definition.
#[verifier::external_body]
fn share(f: &Rc<FnDef>) -> (r: Rc<FnDef>)
    ensures
        *r == **f,
{
    Rc::clone(f)
}

impl Clone for Value {
    fn clone(&self) -> (r: Value)
        ensures
            r@ == self@,
        decreases self,
    {
        match self {
            Value::Int(i) => Value::Int(*i),
            Value::Bool(b) => Value::Bool(*b),
            Value::Unit => Value::Unit,
            Value::Data(c, vs) => {
                let mut out: Vec<Value> = Vec::new();
                let mut i: usize = 0;
                while i < vs.len()
                    invariant
                        *self == Value::Data(*c, *vs),
                        i <= vs.len(),
                        out.len() == i,
                        forall|j: int| 0 <= j < i ==> (#[trigger] out@[j])@ == vs@[j]@,
                    decreases vs.len() - i,
                {
                    proof {
                        assert(decreases_to!(*self => self->Data_1));
                        assert(decreases_to!(*vs => vs@));
                        assert(decreases_to!(vs@ => vs@[i as int]));
                    }
                    out.push(vs[i].clone());
                    i += 1;
                }
                proof {
                    lemma_vals_view_ext(out@, vs@);
                }
                Value::Data(c.clone(), out)
            },
            Value::Closure(env, f) => Value::Closure(env.clone(), share(f)),
            Value::BuiltIn(op) => Value::BuiltIn(op.clone()),
        }
    }
}

/// The cell that `n` refers to: its latest binding.
pub open spec fn lookup_cell(env: Seq<(Seq<char>, nat)>, n: Seq<char>) -> Option<nat>
    decreases env.len(),
{
    if env.len() == 0 {
        None
    } else if env.last().0 == n {
        Some(env.last().1)
    } else {
        lookup_cell(env.drop_last(), n)
    }
}

/// Reading a name: unbound, not filled yet, or its value.
pub open spec fn read(st: Seq<Option<Val>>, env: Seq<(Seq<char>, nat)>, n: Seq<char>) -> Result<Val, EvalError> {
    match lookup_cell(env, n) {
        None => Err(EvalError::Unbound),
        Some(c) => if c < st.len() {
            match st[c as int] {
                Some(v) => Ok(v),
                None => Err(EvalError::Uninitialised),
            }
        } else {
            Err(EvalError::Unbound)
        },
    }
}

pub open spec fn without(s: Seq<Seq<char>>, bound: Seq<Seq<char>>) -> Seq<Seq<char>> {
    s.filter(|n: Seq<char>| !bound.contains(n))
}

pub open spec fn bound_names(p: Pattern) -> Seq<Seq<char>> {
    pat_binds(p).map_values(|b: (Seq<char>, crate::ast::Ty)| b.0)
}

pub open spec fn arg_names(f: FnDef) -> Seq<Seq<char>> {
    f.args@.map_values(|a: (Name, crate::ast::Type)| a.0@)
}

/// The names a simple expression refers to without binding them, in order of occurrence.
pub open spec fn free_simp(s: Simp) -> Seq<Seq<char>>
    decreases s,
{
    match s {
        Simp::FnDef(f) => without(free_simp(*f.body), arg_names(*f)),
        Simp::Match(s0, arms) => free_simp(*s0) + free_arms(arms@),
        Simp::FnCall(l, args) => free_simp(*l) + free_list(args@),
        Simp::Block(e) => free_expr(*e),
        Simp::Ref(n) => seq![n@],
        Simp::Data(_, args) => free_list(args@),
        _ => Seq::empty(),
    }
}

pub open spec fn free_list(ss: Seq<Simp>) -> Seq<Seq<char>>
    decreases ss,
{
    if ss.len() == 0 {
        Seq::empty()
    } else {
        free_simp(ss[0]) + free_list(ss.subrange(1, ss.len() as int))
    }
}

pub open spec fn free_arms(arms: Seq<(Pattern, Simp)>) -> Seq<Seq<char>>
    decreases arms,
{
    if arms.len() == 0 {
        Seq::empty()
    } else {
        without(free_simp(arms[0].1), bound_names(arms[0].0)) + free_arms(
            arms.subrange(1, arms.len() as int),
        )
    }
}

pub open spec fn free_expr(e: Expr) -> Seq<Seq<char>>
    decreases e,
{
    match e {
        Expr::Bind(p, rhs, body) => without(free_simp(rhs) + free_expr(*body), bound_names(p)),
        Expr::Simp(s) => free_simp(s),
    }
}

/// The bindings a closure keeps: the cell of each name, if every name has one.
pub open spec fn capture_m(env: Seq<(Seq<char>, nat)>, names: Seq<Seq<char>>) -> Option<Seq<(Seq<char>, nat)>>
    decreases names.len(),
{
    if names.len() == 0 {
        Some(Seq::empty())
    } else {
        match (lookup_cell(env, names[0]), capture_m(env, names.subrange(1, names.len() as int))) {
            (Some(c), Some(rest)) => Some(seq![(names[0], c)] + rest),
            _ => None,
        }
    }
}

/// Gives each name a new, empty cell.
pub open spec fn reserve_m(env: Seq<(Seq<char>, nat)>, st: Seq<Option<Val>>, names: Seq<Seq<char>>) -> (Seq<(Seq<char>, nat)>, Seq<Option<Val>>)
    decreases names.len(),
{
    if names.len() == 0 {
        (env, st)
    } else {
        reserve_m(env.push((names[0], st.len())), st.push(None), names.subrange(1, names.len() as int))
    }
}

/// Gives each name a new cell holding its value.
pub open spec fn bind_m(env: Seq<(Seq<char>, nat)>, st: Seq<Option<Val>>, bs: Seq<(Seq<char>, Val)>) -> (Seq<(Seq<char>, nat)>, Seq<Option<Val>>)
    decreases bs.len(),
{
    if bs.len() == 0 {
        (env, st)
    } else {
        bind_m(env.push((bs[0].0, st.len())), st.push(Some(bs[0].1)), bs.subrange(1, bs.len() as int))
    }
}

/// Stores each value in the cell its name refers to.
pub open spec fn fill_m(st: Seq<Option<Val>>, env: Seq<(Seq<char>, nat)>, bs: Seq<(Seq<char>, Val)>) -> Seq<Option<Val>>
    decreases bs.len(),
{
    if bs.len() == 0 {
        st
    } else {
        let st1 = match lookup_cell(env, bs[0].0) {
            Some(c) => if c < st.len() {
                st.update(c as int, Some(bs[0].1))
            } else {
                st
            },
            None => st,
        };
        fill_m(st1, env, bs.subrange(1, bs.len() as int))
    }
}

/// Matching a value against a pattern: the bindings it makes, or `None`.
pub open spec fn match_m(p: Pattern, v: Val) -> Option<Seq<(Seq<char>, Val)>>
    decreases p,
{
    match p {
        Pattern::Var(n, _) => Some(seq![(n@, v)]),
        Pattern::Int(k) => if v == Val::Int(k) {
            Some(Seq::empty())
        } else {
            None
        },
        Pattern::Bool(b) => if v == Val::Bool(b) {
            Some(Seq::empty())
        } else {
            None
        },
        Pattern::Data(_, c, ps) => match v {
            Val::Data(c2, vs) => if c2 == c@ && ps.len() == vs.len() {
                match_list_m(ps@, vs)
            } else {
                None
            },
            _ => None,
        },
    }
}

pub open spec fn match_list_m(ps: Seq<Pattern>, vs: Seq<Val>) -> Option<Seq<(Seq<char>, Val)>>
    decreases ps,
{
    if ps.len() == 0 || vs.len() == 0 {
        Some(Seq::empty())
    } else {
        match match_m(ps[0], vs[0]) {
            None => None,
            Some(a) => match match_list_m(ps.subrange(1, ps.len() as int), vs.subrange(1, vs.len() as int)) {
                None => None,
                Some(b) => Some(a + b),
            },
        }
    }
}

pub open spec fn zip_names(names: Seq<Seq<char>>, vs: Seq<Val>) -> Seq<(Seq<char>, Val)> {
    Seq::new(names.len(), |i: int| (names[i], vs[i]))
}

/// Evaluation of a simple expression with a budget of `fuel` nested calls: the result and the
/// store afterwards. Arguments are evaluated left to right.
pub open spec fn eval_simp_m(fuel: nat, st: Seq<Option<Val>>, env: Seq<(Seq<char>, nat)>, s: Simp) -> (Result<Val, EvalError>, Seq<Option<Val>>)
    decreases fuel, s,
{
    match s {
        Simp::Int(n) => (Ok(Val::Int(n)), st),
        Simp::Bool(b) => (Ok(Val::Bool(b)), st),
        Simp::Unit => (Ok(Val::Unit), st),
        Simp::Ref(n) => (read(st, env, n@), st),
        Simp::Block(e) => eval_expr_m(fuel, st, env, *e),
        Simp::FnDef(f) => match capture_m(env, free_simp(s)) {
            Some(cenv) => (Ok(Val::Closure(cenv, *f)), st),
            None => (Err(EvalError::Unbound), st),
        },
        Simp::Data(c, args) => {
            let (r, st1) = eval_list_m(fuel, st, env, args@);
            (
                match r {
                    Ok(vs) => Ok(Val::Data(c@, vs)),
                    Err(e) => Err(e),
                },
                st1,
            )
        },
        Simp::FnCall(l, args) => {
            let (rf, st1) = eval_simp_m(fuel, st, env, *l);
            match rf {
                Err(e) => (Err(e), st1),
                Ok(fv) => {
                    let (ra, st2) = eval_list_m(fuel, st1, env, args@);
                    match ra {
                        Err(e) => (Err(e), st2),
                        Ok(vs) => match fv {
                            Val::BuiltIn(op) => (builtin(op, vs), st2),
                            Val::Closure(cenv, fd) => if fuel == 0 {
                                (Err(EvalError::OutOfFuel), st2)
                            } else if fd.args.len() != vs.len() {
                                (Err(EvalError::Arity), st2)
                            } else {
                                let (env2, st3) = bind_m(cenv, st2, zip_names(arg_names(fd), vs));
                                eval_simp_m((fuel - 1) as nat, st3, env2, *fd.body)
                            },
                            _ => (Err(EvalError::NotCallable), st2),
                        },
                    }
                },
            }
        },
        Simp::Match(s0, arms) => {
            let (r, st1) = eval_simp_m(fuel, st, env, *s0);
            match r {
                Err(e) => (Err(e), st1),
                Ok(v) => eval_arms_m(fuel, st1, env, arms@, v),
            }
        },
    }
}

/// The first arm whose pattern matches is evaluated with its bindings.
pub open spec fn eval_arms_m(fuel: nat, st: Seq<Option<Val>>, env: Seq<(Seq<char>, nat)>, arms: Seq<(Pattern, Simp)>, v: Val) -> (Result<Val, EvalError>, Seq<Option<Val>>)
    decreases fuel, arms,
{
    if arms.len() == 0 {
        (Err(EvalError::NoMatch), st)
    } else {
        match match_m(arms[0].0, v) {
            Some(bs) => {
                let (env2, st2) = bind_m(env, st, bs);
                eval_simp_m(fuel, st2, env2, arms[0].1)
            },
            None => eval_arms_m(fuel, st, env, arms.subrange(1, arms.len() as int), v),
        }
    }
}

pub open spec fn eval_list_m(fuel: nat, st: Seq<Option<Val>>, env: Seq<(Seq<char>, nat)>, ss: Seq<Simp>) -> (Result<Seq<Val>, EvalError>, Seq<Option<Val>>)
    decreases fuel, ss,
{
    if ss.len() == 0 {
        (Ok(Seq::empty()), st)
    } else {
        let (r, st1) = eval_simp_m(fuel, st, env, ss[0]);
        match r {
            Err(e) => (Err(e), st1),
            Ok(v) => {
                let (rs, st2) = eval_list_m(fuel, st1, env, ss.subrange(1, ss.len() as int));
                (
                    match rs {
                        Ok(vs) => Ok(seq![v] + vs),
                        Err(e) => Err(e),
                    },
                    st2,
                )
            },
        }
    }
}

/// A `let` reserves empty cells for the names of its pattern, evaluates its right-hand side in
/// their scope (so a function may refer to itself), and then fills them.
pub open spec fn eval_expr_m(fuel: nat, st: Seq<Option<Val>>, env: Seq<(Seq<char>, nat)>, e: Expr) -> (Result<Val, EvalError>, Seq<Option<Val>>)
    decreases fuel, e,
{
    match e {
        Expr::Simp(s) => eval_simp_m(fuel, st, env, s),
        Expr::Bind(p, rhs, body) => {
            let (env1, st1) = reserve_m(env, st, bound_names(p));
            let (r, st2) = eval_simp_m(fuel, st1, env1, rhs);
            match r {
                Err(e) => (Err(e), st2),
                Ok(v) => match match_m(p, v) {
                    None => (Err(EvalError::NoMatch), st2),
                    Some(bs) => eval_expr_m(fuel, fill_m(st2, env1, bs), env1, *body),
                },
            }
        },
    }
}

pub open spec fn binds_view(v: Seq<(Name, Value)>) -> Seq<(Seq<char>, Val)> {
    v.map_values(|p: (Name, Value)| (p.0@, p.1@))
}

pub open spec fn names_of(v: Seq<Name>) -> Seq<Seq<char>> {
    v.map_values(|n: Name| n@)
}

/// The built-in operators bound at the root, each in its own cell.
pub open spec fn root_bindings() -> Seq<(Seq<char>, Val)> {
    seq![
        ("+"@, Val::BuiltIn("+"@)),
        ("-"@, Val::BuiltIn("-"@)),
        ("*"@, Val::BuiltIn("*"@)),
        ("/"@, Val::BuiltIn("/"@)),
        ("%"@, Val::BuiltIn("%"@)),
        ("~"@, Val::BuiltIn("~"@)),
        ("=="@, Val::BuiltIn("=="@)),
        ("!="@, Val::BuiltIn("!="@)),
        ("<"@, Val::BuiltIn("<"@)),
        (">"@, Val::BuiltIn(">"@)),
        ("<="@, Val::BuiltIn("<="@)),
        (">="@, Val::BuiltIn(">="@)),
        ("&&"@, Val::BuiltIn("&&"@)),
        ("||"@, Val::BuiltIn("||"@)),
        ("!"@, Val::BuiltIn("!"@)),
    ]
}

pub proof fn lemma_bind_m_split(env: Seq<(Seq<char>, nat)>, st: Seq<Option<Val>>, bs: Seq<(Seq<char>, Val)>, k: int)
    requires
        0 <= k < bs.len(),
    ensures
        bind_m(env, st, bs.subrange(k, bs.len() as int)) == bind_m(
            env.push((bs[k].0, st.len())),
            st.push(Some(bs[k].1)),
            bs.subrange(k + 1, bs.len() as int),
        ),
{
    assert(bs.subrange(k, bs.len() as int).subrange(1, bs.len() - k) =~= bs.subrange(k + 1, bs.len() as int));
}

pub open spec fn glue_list(acc: Seq<Val>, x: (Result<Seq<Val>, EvalError>, Seq<Option<Val>>)) -> (Result<Seq<Val>, EvalError>, Seq<Option<Val>>) {
    (
        match x.0 {
            Ok(vs) => Ok(acc + vs),
            Err(e) => Err(e),
        },
        x.1,
    )
}

pub open spec fn list_view(r: Result<Vec<Value>, EvalError>) -> Result<Seq<Val>, EvalError> {
    match r {
        Ok(vs) => Ok(vals_view(vs@)),
        Err(e) => Err(e),
    }
}

pub open spec fn glue_binds(acc: Seq<(Seq<char>, Val)>, x: Option<Seq<(Seq<char>, Val)>>) -> Option<Seq<(Seq<char>, Val)>> {
    match x {
        Some(b) => Some(acc + b),
        None => None,
    }
}

pub open spec fn glue_env(acc: Seq<(Seq<char>, nat)>, x: Option<Seq<(Seq<char>, nat)>>) -> Option<Seq<(Seq<char>, nat)>> {
    match x {
        Some(b) => Some(acc + b),
        None => None,
    }
}

/// What a whole program evaluates to, from the root environment.
pub open spec fn eval_prog_m(fuel: nat, program: Program) -> Result<Val, EvalError> {
    let (env, st) = bind_m(Seq::empty(), Seq::empty(), root_bindings());
    eval_expr_m(fuel, st, env, program.expr->Some_0).0
}

/// Every cell that the environment names exists in a store of `len` cells.
pub open spec fn env_wf(env: Seq<(Seq<char>, nat)>, len: nat) -> bool {
    forall|i: int| 0 <= i < env.len() ==> (#[trigger] env[i]).1 < len
}

/// Binding new cells keeps an environment well formed, and each binding adds one cell.
pub proof fn lemma_bind_m_wf(env: Seq<(Seq<char>, nat)>, st: Seq<Option<Val>>, bs: Seq<(Seq<char>, Val)>)
    requires
        env_wf(env, st.len()),
    ensures
        env_wf(bind_m(env, st, bs).0, bind_m(env, st, bs).1.len()),
        bind_m(env, st, bs).1.len() == st.len() + bs.len(),
    decreases bs.len(),
{
    if bs.len() > 0 {
        let e2 = env.push((bs[0].0, st.len()));
        let s2 = st.push(Some(bs[0].1));
        assert(env_wf(e2, s2.len())) by {
            assert forall|i: int| 0 <= i < e2.len() implies (#[trigger] e2[i]).1 < s2.len() by {
                if i < env.len() {
                    assert(e2[i] == env[i]);
                }
            }
        }
        lemma_bind_m_wf(e2, s2, bs.subrange(1, bs.len() as int));
    }
}

/// The cell that a name refers to is one of the environment's cells.
pub proof fn lemma_lookup_cell_in(env: Seq<(Seq<char>, nat)>, n: Seq<char>)
    ensures
        lookup_cell(env, n) matches Some(c) ==> exists|i: int| 0 <= i < env.len() && (#[trigger] env[i]).1 == c,
    decreases env.len(),
{
    if env.len() > 0 {
        if env.last().0 == n {
            assert(env[env.len() - 1].1 == env.last().1);
        } else {
            lemma_lookup_cell_in(env.drop_last(), n);
            if let Some(c) = lookup_cell(env, n) {
                let i = choose|i: int| 0 <= i < env.drop_last().len() && (#[trigger] env.drop_last()[i]).1 == c;
                assert(env[i] == env.drop_last()[i]);
            }
        }
    }
}

/// What a closure captures names only cells of the environment it was made in.
pub proof fn lemma_capture_wf(env: Seq<(Seq<char>, nat)>, names: Seq<Seq<char>>, len: nat)
    requires
        env_wf(env, len),
    ensures
        capture_m(env, names) matches Some(b) ==> env_wf(b, len),
    decreases names.len(),
{
    if names.len() > 0 {
        lemma_capture_wf(env, names.subrange(1, names.len() as int), len);
        lemma_lookup_cell_in(env, names[0]);
        if let Some(b) = capture_m(env, names) {
            let rest = capture_m(env, names.subrange(1, names.len() as int))->Some_0;
            let c = lookup_cell(env, names[0])->Some_0;
            assert(b == seq![(names[0], c)] + rest);
            let i = choose|i: int| 0 <= i < env.len() && (#[trigger] env[i]).1 == c;
            assert(env[i].1 < len);
            assert forall|j: int| 0 <= j < b.len() implies (#[trigger] b[j]).1 < len by {
                if j > 0 {
                    assert(b[j] == rest[j - 1]);
                }
            }
        }
    }
}

impl Store {
    pub fn new() -> (r: Store)
        ensures
            r@ == Seq::<Option<Val>>::empty(),
    {
        let r = Store { cells: Vec::new() };
        proof {
            assert(r@ =~= Seq::<Option<Val>>::empty());
        }
        r
    }
}

impl Env {
    /// The root environment: every built-in operator, each in a cell of its own.
    pub fn new(store: &mut Store) -> (r: Env)
        ensures
            (r@, final(store)@) == bind_m(Seq::empty(), old(store)@, root_bindings()),
            env_wf(r@, final(store)@.len()),
    {
        let mut env = Env { bindings: Vec::new() };
        proof {
            assert(env@ =~= Seq::<(Seq<char>, nat)>::empty());
        }
        let bs: Vec<(Name, Value)> = vec![
            (Name::new("+"), Value::BuiltIn(Name::new("+"))),
            (Name::new("-"), Value::BuiltIn(Name::new("-"))),
            (Name::new("*"), Value::BuiltIn(Name::new("*"))),
            (Name::new("/"), Value::BuiltIn(Name::new("/"))),
            (Name::new("%"), Value::BuiltIn(Name::new("%"))),
            (Name::new("~"), Value::BuiltIn(Name::new("~"))),
            (Name::new("=="), Value::BuiltIn(Name::new("=="))),
            (Name::new("!="), Value::BuiltIn(Name::new("!="))),
            (Name::new("<"), Value::BuiltIn(Name::new("<"))),
            (Name::new(">"), Value::BuiltIn(Name::new(">"))),
            (Name::new("<="), Value::BuiltIn(Name::new("<="))),
            (Name::new(">="), Value::BuiltIn(Name::new(">="))),
            (Name::new("&&"), Value::BuiltIn(Name::new("&&"))),
            (Name::new("||"), Value::BuiltIn(Name::new("||"))),
            (Name::new("!"), Value::BuiltIn(Name::new("!"))),
        ];
        proof {
            assert(binds_view(bs@) =~= root_bindings());
        }
        proof {
            lemma_bind_m_wf(Seq::empty(), store@, root_bindings());
        }
        env.bind_all(store, bs);
        env
    }

    /// Binds each name to a new cell holding its value.
    pub fn bind_all(&mut self, store: &mut Store, bs: Vec<(Name, Value)>)
        ensures
            (final(self)@, final(store)@) == bind_m(old(self)@, old(store)@, binds_view(bs@)),
    {
        let ghost orig = binds_view(bs@);
        let ghost target = bind_m(self@, store@, orig);
        let mut src = bs;
        let total = src.len();
        let mut k: usize = 0;
        proof {
            assert(orig.subrange(0, orig.len() as int) =~= orig);
        }
        while src.len() > 0
            invariant
                k <= total,
                orig.len() == total,
                binds_view(src@) == orig.subrange(k as int, total as int),
                target == bind_m(self@, store@, orig.subrange(k as int, total as int)),
            decreases src.len(),
        {
            proof {
                assert(src@.len() == total - k);
                assert(binds_view(src@)[0] == orig[k as int]);
                lemma_bind_m_split(self@, store@, orig, k as int);
            }
            let ghost old_src = src@;
            let ghost prev_env = self@;
            let ghost prev_store = store@;
            let (n, v) = src.remove(0);
            proof {
                assert(binds_view(old_src)[0] == (n@, v@));
                assert(binds_view(src@) =~= binds_view(old_src).subrange(1, old_src.len() as int));
            }
            let cell = store.cells.len();
            store.cells.push(Some(v));
            self.bindings.push((n, cell));
            proof {
                assert(self@ =~= prev_env.push((orig[k as int].0, cell as nat)));
                assert(store@ =~= prev_store.push(Some(orig[k as int].1)));
            }
            k += 1;
            proof {
                assert(binds_view(src@) =~= orig.subrange(k as int, total as int));
            }
        }
    }

    fn lookup(&self, n: &Name) -> (r: Option<usize>)
        ensures
            match lookup_cell(self@, n@) {
                Some(c) => r is Some && r->0 as nat == c,
                None => r is None,
            },
    {
        let ghost b = self@;
        let mut i: usize = self.bindings.len();
        proof {
            assert(b.subrange(0, i as int) =~= b);
        }
        while i > 0
            invariant
                i <= self.bindings.len(),
                b == self@,
                lookup_cell(b, n@) == lookup_cell(b.subrange(0, i as int), n@),
            decreases i,
        {
            proof {
                assert(b.subrange(0, i as int).drop_last() =~= b.subrange(0, i as int - 1));
            }
            if self.bindings[i - 1].0 == *n {
                return Some(self.bindings[i - 1].1);
            }
            i -= 1;
        }
        None
    }

    /// The bindings of `names` alone, sharing their cells; `None` if one of them is unbound.
    pub fn capture(&self, names: &Vec<Name>) -> (r: Option<Env>)
        ensures
            r matches Some(e) ==> forall|len: nat| #[trigger] env_wf(self@, len) ==> env_wf(e@, len),
            match capture_m(self@, names_of(names@)) {
                Some(b) => r is Some && r->0@ == b,
                None => r is None,
            },
    {
        let ghost ns = names_of(names@);
        proof {
            assert forall|len: nat| #[trigger] env_wf(self@, len) implies (capture_m(self@, ns) matches Some(b) ==> env_wf(b, len)) by {
                lemma_capture_wf(self@, ns, len);
            }
        }
        let mut out: Vec<(Name, usize)> = Vec::new();
        let mut i: usize = 0;
        proof {
            assert(ns.subrange(0, ns.len() as int) =~= ns);
            assert(env_view(out@) =~= Seq::<(Seq<char>, nat)>::empty());
            match capture_m(self@, ns) {
                Some(t) => {
                    assert(env_view(out@) + t =~= t);
                },
                None => {},
            }
        }
        while i < names.len()
            invariant
                i <= names.len(),
                ns == names_of(names@),
                capture_m(self@, ns) == glue_env(env_view(out@), capture_m(self@, ns.subrange(i as int, ns.len() as int))),
            decreases names.len() - i,
        {
            let ghost rest = ns.subrange(i as int, ns.len() as int);
            proof {
                assert(rest[0] == ns[i as int]);
                assert(ns[i as int] == names@[i as int]@);
                assert(rest.subrange(1, rest.len() as int) =~= ns.subrange(i + 1, ns.len() as int));
            }
            match self.lookup(&names[i]) {
                Some(c) => {
                    let ghost prev = out@;
                    out.push((names[i].clone(), c));
                    proof {
                        assert(lookup_cell(self@, rest[0]) == Some(c as nat));
                        assert(capture_m(self@, rest) == glue_env(
                            seq![(ns[i as int], c as nat)],
                            capture_m(self@, ns.subrange(i + 1, ns.len() as int)),
                        ));
                        assert(env_view(out@) =~= env_view(prev).push((ns[i as int], c as nat)));
                        match capture_m(self@, ns.subrange(i + 1, ns.len() as int)) {
                            Some(t) => {
                                assert(env_view(prev) + (seq![(ns[i as int], c as nat)] + t) =~= env_view(out@) + t);
                            },
                            None => {},
                        }
                    }
                },
                None => {
                    return None;
                },
            }
            i += 1;
        }
        proof {
            assert(ns.subrange(i as int, ns.len() as int) =~= Seq::<Seq<char>>::empty());
            assert(env_view(out@) + Seq::<(Seq<char>, nat)>::empty() =~= env_view(out@));
        }
        Some(Env { bindings: out })
    }

    /// Binds `name` to a new cell holding `value`.
    pub fn bind(self, store: &mut Store, name: Name, value: Value) -> (r: Env)
        ensures
            (r@, final(store)@) == bind_m(self@, old(store)@, seq![(name@, value@)]),
            r@ == self@.push((name@, old(store)@.len())),
            final(store)@ == old(store)@.push(Some(value@)),
            env_wf(self@, old(store)@.len()) ==> env_wf(r@, final(store)@.len()),
    {
        proof {
            let bs = seq![(name@, value@)];
            assert(bs.subrange(1, 1) =~= Seq::<(Seq<char>, Val)>::empty());
            let e2 = self@.push((name@, old(store)@.len()));
            let s2 = old(store)@.push(Some(value@));
            assert(bind_m(e2, s2, Seq::empty()) == (e2, s2));
            if env_wf(self@, old(store)@.len()) {
                lemma_bind_m_wf(self@, old(store)@, bs);
            }
        }
        let mut env = self;
        let bs = vec![(name, value)];
        proof {
            assert(binds_view(bs@) =~= seq![(name@, value@)]);
        }
        env.bind_all(store, bs);
        env
    }

    /// Binds `name` to a new cell left empty, to be filled later.
    pub fn bind_late(self, store: &mut Store, name: Name) -> (r: Env)
        ensures
            (r@, final(store)@) == reserve_m(self@, old(store)@, seq![name@]),
            r@ == self@.push((name@, old(store)@.len())),
            final(store)@ == old(store)@.push(None),
            env_wf(self@, old(store)@.len()) ==> env_wf(r@, final(store)@.len()) && forall|i: int|
                0 <= i < self@.len() ==> (#[trigger] self@[i]).1 != old(store)@.len(),
    {
        let mut env = self;
        let cell = store.cells.len();
        store.cells.push(None);
        env.bindings.push((name, cell));
        proof {
            assert(seq![name@].subrange(1, 1) =~= Seq::<Seq<char>>::empty());
            assert(reserve_m(self@.push((name@, cell as nat)), old(store)@.push(None), Seq::empty()) == (
            self@.push((name@, cell as nat)), old(store)@.push(None)));
            assert(env@ =~= self@.push((name@, cell as nat)));
            assert(store@ =~= old(store)@.push(None));
            if env_wf(self@, old(store)@.len()) {
                assert forall|i: int| 0 <= i < env@.len() implies (#[trigger] env@[i]).1 < store@.len() by {
                    if i < self@.len() {
                        assert(env@[i] == self@[i]);
                    }
                }
            }
        }
        env
    }
}

fn read_name(store: &Store, env: &Env, n: &Name) -> (r: Result<Value, EvalError>)
    ensures
        res_view(r) == read(store@, env@, n@),
{
    match env.lookup(n) {
        None => Err(EvalError::Unbound),
        Some(c) => {
            if c < store.cells.len() {
                match &store.cells[c] {
                    Some(v) => Ok(v.clone()),
                    None => Err(EvalError::Uninitialised),
                }
            } else {
                Err(EvalError::Unbound)
            }
        },
    }
}

/// Gives each of `names` a new, empty cell.
fn reserve(env: &mut Env, store: &mut Store, names: &Vec<Name>)
    ensures
        (final(env)@, final(store)@) == reserve_m(old(env)@, old(store)@, names_of(names@)),
{
    let ghost ns = names_of(names@);
    let ghost target = reserve_m(env@, store@, ns);
    let mut i: usize = 0;
    proof {
        assert(ns.subrange(0, ns.len() as int) =~= ns);
    }
    while i < names.len()
        invariant
            i <= names.len(),
            ns == names_of(names@),
            target == reserve_m(env@, store@, ns.subrange(i as int, ns.len() as int)),
        decreases names.len() - i,
    {
        let ghost rest = ns.subrange(i as int, ns.len() as int);
        let ghost prev_env = env@;
        let ghost prev_store = store@;
        proof {
            assert(rest[0] == names@[i as int]@);
            assert(rest.subrange(1, rest.len() as int) =~= ns.subrange(i + 1, ns.len() as int));
        }
        let cell = store.cells.len();
        store.cells.push(None);
        env.bindings.push((names[i].clone(), cell));
        proof {
            assert(env@ =~= prev_env.push((rest[0], prev_store.len())));
            assert(store@ =~= prev_store.push(None));
        }
        i += 1;
    }
}

/// Stores each value in the cell that its name refers to.
fn fill(store: &mut Store, env: &Env, bs: Vec<(Name, Value)>)
    ensures
        final(store)@ == fill_m(old(store)@, env@, binds_view(bs@)),
{
    let ghost orig = binds_view(bs@);
    let ghost target = fill_m(store@, env@, orig);
    let mut src = bs;
    let total = src.len();
    let mut k: usize = 0;
    proof {
        assert(orig.subrange(0, orig.len() as int) =~= orig);
    }
    while src.len() > 0
        invariant
            k <= total,
            orig.len() == total,
            binds_view(src@) == orig.subrange(k as int, total as int),
            target == fill_m(store@, env@, orig.subrange(k as int, total as int)),
        decreases src.len(),
    {
        let ghost rest = orig.subrange(k as int, total as int);
        let ghost old_src = src@;
        let ghost prev_store = store@;
        proof {
            assert(src@.len() == total - k);
            assert(rest.subrange(1, rest.len() as int) =~= orig.subrange(k + 1, total as int));
        }
        let (n, v) = src.remove(0);
        proof {
            assert(binds_view(old_src)[0] == (n@, v@));
            assert(binds_view(src@) =~= binds_view(old_src).subrange(1, old_src.len() as int));
        }
        match env.lookup(&n) {
            Some(c) => {
                if c < store.cells.len() {
                    store.cells.set(c, Some(v));
                    proof {
                        assert(store@ =~= prev_store.update(c as int, Some(rest[0].1)));
                    }
                }
            },
            None => {},
        }
        k += 1;
        proof {
            assert(binds_view(src@) =~= orig.subrange(k as int, total as int));
        }
    }
}

/// The names a pattern binds, left to right.
fn pattern_names(p: &Pattern) -> (r: Vec<Name>)
    ensures
        names_of(r@) == bound_names(*p),
{
    let b = p.bindings();
    let mut r: Vec<Name> = Vec::new();
    let mut i: usize = 0;
    while i < b.len()
        invariant
            i <= b.len(),
            r.len() == i,
            forall|j: int| 0 <= j < i ==> (#[trigger] r@[j])@ == b@[j].0@,
        decreases b.len() - i,
    {
        r.push(b[i].0.clone());
        i += 1;
    }
    proof {
        assert(names_of(r@) =~= bound_names(*p));
    }
    r
}

fn contains_name(v: &Vec<Name>, n: &Name) -> (r: bool)
    ensures
        r == names_of(v@).contains(n@),
{
    let mut i: usize = 0;
    while i < v.len()
        invariant
            i <= v.len(),
            forall|j: int| 0 <= j < i ==> v@[j]@ != n@,
        decreases v.len() - i,
    {
        if v[i] == *n {
            proof {
                assert(names_of(v@)[i as int] == n@);
            }
            return true;
        }
        i += 1;
    }
    proof {
        if names_of(v@).contains(n@) {
            let j = choose|j: int| 0 <= j < names_of(v@).len() && names_of(v@)[j] == n@;
            assert(v@[j]@ == n@);
        }
    }
    false
}

/// Keeps the names that are not in `bound`, in order.
pub(crate) fn remove_bound(v: Vec<Name>, bound: &Vec<Name>) -> (r: Vec<Name>)
    ensures
        names_of(r@) == without(names_of(v@), names_of(bound@)),
{
    let ghost ns = names_of(v@);
    let ghost bs = names_of(bound@);
    let mut r: Vec<Name> = Vec::new();
    let mut i: usize = 0;
    proof {
        reveal(Seq::filter);
        assert(ns.subrange(0, 0) =~= Seq::<Seq<char>>::empty());
        assert(names_of(r@) =~= Seq::<Seq<char>>::empty());
    }
    while i < v.len()
        invariant
            i <= v.len(),
            ns == names_of(v@),
            bs == names_of(bound@),
            names_of(r@) == without(ns.subrange(0, i as int), bs),
        decreases v.len() - i,
    {
        let ghost prev = r@;
        proof {
            reveal(Seq::filter);
            assert(ns.subrange(0, i as int + 1).drop_last() =~= ns.subrange(0, i as int));
            assert(ns[i as int] == v@[i as int]@);
        }
        if !contains_name(bound, &v[i]) {
            r.push(v[i].clone());
            proof {
                assert(names_of(r@) =~= names_of(prev).push(ns[i as int]));
            }
        }
        i += 1;
    }
    proof {
        assert(ns.subrange(0, i as int) =~= ns);
    }
    r
}

pub(crate) fn append_names(a: Vec<Name>, b: Vec<Name>) -> (r: Vec<Name>)
    ensures
        names_of(r@) == names_of(a@) + names_of(b@),
{
    let mut r = a;
    let mut b = b;
    let ghost ra = r@;
    let ghost bb = b@;
    r.append(&mut b);
    proof {
        assert(names_of(r@) =~= names_of(ra) + names_of(bb));
    }
    r
}

/// The names a simple expression refers to without binding them.
pub fn free_vars_simp(s: &Simp) -> (r: Vec<Name>)
    ensures
        names_of(r@) == free_simp(*s),
    decreases s,
{
    match s {
        Simp::FnDef(f) => {
            let inner = free_vars_simp(&f.body);
            let mut args: Vec<Name> = Vec::new();
            let mut i: usize = 0;
            while i < f.args.len()
                invariant
                    i <= f.args.len(),
                    args.len() == i,
                    forall|j: int| 0 <= j < i ==> (#[trigger] args@[j])@ == f.args@[j].0@,
                decreases f.args.len() - i,
            {
                args.push(f.args[i].0.clone());
                i += 1;
            }
            proof {
                assert(names_of(args@) =~= arg_names(**f));
            }
            remove_bound(inner, &args)
        },
        Simp::Match(s0, arms) => {
            proof {
                assert(decreases_to!(*s => s->Match_1));
                assert(decreases_to!(s->Match_1 => arms@));
            }
            append_names(free_vars_simp(s0), free_vars_arms(arms))
        },
        Simp::FnCall(l, args) => {
            proof {
                assert(decreases_to!(*s => s->FnCall_1));
                assert(decreases_to!(s->FnCall_1 => args@));
            }
            append_names(free_vars_simp(l), free_vars_list(args))
        },
        Simp::Block(e) => free_vars_expr(e),
        Simp::Ref(n) => {
            let r = vec![n.clone()];
            proof {
                assert(names_of(r@) =~= seq![n@]);
            }
            r
        },
        Simp::Data(_, args) => {
            proof {
                assert(decreases_to!(*s => s->Data_1));
                assert(decreases_to!(s->Data_1 => args@));
            }
            free_vars_list(args)
        },
        _ => {
            let r: Vec<Name> = Vec::new();
            proof {
                assert(names_of(r@) =~= Seq::<Seq<char>>::empty());
            }
            r
        },
    }
}

fn free_vars_list(ss: &Vec<Simp>) -> (r: Vec<Name>)
    ensures
        names_of(r@) == free_list(ss@),
    decreases ss@,
{
    let mut r: Vec<Name> = Vec::new();
    let mut i: usize = 0;
    proof {
        assert(ss@.subrange(0, ss@.len() as int) =~= ss@);
        assert(names_of(r@) + free_list(ss@) =~= free_list(ss@));
    }
    while i < ss.len()
        invariant
            i <= ss.len(),
            free_list(ss@) == names_of(r@) + free_list(ss@.subrange(i as int, ss@.len() as int)),
        decreases ss.len() - i,
    {
        let ghost rest = ss@.subrange(i as int, ss@.len() as int);
        proof {
            assert(rest[0] == ss@[i as int]);
            assert(rest.subrange(1, rest.len() as int) =~= ss@.subrange(i + 1, ss@.len() as int));
        }
        let ghost prev = r@;
        let f = free_vars_simp(&ss[i]);
        r = append_names(r, f);
        proof {
            assert(names_of(prev) + free_list(rest) =~= names_of(r@) + free_list(
                ss@.subrange(i + 1, ss@.len() as int),
            ));
        }
        i += 1;
    }
    proof {
        assert(names_of(r@) + free_list(ss@.subrange(i as int, ss@.len() as int)) =~= names_of(r@));
    }
    r
}

fn free_vars_arms(arms: &Vec<(Pattern, Simp)>) -> (r: Vec<Name>)
    ensures
        names_of(r@) == free_arms(arms@),
    decreases arms@,
{
    let mut r: Vec<Name> = Vec::new();
    let mut i: usize = 0;
    proof {
        assert(arms@.subrange(0, arms@.len() as int) =~= arms@);
        assert(names_of(r@) + free_arms(arms@) =~= free_arms(arms@));
    }
    while i < arms.len()
        invariant
            i <= arms.len(),
            free_arms(arms@) == names_of(r@) + free_arms(arms@.subrange(i as int, arms@.len() as int)),
        decreases arms.len() - i,
    {
        let ghost rest = arms@.subrange(i as int, arms@.len() as int);
        proof {
            assert(rest[0] == arms@[i as int]);
            assert(rest.subrange(1, rest.len() as int) =~= arms@.subrange(i + 1, arms@.len() as int));
            assert(decreases_to!(arms@ => arms@[i as int]));
        }
        let ghost prev = r@;
        let f = free_vars_simp(&arms[i].1);
        let bound = pattern_names(&arms[i].0);
        let f = remove_bound(f, &bound);
        r = append_names(r, f);
        proof {
            assert(names_of(prev) + free_arms(rest) =~= names_of(r@) + free_arms(
                arms@.subrange(i + 1, arms@.len() as int),
            ));
        }
        i += 1;
    }
    proof {
        assert(names_of(r@) + free_arms(arms@.subrange(i as int, arms@.len() as int)) =~= names_of(r@));
    }
    r
}

/// The names an expression refers to without binding them.
pub fn free_vars_expr(e: &Expr) -> (r: Vec<Name>)
    ensures
        names_of(r@) == free_expr(*e),
    decreases e,
{
    match e {
        Expr::Bind(p, rhs, body) => {
            let a = free_vars_simp(rhs);
            let b = free_vars_expr(body);
            let both = append_names(a, b);
            let bound = pattern_names(p);
            remove_bound(both, &bound)
        },
        Expr::Simp(s) => free_vars_simp(s),
    }
}

/// Matches a value against a pattern, giving the bindings it makes.
fn match_pat(p: &Pattern, v: &Value) -> (r: Option<Vec<(Name, Value)>>)
    ensures
        match match_m(*p, v@) {
            Some(b) => r is Some && binds_view(r->0@) == b,
            None => r is None,
        },
    decreases p,
{
    match p {
        Pattern::Var(n, _) => {
            let r = vec![(n.clone(), v.clone())];
            proof {
                assert(binds_view(r@) =~= seq![(n@, v@)]);
            }
            Some(r)
        },
        Pattern::Int(k) => {
            match v {
                Value::Int(m) => {
                    if *k == *m {
                        let r: Vec<(Name, Value)> = Vec::new();
                        proof {
                            assert(binds_view(r@) =~= Seq::<(Seq<char>, Val)>::empty());
                        }
                        Some(r)
                    } else {
                        None
                    }
                },
                _ => None,
            }
        },
        Pattern::Bool(b) => {
            match v {
                Value::Bool(c) => {
                    if *b == *c {
                        let r: Vec<(Name, Value)> = Vec::new();
                        proof {
                            assert(binds_view(r@) =~= Seq::<(Seq<char>, Val)>::empty());
                        }
                        Some(r)
                    } else {
                        None
                    }
                },
                _ => None,
            }
        },
        Pattern::Data(_, c, ps) => {
            match v {
                Value::Data(c2, vs) => {
                    proof {
                        lemma_vals_view_index(vs@);
                    }
                    if !(*c2 == *c) || ps.len() != vs.len() {
                        return None;
                    }
                    let ghost vv = vals_view(vs@);
                    proof {
                        lemma_vals_view_index(vs@);
                        assert(ps@.subrange(0, ps@.len() as int) =~= ps@);
                        assert(vv.subrange(0, vv.len() as int) =~= vv);
                    }
                    let mut r: Vec<(Name, Value)> = Vec::new();
                    let mut i: usize = 0;
                    proof {
                        assert(binds_view(r@) =~= Seq::<(Seq<char>, Val)>::empty());
                        match match_list_m(ps@, vv) {
                            Some(t) => {
                                assert(binds_view(r@) + t =~= t);
                            },
                            None => {},
                        }
                    }
                    while i < ps.len()
                        invariant
                            i <= ps.len(),
                            ps.len() == vs.len(),
                            vv == vals_view(vs@),
                            vv.len() == vs@.len(),
                            forall|j: int| 0 <= j < vs@.len() ==> #[trigger] vv[j] == vs@[j]@,
                            *p == Pattern::Data(p->Data_0, *c, *ps),
                            *v == Value::Data(*c2, *vs),
                            c2@ == c@,
                            match_list_m(ps@, vv) == glue_binds(
                                binds_view(r@),
                                match_list_m(ps@.subrange(i as int, ps@.len() as int), vv.subrange(i as int, vv.len() as int)),
                            ),
                        decreases ps.len() - i,
                    {
                        let ghost prest = ps@.subrange(i as int, ps@.len() as int);
                        let ghost vrest = vv.subrange(i as int, vv.len() as int);
                        proof {
                            assert(prest[0] == ps@[i as int]);
                            assert(vrest[0] == vs@[i as int]@);
                            assert(prest.subrange(1, prest.len() as int) =~= ps@.subrange(i + 1, ps@.len() as int));
                            assert(vrest.subrange(1, vrest.len() as int) =~= vv.subrange(i + 1, vv.len() as int));
                            assert(decreases_to!(*p => p->Data_2));
                            assert(decreases_to!(p->Data_2 => ps@));
                            assert(decreases_to!(ps@ => ps@[i as int]));
                        }
                        match match_pat(&ps[i], &vs[i]) {
                            None => {
                                proof {
                                    assert(match_list_m(prest, vrest) is None);
                                }
                                return None;
                            },
                            Some(b) => {
                                let ghost prev = r@;
                                let ghost bb = b@;
                                let mut b = b;
                                r.append(&mut b);
                                proof {
                                    assert(binds_view(r@) =~= binds_view(prev) + binds_view(bb));
                                    match match_list_m(ps@.subrange(i + 1, ps@.len() as int), vv.subrange(i + 1, vv.len() as int)) {
                                        Some(t) => {
                                            assert(binds_view(prev) + (binds_view(bb) + t) =~= binds_view(r@) + t);
                                        },
                                        None => {},
                                    }
                                }
                            },
                        }
                        i += 1;
                    }
                    proof {
                        assert(ps@.subrange(i as int, ps@.len() as int) =~= Seq::<Pattern>::empty());
                        assert(binds_view(r@) + Seq::<(Seq<char>, Val)>::empty() =~= binds_view(r@));
                    }
                    Some(r)
                },
                _ => None,
            }
        },
    }
}

fn eval_simp(fuel: u64, store: &mut Store, env: &Env, s: &Simp) -> (r: Result<Value, EvalError>)
    ensures
        (res_view(r), final(store)@) == eval_simp_m(fuel as nat, old(store)@, env@, *s),
    decreases fuel, s,
{
    match s {
        Simp::Int(n) => Ok(Value::Int(*n)),
        Simp::Bool(b) => Ok(Value::Bool(*b)),
        Simp::Unit => Ok(Value::Unit),
        Simp::Ref(n) => read_name(store, env, n),
        Simp::Block(e) => eval_expr(fuel, store, env, e),
        Simp::FnDef(f) => {
            let free = free_vars_simp(s);
            match env.capture(&free) {
                Some(cenv) => Ok(Value::Closure(cenv, share(f))),
                None => Err(EvalError::Unbound),
            }
        },
        Simp::Data(c, args) => {
            proof {
                assert(decreases_to!(*s => s->Data_1));
                assert(decreases_to!(s->Data_1 => args@));
            }
            match eval_list(fuel, store, env, args) {
                Ok(vs) => Ok(Value::Data(c.clone(), vs)),
                Err(e) => Err(e),
            }
        },
        Simp::FnCall(l, args) => {
            let fv = match eval_simp(fuel, store, env, l) {
                Ok(v) => v,
                Err(e) => {
                    return Err(e);
                },
            };
            proof {
                assert(decreases_to!(*s => s->FnCall_1));
                assert(decreases_to!(s->FnCall_1 => args@));
            }
            let vs = match eval_list(fuel, store, env, args) {
                Ok(vs) => vs,
                Err(e) => {
                    return Err(e);
                },
            };
            match fv {
                Value::BuiltIn(op) => apply_builtin(&op, vs),
                Value::Closure(cenv, fd) => {
                    if fuel == 0 {
                        return Err(EvalError::OutOfFuel);
                    }
                    proof {
                        lemma_vals_view_index(vs@);
                    }
                    if fd.args.len() != vs.len() {
                        return Err(EvalError::Arity);
                    }
                    let ghost vv = vals_view(vs@);
                    let mut bs: Vec<(Name, Value)> = Vec::new();
                    let mut src = vs;
                    let mut i: usize = 0;
                    while i < fd.args.len()
                        invariant
                            i <= fd.args.len(),
                            fd.args.len() == vv.len(),
                            src@.len() == vv.len() - i,
                            forall|j: int| 0 <= j < src@.len() ==> (#[trigger] src@[j])@ == vv[i + j],
                            bs.len() == i,
                            forall|j: int| 0 <= j < i ==> (#[trigger] binds_view(bs@)[j]) == (
                            arg_names(*fd)[j], vv[j]),
                        decreases fd.args.len() - i,
                    {
                        let ghost old_src = src@;
                        let v = src.remove(0);
                        proof {
                            assert(v@ == vv[i as int]);
                            assert forall|j: int| 0 <= j < src@.len() implies (#[trigger] src@[j])@ == vv[i + 1 + j] by {
                                assert(src@[j] == old_src[j + 1]);
                            }
                        }
                        let ghost prev = bs@;
                        proof {
                            assert(forall|j: int| 0 <= j < i ==> (#[trigger] binds_view(prev)[j]) == (
                            arg_names(*fd)[j], vv[j]));
                        }
                        bs.push((fd.args[i].0.clone(), v));
                        proof {
                            assert(arg_names(*fd)[i as int] == fd.args@[i as int].0@);
                            assert(binds_view(bs@)[i as int] == (fd.args@[i as int].0@, vv[i as int]));
                            assert forall|j: int| 0 <= j < i + 1 implies (#[trigger] binds_view(bs@)[j]) == (
                            arg_names(*fd)[j], vv[j]) by {
                                if j < i {
                                    assert(bs@[j] == prev[j]);
                                    assert(binds_view(prev)[j] == binds_view(bs@)[j]);
                                }
                            }
                        }
                        i += 1;
                    }
                    proof {
                        assert(binds_view(bs@) =~= zip_names(arg_names(*fd), vv));
                    }
                    let mut env2 = cenv;
                    env2.bind_all(store, bs);
                    eval_simp(fuel - 1, store, &env2, &fd.body)
                },
                _ => Err(EvalError::NotCallable),
            }
        },
        Simp::Match(s0, arms) => {
            let v = match eval_simp(fuel, store, env, s0) {
                Ok(v) => v,
                Err(e) => {
                    return Err(e);
                },
            };
            proof {
                assert(decreases_to!(*s => s->Match_1));
                assert(decreases_to!(s->Match_1 => arms@));
            }
            eval_arms(fuel, store, env, arms, v)
        },
    }
}

fn eval_list(fuel: u64, store: &mut Store, env: &Env, ss: &Vec<Simp>) -> (r: Result<Vec<Value>, EvalError>)
    ensures
        (list_view(r), final(store)@) == eval_list_m(fuel as nat, old(store)@, env@, ss@),
    decreases fuel, ss@,
{
    let ghost target = eval_list_m(fuel as nat, store@, env@, ss@);
    let mut out: Vec<Value> = Vec::new();
    let mut i: usize = 0;
    proof {
        assert(ss@.subrange(0, ss@.len() as int) =~= ss@);
        assert(vals_view(out@) =~= Seq::<Val>::empty());
        match target.0 {
            Ok(vs) => {
                assert(vals_view(out@) + vs =~= vs);
            },
            Err(_) => {},
        }
    }
    while i < ss.len()
        invariant
            i <= ss.len(),
            target == eval_list_m(fuel as nat, old(store)@, env@, ss@),
            target == glue_list(vals_view(out@), eval_list_m(fuel as nat, store@, env@, ss@.subrange(i as int, ss@.len() as int))),
        decreases ss.len() - i,
    {
        let ghost rest = ss@.subrange(i as int, ss@.len() as int);
        proof {
            assert(rest[0] == ss@[i as int]);
            assert(rest.subrange(1, rest.len() as int) =~= ss@.subrange(i + 1, ss@.len() as int));
            assert(decreases_to!(ss@ => ss@[i as int]));
        }
        match eval_simp(fuel, store, env, &ss[i]) {
            Err(e) => {
                return Err(e);
            },
            Ok(v) => {
                let ghost prev = out@;
                out.push(v);
                proof {
                    assert(out@.drop_last() =~= prev);
                    let tail = eval_list_m(fuel as nat, store@, env@, ss@.subrange(i + 1, ss@.len() as int));
                    match tail.0 {
                        Ok(vs) => {
                            assert(vals_view(prev) + (seq![v@] + vs) =~= vals_view(out@) + vs);
                        },
                        Err(_) => {},
                    }
                }
            },
        }
        i += 1;
    }
    proof {
        assert(ss@.subrange(i as int, ss@.len() as int) =~= Seq::<Simp>::empty());
        assert(vals_view(out@) + Seq::<Val>::empty() =~= vals_view(out@));
    }
    Ok(out)
}

fn eval_arms(fuel: u64, store: &mut Store, env: &Env, arms: &Vec<(Pattern, Simp)>, v: Value) -> (r: Result<Value, EvalError>)
    ensures
        (res_view(r), final(store)@) == eval_arms_m(fuel as nat, old(store)@, env@, arms@, v@),
    decreases fuel, arms@,
{
    let mut i: usize = 0;
    proof {
        assert(arms@.subrange(0, arms@.len() as int) =~= arms@);
    }
    while i < arms.len()
        invariant
            i <= arms.len(),
            store@ == old(store)@,
            eval_arms_m(fuel as nat, store@, env@, arms@, v@) == eval_arms_m(
                fuel as nat,
                store@,
                env@,
                arms@.subrange(i as int, arms@.len() as int),
                v@,
            ),
        decreases arms.len() - i,
    {
        let ghost rest = arms@.subrange(i as int, arms@.len() as int);
        proof {
            assert(rest[0] == arms@[i as int]);
            assert(rest.subrange(1, rest.len() as int) =~= arms@.subrange(i + 1, arms@.len() as int));
            assert(decreases_to!(arms@ => arms@[i as int]));
        }
        match match_pat(&arms[i].0, &v) {
            Some(bs) => {
                let mut env2 = env.clone();
                env2.bind_all(store, bs);
                return eval_simp(fuel, store, &env2, &arms[i].1);
            },
            None => {},
        }
        i += 1;
    }
    Err(EvalError::NoMatch)
}

fn eval_expr(fuel: u64, store: &mut Store, env: &Env, e: &Expr) -> (r: Result<Value, EvalError>)
    ensures
        (res_view(r), final(store)@) == eval_expr_m(fuel as nat, old(store)@, env@, *e),
    decreases fuel, e,
{
    match e {
        Expr::Simp(s) => eval_simp(fuel, store, env, s),
        Expr::Bind(p, rhs, body) => {
            let names = pattern_names(p);
            let mut env1 = env.clone();
            reserve(&mut env1, store, &names);
            let v = match eval_simp(fuel, store, &env1, rhs) {
                Ok(v) => v,
                Err(e) => {
                    return Err(e);
                },
            };
            match match_pat(p, &v) {
                None => Err(EvalError::NoMatch),
                Some(bs) => {
                    fill(store, &env1, bs);
                    eval_expr(fuel, store, &env1, body)
                },
            }
        },
    }
}

/// Evaluates a program from the root environment, allowing at most `fuel` nested calls of
/// user functions.
pub fn eval_prog(program: &Program, fuel: u64) -> (r: Result<Value, EvalError>)
    requires
        program.expr is Some,
    ensures
        res_view(r) == eval_prog_m(fuel as nat, *program),
{
    let mut store = Store::new();
    let env = Env::new(&mut store);
    match &program.expr {
        Some(e) => eval_expr(fuel, &mut store, &env, e),
        None => Err(EvalError::NoMatch),
    }
}

/// The decimal spelling of an integer, with a leading `-` when it is negative.
pub open spec fn int_text(i: i64) -> Seq<char> {
    if i < 0 {
        "-"@ + crate::ast::dec((-i) as nat)
    } else {
        crate::ast::dec(i as nat)
    }
}

/// How a value is written: integers in decimal, `true` and `false`, `()` for unit, and a
/// constructor with its fields as `C(v1, v2)`.
pub open spec fn text(v: Val) -> Seq<char>
    decreases v,
{
    match v {
        Val::Int(i) => int_text(i),
        Val::Bool(b) => if b {
            "true"@
        } else {
            "false"@
        },
        Val::Unit => "()"@,
        Val::Data(c, vs) => c + "("@ + texts(vs) + ")"@,
        Val::Closure(_, _) => "<closure>"@,
        Val::BuiltIn(_) => "<builtin>"@,
    }
}

/// Values written one after the other, separated by `, `.
pub open spec fn texts(vs: Seq<Val>) -> Seq<char>
    decreases vs,
{
    if vs.len() == 0 {
        Seq::empty()
    } else if vs.len() == 1 {
        text(vs[0])
    } else {
        texts(vs.drop_last()) + ", "@ + text(vs.last())
    }
}

fn int_to_text(i: i64) -> (r: String)
    ensures
        r@ == int_text(i),
{
    if i < 0 {
        let m: i64 = -(i + 1);
        let u: u64 = (m as u64) + 1;
        let d = crate::ast::decimal(u);
        "-".to_owned().concat(d.as_str())
    } else {
        crate::ast::decimal(i as u64)
    }
}

impl Value {
    /// The written form of the value.
    pub fn to_text(&self) -> (r: String)
        ensures
            r@ == text(self@),
        decreases self,
    {
        match self {
            Value::Int(i) => int_to_text(*i),
            Value::Bool(b) => if *b {
                "true".to_owned()
            } else {
                "false".to_owned()
            },
            Value::Unit => "()".to_owned(),
            Value::Data(c, vs) => {
                let ghost vv = vals_view(vs@);
                proof {
                    lemma_vals_view_index(vs@);
                }
                let mut out = c.0.clone();
                out.append("(");
                let ghost head = out@;
                let mut i: usize = 0;
                while i < vs.len()
                    invariant
                        i <= vs.len(),
                        *self == Value::Data(*c, *vs),
                        vv == vals_view(vs@),
                        vv.len() == vs@.len(),
                        forall|j: int| 0 <= j < vs@.len() ==> #[trigger] vv[j] == vs@[j]@,
                        out@ == head + texts(vv.subrange(0, i as int)),
                    decreases vs.len() - i,
                {
                    proof {
                        assert(decreases_to!(*self => self->Data_1));
                        assert(decreases_to!(self->Data_1 => vs@));
                        assert(decreases_to!(vs@ => vs@[i as int]));
                        let p = vv.subrange(0, i as int + 1);
                        assert(p.drop_last() =~= vv.subrange(0, i as int));
                        assert(p.last() == vs@[i as int]@);
                        if i == 0 {
                            assert(p =~= seq![vv[0]]);
                            assert(vv.subrange(0, 0) =~= Seq::<Val>::empty());
                        }
                    }
                    let t = vs[i].to_text();
                    if i > 0 {
                        out.append(", ");
                    }
                    out.append(t.as_str());
                    proof {
                        if i == 0 {
                            assert(texts(vv.subrange(0, 0)) == Seq::<char>::empty());
                            assert(head + Seq::<char>::empty() =~= head);
                            assert(out@ =~= head + texts(vv.subrange(0, 1)));
                        } else {
                            assert(out@ =~= head + texts(vv.subrange(0, i as int + 1)));
                        }
                    }
                    i += 1;
                }
                proof {
                    assert(vv.subrange(0, i as int) =~= vv);
                }
                out.append(")");
                out
            },
            Value::Closure(_, _) => "<closure>".to_owned(),
            Value::BuiltIn(_) => "<builtin>".to_owned(),
        }
    }
}

} // verus!
