use crate::ast::{cons_view, lemma_tys_view_index, tys_view, Cons, pairs_view, pat_binds, pats_binds, DataDef, Expr, Name, Pattern, Program, Simp, Ty, Type};
use crate::checker::{lemma_occurs_tys_index, occurs_m, occurs_tys};
use vstd::prelude::*;

verus! {

/// Every type variable of `t` is below `b`.
pub open spec fn ty_below(t: Ty, b: nat) -> bool
    decreases t,
{
    match t {
        Ty::Var(n) => n < b,
        Ty::Fn(args, ret) => tys_below(args, b) && ty_below(*ret, b),
        _ => true,
    }
}

pub open spec fn tys_below(ts: Seq<Ty>, b: nat) -> bool
    decreases ts,
{
    ts.len() == 0 || (tys_below(ts.drop_last(), b) && ty_below(ts.last(), b))
}

/// The property of having every type variable below `b`.
pub open spec fn below(b: nat) -> spec_fn(Ty) -> bool {
    |t: Ty| ty_below(t, b)
}

/// The property of not containing variable `a`.
pub open spec fn avoids(a: nat) -> spec_fn(Ty) -> bool {
    |t: Ty| !occurs_m(a, t)
}

/// Every type annotation of a pattern has `q`.
pub open spec fn pat_all(p: Pattern, q: spec_fn(Ty) -> bool) -> bool
    decreases p,
{
    match p {
        Pattern::Var(_, t) => q(t@),
        Pattern::Data(_, _, ps) => pats_all(ps@, q),
        _ => true,
    }
}

pub open spec fn pats_all(ps: Seq<Pattern>, q: spec_fn(Ty) -> bool) -> bool
    decreases ps,
{
    ps.len() == 0 || (pats_all(ps.drop_last(), q) && pat_all(ps.last(), q))
}

pub open spec fn args_all(a: Seq<(Name, Type)>, q: spec_fn(Ty) -> bool) -> bool {
    forall|i: int| 0 <= i < a.len() ==> #[trigger] q(a[i].1@)
}

pub open spec fn env_all(env: Seq<(Seq<char>, Ty)>, q: spec_fn(Ty) -> bool) -> bool {
    forall|i: int| 0 <= i < env.len() ==> #[trigger] q(env[i].1)
}

/// Every type annotation of a simple expression has `q`.
pub open spec fn simp_all(s: Simp, q: spec_fn(Ty) -> bool) -> bool
    decreases s,
{
    match s {
        Simp::FnDef(f) => args_all(f.args@, q) && q(f.ret@) && simp_all(*f.body, q),
        Simp::Match(x, arms) => simp_all(*x, q) && arms_all(arms@, q),
        Simp::FnCall(l, args) => simp_all(*l, q) && simps_all(args@, q),
        Simp::Block(e) => expr_all(*e, q),
        Simp::Data(_, args) => simps_all(args@, q),
        _ => true,
    }
}

pub open spec fn simps_all(ss: Seq<Simp>, q: spec_fn(Ty) -> bool) -> bool
    decreases ss,
{
    ss.len() == 0 || (simp_all(ss[0], q) && simps_all(ss.subrange(1, ss.len() as int), q))
}

pub open spec fn arms_all(arms: Seq<(Pattern, Simp)>, q: spec_fn(Ty) -> bool) -> bool
    decreases arms,
{
    arms.len() == 0 || (pat_all(arms[0].0, q) && simp_all(arms[0].1, q) && arms_all(
        arms.subrange(1, arms.len() as int),
        q,
    ))
}

pub open spec fn expr_all(e: Expr, q: spec_fn(Ty) -> bool) -> bool
    decreases e,
{
    match e {
        Expr::Bind(p, rhs, body) => pat_all(p, q) && simp_all(rhs, q) && expr_all(*body, q),
        Expr::Simp(s) => simp_all(s, q),
    }
}

pub open spec fn fn_body(f: std::rc::Rc<crate::ast::FnDef>) -> Simp {
    *f.body
}

/// `q1` implies `q2` on every type.
pub open spec fn implies(q1: spec_fn(Ty) -> bool, q2: spec_fn(Ty) -> bool) -> bool {
    forall|t: Ty| #[trigger] q1(t) ==> q2(t)
}

pub proof fn lemma_pat_all_mono(p: Pattern, q1: spec_fn(Ty) -> bool, q2: spec_fn(Ty) -> bool)
    requires
        pat_all(p, q1),
        implies(q1, q2),
    ensures
        pat_all(p, q2),
    decreases p,
{
    if let Pattern::Data(_, _, ps) = p {
        lemma_pats_all_mono(ps@, q1, q2);
    }
}

pub proof fn lemma_pats_all_mono(ps: Seq<Pattern>, q1: spec_fn(Ty) -> bool, q2: spec_fn(Ty) -> bool)
    requires
        pats_all(ps, q1),
        implies(q1, q2),
    ensures
        pats_all(ps, q2),
    decreases ps,
{
    if ps.len() > 0 {
        lemma_pats_all_mono(ps.drop_last(), q1, q2);
        lemma_pat_all_mono(ps.last(), q1, q2);
    }
}

pub proof fn lemma_simp_all_mono(s: Simp, q1: spec_fn(Ty) -> bool, q2: spec_fn(Ty) -> bool)
    requires
        simp_all(s, q1),
        implies(q1, q2),
    ensures
        simp_all(s, q2),
    decreases s,
{
    match s {
        Simp::FnDef(f) => {
            assert forall|i: int| 0 <= i < f.args@.len() implies #[trigger] q2(f.args@[i].1@) by {
                assert(q1(f.args@[i].1@));
            }
            lemma_simp_all_mono(fn_body(f), q1, q2);
        },
        Simp::Match(x, arms) => {
            lemma_simp_all_mono(*x, q1, q2);
            lemma_arms_all_mono(arms@, q1, q2);
        },
        Simp::FnCall(l, args) => {
            lemma_simp_all_mono(*l, q1, q2);
            lemma_simps_all_mono(args@, q1, q2);
        },
        Simp::Block(e) => lemma_expr_all_mono(*e, q1, q2),
        Simp::Data(_, args) => lemma_simps_all_mono(args@, q1, q2),
        _ => {},
    }
}

pub proof fn lemma_simps_all_mono(ss: Seq<Simp>, q1: spec_fn(Ty) -> bool, q2: spec_fn(Ty) -> bool)
    requires
        simps_all(ss, q1),
        implies(q1, q2),
    ensures
        simps_all(ss, q2),
    decreases ss,
{
    if ss.len() > 0 {
        lemma_simp_all_mono(ss[0], q1, q2);
        lemma_simps_all_mono(ss.subrange(1, ss.len() as int), q1, q2);
    }
}

pub proof fn lemma_arms_all_mono(arms: Seq<(Pattern, Simp)>, q1: spec_fn(Ty) -> bool, q2: spec_fn(Ty) -> bool)
    requires
        arms_all(arms, q1),
        implies(q1, q2),
    ensures
        arms_all(arms, q2),
    decreases arms,
{
    if arms.len() > 0 {
        lemma_pat_all_mono(arms[0].0, q1, q2);
        lemma_simp_all_mono(arms[0].1, q1, q2);
        lemma_arms_all_mono(arms.subrange(1, arms.len() as int), q1, q2);
    }
}

pub proof fn lemma_expr_all_mono(e: Expr, q1: spec_fn(Ty) -> bool, q2: spec_fn(Ty) -> bool)
    requires
        expr_all(e, q1),
        implies(q1, q2),
    ensures
        expr_all(e, q2),
    decreases e,
{
    match e {
        Expr::Bind(p, rhs, body) => {
            lemma_pat_all_mono(p, q1, q2);
            lemma_simp_all_mono(rhs, q1, q2);
            lemma_expr_all_mono(*body, q1, q2);
        },
        Expr::Simp(s) => lemma_simp_all_mono(s, q1, q2),
    }
}

pub proof fn lemma_env_all_mono(env: Seq<(Seq<char>, Ty)>, q1: spec_fn(Ty) -> bool, q2: spec_fn(Ty) -> bool)
    requires
        env_all(env, q1),
        implies(q1, q2),
    ensures
        env_all(env, q2),
{
    assert forall|i: int| 0 <= i < env.len() implies #[trigger] q2(env[i].1) by {
        assert(q1(env[i].1));
    }
}

pub proof fn lemma_ty_below_mono(t: Ty, b: nat, c: nat)
    requires
        ty_below(t, b),
        b <= c,
    ensures
        ty_below(t, c),
    decreases t,
{
    if let Ty::Fn(args, ret) = t {
        lemma_tys_below_mono(args, b, c);
        lemma_ty_below_mono(*ret, b, c);
    }
}

pub proof fn lemma_tys_below_mono(ts: Seq<Ty>, b: nat, c: nat)
    requires
        tys_below(ts, b),
        b <= c,
    ensures
        tys_below(ts, c),
    decreases ts,
{
    if ts.len() > 0 {
        lemma_tys_below_mono(ts.drop_last(), b, c);
        lemma_ty_below_mono(ts.last(), b, c);
    }
}

pub proof fn lemma_below_avoids(t: Ty, b: nat, a: nat)
    requires
        ty_below(t, b),
        b <= a,
    ensures
        !occurs_m(a, t),
    decreases t,
{
    if let Ty::Fn(args, ret) = t {
        lemma_tys_below_avoids(args, b, a);
        lemma_below_avoids(*ret, b, a);
    }
}

pub proof fn lemma_tys_below_avoids(ts: Seq<Ty>, b: nat, a: nat)
    requires
        tys_below(ts, b),
        b <= a,
    ensures
        !occurs_tys(a, ts),
    decreases ts,
{
    if ts.len() > 0 {
        lemma_tys_below_avoids(ts.drop_last(), b, a);
        lemma_below_avoids(ts.last(), b, a);
    }
}

/// A larger bound is still a bound.
pub proof fn lemma_below_implies(b: nat, c: nat)
    requires
        b <= c,
    ensures
        implies(below(b), below(c)),
{
    assert forall|t: Ty| #[trigger] below(b)(t) implies below(c)(t) by {
        lemma_ty_below_mono(t, b, c);
    }
}

/// Nothing below `b` contains a variable from `b` on.
pub proof fn lemma_below_implies_avoids(b: nat, a: nat)
    requires
        b <= a,
    ensures
        implies(below(b), avoids(a)),
{
    assert forall|t: Ty| #[trigger] below(b)(t) implies avoids(a)(t) by {
        lemma_below_avoids(t, b, a);
    }
}

/// The types a pattern binds are annotations of the pattern.
pub proof fn lemma_pat_binds_all(p: Pattern, q: spec_fn(Ty) -> bool)
    requires
        pat_all(p, q),
    ensures
        env_all(pat_binds(p), q),
    decreases p,
{
    if let Pattern::Data(_, _, ps) = p {
        lemma_pats_binds_all(ps@, q);
    }
}

pub proof fn lemma_pats_binds_all(ps: Seq<Pattern>, q: spec_fn(Ty) -> bool)
    requires
        pats_all(ps, q),
    ensures
        env_all(pats_binds(ps), q),
    decreases ps,
{
    if ps.len() > 0 {
        lemma_pats_binds_all(ps.drop_last(), q);
        lemma_pat_binds_all(ps.last(), q);
        let a = pats_binds(ps.drop_last());
        let b = pat_binds(ps.last());
        assert forall|i: int| 0 <= i < (a + b).len() implies #[trigger] q((a + b)[i].1) by {
            if i < a.len() {
                assert((a + b)[i] == a[i]);
            } else {
                assert((a + b)[i] == b[i - a.len()]);
            }
        }
    }
}

/// An environment extended with bindings whose types have `q`.
pub proof fn lemma_env_extend(env: Seq<(Seq<char>, Ty)>, more: Seq<(Seq<char>, Ty)>, q: spec_fn(Ty) -> bool)
    requires
        env_all(env, q),
        env_all(more, q),
    ensures
        env_all(env + more, q),
{
    assert forall|i: int| 0 <= i < (env + more).len() implies #[trigger] q((env + more)[i].1) by {
        if i < env.len() {
            assert((env + more)[i] == env[i]);
        } else {
            assert((env + more)[i] == more[i - env.len()]);
        }
    }
}

pub proof fn lemma_args_env(args: Seq<(Name, Type)>, q: spec_fn(Ty) -> bool)
    requires
        args_all(args, q),
    ensures
        env_all(pairs_view(args), q),
{
    assert forall|i: int| 0 <= i < pairs_view(args).len() implies #[trigger] q(pairs_view(args)[i].1) by {
        assert(pairs_view(args)[i].1 == args[i].1@);
    }
}

pub open spec fn maxn(a: nat, b: nat) -> nat {
    if a < b {
        b
    } else {
        a
    }
}

/// One more than the largest type variable of `t`, or 0.
pub open spec fn tyb(t: Ty) -> nat
    decreases t,
{
    match t {
        Ty::Var(n) => n + 1,
        Ty::Fn(args, ret) => maxn(tysb(args), tyb(*ret)),
        _ => 0,
    }
}

pub open spec fn tysb(ts: Seq<Ty>) -> nat
    decreases ts,
{
    if ts.len() == 0 {
        0
    } else {
        maxn(tysb(ts.drop_last()), tyb(ts.last()))
    }
}

pub open spec fn consb(cs: Seq<(Seq<char>, Seq<Ty>)>) -> nat
    decreases cs.len(),
{
    if cs.len() == 0 {
        0
    } else {
        maxn(consb(cs.drop_last()), tysb(cs.last().1))
    }
}

pub open spec fn patb(p: Pattern) -> nat
    decreases p,
{
    match p {
        Pattern::Var(_, t) => tyb(t@),
        Pattern::Data(df, _, ps) => maxn(consb(df@.1), patsb(ps@)),
        _ => 0,
    }
}

pub open spec fn patsb(ps: Seq<Pattern>) -> nat
    decreases ps,
{
    if ps.len() == 0 {
        0
    } else {
        maxn(patsb(ps.drop_last()), patb(ps.last()))
    }
}

pub open spec fn argsb(a: Seq<(Name, Type)>) -> nat
    decreases a.len(),
{
    if a.len() == 0 {
        0
    } else {
        maxn(argsb(a.drop_last()), tyb(a.last().1@))
    }
}

/// One more than the largest type variable annotating a simple expression, or 0.
pub open spec fn simpb(s: Simp) -> nat
    decreases s,
{
    match s {
        Simp::FnDef(f) => maxn(maxn(argsb(f.args@), tyb(f.ret@)), simpb(*f.body)),
        Simp::Match(x, arms) => maxn(simpb(*x), armsb(arms@)),
        Simp::FnCall(l, args) => maxn(simpb(*l), simpsb(args@)),
        Simp::Block(e) => exprb(*e),
        Simp::Data(_, args) => simpsb(args@),
        _ => 0,
    }
}

pub open spec fn simpsb(ss: Seq<Simp>) -> nat
    decreases ss,
{
    if ss.len() == 0 {
        0
    } else {
        maxn(simpb(ss[0]), simpsb(ss.subrange(1, ss.len() as int)))
    }
}

pub open spec fn armsb(arms: Seq<(Pattern, Simp)>) -> nat
    decreases arms,
{
    if arms.len() == 0 {
        0
    } else {
        maxn(maxn(patb(arms[0].0), simpb(arms[0].1)), armsb(arms.subrange(1, arms.len() as int)))
    }
}

pub open spec fn exprb(e: Expr) -> nat
    decreases e,
{
    match e {
        Expr::Bind(p, rhs, body) => maxn(maxn(patb(p), simpb(rhs)), exprb(*body)),
        Expr::Simp(s) => simpb(s),
    }
}

pub open spec fn defsb(defs: Seq<DataDef>) -> nat
    decreases defs.len(),
{
    if defs.len() == 0 {
        0
    } else {
        maxn(defsb(defs.drop_last()), consb(defs.last()@.1))
    }
}

/// One more than the largest type variable anywhere in a program, or 0.
pub open spec fn progb(p: Program) -> nat {
    maxn(
        defsb(p.data_defs@),
        match p.expr {
            Some(e) => exprb(e),
            None => 0,
        },
    )
}

pub proof fn lemma_tyb(t: Ty)
    ensures
        ty_below(t, tyb(t)),
    decreases t,
{
    if let Ty::Fn(args, ret) = t {
        lemma_tysb(args);
        lemma_tyb(*ret);
        lemma_tys_below_mono(args, tysb(args), tyb(t));
        lemma_ty_below_mono(*ret, tyb(*ret), tyb(t));
    }
}

pub proof fn lemma_tysb(ts: Seq<Ty>)
    ensures
        tys_below(ts, tysb(ts)),
    decreases ts,
{
    if ts.len() > 0 {
        lemma_tysb(ts.drop_last());
        lemma_tyb(ts.last());
        lemma_tys_below_mono(ts.drop_last(), tysb(ts.drop_last()), tysb(ts));
        lemma_ty_below_mono(ts.last(), tyb(ts.last()), tysb(ts));
    }
}

pub proof fn lemma_tys_below_index(ts: Seq<Ty>, b: nat)
    requires
        tys_below(ts, b),
    ensures
        forall|j: int| 0 <= j < ts.len() ==> ty_below(#[trigger] ts[j], b),
    decreases ts.len(),
{
    if ts.len() > 0 {
        lemma_tys_below_index(ts.drop_last(), b);
        assert forall|j: int| 0 <= j < ts.len() implies ty_below(#[trigger] ts[j], b) by {
            if j < ts.len() - 1 {
                assert(ts.drop_last()[j] == ts[j]);
            }
        }
    }
}

pub proof fn lemma_patb(p: Pattern, b: nat)
    requires
        patb(p) <= b,
    ensures
        pat_all(p, below(b)),
    decreases p,
{
    match p {
        Pattern::Var(_, t) => {
            lemma_tyb(t@);
            lemma_ty_below_mono(t@, tyb(t@), b);
        },
        Pattern::Data(_, _, ps) => {
            lemma_patsb(ps@, b);
        },
        _ => {},
    }
}

pub proof fn lemma_patsb(ps: Seq<Pattern>, b: nat)
    requires
        patsb(ps) <= b,
    ensures
        pats_all(ps, below(b)),
    decreases ps,
{
    if ps.len() > 0 {
        lemma_patsb(ps.drop_last(), b);
        lemma_patb(ps.last(), b);
    }
}

pub proof fn lemma_argsb(a: Seq<(Name, Type)>, b: nat)
    requires
        argsb(a) <= b,
    ensures
        args_all(a, below(b)),
    decreases a.len(),
{
    if a.len() > 0 {
        lemma_argsb(a.drop_last(), b);
        lemma_tyb(a.last().1@);
        lemma_ty_below_mono(a.last().1@, tyb(a.last().1@), b);
        assert forall|i: int| 0 <= i < a.len() implies #[trigger] below(b)(a[i].1@) by {
            if i < a.len() - 1 {
                assert(a.drop_last()[i] == a[i]);
            }
        }
    }
}

pub proof fn lemma_simpb(s: Simp, b: nat)
    requires
        simpb(s) <= b,
    ensures
        simp_all(s, below(b)),
    decreases s,
{
    match s {
        Simp::FnDef(f) => {
            lemma_argsb(f.args@, b);
            lemma_tyb(f.ret@);
            lemma_ty_below_mono(f.ret@, tyb(f.ret@), b);
            lemma_simpb(fn_body(f), b);
        },
        Simp::Match(x, arms) => {
            lemma_simpb(*x, b);
            lemma_armsb(arms@, b);
        },
        Simp::FnCall(l, args) => {
            lemma_simpb(*l, b);
            lemma_simpsb(args@, b);
        },
        Simp::Block(e) => lemma_exprb(*e, b),
        Simp::Data(_, args) => lemma_simpsb(args@, b),
        _ => {},
    }
}

pub proof fn lemma_simpsb(ss: Seq<Simp>, b: nat)
    requires
        simpsb(ss) <= b,
    ensures
        simps_all(ss, below(b)),
    decreases ss,
{
    if ss.len() > 0 {
        lemma_simpb(ss[0], b);
        lemma_simpsb(ss.subrange(1, ss.len() as int), b);
    }
}

pub proof fn lemma_armsb(arms: Seq<(Pattern, Simp)>, b: nat)
    requires
        armsb(arms) <= b,
    ensures
        arms_all(arms, below(b)),
    decreases arms,
{
    if arms.len() > 0 {
        lemma_patb(arms[0].0, b);
        lemma_simpb(arms[0].1, b);
        lemma_armsb(arms.subrange(1, arms.len() as int), b);
    }
}

pub proof fn lemma_exprb(e: Expr, b: nat)
    requires
        exprb(e) <= b,
    ensures
        expr_all(e, below(b)),
    decreases e,
{
    match e {
        Expr::Bind(p, rhs, body) => {
            lemma_patb(p, b);
            lemma_simpb(rhs, b);
            lemma_exprb(*body, b);
        },
        Expr::Simp(s) => lemma_simpb(s, b),
    }
}

fn umax(a: u128, b: u128) -> (r: u128)
    ensures
        r as nat == maxn(a as nat, b as nat),
{
    if a < b {
        b
    } else {
        a
    }
}

/// The variable bound of a type: one more than its largest type variable.
fn ty_bound(t: &Type) -> (r: u128)
    ensures
        r as nat == tyb(t@),
    decreases t,
{
    match t {
        Type::TyVar(n) => (*n as u128) + 1,
        Type::Fn(args, ret) => {
            proof {
                lemma_tys_view_index(args@);
            }
            let mut acc: u128 = 0;
            let mut i: usize = 0;
            while i < args.len()
                invariant
                    i <= args.len(),
                    *t == Type::Fn(*args, *ret),
                    tys_view(args@).len() == args@.len(),
                    forall|j: int| 0 <= j < args@.len() ==> #[trigger] tys_view(args@)[j] == args@[j]@,
                    acc as nat == tysb(tys_view(args@).subrange(0, i as int)),
                decreases args.len() - i,
            {
                proof {
                    assert(decreases_to!(*t => t->Fn_0));
                    assert(decreases_to!(t->Fn_0 => args@));
                    assert(decreases_to!(args@ => args@[i as int]));
                    let v = tys_view(args@);
                    assert(v.subrange(0, i as int + 1).drop_last() =~= v.subrange(0, i as int));
                }
                acc = umax(acc, ty_bound(&args[i]));
                i += 1;
            }
            proof {
                assert(tys_view(args@).subrange(0, i as int) =~= tys_view(args@));
            }
            umax(acc, ty_bound(ret))
        },
        _ => 0,
    }
}

fn types_bound(v: &Vec<Type>) -> (r: u128)
    ensures
        r as nat == tysb(tys_view(v@)),
{
    proof {
        lemma_tys_view_index(v@);
    }
    let mut acc: u128 = 0;
    let mut i: usize = 0;
    while i < v.len()
        invariant
            i <= v.len(),
            tys_view(v@).len() == v@.len(),
            forall|j: int| 0 <= j < v@.len() ==> #[trigger] tys_view(v@)[j] == v@[j]@,
            acc as nat == tysb(tys_view(v@).subrange(0, i as int)),
        decreases v.len() - i,
    {
        proof {
            let w = tys_view(v@);
            assert(w.subrange(0, i as int + 1).drop_last() =~= w.subrange(0, i as int));
        }
        acc = umax(acc, ty_bound(&v[i]));
        i += 1;
    }
    proof {
        assert(tys_view(v@).subrange(0, i as int) =~= tys_view(v@));
    }
    acc
}

fn cons_bound(cs: &Vec<(Name, Cons)>) -> (r: u128)
    ensures
        r as nat == consb(cons_view(cs@)),
{
    let ghost w = cons_view(cs@);
    let mut acc: u128 = 0;
    let mut i: usize = 0;
    while i < cs.len()
        invariant
            i <= cs.len(),
            w == cons_view(cs@),
            acc as nat == consb(w.subrange(0, i as int)),
        decreases cs.len() - i,
    {
        proof {
            assert(w.subrange(0, i as int + 1).drop_last() =~= w.subrange(0, i as int));
            assert(w[i as int].1 == tys_view(cs@[i as int].1.args@));
        }
        acc = umax(acc, types_bound(&cs[i].1.args));
        i += 1;
    }
    proof {
        assert(w.subrange(0, i as int) =~= w);
    }
    acc
}

fn pat_bound(p: &Pattern) -> (r: u128)
    ensures
        r as nat == patb(*p),
    decreases p,
{
    match p {
        Pattern::Var(_, t) => ty_bound(t),
        Pattern::Data(df, _, ps) => {
            let mut acc: u128 = 0;
            let mut i: usize = 0;
            while i < ps.len()
                invariant
                    i <= ps.len(),
                    *p == Pattern::Data(p->Data_0, p->Data_1, *ps),
                    acc as nat == patsb(ps@.subrange(0, i as int)),
                decreases ps.len() - i,
            {
                proof {
                    assert(decreases_to!(*p => p->Data_2));
                    assert(decreases_to!(p->Data_2 => ps@));
                    assert(decreases_to!(ps@ => ps@[i as int]));
                    assert(ps@.subrange(0, i as int + 1).drop_last() =~= ps@.subrange(0, i as int));
                }
                acc = umax(acc, pat_bound(&ps[i]));
                i += 1;
            }
            proof {
                assert(ps@.subrange(0, i as int) =~= ps@);
            }
            umax(cons_bound(&df.cons), acc)
        },
        _ => 0,
    }
}

fn simp_bound(s: &Simp) -> (r: u128)
    ensures
        r as nat == simpb(*s),
    decreases s,
{
    match s {
        Simp::FnDef(f) => {
            let mut acc: u128 = 0;
            let mut i: usize = 0;
            while i < f.args.len()
                invariant
                    i <= f.args.len(),
                    acc as nat == argsb(f.args@.subrange(0, i as int)),
                decreases f.args.len() - i,
            {
                proof {
                    assert(f.args@.subrange(0, i as int + 1).drop_last() =~= f.args@.subrange(0, i as int));
                }
                acc = umax(acc, ty_bound(&f.args[i].1));
                i += 1;
            }
            proof {
                assert(f.args@.subrange(0, i as int) =~= f.args@);
            }
            umax(umax(acc, ty_bound(&f.ret)), simp_bound(&f.body))
        },
        Simp::Match(x, arms) => {
            proof {
                assert(decreases_to!(*s => s->Match_1));
                assert(decreases_to!(s->Match_1 => arms@));
            }
            umax(simp_bound(x), arms_bound(arms))
        },
        Simp::FnCall(l, args) => {
            proof {
                assert(decreases_to!(*s => s->FnCall_1));
                assert(decreases_to!(s->FnCall_1 => args@));
            }
            umax(simp_bound(l), simps_bound(args))
        },
        Simp::Block(e) => expr_bound(e),
        Simp::Data(_, args) => {
            proof {
                assert(decreases_to!(*s => s->Data_1));
                assert(decreases_to!(s->Data_1 => args@));
            }
            simps_bound(args)
        },
        _ => 0,
    }
}

fn simps_bound(ss: &Vec<Simp>) -> (r: u128)
    ensures
        r as nat == simpsb(ss@),
    decreases ss@,
{
    let mut acc: u128 = 0;
    let mut i: usize = 0;
    proof {
        assert(ss@.subrange(0, ss@.len() as int) =~= ss@);
    }
    while i < ss.len()
        invariant
            i <= ss.len(),
            simpsb(ss@) == maxn(acc as nat, simpsb(ss@.subrange(i as int, ss@.len() as int))),
        decreases ss.len() - i,
    {
        let ghost rest = ss@.subrange(i as int, ss@.len() as int);
        proof {
            assert(rest[0] == ss@[i as int]);
            assert(rest.subrange(1, rest.len() as int) =~= ss@.subrange(i + 1, ss@.len() as int));
            assert(decreases_to!(ss@ => ss@[i as int]));
        }
        acc = umax(acc, simp_bound(&ss[i]));
        i += 1;
    }
    proof {
        assert(ss@.subrange(i as int, ss@.len() as int).len() == 0);
    }
    acc
}

fn arms_bound(arms: &Vec<(Pattern, Simp)>) -> (r: u128)
    ensures
        r as nat == armsb(arms@),
    decreases arms@,
{
    let mut acc: u128 = 0;
    let mut i: usize = 0;
    proof {
        assert(arms@.subrange(0, arms@.len() as int) =~= arms@);
    }
    while i < arms.len()
        invariant
            i <= arms.len(),
            armsb(arms@) == maxn(acc as nat, armsb(arms@.subrange(i as int, arms@.len() as int))),
        decreases arms.len() - i,
    {
        let ghost rest = arms@.subrange(i as int, arms@.len() as int);
        proof {
            assert(rest[0] == arms@[i as int]);
            assert(rest.subrange(1, rest.len() as int) =~= arms@.subrange(i + 1, arms@.len() as int));
            assert(decreases_to!(arms@ => arms@[i as int]));
        }
        acc = umax(acc, umax(pat_bound(&arms[i].0), simp_bound(&arms[i].1)));
        i += 1;
    }
    proof {
        assert(arms@.subrange(i as int, arms@.len() as int).len() == 0);
    }
    acc
}

fn expr_bound(e: &Expr) -> (r: u128)
    ensures
        r as nat == exprb(*e),
    decreases e,
{
    match e {
        Expr::Bind(p, rhs, body) => umax(umax(pat_bound(p), simp_bound(rhs)), expr_bound(body)),
        Expr::Simp(s) => simp_bound(s),
    }
}

/// One more than the largest type variable anywhere in a program, or 0.
pub fn program_bound(p: &Program) -> (r: u128)
    ensures
        r as nat == progb(*p),
{
    let mut acc: u128 = 0;
    let mut i: usize = 0;
    while i < p.data_defs.len()
        invariant
            i <= p.data_defs.len(),
            acc as nat == defsb(p.data_defs@.subrange(0, i as int)),
        decreases p.data_defs.len() - i,
    {
        proof {
            assert(p.data_defs@.subrange(0, i as int + 1).drop_last() =~= p.data_defs@.subrange(0, i as int));
        }
        acc = umax(acc, cons_bound(&p.data_defs[i].cons));
        i += 1;
    }
    proof {
        assert(p.data_defs@.subrange(0, i as int) =~= p.data_defs@);
    }
    match &p.expr {
        Some(e) => umax(acc, expr_bound(e)),
        None => umax(acc, 0),
    }
}

pub proof fn lemma_simps_all_of_index(ss: Seq<Simp>, q: spec_fn(Ty) -> bool)
    requires
        forall|i: int| 0 <= i < ss.len() ==> simp_all(#[trigger] ss[i], q),
    ensures
        simps_all(ss, q),
    decreases ss.len(),
{
    if ss.len() > 0 {
        let rest = ss.subrange(1, ss.len() as int);
        assert forall|i: int| 0 <= i < rest.len() implies simp_all(#[trigger] rest[i], q) by {
            assert(rest[i] == ss[i + 1]);
        }
        lemma_simps_all_of_index(rest, q);
        assert(simp_all(ss[0], q));
    }
}

pub proof fn lemma_arms_all_of_index(arms: Seq<(Pattern, Simp)>, q: spec_fn(Ty) -> bool)
    requires
        forall|i: int| 0 <= i < arms.len() ==> pat_all((#[trigger] arms[i]).0, q) && simp_all(arms[i].1, q),
    ensures
        arms_all(arms, q),
    decreases arms.len(),
{
    if arms.len() > 0 {
        let rest = arms.subrange(1, arms.len() as int);
        assert forall|i: int| 0 <= i < rest.len() implies pat_all((#[trigger] rest[i]).0, q) && simp_all(rest[i].1, q) by {
            assert(rest[i] == arms[i + 1]);
        }
        lemma_arms_all_of_index(rest, q);
        assert(pat_all(arms[0].0, q) && simp_all(arms[0].1, q));
    }
}

} // verus!
