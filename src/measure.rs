use crate::ast::Ty;
use crate::checker::{apply_cs, apply_ty, apply_tys, lemma_apply_tys_index, occurs_m, occurs_tys, zip_tys};
use vstd::prelude::*;
use vstd::set_lib::lemma_len_subset;

verus! {

/// The type variables of a type.
pub open spec fn ty_vars(t: Ty) -> Set<nat>
    decreases t,
{
    match t {
        Ty::Var(n) => set![n],
        Ty::Fn(args, ret) => tys_vars(args).union(ty_vars(*ret)),
        _ => Set::empty(),
    }
}

pub open spec fn tys_vars(ts: Seq<Ty>) -> Set<nat>
    decreases ts,
{
    if ts.len() == 0 {
        Set::empty()
    } else {
        tys_vars(ts.drop_last()).union(ty_vars(ts.last()))
    }
}

/// The type variables of a list of equations.
pub open spec fn cs_vars(cs: Seq<(Ty, Ty)>) -> Set<nat>
    decreases cs.len(),
{
    if cs.len() == 0 {
        Set::empty()
    } else {
        cs_vars(cs.drop_last()).union(ty_vars(cs.last().0)).union(ty_vars(cs.last().1))
    }
}

/// The number of nodes of a type.
pub open spec fn ty_size(t: Ty) -> nat
    decreases t,
{
    match t {
        Ty::Fn(args, ret) => 1 + tys_size(args) + ty_size(*ret),
        _ => 1,
    }
}

pub open spec fn tys_size(ts: Seq<Ty>) -> nat
    decreases ts,
{
    if ts.len() == 0 {
        0
    } else {
        tys_size(ts.drop_last()) + ty_size(ts.last())
    }
}

pub open spec fn cs_size(cs: Seq<(Ty, Ty)>) -> nat
    decreases cs.len(),
{
    if cs.len() == 0 {
        0
    } else {
        cs_size(cs.drop_last()) + ty_size(cs.last().0) + ty_size(cs.last().1)
    }
}

pub proof fn lemma_ty_vars_finite(t: Ty)
    ensures
        ty_vars(t).finite(),
    decreases t,
{
    if let Ty::Fn(args, ret) = t {
        lemma_tys_vars_finite(args);
        lemma_ty_vars_finite(*ret);
    }
}

pub proof fn lemma_tys_vars_finite(ts: Seq<Ty>)
    ensures
        tys_vars(ts).finite(),
    decreases ts,
{
    if ts.len() > 0 {
        lemma_tys_vars_finite(ts.drop_last());
        lemma_ty_vars_finite(ts.last());
    }
}

pub proof fn lemma_cs_vars_finite(cs: Seq<(Ty, Ty)>)
    ensures
        cs_vars(cs).finite(),
    decreases cs.len(),
{
    if cs.len() > 0 {
        lemma_cs_vars_finite(cs.drop_last());
        lemma_ty_vars_finite(cs.last().0);
        lemma_ty_vars_finite(cs.last().1);
    }
}

pub proof fn lemma_occurs_vars(n: nat, t: Ty)
    ensures
        occurs_m(n, t) == ty_vars(t).contains(n),
    decreases t,
{
    if let Ty::Fn(args, ret) = t {
        lemma_occurs_tys_vars(n, args);
        lemma_occurs_vars(n, *ret);
    }
}

pub proof fn lemma_occurs_tys_vars(n: nat, ts: Seq<Ty>)
    ensures
        occurs_tys(n, ts) == tys_vars(ts).contains(n),
    decreases ts,
{
    if ts.len() > 0 {
        lemma_occurs_tys_vars(n, ts.drop_last());
        lemma_occurs_vars(n, ts.last());
    }
}

/// Variables and size of two lists of equations put together.
pub proof fn lemma_cs_append(a: Seq<(Ty, Ty)>, b: Seq<(Ty, Ty)>)
    ensures
        cs_vars(a + b) == cs_vars(a).union(cs_vars(b)),
        cs_size(a + b) == cs_size(a) + cs_size(b),
    decreases b.len(),
{
    if b.len() == 0 {
        assert(a + b =~= a);
        assert(cs_vars(a).union(Set::empty()) =~= cs_vars(a));
    } else {
        lemma_cs_append(a, b.drop_last());
        assert((a + b).drop_last() =~= a + b.drop_last());
        assert((a + b).last() == b.last());
        assert(cs_vars(a + b) =~= cs_vars(a).union(cs_vars(b)));
    }
}

pub proof fn lemma_cs_one(c: (Ty, Ty))
    ensures
        cs_vars(seq![c]) == ty_vars(c.0).union(ty_vars(c.1)),
        cs_size(seq![c]) == ty_size(c.0) + ty_size(c.1),
{
    assert(seq![c].drop_last() =~= Seq::<(Ty, Ty)>::empty());
    assert(seq![c].last() == c);
    assert(cs_vars(Seq::<(Ty, Ty)>::empty()) == Set::<nat>::empty());
    assert(cs_size(Seq::<(Ty, Ty)>::empty()) == 0);
    assert(cs_vars(seq![c]) =~= ty_vars(c.0).union(ty_vars(c.1)));
}

pub proof fn lemma_zip(a1: Seq<Ty>, a2: Seq<Ty>)
    requires
        a1.len() == a2.len(),
    ensures
        cs_vars(zip_tys(a1, a2)) == tys_vars(a1).union(tys_vars(a2)),
        cs_size(zip_tys(a1, a2)) == tys_size(a1) + tys_size(a2),
    decreases a1.len(),
{
    if a1.len() == 0 {
        assert(zip_tys(a1, a2) =~= Seq::<(Ty, Ty)>::empty());
        assert(tys_vars(a1).union(tys_vars(a2)) =~= Set::<nat>::empty());
    } else {
        lemma_zip(a1.drop_last(), a2.drop_last());
        let z = zip_tys(a1, a2);
        assert(z.drop_last() =~= zip_tys(a1.drop_last(), a2.drop_last()));
        assert(z.last() == (a1.last(), a2.last()));
        assert(cs_vars(z) =~= tys_vars(a1).union(tys_vars(a2)));
    }
}

/// Replacing `m` by `t` leaves the variables of `u` other than `m`, and adds those of `t`.
pub proof fn lemma_subst_vars(m: nat, t: Ty, u: Ty)
    ensures
        ty_vars(apply_ty(seq![(m, t)], u)).subset_of(ty_vars(u).remove(m).union(ty_vars(t))),
    decreases u,
{
    assert(seq![(m, t)].drop_last() =~= Seq::<(nat, Ty)>::empty());
    match u {
        Ty::Var(k) => {
            assert(crate::checker::tlookup(Seq::<(nat, Ty)>::empty(), k) is None);
            assert(seq![(m, t)].last() == (m, t));
        },
        Ty::Fn(args, ret) => {
            lemma_subst_vars(m, t, *ret);
            lemma_subst_tys_vars(m, t, args);
        },
        _ => {},
    }
}

pub proof fn lemma_subst_tys_vars(m: nat, t: Ty, ts: Seq<Ty>)
    ensures
        tys_vars(apply_tys(seq![(m, t)], ts)).subset_of(tys_vars(ts).remove(m).union(ty_vars(t))),
    decreases ts,
{
    if ts.len() > 0 {
        let s = seq![(m, t)];
        lemma_subst_tys_vars(m, t, ts.drop_last());
        lemma_subst_vars(m, t, ts.last());
        let a = apply_tys(s, ts);
        assert(a == apply_tys(s, ts.drop_last()).push(apply_ty(s, ts.last())));
        assert(a.drop_last() =~= apply_tys(s, ts.drop_last()));
        assert(a.last() == apply_ty(s, ts.last()));
    }
}

pub proof fn lemma_subst_cs_vars(m: nat, t: Ty, cs: Seq<(Ty, Ty)>)
    ensures
        cs_vars(apply_cs(seq![(m, t)], cs)).subset_of(cs_vars(cs).remove(m).union(ty_vars(t))),
    decreases cs.len(),
{
    if cs.len() > 0 {
        let s = seq![(m, t)];
        lemma_subst_cs_vars(m, t, cs.drop_last());
        assert(apply_cs(s, cs).drop_last() =~= apply_cs(s, cs.drop_last()));
        lemma_subst_vars(m, t, cs.last().0);
        lemma_subst_vars(m, t, cs.last().1);
    }
}

/// Dropping the first equation never adds variables and makes the list smaller.
pub proof fn lemma_step_drop(cs: Seq<(Ty, Ty)>)
    requires
        cs.len() > 0,
    ensures
        cs_vars(cs.subrange(1, cs.len() as int)).len() <= cs_vars(cs).len(),
        cs_size(cs.subrange(1, cs.len() as int)) < cs_size(cs),
{
    let rest = cs.subrange(1, cs.len() as int);
    assert(cs =~= seq![cs[0]] + rest);
    lemma_cs_append(seq![cs[0]], rest);
    lemma_cs_one(cs[0]);
    lemma_cs_vars_finite(cs);
    lemma_len_subset(cs_vars(rest), cs_vars(cs));
}

/// Splitting two function types into equations between their parts keeps the variables and
/// makes the list smaller.
pub proof fn lemma_step_split(cs: Seq<(Ty, Ty)>, a1: Seq<Ty>, r1: Ty, a2: Seq<Ty>, r2: Ty)
    requires
        cs.len() > 0,
        cs[0] == (Ty::Fn(a1, Box::new(r1)), Ty::Fn(a2, Box::new(r2))),
        a1.len() == a2.len(),
    ensures
        cs_vars(zip_tys(a1, a2).push((r1, r2)) + cs.subrange(1, cs.len() as int)).len() <= cs_vars(cs).len(),
        cs_size(zip_tys(a1, a2).push((r1, r2)) + cs.subrange(1, cs.len() as int)) < cs_size(cs),
{
    let rest = cs.subrange(1, cs.len() as int);
    let next = zip_tys(a1, a2).push((r1, r2)) + rest;
    assert(cs =~= seq![cs[0]] + rest);
    lemma_cs_append(seq![cs[0]], rest);
    lemma_cs_one(cs[0]);
    lemma_zip(a1, a2);
    assert(zip_tys(a1, a2).push((r1, r2)) =~= zip_tys(a1, a2) + seq![(r1, r2)]);
    lemma_cs_append(zip_tys(a1, a2), seq![(r1, r2)]);
    lemma_cs_one((r1, r2));
    lemma_cs_append(zip_tys(a1, a2).push((r1, r2)), rest);
    assert(cs_vars(next).subset_of(cs_vars(cs)));
    lemma_cs_vars_finite(cs);
    lemma_len_subset(cs_vars(next), cs_vars(cs));
}

/// An equation with a variable on either side measures as the variable on the left.
pub proof fn lemma_step_var(cs: Seq<(Ty, Ty)>, n: nat, t: Ty)
    requires
        cs.len() > 0,
        cs[0] == (Ty::Var(n), t) || cs[0] == (t, Ty::Var(n)),
    ensures
        cs_vars(cs) == cs_vars(seq![(Ty::Var(n), t)] + cs.subrange(1, cs.len() as int)),
        cs_size(cs) == cs_size(seq![(Ty::Var(n), t)] + cs.subrange(1, cs.len() as int)),
{
    let rest = cs.subrange(1, cs.len() as int);
    assert(cs =~= seq![cs[0]] + rest);
    lemma_cs_append(seq![cs[0]], rest);
    lemma_cs_one(cs[0]);
    lemma_cs_append(seq![(Ty::Var(n), t)], rest);
    lemma_cs_one((Ty::Var(n), t));
    assert(cs_vars(cs) =~= cs_vars(seq![(Ty::Var(n), t)] + rest));
}

/// Solving a variable that does not occur in its image removes it from the equations.
pub proof fn lemma_step_solve(n: nat, t: Ty, rest: Seq<(Ty, Ty)>)
    requires
        !occurs_m(n, t),
    ensures
        cs_vars(apply_cs(seq![(n, t)], rest)).len() < cs_vars(seq![(Ty::Var(n), t)] + rest).len(),
{
    let whole = seq![(Ty::Var(n), t)] + rest;
    let v = cs_vars(whole);
    lemma_cs_append(seq![(Ty::Var(n), t)], rest);
    lemma_cs_one((Ty::Var(n), t));
    lemma_occurs_vars(n, t);
    lemma_subst_cs_vars(n, t, rest);
    lemma_cs_vars_finite(whole);
    assert(v.contains(n));
    let next = cs_vars(apply_cs(seq![(n, t)], rest));
    assert(next.subset_of(v.remove(n)));
    lemma_len_subset(next, v.remove(n));
}

} // verus!
