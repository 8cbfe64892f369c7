use crate::ast::{Expr, Pattern, Program, Simp, Ty};
use crate::measure::{cs_size, cs_vars, lemma_step_drop, lemma_step_solve, lemma_step_split, lemma_step_var};
use crate::checker::{
    apply_cs, apply_ty, apply_tys, compose_one, lemma_apply_tys_index, lemma_occurs_tys_index, occurs_m,
    occurs_tys, solve_var, tlookup, unify_m, zip_tys, gen_expr, infer_m, initial_env,
};
use vstd::prelude::*;

verus! {

/// Replacing `m` by a type without `n` does not bring `n` in.
proof fn lemma_subst_one_keeps_out(n: nat, m: nat, t: Ty, u: Ty)
    requires
        !occurs_m(n, t),
        !occurs_m(n, u),
    ensures
        !occurs_m(n, apply_ty(seq![(m, t)], u)),
    decreases u,
{
    assert(seq![(m, t)].drop_last() =~= Seq::<(nat, Ty)>::empty());
    if let Ty::Var(k) = u {
        assert(tlookup(Seq::<(nat, Ty)>::empty(), k) is None);
        assert(seq![(m, t)].last() == (m, t));
        if k == m {
            assert(tlookup(seq![(m, t)], k) == Some(t));
        } else {
            assert(tlookup(seq![(m, t)], k) is None);
        }
    }
    if let Ty::Fn(args, ret) = u {
        lemma_subst_one_keeps_out(n, m, t, *ret);
        lemma_apply_tys_index(seq![(m, t)], args);
        lemma_occurs_tys_index(n, args);
        lemma_occurs_tys_index(n, apply_tys(seq![(m, t)], args));
        assert forall|i: int| 0 <= i < args.len() implies !occurs_m(n, #[trigger] apply_tys(seq![(m, t)], args)[i]) by {
            lemma_subst_one_keeps_out(n, m, t, args[i]);
        }
        assert(!occurs_tys(n, apply_tys(seq![(m, t)], args)));
        assert(apply_ty(seq![(m, t)], u) == Ty::Fn(apply_tys(seq![(m, t)], args), Box::new(apply_ty(seq![(m, t)], *ret))));
    }
}

/// Replacing `m` by a type without `m` leaves no `m`.
proof fn lemma_subst_one_removes(m: nat, t: Ty, u: Ty)
    requires
        !occurs_m(m, t),
    ensures
        !occurs_m(m, apply_ty(seq![(m, t)], u)),
    decreases u,
{
    assert(seq![(m, t)].drop_last() =~= Seq::<(nat, Ty)>::empty());
    if let Ty::Var(k) = u {
        assert(tlookup(Seq::<(nat, Ty)>::empty(), k) is None);
        assert(seq![(m, t)].last() == (m, t));
        if k == m {
            assert(tlookup(seq![(m, t)], k) == Some(t));
        } else {
            assert(tlookup(seq![(m, t)], k) is None);
        }
    }
    if let Ty::Fn(args, ret) = u {
        lemma_subst_one_removes(m, t, *ret);
        lemma_apply_tys_index(seq![(m, t)], args);
        lemma_occurs_tys_index(m, apply_tys(seq![(m, t)], args));
        assert forall|i: int| 0 <= i < args.len() implies !occurs_m(m, #[trigger] apply_tys(seq![(m, t)], args)[i]) by {
            lemma_subst_one_removes(m, t, args[i]);
        }
        assert(!occurs_tys(m, apply_tys(seq![(m, t)], args)));
        assert(apply_ty(seq![(m, t)], u) == Ty::Fn(apply_tys(seq![(m, t)], args), Box::new(apply_ty(seq![(m, t)], *ret))));
    }
}

/// No image of the substitution mentions `n`.
pub open spec fn images_avoid(s: Seq<(nat, Ty)>, n: nat) -> bool {
    forall|i: int| 0 <= i < s.len() ==> !occurs_m(n, #[trigger] s[i].1)
}

/// No side of any equation mentions `n`.
pub open spec fn cs_avoid(cs: Seq<(Ty, Ty)>, n: nat) -> bool {
    forall|i: int| 0 <= i < cs.len() ==> !occurs_m(n, (#[trigger] cs[i]).0) && !occurs_m(n, cs[i].1)
}

proof fn lemma_tlookup_in(s: Seq<(nat, Ty)>, n: nat)
    ensures
        tlookup(s, n) matches Some(u) ==> exists|i: int| 0 <= i < s.len() && #[trigger] s[i].1 == u,
    decreases s.len(),
{
    if s.len() > 0 && s.last().0 != n {
        lemma_tlookup_in(s.drop_last(), n);
        if let Some(u) = tlookup(s, n) {
            let i = choose|i: int| 0 <= i < s.drop_last().len() && #[trigger] s.drop_last()[i].1 == u;
            assert(s[i] == s.drop_last()[i]);
        }
    }
    if s.len() > 0 && s.last().0 == n {
        assert(s[s.len() - 1].1 == s.last().1);
    }
}

/// Rewriting by a substitution whose images avoid `n` keeps a type that avoids `n` free of it.
proof fn lemma_apply_keeps_out(s: Seq<(nat, Ty)>, n: nat, t: Ty)
    requires
        images_avoid(s, n),
        !occurs_m(n, t),
    ensures
        !occurs_m(n, apply_ty(s, t)),
    decreases t,
{
    match t {
        Ty::Var(m) => {
            lemma_tlookup_in(s, m);
        },
        Ty::Fn(args, ret) => {
            lemma_apply_keeps_out(s, n, *ret);
            lemma_apply_tys_index(s, args);
            lemma_occurs_tys_index(n, args);
            lemma_occurs_tys_index(n, apply_tys(s, args));
            assert forall|i: int| 0 <= i < args.len() implies !occurs_m(n, #[trigger] apply_tys(s, args)[i]) by {
                lemma_apply_keeps_out(s, n, args[i]);
            }
        },
        _ => {},
    }
}

/// The images of a solution mention only variables of the equations.
proof fn lemma_unify_avoids(cs: Seq<(Ty, Ty)>, n: nat)
    requires
        cs_avoid(cs, n),
    ensures
        unify_m(cs) matches Ok(s) ==> images_avoid(s, n),
    decreases cs_vars(cs).len(), cs_size(cs), 1nat,
{
    if cs.len() > 0 {
        let a = cs[0].0;
        let b = cs[0].1;
        let rest = cs.subrange(1, cs.len() as int);
        assert(cs_avoid(rest, n)) by {
            assert forall|i: int| 0 <= i < rest.len() implies !occurs_m(n, (#[trigger] rest[i]).0) && !occurs_m(n, rest[i].1) by {
                assert(rest[i] == cs[i + 1]);
            }
        }
        assert(!occurs_m(n, a) && !occurs_m(n, b)) by {
            assert(cs[0] == (a, b));
        }
        if a == b {
            lemma_step_drop(cs);
            lemma_unify_avoids(rest, n);
        } else {
            match (a, b) {
                (Ty::Fn(a1, r1), Ty::Fn(a2, r2)) => {
                    if a1.len() == a2.len() {
                        let next = zip_tys(a1, a2).push((*r1, *r2)) + rest;
                        lemma_occurs_tys_index(n, a1);
                        lemma_occurs_tys_index(n, a2);
                        assert forall|i: int| 0 <= i < next.len() implies !occurs_m(n, (#[trigger] next[i]).0) && !occurs_m(n, next[i].1) by {
                            if i < a1.len() {
                                assert(next[i] == (a1[i], a2[i]));
                            } else if i == a1.len() {
                                assert(next[i] == (*r1, *r2));
                            } else {
                                assert(next[i] == rest[i - a1.len() - 1]);
                            }
                        }
                        lemma_step_split(cs, a1, *r1, a2, *r2);
                        lemma_unify_avoids(next, n);
                    }
                },
                (Ty::Var(m), t) => {
                    lemma_step_var(cs, m, t);
                    lemma_solve_avoids(m, t, rest, n);
                },
                (t, Ty::Var(m)) => {
                    lemma_step_var(cs, m, t);
                    lemma_solve_avoids(m, t, rest, n);
                },
                _ => {},
            }
        }
    }
}

proof fn lemma_solve_avoids(m: nat, t: Ty, rest: Seq<(Ty, Ty)>, n: nat)
    requires
        cs_avoid(rest, n),
        !occurs_m(n, t),
    ensures
        solve_var(m, t, rest) matches Ok(s) ==> images_avoid(s, n),
    decreases cs_vars(seq![(Ty::Var(m), t)] + rest).len(), cs_size(seq![(Ty::Var(m), t)] + rest), 0nat,
{
    if !occurs_m(m, t) {
        let rest2 = apply_cs(seq![(m, t)], rest);
        assert forall|i: int| 0 <= i < rest2.len() implies !occurs_m(n, (#[trigger] rest2[i]).0) && !occurs_m(n, rest2[i].1) by {
            lemma_subst_one_keeps_out(n, m, t, rest[i].0);
            lemma_subst_one_keeps_out(n, m, t, rest[i].1);
        }
        lemma_step_solve(m, t, rest);
        lemma_unify_avoids(rest2, n);
        if let Ok(s) = unify_m(rest2) {
            lemma_apply_keeps_out(s, n, t);
            let s2 = compose_one(s, m, t);
            assert forall|i: int| 0 <= i < s2.len() implies !occurs_m(n, #[trigger] s2[i].1) by {
                if i < s.len() {
                    assert(s2[i] == s[i]);
                }
            }
        }
    }
}

/// A solution never maps a variable to a type that contains that variable: rewriting a type
/// variable of the solved system yields a type free of it.
pub proof fn lemma_unify_no_self_reference(cs: Seq<(Ty, Ty)>, n: nat)
    ensures
        unify_m(cs) matches Ok(s) ==> (tlookup(s, n) matches Some(u) ==> !occurs_m(n, u)),
    decreases cs_vars(cs).len(), cs_size(cs), 1nat,
{
    if cs.len() > 0 {
        let a = cs[0].0;
        let b = cs[0].1;
        let rest = cs.subrange(1, cs.len() as int);
        if a == b {
            lemma_step_drop(cs);
            lemma_unify_no_self_reference(rest, n);
        } else {
            match (a, b) {
                (Ty::Fn(a1, r1), Ty::Fn(a2, r2)) => {
                    if a1.len() == a2.len() {
                        lemma_step_split(cs, a1, *r1, a2, *r2);
                        lemma_unify_no_self_reference(zip_tys(a1, a2).push((*r1, *r2)) + rest, n);
                    }
                },
                (Ty::Var(m), t) => {
                    lemma_step_var(cs, m, t);
                    lemma_solve_no_self_reference(m, t, rest, n);
                },
                (t, Ty::Var(m)) => {
                    lemma_step_var(cs, m, t);
                    lemma_solve_no_self_reference(m, t, rest, n);
                },
                _ => {},
            }
        }
    }
}

proof fn lemma_solve_no_self_reference(m: nat, t: Ty, rest: Seq<(Ty, Ty)>, n: nat)
    ensures
        solve_var(m, t, rest) matches Ok(s) ==> (tlookup(s, n) matches Some(u) ==> !occurs_m(n, u)),
    decreases cs_vars(seq![(Ty::Var(m), t)] + rest).len(), cs_size(seq![(Ty::Var(m), t)] + rest), 0nat,
{
    if !occurs_m(m, t) {
        let rest2 = apply_cs(seq![(m, t)], rest);
        lemma_step_solve(m, t, rest);
        lemma_unify_no_self_reference(rest2, n);
        if let Ok(s) = unify_m(rest2) {
            let s2 = compose_one(s, m, t);
            assert(s2.drop_last() =~= s);
            if n == m {
                assert forall|i: int| 0 <= i < rest2.len() implies !occurs_m(m, (#[trigger] rest2[i]).0) && !occurs_m(m, rest2[i].1) by {
                    lemma_subst_one_removes(m, t, rest[i].0);
                    lemma_subst_one_removes(m, t, rest[i].1);
                }
                lemma_unify_avoids(rest2, m);
                lemma_apply_keeps_out(s, m, t);
            }
        }
    }
}

/// For every program that type checks, the inferred substitution sends each variable it
/// solves to a type that does not contain that variable.
pub proof fn lemma_inferred_no_self_reference(next: nat, p: Program, n: nat)
    ensures
        infer_m(next, p) matches Ok(s) ==> (tlookup(s, n) matches Some(u) ==> !occurs_m(n, u)),
{
    if let Some(e) = p.expr {
        if let Ok((t, cs, _)) = gen_expr(p.data_defs@, initial_env(), crate::checker::start_of(next, p), e) {
            lemma_unify_no_self_reference(cs, n);
        }
    }
}

/// Rewriting by `s` followed by `n -> t` equals replacing `n` by `t` first and then rewriting
/// by `s`, for any type in which `n`'s image is taken from `t`.
pub proof fn lemma_compose_apply(s: Seq<(nat, Ty)>, n: nat, t: Ty, u: Ty)
    ensures
        apply_ty(compose_one(s, n, t), u) == apply_ty(s, apply_ty(seq![(n, t)], u)),
    decreases u,
{
    let one = seq![(n, t)];
    let c = compose_one(s, n, t);
    assert(one.drop_last() =~= Seq::<(nat, Ty)>::empty());
    assert(c.drop_last() =~= s);
    match u {
        Ty::Var(k) => {
            assert(tlookup(Seq::<(nat, Ty)>::empty(), k) is None);
            assert(one.last() == (n, t));
        },
        Ty::Fn(args, ret) => {
            lemma_compose_apply(s, n, t, *ret);
            lemma_apply_tys_index(c, args);
            lemma_apply_tys_index(one, args);
            lemma_apply_tys_index(s, apply_tys(one, args));
            assert forall|i: int| 0 <= i < args.len() implies #[trigger] apply_tys(c, args)[i] == apply_tys(
                s,
                apply_tys(one, args),
            )[i] by {
                lemma_compose_apply(s, n, t, args[i]);
            }
            assert(apply_tys(c, args) =~= apply_tys(s, apply_tys(one, args)));
        },
        _ => {},
    }
}

/// `s` makes the two sides of every equation equal.
pub open spec fn solves(s: Seq<(nat, Ty)>, cs: Seq<(Ty, Ty)>) -> bool {
    forall|i: int| 0 <= i < cs.len() ==> apply_ty(s, (#[trigger] cs[i]).0) == apply_ty(s, cs[i].1)
}

/// A substitution that unification returns solves every equation it was given.
pub proof fn lemma_unify_solves(cs: Seq<(Ty, Ty)>)
    ensures
        unify_m(cs) matches Ok(s) ==> solves(s, cs),
    decreases cs_vars(cs).len(), cs_size(cs), 1nat,
{
    if cs.len() > 0 {
        let a = cs[0].0;
        let b = cs[0].1;
        let rest = cs.subrange(1, cs.len() as int);
        if a == b {
            lemma_step_drop(cs);
            lemma_unify_solves(rest);
            if let Ok(s) = unify_m(cs) {
                assert forall|i: int| 0 <= i < cs.len() implies apply_ty(s, (#[trigger] cs[i]).0) == apply_ty(s, cs[i].1) by {
                    if i > 0 {
                        assert(cs[i] == rest[i - 1]);
                    }
                }
            }
        } else {
            match (a, b) {
                (Ty::Fn(a1, r1), Ty::Fn(a2, r2)) => {
                    if a1.len() == a2.len() {
                        let next = zip_tys(a1, a2).push((*r1, *r2)) + rest;
                        lemma_step_split(cs, a1, *r1, a2, *r2);
                        lemma_unify_solves(next);
                        if let Ok(s) = unify_m(cs) {
                            lemma_apply_tys_index(s, a1);
                            lemma_apply_tys_index(s, a2);
                            assert forall|j: int| 0 <= j < a1.len() implies #[trigger] apply_tys(s, a1)[j] == apply_tys(s, a2)[j] by {
                                assert(next[j] == (a1[j], a2[j]));
                            }
                            assert(apply_tys(s, a1) =~= apply_tys(s, a2));
                            assert(next[a1.len() as int] == (*r1, *r2));
                            assert forall|i: int| 0 <= i < cs.len() implies apply_ty(s, (#[trigger] cs[i]).0) == apply_ty(s, cs[i].1) by {
                                if i > 0 {
                                    assert(cs[i] == rest[i - 1]);
                                    assert(next[a1.len() + i] == rest[i - 1]);
                                }
                            }
                        }
                    }
                },
                (Ty::Var(m), t) => {
                    lemma_step_var(cs, m, t);
                    lemma_solve_solves(m, t, rest);
                    if let Ok(s) = unify_m(cs) {
                        assert forall|i: int| 0 <= i < cs.len() implies apply_ty(s, (#[trigger] cs[i]).0) == apply_ty(s, cs[i].1) by {
                            if i > 0 {
                                assert(cs[i] == rest[i - 1]);
                            }
                        }
                    }
                },
                (t, Ty::Var(m)) => {
                    lemma_step_var(cs, m, t);
                    lemma_solve_solves(m, t, rest);
                    if let Ok(s) = unify_m(cs) {
                        assert forall|i: int| 0 <= i < cs.len() implies apply_ty(s, (#[trigger] cs[i]).0) == apply_ty(s, cs[i].1) by {
                            if i > 0 {
                                assert(cs[i] == rest[i - 1]);
                            }
                        }
                    }
                },
                _ => {},
            }
        }
    }
}

proof fn lemma_solve_solves(m: nat, t: Ty, rest: Seq<(Ty, Ty)>)
    ensures
        solve_var(m, t, rest) matches Ok(s) ==> apply_ty(s, Ty::Var(m)) == apply_ty(s, t) && solves(s, rest),
    decreases cs_vars(seq![(Ty::Var(m), t)] + rest).len(), cs_size(seq![(Ty::Var(m), t)] + rest), 0nat,
{
    if !occurs_m(m, t) {
        let one = seq![(m, t)];
        let rest2 = apply_cs(one, rest);
        lemma_step_solve(m, t, rest);
        lemma_unify_solves(rest2);
        if let Ok(s) = unify_m(rest2) {
            let c = compose_one(s, m, t);
            lemma_compose_apply(s, m, t, Ty::Var(m));
            lemma_compose_apply(s, m, t, t);
            lemma_subst_one_removes(m, t, t);
            lemma_apply_without(one, m, t, t);
            assert forall|i: int| 0 <= i < rest.len() implies apply_ty(c, (#[trigger] rest[i]).0) == apply_ty(c, rest[i].1) by {
                lemma_compose_apply(s, m, t, rest[i].0);
                lemma_compose_apply(s, m, t, rest[i].1);
                assert(rest2[i] == (apply_ty(one, rest[i].0), apply_ty(one, rest[i].1)));
            }
        }
    }
}

/// A type without `m` is left alone by replacing `m`.
proof fn lemma_apply_without(one: Seq<(nat, Ty)>, m: nat, t: Ty, u: Ty)
    requires
        one == seq![(m, t)],
        !occurs_m(m, u),
    ensures
        apply_ty(one, u) == u,
    decreases u,
{
    assert(one.drop_last() =~= Seq::<(nat, Ty)>::empty());
    match u {
        Ty::Var(k) => {
            assert(tlookup(Seq::<(nat, Ty)>::empty(), k) is None);
            assert(one.last() == (m, t));
        },
        Ty::Fn(args, ret) => {
            lemma_apply_without(one, m, t, *ret);
            lemma_apply_tys_index(one, args);
            lemma_occurs_tys_index(m, args);
            assert forall|i: int| 0 <= i < args.len() implies #[trigger] apply_tys(one, args)[i] == args[i] by {
                lemma_apply_without(one, m, t, args[i]);
            }
            assert(apply_tys(one, args) =~= args);
        },
        _ => {},
    }
}

/// No solved variable occurs in any image: rewriting once more changes nothing.
pub open spec fn idempotent(s: Seq<(nat, Ty)>) -> bool {
    forall|k: nat| #[trigger] tlookup(s, k) is Some ==> images_avoid(s, k)
}

/// Rewriting by a substitution whose images avoid one of its solved variables removes that
/// variable.
pub proof fn lemma_apply_removes_solved(s: Seq<(nat, Ty)>, k: nat, t: Ty)
    requires
        tlookup(s, k) is Some,
        images_avoid(s, k),
    ensures
        !occurs_m(k, apply_ty(s, t)),
    decreases t,
{
    match t {
        Ty::Var(m) => {
            lemma_tlookup_in(s, m);
        },
        Ty::Fn(args, ret) => {
            lemma_apply_removes_solved(s, k, *ret);
            lemma_apply_tys_index(s, args);
            lemma_occurs_tys_index(k, apply_tys(s, args));
            assert forall|i: int| 0 <= i < args.len() implies !occurs_m(k, #[trigger] apply_tys(s, args)[i]) by {
                lemma_apply_removes_solved(s, k, args[i]);
            }
        },
        _ => {},
    }
}

/// A solution is idempotent: no variable it solves occurs in any of its images.
pub proof fn lemma_unify_idempotent(cs: Seq<(Ty, Ty)>)
    ensures
        unify_m(cs) matches Ok(s) ==> idempotent(s),
    decreases cs_vars(cs).len(), cs_size(cs), 1nat,
{
    if cs.len() > 0 {
        let a = cs[0].0;
        let b = cs[0].1;
        let rest = cs.subrange(1, cs.len() as int);
        if a == b {
            lemma_step_drop(cs);
            lemma_unify_idempotent(rest);
        } else {
            match (a, b) {
                (Ty::Fn(a1, r1), Ty::Fn(a2, r2)) => {
                    if a1.len() == a2.len() {
                        lemma_step_split(cs, a1, *r1, a2, *r2);
                        lemma_unify_idempotent(zip_tys(a1, a2).push((*r1, *r2)) + rest);
                    }
                },
                (Ty::Var(m), t) => {
                    lemma_step_var(cs, m, t);
                    lemma_solve_idempotent(m, t, rest);
                },
                (t, Ty::Var(m)) => {
                    lemma_step_var(cs, m, t);
                    lemma_solve_idempotent(m, t, rest);
                },
                _ => {},
            }
        }
    }
}

proof fn lemma_solve_idempotent(m: nat, t: Ty, rest: Seq<(Ty, Ty)>)
    ensures
        solve_var(m, t, rest) matches Ok(s) ==> idempotent(s),
    decreases cs_vars(seq![(Ty::Var(m), t)] + rest).len(), cs_size(seq![(Ty::Var(m), t)] + rest), 0nat,
{
    if !occurs_m(m, t) {
        let rest2 = apply_cs(seq![(m, t)], rest);
        lemma_step_solve(m, t, rest);
        lemma_unify_idempotent(rest2);
        if let Ok(s) = unify_m(rest2) {
            let s2 = compose_one(s, m, t);
            assert(s2.drop_last() =~= s);
            assert forall|i: int| 0 <= i < rest2.len() implies !occurs_m(m, (#[trigger] rest2[i]).0) && !occurs_m(m, rest2[i].1) by {
                lemma_subst_one_removes(m, t, rest[i].0);
                lemma_subst_one_removes(m, t, rest[i].1);
            }
            lemma_unify_avoids(rest2, m);
            lemma_apply_keeps_out(s, m, t);
            assert forall|k: nat| #[trigger] tlookup(s2, k) is Some implies images_avoid(s2, k) by {
                if k == m {
                    assert forall|i: int| 0 <= i < s2.len() implies !occurs_m(k, #[trigger] s2[i].1) by {
                        if i < s.len() {
                            assert(s2[i] == s[i]);
                        }
                    }
                } else {
                    assert(tlookup(s2, k) == tlookup(s, k));
                    lemma_apply_removes_solved(s, k, t);
                    assert forall|i: int| 0 <= i < s2.len() implies !occurs_m(k, #[trigger] s2[i].1) by {
                        if i < s.len() {
                            assert(s2[i] == s[i]);
                        }
                    }
                }
            }
        }
    }
}

/// For every program that type checks, the inferred substitution is idempotent: no variable it
/// solves remains in any image, so the typed program contains none of them.
pub proof fn lemma_inferred_idempotent(next: nat, p: Program)
    ensures
        infer_m(next, p) matches Ok(s) ==> idempotent(s),
{
    if let Some(e) = p.expr {
        if let Ok((t, cs, _)) = gen_expr(p.data_defs@, initial_env(), crate::checker::start_of(next, p), e) {
            lemma_unify_idempotent(cs);
        }
    }
}

/// Rewriting any type by an idempotent substitution leaves none of the variables it solves.
pub proof fn lemma_applied_free_of_solved(s: Seq<(nat, Ty)>, k: nat, t: Ty)
    requires
        idempotent(s),
        tlookup(s, k) is Some,
    ensures
        !occurs_m(k, apply_ty(s, t)),
{
    lemma_apply_removes_solved(s, k, t);
}

pub proof fn lemma_identity_pat(a: Pattern, b: Pattern)
    requires
        crate::checker::pat_subst(Seq::empty(), a, b),
    ensures
        crate::checker::pat_same(a, b),
    decreases a,
{
    match (a, b) {
        (Pattern::Var(_, t1), Pattern::Var(_, _)) => crate::checker::lemma_identity_subst(t1@),
        (Pattern::Data(_, _, pa), Pattern::Data(_, _, pb)) => lemma_identity_pats(pa@, pb@),
        _ => {},
    }
}

pub proof fn lemma_identity_pats(a: Seq<Pattern>, b: Seq<Pattern>)
    requires
        crate::checker::pats_subst(Seq::empty(), a, b),
    ensures
        crate::checker::pats_same(a, b),
    decreases a,
{
    if a.len() > 0 {
        lemma_identity_pats(a.drop_last(), b.drop_last());
        lemma_identity_pat(a.last(), b.last());
    }
}

pub proof fn lemma_identity_simp(a: Simp, b: Simp)
    requires
        crate::checker::simp_subst(Seq::empty(), a, b),
    ensures
        crate::checker::simp_same(a, b),
    decreases a,
{
    match (a, b) {
        (Simp::FnDef(f1), Simp::FnDef(f2)) => {
            crate::checker::lemma_identity_subst(f1.ret@);
            assert forall|i: int| 0 <= i < f1.args@.len() implies f2.args@[i].1@ == f1.args@[i].1@ by {
                crate::checker::lemma_identity_subst(f1.args@[i].1@);
            }
            lemma_identity_simp(crate::scan::fn_body(f1), crate::scan::fn_body(f2));
        },
        (Simp::Match(x1, a1), Simp::Match(x2, a2)) => {
            lemma_identity_simp(*x1, *x2);
            lemma_identity_arms(a1@, a2@);
        },
        (Simp::FnCall(l1, a1), Simp::FnCall(l2, a2)) => {
            lemma_identity_simp(*l1, *l2);
            lemma_identity_simps(a1@, a2@);
        },
        (Simp::Block(e1), Simp::Block(e2)) => lemma_identity_expr(*e1, *e2),
        (Simp::Data(_, a1), Simp::Data(_, a2)) => lemma_identity_simps(a1@, a2@),
        _ => {},
    }
}

pub proof fn lemma_identity_simps(a: Seq<Simp>, b: Seq<Simp>)
    requires
        crate::checker::simps_subst(Seq::empty(), a, b),
    ensures
        crate::checker::simps_same(a, b),
    decreases a,
{
    if a.len() > 0 {
        lemma_identity_simps(a.drop_last(), b.drop_last());
        lemma_identity_simp(a.last(), b.last());
    }
}

pub proof fn lemma_identity_arms(a: Seq<(Pattern, Simp)>, b: Seq<(Pattern, Simp)>)
    requires
        crate::checker::arms_subst(Seq::empty(), a, b),
    ensures
        crate::checker::arms_same(a, b),
    decreases a,
{
    if a.len() > 0 {
        lemma_identity_arms(a.drop_last(), b.drop_last());
        lemma_identity_pat(a.last().0, b.last().0);
        lemma_identity_simp(a.last().1, b.last().1);
    }
}

pub proof fn lemma_identity_expr(a: Expr, b: Expr)
    requires
        crate::checker::expr_subst(Seq::empty(), a, b),
    ensures
        crate::checker::expr_same(a, b),
    decreases a,
{
    match (a, b) {
        (Expr::Bind(pa, ra, ba), Expr::Bind(pb, rb, bb)) => {
            lemma_identity_pat(pa, pb);
            lemma_identity_simp(ra, rb);
            lemma_identity_expr(*ba, *bb);
        },
        (Expr::Simp(x), Expr::Simp(y)) => lemma_identity_simp(x, y),
        _ => {},
    }
}

/// Applying the identity substitution to a program gives a structurally equal program.
pub proof fn lemma_identity_program(a: Program, b: Program)
    requires
        crate::checker::program_subst(Seq::empty(), a, b),
    ensures
        crate::checker::program_same(a, b),
{
    if let (Some(x), Some(y)) = (a.expr, b.expr) {
        lemma_identity_expr(x, y);
    }
}

proof fn lemma_simps_subst_index(s: Seq<(nat, Ty)>, a: Seq<Simp>, b: Seq<Simp>)
    requires
        crate::checker::simps_subst(s, a, b),
    ensures
        a.len() == b.len(),
        forall|i: int| 0 <= i < a.len() ==> crate::checker::simp_subst(s, #[trigger] a[i], b[i]),
    decreases a.len(),
{
    if a.len() > 0 {
        lemma_simps_subst_index(s, a.drop_last(), b.drop_last());
        assert forall|i: int| 0 <= i < a.len() implies crate::checker::simp_subst(s, #[trigger] a[i], b[i]) by {
            if i < a.len() - 1 {
                assert(a.drop_last()[i] == a[i]);
                assert(b.drop_last()[i] == b[i]);
            }
        }
    }
}

proof fn lemma_arms_subst_index(s: Seq<(nat, Ty)>, a: Seq<(Pattern, Simp)>, b: Seq<(Pattern, Simp)>)
    requires
        crate::checker::arms_subst(s, a, b),
    ensures
        a.len() == b.len(),
        forall|i: int| 0 <= i < a.len() ==> crate::checker::pat_subst(s, (#[trigger] a[i]).0, b[i].0)
            && crate::checker::simp_subst(s, a[i].1, b[i].1),
    decreases a.len(),
{
    if a.len() > 0 {
        lemma_arms_subst_index(s, a.drop_last(), b.drop_last());
        assert forall|i: int| 0 <= i < a.len() implies crate::checker::pat_subst(s, (#[trigger] a[i]).0, b[i].0)
            && crate::checker::simp_subst(s, a[i].1, b[i].1) by {
            if i < a.len() - 1 {
                assert(a.drop_last()[i] == a[i]);
                assert(b.drop_last()[i] == b[i]);
            }
        }
    }
}

proof fn lemma_result_pat(s: Seq<(nat, Ty)>, k: nat, a: Pattern, b: Pattern)
    requires
        idempotent(s),
        tlookup(s, k) is Some,
        crate::checker::pat_subst(s, a, b),
    ensures
        crate::scan::pat_all(b, crate::scan::avoids(k)),
    decreases a,
{
    match (a, b) {
        (Pattern::Var(_, t1), Pattern::Var(_, _)) => lemma_applied_free_of_solved(s, k, t1@),
        (Pattern::Data(_, _, pa), Pattern::Data(_, _, pb)) => lemma_result_pats(s, k, pa@, pb@),
        _ => {},
    }
}

proof fn lemma_result_pats(s: Seq<(nat, Ty)>, k: nat, a: Seq<Pattern>, b: Seq<Pattern>)
    requires
        idempotent(s),
        tlookup(s, k) is Some,
        crate::checker::pats_subst(s, a, b),
    ensures
        crate::scan::pats_all(b, crate::scan::avoids(k)),
    decreases a,
{
    if a.len() > 0 {
        lemma_result_pats(s, k, a.drop_last(), b.drop_last());
        lemma_result_pat(s, k, a.last(), b.last());
    }
}

proof fn lemma_result_simp(s: Seq<(nat, Ty)>, k: nat, a: Simp, b: Simp)
    requires
        idempotent(s),
        tlookup(s, k) is Some,
        crate::checker::simp_subst(s, a, b),
    ensures
        crate::scan::simp_all(b, crate::scan::avoids(k)),
    decreases a,
{
    match (a, b) {
        (Simp::FnDef(f1), Simp::FnDef(f2)) => {
            lemma_applied_free_of_solved(s, k, f1.ret@);
            assert forall|i: int| 0 <= i < f2.args@.len() implies #[trigger] crate::scan::avoids(k)(f2.args@[i].1@) by {
                lemma_applied_free_of_solved(s, k, f1.args@[i].1@);
            }
            lemma_result_simp(s, k, crate::scan::fn_body(f1), crate::scan::fn_body(f2));
        },
        (Simp::Match(x1, a1), Simp::Match(x2, a2)) => {
            lemma_result_simp(s, k, *x1, *x2);
            lemma_arms_subst_index(s, a1@, a2@);
            assert forall|i: int| 0 <= i < a2@.len() implies crate::scan::pat_all((#[trigger] a2@[i]).0, crate::scan::avoids(k))
                && crate::scan::simp_all(a2@[i].1, crate::scan::avoids(k)) by {
                lemma_result_pat(s, k, a1@[i].0, a2@[i].0);
                lemma_result_simp(s, k, a1@[i].1, a2@[i].1);
            }
            crate::scan::lemma_arms_all_of_index(a2@, crate::scan::avoids(k));
        },
        (Simp::FnCall(l1, a1), Simp::FnCall(l2, a2)) => {
            lemma_result_simp(s, k, *l1, *l2);
            lemma_result_simps(s, k, a1@, a2@);
        },
        (Simp::Block(e1), Simp::Block(e2)) => lemma_result_expr(s, k, *e1, *e2),
        (Simp::Data(_, a1), Simp::Data(_, a2)) => lemma_result_simps(s, k, a1@, a2@),
        _ => {},
    }
}

proof fn lemma_result_simps(s: Seq<(nat, Ty)>, k: nat, a: Seq<Simp>, b: Seq<Simp>)
    requires
        idempotent(s),
        tlookup(s, k) is Some,
        crate::checker::simps_subst(s, a, b),
    ensures
        crate::scan::simps_all(b, crate::scan::avoids(k)),
    decreases a,
{
    lemma_simps_subst_index(s, a, b);
    assert forall|i: int| 0 <= i < b.len() implies crate::scan::simp_all(#[trigger] b[i], crate::scan::avoids(k)) by {
        lemma_result_simp(s, k, a[i], b[i]);
    }
    crate::scan::lemma_simps_all_of_index(b, crate::scan::avoids(k));
}

proof fn lemma_result_expr(s: Seq<(nat, Ty)>, k: nat, a: Expr, b: Expr)
    requires
        idempotent(s),
        tlookup(s, k) is Some,
        crate::checker::expr_subst(s, a, b),
    ensures
        crate::scan::expr_all(b, crate::scan::avoids(k)),
    decreases a,
{
    match (a, b) {
        (Expr::Bind(pa, ra, ba), Expr::Bind(pb, rb, bb)) => {
            lemma_result_pat(s, k, pa, pb);
            lemma_result_simp(s, k, ra, rb);
            lemma_result_expr(s, k, *ba, *bb);
        },
        (Expr::Simp(x), Expr::Simp(y)) => lemma_result_simp(s, k, x, y),
        _ => {},
    }
}

/// For every program that type checks, no variable that the inferred substitution solves
/// occurs in any type annotation of the typed program that `infer` returns.
pub proof fn lemma_typed_program_free_of_solved(next: nat, p: Program, r: Program, k: nat)
    requires
        infer_m(next, p) is Ok,
        crate::checker::program_subst(infer_m(next, p)->Ok_0, p, r),
        tlookup(infer_m(next, p)->Ok_0, k) is Some,
    ensures
        r.expr matches Some(e) ==> crate::scan::expr_all(e, crate::scan::avoids(k)),
{
    let s = infer_m(next, p)->Ok_0;
    lemma_inferred_idempotent(next, p);
    if let (Some(x), Some(y)) = (p.expr, r.expr) {
        lemma_result_expr(s, k, x, y);
    }
}

} // verus!
