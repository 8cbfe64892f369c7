use crate::ast::Ty;
use crate::checker::{apply_cs, apply_ty, apply_tys, lemma_apply_tys_index, lemma_occurs_tys_index, occurs_m, solve_var, tlookup, unify_m, zip_tys};
use crate::measure::{cs_size, cs_vars, lemma_step_drop, lemma_step_solve, lemma_step_split, lemma_step_var, ty_size, tys_size};
use crate::solve_laws::{lemma_compose_apply, solves};
use vstd::prelude::*;

verus! {

/// Replaces every type variable `n` of `t` by `sigma(n)`.
pub open spec fn inst(sigma: spec_fn(nat) -> Ty, t: Ty) -> Ty
    decreases t,
{
    match t {
        Ty::Var(n) => sigma(n),
        Ty::Fn(args, ret) => Ty::Fn(insts(sigma, args), Box::new(inst(sigma, *ret))),
        _ => t,
    }
}

pub open spec fn insts(sigma: spec_fn(nat) -> Ty, ts: Seq<Ty>) -> Seq<Ty>
    decreases ts,
{
    if ts.len() == 0 {
        Seq::empty()
    } else {
        insts(sigma, ts.drop_last()).push(inst(sigma, ts.last()))
    }
}

/// `sigma` makes the two sides of every equation the same type.
pub open spec fn unifies(sigma: spec_fn(nat) -> Ty, cs: Seq<(Ty, Ty)>) -> bool {
    forall|i: int| 0 <= i < cs.len() ==> inst(sigma, (#[trigger] cs[i]).0) == inst(sigma, cs[i].1)
}

/// The substitution `s` as a function on variables.
pub open spec fn as_fn(s: Seq<(nat, Ty)>) -> spec_fn(nat) -> Ty {
    |n: nat| apply_ty(s, Ty::Var(n))
}

pub proof fn lemma_insts_index(sigma: spec_fn(nat) -> Ty, ts: Seq<Ty>)
    ensures
        insts(sigma, ts).len() == ts.len(),
        forall|i: int| 0 <= i < ts.len() ==> #[trigger] insts(sigma, ts)[i] == inst(sigma, ts[i]),
    decreases ts.len(),
{
    if ts.len() > 0 {
        lemma_insts_index(sigma, ts.drop_last());
        assert forall|i: int| 0 <= i < ts.len() implies #[trigger] insts(sigma, ts)[i] == inst(sigma, ts[i]) by {
            if i < ts.len() - 1 {
                assert(ts.drop_last()[i] == ts[i]);
            }
        }
    }
}

/// Instantiating after replacing `n` by `t` changes nothing when `sigma` already agrees on them.
proof fn lemma_inst_one(sigma: spec_fn(nat) -> Ty, n: nat, t: Ty, u: Ty)
    requires
        sigma(n) == inst(sigma, t),
    ensures
        inst(sigma, apply_ty(seq![(n, t)], u)) == inst(sigma, u),
    decreases u,
{
    let one = seq![(n, t)];
    assert(one.drop_last() =~= Seq::<(nat, Ty)>::empty());
    match u {
        Ty::Var(k) => {
            assert(tlookup(Seq::<(nat, Ty)>::empty(), k) is None);
            assert(one.last() == (n, t));
        },
        Ty::Fn(args, ret) => {
            lemma_inst_one(sigma, n, t, *ret);
            lemma_apply_tys_index(one, args);
            lemma_insts_index(sigma, args);
            lemma_insts_index(sigma, apply_tys(one, args));
            assert forall|i: int| 0 <= i < args.len() implies #[trigger] insts(sigma, apply_tys(one, args))[i] == insts(
                sigma,
                args,
            )[i] by {
                lemma_inst_one(sigma, n, t, args[i]);
            }
            assert(insts(sigma, apply_tys(one, args)) =~= insts(sigma, args));
        },
        _ => {},
    }
}

proof fn lemma_tys_size_elem(ts: Seq<Ty>, i: int)
    requires
        0 <= i < ts.len(),
    ensures
        ty_size(ts[i]) <= tys_size(ts),
    decreases ts.len(),
{
    if i < ts.len() - 1 {
        lemma_tys_size_elem(ts.drop_last(), i);
        assert(ts.drop_last()[i] == ts[i]);
    }
}

/// A type that contains `n` is instantiated to something at least as large as `sigma(n)`,
/// and strictly larger when the type is a function type.
proof fn lemma_inst_size(sigma: spec_fn(nat) -> Ty, n: nat, u: Ty)
    requires
        occurs_m(n, u),
    ensures
        ty_size(inst(sigma, u)) >= ty_size(sigma(n)),
        u is Fn ==> ty_size(inst(sigma, u)) > ty_size(sigma(n)),
    decreases u,
{
    if let Ty::Fn(args, ret) = u {
        lemma_occurs_tys_index(n, args);
        if occurs_m(n, *ret) {
            lemma_inst_size(sigma, n, *ret);
        } else {
            let i = choose|i: int| 0 <= i < args.len() && #[trigger] occurs_m(n, args[i]);
            lemma_inst_size(sigma, n, args[i]);
            lemma_insts_index(sigma, args);
            lemma_tys_size_elem(insts(sigma, args), i);
        }
    }
}

/// Completeness and generality of unification: when some `sigma` unifies the equations,
/// unification succeeds, and its result `s` is more general than `sigma`: instantiating by
/// `sigma` after rewriting by `s` is the same as instantiating by `sigma` alone.
pub proof fn lemma_unify_most_general(cs: Seq<(Ty, Ty)>, sigma: spec_fn(nat) -> Ty)
    requires
        unifies(sigma, cs),
    ensures
        unify_m(cs) is Ok,
        forall|t: Ty| #[trigger] inst(sigma, apply_ty(unify_m(cs)->Ok_0, t)) == inst(sigma, t),
    decreases cs_vars(cs).len(), cs_size(cs), 1nat,
{
    if cs.len() == 0 {
        assert forall|t: Ty| #[trigger] inst(sigma, apply_ty(unify_m(cs)->Ok_0, t)) == inst(sigma, t) by {
            crate::checker::lemma_identity_subst(t);
        }
    } else {
        let a = cs[0].0;
        let b = cs[0].1;
        let rest = cs.subrange(1, cs.len() as int);
        assert(inst(sigma, cs[0].0) == inst(sigma, cs[0].1));
        assert(unifies(sigma, rest)) by {
            assert forall|i: int| 0 <= i < rest.len() implies inst(sigma, (#[trigger] rest[i]).0) == inst(sigma, rest[i].1) by {
                assert(rest[i] == cs[i + 1]);
            }
        }
        if a == b {
            lemma_step_drop(cs);
            lemma_unify_most_general(rest, sigma);
        } else {
            match (a, b) {
                (Ty::Fn(a1, r1), Ty::Fn(a2, r2)) => {
                    lemma_insts_index(sigma, a1);
                    lemma_insts_index(sigma, a2);
                    assert(insts(sigma, a1) == insts(sigma, a2));
                    let next = zip_tys(a1, a2).push((*r1, *r2)) + rest;
                    assert(unifies(sigma, next)) by {
                        assert forall|i: int| 0 <= i < next.len() implies inst(sigma, (#[trigger] next[i]).0) == inst(
                            sigma,
                            next[i].1,
                        ) by {
                            if i < a1.len() {
                                assert(next[i] == (a1[i], a2[i]));
                                assert(insts(sigma, a1)[i] == insts(sigma, a2)[i]);
                            } else if i == a1.len() {
                                assert(next[i] == (*r1, *r2));
                            } else {
                                assert(next[i] == rest[i - a1.len() - 1]);
                            }
                        }
                    }
                    lemma_step_split(cs, a1, *r1, a2, *r2);
                    lemma_unify_most_general(next, sigma);
                },
                (Ty::Var(m), t) => {
                    lemma_step_var(cs, m, t);
                    lemma_solve_most_general(m, t, rest, sigma);
                },
                (t, Ty::Var(m)) => {
                    lemma_step_var(cs, m, t);
                    lemma_solve_most_general(m, t, rest, sigma);
                },
                _ => {},
            }
        }
    }
}

proof fn lemma_solve_most_general(m: nat, t: Ty, rest: Seq<(Ty, Ty)>, sigma: spec_fn(nat) -> Ty)
    requires
        sigma(m) == inst(sigma, t),
        t != Ty::Var(m),
        unifies(sigma, rest),
    ensures
        solve_var(m, t, rest) is Ok,
        forall|u: Ty| #[trigger] inst(sigma, apply_ty(solve_var(m, t, rest)->Ok_0, u)) == inst(sigma, u),
    decreases cs_vars(seq![(Ty::Var(m), t)] + rest).len(), cs_size(seq![(Ty::Var(m), t)] + rest), 0nat,
{
    if occurs_m(m, t) {
        lemma_inst_size(sigma, m, t);
    } else {
        let one = seq![(m, t)];
        let rest2 = apply_cs(one, rest);
        assert(unifies(sigma, rest2)) by {
            assert forall|i: int| 0 <= i < rest2.len() implies inst(sigma, (#[trigger] rest2[i]).0) == inst(sigma, rest2[i].1) by {
                lemma_inst_one(sigma, m, t, rest[i].0);
                lemma_inst_one(sigma, m, t, rest[i].1);
            }
        }
        lemma_step_solve(m, t, rest);
        lemma_unify_most_general(rest2, sigma);
        let s = unify_m(rest2)->Ok_0;
        assert forall|u: Ty| #[trigger] inst(sigma, apply_ty(solve_var(m, t, rest)->Ok_0, u)) == inst(sigma, u) by {
            lemma_compose_apply(s, m, t, u);
            assert(inst(sigma, apply_ty(s, apply_ty(one, u))) == inst(sigma, apply_ty(one, u)));
            lemma_inst_one(sigma, m, t, u);
        }
    }
}

/// Rewriting by `s` once is instantiating by `s` viewed as a function.
pub proof fn lemma_apply_is_inst(s: Seq<(nat, Ty)>, t: Ty)
    ensures
        apply_ty(s, t) == inst(as_fn(s), t),
    decreases t,
{
    if let Ty::Fn(args, ret) = t {
        lemma_apply_is_inst(s, *ret);
        lemma_apply_tys_index(s, args);
        lemma_insts_index(as_fn(s), args);
        assert forall|i: int| 0 <= i < args.len() implies #[trigger] apply_tys(s, args)[i] == insts(as_fn(s), args)[i] by {
            lemma_apply_is_inst(s, args[i]);
        }
        assert(apply_tys(s, args) =~= insts(as_fn(s), args));
    }
}

/// Unification fails exactly when no substitution unifies the equations; when it succeeds its
/// result is a unifier.
pub proof fn lemma_unify_exact(cs: Seq<(Ty, Ty)>)
    ensures
        unify_m(cs) is Ok <==> exists|sigma: spec_fn(nat) -> Ty| #[trigger] unifies(sigma, cs),
        unify_m(cs) matches Ok(s) ==> unifies(as_fn(s), cs),
{
    crate::solve_laws::lemma_unify_solves(cs);
    if let Ok(s) = unify_m(cs) {
        assert forall|i: int| 0 <= i < cs.len() implies inst(as_fn(s), (#[trigger] cs[i]).0) == inst(as_fn(s), cs[i].1) by {
            lemma_apply_is_inst(s, cs[i].0);
            lemma_apply_is_inst(s, cs[i].1);
        }
        assert(unifies(as_fn(s), cs));
    }
    if exists|sigma: spec_fn(nat) -> Ty| #[trigger] unifies(sigma, cs) {
        let sigma = choose|sigma: spec_fn(nat) -> Ty| #[trigger] unifies(sigma, cs);
        lemma_unify_most_general(cs, sigma);
    }
}

/// Each equation with its two sides exchanged.
pub open spec fn swap_cs(cs: Seq<(Ty, Ty)>) -> Seq<(Ty, Ty)> {
    cs.map_values(|c: (Ty, Ty)| (c.1, c.0))
}

proof fn lemma_swap_unifies(sigma: spec_fn(nat) -> Ty, cs: Seq<(Ty, Ty)>)
    ensures
        unifies(sigma, cs) <==> unifies(sigma, swap_cs(cs)),
{
    if unifies(sigma, cs) {
        assert forall|i: int| 0 <= i < swap_cs(cs).len() implies inst(sigma, (#[trigger] swap_cs(cs)[i]).0) == inst(sigma, swap_cs(cs)[i].1) by {
            assert(inst(sigma, cs[i].0) == inst(sigma, cs[i].1));
        }
    }
    if unifies(sigma, swap_cs(cs)) {
        assert forall|i: int| 0 <= i < cs.len() implies inst(sigma, (#[trigger] cs[i]).0) == inst(sigma, cs[i].1) by {
            assert(inst(sigma, swap_cs(cs)[i].0) == inst(sigma, swap_cs(cs)[i].1));
        }
    }
}

/// Unification does not depend on the orientation of the equations: exchanging the sides of
/// every equation succeeds exactly when the original does, and the two solutions are equally
/// general, each absorbing the other. They can differ only in which of two variables that are
/// made equal is kept, as `T0 = T1` gives `0 -> T1` and `T1 = T0` gives `1 -> T0`.
pub proof fn lemma_unify_orientation(cs: Seq<(Ty, Ty)>)
    ensures
        unify_m(cs) is Ok <==> unify_m(swap_cs(cs)) is Ok,
        unify_m(cs) is Ok ==> forall|t: Ty|
            #[trigger] apply_ty(unify_m(swap_cs(cs))->Ok_0, apply_ty(unify_m(cs)->Ok_0, t)) == apply_ty(
                unify_m(swap_cs(cs))->Ok_0,
                t,
            ) && apply_ty(unify_m(cs)->Ok_0, apply_ty(unify_m(swap_cs(cs))->Ok_0, t)) == apply_ty(unify_m(cs)->Ok_0, t),
{
    let sw = swap_cs(cs);
    lemma_unify_exact(cs);
    lemma_unify_exact(sw);
    if unify_m(cs) is Ok {
        let s1 = unify_m(cs)->Ok_0;
        lemma_swap_unifies(as_fn(s1), cs);
        lemma_unify_most_general(sw, as_fn(s1));
    }
    if unify_m(sw) is Ok {
        let s2 = unify_m(sw)->Ok_0;
        lemma_swap_unifies(as_fn(s2), cs);
        lemma_unify_most_general(cs, as_fn(s2));
    }
    if unify_m(cs) is Ok {
        let s1 = unify_m(cs)->Ok_0;
        let s2 = unify_m(sw)->Ok_0;
        assert forall|t: Ty| #[trigger] apply_ty(s2, apply_ty(s1, t)) == apply_ty(s2, t) && apply_ty(s1, apply_ty(s2, t))
            == apply_ty(s1, t) by {
            lemma_apply_is_inst(s2, apply_ty(s1, t));
            lemma_apply_is_inst(s2, t);
            lemma_apply_is_inst(s1, apply_ty(s2, t));
            lemma_apply_is_inst(s1, t);
            assert(inst(as_fn(s2), apply_ty(s1, t)) == inst(as_fn(s2), t));
            assert(inst(as_fn(s1), apply_ty(s2, t)) == inst(as_fn(s1), t));
        }
    }
}

} // verus!
