use crate::ast::{
    copy_types, lemma_op_spellings, lemma_tys_view_index, lemma_tys_view_ext, pat_binds, pairs_view, tys_view, Cons, DataDef, Expr,
    FnDef, Name, Pattern, Program, Simp, Ty, Type,
};
use crate::measure::{cs_size, cs_vars, lemma_step_drop, lemma_step_solve, lemma_step_split, lemma_step_var};
use crate::scan::{
    arms_all, avoids, below, env_all, expr_all, lemma_args_env, lemma_arms_all_mono, lemma_below_implies,
    lemma_below_implies_avoids, lemma_env_all_mono, lemma_env_extend, lemma_expr_all_mono, lemma_pat_binds_all,
    lemma_simp_all_mono, lemma_simps_all_mono, maxn, progb, simp_all, simps_all,
};
use std::rc::Rc;
use vstd::prelude::*;

verus! {

/// Why type inference failed.
#[derive(Clone, Copy, PartialEq, Eq, Structural, Debug)]
pub enum TypeError {
    /// A name with no binding in scope.
    Unbound,
    /// A constructor that no data type defines.
    UnknownCons,
    /// A constructor applied to, or matched with, the wrong number of fields.
    Arity,
    /// Two types that cannot be made equal.
    CannotUnify,
    /// A type variable that would have to contain itself.
    Recursive,
    /// The program's type is still a variable after solving.
    Unresolved,
    /// A `match` without arms.
    EmptyMatch,
    /// The program has no expression to type.
    NoExpr,
    /// No type variable ids are left.
    Exhausted,
}

/// An equation between two types.
pub struct TyConstraint(pub Type, pub Type);

/// A substitution of types for type variables; later entries take precedence.
pub struct TySubst {
    subst: Vec<(usize, Type)>,
}

/// The image of variable `n`, if it has one.
pub open spec fn tlookup(s: Seq<(nat, Ty)>, n: nat) -> Option<Ty>
    decreases s.len(),
{
    if s.len() == 0 {
        None
    } else if s.last().0 == n {
        Some(s.last().1)
    } else {
        tlookup(s.drop_last(), n)
    }
}

/// Replaces every variable of `t` that has an image by that image, once.
pub open spec fn apply_ty(s: Seq<(nat, Ty)>, t: Ty) -> Ty
    decreases t,
{
    match t {
        Ty::Var(n) => match tlookup(s, n) {
            Some(u) => u,
            None => t,
        },
        Ty::Fn(args, ret) => Ty::Fn(apply_tys(s, args), Box::new(apply_ty(s, *ret))),
        _ => t,
    }
}

pub open spec fn apply_tys(s: Seq<(nat, Ty)>, ts: Seq<Ty>) -> Seq<Ty>
    decreases ts,
{
    if ts.len() == 0 {
        Seq::empty()
    } else {
        apply_tys(s, ts.drop_last()).push(apply_ty(s, ts.last()))
    }
}

/// Whether variable `n` occurs in `t`.
pub open spec fn occurs_m(n: nat, t: Ty) -> bool
    decreases t,
{
    match t {
        Ty::Var(m) => m == n,
        Ty::Fn(args, ret) => occurs_tys(n, args) || occurs_m(n, *ret),
        _ => false,
    }
}

pub open spec fn occurs_tys(n: nat, ts: Seq<Ty>) -> bool
    decreases ts,
{
    if ts.len() == 0 {
        false
    } else {
        occurs_tys(n, ts.drop_last()) || occurs_m(n, ts.last())
    }
}

pub open spec fn cs_view(cs: Seq<TyConstraint>) -> Seq<(Ty, Ty)> {
    cs.map_values(|c: TyConstraint| (c.0@, c.1@))
}

pub open spec fn apply_cs(s: Seq<(nat, Ty)>, cs: Seq<(Ty, Ty)>) -> Seq<(Ty, Ty)> {
    cs.map_values(|c: (Ty, Ty)| (apply_ty(s, c.0), apply_ty(s, c.1)))
}

pub open spec fn zip_tys(a: Seq<Ty>, b: Seq<Ty>) -> Seq<(Ty, Ty)> {
    Seq::new(a.len(), |i: int| (a[i], b[i]))
}

/// `s` followed by `n -> t`, where `t` is first rewritten by `s`.
pub open spec fn compose_one(s: Seq<(nat, Ty)>, n: nat, t: Ty) -> Seq<(nat, Ty)> {
    s.push((n, apply_ty(s, t)))
}

/// Robinson unification of a list of equations, first to last. It terminates: each step
/// either removes a variable from the equations or makes them smaller.
pub open spec fn unify_m(cs: Seq<(Ty, Ty)>) -> Result<Seq<(nat, Ty)>, TypeError>
    decreases cs_vars(cs).len(), cs_size(cs), 1nat,
{
    if cs.len() == 0 {
        Ok(Seq::empty())
    } else {
        let a = cs[0].0;
        let b = cs[0].1;
        let rest = cs.subrange(1, cs.len() as int);
        if a == b {
            proof {
                lemma_step_drop(cs);
            }
            unify_m(rest)
        } else {
            match (a, b) {
                (Ty::Fn(a1, r1), Ty::Fn(a2, r2)) => if a1.len() != a2.len() {
                    Err(TypeError::CannotUnify)
                } else {
                    proof {
                        lemma_step_split(cs, a1, *r1, a2, *r2);
                    }
                    unify_m(zip_tys(a1, a2).push((*r1, *r2)) + rest)
                },
                (Ty::Var(n), t) => {
                    proof {
                        lemma_step_var(cs, n, t);
                    }
                    solve_var(n, t, rest)
                },
                (t, Ty::Var(n)) => {
                    proof {
                        lemma_step_var(cs, n, t);
                    }
                    solve_var(n, t, rest)
                },
                _ => Err(TypeError::CannotUnify),
            }
        }
    }
}

/// Solves `n = t`: fails if `n` occurs in `t`, else solves the rest with `n` replaced and
/// adds `n` with its image.
pub open spec fn solve_var(n: nat, t: Ty, rest: Seq<(Ty, Ty)>) -> Result<Seq<(nat, Ty)>, TypeError>
    decreases cs_vars(seq![(Ty::Var(n), t)] + rest).len(), cs_size(seq![(Ty::Var(n), t)] + rest), 0nat,
{
    if occurs_m(n, t) {
        Err(TypeError::Recursive)
    } else {
        proof {
            lemma_step_solve(n, t, rest);
        }
        match unify_m(apply_cs(seq![(n, t)], rest)) {
            Ok(s) => Ok(compose_one(s, n, t)),
            Err(e) => Err(e),
        }
    }
}

pub open spec fn subst_view(v: Seq<(usize, Type)>) -> Seq<(nat, Ty)> {
    v.map_values(|p: (usize, Type)| (p.0 as nat, p.1@))
}

impl View for TySubst {
    type V = Seq<(nat, Ty)>;

    closed spec fn view(&self) -> Seq<(nat, Ty)> {
        subst_view(self.subst@)
    }
}

pub proof fn lemma_apply_tys_index(s: Seq<(nat, Ty)>, ts: Seq<Ty>)
    ensures
        apply_tys(s, ts).len() == ts.len(),
        forall|i: int| 0 <= i < ts.len() ==> #[trigger] apply_tys(s, ts)[i] == apply_ty(s, ts[i]),
    decreases ts.len(),
{
    if ts.len() > 0 {
        lemma_apply_tys_index(s, ts.drop_last());
        assert forall|i: int| 0 <= i < ts.len() implies #[trigger] apply_tys(s, ts)[i] == apply_ty(s, ts[i]) by {
            if i < ts.len() - 1 {
                assert(ts.drop_last()[i] == ts[i]);
            }
        }
    }
}

pub proof fn lemma_occurs_tys_index(n: nat, ts: Seq<Ty>)
    ensures
        occurs_tys(n, ts) == exists|i: int| 0 <= i < ts.len() && #[trigger] occurs_m(n, ts[i]),
    decreases ts.len(),
{
    if ts.len() > 0 {
        lemma_occurs_tys_index(n, ts.drop_last());
        if occurs_tys(n, ts.drop_last()) {
            let i = choose|i: int| 0 <= i < ts.drop_last().len() && #[trigger] occurs_m(n, ts.drop_last()[i]);
            assert(ts.drop_last()[i] == ts[i]);
        }
        if occurs_m(n, ts.last()) {
            assert(occurs_m(n, ts[ts.len() - 1]));
        }
        if exists|i: int| 0 <= i < ts.len() && #[trigger] occurs_m(n, ts[i]) {
            let i = choose|i: int| 0 <= i < ts.len() && #[trigger] occurs_m(n, ts[i]);
            if i < ts.len() - 1 {
                assert(ts.drop_last()[i] == ts[i]);
            }
        }
    }
}

impl TySubst {
    pub fn new() -> (r: TySubst)
        ensures
            r@ == Seq::<(nat, Ty)>::empty(),
    {
        let r = TySubst { subst: Vec::new() };
        proof {
            assert(r@ =~= Seq::<(nat, Ty)>::empty());
        }
        r
    }

    pub fn singleton(n: usize, ty: Type) -> (r: TySubst)
        ensures
            r@ == seq![(n as nat, ty@)],
    {
        let r = TySubst { subst: vec![(n, ty)] };
        proof {
            assert(r@ =~= seq![(n as nat, ty@)]);
        }
        r
    }

    fn lookup(&self, n: usize) -> (r: Option<Type>)
        ensures
            match tlookup(self@, n as nat) {
                Some(t) => r is Some && r->0@ == t,
                None => r is None,
            },
    {
        let ghost b = self@;
        let mut i: usize = self.subst.len();
        proof {
            assert(b.subrange(0, i as int) =~= b);
        }
        while i > 0
            invariant
                i <= self.subst.len(),
                b == self@,
                b == subst_view(self.subst@),
                tlookup(b, n as nat) == tlookup(b.subrange(0, i as int), n as nat),
            decreases i,
        {
            proof {
                assert(b.subrange(0, i as int).drop_last() =~= b.subrange(0, i as int - 1));
            }
            if self.subst[i - 1].0 == n {
                return Some(self.subst[i - 1].1.clone());
            }
            i -= 1;
        }
        None
    }

    /// Rewrites every variable of `ty` that has an image.
    pub fn apply(&self, ty: Type) -> (r: Type)
        ensures
            r@ == apply_ty(self@, ty@),
        decreases ty,
    {
        let ghost gty = ty;
        match ty {
            Type::TyVar(n) => match self.lookup(n) {
                Some(t) => t,
                None => Type::TyVar(n),
            },
            Type::Fn(args, ret) => {
                let ghost orig = args@;
                proof {
                    lemma_tys_view_index(orig);
                    lemma_apply_tys_index(self@, tys_view(orig));
                }
                let mut src = args;
                let total = src.len();
                let mut out: Vec<Type> = Vec::new();
                let mut k: usize = 0;
                while src.len() > 0
                    invariant
                        k <= total,
                        orig.len() == total,
                        src@ == orig.subrange(k as int, total as int),
                        out.len() == k,
                        forall|j: int| 0 <= j < k ==> (#[trigger] out@[j])@ == apply_ty(self@, orig[j]@),
                        gty is Fn,
                        gty->Fn_0@ == orig,
                        gty == ty,
                    decreases src.len(),
                {
                    proof {
                        assert(src@.len() == total - k);
                    }
                    let a = src.remove(0);
                    proof {
                        assert(a == orig[k as int]);
                        assert(decreases_to!(ty => ty->Fn_0));
                        assert(decreases_to!(ty->Fn_0 => ty->Fn_0@));
                        assert(decreases_to!(ty->Fn_0@ => ty->Fn_0@[k as int]));
                        assert(src@ =~= orig.subrange(k as int + 1, total as int));
                    }
                    out.push(self.apply(a));
                    k += 1;
                }
                let r = Type::Fn(out, Box::new(self.apply(*ret)));
                proof {
                    lemma_tys_view_index(out@);
                    assert(tys_view(out@) =~= apply_tys(self@, tys_view(orig)));
                }
                r
            },
            other => other,
        }
    }

    /// Applies the substitution to both sides of every equation.
    pub fn apply_const(&self, constraints: Vec<TyConstraint>) -> (r: Vec<TyConstraint>)
        ensures
            cs_view(r@) == apply_cs(self@, cs_view(constraints@)),
    {
        let ghost orig = constraints@;
        let mut src = constraints;
        let total = src.len();
        let mut out: Vec<TyConstraint> = Vec::new();
        let mut k: usize = 0;
        while src.len() > 0
            invariant
                k <= total,
                orig.len() == total,
                src@ == orig.subrange(k as int, total as int),
                out.len() == k,
                forall|j: int| 0 <= j < k ==> (#[trigger] out@[j]).0@ == apply_ty(self@, orig[j].0@) && out@[j].1@
                    == apply_ty(self@, orig[j].1@),
            decreases src.len(),
        {
            proof {
                assert(src@.len() == total - k);
            }
            let c = src.remove(0);
            proof {
                assert(c == orig[k as int]);
                assert(src@ =~= orig.subrange(k as int + 1, total as int));
            }
            let TyConstraint(a, b) = c;
            out.push(TyConstraint(self.apply(a), self.apply(b)));
            k += 1;
        }
        proof {
            assert(cs_view(out@) =~= apply_cs(self@, cs_view(orig)));
        }
        out
    }

    /// Adds the images of `other`, each first rewritten by this substitution.
    pub fn compose(&mut self, other: TySubst)
        ensures
            final(self)@ == old(self)@ + other@.map_values(|p: (nat, Ty)| (p.0, apply_ty(old(self)@, p.1))),
    {
        let ghost base = self@;
        let ghost orig = other.subst@;
        let mut src = other.subst;
        let total = src.len();
        let mut out: Vec<(usize, Type)> = Vec::new();
        let mut k: usize = 0;
        while src.len() > 0
            invariant
                k <= total,
                orig.len() == total,
                src@ == orig.subrange(k as int, total as int),
                out.len() == k,
                self@ == base,
                forall|j: int| 0 <= j < k ==> (#[trigger] out@[j]).0 == orig[j].0 && out@[j].1@ == apply_ty(
                    base,
                    orig[j].1@,
                ),
            decreases src.len(),
        {
            proof {
                assert(src@.len() == total - k);
            }
            let (n, t) = src.remove(0);
            proof {
                assert((n, t) == orig[k as int]);
                assert(src@ =~= orig.subrange(k as int + 1, total as int));
            }
            let t2 = self.apply(t);
            out.push((n, t2));
            k += 1;
        }
        let ghost outv = out@;
        self.subst.append(&mut out);
        proof {
            assert(self@ =~= base + subst_view(orig).map_values(|p: (nat, Ty)| (p.0, apply_ty(base, p.1))));
        }
    }
}

/// Whether type variable `n` occurs in `t`.
fn ty_in(n: usize, t: &Type) -> (r: bool)
    ensures
        r == occurs_m(n as nat, t@),
    decreases t,
{
    match t {
        Type::TyVar(m) => *m == n,
        Type::Fn(args, ret) => {
            proof {
                lemma_tys_view_index(args@);
                lemma_occurs_tys_index(n as nat, tys_view(args@));
            }
            let mut i: usize = 0;
            while i < args.len()
                invariant
                    i <= args.len(),
                    *t == Type::Fn(*args, *ret),
                    forall|j: int| 0 <= j < i ==> !occurs_m(n as nat, #[trigger] tys_view(args@)[j]),
                    tys_view(args@).len() == args@.len(),
                    forall|j: int| 0 <= j < args@.len() ==> #[trigger] tys_view(args@)[j] == args@[j]@,
                decreases args.len() - i,
            {
                proof {
                    assert(decreases_to!(*t => t->Fn_0));
                    assert(decreases_to!(t->Fn_0 => args@));
                    assert(decreases_to!(args@ => args@[i as int]));
                }
                if ty_in(n, &args[i]) {
                    proof {
                        assert(occurs_m(n as nat, tys_view(args@)[i as int]));
                        lemma_occurs_tys_index(n as nat, tys_view(args@));
                        assert(t@ == Ty::Fn(tys_view(args@), Box::new(ret@)));
                    }
                    return true;
                }
                i += 1;
            }
            ty_in(n, ret)
        },
        _ => false,
    }
}

/// Structural equality of types, names compared by spelling.
pub fn ty_eq(a: &Type, b: &Type) -> (r: bool)
    ensures
        r == (a@ == b@),
    decreases a,
{
    match (a, b) {
        (Type::Int, Type::Int) => true,
        (Type::Bool, Type::Bool) => true,
        (Type::Unit, Type::Unit) => true,
        (Type::UserDef(x), Type::UserDef(y)) => *x == *y,
        (Type::TyVar(x), Type::TyVar(y)) => *x == *y,
        (Type::Fn(a1, r1), Type::Fn(a2, r2)) => {
            proof {
                lemma_tys_view_index(a1@);
                lemma_tys_view_index(a2@);
            }
            if a1.len() != a2.len() {
                proof {
                    assert(tys_view(a1@).len() != tys_view(a2@).len());
                }
                return false;
            }
            let mut i: usize = 0;
            while i < a1.len()
                invariant
                    i <= a1.len(),
                    a1.len() == a2.len(),
                    *a == Type::Fn(*a1, *r1),
                    *b == Type::Fn(*a2, *r2),
                    forall|j: int| 0 <= j < i ==> (#[trigger] a1@[j])@ == a2@[j]@,
                    tys_view(a1@).len() == a1@.len(),
                    tys_view(a2@).len() == a2@.len(),
                    forall|j: int| 0 <= j < a1@.len() ==> #[trigger] tys_view(a1@)[j] == a1@[j]@,
                    forall|j: int| 0 <= j < a2@.len() ==> #[trigger] tys_view(a2@)[j] == a2@[j]@,
                decreases a1.len() - i,
            {
                proof {
                    assert(decreases_to!(*a => a->Fn_0));
                    assert(decreases_to!(a->Fn_0 => a1@));
                    assert(decreases_to!(a1@ => a1@[i as int]));
                }
                if !ty_eq(&a1[i], &a2[i]) {
                    proof {
                        assert(tys_view(a1@)[i as int] != tys_view(a2@)[i as int]);
                    }
                    return false;
                }
                i += 1;
            }
            proof {
                lemma_tys_view_ext(a1@, a2@);
            }
            ty_eq(r1, r2)
        },
        _ => false,
    }
}

/// Solves the equations first to last.
pub fn unify(constraints: Vec<TyConstraint>) -> (r: Result<TySubst, TypeError>)
    ensures
        match unify_m(cs_view(constraints@)) {
            Ok(s) => r is Ok && r->Ok_0@ == s,
            Err(e) => r == Err::<TySubst, TypeError>(e),
        },
        r is Ok ==> crate::solve_laws::solves(r->Ok_0@, cs_view(constraints@)),
    decreases cs_vars(cs_view(constraints@)).len(), cs_size(cs_view(constraints@)), 1nat,
{
    let ghost csv = cs_view(constraints@);
    proof {
        crate::solve_laws::lemma_unify_solves(csv);
    }
    if constraints.len() == 0 {
        return Ok(TySubst::new());
    }
    let mut rest = constraints;
    let first = rest.remove(0);
    proof {
        assert(cs_view(rest@) =~= csv.subrange(1, csv.len() as int));
    }
    let TyConstraint(a, b) = first;
    if ty_eq(&a, &b) {
        proof {
            lemma_step_drop(csv);
        }
        return unify(rest);
    }
    match (a, b) {
        (Type::Fn(a1, r1), Type::Fn(a2, r2)) => {
            proof {
                lemma_tys_view_index(a1@);
                lemma_tys_view_index(a2@);
            }
            if a1.len() != a2.len() {
                return Err(TypeError::CannotUnify);
            }
            let ghost v1 = tys_view(a1@);
            let ghost v2 = tys_view(a2@);
            let mut s1 = a1;
            let mut s2 = a2;
            let total = s1.len();
            let mut out: Vec<TyConstraint> = Vec::new();
            let mut k: usize = 0;
            while s1.len() > 0
                invariant
                    k <= total,
                    v1.len() == total,
                    v2.len() == total,
                    s1.len() == total - k,
                    s2.len() == total - k,
                    forall|j: int| 0 <= j < s1@.len() ==> (#[trigger] s1@[j])@ == v1[k + j],
                    forall|j: int| 0 <= j < s2@.len() ==> (#[trigger] s2@[j])@ == v2[k + j],
                    out.len() == k,
                    forall|j: int| 0 <= j < k ==> #[trigger] cs_view(out@)[j] == (v1[j], v2[j]),
                decreases s1.len(),
            {
                let ghost o1 = s1@;
                let ghost o2 = s2@;
                let x = s1.remove(0);
                let y = s2.remove(0);
                proof {
                    assert forall|j: int| 0 <= j < s1@.len() implies (#[trigger] s1@[j])@ == v1[k + 1 + j] by {
                        assert(s1@[j] == o1[j + 1]);
                    }
                    assert forall|j: int| 0 <= j < s2@.len() implies (#[trigger] s2@[j])@ == v2[k + 1 + j] by {
                        assert(s2@[j] == o2[j + 1]);
                    }
                }
                let ghost prev = out@;
                out.push(TyConstraint(x, y));
                proof {
                    assert forall|j: int| 0 <= j < k + 1 implies #[trigger] cs_view(out@)[j] == (v1[j], v2[j]) by {
                        if j < k {
                            assert(out@[j] == prev[j]);
                            assert(cs_view(prev)[j] == cs_view(out@)[j]);
                        }
                    }
                }
                k += 1;
            }
            let ghost restv = cs_view(rest@);
            let ghost rest0 = rest@;
            let ghost zipped = out@;
            out.push(TyConstraint(*r1, *r2));
            out.append(&mut rest);
            proof {
                let want = zip_tys(v1, v2).push((r1@, r2@)) + restv;
                assert(out@ == zipped.push(TyConstraint(*r1, *r2)) + rest0);
                assert forall|j: int| 0 <= j < out@.len() implies #[trigger] cs_view(out@)[j] == want[j] by {
                    if j < total {
                        assert(out@[j] == zipped[j]);
                        assert(cs_view(zipped)[j] == (v1[j], v2[j]));
                    } else if j == total {
                    } else {
                        assert(out@[j] == rest0[j - total - 1]);
                    }
                }
                assert(cs_view(out@) =~= want);
                lemma_step_split(csv, v1, r1@, v2, r2@);
            }
            unify(out)
        },
        (Type::TyVar(n), t) => {
            proof {
                lemma_step_var(csv, n as nat, t@);
            }
            solve(n, t, rest)
        },
        (t, Type::TyVar(n)) => {
            proof {
                lemma_step_var(csv, n as nat, t@);
            }
            solve(n, t, rest)
        },
        _ => Err(TypeError::CannotUnify),
    }
}

fn solve(n: usize, t: Type, rest: Vec<TyConstraint>) -> (r: Result<TySubst, TypeError>)
    ensures
        match solve_var(n as nat, t@, cs_view(rest@)) {
            Ok(s) => r is Ok && r->Ok_0@ == s,
            Err(e) => r == Err::<TySubst, TypeError>(e),
        },
    decreases cs_vars(seq![(Ty::Var(n as nat), t@)] + cs_view(rest@)).len(), cs_size(
        seq![(Ty::Var(n as nat), t@)] + cs_view(rest@),
    ), 0nat,
{
    if ty_in(n, &t) {
        return Err(TypeError::Recursive);
    }
    let ghost restv = cs_view(rest@);
    let one = TySubst::singleton(n, t.clone());
    let rest2 = one.apply_const(rest);
    proof {
        lemma_step_solve(n as nat, t@, restv);
    }
    match unify(rest2) {
        Ok(s) => {
            let mut s = s;
            let ghost before = s@;
            s.compose(TySubst::singleton(n, t));
            proof {
                assert(s@ =~= compose_one(before, n as nat, t@));
            }
            Ok(s)
        },
        Err(e) => Err(e),
    }
}

/// The type most recently given to `n`.
pub open spec fn env_lookup(env: Seq<(Seq<char>, Ty)>, n: Seq<char>) -> Option<Ty>
    decreases env.len(),
{
    if env.len() == 0 {
        None
    } else if env.last().0 == n {
        Some(env.last().1)
    } else {
        env_lookup(env.drop_last(), n)
    }
}

pub open spec fn int2() -> Ty {
    Ty::Fn(seq![Ty::Int, Ty::Int], Box::new(Ty::Int))
}

pub open spec fn cmp2() -> Ty {
    Ty::Fn(seq![Ty::Int, Ty::Int], Box::new(Ty::Bool))
}

pub open spec fn bool2() -> Ty {
    Ty::Fn(seq![Ty::Bool, Ty::Bool], Box::new(Ty::Bool))
}

/// The types of the built-in operators.
pub open spec fn initial_env() -> Seq<(Seq<char>, Ty)> {
    seq![
        ("+"@, int2()),
        ("-"@, int2()),
        ("*"@, int2()),
        ("/"@, int2()),
        ("%"@, int2()),
        ("~"@, Ty::Fn(seq![Ty::Int], Box::new(Ty::Int))),
        ("=="@, cmp2()),
        ("!="@, cmp2()),
        ("<"@, cmp2()),
        (">"@, cmp2()),
        ("<="@, cmp2()),
        (">="@, cmp2()),
        ("&&"@, bool2()),
        ("||"@, bool2()),
        ("!"@, Ty::Fn(seq![Ty::Bool], Box::new(Ty::Bool))),
    ]
}

/// The field types of constructor `c` among `cons`: the first with that name.
pub open spec fn cons_in(cons: Seq<(Seq<char>, Seq<Ty>)>, c: Seq<char>) -> Option<Seq<Ty>>
    decreases cons.len(),
{
    if cons.len() == 0 {
        None
    } else if cons[0].0 == c {
        Some(cons[0].1)
    } else {
        cons_in(cons.subrange(1, cons.len() as int), c)
    }
}

/// The data type that defines constructor `c` (the last one that does), with the field types.
pub open spec fn find_cons(defs: Seq<DataDef>, c: Seq<char>) -> Option<(Seq<char>, Seq<Ty>)>
    decreases defs.len(),
{
    if defs.len() == 0 {
        None
    } else {
        match cons_in(defs.last()@.1, c) {
            Some(a) => Some((defs.last().name@, a)),
            None => find_cons(defs.drop_last(), c),
        }
    }
}

/// The type of a pattern and the equations it imposes.
pub open spec fn gen_pat(p: Pattern) -> Result<(Ty, Seq<(Ty, Ty)>), TypeError>
    decreases p,
{
    match p {
        Pattern::Var(_, t) => Ok((t@, Seq::empty())),
        Pattern::Int(_) => Ok((Ty::Int, Seq::empty())),
        Pattern::Bool(_) => Ok((Ty::Bool, Seq::empty())),
        Pattern::Data(df, c, ps) => match cons_in(df@.1, c@) {
            None => Err(TypeError::UnknownCons),
            Some(args) => if ps.len() != args.len() {
                Err(TypeError::Arity)
            } else {
                match gen_pats(ps@, args) {
                    Ok(x) => Ok((Ty::UserDef(df.name@), x)),
                    Err(e) => Err(e),
                }
            },
        },
    }
}

pub open spec fn gen_pats(ps: Seq<Pattern>, args: Seq<Ty>) -> Result<Seq<(Ty, Ty)>, TypeError>
    decreases ps,
{
    if ps.len() == 0 || args.len() == 0 {
        Ok(Seq::empty())
    } else {
        match gen_pat(ps[0]) {
            Err(e) => Err(e),
            Ok((t, x)) => match gen_pats(ps.subrange(1, ps.len() as int), args.subrange(1, args.len() as int)) {
                Err(e) => Err(e),
                Ok(y) => Ok(x.push((t, args[0])) + y),
            },
        }
    }
}

pub open spec fn arg_tys(f: FnDef) -> Seq<Ty> {
    f.args@.map_values(|a: (Name, Type)| a.1@)
}

pub open spec fn eqs(t0: Ty, ts: Seq<Ty>) -> Seq<(Ty, Ty)> {
    ts.map_values(|t: Ty| (t0, t))
}

/// Constraint generation for a simple expression: its type, the equations, and the next
/// unused type variable id. A call's result is a new variable.
pub open spec fn gen_simp(defs: Seq<DataDef>, env: Seq<(Seq<char>, Ty)>, next: nat, s: Simp) -> Result<(Ty, Seq<(Ty, Ty)>, nat), TypeError>
    decreases s,
{
    match s {
        Simp::Int(_) => Ok((Ty::Int, Seq::empty(), next)),
        Simp::Bool(_) => Ok((Ty::Bool, Seq::empty(), next)),
        Simp::Unit => Ok((Ty::Unit, Seq::empty(), next)),
        Simp::Ref(n) => match env_lookup(env, n@) {
            Some(t) => Ok((t, Seq::empty(), next)),
            None => Err(TypeError::Unbound),
        },
        Simp::Block(e) => gen_expr(defs, env, next, *e),
        Simp::FnDef(f) => match gen_simp(defs, env + pairs_view(f.args@), next, *f.body) {
            Ok((tb, x, n1)) => Ok((Ty::Fn(arg_tys(*f), Box::new(f.ret@)), x.push((f.ret@, tb)), n1)),
            Err(e) => Err(e),
        },
        Simp::FnCall(l, args) => match gen_simp(defs, env, next, *l) {
            Err(e) => Err(e),
            Ok((tl, xl, n1)) => match gen_list(defs, env, n1, args@) {
                Err(e) => Err(e),
                Ok((ts, xs, n2)) => if n2 >= usize::MAX {
                    Err(TypeError::Exhausted)
                } else {
                    Ok((Ty::Var(n2), (xl + xs).push((tl, Ty::Fn(ts, Box::new(Ty::Var(n2))))), n2 + 1))
                },
            },
        },
        Simp::Match(s0, arms) => match gen_simp(defs, env, next, *s0) {
            Err(e) => Err(e),
            Ok((ts, x0, n1)) => if arms.len() == 0 {
                Err(TypeError::EmptyMatch)
            } else {
                match gen_arms(defs, env, n1, ts, arms@) {
                    Err(e) => Err(e),
                    Ok((tys, xa, n2)) => Ok((tys[0], x0 + xa + eqs(tys[0], tys), n2)),
                }
            },
        },
        Simp::Data(c, args) => match find_cons(defs, c@) {
            None => Err(TypeError::UnknownCons),
            Some((owner, cargs)) => if args.len() != cargs.len() {
                Err(TypeError::Arity)
            } else {
                match gen_list(defs, env, next, args@) {
                    Err(e) => Err(e),
                    Ok((ts, xs, n1)) => Ok((Ty::UserDef(owner), xs + zip_tys(ts, cargs), n1)),
                }
            },
        },
    }
}

pub open spec fn gen_list(defs: Seq<DataDef>, env: Seq<(Seq<char>, Ty)>, next: nat, ss: Seq<Simp>) -> Result<(Seq<Ty>, Seq<(Ty, Ty)>, nat), TypeError>
    decreases ss,
{
    if ss.len() == 0 {
        Ok((Seq::empty(), Seq::empty(), next))
    } else {
        match gen_simp(defs, env, next, ss[0]) {
            Err(e) => Err(e),
            Ok((t, x, n1)) => match gen_list(defs, env, n1, ss.subrange(1, ss.len() as int)) {
                Err(e) => Err(e),
                Ok((ts, xs, n2)) => Ok((seq![t] + ts, x + xs, n2)),
            },
        }
    }
}

/// Each arm: its pattern's equations, the scrutinee's type equal to the pattern's, and the
/// equations of its body typed with the pattern's bindings.
pub open spec fn gen_arms(defs: Seq<DataDef>, env: Seq<(Seq<char>, Ty)>, next: nat, ts: Ty, arms: Seq<(Pattern, Simp)>) -> Result<(Seq<Ty>, Seq<(Ty, Ty)>, nat), TypeError>
    decreases arms,
{
    if arms.len() == 0 {
        Ok((Seq::empty(), Seq::empty(), next))
    } else {
        match gen_pat(arms[0].0) {
            Err(e) => Err(e),
            Ok((tp, xp)) => match gen_simp(defs, env + pat_binds(arms[0].0), next, arms[0].1) {
                Err(e) => Err(e),
                Ok((tb, xb, n1)) => match gen_arms(defs, env, n1, ts, arms.subrange(1, arms.len() as int)) {
                    Err(e) => Err(e),
                    Ok((tys, xs, n2)) => Ok((seq![tb] + tys, xp.push((ts, tp)) + xb + xs, n2)),
                },
            },
        }
    }
}

pub open spec fn gen_expr(defs: Seq<DataDef>, env: Seq<(Seq<char>, Ty)>, next: nat, e: Expr) -> Result<(Ty, Seq<(Ty, Ty)>, nat), TypeError>
    decreases e,
{
    match e {
        Expr::Simp(s) => gen_simp(defs, env, next, s),
        Expr::Bind(p, rhs, body) => match gen_pat(p) {
            Err(e) => Err(e),
            Ok((tp, xp)) => match gen_simp(defs, env + pat_binds(p), next, rhs) {
                Err(e) => Err(e),
                Ok((tr, xr, n1)) => match gen_expr(defs, env + pat_binds(p), n1, *body) {
                    Err(e) => Err(e),
                    Ok((tb, xb, n2)) => Ok((tb, (xp + xr + xb).push((tp, tr)), n2)),
                },
            },
        },
    }
}

pub open spec fn glue_gen(
    tys: Seq<Ty>,
    xs: Seq<(Ty, Ty)>,
    r: Result<(Seq<Ty>, Seq<(Ty, Ty)>, nat), TypeError>,
) -> Result<(Seq<Ty>, Seq<(Ty, Ty)>, nat), TypeError> {
    match r {
        Ok((t2, x2, n)) => Ok((tys + t2, xs + x2, n)),
        Err(e) => Err(e),
    }
}

pub open spec fn glue_pats(xs: Seq<(Ty, Ty)>, r: Result<Seq<(Ty, Ty)>, TypeError>) -> Result<Seq<(Ty, Ty)>, TypeError> {
    match r {
        Ok(x2) => Ok(xs + x2),
        Err(e) => Err(e),
    }
}

/// The typing environment: each name with its type; later bindings shadow earlier ones.
struct TyEnv {
    env: Vec<(Name, Type)>,
}

impl View for TyEnv {
    type V = Seq<(Seq<char>, Ty)>;

    closed spec fn view(&self) -> Seq<(Seq<char>, Ty)> {
        pairs_view(self.env@)
    }
}

fn fn_type(args: Vec<Type>, ret: Type) -> (r: Type)
    ensures
        r@ == Ty::Fn(tys_view(args@), Box::new(ret@)),
{
    Type::Fn(args, Box::new(ret))
}

fn copy_pairs(v: &Vec<(Name, Type)>) -> (r: Vec<(Name, Type)>)
    ensures
        pairs_view(r@) == pairs_view(v@),
{
    let mut r: Vec<(Name, Type)> = Vec::new();
    let mut i: usize = 0;
    while i < v.len()
        invariant
            i <= v.len(),
            r.len() == i,
            forall|j: int| 0 <= j < i ==> (#[trigger] r@[j]).0@ == v@[j].0@ && r@[j].1@ == v@[j].1@,
        decreases v.len() - i,
    {
        r.push((v[i].0.clone(), v[i].1.clone()));
        i += 1;
    }
    proof {
        assert(pairs_view(r@) =~= pairs_view(v@));
    }
    r
}

impl TyEnv {
    fn new() -> (r: TyEnv)
        ensures
            r@ == initial_env(),
    {
        let ii = vec![Type::Int, Type::Int];
        let bb = vec![Type::Bool, Type::Bool];
        let i1 = vec![Type::Int];
        let b1 = vec![Type::Bool];
        proof {
            lemma_tys_view_index(ii@);
            lemma_tys_view_index(bb@);
            lemma_tys_view_index(i1@);
            lemma_tys_view_index(b1@);
            assert(tys_view(ii@) =~= seq![Ty::Int, Ty::Int]);
            assert(tys_view(bb@) =~= seq![Ty::Bool, Ty::Bool]);
            assert(tys_view(i1@) =~= seq![Ty::Int]);
            assert(tys_view(b1@) =~= seq![Ty::Bool]);
        }
        let env = vec![
            (Name::new("+"), fn_type(copy_types(&ii), Type::Int)),
            (Name::new("-"), fn_type(copy_types(&ii), Type::Int)),
            (Name::new("*"), fn_type(copy_types(&ii), Type::Int)),
            (Name::new("/"), fn_type(copy_types(&ii), Type::Int)),
            (Name::new("%"), fn_type(copy_types(&ii), Type::Int)),
            (Name::new("~"), fn_type(copy_types(&i1), Type::Int)),
            (Name::new("=="), fn_type(copy_types(&ii), Type::Bool)),
            (Name::new("!="), fn_type(copy_types(&ii), Type::Bool)),
            (Name::new("<"), fn_type(copy_types(&ii), Type::Bool)),
            (Name::new(">"), fn_type(copy_types(&ii), Type::Bool)),
            (Name::new("<="), fn_type(copy_types(&ii), Type::Bool)),
            (Name::new(">="), fn_type(copy_types(&ii), Type::Bool)),
            (Name::new("&&"), fn_type(copy_types(&bb), Type::Bool)),
            (Name::new("||"), fn_type(copy_types(&bb), Type::Bool)),
            (Name::new("!"), fn_type(copy_types(&b1), Type::Bool)),
        ];
        let r = TyEnv { env };
        proof {
            assert(r@ =~= initial_env());
        }
        r
    }

    fn copy(&self) -> (r: TyEnv)
        ensures
            r@ == self@,
    {
        TyEnv { env: copy_pairs(&self.env) }
    }

    fn insert(&mut self, name: Name, ty: Type)
        ensures
            final(self)@ == old(self)@.push((name@, ty@)),
    {
        self.env.push((name, ty));
        proof {
            assert(final(self)@ =~= old(self)@.push((name@, ty@)));
        }
    }

    fn extend(&mut self, bindings: Vec<(Name, Type)>)
        ensures
            final(self)@ == old(self)@ + pairs_view(bindings@),
    {
        let mut b = bindings;
        let ghost bv = b@;
        self.env.append(&mut b);
        proof {
            assert(final(self)@ =~= old(self)@ + pairs_view(bv));
        }
    }

    fn get(&self, name: &Name) -> (r: Option<Type>)
        ensures
            match env_lookup(self@, name@) {
                Some(t) => r is Some && r->0@ == t,
                None => r is None,
            },
    {
        let ghost b = self@;
        let mut i: usize = self.env.len();
        proof {
            assert(b.subrange(0, i as int) =~= b);
        }
        while i > 0
            invariant
                i <= self.env.len(),
                b == self@,
                env_lookup(b, name@) == env_lookup(b.subrange(0, i as int), name@),
            decreases i,
        {
            proof {
                assert(b.subrange(0, i as int).drop_last() =~= b.subrange(0, i as int - 1));
            }
            if self.env[i - 1].0 == *name {
                return Some(self.env[i - 1].1.clone());
            }
            i -= 1;
        }
        None
    }
}

fn append_cs(a: Vec<TyConstraint>, b: Vec<TyConstraint>) -> (r: Vec<TyConstraint>)
    ensures
        cs_view(r@) == cs_view(a@) + cs_view(b@),
{
    let mut r = a;
    let mut b = b;
    let ghost ra = r@;
    let ghost bb = b@;
    r.append(&mut b);
    proof {
        assert(cs_view(r@) =~= cs_view(ra) + cs_view(bb));
    }
    r
}

/// The field types of constructor `c` in `cons`: the first with that name.
fn find_in_cons(cons: &Vec<(Name, Cons)>, c: &Name) -> (r: Option<usize>)
    ensures
        match cons_in(crate::ast::cons_view(cons@), c@) {
            Some(a) => r is Some && r->0 < cons@.len() && tys_view(cons@[r->0 as int].1.args@) == a,
            None => r is None,
        },
{
    let ghost cv = crate::ast::cons_view(cons@);
    let mut i: usize = 0;
    proof {
        assert(cv.subrange(0, cv.len() as int) =~= cv);
    }
    while i < cons.len()
        invariant
            i <= cons.len(),
            cv == crate::ast::cons_view(cons@),
            cons_in(cv, c@) == cons_in(cv.subrange(i as int, cv.len() as int), c@),
        decreases cons.len() - i,
    {
        let ghost rest = cv.subrange(i as int, cv.len() as int);
        proof {
            assert(rest[0] == cv[i as int]);
            assert(rest.subrange(1, rest.len() as int) =~= cv.subrange(i + 1, cv.len() as int));
        }
        if cons[i].0 == *c {
            return Some(i);
        }
        i += 1;
    }
    None
}

fn find_def(defs: &Vec<DataDef>, c: &Name) -> (r: Option<(usize, usize)>)
    ensures
        match find_cons(defs@, c@) {
            Some((owner, args)) => match r {
                Some((d, k)) => d < defs@.len() && k < defs@[d as int].cons@.len() && defs@[d as int].name@ == owner
                    && tys_view(defs@[d as int].cons@[k as int].1.args@) == args,
                None => false,
            },
            None => r is None,
        },
{
    let mut i: usize = defs.len();
    proof {
        assert(defs@.subrange(0, i as int) =~= defs@);
    }
    while i > 0
        invariant
            i <= defs.len(),
            find_cons(defs@, c@) == find_cons(defs@.subrange(0, i as int), c@),
        decreases i,
    {
        proof {
            assert(defs@.subrange(0, i as int).drop_last() =~= defs@.subrange(0, i as int - 1));
        }
        match find_in_cons(&defs[i - 1].cons, c) {
            Some(k) => {
                return Some((i - 1, k));
            },
            None => {},
        }
        i -= 1;
    }
    None
}

pub proof fn lemma_gen_list_len(defs: Seq<DataDef>, env: Seq<(Seq<char>, Ty)>, next: nat, ss: Seq<Simp>)
    ensures
        gen_list(defs, env, next, ss) is Ok ==> gen_list(defs, env, next, ss)->Ok_0.0.len() == ss.len(),
    decreases ss.len(),
{
    if ss.len() > 0 {
        match gen_simp(defs, env, next, ss[0]) {
            Ok((t, x, n1)) => lemma_gen_list_len(defs, env, n1, ss.subrange(1, ss.len() as int)),
            Err(_) => {},
        }
    }
}

/// Hindley-Milner style inference: constraint generation, unification, substitution.
pub struct TypeChecker {
    cons_datadef: Vec<DataDef>,
    next_tv: usize,
}

impl TypeChecker {
    /// The data types whose constructors are in scope.
    pub closed spec fn defs(&self) -> Seq<DataDef> {
        self.cons_datadef@
    }

    /// The next unused type variable id.
    pub closed spec fn next(&self) -> nat {
        self.next_tv as nat
    }

    pub fn new() -> (r: TypeChecker)
        ensures
            r.next() == 0,
            r.defs() == Seq::<DataDef>::empty(),
    {
        let r = TypeChecker { cons_datadef: Vec::new(), next_tv: 0 };
        proof {
            assert(r.defs() =~= Seq::<DataDef>::empty());
        }
        r
    }

    /// Whether the counter of type variables is used up, so that `fresh_tv` may not be called.
    pub fn fresh_exhausted(&self) -> (r: bool)
        ensures
            r == (self.next() >= usize::MAX),
    {
        self.next_tv == usize::MAX
    }

    /// A type variable that no earlier call returned. A parser that makes its placeholders
    /// with this keeps them apart from the variables that inference introduces.
    pub fn fresh_tv(&mut self) -> (r: Type)
        requires
            old(self).next() < usize::MAX,
        ensures
            r@ == Ty::Var(old(self).next()),
            final(self).next() == old(self).next() + 1,
            final(self).defs() == old(self).defs(),
    {
        let r = Type::TyVar(self.next_tv);
        self.next_tv = self.next_tv + 1;
        r
    }

    fn infer_constraints_pat(&self, pat: &Pattern) -> (r: Result<(Type, Vec<TyConstraint>), TypeError>)
        ensures
            match gen_pat(*pat) {
                Ok((t, x)) => r is Ok && r->Ok_0.0@ == t && cs_view(r->Ok_0.1@) == x,
                Err(e) => r is Err && r->Err_0 == e,
            },
        decreases pat,
    {
        match pat {
            Pattern::Var(_, ty) => Ok((ty.clone(), Vec::new())),
            Pattern::Int(_) => Ok((Type::Int, Vec::new())),
            Pattern::Bool(_) => Ok((Type::Bool, Vec::new())),
            Pattern::Data(df, c, ps) => {
                let k = match find_in_cons(&df.cons, c) {
                    Some(k) => k,
                    None => {
                        return Err(TypeError::UnknownCons);
                    },
                };
                let args = &df.cons[k].1.args;
                let ghost av = tys_view(args@);
                proof {
                    lemma_tys_view_index(args@);
                }
                if ps.len() != args.len() {
                    return Err(TypeError::Arity);
                }
                let mut out: Vec<TyConstraint> = Vec::new();
                let mut i: usize = 0;
                proof {
                    assert(ps@.subrange(0, ps@.len() as int) =~= ps@);
                    assert(av.subrange(0, av.len() as int) =~= av);
                    assert(cs_view(out@) =~= Seq::<(Ty, Ty)>::empty());
                    match gen_pats(ps@, av) {
                        Ok(x) => {
                            assert(cs_view(out@) + x =~= x);
                        },
                        Err(_) => {},
                    }
                }
                while i < ps.len()
                    invariant
                        i <= ps.len(),
                        ps.len() == args.len(),
                        av == tys_view(args@),
                        av.len() == args@.len(),
                        forall|j: int| 0 <= j < args@.len() ==> #[trigger] av[j] == args@[j]@,
                        *pat == Pattern::Data(*df, *c, *ps),
                        cons_in(df@.1, c@) == Some(av),
                        gen_pats(ps@, av) == glue_pats(
                            cs_view(out@),
                            gen_pats(ps@.subrange(i as int, ps@.len() as int), av.subrange(i as int, av.len() as int)),
                        ),
                    decreases ps.len() - i,
                {
                    let ghost prest = ps@.subrange(i as int, ps@.len() as int);
                    let ghost arest = av.subrange(i as int, av.len() as int);
                    proof {
                        assert(prest[0] == ps@[i as int]);
                        assert(arest[0] == args@[i as int]@);
                        assert(prest.subrange(1, prest.len() as int) =~= ps@.subrange(i + 1, ps@.len() as int));
                        assert(arest.subrange(1, arest.len() as int) =~= av.subrange(i + 1, av.len() as int));
                        assert(decreases_to!(*pat => pat->Data_2));
                        assert(decreases_to!(pat->Data_2 => ps@));
                        assert(decreases_to!(ps@ => ps@[i as int]));
                    }
                    match self.infer_constraints_pat(&ps[i]) {
                        Err(e) => {
                            proof {
                                assert(gen_pats(prest, arest) == Err::<Seq<(Ty, Ty)>, TypeError>(e));
                            }
                            return Err(e);
                        },
                        Ok((t, x)) => {
                            let ghost prev = cs_view(out@);
                            let ghost xv = cs_view(x@);
                            out = append_cs(out, x);
                            let ghost mid = out@;
                            let a = args[i].clone();
                            let ghost tv = t@;
                            out.push(TyConstraint(t, a));
                            proof {
                                assert(out@ == mid.push(TyConstraint(t, a)));
                                assert(cs_view(out@) =~= cs_view(mid).push((tv, a@)));
                                assert(cs_view(out@) =~= prev + xv.push((tv, arest[0])));
                                match gen_pats(ps@.subrange(i + 1, ps@.len() as int), av.subrange(i + 1, av.len() as int)) {
                                    Ok(y) => {
                                        assert(prev + (xv.push((tv, arest[0])) + y) =~= cs_view(out@) + y);
                                    },
                                    Err(_) => {},
                                }
                            }
                        },
                    }
                    i += 1;
                }
                proof {
                    assert(ps@.subrange(i as int, ps@.len() as int) =~= Seq::<Pattern>::empty());
                    assert(cs_view(out@) + Seq::<(Ty, Ty)>::empty() =~= cs_view(out@));
                }
                Ok((Type::UserDef(df.name.clone()), out))
            },
        }
    }

    #[verifier::rlimit(40)]
    fn infer_constraints_simp(&mut self, env: &TyEnv, simp: &Simp) -> (r: Result<(Type, Vec<TyConstraint>), TypeError>)
        requires
            env_all(env@, below(old(self).next())),
            simp_all(*simp, below(old(self).next())),
        ensures
            final(self).defs() == old(self).defs(),
            final(self).next() >= old(self).next(),
            (*simp is FnCall && r is Ok) ==> (r->Ok_0.0@ is Var && r->Ok_0.0@->Var_0 >= old(self).next() && env_all(
                env@,
                avoids(r->Ok_0.0@->Var_0),
            ) && simp_all(*simp, avoids(r->Ok_0.0@->Var_0))),
            match gen_simp(old(self).defs(), env@, old(self).next(), *simp) {
                Ok((t, x, n)) => r is Ok && r->Ok_0.0@ == t && cs_view(r->Ok_0.1@) == x && final(self).next() == n,
                Err(e) => r is Err && r->Err_0 == e,
            },
        decreases simp,
    {
        match simp {
            Simp::Int(_) => Ok((Type::Int, Vec::new())),
            Simp::Bool(_) => Ok((Type::Bool, Vec::new())),
            Simp::Unit => Ok((Type::Unit, Vec::new())),
            Simp::Ref(n) => match env.get(n) {
                Some(t) => Ok((t, Vec::new())),
                None => Err(TypeError::Unbound),
            },
            Simp::Block(e) => self.infer_constraints_expr(env, e),
            Simp::FnDef(f) => {
                let mut fenv = env.copy();
                fenv.extend(copy_pairs(&f.args));
                proof {
                    lemma_args_env(f.args@, below(self.next()));
                    lemma_env_extend(env@, pairs_view(f.args@), below(self.next()));
                }
                let (tb, x) = match self.infer_constraints_simp(&fenv, &f.body) {
                    Ok(p) => p,
                    Err(e) => {
                        return Err(e);
                    },
                };
                let mut targs: Vec<Type> = Vec::new();
                let mut i: usize = 0;
                while i < f.args.len()
                    invariant
                        i <= f.args.len(),
                        targs.len() == i,
                        forall|j: int| 0 <= j < i ==> (#[trigger] targs@[j])@ == f.args@[j].1@,
                    decreases f.args.len() - i,
                {
                    targs.push(f.args[i].1.clone());
                    i += 1;
                }
                proof {
                    lemma_tys_view_index(targs@);
                    assert(tys_view(targs@) =~= arg_tys(**f));
                }
                let mut x = x;
                let ghost xv = cs_view(x@);
                x.push(TyConstraint(f.ret.clone(), tb));
                proof {
                    assert(cs_view(x@) =~= xv.push((f.ret@, cs_view(x@).last().1)));
                }
                Ok((fn_type(targs, f.ret.clone()), x))
            },
            Simp::FnCall(l, args) => {
                let ghost n0 = self.next();
                let (tl, xl) = match self.infer_constraints_simp(env, l) {
                    Ok(p) => p,
                    Err(e) => {
                        return Err(e);
                    },
                };
                proof {
                    assert(decreases_to!(*simp => simp->FnCall_1));
                    assert(decreases_to!(simp->FnCall_1 => args@));
                    lemma_below_implies(n0, self.next());
                    lemma_env_all_mono(env@, below(n0), below(self.next()));
                    lemma_simps_all_mono(args@, below(n0), below(self.next()));
                }
                let (ts, xs) = match self.infer_list(env, args) {
                    Ok(p) => p,
                    Err(e) => {
                        return Err(e);
                    },
                };
                if self.next_tv == usize::MAX {
                    return Err(TypeError::Exhausted);
                }
                let n = self.next_tv;
                self.next_tv = self.next_tv + 1;
                proof {
                    lemma_below_implies_avoids(n0, n as nat);
                    lemma_env_all_mono(env@, below(n0), avoids(n as nat));
                    lemma_simp_all_mono(*simp, below(n0), avoids(n as nat));
                }
                let mut x = append_cs(xl, xs);
                let ghost xv = cs_view(x@);
                let ghost tlv = tl@;
                x.push(TyConstraint(tl, fn_type(ts, Type::TyVar(n))));
                proof {
                    assert(cs_view(x@) =~= xv.push((tlv, cs_view(x@).last().1)));
                }
                Ok((Type::TyVar(n), x))
            },
            Simp::Match(s0, arms) => {
                let ghost n0 = self.next();
                let (ts, x0) = match self.infer_constraints_simp(env, s0) {
                    Ok(p) => p,
                    Err(e) => {
                        return Err(e);
                    },
                };
                if arms.len() == 0 {
                    return Err(TypeError::EmptyMatch);
                }
                proof {
                    assert(decreases_to!(*simp => simp->Match_1));
                    assert(decreases_to!(simp->Match_1 => arms@));
                    lemma_below_implies(n0, self.next());
                    lemma_env_all_mono(env@, below(n0), below(self.next()));
                    lemma_arms_all_mono(arms@, below(n0), below(self.next()));
                }
                let (tys, xa) = match self.infer_arms(env, &ts, arms) {
                    Ok(p) => p,
                    Err(e) => {
                        return Err(e);
                    },
                };
                proof {
                    lemma_tys_view_index(tys@);
                    assert(tys@.len() > 0);
                }
                let mut x = append_cs(x0, xa);
                let ghost base = cs_view(x@);
                let mut i: usize = 0;
                while i < tys.len()
                    invariant
                        i <= tys.len(),
                        tys.len() > 0,
                        tys_view(tys@).len() == tys@.len(),
                        forall|j: int| 0 <= j < tys@.len() ==> #[trigger] tys_view(tys@)[j] == tys@[j]@,
                        cs_view(x@) == base + eqs(tys_view(tys@)[0], tys_view(tys@).subrange(0, i as int)),
                    decreases tys.len() - i,
                {
                    let ghost prev = x@;
                    let c = TyConstraint(tys[0].clone(), tys[i].clone());
                    let ghost cv = (c.0@, c.1@);
                    x.push(c);
                    proof {
                        assert(cs_view(x@) =~= cs_view(prev).push(cv));
                        assert(cs_view(x@) =~= base + eqs(tys_view(tys@)[0], tys_view(tys@).subrange(0, i as int + 1)));
                    }
                    i += 1;
                }
                proof {
                    assert(tys_view(tys@).subrange(0, i as int) =~= tys_view(tys@));
                }
                Ok((tys[0].clone(), x))
            },
            Simp::Data(c, args) => {
                let (d, k) = match find_def(&self.cons_datadef, c) {
                    Some(p) => p,
                    None => {
                        return Err(TypeError::UnknownCons);
                    },
                };
                let cargs = copy_types(&self.cons_datadef[d].cons[k].1.args);
                let owner = self.cons_datadef[d].name.clone();
                proof {
                    lemma_tys_view_index(cargs@);
                }
                if args.len() != cargs.len() {
                    return Err(TypeError::Arity);
                }
                proof {
                    assert(decreases_to!(*simp => simp->Data_1));
                    assert(decreases_to!(simp->Data_1 => args@));
                }
                let ghost n0 = self.next();
                let (ts, xs) = match self.infer_list(env, args) {
                    Ok(p) => p,
                    Err(e) => {
                        return Err(e);
                    },
                };
                proof {
                    lemma_tys_view_index(ts@);
                    lemma_gen_list_len(self.defs(), env@, n0, args@);
                }
                let mut x = xs;
                let ghost base = cs_view(x@);
                let mut i: usize = 0;
                while i < ts.len()
                    invariant
                        i <= ts.len(),
                        ts.len() == cargs.len(),
                        tys_view(ts@).len() == ts@.len(),
                        forall|j: int| 0 <= j < ts@.len() ==> #[trigger] tys_view(ts@)[j] == ts@[j]@,
                        tys_view(cargs@).len() == cargs@.len(),
                        forall|j: int| 0 <= j < cargs@.len() ==> #[trigger] tys_view(cargs@)[j] == cargs@[j]@,
                        cs_view(x@) == base + zip_tys(tys_view(ts@), tys_view(cargs@)).subrange(0, i as int),
                    decreases ts.len() - i,
                {
                    let ghost prev = x@;
                    let c = TyConstraint(ts[i].clone(), cargs[i].clone());
                    let ghost cv = (c.0@, c.1@);
                    x.push(c);
                    proof {
                        assert(cs_view(x@) =~= cs_view(prev).push(cv));
                        assert(cs_view(x@) =~= base + zip_tys(tys_view(ts@), tys_view(cargs@)).subrange(0, i as int + 1));
                    }
                    i += 1;
                }
                proof {
                    assert(zip_tys(tys_view(ts@), tys_view(cargs@)).subrange(0, i as int) =~= zip_tys(tys_view(ts@), tys_view(cargs@)));
                }
                Ok((Type::UserDef(owner), x))
            },
        }
    }

    fn infer_list(&mut self, env: &TyEnv, ss: &Vec<Simp>) -> (r: Result<(Vec<Type>, Vec<TyConstraint>), TypeError>)
        requires
            env_all(env@, below(old(self).next())),
            simps_all(ss@, below(old(self).next())),
        ensures
            final(self).defs() == old(self).defs(),
            final(self).next() >= old(self).next(),
            match gen_list(old(self).defs(), env@, old(self).next(), ss@) {
                Ok((ts, x, n)) => r is Ok && tys_view(r->Ok_0.0@) == ts && cs_view(r->Ok_0.1@) == x && final(self).next() == n,
                Err(e) => r is Err && r->Err_0 == e,
            },
        decreases ss@,
    {
        let ghost defs = self.defs();
        let ghost target = gen_list(defs, env@, self.next(), ss@);
        let mut ts: Vec<Type> = Vec::new();
        let mut xs: Vec<TyConstraint> = Vec::new();
        let mut i: usize = 0;
        proof {
            assert(ss@.subrange(0, ss@.len() as int) =~= ss@);
            lemma_tys_view_index(ts@);
            assert(tys_view(ts@) =~= Seq::<Ty>::empty());
            assert(cs_view(xs@) =~= Seq::<(Ty, Ty)>::empty());
            match target {
                Ok((a, b, n)) => {
                    assert(tys_view(ts@) + a =~= a);
                    assert(cs_view(xs@) + b =~= b);
                },
                Err(_) => {},
            }
        }
        while i < ss.len()
            invariant
                i <= ss.len(),
                self.defs() == defs,
                defs == old(self).defs(),
                self.next() >= old(self).next(),
                env_all(env@, below(self.next())),
                simps_all(ss@.subrange(i as int, ss@.len() as int), below(self.next())),
                target == gen_list(defs, env@, old(self).next(), ss@),
                target == glue_gen(tys_view(ts@), cs_view(xs@), gen_list(defs, env@, self.next(), ss@.subrange(i as int, ss@.len() as int))),
            decreases ss.len() - i,
        {
            let ghost rest = ss@.subrange(i as int, ss@.len() as int);
            let ghost n0 = self.next();
            proof {
                assert(rest[0] == ss@[i as int]);
                assert(rest.subrange(1, rest.len() as int) =~= ss@.subrange(i + 1, ss@.len() as int));
                assert(decreases_to!(ss@ => ss@[i as int]));
            }
            match self.infer_constraints_simp(env, &ss[i]) {
                Err(e) => {
                    return Err(e);
                },
                Ok((t, x)) => {
                    let ghost pts = tys_view(ts@);
                    let ghost pxs = cs_view(xs@);
                    let ghost tv = t@;
                    let ghost xv = cs_view(x@);
                    let ghost prev_ts = ts@;
                    ts.push(t);
                    xs = append_cs(xs, x);
                    proof {
                        lemma_below_implies(n0, self.next());
                        lemma_env_all_mono(env@, below(n0), below(self.next()));
                        lemma_simps_all_mono(ss@.subrange(i + 1, ss@.len() as int), below(n0), below(self.next()));
                        assert(ts@.drop_last() =~= prev_ts);
                        assert(tys_view(ts@) == tys_view(ts@.drop_last()).push(tv));
                        match gen_list(defs, env@, self.next(), ss@.subrange(i + 1, ss@.len() as int)) {
                            Ok((a, b, n)) => {
                                assert(pts + (seq![tv] + a) =~= tys_view(ts@) + a);
                                assert(pxs + (xv + b) =~= cs_view(xs@) + b);
                            },
                            Err(_) => {},
                        }
                    }
                },
            }
            i += 1;
        }
        proof {
            assert(ss@.subrange(i as int, ss@.len() as int) =~= Seq::<Simp>::empty());
            assert(tys_view(ts@) + Seq::<Ty>::empty() =~= tys_view(ts@));
            assert(cs_view(xs@) + Seq::<(Ty, Ty)>::empty() =~= cs_view(xs@));
        }
        Ok((ts, xs))
    }

    fn infer_arms(&mut self, env: &TyEnv, ts: &Type, arms: &Vec<(Pattern, Simp)>) -> (r: Result<(Vec<Type>, Vec<TyConstraint>), TypeError>)
        requires
            env_all(env@, below(old(self).next())),
            arms_all(arms@, below(old(self).next())),
        ensures
            final(self).defs() == old(self).defs(),
            final(self).next() >= old(self).next(),
            match gen_arms(old(self).defs(), env@, old(self).next(), ts@, arms@) {
                Ok((tys, x, n)) => r is Ok && tys_view(r->Ok_0.0@) == tys && cs_view(r->Ok_0.1@) == x && final(self).next() == n,
                Err(e) => r is Err && r->Err_0 == e,
            },
        decreases arms@,
    {
        let ghost defs = self.defs();
        let ghost target = gen_arms(defs, env@, self.next(), ts@, arms@);
        let mut tys: Vec<Type> = Vec::new();
        let mut xs: Vec<TyConstraint> = Vec::new();
        let mut i: usize = 0;
        proof {
            assert(arms@.subrange(0, arms@.len() as int) =~= arms@);
            lemma_tys_view_index(tys@);
            assert(tys_view(tys@) =~= Seq::<Ty>::empty());
            assert(cs_view(xs@) =~= Seq::<(Ty, Ty)>::empty());
            match target {
                Ok((a, b, n)) => {
                    assert(tys_view(tys@) + a =~= a);
                    assert(cs_view(xs@) + b =~= b);
                },
                Err(_) => {},
            }
        }
        while i < arms.len()
            invariant
                i <= arms.len(),
                self.defs() == defs,
                defs == old(self).defs(),
                self.next() >= old(self).next(),
                env_all(env@, below(self.next())),
                arms_all(arms@.subrange(i as int, arms@.len() as int), below(self.next())),
                target == gen_arms(defs, env@, old(self).next(), ts@, arms@),
                target == glue_gen(tys_view(tys@), cs_view(xs@), gen_arms(defs, env@, self.next(), ts@, arms@.subrange(i as int, arms@.len() as int))),
            decreases arms.len() - i,
        {
            let ghost rest = arms@.subrange(i as int, arms@.len() as int);
            proof {
                assert(rest[0] == arms@[i as int]);
                assert(rest.subrange(1, rest.len() as int) =~= arms@.subrange(i + 1, arms@.len() as int));
                assert(decreases_to!(arms@ => arms@[i as int]));
            }
            let (tp, xp) = match self.infer_constraints_pat(&arms[i].0) {
                Ok(p) => p,
                Err(e) => {
                    return Err(e);
                },
            };
            let ghost n0 = self.next();
            let mut aenv = env.copy();
            aenv.extend(arms[i].0.bindings());
            proof {
                lemma_pat_binds_all(arms@[i as int].0, below(n0));
                lemma_env_extend(env@, pat_binds(arms@[i as int].0), below(n0));
            }
            let (tb, xb) = match self.infer_constraints_simp(&aenv, &arms[i].1) {
                Ok(p) => p,
                Err(e) => {
                    return Err(e);
                },
            };
            proof {
                lemma_below_implies(n0, self.next());
                lemma_env_all_mono(env@, below(n0), below(self.next()));
                lemma_arms_all_mono(arms@.subrange(i + 1, arms@.len() as int), below(n0), below(self.next()));
            }
            let ghost pts = tys_view(tys@);
            let ghost pxs = cs_view(xs@);
            let ghost tbv = tb@;
            let ghost tpv = tp@;
            let ghost xpv = cs_view(xp@);
            let ghost xbv = cs_view(xb@);
            let ghost prev_tys = tys@;
            tys.push(tb);
            let mut xp = xp;
            xp.push(TyConstraint(ts.clone(), tp));
            proof {
                assert(cs_view(xp@) =~= xpv.push((ts@, tpv)));
            }
            xs = append_cs(xs, xp);
            xs = append_cs(xs, xb);
            proof {
                assert(tys@.drop_last() =~= prev_tys);
                assert(tys_view(tys@) == tys_view(tys@.drop_last()).push(tbv));
                match gen_arms(defs, env@, self.next(), ts@, arms@.subrange(i + 1, arms@.len() as int)) {
                    Ok((a, b, n)) => {
                        assert(pts + (seq![tbv] + a) =~= tys_view(tys@) + a);
                        assert(pxs + (xpv.push((ts@, tpv)) + xbv + b) =~= cs_view(xs@) + b);
                    },
                    Err(_) => {},
                }
            }
            i += 1;
        }
        proof {
            assert(arms@.subrange(i as int, arms@.len() as int) =~= Seq::<(Pattern, Simp)>::empty());
            assert(tys_view(tys@) + Seq::<Ty>::empty() =~= tys_view(tys@));
            assert(cs_view(xs@) + Seq::<(Ty, Ty)>::empty() =~= cs_view(xs@));
        }
        Ok((tys, xs))
    }

    fn infer_constraints_expr(&mut self, env: &TyEnv, exp: &Expr) -> (r: Result<(Type, Vec<TyConstraint>), TypeError>)
        requires
            env_all(env@, below(old(self).next())),
            expr_all(*exp, below(old(self).next())),
        ensures
            final(self).defs() == old(self).defs(),
            final(self).next() >= old(self).next(),
            match gen_expr(old(self).defs(), env@, old(self).next(), *exp) {
                Ok((t, x, n)) => r is Ok && r->Ok_0.0@ == t && cs_view(r->Ok_0.1@) == x && final(self).next() == n,
                Err(e) => r is Err && r->Err_0 == e,
            },
        decreases exp,
    {
        match exp {
            Expr::Simp(s) => self.infer_constraints_simp(env, s),
            Expr::Bind(pat, rhs, body) => {
                let (tp, xp) = match self.infer_constraints_pat(pat) {
                    Ok(p) => p,
                    Err(e) => {
                        return Err(e);
                    },
                };
                let ghost n0 = self.next();
                let mut benv = env.copy();
                benv.extend(pat.bindings());
                proof {
                    lemma_pat_binds_all(*pat, below(n0));
                    lemma_env_extend(env@, pat_binds(*pat), below(n0));
                }
                let (tr, xr) = match self.infer_constraints_simp(&benv, rhs) {
                    Ok(p) => p,
                    Err(e) => {
                        return Err(e);
                    },
                };
                proof {
                    lemma_below_implies(n0, self.next());
                    lemma_env_all_mono(benv@, below(n0), below(self.next()));
                    lemma_expr_all_mono(**body, below(n0), below(self.next()));
                }
                let (tb, xb) = match self.infer_constraints_expr(&benv, body) {
                    Ok(p) => p,
                    Err(e) => {
                        return Err(e);
                    },
                };
                let x = append_cs(xp, xr);
                let mut x = append_cs(x, xb);
                let ghost xv = cs_view(x@);
                let ghost tpv = tp@;
                let ghost trv = tr@;
                x.push(TyConstraint(tp, tr));
                proof {
                    assert(cs_view(x@) =~= xv.push((tpv, trv)));
                }
                Ok((tb, x))
            },
        }
    }
}

/// `b` is `a` with the substitution applied to every type annotation; all else is the same.
pub open spec fn pat_subst(s: Seq<(nat, Ty)>, a: Pattern, b: Pattern) -> bool
    decreases a,
{
    match (a, b) {
        (Pattern::Var(n1, t1), Pattern::Var(n2, t2)) => n2@ == n1@ && t2@ == apply_ty(s, t1@),
        (Pattern::Int(x), Pattern::Int(y)) => x == y,
        (Pattern::Bool(x), Pattern::Bool(y)) => x == y,
        (Pattern::Data(da, ca, pa), Pattern::Data(db, cb, pb)) => db@ == da@ && cb@ == ca@ && pats_subst(s, pa@, pb@),
        _ => false,
    }
}

pub open spec fn pats_subst(s: Seq<(nat, Ty)>, a: Seq<Pattern>, b: Seq<Pattern>) -> bool
    decreases a,
{
    a.len() == b.len() && (a.len() == 0 || (pats_subst(s, a.drop_last(), b.drop_last()) && pat_subst(
        s,
        a.last(),
        b.last(),
    )))
}

pub open spec fn args_subst(s: Seq<(nat, Ty)>, a: Seq<(Name, Type)>, b: Seq<(Name, Type)>) -> bool {
    a.len() == b.len() && forall|i: int| 0 <= i < a.len() ==> (#[trigger] b[i]).0@ == a[i].0@ && b[i].1@ == apply_ty(s, a[i].1@)
}

pub open spec fn simp_subst(s: Seq<(nat, Ty)>, a: Simp, b: Simp) -> bool
    decreases a,
{
    match (a, b) {
        (Simp::FnDef(f1), Simp::FnDef(f2)) => args_subst(s, f1.args@, f2.args@) && simp_subst(s, *f1.body, *f2.body)
            && f2.ret@ == apply_ty(s, f1.ret@),
        (Simp::Match(x1, a1), Simp::Match(x2, a2)) => simp_subst(s, *x1, *x2) && arms_subst(s, a1@, a2@),
        (Simp::FnCall(l1, a1), Simp::FnCall(l2, a2)) => simp_subst(s, *l1, *l2) && simps_subst(s, a1@, a2@),
        (Simp::Block(e1), Simp::Block(e2)) => expr_subst(s, *e1, *e2),
        (Simp::Ref(n1), Simp::Ref(n2)) => n2@ == n1@,
        (Simp::Int(x), Simp::Int(y)) => x == y,
        (Simp::Bool(x), Simp::Bool(y)) => x == y,
        (Simp::Unit, Simp::Unit) => true,
        (Simp::Data(c1, a1), Simp::Data(c2, a2)) => c2@ == c1@ && simps_subst(s, a1@, a2@),
        _ => false,
    }
}

pub open spec fn simps_subst(s: Seq<(nat, Ty)>, a: Seq<Simp>, b: Seq<Simp>) -> bool
    decreases a,
{
    a.len() == b.len() && (a.len() == 0 || (simps_subst(s, a.drop_last(), b.drop_last()) && simp_subst(
        s,
        a.last(),
        b.last(),
    )))
}

pub open spec fn arms_subst(s: Seq<(nat, Ty)>, a: Seq<(Pattern, Simp)>, b: Seq<(Pattern, Simp)>) -> bool
    decreases a,
{
    a.len() == b.len() && (a.len() == 0 || (arms_subst(s, a.drop_last(), b.drop_last()) && pat_subst(
        s,
        a.last().0,
        b.last().0,
    ) && simp_subst(s, a.last().1, b.last().1)))
}

pub open spec fn expr_subst(s: Seq<(nat, Ty)>, a: Expr, b: Expr) -> bool
    decreases a,
{
    match (a, b) {
        (Expr::Bind(pa, ra, ba), Expr::Bind(pb, rb, bb)) => pat_subst(s, pa, pb) && simp_subst(s, ra, rb)
            && expr_subst(s, *ba, *bb),
        (Expr::Simp(x), Expr::Simp(y)) => simp_subst(s, x, y),
        _ => false,
    }
}

/// The data definitions stay; the expression has the substitution applied.
pub open spec fn program_subst(s: Seq<(nat, Ty)>, a: Program, b: Program) -> bool {
    b.data_defs@ == a.data_defs@ && match (a.expr, b.expr) {
        (Some(x), Some(y)) => expr_subst(s, x, y),
        (None, None) => true,
        _ => false,
    }
}

/// `b` is `a`: the same tree, with type annotations equal as types.
pub open spec fn pat_same(a: Pattern, b: Pattern) -> bool
    decreases a,
{
    match (a, b) {
        (Pattern::Var(n1, t1), Pattern::Var(n2, t2)) => n2@ == n1@ && t2@ == (t1@),
        (Pattern::Int(x), Pattern::Int(y)) => x == y,
        (Pattern::Bool(x), Pattern::Bool(y)) => x == y,
        (Pattern::Data(da, ca, pa), Pattern::Data(db, cb, pb)) => db@ == da@ && cb@ == ca@ && pats_same(pa@, pb@),
        _ => false,
    }
}

pub open spec fn pats_same(a: Seq<Pattern>, b: Seq<Pattern>) -> bool
    decreases a,
{
    a.len() == b.len() && (a.len() == 0 || (pats_same(a.drop_last(), b.drop_last()) && pat_same(
        a.last(),
        b.last(),
    )))
}

pub open spec fn args_same(a: Seq<(Name, Type)>, b: Seq<(Name, Type)>) -> bool {
    a.len() == b.len() && forall|i: int| 0 <= i < a.len() ==> (#[trigger] b[i]).0@ == a[i].0@ && b[i].1@ == (a[i].1@)
}

pub open spec fn simp_same(a: Simp, b: Simp) -> bool
    decreases a,
{
    match (a, b) {
        (Simp::FnDef(f1), Simp::FnDef(f2)) => args_same(f1.args@, f2.args@) && simp_same(*f1.body, *f2.body)
            && f2.ret@ == (f1.ret@),
        (Simp::Match(x1, a1), Simp::Match(x2, a2)) => simp_same(*x1, *x2) && arms_same(a1@, a2@),
        (Simp::FnCall(l1, a1), Simp::FnCall(l2, a2)) => simp_same(*l1, *l2) && simps_same(a1@, a2@),
        (Simp::Block(e1), Simp::Block(e2)) => expr_same(*e1, *e2),
        (Simp::Ref(n1), Simp::Ref(n2)) => n2@ == n1@,
        (Simp::Int(x), Simp::Int(y)) => x == y,
        (Simp::Bool(x), Simp::Bool(y)) => x == y,
        (Simp::Unit, Simp::Unit) => true,
        (Simp::Data(c1, a1), Simp::Data(c2, a2)) => c2@ == c1@ && simps_same(a1@, a2@),
        _ => false,
    }
}

pub open spec fn simps_same(a: Seq<Simp>, b: Seq<Simp>) -> bool
    decreases a,
{
    a.len() == b.len() && (a.len() == 0 || (simps_same(a.drop_last(), b.drop_last()) && simp_same(
        a.last(),
        b.last(),
    )))
}

pub open spec fn arms_same(a: Seq<(Pattern, Simp)>, b: Seq<(Pattern, Simp)>) -> bool
    decreases a,
{
    a.len() == b.len() && (a.len() == 0 || (arms_same(a.drop_last(), b.drop_last()) && pat_same(
        a.last().0,
        b.last().0,
    ) && simp_same(a.last().1, b.last().1)))
}

pub open spec fn expr_same(a: Expr, b: Expr) -> bool
    decreases a,
{
    match (a, b) {
        (Expr::Bind(pa, ra, ba), Expr::Bind(pb, rb, bb)) => pat_same(pa, pb) && simp_same(ra, rb)
            && expr_same(*ba, *bb),
        (Expr::Simp(x), Expr::Simp(y)) => simp_same(x, y),
        _ => false,
    }
}

/// Two programs with the same data definitions and the same expression.
pub open spec fn program_same(a: Program, b: Program) -> bool {
    b.data_defs@ == a.data_defs@ && match (a.expr, b.expr) {
        (Some(x), Some(y)) => expr_same(x, y),
        (None, None) => true,
        _ => false,
    }
}


/// Replaces type variables in every annotation of a program; the data definitions stay.
pub fn apply_subst_program(subst: &TySubst, program: Program) -> (r: Program)
    ensures
        program_subst(subst@, program, r),
{
    let Program { data_defs, expr } = program;
    let e = match &expr {
        Some(e) => Some(apply_subst_expr(subst, e)),
        None => None,
    };
    Program { data_defs, expr: e }
}

fn apply_subst_pat(subst: &TySubst, pat: &Pattern) -> (r: Pattern)
    ensures
        pat_subst(subst@, *pat, r),
    decreases pat,
{
    match pat {
        Pattern::Var(n, t) => Pattern::Var(n.clone(), subst.apply(t.clone())),
        Pattern::Int(i) => Pattern::Int(*i),
        Pattern::Bool(b) => Pattern::Bool(*b),
        Pattern::Data(d, c, ps) => {
            let mut out: Vec<Pattern> = Vec::new();
            let mut i: usize = 0;
            while i < ps.len()
                invariant
                    i <= ps.len(),
                    *pat == Pattern::Data(*d, *c, *ps),
                    pats_subst(subst@, ps@.subrange(0, i as int), out@),
                decreases ps.len() - i,
            {
                proof {
                    assert(decreases_to!(*pat => pat->Data_2));
                    assert(decreases_to!(pat->Data_2 => ps@));
                    assert(decreases_to!(ps@ => ps@[i as int]));
                }
                let q = apply_subst_pat(subst, &ps[i]);
                let ghost prev = out@;
                out.push(q);
                proof {
                    assert(ps@.subrange(0, i as int + 1).drop_last() =~= ps@.subrange(0, i as int));
                    assert(out@.drop_last() =~= prev);
                }
                i += 1;
            }
            proof {
                assert(ps@.subrange(0, i as int) =~= ps@);
            }
            Pattern::Data(d.clone(), c.clone(), out)
        },
    }
}

fn apply_subst_simp(subst: &TySubst, simp: &Simp) -> (r: Simp)
    ensures
        simp_subst(subst@, *simp, r),
    decreases simp,
{
    match simp {
        Simp::FnDef(f) => {
            let mut args: Vec<(Name, Type)> = Vec::new();
            let mut i: usize = 0;
            while i < f.args.len()
                invariant
                    i <= f.args.len(),
                    args.len() == i,
                    forall|j: int| 0 <= j < i ==> (#[trigger] args@[j]).0@ == f.args@[j].0@ && args@[j].1@
                        == apply_ty(subst@, f.args@[j].1@),
                decreases f.args.len() - i,
            {
                args.push((f.args[i].0.clone(), subst.apply(f.args[i].1.clone())));
                i += 1;
            }
            let body = apply_subst_simp(subst, &f.body);
            let ret = subst.apply(f.ret.clone());
            Simp::FnDef(Rc::new(FnDef { args, body: Box::new(body), ret }))
        },
        Simp::Match(x, arms) => {
            let nx = apply_subst_simp(subst, x);
            let mut out: Vec<(Pattern, Simp)> = Vec::new();
            let mut i: usize = 0;
            while i < arms.len()
                invariant
                    i <= arms.len(),
                    *simp == Simp::Match(*x, *arms),
                    arms_subst(subst@, arms@.subrange(0, i as int), out@),
                decreases arms.len() - i,
            {
                proof {
                    assert(decreases_to!(*simp => simp->Match_1));
                    assert(decreases_to!(simp->Match_1 => arms@));
                    assert(decreases_to!(arms@ => arms@[i as int]));
                }
                let p = apply_subst_pat(subst, &arms[i].0);
                let b = apply_subst_simp(subst, &arms[i].1);
                let ghost prev = out@;
                out.push((p, b));
                proof {
                    assert(arms@.subrange(0, i as int + 1).drop_last() =~= arms@.subrange(0, i as int));
                    assert(out@.drop_last() =~= prev);
                }
                i += 1;
            }
            proof {
                assert(arms@.subrange(0, i as int) =~= arms@);
            }
            Simp::Match(Box::new(nx), out)
        },
        Simp::FnCall(l, args) => {
            let nl = apply_subst_simp(subst, l);
            proof {
                assert(decreases_to!(*simp => simp->FnCall_1));
                assert(decreases_to!(simp->FnCall_1 => args@));
            }
            let nargs = apply_subst_list(subst, args);
            Simp::FnCall(Box::new(nl), nargs)
        },
        Simp::Block(e) => Simp::Block(Box::new(apply_subst_expr(subst, e))),
        Simp::Ref(n) => Simp::Ref(n.clone()),
        Simp::Int(i) => Simp::Int(*i),
        Simp::Bool(b) => Simp::Bool(*b),
        Simp::Unit => Simp::Unit,
        Simp::Data(c, args) => {
            proof {
                assert(decreases_to!(*simp => simp->Data_1));
                assert(decreases_to!(simp->Data_1 => args@));
            }
            let nargs = apply_subst_list(subst, args);
            Simp::Data(c.clone(), nargs)
        },
    }
}

fn apply_subst_list(subst: &TySubst, ss: &Vec<Simp>) -> (r: Vec<Simp>)
    ensures
        simps_subst(subst@, ss@, r@),
    decreases ss@,
{
    let mut out: Vec<Simp> = Vec::new();
    let mut i: usize = 0;
    while i < ss.len()
        invariant
            i <= ss.len(),
            simps_subst(subst@, ss@.subrange(0, i as int), out@),
        decreases ss.len() - i,
    {
        proof {
            assert(decreases_to!(ss@ => ss@[i as int]));
        }
        let x = apply_subst_simp(subst, &ss[i]);
        let ghost prev = out@;
        out.push(x);
        proof {
            assert(ss@.subrange(0, i as int + 1).drop_last() =~= ss@.subrange(0, i as int));
            assert(out@.drop_last() =~= prev);
        }
        i += 1;
    }
    proof {
        assert(ss@.subrange(0, i as int) =~= ss@);
    }
    out
}

fn apply_subst_expr(subst: &TySubst, expr: &Expr) -> (r: Expr)
    ensures
        expr_subst(subst@, *expr, r),
    decreases expr,
{
    match expr {
        Expr::Bind(p, rhs, body) => {
            let np = apply_subst_pat(subst, p);
            let nr = apply_subst_simp(subst, rhs);
            let nb = apply_subst_expr(subst, body);
            Expr::Bind(np, nr, Box::new(nb))
        },
        Expr::Simp(s) => Expr::Simp(apply_subst_simp(subst, s)),
    }
}

/// The first id that inference may use for new type variables: past both the counter and
/// every type variable already in the program.
pub open spec fn start_of(next: nat, program: Program) -> nat {
    maxn(next, progb(program))
}

/// Inference of a whole program from a counter of type variables: the solved substitution, or
/// the error that stopped it. The variables that calls introduce start at `start_of`, so they
/// are new to the program.
pub open spec fn infer_m(next: nat, program: Program) -> Result<Seq<(nat, Ty)>, TypeError> {
    match program.expr {
        None => Err(TypeError::NoExpr),
        Some(e) => if start_of(next, program) > usize::MAX {
            Err(TypeError::Exhausted)
        } else {
            match gen_expr(program.data_defs@, initial_env(), start_of(next, program), e) {
                Err(err) => Err(err),
                Ok((t, cs, _)) => match unify_m(cs) {
                    Err(err) => Err(err),
                    Ok(s) => if apply_ty(s, t) is Var {
                        Err(TypeError::Unresolved)
                    } else {
                        Ok(s)
                    },
                },
            }
        },
    }
}

/// The built-in operators have types without variables.
proof fn lemma_initial_env_below(b: nat)
    ensures
        env_all(initial_env(), below(b)),
{
    let ii = seq![Ty::Int, Ty::Int];
    let bb = seq![Ty::Bool, Ty::Bool];
    assert(ii.drop_last() =~= seq![Ty::Int]);
    assert(bb.drop_last() =~= seq![Ty::Bool]);
    assert(seq![Ty::Int].drop_last() =~= Seq::<Ty>::empty());
    assert(seq![Ty::Bool].drop_last() =~= Seq::<Ty>::empty());
    assert(crate::scan::tys_below(Seq::<Ty>::empty(), b));
    assert(seq![Ty::Int].last() == Ty::Int);
    assert(seq![Ty::Bool].last() == Ty::Bool);
    assert(crate::scan::ty_below(Ty::Int, b));
    assert(crate::scan::ty_below(Ty::Bool, b));
    assert(crate::scan::tys_below(seq![Ty::Int], b));
    assert(crate::scan::tys_below(seq![Ty::Bool], b));
    assert(crate::scan::tys_below(ii, b));
    assert(crate::scan::tys_below(bb, b));
    assert forall|i: int| 0 <= i < initial_env().len() implies #[trigger] below(b)(initial_env()[i].1) by {
    }
}

impl TypeChecker {
    /// Infers the types of a program and returns it with every type variable that the solution
    /// determines replaced.
    pub fn infer(&mut self, program: Program) -> (r: Result<Program, TypeError>)
        ensures
            match infer_m(old(self).next(), program) {
                Ok(s) => r is Ok && program_subst(s, program, r->Ok_0),
                Err(e) => r is Err && r->Err_0 == e,
            },
    {
        let bound = crate::scan::program_bound(&program);
        if program.expr.is_none() {
            return Err(TypeError::NoExpr);
        }
        if bound > usize::MAX as u128 {
            return Err(TypeError::Exhausted);
        }
        let b: usize = bound as usize;
        if b > self.next_tv {
            self.next_tv = b;
        }
        let ghost start = self.next();
        let Program { data_defs, expr } = program;
        let e = match expr {
            Some(e) => e,
            None => {
                return Err(TypeError::NoExpr);
            },
        };
        let ghost dd = data_defs;
        let ghost n0 = self.next();
        let mut defs = data_defs;
        core::mem::swap(&mut self.cons_datadef, &mut defs);
        assert(self.defs() == dd@);
        assert(self.next() == n0);
        proof {
            crate::scan::lemma_exprb(e, start);
            lemma_initial_env_below(start);
        }
        let env = TyEnv::new();
        let generated = self.infer_constraints_expr(&env, &e);
        core::mem::swap(&mut self.cons_datadef, &mut defs);
        assert(defs@ == dd@);
        let (prog_ty, constraints) = match generated {
            Ok(p) => p,
            Err(err) => {
                return Err(err);
            },
        };
        let subst = match unify(constraints) {
            Ok(s) => s,
            Err(err) => {
                return Err(err);
            },
        };
        let t = subst.apply(prog_ty);
        if let Type::TyVar(_) = t {
            return Err(TypeError::Unresolved);
        }
        let ne = apply_subst_expr(&subst, &e);
        Ok(Program { data_defs: defs, expr: Some(ne) })
    }
}

} // verus!

verus! {

/// Occurs check: an equation between a variable and a function type that contains it has no
/// solution, and unification stops at it with a recursive-type error, whichever side the
/// variable stands on.
pub proof fn lemma_occurs_check(n: nat, args: Seq<Ty>, ret: Ty, rest: Seq<(Ty, Ty)>)
    requires
        occurs_m(n, Ty::Fn(args, Box::new(ret))),
    ensures
        unify_m(seq![(Ty::Var(n), Ty::Fn(args, Box::new(ret)))] + rest) == Err::<Seq<(nat, Ty)>, TypeError>(
            TypeError::Recursive,
        ),
        unify_m(seq![(Ty::Fn(args, Box::new(ret)), Ty::Var(n))] + rest) == Err::<Seq<(nat, Ty)>, TypeError>(
            TypeError::Recursive,
        ),
{
    let f = Ty::Fn(args, Box::new(ret));
    let c1 = seq![(Ty::Var(n), f)] + rest;
    let c2 = seq![(f, Ty::Var(n))] + rest;
    assert(c1[0] == (Ty::Var(n), f));
    assert(c2[0] == (f, Ty::Var(n)));
    assert(c1.subrange(1, c1.len() as int) =~= rest);
    assert(c2.subrange(1, c2.len() as int) =~= rest);
    assert(solve_var(n, f, rest) == Err::<Seq<(nat, Ty)>, TypeError>(TypeError::Recursive));
    assert(Ty::Var(n) != f);
    assert(unify_m(c1) == solve_var(n, f, rest));
    assert(unify_m(c2) == solve_var(n, f, rest));
}

/// The identity substitution leaves every type as it is.
pub proof fn lemma_identity_subst(t: Ty)
    ensures
        apply_ty(Seq::empty(), t) == t,
    decreases t,
{
    if let Ty::Fn(args, ret) = t {
        lemma_apply_tys_index(Seq::empty(), args);
        assert forall|i: int| 0 <= i < args.len() implies #[trigger] apply_tys(Seq::empty(), args)[i] == args[i] by {
            lemma_identity_subst(args[i]);
        }
        assert(apply_tys(Seq::empty(), args) =~= args);
        lemma_identity_subst(*ret);
    }
}

} // verus!
