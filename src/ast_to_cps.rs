use crate::ast::{decimal, dec, str_eq, is_builtin_op, DataDef, Expr, Name, Op, Pattern, Program, Simp};
use crate::cps::{names_view, CntDef, CntM, Cps, CpsExpr, FunDef, FunM, LitHigh};
use crate::interp::arg_names;
use vstd::prelude::*;

verus! {

/// Why a program could not be lowered.
#[derive(Clone, Copy, PartialEq, Eq, Structural, Debug)]
pub enum LowerError {
    /// The unit value has no representation in CPS.
    Unit,
    /// A constructor that no data type defines.
    UnknownCons,
    /// A `match` without arms.
    EmptyMatch,
    /// The program has no expression.
    NoExpr,
}

/// What the rest of the lowering does with the name of a value once it is computed.
pub ghost enum KM {
    /// End the program with the value.
    Halt,
    /// Match the value against a `let` pattern, then go on with the body.
    Bind(Pattern, Expr, Box<KM>),
    /// Return the value to a continuation.
    Ret(Seq<char>),
    /// The scrutinee of a `match`: dispatch on the arms, then go on.
    Scrut(Seq<(Pattern, Simp)>, Box<KM>),
    /// The callee of a call: lower the arguments, then call.
    Callee(Seq<Simp>, Seq<char>),
    /// One argument of a list: lower the remaining ones.
    Next(Seq<Simp>, Seq<Seq<char>>, Box<VM>),
}

/// What the rest of the lowering does with the names of a list of values.
pub ghost enum VM {
    /// Apply a primitive.
    Prim(Seq<char>, Box<KM>),
    /// Call a function with a return continuation.
    Call(Seq<char>, Seq<char>),
    /// Allocate a constructor value with the given tag, under the given name.
    Alloc(i64, Seq<char>, Box<KM>),
}

pub open spec fn sz(s: Simp) -> nat
    decreases s,
{
    match s {
        Simp::FnDef(f) => 4 + sz(*f.body),
        Simp::Match(x, arms) => 4 + sz(*x) + sz_arms(arms@),
        Simp::FnCall(l, args) => 4 + sz(*l) + sz_list(args@),
        Simp::Block(e) => 4 + sze(*e),
        Simp::Data(_, args) => 4 + sz_list(args@),
        _ => 1,
    }
}

pub open spec fn sz_list(ss: Seq<Simp>) -> nat
    decreases ss,
{
    if ss.len() == 0 {
        0
    } else {
        sz(ss[0]) + sz_list(ss.subrange(1, ss.len() as int))
    }
}

pub open spec fn sz_arms(arms: Seq<(Pattern, Simp)>) -> nat
    decreases arms,
{
    if arms.len() == 0 {
        0
    } else {
        sz(arms[0].1) + 1 + sz_arms(arms.subrange(1, arms.len() as int))
    }
}

pub open spec fn sze(e: Expr) -> nat
    decreases e,
{
    match e {
        Expr::Bind(_, rhs, body) => 4 + sz(rhs) + sze(*body),
        Expr::Simp(s) => 1 + sz(s),
    }
}

pub open spec fn w(k: KM) -> nat
    decreases k,
{
    match k {
        KM::Halt => 0,
        KM::Bind(_, e, k2) => 1 + sze(e) + w(*k2),
        KM::Ret(_) => 0,
        KM::Scrut(arms, k2) => 1 + sz_arms(arms) + w(*k2),
        KM::Callee(args, _) => sz_list(args) + 3,
        KM::Next(rest, _, vk) => sz_list(rest) + wv(*vk) + 2,
    }
}

pub open spec fn wv(vk: VM) -> nat
    decreases vk,
{
    match vk {
        VM::Prim(_, k) => 1 + w(*k),
        VM::Call(_, _) => 0,
        VM::Alloc(_, _, k) => 1 + w(*k),
    }
}

/// How many names with prefix `p` were made so far.
pub open spec fn count_of(st: Seq<(Seq<char>, nat)>, p: Seq<char>) -> nat
    decreases st.len(),
{
    if st.len() == 0 {
        0
    } else if st.last().0 == p {
        st.last().1
    } else {
        count_of(st.drop_last(), p)
    }
}

pub open spec fn bump(c: nat) -> nat {
    if c >= u64::MAX {
        c
    } else {
        c + 1
    }
}

/// A new name `p$N`, where `N` counts the names made with prefix `p`.
pub open spec fn fresh_m(st: Seq<(Seq<char>, nat)>, p: Seq<char>) -> (Seq<char>, Seq<(Seq<char>, nat)>) {
    let c = bump(count_of(st, p));
    (p + "$"@ + dec(c), st.push((p, c)))
}

/// The tag of a constructor: its position in its data type.
pub open spec fn position(cons: Seq<(Name, crate::ast::Cons)>, c: Seq<char>) -> Option<nat>
    decreases cons.len(),
{
    if cons.len() == 0 {
        None
    } else if cons[0].0@ == c {
        Some(0)
    } else {
        match position(cons.subrange(1, cons.len() as int), c) {
            Some(i) => Some(i + 1),
            None => None,
        }
    }
}

/// The tag of constructor `c` in the first data type that defines it.
pub open spec fn tag_of(defs: Seq<DataDef>, c: Seq<char>) -> Option<nat>
    decreases defs.len(),
{
    if defs.len() == 0 {
        None
    } else {
        match position(defs[0].cons@, c) {
            Some(i) => Some(i),
            None => tag_of(defs.subrange(1, defs.len() as int), c),
        }
    }
}

/// A position as a literal; positions beyond `i64` are not expected.
pub open spec fn tag_lit(n: nat) -> i64 {
    if n <= i64::MAX {
        n as i64
    } else {
        i64::MAX
    }
}

/// The body of a function as lowered: a function that a `let` binds to a variable begins by
/// binding that variable to itself, so that its body can call it.
pub open spec fn self_bound(k: KM, anon: Seq<char>, body: Cps<LitHigh>) -> Cps<LitHigh> {
    match k {
        KM::Bind(Pattern::Var(x, _), _, _) => Cps::Prim { name: x@, op: "id"@, args: seq![anon], body: Box::new(body) },
        _ => body,
    }
}

pub type Lowered = Result<(Cps<LitHigh>, Seq<(Seq<char>, nat)>), LowerError>;

/// Lowering of a simple expression, with `k` receiving the name of its value.
pub open spec fn lower_simp_m(defs: Seq<DataDef>, st: Seq<(Seq<char>, nat)>, s: Simp, k: KM) -> Lowered
    decreases sz(s) + w(k), 0nat,
{
    match s {
        Simp::Ref(n) => apply_k(defs, st, k, n@),
        Simp::Int(n) => {
            let (c, st1) = fresh_m(st, "c"@);
            match apply_k(defs, st1, k, c) {
                Ok((body, st2)) => Ok((Cps::Const { name: c, value: LitHigh::Int(n), body: Box::new(body) }, st2)),
                Err(e) => Err(e),
            }
        },
        Simp::Bool(b) => {
            let (c, st1) = fresh_m(st, "c"@);
            match apply_k(defs, st1, k, c) {
                Ok((body, st2)) => Ok((Cps::Const { name: c, value: LitHigh::Int(if b { 1 } else { 0 }), body: Box::new(body) }, st2)),
                Err(e) => Err(e),
            }
        },
        Simp::Unit => Err(LowerError::Unit),
        Simp::Block(e) => lower_expr_m(defs, st, *e, k),
        Simp::FnDef(f) => {
            let (anon, st1) = fresh_m(st, "fn"@);
            let (retc, st2) = fresh_m(st1, "rc"@);
            match lower_simp_m(defs, st2, *f.body, KM::Ret(retc)) {
                Err(e) => Err(e),
                Ok((body, st3)) => match apply_k(defs, st3, k, anon) {
                    Err(e) => Err(e),
                    Ok((rest, st4)) => Ok((
                        Cps::Funs {
                            funs: seq![FunM { name: anon, ret: retc, args: arg_names(*f), body: self_bound(k, anon, body) }],
                            body: Box::new(rest),
                        },
                        st4,
                    )),
                },
            }
        },
        Simp::Match(x, arms) => if arms.len() == 0 {
            Err(LowerError::EmptyMatch)
        } else {
            lower_simp_m(defs, st, *x, KM::Scrut(arms@, Box::new(k)))
        },
        Simp::FnCall(l, args) => match *l {
            Simp::Ref(op) if is_builtin_op(op@) => simp_list_m(defs, st, args@, Seq::empty(), VM::Prim(op@, Box::new(k))),
            _ => {
                let (rc, st1) = fresh_m(st, "rc"@);
                let (rv, st2) = fresh_m(st1, "rv"@);
                match apply_k(defs, st2, k, rv) {
                    Err(e) => Err(e),
                    Ok((kb, st3)) => match lower_simp_m(defs, st3, *l, KM::Callee(args@, rc)) {
                        Err(e) => Err(e),
                        Ok((body, st4)) => Ok((
                            Cps::Cnts { cnts: seq![CntM { name: rc, args: seq![rv], body: kb }], body: Box::new(body) },
                            st4,
                        )),
                    },
                }
            },
        },
        Simp::Data(c, args) => match tag_of(defs, c@) {
            None => Err(LowerError::UnknownCons),
            Some(tag) => {
                let (data, st1) = fresh_m(st, "data"@);
                simp_list_m(defs, st1, args@, Seq::empty(), VM::Alloc(tag_lit(tag), data, Box::new(k)))
            },
        },
    }
}

pub open spec fn apply_k(defs: Seq<DataDef>, st: Seq<(Seq<char>, nat)>, k: KM, v: Seq<char>) -> Lowered
    decreases w(k), 2nat,
{
    match k {
        KM::Halt => Ok((Cps::Halt(v), st)),
        KM::Ret(r) => Ok((Cps::AppC { cnt: r, args: seq![v] }, st)),
        KM::Bind(p, e, k2) => match lower_expr_m(defs, st, e, *k2) {
            Err(err) => Err(err),
            Ok((body, st1)) => pat_m(st1, p, v, body, "halt"@),
        },
        KM::Scrut(arms, k2) => {
            let (ma, st1) = fresh_m(st, "match_after"@);
            let (m, st2) = fresh_m(st1, "matched"@);
            match apply_k(defs, st2, *k2, m) {
                Err(err) => Err(err),
                Ok((kb, st3)) => match match_arms_m(defs, st3, v, arms, ma) {
                    Err(err) => Err(err),
                    Ok((body, st4)) => Ok((
                        Cps::Cnts { cnts: seq![CntM { name: ma, args: seq![m], body: kb }], body: Box::new(body) },
                        st4,
                    )),
                },
            }
        },
        KM::Callee(args, rc) => simp_list_m(defs, st, args, Seq::empty(), VM::Call(v, rc)),
        KM::Next(rest, acc, vk) => simp_list_m(defs, st, rest, acc.push(v), *vk),
    }
}

pub open spec fn apply_v(defs: Seq<DataDef>, st: Seq<(Seq<char>, nat)>, vk: VM, vs: Seq<Seq<char>>) -> Lowered
    decreases wv(vk), 2nat,
{
    match vk {
        VM::Prim(op, k) => {
            let (p, st1) = fresh_m(st, "prim"@);
            match apply_k(defs, st1, *k, p) {
                Err(e) => Err(e),
                Ok((body, st2)) => Ok((Cps::Prim { name: p, op, args: vs, body: Box::new(body) }, st2)),
            }
        },
        VM::Call(f, rc) => Ok((Cps::AppF { fun: f, ret: rc, args: vs }, st)),
        VM::Alloc(tag, data, k) => {
            let (d, st1) = fresh_m(st, "d"@);
            match apply_k(defs, st1, *k, data) {
                Err(e) => Err(e),
                Ok((body, st2)) => Ok((
                    Cps::Const {
                        name: d,
                        value: LitHigh::Int(tag),
                        body: Box::new(Cps::Prim { name: data, op: "data"@, args: seq![d] + vs, body: Box::new(body) }),
                    },
                    st2,
                )),
            }
        },
    }
}

/// Lowers a list of simple expressions left to right, collecting the names of their values.
pub open spec fn simp_list_m(defs: Seq<DataDef>, st: Seq<(Seq<char>, nat)>, ss: Seq<Simp>, acc: Seq<Seq<char>>, vk: VM) -> Lowered
    decreases sz_list(ss) + wv(vk) + 2, 1nat,
{
    if ss.len() == 0 {
        apply_v(defs, st, vk, acc)
    } else {
        lower_simp_m(defs, st, ss[0], KM::Next(ss.subrange(1, ss.len() as int), acc, Box::new(vk)))
    }
}

pub open spec fn lower_expr_m(defs: Seq<DataDef>, st: Seq<(Seq<char>, nat)>, e: Expr, k: KM) -> Lowered
    decreases sze(e) + w(k), 0nat,
{
    match e {
        Expr::Simp(s) => lower_simp_m(defs, st, s, k),
        Expr::Bind(p, rhs, body) => lower_simp_m(defs, st, rhs, KM::Bind(p, *body, Box::new(k))),
    }
}

/// A chain of pattern tests on `val`: each arm that fails jumps to an alternative that tries
/// the next one; the last falls through to `halt`. Each arm returns its value to `ret`.
pub open spec fn match_arms_m(defs: Seq<DataDef>, st: Seq<(Seq<char>, nat)>, val: Seq<char>, arms: Seq<(Pattern, Simp)>, ret: Seq<char>) -> Lowered
    decreases sz_arms(arms), 0nat,
{
    if arms.len() == 0 {
        Err(LowerError::EmptyMatch)
    } else if arms.len() == 1 {
        match lower_simp_m(defs, st, arms[0].1, KM::Ret(ret)) {
            Err(e) => Err(e),
            Ok((body, st1)) => pat_m(st1, arms[0].0, val, body, "halt"@),
        }
    } else {
        let (nm, st1) = fresh_m(st, "m_alt"@);
        match match_arms_m(defs, st1, val, arms.subrange(1, arms.len() as int), ret) {
            Err(e) => Err(e),
            Ok((alt, st2)) => match lower_simp_m(defs, st2, arms[0].1, KM::Ret(ret)) {
                Err(e) => Err(e),
                Ok((body, st3)) => match pat_m(st3, arms[0].0, val, body, nm) {
                    Err(e) => Err(e),
                    Ok((pm, st4)) => Ok((
                        Cps::Cnts { cnts: seq![CntM { name: nm, args: Seq::empty(), body: alt }], body: Box::new(pm) },
                        st4,
                    )),
                },
            },
        }
    }
}

/// Tests `val` against an integer literal: on success `body`, else a jump to `nm`.
pub open spec fn int_pat(st: Seq<(Seq<char>, nat)>, n: i64, val: Seq<char>, body: Cps<LitHigh>, nm: Seq<char>) -> (Cps<LitHigh>, Seq<(Seq<char>, nat)>) {
    let (good, st1) = fresh_m(st, "pm_good"@);
    let (d, st2) = fresh_m(st1, "p"@);
    (
        Cps::Const {
            name: d,
            value: LitHigh::Int(n),
            body: Box::new(Cps::Cnts {
                cnts: seq![CntM { name: good, args: Seq::empty(), body }],
                body: Box::new(Cps::If { op: "=="@, args: seq![d, val], t: good, f: nm }),
            }),
        },
        st2,
    )
}

/// Lowering of a pattern test on `val` that runs `body` on success and jumps to `nm` otherwise.
pub open spec fn pat_m(st: Seq<(Seq<char>, nat)>, p: Pattern, val: Seq<char>, body: Cps<LitHigh>, nm: Seq<char>) -> Lowered
    decreases p, 0nat,
{
    match p {
        Pattern::Var(n, _) => Ok((Cps::Prim { name: n@, op: "id"@, args: seq![val], body: Box::new(body) }, st)),
        Pattern::Int(n) => Ok(int_pat(st, n, val, body, nm)),
        Pattern::Bool(b) => Ok(int_pat(st, if b { 1 } else { 0 }, val, body, nm)),
        Pattern::Data(dd, c, ps) => match position(dd.cons@, c@) {
            None => Err(LowerError::UnknownCons),
            Some(tag) => {
                let (good, st1) = fresh_m(st, "pm_good"@);
                let inner = if ps.len() == 0 {
                    Ok((body, st1))
                } else {
                    fields_m(st1, val, ps@, body, nm, Seq::empty())
                };
                match inner {
                    Err(e) => Err(e),
                    Ok((gbody, st2)) => {
                        let (d, st3) = fresh_m(st2, "d"@);
                        let (vd, st4) = fresh_m(st3, "desc"@);
                        Ok((
                            Cps::Const {
                                name: d,
                                value: LitHigh::Int(tag_lit(tag)),
                                body: Box::new(Cps::Prim {
                                    name: vd,
                                    op: "desc"@,
                                    args: seq![val],
                                    body: Box::new(Cps::Cnts {
                                        cnts: seq![CntM { name: good, args: Seq::empty(), body: gbody }],
                                        body: Box::new(Cps::If { op: "=="@, args: seq![d, vd], t: good, f: nm }),
                                    }),
                                }),
                            },
                            st4,
                        ))
                    },
                }
            },
        },
    }
}

/// Reads the fields of `data` one by one, then tests them against `ps`.
pub open spec fn fields_m(st: Seq<(Seq<char>, nat)>, data: Seq<char>, ps: Seq<Pattern>, body: Cps<LitHigh>, nm: Seq<char>, acc: Seq<Seq<char>>) -> Lowered
    decreases ps, if acc.len() <= ps.len() { (ps.len() + 1 - acc.len()) as nat } else { 1nat },
{
    if acc.len() >= ps.len() {
        pat_list_m(st, ps, acc, body, nm)
    } else {
        let k = acc.len();
        let (f, st1) = fresh_m(st, "f"@);
        let (i, st2) = fresh_m(st1, "i"@);
        match fields_m(st2, data, ps, body, nm, acc.push(f)) {
            Err(e) => Err(e),
            Ok((rest, st3)) => Ok((
                Cps::Const {
                    name: i,
                    value: LitHigh::Int(tag_lit(k)),
                    body: Box::new(Cps::Prim { name: f, op: "field"@, args: seq![data, i], body: Box::new(rest) }),
                },
                st3,
            )),
        }
    }
}

/// Tests each value against its pattern, the first outermost; all share the failure target.
pub open spec fn pat_list_m(st: Seq<(Seq<char>, nat)>, ps: Seq<Pattern>, vals: Seq<Seq<char>>, body: Cps<LitHigh>, nm: Seq<char>) -> Lowered
    decreases ps, 0nat,
{
    if ps.len() == 0 {
        Ok((body, st))
    } else if ps.len() == 1 {
        pat_m(st, ps[0], vals[0], body, nm)
    } else {
        match pat_list_m(st, ps.subrange(1, ps.len() as int), vals.subrange(1, vals.len() as int), body, nm) {
            Err(e) => Err(e),
            Ok((rest, st1)) => pat_m(st1, ps[0], vals[0], rest, nm),
        }
    }
}

fn tag_exec(n: usize) -> (r: i64)
    ensures
        r == tag_lit(n as nat),
{
    let m: u64 = n as u64;
    if m <= 0x7fff_ffff_ffff_ffff {
        m as i64
    } else {
        0x7fff_ffff_ffff_ffff
    }
}

fn position_of(cons: &Vec<(Name, crate::ast::Cons)>, c: &Name) -> (r: Option<usize>)
    ensures
        match position(cons@, c@) {
            Some(i) => r is Some && r->0 as nat == i && i < cons@.len(),
            None => r is None,
        },
{
    let mut i: usize = 0;
    proof {
        assert(cons@.subrange(0, cons@.len() as int) =~= cons@);
    }
    while i < cons.len()
        invariant
            i <= cons.len(),
            forall|j: int| 0 <= j < i ==> cons@[j].0@ != c@,
            position(cons@, c@) == match position(cons@.subrange(i as int, cons@.len() as int), c@) {
                Some(t) => Some((t + i) as nat),
                None => None::<nat>,
            },
        decreases cons.len() - i,
    {
        let ghost rest = cons@.subrange(i as int, cons@.len() as int);
        proof {
            assert(rest[0] == cons@[i as int]);
            assert(rest.subrange(1, rest.len() as int) =~= cons@.subrange(i + 1, cons@.len() as int));
        }
        if cons[i].0 == *c {
            return Some(i);
        }
        i += 1;
    }
    proof {
        assert(cons@.subrange(i as int, cons@.len() as int).len() == 0);
    }
    None
}

fn tag_in(defs: &Vec<DataDef>, c: &Name) -> (r: Option<usize>)
    ensures
        match tag_of(defs@, c@) {
            Some(t) => r is Some && r->0 as nat == t,
            None => r is None,
        },
{
    let mut i: usize = 0;
    proof {
        assert(defs@.subrange(0, defs@.len() as int) =~= defs@);
    }
    while i < defs.len()
        invariant
            i <= defs.len(),
            tag_of(defs@, c@) == tag_of(defs@.subrange(i as int, defs@.len() as int), c@),
        decreases defs.len() - i,
    {
        let ghost rest = defs@.subrange(i as int, defs@.len() as int);
        proof {
            assert(rest[0] == defs@[i as int]);
            assert(rest.subrange(1, rest.len() as int) =~= defs@.subrange(i + 1, defs@.len() as int));
        }
        match position_of(&defs[i].cons, c) {
            Some(t) => {
                return Some(t);
            },
            None => {},
        }
        i += 1;
    }
    None
}

/// The exec form of `KM`: what happens to the name of a value once it is computed.
pub enum Ctx<'a> {
    Halt,
    Bind(&'a Pattern, &'a Expr, Box<Ctx<'a>>),
    Ret(Name),
    Scrut(&'a Vec<(Pattern, Simp)>, Box<Ctx<'a>>),
    Callee(&'a Vec<Simp>, Name),
    Next(&'a Vec<Simp>, usize, Vec<Name>, Box<VCtx<'a>>),
}

/// The exec form of `VM`.
pub enum VCtx<'a> {
    Prim(Name, Box<Ctx<'a>>),
    Call(Name, Name),
    Alloc(i64, Name, Box<Ctx<'a>>),
}

pub open spec fn ctx_view<'a>(k: Ctx<'a>) -> KM
    decreases k,
{
    match k {
        Ctx::Halt => KM::Halt,
        Ctx::Bind(p, e, k2) => KM::Bind(*p, *e, Box::new(ctx_view(*k2))),
        Ctx::Ret(r) => KM::Ret(r@),
        Ctx::Scrut(arms, k2) => KM::Scrut(arms@, Box::new(ctx_view(*k2))),
        Ctx::Callee(args, rc) => KM::Callee(args@, rc@),
        Ctx::Next(ss, i, acc, vk) => KM::Next(ss@.subrange(i as int, ss@.len() as int), names_view(acc@), Box::new(vctx_view(*vk))),
    }
}

pub open spec fn vctx_view<'a>(vk: VCtx<'a>) -> VM
    decreases vk,
{
    match vk {
        VCtx::Prim(op, k) => VM::Prim(op@, Box::new(ctx_view(*k))),
        VCtx::Call(f, rc) => VM::Call(f@, rc@),
        VCtx::Alloc(tag, data, k) => VM::Alloc(tag, data@, Box::new(ctx_view(*k))),
    }
}

/// Lowers a typed program into CPS.
pub struct AstToCps {
    data_defs: Vec<DataDef>,
    sym_counts: Vec<(String, u64)>,
}

pub open spec fn counts_view(v: Seq<(String, u64)>) -> Seq<(Seq<char>, nat)> {
    v.map_values(|p: (String, u64)| (p.0@, p.1 as nat))
}

pub open spec fn lowered(r: Result<CpsExpr<LitHigh>, LowerError>, st: Seq<(Seq<char>, nat)>, m: Lowered) -> bool {
    match m {
        Ok((c, st2)) => r is Ok && r->Ok_0@ == c && st == st2,
        Err(e) => r is Err && r->Err_0 == e,
    }
}

pub open spec fn wf_k<'a>(k: Ctx<'a>) -> bool
    decreases k,
{
    match k {
        Ctx::Bind(_, _, k2) => wf_k(*k2),
        Ctx::Scrut(_, k2) => wf_k(*k2),
        Ctx::Next(ss, i, _, vk) => i <= ss@.len() && wf_v(*vk),
        _ => true,
    }
}

pub open spec fn wf_v<'a>(vk: VCtx<'a>) -> bool
    decreases vk,
{
    match vk {
        VCtx::Prim(_, k) => wf_k(*k),
        VCtx::Alloc(_, _, k) => wf_k(*k),
        VCtx::Call(_, _) => true,
    }
}

proof fn lemma_one_cnt(c: CntDef<LitHigh>)
    ensures
        crate::cps::cnts_view(seq![c]) == seq![crate::cps::cnt_view(c)],
{
    assert(seq![c].drop_last() =~= Seq::<CntDef<LitHigh>>::empty());
    assert(crate::cps::cnts_view(Seq::<CntDef<LitHigh>>::empty()) == Seq::<CntM<LitHigh>>::empty());
    assert(Seq::<CntM<LitHigh>>::empty().push(crate::cps::cnt_view(c)) =~= seq![crate::cps::cnt_view(c)]);
}

proof fn lemma_one_fun(f: FunDef<LitHigh>)
    ensures
        crate::cps::funs_view(seq![f]) == seq![crate::cps::fun_view(f)],
{
    assert(seq![f].drop_last() =~= Seq::<FunDef<LitHigh>>::empty());
    assert(crate::cps::funs_view(Seq::<FunDef<LitHigh>>::empty()) == Seq::<FunM<LitHigh>>::empty());
    assert(Seq::<FunM<LitHigh>>::empty().push(crate::cps::fun_view(f)) =~= seq![crate::cps::fun_view(f)]);
}

fn count_in(v: &Vec<(String, u64)>, p: &str) -> (c: u64)
    ensures
        c as nat == count_of(counts_view(v@), p@),
{
    let ghost st = counts_view(v@);
    let mut i: usize = v.len();
    proof {
        assert(st.subrange(0, i as int) =~= st);
    }
    while i > 0
        invariant
            i <= v.len(),
            st == counts_view(v@),
            count_of(st, p@) == count_of(st.subrange(0, i as int), p@),
        decreases i,
    {
        proof {
            assert(st.subrange(0, i as int).drop_last() =~= st.subrange(0, i as int - 1));
        }
        if str_eq(v[i - 1].0.as_str(), p) {
            return v[i - 1].1;
        }
        i -= 1;
    }
    0
}

fn mk_const(name: Name, v: i64, body: CpsExpr<LitHigh>) -> (r: CpsExpr<LitHigh>)
    ensures
        r@ == (Cps::Const { name: name@, value: LitHigh::Int(v), body: Box::new(body@) }),
{
    CpsExpr::Const { name, value: LitHigh::Int(v), body: Box::new(body) }
}

fn mk_prim(name: Name, op: Name, args: Vec<Name>, body: CpsExpr<LitHigh>) -> (r: CpsExpr<LitHigh>)
    ensures
        r@ == (Cps::Prim { name: name@, op: op@, args: names_view(args@), body: Box::new(body@) }),
{
    CpsExpr::Prim { name, op, args, body: Box::new(body) }
}

fn mk_cnt(name: Name, args: Vec<Name>, cbody: CpsExpr<LitHigh>, body: CpsExpr<LitHigh>) -> (r: CpsExpr<LitHigh>)
    ensures
        r@ == (Cps::Cnts {
            cnts: seq![CntM { name: name@, args: names_view(args@), body: cbody@ }],
            body: Box::new(body@),
        }),
{
    let cd = CntDef { name, args, body: cbody };
    let ghost g = cd;
    let mut v: Vec<CntDef<LitHigh>> = Vec::new();
    v.push(cd);
    proof {
        assert(v@ =~= seq![g]);
        lemma_one_cnt(g);
    }
    CpsExpr::Cnts { cnts: v, body: Box::new(body) }
}

fn mk_fun(name: Name, ret: Name, args: Vec<Name>, fbody: CpsExpr<LitHigh>, body: CpsExpr<LitHigh>) -> (r: CpsExpr<LitHigh>)
    ensures
        r@ == (Cps::Funs {
            funs: seq![FunM { name: name@, ret: ret@, args: names_view(args@), body: fbody@ }],
            body: Box::new(body@),
        }),
{
    let fd = FunDef { name, ret, args, body: fbody };
    let ghost g = fd;
    let mut v: Vec<FunDef<LitHigh>> = Vec::new();
    v.push(fd);
    proof {
        assert(v@ =~= seq![g]);
        lemma_one_fun(g);
    }
    CpsExpr::Funs { funs: v, body: Box::new(body) }
}

fn mk_if(op: Name, args: Vec<Name>, t: Name, f: Name) -> (r: CpsExpr<LitHigh>)
    ensures
        r@ == (Cps::<LitHigh>::If { op: op@, args: names_view(args@), t: t@, f: f@ }),
{
    CpsExpr::If { op, args, t, f }
}

fn one(n: Name) -> (r: Vec<Name>)
    ensures
        names_view(r@) == seq![n@],
{
    let r = vec![n];
    proof {
        assert(names_view(r@) =~= seq![n@]);
    }
    r
}

fn two(a: Name, b: Name) -> (r: Vec<Name>)
    ensures
        names_view(r@) == seq![a@, b@],
{
    let r = vec![a, b];
    proof {
        assert(names_view(r@) =~= seq![a@, b@]);
    }
    r
}

fn no_names() -> (r: Vec<Name>)
    ensures
        names_view(r@) == Seq::<Seq<char>>::empty(),
{
    let r: Vec<Name> = Vec::new();
    proof {
        assert(names_view(r@) =~= Seq::<Seq<char>>::empty());
    }
    r
}

impl AstToCps {
    /// Lowers a program into CPS; the program's value reaches `halt`.
    pub fn convert(program: Program) -> (r: Result<CpsExpr<LitHigh>, LowerError>)
        ensures
            match program.expr {
                None => r is Err && r->Err_0 == LowerError::NoExpr,
                Some(e) => match lower_expr_m(program.data_defs@, Seq::empty(), e, KM::Halt) {
                    Ok((c, _)) => r is Ok && r->Ok_0@ == c,
                    Err(err) => r is Err && r->Err_0 == err,
                },
            },
    {
        let Program { data_defs, expr } = program;
        let mut obj = AstToCps { data_defs, sym_counts: Vec::new() };
        proof {
            assert(obj.st() =~= Seq::<(Seq<char>, nat)>::empty());
        }
        match &expr {
            Some(e) => obj.lower_expr(e, Ctx::Halt),
            None => Err(LowerError::NoExpr),
        }
    }

    pub closed spec fn st(&self) -> Seq<(Seq<char>, nat)> {
        counts_view(self.sym_counts@)
    }

    pub closed spec fn defs(&self) -> Seq<DataDef> {
        self.data_defs@
    }

    /// A new name `p$N`: the `N`th made with prefix `p`.
    fn fresh(&mut self, p: &str) -> (r: Name)
        ensures
            (r@, final(self).st()) == fresh_m(old(self).st(), p@),
            final(self).defs() == old(self).defs(),
    {
        let ghost st = self.st();
        let c = count_in(&self.sym_counts, p);
        let c2 = if c == 0xffff_ffff_ffff_ffff { c } else { c + 1 };
        self.sym_counts.push((p.to_owned(), c2));
        proof {
            assert(self.st() =~= st.push((p@, c2 as nat)));
        }
        let num = decimal(c2);
        let name = p.to_owned().concat("$").concat(num.as_str());
        Name(name)
    }

    fn lower_simp<'a>(&mut self, s: &'a Simp, k: Ctx<'a>) -> (r: Result<CpsExpr<LitHigh>, LowerError>)
        requires
            wf_k(k),
        ensures
            final(self).defs() == old(self).defs(),
            lowered(r, final(self).st(), lower_simp_m(old(self).defs(), old(self).st(), *s, ctx_view(k))),
        decreases sz(*s) + w(ctx_view(k)), 0nat,
    {
        match s {
            Simp::Ref(n) => self.apply_k(k, n.clone()),
            Simp::Int(n) => {
                let c = self.fresh("c");
                match self.apply_k(k, c.clone()) {
                    Ok(body) => Ok(mk_const(c, *n, body)),
                    Err(e) => Err(e),
                }
            },
            Simp::Bool(b) => {
                let c = self.fresh("c");
                let v: i64 = if *b { 1 } else { 0 };
                match self.apply_k(k, c.clone()) {
                    Ok(body) => Ok(mk_const(c, v, body)),
                    Err(e) => Err(e),
                }
            },
            Simp::Unit => Err(LowerError::Unit),
            Simp::Block(e) => self.lower_expr(e, k),
            Simp::FnDef(f) => {
                let anon = self.fresh("fn");
                let retc = self.fresh("rc");
                let body = match self.lower_simp(&f.body, Ctx::Ret(retc.clone())) {
                    Ok(b) => b,
                    Err(e) => {
                        return Err(e);
                    },
                };
                let body = match &k {
                    Ctx::Bind(Pattern::Var(x, _), _, _) => mk_prim(x.clone(), Name::new("id"), one(anon.clone()), body),
                    _ => body,
                };
                let rest = match self.apply_k(k, anon.clone()) {
                    Ok(b) => b,
                    Err(e) => {
                        return Err(e);
                    },
                };
                let mut args: Vec<Name> = Vec::new();
                let mut i: usize = 0;
                while i < f.args.len()
                    invariant
                        i <= f.args.len(),
                        args.len() == i,
                        forall|j: int| 0 <= j < i ==> (#[trigger] args@[j])@ == f.args@[j].0@,
                    decreases f.args.len() - i,
                {
                    args.push(f.args[i].0.clone());
                    i += 1;
                }
                proof {
                    assert(names_view(args@) =~= arg_names(**f));
                }
                Ok(mk_fun(anon, retc, args, body, rest))
            },
            Simp::Match(x, arms) => {
                if arms.len() == 0 {
                    return Err(LowerError::EmptyMatch);
                }
                self.lower_simp(x, Ctx::Scrut(arms, Box::new(k)))
            },
            Simp::FnCall(l, args) => {
                if let Simp::Ref(op) = &**l {
                    if op.valid() {
                        proof {
                            assert(args@.subrange(0, args@.len() as int) =~= args@);
                        }
                        return self.simp_list(args, 0, no_names(), VCtx::Prim(op.clone(), Box::new(k)));
                    }
                }
                let rc = self.fresh("rc");
                let rv = self.fresh("rv");
                let kb = match self.apply_k(k, rv.clone()) {
                    Ok(b) => b,
                    Err(e) => {
                        return Err(e);
                    },
                };
                let body = match self.lower_simp(l, Ctx::Callee(args, rc.clone())) {
                    Ok(b) => b,
                    Err(e) => {
                        return Err(e);
                    },
                };
                Ok(mk_cnt(rc, one(rv), kb, body))
            },
            Simp::Data(c, args) => {
                match tag_in(&self.data_defs, c) {
                    None => Err(LowerError::UnknownCons),
                    Some(t) => {
                        let data = self.fresh("data");
                        proof {
                            assert(args@.subrange(0, args@.len() as int) =~= args@);
                        }
                        self.simp_list(args, 0, no_names(), VCtx::Alloc(tag_exec(t), data, Box::new(k)))
                    },
                }
            },
        }
    }

    fn apply_k<'a>(&mut self, k: Ctx<'a>, v: Name) -> (r: Result<CpsExpr<LitHigh>, LowerError>)
        requires
            wf_k(k),
        ensures
            final(self).defs() == old(self).defs(),
            lowered(r, final(self).st(), apply_k(old(self).defs(), old(self).st(), ctx_view(k), v@)),
        decreases w(ctx_view(k)), 2nat,
    {
        match k {
            Ctx::Halt => Ok(CpsExpr::Halt(v)),
            Ctx::Ret(r) => Ok(CpsExpr::AppC { cnt: r, args: one(v) }),
            Ctx::Bind(p, e, k2) => {
                let body = match self.lower_expr(e, *k2) {
                    Ok(b) => b,
                    Err(err) => {
                        return Err(err);
                    },
                };
                self.pat(p, v, body, Name::new("halt"))
            },
            Ctx::Scrut(arms, k2) => {
                let ma = self.fresh("match_after");
                let m = self.fresh("matched");
                let kb = match self.apply_k(*k2, m.clone()) {
                    Ok(b) => b,
                    Err(err) => {
                        return Err(err);
                    },
                };
                proof {
                    assert(arms@.subrange(0, arms@.len() as int) =~= arms@);
                }
                let body = match self.match_arms(v, arms, 0, ma.clone()) {
                    Ok(b) => b,
                    Err(err) => {
                        return Err(err);
                    },
                };
                Ok(mk_cnt(ma, one(m), kb, body))
            },
            Ctx::Callee(args, rc) => {
                proof {
                    assert(args@.subrange(0, args@.len() as int) =~= args@);
                }
                self.simp_list(args, 0, no_names(), VCtx::Call(v, rc))
            },
            Ctx::Next(ss, i, acc, vk) => {
                let mut acc = acc;
                let ghost prev = acc@;
                acc.push(v);
                proof {
                    assert(names_view(acc@) =~= names_view(prev).push(v@));
                }
                self.simp_list(ss, i, acc, *vk)
            },
        }
    }

    fn apply_v<'a>(&mut self, vk: VCtx<'a>, vs: Vec<Name>) -> (r: Result<CpsExpr<LitHigh>, LowerError>)
        requires
            wf_v(vk),
        ensures
            final(self).defs() == old(self).defs(),
            lowered(r, final(self).st(), apply_v(old(self).defs(), old(self).st(), vctx_view(vk), names_view(vs@))),
        decreases wv(vctx_view(vk)), 2nat,
    {
        match vk {
            VCtx::Prim(op, k) => {
                let p = self.fresh("prim");
                match self.apply_k(*k, p.clone()) {
                    Ok(body) => Ok(mk_prim(p, op, vs, body)),
                    Err(e) => Err(e),
                }
            },
            VCtx::Call(f, rc) => Ok(CpsExpr::AppF { fun: f, ret: rc, args: vs }),
            VCtx::Alloc(tag, data, k) => {
                let d = self.fresh("d");
                let body = match self.apply_k(*k, data.clone()) {
                    Ok(b) => b,
                    Err(e) => {
                        return Err(e);
                    },
                };
                let mut args = one(d.clone());
                let mut rest = vs;
                let ghost r0 = rest@;
                let ghost a0 = args@;
                args.append(&mut rest);
                proof {
                    assert(names_view(args@) =~= names_view(a0) + names_view(r0));
                }
                let alloc = mk_prim(data, Name::new("data"), args, body);
                Ok(mk_const(d, tag, alloc))
            },
        }
    }

    fn simp_list<'a>(&mut self, ss: &'a Vec<Simp>, i: usize, acc: Vec<Name>, vk: VCtx<'a>) -> (r: Result<CpsExpr<LitHigh>, LowerError>)
        requires
            i <= ss.len(),
            wf_v(vk),
        ensures
            final(self).defs() == old(self).defs(),
            lowered(r, final(self).st(), simp_list_m(old(self).defs(), old(self).st(), ss@.subrange(i as int, ss@.len() as int), names_view(acc@), vctx_view(vk))),
        decreases sz_list(ss@.subrange(i as int, ss@.len() as int)) + wv(vctx_view(vk)) + 2, 1nat,
    {
        let ghost rest = ss@.subrange(i as int, ss@.len() as int);
        if i >= ss.len() {
            proof {
                assert(rest.len() == 0);
            }
            self.apply_v(vk, acc)
        } else {
            proof {
                assert(rest[0] == ss@[i as int]);
                assert(rest.subrange(1, rest.len() as int) =~= ss@.subrange(i + 1, ss@.len() as int));
            }
            self.lower_simp(&ss[i], Ctx::Next(ss, i + 1, acc, Box::new(vk)))
        }
    }

    fn lower_expr<'a>(&mut self, e: &'a Expr, k: Ctx<'a>) -> (r: Result<CpsExpr<LitHigh>, LowerError>)
        requires
            wf_k(k),
        ensures
            final(self).defs() == old(self).defs(),
            lowered(r, final(self).st(), lower_expr_m(old(self).defs(), old(self).st(), *e, ctx_view(k))),
        decreases sze(*e) + w(ctx_view(k)), 0nat,
    {
        match e {
            Expr::Simp(s) => self.lower_simp(s, k),
            Expr::Bind(p, rhs, body) => self.lower_simp(rhs, Ctx::Bind(p, body, Box::new(k))),
        }
    }

    fn match_arms<'a>(&mut self, val: Name, arms: &'a Vec<(Pattern, Simp)>, i: usize, ret: Name) -> (r: Result<CpsExpr<LitHigh>, LowerError>)
        requires
            i <= arms.len(),
        ensures
            final(self).defs() == old(self).defs(),
            lowered(r, final(self).st(), match_arms_m(old(self).defs(), old(self).st(), val@, arms@.subrange(i as int, arms@.len() as int), ret@)),
        decreases sz_arms(arms@.subrange(i as int, arms@.len() as int)), 0nat,
    {
        let ghost rest = arms@.subrange(i as int, arms@.len() as int);
        if i >= arms.len() {
            return Err(LowerError::EmptyMatch);
        }
        proof {
            assert(rest[0] == arms@[i as int]);
            assert(rest.subrange(1, rest.len() as int) =~= arms@.subrange(i + 1, arms@.len() as int));
        }
        if arms.len() - i == 1 {
            let body = match self.lower_simp(&arms[i].1, Ctx::Ret(ret)) {
                Ok(b) => b,
                Err(e) => {
                    return Err(e);
                },
            };
            return self.pat(&arms[i].0, val, body, Name::new("halt"));
        }
        let nm = self.fresh("m_alt");
        let alt = match self.match_arms(val.clone(), arms, i + 1, ret.clone()) {
            Ok(b) => b,
            Err(e) => {
                return Err(e);
            },
        };
        let body = match self.lower_simp(&arms[i].1, Ctx::Ret(ret)) {
            Ok(b) => b,
            Err(e) => {
                return Err(e);
            },
        };
        let pm = match self.pat(&arms[i].0, val, body, nm.clone()) {
            Ok(b) => b,
            Err(e) => {
                return Err(e);
            },
        };
        Ok(mk_cnt(nm, no_names(), alt, pm))
    }

    fn int_pat(&mut self, n: i64, val: Name, body: CpsExpr<LitHigh>, nm: Name) -> (r: CpsExpr<LitHigh>)
        ensures
            final(self).defs() == old(self).defs(),
            (r@, final(self).st()) == int_pat(old(self).st(), n, val@, body@, nm@),
    {
        let good = self.fresh("pm_good");
        let d = self.fresh("p");
        let test = mk_if(Name::new("=="), two(d.clone(), val), good.clone(), nm);
        let cnts = mk_cnt(good, no_names(), body, test);
        mk_const(d, n, cnts)
    }

    fn pat(&mut self, p: &Pattern, val: Name, body: CpsExpr<LitHigh>, nm: Name) -> (r: Result<CpsExpr<LitHigh>, LowerError>)
        ensures
            final(self).defs() == old(self).defs(),
            lowered(r, final(self).st(), pat_m(old(self).st(), *p, val@, body@, nm@)),
        decreases p, 0nat,
    {
        match p {
            Pattern::Var(n, _) => Ok(mk_prim(n.clone(), Name::new("id"), one(val), body)),
            Pattern::Int(n) => Ok(self.int_pat(*n, val, body, nm)),
            Pattern::Bool(b) => {
                let v: i64 = if *b { 1 } else { 0 };
                Ok(self.int_pat(v, val, body, nm))
            },
            Pattern::Data(dd, c, ps) => {
                match position_of(&dd.cons, c) {
                    None => Err(LowerError::UnknownCons),
                    Some(t) => {
                        let good = self.fresh("pm_good");
                        let gbody = if ps.len() == 0 {
                            body
                        } else {
                            proof {
                                assert(decreases_to!(*p => p->Data_2));
                                assert(decreases_to!(p->Data_2 => ps@));
                            }
                            match self.fields(val.clone(), ps, body, nm.clone(), no_names()) {
                                Ok(b) => b,
                                Err(e) => {
                                    return Err(e);
                                },
                            }
                        };
                        let d = self.fresh("d");
                        let vd = self.fresh("desc");
                        let test = mk_if(Name::new("=="), two(d.clone(), vd.clone()), good.clone(), nm);
                        let cnts = mk_cnt(good, no_names(), gbody, test);
                        let read = mk_prim(vd, Name::new("desc"), one(val), cnts);
                        Ok(mk_const(d, tag_exec(t), read))
                    },
                }
            },
        }
    }

    fn fields(&mut self, data: Name, ps: &Vec<Pattern>, body: CpsExpr<LitHigh>, nm: Name, acc: Vec<Name>) -> (r: Result<CpsExpr<LitHigh>, LowerError>)
        ensures
            final(self).defs() == old(self).defs(),
            lowered(r, final(self).st(), fields_m(old(self).st(), data@, ps@, body@, nm@, names_view(acc@))),
        decreases ps@, if acc@.len() <= ps@.len() { (ps@.len() + 1 - acc@.len()) as nat } else { 1nat },
    {
        if acc.len() >= ps.len() {
            proof {
                assert(ps@.subrange(0, ps@.len() as int) =~= ps@);
                assert(names_view(acc@).subrange(0, names_view(acc@).len() as int) =~= names_view(acc@));
            }
            return self.pat_list(ps, 0, &acc, body, nm);
        }
        let k = acc.len();
        let f = self.fresh("f");
        let i = self.fresh("i");
        let mut acc = acc;
        let ghost prev = acc@;
        acc.push(f.clone());
        proof {
            assert(names_view(acc@) =~= names_view(prev).push(f@));
        }
        let rest = match self.fields(data.clone(), ps, body, nm, acc) {
            Ok(b) => b,
            Err(e) => {
                return Err(e);
            },
        };
        let read = mk_prim(f, Name::new("field"), two(data, i.clone()), rest);
        Ok(mk_const(i, tag_exec(k), read))
    }

    fn pat_list(&mut self, ps: &Vec<Pattern>, i: usize, vals: &Vec<Name>, body: CpsExpr<LitHigh>, nm: Name) -> (r: Result<CpsExpr<LitHigh>, LowerError>)
        requires
            i <= ps.len(),
            ps.len() <= vals.len(),
        ensures
            final(self).defs() == old(self).defs(),
            lowered(r, final(self).st(), pat_list_m(
                old(self).st(),
                ps@.subrange(i as int, ps@.len() as int),
                names_view(vals@).subrange(i as int, vals@.len() as int),
                body@,
                nm@,
            )),
        decreases ps@.subrange(i as int, ps@.len() as int), 0nat,
    {
        let ghost pr = ps@.subrange(i as int, ps@.len() as int);
        let ghost vr = names_view(vals@).subrange(i as int, vals@.len() as int);
        if i >= ps.len() {
            proof {
                assert(pr.len() == 0);
            }
            return Ok(body);
        }
        proof {
            assert(pr[0] == ps@[i as int]);
            assert(vr[0] == vals@[i as int]@);
            assert(pr.subrange(1, pr.len() as int) =~= ps@.subrange(i + 1, ps@.len() as int));
            assert(vr.subrange(1, vr.len() as int) =~= names_view(vals@).subrange(i + 1, vals@.len() as int));
            assert(decreases_to!(pr => pr[0]));
        }
        if ps.len() - i == 1 {
            return self.pat(&ps[i], vals[i].clone(), body, nm);
        }
        let rest = match self.pat_list(ps, i + 1, vals, body, nm.clone()) {
            Ok(b) => b,
            Err(e) => {
                return Err(e);
            },
        };
        self.pat(&ps[i], vals[i].clone(), rest, nm)
    }
}

} // verus!
