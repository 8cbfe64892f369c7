use crate::ast::{lemma_op_spellings, Name};
use crate::cps::{
    cnt_view, cnts_size, cnts_view, fun_view, funs_size, funs_view, lemma_cnts_size_elem,
    lemma_cnts_view_index, lemma_cnts_view_push, lemma_funs_size_elem, lemma_funs_view_index,
    lemma_funs_view_push, lemma_rename_size, names_view, rename, size, subst_expr, CntDef, CntM, Cps,
    CpsExpr, FunDef, FunM, LitHigh, Subst,
};
use vstd::prelude::*;

verus! {

/// The view of the known-literal table: each name with the literal bound to it.
pub open spec fn consts_view(v: Seq<(Name, LitHigh)>) -> Seq<(Seq<char>, LitHigh)> {
    v.map_values(|p: (Name, LitHigh)| (p.0@, p.1))
}

/// The literal most recently bound to `n`.
pub open spec fn lit_named(st: Seq<(Seq<char>, LitHigh)>, n: Seq<char>) -> Option<LitHigh>
    decreases st.len(),
{
    if st.len() == 0 {
        None
    } else if st.last().0 == n {
        Some(st.last().1)
    } else {
        lit_named(st.drop_last(), n)
    }
}

/// The name most recently bound to literal `v`.
pub open spec fn name_for(st: Seq<(Seq<char>, LitHigh)>, v: LitHigh) -> Option<Seq<char>>
    decreases st.len(),
{
    if st.len() == 0 {
        None
    } else if st.last().1 == v {
        Some(st.last().0)
    } else {
        name_for(st.drop_last(), v)
    }
}

/// The literals of all arguments, when every one of them is known.
pub open spec fn lit_args(st: Seq<(Seq<char>, LitHigh)>, args: Seq<Seq<char>>) -> Option<Seq<LitHigh>> {
    if forall|i: int| 0 <= i < args.len() ==> (#[trigger] lit_named(st, args[i])) is Some {
        Some(args.map_values(|a: Seq<char>| lit_named(st, a)->Some_0))
    } else {
        None
    }
}

pub open spec fn int_lit(v: Option<i64>) -> Option<LitHigh> {
    match v {
        Some(x) => Some(LitHigh::Int(x)),
        None => None,
    }
}

pub open spec fn bool_lit(b: bool) -> Option<LitHigh> {
    Some(LitHigh::Int(if b { 1 } else { 0 }))
}

/// Folding a primitive over literals. Arithmetic is on `i64` and yields nothing where it would
/// overflow or divide by zero; comparisons give 1 or 0; `&&` and `||` are bitwise; `!` gives 1
/// for operands that are not positive; the identity `id` gives its operand. Other operators,
/// and wrong arities, do not fold.
pub open spec fn fold_op(op: Seq<char>, a: Seq<LitHigh>) -> Option<LitHigh> {
    if a.len() == 2 {
        let x = a[0]->Int_0;
        let y = a[1]->Int_0;
        if op == "+"@ {
            int_lit(x.checked_add(y))
        } else if op == "-"@ {
            int_lit(x.checked_sub(y))
        } else if op == "*"@ {
            int_lit(x.checked_mul(y))
        } else if op == "/"@ {
            int_lit(x.checked_div(y))
        } else if op == "=="@ {
            bool_lit(x == y)
        } else if op == "!="@ {
            bool_lit(x != y)
        } else if op == "<"@ {
            bool_lit(x < y)
        } else if op == ">"@ {
            bool_lit(x > y)
        } else if op == "<="@ {
            bool_lit(x <= y)
        } else if op == ">="@ {
            bool_lit(x >= y)
        } else if op == "&&"@ {
            Some(LitHigh::Int(x & y))
        } else if op == "||"@ {
            Some(LitHigh::Int(x | y))
        } else {
            None
        }
    } else if a.len() == 1 {
        let x = a[0]->Int_0;
        if op == "id"@ {
            Some(LitHigh::Int(x))
        } else if op == "~"@ {
            Some(LitHigh::Int(!x))
        } else if op == "!"@ {
            bool_lit(!(x > 0))
        } else {
            None
        }
    } else {
        None
    }
}

/// Whether a primitive folds to a literal in the given table.
pub open spec fn folds(st: Seq<(Seq<char>, LitHigh)>, op: Seq<char>, args: Seq<Seq<char>>) -> bool {
    lit_args(st, args) is Some && fold_op(op, lit_args(st, args)->Some_0) is Some
}

pub open spec fn folded(st: Seq<(Seq<char>, LitHigh)>, op: Seq<char>, args: Seq<Seq<char>>) -> LitHigh {
    fold_op(op, lit_args(st, args)->Some_0)->Some_0
}

pub open spec fn rank(e: Cps<LitHigh>) -> nat {
    if e is Prim {
        1
    } else {
        0
    }
}

/// One shrinking pass under a table of known literals: constants with a known value are merged
/// into the earlier name, primitives over known literals become constants, and branches on
/// known literals jump straight to their target. Definitions are shrunk under the table of the
/// point where they stand.
pub open spec fn shrink_m(st: Seq<(Seq<char>, LitHigh)>, e: Cps<LitHigh>) -> Cps<LitHigh>
    decreases size(e), rank(e),
{
    match e {
        Cps::Const { name, value, body } => match name_for(st, value) {
            Some(prev) => if prev == name {
                shrink_m(st, *body)
            } else {
                proof {
                    lemma_rename_size(seq![(name, prev)], *body);
                }
                shrink_m(st, rename(seq![(name, prev)], *body))
            },
            None => Cps::Const { name, value, body: Box::new(shrink_m(st.push((name, value)), *body)) },
        },
        Cps::Prim { name, op, args, body } => if op != "data"@ && folds(st, op, args) {
            shrink_m(st, Cps::Const { name, value: folded(st, op, args), body })
        } else {
            Cps::Prim { name, op, args, body: Box::new(shrink_m(st, *body)) }
        },
        Cps::Cnts { cnts, body } => Cps::Cnts {
            cnts: shrink_cnts(st, cnts),
            body: Box::new(shrink_m(st, *body)),
        },
        Cps::Funs { funs, body } => Cps::Funs {
            funs: shrink_funs(st, funs),
            body: Box::new(shrink_m(st, *body)),
        },
        Cps::If { op, args, t, f } => if folds(st, op, args) {
            if folded(st, op, args)->Int_0 > 0 {
                Cps::AppC { cnt: t, args: Seq::empty() }
            } else {
                Cps::AppC { cnt: f, args: Seq::empty() }
            }
        } else {
            e
        },
        _ => e,
    }
}

pub open spec fn shrink_cnts(st: Seq<(Seq<char>, LitHigh)>, s: Seq<CntM<LitHigh>>) -> Seq<CntM<LitHigh>>
    decreases cnts_size(s), 1 + s.len(),
{
    if s.len() == 0 {
        Seq::empty()
    } else {
        shrink_cnts(st, s.drop_last()).push(
            CntM { name: s.last().name, args: s.last().args, body: shrink_m(st, s.last().body) },
        )
    }
}

pub open spec fn shrink_funs(st: Seq<(Seq<char>, LitHigh)>, s: Seq<FunM<LitHigh>>) -> Seq<FunM<LitHigh>>
    decreases funs_size(s), 1 + s.len(),
{
    if s.len() == 0 {
        Seq::empty()
    } else {
        shrink_funs(st, s.drop_last()).push(
            FunM {
                name: s.last().name,
                ret: s.last().ret,
                args: s.last().args,
                body: shrink_m(st, s.last().body),
            },
        )
    }
}

/// Shrinking never makes a program larger.
pub proof fn lemma_shrink_size(st: Seq<(Seq<char>, LitHigh)>, e: Cps<LitHigh>)
    ensures
        size(shrink_m(st, e)) <= size(e),
    decreases size(e), rank(e),
{
    match e {
        Cps::Const { name, value, body } => match name_for(st, value) {
            Some(prev) => if prev == name {
                lemma_shrink_size(st, *body);
            } else {
                lemma_rename_size(seq![(name, prev)], *body);
                lemma_shrink_size(st, rename(seq![(name, prev)], *body));
            },
            None => lemma_shrink_size(st.push((name, value)), *body),
        },
        Cps::Prim { name, op, args, body } => if op != "data"@ && folds(st, op, args) {
            lemma_shrink_size(st, Cps::Const { name, value: folded(st, op, args), body });
        } else {
            lemma_shrink_size(st, *body);
        },
        Cps::Cnts { cnts, body } => {
            lemma_shrink_cnts_size(st, cnts);
            lemma_shrink_size(st, *body);
        },
        Cps::Funs { funs, body } => {
            lemma_shrink_funs_size(st, funs);
            lemma_shrink_size(st, *body);
        },
        _ => {},
    }
}

pub proof fn lemma_shrink_cnts_size(st: Seq<(Seq<char>, LitHigh)>, s: Seq<CntM<LitHigh>>)
    ensures
        cnts_size(shrink_cnts(st, s)) <= cnts_size(s),
    decreases cnts_size(s), 1 + s.len(),
{
    if s.len() > 0 {
        lemma_shrink_cnts_size(st, s.drop_last());
        lemma_shrink_size(st, s.last().body);
        assert(shrink_cnts(st, s).drop_last() =~= shrink_cnts(st, s.drop_last()));
    }
}

pub proof fn lemma_shrink_funs_size(st: Seq<(Seq<char>, LitHigh)>, s: Seq<FunM<LitHigh>>)
    ensures
        funs_size(shrink_funs(st, s)) <= funs_size(s),
    decreases funs_size(s), 1 + s.len(),
{
    if s.len() > 0 {
        lemma_shrink_funs_size(st, s.drop_last());
        lemma_shrink_size(st, s.last().body);
        assert(shrink_funs(st, s).drop_last() =~= shrink_funs(st, s.drop_last()));
    }
}

/// One pass from an empty table.
pub open spec fn pass(e: Cps<LitHigh>) -> Cps<LitHigh> {
    shrink_m(Seq::empty(), e)
}

/// Passes repeated while each makes the program strictly smaller; the result is that of the
/// first pass that does not.
pub open spec fn drive(e: Cps<LitHigh>) -> Cps<LitHigh>
    decreases size(e),
{
    if size(pass(e)) < size(e) {
        drive(pass(e))
    } else {
        pass(e)
    }
}

/// The shrinking pass, with its table of known literals.
pub struct Shrinking {
    consts: Vec<(Name, LitHigh)>,
}

impl Shrinking {
    pub closed spec fn table(&self) -> Seq<(Seq<char>, LitHigh)> {
        consts_view(self.consts@)
    }

    pub fn new() -> (r: Shrinking)
        ensures
            r.table() == Seq::<(Seq<char>, LitHigh)>::empty(),
    {
        let r = Shrinking { consts: Vec::new() };
        proof {
            assert(r.table() =~= Seq::<(Seq<char>, LitHigh)>::empty());
        }
        r
    }
}

/// A rewriting pass over CPS programs.
pub trait TreePass {
    fn apply(self, tree: CpsExpr<LitHigh>) -> CpsExpr<LitHigh>;
}

impl TreePass for Shrinking {
    fn apply(self, tree: CpsExpr<LitHigh>) -> (r: CpsExpr<LitHigh>)
        ensures
            r@ == shrink_m(self.table(), tree@),
    {
        let mut consts = self.consts;
        shrink_rec(&mut consts, tree)
    }
}

/// Runs shrinking passes until one no longer makes the program smaller.
pub fn shrink(tree: CpsExpr<LitHigh>) -> (r: CpsExpr<LitHigh>)
    requires
        size(tree@) <= usize::MAX,
    ensures
        r@ == drive(tree@),
        size(r@) <= size(tree@),
{
    let mut cps = tree;
    let mut len = cps.len();
    loop
        invariant
            len == size(cps@),
            len <= size(tree@),
            drive(tree@) == drive(cps@),
        decreases len,
    {
        let next = Shrinking::new().apply(cps);
        proof {
            lemma_shrink_size(Seq::empty(), cps@);
        }
        let next_len = next.len();
        if next_len < len {
            cps = next;
            len = next_len;
        } else {
            return next;
        }
    }
}

pub proof fn lemma_shrink_cnts_push(st: Seq<(Seq<char>, LitHigh)>, s: Seq<CntM<LitHigh>>, c: CntM<LitHigh>)
    ensures
        shrink_cnts(st, s.push(c)) == shrink_cnts(st, s).push(
            CntM { name: c.name, args: c.args, body: shrink_m(st, c.body) },
        ),
{
    assert(s.push(c).drop_last() =~= s);
}

pub proof fn lemma_shrink_funs_push(st: Seq<(Seq<char>, LitHigh)>, s: Seq<FunM<LitHigh>>, f: FunM<LitHigh>)
    ensures
        shrink_funs(st, s.push(f)) == shrink_funs(st, s).push(
            FunM { name: f.name, ret: f.ret, args: f.args, body: shrink_m(st, f.body) },
        ),
{
    assert(s.push(f).drop_last() =~= s);
}

fn lookup_lit(consts: &Vec<(Name, LitHigh)>, n: &Name) -> (r: Option<LitHigh>)
    ensures
        r == lit_named(consts_view(consts@), n@),
{
    let ghost st = consts_view(consts@);
    let mut i: usize = consts.len();
    proof {
        assert(st.subrange(0, i as int) =~= st);
    }
    while i > 0
        invariant
            i <= consts.len(),
            st == consts_view(consts@),
            lit_named(st, n@) == lit_named(st.subrange(0, i as int), n@),
        decreases i,
    {
        proof {
            assert(st.subrange(0, i as int).drop_last() =~= st.subrange(0, i as int - 1));
        }
        if consts[i - 1].0 == *n {
            return Some(consts[i - 1].1);
        }
        i -= 1;
    }
    None
}

fn lookup_name(consts: &Vec<(Name, LitHigh)>, v: LitHigh) -> (r: Option<Name>)
    ensures
        match name_for(consts_view(consts@), v) {
            Some(t) => r is Some && r->0@ == t,
            None => r is None,
        },
{
    let ghost st = consts_view(consts@);
    let mut i: usize = consts.len();
    proof {
        assert(st.subrange(0, i as int) =~= st);
    }
    while i > 0
        invariant
            i <= consts.len(),
            st == consts_view(consts@),
            name_for(st, v) == name_for(st.subrange(0, i as int), v),
        decreases i,
    {
        proof {
            assert(st.subrange(0, i as int).drop_last() =~= st.subrange(0, i as int - 1));
        }
        if consts[i - 1].1 == v {
            return Some(consts[i - 1].0.clone());
        }
        i -= 1;
    }
    None
}

fn known_args(consts: &Vec<(Name, LitHigh)>, args: &Vec<Name>) -> (r: Option<Vec<LitHigh>>)
    ensures
        match lit_args(consts_view(consts@), names_view(args@)) {
            Some(vs) => r is Some && r->0@ == vs,
            None => r is None,
        },
{
    let ghost st = consts_view(consts@);
    let ghost names = names_view(args@);
    let mut vals: Vec<LitHigh> = Vec::new();
    let mut i: usize = 0;
    while i < args.len()
        invariant
            i <= args.len(),
            st == consts_view(consts@),
            names == names_view(args@),
            vals.len() == i,
            forall|j: int| 0 <= j < i ==> lit_named(st, #[trigger] names[j]) == Some(vals@[j]),
        decreases args.len() - i,
    {
        match lookup_lit(consts, &args[i]) {
            Some(v) => vals.push(v),
            None => {
                proof {
                    assert(lit_named(st, names[i as int]) is None);
                }
                return None;
            },
        }
        i += 1;
    }
    proof {
        assert(vals@ =~= names.map_values(|a: Seq<char>| lit_named(st, a)->Some_0));
    }
    Some(vals)
}

/// Folds primitive `op` over literal operands, where it folds.
pub fn eval_op(op: &Name, args: &Vec<LitHigh>) -> (r: Option<LitHigh>)
    ensures
        r == fold_op(op@, args@),
{
    proof {
        lemma_op_spellings();
    }
    if args.len() == 2 {
        let LitHigh::Int(x) = args[0];
        let LitHigh::Int(y) = args[1];
        if op.is("+") {
            match x.checked_add(y) {
                Some(v) => Some(LitHigh::Int(v)),
                None => None,
            }
        } else if op.is("-") {
            match x.checked_sub(y) {
                Some(v) => Some(LitHigh::Int(v)),
                None => None,
            }
        } else if op.is("*") {
            match x.checked_mul(y) {
                Some(v) => Some(LitHigh::Int(v)),
                None => None,
            }
        } else if op.is("/") {
            match x.checked_div(y) {
                Some(v) => Some(LitHigh::Int(v)),
                None => None,
            }
        } else if op.is("==") {
            Some(LitHigh::Int(if x == y { 1 } else { 0 }))
        } else if op.is("!=") {
            Some(LitHigh::Int(if x != y { 1 } else { 0 }))
        } else if op.is("<") {
            Some(LitHigh::Int(if x < y { 1 } else { 0 }))
        } else if op.is(">") {
            Some(LitHigh::Int(if x > y { 1 } else { 0 }))
        } else if op.is("<=") {
            Some(LitHigh::Int(if x <= y { 1 } else { 0 }))
        } else if op.is(">=") {
            Some(LitHigh::Int(if x >= y { 1 } else { 0 }))
        } else if op.is("&&") {
            Some(LitHigh::Int(x & y))
        } else if op.is("||") {
            Some(LitHigh::Int(x | y))
        } else {
            None
        }
    } else if args.len() == 1 {
        let LitHigh::Int(x) = args[0];
        if op.is("id") {
            Some(LitHigh::Int(x))
        } else if op.is("~") {
            Some(LitHigh::Int(!x))
        } else if op.is("!") {
            Some(LitHigh::Int(if x > 0 { 0 } else { 1 }))
        } else {
            None
        }
    } else {
        None
    }
}

fn shrink_rec(consts: &mut Vec<(Name, LitHigh)>, e: CpsExpr<LitHigh>) -> (r: CpsExpr<LitHigh>)
    ensures
        final(consts)@ == old(consts)@,
        r@ == shrink_m(consts_view(old(consts)@), e@),
    decreases size(e@), rank(e@),
{
    let ghost st = consts_view(consts@);
    let ghost ge = e@;
    match e {
        CpsExpr::Const { name, value, body } => {
            match lookup_name(consts, value) {
                Some(prev) => {
                    if prev == name {
                        shrink_rec(consts, *body)
                    } else {
                        let s = Subst::one(name, prev);
                        let nb = subst_expr(*body, &s);
                        proof {
                            lemma_rename_size(s@, body@);
                        }
                        shrink_rec(consts, nb)
                    }
                },
                None => {
                    consts.push((name.clone(), value));
                    proof {
                        assert(consts_view(consts@) =~= st.push((name@, value)));
                    }
                    let nb = shrink_rec(consts, *body);
                    consts.pop();
                    proof {
                        assert(consts@ =~= old(consts)@);
                    }
                    CpsExpr::Const { name, value, body: Box::new(nb) }
                },
            }
        },
        CpsExpr::Prim { name, op, args, body } => {
            if !op.is("data") {
                match known_args(consts, &args) {
                    Some(vals) => {
                        match eval_op(&op, &vals) {
                            Some(v) => {
                                let c = CpsExpr::Const { name, value: v, body };
                                return shrink_rec(consts, c);
                            },
                            None => {},
                        }
                    },
                    None => {},
                }
            }
            let nb = shrink_rec(consts, *body);
            CpsExpr::Prim { name, op, args, body: Box::new(nb) }
        },
        CpsExpr::Cnts { cnts, body } => {
            let ghost orig = cnts@;
            proof {
                lemma_cnts_view_index(orig);
            }
            let mut src = cnts;
            let total = src.len();
            let mut out: Vec<CntDef<LitHigh>> = Vec::new();
            let mut k: usize = 0;
            while src.len() > 0
                invariant
                    k <= orig.len(),
                    orig.len() == total,
                    src@ == orig.subrange(k as int, orig.len() as int),
                    cnts_view(out@) == shrink_cnts(st, cnts_view(orig.subrange(0, k as int))),
                    consts_view(consts@) == st,
                    consts@ == old(consts)@,
                    ge == e@,
                    cnts_size(cnts_view(orig)) < size(ge),
                    cnts_view(orig).len() == orig.len(),
                    forall|j: int| 0 <= j < orig.len() ==> #[trigger] cnts_view(orig)[j] == cnt_view(orig[j]),
                decreases src.len(),
            {
                proof {
                    assert(src@.len() == orig.len() - k);
                }
                let c = src.remove(0);
                proof {
                    assert(c == orig[k as int]);
                    lemma_cnts_size_elem(cnts_view(orig), k as int);
                }
                let CntDef { name: cname, args: cargs, body: cbody } = c;
                let nb = shrink_rec(consts, cbody);
                let c2 = CntDef { name: cname, args: cargs, body: nb };
                proof {
                    lemma_cnts_view_push(out@, c2);
                    assert(orig.subrange(0, k as int + 1) =~= orig.subrange(0, k as int).push(orig[k as int]));
                    lemma_cnts_view_push(orig.subrange(0, k as int), orig[k as int]);
                    lemma_shrink_cnts_push(st, cnts_view(orig.subrange(0, k as int)), cnt_view(orig[k as int]));
                }
                out.push(c2);
                k += 1;
                proof {
                    assert(src@ =~= orig.subrange(k as int, orig.len() as int));
                }
            }
            proof {
                assert(orig.subrange(0, k as int) =~= orig);
            }
            let nb = shrink_rec(consts, *body);
            CpsExpr::Cnts { cnts: out, body: Box::new(nb) }
        },
        CpsExpr::Funs { funs, body } => {
            let ghost orig = funs@;
            proof {
                lemma_funs_view_index(orig);
            }
            let mut src = funs;
            let total = src.len();
            let mut out: Vec<FunDef<LitHigh>> = Vec::new();
            let mut k: usize = 0;
            while src.len() > 0
                invariant
                    k <= orig.len(),
                    orig.len() == total,
                    src@ == orig.subrange(k as int, orig.len() as int),
                    funs_view(out@) == shrink_funs(st, funs_view(orig.subrange(0, k as int))),
                    consts_view(consts@) == st,
                    consts@ == old(consts)@,
                    ge == e@,
                    funs_size(funs_view(orig)) < size(ge),
                    funs_view(orig).len() == orig.len(),
                    forall|j: int| 0 <= j < orig.len() ==> #[trigger] funs_view(orig)[j] == fun_view(orig[j]),
                decreases src.len(),
            {
                proof {
                    assert(src@.len() == orig.len() - k);
                }
                let f = src.remove(0);
                proof {
                    assert(f == orig[k as int]);
                    lemma_funs_size_elem(funs_view(orig), k as int);
                }
                let FunDef { name: fname, ret: fret, args: fargs, body: fbody } = f;
                let nb = shrink_rec(consts, fbody);
                let f2 = FunDef { name: fname, ret: fret, args: fargs, body: nb };
                proof {
                    lemma_funs_view_push(out@, f2);
                    assert(orig.subrange(0, k as int + 1) =~= orig.subrange(0, k as int).push(orig[k as int]));
                    lemma_funs_view_push(orig.subrange(0, k as int), orig[k as int]);
                    lemma_shrink_funs_push(st, funs_view(orig.subrange(0, k as int)), fun_view(orig[k as int]));
                }
                out.push(f2);
                k += 1;
                proof {
                    assert(src@ =~= orig.subrange(k as int, orig.len() as int));
                }
            }
            proof {
                assert(orig.subrange(0, k as int) =~= orig);
            }
            let nb = shrink_rec(consts, *body);
            CpsExpr::Funs { funs: out, body: Box::new(nb) }
        },
        CpsExpr::If { op, args, t, f } => {
            match known_args(consts, &args) {
                Some(vals) => {
                    match eval_op(&op, &vals) {
                        Some(LitHigh::Int(v)) => {
                            let none: Vec<Name> = Vec::new();
                            proof {
                                assert(names_view(none@) =~= Seq::<Seq<char>>::empty());
                            }
                            let r = if v > 0 {
                                CpsExpr::AppC { cnt: t, args: none }
                            } else {
                                CpsExpr::AppC { cnt: f, args: none }
                            };
                            return r;
                        },
                        None => {},
                    }
                },
                None => {},
            }
            CpsExpr::If { op, args, t, f }
        },
        other => other,
    }
}

} // verus!
