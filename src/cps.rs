use crate::ast::Name;
use vstd::prelude::*;

verus! {

/// The literals of the high-level CPS language.
#[derive(Clone, Copy, PartialEq, Eq, Structural)]
pub enum LitHigh {
    Int(i64),
}

/// A continuation-passing-style program over literals of type `Lit`.
pub enum CpsExpr<Lit> {
    Const { name: Name, value: Lit, body: Box<CpsExpr<Lit>> },
    Prim { name: Name, op: Name, args: Vec<Name>, body: Box<CpsExpr<Lit>> },
    Cnts { cnts: Vec<CntDef<Lit>>, body: Box<CpsExpr<Lit>> },
    Funs { funs: Vec<FunDef<Lit>>, body: Box<CpsExpr<Lit>> },
    AppC { cnt: Name, args: Vec<Name> },
    AppF { fun: Name, ret: Name, args: Vec<Name> },
    If { op: Name, args: Vec<Name>, t: Name, f: Name },
    Halt(Name),
}

/// A continuation: a named block with parameters, only ever invoked in tail position.
pub struct CntDef<Lit> {
    pub name: Name,
    pub args: Vec<Name>,
    pub body: CpsExpr<Lit>,
}

/// A function; `ret` names the return continuation that the caller passes.
pub struct FunDef<Lit> {
    pub name: Name,
    pub ret: Name,
    pub args: Vec<Name>,
    pub body: CpsExpr<Lit>,
}

/// The mathematical value of a CPS program: names as character sequences.
pub enum Cps<Lit> {
    Const { name: Seq<char>, value: Lit, body: Box<Cps<Lit>> },
    Prim { name: Seq<char>, op: Seq<char>, args: Seq<Seq<char>>, body: Box<Cps<Lit>> },
    Cnts { cnts: Seq<CntM<Lit>>, body: Box<Cps<Lit>> },
    Funs { funs: Seq<FunM<Lit>>, body: Box<Cps<Lit>> },
    AppC { cnt: Seq<char>, args: Seq<Seq<char>> },
    AppF { fun: Seq<char>, ret: Seq<char>, args: Seq<Seq<char>> },
    If { op: Seq<char>, args: Seq<Seq<char>>, t: Seq<char>, f: Seq<char> },
    Halt(Seq<char>),
}

pub struct CntM<Lit> {
    pub name: Seq<char>,
    pub args: Seq<Seq<char>>,
    pub body: Cps<Lit>,
}

pub struct FunM<Lit> {
    pub name: Seq<char>,
    pub ret: Seq<char>,
    pub args: Seq<Seq<char>>,
    pub body: Cps<Lit>,
}

pub open spec fn names_view(v: Seq<Name>) -> Seq<Seq<char>> {
    v.map_values(|n: Name| n@)
}

pub open spec fn cps_view<Lit>(e: CpsExpr<Lit>) -> Cps<Lit>
    decreases e,
{
    match e {
        CpsExpr::Const { name, value, body } => Cps::Const {
            name: name@,
            value,
            body: Box::new(cps_view(*body)),
        },
        CpsExpr::Prim { name, op, args, body } => Cps::Prim {
            name: name@,
            op: op@,
            args: names_view(args@),
            body: Box::new(cps_view(*body)),
        },
        CpsExpr::Cnts { cnts, body } => Cps::Cnts {
            cnts: cnts_view(cnts@),
            body: Box::new(cps_view(*body)),
        },
        CpsExpr::Funs { funs, body } => Cps::Funs {
            funs: funs_view(funs@),
            body: Box::new(cps_view(*body)),
        },
        CpsExpr::AppC { cnt, args } => Cps::AppC { cnt: cnt@, args: names_view(args@) },
        CpsExpr::AppF { fun, ret, args } => Cps::AppF {
            fun: fun@,
            ret: ret@,
            args: names_view(args@),
        },
        CpsExpr::If { op, args, t, f } => Cps::If {
            op: op@,
            args: names_view(args@),
            t: t@,
            f: f@,
        },
        CpsExpr::Halt(n) => Cps::Halt(n@),
    }
}

pub open spec fn cnts_view<Lit>(s: Seq<CntDef<Lit>>) -> Seq<CntM<Lit>>
    decreases s,
{
    if s.len() == 0 {
        Seq::empty()
    } else {
        cnts_view(s.drop_last()).push(cnt_view(s.last()))
    }
}

pub open spec fn funs_view<Lit>(s: Seq<FunDef<Lit>>) -> Seq<FunM<Lit>>
    decreases s,
{
    if s.len() == 0 {
        Seq::empty()
    } else {
        funs_view(s.drop_last()).push(fun_view(s.last()))
    }
}

pub open spec fn cnt_view<Lit>(c: CntDef<Lit>) -> CntM<Lit>
    decreases c,
{
    CntM { name: c.name@, args: names_view(c.args@), body: cps_view(c.body) }
}

pub open spec fn fun_view<Lit>(f: FunDef<Lit>) -> FunM<Lit>
    decreases f,
{
    FunM { name: f.name@, ret: f.ret@, args: names_view(f.args@), body: cps_view(f.body) }
}

impl<Lit> View for CpsExpr<Lit> {
    type V = Cps<Lit>;

    open spec fn view(&self) -> Cps<Lit> {
        cps_view(*self)
    }
}

/// The number of nodes of a CPS program; each definition counts its body only.
pub open spec fn size<Lit>(e: Cps<Lit>) -> nat
    decreases e,
{
    match e {
        Cps::Const { body, .. } => 1 + size(*body),
        Cps::Prim { body, .. } => 1 + size(*body),
        Cps::Cnts { cnts, body } => cnts_size(cnts) + 1 + size(*body),
        Cps::Funs { funs, body } => funs_size(funs) + 1 + size(*body),
        _ => 1,
    }
}

pub open spec fn cnts_size<Lit>(s: Seq<CntM<Lit>>) -> nat
    decreases s,
{
    if s.len() == 0 {
        0
    } else {
        cnts_size(s.drop_last()) + size(s.last().body)
    }
}

pub open spec fn funs_size<Lit>(s: Seq<FunM<Lit>>) -> nat
    decreases s,
{
    if s.len() == 0 {
        0
    } else {
        funs_size(s.drop_last()) + size(s.last().body)
    }
}

/// The last image recorded for `n`, if any.
pub open spec fn find_image(m: Seq<(Seq<char>, Seq<char>)>, n: Seq<char>) -> Option<Seq<char>>
    decreases m.len(),
{
    if m.len() == 0 {
        None
    } else if m.last().0 == n {
        Some(m.last().1)
    } else {
        find_image(m.drop_last(), n)
    }
}

/// Follows the chain of images from `n` for at most `fuel` steps.
pub open spec fn chase(m: Seq<(Seq<char>, Seq<char>)>, n: Seq<char>, fuel: nat) -> Seq<char>
    decreases fuel,
{
    if fuel == 0 {
        n
    } else {
        match find_image(m, n) {
            Some(t) => chase(m, t, (fuel - 1) as nat),
            None => n,
        }
    }
}

/// The image of a name: its chain followed as far as the map's length allows, which reaches
/// the end of every chain without a cycle.
pub open spec fn sub_name(m: Seq<(Seq<char>, Seq<char>)>, n: Seq<char>) -> Seq<char> {
    chase(m, n, m.len())
}

pub open spec fn sub_names(m: Seq<(Seq<char>, Seq<char>)>, s: Seq<Seq<char>>) -> Seq<Seq<char>> {
    s.map_values(|n: Seq<char>| sub_name(m, n))
}

/// Renames every name that a CPS program refers to; binders and operators stay.
pub open spec fn rename<Lit>(m: Seq<(Seq<char>, Seq<char>)>, e: Cps<Lit>) -> Cps<Lit>
    decreases e,
{
    match e {
        Cps::Const { name, value, body } => Cps::Const { name, value, body: Box::new(rename(m, *body)) },
        Cps::Prim { name, op, args, body } => Cps::Prim {
            name,
            op,
            args: sub_names(m, args),
            body: Box::new(rename(m, *body)),
        },
        Cps::Cnts { cnts, body } => Cps::Cnts {
            cnts: rename_cnts(m, cnts),
            body: Box::new(rename(m, *body)),
        },
        Cps::Funs { funs, body } => Cps::Funs {
            funs: rename_funs(m, funs),
            body: Box::new(rename(m, *body)),
        },
        Cps::AppC { cnt, args } => Cps::AppC { cnt: sub_name(m, cnt), args: sub_names(m, args) },
        Cps::AppF { fun, ret, args } => Cps::AppF {
            fun: sub_name(m, fun),
            ret: sub_name(m, ret),
            args: sub_names(m, args),
        },
        Cps::If { op, args, t, f } => Cps::If {
            op,
            args: sub_names(m, args),
            t: sub_name(m, t),
            f: sub_name(m, f),
        },
        Cps::Halt(n) => Cps::Halt(sub_name(m, n)),
    }
}

pub open spec fn rename_cnts<Lit>(m: Seq<(Seq<char>, Seq<char>)>, s: Seq<CntM<Lit>>) -> Seq<CntM<Lit>>
    decreases s,
{
    if s.len() == 0 {
        Seq::empty()
    } else {
        rename_cnts(m, s.drop_last()).push(
            CntM { name: s.last().name, args: s.last().args, body: rename(m, s.last().body) },
        )
    }
}

pub open spec fn rename_funs<Lit>(m: Seq<(Seq<char>, Seq<char>)>, s: Seq<FunM<Lit>>) -> Seq<FunM<Lit>>
    decreases s,
{
    if s.len() == 0 {
        Seq::empty()
    } else {
        rename_funs(m, s.drop_last()).push(
            FunM {
                name: s.last().name,
                ret: s.last().ret,
                args: s.last().args,
                body: rename(m, s.last().body),
            },
        )
    }
}

/// Renaming keeps the size of a program.
pub proof fn lemma_rename_size<Lit>(m: Seq<(Seq<char>, Seq<char>)>, e: Cps<Lit>)
    ensures
        size(rename(m, e)) == size(e),
    decreases e,
{
    match e {
        Cps::Const { body, .. } => lemma_rename_size(m, *body),
        Cps::Prim { body, .. } => lemma_rename_size(m, *body),
        Cps::Cnts { cnts, body } => {
            lemma_rename_size(m, *body);
            lemma_rename_cnts_size(m, cnts);
        },
        Cps::Funs { funs, body } => {
            lemma_rename_size(m, *body);
            lemma_rename_funs_size(m, funs);
        },
        _ => {},
    }
}

pub proof fn lemma_rename_cnts_size<Lit>(m: Seq<(Seq<char>, Seq<char>)>, s: Seq<CntM<Lit>>)
    ensures
        cnts_size(rename_cnts(m, s)) == cnts_size(s),
    decreases s,
{
    if s.len() > 0 {
        lemma_rename_cnts_size(m, s.drop_last());
        lemma_rename_size(m, s.last().body);
        let r = rename_cnts(m, s);
        assert(r.drop_last() =~= rename_cnts(m, s.drop_last()));
    }
}

pub proof fn lemma_rename_funs_size<Lit>(m: Seq<(Seq<char>, Seq<char>)>, s: Seq<FunM<Lit>>)
    ensures
        funs_size(rename_funs(m, s)) == funs_size(s),
    decreases s,
{
    if s.len() > 0 {
        lemma_rename_funs_size(m, s.drop_last());
        lemma_rename_size(m, s.last().body);
        let r = rename_funs(m, s);
        assert(r.drop_last() =~= rename_funs(m, s.drop_last()));
    }
}

pub proof fn lemma_cnts_view_push<Lit>(s: Seq<CntDef<Lit>>, c: CntDef<Lit>)
    ensures
        cnts_view(s.push(c)) == cnts_view(s).push(cnt_view(c)),
{
    assert(s.push(c).drop_last() =~= s);
}

pub proof fn lemma_funs_view_push<Lit>(s: Seq<FunDef<Lit>>, f: FunDef<Lit>)
    ensures
        funs_view(s.push(f)) == funs_view(s).push(fun_view(f)),
{
    assert(s.push(f).drop_last() =~= s);
}

pub proof fn lemma_rename_cnts_push<Lit>(
    m: Seq<(Seq<char>, Seq<char>)>,
    s: Seq<CntM<Lit>>,
    c: CntM<Lit>,
)
    ensures
        rename_cnts(m, s.push(c)) == rename_cnts(m, s).push(
            CntM { name: c.name, args: c.args, body: rename(m, c.body) },
        ),
{
    assert(s.push(c).drop_last() =~= s);
}

pub proof fn lemma_rename_funs_push<Lit>(
    m: Seq<(Seq<char>, Seq<char>)>,
    s: Seq<FunM<Lit>>,
    f: FunM<Lit>,
)
    ensures
        rename_funs(m, s.push(f)) == rename_funs(m, s).push(
            FunM { name: f.name, ret: f.ret, args: f.args, body: rename(m, f.body) },
        ),
{
    assert(s.push(f).drop_last() =~= s);
}

pub proof fn lemma_cnts_view_index<Lit>(s: Seq<CntDef<Lit>>)
    ensures
        cnts_view(s).len() == s.len(),
        forall|k: int| 0 <= k < s.len() ==> #[trigger] cnts_view(s)[k] == cnt_view(s[k]),
    decreases s.len(),
{
    if s.len() > 0 {
        lemma_cnts_view_index(s.drop_last());
        assert forall|k: int| 0 <= k < s.len() implies #[trigger] cnts_view(s)[k] == cnt_view(s[k]) by {
            if k < s.len() - 1 {
                assert(s.drop_last()[k] == s[k]);
            }
        }
    }
}

pub proof fn lemma_funs_view_index<Lit>(s: Seq<FunDef<Lit>>)
    ensures
        funs_view(s).len() == s.len(),
        forall|k: int| 0 <= k < s.len() ==> #[trigger] funs_view(s)[k] == fun_view(s[k]),
    decreases s.len(),
{
    if s.len() > 0 {
        lemma_funs_view_index(s.drop_last());
        assert forall|k: int| 0 <= k < s.len() implies #[trigger] funs_view(s)[k] == fun_view(s[k]) by {
            if k < s.len() - 1 {
                assert(s.drop_last()[k] == s[k]);
            }
        }
    }
}

/// Every continuation body is at most the size of the whole group.
pub proof fn lemma_cnts_size_elem<Lit>(s: Seq<CntM<Lit>>, k: int)
    requires
        0 <= k < s.len(),
    ensures
        size(s[k].body) <= cnts_size(s),
    decreases s.len(),
{
    if k < s.len() - 1 {
        lemma_cnts_size_elem(s.drop_last(), k);
        assert(s.drop_last()[k] == s[k]);
    }
}

pub proof fn lemma_funs_size_elem<Lit>(s: Seq<FunM<Lit>>, k: int)
    requires
        0 <= k < s.len(),
    ensures
        size(s[k].body) <= funs_size(s),
    decreases s.len(),
{
    if k < s.len() - 1 {
        lemma_funs_size_elem(s.drop_last(), k);
        assert(s.drop_last()[k] == s[k]);
    }
}

impl<Lit> CpsExpr<Lit> {
    /// The number of nodes.
    pub fn len(&self) -> (r: usize)
        requires
            size(self@) <= usize::MAX,
        ensures
            r == size(self@),
        decreases self,
    {
        match self {
            CpsExpr::Const { body, .. } => 1 + body.len(),
            CpsExpr::Prim { body, .. } => 1 + body.len(),
            CpsExpr::Cnts { cnts, body } => {
                let ghost whole = size(self@);
                proof {
                    lemma_cnts_view_index(cnts@);
                }
                let mut sum: usize = 0;
                let mut i: usize = 0;
                while i < cnts.len()
                    invariant
                        i <= cnts.len(),
                        *self == (CpsExpr::Cnts { cnts: *cnts, body: *body }),
                        whole == size(self@),
                        whole <= usize::MAX,
                        cnts_view(cnts@).len() == cnts@.len(),
                        forall|j: int| 0 <= j < cnts@.len() ==> #[trigger] cnts_view(cnts@)[j] == cnt_view(cnts@[j]),
                        sum == cnts_size(cnts_view(cnts@).subrange(0, i as int)),
                    decreases cnts.len() - i,
                {
                    proof {
                        let v = cnts_view(cnts@);
                        assert(v.subrange(0, i as int + 1).drop_last() =~= v.subrange(0, i as int));
                        lemma_cnts_size_prefix(v, i as int + 1);
                        assert(decreases_to!(*self => self->cnts));
                        assert(decreases_to!(*cnts => cnts@));
                        assert(decreases_to!(cnts@ => cnts@[i as int]));
                    }
                    sum = sum + cnts[i].body.len();
                    i += 1;
                }
                proof {
                    assert(cnts_view(cnts@).subrange(0, i as int) =~= cnts_view(cnts@));
                }
                sum + 1 + body.len()
            },
            CpsExpr::Funs { funs, body } => {
                let ghost whole = size(self@);
                proof {
                    lemma_funs_view_index(funs@);
                }
                let mut sum: usize = 0;
                let mut i: usize = 0;
                while i < funs.len()
                    invariant
                        i <= funs.len(),
                        *self == (CpsExpr::Funs { funs: *funs, body: *body }),
                        whole == size(self@),
                        whole <= usize::MAX,
                        funs_view(funs@).len() == funs@.len(),
                        forall|j: int| 0 <= j < funs@.len() ==> #[trigger] funs_view(funs@)[j] == fun_view(funs@[j]),
                        sum == funs_size(funs_view(funs@).subrange(0, i as int)),
                    decreases funs.len() - i,
                {
                    proof {
                        let v = funs_view(funs@);
                        assert(v.subrange(0, i as int + 1).drop_last() =~= v.subrange(0, i as int));
                        lemma_funs_size_prefix(v, i as int + 1);
                        assert(decreases_to!(*self => self->funs));
                        assert(decreases_to!(*funs => funs@));
                        assert(decreases_to!(funs@ => funs@[i as int]));
                    }
                    sum = sum + funs[i].body.len();
                    i += 1;
                }
                proof {
                    assert(funs_view(funs@).subrange(0, i as int) =~= funs_view(funs@));
                }
                sum + 1 + body.len()
            },
            _ => 1,
        }
    }

    /// The number of nodes, or `None` where it does not fit in `usize`.
    pub fn checked_len(&self) -> (r: Option<usize>)
        ensures
            match r {
                Some(n) => n == size(self@),
                None => size(self@) > usize::MAX,
            },
        decreases self,
    {
        match self {
            CpsExpr::Const { body, .. } => match body.checked_len() {
                Some(n) => n.checked_add(1),
                None => None,
            },
            CpsExpr::Prim { body, .. } => match body.checked_len() {
                Some(n) => n.checked_add(1),
                None => None,
            },
            CpsExpr::Cnts { cnts, body } => {
                let ghost v_all = cnts_view(cnts@);
                proof {
                    lemma_cnts_view_index(cnts@);
                }
                let mut sum: usize = 0;
                let mut i: usize = 0;
                while i < cnts.len()
                    invariant
                        i <= cnts.len(),
                        *self == (CpsExpr::Cnts { cnts: *cnts, body: *body }),
                        v_all == cnts_view(cnts@),
                        v_all.len() == cnts@.len(),
                        forall|j: int| 0 <= j < cnts@.len() ==> #[trigger] v_all[j] == cnt_view(cnts@[j]),
                        sum == cnts_size(v_all.subrange(0, i as int)),
                    decreases cnts.len() - i,
                {
                    proof {
                        assert(v_all.subrange(0, i as int + 1).drop_last() =~= v_all.subrange(0, i as int));
                        lemma_cnts_size_prefix(v_all, i as int + 1);
                        lemma_cnts_size_elem(v_all, i as int);
                        assert(decreases_to!(*self => self->cnts));
                        assert(decreases_to!(*cnts => cnts@));
                        assert(decreases_to!(cnts@ => cnts@[i as int]));
                    }
                    let n = match cnts[i].body.checked_len() {
                        Some(n) => n,
                        None => {
                            return None;
                        },
                    };
                    if sum > usize::MAX - n {
                        return None;
                    }
                    sum = sum + n;
                    i += 1;
                }
                proof {
                    assert(v_all.subrange(0, i as int) =~= v_all);
                }
                let n = match body.checked_len() {
                    Some(n) => n,
                    None => {
                        return None;
                    },
                };
                if sum >= usize::MAX - n {
                    return None;
                }
                Some(sum + 1 + n)
            },
            CpsExpr::Funs { funs, body } => {
                let ghost v_all = funs_view(funs@);
                proof {
                    lemma_funs_view_index(funs@);
                }
                let mut sum: usize = 0;
                let mut i: usize = 0;
                while i < funs.len()
                    invariant
                        i <= funs.len(),
                        *self == (CpsExpr::Funs { funs: *funs, body: *body }),
                        v_all == funs_view(funs@),
                        v_all.len() == funs@.len(),
                        forall|j: int| 0 <= j < funs@.len() ==> #[trigger] v_all[j] == fun_view(funs@[j]),
                        sum == funs_size(v_all.subrange(0, i as int)),
                    decreases funs.len() - i,
                {
                    proof {
                        assert(v_all.subrange(0, i as int + 1).drop_last() =~= v_all.subrange(0, i as int));
                        lemma_funs_size_prefix(v_all, i as int + 1);
                        lemma_funs_size_elem(v_all, i as int);
                        assert(decreases_to!(*self => self->funs));
                        assert(decreases_to!(*funs => funs@));
                        assert(decreases_to!(funs@ => funs@[i as int]));
                    }
                    let n = match funs[i].body.checked_len() {
                        Some(n) => n,
                        None => {
                            return None;
                        },
                    };
                    if sum > usize::MAX - n {
                        return None;
                    }
                    sum = sum + n;
                    i += 1;
                }
                proof {
                    assert(v_all.subrange(0, i as int) =~= v_all);
                }
                let n = match body.checked_len() {
                    Some(n) => n,
                    None => {
                        return None;
                    },
                };
                if sum >= usize::MAX - n {
                    return None;
                }
                Some(sum + 1 + n)
            },
            _ => Some(1),
        }
    }

    /// Whether the number of nodes fits in `usize`.
    pub fn size_fits(&self) -> (r: bool)
        ensures
            r == (size(self@) <= usize::MAX),
    {
        self.checked_len().is_some()
    }
}

/// A prefix of a group of continuations is no larger than the group.
pub proof fn lemma_cnts_size_prefix<Lit>(s: Seq<CntM<Lit>>, k: int)
    requires
        0 <= k <= s.len(),
    ensures
        cnts_size(s.subrange(0, k)) <= cnts_size(s),
    decreases s.len(),
{
    if k < s.len() {
        assert(s.drop_last().subrange(0, k) =~= s.subrange(0, k));
        lemma_cnts_size_prefix(s.drop_last(), k);
    } else {
        assert(s.subrange(0, k) =~= s);
    }
}

pub proof fn lemma_funs_size_prefix<Lit>(s: Seq<FunM<Lit>>, k: int)
    requires
        0 <= k <= s.len(),
    ensures
        funs_size(s.subrange(0, k)) <= funs_size(s),
    decreases s.len(),
{
    if k < s.len() {
        assert(s.drop_last().subrange(0, k) =~= s.subrange(0, k));
        lemma_funs_size_prefix(s.drop_last(), k);
    } else {
        assert(s.subrange(0, k) =~= s);
    }
}

/// A finite map from names to names, applied transitively.
pub struct Subst {
    pub map: Vec<(Name, Name)>,
}

impl View for Subst {
    type V = Seq<(Seq<char>, Seq<char>)>;

    open spec fn view(&self) -> Seq<(Seq<char>, Seq<char>)> {
        self.map@.map_values(|p: (Name, Name)| (p.0@, p.1@))
    }
}

impl Subst {
    pub fn new() -> (r: Subst)
        ensures
            r@ == Seq::<(Seq<char>, Seq<char>)>::empty(),
    {
        let r = Subst { map: Vec::new() };
        proof {
            assert(r@ =~= Seq::<(Seq<char>, Seq<char>)>::empty());
        }
        r
    }

    /// The substitution that sends `from` to `to`.
    pub fn one(from: Name, to: Name) -> (r: Subst)
        requires
            from@ != to@,
        ensures
            r@ == seq![(from@, to@)],
    {
        let r = Subst { map: vec![(from, to)] };
        proof {
            assert(r@ =~= seq![(from@, to@)]);
        }
        r
    }

    /// Records `key -> value`; it takes precedence over any earlier image of `key`.
    pub fn insert(&mut self, key: Name, value: Name)
        ensures
            final(self)@ == old(self)@.push((key@, value@)),
    {
        self.map.push((key, value));
        proof {
            assert(final(self)@ =~= old(self)@.push((key@, value@)));
        }
    }

    fn lookup(&self, n: &Name) -> (r: Option<Name>)
        ensures
            match find_image(self@, n@) {
                Some(t) => r is Some && r->0@ == t,
                None => r is None,
            },
    {
        let mut i: usize = self.map.len();
        proof {
            assert(self@.subrange(0, i as int) =~= self@);
        }
        while i > 0
            invariant
                i <= self.map.len(),
                find_image(self@, n@) == find_image(self@.subrange(0, i as int), n@),
            decreases i,
        {
            proof {
                assert(self@.subrange(0, i as int).drop_last() =~= self@.subrange(0, i as int - 1));
            }
            if self.map[i - 1].0 == *n {
                return Some(self.map[i - 1].1.clone());
            }
            i -= 1;
        }
        None
    }

    /// Follows the chain of images from `name` until it ends.
    pub fn apply(&self, name: &Name) -> (r: Name)
        ensures
            r@ == sub_name(self@, name@),
    {
        let len = self.map.len();
        let mut cur = name.clone();
        let mut steps: usize = 0;
        while steps < len
            invariant
                len == self@.len(),
                steps <= len,
                sub_name(self@, name@) == chase(self@, cur@, (len - steps) as nat),
            decreases len - steps,
        {
            match self.lookup(&cur) {
                Some(t) => {
                    cur = t;
                },
                None => {
                    return cur;
                },
            }
            steps += 1;
        }
        cur
    }
}

fn subst_names(s: &Subst, v: &Vec<Name>) -> (r: Vec<Name>)
    ensures
        names_view(r@) == sub_names(s@, names_view(v@)),
{
    let mut r: Vec<Name> = Vec::new();
    let mut i: usize = 0;
    while i < v.len()
        invariant
            i <= v.len(),
            r.len() == i,
            forall|j: int| 0 <= j < i ==> (#[trigger] r@[j])@ == sub_name(s@, v@[j]@),
        decreases v.len() - i,
    {
        r.push(s.apply(&v[i]));
        i += 1;
    }
    proof {
        assert(names_view(r@) =~= sub_names(s@, names_view(v@)));
    }
    r
}

/// Renames what a program refers to, recursively.
pub fn subst_expr<Lit>(e: CpsExpr<Lit>, s: &Subst) -> (r: CpsExpr<Lit>)
    ensures
        r@ == rename(s@, e@),
    decreases e,
{
    match e {
        CpsExpr::Const { name, value, body } => CpsExpr::Const {
            name,
            value,
            body: Box::new(subst_expr(*body, s)),
        },
        CpsExpr::Prim { name, op, args, body } => {
            let args = subst_names(s, &args);
            CpsExpr::Prim { name, op, args, body: Box::new(subst_expr(*body, s)) }
        },
        CpsExpr::Cnts { cnts, body } => {
            let cnts = subst_cnts(cnts, s);
            CpsExpr::Cnts { cnts, body: Box::new(subst_expr(*body, s)) }
        },
        CpsExpr::Funs { funs, body } => {
            let funs = subst_funs(funs, s);
            CpsExpr::Funs { funs, body: Box::new(subst_expr(*body, s)) }
        },
        CpsExpr::AppC { cnt, args } => CpsExpr::AppC { cnt: s.apply(&cnt), args: subst_names(s, &args) },
        CpsExpr::AppF { fun, ret, args } => CpsExpr::AppF {
            fun: s.apply(&fun),
            ret: s.apply(&ret),
            args: subst_names(s, &args),
        },
        CpsExpr::If { op, args, t, f } => CpsExpr::If {
            op,
            args: subst_names(s, &args),
            t: s.apply(&t),
            f: s.apply(&f),
        },
        CpsExpr::Halt(n) => CpsExpr::Halt(s.apply(&n)),
    }
}

fn subst_cnts<Lit>(v: Vec<CntDef<Lit>>, s: &Subst) -> (r: Vec<CntDef<Lit>>)
    ensures
        cnts_view(r@) == rename_cnts(s@, cnts_view(v@)),
    decreases v,
{
    let ghost orig = v@;
    let mut src = v;
    let total = src.len();
    let mut r: Vec<CntDef<Lit>> = Vec::new();
    let mut k: usize = 0;
    while src.len() > 0
        invariant
            k <= orig.len(),
            src@ == orig.subrange(k as int, orig.len() as int),
            cnts_view(r@) == rename_cnts(s@, cnts_view(orig.subrange(0, k as int))),
            orig == v@,
            orig.len() == total,
        decreases src.len(),
    {
        proof {
            assert(src@.len() == orig.len() - k);
        }
        let c = src.remove(0);
        proof {
            assert(c == orig[k as int]);
            assert(decreases_to!(v => v@));
            assert(decreases_to!(v@ => v@[k as int]));
        }
        let c2 = subst_cnt(c, s);
        proof {
            lemma_cnts_view_push(r@, c2);
            assert(orig.subrange(0, k as int + 1) =~= orig.subrange(0, k as int).push(orig[k as int]));
            lemma_cnts_view_push(orig.subrange(0, k as int), orig[k as int]);
            lemma_rename_cnts_push(s@, cnts_view(orig.subrange(0, k as int)), cnt_view(orig[k as int]));
        }
        r.push(c2);
        k += 1;
        proof {
            assert(src@ =~= orig.subrange(k as int, orig.len() as int));
        }
    }
    proof {
        assert(orig.subrange(0, k as int) =~= orig);
    }
    r
}

fn subst_cnt<Lit>(c: CntDef<Lit>, s: &Subst) -> (r: CntDef<Lit>)
    ensures
        cnt_view(r) == (CntM { name: cnt_view(c).name, args: cnt_view(c).args, body: rename(s@, cnt_view(c).body) }),
    decreases c,
{
    let CntDef { name, args, body } = c;
    CntDef { name, args, body: subst_expr(body, s) }
}

fn subst_funs<Lit>(v: Vec<FunDef<Lit>>, s: &Subst) -> (r: Vec<FunDef<Lit>>)
    ensures
        funs_view(r@) == rename_funs(s@, funs_view(v@)),
    decreases v,
{
    let ghost orig = v@;
    let mut src = v;
    let total = src.len();
    let mut r: Vec<FunDef<Lit>> = Vec::new();
    let mut k: usize = 0;
    while src.len() > 0
        invariant
            k <= orig.len(),
            src@ == orig.subrange(k as int, orig.len() as int),
            funs_view(r@) == rename_funs(s@, funs_view(orig.subrange(0, k as int))),
            orig == v@,
            orig.len() == total,
        decreases src.len(),
    {
        proof {
            assert(src@.len() == orig.len() - k);
        }
        let f = src.remove(0);
        proof {
            assert(f == orig[k as int]);
            assert(decreases_to!(v => v@));
            assert(decreases_to!(v@ => v@[k as int]));
        }
        let f2 = subst_fun(f, s);
        proof {
            lemma_funs_view_push(r@, f2);
            assert(orig.subrange(0, k as int + 1) =~= orig.subrange(0, k as int).push(orig[k as int]));
            lemma_funs_view_push(orig.subrange(0, k as int), orig[k as int]);
            lemma_rename_funs_push(s@, funs_view(orig.subrange(0, k as int)), fun_view(orig[k as int]));
        }
        r.push(f2);
        k += 1;
        proof {
            assert(src@ =~= orig.subrange(k as int, orig.len() as int));
        }
    }
    proof {
        assert(orig.subrange(0, k as int) =~= orig);
    }
    r
}

fn subst_fun<Lit>(f: FunDef<Lit>, s: &Subst) -> (r: FunDef<Lit>)
    ensures
        fun_view(r) == (FunM {
            name: fun_view(f).name,
            ret: fun_view(f).ret,
            args: fun_view(f).args,
            body: rename(s@, fun_view(f).body),
        }),
    decreases f,
{
    let FunDef { name, ret, args, body } = f;
    FunDef { name, ret, args, body: subst_expr(body, s) }
}

/// Renaming of the names a piece of CPS refers to.
pub trait Substitutable: Sized {
    fn subst(self, subst: &Subst) -> Self;
}

impl<Lit> Substitutable for CpsExpr<Lit> {
    fn subst(self, subst: &Subst) -> (r: Self)
        ensures
            r@ == rename(subst@, self@),
    {
        subst_expr(self, subst)
    }
}

impl<Lit> Substitutable for CntDef<Lit> {
    fn subst(self, subst: &Subst) -> (r: Self)
        ensures
            cnt_view(r) == (CntM {
                name: cnt_view(self).name,
                args: cnt_view(self).args,
                body: rename(subst@, cnt_view(self).body),
            }),
    {
        subst_cnt(self, subst)
    }
}

impl<Lit> Substitutable for FunDef<Lit> {
    fn subst(self, subst: &Subst) -> (r: Self)
        ensures
            fun_view(r) == (FunM {
                name: fun_view(self).name,
                ret: fun_view(self).ret,
                args: fun_view(self).args,
                body: rename(subst@, fun_view(self).body),
            }),
    {
        subst_fun(self, subst)
    }
}

pub open spec fn drop_names(s: Seq<Seq<char>>, bound: Seq<Seq<char>>) -> Seq<Seq<char>> {
    s.filter(|n: Seq<char>| !bound.contains(n))
}

/// The names that a program refers to without binding them, in order, repeats included.
/// Primitive and branch operators count as references.
pub open spec fn free_seq<Lit>(e: Cps<Lit>) -> Seq<Seq<char>>
    decreases e,
{
    match e {
        Cps::Const { name, body, .. } => drop_names(free_seq(*body), seq![name]),
        Cps::Prim { name, op, args, body } => drop_names(free_seq(*body), seq![name]) + args + seq![op],
        Cps::Cnts { cnts, body } => drop_names(free_seq(*body) + cnts_free(cnts), cnt_names(cnts)),
        Cps::Funs { funs, body } => drop_names(free_seq(*body) + funs_free(funs), fun_names(funs)),
        Cps::AppC { cnt, args } => seq![cnt] + args,
        Cps::AppF { fun, ret, args } => seq![fun, ret] + args,
        Cps::If { op, args, t, f } => args + seq![op, t, f],
        Cps::Halt(n) => seq![n],
    }
}

pub open spec fn cnt_names<Lit>(s: Seq<CntM<Lit>>) -> Seq<Seq<char>> {
    s.map_values(|c: CntM<Lit>| c.name)
}

pub open spec fn fun_names<Lit>(s: Seq<FunM<Lit>>) -> Seq<Seq<char>> {
    s.map_values(|f: FunM<Lit>| f.name)
}

pub open spec fn cnts_free<Lit>(s: Seq<CntM<Lit>>) -> Seq<Seq<char>>
    decreases s,
{
    if s.len() == 0 {
        Seq::empty()
    } else {
        cnts_free(s.drop_last()) + drop_names(drop_names(free_seq(s.last().body), s.last().args), seq![s.last().name])
    }
}

pub open spec fn funs_free<Lit>(s: Seq<FunM<Lit>>) -> Seq<Seq<char>>
    decreases s,
{
    if s.len() == 0 {
        Seq::empty()
    } else {
        funs_free(s.drop_last()) + drop_names(
            drop_names(drop_names(free_seq(s.last().body), s.last().args), seq![s.last().name]),
            seq![s.last().ret],
        )
    }
}

proof fn lemma_names_same(v: Seq<Name>)
    ensures
        crate::interp::names_of(v) == names_view(v),
{
    assert(crate::interp::names_of(v) =~= names_view(v));
}

fn without_names(v: Vec<Name>, bound: &Vec<Name>) -> (r: Vec<Name>)
    ensures
        names_view(r@) == drop_names(names_view(v@), names_view(bound@)),
{
    proof {
        lemma_names_same(v@);
        lemma_names_same(bound@);
    }
    let r = crate::interp::remove_bound(v, bound);
    proof {
        lemma_names_same(r@);
    }
    r
}

fn concat_names(a: Vec<Name>, b: Vec<Name>) -> (r: Vec<Name>)
    ensures
        names_view(r@) == names_view(a@) + names_view(b@),
{
    let mut r = a;
    let mut b = b;
    let ghost ra = r@;
    let ghost bb = b@;
    r.append(&mut b);
    proof {
        assert(names_view(r@) =~= names_view(ra) + names_view(bb));
    }
    r
}

fn copy_names(v: &Vec<Name>) -> (r: Vec<Name>)
    ensures
        names_view(r@) == names_view(v@),
{
    let mut r: Vec<Name> = Vec::new();
    let mut i: usize = 0;
    while i < v.len()
        invariant
            i <= v.len(),
            r.len() == i,
            forall|j: int| 0 <= j < i ==> (#[trigger] r@[j])@ == v@[j]@,
        decreases v.len() - i,
    {
        r.push(v[i].clone());
        i += 1;
    }
    proof {
        assert(names_view(r@) =~= names_view(v@));
    }
    r
}

fn name_list1(a: &Name) -> (r: Vec<Name>)
    ensures
        names_view(r@) == seq![a@],
{
    let r = vec![a.clone()];
    proof {
        assert(names_view(r@) =~= seq![a@]);
    }
    r
}

impl<Lit> CpsExpr<Lit> {
    /// The names the program refers to without binding them.
    pub fn free(&self) -> (r: Vec<Name>)
        ensures
            names_view(r@) == free_seq(self@),
        decreases self,
    {
        match self {
            CpsExpr::Const { name, body, .. } => without_names(body.free(), &name_list1(name)),
            CpsExpr::Prim { name, op, args, body } => {
                let a = without_names(body.free(), &name_list1(name));
                let b = concat_names(a, copy_names(args));
                concat_names(b, name_list1(op))
            },
            CpsExpr::Cnts { cnts, body } => {
                let mut inner = body.free();
                let mut names: Vec<Name> = Vec::new();
                let mut i: usize = 0;
                let ghost v = cnts_view(cnts@);
                proof {
                    lemma_cnts_view_index(cnts@);
                }
                while i < cnts.len()
                    invariant
                        i <= cnts.len(),
                        *self == (CpsExpr::Cnts { cnts: *cnts, body: *body }),
                        v == cnts_view(cnts@),
                        v.len() == cnts@.len(),
                        forall|j: int| 0 <= j < cnts@.len() ==> #[trigger] v[j] == cnt_view(cnts@[j]),
                        names_view(inner@) == free_seq(body@) + cnts_free(v.subrange(0, i as int)),
                        names_view(names@) == cnt_names(v.subrange(0, i as int)),
                    decreases cnts.len() - i,
                {
                    proof {
                        assert(decreases_to!(*self => self->cnts));
                        assert(decreases_to!(*cnts => cnts@));
                        assert(decreases_to!(cnts@ => cnts@[i as int]));
                        assert(v.subrange(0, i as int + 1).drop_last() =~= v.subrange(0, i as int));
                    }
                    let c = &cnts[i];
                    let f = without_names(without_names(c.body.free(), &c.args), &name_list1(&c.name));
                    let ghost prev = inner@;
                    inner = concat_names(inner, f);
                    let ghost pn = names@;
                    names.push(c.name.clone());
                    proof {
                        assert(names_view(names@) =~= names_view(pn).push(c.name@));
                        assert(cnt_names(v.subrange(0, i as int + 1)) =~= cnt_names(v.subrange(0, i as int)).push(c.name@));
                    }
                    i += 1;
                }
                proof {
                    assert(v.subrange(0, i as int) =~= v);
                }
                without_names(inner, &names)
            },
            CpsExpr::Funs { funs, body } => {
                let mut inner = body.free();
                let mut names: Vec<Name> = Vec::new();
                let mut i: usize = 0;
                let ghost v = funs_view(funs@);
                proof {
                    lemma_funs_view_index(funs@);
                }
                while i < funs.len()
                    invariant
                        i <= funs.len(),
                        *self == (CpsExpr::Funs { funs: *funs, body: *body }),
                        v == funs_view(funs@),
                        v.len() == funs@.len(),
                        forall|j: int| 0 <= j < funs@.len() ==> #[trigger] v[j] == fun_view(funs@[j]),
                        names_view(inner@) == free_seq(body@) + funs_free(v.subrange(0, i as int)),
                        names_view(names@) == fun_names(v.subrange(0, i as int)),
                    decreases funs.len() - i,
                {
                    proof {
                        assert(decreases_to!(*self => self->funs));
                        assert(decreases_to!(*funs => funs@));
                        assert(decreases_to!(funs@ => funs@[i as int]));
                        assert(v.subrange(0, i as int + 1).drop_last() =~= v.subrange(0, i as int));
                    }
                    let fd = &funs[i];
                    let f = without_names(
                        without_names(without_names(fd.body.free(), &fd.args), &name_list1(&fd.name)),
                        &name_list1(&fd.ret),
                    );
                    let ghost prev = inner@;
                    inner = concat_names(inner, f);
                    let ghost pn = names@;
                    names.push(fd.name.clone());
                    proof {
                        assert(names_view(names@) =~= names_view(pn).push(fd.name@));
                        assert(fun_names(v.subrange(0, i as int + 1)) =~= fun_names(v.subrange(0, i as int)).push(fd.name@));
                    }
                    i += 1;
                }
                proof {
                    assert(v.subrange(0, i as int) =~= v);
                }
                without_names(inner, &names)
            },
            CpsExpr::AppC { cnt, args } => concat_names(name_list1(cnt), copy_names(args)),
            CpsExpr::AppF { fun, ret, args } => {
                let a = concat_names(name_list1(fun), name_list1(ret));
                proof {
                    assert(seq![fun@] + seq![ret@] =~= seq![fun@, ret@]);
                }
                concat_names(a, copy_names(args))
            },
            CpsExpr::If { op, args, t, f } => {
                let a = concat_names(copy_names(args), name_list1(op));
                let b = concat_names(a, name_list1(t));
                let r = concat_names(b, name_list1(f));
                proof {
                    assert(names_view(args@) + seq![op@] + seq![t@] + seq![f@] =~= names_view(args@) + seq![op@, t@, f@]);
                }
                r
            },
            CpsExpr::Halt(n) => name_list1(n),
        }
    }
}

impl<Lit> CntDef<Lit> {
    /// The number of nodes of the body.
    pub fn len(&self) -> (r: usize)
        requires
            size(self.body@) <= usize::MAX,
        ensures
            r == size(self.body@),
    {
        self.body.len()
    }

    /// The names the body refers to, apart from the parameters and the continuation itself.
    pub fn free(&self) -> (r: Vec<Name>)
        ensures
            names_view(r@) == drop_names(drop_names(free_seq(self.body@), names_view(self.args@)), seq![self.name@]),
    {
        without_names(without_names(self.body.free(), &self.args), &name_list1(&self.name))
    }
}

impl<Lit> FunDef<Lit> {
    /// The number of nodes of the body.
    pub fn len(&self) -> (r: usize)
        requires
            size(self.body@) <= usize::MAX,
        ensures
            r == size(self.body@),
    {
        self.body.len()
    }

    /// The names the body refers to, apart from the parameters, the function itself and its
    /// return continuation.
    pub fn free(&self) -> (r: Vec<Name>)
        ensures
            names_view(r@) == drop_names(
                drop_names(drop_names(free_seq(self.body@), names_view(self.args@)), seq![self.name@]),
                seq![self.ret@],
            ),
    {
        without_names(
            without_names(without_names(self.body.free(), &self.args), &name_list1(&self.name)),
            &name_list1(&self.ret),
        )
    }
}

} // verus!
