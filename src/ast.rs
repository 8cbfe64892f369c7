use std::rc::Rc;
use vstd::prelude::*;

verus! {

/// An identifier: two names are the same when their spellings are.
pub struct Name(pub String);

impl View for Name {
    type V = Seq<char>;

    open spec fn view(&self) -> Seq<char> {
        self.0@
    }
}

impl Clone for Name {
    fn clone(&self) -> (r: Name)
        ensures
            r == *self,
    {
        Name(self.0.clone())
    }
}

impl PartialEq for Name {
    fn eq(&self, o: &Name) -> (r: bool) {
        self.0 == o.0
    }
}

impl vstd::std_specs::cmp::PartialEqSpecImpl for Name {
    open spec fn obeys_eq_spec() -> bool {
        true
    }

    open spec fn eq_spec(&self, o: &Name) -> bool {
        self@ == o@
    }
}

impl Eq for Name {
}

impl Name {
    pub fn new(s: &str) -> (r: Name)
        ensures
            r@ == s@,
    {
        Name(s.to_owned())
    }

    /// Whether this name is spelled exactly `s`.
    pub fn is(&self, s: &str) -> (r: bool)
        ensures
            r == (self@ == s@),
    {
        str_eq(self.0.as_str(), s)
    }
}

/// Character-wise comparison of two strings.
pub fn str_eq(a: &str, b: &str) -> (r: bool)
    ensures
        r == (a@ == b@),
{
    let n = a.unicode_len();
    if n != b.unicode_len() {
        return false;
    }
    let mut i: usize = 0;
    while i < n
        invariant
            n == a@.len(),
            n == b@.len(),
            i <= n,
            forall|j: int| 0 <= j < i ==> a@[j] == b@[j],
        decreases n - i,
    {
        if a.get_char(i) != b.get_char(i) {
            return false;
        }
        i += 1;
    }
    proof {
        assert(a@ =~= b@);
    }
    true
}

/// The spellings of the operator symbols, character by character.
pub proof fn lemma_op_spellings()
    ensures
        "+"@.len() == 1 && "+"@[0] == '+',
        "-"@.len() == 1 && "-"@[0] == '-',
        "*"@.len() == 1 && "*"@[0] == '*',
        "/"@.len() == 1 && "/"@[0] == '/',
        "%"@.len() == 1 && "%"@[0] == '%',
        "~"@.len() == 1 && "~"@[0] == '~',
        "=="@.len() == 2 && "=="@[0] == '=' && "=="@[1] == '=',
        "!="@.len() == 2 && "!="@[0] == '!' && "!="@[1] == '=',
        "<"@.len() == 1 && "<"@[0] == '<',
        ">"@.len() == 1 && ">"@[0] == '>',
        "<="@.len() == 2 && "<="@[0] == '<' && "<="@[1] == '=',
        ">="@.len() == 2 && ">="@[0] == '>' && ">="@[1] == '=',
        "&&"@.len() == 2 && "&&"@[0] == '&' && "&&"@[1] == '&',
        "||"@.len() == 2 && "||"@[0] == '|' && "||"@[1] == '|',
        "!"@.len() == 1 && "!"@[0] == '!',
        "data"@.len() == 4 && "data"@[0] == 'd' && "data"@[1] == 'a' && "data"@[2] == 't' && "data"@[3] == 'a',
        "id"@.len() == 2 && "id"@[0] == 'i' && "id"@[1] == 'd',
        "desc"@.len() == 4 && "desc"@[0] == 'd' && "desc"@[1] == 'e' && "desc"@[2] == 's' && "desc"@[3] == 'c',
        "field"@.len() == 5 && "field"@[0] == 'f' && "field"@[1] == 'i' && "field"@[2] == 'e' && "field"@[3] == 'l' && "field"@[4] == 'd',
        "halt"@.len() == 4 && "halt"@[0] == 'h' && "halt"@[1] == 'a' && "halt"@[2] == 'l' && "halt"@[3] == 't',
{
    reveal_strlit("+");
    reveal_strlit("-");
    reveal_strlit("*");
    reveal_strlit("/");
    reveal_strlit("%");
    reveal_strlit("~");
    reveal_strlit("==");
    reveal_strlit("!=");
    reveal_strlit("<");
    reveal_strlit(">");
    reveal_strlit("<=");
    reveal_strlit(">=");
    reveal_strlit("&&");
    reveal_strlit("||");
    reveal_strlit("!");
    reveal_strlit("data");
    reveal_strlit("id");
    reveal_strlit("desc");
    reveal_strlit("field");
    reveal_strlit("halt");
}

/// The decimal digit `d`.
pub open spec fn digit_char(d: nat) -> char {
    seq!['0', '1', '2', '3', '4', '5', '6', '7', '8', '9'][d as int]
}

/// The decimal spelling of `n`, without leading zeros.
pub open spec fn dec(n: nat) -> Seq<char>
    decreases n,
{
    if n < 10 {
        seq![digit_char(n)]
    } else {
        dec(n / 10).push(digit_char(n % 10))
    }
}

fn digit_str(d: u64) -> (r: &'static str)
    requires
        d < 10,
    ensures
        r@ == seq![digit_char(d as nat)],
{
    proof {
        reveal_strlit("0");
        reveal_strlit("1");
        reveal_strlit("2");
        reveal_strlit("3");
        reveal_strlit("4");
        reveal_strlit("5");
        reveal_strlit("6");
        reveal_strlit("7");
        reveal_strlit("8");
        reveal_strlit("9");
    }
    let r = if d == 0 {
        "0"
    } else if d == 1 {
        "1"
    } else if d == 2 {
        "2"
    } else if d == 3 {
        "3"
    } else if d == 4 {
        "4"
    } else if d == 5 {
        "5"
    } else if d == 6 {
        "6"
    } else if d == 7 {
        "7"
    } else if d == 8 {
        "8"
    } else {
        "9"
    };
    proof {
        assert(r@ =~= seq![digit_char(d as nat)]);
    }
    r
}

/// Writes `n` in decimal.
pub fn decimal(n: u64) -> (r: String)
    ensures
        r@ == dec(n as nat),
    decreases n,
{
    let d = digit_str(n % 10);
    if n < 10 {
        d.to_owned()
    } else {
        let mut s = decimal(n / 10);
        s.append(d);
        s
    }
}

/// The operator symbols that the language provides as built-ins.
pub open spec fn is_builtin_op(s: Seq<char>) -> bool {
    s == "+"@ || s == "-"@ || s == "*"@ || s == "/"@ || s == "%"@ || s == "~"@ || s == "=="@
        || s == "!="@ || s == "<"@ || s == ">"@ || s == "<="@ || s == ">="@ || s == "&&"@
        || s == "||"@ || s == "!"@
}

/// Binding strength of an infix operator: additive 1, multiplicative 2, everything else 0.
pub open spec fn op_prec(s: Seq<char>) -> i32 {
    if s == "+"@ || s == "-"@ {
        1
    } else if s == "*"@ || s == "/"@ || s == "%"@ {
        2
    } else {
        0
    }
}

/// The prefix operators.
pub open spec fn is_unary_op(s: Seq<char>) -> bool {
    s == "~"@ || s == "!"@
}

/// Operator properties that the surface parser and the printers consult.
pub trait Op {
    fn valid(&self) -> bool;

    fn prec(&self) -> i32;

    fn assoc(&self) -> i32;

    fn unary(&self) -> bool;
}

impl Op for Name {
    fn valid(&self) -> (r: bool)
        ensures
            r == is_builtin_op(self@),
    {
        self.is("+") || self.is("-") || self.is("*") || self.is("/") || self.is("%") || self.is("~")
            || self.is("==") || self.is("!=") || self.is("<") || self.is(">") || self.is("<=")
            || self.is(">=") || self.is("&&") || self.is("||") || self.is("!")
    }

    fn prec(&self) -> (r: i32)
        ensures
            r == op_prec(self@),
    {
        if self.is("+") || self.is("-") {
            1
        } else if self.is("*") || self.is("/") || self.is("%") {
            2
        } else {
            0
        }
    }

    /// Every operator associates to the left.
    fn assoc(&self) -> (r: i32)
        ensures
            r == 1,
    {
        1
    }

    fn unary(&self) -> (r: bool)
        ensures
            r == is_unary_op(self@),
    {
        self.is("~") || self.is("!")
    }
}

pub enum Type {
    Int,
    Bool,
    Unit,
    Fn(Vec<Type>, Box<Type>),
    UserDef(Name),
    TyVar(usize),
}

/// The mathematical value of a `Type`: names as character sequences, lists as sequences.
pub enum Ty {
    Int,
    Bool,
    Unit,
    Fn(Seq<Ty>, Box<Ty>),
    UserDef(Seq<char>),
    Var(nat),
}

impl View for Type {
    type V = Ty;

    open spec fn view(&self) -> Ty
        decreases self,
    {
        match self {
            Type::Int => Ty::Int,
            Type::Bool => Ty::Bool,
            Type::Unit => Ty::Unit,
            Type::Fn(args, ret) => Ty::Fn(tys_view(args@), Box::new((**ret)@)),
            Type::UserDef(n) => Ty::UserDef(n@),
            Type::TyVar(m) => Ty::Var(*m as nat),
        }
    }
}

/// The element-wise view of a list of types.
pub open spec fn tys_view(s: Seq<Type>) -> Seq<Ty>
    decreases s,
{
    if s.len() == 0 {
        Seq::empty()
    } else {
        tys_view(s.drop_last()).push(s.last()@)
    }
}

impl Clone for Type {
    fn clone(&self) -> (r: Type)
        ensures
            r@ == self@,
        decreases self,
    {
        match self {
            Type::Int => Type::Int,
            Type::Bool => Type::Bool,
            Type::Unit => Type::Unit,
            Type::Fn(args, ret) => {
                let mut v: Vec<Type> = Vec::new();
                let mut i: usize = 0;
                while i < args.len()
                    invariant
                        *self == Type::Fn(*args, *ret),
                        i <= args.len(),
                        v.len() == i,
                        forall|j: int| 0 <= j < i ==> (#[trigger] v@[j])@ == args@[j]@,
                    decreases args.len() - i,
                {
                    proof {
                        assert(decreases_to!(*self => self->Fn_0));
                        assert(decreases_to!(*args => args@));
                        assert(decreases_to!(args@ => args@[i as int]));
                    }
                    v.push(args[i].clone());
                    i += 1;
                }
                let r = Type::Fn(v, Box::new((**ret).clone()));
                proof {
                    lemma_tys_view_ext(v@, args@);
                }
                r
            },
            Type::UserDef(n) => Type::UserDef(n.clone()),
            Type::TyVar(m) => Type::TyVar(*m),
        }
    }
}

/// The element views of a list of types, indexed.
pub proof fn lemma_tys_view_index(s: Seq<Type>)
    ensures
        tys_view(s).len() == s.len(),
        forall|j: int| 0 <= j < s.len() ==> #[trigger] tys_view(s)[j] == s[j]@,
    decreases s.len(),
{
    if s.len() > 0 {
        lemma_tys_view_index(s.drop_last());
        assert(tys_view(s) == tys_view(s.drop_last()).push(s.last()@));
        assert forall|j: int| 0 <= j < s.len() implies #[trigger] tys_view(s)[j] == s[j]@ by {
            if j < s.len() - 1 {
                assert(s.drop_last()[j] == s[j]);
            }
        }
    }
}

/// Two lists of types with the same element views have the same view.
pub proof fn lemma_tys_view_ext(a: Seq<Type>, b: Seq<Type>)
    requires
        a.len() == b.len(),
        forall|j: int| 0 <= j < a.len() ==> (#[trigger] a[j])@ == b[j]@,
    ensures
        tys_view(a) == tys_view(b),
    decreases a.len(),
{
    if a.len() > 0 {
        lemma_tys_view_ext(a.drop_last(), b.drop_last());
    }
}

/// A constructor of a data type, with the types of its fields.
pub struct Cons {
    pub args: Vec<Type>,
}

/// A named algebraic data type; a constructor's tag is its position in `cons`.
pub struct DataDef {
    pub name: Name,
    pub cons: Vec<(Name, Cons)>,
}

/// A named type abbreviation.
pub struct TypeDef {
    pub name: Name,
    pub ty: Type,
}

pub open spec fn cons_view(c: Seq<(Name, Cons)>) -> Seq<(Seq<char>, Seq<Ty>)> {
    c.map_values(|p: (Name, Cons)| (p.0@, tys_view(p.1.args@)))
}

impl View for DataDef {
    type V = (Seq<char>, Seq<(Seq<char>, Seq<Ty>)>);

    open spec fn view(&self) -> (Seq<char>, Seq<(Seq<char>, Seq<Ty>)>) {
        (self.name@, cons_view(self.cons@))
    }
}

/// Copies a list of types.
pub fn copy_types(v: &Vec<Type>) -> (r: Vec<Type>)
    ensures
        tys_view(r@) == tys_view(v@),
{
    let mut r: Vec<Type> = Vec::new();
    let mut i: usize = 0;
    while i < v.len()
        invariant
            i <= v.len(),
            r.len() == i,
            forall|j: int| 0 <= j < i ==> (#[trigger] r@[j])@ == v@[j]@,
        decreases v.len() - i,
    {
        r.push(v[i].clone());
        i += 1;
    }
    proof {
        lemma_tys_view_ext(r@, v@);
    }
    r
}

impl Clone for Cons {
    fn clone(&self) -> (r: Cons)
        ensures
            tys_view(r.args@) == tys_view(self.args@),
    {
        Cons { args: copy_types(&self.args) }
    }
}

impl Clone for DataDef {
    fn clone(&self) -> (r: DataDef)
        ensures
            r@ == self@,
    {
        let mut cons: Vec<(Name, Cons)> = Vec::new();
        let mut i: usize = 0;
        while i < self.cons.len()
            invariant
                i <= self.cons.len(),
                cons.len() == i,
                forall|j: int| 0 <= j < i ==> (#[trigger] cons_view(cons@)[j]) == cons_view(self.cons@)[j],
            decreases self.cons.len() - i,
        {
            let ghost prev = cons@;
            cons.push((self.cons[i].0.clone(), self.cons[i].1.clone()));
            proof {
                assert forall|j: int| 0 <= j < i + 1 implies (#[trigger] cons_view(cons@)[j]) == cons_view(
                    self.cons@,
                )[j] by {
                    if j < i {
                        assert(cons@[j] == prev[j]);
                        assert(cons_view(prev)[j] == cons_view(cons@)[j]);
                    }
                }
            }
            i += 1;
        }
        let r = DataDef { name: self.name.clone(), cons };
        proof {
            assert(cons_view(r.cons@) =~= cons_view(self.cons@));
        }
        r
    }
}

pub enum Pattern {
    Var(Name, Type),
    Int(i64),
    Bool(bool),
    Data(DataDef, Name, Vec<Pattern>),
}

/// A sequence of top-level bindings ending in a simple expression.
pub enum Expr {
    Bind(Pattern, Simp, Box<Expr>),
    Simp(Simp),
}

pub enum Simp {
    FnDef(Rc<FnDef>),
    Match(Box<Simp>, Vec<(Pattern, Simp)>),
    FnCall(Box<Simp>, Vec<Simp>),
    Block(Box<Expr>),
    Ref(Name),
    Int(i64),
    Bool(bool),
    Unit,
    Data(Name, Vec<Simp>),
}

pub struct FnDef {
    pub args: Vec<(Name, Type)>,
    pub body: Box<Simp>,
    pub ret: Type,
}

pub struct Program {
    pub data_defs: Vec<DataDef>,
    pub expr: Option<Expr>,
}

/// The names a pattern binds, with their annotated types, left to right.
pub open spec fn pat_binds(p: Pattern) -> Seq<(Seq<char>, Ty)>
    decreases p,
{
    match p {
        Pattern::Var(n, t) => seq![(n@, t@)],
        Pattern::Data(_, _, pats) => pats_binds(pats@),
        _ => Seq::empty(),
    }
}

/// The bindings of a list of patterns, concatenated in order.
pub open spec fn pats_binds(ps: Seq<Pattern>) -> Seq<(Seq<char>, Ty)>
    decreases ps,
{
    if ps.len() == 0 {
        Seq::empty()
    } else {
        pats_binds(ps.drop_last()) + pat_binds(ps.last())
    }
}

/// The views of a list of name and type pairs.
pub open spec fn pairs_view(v: Seq<(Name, Type)>) -> Seq<(Seq<char>, Ty)> {
    v.map_values(|p: (Name, Type)| (p.0@, p.1@))
}

impl Pattern {
    pub fn bindings(&self) -> (r: Vec<(Name, Type)>)
        ensures
            pairs_view(r@) == pat_binds(*self),
        decreases self,
    {
        match self {
            Pattern::Var(name, ty) => {
                let r = vec![(name.clone(), ty.clone())];
                proof {
                    assert(pairs_view(r@) =~= pat_binds(*self));
                }
                r
            },
            Pattern::Int(_) => {
                let r: Vec<(Name, Type)> = Vec::new();
                proof {
                    assert(pairs_view(r@) =~= pat_binds(*self));
                }
                r
            },
            Pattern::Bool(_) => {
                let r: Vec<(Name, Type)> = Vec::new();
                proof {
                    assert(pairs_view(r@) =~= pat_binds(*self));
                }
                r
            },
            Pattern::Data(_, _, pats) => {
                let mut r: Vec<(Name, Type)> = Vec::new();
                let mut i: usize = 0;
                while i < pats.len()
                    invariant
                        self is Data,
                        self->Data_2 == *pats,
                        i <= pats.len(),
                        pairs_view(r@) == pats_binds(pats@.subrange(0, i as int)),
                    decreases pats.len() - i,
                {
                    proof {
                        assert(decreases_to!(*self => self->Data_2));
                        assert(decreases_to!(*pats => pats@));
                        assert(decreases_to!(pats@ => pats@[i as int]));
                    }
                    let mut b = pats[i].bindings();
                    let ghost old_r = r@;
                    r.append(&mut b);
                    proof {
                        let sub = pats@.subrange(0, i as int + 1);
                        assert(sub.drop_last() =~= pats@.subrange(0, i as int));
                        assert(pairs_view(r@) =~= pairs_view(old_r) + pat_binds(pats@[i as int]));
                    }
                    i += 1;
                }
                proof {
                    assert(pats@.subrange(0, pats.len() as int) =~= pats@);
                }
                r
            },
        }
    }
}

} // verus!
