use cpsml::ast::{Cons, DataDef, Expr, FnDef, Name, Pattern, Program, Simp, Type};
use cpsml::ast_to_cps::AstToCps;
use cpsml::checker::TypeChecker;
use cpsml::cps::{CntDef, CpsExpr, FunDef, LitHigh};
use cpsml::interp::{eval_prog, Value};
use cpsml::passes::{shrink, Shrinking, TreePass};
use std::collections::HashMap;
use std::rc::Rc;

fn n(s: &str) -> Name {
    Name::new(s)
}

fn r(s: &str) -> Simp {
    Simp::Ref(n(s))
}

fn call(f: Simp, args: Vec<Simp>) -> Simp {
    Simp::FnCall(Box::new(f), args)
}

fn op(o: &str, a: Simp, b: Simp) -> Simp {
    call(r(o), vec![a, b])
}

fn var(tc: &mut TypeChecker, x: &str) -> Pattern {
    Pattern::Var(n(x), tc.fresh_tv())
}

fn bind(p: Pattern, rhs: Simp, body: Expr) -> Expr {
    Expr::Bind(p, rhs, Box::new(body))
}

fn func(tc: &mut TypeChecker, args: &[&str], body: Simp) -> Simp {
    let args = args.iter().map(|a| (n(a), tc.fresh_tv())).collect();
    let ret = tc.fresh_tv();
    Simp::FnDef(Rc::new(FnDef { args, body: Box::new(body), ret }))
}

fn maybe() -> DataDef {
    DataDef {
        name: n("Maybe"),
        cons: vec![(n("Some"), Cons { args: vec![Type::Int] }), (n("None"), Cons { args: vec![] })],
    }
}

#[derive(Clone)]
enum CVal {
    Int(i64),
    Data(i64, Vec<CVal>),
    Fun(Rc<FunDef<LitHigh>>, Env),
    Cnt(Rc<CntDef<LitHigh>>, Env),
}

type Env = HashMap<String, CVal>;

/// Runs a CPS program and gives the integer that reaches `halt`.
fn run_cps(e: &CpsExpr<LitHigh>) -> i64 {
    let mut env: Env = HashMap::new();
    let mut cur = e.clone_tree();
    for _ in 0..100000 {
        match step(cur, &mut env) {
            Step::Done(v) => return v,
            Step::Go(next, nenv) => {
                cur = next;
                env = nenv;
            }
        }
    }
    panic!("CPS program did not halt")
}

enum Step {
    Done(i64),
    Go(CpsExpr<LitHigh>, Env),
}

trait CloneTree {
    fn clone_tree(&self) -> Self;
}

impl CloneTree for CpsExpr<LitHigh> {
    fn clone_tree(&self) -> Self {
        match self {
            CpsExpr::Const { name, value, body } => CpsExpr::Const { name: name.clone(), value: *value, body: Box::new(body.clone_tree()) },
            CpsExpr::Prim { name, op, args, body } => CpsExpr::Prim { name: name.clone(), op: op.clone(), args: args.clone(), body: Box::new(body.clone_tree()) },
            CpsExpr::Cnts { cnts, body } => CpsExpr::Cnts {
                cnts: cnts.iter().map(|c| CntDef { name: c.name.clone(), args: c.args.clone(), body: c.body.clone_tree() }).collect(),
                body: Box::new(body.clone_tree()),
            },
            CpsExpr::Funs { funs, body } => CpsExpr::Funs {
                funs: funs.iter().map(|f| FunDef { name: f.name.clone(), ret: f.ret.clone(), args: f.args.clone(), body: f.body.clone_tree() }).collect(),
                body: Box::new(body.clone_tree()),
            },
            CpsExpr::AppC { cnt, args } => CpsExpr::AppC { cnt: cnt.clone(), args: args.clone() },
            CpsExpr::AppF { fun, ret, args } => CpsExpr::AppF { fun: fun.clone(), ret: ret.clone(), args: args.clone() },
            CpsExpr::If { op, args, t, f } => CpsExpr::If { op: op.clone(), args: args.clone(), t: t.clone(), f: f.clone() },
            CpsExpr::Halt(x) => CpsExpr::Halt(x.clone()),
        }
    }
}

fn int_of(env: &Env, x: &Name) -> i64 {
    match env.get(&x.0) {
        Some(CVal::Int(i)) => *i,
        other => panic!("{} is not an integer: {:?}", x.0, other.is_some()),
    }
}

fn prim(op: &str, a: &[i64]) -> i64 {
    match op {
        "+" => a[0] + a[1],
        "-" => a[0] - a[1],
        "*" => a[0] * a[1],
        "/" => a[0] / a[1],
        "%" => a[0] % a[1],
        "==" => (a[0] == a[1]) as i64,
        "!=" => (a[0] != a[1]) as i64,
        "<" => (a[0] < a[1]) as i64,
        ">" => (a[0] > a[1]) as i64,
        "<=" => (a[0] <= a[1]) as i64,
        ">=" => (a[0] >= a[1]) as i64,
        "&&" => a[0] & a[1],
        "||" => a[0] | a[1],
        "~" => !a[0],
        "!" => (a[0] <= 0) as i64,
        _ => panic!("unknown primitive {}", op),
    }
}

fn jump(env: &Env, target: &Name, vals: Vec<CVal>) -> Step {
    match env.get(&target.0) {
        Some(CVal::Cnt(c, cenv)) => {
            let mut nenv = cenv.clone();
            nenv.insert(c.name.0.clone(), CVal::Cnt(c.clone(), cenv.clone()));
            for (a, v) in c.args.iter().zip(vals) {
                nenv.insert(a.0.clone(), v);
            }
            Step::Go(c.body.clone_tree(), nenv)
        }
        _ => panic!("no continuation {}", target.0),
    }
}

fn step(e: CpsExpr<LitHigh>, env: &mut Env) -> Step {
    match e {
        CpsExpr::Const { name, value: LitHigh::Int(v), body } => {
            env.insert(name.0, CVal::Int(v));
            Step::Go(*body, env.clone())
        }
        CpsExpr::Prim { name, op, args, body } => {
            let v = match op.0.as_str() {
                "id" => env[&args[0].0].clone(),
                "data" => CVal::Data(int_of(env, &args[0]), args[1..].iter().map(|a| env[&a.0].clone()).collect()),
                "desc" => match &env[&args[0].0] {
                    CVal::Data(t, _) => CVal::Int(*t),
                    _ => panic!("desc of a non-constructor"),
                },
                "field" => match &env[&args[0].0] {
                    CVal::Data(_, fs) => fs[int_of(env, &args[1]) as usize].clone(),
                    _ => panic!("field of a non-constructor"),
                },
                o => CVal::Int(prim(o, &args.iter().map(|a| int_of(env, a)).collect::<Vec<_>>())),
            };
            env.insert(name.0, v);
            Step::Go(*body, env.clone())
        }
        CpsExpr::Cnts { cnts, body } => {
            let base = env.clone();
            for c in cnts {
                env.insert(c.name.0.clone(), CVal::Cnt(Rc::new(c), base.clone()));
            }
            Step::Go(*body, env.clone())
        }
        CpsExpr::Funs { funs, body } => {
            let base = env.clone();
            for f in funs {
                env.insert(f.name.0.clone(), CVal::Fun(Rc::new(f), base.clone()));
            }
            Step::Go(*body, env.clone())
        }
        CpsExpr::AppC { cnt, args } => {
            if cnt.0 == "halt" {
                panic!("pattern match failure");
            }
            let vals = args.iter().map(|a| env[&a.0].clone()).collect();
            jump(env, &cnt, vals)
        }
        CpsExpr::AppF { fun, ret, args } => {
            let (f, fenv) = match &env[&fun.0] {
                CVal::Fun(f, fenv) => (f.clone(), fenv.clone()),
                _ => panic!("not a function"),
            };
            let mut nenv = fenv.clone();
            nenv.insert(f.name.0.clone(), CVal::Fun(f.clone(), fenv.clone()));
            nenv.insert(f.ret.0.clone(), env[&ret.0].clone());
            for (a, v) in f.args.iter().zip(args.iter()) {
                nenv.insert(a.0.clone(), env[&v.0].clone());
            }
            Step::Go(f.body.clone_tree(), nenv)
        }
        CpsExpr::If { op, args, t, f } => {
            let v = prim(&op.0, &args.iter().map(|a| int_of(env, a)).collect::<Vec<_>>());
            let target = if v > 0 { t } else { f };
            if target.0 == "halt" {
                panic!("pattern match failure");
            }
            jump(env, &target, vec![])
        }
        CpsExpr::Halt(x) => Step::Done(int_of(env, &x)),
    }
}

fn count_consts(e: &CpsExpr<LitHigh>, v: i64) -> usize {
    match e {
        CpsExpr::Const { value: LitHigh::Int(x), body, .. } => (*x == v) as usize + count_consts(body, v),
        CpsExpr::Prim { body, .. } => count_consts(body, v),
        CpsExpr::Cnts { cnts, body } => cnts.iter().map(|c| count_consts(&c.body, v)).sum::<usize>() + count_consts(body, v),
        CpsExpr::Funs { funs, body } => funs.iter().map(|f| count_consts(&f.body, v)).sum::<usize>() + count_consts(body, v),
        _ => 0,
    }
}

fn count_prims(e: &CpsExpr<LitHigh>, op: &str) -> usize {
    match e {
        CpsExpr::Const { body, .. } => count_prims(body, op),
        CpsExpr::Prim { op: o, body, .. } => (o.0 == op) as usize + count_prims(body, op),
        CpsExpr::Cnts { cnts, body } => cnts.iter().map(|c| count_prims(&c.body, op)).sum::<usize>() + count_prims(body, op),
        CpsExpr::Funs { funs, body } => funs.iter().map(|f| count_prims(&f.body, op)).sum::<usize>() + count_prims(body, op),
        _ => 0,
    }
}

fn count_ifs(e: &CpsExpr<LitHigh>) -> usize {
    match e {
        CpsExpr::Const { body, .. } | CpsExpr::Prim { body, .. } => count_ifs(body),
        CpsExpr::Cnts { cnts, body } => cnts.iter().map(|c| count_ifs(&c.body)).sum::<usize>() + count_ifs(body),
        CpsExpr::Funs { funs, body } => funs.iter().map(|f| count_ifs(&f.body)).sum::<usize>() + count_ifs(body),
        CpsExpr::If { .. } => 1,
        _ => 0,
    }
}

/// Type checks, interprets, lowers and shrinks a program built by `make`.
fn pipeline(make: impl Fn(&mut TypeChecker) -> Program) -> (Value, CpsExpr<LitHigh>, CpsExpr<LitHigh>) {
    let mut tc = TypeChecker::new();
    let program = make(&mut tc);
    let typed = tc.infer(program).ok().expect("type error");
    let value = eval_prog(&typed, 10000).ok().expect("evaluation error");
    let cps = AstToCps::convert(typed).ok().expect("lowering error");
    let small = shrink(convert_again(&cps));
    assert!(small.len() <= cps.len());
    let again = Shrinking::new().apply(small.clone_tree());
    assert_eq!(again.len(), small.len());
    (value, cps, small)
}

fn convert_again(e: &CpsExpr<LitHigh>) -> CpsExpr<LitHigh> {
    e.clone_tree()
}

fn int_value(v: &Value) -> i64 {
    match v {
        Value::Int(i) => *i,
        _ => panic!("not an integer"),
    }
}

#[test]
fn precedence_of_operators() {
    let (v, cps, small) = pipeline(|tc| {
        let x = var(tc, "x");
        Program {
            data_defs: vec![],
            expr: Some(bind(x, op("+", Simp::Int(1), op("*", Simp::Int(2), Simp::Int(3))), Expr::Simp(r("x")))),
        }
    });
    assert_eq!(int_value(&v), 7);
    assert_eq!(run_cps(&cps), 7);
    assert_eq!(run_cps(&small), 7);
}

#[test]
fn call_of_user_function() {
    let (v, cps, small) = pipeline(|tc| {
        let f = var(tc, "f");
        let def = func(tc, &["a", "b"], op("+", r("a"), r("b")));
        Program {
            data_defs: vec![],
            expr: Some(bind(f, def, Expr::Simp(call(r("f"), vec![Simp::Int(3), Simp::Int(4)])))),
        }
    });
    assert_eq!(int_value(&v), 7);
    assert_eq!(run_cps(&cps), 7);
    assert_eq!(run_cps(&small), 7);
}

#[test]
fn recursive_factorial() {
    let (v, cps, small) = pipeline(|tc| {
        let fact = var(tc, "fact");
        let any = Pattern::Var(n("_"), Type::Int);
        let body = Simp::Match(
            Box::new(r("n")),
            vec![
                (Pattern::Int(0), Simp::Int(1)),
                (any, op("*", r("n"), call(r("fact"), vec![op("-", r("n"), Simp::Int(1))]))),
            ],
        );
        let def = func(tc, &["n"], body);
        Program {
            data_defs: vec![],
            expr: Some(bind(fact, def, Expr::Simp(call(r("fact"), vec![Simp::Int(5)])))),
        }
    });
    assert_eq!(int_value(&v), 120);
    assert_eq!(run_cps(&cps), 120);
    assert_eq!(run_cps(&small), 120);
}

#[test]
fn constructor_and_match() {
    let (v, cps, small) = pipeline(|tc| {
        let vv = var(tc, "v");
        let scrut = Simp::Match(
            Box::new(r("v")),
            vec![
                (Pattern::Data(maybe(), n("Some"), vec![Pattern::Var(n("x"), Type::Int)]), r("x")),
                (Pattern::Data(maybe(), n("None"), vec![]), Simp::Int(-1)),
            ],
        );
        Program {
            data_defs: vec![maybe()],
            expr: Some(bind(vv, Simp::Data(n("Some"), vec![Simp::Int(7)]), Expr::Simp(scrut))),
        }
    });
    assert_eq!(int_value(&v), 7);
    assert_eq!(run_cps(&cps), 7);
    assert_eq!(run_cps(&small), 7);
}

#[test]
fn constant_branch_collapses() {
    let (v, cps, small) = pipeline(|_| Program {
        data_defs: vec![],
        expr: Some(Expr::Simp(Simp::Match(
            Box::new(Simp::Bool(true)),
            vec![(Pattern::Bool(true), Simp::Int(1)), (Pattern::Bool(false), Simp::Int(2))],
        ))),
    });
    assert_eq!(int_value(&v), 1);
    assert_eq!(run_cps(&cps), 1);
    assert_eq!(run_cps(&small), 1);
    assert!(count_ifs(&cps) > 0);
    assert_eq!(count_ifs(&small), 0);
}

#[test]
fn common_constants_merge() {
    let (v, cps, small) = pipeline(|tc| {
        let a = var(tc, "a");
        let b = var(tc, "b");
        Program {
            data_defs: vec![],
            expr: Some(bind(a, Simp::Int(2), bind(b, Simp::Int(2), Expr::Simp(op("+", r("a"), r("b")))))),
        }
    });
    assert_eq!(int_value(&v), 4);
    assert_eq!(run_cps(&cps), 4);
    assert_eq!(run_cps(&small), 4);
    assert_eq!(count_consts(&cps, 2), 2);
    assert_eq!(count_consts(&small, 2), 1);
    assert_eq!(count_prims(&small, "+"), 0);
    assert_eq!(count_consts(&small, 4), 1);
}
