use cpsml::ast::{Expr, FnDef, Name, Pattern, Program, Simp, Type};
use cpsml::ast_to_cps::{AstToCps, LowerError};
use cpsml::builtins::{add, and, bnot, div, eq, ge, gt, le, lt, mod_, mul, neq, not, or, sub};
use cpsml::checker::{TySubst, TypeChecker, TypeError};
use cpsml::cps::{CpsExpr, LitHigh, Subst, Substitutable};
use cpsml::interp::{eval_prog, Env, EvalError, Store, Value};
use cpsml::passes::{eval_op, shrink, Shrinking, TreePass};
use cpsml::preproc::preprocess;
use std::rc::Rc;

fn n(s: &str) -> Name {
    Name::new(s)
}

fn r(s: &str) -> Simp {
    Simp::Ref(n(s))
}

fn call(f: Simp, args: Vec<Simp>) -> Simp {
    Simp::FnCall(Box::new(f), args)
}

fn op(o: &str, a: Simp, b: Simp) -> Simp {
    call(r(o), vec![a, b])
}

fn prog(e: Expr) -> Program {
    Program { data_defs: vec![], expr: Some(e) }
}

fn ints(v: &[i64]) -> Vec<Value> {
    v.iter().map(|i| Value::Int(*i)).collect()
}

fn as_int(v: Result<Value, EvalError>) -> i64 {
    match v {
        Ok(Value::Int(i)) => i,
        _ => panic!("not an integer"),
    }
}

fn as_bool(v: Result<Value, EvalError>) -> bool {
    match v {
        Ok(Value::Bool(b)) => b,
        _ => panic!("not a boolean"),
    }
}

fn has_tyvar(t: &Type) -> bool {
    match t {
        Type::TyVar(_) => true,
        Type::Fn(args, ret) => args.iter().any(has_tyvar) || has_tyvar(ret),
        _ => false,
    }
}

fn halt_value(e: &CpsExpr<LitHigh>) -> CpsExpr<LitHigh> {
    match e {
        CpsExpr::Const { name, value, body } => CpsExpr::Const { name: name.clone(), value: *value, body: Box::new(halt_value(body)) },
        CpsExpr::Halt(x) => CpsExpr::Halt(x.clone()),
        _ => panic!("not straight-line"),
    }
}

#[test]
fn builtins_compute() {
    assert_eq!(as_int(add(ints(&[2, 3]))), 5);
    assert_eq!(as_int(sub(ints(&[2, 3]))), -1);
    assert_eq!(as_int(mul(ints(&[4, 3]))), 12);
    assert_eq!(as_int(div(ints(&[7, 2]))), 3);
    assert_eq!(as_int(div(ints(&[-7, 2]))), -3);
    assert_eq!(as_int(mod_(ints(&[7, 3]))), 1);
    assert_eq!(as_int(bnot(ints(&[5]))), -6);
    assert!(as_bool(eq(ints(&[3, 3]))));
    assert!(as_bool(neq(ints(&[3, 4]))));
    assert!(as_bool(lt(ints(&[3, 4]))));
    assert!(!as_bool(gt(ints(&[3, 4]))));
    assert!(as_bool(le(ints(&[4, 4]))));
    assert!(as_bool(ge(ints(&[4, 4]))));
    assert!(!as_bool(and(vec![Value::Bool(true), Value::Bool(false)])));
    assert!(as_bool(or(vec![Value::Bool(true), Value::Bool(false)])));
    assert!(as_bool(not(vec![Value::Bool(false)])));
}

#[test]
fn builtins_reject_bad_operands() {
    assert!(matches!(add(ints(&[1])), Err(EvalError::TypeMismatch)));
    assert!(matches!(and(ints(&[1, 2])), Err(EvalError::TypeMismatch)));
    assert!(matches!(div(ints(&[1, 0])), Err(EvalError::Arith)));
    assert!(matches!(add(ints(&[i64::MAX, 1])), Err(EvalError::Arith)));
}

#[test]
fn folding_of_primitives() {
    let lit = |v: i64| LitHigh::Int(v);
    assert!(eval_op(&n("+"), &vec![lit(2), lit(2)]) == Some(lit(4)));
    assert!(eval_op(&n("<"), &vec![lit(1), lit(2)]) == Some(lit(1)));
    assert!(eval_op(&n(">="), &vec![lit(1), lit(2)]) == Some(lit(0)));
    assert!(eval_op(&n("&&"), &vec![lit(1), lit(0)]) == Some(lit(0)));
    assert!(eval_op(&n("!"), &vec![lit(0)]) == Some(lit(1)));
    assert!(eval_op(&n("~"), &vec![lit(0)]) == Some(lit(-1)));
    assert!(eval_op(&n("id"), &vec![lit(9)]) == Some(lit(9)));
    assert!(eval_op(&n("/"), &vec![lit(1), lit(0)]) == None);
    assert!(eval_op(&n("data"), &vec![lit(1)]) == None);
}

#[test]
fn identity_substitution_changes_nothing() {
    let t = Type::Fn(vec![Type::TyVar(3), Type::Int], Box::new(Type::TyVar(4)));
    let u = TySubst::new().apply(Type::Fn(vec![Type::TyVar(3), Type::Int], Box::new(Type::TyVar(4))));
    assert!(cpsml::checker::ty_eq(&t, &u));
}

#[test]
fn substitution_applies_and_composes() {
    let s = TySubst::singleton(1, Type::Int);
    assert!(cpsml::checker::ty_eq(&s.apply(Type::TyVar(1)), &Type::Int));
    assert!(cpsml::checker::ty_eq(&s.apply(Type::TyVar(2)), &Type::TyVar(2)));
    let mut s = s;
    s.compose(TySubst::singleton(2, Type::TyVar(1)));
    assert!(cpsml::checker::ty_eq(&s.apply(Type::TyVar(2)), &Type::Int));
}

#[test]
fn inferred_types_are_resolved() {
    let mut tc = TypeChecker::new();
    let x = Pattern::Var(n("x"), tc.fresh_tv());
    let f = Pattern::Var(n("f"), tc.fresh_tv());
    let a = tc.fresh_tv();
    let ret = tc.fresh_tv();
    let def = Simp::FnDef(Rc::new(FnDef { args: vec![(n("a"), a)], body: Box::new(op("+", r("a"), Simp::Int(1))), ret }));
    let p = prog(Expr::Bind(
        f,
        def,
        Box::new(Expr::Bind(x, call(r("f"), vec![Simp::Int(2)]), Box::new(Expr::Simp(r("x"))))),
    ));
    let typed = tc.infer(p).ok().expect("types");
    match &typed.expr {
        Some(Expr::Bind(Pattern::Var(_, tf), Simp::FnDef(fd), rest)) => {
            assert!(!has_tyvar(tf));
            assert!(!has_tyvar(&fd.ret));
            assert!(!has_tyvar(&fd.args[0].1));
            match &**rest {
                Expr::Bind(Pattern::Var(_, tx), _, _) => assert!(cpsml::checker::ty_eq(tx, &Type::Int)),
                _ => panic!("shape changed"),
            }
        }
        _ => panic!("shape changed"),
    }
}

#[test]
fn occurs_check_fails() {
    let mut tc = TypeChecker::new();
    let x = tc.fresh_tv();
    let ret = tc.fresh_tv();
    let f = Pattern::Var(n("f"), tc.fresh_tv());
    let def = Simp::FnDef(Rc::new(FnDef { args: vec![(n("x"), x)], body: Box::new(call(r("x"), vec![r("x")])), ret }));
    let p = prog(Expr::Bind(f, def, Box::new(Expr::Simp(Simp::Int(0)))));
    assert!(matches!(tc.infer(p), Err(TypeError::Recursive)));
}

#[test]
fn type_errors() {
    let mut tc = TypeChecker::new();
    assert!(matches!(tc.infer(prog(Expr::Simp(r("nowhere")))), Err(TypeError::Unbound)));
    assert!(matches!(tc.infer(prog(Expr::Simp(op("+", Simp::Int(1), Simp::Bool(true))))), Err(TypeError::CannotUnify)));
    assert!(matches!(tc.infer(prog(Expr::Simp(Simp::Data(n("Nope"), vec![])))), Err(TypeError::UnknownCons)));
    assert!(matches!(tc.infer(Program { data_defs: vec![], expr: None }), Err(TypeError::NoExpr)));
    assert!(matches!(tc.infer(prog(Expr::Simp(Simp::Match(Box::new(Simp::Int(1)), vec![])))), Err(TypeError::EmptyMatch)));
    let ret = tc.fresh_tv();
    let def = Simp::FnDef(Rc::new(FnDef { args: vec![], body: Box::new(Simp::Int(1)), ret }));
    let x = tc.fresh_tv();
    let never = Simp::FnDef(Rc::new(FnDef { args: vec![(n("y"), x.clone())], body: Box::new(r("y")), ret: x }));
    assert!(matches!(tc.infer(prog(Expr::Simp(def))), Ok(_)));
    assert!(matches!(tc.infer(prog(Expr::Simp(call(never, vec![call(r("nowhere2"), vec![])])))), Err(TypeError::Unbound)));
}

#[test]
fn unresolved_root_type() {
    let mut tc = TypeChecker::new();
    let t = tc.fresh_tv();
    let p = prog(Expr::Bind(Pattern::Var(n("x"), t), Simp::Int(1), Box::new(Expr::Simp(Simp::Block(Box::new(Expr::Simp(r("x"))))))));
    assert!(tc.infer(p).is_ok());
    let mut tc = TypeChecker::new();
    let a = tc.fresh_tv();
    let ret = tc.fresh_tv();
    let id = Simp::FnDef(Rc::new(FnDef { args: vec![(n("a"), a)], body: Box::new(r("a")), ret }));
    let f = Pattern::Var(n("f"), tc.fresh_tv());
    let g = tc.fresh_tv();
    let p = prog(Expr::Bind(f, id, Box::new(Expr::Simp(call(r("f"), vec![Simp::Block(Box::new(Expr::Bind(Pattern::Var(n("z"), g.clone()), r("z"), Box::new(Expr::Simp(r("z"))))))])))));
    assert!(matches!(tc.infer(p), Err(TypeError::Unresolved)));
}

#[test]
fn evaluation_errors() {
    assert!(matches!(eval_prog(&prog(Expr::Simp(call(Simp::Int(1), vec![]))), 10), Err(EvalError::NotCallable)));
    assert!(matches!(eval_prog(&prog(Expr::Simp(r("nowhere"))), 10), Err(EvalError::Unbound)));
    assert!(matches!(
        eval_prog(&prog(Expr::Simp(Simp::Match(Box::new(Simp::Int(1)), vec![(Pattern::Int(2), Simp::Int(0))]))), 10),
        Err(EvalError::NoMatch)
    ));
    assert!(matches!(
        eval_prog(&prog(Expr::Bind(Pattern::Var(n("x"), Type::Int), r("x"), Box::new(Expr::Simp(r("x"))))), 10),
        Err(EvalError::Uninitialised)
    ));
    assert!(matches!(eval_prog(&prog(Expr::Simp(op("+", Simp::Int(1), Simp::Bool(true)))), 10), Err(EvalError::TypeMismatch)));
    assert!(matches!(eval_prog(&prog(Expr::Simp(op("/", Simp::Int(1), Simp::Int(0)))), 10), Err(EvalError::Arith)));
    let f = Simp::FnDef(Rc::new(FnDef { args: vec![(n("a"), Type::Int)], body: Box::new(r("a")), ret: Type::Int }));
    assert!(matches!(eval_prog(&prog(Expr::Simp(call(f, vec![]))), 10), Err(EvalError::Arity)));
    let loop_body = call(r("f"), vec![]);
    let f = Simp::FnDef(Rc::new(FnDef { args: vec![], body: Box::new(loop_body), ret: Type::Int }));
    let p = prog(Expr::Bind(Pattern::Var(n("f"), Type::Int), f, Box::new(Expr::Simp(call(r("f"), vec![])))));
    assert!(matches!(eval_prog(&p, 50), Err(EvalError::OutOfFuel)));
}

#[test]
fn lowering_errors() {
    assert!(matches!(AstToCps::convert(prog(Expr::Simp(Simp::Unit))), Err(LowerError::Unit)));
    assert!(matches!(AstToCps::convert(Program { data_defs: vec![], expr: None }), Err(LowerError::NoExpr)));
    assert!(matches!(AstToCps::convert(prog(Expr::Simp(Simp::Data(n("Nope"), vec![])))), Err(LowerError::UnknownCons)));
}

#[test]
fn fresh_names_count_per_prefix() {
    let cps = AstToCps::convert(prog(Expr::Simp(op("+", Simp::Int(1), Simp::Int(2))))).ok().expect("lowers");
    match cps {
        CpsExpr::Const { name, body, .. } => {
            assert_eq!(name.0, "c$1");
            match *body {
                CpsExpr::Const { name, body, .. } => {
                    assert_eq!(name.0, "c$2");
                    match *body {
                        CpsExpr::Prim { name, op, args, .. } => {
                            assert_eq!(name.0, "prim$1");
                            assert_eq!(op.0, "+");
                            assert_eq!(args.len(), 2);
                        }
                        _ => panic!("expected a primitive"),
                    }
                }
                _ => panic!("expected a constant"),
            }
        }
        _ => panic!("expected a constant"),
    }
}

#[test]
fn free_names_are_operators_or_halt() {
    let allowed = ["+", "-", "*", "/", "%", "~", "==", "!=", "<", ">", "<=", ">=", "&&", "||", "!", "id", "data", "desc", "field", "halt"];
    let body = Simp::Match(Box::new(r("n")), vec![(Pattern::Int(0), Simp::Int(1)), (Pattern::Var(n("_"), Type::Int), op("*", r("n"), call(r("fact"), vec![op("-", r("n"), Simp::Int(1))])))]);
    let def = Simp::FnDef(Rc::new(FnDef { args: vec![(n("n"), Type::Int)], body: Box::new(body), ret: Type::Int }));
    let p = prog(Expr::Bind(Pattern::Var(n("fact"), Type::Int), def, Box::new(Expr::Simp(call(r("fact"), vec![Simp::Int(5)])))));
    let cps = AstToCps::convert(p).ok().expect("lowers");
    for name in cps.free() {
        assert!(allowed.contains(&name.0.as_str()), "free name {}", name.0);
    }
    assert!(shrink(cps).free().iter().all(|x| allowed.contains(&x.0.as_str())));
}

#[test]
fn shrinking_never_grows_and_settles() {
    let e = prog(Expr::Bind(
        Pattern::Var(n("a"), Type::Int),
        Simp::Int(2),
        Box::new(Expr::Bind(Pattern::Var(n("b"), Type::Int), Simp::Int(2), Box::new(Expr::Simp(op("+", r("a"), r("b")))))),
    ));
    let cps = AstToCps::convert(e).ok().expect("lowers");
    let before = cps.len();
    let small = shrink(cps);
    assert!(small.len() <= before);
    assert!(small.len() < before);
    let again = Shrinking::new().apply(halt_value(&small));
    assert_eq!(again.len(), small.len());
}

#[test]
fn renaming_follows_chains() {
    let mut s = Subst::one(n("a"), n("b"));
    s.insert(n("b"), n("c"));
    assert_eq!(s.apply(&n("a")).0, "c");
    assert_eq!(s.apply(&n("b")).0, "c");
    assert_eq!(s.apply(&n("z")).0, "z");
    let e: CpsExpr<LitHigh> = CpsExpr::Const { name: n("a"), value: LitHigh::Int(1), body: Box::new(CpsExpr::Halt(n("a"))) };
    match e.subst(&s) {
        CpsExpr::Const { name, body, .. } => {
            assert_eq!(name.0, "a");
            match *body {
                CpsExpr::Halt(x) => assert_eq!(x.0, "c"),
                _ => panic!("shape changed"),
            }
        }
        _ => panic!("shape changed"),
    }
    assert!(Subst::new().map.is_empty());
}

#[test]
fn line_comments_are_removed() {
    assert_eq!(preprocess("a // note\nb".to_string()), "a \nb");
    assert_eq!(preprocess("x / y // end".to_string()), "x / y ");
    assert_eq!(preprocess("".to_string()), "");
}

#[test]
fn values_are_written() {
    assert_eq!(Value::Int(42).to_text(), "42");
    assert_eq!(Value::Int(-7).to_text(), "-7");
    assert_eq!(Value::Int(i64::MIN).to_text(), "-9223372036854775808");
    assert_eq!(Value::Bool(true).to_text(), "true");
    assert_eq!(Value::Unit.to_text(), "()");
    let v = Value::Data(n("Pair"), vec![Value::Int(1), Value::Data(n("None"), vec![])]);
    assert_eq!(v.to_text(), "Pair(1, None())");
}

#[test]
fn call_variables_are_new_to_the_program() {
    // A placeholder `T0` made without the checker's counter: the variable of the call to `+`
    // must not coincide with it.
    let mut tc = TypeChecker::new();
    let p = prog(Expr::Bind(
        Pattern::Var(n("b"), Type::TyVar(0)),
        Simp::Bool(true),
        Box::new(Expr::Simp(op("+", Simp::Int(1), Simp::Int(2)))),
    ));
    let typed = tc.infer(p).ok().expect("types");
    match &typed.expr {
        Some(Expr::Bind(Pattern::Var(_, t), _, _)) => assert!(cpsml::checker::ty_eq(t, &Type::Bool)),
        _ => panic!("shape changed"),
    }
}

#[test]
fn late_binding_takes_a_new_cell() {
    let mut store = Store::new();
    let env = Env::new(&mut store);
    let before = store.cells.len();
    let old_cells: Vec<usize> = env.bindings.iter().map(|b| b.1).collect();
    let env = env.bind_late(&mut store, n("x"));
    let (name, cell) = env.bindings.last().expect("bound");
    assert_eq!(name.0, "x");
    assert_eq!(*cell, before);
    assert!(!old_cells.contains(cell));
    assert!(store.cells[*cell].is_none());
    assert!(old_cells.iter().all(|c| *c < before));
}

#[test]
fn unification_rejects_recursive_types() {
    use_unify_case(true);
    use_unify_case(false);
}

fn use_unify_case(var_left: bool) {
    let f = Type::Fn(vec![Type::Int, Type::TyVar(5)], Box::new(Type::Bool));
    let c = if var_left {
        cpsml::checker::TyConstraint(Type::TyVar(5), f)
    } else {
        cpsml::checker::TyConstraint(f, Type::TyVar(5))
    };
    assert!(matches!(cpsml::checker::unify(vec![c]), Err(TypeError::Recursive)));
}

#[test]
fn unification_solves_equations() {
    let cs = vec![
        cpsml::checker::TyConstraint(Type::TyVar(1), Type::Fn(vec![Type::TyVar(2)], Box::new(Type::Int))),
        cpsml::checker::TyConstraint(Type::TyVar(2), Type::Bool),
    ];
    let s = cpsml::checker::unify(cs).ok().expect("solvable");
    let expect = Type::Fn(vec![Type::Bool], Box::new(Type::Int));
    assert!(cpsml::checker::ty_eq(&s.apply(Type::TyVar(1)), &expect));
    assert!(cpsml::checker::ty_eq(&s.apply(Type::TyVar(2)), &Type::Bool));
}

#[test]
fn identity_substitution_keeps_programs() {
    let p = prog(Expr::Bind(Pattern::Var(n("x"), Type::TyVar(7)), Simp::Int(1), Box::new(Expr::Simp(r("x")))));
    let q = cpsml::checker::apply_subst_program(&TySubst::new(), p);
    match &q.expr {
        Some(Expr::Bind(Pattern::Var(x, t), Simp::Int(1), body)) => {
            assert_eq!(x.0, "x");
            assert!(cpsml::checker::ty_eq(t, &Type::TyVar(7)));
            assert!(matches!(&**body, Expr::Simp(Simp::Ref(y)) if y.0 == "x"));
        }
        _ => panic!("shape changed"),
    }
}

#[test]
fn let_bound_functions_get_fresh_names() {
    let def = Simp::FnDef(Rc::new(FnDef { args: vec![(n("a"), Type::Int)], body: Box::new(r("a")), ret: Type::Int }));
    let p = prog(Expr::Bind(Pattern::Var(n("f"), Type::Int), def, Box::new(Expr::Simp(call(r("f"), vec![Simp::Int(1)])))));
    match AstToCps::convert(p).ok().expect("lowers") {
        CpsExpr::Funs { funs, body } => {
            assert_eq!(funs[0].name.0, "fn$1");
            match &funs[0].body {
                CpsExpr::Prim { name, op, args, .. } => {
                    assert_eq!(name.0, "f");
                    assert_eq!(op.0, "id");
                    assert_eq!(args[0].0, "fn$1");
                }
                _ => panic!("the body should bind the function's own name first"),
            }
            match *body {
                CpsExpr::Prim { name, args, .. } => {
                    assert_eq!(name.0, "f");
                    assert_eq!(args[0].0, "fn$1");
                }
                _ => panic!("the pattern binds the function's value"),
            }
        }
        _ => panic!("expected a function definition"),
    }
}

#[test]
fn orientation_of_equations_does_not_matter() {
    use_orientation(Type::TyVar(0), Type::TyVar(1));
    use_orientation(Type::Fn(vec![Type::TyVar(2)], Box::new(Type::Int)), Type::Fn(vec![Type::Bool], Box::new(Type::TyVar(3))));
}

fn use_orientation(a: Type, b: Type) {
    let s1 = cpsml::checker::unify(vec![cpsml::checker::TyConstraint(a.clone(), b.clone())]).ok().expect("solvable");
    let s2 = cpsml::checker::unify(vec![cpsml::checker::TyConstraint(b.clone(), a.clone())]).ok().expect("solvable");
    for t in [a, b] {
        assert!(cpsml::checker::ty_eq(&s1.apply(t.clone()), &s1.apply(s2.apply(t.clone()))));
        assert!(cpsml::checker::ty_eq(&s2.apply(t.clone()), &s2.apply(s1.apply(t))));
    }
}
