use crate::ast::{lemma_op_spellings, Name};
use crate::interp::{lemma_vals_view_index, res_view, vals_view, EvalError, Val, Value};
use vstd::prelude::*;

verus! {

pub open spec fn int_result(r: Option<i64>) -> Result<Val, EvalError> {
    match r {
        Some(x) => Ok(Val::Int(x)),
        None => Err(EvalError::Arith),
    }
}

/// Integer operators: arithmetic fails on overflow and on division by zero.
pub open spec fn int_op(op: Seq<char>, x: i64, y: i64) -> Result<Val, EvalError> {
    if op == "+"@ {
        int_result(x.checked_add(y))
    } else if op == "-"@ {
        int_result(x.checked_sub(y))
    } else if op == "*"@ {
        int_result(x.checked_mul(y))
    } else if op == "/"@ {
        int_result(x.checked_div(y))
    } else if op == "%"@ {
        int_result(x.checked_rem(y))
    } else if op == "=="@ {
        Ok(Val::Bool(x == y))
    } else if op == "!="@ {
        Ok(Val::Bool(x != y))
    } else if op == "<"@ {
        Ok(Val::Bool(x < y))
    } else if op == ">"@ {
        Ok(Val::Bool(x > y))
    } else if op == "<="@ {
        Ok(Val::Bool(x <= y))
    } else {
        Ok(Val::Bool(x >= y))
    }
}

/// What applying built-in operator `op` to `a` gives.
pub open spec fn builtin(op: Seq<char>, a: Seq<Val>) -> Result<Val, EvalError> {
    if op == "~"@ {
        if a.len() == 1 && a[0] is Int {
            let x = a[0]->Int_0;
            Ok(Val::Int((-1 - x) as i64))
        } else {
            Err(EvalError::TypeMismatch)
        }
    } else if op == "!"@ {
        if a.len() == 1 && a[0] is Bool {
            let x = a[0]->Bool_0;
            Ok(Val::Bool(!x))
        } else {
            Err(EvalError::TypeMismatch)
        }
    } else if op == "&&"@ || op == "||"@ {
        if a.len() == 2 && a[0] is Bool && a[1] is Bool {
            Ok(Val::Bool(if op == "&&"@ { a[0]->Bool_0 && a[1]->Bool_0 } else { a[0]->Bool_0 || a[1]->Bool_0 }))
        } else {
            Err(EvalError::TypeMismatch)
        }
    } else if op == "+"@ || op == "-"@ || op == "*"@ || op == "/"@ || op == "%"@ || op == "=="@
        || op == "!="@ || op == "<"@ || op == ">"@ || op == "<="@ || op == ">="@ {
        if a.len() == 2 && a[0] is Int && a[1] is Int {
            int_op(op, a[0]->Int_0, a[1]->Int_0)
        } else {
            Err(EvalError::TypeMismatch)
        }
    } else {
        Err(EvalError::NotCallable)
    }
}

fn int_pair(args: &Vec<Value>) -> (r: Option<(i64, i64)>)
    ensures
        match r {
            Some((x, y)) => args@.len() == 2 && args@[0]@ == Val::Int(x) && args@[1]@ == Val::Int(y),
            None => !(args@.len() == 2 && args@[0]@ is Int && args@[1]@ is Int),
        },
{
    if args.len() != 2 {
        return None;
    }
    match (&args[0], &args[1]) {
        (Value::Int(x), Value::Int(y)) => Some((*x, *y)),
        _ => None,
    }
}

fn bool_pair(args: &Vec<Value>) -> (r: Option<(bool, bool)>)
    ensures
        match r {
            Some((x, y)) => args@.len() == 2 && args@[0]@ == Val::Bool(x) && args@[1]@ == Val::Bool(y),
            None => !(args@.len() == 2 && args@[0]@ is Bool && args@[1]@ is Bool),
        },
{
    if args.len() != 2 {
        return None;
    }
    match (&args[0], &args[1]) {
        (Value::Bool(x), Value::Bool(y)) => Some((*x, *y)),
        _ => None,
    }
}

fn int_value(r: Option<i64>) -> (v: Result<Value, EvalError>)
    ensures
        res_view(v) == int_result(r),
{
    match r {
        Some(x) => Ok(Value::Int(x)),
        None => Err(EvalError::Arith),
    }
}

pub fn add(args: Vec<Value>) -> (r: Result<Value, EvalError>)
    ensures
        res_view(r) == builtin("+"@, vals_view(args@)),
{
    proof {
        lemma_vals_view_index(args@);
        lemma_op_spellings();
    }
    match int_pair(&args) {
        Some((x, y)) => int_value(x.checked_add(y)),
        None => Err(EvalError::TypeMismatch),
    }
}

pub fn sub(args: Vec<Value>) -> (r: Result<Value, EvalError>)
    ensures
        res_view(r) == builtin("-"@, vals_view(args@)),
{
    proof {
        lemma_vals_view_index(args@);
        lemma_op_spellings();
    }
    match int_pair(&args) {
        Some((x, y)) => int_value(x.checked_sub(y)),
        None => Err(EvalError::TypeMismatch),
    }
}

pub fn mul(args: Vec<Value>) -> (r: Result<Value, EvalError>)
    ensures
        res_view(r) == builtin("*"@, vals_view(args@)),
{
    proof {
        lemma_vals_view_index(args@);
        lemma_op_spellings();
    }
    match int_pair(&args) {
        Some((x, y)) => int_value(x.checked_mul(y)),
        None => Err(EvalError::TypeMismatch),
    }
}

pub fn div(args: Vec<Value>) -> (r: Result<Value, EvalError>)
    ensures
        res_view(r) == builtin("/"@, vals_view(args@)),
{
    proof {
        lemma_vals_view_index(args@);
        lemma_op_spellings();
    }
    match int_pair(&args) {
        Some((x, y)) => int_value(x.checked_div(y)),
        None => Err(EvalError::TypeMismatch),
    }
}

pub fn mod_(args: Vec<Value>) -> (r: Result<Value, EvalError>)
    ensures
        res_view(r) == builtin("%"@, vals_view(args@)),
{
    proof {
        lemma_vals_view_index(args@);
        lemma_op_spellings();
    }
    match int_pair(&args) {
        Some((x, y)) => int_value(x.checked_rem(y)),
        None => Err(EvalError::TypeMismatch),
    }
}

pub fn eq(args: Vec<Value>) -> (r: Result<Value, EvalError>)
    ensures
        res_view(r) == builtin("=="@, vals_view(args@)),
{
    proof {
        lemma_vals_view_index(args@);
        lemma_op_spellings();
    }
    match int_pair(&args) {
        Some((x, y)) => Ok(Value::Bool(x == y)),
        None => Err(EvalError::TypeMismatch),
    }
}

pub fn neq(args: Vec<Value>) -> (r: Result<Value, EvalError>)
    ensures
        res_view(r) == builtin("!="@, vals_view(args@)),
{
    proof {
        lemma_vals_view_index(args@);
        lemma_op_spellings();
    }
    match int_pair(&args) {
        Some((x, y)) => Ok(Value::Bool(x != y)),
        None => Err(EvalError::TypeMismatch),
    }
}

pub fn lt(args: Vec<Value>) -> (r: Result<Value, EvalError>)
    ensures
        res_view(r) == builtin("<"@, vals_view(args@)),
{
    proof {
        lemma_vals_view_index(args@);
        lemma_op_spellings();
    }
    match int_pair(&args) {
        Some((x, y)) => Ok(Value::Bool(x < y)),
        None => Err(EvalError::TypeMismatch),
    }
}

pub fn gt(args: Vec<Value>) -> (r: Result<Value, EvalError>)
    ensures
        res_view(r) == builtin(">"@, vals_view(args@)),
{
    proof {
        lemma_vals_view_index(args@);
        lemma_op_spellings();
    }
    match int_pair(&args) {
        Some((x, y)) => Ok(Value::Bool(x > y)),
        None => Err(EvalError::TypeMismatch),
    }
}

pub fn le(args: Vec<Value>) -> (r: Result<Value, EvalError>)
    ensures
        res_view(r) == builtin("<="@, vals_view(args@)),
{
    proof {
        lemma_vals_view_index(args@);
        lemma_op_spellings();
    }
    match int_pair(&args) {
        Some((x, y)) => Ok(Value::Bool(x <= y)),
        None => Err(EvalError::TypeMismatch),
    }
}

pub fn ge(args: Vec<Value>) -> (r: Result<Value, EvalError>)
    ensures
        res_view(r) == builtin(">="@, vals_view(args@)),
{
    proof {
        lemma_vals_view_index(args@);
        lemma_op_spellings();
    }
    match int_pair(&args) {
        Some((x, y)) => Ok(Value::Bool(x >= y)),
        None => Err(EvalError::TypeMismatch),
    }
}

pub fn and(args: Vec<Value>) -> (r: Result<Value, EvalError>)
    ensures
        res_view(r) == builtin("&&"@, vals_view(args@)),
{
    proof {
        lemma_vals_view_index(args@);
        lemma_op_spellings();
    }
    match bool_pair(&args) {
        Some((x, y)) => Ok(Value::Bool(x && y)),
        None => Err(EvalError::TypeMismatch),
    }
}

pub fn or(args: Vec<Value>) -> (r: Result<Value, EvalError>)
    ensures
        res_view(r) == builtin("||"@, vals_view(args@)),
{
    proof {
        lemma_vals_view_index(args@);
        lemma_op_spellings();
    }
    match bool_pair(&args) {
        Some((x, y)) => Ok(Value::Bool(x || y)),
        None => Err(EvalError::TypeMismatch),
    }
}

/// Bitwise complement of an integer, which is `-1 - x` in two's complement.
pub fn bnot(args: Vec<Value>) -> (r: Result<Value, EvalError>)
    ensures
        res_view(r) == builtin("~"@, vals_view(args@)),
{
    proof {
        lemma_vals_view_index(args@);
        lemma_op_spellings();
    }
    if args.len() == 1 {
        if let Value::Int(x) = &args[0] {
            let v: i64 = *x;
            return Ok(Value::Int(-1 - v));
        }
    }
    Err(EvalError::TypeMismatch)
}

pub fn not(args: Vec<Value>) -> (r: Result<Value, EvalError>)
    ensures
        res_view(r) == builtin("!"@, vals_view(args@)),
{
    proof {
        lemma_vals_view_index(args@);
        lemma_op_spellings();
    }
    if args.len() == 1 {
        if let Value::Bool(x) = &args[0] {
            return Ok(Value::Bool(!*x));
        }
    }
    Err(EvalError::TypeMismatch)
}

/// Applies the built-in operator named `op`.
pub fn apply_builtin(op: &Name, args: Vec<Value>) -> (r: Result<Value, EvalError>)
    ensures
        res_view(r) == builtin(op@, vals_view(args@)),
{
    proof {
        lemma_op_spellings();
    }
    if op.is("+") {
        crate::builtins::add(args)
    } else if op.is("-") {
        crate::builtins::sub(args)
    } else if op.is("*") {
        crate::builtins::mul(args)
    } else if op.is("/") {
        div(args)
    } else if op.is("%") {
        mod_(args)
    } else if op.is("~") {
        bnot(args)
    } else if op.is("==") {
        eq(args)
    } else if op.is("!=") {
        neq(args)
    } else if op.is("<") {
        lt(args)
    } else if op.is(">") {
        gt(args)
    } else if op.is("<=") {
        le(args)
    } else if op.is(">=") {
        ge(args)
    } else if op.is("&&") {
        and(args)
    } else if op.is("||") {
        or(args)
    } else if op.is("!") {
        not(args)
    } else {
        Err(EvalError::NotCallable)
    }
}

} // verus!
