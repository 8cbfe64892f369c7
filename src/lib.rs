use vstd::prelude::*;

pub mod ast;
pub mod cps;
pub mod passes;
pub mod interp;
pub mod builtins;
pub mod checker;
pub mod ast_to_cps;
pub mod lexer;
pub mod preproc;
pub mod solve_laws;
pub mod measure;
pub mod scan;
pub mod unifier;

verus! {
}
