use vstd::prelude::*;

verus! {

/// The tokens of the surface language.
#[derive(Clone, PartialEq, Debug)]
pub enum Token {
    Match,
    Data,
    Fn,
    Let,
    If,
    Else,
    Int(i64),
    Bool(bool),
    FatArrow,
    Eq,
    Arrow,
    Pipe,
    Colon,
    Comma,
    POpen,
    PClose,
    BOpen,
    BClose,
    Ident(String),
    Comment,
    EOF,
}

} // verus!
