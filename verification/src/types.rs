//! Runtime values and the control-flow channel.
//!
//! A value is plain copyable data: numbers carry their binary64 bit
//! pattern, strings and callables carry indices into the interpreter's
//! tables.  Control flow unwinds through `ReturnValue`: a genuine runtime
//! error, or a `return` travelling up to the nearest call boundary.

use vstd::prelude::*;

use crate::ast::{Stmt, StmtS, stmt_v};
use crate::num::f_is_normal;
use crate::strtab::StrTable;
use crate::token::Token;

verus! {

#[derive(Clone, Copy, Debug, PartialEq, Eq, Structural)]
pub enum Type {
    /// A number, as the bit pattern of an IEEE 754 binary64 value.
    Number(u64),
    /// A string, by index into the interpreter's string table.
    Str(usize),
    Boolean(bool),
    /// A callable, by index into the interpreter's callable table.
    Callable(usize),
    Nil,
}

/// Truthiness: `true`, a normal number, or a non-empty string; everything
/// else, `nil`, zero, NaN and the empty string included, is false.
pub open spec fn spec_is_true(v: Type, strs: Seq<Seq<char>>) -> bool {
    match v {
        Type::Number(n) => f_is_normal(n),
        Type::Boolean(b) => b,
        Type::Str(i) => 0 <= i < strs.len() && strs[i as int].len() > 0,
        Type::Callable(_) => false,
        Type::Nil => false,
    }
}

impl Type {
    /// The truthiness rule, against the string table the value's indices
    /// refer into.
    pub fn is_true(&self, strs: &StrTable) -> (r: bool)
        ensures
            r == spec_is_true(*self, strs@),
    {
        match self {
            Type::Number(n) => crate::num::num_is_normal(*n),
            Type::Boolean(b) => *b,
            Type::Str(i) => *i < strs.len() && !strs.get(*i).as_str().is_empty(),
            Type::Callable(_) => false,
            Type::Nil => false,
        }
    }
}

/// A runtime fault: the offending token and a message.
#[derive(Debug)]
pub struct RuntimeError(pub Token, pub String);

/// The mathematical mirror of a runtime fault.
pub struct ErrS {
    pub token: Token,
    pub msg: Seq<char>,
}

pub open spec fn err_v(e: &RuntimeError) -> ErrS {
    ErrS { token: e.0, msg: e.1@ }
}

/// The fault channel of the evaluator: a genuine error, or a `return`
/// travelling to the nearest call boundary.
#[derive(Debug)]
pub enum ReturnValue {
    Error(RuntimeError),
    Return(Type),
}

/// A user function value: the declaration's pieces and the environment it
/// closed over.
#[derive(Debug)]
pub struct Function {
    pub name: Token,
    pub params: Vec<Token>,
    pub body: Stmt,
    pub env: usize,
}

/// The native `clock`.
#[derive(Debug)]
pub struct Clock {}

impl Clock {
    pub fn arity(&self) -> (r: usize)
        ensures
            r == 0,
    {
        0
    }
}

/// A callable value: the one native, or a user function.
#[derive(Debug)]
pub enum Callable {
    Native(Clock),
    Function(Function),
}

impl Callable {
    /// How many arguments the callable takes.
    pub fn arity(&self) -> (r: usize)
        ensures
            r as int == spec_arity(callable_v(self)),
    {
        match self {
            Callable::Native(c) => c.arity(),
            Callable::Function(f) => f.params.len(),
        }
    }
}

/// The mathematical mirror of a callable.
pub enum CallableS {
    Clock,
    Function { name: Token, params: Seq<Token>, body: StmtS, env: int },
}

pub open spec fn callable_v(c: &Callable) -> CallableS {
    match c {
        Callable::Native(_) => CallableS::Clock,
        Callable::Function(f) => CallableS::Function {
            name: f.name,
            params: f.params@,
            body: stmt_v(f.body),
            env: f.env as int,
        },
    }
}

pub open spec fn spec_arity(c: CallableS) -> int {
    match c {
        CallableS::Clock => 0,
        CallableS::Function { params, .. } => params.len() as int,
    }
}

} // verus!
