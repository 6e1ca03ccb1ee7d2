//! The language's semantics.
//!
//! A big-step evaluator written as mathematical functions over the mirror
//! syntax trees.  The state carries the scope arena, the string and callable
//! tables, the output lines, and the stream of clock readings still to be
//! consumed — so evaluation is a function even of programs that call the
//! clock.  Every function takes a fuel that falls by one on each nested
//! evaluation; a run that exhausts it ends in a fault, which the executable
//! interpreter keeps out of reach by starting with more fuel than any run
//! that ends could use.

use vstd::prelude::*;

use crate::ast::{ExprS, StmtS};
use crate::env::{Binding, lookup, resolve};
use crate::num::{add_bits, sub_bits, mul_bits, div_bits, rem_bits, bits_of_u64, display_of,
    f_eq, f_lt, f_le, f_neg};
use crate::token::Token;
use crate::types::{Type, ErrS, CallableS, spec_is_true};

verus! {

/// The whole interpreter state, mathematically.
pub struct SState {
    /// Each scope's enclosing scope.
    pub encl: Seq<Option<usize>>,
    /// All bindings, oldest first.
    pub binds: Seq<Binding>,
    /// The interned strings.
    pub strs: Seq<Seq<char>>,
    /// The callables: the native clock and every function value made so far.
    pub funs: Seq<CallableS>,
    /// The lines printed so far.
    pub out: Seq<Seq<char>>,
    /// The clock readings not yet consumed.
    pub ticks: Seq<u64>,
}

/// What evaluating an expression yields.
pub enum EOut {
    Val(Type),
    Fault(ErrS),
}

/// What executing a statement yields: fall-through, a `return` travelling
/// to the nearest call boundary, or a fault.
pub enum FlowS {
    Done,
    Ret(Type),
    Fault(ErrS),
}

pub open spec fn fuel_fault() -> ErrS {
    ErrS { token: Token::Eof, msg: "Evaluation depth limit reached."@ }
}

pub open spec fn str_at(strs: Seq<Seq<char>>, i: int) -> Seq<char> {
    if 0 <= i < strs.len() {
        strs[i]
    } else {
        Seq::empty()
    }
}

pub open spec fn undefined_msg(strs: Seq<Seq<char>>, sym: int) -> Seq<char> {
    "Undefined variable '"@ + str_at(strs, sym) + "'."@
}

/// The display form of a value.
pub open spec fn display_v(st: SState, v: Type) -> Seq<char> {
    match v {
        Type::Number(n) => display_of(n),
        Type::Str(i) => str_at(st.strs, i as int),
        Type::Boolean(b) => if b {
            "true"@
        } else {
            "false"@
        },
        Type::Callable(i) => if 0 <= i < st.funs.len() {
            match st.funs[i as int] {
                CallableS::Clock => "<native fn>"@,
                CallableS::Function { name, .. } => match name {
                    Token::Identifier(s) => "<fn "@ + str_at(st.strs, s as int) + ">"@,
                    _ => "<fn >"@,
                },
            }
        } else {
            "<fn >"@
        },
        Type::Nil => "nil"@,
    }
}

/// The equality rule: same-variant values compare by content, `nil` equals
/// `nil`, everything across variants (and every callable) is unequal.
pub open spec fn value_eq(st: SState, a: Type, b: Type) -> bool {
    match (a, b) {
        (Type::Number(x), Type::Number(y)) => f_eq(x, y),
        (Type::Str(i), Type::Str(j)) => str_at(st.strs, i as int) == str_at(st.strs, j as int),
        (Type::Boolean(x), Type::Boolean(y)) => x == y,
        (Type::Nil, Type::Nil) => true,
        _ => false,
    }
}

/// Every parameter is an identifier token.
pub open spec fn params_ok(params: Seq<Token>) -> bool {
    forall|k: int| 0 <= k < params.len() ==> params[k] is Identifier
}

/// The bindings that binding `params` to `argv` in scope `env` appends.
pub open spec fn bind_args(env: usize, params: Seq<Token>, argv: Seq<Type>) -> Seq<Binding>
    decreases params.len(),
{
    if params.len() == 0 || argv.len() == 0 {
        Seq::empty()
    } else {
        match params[0] {
            Token::Identifier(s) => seq![Binding { env, sym: s, val: argv[0] }] + bind_args(
                env,
                params.drop_first(),
                argv.drop_first(),
            ),
            _ => bind_args(env, params.drop_first(), argv.drop_first()),
        }
    }
}

pub open spec fn eval_expr_s(st: SState, env: usize, e: ExprS, fuel: nat) -> (SState, EOut)
    decreases fuel, 0int,
{
    if fuel == 0 {
        (st, EOut::Fault(fuel_fault()))
    } else {
        let f = (fuel - 1) as nat;
        match e {
            ExprS::Literal { value } => match value {
                Token::Number(n) => (st, EOut::Val(Type::Number(n))),
                Token::Str(s) => (st, EOut::Val(Type::Str(s))),
                Token::True => (st, EOut::Val(Type::Boolean(true))),
                Token::False => (st, EOut::Val(Type::Boolean(false))),
                Token::Nil => (st, EOut::Val(Type::Nil)),
                _ => (st, EOut::Fault(ErrS { token: value, msg: "Unexpected token"@ })),
            },
            ExprS::Grouping { expression } => eval_expr_s(st, env, *expression, f),
            ExprS::Unary { operator, right } => {
                let (st1, r) = eval_expr_s(st, env, *right, f);
                match r {
                    EOut::Val(v) => match operator {
                        Token::Minus => match v {
                            Type::Number(n) => (st1, EOut::Val(Type::Number(f_neg(n)))),
                            _ => (
                                st1,
                                EOut::Fault(
                                    ErrS {
                                        token: operator,
                                        msg: "Operand must be a number."@,
                                    },
                                ),
                            ),
                        },
                        Token::Bang => match v {
                            Type::Boolean(b) => (st1, EOut::Val(Type::Boolean(!b))),
                            _ => (
                                st1,
                                EOut::Fault(
                                    ErrS {
                                        token: operator,
                                        msg: "Operand must be a Boolean."@,
                                    },
                                ),
                            ),
                        },
                        _ => (
                            st1,
                            EOut::Fault(ErrS { token: operator, msg: "Unexpected token."@ }),
                        ),
                    },
                    EOut::Fault(er) => (st1, EOut::Fault(er)),
                }
            },
            ExprS::Variable { name } => match name {
                Token::Identifier(s) => match lookup(st.encl, st.binds, env as int, s as int) {
                    Some(v) => (st, EOut::Val(v)),
                    None => (
                        st,
                        EOut::Fault(
                            ErrS { token: name, msg: undefined_msg(st.strs, s as int) },
                        ),
                    ),
                },
                _ => (st, EOut::Fault(ErrS { token: name, msg: "Expect variable name."@ })),
            },
            ExprS::Assign { name, value } => {
                let (st1, r) = eval_expr_s(st, env, *value, f);
                match r {
                    EOut::Val(v) => match name {
                        Token::Identifier(s) => match resolve(
                            st1.encl,
                            st1.binds,
                            env as int,
                            s as int,
                        ) {
                            Some(k) => if 0 <= k < st1.binds.len() {
                                (
                                    SState {
                                        binds: st1.binds.update(
                                            k,
                                            Binding {
                                                env: st1.binds[k].env,
                                                sym: st1.binds[k].sym,
                                                val: v,
                                            },
                                        ),
                                        ..st1
                                    },
                                    EOut::Val(v),
                                )
                            } else {
                                (st1, EOut::Val(v))
                            },
                            None => (
                                st1,
                                EOut::Fault(
                                    ErrS {
                                        token: name,
                                        msg: undefined_msg(st1.strs, s as int),
                                    },
                                ),
                            ),
                        },
                        _ => (
                            st1,
                            EOut::Fault(ErrS { token: name, msg: "Expect variable name."@ }),
                        ),
                    },
                    EOut::Fault(er) => (st1, EOut::Fault(er)),
                }
            },
            ExprS::Logical { left, operator, right } => {
                let (st1, r) = eval_expr_s(st, env, *left, f);
                match r {
                    EOut::Val(v) => match operator {
                        Token::Or => if spec_is_true(v, st1.strs) {
                            (st1, EOut::Val(v))
                        } else {
                            eval_expr_s(st1, env, *right, f)
                        },
                        Token::And => if !spec_is_true(v, st1.strs) {
                            (st1, EOut::Val(v))
                        } else {
                            eval_expr_s(st1, env, *right, f)
                        },
                        _ => (
                            st1,
                            EOut::Fault(ErrS { token: operator, msg: "Unexpected token."@ }),
                        ),
                    },
                    EOut::Fault(er) => (st1, EOut::Fault(er)),
                }
            },
            ExprS::Binary { left, operator, right } => {
                let (st1, r1) = eval_expr_s(st, env, *left, f);
                match r1 {
                    EOut::Val(a) => {
                        let (st2, r2) = eval_expr_s(st1, env, *right, f);
                        match r2 {
                            EOut::Val(b) => eval_binop_s(st2, operator, a, b),
                            EOut::Fault(er) => (st2, EOut::Fault(er)),
                        }
                    },
                    EOut::Fault(er) => (st1, EOut::Fault(er)),
                }
            },
            ExprS::Call { callee, paren, arguments } => {
                let (st1, rc) = eval_expr_s(st, env, *callee, f);
                match rc {
                    EOut::Val(c) => {
                        let (st2, ra) = eval_args_s(st1, env, arguments, f);
                        match ra {
                            Ok(argv) => match c {
                                Type::Callable(fi) => call_fun_s(st2, fi as int, paren, argv, f),
                                _ => (
                                    st2,
                                    EOut::Fault(
                                        ErrS {
                                            token: paren,
                                            msg: "Can only call functions and classes."@,
                                        },
                                    ),
                                ),
                            },
                            Err(er) => (st2, EOut::Fault(er)),
                        }
                    },
                    EOut::Fault(er) => (st1, EOut::Fault(er)),
                }
            },
        }
    }
}

/// One binary operator applied to two values; no state is read but the
/// string table, and only `+` on strings changes it.
pub open spec fn eval_binop_s(st: SState, op: Token, a: Type, b: Type) -> (SState, EOut) {
    if op == Token::Plus {
        match (a, b) {
            (Type::Number(x), Type::Number(y)) => (st, EOut::Val(Type::Number(add_bits(x, y)))),
            (Type::Str(i), Type::Str(j)) => (
                SState {
                    strs: st.strs.push(str_at(st.strs, i as int) + str_at(st.strs, j as int)),
                    ..st
                },
                EOut::Val(Type::Str(st.strs.len() as usize)),
            ),
            _ => (
                st,
                EOut::Fault(
                    ErrS { token: op, msg: "Operand must be both numbers or both strings."@ },
                ),
            ),
        }
    } else if op == Token::EqualEqual {
        (st, EOut::Val(Type::Boolean(value_eq(st, a, b))))
    } else if op == Token::BangEqual {
        (st, EOut::Val(Type::Boolean(!value_eq(st, a, b))))
    } else if op == Token::Minus || op == Token::Slash || op == Token::Star || op == Token::Mod
        || op == Token::Greater || op == Token::GreaterEqual || op == Token::Less
        || op == Token::LessEqual {
        match (a, b) {
            (Type::Number(x), Type::Number(y)) => if op == Token::Minus {
                (st, EOut::Val(Type::Number(sub_bits(x, y))))
            } else if op == Token::Slash {
                (st, EOut::Val(Type::Number(div_bits(x, y))))
            } else if op == Token::Star {
                (st, EOut::Val(Type::Number(mul_bits(x, y))))
            } else if op == Token::Mod {
                (st, EOut::Val(Type::Number(rem_bits(x, y))))
            } else if op == Token::Greater {
                (st, EOut::Val(Type::Boolean(f_lt(y, x))))
            } else if op == Token::GreaterEqual {
                (st, EOut::Val(Type::Boolean(f_le(y, x))))
            } else if op == Token::Less {
                (st, EOut::Val(Type::Boolean(f_lt(x, y))))
            } else {
                (st, EOut::Val(Type::Boolean(f_le(x, y))))
            },
            _ => (st, EOut::Fault(ErrS { token: op, msg: "Operand must be numbers."@ })),
        }
    } else {
        (st, EOut::Fault(ErrS { token: op, msg: "Unexpected token."@ }))
    }
}

/// The arguments of a call, evaluated left to right.
pub open spec fn eval_args_s(st: SState, env: usize, args: Seq<ExprS>, fuel: nat) -> (
    SState,
    Result<Seq<Type>, ErrS>,
)
    decreases fuel, 1int,
{
    if args.len() == 0 {
        (st, Ok(Seq::empty()))
    } else if fuel == 0 {
        (st, Err(fuel_fault()))
    } else {
        let f = (fuel - 1) as nat;
        let (st1, r) = eval_expr_s(st, env, args[0], f);
        match r {
            EOut::Val(v) => {
                let (st2, rr) = eval_args_s(st1, env, args.drop_first(), f);
                match rr {
                    Ok(vs) => (st2, Ok(seq![v] + vs)),
                    Err(er) => (st2, Err(er)),
                }
            },
            EOut::Fault(er) => (st1, Err(er)),
        }
    }
}

/// A call of callable `fi` with the evaluated arguments.  The clock consumes
/// the next reading; a user function runs its body in a fresh scope chained
/// to the scope it closed over, and a `return` escaping the body becomes the
/// call's value, with `nil` for a body that falls through.
pub open spec fn call_fun_s(st: SState, fi: int, paren: Token, argv: Seq<Type>, fuel: nat) -> (
    SState,
    EOut,
)
    decreases fuel, 2int,
{
    if fuel == 0 {
        (st, EOut::Fault(fuel_fault()))
    } else if !(0 <= fi < st.funs.len()) {
        (st, EOut::Fault(ErrS { token: paren, msg: "Can only call functions and classes."@ }))
    } else {
        let f = (fuel - 1) as nat;
        match st.funs[fi] {
            CallableS::Clock => if argv.len() != 0 {
                (st, EOut::Fault(ErrS { token: paren, msg: "Arity mismatch."@ }))
            } else if st.ticks.len() == 0 {
                (st, EOut::Fault(ErrS { token: paren, msg: "Clock unavailable."@ }))
            } else {
                (
                    SState { ticks: st.ticks.drop_first(), ..st },
                    EOut::Val(Type::Number(bits_of_u64(st.ticks[0]))),
                )
            },
            CallableS::Function { name, params, body, env: closure } => if argv.len()
                != params.len() {
                (st, EOut::Fault(ErrS { token: paren, msg: "Arity mismatch."@ }))
            } else if !params_ok(params) {
                (st, EOut::Fault(ErrS { token: name, msg: "Expect variable name."@ }))
            } else {
                let c = st.encl.len() as usize;
                let st1 = SState {
                    encl: st.encl.push(Some(closure as usize)),
                    binds: st.binds + bind_args(c, params, argv),
                    ..st
                };
                let (st2, flow) = exec_stmt_s(st1, c, body, f);
                match flow {
                    FlowS::Done => (st2, EOut::Val(Type::Nil)),
                    FlowS::Ret(v) => (st2, EOut::Val(v)),
                    FlowS::Fault(er) => (st2, EOut::Fault(er)),
                }
            },
        }
    }
}

/// A while loop, one test (and at most one body run) per fuel unit.
pub open spec fn exec_while_s(st: SState, env: usize, cond: ExprS, body: StmtS, fuel: nat) -> (
    SState,
    FlowS,
)
    decreases fuel, 3int,
{
    if fuel == 0 {
        (st, FlowS::Fault(fuel_fault()))
    } else {
        let f = (fuel - 1) as nat;
        let (st1, r) = eval_expr_s(st, env, cond, f);
        match r {
            EOut::Val(v) => if !spec_is_true(v, st1.strs) {
                (st1, FlowS::Done)
            } else {
                let (st2, flow) = exec_stmt_s(st1, env, body, f);
                match flow {
                    FlowS::Done => exec_while_s(st2, env, cond, body, f),
                    _ => (st2, flow),
                }
            },
            EOut::Fault(er) => (st1, FlowS::Fault(er)),
        }
    }
}

pub open spec fn exec_stmt_s(st: SState, env: usize, s: StmtS, fuel: nat) -> (SState, FlowS)
    decreases fuel, 4int,
{
    if fuel == 0 {
        (st, FlowS::Fault(fuel_fault()))
    } else {
        let f = (fuel - 1) as nat;
        match s {
            StmtS::Expression { expression } => {
                let (st1, r) = eval_expr_s(st, env, expression, f);
                match r {
                    EOut::Val(_) => (st1, FlowS::Done),
                    EOut::Fault(er) => (st1, FlowS::Fault(er)),
                }
            },
            StmtS::Print { expression } => {
                let (st1, r) = eval_expr_s(st, env, expression, f);
                match r {
                    EOut::Val(v) => match v {
                        Type::Nil => (st1, FlowS::Done),
                        _ => (
                            SState { out: st1.out.push(display_v(st1, v)), ..st1 },
                            FlowS::Done,
                        ),
                    },
                    EOut::Fault(er) => (st1, FlowS::Fault(er)),
                }
            },
            StmtS::Var { name, initializer } => {
                let (st1, r) = match initializer {
                    Some(e) => eval_expr_s(st, env, e, f),
                    None => (st, EOut::Val(Type::Nil)),
                };
                match r {
                    EOut::Val(v) => match name {
                        Token::Identifier(s) => (
                            SState {
                                binds: st1.binds.push(Binding { env, sym: s, val: v }),
                                ..st1
                            },
                            FlowS::Done,
                        ),
                        _ => (st1, FlowS::Done),
                    },
                    EOut::Fault(er) => (st1, FlowS::Fault(er)),
                }
            },
            StmtS::Block { statements } => {
                let c = st.encl.len() as usize;
                let st1 = SState { encl: st.encl.push(Some(env)), ..st };
                exec_stmts_s(st1, c, statements, f)
            },
            StmtS::If { condition, then_branch, else_branch } => {
                let (st1, r) = eval_expr_s(st, env, condition, f);
                match r {
                    EOut::Val(v) => if spec_is_true(v, st1.strs) {
                        exec_stmt_s(st1, env, *then_branch, f)
                    } else {
                        match else_branch {
                            Some(e) => exec_stmt_s(st1, env, *e, f),
                            None => (st1, FlowS::Done),
                        }
                    },
                    EOut::Fault(er) => (st1, FlowS::Fault(er)),
                }
            },
            StmtS::While { condition, body } => exec_while_s(st, env, condition, *body, fuel),
            StmtS::For { initializer, condition, body } => {
                let c = st.encl.len() as usize;
                let st1 = SState { encl: st.encl.push(Some(env)), ..st };
                let (st2, flow) = exec_stmt_s(st1, c, *initializer, f);
                match flow {
                    FlowS::Done => exec_while_s(st2, c, condition, *body, f),
                    _ => (st2, flow),
                }
            },
            StmtS::Function { name, params, body } => match name {
                Token::Identifier(s) => {
                    let fun = CallableS::Function {
                        name,
                        params,
                        body: *body,
                        env: env as int,
                    };
                    (
                        SState {
                            funs: st.funs.push(fun),
                            binds: st.binds.push(
                                Binding {
                                    env,
                                    sym: s,
                                    val: Type::Callable(st.funs.len() as usize),
                                },
                            ),
                            ..st
                        },
                        FlowS::Done,
                    )
                },
                _ => (st, FlowS::Done),
            },
            StmtS::Return { keyword, value } => match value {
                Some(e) => {
                    let (st1, r) = eval_expr_s(st, env, e, f);
                    match r {
                        EOut::Val(v) => (st1, FlowS::Ret(v)),
                        EOut::Fault(er) => (st1, FlowS::Fault(er)),
                    }
                },
                None => (st, FlowS::Ret(Type::Nil)),
            },
            StmtS::Class { .. } => (st, FlowS::Done),
        }
    }
}

/// A statement list, in order, stopping at the first fault or `return`.
pub open spec fn exec_stmts_s(st: SState, env: usize, ss: Seq<StmtS>, fuel: nat) -> (
    SState,
    FlowS,
)
    decreases fuel, 5int,
{
    if ss.len() == 0 {
        (st, FlowS::Done)
    } else if fuel == 0 {
        (st, FlowS::Fault(fuel_fault()))
    } else {
        let f = (fuel - 1) as nat;
        let (st1, flow) = exec_stmt_s(st, env, ss[0], f);
        match flow {
            FlowS::Done => exec_stmts_s(st1, env, ss.drop_first(), f),
            _ => (st1, flow),
        }
    }
}

/// A whole program, run at the global scope.  An uncaught `return` becomes
/// the error "Only functions can return values."
pub open spec fn run_program_s(st: SState, ss: Seq<StmtS>, fuel: nat) -> (SState, Option<ErrS>) {
    let (st1, flow) = exec_stmts_s(st, 0, ss, fuel);
    match flow {
        FlowS::Done => (st1, None),
        FlowS::Ret(_) => (
            st1,
            Some(ErrS { token: Token::Return, msg: "Only functions can return values."@ }),
        ),
        FlowS::Fault(er) => (st1, Some(er)),
    }
}

} // verus!
