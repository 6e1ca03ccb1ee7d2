//! The tree-walking interpreter.
//!
//! `Interpreter` owns the scope arena, the string and callable tables and
//! the output buffer; one instance survives across prompt lines, so
//! definitions accumulate.  Every evaluating function is proved equal to
//! the semantics of `sem`: it returns, besides its value, the clock
//! readings it consumed, and its contract says that for any further
//! readings, running the mathematical evaluator from the old state yields
//! exactly the new state and the same outcome.

use vstd::prelude::*;

use crate::ast::{Expr, ExprS, Stmt, StmtS, expr_v, stmt_v, exprs_v_from, stmts_v, stmts_v_from,
    lemma_exprs_v_from, lemma_stmts_v_from, clone_stmt, clone_tokens};
use crate::env::{Binding, Environment, resolve};
use crate::num::{num_add, num_display, num_eq, num_from_u64, num_le, num_lt, num_neg};
use crate::sem::{SState, EOut, FlowS, eval_expr_s, eval_args_s, eval_binop_s, call_fun_s,
    exec_stmt_s, exec_stmts_s, exec_while_s, run_program_s, value_eq, display_v, str_at,
    undefined_msg, params_ok, bind_args};
use crate::strtab::{StrTable, str_eq};
use crate::token::Token;
use crate::types::{Type, RuntimeError, ReturnValue, Function, Clock, Callable, CallableS,
    callable_v, err_v, ErrS};
use vstd::string::StringExecFns;

verus! {

/// The whole evaluation budget.  Each unit pays for one step of the
/// mathematical evaluator; no run that ends can use this many.
pub const RUN_FUEL: u64 = 0xffff_ffff_ffff_ffff;

pub struct Interpreter {
    pub env: Environment,
    pub strs: StrTable,
    pub funs: Vec<Callable>,
    pub out: Vec<String>,
}

/// The interpreter's state as the semantics sees it, with the clock
/// readings still to come.
pub open spec fn st_view(i: Interpreter, ticks: Seq<u64>) -> SState {
    SState {
        encl: i.env.encl@,
        binds: i.env.binds@,
        strs: i.strs@,
        funs: i.funs@.map_values(|c: Callable| callable_v(&c)),
        out: i.out@.map_values(|s: String| s@),
        ticks,
    }
}

pub open spec fn eout_of(r: Result<Type, RuntimeError>) -> EOut {
    match r {
        Ok(v) => EOut::Val(v),
        Err(e) => EOut::Fault(err_v(&e)),
    }
}

pub open spec fn flow_of(r: Result<(), ReturnValue>) -> FlowS {
    match r {
        Ok(_) => FlowS::Done,
        Err(ReturnValue::Error(e)) => FlowS::Fault(err_v(&e)),
        Err(ReturnValue::Return(v)) => FlowS::Ret(v),
    }
}

/// Evaluating `e` took `pre` to `post`, consumed the readings `log`, and
/// yielded `out` — whatever readings would have followed.
pub open spec fn evals_to(
    pre: Interpreter,
    post: Interpreter,
    env: usize,
    e: ExprS,
    fuel: nat,
    log: Seq<u64>,
    out: EOut,
) -> bool {
    forall|rest: Seq<u64>| #![trigger st_view(post, rest)]
        eval_expr_s(st_view(pre, log + rest), env, e, fuel) == (st_view(post, rest), out)
}

pub open spec fn args_to(
    pre: Interpreter,
    post: Interpreter,
    env: usize,
    args: Seq<ExprS>,
    fuel: nat,
    log: Seq<u64>,
    out: Result<Seq<Type>, ErrS>,
) -> bool {
    forall|rest: Seq<u64>| #![trigger st_view(post, rest)]
        eval_args_s(st_view(pre, log + rest), env, args, fuel) == (st_view(post, rest), out)
}

pub open spec fn call_to(
    pre: Interpreter,
    post: Interpreter,
    fi: int,
    paren: Token,
    argv: Seq<Type>,
    fuel: nat,
    log: Seq<u64>,
    out: EOut,
) -> bool {
    forall|rest: Seq<u64>| #![trigger st_view(post, rest)]
        call_fun_s(st_view(pre, log + rest), fi, paren, argv, fuel) == (st_view(post, rest), out)
}

pub open spec fn flows_to(
    pre: Interpreter,
    post: Interpreter,
    env: usize,
    s: StmtS,
    fuel: nat,
    log: Seq<u64>,
    flow: FlowS,
) -> bool {
    forall|rest: Seq<u64>| #![trigger st_view(post, rest)]
        exec_stmt_s(st_view(pre, log + rest), env, s, fuel) == (st_view(post, rest), flow)
}

pub open spec fn stmts_to(
    pre: Interpreter,
    post: Interpreter,
    env: usize,
    ss: Seq<StmtS>,
    fuel: nat,
    log: Seq<u64>,
    flow: FlowS,
) -> bool {
    forall|rest: Seq<u64>| #![trigger st_view(post, rest)]
        exec_stmts_s(st_view(pre, log + rest), env, ss, fuel) == (st_view(post, rest), flow)
}

pub open spec fn while_to(
    pre: Interpreter,
    post: Interpreter,
    env: usize,
    cond: ExprS,
    body: StmtS,
    fuel: nat,
    log: Seq<u64>,
    flow: FlowS,
) -> bool {
    forall|rest: Seq<u64>| #![trigger st_view(post, rest)]
        exec_while_s(st_view(pre, log + rest), env, cond, body, fuel) == (st_view(post, rest), flow)
}

/// Relies on `std::time::SystemTime`: the seconds since the Unix epoch at
/// the moment of the call, or zero for a clock before the epoch.  Nothing
/// can be promised of the reading.
#[verifier::external_body]
fn unix_seconds() -> u64 {
    match std::time::SystemTime::now().duration_since(std::time::UNIX_EPOCH) {
        Ok(d) => d.as_secs(),
        Err(_) => 0,
    }
}

impl Interpreter {
    /// A fresh interpreter: one global scope with `clock` bound in it.
    pub fn new() -> (r: Interpreter)
        ensures
            r.env.encl@ == seq![None::<usize>],
            r.env.binds@ == seq![Binding { env: 0usize, sym: 0usize, val: Type::Callable(0usize) }],
            r.strs@ == seq!["clock"@],
            r.funs@.map_values(|c: Callable| callable_v(&c)) == seq![CallableS::Clock],
            r.out@.map_values(|s: String| s@) == Seq::<Seq<char>>::empty(),
    {
        let mut strs = StrTable::new();
        let sym = strs.intern("clock".to_owned());
        let mut env = Environment::global();
        env.define(0, sym, Type::Callable(0));
        let mut funs: Vec<Callable> = Vec::new();
        funs.push(Callable::Native(Clock {}));
        let r = Interpreter { env, strs, funs, out: Vec::new() };
        proof {
            assert(r.strs@ =~= seq!["clock"@]);
            assert(r.env.binds@ =~= seq![
                Binding { env: 0usize, sym: 0usize, val: Type::Callable(0usize) },
            ]);
            assert(r.funs@.map_values(|c: Callable| callable_v(&c)) =~= seq![CallableS::Clock]);
            assert(r.out@.map_values(|s: String| s@) =~= Seq::<Seq<char>>::empty());
        }
        r
    }

    /// The message of an undefined-variable fault.
    fn undefined_message(&self, sym: usize) -> (r: String)
        ensures
            r@ == undefined_msg(self.strs@, sym as int),
    {
        let mut s = "Undefined variable '".to_owned();
        if sym < self.strs.len() {
            s.append(self.strs.get(sym).as_str());
        } else {
            proof {
                assert(str_at(self.strs@, sym as int) =~= Seq::<char>::empty());
            }
        }
        s.append("'.");
        s
    }

    /// The display form of a value.
    pub fn display(&self, v: Type) -> (r: String)
        ensures
            forall|t: Seq<u64>| r@ == display_v(st_view(*self, t), v),
    {
        match v {
            Type::Number(n) => num_display(n),
            Type::Str(i) => {
                if i < self.strs.len() {
                    self.strs.get(i).clone()
                } else {
                    let r = String::new();
                    proof {
                        assert(str_at(self.strs@, i as int) =~= Seq::<char>::empty());
                    }
                    r
                }
            },
            Type::Boolean(b) => {
                if b {
                    "true".to_owned()
                } else {
                    "false".to_owned()
                }
            },
            Type::Callable(i) => {
                if i < self.funs.len() {
                    match &self.funs[i] {
                        Callable::Native(_) => "<native fn>".to_owned(),
                        Callable::Function(f) => {
                            let mut s = "<fn ".to_owned();
                            match f.name {
                                Token::Identifier(sym) => {
                                    if sym < self.strs.len() {
                                        s.append(self.strs.get(sym).as_str());
                                    } else {
                                        proof {
                                            assert(str_at(self.strs@, sym as int)
                                                =~= Seq::<char>::empty());
                                        }
                                    }
                                },
                                _ => {},
                            }
                            s.append(">");
                            proof {
                                let fv = self.funs@.map_values(|c: Callable| callable_v(&c));
                                assert(fv[i as int] == callable_v(&self.funs@[i as int]));
                                reveal_strlit("<fn ");
                                reveal_strlit(">");
                                reveal_strlit("<fn >");
                                assert("<fn "@ + ">"@ =~= "<fn >"@);
                                assert(forall|q: Seq<char>| q.len() == 0 ==> "<fn "@ + q + ">"@
                                    =~= "<fn "@ + ">"@);
                            }
                            s
                        },
                    }
                } else {
                    "<fn >".to_owned()
                }
            },
            Type::Nil => "nil".to_owned(),
        }
    }

    /// Value equality, per the equality rule.
    fn value_equal(&self, a: Type, b: Type) -> (r: bool)
        ensures
            forall|t: Seq<u64>| r == value_eq(st_view(*self, t), a, b),
    {
        match (a, b) {
            (Type::Number(x), Type::Number(y)) => num_eq(x, y),
            (Type::Str(i), Type::Str(j)) => {
                let si = if i < self.strs.len() {
                    self.strs.get(i).as_str()
                } else {
                    ""
                };
                let sj = if j < self.strs.len() {
                    self.strs.get(j).as_str()
                } else {
                    ""
                };
                proof {
                    reveal_strlit("");
                    assert(""@ =~= Seq::<char>::empty());
                }
                str_eq(si, sj)
            },
            (Type::Boolean(x), Type::Boolean(y)) => x == y,
            (Type::Nil, Type::Nil) => true,
            _ => false,
        }
    }

    /// One binary operator on two already evaluated values.
    fn eval_binop(&mut self, op: Token, a: Type, b: Type) -> (r: Result<Type, RuntimeError>)
        ensures
            forall|t: Seq<u64>| #![trigger st_view(*final(self), t)]
                eval_binop_s(st_view(*old(self), t), op, a, b) == (
                    st_view(*final(self), t),
                    eout_of(r),
                ),
    {
        if op == Token::Plus {
            match (a, b) {
                (Type::Number(x), Type::Number(y)) => Ok(Type::Number(num_add(x, y))),
                (Type::Str(i), Type::Str(j)) => {
                    let si = if i < self.strs.len() {
                        self.strs.get(i).clone()
                    } else {
                        String::new()
                    };
                    let sj = if j < self.strs.len() {
                        self.strs.get(j).as_str()
                    } else {
                        ""
                    };
                    proof {
                        reveal_strlit("");
                        assert(""@ =~= Seq::<char>::empty());
                        assert(str_at(self.strs@, i as int) =~= if i < self.strs@.len() {
                            self.strs@[i as int]
                        } else {
                            Seq::<char>::empty()
                        });
                    }
                    let cat = si.concat(sj);
                    let idx = self.strs.push(cat);
                    Ok(Type::Str(idx))
                },
                _ => Err(
                    RuntimeError(op, "Operand must be both numbers or both strings.".to_owned()),
                ),
            }
        } else if op == Token::EqualEqual {
            Ok(Type::Boolean(self.value_equal(a, b)))
        } else if op == Token::BangEqual {
            Ok(Type::Boolean(!self.value_equal(a, b)))
        } else if op == Token::Minus || op == Token::Slash || op == Token::Star || op
            == Token::Mod || op == Token::Greater || op == Token::GreaterEqual || op
            == Token::Less || op == Token::LessEqual {
            match (a, b) {
                (Type::Number(x), Type::Number(y)) => {
                    if op == Token::Minus {
                        Ok(Type::Number(crate::num::num_sub(x, y)))
                    } else if op == Token::Slash {
                        Ok(Type::Number(crate::num::num_div(x, y)))
                    } else if op == Token::Star {
                        Ok(Type::Number(crate::num::num_mul(x, y)))
                    } else if op == Token::Mod {
                        Ok(Type::Number(crate::num::num_rem(x, y)))
                    } else if op == Token::Greater {
                        Ok(Type::Boolean(num_lt(y, x)))
                    } else if op == Token::GreaterEqual {
                        Ok(Type::Boolean(num_le(y, x)))
                    } else if op == Token::Less {
                        Ok(Type::Boolean(num_lt(x, y)))
                    } else {
                        Ok(Type::Boolean(num_le(x, y)))
                    }
                },
                _ => Err(RuntimeError(op, "Operand must be numbers.".to_owned())),
            }
        } else {
            Err(RuntimeError(op, "Unexpected token.".to_owned()))
        }
    }
}

/// Prepending no readings changes nothing.
proof fn lemma_empty_log(i: Interpreter)
    ensures
        forall|rest: Seq<u64>| #[trigger] st_view(i, Seq::<u64>::empty() + rest) == st_view(
            i,
            rest,
        ),
{
    assert forall|rest: Seq<u64>| #[trigger] st_view(i, Seq::<u64>::empty() + rest) == st_view(
        i,
        rest,
    ) by {
        assert(Seq::<u64>::empty() + rest =~= rest);
    }
}

/// `bind_args` binds each parameter's name to its argument, in order.
proof fn lemma_bind_args(env: usize, params: Seq<Token>, argv: Seq<Type>)
    requires
        params_ok(params),
        params.len() == argv.len(),
    ensures
        bind_args(env, params, argv).len() == params.len(),
        forall|k: int| 0 <= k < params.len() ==> {
            &&& (#[trigger] bind_args(env, params, argv)[k]).env == env
            &&& bind_args(env, params, argv)[k].val == argv[k]
            &&& params[k] == Token::Identifier(bind_args(env, params, argv)[k].sym)
        },
    decreases params.len(),
{
    if params.len() > 0 {
        assert(params[0] is Identifier);
        lemma_bind_args(env, params.drop_first(), argv.drop_first());
        assert forall|k: int| 0 <= k < params.len() implies {
            &&& (#[trigger] bind_args(env, params, argv)[k]).env == env
            &&& bind_args(env, params, argv)[k].val == argv[k]
            &&& params[k] == Token::Identifier(bind_args(env, params, argv)[k].sym)
        } by {
            if k > 0 {
                assert(params.drop_first()[k - 1] == params[k]);
                assert(argv.drop_first()[k - 1] == argv[k]);
                assert(bind_args(env, params.drop_first(), argv.drop_first())[k - 1] == bind_args(
                    env,
                    params,
                    argv,
                )[k]);
            }
        }
    }
}


/// Every parameter token is an identifier.
fn all_identifiers(params: &Vec<Token>) -> (r: bool)
    ensures
        r == params_ok(params@),
{
    let n = params.len();
    let mut k: usize = 0;
    while k < n
        invariant
            0 <= k <= n,
            n == params.len(),
            forall|j: int| 0 <= j < k ==> params@[j] is Identifier,
        decreases n - k,
    {
        match params[k] {
            Token::Identifier(_) => {},
            _ => {
                return false;
            },
        }
        k += 1;
    }
    true
}

impl Interpreter {
    /// Bind each parameter to its argument in scope `c`.
    fn bind_all(&mut self, c: usize, params: &Vec<Token>, argv: &Vec<Type>)
        requires
            params_ok(params@),
            params@.len() == argv@.len(),
        ensures
            final(self).env.encl == old(self).env.encl,
            final(self).strs == old(self).strs,
            final(self).funs == old(self).funs,
            final(self).out == old(self).out,
            final(self).env.binds@ == old(self).env.binds@ + bind_args(c, params@, argv@),
    {
        proof {
            lemma_bind_args(c, params@, argv@);
        }
        let n = params.len();
        let mut k: usize = 0;
        while k < n
            invariant
                0 <= k <= n,
                n == params.len(),
                params_ok(params@),
                argv@.len() == n,
                self.env.encl == old(self).env.encl,
                self.strs == old(self).strs,
                self.funs == old(self).funs,
                self.out == old(self).out,
                self.env.binds@.len() == old(self).env.binds@.len() + k,
                forall|i: int| 0 <= i < old(self).env.binds@.len() ==> self.env.binds@[i]
                    == old(self).env.binds@[i],
                forall|j: int| 0 <= j < k ==> #[trigger] self.env.binds@[old(
                    self,
                ).env.binds@.len() + j] == bind_args(c, params@, argv@)[j],
            decreases n - k,
        {
            proof {
                lemma_bind_args(c, params@, argv@);
            }
            match params[k] {
                Token::Identifier(sym) => {
                    self.env.define(c, sym, argv[k]);
                    proof {
                        assert(params@[k as int] == Token::Identifier(
                            bind_args(c, params@, argv@)[k as int].sym,
                        ));
                        assert(self.env.binds@[old(self).env.binds@.len() + k as int]
                            == bind_args(c, params@, argv@)[k as int]);
                    }
                },
                _ => {
                    proof {
                        assert(params@[k as int] is Identifier);
                        assert(false);
                    }
                },
            }
            k += 1;
        }
        proof {
            lemma_bind_args(c, params@, argv@);
            assert forall|i: int| 0 <= i < self.env.binds@.len() implies self.env.binds@[i] == (
            old(self).env.binds@ + bind_args(c, params@, argv@))[i] by {
                if i >= old(self).env.binds@.len() {
                    let j = i - old(self).env.binds@.len();
                    assert(self.env.binds@[old(self).env.binds@.len() + j] == bind_args(
                        c,
                        params@,
                        argv@,
                    )[j]);
                }
            }
            assert(self.env.binds@ =~= old(self).env.binds@ + bind_args(c, params@, argv@));
        }
    }
}

impl Interpreter {
    /// Evaluate one expression.  Besides the outcome, returns the clock
    /// readings the evaluation consumed.
    pub fn eval_expr(&mut self, env: usize, e: &Expr, fuel: u64) -> (res: (
        Result<Type, RuntimeError>,
        Ghost<Seq<u64>>,
    ))
        ensures
            evals_to(
                *old(self),
                *final(self),
                env,
                expr_v(*e),
                fuel as nat,
                res.1@,
                eout_of(res.0),
            ),
        decreases fuel, 0int,
    {
        if fuel == 0 {
            proof {
                lemma_empty_log(*self);
            }
            return (
                Err(RuntimeError(Token::Eof, "Evaluation depth limit reached.".to_owned())),
                Ghost(Seq::empty()),
            );
        }
        match e {
            Expr::Literal { value } => {
                proof {
                    lemma_empty_log(*self);
                }
                let r: Result<Type, RuntimeError> = match value {
                    Token::Number(n) => Ok(Type::Number(*n)),
                    Token::Str(s) => Ok(Type::Str(*s)),
                    Token::True => Ok(Type::Boolean(true)),
                    Token::False => Ok(Type::Boolean(false)),
                    Token::Nil => Ok(Type::Nil),
                    _ => Err(RuntimeError(*value, "Unexpected token".to_owned())),
                };
                (r, Ghost(Seq::empty()))
            },
            Expr::Grouping { expression } => {
                let (r, g) = self.eval_expr(env, expression, fuel - 1);
                (r, g)
            },
            Expr::Unary { operator, right } => {
                let op = *operator;
                let (r, g) = self.eval_expr(env, right, fuel - 1);
                match r {
                    Ok(v) => {
                        let r2: Result<Type, RuntimeError> = match op {
                            Token::Minus => match v {
                                Type::Number(n) => Ok(Type::Number(num_neg(n))),
                                _ => Err(
                                    RuntimeError(op, "Operand must be a number.".to_owned()),
                                ),
                            },
                            Token::Bang => match v {
                                Type::Boolean(b) => Ok(Type::Boolean(!b)),
                                _ => Err(
                                    RuntimeError(op, "Operand must be a Boolean.".to_owned()),
                                ),
                            },
                            _ => Err(RuntimeError(op, "Unexpected token.".to_owned())),
                        };
                        (r2, g)
                    },
                    Err(er) => (Err(er), g),
                }
            },
            Expr::Variable { name } => {
                proof {
                    lemma_empty_log(*self);
                }
                match name {
                    Token::Identifier(s) => match self.env.get(env, *s) {
                        Some(v) => (Ok(v), Ghost(Seq::empty())),
                        None => (
                            Err(RuntimeError(*name, self.undefined_message(*s))),
                            Ghost(Seq::empty()),
                        ),
                    },
                    _ => (
                        Err(RuntimeError(*name, "Expect variable name.".to_owned())),
                        Ghost(Seq::empty()),
                    ),
                }
            },
            Expr::Assign { name, value } => {
                let nm = *name;
                let (r, g) = self.eval_expr(env, value, fuel - 1);
                match r {
                    Ok(v) => match nm {
                        Token::Identifier(s) => {
                            proof {
                                crate::env::lemma_resolve_in_range(
                                    self.env.encl@,
                                    self.env.binds@,
                                    env as int,
                                    s as int,
                                );
                            }
                            let ghost mid = *self;
                            let ok = self.env.assign(env, s, v);
                            proof {
                                let rk = resolve(mid.env.encl@, mid.env.binds@, env as int, s as int);
                                assert(ok == (rk is Some));
                                if rk is Some {
                                    let k = rk->0;
                                    assert(0 <= k < mid.env.binds@.len());
                                    assert(self.env.binds@ == mid.env.binds@.update(
                                        k,
                                        Binding {
                                            env: mid.env.binds@[k].env,
                                            sym: mid.env.binds@[k].sym,
                                            val: v,
                                        },
                                    ));
                                }
                            }
                            if ok {
                                (Ok(v), g)
                            } else {
                                (Err(RuntimeError(nm, self.undefined_message(s))), g)
                            }
                        },
                        _ => (Err(RuntimeError(nm, "Expect variable name.".to_owned())), g),
                    },
                    Err(er) => (Err(er), g),
                }
            },
            Expr::Logical { left, operator, right } => {
                let op = *operator;
                let (r, g1) = self.eval_expr(env, left, fuel - 1);
                match r {
                    Ok(v) => {
                        if op == Token::Or || op == Token::And {
                            let t = v.is_true(&self.strs);
                            let take_left = if op == Token::Or {
                                t
                            } else {
                                !t
                            };
                            if take_left {
                                (Ok(v), g1)
                            } else {
                                let (r2, g2) = self.eval_expr(env, right, fuel - 1);
                                let g = Ghost(g1@ + g2@);
                                proof {
                                    assert forall|rest: Seq<u64>|
                                        #[trigger] (g1@ + g2@ + rest) == g1@ + (g2@
                                        + rest) by {
                                        assert(g1@ + g2@ + rest =~= g1@ + (g2@ + rest));
                                    }
                                }
                                (r2, g)
                            }
                        } else {
                            (Err(RuntimeError(op, "Unexpected token.".to_owned())), g1)
                        }
                    },
                    Err(er) => (Err(er), g1),
                }
            },
            Expr::Binary { left, operator, right } => {
                let op = *operator;
                let (r1, g1) = self.eval_expr(env, left, fuel - 1);
                match r1 {
                    Ok(a) => {
                        let (r2, g2) = self.eval_expr(env, right, fuel - 1);
                        match r2 {
                            Ok(b) => {
                                let r3 = self.eval_binop(op, a, b);
                                let g = Ghost(g1@ + g2@);
                                proof {
                                    assert forall|rest: Seq<u64>|
                                        #[trigger] (g1@ + g2@ + rest) == g1@ + (g2@
                                        + rest) by {
                                        assert(g1@ + g2@ + rest =~= g1@ + (g2@ + rest));
                                    }
                                }
                                (r3, g)
                            },
                            Err(er) => {
                                let g = Ghost(g1@ + g2@);
                                proof {
                                    assert forall|rest: Seq<u64>|
                                        #[trigger] (g1@ + g2@ + rest) == g1@ + (g2@
                                        + rest) by {
                                        assert(g1@ + g2@ + rest =~= g1@ + (g2@ + rest));
                                    }
                                }
                                (Err(er), g)
                            },
                        }
                    },
                    Err(er) => (Err(er), g1),
                }
            },
            Expr::Call { callee, paren, arguments } => {
                let pr = *paren;
                let (r1, g1) = self.eval_expr(env, callee, fuel - 1);
                match r1 {
                    Ok(c) => {
                        let (r2, g2) = self.eval_args(env, arguments, 0, fuel - 1);
                        match r2 {
                            Ok(argv) => match c {
                                Type::Callable(fi) => {
                                    let (r3, g3) = self.call_fun(fi, pr, argv, fuel - 1);
                                    let g = Ghost(g1@ + g2@ + g3@);
                                    proof {
                                        assert forall|rest: Seq<u64>|
                                            #[trigger] (g1@ + g2@ + g3@ + rest) == g1@ + (g2@
                                            + (g3@ + rest)) by {
                                            assert(g1@ + g2@ + g3@ + rest =~= g1@ + (g2@ + (g3@
                                                + rest)));
                                        }
                                    }
                                    (r3, g)
                                },
                                _ => {
                                    let g = Ghost(g1@ + g2@);
                                    proof {
                                        assert forall|rest: Seq<u64>|
                                            #[trigger] (g1@ + g2@ + rest) == g1@ + (g2@
                                            + rest) by {
                                            assert(g1@ + g2@ + rest =~= g1@ + (g2@ + rest));
                                        }
                                    }
                                    (
                                        Err(
                                            RuntimeError(
                                                pr,
                                                "Can only call functions and classes.".to_owned(),
                                            ),
                                        ),
                                        g,
                                    )
                                },
                            },
                            Err(er) => {
                                let g = Ghost(g1@ + g2@);
                                proof {
                                    assert forall|rest: Seq<u64>|
                                        #[trigger] (g1@ + g2@ + rest) == g1@ + (g2@
                                        + rest) by {
                                        assert(g1@ + g2@ + rest =~= g1@ + (g2@ + rest));
                                    }
                                }
                                (Err(er), g)
                            },
                        }
                    },
                    Err(er) => (Err(er), g1),
                }
            },
        }
    }

    /// Evaluate the arguments `args[i..]`, left to right.
    fn eval_args(&mut self, env: usize, args: &Vec<Expr>, i: usize, fuel: u64) -> (res: (
        Result<Vec<Type>, RuntimeError>,
        Ghost<Seq<u64>>,
    ))
        requires
            i <= args.len(),
        ensures
            ({
                let out = match res.0 {
                    Ok(vs) => Ok(vs@),
                    Err(e) => Err(err_v(&e)),
                };
                args_to(
                    *old(self),
                    *final(self),
                    env,
                    exprs_v_from(*args, i as int),
                    fuel as nat,
                    res.1@,
                    out,
                )
            }),
        decreases fuel, 1int,
    {
        proof {
            lemma_exprs_v_from(*args, i as int);
        }
        if i >= args.len() {
            proof {
                lemma_empty_log(*self);
                assert(exprs_v_from(*args, i as int) =~= Seq::<ExprS>::empty());
            }
            let vs: Vec<Type> = Vec::new();
            proof {
                assert(vs@ =~= Seq::<Type>::empty());
            }
            return (Ok(vs), Ghost(Seq::empty()));
        }
        if fuel == 0 {
            proof {
                lemma_empty_log(*self);
            }
            return (
                Err(RuntimeError(Token::Eof, "Evaluation depth limit reached.".to_owned())),
                Ghost(Seq::empty()),
            );
        }
        let ghost es = exprs_v_from(*args, i as int);
        proof {
            assert(es[0] == expr_v(args@[i as int]));
            assert(es.drop_first() =~= exprs_v_from(*args, i as int + 1));
        }
        let (r1, g1) = self.eval_expr(env, &args[i], fuel - 1);
        match r1 {
            Ok(v) => {
                let (r2, g2) = self.eval_args(env, args, i + 1, fuel - 1);
                let g = Ghost(g1@ + g2@);
                proof {
                    assert forall|rest: Seq<u64>| #[trigger] (g1@ + g2@ + rest) == g1@ + (g2@
                        + rest) by {
                        assert(g1@ + g2@ + rest =~= g1@ + (g2@ + rest));
                    }
                }
                match r2 {
                    Ok(vs) => {
                        let ghost old_vs = vs;
                        let mut vs = vs;
                        vs.insert(0, v);
                        proof {
                            assert(vs@ =~= seq![v] + old_vs@);
                        }
                        (Ok(vs), g)
                    },
                    Err(er) => (Err(er), g),
                }
            },
            Err(er) => (Err(er), g1),
        }
    }

    /// Call callable `fi` with the evaluated arguments.
    fn call_fun(&mut self, fi: usize, paren: Token, argv: Vec<Type>, fuel: u64) -> (res: (
        Result<Type, RuntimeError>,
        Ghost<Seq<u64>>,
    ))
        ensures
            call_to(
                *old(self),
                *final(self),
                fi as int,
                paren,
                argv@,
                fuel as nat,
                res.1@,
                eout_of(res.0),
            ),
        decreases fuel, 2int,
    {
        if fuel == 0 {
            proof {
                lemma_empty_log(*self);
            }
            return (
                Err(RuntimeError(Token::Eof, "Evaluation depth limit reached.".to_owned())),
                Ghost(Seq::empty()),
            );
        }
        if fi >= self.funs.len() {
            proof {
                lemma_empty_log(*self);
            }
            return (
                Err(RuntimeError(paren, "Can only call functions and classes.".to_owned())),
                Ghost(Seq::empty()),
            );
        }
        proof {
            let fv = self.funs@.map_values(|c: Callable| callable_v(&c));
            assert(fv[fi as int] == callable_v(&self.funs@[fi as int]));
        }
        let (fname, fenv, params, body) = match &self.funs[fi] {
            Callable::Native(_) => {
                if argv.len() != 0 {
                    proof {
                        lemma_empty_log(*self);
                    }
                    return (
                        Err(RuntimeError(paren, "Arity mismatch.".to_owned())),
                        Ghost(Seq::empty()),
                    );
                }
                let secs = unix_seconds();
                let bits = num_from_u64(secs);
                let ghost logseq: Seq<u64> = seq![secs];
                let g = Ghost(logseq);
                proof {
                    assert forall|rest: Seq<u64>| #[trigger] (seq![secs] + rest).drop_first()
                        == rest by {
                        assert((seq![secs] + rest).drop_first() =~= rest);
                    }
                    assert(forall|rest: Seq<u64>| #[trigger] (seq![secs] + rest)[0] == secs);
                }
                return (Ok(Type::Number(bits)), g);
            },
            Callable::Function(fun) => (
                fun.name,
                fun.env,
                clone_tokens(&fun.params),
                clone_stmt(&fun.body),
            ),
        };
        if argv.len() != params.len() {
            proof {
                lemma_empty_log(*self);
            }
            return (
                Err(RuntimeError(paren, "Arity mismatch.".to_owned())),
                Ghost(Seq::empty()),
            );
        }
        // Every parameter must be an identifier.
        if !all_identifiers(&params) {
            proof {
                lemma_empty_log(*self);
            }
            return (
                Err(RuntimeError(fname, "Expect variable name.".to_owned())),
                Ghost(Seq::empty()),
            );
        }
        let c = self.env.new(Some(fenv));
        self.bind_all(c, &params, &argv);
        let (r2, g2) = self.exec_stmt(c, &body, fuel - 1);
        let r3: Result<Type, RuntimeError> = match r2 {
            Ok(_) => Ok(Type::Nil),
            Err(ReturnValue::Return(v)) => Ok(v),
            Err(ReturnValue::Error(e)) => Err(e),
        };
        (r3, g2)
    }
}

impl Interpreter {
    /// Execute one statement.
    pub fn exec_stmt(&mut self, env: usize, s: &Stmt, fuel: u64) -> (res: (
        Result<(), ReturnValue>,
        Ghost<Seq<u64>>,
    ))
        ensures
            flows_to(
                *old(self),
                *final(self),
                env,
                stmt_v(*s),
                fuel as nat,
                res.1@,
                flow_of(res.0),
            ),
        decreases fuel, 4int,
    {
        if fuel == 0 {
            proof {
                lemma_empty_log(*self);
            }
            return (
                Err(
                    ReturnValue::Error(
                        RuntimeError(Token::Eof, "Evaluation depth limit reached.".to_owned()),
                    ),
                ),
                Ghost(Seq::empty()),
            );
        }
        match s {
            Stmt::Expression { expression } => {
                let (r, g) = self.eval_expr(env, expression, fuel - 1);
                match r {
                    Ok(_) => (Ok(()), g),
                    Err(er) => (Err(ReturnValue::Error(er)), g),
                }
            },
            Stmt::Print { expression } => {
                let (r, g) = self.eval_expr(env, expression, fuel - 1);
                match r {
                    Ok(v) => {
                        match v {
                            Type::Nil => (Ok(()), g),
                            _ => {
                                let line = self.display(v);
                                let ghost mid = *self;
                                self.out.push(line);
                                proof {
                                    assert(self.out@.map_values(|x: String| x@)
                                        =~= mid.out@.map_values(|x: String| x@).push(line@));
                                }
                                (Ok(()), g)
                            },
                        }
                    },
                    Err(er) => (Err(ReturnValue::Error(er)), g),
                }
            },
            Stmt::Var { name, initializer } => {
                let nm = *name;
                let (r, g) = match initializer {
                    Some(e) => self.eval_expr(env, e, fuel - 1),
                    None => {
                        proof {
                            lemma_empty_log(*self);
                        }
                        (Ok(Type::Nil), Ghost(Seq::<u64>::empty()))
                    },
                };
                match r {
                    Ok(v) => {
                        match nm {
                            Token::Identifier(sym) => {
                                let ghost mid = *self;
                                self.env.define(env, sym, v);
                                proof {
                                    assert(self.env.binds@ == mid.env.binds@.push(
                                        Binding { env, sym, val: v },
                                    ));
                                    assert forall|rest: Seq<u64>| #![trigger st_view(*self, rest)]
                                        exec_stmt_s(
                                            st_view(*old(self), g@ + rest),
                                            env,
                                            stmt_v(*s),
                                            fuel as nat,
                                        ) == (st_view(*self, rest), FlowS::Done) by {
                                        let stm = st_view(mid, rest);
                                        assert(stm.binds == mid.env.binds@);
                                    }
                                }
                                (Ok(()), g)
                            },
                            _ => (Ok(()), g),
                        }
                    },
                    Err(er) => (Err(ReturnValue::Error(er)), g),
                }
            },
            Stmt::Block { statements } => {
                let c = self.env.new(Some(env));
                let (r, g) = self.exec_stmts(c, statements, 0, fuel - 1);
                (r, g)
            },
            Stmt::If { condition, then_branch, else_branch } => {
                let (r, g1) = self.eval_expr(env, condition, fuel - 1);
                match r {
                    Ok(v) => {
                        let t = v.is_true(&self.strs);
                        if t {
                            let (r2, g2) = self.exec_stmt(env, then_branch, fuel - 1);
                            let g = Ghost(g1@ + g2@);
                            proof {
                                assert forall|rest: Seq<u64>| #[trigger] (g1@ + g2@ + rest)
                                    == g1@ + (g2@ + rest) by {
                                    assert(g1@ + g2@ + rest =~= g1@ + (g2@ + rest));
                                }
                            }
                            (r2, g)
                        } else {
                            match else_branch {
                                Some(eb) => {
                                    let (r2, g2) = self.exec_stmt(env, eb, fuel - 1);
                                    let g = Ghost(g1@ + g2@);
                                    proof {
                                        assert forall|rest: Seq<u64>| #[trigger] (g1@ + g2@
                                            + rest) == g1@ + (g2@ + rest) by {
                                            assert(g1@ + g2@ + rest =~= g1@ + (g2@ + rest));
                                        }
                                    }
                                    (r2, g)
                                },
                                None => (Ok(()), g1),
                            }
                        }
                    },
                    Err(er) => (Err(ReturnValue::Error(er)), g1),
                }
            },
            Stmt::While { condition, body } => {
                let (r, g) = self.exec_while(env, condition, body, fuel);
                (r, g)
            },
            Stmt::For { initializer, condition, body } => {
                let c = self.env.new(Some(env));
                let (r1, g1) = self.exec_stmt(c, initializer, fuel - 1);
                match r1 {
                    Ok(_) => {
                        let (r2, g2) = self.exec_while(c, condition, body, fuel - 1);
                        let g = Ghost(g1@ + g2@);
                        proof {
                            assert forall|rest: Seq<u64>| #[trigger] (g1@ + g2@ + rest) == g1@
                                + (g2@ + rest) by {
                                assert(g1@ + g2@ + rest =~= g1@ + (g2@ + rest));
                            }
                        }
                        (r2, g)
                    },
                    Err(er) => (Err(er), g1),
                }
            },
            Stmt::Function { name, params, body } => {
                proof {
                    lemma_empty_log(*self);
                }
                let nm = *name;
                match nm {
                    Token::Identifier(sym) => {
                        let fun = Function {
                            name: nm,
                            params: clone_tokens(params),
                            body: clone_stmt(body),
                            env,
                        };
                        let idx = self.funs.len();
                        let ghost mid = *self;
                        self.funs.push(Callable::Function(fun));
                        self.env.define(env, sym, Type::Callable(idx));
                        proof {
                            assert(self.funs@.map_values(|c: Callable| callable_v(&c))
                                =~= mid.funs@.map_values(|c: Callable| callable_v(&c)).push(
                                callable_v(&self.funs@[idx as int]),
                            ));
                        }
                        (Ok(()), Ghost(Seq::empty()))
                    },
                    _ => (Ok(()), Ghost(Seq::empty())),
                }
            },
            Stmt::Return { keyword: _, value } => {
                match value {
                    Some(e) => {
                        let (r, g) = self.eval_expr(env, e, fuel - 1);
                        match r {
                            Ok(v) => (Err(ReturnValue::Return(v)), g),
                            Err(er) => (Err(ReturnValue::Error(er)), g),
                        }
                    },
                    None => {
                        proof {
                            lemma_empty_log(*self);
                        }
                        (Err(ReturnValue::Return(Type::Nil)), Ghost(Seq::empty()))
                    },
                }
            },
            Stmt::Class { .. } => {
                proof {
                    lemma_empty_log(*self);
                }
                (Ok(()), Ghost(Seq::empty()))
            },
        }
    }

    /// Execute the statements `ss[i..]`, in order, stopping at the first
    /// fault or `return`.
    fn exec_stmts(&mut self, env: usize, ss: &Vec<Stmt>, i: usize, fuel: u64) -> (res: (
        Result<(), ReturnValue>,
        Ghost<Seq<u64>>,
    ))
        requires
            i <= ss.len(),
        ensures
            stmts_to(
                *old(self),
                *final(self),
                env,
                stmts_v_from(*ss, i as int),
                fuel as nat,
                res.1@,
                flow_of(res.0),
            ),
        decreases fuel, 5int,
    {
        proof {
            lemma_stmts_v_from(*ss, i as int);
        }
        if i >= ss.len() {
            proof {
                lemma_empty_log(*self);
                assert(stmts_v_from(*ss, i as int) =~= Seq::<StmtS>::empty());
            }
            return (Ok(()), Ghost(Seq::empty()));
        }
        if fuel == 0 {
            proof {
                lemma_empty_log(*self);
            }
            return (
                Err(
                    ReturnValue::Error(
                        RuntimeError(Token::Eof, "Evaluation depth limit reached.".to_owned()),
                    ),
                ),
                Ghost(Seq::empty()),
            );
        }
        proof {
            assert(stmts_v_from(*ss, i as int)[0] == stmt_v(ss@[i as int]));
            assert(stmts_v_from(*ss, i as int).drop_first() =~= stmts_v_from(*ss, i as int + 1));
        }
        let (r1, g1) = self.exec_stmt(env, &ss[i], fuel - 1);
        match r1 {
            Ok(_) => {
                let (r2, g2) = self.exec_stmts(env, ss, i + 1, fuel - 1);
                let g = Ghost(g1@ + g2@);
                proof {
                    assert forall|rest: Seq<u64>| #[trigger] (g1@ + g2@ + rest) == g1@ + (g2@
                        + rest) by {
                        assert(g1@ + g2@ + rest =~= g1@ + (g2@ + rest));
                    }
                }
                (r2, g)
            },
            Err(er) => (Err(er), g1),
        }
    }

    /// A while loop: test, run the body, repeat while the body falls
    /// through.
    fn exec_while(&mut self, env: usize, cond: &Expr, body: &Stmt, fuel: u64) -> (res: (
        Result<(), ReturnValue>,
        Ghost<Seq<u64>>,
    ))
        ensures
            while_to(
                *old(self),
                *final(self),
                env,
                expr_v(*cond),
                stmt_v(*body),
                fuel as nat,
                res.1@,
                flow_of(res.0),
            ),
        decreases fuel, 3int,
    {
        if fuel == 0 {
            proof {
                lemma_empty_log(*self);
            }
            return (
                Err(
                    ReturnValue::Error(
                        RuntimeError(Token::Eof, "Evaluation depth limit reached.".to_owned()),
                    ),
                ),
                Ghost(Seq::empty()),
            );
        }
        let (r, g1) = self.eval_expr(env, cond, fuel - 1);
        match r {
            Ok(v) => {
                let t = v.is_true(&self.strs);
                if !t {
                    (Ok(()), g1)
                } else {
                    let (r2, g2) = self.exec_stmt(env, body, fuel - 1);
                    match r2 {
                        Ok(_) => {
                            let (r3, g3) = self.exec_while(env, cond, body, fuel - 1);
                            let g = Ghost(g1@ + g2@ + g3@);
                            proof {
                                assert forall|rest: Seq<u64>| #[trigger] (g1@ + g2@ + g3@ + rest)
                                    == g1@ + (g2@ + (g3@ + rest)) by {
                                    assert(g1@ + g2@ + g3@ + rest =~= g1@ + (g2@ + (g3@
                                        + rest)));
                                }
                            }
                            (r3, g)
                        },
                        Err(er) => {
                            let g = Ghost(g1@ + g2@);
                            proof {
                                assert forall|rest: Seq<u64>| #[trigger] (g1@ + g2@ + rest)
                                    == g1@ + (g2@ + rest) by {
                                    assert(g1@ + g2@ + rest =~= g1@ + (g2@ + rest));
                                }
                            }
                            (Err(er), g)
                        },
                    }
                }
            },
            Err(er) => (Err(ReturnValue::Error(er)), g1),
        }
    }

    /// Run a whole program against this interpreter: the lines it printed,
    /// and the error that stopped it, if one did.  An uncaught `return`
    /// becomes the error "Only functions can return values."
    pub fn interpret(&mut self, statements: &Vec<Stmt>) -> (res: (
        Vec<String>,
        Option<RuntimeError>,
    ))
        ensures
            exists|ticks: Seq<u64>|
                #![trigger st_view(*old(self), ticks)]
                {
                    let (st1, er) = run_program_s(
                        st_view(*old(self), ticks),
                        stmts_v(*statements),
                        RUN_FUEL as nat,
                    );
                    &&& st_view(*final(self), Seq::<u64>::empty()) == SState {
                        out: Seq::<Seq<char>>::empty(),
                        ..st1
                    }
                    &&& res.0@.map_values(|x: String| x@) == st1.out
                    &&& match (res.1, er) {
                        (None, None) => true,
                        (Some(re), Some(es)) => err_v(&re) == es,
                        _ => false,
                    }
                },
    {
        let (r, g) = self.exec_stmts(0, statements, 0, RUN_FUEL);
        let ghost mid = *self;
        let lines = self.out.split_off(0);
        let err: Option<RuntimeError> = match r {
            Ok(_) => None,
            Err(ReturnValue::Error(e)) => Some(e),
            Err(ReturnValue::Return(_)) => Some(
                RuntimeError(Token::Return, "Only functions can return values.".to_owned()),
            ),
        };
        proof {
            assert(g@ + Seq::<u64>::empty() =~= g@);
            assert(st_view(mid, Seq::<u64>::empty()) == (exec_stmts_s(
                st_view(*old(self), g@),
                0,
                stmts_v(*statements),
                RUN_FUEL as nat,
            )).0);
            assert(self.out@.map_values(|x: String| x@) =~= Seq::<Seq<char>>::empty());
            assert(lines@ == mid.out@);
        }
        (lines, err)
    }
}

/// What one run of a source text produced: the printed lines, and the
/// parse report or runtime fault that stopped it, if one did.
pub struct RunOutcome {
    pub output: Vec<String>,
    pub parse_error: Option<String>,
    pub runtime_error: Option<RuntimeError>,
}

/// Lex, parse and interpret a source text against a persistent
/// interpreter, so that definitions accumulate across prompt lines.  In
/// REPL mode an expression statement without its semicolon is printed
/// instead of rejected.
pub fn run(source: &str, interpreter: &mut Interpreter, is_repl: bool) -> (r: RunOutcome)
    ensures
        ({
            let (toks, tab2) = crate::lexer::spec_scan(source@, 0, old(interpreter).strs@);
            match crate::parser::spec_parse(toks, 0, is_repl, crate::parser::PARSE_FUEL as nat) {
                Err(msg) => {
                    &&& match r.parse_error {
                        Some(m) => m@ == msg,
                        None => false,
                    }
                    &&& r.runtime_error is None
                    &&& r.output@.len() == 0
                    &&& final(interpreter).strs@ == tab2
                    &&& final(interpreter).env == old(interpreter).env
                    &&& final(interpreter).funs == old(interpreter).funs
                    &&& final(interpreter).out == old(interpreter).out
                },
                Ok(ss) => {
                    &&& r.parse_error is None
                    &&& exists|ticks: Seq<u64>|
                        #![trigger st_view(*old(interpreter), ticks)]
                        {
                            let st0 = SState { strs: tab2, ..st_view(*old(interpreter), ticks) };
                            let (st1, er) = run_program_s(st0, ss, RUN_FUEL as nat);
                            &&& st_view(*final(interpreter), Seq::<u64>::empty()) == SState {
                                out: Seq::<Seq<char>>::empty(),
                                ..st1
                            }
                            &&& r.output@.map_values(|x: String| x@) == st1.out
                            &&& match (r.runtime_error, er) {
                                (None, None) => true,
                                (Some(re), Some(es)) => err_v(&re) == es,
                                _ => false,
                            }
                        }
                },
            }
        }),
{
    let mut table = StrTable::new();
    core::mem::swap(&mut interpreter.strs, &mut table);
    let mut lexer = crate::lexer::Lexer::new(source, table);
    let tokens = lexer.scan_tokens();
    core::mem::swap(&mut interpreter.strs, &mut lexer.strs);
    let mut parser = crate::parser::Parser::new(tokens, is_repl);
    match parser.parse() {
        Ok(stmts) => {
            let ghost mid = *interpreter;
            let (output, runtime_error) = interpreter.interpret(&stmts);
            proof {
                let t = choose|ticks: Seq<u64>|
                    #![trigger st_view(mid, ticks)]
                    {
                        let (st1, er) = run_program_s(
                            st_view(mid, ticks),
                            stmts_v(stmts),
                            RUN_FUEL as nat,
                        );
                        &&& st_view(*interpreter, Seq::<u64>::empty()) == SState {
                            out: Seq::<Seq<char>>::empty(),
                            ..st1
                        }
                        &&& output@.map_values(|x: String| x@) == st1.out
                        &&& match (runtime_error, er) {
                            (None, None) => true,
                            (Some(re), Some(es)) => err_v(&re) == es,
                            _ => false,
                        }
                    };
                assert(st_view(mid, t) == SState {
                    strs: mid.strs@,
                    ..st_view(*old(interpreter), t)
                });
            }
            RunOutcome { output, parse_error: None, runtime_error }
        },
        Err(m) => RunOutcome { output: Vec::new(), parse_error: Some(m), runtime_error: None },
    }
}

} // verus!
