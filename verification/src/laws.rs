//! Laws of the pipeline, stated and proved against the mathematical
//! parser and evaluator.

use vstd::prelude::*;

use crate::ast::{ExprS, StmtS};
use crate::env::{Binding, find_bind, resolve, lookup};
use crate::parser::{spec_program, spec_declaration, spec_sync, tok_at};
use crate::sem::{SState, EOut, FlowS, eval_expr_s, eval_args_s, call_fun_s, exec_stmt_s, exec_while_s,
    exec_stmts_s, display_v, params_ok};
use crate::token::Token;
use crate::types::{Type, spec_is_true};

verus! {

/// The number of top-level declarations the grammar finds, counted along
/// the same path the parser takes: one per declaration parsed, none for a
/// stretch skipped by panic-mode recovery.
pub open spec fn top_decl_count(toks: Seq<Token>, i: int, repl: bool, fuel: nat) -> nat
    decreases fuel,
{
    if tok_at(toks, i) == Token::Eof {
        0
    } else if fuel == 0 {
        0
    } else {
        let f = (fuel - 1) as nat;
        let (r, j) = spec_declaration(toks, i, repl, f);
        match r {
            Ok(_) => {
                let j2 = if j <= i {
                    i + 1
                } else {
                    j
                };
                1 + top_decl_count(toks, j2, repl, f)
            },
            Err(_) => {
                let j2 = spec_sync(toks, if j < i {
                    i
                } else {
                    j
                });
                let j3 = if j2 <= i {
                    i + 1
                } else {
                    j2
                };
                top_decl_count(toks, j3, repl, f)
            },
        }
    }
}

/// Parsing yields exactly one statement per top-level declaration: for any
/// token sequence — in particular one produced by the lexer — the statement
/// list and the declaration count walk the same path.
pub proof fn lemma_parse_length(toks: Seq<Token>, i: int, repl: bool, fuel: nat)
    ensures
        spec_program(toks, i, repl, fuel).0.len() == top_decl_count(toks, i, repl, fuel),
    decreases fuel,
{
    if tok_at(toks, i) != Token::Eof && fuel != 0 {
        let f = (fuel - 1) as nat;
        let (r, j) = spec_declaration(toks, i, repl, f);
        match r {
            Ok(_) => {
                let j2 = if j <= i {
                    i + 1
                } else {
                    j
                };
                lemma_parse_length(toks, j2, repl, f);
            },
            Err(_) => {
                let j2 = spec_sync(toks, if j < i {
                    i
                } else {
                    j
                });
                let j3 = if j2 <= i {
                    i + 1
                } else {
                    j2
                };
                lemma_parse_length(toks, j3, repl, f);
            },
        }
    }
}

/// The print law: when an expression evaluates to a value, `print e;`
/// appends exactly that value's display form as one line — except `nil`,
/// which prints nothing — and has no other effect.
pub proof fn lemma_print_law(st: SState, env: usize, e: ExprS, v: Type, st1: SState, fuel: nat)
    requires
        eval_expr_s(st, env, e, fuel) == (st1, EOut::Val(v)),
    ensures
        exec_stmt_s(st, env, StmtS::Print { expression: e }, (fuel + 1) as nat) == (
            if v is Nil {
                st1
            } else {
                SState { out: st1.out.push(display_v(st1, v)), ..st1 }
            },
            FlowS::Done,
        ),
{
    assert(((fuel + 1) as nat - 1) as nat == fuel);
}

/// The short-circuit law for `or`: when the left side evaluates to a truthy
/// value, that value is the whole expression's value and the right side has
/// no effect at all.
pub proof fn lemma_or_short_circuit(
    st: SState,
    env: usize,
    a: ExprS,
    b: ExprS,
    v: Type,
    st1: SState,
    fuel: nat,
)
    requires
        eval_expr_s(st, env, a, fuel) == (st1, EOut::Val(v)),
        spec_is_true(v, st1.strs),
    ensures
        eval_expr_s(
            st,
            env,
            ExprS::Logical {
                left: Box::new(a),
                operator: Token::Or,
                right: Box::new(b),
            },
            (fuel + 1) as nat,
        ) == (st1, EOut::Val(v)),
{
    assert(((fuel + 1) as nat - 1) as nat == fuel);
}

/// The short-circuit law for `and`: when the left side evaluates to a falsy
/// value, that value is the whole expression's value and the right side has
/// no effect at all.
pub proof fn lemma_and_short_circuit(
    st: SState,
    env: usize,
    a: ExprS,
    b: ExprS,
    v: Type,
    st1: SState,
    fuel: nat,
)
    requires
        eval_expr_s(st, env, a, fuel) == (st1, EOut::Val(v)),
        !spec_is_true(v, st1.strs),
    ensures
        eval_expr_s(
            st,
            env,
            ExprS::Logical {
                left: Box::new(a),
                operator: Token::And,
                right: Box::new(b),
            },
            (fuel + 1) as nat,
        ) == (st1, EOut::Val(v)),
{
    assert(((fuel + 1) as nat - 1) as nat == fuel);
}

/// Successful argument evaluation yields exactly one value per argument
/// expression, in order.
pub proof fn lemma_args_length(st: SState, env: usize, args: Seq<ExprS>, fuel: nat)
    ensures
        ({
            let (st2, r) = eval_args_s(st, env, args, fuel);
            match r {
                Ok(vs) => vs.len() == args.len(),
                Err(_) => true,
            }
        }),
    decreases fuel,
{
    if args.len() != 0 && fuel != 0 {
        let f = (fuel - 1) as nat;
        let (st1, r) = eval_expr_s(st, env, args[0], f);
        match r {
            EOut::Val(_) => {
                lemma_args_length(st1, env, args.drop_first(), f);
            },
            EOut::Fault(_) => {},
        }
    }
}

/// The arity law: a call to a function of N parameters runs its body only
/// after all its argument expressions have been evaluated, left to right,
/// to exactly as many values; when their number is not N the call stops
/// with the arity fault and the body never runs.
pub proof fn lemma_arity_law(st: SState, fi: int, paren: Token, argv: Seq<Type>, fuel: nat)
    requires
        fuel > 0,
        0 <= fi < st.funs.len(),
        st.funs[fi] is Function,
    ensures
        ({
            let n = st.funs[fi]->Function_params.len();
            argv.len() != n ==> call_fun_s(st, fi, paren, argv, fuel) == (
                st,
                EOut::Fault(
                    crate::types::ErrS { token: paren, msg: "Arity mismatch."@ },
                ),
            )
        }),
{
}

/// The return law at a statement sequence: a statement that returns makes
/// the whole remaining sequence return the same value, with every later
/// statement skipped.
pub proof fn lemma_return_skips(
    st: SState,
    env: usize,
    ss: Seq<StmtS>,
    v: Type,
    st1: SState,
    fuel: nat,
)
    requires
        ss.len() > 0,
        exec_stmt_s(st, env, ss[0], fuel) == (st1, FlowS::Ret(v)),
    ensures
        exec_stmts_s(st, env, ss, (fuel + 1) as nat) == (st1, FlowS::Ret(v)),
{
    assert(((fuel + 1) as nat - 1) as nat == fuel);
}

/// The return law at the call boundary: when a user function's body stops
/// at `return v`, the call's value is exactly `v`.
pub proof fn lemma_return_law(
    st: SState,
    fi: int,
    paren: Token,
    argv: Seq<Type>,
    v: Type,
    st2: SState,
    fuel: nat,
)
    requires
        0 <= fi < st.funs.len(),
        st.funs[fi] is Function,
        argv.len() == st.funs[fi]->Function_params.len(),
        params_ok(st.funs[fi]->Function_params),
        ({
            let c = st.encl.len() as usize;
            let st1 = SState {
                encl: st.encl.push(Some(st.funs[fi]->Function_env as usize)),
                binds: st.binds + crate::sem::bind_args(
                    c,
                    st.funs[fi]->Function_params,
                    argv,
                ),
                ..st
            };
            exec_stmt_s(st1, c, st.funs[fi]->Function_body, fuel) == (st2, FlowS::Ret(v))
        }),
    ensures
        call_fun_s(st, fi, paren, argv, (fuel + 1) as nat) == (st2, EOut::Val(v)),
{
    assert(((fuel + 1) as nat - 1) as nat == fuel);
}

/// A binding just declared with `var x = v;` in scope `e` is what `x`
/// resolves to there.
pub proof fn lemma_lookup_after_define(
    encl: Seq<Option<usize>>,
    binds: Seq<Binding>,
    e: usize,
    x: usize,
    v: Type,
)
    requires
        e < encl.len(),
    ensures
        lookup(encl, binds.push(Binding { env: e, sym: x, val: v }), e as int, x as int) == Some(
            v,
        ),
{
    let binds2 = binds.push(Binding { env: e, sym: x, val: v });
    assert(binds2.last() == Binding { env: e, sym: x, val: v });
    assert(find_bind(binds2, e as int, x as int) == Some(binds2.len() - 1));
}

/// `resolve` reads only the scope and name of each binding, never its
/// value.
pub proof fn lemma_find_bind_values_irrelevant(
    a: Seq<Binding>,
    b: Seq<Binding>,
    env: int,
    sym: int,
)
    requires
        a.len() == b.len(),
        forall|j: int| 0 <= j < a.len() ==> a[j].env == b[j].env && a[j].sym == b[j].sym,
    ensures
        find_bind(a, env, sym) == find_bind(b, env, sym),
    decreases a.len(),
{
    if a.len() > 0 {
        assert forall|j: int| 0 <= j < a.len() - 1 implies a.drop_last()[j].env
            == b.drop_last()[j].env && a.drop_last()[j].sym == b.drop_last()[j].sym by {
            assert(a.drop_last()[j] == a[j]);
            assert(b.drop_last()[j] == b[j]);
        }
        lemma_find_bind_values_irrelevant(a.drop_last(), b.drop_last(), env, sym);
    }
}

pub proof fn lemma_resolve_values_irrelevant(
    encl: Seq<Option<usize>>,
    a: Seq<Binding>,
    b: Seq<Binding>,
    env: int,
    sym: int,
)
    requires
        a.len() == b.len(),
        forall|j: int| 0 <= j < a.len() ==> a[j].env == b[j].env && a[j].sym == b[j].sym,
    ensures
        resolve(encl, a, env, sym) == resolve(encl, b, env, sym),
    decreases env,
{
    if 0 <= env < encl.len() {
        lemma_find_bind_values_irrelevant(a, b, env, sym);
        match find_bind(a, env, sym) {
            Some(_) => {},
            None => match encl[env] {
                Some(p) => {
                    if p < env {
                        lemma_resolve_values_irrelevant(encl, a, b, p as int, sym);
                    }
                },
                None => {},
            },
        }
    }
}

/// The variable resolution law: after `x` is assigned through the binding
/// it resolves to at scope `d`, every scope `e` in which `x` resolves to
/// that same binding — `d` itself and every enclosed scope that does not
/// shadow `x` — sees the assigned value.
pub proof fn lemma_resolution_law(
    encl: Seq<Option<usize>>,
    binds: Seq<Binding>,
    d: int,
    e: int,
    x: int,
    k: int,
    v: Type,
)
    requires
        resolve(encl, binds, d, x) == Some(k),
        resolve(encl, binds, e, x) == Some(k),
        0 <= k < binds.len(),
    ensures
        lookup(
            encl,
            binds.update(k, Binding { env: binds[k].env, sym: binds[k].sym, val: v }),
            e,
            x,
        ) == Some(v),
{
    let binds2 = binds.update(k, Binding { env: binds[k].env, sym: binds[k].sym, val: v });
    lemma_resolve_values_irrelevant(encl, binds, binds2, e, x);
}

/// A block introduces a scope that did not exist before it: its body runs
/// in the fresh scope `st.encl.len()`, chained to the enclosing one, and
/// the statement after the block continues in the enclosing scope itself.
pub proof fn lemma_block_runs_in_fresh_scope(st: SState, env: usize, ss: Seq<StmtS>, fuel: nat)
    ensures
        exec_stmt_s(st, env, StmtS::Block { statements: ss }, (fuel + 1) as nat)
            == exec_stmts_s(
            SState { encl: st.encl.push(Some(env)), ..st },
            st.encl.len() as usize,
            ss,
            fuel,
        ),
{
    assert(((fuel + 1) as nat - 1) as nat == fuel);
}

/// The block scoping law at the environment: bindings made in scopes that
/// did not exist before the block — the block's own scope and any scope
/// opened inside it — are unreachable from any scope that existed before,
/// so on exit every name resolves through the same chain of bindings as
/// before the block, the enclosing binding of a shadowed name included.
pub proof fn lemma_block_scoping(
    encl: Seq<Option<usize>>,
    grown: Seq<Option<usize>>,
    binds: Seq<Binding>,
    fresh: Seq<Binding>,
    e: int,
    x: int,
)
    requires
        encl.len() <= grown.len(),
        forall|j: int| 0 <= j < encl.len() ==> grown[j] == encl[j],
        forall|j: int| 0 <= j < fresh.len() ==> fresh[j].env >= encl.len(),
        e < encl.len(),
    ensures
        resolve(grown, binds + fresh, e, x) == resolve(encl, binds, e, x),
    decreases e,
{
    if 0 <= e < encl.len() {
        lemma_find_bind_append_foreign(binds, fresh, e, x);
        match find_bind(binds, e, x) {
            Some(_) => {},
            None => match encl[e] {
                Some(p) => {
                    if p < e {
                        lemma_block_scoping(encl, grown, binds, fresh, p as int, x);
                    }
                },
                None => {},
            },
        }
    }
}

/// Appending bindings that all live in other scopes does not change what a
/// scope's own search finds.
pub proof fn lemma_find_bind_append_foreign(
    binds: Seq<Binding>,
    fresh: Seq<Binding>,
    e: int,
    x: int,
)
    requires
        forall|j: int| 0 <= j < fresh.len() ==> fresh[j].env != e,
    ensures
        find_bind(binds + fresh, e, x) == find_bind(binds, e, x),
    decreases fresh.len(),
{
    if fresh.len() == 0 {
        assert(binds + fresh =~= binds);
    } else {
        let all = binds + fresh;
        assert(all.last() == fresh.last());
        assert(all.last().env != e);
        assert(all.drop_last() =~= binds + fresh.drop_last());
        assert forall|j: int| 0 <= j < fresh.drop_last().len() implies fresh.drop_last()[j].env
            != e by {
            assert(fresh.drop_last()[j] == fresh[j]);
        }
        lemma_find_bind_append_foreign(binds, fresh.drop_last(), e, x);
    }
}

/// What one evaluation step may do to the scope structure: scopes are only
/// added, existing bindings keep their scope and name (only values change),
/// and a new binding lives either in the scope evaluation started from or
/// in a scope that did not exist before.  The last escape hatch covers
/// ghost states whose arena outgrows `usize`; a run of the executable
/// interpreter, whose arena is a vector, never reaches it.
pub open spec fn frame_ok(pre: SState, post: SState, env: usize) -> bool {
    &&& pre.encl.len() <= post.encl.len()
    &&& forall|j: int| 0 <= j < pre.encl.len() ==> post.encl[j] == pre.encl[j]
    &&& pre.binds.len() <= post.binds.len()
    &&& forall|j: int| 0 <= j < pre.binds.len() ==> #[trigger] post.binds[j].env
        == pre.binds[j].env && post.binds[j].sym == pre.binds[j].sym
    &&& forall|j: int| pre.binds.len() <= j < post.binds.len() ==> #[trigger] post.binds[j].env
        == env || post.binds[j].env >= pre.encl.len() || post.encl.len() > usize::MAX
}

proof fn lemma_frame_trans(a: SState, b: SState, c: SState, env: usize, env2: usize)
    requires
        frame_ok(a, b, env),
        frame_ok(b, c, env2),
        env2 == env || env2 >= a.encl.len() || b.encl.len() > usize::MAX,
    ensures
        frame_ok(a, c, env),
{
    assert forall|j: int| a.binds.len() <= j < c.binds.len() implies #[trigger] c.binds[j].env
        == env || c.binds[j].env >= a.encl.len() || c.encl.len() > usize::MAX by {
        if j < b.binds.len() {
            assert(c.binds[j].env == b.binds[j].env);
        }
    }
}

proof fn frame_eval_expr(st: SState, env: usize, e: ExprS, fuel: nat)
    ensures
        frame_ok(st, eval_expr_s(st, env, e, fuel).0, env),
    decreases fuel, 0int,
{
    if fuel != 0 {
        let f = (fuel - 1) as nat;
        match e {
            ExprS::Literal { .. } => {},
            ExprS::Grouping { expression } => {
                frame_eval_expr(st, env, *expression, f);
            },
            ExprS::Unary { operator, right } => {
                frame_eval_expr(st, env, *right, f);
            },
            ExprS::Variable { .. } => {},
            ExprS::Assign { name, value } => {
                frame_eval_expr(st, env, *value, f);
            },
            ExprS::Logical { left, operator, right } => {
                frame_eval_expr(st, env, *left, f);
                let (st1, r) = eval_expr_s(st, env, *left, f);
                if r is Val {
                    frame_eval_expr(st1, env, *right, f);
                    lemma_frame_trans(st, st1, eval_expr_s(st1, env, *right, f).0, env, env);
                }
            },
            ExprS::Binary { left, operator, right } => {
                frame_eval_expr(st, env, *left, f);
                let (st1, r1) = eval_expr_s(st, env, *left, f);
                if r1 is Val {
                    frame_eval_expr(st1, env, *right, f);
                    let (st2, r2) = eval_expr_s(st1, env, *right, f);
                    lemma_frame_trans(st, st1, st2, env, env);
                    if r2 is Val {
                        // A binary operator touches at most the string table.
                        lemma_frame_trans(
                            st,
                            st2,
                            crate::sem::eval_binop_s(st2, operator, r1->Val_0, r2->Val_0).0,
                            env,
                            env,
                        );
                    }
                }
            },
            ExprS::Call { callee, paren, arguments } => {
                frame_eval_expr(st, env, *callee, f);
                let (st1, rc) = eval_expr_s(st, env, *callee, f);
                if rc is Val {
                    frame_eval_args(st1, env, arguments, f);
                    let (st2, ra) = eval_args_s(st1, env, arguments, f);
                    lemma_frame_trans(st, st1, st2, env, env);
                    if ra is Ok && rc->Val_0 is Callable {
                        frame_call_fun(st2, rc->Val_0->Callable_0 as int, paren, ra->Ok_0, env, f);
                        lemma_frame_trans(
                            st,
                            st2,
                            call_fun_s(st2, rc->Val_0->Callable_0 as int, paren, ra->Ok_0, f).0,
                            env,
                            env,
                        );
                    }
                }
            },
        }
    }
}

proof fn frame_eval_args(st: SState, env: usize, args: Seq<ExprS>, fuel: nat)
    ensures
        frame_ok(st, eval_args_s(st, env, args, fuel).0, env),
    decreases fuel, 1int,
{
    if args.len() != 0 && fuel != 0 {
        let f = (fuel - 1) as nat;
        frame_eval_expr(st, env, args[0], f);
        let (st1, r) = eval_expr_s(st, env, args[0], f);
        if r is Val {
            frame_eval_args(st1, env, args.drop_first(), f);
            lemma_frame_trans(st, st1, eval_args_s(st1, env, args.drop_first(), f).0, env, env);
        }
    }
}

proof fn frame_call_fun(st: SState, fi: int, paren: Token, argv: Seq<Type>, env: usize, fuel: nat)
    ensures
        frame_ok(st, call_fun_s(st, fi, paren, argv, fuel).0, env),
    decreases fuel, 2int,
{
    if fuel != 0 && 0 <= fi < st.funs.len() {
        let f = (fuel - 1) as nat;
        match st.funs[fi] {
            crate::types::CallableS::Clock => {},
            crate::types::CallableS::Function { name, params, body, env: closure } => {
                if argv.len() == params.len() && params_ok(params) {
                    let c = st.encl.len() as usize;
                    let fresh = crate::sem::bind_args(c, params, argv);
                    lemma_bind_args_env(c, params, argv);
                    let st1 = SState {
                        encl: st.encl.push(Some(closure as usize)),
                        binds: st.binds + fresh,
                        ..st
                    };
                    if st.encl.len() <= usize::MAX {
                        assert(c == st.encl.len());
                    } else {
                        assert(st1.encl.len() > usize::MAX);
                    }
                    assert(frame_ok(st, st1, env));
                    frame_exec_stmt(st1, c, body, f);
                    lemma_frame_trans(st, st1, exec_stmt_s(st1, c, body, f).0, env, c);
                }
            },
        }
    }
}

/// Every binding that binding a parameter list makes lives in the call's
/// own scope.
proof fn lemma_bind_args_env(env: usize, params: Seq<Token>, argv: Seq<Type>)
    ensures
        forall|j: int| 0 <= j < crate::sem::bind_args(env, params, argv).len() ==> (
        #[trigger] crate::sem::bind_args(env, params, argv)[j]).env == env,
    decreases params.len(),
{
    if params.len() != 0 && argv.len() != 0 {
        lemma_bind_args_env(env, params.drop_first(), argv.drop_first());
        assert forall|j: int| 0 <= j < crate::sem::bind_args(env, params, argv).len() implies (
        #[trigger] crate::sem::bind_args(env, params, argv)[j]).env == env by {
            let tail = crate::sem::bind_args(env, params.drop_first(), argv.drop_first());
            match params[0] {
                Token::Identifier(s) => {
                    if j > 0 {
                        assert(crate::sem::bind_args(env, params, argv)[j] == tail[j - 1]);
                    }
                },
                _ => {
                    assert(crate::sem::bind_args(env, params, argv)[j] == tail[j]);
                },
            }
        }
    }
}

proof fn frame_exec_while(st: SState, env: usize, cond: ExprS, body: StmtS, fuel: nat)
    ensures
        frame_ok(st, exec_while_s(st, env, cond, body, fuel).0, env),
    decreases fuel, 3int,
{
    if fuel != 0 {
        let f = (fuel - 1) as nat;
        frame_eval_expr(st, env, cond, f);
        let (st1, r) = eval_expr_s(st, env, cond, f);
        if r is Val && spec_is_true(r->Val_0, st1.strs) {
            frame_exec_stmt(st1, env, body, f);
            let (st2, flow) = exec_stmt_s(st1, env, body, f);
            lemma_frame_trans(st, st1, st2, env, env);
            if flow is Done {
                frame_exec_while(st2, env, cond, body, f);
                lemma_frame_trans(st, st2, exec_while_s(st2, env, cond, body, f).0, env, env);
            }
        }
    }
}

proof fn frame_exec_stmt(st: SState, env: usize, s: StmtS, fuel: nat)
    ensures
        frame_ok(st, exec_stmt_s(st, env, s, fuel).0, env),
    decreases fuel, 4int,
{
    if fuel != 0 {
        let f = (fuel - 1) as nat;
        match s {
            StmtS::Expression { expression } => {
                frame_eval_expr(st, env, expression, f);
            },
            StmtS::Print { expression } => {
                frame_eval_expr(st, env, expression, f);
                let (st1, r) = eval_expr_s(st, env, expression, f);
                if r is Val && !(r->Val_0 is Nil) {
                    lemma_frame_trans(
                        st,
                        st1,
                        SState { out: st1.out.push(display_v(st1, r->Val_0)), ..st1 },
                        env,
                        env,
                    );
                }
            },
            StmtS::Var { name, initializer } => {
                match initializer {
                    Some(e) => {
                        frame_eval_expr(st, env, e, f);
                        let (st1, r) = eval_expr_s(st, env, e, f);
                        if r is Val && name is Identifier {
                            lemma_frame_trans(
                                st,
                                st1,
                                SState {
                                    binds: st1.binds.push(
                                        Binding {
                                            env,
                                            sym: name->Identifier_0,
                                            val: r->Val_0,
                                        },
                                    ),
                                    ..st1
                                },
                                env,
                                env,
                            );
                        }
                    },
                    None => {},
                }
            },
            StmtS::Block { statements } => {
                let c = st.encl.len() as usize;
                let st1 = SState { encl: st.encl.push(Some(env)), ..st };
                if st.encl.len() <= usize::MAX {
                    assert(c == st.encl.len());
                } else {
                    assert(st1.encl.len() > usize::MAX);
                }
                frame_exec_stmts(st1, c, statements, f);
                lemma_frame_trans(st, st1, exec_stmts_s(st1, c, statements, f).0, env, c);
            },
            StmtS::If { condition, then_branch, else_branch } => {
                frame_eval_expr(st, env, condition, f);
                let (st1, r) = eval_expr_s(st, env, condition, f);
                if r is Val {
                    if spec_is_true(r->Val_0, st1.strs) {
                        frame_exec_stmt(st1, env, *then_branch, f);
                        lemma_frame_trans(
                            st,
                            st1,
                            exec_stmt_s(st1, env, *then_branch, f).0,
                            env,
                            env,
                        );
                    } else {
                        match else_branch {
                            Some(eb) => {
                                frame_exec_stmt(st1, env, *eb, f);
                                lemma_frame_trans(
                                    st,
                                    st1,
                                    exec_stmt_s(st1, env, *eb, f).0,
                                    env,
                                    env,
                                );
                            },
                            None => {},
                        }
                    }
                }
            },
            StmtS::While { condition, body } => {
                frame_exec_while(st, env, condition, *body, fuel);
            },
            StmtS::For { initializer, condition, body } => {
                let c = st.encl.len() as usize;
                let st1 = SState { encl: st.encl.push(Some(env)), ..st };
                if st.encl.len() <= usize::MAX {
                    assert(c == st.encl.len());
                } else {
                    assert(st1.encl.len() > usize::MAX);
                }
                frame_exec_stmt(st1, c, *initializer, f);
                let (st2, flow) = exec_stmt_s(st1, c, *initializer, f);
                lemma_frame_trans(st, st1, st2, env, c);
                if flow is Done {
                    frame_exec_while(st2, c, condition, *body, f);
                    lemma_frame_trans(st, st2, exec_while_s(st2, c, condition, *body, f).0, env, c);
                }
            },
            StmtS::Function { .. } => {},
            StmtS::Return { keyword, value } => {
                match value {
                    Some(e) => {
                        frame_eval_expr(st, env, e, f);
                    },
                    None => {},
                }
            },
            StmtS::Class { .. } => {},
        }
    }
}

proof fn frame_exec_stmts(st: SState, env: usize, ss: Seq<StmtS>, fuel: nat)
    ensures
        frame_ok(st, exec_stmts_s(st, env, ss, fuel).0, env),
    decreases fuel, 5int,
{
    if ss.len() != 0 && fuel != 0 {
        let f = (fuel - 1) as nat;
        frame_exec_stmt(st, env, ss[0], f);
        let (st1, flow) = exec_stmt_s(st, env, ss[0], f);
        if flow is Done {
            frame_exec_stmts(st1, env, ss.drop_first(), f);
            lemma_frame_trans(st, st1, exec_stmts_s(st1, env, ss.drop_first(), f).0, env, env);
        }
    }
}

/// `find_bind` is unmoved by value changes to existing bindings and by new
/// bindings that live in other scopes.
proof fn lemma_find_bind_stable(pre: Seq<Binding>, post: Seq<Binding>, e: int, x: int)
    requires
        pre.len() <= post.len(),
        forall|j: int| 0 <= j < pre.len() ==> (#[trigger] post[j]).env == pre[j].env
            && post[j].sym == pre[j].sym,
        forall|j: int| pre.len() <= j < post.len() ==> (#[trigger] post[j]).env != e,
    ensures
        find_bind(post, e, x) == find_bind(pre, e, x),
    decreases post.len(),
{
    if post.len() > pre.len() {
        assert(post.last().env != e);
        assert forall|j: int| 0 <= j < pre.len() implies (#[trigger] post.drop_last()[j]).env
            == pre[j].env && post.drop_last()[j].sym == pre[j].sym by {
            assert(post.drop_last()[j] == post[j]);
        }
        assert forall|j: int| pre.len() <= j < post.len() - 1 implies (#[trigger] post.drop_last()[j]).env != e by {
            assert(post.drop_last()[j] == post[j]);
        }
        lemma_find_bind_stable(pre, post.drop_last(), e, x);
    } else {
        assert(post.len() == pre.len());
        assert forall|j: int| 0 <= j < post.len() implies post[j].env == pre[j].env
            && post[j].sym == pre[j].sym by {
            let b = post[j];
            assert(b.env == pre[j].env && b.sym == pre[j].sym);
        }
        lemma_find_bind_values_irrelevant(post, pre, e, x);
    }
}

/// `resolve` from a scope that existed before is unmoved by growth: new
/// scopes, new bindings in new scopes, and value changes to old bindings
/// leave every name resolving to the same binding.
pub proof fn lemma_resolve_stable(pre: SState, post: SState, e: int, x: int)
    requires
        pre.encl.len() <= post.encl.len(),
        forall|j: int| 0 <= j < pre.encl.len() ==> post.encl[j] == pre.encl[j],
        pre.binds.len() <= post.binds.len(),
        forall|j: int| 0 <= j < pre.binds.len() ==> #[trigger] post.binds[j].env
            == pre.binds[j].env && post.binds[j].sym == pre.binds[j].sym,
        forall|j: int| pre.binds.len() <= j < post.binds.len() ==> #[trigger] post.binds[j].env
            >= pre.encl.len(),
        e < pre.encl.len(),
    ensures
        resolve(post.encl, post.binds, e, x) == resolve(pre.encl, pre.binds, e, x),
    decreases e,
{
    if 0 <= e {
        assert forall|j: int| 0 <= j < pre.binds.len() implies (#[trigger] post.binds[j]).env
            == pre.binds[j].env && post.binds[j].sym == pre.binds[j].sym by {}
        assert forall|j: int| pre.binds.len() <= j < post.binds.len() implies (
        #[trigger] post.binds[j]).env != e by {}
        lemma_find_bind_stable(pre.binds, post.binds, e, x);
        match find_bind(pre.binds, e, x) {
            Some(_) => {},
            None => match pre.encl[e] {
                Some(p) => {
                    if p < e {
                        lemma_resolve_stable(pre, post, p as int, x);
                    }
                },
                None => {},
            },
        }
    }
}

/// The block scoping law: a binding introduced inside a block lives in a
/// scope that did not exist before the block, so once the block is over
/// every name resolves from the enclosing scope to the very binding it
/// resolved to before — shadowing ends with the block, and only values
/// changed by assignment differ.  The bound on the scope arena is a fact
/// of every run of the executable interpreter, whose arena is a vector.
pub proof fn lemma_block_law(st: SState, e: usize, ss: Seq<StmtS>, fuel: nat, x: int)
    requires
        e < st.encl.len(),
        exec_stmt_s(st, e, StmtS::Block { statements: ss }, fuel).0.encl.len() <= usize::MAX,
    ensures
        ({
            let (st2, flow) = exec_stmt_s(st, e, StmtS::Block { statements: ss }, fuel);
            resolve(st2.encl, st2.binds, e as int, x) == resolve(st.encl, st.binds, e as int, x)
        }),
{
    if fuel != 0 {
        let f = (fuel - 1) as nat;
        let c = st.encl.len() as usize;
        let st1 = SState { encl: st.encl.push(Some(e)), ..st };
        frame_exec_stmts(st1, c, ss, f);
        let (st2, flow) = exec_stmts_s(st1, c, ss, f);
        assert(st2.encl.len() <= usize::MAX);
        assert(c == st.encl.len());
        assert forall|j: int| st.binds.len() <= j < st2.binds.len() implies (
        #[trigger] st2.binds[j]).env >= st.encl.len() by {}
        lemma_resolve_stable(st, st2, e as int, x);
    }
}

} // verus!
