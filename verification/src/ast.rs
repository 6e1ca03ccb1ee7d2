//! Syntax trees.
//!
//! `Expr` and `Stmt` are the executable trees the parser builds.  `ExprS`
//! and `StmtS` are their mathematical mirrors, with `Seq` in place of `Vec`;
//! parsing and evaluation are specified over the mirrors, and every
//! executable function is proved against that specification through the
//! `expr_v` / `stmt_v` view functions.

use vstd::prelude::*;

use crate::token::Token;

verus! {

broadcast use vstd::std_specs::vec::axiom_vec_index_decreases;

#[allow(inconsistent_fields)]
#[derive(Debug)]
pub enum Expr {
    Literal { value: Token },
    Grouping { expression: Box<Expr> },
    Unary { operator: Token, right: Box<Expr> },
    Binary { left: Box<Expr>, operator: Token, right: Box<Expr> },
    Logical { left: Box<Expr>, operator: Token, right: Box<Expr> },
    Variable { name: Token },
    Assign { name: Token, value: Box<Expr> },
    Call { callee: Box<Expr>, paren: Token, arguments: Vec<Expr> },
}

#[allow(inconsistent_fields)]
#[derive(Debug)]
pub enum Stmt {
    Block { statements: Vec<Stmt> },
    Class { name: Token, methods: Vec<Stmt>, superclass: Option<Expr> },
    Expression { expression: Expr },
    Function { name: Token, params: Vec<Token>, body: Box<Stmt> },
    Print { expression: Expr },
    Var { name: Token, initializer: Option<Expr> },
    While { condition: Expr, body: Box<Stmt> },
    For { initializer: Box<Stmt>, condition: Expr, body: Box<Stmt> },
    Return { keyword: Token, value: Option<Expr> },
    If { condition: Expr, then_branch: Box<Stmt>, else_branch: Option<Box<Stmt>> },
}

#[allow(inconsistent_fields)]
pub enum ExprS {
    Literal { value: Token },
    Grouping { expression: Box<ExprS> },
    Unary { operator: Token, right: Box<ExprS> },
    Binary { left: Box<ExprS>, operator: Token, right: Box<ExprS> },
    Logical { left: Box<ExprS>, operator: Token, right: Box<ExprS> },
    Variable { name: Token },
    Assign { name: Token, value: Box<ExprS> },
    Call { callee: Box<ExprS>, paren: Token, arguments: Seq<ExprS> },
}

#[allow(inconsistent_fields)]
pub enum StmtS {
    Block { statements: Seq<StmtS> },
    Class { name: Token, methods: Seq<StmtS>, superclass: Option<ExprS> },
    Expression { expression: ExprS },
    Function { name: Token, params: Seq<Token>, body: Box<StmtS> },
    Print { expression: ExprS },
    Var { name: Token, initializer: Option<ExprS> },
    While { condition: ExprS, body: Box<StmtS> },
    For { initializer: Box<StmtS>, condition: ExprS, body: Box<StmtS> },
    Return { keyword: Token, value: Option<ExprS> },
    If { condition: ExprS, then_branch: Box<StmtS>, else_branch: Option<Box<StmtS>> },
}

pub open spec fn expr_v(e: Expr) -> ExprS
    decreases e,
{
    match e {
        Expr::Literal { value } => ExprS::Literal { value },
        Expr::Grouping { expression } => ExprS::Grouping {
            expression: Box::new(expr_v(*expression)),
        },
        Expr::Unary { operator, right } => ExprS::Unary {
            operator,
            right: Box::new(expr_v(*right)),
        },
        Expr::Binary { left, operator, right } => ExprS::Binary {
            left: Box::new(expr_v(*left)),
            operator,
            right: Box::new(expr_v(*right)),
        },
        Expr::Logical { left, operator, right } => ExprS::Logical {
            left: Box::new(expr_v(*left)),
            operator,
            right: Box::new(expr_v(*right)),
        },
        Expr::Variable { name } => ExprS::Variable { name },
        Expr::Assign { name, value } => ExprS::Assign { name, value: Box::new(expr_v(*value)) },
        Expr::Call { callee, paren, arguments } => ExprS::Call {
            callee: Box::new(expr_v(*callee)),
            paren,
            arguments: exprs_v_from(arguments, 0),
        },
    }
}

pub open spec fn exprs_v_from(v: Vec<Expr>, i: int) -> Seq<ExprS>
    decreases v, v.len() - i,
{
    if i < 0 || i >= v.len() {
        Seq::empty()
    } else {
        seq![expr_v(v[i])] + exprs_v_from(v, i + 1)
    }
}

pub open spec fn opt_expr_v(o: Option<Expr>) -> Option<ExprS>
    decreases o,
{
    match o {
        Some(e) => Some(expr_v(e)),
        None => None,
    }
}

pub open spec fn stmt_v(s: Stmt) -> StmtS
    decreases s,
{
    match s {
        Stmt::Block { statements } => StmtS::Block { statements: stmts_v_from(statements, 0) },
        Stmt::Class { name, methods, superclass } => StmtS::Class {
            name,
            methods: stmts_v_from(methods, 0),
            superclass: opt_expr_v(superclass),
        },
        Stmt::Expression { expression } => StmtS::Expression { expression: expr_v(expression) },
        Stmt::Function { name, params, body } => StmtS::Function {
            name,
            params: params@,
            body: Box::new(stmt_v(*body)),
        },
        Stmt::Print { expression } => StmtS::Print { expression: expr_v(expression) },
        Stmt::Var { name, initializer } => StmtS::Var {
            name,
            initializer: opt_expr_v(initializer),
        },
        Stmt::While { condition, body } => StmtS::While {
            condition: expr_v(condition),
            body: Box::new(stmt_v(*body)),
        },
        Stmt::For { initializer, condition, body } => StmtS::For {
            initializer: Box::new(stmt_v(*initializer)),
            condition: expr_v(condition),
            body: Box::new(stmt_v(*body)),
        },
        Stmt::Return { keyword, value } => StmtS::Return { keyword, value: opt_expr_v(value) },
        Stmt::If { condition, then_branch, else_branch } => StmtS::If {
            condition: expr_v(condition),
            then_branch: Box::new(stmt_v(*then_branch)),
            else_branch: match else_branch {
                Some(b) => Some(Box::new(stmt_v(*b))),
                None => None,
            },
        },
    }
}

pub open spec fn stmts_v_from(v: Vec<Stmt>, i: int) -> Seq<StmtS>
    decreases v, v.len() - i,
{
    if i < 0 || i >= v.len() {
        Seq::empty()
    } else {
        seq![stmt_v(v[i])] + stmts_v_from(v, i + 1)
    }
}

pub open spec fn exprs_v(v: Vec<Expr>) -> Seq<ExprS> {
    exprs_v_from(v, 0)
}

pub open spec fn stmts_v(v: Vec<Stmt>) -> Seq<StmtS> {
    stmts_v_from(v, 0)
}

/// `exprs_v_from` is the pointwise image of `expr_v`.
pub proof fn lemma_exprs_v_from(v: Vec<Expr>, i: int)
    requires
        0 <= i <= v.len(),
    ensures
        exprs_v_from(v, i).len() == v.len() - i,
        forall|j: int|
            0 <= j < v.len() - i ==> exprs_v_from(v, i)[j] == expr_v(v[i + j]),
    decreases v.len() - i,
{
    if i < v.len() {
        lemma_exprs_v_from(v, i + 1);
    }
}

/// `stmts_v_from` is the pointwise image of `stmt_v`.
pub proof fn lemma_stmts_v_from(v: Vec<Stmt>, i: int)
    requires
        0 <= i <= v.len(),
    ensures
        stmts_v_from(v, i).len() == v.len() - i,
        forall|j: int|
            0 <= j < v.len() - i ==> stmts_v_from(v, i)[j] == stmt_v(v[i + j]),
    decreases v.len() - i,
{
    if i < v.len() {
        lemma_stmts_v_from(v, i + 1);
    }
}

/// Two vectors with the same element views have the same sequence view.
pub proof fn lemma_exprs_v_congruent(a: Vec<Expr>, b: Vec<Expr>)
    requires
        a.len() == b.len(),
        forall|j: int| 0 <= j < a.len() ==> expr_v(a[j]) == expr_v(b[j]),
    ensures
        exprs_v(a) == exprs_v(b),
{
    lemma_exprs_v_from(a, 0);
    lemma_exprs_v_from(b, 0);
    assert(exprs_v(a) =~= exprs_v(b));
}

pub proof fn lemma_exprs_v_push(a: Vec<Expr>, b: Vec<Expr>, e: Expr)
    requires
        b@ == a@.push(e),
    ensures
        exprs_v(b) == exprs_v(a).push(expr_v(e)),
{
    lemma_exprs_v_from(a, 0);
    lemma_exprs_v_from(b, 0);
    assert(exprs_v(b) =~= exprs_v(a).push(expr_v(e)));
}

pub proof fn lemma_stmts_v_push(a: Vec<Stmt>, b: Vec<Stmt>, e: Stmt)
    requires
        b@ == a@.push(e),
    ensures
        stmts_v(b) == stmts_v(a).push(stmt_v(e)),
{
    lemma_stmts_v_from(a, 0);
    lemma_stmts_v_from(b, 0);
    assert(stmts_v(b) =~= stmts_v(a).push(stmt_v(e)));
}

pub proof fn lemma_stmts_v_cons(a: Vec<Stmt>, b: Vec<Stmt>, e: Stmt)
    requires
        b@ == a@.insert(0, e),
    ensures
        stmts_v(b) == seq![stmt_v(e)] + stmts_v(a),
{
    lemma_stmts_v_from(a, 0);
    lemma_stmts_v_from(b, 0);
    assert(stmts_v(b) =~= seq![stmt_v(e)] + stmts_v(a));
}

/// Deep copy of an expression, preserving its mathematical view.
pub fn clone_expr(e: &Expr) -> (r: Expr)
    ensures
        expr_v(r) == expr_v(*e),
    decreases *e,
{
    match e {
        Expr::Literal { value } => Expr::Literal { value: *value },
        Expr::Grouping { expression } => Expr::Grouping {
            expression: Box::new(clone_expr(expression)),
        },
        Expr::Unary { operator, right } => Expr::Unary {
            operator: *operator,
            right: Box::new(clone_expr(right)),
        },
        Expr::Binary { left, operator, right } => Expr::Binary {
            left: Box::new(clone_expr(left)),
            operator: *operator,
            right: Box::new(clone_expr(right)),
        },
        Expr::Logical { left, operator, right } => Expr::Logical {
            left: Box::new(clone_expr(left)),
            operator: *operator,
            right: Box::new(clone_expr(right)),
        },
        Expr::Variable { name } => Expr::Variable { name: *name },
        Expr::Assign { name, value } => Expr::Assign {
            name: *name,
            value: Box::new(clone_expr(value)),
        },
        Expr::Call { callee, paren, arguments } => {
            let c = Box::new(clone_expr(callee));
            let args = clone_exprs(arguments);
            proof {
                lemma_exprs_v_congruent(args, *arguments);
            }
            Expr::Call { callee: c, paren: *paren, arguments: args }
        },
    }
}

pub fn clone_exprs(v: &Vec<Expr>) -> (r: Vec<Expr>)
    ensures
        r.len() == v.len(),
        forall|j: int| 0 <= j < v.len() ==> expr_v(r[j]) == expr_v(v[j]),
    decreases *v,
{
    let mut r: Vec<Expr> = Vec::new();
    let n = v.len();
    let mut i: usize = 0;
    while i < n
        invariant
            0 <= i <= n,
            n == v.len(),
            r.len() == i,
            forall|j: int| 0 <= j < i ==> expr_v(r[j]) == expr_v(v[j]),
        decreases n - i,
    {
        r.push(clone_expr(&v[i]));
        i += 1;
    }
    r
}

pub fn clone_opt_expr(o: &Option<Expr>) -> (r: Option<Expr>)
    ensures
        opt_expr_v(r) == opt_expr_v(*o),
    decreases *o,
{
    match o {
        Some(e) => Some(clone_expr(e)),
        None => None,
    }
}

pub fn clone_tokens(v: &Vec<Token>) -> (r: Vec<Token>)
    ensures
        r@ == v@,
{
    let mut r: Vec<Token> = Vec::new();
    let n = v.len();
    let mut i: usize = 0;
    while i < n
        invariant
            0 <= i <= n,
            n == v.len(),
            r@ == v@.subrange(0, i as int),
        decreases n - i,
    {
        r.push(v[i]);
        proof {
            assert(r@ =~= v@.subrange(0, i + 1));
        }
        i += 1;
    }
    proof {
        assert(r@ =~= v@);
    }
    r
}

/// Deep copy of a statement, preserving its mathematical view.
pub fn clone_stmt(s: &Stmt) -> (r: Stmt)
    ensures
        stmt_v(r) == stmt_v(*s),
    decreases *s,
{
    match s {
        Stmt::Block { statements } => {
            let ss = clone_stmts(statements);
            proof {
                lemma_stmts_v_congruent(ss, *statements);
            }
            Stmt::Block { statements: ss }
        },
        Stmt::Class { name, methods, superclass } => {
            let ms = clone_stmts(methods);
            proof {
                lemma_stmts_v_congruent(ms, *methods);
            }
            Stmt::Class { name: *name, methods: ms, superclass: clone_opt_expr(superclass) }
        },
        Stmt::Expression { expression } => Stmt::Expression {
            expression: clone_expr(expression),
        },
        Stmt::Function { name, params, body } => Stmt::Function {
            name: *name,
            params: clone_tokens(params),
            body: Box::new(clone_stmt(body)),
        },
        Stmt::Print { expression } => Stmt::Print { expression: clone_expr(expression) },
        Stmt::Var { name, initializer } => Stmt::Var {
            name: *name,
            initializer: clone_opt_expr(initializer),
        },
        Stmt::While { condition, body } => Stmt::While {
            condition: clone_expr(condition),
            body: Box::new(clone_stmt(body)),
        },
        Stmt::For { initializer, condition, body } => Stmt::For {
            initializer: Box::new(clone_stmt(initializer)),
            condition: clone_expr(condition),
            body: Box::new(clone_stmt(body)),
        },
        Stmt::Return { keyword, value } => Stmt::Return {
            keyword: *keyword,
            value: clone_opt_expr(value),
        },
        Stmt::If { condition, then_branch, else_branch } => Stmt::If {
            condition: clone_expr(condition),
            then_branch: Box::new(clone_stmt(then_branch)),
            else_branch: match else_branch {
                Some(b) => Some(Box::new(clone_stmt(b))),
                None => None,
            },
        },
    }
}

pub fn clone_stmts(v: &Vec<Stmt>) -> (r: Vec<Stmt>)
    ensures
        r.len() == v.len(),
        forall|j: int| 0 <= j < v.len() ==> stmt_v(r[j]) == stmt_v(v[j]),
    decreases *v,
{
    let mut r: Vec<Stmt> = Vec::new();
    let n = v.len();
    let mut i: usize = 0;
    while i < n
        invariant
            0 <= i <= n,
            n == v.len(),
            r.len() == i,
            forall|j: int| 0 <= j < i ==> stmt_v(r[j]) == stmt_v(v[j]),
        decreases n - i,
    {
        r.push(clone_stmt(&v[i]));
        i += 1;
    }
    r
}

pub proof fn lemma_stmts_v_congruent(a: Vec<Stmt>, b: Vec<Stmt>)
    requires
        a.len() == b.len(),
        forall|j: int| 0 <= j < a.len() ==> stmt_v(a[j]) == stmt_v(b[j]),
    ensures
        stmts_v(a) == stmts_v(b),
{
    lemma_stmts_v_from(a, 0);
    lemma_stmts_v_from(b, 0);
    assert(stmts_v(a) =~= stmts_v(b));
}

} // verus!
