//! The parser.
//!
//! A single-pass recursive-descent parser over the token buffer.  The
//! `spec_*` functions define, as mathematical functions, which statement
//! list (or which error) a token sequence denotes; `Parser::parse` is proved
//! to compute exactly that.  Every specification function carries a fuel
//! that falls by one on each nested parse, so the definitions are total;
//! the executable parser runs with so much fuel that the exhaustion branch
//! is out of reach for any input that fits in memory.
//!
//! On a statement-level error the parser records the message, skips to the
//! next statement boundary (`synchronize`), and goes on; at the end it
//! returns either all statements or the collected messages joined with
//! newlines.

use vstd::prelude::*;

use crate::ast::{Expr, ExprS, Stmt, StmtS, expr_v, stmt_v, exprs_v, stmts_v, lemma_exprs_v_from,
    lemma_stmts_v_from, lemma_exprs_v_push, lemma_stmts_v_push, lemma_stmts_v_cons};
use crate::token::Token;
use vstd::string::StringExecFns;

verus! {

/// The token at a position, with everything past the end read as `Eof`.
pub open spec fn tok_at(toks: Seq<Token>, i: int) -> Token {
    if 0 <= i < toks.len() {
        toks[i]
    } else {
        Token::Eof
    }
}

pub open spec fn fuel_msg() -> Seq<char> {
    "Parse recursion limit reached."@
}

/// Does this token begin a statement, for panic-mode recovery?
pub open spec fn spec_starts_stmt(t: Token) -> bool {
    t == Token::Class || t == Token::Fn || t == Token::Var || t == Token::For || t == Token::If
        || t == Token::While || t == Token::Print || t == Token::Return
}

/// Position reached by the synchronize loop scanning from `j`.
pub open spec fn spec_sync_loop(toks: Seq<Token>, j: int) -> int
    decreases toks.len() - j,
{
    if j < 0 || j >= toks.len() {
        j
    } else if tok_at(toks, j) == Token::Eof {
        j
    } else if tok_at(toks, j - 1) == Token::Semicolon {
        j
    } else if spec_starts_stmt(tok_at(toks, j)) {
        j
    } else {
        spec_sync_loop(toks, j + 1)
    }
}

/// The position after consuming one token at `i`: the cursor never moves
/// past the end.
pub open spec fn nxt(toks: Seq<Token>, i: int) -> int {
    if 0 <= i < toks.len() {
        i + 1
    } else {
        i
    }
}

/// Panic-mode recovery from position `i`: discard the offending token, then
/// scan to a statement boundary.
pub open spec fn spec_sync(toks: Seq<Token>, i: int) -> int {
    spec_sync_loop(toks, nxt(toks, i))
}

// Each `spec_*` parsing function returns the parsed piece (or the error
// message) together with the position after it.

pub open spec fn spec_primary(toks: Seq<Token>, i: int, fuel: nat) -> (
    Result<ExprS, Seq<char>>,
    int,
)
    decreases fuel, 0int,
{
    if fuel == 0 {
        (Err(fuel_msg()), i)
    } else {
        let t = tok_at(toks, i);
        match t {
            Token::False => (Ok(ExprS::Literal { value: Token::False }), i + 1),
            Token::True => (Ok(ExprS::Literal { value: Token::True }), i + 1),
            Token::Nil => (Ok(ExprS::Literal { value: Token::Nil }), i + 1),
            Token::Number(n) => (Ok(ExprS::Literal { value: Token::Number(n) }), i + 1),
            Token::Str(s) => (Ok(ExprS::Literal { value: Token::Str(s) }), i + 1),
            Token::Identifier(s) => (
                Ok(ExprS::Variable { name: Token::Identifier(s) }),
                i + 1,
            ),
            Token::LParen => {
                let (r, j) = spec_expression(toks, i + 1, (fuel - 1) as nat);
                match r {
                    Ok(e) => if tok_at(toks, j) == Token::RParen {
                        (Ok(ExprS::Grouping { expression: Box::new(e) }), j + 1)
                    } else {
                        (Err("Expect ')' after expression."@), j)
                    },
                    Err(m) => (Err(m), j),
                }
            },
            _ => (Err("Expect expression."@), i),
        }
    }
}

/// Arguments after the first: `("," expression)*`, capped at 255.
pub open spec fn spec_args_rest(
    toks: Seq<Token>,
    args: Seq<ExprS>,
    i: int,
    fuel: nat,
) -> (Result<Seq<ExprS>, Seq<char>>, int)
    decreases fuel, 3int,
{
    if fuel == 0 {
        (Err(fuel_msg()), i)
    } else if tok_at(toks, i) == Token::Comma {
        if args.len() >= 255 {
            (Err("Can't have more than 255 arguments."@), i)
        } else {
            let (r, j) = spec_expression(toks, i + 1, (fuel - 1) as nat);
            match r {
                Ok(e) => spec_args_rest(toks, args.push(e), j, (fuel - 1) as nat),
                Err(m) => (Err(m), j),
            }
        }
    } else {
        (Ok(args), i)
    }
}

/// The arguments and closing parenthesis of a call; `i` stands just after
/// the opening parenthesis.
pub open spec fn spec_finish_call(
    toks: Seq<Token>,
    callee: ExprS,
    i: int,
    fuel: nat,
) -> (Result<ExprS, Seq<char>>, int)
    decreases fuel, 4int,
{
    if fuel == 0 {
        (Err(fuel_msg()), i)
    } else {
        let (ra, j) = if tok_at(toks, i) == Token::RParen {
            (Ok(Seq::<ExprS>::empty()), i)
        } else {
            let (r, j) = spec_expression(toks, i, (fuel - 1) as nat);
            match r {
                Ok(e) => spec_args_rest(toks, seq![e], j, (fuel - 1) as nat),
                Err(m) => (Err(m), j),
            }
        };
        match ra {
            Ok(args) => if tok_at(toks, j) == Token::RParen {
                (
                    Ok(
                        ExprS::Call {
                            callee: Box::new(callee),
                            paren: Token::RParen,
                            arguments: args,
                        },
                    ),
                    j + 1,
                )
            } else {
                (Err("Expect ')' after arguments."@), j)
            },
            Err(m) => (Err(m), j),
        }
    }
}

pub open spec fn spec_call_rest(toks: Seq<Token>, callee: ExprS, i: int, fuel: nat) -> (
    Result<ExprS, Seq<char>>,
    int,
)
    decreases fuel, 5int,
{
    if fuel == 0 {
        (Err(fuel_msg()), i)
    } else if tok_at(toks, i) == Token::LParen {
        let (r, j) = spec_finish_call(toks, callee, i + 1, (fuel - 1) as nat);
        match r {
            Ok(e) => spec_call_rest(toks, e, j, (fuel - 1) as nat),
            Err(m) => (Err(m), j),
        }
    } else {
        (Ok(callee), i)
    }
}

pub open spec fn spec_call(toks: Seq<Token>, i: int, fuel: nat) -> (Result<ExprS, Seq<char>>, int)
    decreases fuel, 6int,
{
    if fuel == 0 {
        (Err(fuel_msg()), i)
    } else {
        let (r, j) = spec_primary(toks, i, (fuel - 1) as nat);
        match r {
            Ok(e) => spec_call_rest(toks, e, j, (fuel - 1) as nat),
            Err(m) => (Err(m), j),
        }
    }
}

pub open spec fn spec_unary(toks: Seq<Token>, i: int, fuel: nat) -> (Result<ExprS, Seq<char>>, int)
    decreases fuel, 7int,
{
    if fuel == 0 {
        (Err(fuel_msg()), i)
    } else {
        let t = tok_at(toks, i);
        if t == Token::Bang || t == Token::Minus {
            let (r, j) = spec_unary(toks, i + 1, (fuel - 1) as nat);
            match r {
                Ok(e) => (Ok(ExprS::Unary { operator: t, right: Box::new(e) }), j),
                Err(m) => (Err(m), j),
            }
        } else {
            spec_call(toks, i, (fuel - 1) as nat)
        }
    }
}

/// One left-associative binary level: `sub (op sub)*` for the operators
/// `level` admits.
pub open spec fn spec_level_op(level: int, t: Token) -> bool {
    if level == 0 {
        t == Token::Slash || t == Token::Star || t == Token::Mod
    } else if level == 1 {
        t == Token::Minus || t == Token::Plus
    } else if level == 2 {
        t == Token::Greater || t == Token::GreaterEqual || t == Token::Less
            || t == Token::LessEqual
    } else {
        t == Token::EqualEqual || t == Token::BangEqual
    }
}

pub open spec fn spec_sub_level(toks: Seq<Token>, level: int, i: int, fuel: nat) -> (
    Result<ExprS, Seq<char>>,
    int,
)
    decreases fuel, 8int + 2 * level,
{
    if fuel == 0 {
        (Err(fuel_msg()), i)
    } else if level == 0 {
        spec_unary(toks, i, (fuel - 1) as nat)
    } else {
        spec_binary_level(toks, level - 1, i, (fuel - 1) as nat)
    }
}

pub open spec fn spec_binary_rest(
    toks: Seq<Token>,
    level: int,
    left: ExprS,
    i: int,
    fuel: nat,
) -> (Result<ExprS, Seq<char>>, int)
    decreases fuel, 9int + 2 * level,
{
    if fuel == 0 {
        (Err(fuel_msg()), i)
    } else {
        let t = tok_at(toks, i);
        if spec_level_op(level, t) {
            let (r, j) = spec_sub_level(toks, level, i + 1, (fuel - 1) as nat);
            match r {
                Ok(rt) => spec_binary_rest(
                    toks,
                    level,
                    ExprS::Binary { left: Box::new(left), operator: t, right: Box::new(rt) },
                    j,
                    (fuel - 1) as nat,
                ),
                Err(m) => (Err(m), j),
            }
        } else {
            (Ok(left), i)
        }
    }
}

/// Binary levels, tightest first: 0 factor, 1 term, 2 comparison,
/// 3 equality.
pub open spec fn spec_binary_level(toks: Seq<Token>, level: int, i: int, fuel: nat) -> (
    Result<ExprS, Seq<char>>,
    int,
)
    decreases fuel, 10int + 2 * level,
{
    if fuel == 0 {
        (Err(fuel_msg()), i)
    } else {
        let (r, j) = spec_sub_level(toks, level, i, (fuel - 1) as nat);
        match r {
            Ok(e) => spec_binary_rest(toks, level, e, j, (fuel - 1) as nat),
            Err(m) => (Err(m), j),
        }
    }
}

pub open spec fn spec_logic_rest(
    toks: Seq<Token>,
    op: Token,
    left: ExprS,
    i: int,
    fuel: nat,
) -> (Result<ExprS, Seq<char>>, int)
    decreases fuel, 19int,
{
    if fuel == 0 {
        (Err(fuel_msg()), i)
    } else if tok_at(toks, i) == op {
        let (r, j) = if op == Token::And {
            spec_binary_level(toks, 3, i + 1, (fuel - 1) as nat)
        } else {
            spec_and(toks, i + 1, (fuel - 1) as nat)
        };
        match r {
            Ok(rt) => spec_logic_rest(
                toks,
                op,
                ExprS::Logical { left: Box::new(left), operator: op, right: Box::new(rt) },
                j,
                (fuel - 1) as nat,
            ),
            Err(m) => (Err(m), j),
        }
    } else {
        (Ok(left), i)
    }
}

pub open spec fn spec_and(toks: Seq<Token>, i: int, fuel: nat) -> (Result<ExprS, Seq<char>>, int)
    decreases fuel, 20int,
{
    if fuel == 0 {
        (Err(fuel_msg()), i)
    } else {
        let (r, j) = spec_binary_level(toks, 3, i, (fuel - 1) as nat);
        match r {
            Ok(e) => spec_logic_rest(toks, Token::And, e, j, (fuel - 1) as nat),
            Err(m) => (Err(m), j),
        }
    }
}

pub open spec fn spec_or(toks: Seq<Token>, i: int, fuel: nat) -> (Result<ExprS, Seq<char>>, int)
    decreases fuel, 21int,
{
    if fuel == 0 {
        (Err(fuel_msg()), i)
    } else {
        let (r, j) = spec_and(toks, i, (fuel - 1) as nat);
        match r {
            Ok(e) => spec_logic_rest(toks, Token::Or, e, j, (fuel - 1) as nat),
            Err(m) => (Err(m), j),
        }
    }
}

pub open spec fn spec_assignment(toks: Seq<Token>, i: int, fuel: nat) -> (
    Result<ExprS, Seq<char>>,
    int,
)
    decreases fuel, 22int,
{
    if fuel == 0 {
        (Err(fuel_msg()), i)
    } else {
        let (r, j) = spec_or(toks, i, (fuel - 1) as nat);
        match r {
            Ok(e) => if tok_at(toks, j) == Token::Equal {
                let (rv, k) = spec_assignment(toks, j + 1, (fuel - 1) as nat);
                match rv {
                    Ok(v) => match e {
                        ExprS::Variable { name } => (
                            Ok(ExprS::Assign { name, value: Box::new(v) }),
                            k,
                        ),
                        _ => (Err("Invalid assignment target."@), k),
                    },
                    Err(m) => (Err(m), k),
                }
            } else {
                (Ok(e), j)
            },
            Err(m) => (Err(m), j),
        }
    }
}

pub open spec fn spec_expression(toks: Seq<Token>, i: int, fuel: nat) -> (
    Result<ExprS, Seq<char>>,
    int,
)
    decreases fuel, 23int,
{
    if fuel == 0 {
        (Err(fuel_msg()), i)
    } else {
        spec_assignment(toks, i, (fuel - 1) as nat)
    }
}

/// Parameter list after the first parameter: `("," IDENT)*`, capped at 255.
pub open spec fn spec_params_rest(
    toks: Seq<Token>,
    params: Seq<Token>,
    i: int,
    fuel: nat,
) -> (Result<Seq<Token>, Seq<char>>, int)
    decreases fuel,
{
    if fuel == 0 {
        (Err(fuel_msg()), i)
    } else if tok_at(toks, i) == Token::Comma {
        if params.len() >= 255 {
            (Err("Can't have more than 255 parameters."@), i + 1)
        } else {
            match tok_at(toks, i + 1) {
                Token::Identifier(s) => spec_params_rest(
                    toks,
                    params.push(Token::Identifier(s)),
                    i + 2,
                    (fuel - 1) as nat,
                ),
                _ => (Err(""@), i + 1),
            }
        }
    } else {
        (Ok(params), i)
    }
}

pub open spec fn spec_function(toks: Seq<Token>, i: int, repl: bool, fuel: nat) -> (
    Result<StmtS, Seq<char>>,
    int,
)
    decreases fuel, 0int,
{
    if fuel == 0 {
        (Err(fuel_msg()), i)
    } else {
        // `i` stands on the `fn` keyword.
        match tok_at(toks, i + 1) {
            Token::Identifier(s) => {
                let name = Token::Identifier(s);
                if tok_at(toks, i + 2) != Token::LParen {
                    (Err("Expect '(' after function name."@), i + 2)
                } else {
                    let (rp, j) = if tok_at(toks, i + 3) == Token::RParen {
                        (Ok(Seq::<Token>::empty()), i + 3)
                    } else {
                        match tok_at(toks, i + 3) {
                            Token::Identifier(p) => spec_params_rest(
                                toks,
                                seq![Token::Identifier(p)],
                                i + 4,
                                (fuel - 1) as nat,
                            ),
                            _ => (Err(""@), i + 3),
                        }
                    };
                    match rp {
                        Ok(params) => if tok_at(toks, j) != Token::RParen {
                            (Err("Expect ')' after parameters."@), j)
                        } else if tok_at(toks, j + 1) != Token::LBrace {
                            (Err("Expect '{' before function body."@), j + 1)
                        } else {
                            let (rb, k) = spec_block(toks, j + 1, repl, (fuel - 1) as nat);
                            match rb {
                                Ok(body) => (
                                    Ok(
                                        StmtS::Function {
                                            name,
                                            params,
                                            body: Box::new(body),
                                        },
                                    ),
                                    k,
                                ),
                                Err(m) => (Err(m), k),
                            }
                        },
                        Err(m) => (Err(m), j),
                    }
                }
            },
            _ => (Err("Expect function name."@), i + 1),
        }
    }
}

pub open spec fn spec_var_declaration(toks: Seq<Token>, i: int, fuel: nat) -> (
    Result<StmtS, Seq<char>>,
    int,
)
    decreases fuel, 0int,
{
    if fuel == 0 {
        (Err(fuel_msg()), i)
    } else {
        // `i` stands on the `var` keyword.
        match tok_at(toks, i + 1) {
            Token::Identifier(s) => {
                let name = Token::Identifier(s);
                let (ri, j) = if tok_at(toks, i + 2) == Token::Equal {
                    let (r, j) = spec_expression(toks, i + 3, (fuel - 1) as nat);
                    match r {
                        Ok(e) => (Ok(Some(e)), j),
                        Err(m) => (Err(m), j),
                    }
                } else {
                    (Ok(None::<ExprS>), i + 2)
                };
                match ri {
                    Ok(initializer) => if tok_at(toks, j) == Token::Semicolon {
                        (Ok(StmtS::Var { name, initializer }), j + 1)
                    } else {
                        (Err("Expect ';' after variable declaration."@), nxt(toks, j))
                    },
                    Err(m) => (Err(m), j),
                }
            },
            _ => (Err("Expect variable name."@), nxt(toks, i + 1)),
        }
    }
}

pub open spec fn spec_if_statement(toks: Seq<Token>, i: int, repl: bool, fuel: nat) -> (
    Result<StmtS, Seq<char>>,
    int,
)
    decreases fuel, 0int,
{
    if fuel == 0 {
        (Err(fuel_msg()), i)
    } else {
        let (rc, j) = spec_expression(toks, i + 1, (fuel - 1) as nat);
        match rc {
            Ok(condition) => {
                let (rt, k) = spec_statement(toks, j, repl, (fuel - 1) as nat);
                match rt {
                    Ok(then_branch) => if tok_at(toks, k) == Token::Else {
                        let (re, l) = spec_statement(toks, k + 1, repl, (fuel - 1) as nat);
                        match re {
                            Ok(else_branch) => (
                                Ok(
                                    StmtS::If {
                                        condition,
                                        then_branch: Box::new(then_branch),
                                        else_branch: Some(Box::new(else_branch)),
                                    },
                                ),
                                l,
                            ),
                            Err(m) => (Err(m), l),
                        }
                    } else {
                        (
                            Ok(
                                StmtS::If {
                                    condition,
                                    then_branch: Box::new(then_branch),
                                    else_branch: None,
                                },
                            ),
                            k,
                        )
                    },
                    Err(m) => (Err(m), k),
                }
            },
            Err(m) => (Err(m), j),
        }
    }
}

pub open spec fn spec_print_statement(toks: Seq<Token>, i: int, fuel: nat) -> (
    Result<StmtS, Seq<char>>,
    int,
)
    decreases fuel, 0int,
{
    if fuel == 0 {
        (Err(fuel_msg()), i)
    } else {
        let (r, j) = spec_expression(toks, i + 1, (fuel - 1) as nat);
        match r {
            Ok(e) => if tok_at(toks, j) == Token::Semicolon {
                (Ok(StmtS::Print { expression: e }), j + 1)
            } else {
                (Err("Expect ';' after value."@), j)
            },
            Err(m) => (Err(m), j),
        }
    }
}

pub open spec fn spec_for_statement(toks: Seq<Token>, i: int, repl: bool, fuel: nat) -> (
    Result<StmtS, Seq<char>>,
    int,
)
    decreases fuel, 1int,
{
    if fuel == 0 {
        (Err(fuel_msg()), i)
    } else {
        let (rinit, j) = spec_declaration(toks, i + 1, repl, (fuel - 1) as nat);
        match rinit {
            Ok(initializer) => {
                let (rc, k) = spec_expression(toks, j, (fuel - 1) as nat);
                match rc {
                    Ok(condition) => if tok_at(toks, k) != Token::Semicolon {
                        (Err("Expect ';' after condition."@), k)
                    } else {
                        let (rincr, l) = spec_expression(toks, k + 1, (fuel - 1) as nat);
                        match rincr {
                            Ok(increment) => {
                                let (rb, m) = spec_statement(toks, l, repl, (fuel - 1) as nat);
                                match rb {
                                    Ok(body_stmt) => (
                                        Ok(
                                            StmtS::For {
                                                initializer: Box::new(initializer),
                                                condition,
                                                body: Box::new(
                                                    StmtS::Block {
                                                        statements: seq![
                                                            body_stmt,
                                                            StmtS::Expression {
                                                                expression: increment,
                                                            },
                                                        ],
                                                    },
                                                ),
                                            },
                                        ),
                                        m,
                                    ),
                                    Err(e) => (Err(e), m),
                                }
                            },
                            Err(e) => (Err(e), l),
                        }
                    },
                    Err(e) => (Err(e), k),
                }
            },
            Err(e) => (Err(e), j),
        }
    }
}

pub open spec fn spec_return_statement(toks: Seq<Token>, i: int, fuel: nat) -> (
    Result<StmtS, Seq<char>>,
    int,
)
    decreases fuel, 0int,
{
    if fuel == 0 {
        (Err(fuel_msg()), i)
    } else {
        // `i` stands on the `return` keyword.
        let (rv, j) = if tok_at(toks, i + 1) != Token::Semicolon {
            let (r, j) = spec_expression(toks, i + 1, (fuel - 1) as nat);
            match r {
                Ok(e) => (Ok(Some(e)), j),
                Err(m) => (Err(m), j),
            }
        } else {
            (Ok(None::<ExprS>), i + 1)
        };
        match rv {
            Ok(value) => if tok_at(toks, j) == Token::Semicolon {
                (Ok(StmtS::Return { keyword: Token::Return, value }), j + 1)
            } else {
                (Err("Expect ';' after return value."@), j)
            },
            Err(m) => (Err(m), j),
        }
    }
}

pub open spec fn spec_while_statement(toks: Seq<Token>, i: int, repl: bool, fuel: nat) -> (
    Result<StmtS, Seq<char>>,
    int,
)
    decreases fuel, 0int,
{
    if fuel == 0 {
        (Err(fuel_msg()), i)
    } else {
        let (rc, j) = spec_expression(toks, i + 1, (fuel - 1) as nat);
        match rc {
            Ok(condition) => {
                let (rb, k) = spec_statement(toks, j, repl, (fuel - 1) as nat);
                match rb {
                    Ok(body) => (
                        Ok(StmtS::While { condition, body: Box::new(body) }),
                        k,
                    ),
                    Err(m) => (Err(m), k),
                }
            },
            Err(m) => (Err(m), j),
        }
    }
}

pub open spec fn spec_block_items(toks: Seq<Token>, acc: Seq<StmtS>, i: int, repl: bool, fuel: nat) -> (
    Result<Seq<StmtS>, Seq<char>>,
    int,
)
    decreases fuel, 1int,
{
    if fuel == 0 {
        (Err(fuel_msg()), i)
    } else {
        let t = tok_at(toks, i);
        if t == Token::RBrace || t == Token::Eof {
            (Ok(acc), i)
        } else {
            let (r, j) = spec_declaration(toks, i, repl, (fuel - 1) as nat);
            match r {
                Ok(s) => spec_block_items(toks, acc.push(s), j, repl, (fuel - 1) as nat),
                Err(m) => (Err(m), j),
            }
        }
    }
}

/// A block; `i` stands on the opening brace.
pub open spec fn spec_block(toks: Seq<Token>, i: int, repl: bool, fuel: nat) -> (
    Result<StmtS, Seq<char>>,
    int,
)
    decreases fuel, 2int,
{
    if fuel == 0 {
        (Err(fuel_msg()), i)
    } else {
        let (r, j) = spec_block_items(toks, Seq::empty(), i + 1, repl, (fuel - 1) as nat);
        match r {
            Ok(statements) => if tok_at(toks, j) == Token::RBrace {
                (Ok(StmtS::Block { statements }), j + 1)
            } else {
                (Err("Expect '}' after expression."@), j)
            },
            Err(m) => (Err(m), j),
        }
    }
}

pub open spec fn spec_expr_statement(toks: Seq<Token>, i: int, repl: bool, fuel: nat) -> (
    Result<StmtS, Seq<char>>,
    int,
)
    decreases fuel, 0int,
{
    if fuel == 0 {
        (Err(fuel_msg()), i)
    } else {
        let (r, j) = spec_expression(toks, i, (fuel - 1) as nat);
        match r {
            Ok(e) => if tok_at(toks, j) == Token::Semicolon {
                (Ok(StmtS::Expression { expression: e }), j + 1)
            } else if repl {
                (Ok(StmtS::Print { expression: e }), j)
            } else {
                (Err("Expect ';' after expression."@), j)
            },
            Err(m) => (Err(m), j),
        }
    }
}

pub open spec fn spec_statement(toks: Seq<Token>, i: int, repl: bool, fuel: nat) -> (
    Result<StmtS, Seq<char>>,
    int,
)
    decreases fuel, 3int,
{
    if fuel == 0 {
        (Err(fuel_msg()), i)
    } else {
        let f = (fuel - 1) as nat;
        match tok_at(toks, i) {
            Token::If => spec_if_statement(toks, i, repl, f),
            Token::Print => spec_print_statement(toks, i, f),
            Token::For => spec_for_statement(toks, i, repl, f),
            Token::Return => spec_return_statement(toks, i, f),
            Token::While => spec_while_statement(toks, i, repl, f),
            Token::LBrace => spec_block(toks, i, repl, f),
            _ => spec_expr_statement(toks, i, repl, f),
        }
    }
}

pub open spec fn spec_declaration(toks: Seq<Token>, i: int, repl: bool, fuel: nat) -> (
    Result<StmtS, Seq<char>>,
    int,
)
    decreases fuel, 4int,
{
    if fuel == 0 {
        (Err(fuel_msg()), i)
    } else {
        let f = (fuel - 1) as nat;
        match tok_at(toks, i) {
            Token::Fn => spec_function(toks, i, repl, f),
            Token::Var => spec_var_declaration(toks, i, f),
            _ => spec_statement(toks, i, repl, f),
        }
    }
}

/// The whole program: the statements parsed and the errors collected, in
/// order.  In the REPL an expression statement may stand without its
/// semicolon and is printed instead.
pub open spec fn spec_program(toks: Seq<Token>, i: int, repl: bool, fuel: nat) -> (
    Seq<StmtS>,
    Seq<Seq<char>>,
)
    decreases fuel, 5int,
{
    if tok_at(toks, i) == Token::Eof {
        (Seq::empty(), Seq::empty())
    } else if fuel == 0 {
        (Seq::empty(), seq![fuel_msg()])
    } else {
        let f = (fuel - 1) as nat;
        let (r, j) = spec_declaration(toks, i, repl, f);
        match r {
            Ok(s) => {
                let j2 = if j <= i {
                    i + 1
                } else {
                    j
                };
                let (ss, es) = spec_program(toks, j2, repl, f);
                (seq![s] + ss, es)
            },
            Err(m) => {
                let j2 = spec_sync(toks, if j < i {
                    i
                } else {
                    j
                });
                let j3 = if j2 <= i {
                    i + 1
                } else {
                    j2
                };
                let (ss, es) = spec_program(toks, j3, repl, f);
                (ss, seq![m] + es)
            },
        }
    }
}

/// The newline-joined report of the collected parse errors.
pub open spec fn spec_join_errs(es: Seq<Seq<char>>, i: int) -> Seq<char>
    decreases es.len() - i,
{
    if i < 0 || i >= es.len() {
        Seq::empty()
    } else if i == es.len() - 1 {
        es[i]
    } else {
        es[i] + "\n"@ + spec_join_errs(es, i + 1)
    }
}

/// What `Parser::parse` returns: the statements, or the joined errors.
pub open spec fn spec_parse(toks: Seq<Token>, i: int, repl: bool, fuel: nat) -> Result<
    Seq<StmtS>,
    Seq<char>,
> {
    let (ss, es) = spec_program(toks, i, repl, fuel);
    if es.len() == 0 {
        Ok(ss)
    } else {
        Err(spec_join_errs(es, 0))
    }
}

// ---------------------------------------------------------------------
// The executable parser, proved against the functions above.

pub const PARSE_FUEL: u64 = 0xffff_ffff_ffff_ffff;

pub open spec fn expr_res_matches(r: Result<Expr, &'static str>, rs: Result<ExprS, Seq<char>>) -> bool {
    match (r, rs) {
        (Ok(e), Ok(es)) => expr_v(e) == es,
        (Err(m), Err(ms)) => m@ == ms,
        _ => false,
    }
}

pub open spec fn stmt_res_matches(r: Result<Stmt, &'static str>, rs: Result<StmtS, Seq<char>>) -> bool {
    match (r, rs) {
        (Ok(e), Ok(es)) => stmt_v(e) == es,
        (Err(m), Err(ms)) => m@ == ms,
        _ => false,
    }
}

pub open spec fn params_res_matches(
    r: Result<Vec<Token>, &'static str>,
    rs: Result<Seq<Token>, Seq<char>>,
) -> bool {
    match (r, rs) {
        (Ok(v), Ok(vs)) => v@ == vs,
        (Err(m), Err(ms)) => m@ == ms,
        _ => false,
    }
}

pub open spec fn args_res_matches(
    r: Result<Vec<Expr>, &'static str>,
    rs: Result<Seq<ExprS>, Seq<char>>,
) -> bool {
    match (r, rs) {
        (Ok(v), Ok(vs)) => exprs_v(v) == vs,
        (Err(m), Err(ms)) => m@ == ms,
        _ => false,
    }
}

fn starts_stmt(t: Token) -> (r: bool)
    ensures
        r == spec_starts_stmt(t),
{
    t == Token::Class || t == Token::Fn || t == Token::Var || t == Token::For || t == Token::If
        || t == Token::While || t == Token::Print || t == Token::Return
}

pub struct Parser {
    pub tokens: Vec<Token>,
    pub current: usize,
    pub is_repl: bool,
}

impl Parser {
    /// A parser over the given tokens; `is_repl` tolerates a missing final
    /// semicolon on an expression statement and prints it instead.
    pub fn new(tokens: Vec<Token>, is_repl: bool) -> (r: Parser)
        ensures
            r.tokens@ == tokens@,
            r.current == 0,
            r.is_repl == is_repl,
    {
        Parser { tokens, current: 0, is_repl }
    }

    fn peek(&self) -> (t: Token)
        ensures
            t == tok_at(self.tokens@, self.current as int),
    {
        if self.current < self.tokens.len() {
            self.tokens[self.current]
        } else {
            Token::Eof
        }
    }

    fn previous(&self) -> (t: Token)
        ensures
            t == tok_at(self.tokens@, self.current as int - 1),
    {
        if self.current >= 1 && self.current - 1 < self.tokens.len() {
            self.tokens[self.current - 1]
        } else {
            Token::Eof
        }
    }

    fn advance(&mut self) -> (t: Option<Token>)
        ensures
            final(self).tokens == old(self).tokens,
            final(self).is_repl == old(self).is_repl,
            final(self).current as int == nxt(old(self).tokens@, old(self).current as int),
            t == if old(self).current < old(self).tokens.len() {
                Some(old(self).tokens@[old(self).current as int])
            } else {
                None::<Token>
            },
    {
        if self.current < self.tokens.len() {
            let tk = self.tokens[self.current];
            self.current += 1;
            Some(tk)
        } else {
            None
        }
    }

    fn primary(&mut self, fuel: u64) -> (r: Result<Expr, &'static str>)
        requires
            old(self).current <= old(self).tokens.len(),
        ensures
            final(self).tokens == old(self).tokens,
            final(self).is_repl == old(self).is_repl,
            final(self).current <= old(self).tokens.len(),
            expr_res_matches(r, spec_primary(old(self).tokens@, old(self).current as int, fuel as nat).0),
            final(self).current as int == spec_primary(old(self).tokens@, old(self).current as int, fuel as nat).1,
        decreases fuel,
    {
        if fuel == 0 {
            return Err("Parse recursion limit reached.");
        }
        let t = self.peek();
        match t {
            Token::False => {
                self.advance();
                Ok(Expr::Literal { value: Token::False })
            },
            Token::True => {
                self.advance();
                Ok(Expr::Literal { value: Token::True })
            },
            Token::Nil => {
                self.advance();
                Ok(Expr::Literal { value: Token::Nil })
            },
            Token::Number(n) => {
                self.advance();
                Ok(Expr::Literal { value: Token::Number(n) })
            },
            Token::Str(s) => {
                self.advance();
                Ok(Expr::Literal { value: Token::Str(s) })
            },
            Token::Identifier(s) => {
                self.advance();
                Ok(Expr::Variable { name: Token::Identifier(s) })
            },
            Token::LParen => {
                self.advance();
                match self.expression(fuel - 1) {
                    Ok(e) => {
                        if self.peek() == Token::RParen {
                            self.advance();
                            Ok(Expr::Grouping { expression: Box::new(e) })
                        } else {
                            Err("Expect ')' after expression.")
                        }
                    },
                    Err(m) => Err(m),
                }
            },
            _ => Err("Expect expression."),
        }
    }

    fn args_rest(&mut self, args: Vec<Expr>, fuel: u64) -> (r: Result<Vec<Expr>, &'static str>)
        requires
            old(self).current <= old(self).tokens.len(),
        ensures
            final(self).tokens == old(self).tokens,
            final(self).is_repl == old(self).is_repl,
            final(self).current <= old(self).tokens.len(),
            args_res_matches(r, spec_args_rest(old(self).tokens@, exprs_v(args), old(self).current as int, fuel as nat).0),
            final(self).current as int == spec_args_rest(old(self).tokens@, exprs_v(args), old(self).current as int, fuel as nat).1,
        decreases fuel,
    {
        if fuel == 0 {
            return Err("Parse recursion limit reached.");
        }
        proof {
            lemma_exprs_v_from(args, 0);
        }
        if self.peek() == Token::Comma {
            if args.len() >= 255 {
                return Err("Can't have more than 255 arguments.");
            }
            self.advance();
            match self.expression(fuel - 1) {
                Ok(e) => {
                    let ghost old_args = args;
                    let mut args = args;
                    args.push(e);
                    proof {
                        lemma_exprs_v_push(old_args, args, e);
                    }
                    self.args_rest(args, fuel - 1)
                },
                Err(m) => Err(m),
            }
        } else {
            Ok(args)
        }
    }

    fn finish_call(&mut self, callee: Expr, fuel: u64) -> (r: Result<Expr, &'static str>)
        requires
            old(self).current <= old(self).tokens.len(),
        ensures
            final(self).tokens == old(self).tokens,
            final(self).is_repl == old(self).is_repl,
            final(self).current <= old(self).tokens.len(),
            expr_res_matches(r, spec_finish_call(old(self).tokens@, expr_v(callee), old(self).current as int, fuel as nat).0),
            final(self).current as int == spec_finish_call(old(self).tokens@, expr_v(callee), old(self).current as int, fuel as nat).1,
        decreases fuel,
    {
        if fuel == 0 {
            return Err("Parse recursion limit reached.");
        }
        let ra: Result<Vec<Expr>, &'static str> = if self.peek() == Token::RParen {
            Ok(Vec::new())
        } else {
            match self.expression(fuel - 1) {
                Ok(e) => {
                    let mut args: Vec<Expr> = Vec::new();
                    let ghost empty_args = args;
                    args.push(e);
                    proof {
                        lemma_exprs_v_push(empty_args, args, e);
                        assert(exprs_v(empty_args) =~= Seq::<ExprS>::empty());
                        assert(exprs_v(args) =~= seq![expr_v(e)]);
                    }
                    self.args_rest(args, fuel - 1)
                },
                Err(m) => Err(m),
            }
        };
        match ra {
            Ok(args) => {
                if self.peek() == Token::RParen {
                    self.advance();
                    proof {
                        lemma_exprs_v_from(args, 0);
                    }
                    Ok(Expr::Call { callee: Box::new(callee), paren: Token::RParen, arguments: args })
                } else {
                    Err("Expect ')' after arguments.")
                }
            },
            Err(m) => Err(m),
        }
    }

    fn call_rest(&mut self, callee: Expr, fuel: u64) -> (r: Result<Expr, &'static str>)
        requires
            old(self).current <= old(self).tokens.len(),
        ensures
            final(self).tokens == old(self).tokens,
            final(self).is_repl == old(self).is_repl,
            final(self).current <= old(self).tokens.len(),
            expr_res_matches(r, spec_call_rest(old(self).tokens@, expr_v(callee), old(self).current as int, fuel as nat).0),
            final(self).current as int == spec_call_rest(old(self).tokens@, expr_v(callee), old(self).current as int, fuel as nat).1,
        decreases fuel,
    {
        if fuel == 0 {
            return Err("Parse recursion limit reached.");
        }
        if self.peek() == Token::LParen {
            self.advance();
            match self.finish_call(callee, fuel - 1) {
                Ok(e) => self.call_rest(e, fuel - 1),
                Err(m) => Err(m),
            }
        } else {
            Ok(callee)
        }
    }

    fn call(&mut self, fuel: u64) -> (r: Result<Expr, &'static str>)
        requires
            old(self).current <= old(self).tokens.len(),
        ensures
            final(self).tokens == old(self).tokens,
            final(self).is_repl == old(self).is_repl,
            final(self).current <= old(self).tokens.len(),
            expr_res_matches(r, spec_call(old(self).tokens@, old(self).current as int, fuel as nat).0),
            final(self).current as int == spec_call(old(self).tokens@, old(self).current as int, fuel as nat).1,
        decreases fuel,
    {
        if fuel == 0 {
            return Err("Parse recursion limit reached.");
        }
        match self.primary(fuel - 1) {
            Ok(e) => self.call_rest(e, fuel - 1),
            Err(m) => Err(m),
        }
    }

    fn unary(&mut self, fuel: u64) -> (r: Result<Expr, &'static str>)
        requires
            old(self).current <= old(self).tokens.len(),
        ensures
            final(self).tokens == old(self).tokens,
            final(self).is_repl == old(self).is_repl,
            final(self).current <= old(self).tokens.len(),
            expr_res_matches(r, spec_unary(old(self).tokens@, old(self).current as int, fuel as nat).0),
            final(self).current as int == spec_unary(old(self).tokens@, old(self).current as int, fuel as nat).1,
        decreases fuel,
    {
        if fuel == 0 {
            return Err("Parse recursion limit reached.");
        }
        let t = self.peek();
        if t == Token::Bang || t == Token::Minus {
            self.advance();
            match self.unary(fuel - 1) {
                Ok(e) => Ok(Expr::Unary { operator: t, right: Box::new(e) }),
                Err(m) => Err(m),
            }
        } else {
            self.call(fuel - 1)
        }
    }

    fn level_op(&self, level: usize, t: Token) -> (r: bool)
        ensures
            r == spec_level_op(level as int, t),
    {
        if level == 0 {
            t == Token::Slash || t == Token::Star || t == Token::Mod
        } else if level == 1 {
            t == Token::Minus || t == Token::Plus
        } else if level == 2 {
            t == Token::Greater || t == Token::GreaterEqual || t == Token::Less
                || t == Token::LessEqual
        } else {
            t == Token::EqualEqual || t == Token::BangEqual
        }
    }

    fn sub_level(&mut self, level: usize, fuel: u64) -> (r: Result<Expr, &'static str>)
        requires
            old(self).current <= old(self).tokens.len(),
        ensures
            final(self).tokens == old(self).tokens,
            final(self).is_repl == old(self).is_repl,
            final(self).current <= old(self).tokens.len(),
            expr_res_matches(r, spec_sub_level(old(self).tokens@, level as int, old(self).current as int, fuel as nat).0),
            final(self).current as int == spec_sub_level(old(self).tokens@, level as int, old(self).current as int, fuel as nat).1,
        decreases fuel,
    {
        if fuel == 0 {
            return Err("Parse recursion limit reached.");
        }
        if level == 0 {
            self.unary(fuel - 1)
        } else {
            self.binary_level(level - 1, fuel - 1)
        }
    }

    fn binary_rest(&mut self, level: usize, left: Expr, fuel: u64) -> (r: Result<Expr, &'static str>)
        requires
            old(self).current <= old(self).tokens.len(),
        ensures
            final(self).tokens == old(self).tokens,
            final(self).is_repl == old(self).is_repl,
            final(self).current <= old(self).tokens.len(),
            expr_res_matches(r, spec_binary_rest(old(self).tokens@, level as int, expr_v(left), old(self).current as int, fuel as nat).0),
            final(self).current as int == spec_binary_rest(old(self).tokens@, level as int, expr_v(left), old(self).current as int, fuel as nat).1,
        decreases fuel,
    {
        if fuel == 0 {
            return Err("Parse recursion limit reached.");
        }
        let t = self.peek();
        if self.level_op(level, t) {
            self.advance();
            match self.sub_level(level, fuel - 1) {
                Ok(rt) => self.binary_rest(
                    level,
                    Expr::Binary { left: Box::new(left), operator: t, right: Box::new(rt) },
                    fuel - 1,
                ),
                Err(m) => Err(m),
            }
        } else {
            Ok(left)
        }
    }

    /// One left-associative binary precedence level: 0 factor, 1 term,
    /// 2 comparison, 3 equality.
    fn binary_level(&mut self, level: usize, fuel: u64) -> (r: Result<Expr, &'static str>)
        requires
            old(self).current <= old(self).tokens.len(),
        ensures
            final(self).tokens == old(self).tokens,
            final(self).is_repl == old(self).is_repl,
            final(self).current <= old(self).tokens.len(),
            expr_res_matches(r, spec_binary_level(old(self).tokens@, level as int, old(self).current as int, fuel as nat).0),
            final(self).current as int == spec_binary_level(old(self).tokens@, level as int, old(self).current as int, fuel as nat).1,
        decreases fuel,
    {
        if fuel == 0 {
            return Err("Parse recursion limit reached.");
        }
        match self.sub_level(level, fuel - 1) {
            Ok(e) => self.binary_rest(level, e, fuel - 1),
            Err(m) => Err(m),
        }
    }

    fn logic_rest(&mut self, op: Token, left: Expr, fuel: u64) -> (r: Result<Expr, &'static str>)
        requires
            old(self).current <= old(self).tokens.len(),
            op == Token::And || op == Token::Or,
        ensures
            final(self).tokens == old(self).tokens,
            final(self).is_repl == old(self).is_repl,
            final(self).current <= old(self).tokens.len(),
            expr_res_matches(r, spec_logic_rest(old(self).tokens@, op, expr_v(left), old(self).current as int, fuel as nat).0),
            final(self).current as int == spec_logic_rest(old(self).tokens@, op, expr_v(left), old(self).current as int, fuel as nat).1,
        decreases fuel,
    {
        if fuel == 0 {
            return Err("Parse recursion limit reached.");
        }
        if self.peek() == op {
            self.advance();
            let rr = if op == Token::And {
                self.binary_level(3, fuel - 1)
            } else {
                self.and(fuel - 1)
            };
            match rr {
                Ok(rt) => self.logic_rest(
                    op,
                    Expr::Logical { left: Box::new(left), operator: op, right: Box::new(rt) },
                    fuel - 1,
                ),
                Err(m) => Err(m),
            }
        } else {
            Ok(left)
        }
    }

    fn and(&mut self, fuel: u64) -> (r: Result<Expr, &'static str>)
        requires
            old(self).current <= old(self).tokens.len(),
        ensures
            final(self).tokens == old(self).tokens,
            final(self).is_repl == old(self).is_repl,
            final(self).current <= old(self).tokens.len(),
            expr_res_matches(r, spec_and(old(self).tokens@, old(self).current as int, fuel as nat).0),
            final(self).current as int == spec_and(old(self).tokens@, old(self).current as int, fuel as nat).1,
        decreases fuel,
    {
        if fuel == 0 {
            return Err("Parse recursion limit reached.");
        }
        match self.binary_level(3, fuel - 1) {
            Ok(e) => self.logic_rest(Token::And, e, fuel - 1),
            Err(m) => Err(m),
        }
    }

    fn or(&mut self, fuel: u64) -> (r: Result<Expr, &'static str>)
        requires
            old(self).current <= old(self).tokens.len(),
        ensures
            final(self).tokens == old(self).tokens,
            final(self).is_repl == old(self).is_repl,
            final(self).current <= old(self).tokens.len(),
            expr_res_matches(r, spec_or(old(self).tokens@, old(self).current as int, fuel as nat).0),
            final(self).current as int == spec_or(old(self).tokens@, old(self).current as int, fuel as nat).1,
        decreases fuel,
    {
        if fuel == 0 {
            return Err("Parse recursion limit reached.");
        }
        match self.and(fuel - 1) {
            Ok(e) => self.logic_rest(Token::Or, e, fuel - 1),
            Err(m) => Err(m),
        }
    }

    fn assignment(&mut self, fuel: u64) -> (r: Result<Expr, &'static str>)
        requires
            old(self).current <= old(self).tokens.len(),
        ensures
            final(self).tokens == old(self).tokens,
            final(self).is_repl == old(self).is_repl,
            final(self).current <= old(self).tokens.len(),
            expr_res_matches(r, spec_assignment(old(self).tokens@, old(self).current as int, fuel as nat).0),
            final(self).current as int == spec_assignment(old(self).tokens@, old(self).current as int, fuel as nat).1,
        decreases fuel,
    {
        if fuel == 0 {
            return Err("Parse recursion limit reached.");
        }
        match self.or(fuel - 1) {
            Ok(e) => {
                if self.peek() == Token::Equal {
                    self.advance();
                    match self.assignment(fuel - 1) {
                        Ok(v) => match e {
                            Expr::Variable { name } => Ok(Expr::Assign { name, value: Box::new(v) }),
                            _ => Err("Invalid assignment target."),
                        },
                        Err(m) => Err(m),
                    }
                } else {
                    Ok(e)
                }
            },
            Err(m) => Err(m),
        }
    }

    fn expression(&mut self, fuel: u64) -> (r: Result<Expr, &'static str>)
        requires
            old(self).current <= old(self).tokens.len(),
        ensures
            final(self).tokens == old(self).tokens,
            final(self).is_repl == old(self).is_repl,
            final(self).current <= old(self).tokens.len(),
            expr_res_matches(r, spec_expression(old(self).tokens@, old(self).current as int, fuel as nat).0),
            final(self).current as int == spec_expression(old(self).tokens@, old(self).current as int, fuel as nat).1,
        decreases fuel,
    {
        if fuel == 0 {
            return Err("Parse recursion limit reached.");
        }
        self.assignment(fuel - 1)
    }

    fn params_rest(&mut self, params: Vec<Token>, fuel: u64) -> (r: Result<Vec<Token>, &'static str>)
        requires
            old(self).current <= old(self).tokens.len(),
        ensures
            final(self).tokens == old(self).tokens,
            final(self).is_repl == old(self).is_repl,
            final(self).current <= old(self).tokens.len(),
            params_res_matches(r, spec_params_rest(old(self).tokens@, params@, old(self).current as int, fuel as nat).0),
            final(self).current as int == spec_params_rest(old(self).tokens@, params@, old(self).current as int, fuel as nat).1,
        decreases fuel,
    {
        if fuel == 0 {
            return Err("Parse recursion limit reached.");
        }
        if self.peek() == Token::Comma {
            self.advance();
            if params.len() >= 255 {
                return Err("Can't have more than 255 parameters.");
            }
            match self.peek() {
                Token::Identifier(p) => {
                    self.advance();
                    let mut params = params;
                    params.push(Token::Identifier(p));
                    self.params_rest(params, fuel - 1)
                },
                _ => Err(""),
            }
        } else {
            Ok(params)
        }
    }

    fn function(&mut self, fuel: u64) -> (r: Result<Stmt, &'static str>)
        requires
            old(self).current <= old(self).tokens.len(),
            tok_at(old(self).tokens@, old(self).current as int) == Token::Fn,
        ensures
            final(self).tokens == old(self).tokens,
            final(self).is_repl == old(self).is_repl,
            final(self).current <= old(self).tokens.len(),
            stmt_res_matches(r, spec_function(old(self).tokens@, old(self).current as int, old(self).is_repl, fuel as nat).0),
            final(self).current as int == spec_function(old(self).tokens@, old(self).current as int, old(self).is_repl, fuel as nat).1,
        decreases fuel,
    {
        if fuel == 0 {
            return Err("Parse recursion limit reached.");
        }
        self.advance();
        let name = match self.peek() {
            Token::Identifier(s) => {
                self.advance();
                Token::Identifier(s)
            },
            _ => {
                return Err("Expect function name.");
            },
        };
        if self.peek() == Token::LParen {
            self.advance();
        } else {
            return Err("Expect '(' after function name.");
        }
        let rp: Result<Vec<Token>, &'static str> = if self.peek() == Token::RParen {
            Ok(Vec::new())
        } else {
            match self.peek() {
                Token::Identifier(p) => {
                    self.advance();
                    let mut params: Vec<Token> = Vec::new();
                    params.push(Token::Identifier(p));
                    proof {
                        assert(params@ =~= seq![Token::Identifier(p)]);
                    }
                    self.params_rest(params, fuel - 1)
                },
                _ => Err(""),
            }
        };
        match rp {
            Ok(params) => {
                if self.peek() != Token::RParen {
                    return Err("Expect ')' after parameters.");
                }
                self.advance();
                if self.peek() != Token::LBrace {
                    return Err("Expect '{' before function body.");
                }
                match self.block(fuel - 1) {
                    Ok(body) => Ok(Stmt::Function { name, params, body: Box::new(body) }),
                    Err(m) => Err(m),
                }
            },
            Err(m) => Err(m),
        }
    }

    fn var_declaration(&mut self, fuel: u64) -> (r: Result<Stmt, &'static str>)
        requires
            old(self).current <= old(self).tokens.len(),
            tok_at(old(self).tokens@, old(self).current as int) == Token::Var,
        ensures
            final(self).tokens == old(self).tokens,
            final(self).is_repl == old(self).is_repl,
            final(self).current <= old(self).tokens.len(),
            stmt_res_matches(r, spec_var_declaration(old(self).tokens@, old(self).current as int, fuel as nat).0),
            final(self).current as int == spec_var_declaration(old(self).tokens@, old(self).current as int, fuel as nat).1,
        decreases fuel,
    {
        if fuel == 0 {
            return Err("Parse recursion limit reached.");
        }
        self.advance();
        let name = match self.advance() {
            Some(Token::Identifier(s)) => Token::Identifier(s),
            _ => {
                return Err("Expect variable name.");
            },
        };
        let initializer: Option<Expr> = if self.peek() == Token::Equal {
            self.advance();
            match self.expression(fuel - 1) {
                Ok(e) => Some(e),
                Err(m) => {
                    return Err(m);
                },
            }
        } else {
            None
        };
        match self.advance() {
            Some(Token::Semicolon) => Ok(Stmt::Var { name, initializer }),
            _ => Err("Expect ';' after variable declaration."),
        }
    }

    fn if_statement(&mut self, fuel: u64) -> (r: Result<Stmt, &'static str>)
        requires
            old(self).current <= old(self).tokens.len(),
            tok_at(old(self).tokens@, old(self).current as int) == Token::If,
        ensures
            final(self).tokens == old(self).tokens,
            final(self).is_repl == old(self).is_repl,
            final(self).current <= old(self).tokens.len(),
            stmt_res_matches(r, spec_if_statement(old(self).tokens@, old(self).current as int, old(self).is_repl, fuel as nat).0),
            final(self).current as int == spec_if_statement(old(self).tokens@, old(self).current as int, old(self).is_repl, fuel as nat).1,
        decreases fuel,
    {
        if fuel == 0 {
            return Err("Parse recursion limit reached.");
        }
        self.advance();
        let condition = match self.expression(fuel - 1) {
            Ok(e) => e,
            Err(m) => {
                return Err(m);
            },
        };
        let then_branch = match self.statement(fuel - 1) {
            Ok(s) => s,
            Err(m) => {
                return Err(m);
            },
        };
        if self.peek() == Token::Else {
            self.advance();
            match self.statement(fuel - 1) {
                Ok(e) => Ok(Stmt::If {
                    condition,
                    then_branch: Box::new(then_branch),
                    else_branch: Some(Box::new(e)),
                }),
                Err(m) => Err(m),
            }
        } else {
            Ok(Stmt::If { condition, then_branch: Box::new(then_branch), else_branch: None })
        }
    }

    fn print_statement(&mut self, fuel: u64) -> (r: Result<Stmt, &'static str>)
        requires
            old(self).current <= old(self).tokens.len(),
            tok_at(old(self).tokens@, old(self).current as int) == Token::Print,
        ensures
            final(self).tokens == old(self).tokens,
            final(self).is_repl == old(self).is_repl,
            final(self).current <= old(self).tokens.len(),
            stmt_res_matches(r, spec_print_statement(old(self).tokens@, old(self).current as int, fuel as nat).0),
            final(self).current as int == spec_print_statement(old(self).tokens@, old(self).current as int, fuel as nat).1,
        decreases fuel,
    {
        if fuel == 0 {
            return Err("Parse recursion limit reached.");
        }
        self.advance();
        match self.expression(fuel - 1) {
            Ok(e) => {
                if self.peek() == Token::Semicolon {
                    self.advance();
                    Ok(Stmt::Print { expression: e })
                } else {
                    Err("Expect ';' after value.")
                }
            },
            Err(m) => Err(m),
        }
    }

    #[verifier::rlimit(100)]
    fn for_statement(&mut self, fuel: u64) -> (r: Result<Stmt, &'static str>)
        requires
            old(self).current <= old(self).tokens.len(),
            tok_at(old(self).tokens@, old(self).current as int) == Token::For,
        ensures
            final(self).tokens == old(self).tokens,
            final(self).is_repl == old(self).is_repl,
            final(self).current <= old(self).tokens.len(),
            stmt_res_matches(r, spec_for_statement(old(self).tokens@, old(self).current as int, old(self).is_repl, fuel as nat).0),
            final(self).current as int == spec_for_statement(old(self).tokens@, old(self).current as int, old(self).is_repl, fuel as nat).1,
        decreases fuel,
    {
        if fuel == 0 {
            return Err("Parse recursion limit reached.");
        }
        self.advance();
        let initializer = match self.declaration(fuel - 1) {
            Ok(s) => s,
            Err(m) => {
                return Err(m);
            },
        };
        let condition = match self.expression(fuel - 1) {
            Ok(e) => e,
            Err(m) => {
                return Err(m);
            },
        };
        if self.peek() != Token::Semicolon {
            return Err("Expect ';' after condition.");
        }
        self.advance();
        let increment = match self.expression(fuel - 1) {
            Ok(e) => e,
            Err(m) => {
                return Err(m);
            },
        };
        match self.statement(fuel - 1) {
            Ok(body_stmt) => {
                let mut statements: Vec<Stmt> = Vec::new();
                statements.push(body_stmt);
                statements.push(Stmt::Expression { expression: increment });
                proof {
                    lemma_stmts_v_from(statements, 0);
                    assert(statements@[0] == body_stmt);
                    assert(stmt_v(statements@[1]) == (StmtS::Expression {
                        expression: expr_v(increment),
                    }));
                    assert(stmts_v(statements) =~= seq![
                        stmt_v(body_stmt),
                        StmtS::Expression { expression: expr_v(increment) },
                    ]);
                }
                let r2 = Stmt::For {
                    initializer: Box::new(initializer),
                    condition,
                    body: Box::new(Stmt::Block { statements }),
                };
                proof {
                    reveal_with_fuel(stmt_v, 3);
                }
                Ok(r2)
            },
            Err(m) => Err(m),
        }
    }

    fn return_statement(&mut self, fuel: u64) -> (r: Result<Stmt, &'static str>)
        requires
            old(self).current <= old(self).tokens.len(),
            tok_at(old(self).tokens@, old(self).current as int) == Token::Return,
        ensures
            final(self).tokens == old(self).tokens,
            final(self).is_repl == old(self).is_repl,
            final(self).current <= old(self).tokens.len(),
            stmt_res_matches(r, spec_return_statement(old(self).tokens@, old(self).current as int, fuel as nat).0),
            final(self).current as int == spec_return_statement(old(self).tokens@, old(self).current as int, fuel as nat).1,
        decreases fuel,
    {
        if fuel == 0 {
            return Err("Parse recursion limit reached.");
        }
        self.advance();
        let value: Option<Expr> = if self.peek() != Token::Semicolon {
            match self.expression(fuel - 1) {
                Ok(e) => Some(e),
                Err(m) => {
                    return Err(m);
                },
            }
        } else {
            None
        };
        if self.peek() == Token::Semicolon {
            self.advance();
            Ok(Stmt::Return { keyword: Token::Return, value })
        } else {
            Err("Expect ';' after return value.")
        }
    }

    fn while_statement(&mut self, fuel: u64) -> (r: Result<Stmt, &'static str>)
        requires
            old(self).current <= old(self).tokens.len(),
            tok_at(old(self).tokens@, old(self).current as int) == Token::While,
        ensures
            final(self).tokens == old(self).tokens,
            final(self).is_repl == old(self).is_repl,
            final(self).current <= old(self).tokens.len(),
            stmt_res_matches(r, spec_while_statement(old(self).tokens@, old(self).current as int, old(self).is_repl, fuel as nat).0),
            final(self).current as int == spec_while_statement(old(self).tokens@, old(self).current as int, old(self).is_repl, fuel as nat).1,
        decreases fuel,
    {
        if fuel == 0 {
            return Err("Parse recursion limit reached.");
        }
        self.advance();
        match self.expression(fuel - 1) {
            Ok(condition) => match self.statement(fuel - 1) {
                Ok(body) => Ok(Stmt::While { condition, body: Box::new(body) }),
                Err(m) => Err(m),
            },
            Err(m) => Err(m),
        }
    }

    fn block_items(&mut self, acc: Vec<Stmt>, fuel: u64) -> (r: Result<Vec<Stmt>, &'static str>)
        requires
            old(self).current <= old(self).tokens.len(),
        ensures
            final(self).tokens == old(self).tokens,
            final(self).is_repl == old(self).is_repl,
            final(self).current <= old(self).tokens.len(),
            ({
                let (rs, j) = spec_block_items(old(self).tokens@, stmts_v(acc), old(self).current as int, old(self).is_repl, fuel as nat);
                &&& final(self).current as int == j
                &&& match (r, rs) {
                    (Ok(v), Ok(vs)) => stmts_v(v) == vs,
                    (Err(m), Err(ms)) => m@ == ms,
                    _ => false,
                }
            }),
        decreases fuel,
    {
        if fuel == 0 {
            return Err("Parse recursion limit reached.");
        }
        let t = self.peek();
        if t == Token::RBrace || t == Token::Eof {
            Ok(acc)
        } else {
            match self.declaration(fuel - 1) {
                Ok(s) => {
                    let ghost old_acc = acc;
                    let mut acc = acc;
                    acc.push(s);
                    proof {
                        lemma_stmts_v_push(old_acc, acc, s);
                    }
                    self.block_items(acc, fuel - 1)
                },
                Err(m) => Err(m),
            }
        }
    }

    fn block(&mut self, fuel: u64) -> (r: Result<Stmt, &'static str>)
        requires
            old(self).current <= old(self).tokens.len(),
            tok_at(old(self).tokens@, old(self).current as int) == Token::LBrace,
        ensures
            final(self).tokens == old(self).tokens,
            final(self).is_repl == old(self).is_repl,
            final(self).current <= old(self).tokens.len(),
            stmt_res_matches(r, spec_block(old(self).tokens@, old(self).current as int, old(self).is_repl, fuel as nat).0),
            final(self).current as int == spec_block(old(self).tokens@, old(self).current as int, old(self).is_repl, fuel as nat).1,
        decreases fuel,
    {
        if fuel == 0 {
            return Err("Parse recursion limit reached.");
        }
        self.advance();
        let acc: Vec<Stmt> = Vec::new();
        proof {
            assert(stmts_v(acc) =~= Seq::<StmtS>::empty());
        }
        match self.block_items(acc, fuel - 1) {
            Ok(statements) => {
                if self.peek() == Token::RBrace {
                    self.advance();
                    Ok(Stmt::Block { statements })
                } else {
                    Err("Expect '}' after expression.")
                }
            },
            Err(m) => Err(m),
        }
    }

    fn expr_statement(&mut self, fuel: u64) -> (r: Result<Stmt, &'static str>)
        requires
            old(self).current <= old(self).tokens.len(),
        ensures
            final(self).tokens == old(self).tokens,
            final(self).is_repl == old(self).is_repl,
            final(self).current <= old(self).tokens.len(),
            stmt_res_matches(r, spec_expr_statement(old(self).tokens@, old(self).current as int, old(self).is_repl, fuel as nat).0),
            final(self).current as int == spec_expr_statement(old(self).tokens@, old(self).current as int, old(self).is_repl, fuel as nat).1,
        decreases fuel,
    {
        if fuel == 0 {
            return Err("Parse recursion limit reached.");
        }
        match self.expression(fuel - 1) {
            Ok(e) => {
                if self.peek() == Token::Semicolon {
                    self.advance();
                    Ok(Stmt::Expression { expression: e })
                } else if self.is_repl {
                    Ok(Stmt::Print { expression: e })
                } else {
                    Err("Expect ';' after expression.")
                }
            },
            Err(m) => Err(m),
        }
    }

    fn statement(&mut self, fuel: u64) -> (r: Result<Stmt, &'static str>)
        requires
            old(self).current <= old(self).tokens.len(),
        ensures
            final(self).tokens == old(self).tokens,
            final(self).is_repl == old(self).is_repl,
            final(self).current <= old(self).tokens.len(),
            stmt_res_matches(r, spec_statement(old(self).tokens@, old(self).current as int, old(self).is_repl, fuel as nat).0),
            final(self).current as int == spec_statement(old(self).tokens@, old(self).current as int, old(self).is_repl, fuel as nat).1,
        decreases fuel,
    {
        if fuel == 0 {
            return Err("Parse recursion limit reached.");
        }
        match self.peek() {
            Token::If => self.if_statement(fuel - 1),
            Token::Print => self.print_statement(fuel - 1),
            Token::For => self.for_statement(fuel - 1),
            Token::Return => self.return_statement(fuel - 1),
            Token::While => self.while_statement(fuel - 1),
            Token::LBrace => self.block(fuel - 1),
            _ => self.expr_statement(fuel - 1),
        }
    }

    fn declaration(&mut self, fuel: u64) -> (r: Result<Stmt, &'static str>)
        requires
            old(self).current <= old(self).tokens.len(),
        ensures
            final(self).tokens == old(self).tokens,
            final(self).is_repl == old(self).is_repl,
            final(self).current <= old(self).tokens.len(),
            stmt_res_matches(r, spec_declaration(old(self).tokens@, old(self).current as int, old(self).is_repl, fuel as nat).0),
            final(self).current as int == spec_declaration(old(self).tokens@, old(self).current as int, old(self).is_repl, fuel as nat).1,
        decreases fuel,
    {
        if fuel == 0 {
            return Err("Parse recursion limit reached.");
        }
        match self.peek() {
            Token::Fn => self.function(fuel - 1),
            Token::Var => self.var_declaration(fuel - 1),
            _ => self.statement(fuel - 1),
        }
    }

    /// Discard tokens until the parser stands at a statement boundary.
    fn synchronize(&mut self)
        requires
            old(self).current <= old(self).tokens.len(),
        ensures
            final(self).tokens == old(self).tokens,
            final(self).is_repl == old(self).is_repl,
            final(self).current <= old(self).tokens.len(),
            final(self).current as int == spec_sync(old(self).tokens@, old(self).current as int),
    {
        self.advance();
        let ghost j0 = self.current as int;
        while !(self.current >= self.tokens.len() || self.peek() == Token::Eof || self.previous()
            == Token::Semicolon || starts_stmt(self.peek()))
            invariant
                self.current <= self.tokens.len(),
                self.tokens == old(self).tokens,
                self.is_repl == old(self).is_repl,
                spec_sync_loop(self.tokens@, self.current as int) == spec_sync_loop(
                    self.tokens@,
                    j0,
                ),
            decreases self.tokens.len() - self.current,
        {
            self.current += 1;
        }
    }

    fn program(&mut self, fuel: u64) -> (r: (Vec<Stmt>, Vec<String>))
        requires
            old(self).current <= old(self).tokens.len(),
        ensures
            final(self).tokens == old(self).tokens,
            final(self).is_repl == old(self).is_repl,
            final(self).current <= old(self).tokens.len(),
            ({
                let (ss, es) = spec_program(old(self).tokens@, old(self).current as int, old(self).is_repl, fuel as nat);
                &&& stmts_v(r.0) == ss
                &&& r.1@.map_values(|x: String| x@) == es
            }),
        decreases fuel,
    {
        if self.peek() == Token::Eof {
            let r = (Vec::<Stmt>::new(), Vec::<String>::new());
            proof {
                assert(stmts_v(r.0) =~= Seq::<StmtS>::empty());
                assert(r.1@.map_values(|x: String| x@) =~= Seq::<Seq<char>>::empty());
            }
            return r;
        }
        if fuel == 0 {
            let mut es: Vec<String> = Vec::new();
            es.push("Parse recursion limit reached.".to_owned());
            let r = (Vec::<Stmt>::new(), es);
            proof {
                assert(stmts_v(r.0) =~= Seq::<StmtS>::empty());
                assert(r.1@.map_values(|x: String| x@) =~= seq![fuel_msg()]);
            }
            return r;
        }
        let before = self.current;
        let ghost i = before as int;
        match self.declaration(fuel - 1) {
            Ok(s) => {
                if self.current <= before {
                    self.current = before + 1;
                }
                let (rest, es) = self.program(fuel - 1);
                let ghost old_rest = rest;
                let mut rest = rest;
                rest.insert(0, s);
                proof {
                    lemma_stmts_v_cons(old_rest, rest, s);
                }
                (rest, es)
            },
            Err(m) => {
                if self.current < before {
                    self.current = before;
                }
                self.synchronize();
                if self.current <= before {
                    self.current = before + 1;
                }
                let (ss, es) = self.program(fuel - 1);
                let ghost old_es = es;
                let mut es = es;
                es.insert(0, m.to_owned());
                proof {
                    assert(es@.map_values(|x: String| x@) =~= seq![m@] + old_es@.map_values(
                        |x: String| x@,
                    ));
                }
                (ss, es)
            },
        }
    }

    /// Parse the whole token buffer: all statements, or the collected error
    /// messages joined with newlines.
    pub fn parse(&mut self) -> (r: Result<Vec<Stmt>, String>)
        requires
            old(self).current <= old(self).tokens.len(),
        ensures
            final(self).tokens == old(self).tokens,
            final(self).is_repl == old(self).is_repl,
            match (r, spec_parse(old(self).tokens@, old(self).current as int, old(self).is_repl, PARSE_FUEL as nat)) {
                (Ok(v), Ok(ss)) => stmts_v(v) == ss,
                (Err(m), Err(ms)) => m@ == ms,
                _ => false,
            },
    {
        let (stmts, errs) = self.program(PARSE_FUEL);
        if errs.len() == 0 {
            proof {
                assert(errs@.map_values(|x: String| x@).len() == 0);
            }
            Ok(stmts)
        } else {
            Err(join_errs(&errs, 0))
        }
    }
}

fn join_errs(errs: &Vec<String>, i: usize) -> (r: String)
    requires
        i <= errs.len(),
    ensures
        r@ == spec_join_errs(errs@.map_values(|x: String| x@), i as int),
    decreases errs.len() - i,
{
    if i >= errs.len() {
        String::new()
    } else if i == errs.len() - 1 {
        errs[i].clone()
    } else {
        let mut s = errs[i].clone();
        s.append("\n");
        let rest = join_errs(errs, i + 1);
        s.append(rest.as_str());
        s
    }
}

} // verus!
