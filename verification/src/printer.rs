//! A printer for expression trees, kept for debugging: it renders an
//! expression in fully parenthesized prefix form.

use vstd::prelude::*;

use crate::ast::{Expr, ExprS, expr_v};
use crate::num::display_of;
use crate::sem::str_at;
use crate::strtab::StrTable;
use crate::token::Token;

verus! {

/// The written form of one token.
pub open spec fn token_text_s(strs: Seq<Seq<char>>, t: Token) -> Seq<char> {
    match t {
        Token::LParen => "("@,
        Token::RParen => ")"@,
        Token::LBrace => "{"@,
        Token::RBrace => "}"@,
        Token::Comma => ","@,
        Token::Dot => "."@,
        Token::Minus => "-"@,
        Token::Plus => "+"@,
        Token::Semicolon => ";"@,
        Token::Slash => "/"@,
        Token::Star => "*"@,
        Token::Mod => "%"@,
        Token::Bang => "!"@,
        Token::BangEqual => "!="@,
        Token::Equal => "="@,
        Token::EqualEqual => "=="@,
        Token::Greater => ">"@,
        Token::GreaterEqual => ">="@,
        Token::Less => "<"@,
        Token::LessEqual => "<="@,
        Token::Identifier(s) => str_at(strs, s as int),
        Token::Str(s) => str_at(strs, s as int),
        Token::Number(n) => display_of(n),
        Token::And => "and"@,
        Token::Class => "class"@,
        Token::Else => "else"@,
        Token::False => "false"@,
        Token::Fn => "fn"@,
        Token::For => "for"@,
        Token::If => "if"@,
        Token::Nil => "nil"@,
        Token::Or => "or"@,
        Token::Print => "print"@,
        Token::Return => "return"@,
        Token::Super => "super"@,
        Token::This => "this"@,
        Token::True => "true"@,
        Token::Var => "var"@,
        Token::While => "while"@,
        Token::Eof => ""@,
    }
}

/// The printed form of an expression.  Logical and call expressions have
/// no printed form here, as in the evaluator's own error reporting they
/// never reach the printer.
pub open spec fn print_expr_s(strs: Seq<Seq<char>>, e: ExprS) -> Seq<char>
    decreases e,
{
    match e {
        ExprS::Literal { value } => match value {
            Token::Nil => "nil"@,
            Token::Number(n) => display_of(n),
            Token::Str(s) => str_at(strs, s as int),
            _ => token_text_s(strs, value),
        },
        ExprS::Grouping { expression } => "(group "@ + print_expr_s(strs, *expression) + ")"@,
        ExprS::Unary { operator, right } => "("@ + token_text_s(strs, operator) + " "@
            + print_expr_s(strs, *right) + ")"@,
        ExprS::Binary { left, operator, right } => "("@ + token_text_s(strs, operator) + " "@
            + print_expr_s(strs, *left) + " "@ + print_expr_s(strs, *right) + ")"@,
        ExprS::Assign { name, value } => "("@ + token_text_s(strs, name) + " "@ + print_expr_s(
            strs,
            *value,
        ) + ")"@,
        ExprS::Variable { name } => token_text_s(strs, name),
        ExprS::Logical { .. } => Seq::empty(),
        ExprS::Call { .. } => Seq::empty(),
    }
}

pub struct AstPrinter;

impl AstPrinter {
    /// The written form of one token.
    pub fn token_text(&self, t: Token, strs: &StrTable) -> (r: String)
        ensures
            r@ == token_text_s(strs@, t),
    {
        match t {
            Token::LParen => "(".to_owned(),
            Token::RParen => ")".to_owned(),
            Token::LBrace => "{".to_owned(),
            Token::RBrace => "}".to_owned(),
            Token::Comma => ",".to_owned(),
            Token::Dot => ".".to_owned(),
            Token::Minus => "-".to_owned(),
            Token::Plus => "+".to_owned(),
            Token::Semicolon => ";".to_owned(),
            Token::Slash => "/".to_owned(),
            Token::Star => "*".to_owned(),
            Token::Mod => "%".to_owned(),
            Token::Bang => "!".to_owned(),
            Token::BangEqual => "!=".to_owned(),
            Token::Equal => "=".to_owned(),
            Token::EqualEqual => "==".to_owned(),
            Token::Greater => ">".to_owned(),
            Token::GreaterEqual => ">=".to_owned(),
            Token::Less => "<".to_owned(),
            Token::LessEqual => "<=".to_owned(),
            Token::Identifier(s) => {
                if s < strs.len() {
                    strs.get(s).clone()
                } else {
                    let r = String::new();
                    proof {
                        assert(str_at(strs@, s as int) =~= Seq::<char>::empty());
                    }
                    r
                }
            },
            Token::Str(s) => {
                if s < strs.len() {
                    strs.get(s).clone()
                } else {
                    let r = String::new();
                    proof {
                        assert(str_at(strs@, s as int) =~= Seq::<char>::empty());
                    }
                    r
                }
            },
            Token::Number(n) => crate::num::num_display(n),
            Token::And => "and".to_owned(),
            Token::Class => "class".to_owned(),
            Token::Else => "else".to_owned(),
            Token::False => "false".to_owned(),
            Token::Fn => "fn".to_owned(),
            Token::For => "for".to_owned(),
            Token::If => "if".to_owned(),
            Token::Nil => "nil".to_owned(),
            Token::Or => "or".to_owned(),
            Token::Print => "print".to_owned(),
            Token::Return => "return".to_owned(),
            Token::Super => "super".to_owned(),
            Token::This => "this".to_owned(),
            Token::True => "true".to_owned(),
            Token::Var => "var".to_owned(),
            Token::While => "while".to_owned(),
            Token::Eof => {
                let r = String::new();
                proof {
                    reveal_strlit("");
                    assert(""@ =~= Seq::<char>::empty());
                    assert(r@ =~= ""@);
                }
                r
            },
        }
    }

    /// `(operator piece piece ...)`.
    pub fn parenthesize(&self, operator: &str, pieces: &Vec<String>) -> (r: String)
        ensures
            r@ == "("@ + operator@ + spec_pieces(pieces@.map_values(|x: String| x@), 0) + ")"@,
    {
        let ghost total = spec_pieces(pieces@.map_values(|x: String| x@), 0);
        let mut s = "(".to_owned();
        s.append(operator);
        let n = pieces.len();
        let mut i: usize = 0;
        while i < n
            invariant
                0 <= i <= n,
                n == pieces.len(),
                total == spec_pieces(pieces@.map_values(|x: String| x@), 0),
                s@ + spec_pieces(pieces@.map_values(|x: String| x@), i as int) == "("@
                    + operator@ + total,
            decreases n - i,
        {
            let ghost before = s@;
            s.append(" ");
            s.append(pieces[i].as_str());
            proof {
                let ps = pieces@.map_values(|x: String| x@);
                assert(s@ =~= before + (" "@ + ps[i as int]));
                assert(before + spec_pieces(ps, i as int) =~= s@ + spec_pieces(ps, i + 1));
            }
            i += 1;
        }
        proof {
            let ps = pieces@.map_values(|x: String| x@);
            assert(spec_pieces(ps, n as int) =~= Seq::<char>::empty());
            assert(s@ =~= s@ + spec_pieces(ps, n as int));
        }
        s.append(")");
        s
    }

    /// The printed form of an expression.
    pub fn visit_expr(&self, expr: &Expr, strs: &StrTable) -> (r: String)
        ensures
            r@ == print_expr_s(strs@, expr_v(*expr)),
        decreases *expr,
    {
        match expr {
            Expr::Literal { value } => match value {
                Token::Nil => "nil".to_owned(),
                Token::Number(n) => crate::num::num_display(*n),
                Token::Str(s) => {
                    if *s < strs.len() {
                        strs.get(*s).clone()
                    } else {
                        let r = String::new();
                        proof {
                            assert(str_at(strs@, *s as int) =~= Seq::<char>::empty());
                        }
                        r
                    }
                },
                _ => self.token_text(*value, strs),
            },
            Expr::Grouping { expression } => {
                let inner = self.visit_expr(expression, strs);
                let mut s = "(group ".to_owned();
                s.append(inner.as_str());
                s.append(")");
                proof {
                    reveal_strlit("(group ");
                    reveal_strlit("(group");
                    reveal_strlit("(");
                    reveal_strlit(" ");
                    assert(s@ =~= "(group "@ + inner@ + ")"@);
                }
                s
            },
            Expr::Unary { operator, right } => {
                let ot = self.token_text(*operator, strs);
                let rt = self.visit_expr(right, strs);
                let mut s = "(".to_owned();
                s.append(ot.as_str());
                s.append(" ");
                s.append(rt.as_str());
                s.append(")");
                proof {
                    assert(s@ =~= "("@ + ot@ + " "@ + rt@ + ")"@);
                }
                s
            },
            Expr::Binary { left, operator, right } => {
                let ot = self.token_text(*operator, strs);
                let lt = self.visit_expr(left, strs);
                let rt = self.visit_expr(right, strs);
                let mut s = "(".to_owned();
                s.append(ot.as_str());
                s.append(" ");
                s.append(lt.as_str());
                s.append(" ");
                s.append(rt.as_str());
                s.append(")");
                proof {
                    assert(s@ =~= "("@ + ot@ + " "@ + lt@ + " "@ + rt@ + ")"@);
                }
                s
            },
            Expr::Assign { name, value } => {
                let nt = self.token_text(*name, strs);
                let vt = self.visit_expr(value, strs);
                let mut s = "(".to_owned();
                s.append(nt.as_str());
                s.append(" ");
                s.append(vt.as_str());
                s.append(")");
                proof {
                    assert(s@ =~= "("@ + nt@ + " "@ + vt@ + ")"@);
                }
                s
            },
            Expr::Variable { name } => self.token_text(*name, strs),
            Expr::Logical { .. } => {
                let r = String::new();
                proof {
                    assert(r@ =~= Seq::<char>::empty());
                }
                r
            },
            Expr::Call { .. } => {
                let r = String::new();
                proof {
                    assert(r@ =~= Seq::<char>::empty());
                }
                r
            },
        }
    }
}

/// `" p0 p1 ..."` from index `i` on.
pub open spec fn spec_pieces(pieces: Seq<Seq<char>>, i: int) -> Seq<char>
    decreases pieces.len() - i,
{
    if i < 0 || i >= pieces.len() {
        Seq::empty()
    } else {
        " "@ + pieces[i] + spec_pieces(pieces, i + 1)
    }
}

} // verus!
