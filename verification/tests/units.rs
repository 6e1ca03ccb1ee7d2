// Unit tests of the lexer, the parser, the printer, the environment and
// the value types.

use lox_rs::ast::{Expr, Stmt};
use lox_rs::env::Environment;
use lox_rs::num::{num_eq, num_le, num_lt};
use lox_rs::types::{Callable, Clock, Function, Type};
use lox_rs::lexer::Lexer;
use lox_rs::parser::Parser;
use lox_rs::printer::AstPrinter;
use lox_rs::strtab::StrTable;
use lox_rs::token::Token;

fn scan(src: &str) -> (Vec<Token>, StrTable) {
    let mut lexer = Lexer::new(src, StrTable::new());
    let tokens = lexer.scan_tokens();
    (tokens, lexer.strs)
}

#[test]
fn ast_printer_test() {
    let expr = Expr::Binary {
        left: Box::new(Expr::Unary {
            operator: Token::Minus,
            right: Box::new(Expr::Literal { value: Token::Number((123.0f64).to_bits()) }),
        }),
        operator: Token::Star,
        right: Box::new(Expr::Grouping {
            expression: Box::new(Expr::Literal { value: Token::Number((48.0f64).to_bits()) }),
        }),
    };
    let printer = AstPrinter {};
    println!("{}", printer.visit_expr(&expr, &StrTable::new()));
    assert_eq!(printer.visit_expr(&expr, &StrTable::new()), "(* (- 123) (group 48))");
}

#[test]
fn mod_test() {
    let source = "(1 + 2)";
    let (tokens, _) = scan(source);
    let mut parser = Parser::new(tokens, true);
    let expr = parser.parse();
    println!("{:?}", expr);
    assert!(expr.is_ok());
}

#[test]
fn scan_single_tokens() {
    let (tokens, _) = scan("(){},.-+;*%/");
    assert_eq!(
        tokens,
        vec![
            Token::LParen,
            Token::RParen,
            Token::LBrace,
            Token::RBrace,
            Token::Comma,
            Token::Dot,
            Token::Minus,
            Token::Plus,
            Token::Semicolon,
            Token::Star,
            Token::Mod,
            Token::Slash,
            Token::Eof,
        ],
    );
}

#[test]
fn scan_two_char_operators() {
    let (tokens, _) = scan("! != = == < <= > >=");
    assert_eq!(
        tokens,
        vec![
            Token::Bang,
            Token::BangEqual,
            Token::Equal,
            Token::EqualEqual,
            Token::Less,
            Token::LessEqual,
            Token::Greater,
            Token::GreaterEqual,
            Token::Eof,
        ],
    );
}

#[test]
fn scan_keywords_and_identifiers() {
    let (tokens, strs) = scan("and class else false fn for if nil or print return super this true var while count");
    assert_eq!(
        tokens,
        vec![
            Token::And,
            Token::Class,
            Token::Else,
            Token::False,
            Token::Fn,
            Token::For,
            Token::If,
            Token::Nil,
            Token::Or,
            Token::Print,
            Token::Return,
            Token::Super,
            Token::This,
            Token::True,
            Token::Var,
            Token::While,
            Token::Identifier(0),
            Token::Eof,
        ],
    );
    assert_eq!(strs.items, vec!["count"]);
}

#[test]
fn identifiers_are_interned_once() {
    let (tokens, strs) = scan("alpha beta alpha");
    assert_eq!(
        tokens,
        vec![Token::Identifier(0), Token::Identifier(1), Token::Identifier(0), Token::Eof],
    );
    assert_eq!(strs.items, vec!["alpha", "beta"]);
}

#[test]
fn scan_number_literals() {
    let (tokens, _) = scan("0 42 1.5");
    assert_eq!(
        tokens,
        vec![
            Token::Number((0.0f64).to_bits()),
            Token::Number((42.0f64).to_bits()),
            Token::Number((1.5f64).to_bits()),
            Token::Eof,
        ],
    );
}

#[test]
fn number_stops_at_second_point() {
    // A second point is no longer part of the number.
    let (tokens, _) = scan("1.2.3");
    assert_eq!(
        tokens,
        vec![
            Token::Number((1.2f64).to_bits()),
            Token::Dot,
            Token::Number((3.0f64).to_bits()),
            Token::Eof,
        ],
    );
}

#[test]
fn scan_string_literal() {
    let (tokens, strs) = scan("\"hi there\"");
    assert_eq!(tokens, vec![Token::Str(0), Token::Eof]);
    assert_eq!(strs.items, vec!["hi there"]);
}

#[test]
fn scan_skips_comments_and_unknown_characters() {
    let (tokens, _) = scan("# @ // gone\n1 /* gone\ntoo */ 2");
    assert_eq!(
        tokens,
        vec![Token::Number((1.0f64).to_bits()), Token::Number((2.0f64).to_bits()), Token::Eof],
    );
}

#[test]
fn parse_precedence_shape() {
    let (tokens, _) = scan("1 + 2 * 3;");
    let mut parser = Parser::new(tokens, false);
    let stmts = parser.parse().expect("parse");
    assert_eq!(stmts.len(), 1);
    match &stmts[0] {
        Stmt::Expression { expression } => match expression {
            Expr::Binary { operator, right, .. } => {
                assert_eq!(*operator, Token::Plus);
                match right.as_ref() {
                    Expr::Binary { operator, .. } => assert_eq!(*operator, Token::Star),
                    other => panic!("expected a product on the right, got {:?}", other),
                }
            },
            other => panic!("expected a sum, got {:?}", other),
        },
        other => panic!("expected an expression statement, got {:?}", other),
    }
}

#[test]
fn parse_statement_counts() {
    let (tokens, _) = scan("var a = 1; print a; { a = 2; }");
    let mut parser = Parser::new(tokens, false);
    let stmts = parser.parse().expect("parse");
    assert_eq!(stmts.len(), 3);
}

#[test]
fn parenthesize_joins_pieces() {
    let printer = AstPrinter {};
    let pieces = vec![String::from("1"), String::from("2")];
    assert_eq!(printer.parenthesize("+", &pieces), "(+ 1 2)");
}

#[test]
fn printer_renders_variables_and_assignment() {
    let (tokens, strs) = scan("value");
    assert_eq!(tokens[0], Token::Identifier(0));
    let expr = Expr::Assign {
        name: Token::Identifier(0),
        value: Box::new(Expr::Literal { value: Token::Number((7.0f64).to_bits()) }),
    };
    let printer = AstPrinter {};
    assert_eq!(printer.visit_expr(&expr, &strs), "(value 7)");
}

#[test]
fn environment_define_get_assign() {
    let mut env = Environment::global();
    env.define(0, 7, Type::Boolean(true));
    assert_eq!(env.get(0, 7), Some(Type::Boolean(true)));
    assert_eq!(env.get(0, 8), None);

    // A child scope sees the binding and assigns through the chain.
    let child = env.new(Some(0));
    assert_eq!(env.get(child, 7), Some(Type::Boolean(true)));
    assert!(env.assign(child, 7, Type::Nil));
    assert_eq!(env.get(0, 7), Some(Type::Nil));
    assert!(!env.assign(child, 8, Type::Nil));

    // A binding of the child shadows without touching the global one.
    env.define(child, 7, Type::Boolean(false));
    assert_eq!(env.get(child, 7), Some(Type::Boolean(false)));
    assert_eq!(env.get(0, 7), Some(Type::Nil));
}

#[test]
fn string_table_interns_once() {
    let mut tab = StrTable::new();
    let a = tab.intern(String::from("one"));
    let b = tab.intern(String::from("two"));
    let a2 = tab.intern(String::from("one"));
    assert_eq!(a, a2);
    assert_ne!(a, b);
    assert_eq!(tab.get(a), "one");
    assert_eq!(tab.len(), 2);
}

#[test]
fn truthiness_of_values() {
    let mut tab = StrTable::new();
    let empty = tab.intern(String::new());
    let full = tab.intern(String::from("x"));
    assert!(!Type::Nil.is_true(&tab));
    assert!(!Type::Boolean(false).is_true(&tab));
    assert!(Type::Boolean(true).is_true(&tab));
    assert!(!Type::Number((0.0f64).to_bits()).is_true(&tab));
    assert!(!Type::Number(f64::NAN.to_bits()).is_true(&tab));
    assert!(!Type::Number(f64::INFINITY.to_bits()).is_true(&tab));
    assert!(Type::Number((3.5f64).to_bits()).is_true(&tab));
    assert!(!Type::Str(empty).is_true(&tab));
    assert!(Type::Str(full).is_true(&tab));
    assert!(!Type::Callable(0).is_true(&tab));
}

#[test]
fn number_comparisons_on_bits() {
    let b = |x: f64| x.to_bits();
    assert!(num_lt(b(1.0), b(2.0)));
    assert!(num_lt(b(-2.0), b(-1.0)));
    assert!(num_lt(b(-1.0), b(1.0)));
    assert!(!num_lt(b(1.0), b(1.0)));
    assert!(num_eq(b(0.0), b(-0.0)));
    assert!(!num_eq(b(f64::NAN), b(f64::NAN)));
    assert!(!num_lt(b(f64::NAN), b(1.0)));
    assert!(num_le(b(2.0), b(2.0)));
}

#[test]
fn callable_arity() {
    assert_eq!(Callable::Native(Clock {}).arity(), 0);
    let f = Function {
        name: Token::Identifier(0),
        params: vec![Token::Identifier(1), Token::Identifier(2)],
        body: Stmt::Block { statements: Vec::new() },
        env: 0,
    };
    assert_eq!(Callable::Function(f).arity(), 2);
}
