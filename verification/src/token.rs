//! Tokens.
//!
//! A token is plain copyable data: identifiers and string literals carry an
//! index into the interpreter's string table, numbers carry the binary64 bit
//! pattern of their value.

use vstd::prelude::*;

use crate::strtab::{StrTable, str_eq, find_str, lemma_find_str};

verus! {

#[derive(Clone, Copy, Debug, PartialEq, Eq, Structural)]
pub enum Token {
    // Single-character tokens.
    LParen,
    RParen,
    LBrace,
    RBrace,
    Comma,
    Dot,
    Minus,
    Plus,
    Semicolon,
    Slash,
    Star,
    Mod,
    // One- or two-character tokens.
    Bang,
    BangEqual,
    Equal,
    EqualEqual,
    Greater,
    GreaterEqual,
    Less,
    LessEqual,
    // Literals, by string-table index or bit pattern.
    Identifier(usize),
    Str(usize),
    Number(u64),
    // Keywords.
    And,
    Class,
    Else,
    False,
    Fn,
    For,
    If,
    Nil,
    Or,
    Print,
    Return,
    Super,
    This,
    True,
    Var,
    While,
    Eof,
}

/// The keyword a word denotes, if any.
pub open spec fn spec_keyword(s: Seq<char>) -> Option<Token> {
    if s == "and"@ {
        Some(Token::And)
    } else if s == "class"@ {
        Some(Token::Class)
    } else if s == "else"@ {
        Some(Token::Else)
    } else if s == "false"@ {
        Some(Token::False)
    } else if s == "for"@ {
        Some(Token::For)
    } else if s == "fn"@ {
        Some(Token::Fn)
    } else if s == "if"@ {
        Some(Token::If)
    } else if s == "nil"@ {
        Some(Token::Nil)
    } else if s == "or"@ {
        Some(Token::Or)
    } else if s == "print"@ {
        Some(Token::Print)
    } else if s == "return"@ {
        Some(Token::Return)
    } else if s == "super"@ {
        Some(Token::Super)
    } else if s == "this"@ {
        Some(Token::This)
    } else if s == "true"@ {
        Some(Token::True)
    } else if s == "var"@ {
        Some(Token::Var)
    } else if s == "while"@ {
        Some(Token::While)
    } else {
        None
    }
}

/// The token a scanned word turns into: a keyword token, or an identifier
/// interned into the table.
pub open spec fn spec_word_token(tab: Seq<Seq<char>>, s: Seq<char>) -> (Token, Seq<Seq<char>>) {
    match spec_keyword(s) {
        Some(t) => (t, tab),
        None => {
            let i = find_str(tab, s);
            if i < tab.len() {
                (Token::Identifier(i as usize), tab)
            } else {
                (Token::Identifier(tab.len() as usize), tab.push(s))
            }
        },
    }
}

/// Turn a scanned word into its token: a keyword, or an interned identifier.
pub fn keywords(s: String, tab: &mut StrTable) -> (r: Token)
    ensures
        r == spec_word_token(old(tab)@, s@).0,
        final(tab)@ == spec_word_token(old(tab)@, s@).1,
{
    let w = s.as_str();
    if str_eq(w, "and") {
        Token::And
    } else if str_eq(w, "class") {
        Token::Class
    } else if str_eq(w, "else") {
        Token::Else
    } else if str_eq(w, "false") {
        Token::False
    } else if str_eq(w, "for") {
        Token::For
    } else if str_eq(w, "fn") {
        Token::Fn
    } else if str_eq(w, "if") {
        Token::If
    } else if str_eq(w, "nil") {
        Token::Nil
    } else if str_eq(w, "or") {
        Token::Or
    } else if str_eq(w, "print") {
        Token::Print
    } else if str_eq(w, "return") {
        Token::Return
    } else if str_eq(w, "super") {
        Token::Super
    } else if str_eq(w, "this") {
        Token::This
    } else if str_eq(w, "true") {
        Token::True
    } else if str_eq(w, "var") {
        Token::Var
    } else if str_eq(w, "while") {
        Token::While
    } else {
        let r = tab.intern(s);
        proof {
            lemma_find_str(old(tab)@, s@);
        }
        Token::Identifier(r)
    }
}

} // verus!
