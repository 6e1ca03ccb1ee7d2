//! The lexer.
//!
//! `spec_scan` says, as a mathematical function, which token sequence a
//! source text denotes and how it extends the string table;
//! `Lexer::scan_tokens` is proved to compute exactly that.  One call of
//! `spec_step` describes one lexeme: the token it may emit, the position
//! after it, and the table afterwards.

use vstd::prelude::*;

use crate::num::{is_digit, is_num_lit, bits_of_decimal, num_parse};
use crate::strtab::{StrTable, spec_intern, push_char};
use crate::token::{Token, spec_word_token, keywords};
use vstd::string::StrSliceExecFns;

verus! {

pub uninterp spec fn char_alpha(c: char) -> bool;

pub uninterp spec fn char_alnum(c: char) -> bool;

/// Relies on `char::is_alphabetic`: a property of the character alone.
#[verifier::external_body]
fn is_alpha(c: char) -> (r: bool)
    ensures
        r == char_alpha(c),
{
    c.is_alphabetic()
}

/// Relies on `char::is_alphanumeric`: a property of the character alone.
#[verifier::external_body]
fn is_alnum(c: char) -> (r: bool)
    ensures
        r == char_alnum(c),
{
    c.is_alphanumeric()
}

fn digit(c: char) -> (r: bool)
    ensures
        r == is_digit(c),
{
    '0' <= c && c <= '9'
}

/// Position of the next newline at or after `i`, or the end of the text.
pub open spec fn line_end(src: Seq<char>, i: int) -> int
    decreases src.len() - i,
{
    if i < 0 || i >= src.len() {
        src.len() as int
    } else if src[i] == '\n' {
        i
    } else {
        line_end(src, i + 1)
    }
}

/// Position just after the next `*/` at or after `i`, or the end of the
/// text when the comment is unterminated.
pub open spec fn block_comment_end(src: Seq<char>, i: int) -> int
    decreases src.len() - i,
{
    if i < 0 || i >= src.len() {
        src.len() as int
    } else if src[i] == '*' && i + 1 < src.len() && src[i + 1] == '/' {
        i + 2
    } else {
        block_comment_end(src, i + 1)
    }
}

/// Position of the next `"` at or after `i`, or the end of the text.
pub open spec fn string_end(src: Seq<char>, i: int) -> int
    decreases src.len() - i,
{
    if i < 0 || i >= src.len() {
        src.len() as int
    } else if src[i] == '"' {
        i
    } else {
        string_end(src, i + 1)
    }
}

/// Position of the first non-digit at or after `i`, or the end of the text.
pub open spec fn digits_end(src: Seq<char>, i: int) -> int
    decreases src.len() - i,
{
    if i < 0 || i >= src.len() {
        src.len() as int
    } else if !is_digit(src[i]) {
        i
    } else {
        digits_end(src, i + 1)
    }
}

/// End of a number literal starting at `i`: digits, then at most one point
/// followed by at least one digit.
pub open spec fn number_end(src: Seq<char>, i: int) -> int {
    let de = digits_end(src, i);
    if de < src.len() && src[de] == '.' && de + 1 < src.len() && is_digit(src[de + 1]) {
        digits_end(src, de + 1)
    } else {
        de
    }
}

/// Position of the first non-alphanumeric character at or after `i`.
pub open spec fn word_end(src: Seq<char>, i: int) -> int
    decreases src.len() - i,
{
    if i < 0 || i >= src.len() {
        src.len() as int
    } else if !char_alnum(src[i]) {
        i
    } else {
        word_end(src, i + 1)
    }
}

/// One lexing step at position `i` (which must be in range): the token
/// emitted, if any, the position after the lexeme, and the string table
/// afterwards.
pub open spec fn spec_step(src: Seq<char>, i: int, tab: Seq<Seq<char>>) -> (
    Option<Token>,
    int,
    Seq<Seq<char>>,
) {
    let c = src[i];
    if c == '(' {
        (Some(Token::LParen), i + 1, tab)
    } else if c == ')' {
        (Some(Token::RParen), i + 1, tab)
    } else if c == '{' {
        (Some(Token::LBrace), i + 1, tab)
    } else if c == '}' {
        (Some(Token::RBrace), i + 1, tab)
    } else if c == ',' {
        (Some(Token::Comma), i + 1, tab)
    } else if c == '.' {
        (Some(Token::Dot), i + 1, tab)
    } else if c == '-' {
        (Some(Token::Minus), i + 1, tab)
    } else if c == '+' {
        (Some(Token::Plus), i + 1, tab)
    } else if c == ';' {
        (Some(Token::Semicolon), i + 1, tab)
    } else if c == '*' {
        (Some(Token::Star), i + 1, tab)
    } else if c == '%' {
        (Some(Token::Mod), i + 1, tab)
    } else if c == '!' {
        if i + 1 < src.len() && src[i + 1] == '=' {
            (Some(Token::BangEqual), i + 2, tab)
        } else {
            (Some(Token::Bang), i + 1, tab)
        }
    } else if c == '=' {
        if i + 1 < src.len() && src[i + 1] == '=' {
            (Some(Token::EqualEqual), i + 2, tab)
        } else {
            (Some(Token::Equal), i + 1, tab)
        }
    } else if c == '<' {
        if i + 1 < src.len() && src[i + 1] == '=' {
            (Some(Token::LessEqual), i + 2, tab)
        } else {
            (Some(Token::Less), i + 1, tab)
        }
    } else if c == '>' {
        if i + 1 < src.len() && src[i + 1] == '=' {
            (Some(Token::GreaterEqual), i + 2, tab)
        } else {
            (Some(Token::Greater), i + 1, tab)
        }
    } else if c == '/' {
        if i + 1 < src.len() && src[i + 1] == '/' {
            (None, line_end(src, i + 2), tab)
        } else if i + 1 < src.len() && src[i + 1] == '*' {
            (None, block_comment_end(src, i + 2), tab)
        } else {
            (Some(Token::Slash), i + 1, tab)
        }
    } else if c == '"' {
        let q = string_end(src, i + 1);
        let content = src.subrange(i + 1, q);
        let (idx, tab2) = spec_intern(tab, content);
        (
            Some(Token::Str(idx as usize)),
            if q < src.len() {
                q + 1
            } else {
                src.len() as int
            },
            tab2,
        )
    } else if is_digit(c) {
        let e = number_end(src, i);
        (Some(Token::Number(bits_of_decimal(src.subrange(i, e)))), e, tab)
    } else if char_alpha(c) {
        let e = word_end(src, i + 1);
        let (t, tab2) = spec_word_token(tab, src.subrange(i, e));
        (Some(t), e, tab2)
    } else {
        (None, i + 1, tab)
    }
}

/// The token stream of the text from position `i` on, and the string table
/// it leaves behind.  The stream always ends with a single `Eof`.
pub open spec fn spec_scan(src: Seq<char>, i: int, tab: Seq<Seq<char>>) -> (
    Seq<Token>,
    Seq<Seq<char>>,
)
    decreases src.len() - i,
{
    if i < 0 || i >= src.len() {
        (seq![Token::Eof], tab)
    } else {
        let (ot, j, tab2) = spec_step(src, i, tab);
        let j2 = if j < i + 1 {
            i + 1
        } else if j > src.len() {
            src.len() as int
        } else {
            j
        };
        let (ts, tab3) = spec_scan(src, j2, tab2);
        (
            match ot {
                Some(t) => seq![t] + ts,
                None => ts,
            },
            tab3,
        )
    }
}

pub proof fn lemma_line_end(src: Seq<char>, i: int)
    requires
        0 <= i <= src.len(),
    ensures
        i <= line_end(src, i) <= src.len(),
    decreases src.len() - i,
{
    if i < src.len() && src[i] != '\n' {
        lemma_line_end(src, i + 1);
    }
}

pub proof fn lemma_block_comment_end(src: Seq<char>, i: int)
    requires
        0 <= i <= src.len(),
    ensures
        i <= block_comment_end(src, i) <= src.len() + 2,
        block_comment_end(src, i) <= src.len() || block_comment_end(src, i) == src.len() + 2
            || block_comment_end(src, i) == src.len() + 1,
    decreases src.len() - i,
{
    if i < src.len() && !(src[i] == '*' && i + 1 < src.len() && src[i + 1] == '/') {
        lemma_block_comment_end(src, i + 1);
    }
}

pub proof fn lemma_string_end(src: Seq<char>, i: int)
    requires
        0 <= i <= src.len(),
    ensures
        i <= string_end(src, i) <= src.len(),
        forall|k: int| i <= k < string_end(src, i) ==> src[k] != '"',
        string_end(src, i) < src.len() ==> src[string_end(src, i)] == '"',
    decreases src.len() - i,
{
    if i < src.len() && src[i] != '"' {
        lemma_string_end(src, i + 1);
    }
}

pub proof fn lemma_digits_end(src: Seq<char>, i: int)
    requires
        0 <= i <= src.len(),
    ensures
        i <= digits_end(src, i) <= src.len(),
        forall|k: int| i <= k < digits_end(src, i) ==> is_digit(src[k]),
        digits_end(src, i) < src.len() ==> !is_digit(src[digits_end(src, i)]),
    decreases src.len() - i,
{
    if i < src.len() && is_digit(src[i]) {
        lemma_digits_end(src, i + 1);
    }
}

pub proof fn lemma_word_end(src: Seq<char>, i: int)
    requires
        0 <= i <= src.len(),
    ensures
        i <= word_end(src, i) <= src.len(),
        forall|k: int| i <= k < word_end(src, i) ==> char_alnum(src[k]),
        word_end(src, i) < src.len() ==> !char_alnum(src[word_end(src, i)]),
    decreases src.len() - i,
{
    if i < src.len() && char_alnum(src[i]) {
        lemma_word_end(src, i + 1);
    }
}

/// Every lexing step moves forward, and never past the end.
pub proof fn lemma_spec_step_bounds(src: Seq<char>, i: int, tab: Seq<Seq<char>>)
    requires
        0 <= i < src.len(),
    ensures
        i < spec_step(src, i, tab).1 <= src.len(),
{
    if i + 2 <= src.len() {
        lemma_line_end(src, i + 2);
        lemma_block_comment_end(src, i + 2);
    }
    lemma_string_end(src, i + 1);
    lemma_digits_end(src, i);
    let de = digits_end(src, i);
    if de < src.len() && src[de] == '.' && de + 1 < src.len() && is_digit(src[de + 1]) {
        lemma_digits_end(src, de + 1);
    }
    lemma_word_end(src, i + 1);
    if src[i] == '/' && i + 1 < src.len() && src[i + 1] == '*' {
        // A block comment's end never exceeds the text: the `*/` must lie
        // within it.
        lemma_block_comment_within(src, i + 2);
    }
}

proof fn lemma_block_comment_within(src: Seq<char>, i: int)
    requires
        0 <= i <= src.len(),
    ensures
        block_comment_end(src, i) <= src.len(),
    decreases src.len() - i,
{
    if i < src.len() && !(src[i] == '*' && i + 1 < src.len() && src[i + 1] == '/') {
        lemma_block_comment_within(src, i + 1);
    }
}

pub struct Lexer {
    pub source: Vec<char>,
    pub current: usize,
    pub strs: StrTable,
}

impl Lexer {
    /// A lexer over the given text, interning into the given table.
    pub fn new(source: &str, strs: StrTable) -> (r: Lexer)
        ensures
            r.source@ == source@,
            r.current == 0,
            r.strs@ == strs@,
    {
        let n = source.unicode_len();
        let mut v: Vec<char> = Vec::new();
        let mut i: usize = 0;
        while i < n
            invariant
                0 <= i <= n,
                n == source@.len(),
                v@ == source@.subrange(0, i as int),
            decreases n - i,
        {
            v.push(source.get_char(i));
            proof {
                assert(v@ =~= source@.subrange(0, i + 1));
            }
            i += 1;
        }
        proof {
            assert(v@ =~= source@);
        }
        Lexer { source: v, current: 0, strs }
    }





    fn match_advance(&mut self, target: char) -> (r: bool)
        ensures
            final(self).source == old(self).source,
            final(self).strs == old(self).strs,
            r == (old(self).current < old(self).source.len() && old(self).source@[old(
                self,
            ).current as int] == target),
            final(self).current == if r {
                old(self).current + 1
            } else {
                old(self).current as int
            },
    {
        if self.current < self.source.len() && self.source[self.current] == target {
            self.current += 1;
            true
        } else {
            false
        }
    }

    fn skip_line_comment(&mut self)
        requires
            old(self).current <= old(self).source.len(),
        ensures
            final(self).source == old(self).source,
            final(self).strs == old(self).strs,
            final(self).current == line_end(old(self).source@, old(self).current as int),
            final(self).current <= final(self).source.len(),
    {
        proof {
            lemma_line_end(self.source@, self.current as int);
        }
        while self.current < self.source.len() && self.source[self.current] != '\n'
            invariant
                self.current <= self.source.len(),
                self.source == old(self).source,
                self.strs == old(self).strs,
                line_end(self.source@, self.current as int) == line_end(
                    old(self).source@,
                    old(self).current as int,
                ),
            decreases self.source.len() - self.current,
        {
            self.current += 1;
        }
    }

    fn skip_block_comment(&mut self)
        requires
            old(self).current <= old(self).source.len(),
        ensures
            final(self).source == old(self).source,
            final(self).strs == old(self).strs,
            final(self).current == block_comment_end(old(self).source@, old(self).current as int),
            final(self).current <= final(self).source.len(),
    {
        proof {
            lemma_block_comment_within(self.source@, self.current as int);
        }
        while self.current < self.source.len()
            invariant
                self.current <= self.source.len(),
                self.source == old(self).source,
                self.strs == old(self).strs,
                block_comment_end(self.source@, self.current as int) == block_comment_end(
                    old(self).source@,
                    old(self).current as int,
                ),
                block_comment_end(self.source@, self.current as int) <= self.source.len(),
            decreases self.source.len() - self.current,
        {
            if self.source[self.current] == '*' && self.current + 1 < self.source.len()
                && self.source[self.current + 1] == '/' {
                self.current += 2;
                return ;
            }
            self.current += 1;
        }
    }

    /// Scan a string literal's body; `current` stands just after the opening
    /// quote.  Consumes the closing quote when there is one.
    fn scan_string(&mut self) -> (s: String)
        requires
            old(self).current <= old(self).source.len(),
        ensures
            final(self).source == old(self).source,
            final(self).strs == old(self).strs,
            s@ == old(self).source@.subrange(
                old(self).current as int,
                string_end(old(self).source@, old(self).current as int),
            ),
            final(self).current == ({
                let q = string_end(old(self).source@, old(self).current as int);
                if q < old(self).source.len() {
                    q + 1
                } else {
                    old(self).source.len() as int
                }
            }),
            final(self).current <= final(self).source.len(),
    {
        let ghost q = string_end(self.source@, self.current as int);
        proof {
            lemma_string_end(self.source@, self.current as int);
        }
        let mut s = String::new();
        while self.current < self.source.len() && self.source[self.current] != '"'
            invariant
                old(self).current <= self.current <= self.source.len(),
                self.source == old(self).source,
                self.strs == old(self).strs,
                q == string_end(self.source@, old(self).current as int),
                string_end(self.source@, self.current as int) == q,
                s@ == self.source@.subrange(old(self).current as int, self.current as int),
            decreases self.source.len() - self.current,
        {
            let c = self.source[self.current];
            push_char(&mut s, c);
            self.current += 1;
            proof {
                assert(s@ =~= self.source@.subrange(
                    old(self).current as int,
                    self.current as int,
                ));
            }
        }
        proof {
            assert(self.current == q);
        }
        self.current = if self.current < self.source.len() {
            self.current + 1
        } else {
            self.current
        };
        s
    }

    /// Scan a run of digits, appending them to `s`.
    fn scan_digits(&mut self, s: &mut String)
        requires
            old(self).current <= old(self).source.len(),
        ensures
            final(self).source == old(self).source,
            final(self).strs == old(self).strs,
            final(self).current == digits_end(old(self).source@, old(self).current as int),
            final(self).current <= final(self).source.len(),
            final(s)@ == old(s)@ + old(self).source@.subrange(
                old(self).current as int,
                digits_end(old(self).source@, old(self).current as int),
            ),
    {
        proof {
            lemma_digits_end(self.source@, self.current as int);
        }
        while self.current < self.source.len() && digit(self.source[self.current])
            invariant
                old(self).current <= self.current <= self.source.len(),
                self.source == old(self).source,
                self.strs == old(self).strs,
                digits_end(self.source@, self.current as int) == digits_end(
                    old(self).source@,
                    old(self).current as int,
                ),
                s@ == old(s)@ + self.source@.subrange(
                    old(self).current as int,
                    self.current as int,
                ),
            decreases self.source.len() - self.current,
        {
            let c = self.source[self.current];
            push_char(s, c);
            self.current += 1;
            proof {
                assert(s@ =~= old(s)@ + self.source@.subrange(
                    old(self).current as int,
                    self.current as int,
                ));
            }
        }
    }

    /// Scan a number literal; `current` stands on its first digit.
    fn scan_number(&mut self) -> (lit: String)
        requires
            old(self).current < old(self).source.len(),
            is_digit(old(self).source@[old(self).current as int]),
        ensures
            final(self).source == old(self).source,
            final(self).strs == old(self).strs,
            final(self).current == number_end(old(self).source@, old(self).current as int),
            final(self).current <= final(self).source.len(),
            lit@ == old(self).source@.subrange(
                old(self).current as int,
                number_end(old(self).source@, old(self).current as int),
            ),
            is_num_lit(lit@),
    {
        let ghost i0 = self.current as int;
        let ghost src = self.source@;
        proof {
            lemma_digits_end(src, i0);
        }
        let mut lit = String::new();
        self.scan_digits(&mut lit);
        let ghost de = digits_end(src, i0);
        if self.current < self.source.len() && self.source[self.current] == '.' && self.current
            + 1 < self.source.len() && digit(self.source[self.current + 1]) {
            let dot = self.source[self.current];
            push_char(&mut lit, dot);
            self.current += 1;
            proof {
                lemma_digits_end(src, de + 1);
            }
            self.scan_digits(&mut lit);
            proof {
                let fe = digits_end(src, de + 1);
                assert(lit@ =~= src.subrange(i0, fe));
                assert(number_end(src, i0) == fe);
                // Shape: digits, one point, digits.
                assert forall|k: int| 0 <= k < lit@.len() implies is_digit(lit@[k]) || lit@[k]
                    == '.' by {
                    assert(lit@[k] == src[i0 + k]);
                }
                assert(is_digit(lit@[0]));
                assert(lit@[lit@.len() - 1] == src[fe - 1]);
                assert(is_digit(src[fe - 1]));
                assert forall|a: int, b: int|
                    0 <= a < lit@.len() && 0 <= b < lit@.len() && lit@[a] == '.' && lit@[b]
                        == '.' implies a == b by {
                    assert(lit@[a] == src[i0 + a]);
                    assert(lit@[b] == src[i0 + b]);
                }
            }
        } else {
            proof {
                assert(lit@ =~= src.subrange(i0, de));
                assert(number_end(src, i0) == de);
                assert forall|k: int| 0 <= k < lit@.len() implies is_digit(lit@[k]) by {
                    assert(lit@[k] == src[i0 + k]);
                }
                assert(is_digit(lit@[0]));
            }
        }
        lit
    }

    /// Scan an identifier or keyword; `current` stands on its first
    /// character, already known alphabetic.
    fn scan_word(&mut self) -> (w: String)
        requires
            old(self).current < old(self).source.len(),
        ensures
            final(self).source == old(self).source,
            final(self).strs == old(self).strs,
            final(self).current == word_end(old(self).source@, old(self).current + 1),
            final(self).current <= final(self).source.len(),
            w@ == old(self).source@.subrange(
                old(self).current as int,
                word_end(old(self).source@, old(self).current + 1),
            ),
    {
        let ghost i0 = self.current as int;
        let ghost src = self.source@;
        proof {
            lemma_word_end(src, i0 + 1);
        }
        let mut w = String::new();
        let c = self.source[self.current];
        push_char(&mut w, c);
        self.current += 1;
        proof {
            assert(w@ =~= src.subrange(i0, i0 + 1));
        }
        while self.current < self.source.len() && is_alnum(self.source[self.current])
            invariant
                i0 == old(self).current as int,
                0 <= i0,
                i0 + 1 <= self.current <= self.source.len(),
                self.source == old(self).source,
                src == self.source@,
                self.strs == old(self).strs,
                word_end(src, self.current as int) == word_end(src, i0 + 1),
                w@ == src.subrange(i0, self.current as int),
            decreases self.source.len() - self.current,
        {
            let c2 = self.source[self.current];
            push_char(&mut w, c2);
            self.current += 1;
            proof {
                assert(w@ =~= src.subrange(i0, self.current as int));
            }
        }
        w
    }

    /// Scan the whole text into tokens, ending with `Eof`.
    pub fn scan_tokens(&mut self) -> (tokens: Vec<Token>)
        requires
            old(self).current <= old(self).source.len(),
        ensures
            final(self).source == old(self).source,
            tokens@ == spec_scan(old(self).source@, old(self).current as int, old(self).strs@).0,
            final(self).strs@ == spec_scan(
                old(self).source@,
                old(self).current as int,
                old(self).strs@,
            ).1,
    {
        let ghost src = self.source@;
        let mut tokens: Vec<Token> = Vec::new();
        while self.current < self.source.len()
            invariant
                self.current <= self.source.len(),
                self.source == old(self).source,
                src == self.source@,
                spec_scan(src, old(self).current as int, old(self).strs@).0 == tokens@
                    + spec_scan(src, self.current as int, self.strs@).0,
                spec_scan(src, old(self).current as int, old(self).strs@).1 == spec_scan(
                    src,
                    self.current as int,
                    self.strs@,
                ).1,
            decreases self.source.len() - self.current,
        {
            let ghost i = self.current as int;
            let ghost tab = self.strs@;
            proof {
                lemma_spec_step_bounds(src, i, tab);
            }
            let ghost step = spec_step(src, i, tab);
            let c = self.source[self.current];
            self.current += 1;
            let tok: Option<Token> = if c == '(' {
                Some(Token::LParen)
            } else if c == ')' {
                Some(Token::RParen)
            } else if c == '{' {
                Some(Token::LBrace)
            } else if c == '}' {
                Some(Token::RBrace)
            } else if c == ',' {
                Some(Token::Comma)
            } else if c == '.' {
                Some(Token::Dot)
            } else if c == '-' {
                Some(Token::Minus)
            } else if c == '+' {
                Some(Token::Plus)
            } else if c == ';' {
                Some(Token::Semicolon)
            } else if c == '*' {
                Some(Token::Star)
            } else if c == '%' {
                Some(Token::Mod)
            } else if c == '!' {
                if self.match_advance('=') {
                    Some(Token::BangEqual)
                } else {
                    Some(Token::Bang)
                }
            } else if c == '=' {
                if self.match_advance('=') {
                    Some(Token::EqualEqual)
                } else {
                    Some(Token::Equal)
                }
            } else if c == '<' {
                if self.match_advance('=') {
                    Some(Token::LessEqual)
                } else {
                    Some(Token::Less)
                }
            } else if c == '>' {
                if self.match_advance('=') {
                    Some(Token::GreaterEqual)
                } else {
                    Some(Token::Greater)
                }
            } else if c == '/' {
                if self.match_advance('/') {
                    self.skip_line_comment();
                    None
                } else if self.match_advance('*') {
                    self.skip_block_comment();
                    None
                } else {
                    Some(Token::Slash)
                }
            } else if c == '"' {
                let body = self.scan_string();
                let idx = self.strs.intern(body);
                Some(Token::Str(idx))
            } else if digit(c) {
                self.current -= 1;
                let lit = self.scan_number();
                let bits = num_parse(lit.as_str());
                Some(Token::Number(bits))
            } else if is_alpha(c) {
                self.current -= 1;
                let w = self.scan_word();
                Some(keywords(w, &mut self.strs))
            } else {
                None
            };
            proof {
                assert((tok, self.current as int, self.strs@) == step);
            }
            match tok {
                Some(t) => {
                    tokens.push(t);
                    proof {
                        assert(spec_scan(src, old(self).current as int, old(self).strs@).0
                            =~= tokens@ + spec_scan(src, self.current as int, self.strs@).0);
                    }
                },
                None => {
                    proof {
                        assert(spec_scan(src, old(self).current as int, old(self).strs@).0
                            =~= tokens@ + spec_scan(src, self.current as int, self.strs@).0);
                    }
                },
            }
        }
        tokens.push(Token::Eof);
        proof {
            assert(tokens@ =~= spec_scan(src, old(self).current as int, old(self).strs@).0);
        }
        tokens
    }
}

} // verus!
