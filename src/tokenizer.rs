//! Lexical scanning: turns the characters of an expression into tokens, one at a time.
use vstd::prelude::*;
use crate::token::{Numeral, Token};

verus! {

pub open spec fn is_space(c: char) -> bool {
    c == ' ' || c == '\t' || c == '\n' || c == '\r'
}

pub open spec fn is_digit(c: char) -> bool {
    '0' <= c && c <= '9'
}

/// The first position at or after `pos` that does not hold whitespace.
pub open spec fn skip_space(s: Seq<char>, pos: nat) -> nat
    decreases s.len() - pos,
{
    if pos < s.len() && is_space(s[pos as int]) {
        skip_space(s, pos + 1)
    } else {
        pos
    }
}

/// The end of the run of digits that starts at `pos`.
pub open spec fn digits_end(s: Seq<char>, pos: nat) -> nat
    decreases s.len() - pos,
{
    if pos < s.len() && is_digit(s[pos as int]) {
        digits_end(s, pos + 1)
    } else {
        pos
    }
}

/// The end of the numeral that starts with a digit at `pos`: digits, then
/// optionally a point and more digits.
pub open spec fn numeral_end(s: Seq<char>, pos: nat) -> nat {
    let e = digits_end(s, pos);
    if e < s.len() && s[e as int] == '.' {
        digits_end(s, e + 1)
    } else {
        e
    }
}

pub open spec fn symbol_token(c: char) -> Option<Token> {
    if c == '+' {
        Some(Token::Add)
    } else if c == '-' {
        Some(Token::Substract)
    } else if c == '*' {
        Some(Token::Multiply)
    } else if c == '/' {
        Some(Token::Divide)
    } else if c == '^' {
        Some(Token::Caret)
    } else if c == '(' {
        Some(Token::LeftParen)
    } else if c == ')' {
        Some(Token::RightParen)
    } else {
        None
    }
}

/// The token that starts at or after `pos` (whitespace skipped), with the
/// position just past it. At the end of the text the token is `EOF`, and the
/// position stays there. `None` where no token can start: a character that
/// is neither whitespace, a symbol nor a digit.
pub open spec fn lex_at(s: Seq<char>, pos: nat) -> Option<(Token, nat)> {
    let p = skip_space(s, pos);
    if p >= s.len() {
        Some((Token::EOF, p))
    } else if symbol_token(s[p as int]) is Some {
        Some((symbol_token(s[p as int])->Some_0, p + 1))
    } else if is_digit(s[p as int]) {
        let e = numeral_end(s, p);
        Some((Token::Num(Numeral { start: p as usize, end: e as usize }), e))
    } else {
        None
    }
}

pub proof fn lemma_skip_space(s: Seq<char>, pos: nat)
    requires
        pos <= s.len(),
    ensures
        pos <= skip_space(s, pos) <= s.len(),
        skip_space(s, pos) < s.len() ==> !is_space(s[skip_space(s, pos) as int]),
    decreases s.len() - pos,
{
    if pos < s.len() && is_space(s[pos as int]) {
        lemma_skip_space(s, pos + 1);
    }
}

pub proof fn lemma_digits_end(s: Seq<char>, pos: nat)
    requires
        pos <= s.len(),
    ensures
        pos <= digits_end(s, pos) <= s.len(),
        digits_end(s, pos) < s.len() ==> !is_digit(s[digits_end(s, pos) as int]),
        forall|i: int| pos <= i < digits_end(s, pos) ==> is_digit(#[trigger] s[i]),
    decreases s.len() - pos,
{
    if pos < s.len() && is_digit(s[pos as int]) {
        lemma_digits_end(s, pos + 1);
    }
}

/// What `lex_at` gives: a position that never goes back and stays in the
/// text, and that moves forward unless the token is `EOF`.
pub proof fn lemma_lex_at_progress(s: Seq<char>, pos: nat)
    requires
        pos <= s.len(),
    ensures
        lex_at(s, pos) matches Some((t, p)) ==> {
            &&& pos <= p <= s.len()
            &&& (t != Token::EOF ==> pos < p)
            &&& (t == Token::EOF ==> p == s.len())
        },
{
    lemma_skip_space(s, pos);
    let p = skip_space(s, pos);
    if p < s.len() && is_digit(s[p as int]) {
        lemma_digits_end(s, p);
        let e = digits_end(s, p);
        if e < s.len() && s[e as int] == '.' {
            lemma_digits_end(s, e + 1);
        }
    }
}

/// Scans an expression string; each call of `next` yields one token.
pub struct Tokenizer {
    chars: Vec<char>,
    pos: usize,
}

impl Tokenizer {
    /// The characters being scanned.
    pub closed spec fn text(&self) -> Seq<char> {
        self.chars@
    }

    /// The position of the next character to scan.
    pub closed spec fn position(&self) -> nat {
        self.pos as nat
    }

    pub open spec fn wf(&self) -> bool {
        self.position() <= self.text().len()
    }

    pub fn new(expr: &str) -> (r: Tokenizer)
        ensures
            r.text() == expr@,
            r.position() == 0,
            r.wf(),
    {
        let n: usize = expr.unicode_len();
        let mut chars: Vec<char> = Vec::new();
        let mut i: usize = 0;
        while i < n
            invariant
                n == expr@.len(),
                i <= n,
                chars@ == expr@.subrange(0, i as int),
            decreases n - i,
        {
            chars.push(expr.get_char(i));
            i = i + 1;
        }
        assert(chars@ =~= expr@);
        Tokenizer { chars, pos: 0 }
    }

    /// Yields the next token, or `None` where the remaining text cannot
    /// start one; in that case the position is left unchanged.
    pub fn next(&mut self) -> (r: Option<Token>)
        requires
            old(self).wf(),
        ensures
            final(self).wf(),
            final(self).text() == old(self).text(),
            match lex_at(old(self).text(), old(self).position()) {
                Some((t, p)) => r == Some(t) && final(self).position() == p,
                None => r is None && final(self).position() == old(self).position(),
            },
    {
        let ghost s = self.chars@;
        let n: usize = self.chars.len();
        let mut p: usize = self.pos;
        while p < n && is_space_char(self.chars[p])
            invariant
                s == self.chars@,
                n == s.len(),
                self.pos <= p <= n,
                skip_space(s, self.pos as nat) == skip_space(s, p as nat),
                *self == *old(self),
                self.pos <= n,
            decreases n - p,
        {
            p = p + 1;
        }
        if p >= n {
            self.pos = p;
            return Some(Token::EOF);
        }
        assert(skip_space(s, self.pos as nat) == p as nat);
        let c = self.chars[p];
        let sym = symbol(c);
        if let Some(t) = sym {
            self.pos = p + 1;
            return Some(t);
        }
        if !is_digit_char(c) {
            return None;
        }
        proof {
            lemma_digits_end(s, p as nat);
        }
        let ghost e = digits_end(s, p as nat);
        let mut q: usize = p;
        while q < n && is_digit_char(self.chars[q])
            invariant
                s == self.chars@,
                n == s.len(),
                p <= q <= e,
                e <= n,
                digits_end(s, q as nat) == e,
            decreases n - q,
        {
            proof {
                lemma_digits_end(s, (q + 1) as nat);
            }
            q = q + 1;
        }
        if q < n && self.chars[q] == '.' {
            proof {
                lemma_digits_end(s, (q + 1) as nat);
            }
            q = q + 1;
            let ghost e2 = numeral_end(s, p as nat);
            while q < n && is_digit_char(self.chars[q])
                invariant
                    s == self.chars@,
                    n == s.len(),
                    q <= e2,
                    e2 <= n,
                    digits_end(s, q as nat) == e2,
                decreases n - q,
            {
                proof {
                    lemma_digits_end(s, (q + 1) as nat);
                }
                q = q + 1;
            }
        }
        self.pos = q;
        Some(Token::Num(Numeral { start: p, end: q }))
    }
}

fn is_space_char(c: char) -> (r: bool)
    ensures
        r == is_space(c),
{
    c == ' ' || c == '\t' || c == '\n' || c == '\r'
}

fn is_digit_char(c: char) -> (r: bool)
    ensures
        r == is_digit(c),
{
    '0' <= c && c <= '9'
}

fn symbol(c: char) -> (r: Option<Token>)
    ensures
        r == symbol_token(c),
{
    match c {
        '+' => Some(Token::Add),
        '-' => Some(Token::Substract),
        '*' => Some(Token::Multiply),
        '/' => Some(Token::Divide),
        '^' => Some(Token::Caret),
        '(' => Some(Token::LeftParen),
        ')' => Some(Token::RightParen),
        _ => None,
    }
}

} // verus!
