//! Reads the tokens of an expression and builds its syntax tree by
//! precedence climbing.
use vstd::prelude::*;
use crate::ast::Node;
use crate::token::{OperPrec, Token};
use crate::tokenizer::{lex_at, lemma_lex_at_progress, Tokenizer};

verus! {

/// The two kinds of parse failure.
#[derive(Clone, Copy, Debug, PartialEq, Eq, Structural)]
pub enum ErrorKind {
    /// No operand could be formed where one was expected.
    UnableToParse,
    /// An unexpected or mismatched token, or text that yields no token.
    InvalidOperator,
}

/// A parse failure with a description of its cause.
#[derive(Debug)]
pub enum ParseErr {
    UnableToParse(String),
    InvalidOperator(String),
}

impl ParseErr {
    pub open spec fn kind(&self) -> ErrorKind {
        match self {
            ParseErr::UnableToParse(_) => ErrorKind::UnableToParse,
            ParseErr::InvalidOperator(_) => ErrorKind::InvalidOperator,
        }
    }

    pub open spec fn detail(&self) -> Seq<char> {
        match self {
            ParseErr::UnableToParse(e) => e@,
            ParseErr::InvalidOperator(e) => e@,
        }
    }

    /// The message shown to a user: "Error in evaluating " and the detail.
    pub fn message(&self) -> (r: String)
        ensures
            r@ == "Error in evaluating "@ + self.detail(),
    {
        let prefix = String::from_str("Error in evaluating ");
        match self {
            ParseErr::UnableToParse(e) => prefix.concat(e.as_str()),
            ParseErr::InvalidOperator(e) => prefix.concat(e.as_str()),
        }
    }
}

/// A bound on the work left: twice the characters not yet scanned, plus one
/// while the current token is not `EOF`. Consuming a token lowers it.
pub open spec fn measure(s: Seq<char>, pos: nat, cur: Token) -> nat {
    if pos <= s.len() {
        (2 * (s.len() - pos) + if cur == Token::EOF { 0int } else { 1int }) as nat
    } else {
        0
    }
}

/// The failure that ends a step where parsing would not move forward. No
/// state that the parser reaches gives it: see `laws::parsing_never_stalls`.
pub open spec fn stalled() -> (ErrorKind, Seq<char>) {
    (ErrorKind::InvalidOperator, "Invalid character"@)
}

/// Consumes the current token: the next token, with the position after it.
/// At the end of the text the state stays as it is: `EOF` again.
/// (The comparison of measures always holds; it shows that parsing ends.)
pub open spec fn advance(s: Seq<char>, pos: nat, cur: Token) -> Result<(nat, Token), (ErrorKind, Seq<char>)> {
    if cur == Token::EOF {
        Ok((pos, cur))
    } else {
        match lex_at(s, pos) {
        Some((t, p)) => if measure(s, p, t) < measure(s, pos, cur) {
            Ok((p, t))
        } else {
            Err(stalled())
        },
        None => Err((ErrorKind::InvalidOperator, "Invalid character"@)),
        }
    }
}

/// How a message names token `t` of text `s`: a numeral by its characters,
/// as in `Num(2.5)`; any other token by the name of its variant.
pub open spec fn describe(s: Seq<char>, t: Token) -> Seq<char> {
    match t {
        Token::Num(v) => if v.start <= v.end <= s.len() {
            "Num("@ + s.subrange(v.start as int, v.end as int) + ")"@
        } else {
            "Num"@
        },
        _ => t.name_spec(),
    }
}

/// The binary node that an operator token builds.
pub open spec fn combine(op: Token, left: Node, right: Node) -> Node {
    match op {
        Token::Add => Node::Add(Box::new(left), Box::new(right)),
        Token::Substract => Node::Subtract(Box::new(left), Box::new(right)),
        Token::Multiply => Node::Multiply(Box::new(left), Box::new(right)),
        Token::Divide => Node::Divide(Box::new(left), Box::new(right)),
        _ => Node::Caret(Box::new(left), Box::new(right)),
    }
}

/// The bound at which the right operand of an operator is parsed: the
/// operator's own level, so that `+ - * /` group from the left; for `^` the
/// level below it, so that a further `^` nests into the right operand and
/// `^` groups from the right.
pub open spec fn right_bound(op: Token) -> OperPrec {
    if op == Token::Caret {
        OperPrec::MulDiv
    } else {
        op.prec()
    }
}

pub open spec fn is_binary_operator(t: Token) -> bool {
    t == Token::Add || t == Token::Substract || t == Token::Multiply || t == Token::Divide
        || t == Token::Caret
}

/// Parsing of text `s` from the state (`pos`, `cur`), `pos` being the
/// position after the current token `cur`: an operand, then every operator
/// that binds more tightly than `min` with its right operand. Gives the tree
/// and the state after it.
pub open spec fn gen_ast(s: Seq<char>, pos: nat, cur: Token, min: OperPrec) -> Result<(Node, nat, Token), (ErrorKind, Seq<char>)>
    decreases measure(s, pos, cur), 2nat,
{
    match primary(s, pos, cur) {
        Err(k) => Err(k),
        Ok((left, p, c)) => if measure(s, p, c) < measure(s, pos, cur) {
            climb(s, p, c, min, left)
        } else {
            Err(stalled())
        },
    }
}

/// The operator loop: while the current token binds more tightly than
/// `min`, it joins `left` and its right operand into the new `left`.
pub open spec fn climb(s: Seq<char>, pos: nat, cur: Token, min: OperPrec, left: Node) -> Result<(Node, nat, Token), (ErrorKind, Seq<char>)>
    decreases measure(s, pos, cur), 3nat,
{
    if min.rank() < cur.prec().rank() && cur != Token::EOF {
        match binary(s, pos, cur, left) {
            Err(k) => Err(k),
            Ok((n, p, c)) => if measure(s, p, c) < measure(s, pos, cur) {
                climb(s, p, c, min, n)
            } else {
                Err(stalled())
            },
        }
    } else {
        Ok((left, pos, cur))
    }
}

/// The current token as a binary operator applied to `left` and to the
/// operand that follows, parsed at the operator's `right_bound`.
pub open spec fn binary(s: Seq<char>, pos: nat, cur: Token, left: Node) -> Result<(Node, nat, Token), (ErrorKind, Seq<char>)>
    decreases measure(s, pos, cur), 1nat,
{
    if is_binary_operator(cur) {
        match advance(s, pos, cur) {
            Err(k) => Err(k),
            Ok((p, c)) => match gen_ast(s, p, c, right_bound(cur)) {
                Err(k) => Err(k),
                Ok((right, p2, c2)) => Ok((combine(cur, left, right), p2, c2)),
            },
        }
    } else {
        Err((ErrorKind::InvalidOperator, "Please enter valid operator "@ + describe(s, cur)))
    }
}

/// An operand: a unary minus with the operand that follows at the highest
/// precedence, a number, or a parenthesized expression; a parenthesized
/// expression directly followed by `(` is multiplied by what follows,
/// parsed at the precedence of `*`.
pub open spec fn primary(s: Seq<char>, pos: nat, cur: Token) -> Result<(Node, nat, Token), (ErrorKind, Seq<char>)>
    decreases measure(s, pos, cur), 1nat,
{
    match cur {
        Token::Substract => match advance(s, pos, cur) {
            Err(k) => Err(k),
            Ok((p, c)) => match gen_ast(s, p, c, OperPrec::Negative) {
                Err(k) => Err(k),
                Ok((e, p2, c2)) => Ok((Node::Negative(Box::new(e)), p2, c2)),
            },
        },
        Token::Num(v) => match advance(s, pos, cur) {
            Err(k) => Err(k),
            Ok((p, c)) => Ok((Node::Number(v), p, c)),
        },
        Token::LeftParen => match advance(s, pos, cur) {
            Err(k) => Err(k),
            Ok((p, c)) => match gen_ast(s, p, c, OperPrec::DefaultZero) {
                Err(k) => Err(k),
                Ok((e, p2, c2)) => if c2 != Token::RightParen {
                    Err((ErrorKind::InvalidOperator, "Expected "@ + describe(s, Token::RightParen) + ", got "@ + describe(s, c2)))
                } else {
                    match advance(s, p2, c2) {
                        Err(k) => Err(k),
                        Ok((p3, c3)) => if c3 != Token::LeftParen {
                            Ok((e, p3, c3))
                        } else if measure(s, p3, c3) < measure(s, pos, cur) {
                            match gen_ast(s, p3, c3, OperPrec::MulDiv) {
                                Err(k) => Err(k),
                                Ok((r, p4, c4)) => Ok((Node::Multiply(Box::new(e), Box::new(r)), p4, c4)),
                            }
                        } else {
                            Err(stalled())
                        },
                    }
                },
            },
        },
        _ => Err((ErrorKind::UnableToParse, "Unable to parse"@)),
    }
}

/// The first token of a text, which must not be `EOF`.
pub open spec fn start(s: Seq<char>) -> Result<(nat, Token), (ErrorKind, Seq<char>)> {
    match lex_at(s, 0) {
        Some((t, p)) => if t != Token::EOF {
            Ok((p, t))
        } else {
            Err((ErrorKind::InvalidOperator, "Invalid character"@))
        },
        None => Err((ErrorKind::InvalidOperator, "Invalid character"@)),
    }
}

/// A whole expression from the state (`pos`, `cur`): it must be followed by
/// the end of the text.
pub open spec fn finish(s: Seq<char>, pos: nat, cur: Token) -> Result<Node, (ErrorKind, Seq<char>)> {
    match gen_ast(s, pos, cur, OperPrec::DefaultZero) {
        Err(k) => Err(k),
        Ok((n, p, c)) => if c == Token::EOF {
            Ok(n)
        } else {
            Err((ErrorKind::InvalidOperator, "Unexpected "@ + describe(s, c) + " after the expression"@))
        },
    }
}

/// The tree of a whole text, or the kind of failure.
pub open spec fn parse_text(s: Seq<char>) -> Result<Node, (ErrorKind, Seq<char>)> {
    match start(s) {
        Err(k) => Err(k),
        Ok((p, c)) => finish(s, p, c),
    }
}

/// `r` is the executable counterpart of the outcome `o`.
pub open spec fn agrees(r: Result<Node, ParseErr>, o: Result<Node, (ErrorKind, Seq<char>)>) -> bool {
    match o {
        Ok(n) => r == Ok::<Node, ParseErr>(n),
        Err(k) => r is Err && r->Err_0.kind() == k.0 && r->Err_0.detail() == k.1,
    }
}

/// Builds the syntax tree of one expression, reading its tokens one at a time.
pub struct Parser {
    tokenizer: Tokenizer,
    current_token: Token,
    source: String,
}

impl Parser {
    /// The text of the expression.
    pub closed spec fn text(&self) -> Seq<char> {
        self.tokenizer.text()
    }

    /// The position just past the current token.
    pub closed spec fn position(&self) -> nat {
        self.tokenizer.position()
    }

    /// The token under examination.
    pub closed spec fn current(&self) -> Token {
        self.current_token
    }

    pub open spec fn wf(&self) -> bool {
        &&& self.position() <= self.text().len()
        &&& self.current() == Token::EOF ==> self.position() == self.text().len()
        &&& self.source_kept()
    }

    /// The parser keeps the text as a string beside its tokenizer.
    pub closed spec fn source_kept(&self) -> bool {
        self.source@ == self.tokenizer.text()
    }

    /// How a message names token `t`: a numeral by its characters.
    fn describe(&self, t: &Token) -> (r: String)
        requires
            self.wf(),
        ensures
            r@ == describe(self.text(), *t),
    {
        match t {
            Token::Num(v) => {
                let text = self.source.as_str();
                if v.start <= v.end && v.end <= text.unicode_len() {
                    String::from_str("Num(").concat(text.substring_char(v.start, v.end)).concat(")")
                } else {
                    String::from_str("Num")
                }
            },
            _ => String::from_str(t.name()),
        }
    }

    pub open spec fn work_left(&self) -> nat {
        measure(self.text(), self.position(), self.current())
    }

    /// Starts parsing `expr`: reads its first token. Fails with
    /// `InvalidOperator` where the text yields no token before its end.
    pub fn new(expr: &str) -> (r: Result<Parser, ParseErr>)
        ensures
            match start(expr@) {
                Ok((p, c)) => r is Ok && r->Ok_0.wf() && r->Ok_0.text() == expr@
                    && r->Ok_0.position() == p && r->Ok_0.current() == c,
                Err(k) => r is Err && r->Err_0.kind() == k.0 && r->Err_0.detail() == k.1,
            },
    {
        let mut tokenizer = Tokenizer::new(expr);
        let current_token = match tokenizer.next() {
            Some(token) => token,
            None => return Err(ParseErr::InvalidOperator(String::from_str("Invalid character"))),
        };
        if current_token == Token::EOF {
            return Err(ParseErr::InvalidOperator(String::from_str("Invalid character")));
        }
        Ok(Parser { tokenizer, current_token, source: String::from_str(expr) })
    }

    /// Generates the syntax tree of the whole expression. Tokens left over
    /// after a complete expression make it fail with `InvalidOperator`.
    pub fn parse(&mut self) -> (r: Result<Node, ParseErr>)
        requires
            old(self).wf(),
        ensures
            final(self).wf(),
            final(self).text() == old(self).text(),
            agrees(r, finish(old(self).text(), old(self).position(), old(self).current())),
    {
        let ast = self.generate_ast(OperPrec::DefaultZero);
        match ast {
            Ok(ast) => if self.current_token == Token::EOF {
                Ok(ast)
            } else {
                Err(ParseErr::InvalidOperator(
                    String::from_str("Unexpected ").concat(self.describe(&self.current_token).as_str()).concat(
                        " after the expression",
                    ),
                ))
            },
            Err(e) => Err(e),
        }
    }

    /// Parses an operand and every following operator that binds more
    /// tightly than `oper_prec`.
    fn generate_ast(&mut self, oper_prec: OperPrec) -> (r: Result<Node, ParseErr>)
        requires
            old(self).wf(),
        ensures
            final(self).wf(),
            final(self).text() == old(self).text(),
            match gen_ast(old(self).text(), old(self).position(), old(self).current(), oper_prec) {
                Ok((n, p, c)) => r == Ok::<Node, ParseErr>(n) && final(self).position() == p
                    && final(self).current() == c,
                Err(k) => r is Err && r->Err_0.kind() == k.0 && r->Err_0.detail() == k.1,
            },
            r is Ok ==> final(self).work_left() < old(self).work_left(),
        decreases old(self).work_left(), 2nat,
    {
        let ghost s = self.text();
        let ghost p0 = self.position();
        let ghost c0 = self.current();
        let mut left_expr = match self.parse_number() {
            Ok(n) => n,
            Err(e) => return Err(e),
        };
        loop
            invariant
                self.wf(),
                self.text() == s,
                s == old(self).text(),
                p0 == old(self).position(),
                c0 == old(self).current(),
                self.work_left() < measure(s, p0, c0),
                gen_ast(s, p0, c0, oper_prec) == climb(s, self.position(), self.current(), oper_prec, left_expr),
            ensures
                gen_ast(s, p0, c0, oper_prec) == Ok::<(Node, nat, Token), (ErrorKind, Seq<char>)>(
                    (left_expr, self.position(), self.current()),
                ),
            decreases self.work_left(),
        {
            if !oper_prec.is_below(&self.current_token.get_oper_prec()) {
                break;
            }
            if self.current_token == Token::EOF {
                break;
            }
            left_expr = match self.convert_token_to_node(left_expr) {
                Ok(n) => n,
                Err(e) => return Err(e),
            };
        }
        Ok(left_expr)
    }

    /// Parses an operand: a number, a negated operand, or a parenthesized
    /// expression, which two adjacent groups multiply.
    fn parse_number(&mut self) -> (r: Result<Node, ParseErr>)
        requires
            old(self).wf(),
        ensures
            final(self).wf(),
            final(self).text() == old(self).text(),
            match primary(old(self).text(), old(self).position(), old(self).current()) {
                Ok((n, p, c)) => r == Ok::<Node, ParseErr>(n) && final(self).position() == p
                    && final(self).current() == c,
                Err(k) => r is Err && r->Err_0.kind() == k.0 && r->Err_0.detail() == k.1,
            },
            r is Ok ==> final(self).work_left() < old(self).work_left(),
            !(old(self).current() is Substract || old(self).current() is Num || old(self).current() is LeftParen)
                ==> final(self).position() == old(self).position() && final(self).current()
                == old(self).current(),
        decreases old(self).work_left(), 1nat,
    {
        let token = self.current_token;
        match token {
            Token::Substract => {
                if let Err(e) = self.get_next_token() {
                    return Err(e);
                }
                match self.generate_ast(OperPrec::Negative) {
                    Ok(expr) => Ok(Node::Negative(Box::new(expr))),
                    Err(e) => Err(e),
                }
            },
            Token::Num(i) => {
                if let Err(e) = self.get_next_token() {
                    return Err(e);
                }
                Ok(Node::Number(i))
            },
            Token::LeftParen => {
                let ghost m0 = self.work_left();
                if let Err(e) = self.get_next_token() {
                    return Err(e);
                }
                let expr = match self.generate_ast(OperPrec::DefaultZero) {
                    Ok(n) => n,
                    Err(e) => return Err(e),
                };
                if let Err(e) = self.check_paren(Token::RightParen) {
                    return Err(e);
                }
                if self.current_token == Token::LeftParen {
                    let right = match self.generate_ast(OperPrec::MulDiv) {
                        Ok(n) => n,
                        Err(e) => return Err(e),
                    };
                    return Ok(Node::Multiply(Box::new(expr), Box::new(right)));
                }
                Ok(expr)
            },
            _ => Err(ParseErr::UnableToParse(String::from_str("Unable to parse"))),
        }
    }

    /// Joins `left_expr` by the current operator to the operand that follows.
    fn convert_token_to_node(&mut self, left_expr: Node) -> (r: Result<Node, ParseErr>)
        requires
            old(self).wf(),
        ensures
            final(self).wf(),
            final(self).text() == old(self).text(),
            match binary(old(self).text(), old(self).position(), old(self).current(), left_expr) {
                Ok((n, p, c)) => r == Ok::<Node, ParseErr>(n) && final(self).position() == p
                    && final(self).current() == c,
                Err(k) => r is Err && r->Err_0.kind() == k.0 && r->Err_0.detail() == k.1,
            },
            r is Ok ==> final(self).work_left() < old(self).work_left(),
            !is_binary_operator(old(self).current()) ==> final(self).position() == old(self).position()
                && final(self).current() == old(self).current(),
        decreases old(self).work_left(), 1nat,
    {
        let op = self.current_token;
        if !is_operator(&op) {
            return Err(ParseErr::InvalidOperator(
                String::from_str("Please enter valid operator ").concat(self.describe(&op).as_str()),
            ));
        }
        if let Err(e) = self.get_next_token() {
            return Err(e);
        }
        let bound = if op == Token::Caret {
            OperPrec::MulDiv
        } else {
            op.get_oper_prec()
        };
        let right_expr = match self.generate_ast(bound) {
            Ok(n) => n,
            Err(e) => return Err(e),
        };
        let l = Box::new(left_expr);
        let r = Box::new(right_expr);
        match op {
            Token::Add => Ok(Node::Add(l, r)),
            Token::Substract => Ok(Node::Subtract(l, r)),
            Token::Multiply => Ok(Node::Multiply(l, r)),
            Token::Divide => Ok(Node::Divide(l, r)),
            _ => Ok(Node::Caret(l, r)),
        }
    }

    /// Consumes the current token if it is `expected`.
    fn check_paren(&mut self, expected: Token) -> (r: Result<(), ParseErr>)
        requires
            old(self).wf(),
        ensures
            final(self).wf(),
            final(self).text() == old(self).text(),
            old(self).current() != expected ==> {
                &&& r is Err
                &&& r->Err_0.kind() == ErrorKind::InvalidOperator
                &&& r->Err_0.detail() == "Expected "@ + describe(old(self).text(), expected)
                    + ", got "@ + describe(old(self).text(), old(self).current())
                &&& final(self).position() == old(self).position()
                &&& final(self).current() == old(self).current()
            },
            old(self).current() == expected ==> match advance(old(self).text(), old(self).position(), old(self).current()) {
                Ok((p, c)) => r is Ok && final(self).position() == p && final(self).current() == c,
                Err(k) => r is Err && r->Err_0.kind() == k.0 && r->Err_0.detail() == k.1,
            },
    {
        if expected == self.current_token {
            self.get_next_token()
        } else {
            Err(ParseErr::InvalidOperator(
                String::from_str("Expected ").concat(self.describe(&expected).as_str()).concat(
                    ", got ",
                ).concat(self.describe(&self.current_token).as_str()),
            ))
        }
    }

    /// Reads the next token into `current_token`; at the end of the text
    /// that is `EOF` again.
    fn get_next_token(&mut self) -> (r: Result<(), ParseErr>)
        requires
            old(self).wf(),
        ensures
            final(self).wf(),
            final(self).text() == old(self).text(),
            match advance(old(self).text(), old(self).position(), old(self).current()) {
                Ok((p, c)) => r is Ok && final(self).position() == p && final(self).current() == c,
                Err(k) => r is Err && r->Err_0.kind() == k.0 && r->Err_0.detail() == k.1,
            },
            lex_at(old(self).text(), old(self).position()) is None ==> final(self).position()
                == old(self).position() && final(self).current() == old(self).current(),
    {
        proof {
            lemma_lex_at_progress(self.text(), self.position());
        }
        match self.tokenizer.next() {
            Some(token) => {
                self.current_token = token;
                Ok(())
            },
            None => Err(ParseErr::InvalidOperator(String::from_str("Invalid character"))),
        }
    }
}

fn is_operator(t: &Token) -> (r: bool)
    ensures
        r == is_binary_operator(*t),
{
    match t {
        Token::Add | Token::Substract | Token::Multiply | Token::Divide | Token::Caret => true,
        _ => false,
    }
}

/// Parses a whole expression: the tree, or the first failure met.
pub fn parse_expression(expr: &str) -> (r: Result<Node, ParseErr>)
    ensures
        agrees(r, parse_text(expr@)),
{
    match Parser::new(expr) {
        Ok(mut parser) => parser.parse(),
        Err(e) => Err(e),
    }
}

} // verus!
