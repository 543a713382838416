//! Properties of the parser that relate its outcomes over whole classes of
//! input.
use vstd::prelude::*;
use crate::ast::Node;
use crate::parser::{
    advance, agrees, measure, binary, climb, combine, gen_ast, is_binary_operator, parse_text,
    primary, start, ErrorKind,
};
use crate::token::{Numeral, OperPrec, Token};
use crate::tokenizer::{
    digits_end, is_digit, is_space, lemma_digits_end, lemma_lex_at_progress, lemma_skip_space,
    lex_at, numeral_end, skip_space, symbol_token,
};

verus! {

/// A character of an expression written with numerals and `+ - * /` only.
pub open spec fn arith_char(c: char) -> bool {
    is_digit(c) || c == '.' || is_space(c) || c == '+' || c == '-' || c == '*' || c == '/'
}

pub open spec fn arith_text(s: Seq<char>) -> bool {
    forall|i: int| 0 <= i < s.len() ==> arith_char(#[trigger] s[i])
}

/// How loosely the root of a tree binds: 1 for `+ -`, 2 for `* /`, 3 for `^`,
/// 5 for an operand (a number or a negation).
pub open spec fn top_rank(n: Node) -> nat {
    match n {
        Node::Add(_, _) | Node::Subtract(_, _) => 1,
        Node::Multiply(_, _) | Node::Divide(_, _) => 2,
        Node::Caret(_, _) => 3,
        _ => 5,
    }
}

/// A tree built from numbers, negations and `+ - * /` in the conventional
/// way: `* /` group before `+ -`, and operators of one level group from the
/// left. That is, no `+ -` node is an operand of a `* /` node, and no right
/// operand shares its parent's level.
pub open spec fn standard(n: Node) -> bool
    decreases n,
{
    match n {
        Node::Number(_) => true,
        Node::Negative(a) => standard(*a) && top_rank(*a) == 5,
        Node::Add(a, b) | Node::Subtract(a, b) => standard(*a) && standard(*b) && top_rank(*b) > 1,
        Node::Multiply(a, b) | Node::Divide(a, b) => standard(*a) && standard(*b) && top_rank(*a) >= 2
            && top_rank(*b) > 2,
        Node::Caret(_, _) => false,
    }
}

/// The tokens of `s` from position `pos` to the end of the text, `EOF` left
/// out; they stop early where no token can start.
pub open spec fn tokens_from(s: Seq<char>, pos: nat) -> Seq<Token>
    decreases s.len() - pos,
{
    match lex_at(s, pos) {
        Some((t, p)) => if t != Token::EOF && pos < p && p <= s.len() {
            seq![t] + tokens_from(s, p)
        } else {
            seq![]
        },
        None => seq![],
    }
}

/// The tokens still to be read from the state (`pos`, `cur`), the current
/// one first.
pub open spec fn stream(s: Seq<char>, pos: nat, cur: Token) -> Seq<Token> {
    if cur == Token::EOF {
        seq![]
    } else {
        seq![cur] + tokens_from(s, pos)
    }
}

/// The tokens of a tree read from left to right.
pub open spec fn leaves(n: Node) -> Seq<Token>
    decreases n,
{
    match n {
        Node::Number(v) => seq![Token::Num(v)],
        Node::Negative(a) => seq![Token::Substract] + leaves(*a),
        Node::Add(a, b) => leaves(*a) + seq![Token::Add] + leaves(*b),
        Node::Subtract(a, b) => leaves(*a) + seq![Token::Substract] + leaves(*b),
        Node::Multiply(a, b) => leaves(*a) + seq![Token::Multiply] + leaves(*b),
        Node::Divide(a, b) => leaves(*a) + seq![Token::Divide] + leaves(*b),
        Node::Caret(a, b) => leaves(*a) + seq![Token::Caret] + leaves(*b),
    }
}

pub open spec fn arith_token(t: Token) -> bool {
    t != Token::LeftParen && t != Token::RightParen && t != Token::Caret
}

proof fn lemma_advance_arith(s: Seq<char>, pos: nat, cur: Token)
    requires
        arith_text(s),
        pos <= s.len(),
    ensures
        advance(s, pos, cur) matches Ok((p, c)) ==> p <= s.len() && arith_token(c) && (cur
            != Token::EOF ==> stream(s, pos, cur) == seq![cur] + stream(s, p, c)),
{
    lemma_lex_at_progress(s, pos);
    lemma_skip_space(s, pos);
    let p = skip_space(s, pos);
    if p < s.len() {
        assert(arith_char(s[p as int]));
    }
}

proof fn lemma_gen_ast_standard(s: Seq<char>, pos: nat, cur: Token, min: OperPrec)
    requires
        arith_text(s),
        pos <= s.len(),
        arith_token(cur),
        min.rank() <= 2 || min == OperPrec::Negative,
    ensures
        gen_ast(s, pos, cur, min) matches Ok((n, p, c)) ==> {
            &&& standard(n)
            &&& top_rank(n) > min.rank()
            &&& p <= s.len()
            &&& arith_token(c)
            &&& (c == Token::EOF || c.prec().rank() <= min.rank())
            &&& stream(s, pos, cur) == leaves(n) + stream(s, p, c)
        },
    decreases measure(s, pos, cur), 2nat,
{
    lemma_primary_standard(s, pos, cur);
    if let Ok((left, p, c)) = primary(s, pos, cur) {
        if measure(s, p, c) < measure(s, pos, cur) {
            lemma_climb_standard(s, p, c, min, left);
        }
    }
}

proof fn lemma_primary_standard(s: Seq<char>, pos: nat, cur: Token)
    requires
        arith_text(s),
        pos <= s.len(),
        arith_token(cur),
    ensures
        primary(s, pos, cur) matches Ok((n, p, c)) ==> {
            &&& standard(n)
            &&& top_rank(n) == 5
            &&& p <= s.len()
            &&& arith_token(c)
            &&& stream(s, pos, cur) == leaves(n) + stream(s, p, c)
        },
    decreases measure(s, pos, cur), 1nat,
{
    lemma_advance_arith(s, pos, cur);
    if cur == Token::Substract {
        if let Ok((p, c)) = advance(s, pos, cur) {
            lemma_gen_ast_standard(s, p, c, OperPrec::Negative);
            if let Ok((e, p2, c2)) = gen_ast(s, p, c, OperPrec::Negative) {
                assert(seq![cur] + (leaves(e) + stream(s, p2, c2)) =~= (seq![cur] + leaves(e))
                    + stream(s, p2, c2));
            }
        }
    }
}

proof fn lemma_climb_standard(s: Seq<char>, pos: nat, cur: Token, min: OperPrec, left: Node)
    requires
        arith_text(s),
        pos <= s.len(),
        arith_token(cur),
        min.rank() <= 2 || min == OperPrec::Negative,
        standard(left),
        top_rank(left) > min.rank(),
        cur == Token::EOF || cur.prec().rank() <= top_rank(left),
    ensures
        climb(s, pos, cur, min, left) matches Ok((n, p, c)) ==> {
            &&& standard(n)
            &&& top_rank(n) > min.rank()
            &&& p <= s.len()
            &&& arith_token(c)
            &&& (c == Token::EOF || c.prec().rank() <= min.rank())
            &&& leaves(left) + stream(s, pos, cur) == leaves(n) + stream(s, p, c)
        },
    decreases measure(s, pos, cur), 3nat,
{
    if min.rank() < cur.prec().rank() && cur != Token::EOF {
        lemma_binary_standard(s, pos, cur, left);
        if let Ok((n, p, c)) = binary(s, pos, cur, left) {
            if measure(s, p, c) < measure(s, pos, cur) {
                lemma_climb_standard(s, p, c, min, n);
            }
        }
    }
}

proof fn lemma_binary_standard(s: Seq<char>, pos: nat, cur: Token, left: Node)
    requires
        arith_text(s),
        pos <= s.len(),
        arith_token(cur),
        standard(left),
        cur.prec().rank() <= top_rank(left),
    ensures
        binary(s, pos, cur, left) matches Ok((n, p, c)) ==> {
            &&& standard(n)
            &&& top_rank(n) == cur.prec().rank()
            &&& p <= s.len()
            &&& arith_token(c)
            &&& (c == Token::EOF || c.prec().rank() <= cur.prec().rank())
            &&& leaves(left) + stream(s, pos, cur) == leaves(n) + stream(s, p, c)
        },
    decreases measure(s, pos, cur), 1nat,
{
    if is_binary_operator(cur) {
        lemma_advance_arith(s, pos, cur);
        if let Ok((p, c)) = advance(s, pos, cur) {
            lemma_gen_ast_standard(s, p, c, crate::parser::right_bound(cur));
            if let Ok((right, p2, c2)) = gen_ast(s, p, c, crate::parser::right_bound(cur)) {
                assert(leaves(combine(cur, left, right)) == leaves(left) + seq![cur] + leaves(right));
                assert(leaves(left) + (seq![cur] + (leaves(right) + stream(s, p2, c2))) =~= (leaves(
                    left,
                ) + seq![cur] + leaves(right)) + stream(s, p2, c2));
            }
        }
    }
}

/// A text written with numerals, `+ - * /` and whitespace, once parsed,
/// gives the tree of conventional arithmetic: its tokens read from left to
/// right are those of the text, `* /` bind more tightly than `+ -`, and
/// operators of one level group from the left.
pub proof fn arithmetic_parse_is_standard(s: Seq<char>)
    requires
        arith_text(s),
        parse_text(s) is Ok,
    ensures
        leaves(parse_text(s)->Ok_0) == tokens_from(s, 0),
        standard(parse_text(s)->Ok_0),
{
    lemma_lex_at_progress(s, 0);
    lemma_skip_space(s, 0);
    let p = skip_space(s, 0);
    if p < s.len() {
        assert(arith_char(s[p as int]));
    }
    let (p1, c1) = start(s)->Ok_0;
    lemma_gen_ast_standard(s, p1, c1, OperPrec::DefaultZero);
}

proof fn lemma_gen_ast_progress(s: Seq<char>, pos: nat, cur: Token, min: OperPrec)
    ensures
        gen_ast(s, pos, cur, min) matches Ok((n, p, c)) ==> measure(s, p, c) < measure(s, pos, cur),
    decreases measure(s, pos, cur), 2nat,
{
    lemma_primary_progress(s, pos, cur);
    if let Ok((left, p, c)) = primary(s, pos, cur) {
        if measure(s, p, c) < measure(s, pos, cur) {
            lemma_climb_progress(s, p, c, min, left);
        }
    }
}

proof fn lemma_primary_progress(s: Seq<char>, pos: nat, cur: Token)
    ensures
        primary(s, pos, cur) matches Ok((n, p, c)) ==> measure(s, p, c) < measure(s, pos, cur),
    decreases measure(s, pos, cur), 1nat,
{
    if let Ok((p, c)) = advance(s, pos, cur) {
        if cur == Token::Substract {
            lemma_gen_ast_progress(s, p, c, OperPrec::Negative);
        } else if cur == Token::LeftParen {
            lemma_gen_ast_progress(s, p, c, OperPrec::DefaultZero);
            if let Ok((e, p2, c2)) = gen_ast(s, p, c, OperPrec::DefaultZero) {
                if let Ok((p3, c3)) = advance(s, p2, c2) {
                    if c3 == Token::LeftParen && measure(s, p3, c3) < measure(s, pos, cur) {
                        lemma_gen_ast_progress(s, p3, c3, OperPrec::MulDiv);
                    }
                }
            }
        }
    }
}

proof fn lemma_climb_progress(s: Seq<char>, pos: nat, cur: Token, min: OperPrec, left: Node)
    ensures
        climb(s, pos, cur, min, left) matches Ok((n, p, c)) ==> measure(s, p, c) <= measure(s, pos, cur),
    decreases measure(s, pos, cur), 3nat,
{
    if min.rank() < cur.prec().rank() && cur != Token::EOF {
        if let Ok((n, p, c)) = binary(s, pos, cur, left) {
            if measure(s, p, c) < measure(s, pos, cur) {
                lemma_climb_progress(s, p, c, min, n);
            }
        }
    }
}

/// Lexing from `pos` reaches the end of the text: no character on the way
/// fails to start a token.
pub open spec fn tokens_complete(s: Seq<char>, pos: nat) -> bool
    decreases s.len() - pos,
{
    match lex_at(s, pos) {
        Some((t, p)) => if t == Token::EOF {
            true
        } else if pos < p && p <= s.len() {
            tokens_complete(s, p)
        } else {
            false
        },
        None => false,
    }
}

pub open spec fn complete(s: Seq<char>, pos: nat, cur: Token) -> bool {
    cur == Token::EOF || tokens_complete(s, pos)
}

pub open spec fn is_arith_operator(t: Token) -> bool {
    t == Token::Add || t == Token::Substract || t == Token::Multiply || t == Token::Divide
}

/// Numerals separated by binary `+ - * /`: `n op n op ... n`.
pub open spec fn operand_chain(ts: Seq<Token>) -> bool {
    &&& ts.len() % 2 == 1
    &&& forall|i: int| 0 <= i < ts.len() ==> if i % 2 == 0 {
        #[trigger] ts[i] is Num
    } else {
        is_arith_operator(ts[i])
    }
}

/// What follows an operand in such a chain: `op n op n ...`, maybe nothing.
pub open spec fn operator_chain(ts: Seq<Token>) -> bool {
    &&& ts.len() % 2 == 0
    &&& forall|i: int| 0 <= i < ts.len() ==> if i % 2 == 0 {
        is_arith_operator(#[trigger] ts[i])
    } else {
        ts[i] is Num
    }
}

proof fn lemma_chain_step(t: Token, rest: Seq<Token>)
    ensures
        operand_chain(seq![t] + rest) ==> operator_chain(rest),
        operator_chain(seq![t] + rest) ==> operand_chain(rest),
{
    let full = seq![t] + rest;
    assert forall|i: int| 0 <= i < rest.len() implies #[trigger] rest[i] == full[i + 1] by {}
}

proof fn lemma_advance_complete(s: Seq<char>, pos: nat, cur: Token)
    requires
        pos <= s.len(),
        cur != Token::EOF,
        complete(s, pos, cur),
    ensures
        advance(s, pos, cur) matches Ok((p, c)) && p <= s.len() && complete(s, p, c) && stream(
            s,
            pos,
            cur,
        ) == seq![cur] + stream(s, p, c),
{
    lemma_lex_at_progress(s, pos);
}

proof fn lemma_gen_ast_ok(s: Seq<char>, pos: nat, cur: Token, min: OperPrec)
    requires
        pos <= s.len(),
        complete(s, pos, cur),
        operand_chain(stream(s, pos, cur)),
    ensures
        gen_ast(s, pos, cur, min) matches Ok((n, p, c)) && p <= s.len() && complete(s, p, c)
            && operator_chain(stream(s, p, c)) && (c == Token::EOF || c.prec().rank()
            <= min.rank()),
    decreases measure(s, pos, cur), 2nat,
{
    lemma_primary_ok(s, pos, cur);
    lemma_primary_progress(s, pos, cur);
    let (left, p, c) = primary(s, pos, cur)->Ok_0;
    lemma_climb_ok(s, p, c, min, left);
}

proof fn lemma_primary_ok(s: Seq<char>, pos: nat, cur: Token)
    requires
        pos <= s.len(),
        complete(s, pos, cur),
        operand_chain(stream(s, pos, cur)),
    ensures
        primary(s, pos, cur) matches Ok((n, p, c)) && p <= s.len() && complete(s, p, c)
            && operator_chain(stream(s, p, c)),
    decreases measure(s, pos, cur), 1nat,
{
    assert(stream(s, pos, cur)[0] is Num);
    lemma_advance_complete(s, pos, cur);
    let (p, c) = advance(s, pos, cur)->Ok_0;
    lemma_chain_step(cur, stream(s, p, c));
}

proof fn lemma_climb_ok(s: Seq<char>, pos: nat, cur: Token, min: OperPrec, left: Node)
    requires
        pos <= s.len(),
        complete(s, pos, cur),
        operator_chain(stream(s, pos, cur)),
    ensures
        climb(s, pos, cur, min, left) matches Ok((n, p, c)) && p <= s.len() && complete(s, p, c)
            && operator_chain(stream(s, p, c)) && (c == Token::EOF || c.prec().rank()
            <= min.rank()),
    decreases measure(s, pos, cur), 3nat,
{
    if min.rank() < cur.prec().rank() && cur != Token::EOF {
        lemma_binary_ok(s, pos, cur, left);
        let (n, p, c) = binary(s, pos, cur, left)->Ok_0;
        lemma_climb_ok(s, p, c, min, n);
    }
}

proof fn lemma_binary_ok(s: Seq<char>, pos: nat, cur: Token, left: Node)
    requires
        pos <= s.len(),
        cur != Token::EOF,
        complete(s, pos, cur),
        operator_chain(stream(s, pos, cur)),
    ensures
        binary(s, pos, cur, left) matches Ok((n, p, c)) && p <= s.len() && complete(s, p, c)
            && operator_chain(stream(s, p, c)) && measure(s, p, c) < measure(s, pos, cur),
    decreases measure(s, pos, cur), 1nat,
{
    assert(is_arith_operator(stream(s, pos, cur)[0]));
    lemma_advance_complete(s, pos, cur);
    let (p, c) = advance(s, pos, cur)->Ok_0;
    lemma_chain_step(cur, stream(s, p, c));
    lemma_gen_ast_ok(s, p, c, crate::parser::right_bound(cur));
    lemma_gen_ast_progress(s, p, c, crate::parser::right_bound(cur));
}

/// A text that lexes to its end, and whose tokens are numerals separated by
/// binary `+ - * /`, always parses: no such text is refused.
pub proof fn arithmetic_text_parses(s: Seq<char>)
    requires
        tokens_complete(s, 0),
        operand_chain(tokens_from(s, 0)),
    ensures
        parse_text(s) is Ok,
{
    lemma_lex_at_progress(s, 0);
    let (p1, c1) = start(s)->Ok_0;
    assert(stream(s, p1, c1) == tokens_from(s, 0));
    lemma_gen_ast_ok(s, p1, c1, OperPrec::DefaultZero);
    let (n, p, c) = gen_ast(s, p1, c1, OperPrec::DefaultZero)->Ok_0;
    if c != Token::EOF {
        assert(stream(s, p, c)[0] == c);
    }
}

proof fn lemma_climb_exit(s: Seq<char>, pos: nat, cur: Token, min: OperPrec, left: Node)
    ensures
        climb(s, pos, cur, min, left) matches Ok((n, p, c)) ==> c == Token::EOF || c.prec().rank()
            <= min.rank(),
    decreases measure(s, pos, cur), 3nat,
{
    if min.rank() < cur.prec().rank() && cur != Token::EOF {
        if let Ok((n, p, c)) = binary(s, pos, cur, left) {
            if measure(s, p, c) < measure(s, pos, cur) {
                lemma_climb_exit(s, p, c, min, n);
            }
        }
    }
}

/// An expression parsed with bound `min` stops only at the end of the text
/// or at a token that does not bind more tightly than `min`.
pub proof fn expression_stops_at_looser_token(s: Seq<char>, pos: nat, cur: Token, min: OperPrec)
    ensures
        gen_ast(s, pos, cur, min) matches Ok((n, p, c)) ==> c == Token::EOF || c.prec().rank()
            <= min.rank(),
{
    if let Ok((left, p, c)) = primary(s, pos, cur) {
        lemma_climb_exit(s, p, c, min, left);
    }
}

/// `^` groups from the right: the operand on the right of a `^` takes in
/// every `^` that follows it, so the `^` node built is never the left
/// operand of another `^`. So `2^3^2` is `2^(3^2)`.
pub proof fn power_groups_from_the_right(s: Seq<char>, pos: nat, left: Node)
    ensures
        binary(s, pos, Token::Caret, left) matches Ok((n, p, c)) ==> n is Caret && c
            != Token::Caret,
{
    if let Ok((p, c)) = advance(s, pos, Token::Caret) {
        expression_stops_at_looser_token(s, p, c, OperPrec::MulDiv);
    }
}

/// Parentheses around an expression add no node: where the group is not
/// followed by another `(`, the operand is the inner expression's tree.
pub proof fn parentheses_add_no_node(s: Seq<char>, pos: nat)
    ensures
        advance(s, pos, Token::LeftParen) matches Ok((p, c)) ==> (gen_ast(s, p, c, OperPrec::DefaultZero)
            matches Ok((e, p2, c2)) ==> (c2 == Token::RightParen ==> (advance(s, p2, c2) matches Ok((p3, c3))
            ==> (c3 != Token::LeftParen ==> primary(s, pos, Token::LeftParen) == Ok::<(Node, nat, Token), (ErrorKind, Seq<char>)>((e, p3, c3)))))),
{
}

/// The `stalled` failure of the parsing rules never comes: consuming a
/// token that is not `EOF` always lowers the measure where a token follows,
/// and an operand or an expression that is parsed always consumes tokens.
pub proof fn parsing_never_stalls(s: Seq<char>, pos: nat, cur: Token, min: OperPrec)
    ensures
        pos <= s.len() && cur != Token::EOF && lex_at(s, pos) is Some ==> advance(s, pos, cur) is Ok,
        primary(s, pos, cur) matches Ok((n, p, c)) ==> measure(s, p, c) < measure(s, pos, cur),
        gen_ast(s, pos, cur, min) matches Ok((n, p, c)) ==> measure(s, p, c) < measure(s, pos, cur),
{
    if pos <= s.len() {
        lemma_lex_at_progress(s, pos);
    }
    lemma_primary_progress(s, pos, cur);
    lemma_gen_ast_progress(s, pos, cur, min);
}

/// A unary minus takes a single operand: parsing at the `Negative` level
/// yields exactly the operand that starts there, and no binary operator,
/// `^` included, joins anything to it. So `-2^2` is `(-2)^2`.
pub proof fn negation_binds_tightest(s: Seq<char>, pos: nat, cur: Token)
    ensures
        gen_ast(s, pos, cur, OperPrec::Negative) == primary(s, pos, cur),
{
    lemma_primary_progress(s, pos, cur);
}

/// Parsing one text twice gives the same tree, or fails both times with the
/// same kind of error.
pub proof fn parse_is_deterministic(
    s: Seq<char>,
    r1: Result<Node, crate::parser::ParseErr>,
    r2: Result<Node, crate::parser::ParseErr>,
)
    requires
        agrees(r1, parse_text(s)),
        agrees(r2, parse_text(s)),
    ensures
        r1 is Ok <==> r2 is Ok,
        r1 is Ok ==> r1 == r2,
        r1 is Err ==> r1->Err_0.kind() == r2->Err_0.kind(),
{
}

/// A complete expression followed by anything but the end of the text fails
/// with `InvalidOperator`: nothing is ignored.
pub proof fn trailing_tokens_fail(s: Seq<char>)
    requires
        start(s) matches Ok((p, c)) && gen_ast(s, p, c, OperPrec::DefaultZero) matches Ok((
            n,
            p2,
            c2,
        )) && c2 != Token::EOF,
    ensures
        parse_text(s) is Err,
        parse_text(s)->Err_0.0 == ErrorKind::InvalidOperator,
        parse_text(s)->Err_0.1 == "Unexpected "@ + crate::parser::describe(s, gen_ast(s, start(s)->Ok_0.0, start(s)->Ok_0.1,
            OperPrec::DefaultZero)->Ok_0.2) + " after the expression"@,
{
}

/// A text with no token before its end (empty, only whitespace, or starting
/// with a character that cannot start a token) fails when the parser is
/// built, with `InvalidOperator` and the detail "Invalid character".
pub proof fn no_first_token_fails(s: Seq<char>)
    requires
        skip_space(s, 0) >= s.len() || (symbol_token(s[skip_space(s, 0) as int]) is None
            && !is_digit(s[skip_space(s, 0) as int])),
    ensures
        start(s) is Err,
        parse_text(s) == Err::<Node, (ErrorKind, Seq<char>)>(
            (ErrorKind::InvalidOperator, "Invalid character"@),
        ),
{
}

/// The text `s` inside a pair of parentheses.
pub open spec fn wrap(s: Seq<char>) -> Seq<char> {
    seq!['('] + s + seq![')']
}

/// A token of `s` as it stands in `wrap(s)`: a numeral one place further on.
pub open spec fn shift_token(t: Token) -> Token {
    match t {
        Token::Num(v) => Token::Num(Numeral { start: (v.start + 1) as usize, end: (v.end + 1) as usize }),
        _ => t,
    }
}

/// A tree of `s` as it stands in `wrap(s)`: each numeral one place further on.
pub open spec fn shift_node(n: Node) -> Node
    decreases n,
{
    match n {
        Node::Number(v) => Node::Number(Numeral { start: (v.start + 1) as usize, end: (v.end + 1) as usize }),
        Node::Negative(a) => Node::Negative(Box::new(shift_node(*a))),
        Node::Add(a, b) => Node::Add(Box::new(shift_node(*a)), Box::new(shift_node(*b))),
        Node::Subtract(a, b) => Node::Subtract(Box::new(shift_node(*a)), Box::new(shift_node(*b))),
        Node::Multiply(a, b) => Node::Multiply(Box::new(shift_node(*a)), Box::new(shift_node(*b))),
        Node::Divide(a, b) => Node::Divide(Box::new(shift_node(*a)), Box::new(shift_node(*b))),
        Node::Caret(a, b) => Node::Caret(Box::new(shift_node(*a)), Box::new(shift_node(*b))),
    }
}

proof fn lemma_wrap_index(s: Seq<char>)
    ensures
        wrap(s).len() == s.len() + 2,
        wrap(s)[0] == '(',
        wrap(s)[s.len() as int + 1] == ')',
        forall|i: int| 0 <= i < s.len() ==> #[trigger] wrap(s)[i + 1] == s[i],
{
}

proof fn lemma_wrap_skip_space(s: Seq<char>, pos: nat)
    requires
        pos <= s.len(),
    ensures
        skip_space(wrap(s), pos + 1) == skip_space(s, pos) + 1,
    decreases s.len() - pos,
{
    lemma_wrap_index(s);
    if pos < s.len() && is_space(s[pos as int]) {
        lemma_wrap_skip_space(s, pos + 1);
    }
}

proof fn lemma_wrap_digits_end(s: Seq<char>, pos: nat)
    requires
        pos <= s.len(),
    ensures
        digits_end(wrap(s), pos + 1) == digits_end(s, pos) + 1,
    decreases s.len() - pos,
{
    lemma_wrap_index(s);
    if pos < s.len() && is_digit(s[pos as int]) {
        lemma_wrap_digits_end(s, pos + 1);
    }
}

/// Lexing inside the parentheses: what `s` gives at `pos`, `wrap(s)` gives
/// one place further on, but for the end of `s`, where `)` stands.
proof fn lemma_wrap_lex(s: Seq<char>, pos: nat)
    requires
        pos <= s.len(),
        s.len() + 2 <= usize::MAX,
    ensures
        lex_at(wrap(s), pos + 1) == match lex_at(s, pos) {
            Some((t, p)) => if t == Token::EOF {
                Some((Token::RightParen, s.len() + 2))
            } else {
                Some((shift_token(t), p + 1))
            },
            None => None::<(Token, nat)>,
        },
{
    lemma_wrap_index(s);
    lemma_wrap_skip_space(s, pos);
    lemma_skip_space(s, pos);
    let p = skip_space(s, pos);
    if p < s.len() && is_digit(s[p as int]) {
        lemma_wrap_digits_end(s, p);
        lemma_digits_end(s, p);
        let e = digits_end(s, p);
        if e < s.len() && s[e as int] == '.' {
            lemma_wrap_digits_end(s, e + 1);
            lemma_digits_end(s, e + 1);
        }
        assert(numeral_end(wrap(s), p + 1) == numeral_end(s, p) + 1);
    }
}

/// A parser state of `s` that the tokenizer can reach: `EOF` only at the end.
pub open spec fn valid_state(s: Seq<char>, pos: nat, cur: Token) -> bool {
    pos <= s.len() && (cur == Token::EOF ==> pos == s.len())
}

/// Where a state of `s` stands in `wrap(s)`: one place further on, the end
/// of `s` being the closing parenthesis.
pub open spec fn wrapped_pos(s: Seq<char>, pos: nat, cur: Token) -> nat {
    if cur == Token::EOF {
        s.len() + 2
    } else {
        pos + 1
    }
}

pub open spec fn wrapped_token(cur: Token) -> Token {
    if cur == Token::EOF {
        Token::RightParen
    } else {
        shift_token(cur)
    }
}

proof fn lemma_wrap_measure(s: Seq<char>, p: nat, c: Token, pos: nat, cur: Token)
    requires
        valid_state(s, p, c),
        valid_state(s, pos, cur),
        measure(s, p, c) < measure(s, pos, cur),
    ensures
        measure(wrap(s), wrapped_pos(s, p, c), wrapped_token(c)) < measure(
            wrap(s),
            wrapped_pos(s, pos, cur),
            wrapped_token(cur),
        ),
{
    lemma_wrap_index(s);
}

proof fn lemma_wrap_advance(s: Seq<char>, pos: nat, cur: Token)
    requires
        valid_state(s, pos, cur),
        cur != Token::EOF,
        s.len() + 2 <= usize::MAX,
    ensures
        advance(s, pos, cur) matches Ok((p, c)) ==> valid_state(s, p, c) && advance(
            wrap(s),
            wrapped_pos(s, pos, cur),
            wrapped_token(cur),
        ) == Ok::<(nat, Token), (ErrorKind, Seq<char>)>((wrapped_pos(s, p, c), wrapped_token(c))),
{
    lemma_wrap_index(s);
    lemma_wrap_lex(s, pos);
    lemma_lex_at_progress(s, pos);
}

proof fn lemma_wrap_gen_ast(s: Seq<char>, pos: nat, cur: Token, min: OperPrec)
    requires
        valid_state(s, pos, cur),
        s.len() + 2 <= usize::MAX,
    ensures
        gen_ast(s, pos, cur, min) matches Ok((n, p, c)) ==> valid_state(s, p, c) && gen_ast(
            wrap(s),
            wrapped_pos(s, pos, cur),
            wrapped_token(cur),
            min,
        ) == Ok::<(Node, nat, Token), (ErrorKind, Seq<char>)>(
            (shift_node(n), wrapped_pos(s, p, c), wrapped_token(c)),
        ),
    decreases measure(s, pos, cur), 2nat,
{
    lemma_wrap_primary(s, pos, cur);
    if let Ok((left, p, c)) = primary(s, pos, cur) {
        if measure(s, p, c) < measure(s, pos, cur) {
            lemma_wrap_measure(s, p, c, pos, cur);
            lemma_wrap_climb(s, p, c, min, left);
        }
    }
}

proof fn lemma_wrap_primary(s: Seq<char>, pos: nat, cur: Token)
    requires
        valid_state(s, pos, cur),
        s.len() + 2 <= usize::MAX,
    ensures
        primary(s, pos, cur) matches Ok((n, p, c)) ==> valid_state(s, p, c) && primary(
            wrap(s),
            wrapped_pos(s, pos, cur),
            wrapped_token(cur),
        ) == Ok::<(Node, nat, Token), (ErrorKind, Seq<char>)>(
            (shift_node(n), wrapped_pos(s, p, c), wrapped_token(c)),
        ),
    decreases measure(s, pos, cur), 1nat,
{
    if cur is Substract || cur is Num || cur is LeftParen {
        lemma_wrap_advance(s, pos, cur);
        if let Ok((p, c)) = advance(s, pos, cur) {
            if cur == Token::Substract {
                lemma_wrap_gen_ast(s, p, c, OperPrec::Negative);
            } else if cur == Token::LeftParen {
                lemma_wrap_gen_ast(s, p, c, OperPrec::DefaultZero);
                if let Ok((e, p2, c2)) = gen_ast(s, p, c, OperPrec::DefaultZero) {
                    if c2 == Token::RightParen {
                        lemma_wrap_advance(s, p2, c2);
                        if let Ok((p3, c3)) = advance(s, p2, c2) {
                            if c3 == Token::LeftParen && measure(s, p3, c3) < measure(s, pos, cur) {
                                lemma_wrap_measure(s, p3, c3, pos, cur);
                                lemma_wrap_gen_ast(s, p3, c3, OperPrec::MulDiv);
                            }
                        }
                    }
                }
            }
        }
    }
}

proof fn lemma_wrap_climb(s: Seq<char>, pos: nat, cur: Token, min: OperPrec, left: Node)
    requires
        valid_state(s, pos, cur),
        s.len() + 2 <= usize::MAX,
    ensures
        climb(s, pos, cur, min, left) matches Ok((n, p, c)) ==> valid_state(s, p, c) && climb(
            wrap(s),
            wrapped_pos(s, pos, cur),
            wrapped_token(cur),
            min,
            shift_node(left),
        ) == Ok::<(Node, nat, Token), (ErrorKind, Seq<char>)>(
            (shift_node(n), wrapped_pos(s, p, c), wrapped_token(c)),
        ),
    decreases measure(s, pos, cur), 3nat,
{
    if min.rank() < cur.prec().rank() && cur != Token::EOF {
        lemma_wrap_binary(s, pos, cur, left);
        if let Ok((n, p, c)) = binary(s, pos, cur, left) {
            if measure(s, p, c) < measure(s, pos, cur) {
                lemma_wrap_measure(s, p, c, pos, cur);
                lemma_wrap_climb(s, p, c, min, n);
            }
        }
    }
}

proof fn lemma_wrap_binary(s: Seq<char>, pos: nat, cur: Token, left: Node)
    requires
        valid_state(s, pos, cur),
        cur != Token::EOF,
        s.len() + 2 <= usize::MAX,
    ensures
        binary(s, pos, cur, left) matches Ok((n, p, c)) ==> valid_state(s, p, c) && binary(
            wrap(s),
            wrapped_pos(s, pos, cur),
            wrapped_token(cur),
            shift_node(left),
        ) == Ok::<(Node, nat, Token), (ErrorKind, Seq<char>)>(
            (shift_node(n), wrapped_pos(s, p, c), wrapped_token(c)),
        ),
    decreases measure(s, pos, cur), 1nat,
{
    if is_binary_operator(cur) {
        lemma_wrap_advance(s, pos, cur);
        if let Ok((p, c)) = advance(s, pos, cur) {
            lemma_wrap_gen_ast(s, p, c, crate::parser::right_bound(cur));
        }
    }
}

/// Parentheses around a whole expression change nothing but positions: the
/// text `(s)` parses to the tree of `s`, each numeral one place further on.
pub proof fn parenthesized_text_parses_the_same(s: Seq<char>)
    requires
        s.len() + 2 <= usize::MAX,
        parse_text(s) is Ok,
    ensures
        parse_text(wrap(s)) == Ok::<Node, (ErrorKind, Seq<char>)>(shift_node(parse_text(s)->Ok_0)),
{
    let w = wrap(s);
    lemma_wrap_index(s);
    lemma_lex_at_progress(s, 0);
    lemma_wrap_lex(s, 0);
    assert(skip_space(w, 0) == 0);
    assert(lex_at(w, 0) == Some((Token::LeftParen, 1nat)));
    let (p1, c1) = start(s)->Ok_0;
    lemma_wrap_gen_ast(s, p1, c1, OperPrec::DefaultZero);
    let (n, p, c) = gen_ast(s, p1, c1, OperPrec::DefaultZero)->Ok_0;
    assert(advance(w, 1, Token::LeftParen) == Ok::<(nat, Token), (ErrorKind, Seq<char>)>((p1 + 1, shift_token(c1))));
    assert(skip_space(w, s.len() + 2) == s.len() + 2);
    assert(advance(w, s.len() + 2, Token::RightParen) == Ok::<(nat, Token), (ErrorKind, Seq<char>)>((s.len() + 2, Token::EOF)));
    assert(primary(w, 1, Token::LeftParen) == Ok::<(Node, nat, Token), (ErrorKind, Seq<char>)>((shift_node(n), s.len() + 2, Token::EOF)));
}

} // verus!
