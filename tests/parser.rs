use parsemath::ast::Node;
use parsemath::parser::{parse_expression, ParseErr, Parser};
use parsemath::token::{Numeral, OperPrec, Token};
use parsemath::tokenizer::Tokenizer;

fn numeral_text(text: &str, v: &Numeral) -> String {
    text.chars().skip(v.start).take(v.end - v.start).collect()
}

fn eval(n: &Node, text: &str) -> f64 {
    match n {
        Node::Number(v) => numeral_text(text, v).parse::<f64>().unwrap(),
        Node::Negative(a) => -eval(a, text),
        Node::Add(a, b) => eval(a, text) + eval(b, text),
        Node::Subtract(a, b) => eval(a, text) - eval(b, text),
        Node::Multiply(a, b) => eval(a, text) * eval(b, text),
        Node::Divide(a, b) => eval(a, text) / eval(b, text),
        Node::Caret(a, b) => eval(a, text).powf(eval(b, text)),
    }
}

/// The tree written out with every operation in parentheses.
fn show(n: &Node, text: &str) -> String {
    match n {
        Node::Number(v) => numeral_text(text, v),
        Node::Negative(a) => format!("(-{})", show(a, text)),
        Node::Add(a, b) => format!("({}+{})", show(a, text), show(b, text)),
        Node::Subtract(a, b) => format!("({}-{})", show(a, text), show(b, text)),
        Node::Multiply(a, b) => format!("({}*{})", show(a, text), show(b, text)),
        Node::Divide(a, b) => format!("({}/{})", show(a, text), show(b, text)),
        Node::Caret(a, b) => format!("({}^{})", show(a, text), show(b, text)),
    }
}

fn eval_str(s: &str) -> f64 {
    eval(&parse_expression(s).expect("parses"), s)
}

fn shape(s: &str) -> String {
    show(&parse_expression(s).expect("parses"), s)
}

fn is_invalid_operator(r: &Result<Node, ParseErr>) -> bool {
    matches!(r, Err(ParseErr::InvalidOperator(_)))
}

#[test]
fn multiplication_before_addition() {
    assert_eq!(eval_str("2+3*4"), 14.0);
    assert_eq!(eval_str("2*3+4"), 10.0);
    assert_eq!(eval_str("1 + 2 * 3 - 8 / 4"), 5.0);
}

#[test]
fn same_level_groups_from_the_left() {
    assert_eq!(eval_str("10-4-3"), 3.0);
    assert_eq!(eval_str("8/4/2"), 1.0);
    assert_eq!(shape("10-4-3"), "((10-4)-3)");
}

#[test]
fn power_groups_from_the_right() {
    assert_eq!(eval_str("2^3^2"), 512.0);
    assert_eq!(shape("2^3^2"), "(2^(3^2))");
}

#[test]
fn unary_minus_binds_tightest() {
    assert_eq!(shape("-2^2"), "((-2)^2)");
    assert_eq!(eval_str("-2^2"), 4.0);
    assert_eq!(eval_str("2*-3+1"), -5.0);
    assert_eq!(eval_str("--2"), 2.0);
}

#[test]
fn parentheses_override_precedence() {
    assert_eq!(eval_str("(2+3)*4"), 20.0);
    assert_eq!(eval_str("2*(3+4)"), 14.0);
}

#[test]
fn adjacent_groups_multiply() {
    assert_eq!(eval_str("(2)(3)"), 6.0);
    assert_eq!(eval_str("(1+1)(2+2)"), 8.0);
    assert_eq!(shape("(2)(3)"), "(2*3)");
}

#[test]
fn unclosed_parenthesis_fails() {
    assert!(is_invalid_operator(&parse_expression("(2+3")));
}

#[test]
fn empty_or_invalid_input_fails_at_construction() {
    assert!(matches!(Parser::new(""), Err(ParseErr::InvalidOperator(_))));
    assert!(matches!(Parser::new("@"), Err(ParseErr::InvalidOperator(_))));
    assert!(matches!(Parser::new("   "), Err(ParseErr::InvalidOperator(_))));
}

#[test]
fn parsing_twice_gives_the_same_tree() {
    let a = parse_expression("(1+2)*3^-4/5").unwrap();
    let b = parse_expression("(1+2)*3^-4/5").unwrap();
    assert_eq!(a, b);
}

#[test]
fn trailing_tokens_fail() {
    assert!(is_invalid_operator(&parse_expression("2+3)")));
    assert!(is_invalid_operator(&parse_expression("2 3")));
    assert!(is_invalid_operator(&parse_expression("2@")));
    assert!(is_invalid_operator(&parse_expression("2(3)")));
}

#[test]
fn missing_operand_is_unable_to_parse() {
    assert!(matches!(parse_expression("*2"), Err(ParseErr::UnableToParse(_))));
    assert!(matches!(parse_expression("2+"), Err(ParseErr::UnableToParse(_))));
    assert!(matches!(parse_expression("()"), Err(ParseErr::UnableToParse(_))));
}

#[test]
fn error_message_has_prefix() {
    let e = parse_expression("2+").unwrap_err();
    assert_eq!(e.message(), "Error in evaluating Unable to parse");
    let e = parse_expression("(2").unwrap_err();
    assert_eq!(e.message(), "Error in evaluating Expected RightParen, got EOF");
}

#[test]
fn parser_new_then_parse() {
    let mut p = Parser::new("1+2").unwrap();
    assert_eq!(
        p.parse().unwrap(),
        Node::Add(
            Box::new(Node::Number(Numeral { start: 0, end: 1 })),
            Box::new(Node::Number(Numeral { start: 2, end: 3 }))
        )
    );
}

#[test]
fn decimal_numerals() {
    assert_eq!(
        parse_expression("3.25").unwrap(),
        Node::Number(Numeral { start: 0, end: 4 })
    );
    assert_eq!(eval_str("3.25"), 3.25);
    assert_eq!(eval_str("0.5*4"), 2.0);
    assert_eq!(
        parse_expression(" 7.").unwrap(),
        Node::Number(Numeral { start: 1, end: 3 })
    );
    assert!(is_invalid_operator(&parse_expression("1.2.3")));
}

#[test]
fn long_numerals_are_accepted() {
    assert_eq!(eval_str("1+99999999999999999999"), 1.0 + 1e20);
    assert_eq!(shape("3.14159265358979323846*2"), "(3.14159265358979323846*2)");
}

#[test]
fn tokenizer_yields_tokens_then_eof() {
    let mut t = Tokenizer::new(" 12 +( ");
    assert_eq!(t.next(), Some(Token::Num(Numeral { start: 1, end: 3 })));
    assert_eq!(t.next(), Some(Token::Add));
    assert_eq!(t.next(), Some(Token::LeftParen));
    assert_eq!(t.next(), Some(Token::EOF));
    assert_eq!(t.next(), Some(Token::EOF));
    let mut u = Tokenizer::new("#");
    assert_eq!(u.next(), None);
}

#[test]
fn operator_precedence_levels() {
    assert_eq!(Token::Add.get_oper_prec(), OperPrec::AddSub);
    assert_eq!(Token::Substract.get_oper_prec(), OperPrec::AddSub);
    assert_eq!(Token::Divide.get_oper_prec(), OperPrec::MulDiv);
    assert_eq!(Token::Caret.get_oper_prec(), OperPrec::Power);
    assert_eq!(Token::RightParen.get_oper_prec(), OperPrec::DefaultZero);
    assert!(OperPrec::Power.is_below(&OperPrec::Negative));
    assert!(!OperPrec::MulDiv.is_below(&OperPrec::AddSub));
    assert_eq!(OperPrec::Negative.level(), 4);
}

fn detail(r: Result<Node, ParseErr>) -> String {
    r.unwrap_err().message()
}

#[test]
fn each_failure_has_its_message() {
    assert_eq!(detail(parse_expression("@")), "Error in evaluating Invalid character");
    assert_eq!(detail(parse_expression("")), "Error in evaluating Invalid character");
    assert_eq!(detail(parse_expression("  ")), "Error in evaluating Invalid character");
    assert_eq!(detail(parse_expression("*2")), "Error in evaluating Unable to parse");
    assert_eq!(detail(parse_expression("2@")), "Error in evaluating Invalid character");
    assert_eq!(
        detail(parse_expression("2 4.5")),
        "Error in evaluating Unexpected Num(4.5) after the expression"
    );
    assert_eq!(
        detail(parse_expression("2)")),
        "Error in evaluating Unexpected RightParen after the expression"
    );
    assert_eq!(
        detail(parse_expression("(2 3")),
        "Error in evaluating Expected RightParen, got Num(3)"
    );
}

#[test]
fn precedence_levels_are_ordered() {
    assert!(OperPrec::DefaultZero < OperPrec::AddSub);
    assert!(OperPrec::AddSub < OperPrec::MulDiv);
    assert!(OperPrec::MulDiv < OperPrec::Power);
    assert!(OperPrec::Power < OperPrec::Negative);
}

#[test]
fn parenthesized_text_gives_the_same_tree() {
    assert_eq!(shape("(2+3*4)"), shape("2+3*4"));
    assert_eq!(shape("(-2^3^2)"), shape("-2^3^2"));
    assert_eq!(
        parse_expression("(7)").unwrap(),
        Node::Number(Numeral { start: 1, end: 2 })
    );
}
