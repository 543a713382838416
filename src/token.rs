//! Lexical units of an arithmetic expression and their precedence levels.
use vstd::prelude::*;

verus! {

/// A decimal numeral of the expression, of any length: it is written by
/// the characters `start..end` of the text (digits, then optionally a
/// point and more digits), which give its value.
#[derive(Clone, Copy, Debug, PartialEq, Eq, Structural)]
pub struct Numeral {
    pub start: usize,
    pub end: usize,
}

/// Defines the list of tokens that the tokenizer can produce from an expression.
#[derive(Clone, Copy, Debug, PartialEq, Eq, Structural)]
pub enum Token {
    Add,
    Substract,
    Multiply,
    Divide,
    Caret,
    LeftParen,
    RightParen,
    Num(Numeral),
    EOF,
}

/// Operator precedence levels, from lowest to highest.
#[derive(Clone, Copy, Debug, PartialEq, Eq, Structural, PartialOrd)]
pub enum OperPrec {
    DefaultZero,
    AddSub,
    MulDiv,
    Power,
    Negative,
}

impl OperPrec {
    /// Position of the level in the order `DefaultZero < AddSub < MulDiv < Power < Negative`.
    pub open spec fn rank(self) -> nat {
        match self {
            OperPrec::DefaultZero => 0,
            OperPrec::AddSub => 1,
            OperPrec::MulDiv => 2,
            OperPrec::Power => 3,
            OperPrec::Negative => 4,
        }
    }

    /// The rank of the level as a machine integer.
    pub fn level(&self) -> (r: u8)
        ensures
            r as nat == self.rank(),
    {
        match self {
            OperPrec::DefaultZero => 0,
            OperPrec::AddSub => 1,
            OperPrec::MulDiv => 2,
            OperPrec::Power => 3,
            OperPrec::Negative => 4,
        }
    }

    /// True when `self` binds strictly less tightly than `other`.
    pub fn is_below(&self, other: &OperPrec) -> (r: bool)
        ensures
            r == (self.rank() < other.rank()),
    {
        self.level() < other.level()
    }
}

impl Token {
    /// The precedence level of the operator that a token stands for.
    pub open spec fn prec(self) -> OperPrec {
        match self {
            Token::Add | Token::Substract => OperPrec::AddSub,
            Token::Multiply | Token::Divide => OperPrec::MulDiv,
            Token::Caret => OperPrec::Power,
            _ => OperPrec::DefaultZero,
        }
    }

    pub fn get_oper_prec(&self) -> (r: OperPrec)
        ensures
            r == self.prec(),
    {
        match self {
            Token::Add | Token::Substract => OperPrec::AddSub,
            Token::Multiply | Token::Divide => OperPrec::MulDiv,
            Token::Caret => OperPrec::Power,
            _ => OperPrec::DefaultZero,
        }
    }

    /// The name of the token's variant, for messages.
    pub fn name(&self) -> (r: &'static str)
        ensures
            r@ == self.name_spec(),
    {
        match self {
            Token::Add => "Add",
            Token::Substract => "Substract",
            Token::Multiply => "Multiply",
            Token::Divide => "Divide",
            Token::Caret => "Caret",
            Token::LeftParen => "LeftParen",
            Token::RightParen => "RightParen",
            Token::Num(_) => "Num",
            Token::EOF => "EOF",
        }
    }

    pub open spec fn name_spec(self) -> Seq<char> {
        match self {
            Token::Add => "Add"@,
            Token::Substract => "Substract"@,
            Token::Multiply => "Multiply"@,
            Token::Divide => "Divide"@,
            Token::Caret => "Caret"@,
            Token::LeftParen => "LeftParen"@,
            Token::RightParen => "RightParen"@,
            Token::Num(_) => "Num"@,
            Token::EOF => "EOF"@,
        }
    }
}

} // verus!
