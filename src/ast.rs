//! The abstract syntax tree that the parser builds.
use vstd::prelude::*;
use crate::token::Numeral;

verus! {

/// A node of an expression tree. Each node owns its children; the tree is
/// finite and never shared.
#[derive(Debug, PartialEq)]
pub enum Node {
    Add(Box<Node>, Box<Node>),
    Subtract(Box<Node>, Box<Node>),
    Multiply(Box<Node>, Box<Node>),
    Divide(Box<Node>, Box<Node>),
    Caret(Box<Node>, Box<Node>),
    Negative(Box<Node>),
    Number(Numeral),
}

} // verus!
