//! Tokenizer and precedence-climbing parser for arithmetic expressions.
pub mod token;
pub mod tokenizer;
pub mod ast;
pub mod parser;
pub mod laws;
