//! Parsing of arithmetic expressions into syntax trees.
//!
//! A text such as `2*(3+4)^2` is cut into tokens by a [`tokenizer::Tokenizer`]
//! and folded into a [`ast::Node`] tree by a [`parser::Parser`], which climbs
//! operator precedences with one token of lookahead.
//!
//! The meaning of both steps is given over plain sequences: [`lexical`]
//! says which tokens a text holds, [`grammar`] which tree a sequence of
//! tokens stands for. [`laws`] and [`leaves`] prove what follows from the two.

pub mod ast;
pub mod decimal;
pub mod error;
pub mod grammar;
pub mod laws;
pub mod leaves;
pub mod lexical;
pub mod parser;
pub mod token;
pub mod tokenizer;
