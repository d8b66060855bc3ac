//! The two ways in which parsing fails.

use crate::token::{Token, TokenView};
use vstd::prelude::*;

verus! {

/// Why an expression could not be parsed. Each kind carries a message.
#[derive(Debug, PartialEq, Eq)]
pub enum ParseError {
    /// The current token cannot begin an operand.
    UnableToParse(String),
    /// A token was required and none came, a closing parenthesis is missing,
    /// or the current token is no infix operator.
    InvalidOperator(String),
}

/// The mathematical content of a [`ParseError`].
pub enum ParseErrorView {
    UnableToParse(Seq<char>),
    InvalidOperator(Seq<char>),
}

impl ParseErrorView {
    /// No token came where one was required.
    pub open spec fn invalid_character() -> ParseErrorView {
        ParseErrorView::InvalidOperator("Invalid character"@)
    }

    /// The token `actual` stands where `expected` was required.
    pub open spec fn expected(expected: TokenView, actual: TokenView) -> ParseErrorView {
        ParseErrorView::InvalidOperator(
            "Expected "@ + expected.describe() + ", got "@ + actual.describe(),
        )
    }

    /// The token `actual` stands where an infix operator was required.
    pub open spec fn not_an_operator(actual: TokenView) -> ParseErrorView {
        ParseErrorView::InvalidOperator("Please enter valid operator "@ + actual.describe())
    }

    /// The current token cannot begin an operand.
    pub open spec fn unable_to_parse() -> ParseErrorView {
        ParseErrorView::UnableToParse("Unable to parse"@)
    }
}

impl View for ParseError {
    type V = ParseErrorView;

    open spec fn view(&self) -> ParseErrorView {
        match self {
            ParseError::UnableToParse(m) => ParseErrorView::UnableToParse(m@),
            ParseError::InvalidOperator(m) => ParseErrorView::InvalidOperator(m@),
        }
    }
}

impl ParseError {
    /// The error for a token that was required and did not come.
    pub fn invalid_character() -> (e: ParseError)
        ensures
            e@ == ParseErrorView::invalid_character(),
    {
        ParseError::InvalidOperator(String::from_str("Invalid character"))
    }

    /// The error for the token `actual` where `expected` was required.
    pub fn expected(expected: &Token, actual: &Token) -> (e: ParseError)
        ensures
            e@ == ParseErrorView::expected(expected@, actual@),
    {
        let mut message = String::from_str("Expected ");
        message.append(expected.describe().as_str());
        message.append(", got ");
        message.append(actual.describe().as_str());
        ParseError::InvalidOperator(message)
    }

    /// The error for the token `actual` where an infix operator was required.
    pub fn not_an_operator(actual: &Token) -> (e: ParseError)
        ensures
            e@ == ParseErrorView::not_an_operator(actual@),
    {
        let mut message = String::from_str("Please enter valid operator ");
        message.append(actual.describe().as_str());
        ParseError::InvalidOperator(message)
    }

    /// The error for a token that cannot begin an operand.
    pub fn unable_to_parse() -> (e: ParseError)
        ensures
            e@ == ParseErrorView::unable_to_parse(),
    {
        ParseError::UnableToParse(String::from_str("Unable to parse"))
    }

    /// The message that the error carries.
    pub fn message(&self) -> (m: &String)
        ensures
            m@ == match self@ {
                ParseErrorView::UnableToParse(t) => t,
                ParseErrorView::InvalidOperator(t) => t,
            },
    {
        match self {
            ParseError::UnableToParse(m) => m,
            ParseError::InvalidOperator(m) => m,
        }
    }
}

impl Clone for ParseError {
    fn clone(&self) -> (res: Self)
        ensures
            res@ == self@,
    {
        match self {
            ParseError::UnableToParse(m) => ParseError::UnableToParse(m.clone()),
            ParseError::InvalidOperator(m) => ParseError::InvalidOperator(m.clone()),
        }
    }
}

} // verus!
