//! Tokens and the precedence of operators.

use crate::decimal::{Decimal, DecimalView};
use core::cmp::Ordering;
use vstd::prelude::*;
use vstd::std_specs::cmp::PartialOrdSpec;

verus! {

/// How tightly an operator binds, from loosest to tightest.
#[derive(Debug, Clone, Copy, PartialEq, Eq, Structural)]
pub enum OperPrec {
    DefaultZero,
    AddSub,
    MulDiv,
    Power,
    Negative,
}

impl OperPrec {
    /// The place of a precedence in the order: `DefaultZero` is 0, `Negative` is 4.
    pub open spec fn level(self) -> nat {
        match self {
            OperPrec::DefaultZero => 0,
            OperPrec::AddSub => 1,
            OperPrec::MulDiv => 2,
            OperPrec::Power => 3,
            OperPrec::Negative => 4,
        }
    }

    /// The place of a precedence in the order, as a machine integer.
    pub fn rank(&self) -> (r: u8)
        ensures
            r == self.level(),
    {
        match self {
            OperPrec::DefaultZero => 0,
            OperPrec::AddSub => 1,
            OperPrec::MulDiv => 2,
            OperPrec::Power => 3,
            OperPrec::Negative => 4,
        }
    }
}

impl PartialOrd for OperPrec {
    fn partial_cmp(&self, other: &Self) -> (r: Option<Ordering>) {
        let a: u8 = self.rank();
        let b: u8 = other.rank();
        if a < b {
            Some(Ordering::Less)
        } else if a == b {
            Some(Ordering::Equal)
        } else {
            Some(Ordering::Greater)
        }
    }
}

impl vstd::std_specs::cmp::PartialOrdSpecImpl for OperPrec {
    open spec fn obeys_partial_cmp_spec() -> bool {
        true
    }

    open spec fn partial_cmp_spec(&self, other: &Self) -> Option<Ordering> {
        if self.level() < other.level() {
            Some(Ordering::Less)
        } else if self.level() == other.level() {
            Some(Ordering::Equal)
        } else {
            Some(Ordering::Greater)
        }
    }
}

/// The precedences stand in a row, from `DefaultZero` up to `Negative`,
/// any two of them are comparable, and `<` compares their places in the row.
pub proof fn law_precedence_order(a: OperPrec, b: OperPrec)
    ensures
        OperPrec::DefaultZero.level() < OperPrec::AddSub.level() < OperPrec::MulDiv.level()
            < OperPrec::Power.level() < OperPrec::Negative.level(),
        a.level() == b.level() <==> a == b,
        a.partial_cmp_spec(&b) == Some(Ordering::Less) <==> a.level() < b.level(),
        a.partial_cmp_spec(&b) == Some(Ordering::Equal) <==> a == b,
        a.partial_cmp_spec(&b) == Some(Ordering::Greater) <==> b.level() < a.level(),
{
}

/// The smallest classified unit of an expression.
#[derive(Debug, PartialEq, Eq)]
pub enum Token {
    Add,
    Subtract,
    Multiply,
    Divide,
    Caret,
    LeftParen,
    RightParen,
    Num(Decimal),
    EOF,
}

/// The mathematical content of a [`Token`].
pub enum TokenView {
    Add,
    Subtract,
    Multiply,
    Divide,
    Caret,
    LeftParen,
    RightParen,
    Num(DecimalView),
    EOF,
}

impl TokenView {
    /// The precedence of a token as an infix operator. Whatever is no
    /// operator has the lowest one, so that it ends every operator chain.
    pub open spec fn oper_prec(self) -> OperPrec {
        match self {
            TokenView::Add | TokenView::Subtract => OperPrec::AddSub,
            TokenView::Multiply | TokenView::Divide => OperPrec::MulDiv,
            TokenView::Caret => OperPrec::Power,
            _ => OperPrec::DefaultZero,
        }
    }

    /// The name under which a token appears in messages.
    pub open spec fn describe(self) -> Seq<char> {
        match self {
            TokenView::Add => "Add"@,
            TokenView::Subtract => "Subtract"@,
            TokenView::Multiply => "Multiply"@,
            TokenView::Divide => "Divide"@,
            TokenView::Caret => "Caret"@,
            TokenView::LeftParen => "LeftParen"@,
            TokenView::RightParen => "RightParen"@,
            TokenView::Num(d) => "Num("@ + d.text() + ")"@,
            TokenView::EOF => "EOF"@,
        }
    }

    /// A number token holds a well-formed numeral.
    pub open spec fn wf(self) -> bool {
        self matches TokenView::Num(d) ==> d.wf()
    }
}

impl View for Token {
    type V = TokenView;

    open spec fn view(&self) -> TokenView {
        match self {
            Token::Add => TokenView::Add,
            Token::Subtract => TokenView::Subtract,
            Token::Multiply => TokenView::Multiply,
            Token::Divide => TokenView::Divide,
            Token::Caret => TokenView::Caret,
            Token::LeftParen => TokenView::LeftParen,
            Token::RightParen => TokenView::RightParen,
            Token::Num(d) => TokenView::Num(d@),
            Token::EOF => TokenView::EOF,
        }
    }
}

impl Token {
    /// The precedence of this token as an infix operator.
    pub fn get_oper_prec(&self) -> (prec: OperPrec)
        ensures
            prec == self@.oper_prec(),
    {
        match self {
            Token::Add | Token::Subtract => OperPrec::AddSub,
            Token::Multiply | Token::Divide => OperPrec::MulDiv,
            Token::Caret => OperPrec::Power,
            _ => OperPrec::DefaultZero,
        }
    }

    /// The name under which this token appears in messages.
    pub fn describe(&self) -> (name: String)
        ensures
            name@ == self@.describe(),
    {
        match self {
            Token::Add => String::from_str("Add"),
            Token::Subtract => String::from_str("Subtract"),
            Token::Multiply => String::from_str("Multiply"),
            Token::Divide => String::from_str("Divide"),
            Token::Caret => String::from_str("Caret"),
            Token::LeftParen => String::from_str("LeftParen"),
            Token::RightParen => String::from_str("RightParen"),
            Token::Num(d) => {
                let mut name = String::from_str("Num(");
                let text = d.to_text();
                name.append(text.as_str());
                name.append(")");
                name
            },
            Token::EOF => String::from_str("EOF"),
        }
    }

    /// Whether this token is the same as `other`, numerals compared digit by digit.
    pub fn same_as(&self, other: &Token) -> (same: bool)
        ensures
            same == (self@ == other@),
    {
        match (self, other) {
            (Token::Add, Token::Add) => true,
            (Token::Subtract, Token::Subtract) => true,
            (Token::Multiply, Token::Multiply) => true,
            (Token::Divide, Token::Divide) => true,
            (Token::Caret, Token::Caret) => true,
            (Token::LeftParen, Token::LeftParen) => true,
            (Token::RightParen, Token::RightParen) => true,
            (Token::EOF, Token::EOF) => true,
            (Token::Num(a), Token::Num(b)) => a.same_as(b),
            _ => false,
        }
    }
}

impl Clone for Token {
    fn clone(&self) -> (res: Self)
        ensures
            res@ == self@,
    {
        match self {
            Token::Add => Token::Add,
            Token::Subtract => Token::Subtract,
            Token::Multiply => Token::Multiply,
            Token::Divide => Token::Divide,
            Token::Caret => Token::Caret,
            Token::LeftParen => Token::LeftParen,
            Token::RightParen => Token::RightParen,
            Token::Num(d) => Token::Num(d.clone()),
            Token::EOF => Token::EOF,
        }
    }
}

} // verus!
