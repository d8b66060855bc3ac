//! The parser: precedence climbing over a tokenizer, with one token of lookahead.

use crate::ast::{Node, NodeView};
use crate::error::{ParseError, ParseErrorView};
use crate::grammar::{
    accept, advance, climb, end_piece, expect, expr, infix, lemma_expr_progress,
    lemma_infix_progress, lemma_primary_progress, primary,
};
use crate::lexical::tokens_of;
use crate::token::{OperPrec, Token, TokenView};
use crate::tokenizer::Tokenizer;
use vstd::prelude::*;

verus! {

/// A parse in progress: the tokenizer and the token that was fetched last.
pub struct Parser {
    tokenizer: Tokenizer,
    current_token: Token,
}

impl View for Parser {
    type V = Seq<TokenView>;

    /// The tokens that are still unread: the lookahead, then what the tokenizer holds.
    closed spec fn view(&self) -> Seq<TokenView> {
        seq![self.current_token@] + self.tokenizer@
    }
}

/// The mathematical content of what a parsing step returns.
pub open spec fn result_view(r: Result<Node, ParseError>) -> Result<NodeView, ParseErrorView> {
    match r {
        Ok(node) => Ok(node@),
        Err(e) => Err(e@),
    }
}

impl Parser {
    /// A parser over `expr`, with the first token fetched. It fails where
    /// `expr` holds no token at all.
    pub fn new(expr: &str) -> (r: Result<Parser, ParseError>)
        ensures
            match r {
                Ok(parser) => tokens_of(expr@).len() > 0 && parser@ == tokens_of(expr@),
                Err(e) => tokens_of(expr@).len() == 0 && e@ == ParseErrorView::invalid_character(),
            },
    {
        let mut lexer = Tokenizer::new(expr);
        let cur_token = match lexer.next() {
            Some(token) => token,
            None => return Err(ParseError::invalid_character()),
        };
        let parser = Parser { tokenizer: lexer, current_token: cur_token };
        Ok(parser)
    }

    /// The lookahead: the first of the unread tokens.
    pub fn current_token(&self) -> (token: &Token)
        ensures
            self@.len() >= 1,
            token@ == self@[0],
    {
        &self.current_token
    }

    /// Parses one expression from the unread tokens. It returns the tree, or
    /// the first error met, and stops before the first token that cannot
    /// continue the expression. What is unread afterwards is an end piece of
    /// what was unread before, and begins with the new lookahead.
    pub fn parse(&mut self) -> (r: Result<Node, ParseError>)
        ensures
            result_view(r) == expr(old(self)@, OperPrec::DefaultZero).result,
            final(self)@ == expr(old(self)@, OperPrec::DefaultZero).rest,
            end_piece(final(self)@, old(self)@),
    {
        proof {
            lemma_expr_progress(self@, OperPrec::DefaultZero);
        }
        let ast = self.generate_ast(OperPrec::DefaultZero);
        match ast {
            Ok(ast) => Ok(ast),
            Err(e) => Err(e),
        }
    }

    /// Fetches the next token into the lookahead. It fails, and changes
    /// nothing, where the tokenizer has none.
    fn get_next_token(&mut self) -> (r: Result<(), ParseError>)
        ensures
            match r {
                Ok(_) => advance(old(self)@) == Ok::<Seq<TokenView>, ParseErrorView>(
                    final(self)@,
                ),
                Err(e) => advance(old(self)@) == Err::<Seq<TokenView>, ParseErrorView>(e@)
                    && final(self)@ == old(self)@,
            },
    {
        let next_token = match self.tokenizer.next() {
            Some(token) => token,
            None => {
                return Err(ParseError::invalid_character());
            },
        };
        self.current_token = next_token;
        assert(self@ =~= old(self)@.drop_first());
        Ok(())
    }

    /// Moves past the lookahead where it is `expected`; fails, and changes
    /// nothing, where it is another token or no token follows.
    fn check_paren(&mut self, expected: Token) -> (r: Result<(), ParseError>)
        ensures
            match r {
                Ok(_) => expect(old(self)@, expected@) == Ok::<Seq<TokenView>, ParseErrorView>(
                    final(self)@,
                ),
                Err(e) => expect(old(self)@, expected@) == Err::<Seq<TokenView>, ParseErrorView>(
                    e@,
                ) && final(self)@ == old(self)@,
            },
    {
        if expected.same_as(&self.current_token) {
            self.get_next_token()?;
            Ok(())
        } else {
            Err(ParseError::expected(&expected, &self.current_token))
        }
    }

    /// Parses an operand: a numeral, a negated operand, or an expression in
    /// parentheses, which is multiplied with a parenthesis that follows it directly.
    fn parse_number(&mut self) -> (r: Result<Node, ParseError>)
        ensures
            result_view(r) == primary(old(self)@).result,
            final(self)@ == primary(old(self)@).rest,
        decreases old(self)@.len(), 0nat,
    {
        let token = self.current_token.clone();
        match token {
            Token::Subtract => {
                self.get_next_token()?;
                let expr = self.generate_ast(OperPrec::Negative)?;
                Ok(Node::Negative(Box::new(expr)))
            },
            Token::Num(i) => {
                self.get_next_token()?;
                Ok(Node::Number(i))
            },
            Token::LeftParen => {
                self.get_next_token()?;
                proof {
                    lemma_expr_progress(self@, OperPrec::DefaultZero);
                }
                let expr = self.generate_ast(OperPrec::DefaultZero)?;
                self.check_paren(Token::RightParen)?;
                if self.current_token.same_as(&Token::LeftParen) {
                    let right = self.generate_ast(OperPrec::MulDiv)?;
                    return Ok(Node::Multiply(Box::new(expr), Box::new(right)));
                }
                Ok(expr)
            },
            _ => Err(ParseError::unable_to_parse()),
        }
    }

    /// Parses an expression whose operators all bind more tightly than `oper_prec`.
    fn generate_ast(&mut self, oper_prec: OperPrec) -> (r: Result<Node, ParseError>)
        ensures
            final(self)@.len() >= 1,
            result_view(r) == expr(old(self)@, oper_prec).result,
            final(self)@ == expr(old(self)@, oper_prec).rest,
        decreases old(self)@.len(), 2nat,
    {
        let ghost start = self@;
        let mut left_expr = self.parse_number()?;
        proof {
            lemma_primary_progress(start);
        }
        while oper_prec < self.current_token.get_oper_prec()
            invariant
                start == old(self)@,
                1 <= self@.len() <= start.len(),
                climb(left_expr@, self@, oper_prec) == expr(start, oper_prec),
            ensures
                1 <= self@.len(),
                accept(left_expr@, self@) == expr(start, oper_prec),
            decreases self@.len(),
        {
            if self.current_token.same_as(&Token::EOF) {
                break ;
            }
            proof {
                lemma_infix_progress(left_expr@, self@);
            }
            let right_expr = self.convert_token_to_node(left_expr)?;
            left_expr = right_expr;
        }
        Ok(left_expr)
    }

    /// Parses the infix operator under the lookahead with its right operand,
    /// and joins them to `left_expr`.
    fn convert_token_to_node(&mut self, left_expr: Node) -> (r: Result<Node, ParseError>)
        ensures
            result_view(r) == infix(left_expr@, old(self)@).result,
            final(self)@ == infix(left_expr@, old(self)@).rest,
        decreases old(self)@.len(), 0nat,
    {
        match self.current_token {
            Token::Add => {
                self.get_next_token()?;
                let right_expr = self.generate_ast(OperPrec::AddSub)?;
                Ok(Node::Add(Box::new(left_expr), Box::new(right_expr)))
            },
            Token::Subtract => {
                self.get_next_token()?;
                let right_expr = self.generate_ast(OperPrec::AddSub)?;
                Ok(Node::Subtract(Box::new(left_expr), Box::new(right_expr)))
            },
            Token::Multiply => {
                self.get_next_token()?;
                let right_expr = self.generate_ast(OperPrec::MulDiv)?;
                Ok(Node::Multiply(Box::new(left_expr), Box::new(right_expr)))
            },
            Token::Divide => {
                self.get_next_token()?;
                let right_expr = self.generate_ast(OperPrec::MulDiv)?;
                Ok(Node::Divide(Box::new(left_expr), Box::new(right_expr)))
            },
            Token::Caret => {
                // The exponent is read just below the level of `^`, so that
                // a further `^` joins it: `2^3^2` is `2^(3^2)`.
                self.get_next_token()?;
                let right_expr = self.generate_ast(OperPrec::MulDiv)?;
                Ok(Node::Caret(Box::new(left_expr), Box::new(right_expr)))
            },
            _ => Err(ParseError::not_an_operator(&self.current_token)),
        }
    }
}

} // verus!
