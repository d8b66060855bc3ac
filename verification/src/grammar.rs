//! What parsing means: the tree that a sequence of tokens stands for.
//!
//! The functions here work on the tokens that are still unread, the
//! lookahead first. Each returns an [`Outcome`]: a tree or an error, and the
//! tokens that are unread afterwards.

use crate::ast::NodeView;
use crate::error::ParseErrorView;
use crate::token::{OperPrec, TokenView};
use vstd::prelude::*;

verus! {

/// A tree or an error, together with the tokens left unread, lookahead first.
pub struct Outcome {
    pub result: Result<NodeView, ParseErrorView>,
    pub rest: Seq<TokenView>,
}

/// Success with `node`, leaving `rest` unread.
pub open spec fn accept(node: NodeView, rest: Seq<TokenView>) -> Outcome {
    Outcome { result: Ok(node), rest }
}

/// Failure with `error`, leaving `rest` unread.
pub open spec fn reject(error: ParseErrorView, rest: Seq<TokenView>) -> Outcome {
    Outcome { result: Err(error), rest }
}

/// Moving past the lookahead: the tokens behind it, or an error where none follows.
pub open spec fn advance(s: Seq<TokenView>) -> Result<Seq<TokenView>, ParseErrorView> {
    if s.len() >= 2 {
        Ok(s.drop_first())
    } else {
        Err(ParseErrorView::invalid_character())
    }
}

/// Moving past the lookahead where it is `expected`, and an error where it is another token.
pub open spec fn expect(s: Seq<TokenView>, expected: TokenView) -> Result<
    Seq<TokenView>,
    ParseErrorView,
> {
    if s[0] == expected {
        advance(s)
    } else {
        Err(ParseErrorView::expected(expected, s[0]))
    }
}

/// The five tokens that join two operands.
pub open spec fn is_infix(op: TokenView) -> bool {
    op is Add || op is Subtract || op is Multiply || op is Divide || op is Caret
}

/// The threshold under which the right operand of `op` is read. For the
/// left-associative operators it is their own precedence, so that an equal
/// operator further right is folded by the enclosing loop. For `^` it is the
/// precedence just below its own, so that a further `^` joins the exponent.
pub open spec fn operand_prec(op: TokenView) -> OperPrec {
    match op {
        TokenView::Add | TokenView::Subtract => OperPrec::AddSub,
        _ => OperPrec::MulDiv,
    }
}

/// The node that joins `left` and `right` by the infix operator `op`.
pub open spec fn binary(op: TokenView, left: NodeView, right: NodeView) -> NodeView {
    match op {
        TokenView::Add => NodeView::Add(Box::new(left), Box::new(right)),
        TokenView::Subtract => NodeView::Subtract(Box::new(left), Box::new(right)),
        TokenView::Multiply => NodeView::Multiply(Box::new(left), Box::new(right)),
        TokenView::Divide => NodeView::Divide(Box::new(left), Box::new(right)),
        _ => NodeView::Caret(Box::new(left), Box::new(right)),
    }
}

/// An operand: a numeral, a negated operand, or an expression in
/// parentheses. Where another opening parenthesis follows the closing one
/// directly, the two are multiplied.
///
/// The comparisons of lengths in these functions serve the termination
/// measure alone: the progress lemmas below show that they always hold.
pub open spec fn primary(s: Seq<TokenView>) -> Outcome
    decreases s.len(), 0nat,
{
    match s[0] {
        TokenView::Subtract => match advance(s) {
            Err(e) => reject(e, s),
            Ok(s1) => {
                let o = expr(s1, OperPrec::Negative);
                match o.result {
                    Ok(operand) => accept(NodeView::Negative(Box::new(operand)), o.rest),
                    Err(_) => o,
                }
            },
        },
        TokenView::Num(d) => match advance(s) {
            Err(e) => reject(e, s),
            Ok(s1) => accept(NodeView::Number(d), s1),
        },
        TokenView::LeftParen => match advance(s) {
            Err(e) => reject(e, s),
            Ok(s1) => {
                let o = expr(s1, OperPrec::DefaultZero);
                match o.result {
                    Err(_) => o,
                    Ok(inner) => match expect(o.rest, TokenView::RightParen) {
                        Err(e) => reject(e, o.rest),
                        Ok(s2) => if s2[0] == TokenView::LeftParen && s2.len() < s.len() {
                            let o2 = expr(s2, OperPrec::MulDiv);
                            match o2.result {
                                Ok(right) => accept(
                                    NodeView::Multiply(Box::new(inner), Box::new(right)),
                                    o2.rest,
                                ),
                                Err(_) => o2,
                            }
                        } else {
                            accept(inner, s2)
                        },
                    },
                }
            },
        },
        _ => reject(ParseErrorView::unable_to_parse(), s),
    }
}

/// An expression whose operators all bind more tightly than `min`: an
/// operand, then as many infix operators above `min`, each with its right
/// operand, as follow.
pub open spec fn expr(s: Seq<TokenView>, min: OperPrec) -> Outcome
    decreases s.len(), 2nat,
{
    let o = primary(s);
    match o.result {
        Ok(left) => if o.rest.len() <= s.len() {
            climb(left, o.rest, min)
        } else {
            o
        },
        Err(_) => o,
    }
}

/// Folds the infix operators above `min` that follow `left` into it, from left to right.
pub open spec fn climb(left: NodeView, s: Seq<TokenView>, min: OperPrec) -> Outcome
    decreases s.len(), 1nat,
{
    if min.level() < s[0].oper_prec().level() && s[0] != TokenView::EOF {
        let o = infix(left, s);
        match o.result {
            Ok(node) => if o.rest.len() < s.len() {
                climb(node, o.rest, min)
            } else {
                o
            },
            Err(_) => o,
        }
    } else {
        accept(left, s)
    }
}

/// One infix operator with its right operand, joined to `left`.
pub open spec fn infix(left: NodeView, s: Seq<TokenView>) -> Outcome
    decreases s.len(), 0nat,
{
    if is_infix(s[0]) {
        match advance(s) {
            Err(e) => reject(e, s),
            Ok(s1) => {
                let o = expr(s1, operand_prec(s[0]));
                match o.result {
                    Ok(right) => accept(binary(s[0], left, right), o.rest),
                    Err(_) => o,
                }
            },
        }
    } else {
        reject(ParseErrorView::not_an_operator(s[0]), s)
    }
}

/// What is left unread is an end piece of what was there, and holds a token.
pub open spec fn end_piece(rest: Seq<TokenView>, s: Seq<TokenView>) -> bool {
    &&& 1 <= rest.len() <= s.len()
    &&& rest == s.skip(s.len() - rest.len())
}

proof fn lemma_end_piece_trans(a: Seq<TokenView>, b: Seq<TokenView>, c: Seq<TokenView>)
    requires
        end_piece(a, b),
        end_piece(b, c),
    ensures
        end_piece(a, c),
{
    assert(a =~= c.skip(c.len() - a.len()));
}

proof fn lemma_end_piece_advance(s: Seq<TokenView>)
    requires
        s.len() >= 2,
    ensures
        end_piece(s.drop_first(), s),
{
}

/// An operand leaves an end piece of its tokens unread, and a successful
/// one has read at least one token.
pub proof fn lemma_primary_progress(s: Seq<TokenView>)
    requires
        s.len() >= 1,
    ensures
        end_piece(primary(s).rest, s),
        primary(s).result is Ok ==> primary(s).rest.len() < s.len(),
    decreases s.len(), 0nat,
{
    assert(s.skip(0) =~= s);
    if s.len() >= 2 {
        let s1 = s.drop_first();
        lemma_end_piece_advance(s);
        match s[0] {
            TokenView::Subtract => {
                lemma_expr_progress(s1, OperPrec::Negative);
                lemma_end_piece_trans(expr(s1, OperPrec::Negative).rest, s1, s);
            },
            TokenView::LeftParen => {
                let o = expr(s1, OperPrec::DefaultZero);
                lemma_expr_progress(s1, OperPrec::DefaultZero);
                lemma_end_piece_trans(o.rest, s1, s);
                if o.result is Ok && o.rest[0] == TokenView::RightParen && o.rest.len() >= 2 {
                    let s2 = o.rest.drop_first();
                    lemma_end_piece_advance(o.rest);
                    lemma_end_piece_trans(s2, o.rest, s);
                    if s2[0] == TokenView::LeftParen {
                        lemma_expr_progress(s2, OperPrec::MulDiv);
                        lemma_end_piece_trans(expr(s2, OperPrec::MulDiv).rest, s2, s);
                    }
                }
            },
            _ => {},
        }
    }
}

/// An expression leaves an end piece of its tokens unread, and a
/// successful one has read at least one token.
pub proof fn lemma_expr_progress(s: Seq<TokenView>, min: OperPrec)
    requires
        s.len() >= 1,
    ensures
        end_piece(expr(s, min).rest, s),
        expr(s, min).result is Ok ==> expr(s, min).rest.len() < s.len(),
    decreases s.len(), 2nat,
{
    let o = primary(s);
    lemma_primary_progress(s);
    if o.result is Ok {
        lemma_climb_progress(o.result->Ok_0, o.rest, min);
        lemma_end_piece_trans(climb(o.result->Ok_0, o.rest, min).rest, o.rest, s);
    }
}

/// Folding operators leaves an end piece of the tokens unread.
pub proof fn lemma_climb_progress(left: NodeView, s: Seq<TokenView>, min: OperPrec)
    requires
        s.len() >= 1,
    ensures
        end_piece(climb(left, s, min).rest, s),
    decreases s.len(), 1nat,
{
    assert(s.skip(0) =~= s);
    if min.level() < s[0].oper_prec().level() && s[0] != TokenView::EOF {
        let o = infix(left, s);
        lemma_infix_progress(left, s);
        if o.result is Ok {
            lemma_climb_progress(o.result->Ok_0, o.rest, min);
            lemma_end_piece_trans(climb(o.result->Ok_0, o.rest, min).rest, o.rest, s);
        }
    }
}

/// An operator with its right operand leaves an end piece of its tokens
/// unread, and a successful one has read at least one token.
pub proof fn lemma_infix_progress(left: NodeView, s: Seq<TokenView>)
    requires
        s.len() >= 1,
    ensures
        end_piece(infix(left, s).rest, s),
        infix(left, s).result is Ok ==> infix(left, s).rest.len() < s.len(),
    decreases s.len(), 0nat,
{
    assert(s.skip(0) =~= s);
    if is_infix(s[0]) && s.len() >= 2 {
        let s1 = s.drop_first();
        lemma_end_piece_advance(s);
        lemma_expr_progress(s1, operand_prec(s[0]));
        lemma_end_piece_trans(expr(s1, operand_prec(s[0])).rest, s1, s);
    }
}

/// An expression is its first operand with the operators behind it folded in.
pub proof fn lemma_expr_unfolds(s: Seq<TokenView>, min: OperPrec)
    requires
        s.len() >= 1,
    ensures
        expr(s, min) == match primary(s).result {
            Ok(left) => climb(left, primary(s).rest, min),
            Err(_) => primary(s),
        },
{
    lemma_primary_progress(s);
}

/// Folding stops at a token whose precedence is not above the threshold;
/// at one above it, the operator is joined and folding goes on behind it.
pub proof fn lemma_climb_unfolds(left: NodeView, s: Seq<TokenView>, min: OperPrec)
    requires
        s.len() >= 1,
    ensures
        climb(left, s, min) == if min.level() < s[0].oper_prec().level() {
            match infix(left, s).result {
                Ok(node) => climb(node, infix(left, s).rest, min),
                Err(_) => infix(left, s),
            }
        } else {
            accept(left, s)
        },
{
    lemma_infix_progress(left, s);
}

/// An opening parenthesis is followed by an expression and the closing
/// parenthesis; another opening parenthesis directly behind that begins a
/// factor, read above the precedence of multiplication.
pub proof fn lemma_parentheses_unfold(s: Seq<TokenView>)
    requires
        s.len() >= 2,
        s[0] == TokenView::LeftParen,
    ensures
        primary(s) == ({
            let o = expr(s.drop_first(), OperPrec::DefaultZero);
            match o.result {
                Err(_) => o,
                Ok(inner) => match expect(o.rest, TokenView::RightParen) {
                    Err(e) => reject(e, o.rest),
                    Ok(s2) => if s2[0] == TokenView::LeftParen {
                        let o2 = expr(s2, OperPrec::MulDiv);
                        match o2.result {
                            Ok(right) => accept(
                                NodeView::Multiply(Box::new(inner), Box::new(right)),
                                o2.rest,
                            ),
                            Err(_) => o2,
                        }
                    } else {
                        accept(inner, s2)
                    },
                },
            }
        }),
{
    lemma_expr_progress(s.drop_first(), OperPrec::DefaultZero);
}

} // verus!
