//! No numeral is lost: the leaves of a tree are the numerals of the tokens
//! that were read for it, in their order.

use crate::ast::NodeView;
use crate::decimal::DecimalView;
use crate::grammar::{
    climb, end_piece, expr, infix, is_infix, lemma_climb_progress, lemma_expr_progress,
    lemma_infix_progress, lemma_primary_progress, operand_prec, primary,
};
use crate::token::{OperPrec, TokenView};
use vstd::prelude::*;

verus! {

/// The numerals of the number tokens in `s`, in their order.
pub open spec fn numerals(s: Seq<TokenView>) -> Seq<DecimalView>
    decreases s.len(),
{
    if s.len() == 0 {
        Seq::empty()
    } else {
        match s[0] {
            TokenView::Num(d) => seq![d] + numerals(s.drop_first()),
            _ => numerals(s.drop_first()),
        }
    }
}

/// The tokens of `s` that were read when `rest` is left unread.
pub open spec fn consumed(s: Seq<TokenView>, rest: Seq<TokenView>) -> Seq<TokenView> {
    s.take(s.len() - rest.len())
}

/// The numerals of two sequences of tokens in a row are those of the first,
/// then those of the second.
pub proof fn lemma_numerals_concat(a: Seq<TokenView>, b: Seq<TokenView>)
    ensures
        numerals(a + b) == numerals(a) + numerals(b),
    decreases a.len(),
{
    if a.len() > 0 {
        assert((a + b).drop_first() =~= a.drop_first() + b);
        lemma_numerals_concat(a.drop_first(), b);
    }
}

/// What is read up to `rest` is what is read up to `mid`, then what is read from there.
proof fn lemma_consumed_split(s: Seq<TokenView>, mid: Seq<TokenView>, rest: Seq<TokenView>)
    requires
        end_piece(mid, s),
        end_piece(rest, mid),
    ensures
        consumed(s, rest) == consumed(s, mid) + consumed(mid, rest),
        numerals(consumed(s, rest)) == numerals(consumed(s, mid)) + numerals(
            consumed(mid, rest),
        ),
{
    assert(consumed(s, rest) =~= consumed(s, mid) + consumed(mid, rest));
    lemma_numerals_concat(consumed(s, mid), consumed(mid, rest));
}

/// Moving past one token reads that token.
proof fn lemma_consumed_one(s: Seq<TokenView>)
    requires
        s.len() >= 2,
    ensures
        end_piece(s.drop_first(), s),
        consumed(s, s.drop_first()) == seq![s[0]],
        !(s[0] is Num) ==> numerals(consumed(s, s.drop_first())) == Seq::<DecimalView>::empty(),
        s[0] is Num ==> numerals(consumed(s, s.drop_first())) == seq![s[0]->Num_0],
{
    let one = seq![s[0]];
    assert(consumed(s, s.drop_first()) =~= one);
    assert(one.drop_first() =~= Seq::<TokenView>::empty());
    assert(numerals(one.drop_first()) =~= Seq::<DecimalView>::empty());
    if s[0] is Num {
        assert(numerals(one) =~= seq![s[0]->Num_0]);
    }
}

/// Well-formed tokens hold well-formed numerals.
pub proof fn lemma_numerals_wf(s: Seq<TokenView>)
    requires
        forall|k: int| 0 <= k < s.len() ==> (#[trigger] s[k]).wf(),
    ensures
        forall|k: int| 0 <= k < numerals(s).len() ==> (#[trigger] numerals(s)[k]).wf(),
    decreases s.len(),
{
    if s.len() > 0 {
        let tail = s.drop_first();
        assert forall|k: int| 0 <= k < tail.len() implies (#[trigger] tail[k]).wf() by {
            assert(tail[k] == s[k + 1]);
        }
        lemma_numerals_wf(tail);
        assert(s[0].wf());
        assert forall|k: int| 0 <= k < numerals(s).len() implies (#[trigger] numerals(
            s,
        )[k]).wf() by {
            if s[0] is Num && k > 0 {
                assert(numerals(s)[k] == numerals(tail)[k - 1]);
            }
        }
    }
}

/// A tree is well formed where all its leaves are.
pub proof fn lemma_wf_by_leaves(tree: NodeView)
    requires
        forall|k: int| 0 <= k < tree.leaves().len() ==> (#[trigger] tree.leaves()[k]).wf(),
    ensures
        tree.wf(),
    decreases tree,
{
    match tree {
        NodeView::Add(l, r)
        | NodeView::Subtract(l, r)
        | NodeView::Multiply(l, r)
        | NodeView::Divide(l, r)
        | NodeView::Caret(l, r) => {
            let all = tree.leaves();
            assert forall|k: int| 0 <= k < l.leaves().len() implies (#[trigger] l.leaves()[k]).wf() by {
                assert(all[k] == l.leaves()[k]);
            }
            assert forall|k: int| 0 <= k < r.leaves().len() implies (#[trigger] r.leaves()[k]).wf() by {
                assert(all[l.leaves().len() + k] == r.leaves()[k]);
            }
            lemma_wf_by_leaves(*l);
            lemma_wf_by_leaves(*r);
        },
        NodeView::Negative(c) => {
            assert(tree.leaves() == c.leaves());
            lemma_wf_by_leaves(*c);
        },
        NodeView::Number(d) => {
            assert(tree.leaves()[0] == d);
        },
    }
}

/// The leaves of an operand are the numerals of the tokens read for it.
pub proof fn lemma_primary_leaves(s: Seq<TokenView>)
    requires
        s.len() >= 1,
    ensures
        primary(s).result matches Ok(tree) ==> tree.leaves() == numerals(
            consumed(s, primary(s).rest),
        ),
    decreases s.len(), 0nat,
{
    if s.len() >= 2 {
        let s1 = s.drop_first();
        lemma_consumed_one(s);
        match s[0] {
            TokenView::Subtract => {
                let o = expr(s1, OperPrec::Negative);
                lemma_expr_leaves(s1, OperPrec::Negative);
                lemma_expr_progress(s1, OperPrec::Negative);
                lemma_consumed_split(s, s1, o.rest);
            },
            TokenView::LeftParen => {
                let o = expr(s1, OperPrec::DefaultZero);
                lemma_expr_leaves(s1, OperPrec::DefaultZero);
                lemma_expr_progress(s1, OperPrec::DefaultZero);
                lemma_consumed_split(s, s1, o.rest);
                if o.result is Ok && o.rest[0] == TokenView::RightParen && o.rest.len() >= 2 {
                    let s2 = o.rest.drop_first();
                    lemma_consumed_one(o.rest);
                    lemma_primary_progress(s);
                    assert(end_piece(o.rest, s)) by {
                        assert(o.rest =~= s.skip(s.len() - o.rest.len()));
                    }
                    lemma_consumed_split(s, o.rest, s2);
                    if s2[0] == TokenView::LeftParen {
                        let o2 = expr(s2, OperPrec::MulDiv);
                        lemma_expr_leaves(s2, OperPrec::MulDiv);
                        lemma_expr_progress(s2, OperPrec::MulDiv);
                        assert(end_piece(s2, s)) by {
                            assert(s2 =~= s.skip(s.len() - s2.len()));
                        }
                        lemma_consumed_split(s, s2, o2.rest);
                    }
                }
            },
            _ => {},
        }
    }
}

/// The leaves of an expression are the numerals of the tokens read for it.
pub proof fn lemma_expr_leaves(s: Seq<TokenView>, min: OperPrec)
    requires
        s.len() >= 1,
    ensures
        expr(s, min).result matches Ok(tree) ==> tree.leaves() == numerals(
            consumed(s, expr(s, min).rest),
        ),
    decreases s.len(), 2nat,
{
    let o = primary(s);
    lemma_primary_leaves(s);
    lemma_primary_progress(s);
    if o.result is Ok {
        let left = o.result->Ok_0;
        lemma_climb_leaves(left, o.rest, min);
        lemma_climb_progress(left, o.rest, min);
        lemma_consumed_split(s, o.rest, climb(left, o.rest, min).rest);
    }
}

/// Folding operators into a tree adds the numerals of the tokens read to its leaves.
pub proof fn lemma_climb_leaves(left: NodeView, s: Seq<TokenView>, min: OperPrec)
    requires
        s.len() >= 1,
    ensures
        climb(left, s, min).result matches Ok(tree) ==> tree.leaves() == left.leaves()
            + numerals(consumed(s, climb(left, s, min).rest)),
    decreases s.len(), 1nat,
{
    if min.level() < s[0].oper_prec().level() && s[0] != TokenView::EOF {
        let o = infix(left, s);
        lemma_infix_leaves(left, s);
        lemma_infix_progress(left, s);
        if o.result is Ok {
            let node = o.result->Ok_0;
            lemma_climb_leaves(node, o.rest, min);
            lemma_climb_progress(node, o.rest, min);
            lemma_consumed_split(s, o.rest, climb(node, o.rest, min).rest);
            if climb(node, o.rest, min).result is Ok {
                let tree = climb(node, o.rest, min).result->Ok_0;
                assert(tree.leaves() =~= left.leaves() + numerals(
                    consumed(s, climb(left, s, min).rest),
                ));
            }
        }
    }
}

/// An operator with its right operand adds the numerals of the tokens read
/// to the leaves of the left operand.
pub proof fn lemma_infix_leaves(left: NodeView, s: Seq<TokenView>)
    requires
        s.len() >= 1,
    ensures
        infix(left, s).result matches Ok(tree) ==> tree.leaves() == left.leaves() + numerals(
            consumed(s, infix(left, s).rest),
        ),
    decreases s.len(), 0nat,
{
    if is_infix(s[0]) && s.len() >= 2 {
        let s1 = s.drop_first();
        let o = expr(s1, operand_prec(s[0]));
        lemma_consumed_one(s);
        lemma_expr_leaves(s1, operand_prec(s[0]));
        lemma_expr_progress(s1, operand_prec(s[0]));
        lemma_consumed_split(s, s1, o.rest);
    }
}

} // verus!
