//! What holds of parsing as a whole, proved from the definitions.

use crate::ast::NodeView;
use crate::decimal::{digits_value, pow10, DecimalView};
use crate::error::ParseErrorView;
use crate::grammar::{expr, lemma_expr_progress};
use crate::leaves::{consumed, lemma_expr_leaves, lemma_numerals_wf, lemma_wf_by_leaves, numerals};
use crate::lexical::{
    digit_values, is_digit, lemma_skip_digits_to, lemma_tokens_wf,
    lemma_unrecognized_ends_stream, recognized, tokens_from, tokens_of,
};
use crate::token::{OperPrec, TokenView};
use vstd::prelude::*;

verus! {

/// What a fresh parser over the text `s` returns when it is asked to parse:
/// an error where the text holds no token, else the outcome of reading one
/// expression from its token stream.
pub open spec fn parse_text(s: Seq<char>) -> Result<NodeView, ParseErrorView> {
    if tokens_of(s).len() == 0 {
        Err(ParseErrorView::invalid_character())
    } else {
        expr(tokens_of(s), OperPrec::DefaultZero).result
    }
}

/// The lookahead at which parsing the text `s` ends, where it succeeds.
pub open spec fn final_lookahead(s: Seq<char>) -> TokenView {
    expr(tokens_of(s), OperPrec::DefaultZero).rest[0]
}

/// Every character of `cs` is a digit.
pub open spec fn all_digits(cs: Seq<char>) -> bool {
    forall|k: int| 0 <= k < cs.len() ==> is_digit(#[trigger] cs[k])
}

/// The numeral written with the digits `whole` before the point and `frac` behind it.
pub open spec fn numeral(whole: Seq<char>, frac: Seq<char>) -> DecimalView {
    DecimalView { digits: digit_values(whole + frac), scale: frac.len() }
}

/// The tokens of a text that ends with a numeral, read from the start of the numeral.
proof fn lemma_numeral_stream(
    s: Seq<char>,
    i: int,
    started: bool,
    whole: Seq<char>,
    frac: Seq<char>,
)
    requires
        0 <= i <= s.len(),
        whole.len() >= 1,
        all_digits(whole),
        all_digits(frac),
        (s.skip(i) == whole && frac.len() == 0) || s.skip(i) == whole + seq!['.'] + frac,
    ensures
        tokens_from(s, i, started) == seq![TokenView::Num(numeral(whole, frac)), TokenView::EOF],
{
    let tail = s.skip(i);
    let w = whole.len() as int;
    if tail == whole {
        assert forall|k: int| i <= k < i + w implies is_digit(#[trigger] s[k]) by {
            assert(s[k] == tail[k - i]);
        }
        lemma_skip_digits_to(s, i, i + w);
    } else {
        let pointed = whole + seq!['.'] + frac;
        assert(tail.len() == w + 1 + frac.len());
        assert forall|k: int| i <= k < i + w implies is_digit(#[trigger] s[k]) by {
            assert(pointed[k - i] == whole[k - i]);
        }
        assert(pointed[w] == '.');
        lemma_skip_digits_to(s, i, i + w);
        assert(s.subrange(i, i + w) =~= whole);
        assert forall|k: int| i + w + 1 <= k < s.len() implies is_digit(#[trigger] s[k]) by {
            assert(pointed[k - i] == frac[k - i - w - 1]);
        }
        lemma_skip_digits_to(s, i + w + 1, s.len() as int);
        assert forall|k: int| 0 <= k < frac.len() implies s[i + w + 1 + k] == frac[k] by {
            assert(pointed[w + 1 + k] == frac[k]);
        }
        assert(s.subrange(i + w + 1, s.len() as int) =~= frac);
    }
    assert(tokens_from(s, s.len() as int, true) == seq![TokenView::EOF]);
    assert(tokens_from(s, i, started) =~= seq![
        TokenView::Num(numeral(whole, frac)),
        TokenView::EOF,
    ]);
}

/// A numeral before the end marker is read as a leaf, whatever the threshold.
proof fn lemma_leaf(d: DecimalView, min: OperPrec)
    ensures
        expr(seq![TokenView::Num(d), TokenView::EOF], min).result == Ok::<
            NodeView,
            ParseErrorView,
        >(NodeView::Number(d)),
        expr(seq![TokenView::Num(d), TokenView::EOF], min).rest == seq![TokenView::EOF],
{
}

/// A text that is a numeral without a point parses to a single number
/// leaf, which holds the digits as they are written.
pub proof fn law_whole_numeral(whole: Seq<char>)
    requires
        whole.len() >= 1,
        all_digits(whole),
    ensures
        parse_text(whole) == Ok::<NodeView, ParseErrorView>(
            NodeView::Number(DecimalView { digits: digit_values(whole), scale: 0 }),
        ),
{
    let frac = Seq::<char>::empty();
    assert(whole.skip(0) =~= whole);
    lemma_numeral_stream(whole, 0, false, whole, frac);
    lemma_leaf(numeral(whole, frac), OperPrec::DefaultZero);
}

/// A text that is a numeral with a point parses to a single number leaf,
/// which holds the digits on both sides of the point and counts those behind it.
pub proof fn law_pointed_numeral(whole: Seq<char>, frac: Seq<char>)
    requires
        whole.len() >= 1,
        all_digits(whole),
        all_digits(frac),
    ensures
        parse_text(whole + seq!['.'] + frac) == Ok::<NodeView, ParseErrorView>(
            NodeView::Number(
                DecimalView { digits: digit_values(whole + frac), scale: frac.len() },
            ),
        ),
{
    let s = whole + seq!['.'] + frac;
    assert(s.skip(0) =~= s);
    lemma_numeral_stream(s, 0, false, whole, frac);
    lemma_leaf(numeral(whole, frac), OperPrec::DefaultZero);
}

/// A numeral with a minus sign before it parses to the negation of the
/// number leaf, not to a leaf.
pub proof fn law_negated_numeral(whole: Seq<char>, frac: Seq<char>)
    requires
        whole.len() >= 1,
        all_digits(whole),
        all_digits(frac),
    ensures
        parse_text(seq!['-'] + whole + seq!['.'] + frac) == Ok::<NodeView, ParseErrorView>(
            NodeView::Negative(Box::new(NodeView::Number(numeral(whole, frac)))),
        ),
        frac.len() == 0 ==> parse_text(seq!['-'] + whole) == Ok::<NodeView, ParseErrorView>(
            NodeView::Negative(Box::new(NodeView::Number(numeral(whole, frac)))),
        ),
{
    let d = numeral(whole, frac);
    let tail = seq![TokenView::Num(d), TokenView::EOF];
    let tokens = seq![TokenView::Subtract, TokenView::Num(d), TokenView::EOF];
    assert(tokens.drop_first() =~= tail);
    lemma_leaf(d, OperPrec::Negative);
    assert(expr(tokens, OperPrec::DefaultZero).result == Ok::<NodeView, ParseErrorView>(
        NodeView::Negative(Box::new(NodeView::Number(d))),
    ));

    let s = seq!['-'] + whole + seq!['.'] + frac;
    assert(s.skip(1) =~= whole + seq!['.'] + frac);
    lemma_numeral_stream(s, 1, true, whole, frac);
    assert(tokens_of(s) =~= tokens);
    if frac.len() == 0 {
        let t = seq!['-'] + whole;
        assert(t.skip(1) =~= whole);
        lemma_numeral_stream(t, 1, true, whole, frac);
    }
}

/// The number that a numeral denotes: its numerator is the digits before
/// the point, shifted by as many places as digits stand behind the point,
/// plus the digits behind the point.
pub proof fn law_numeral_value(whole: Seq<u8>, frac: Seq<u8>)
    ensures
        digits_value(whole + frac) == digits_value(whole) * pow10(frac.len()) + digits_value(
            frac,
        ),
    decreases frac.len(),
{
    let a = digits_value(whole);
    if frac.len() == 0 {
        assert(a * 1 == a) by (nonlinear_arith);
    } else {
        let init = frac.drop_last();
        let last = frac.last() as nat;
        let b = digits_value(init);
        let p = pow10(init.len());
        assert((whole + frac).drop_last() =~= whole + init);
        law_numeral_value(whole, init);
        assert((a * p + b) * 10 + last == a * (10 * p) + (b * 10 + last)) by (nonlinear_arith);
    }
}

/// Parsing is a function of the text: the same text gives the same tree, or
/// the same error, however often it is parsed.
pub proof fn law_same_text_same_tree(a: Seq<char>, b: Seq<char>)
    requires
        a =~= b,
    ensures
        parse_text(a) == parse_text(b),
{
}

/// A text with a character outside the recognized set is never parsed to
/// its end: where parsing succeeds, it has stopped at a token before that
/// character, and that token is not the end marker.
pub proof fn law_unrecognized_never_reaches_end(s: Seq<char>, j: int)
    requires
        0 <= j < s.len(),
        !recognized(s[j]),
    ensures
        parse_text(s) is Ok ==> final_lookahead(s) != TokenView::EOF,
{
    let tokens = tokens_of(s);
    if tokens.len() > 0 {
        lemma_unrecognized_ends_stream(s, 0, false, j);
        lemma_expr_progress(tokens, OperPrec::DefaultZero);
    }
}

/// A text with a character outside the recognized set fails to parse,
/// unless parsing stops at a token before that character.
pub proof fn law_unrecognized_character_fails(s: Seq<char>, j: int)
    requires
        0 <= j < s.len(),
        !recognized(s[j]),
        !(parse_text(s) is Ok && final_lookahead(s) != TokenView::EOF),
    ensures
        parse_text(s) is Err,
{
    law_unrecognized_never_reaches_end(s, j);
}

/// The tokens that parsing the text `s` has read when it ends.
pub open spec fn tokens_read(s: Seq<char>) -> Seq<TokenView> {
    consumed(tokens_of(s), expr(tokens_of(s), OperPrec::DefaultZero).rest)
}

/// No numeral is lost, doubled or moved: the leaves of the tree, from left
/// to right, are the numerals of the tokens that were read, in their order.
pub proof fn law_leaves_are_the_numerals_read(s: Seq<char>)
    ensures
        parse_text(s) matches Ok(tree) ==> tree.leaves() == numerals(tokens_read(s)),
{
    if tokens_of(s).len() > 0 {
        lemma_expr_leaves(tokens_of(s), OperPrec::DefaultZero);
    }
}

/// Every numeral in a tree that parsing returns is well formed: it has a
/// digit before the point, and each of its digits is below ten.
pub proof fn law_tree_is_well_formed(s: Seq<char>)
    ensures
        parse_text(s) matches Ok(tree) ==> tree.wf(),
{
    let tokens = tokens_of(s);
    if tokens.len() > 0 && parse_text(s) is Ok {
        let tree = parse_text(s)->Ok_0;
        let read = tokens_read(s);
        lemma_tokens_wf(s, 0, false);
        lemma_expr_progress(tokens, OperPrec::DefaultZero);
        lemma_expr_leaves(tokens, OperPrec::DefaultZero);
        assert forall|k: int| 0 <= k < read.len() implies (#[trigger] read[k]).wf() by {
            assert(read[k] == tokens[k]);
        }
        lemma_numerals_wf(read);
        lemma_wf_by_leaves(tree);
    }
}

} // verus!
