//! What the characters of an expression mean: the token stream of a text.

use crate::decimal::DecimalView;
use crate::token::TokenView;
use vstd::prelude::*;

verus! {

/// Blanks between tokens: space, tab, line feed, carriage return.
pub open spec fn is_space(c: char) -> bool {
    c == ' ' || c == '\t' || c == '\n' || c == '\r'
}

/// The ten ASCII digits.
pub open spec fn is_digit(c: char) -> bool {
    '0' <= c <= '9'
}

/// The value of an ASCII digit.
pub open spec fn digit_of(c: char) -> u8 {
    (c as u32 - '0' as u32) as u8
}

/// The token that a single operator or parenthesis character stands for.
pub open spec fn symbol(c: char) -> Option<TokenView> {
    if c == '+' {
        Some(TokenView::Add)
    } else if c == '-' {
        Some(TokenView::Subtract)
    } else if c == '*' {
        Some(TokenView::Multiply)
    } else if c == '/' {
        Some(TokenView::Divide)
    } else if c == '^' {
        Some(TokenView::Caret)
    } else if c == '(' {
        Some(TokenView::LeftParen)
    } else if c == ')' {
        Some(TokenView::RightParen)
    } else {
        None
    }
}

/// The characters that an expression may be written with.
pub open spec fn recognized(c: char) -> bool {
    is_space(c) || is_digit(c) || c == '.' || symbol(c) is Some
}

/// The first index from `i` on that holds no digit; the length where only digits follow.
pub open spec fn skip_digits(s: Seq<char>, i: int) -> int
    decreases s.len() - i,
{
    if 0 <= i < s.len() && is_digit(s[i]) {
        skip_digits(s, i + 1)
    } else {
        i
    }
}

/// The values of a run of digit characters.
pub open spec fn digit_values(cs: Seq<char>) -> Seq<u8> {
    cs.map_values(|c: char| digit_of(c))
}

/// The numeral that begins at `i`, and the index behind it: a run of digits
/// and, where a point follows the run, the point and the digits behind it.
pub open spec fn numeral_at(s: Seq<char>, i: int) -> (DecimalView, int) {
    let whole_end = skip_digits(s, i);
    if whole_end < s.len() && s[whole_end] == '.' {
        let end = skip_digits(s, whole_end + 1);
        (
            DecimalView {
                digits: digit_values(s.subrange(i, whole_end) + s.subrange(whole_end + 1, end)),
                scale: (end - whole_end - 1) as nat,
            },
            end,
        )
    } else {
        (DecimalView { digits: digit_values(s.subrange(i, whole_end)), scale: 0 }, whole_end)
    }
}

/// The token that begins exactly at `i`, and the index behind it. There is
/// none at the end of the text, nor at a character that begins no token.
pub open spec fn token_at(s: Seq<char>, i: int) -> Option<(TokenView, int)> {
    if !(0 <= i < s.len()) {
        None
    } else if is_digit(s[i]) {
        Some((TokenView::Num(numeral_at(s, i).0), numeral_at(s, i).1))
    } else {
        match symbol(s[i]) {
            Some(t) => Some((t, i + 1)),
            None => None,
        }
    }
}

/// The index behind the token that begins at `i`; `i` itself where none begins there.
pub open spec fn token_end(s: Seq<char>, i: int) -> int {
    match token_at(s, i) {
        Some((_, end)) => end,
        None => i,
    }
}

/// The tokens that are read from index `i` on. Blanks are passed over. The
/// stream stops at a character that begins no token. Where the text ends
/// instead, the end marker closes the stream, if a token came before
/// (`started`): a text without any token gives no token at all.
pub open spec fn tokens_from(s: Seq<char>, i: int, started: bool) -> Seq<TokenView>
    decreases s.len() - i,
{
    if !(0 <= i < s.len()) {
        if started {
            seq![TokenView::EOF]
        } else {
            Seq::empty()
        }
    } else if is_space(s[i]) {
        tokens_from(s, i + 1, started)
    } else {
        match token_at(s, i) {
            Some((t, end)) => {
                proof {
                    lemma_skip_digits_bounds(s, i);
                    lemma_skip_digits_bounds(s, skip_digits(s, i) + 1);
                }
                seq![t] + tokens_from(s, end, true)
            },
            None => Seq::empty(),
        }
    }
}

/// The token stream of a whole text.
pub open spec fn tokens_of(s: Seq<char>) -> Seq<TokenView> {
    tokens_from(s, 0, false)
}

/// A run of digits ends at or behind its start, within the text, and behind
/// its start where a digit stands there.
pub proof fn lemma_skip_digits_bounds(s: Seq<char>, i: int)
    ensures
        i <= skip_digits(s, i),
        0 <= i <= s.len() ==> skip_digits(s, i) <= s.len(),
        0 <= i < s.len() && is_digit(s[i]) ==> i < skip_digits(s, i),
    decreases s.len() - i,
{
    if 0 <= i < s.len() && is_digit(s[i]) {
        lemma_skip_digits_bounds(s, i + 1);
    }
}

/// Every character of a run of digits is a digit, and no digit stands behind the run.
pub proof fn lemma_skip_digits_run(s: Seq<char>, i: int)
    requires
        0 <= i <= s.len(),
    ensures
        forall|k: int| i <= k < skip_digits(s, i) ==> is_digit(#[trigger] s[k]),
        skip_digits(s, i) < s.len() ==> !is_digit(s[skip_digits(s, i)]),
    decreases s.len() - i,
{
    lemma_skip_digits_bounds(s, i);
    if i < s.len() && is_digit(s[i]) {
        lemma_skip_digits_run(s, i + 1);
    }
}

/// A run of digits that is closed by the end of the text, or by a character
/// that is no digit, is read as a whole.
pub proof fn lemma_skip_digits_to(s: Seq<char>, i: int, j: int)
    requires
        0 <= i <= j <= s.len(),
        forall|k: int| i <= k < j ==> is_digit(#[trigger] s[k]),
        j < s.len() ==> !is_digit(s[j]),
    ensures
        skip_digits(s, i) == j,
    decreases j - i,
{
    if i < j {
        lemma_skip_digits_to(s, i + 1, j);
    }
}

/// The numeral that begins at a digit is well formed, ends behind its start
/// within the text, and is written with recognized characters alone.
pub proof fn lemma_numeral_at(s: Seq<char>, i: int)
    requires
        0 <= i < s.len(),
        is_digit(s[i]),
    ensures
        numeral_at(s, i).0.wf(),
        i < numeral_at(s, i).1 <= s.len(),
        forall|k: int| i <= k < numeral_at(s, i).1 ==> recognized(#[trigger] s[k]),
{
    let whole_end = skip_digits(s, i);
    lemma_skip_digits_bounds(s, i);
    lemma_skip_digits_run(s, i);
    if whole_end < s.len() && s[whole_end] == '.' {
        lemma_skip_digits_bounds(s, whole_end + 1);
        lemma_skip_digits_run(s, whole_end + 1);
    }
}

/// Every number token of a stream holds a well-formed numeral.
pub proof fn lemma_tokens_wf(s: Seq<char>, i: int, started: bool)
    ensures
        forall|k: int|
            0 <= k < tokens_from(s, i, started).len() ==> (#[trigger] tokens_from(
                s,
                i,
                started,
            )[k]).wf(),
    decreases s.len() - i,
{
    let tokens = tokens_from(s, i, started);
    if 0 <= i < s.len() {
        if is_space(s[i]) {
            lemma_tokens_wf(s, i + 1, started);
            assert(tokens == tokens_from(s, i + 1, started));
        } else if token_at(s, i) is Some {
            let end = token_end(s, i);
            if is_digit(s[i]) {
                lemma_numeral_at(s, i);
            }
            lemma_tokens_wf(s, end, true);
            let rest = tokens_from(s, end, true);
            assert forall|k: int| 0 <= k < tokens.len() implies (#[trigger] tokens[k]).wf() by {
                if k > 0 {
                    assert(tokens[k] == rest[k - 1]);
                }
            }
        }
    } else {
        assert forall|k: int| 0 <= k < tokens.len() implies (#[trigger] tokens[k]).wf() by {
            assert(tokens[k] == TokenView::EOF);
        }
    }
}

/// The end marker stands at the end of a stream and nowhere else.
pub proof fn law_end_marker_is_last(s: Seq<char>, i: int, started: bool)
    ensures
        forall|k: int|
            0 <= k < tokens_from(s, i, started).len() && #[trigger] tokens_from(s, i, started)[k]
                == TokenView::EOF ==> k == tokens_from(s, i, started).len() - 1,
    decreases s.len() - i,
{
    if 0 <= i < s.len() {
        if is_space(s[i]) {
            law_end_marker_is_last(s, i + 1, started);
        } else if token_at(s, i) is Some {
            let end = token_end(s, i);
            if is_digit(s[i]) {
                lemma_numeral_at(s, i);
            }
            law_end_marker_is_last(s, end, true);
        }
    }
}

/// A stream that is read across a character outside the recognized set
/// holds no end marker: it stops at that character at the latest.
pub proof fn lemma_unrecognized_ends_stream(s: Seq<char>, i: int, started: bool, j: int)
    requires
        0 <= i <= j < s.len(),
        !recognized(s[j]),
    ensures
        forall|k: int|
            0 <= k < tokens_from(s, i, started).len() ==> #[trigger] tokens_from(s, i, started)[k]
                != TokenView::EOF,
    decreases s.len() - i,
{
    if is_space(s[i]) {
        lemma_unrecognized_ends_stream(s, i + 1, started, j);
    } else if token_at(s, i) is Some {
        let end = token_end(s, i);
        if is_digit(s[i]) {
            lemma_numeral_at(s, i);
        }
        lemma_unrecognized_ends_stream(s, end, true, j);
    }
}

} // verus!
