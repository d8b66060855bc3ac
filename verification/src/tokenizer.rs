//! Cutting the text of an expression into tokens, one at a time.

use crate::decimal::Decimal;
use crate::lexical::{
    digit_of, digit_values, is_digit, is_space, lemma_skip_digits_bounds, numeral_at, skip_digits,
    symbol, tokens_from, tokens_of,
};
use crate::token::{Token, TokenView};
use vstd::prelude::*;

verus! {

/// Reads tokens from the text of an expression, from left to right,
/// without lookahead beyond the current character and without going back.
pub struct Tokenizer {
    chars: Vec<char>,
    pos: usize,
    started: bool,
    done: bool,
}

impl View for Tokenizer {
    type V = Seq<TokenView>;

    /// The tokens that are still to come, in order.
    closed spec fn view(&self) -> Seq<TokenView> {
        if self.done {
            Seq::empty()
        } else {
            tokens_from(self.chars@, self.pos as int, self.started)
        }
    }
}

fn space_char(c: char) -> (b: bool)
    ensures
        b == is_space(c),
{
    c == ' ' || c == '\t' || c == '\n' || c == '\r'
}

fn digit_char(c: char) -> (b: bool)
    ensures
        b == is_digit(c),
{
    '0' <= c && c <= '9'
}

fn digit_value(c: char) -> (d: u8)
    requires
        is_digit(c),
    ensures
        d == digit_of(c),
        d <= 9,
{
    let d: u32 = c as u32 - '0' as u32;
    d as u8
}

fn symbol_token(c: char) -> (t: Option<Token>)
    ensures
        match t {
            Some(t) => symbol(c) == Some(t@),
            None => symbol(c) is None,
        },
{
    if c == '+' {
        Some(Token::Add)
    } else if c == '-' {
        Some(Token::Subtract)
    } else if c == '*' {
        Some(Token::Multiply)
    } else if c == '/' {
        Some(Token::Divide)
    } else if c == '^' {
        Some(Token::Caret)
    } else if c == '(' {
        Some(Token::LeftParen)
    } else if c == ')' {
        Some(Token::RightParen)
    } else {
        None
    }
}

/// Appends the values of the digits that stand from `start` on to `digits`,
/// and returns the index behind the run.
fn read_digits(chars: &Vec<char>, start: usize, digits: &mut Vec<u8>) -> (end: usize)
    requires
        start <= chars.len(),
    ensures
        end == skip_digits(chars@, start as int),
        start <= end <= chars.len(),
        final(digits)@ == old(digits)@ + digit_values(chars@.subrange(start as int, end as int)),
{
    let mut end = start;
    while end < chars.len() && digit_char(chars[end])
        invariant
            start <= end <= chars.len(),
            skip_digits(chars@, end as int) == skip_digits(chars@, start as int),
            digits@ == old(digits)@ + digit_values(chars@.subrange(start as int, end as int)),
        decreases chars.len() - end,
    {
        digits.push(digit_value(chars[end]));
        assert(chars@.subrange(start as int, end + 1) =~= chars@.subrange(
            start as int,
            end as int,
        ).push(chars@[end as int]));
        end += 1;
    }
    end
}

/// Reads the numeral that begins at `start`, and returns it with the index behind it.
fn read_numeral(chars: &Vec<char>, start: usize) -> (r: (Decimal, usize))
    requires
        start < chars.len(),
        is_digit(chars@[start as int]),
    ensures
        r.0@ == numeral_at(chars@, start as int).0,
        r.1 == numeral_at(chars@, start as int).1,
        start < r.1 <= chars.len(),
{
    let mut digits: Vec<u8> = Vec::new();
    let whole_end = read_digits(chars, start, &mut digits);
    proof {
        lemma_skip_digits_bounds(chars@, start as int);
    }
    if whole_end < chars.len() && chars[whole_end] == '.' {
        let end = read_digits(chars, whole_end + 1, &mut digits);
        assert(digits@ =~= digit_values(
            chars@.subrange(start as int, whole_end as int) + chars@.subrange(
                whole_end + 1,
                end as int,
            ),
        ));
        (Decimal { digits, scale: end - whole_end - 1 }, end)
    } else {
        (Decimal { digits, scale: 0 }, whole_end)
    }
}

impl Tokenizer {
    /// A tokenizer at the start of `expr`.
    pub fn new(expr: &str) -> (t: Tokenizer)
        ensures
            t@ == tokens_of(expr@),
    {
        let mut chars: Vec<char> = Vec::new();
        for c in it: expr.chars()
            invariant
                chars@ == it.seq().take(it.index() as int),
                it.seq() == expr@,
        {
            chars.push(c);
        }
        assert(chars@ =~= expr@);
        Tokenizer { chars, pos: 0, started: false, done: false }
    }

    /// The next token, or `None` when the stream has ended: behind the end
    /// marker, at a character that begins no token, or at the end of a text
    /// that held no token. Once it has returned `None` it does so again.
    pub fn next(&mut self) -> (r: Option<Token>)
        ensures
            match r {
                Some(t) => old(self)@.len() > 0 && t@ == old(self)@[0] && final(self)@ == old(
                    self,
                )@.drop_first(),
                None => old(self)@.len() == 0 && final(self)@.len() == 0,
            },
    {
        if self.done {
            return None;
        }
        while self.pos < self.chars.len() && space_char(self.chars[self.pos])
            invariant
                !self.done,
                self.chars == old(self).chars,
                self.started == old(self).started,
                self@ == old(self)@,
            decreases self.chars.len() - self.pos,
        {
            self.pos += 1;
        }
        if self.pos >= self.chars.len() {
            if self.started {
                self.done = true;
                return Some(Token::EOF);
            } else {
                return None;
            }
        }
        let c = self.chars[self.pos];
        if digit_char(c) {
            let (number, end) = read_numeral(&self.chars, self.pos);
            self.pos = end;
            self.started = true;
            Some(Token::Num(number))
        } else {
            match symbol_token(c) {
                Some(t) => {
                    self.pos += 1;
                    self.started = true;
                    Some(t)
                },
                None => None,
            }
        }
    }
}

} // verus!
