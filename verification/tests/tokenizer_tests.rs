use parsemath::decimal::Decimal;
use parsemath::error::ParseError;
use parsemath::token::{OperPrec, Token};
use parsemath::tokenizer::Tokenizer;

fn all_tokens(text: &str) -> Vec<Token> {
    let mut tokenizer = Tokenizer::new(text);
    let mut tokens = Vec::new();
    while let Some(token) = tokenizer.next() {
        tokens.push(token);
    }
    assert_eq!(tokenizer.next(), None);
    tokens
}

fn number(digits: Vec<u8>, scale: usize) -> Token {
    Token::Num(Decimal { digits, scale })
}

#[test]
fn tokens_of_a_sum() {
    assert_eq!(
        all_tokens("1+2"),
        vec![number(vec![1], 0), Token::Add, number(vec![2], 0), Token::EOF]
    );
}

#[test]
fn every_symbol_is_recognized() {
    assert_eq!(
        all_tokens("+-*/^()"),
        vec![
            Token::Add,
            Token::Subtract,
            Token::Multiply,
            Token::Divide,
            Token::Caret,
            Token::LeftParen,
            Token::RightParen,
            Token::EOF
        ]
    );
}

#[test]
fn numerals_with_and_without_point() {
    assert_eq!(
        all_tokens("3.14 42 0.5 9."),
        vec![
            number(vec![3, 1, 4], 2),
            number(vec![4, 2], 0),
            number(vec![0, 5], 1),
            number(vec![9], 0),
            Token::EOF
        ]
    );
}

#[test]
fn text_without_a_token_gives_no_token() {
    assert_eq!(all_tokens(""), vec![]);
    assert_eq!(all_tokens(" \n\t\r"), vec![]);
    assert_eq!(all_tokens("?"), vec![]);
}

#[test]
fn stream_stops_at_an_unrecognized_character() {
    assert_eq!(all_tokens("1 + a + 2"), vec![number(vec![1], 0), Token::Add]);
    assert_eq!(all_tokens("1.2.3"), vec![number(vec![1, 2], 1)]);
    assert_eq!(all_tokens("2 \u{00e9}"), vec![number(vec![2], 0)]);
}

#[test]
fn end_marker_comes_once() {
    let mut tokenizer = Tokenizer::new("7 ");
    assert_eq!(tokenizer.next(), Some(number(vec![7], 0)));
    assert_eq!(tokenizer.next(), Some(Token::EOF));
    assert_eq!(tokenizer.next(), None);
    assert_eq!(tokenizer.next(), None);
}

#[test]
fn precedence_of_each_token() {
    assert_eq!(Token::Add.get_oper_prec(), OperPrec::AddSub);
    assert_eq!(Token::Subtract.get_oper_prec(), OperPrec::AddSub);
    assert_eq!(Token::Multiply.get_oper_prec(), OperPrec::MulDiv);
    assert_eq!(Token::Divide.get_oper_prec(), OperPrec::MulDiv);
    assert_eq!(Token::Caret.get_oper_prec(), OperPrec::Power);
    assert_eq!(Token::LeftParen.get_oper_prec(), OperPrec::DefaultZero);
    assert_eq!(Token::RightParen.get_oper_prec(), OperPrec::DefaultZero);
    assert_eq!(Token::EOF.get_oper_prec(), OperPrec::DefaultZero);
    assert_eq!(number(vec![1], 0).get_oper_prec(), OperPrec::DefaultZero);
}

#[test]
fn precedences_are_ordered_from_loosest_to_tightest() {
    assert!(OperPrec::DefaultZero < OperPrec::AddSub);
    assert!(OperPrec::AddSub < OperPrec::MulDiv);
    assert!(OperPrec::MulDiv < OperPrec::Power);
    assert!(OperPrec::Power < OperPrec::Negative);
    assert!(!(OperPrec::Power < OperPrec::Power));
    assert!(OperPrec::Negative > OperPrec::DefaultZero);
    assert!(OperPrec::MulDiv <= OperPrec::MulDiv);
    assert_eq!(OperPrec::DefaultZero.rank(), 0);
    assert_eq!(OperPrec::AddSub.rank(), 1);
    assert_eq!(OperPrec::MulDiv.rank(), 2);
    assert_eq!(OperPrec::Power.rank(), 3);
    assert_eq!(OperPrec::Negative.rank(), 4);
}

#[test]
fn names_of_tokens() {
    assert_eq!(Token::Add.describe(), "Add");
    assert_eq!(Token::Subtract.describe(), "Subtract");
    assert_eq!(Token::Multiply.describe(), "Multiply");
    assert_eq!(Token::Divide.describe(), "Divide");
    assert_eq!(Token::Caret.describe(), "Caret");
    assert_eq!(Token::LeftParen.describe(), "LeftParen");
    assert_eq!(Token::RightParen.describe(), "RightParen");
    assert_eq!(Token::EOF.describe(), "EOF");
    assert_eq!(number(vec![1, 2, 5], 1).describe(), "Num(12.5)");
}

#[test]
fn sameness_of_tokens() {
    assert!(Token::Add.same_as(&Token::Add));
    assert!(!Token::Add.same_as(&Token::Subtract));
    assert!(number(vec![1, 2], 1).same_as(&number(vec![1, 2], 1)));
    assert!(!number(vec![1, 2], 1).same_as(&number(vec![1, 2], 0)));
    assert!(!number(vec![1, 2], 1).same_as(&number(vec![1, 3], 1)));
    assert!(!number(vec![1, 2], 1).same_as(&number(vec![1, 2, 0], 1)));
    assert!(!number(vec![1], 0).same_as(&Token::EOF));
    assert_eq!(number(vec![4], 0).clone(), number(vec![4], 0));
}

#[test]
fn numeral_written_out() {
    assert_eq!(Decimal { digits: vec![1, 2, 5], scale: 1 }.to_text(), "12.5");
    assert_eq!(Decimal { digits: vec![1, 2, 5], scale: 0 }.to_text(), "125");
    assert_eq!(Decimal { digits: vec![0, 0, 7], scale: 2 }.to_text(), "0.07");
    assert_eq!(Decimal { digits: vec![5], scale: 1 }.to_text(), ".5");
    assert_eq!(Decimal { digits: vec![5], scale: 2 }.to_text(), "5");
    assert_eq!(Decimal { digits: vec![1, 12], scale: 0 }.to_text(), "1?");
    assert_eq!(Decimal { digits: vec![], scale: 0 }.to_text(), "");
}

#[test]
fn errors_with_their_messages() {
    assert_eq!(
        ParseError::invalid_character(),
        ParseError::InvalidOperator("Invalid character".to_string())
    );
    assert_eq!(
        ParseError::unable_to_parse(),
        ParseError::UnableToParse("Unable to parse".to_string())
    );
    assert_eq!(
        ParseError::expected(&Token::RightParen, &Token::Add),
        ParseError::InvalidOperator("Expected RightParen, got Add".to_string())
    );
    assert_eq!(
        ParseError::not_an_operator(&Token::LeftParen),
        ParseError::InvalidOperator("Please enter valid operator LeftParen".to_string())
    );
}
