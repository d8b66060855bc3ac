use parsemath::ast::Node;
use parsemath::decimal::Decimal;
use parsemath::error::ParseError;
use parsemath::parser::Parser;

fn num(n: u8) -> Node {
    Node::Number(Decimal { digits: vec![n], scale: 0 })
}

fn dec(digits: Vec<u8>, scale: usize) -> Node {
    Node::Number(Decimal { digits, scale })
}

fn bx(n: Node) -> Box<Node> {
    Box::new(n)
}

fn parse(text: &str) -> Result<Node, ParseError> {
    let mut parser = Parser::new(text)?;
    parser.parse()
}

fn invalid(message: &str) -> Result<Node, ParseError> {
    Err(ParseError::InvalidOperator(message.to_string()))
}

fn unable() -> Result<Node, ParseError> {
    Err(ParseError::UnableToParse("Unable to parse".to_string()))
}

#[test]
fn addition_keeps_both_operands() {
    assert_eq!(parse("1+2"), Ok(Node::Add(bx(num(1)), bx(num(2)))));
}

#[test]
fn multiplication_binds_tighter_on_the_left() {
    assert_eq!(
        parse("2*3+4"),
        Ok(Node::Add(bx(Node::Multiply(bx(num(2)), bx(num(3)))), bx(num(4))))
    );
}

#[test]
fn multiplication_binds_tighter_on_the_right() {
    assert_eq!(
        parse("2+3*4"),
        Ok(Node::Add(bx(num(2)), bx(Node::Multiply(bx(num(3)), bx(num(4))))))
    );
}

#[test]
fn power_groups_to_the_right() {
    assert_eq!(
        parse("2^3^2"),
        Ok(Node::Caret(bx(num(2)), bx(Node::Caret(bx(num(3)), bx(num(2))))))
    );
}

#[test]
fn minus_before_parentheses_negates_the_sum() {
    assert_eq!(
        parse("-(2+3)"),
        Ok(Node::Negative(bx(Node::Add(bx(num(2)), bx(num(3))))))
    );
}

#[test]
fn adjacent_parentheses_multiply() {
    assert_eq!(parse("(2)(3)"), Ok(Node::Multiply(bx(num(2)), bx(num(3)))));
}

#[test]
fn three_adjacent_parentheses_multiply_to_the_right() {
    assert_eq!(
        parse("(2)(3)(4)"),
        Ok(Node::Multiply(bx(num(2)), bx(Node::Multiply(bx(num(3)), bx(num(4))))))
    );
}

#[test]
fn missing_closing_parenthesis_is_an_invalid_operator() {
    assert_eq!(parse("(1+2"), invalid("Expected RightParen, got EOF"));
}

#[test]
fn number_in_place_of_closing_parenthesis_is_named() {
    assert_eq!(parse("(1 2.50)"), invalid("Expected RightParen, got Num(2.50)"));
}

#[test]
fn operator_without_left_operand_is_unable_to_parse() {
    assert_eq!(parse("*5"), unable());
}

#[test]
fn plus_sign_before_a_number_is_unable_to_parse() {
    assert_eq!(parse("+5"), unable());
}

#[test]
fn closing_parenthesis_alone_is_unable_to_parse() {
    assert_eq!(parse(")"), unable());
}

#[test]
fn empty_parentheses_are_unable_to_parse() {
    assert_eq!(parse("()"), unable());
}

#[test]
fn operator_without_right_operand_is_unable_to_parse() {
    assert_eq!(parse("1+"), unable());
}

#[test]
fn whole_numeral_is_a_single_leaf() {
    assert_eq!(parse("1205"), Ok(dec(vec![1, 2, 0, 5], 0)));
}

#[test]
fn pointed_numeral_is_a_single_leaf_with_its_scale() {
    assert_eq!(parse("12.50"), Ok(dec(vec![1, 2, 5, 0], 2)));
}

#[test]
fn numeral_with_nothing_behind_the_point_has_scale_zero() {
    assert_eq!(parse("7."), Ok(dec(vec![7], 0)));
}

#[test]
fn leading_zeros_are_kept() {
    assert_eq!(parse("007"), Ok(dec(vec![0, 0, 7], 0)));
}

#[test]
fn signed_numeral_is_a_negated_leaf() {
    assert_eq!(parse("-12.5"), Ok(Node::Negative(bx(dec(vec![1, 2, 5], 1)))));
}

#[test]
fn double_minus_nests_negations() {
    assert_eq!(parse("--3"), Ok(Node::Negative(bx(Node::Negative(bx(num(3)))))));
}

#[test]
fn minus_binds_tighter_than_power() {
    assert_eq!(
        parse("-2^2"),
        Ok(Node::Caret(bx(Node::Negative(bx(num(2)))), bx(num(2))))
    );
}

#[test]
fn negated_exponent() {
    assert_eq!(
        parse("2^-3"),
        Ok(Node::Caret(bx(num(2)), bx(Node::Negative(bx(num(3))))))
    );
}

#[test]
fn power_binds_tighter_than_multiplication() {
    assert_eq!(
        parse("2^3*4"),
        Ok(Node::Multiply(bx(Node::Caret(bx(num(2)), bx(num(3)))), bx(num(4))))
    );
    assert_eq!(
        parse("2*3^4"),
        Ok(Node::Multiply(bx(num(2)), bx(Node::Caret(bx(num(3)), bx(num(4))))))
    );
}

#[test]
fn subtraction_groups_to_the_left() {
    assert_eq!(
        parse("8-3-2"),
        Ok(Node::Subtract(bx(Node::Subtract(bx(num(8)), bx(num(3)))), bx(num(2))))
    );
}

#[test]
fn division_groups_to_the_left() {
    assert_eq!(
        parse("8/4/2"),
        Ok(Node::Divide(bx(Node::Divide(bx(num(8)), bx(num(4)))), bx(num(2))))
    );
}

#[test]
fn addition_and_subtraction_share_a_level() {
    assert_eq!(
        parse("1-2+3"),
        Ok(Node::Add(bx(Node::Subtract(bx(num(1)), bx(num(2)))), bx(num(3))))
    );
}

#[test]
fn parentheses_override_precedence() {
    assert_eq!(
        parse("(1+2)*3"),
        Ok(Node::Multiply(bx(Node::Add(bx(num(1)), bx(num(2)))), bx(num(3))))
    );
}

#[test]
fn nested_parentheses() {
    assert_eq!(parse("((4))"), Ok(num(4)));
}

#[test]
fn blanks_between_tokens_are_passed_over() {
    assert_eq!(parse(" 1 +\t2\r\n"), Ok(Node::Add(bx(num(1)), bx(num(2)))));
}

#[test]
fn empty_text_is_refused_at_construction() {
    assert_eq!(
        Parser::new("").err(),
        Some(ParseError::InvalidOperator("Invalid character".to_string()))
    );
}

#[test]
fn blank_text_is_refused_at_construction() {
    assert_eq!(
        Parser::new("  \t ").err(),
        Some(ParseError::InvalidOperator("Invalid character".to_string()))
    );
}

#[test]
fn unrecognized_text_is_refused_at_construction() {
    assert_eq!(
        Parser::new("abc").err(),
        Some(ParseError::InvalidOperator("Invalid character".to_string()))
    );
}

#[test]
fn unrecognized_character_behind_a_number_fails() {
    assert_eq!(parse("1 $"), invalid("Invalid character"));
    assert_eq!(parse("1+2x"), invalid("Invalid character"));
}

#[test]
fn unrecognized_character_behind_an_operator_fails() {
    assert_eq!(parse("1+#2"), invalid("Invalid character"));
}

#[test]
fn second_point_in_a_numeral_fails() {
    assert_eq!(parse("1.2.3"), invalid("Invalid character"));
}

#[test]
fn point_without_a_digit_before_it_fails() {
    assert_eq!(parse(".5"), invalid("Invalid character"));
}

#[test]
fn parsing_stops_before_a_token_that_cannot_continue() {
    assert_eq!(parse("1 2"), Ok(num(1)));
    assert_eq!(parse("1)"), Ok(num(1)));
    assert_eq!(parse("2(3)"), Ok(num(2)));
}

#[test]
fn unrecognized_character_behind_the_stop_is_not_seen() {
    assert_eq!(parse("1)$"), Ok(num(1)));
}

#[test]
fn parsing_twice_gives_the_same_tree() {
    let first = parse("-(2+3)*4^5/(6)(7)");
    let second = parse("-(2+3)*4^5/(6)(7)");
    assert!(first.is_ok());
    assert_eq!(first, second);
}

#[test]
fn parsing_twice_gives_the_same_error() {
    assert_eq!(parse("(1+2"), parse("(1+2"));
    assert!(parse("(1+2").is_err());
}

#[test]
fn second_parse_continues_behind_the_first() {
    let mut parser = Parser::new("1 2").unwrap();
    assert_eq!(parser.parse(), Ok(num(1)));
    assert_eq!(parser.parse(), Ok(num(2)));
    assert_eq!(parser.parse(), unable());
}

#[test]
fn cloned_tree_equals_its_source() {
    let tree = parse("1+2*3").unwrap();
    assert_eq!(tree.clone(), tree);
}

#[test]
fn error_message_is_handed_out() {
    let e = parse("(1+2").unwrap_err();
    assert_eq!(e.message().as_str(), "Expected RightParen, got EOF");
    assert_eq!(e.clone(), e);
    let e = parse("*").unwrap_err();
    assert_eq!(e.message().as_str(), "Unable to parse");
}

#[test]
fn lookahead_tells_where_parsing_stopped() {
    let mut parser = Parser::new("1+2").unwrap();
    assert_eq!(parser.current_token(), &parsemath::token::Token::Num(Decimal { digits: vec![1], scale: 0 }));
    assert!(parser.parse().is_ok());
    assert_eq!(parser.current_token(), &parsemath::token::Token::EOF);

    let mut parser = Parser::new("1)$").unwrap();
    assert!(parser.parse().is_ok());
    assert_eq!(parser.current_token(), &parsemath::token::Token::RightParen);
}

fn leaves(node: &Node, out: &mut Vec<Decimal>) {
    match node {
        Node::Add(l, r)
        | Node::Subtract(l, r)
        | Node::Multiply(l, r)
        | Node::Divide(l, r)
        | Node::Caret(l, r) => {
            leaves(l, out);
            leaves(r, out);
        }
        Node::Negative(c) => leaves(c, out),
        Node::Number(d) => out.push(d.clone()),
    }
}

fn value(d: &Decimal) -> f64 {
    let mut numerator: u64 = 0;
    for digit in &d.digits {
        numerator = numerator * 10 + u64::from(*digit);
    }
    let mut denominator: u64 = 1;
    for _ in 0..d.scale {
        denominator *= 10;
    }
    numerator as f64 / denominator as f64
}

#[test]
fn leaves_are_the_numerals_in_their_order() {
    let tree = parse("1+2*(3-4)^5/-6 (7)(8)").unwrap();
    let mut found = Vec::new();
    leaves(&tree, &mut found);
    let expected: Vec<Decimal> = (1u8..=6).map(|n| Decimal { digits: vec![n], scale: 0 }).collect();
    assert_eq!(found, expected);
}

#[test]
fn every_numeral_of_a_tree_is_well_formed() {
    let tree = parse("10.25*(0.5+3.)-007").unwrap();
    let mut found = Vec::new();
    leaves(&tree, &mut found);
    assert_eq!(found.len(), 4);
    for d in &found {
        assert!(d.scale < d.digits.len());
        assert!(d.digits.iter().all(|digit| *digit <= 9));
    }
}

#[test]
fn numeral_denotes_its_exact_value() {
    match parse("12.5").unwrap() {
        Node::Number(d) => assert_eq!(value(&d), 12.5),
        other => panic!("not a leaf: {:?}", other),
    }
    match parse("0.125").unwrap() {
        Node::Number(d) => {
            assert_eq!(d, Decimal { digits: vec![0, 1, 2, 5], scale: 3 });
            assert_eq!(value(&d), 0.125);
        }
        other => panic!("not a leaf: {:?}", other),
    }
    match parse("4096").unwrap() {
        Node::Number(d) => assert_eq!(value(&d), 4096.0),
        other => panic!("not a leaf: {:?}", other),
    }
}

#[test]
fn long_numeral_keeps_every_digit() {
    let text = "123456789012345678901234567890.123456789";
    match parse(text).unwrap() {
        Node::Number(d) => {
            assert_eq!(d.digits.len(), 39);
            assert_eq!(d.scale, 9);
            assert_eq!(d.to_text(), text);
        }
        other => panic!("not a leaf: {:?}", other),
    }
}
