use calc::ast::Node;
use calc::error::CalcError;
use calc::number::Number;
use calc::parser::Parser;
use calc::token::{OperatorPrecedence, Token};

fn num(mantissa: i128, scale: u32) -> Number {
    Number::from_parts(mantissa, scale).unwrap()
}

#[test]
fn test_parser() {
    let mut parser = Parser::new("1 + 2 * 3 -4").unwrap();
    assert_eq!(
        parser.parse().unwrap(),
        Node::Sub(
            Box::new(Node::Add(
                Box::new(Node::Number(num(1, 0))),
                Box::new(Node::Mul(
                    Box::new(Node::Number(num(2, 0))),
                    Box::new(Node::Number(num(3, 0)))
                )),
            )),
            Box::new(Node::Number(num(4, 0)))
        )
    );
}

#[test]
fn unary_minus_parses_tightest() {
    let mut parser = Parser::new("-2 ^ 2").unwrap();
    assert_eq!(
        parser.parse().unwrap(),
        Node::Power(
            Box::new(Node::Negative(Box::new(Node::Number(num(2, 0))))),
            Box::new(Node::Number(num(2, 0)))
        )
    );
}

#[test]
fn incomplete_parenthesis_is_a_syntax_error() {
    let mut parser = Parser::new("(1 + 2").unwrap();
    assert_eq!(
        parser.parse(),
        Err(CalcError::InvalidOperator(String::from(
            "incomplete expression"
        )))
    );
}

#[test]
fn wrong_closer_is_a_lexical_error() {
    let mut parser = Parser::new("(1 + 2]").unwrap();
    assert_eq!(parser.parse(), Err(CalcError::UnexpectedChar(']')));
}

#[test]
fn missing_right_parenthesis_names_the_token() {
    let mut parser = Parser::new("(1 + 2 3").unwrap();
    assert_eq!(
        parser.parse(),
        Err(CalcError::InvalidOperator(String::from(
            "expected right parenthesis, found 3"
        )))
    );
}

#[test]
fn missing_primary_names_the_token() {
    let mut parser = Parser::new("1 + * 2").unwrap();
    assert_eq!(
        parser.parse(),
        Err(CalcError::InvalidOperator(String::from(
            "expected a number or expression, found *"
        )))
    );
}

#[test]
fn empty_input_is_incomplete() {
    let mut parser = Parser::new("").unwrap();
    assert_eq!(
        parser.parse(),
        Err(CalcError::InvalidOperator(String::from(
            "incomplete expression"
        )))
    );
}

#[test]
fn first_bad_token_fails_construction() {
    assert!(matches!(Parser::new("@ 1 + 2"), Err(CalcError::UnexpectedChar('@'))));
}

#[test]
fn precedence_levels_are_ordered() {
    let levels = [
        OperatorPrecedence::Default,
        OperatorPrecedence::AddOrSub,
        OperatorPrecedence::MulOrDiv,
        OperatorPrecedence::Power,
        OperatorPrecedence::Negative,
    ];
    for w in levels.windows(2) {
        assert!(w[0].level() < w[1].level());
    }
    assert_eq!(Token::Add.get_precedence(), OperatorPrecedence::AddOrSub);
    assert_eq!(Token::Sub.get_precedence(), OperatorPrecedence::AddOrSub);
    assert_eq!(Token::Mul.get_precedence(), OperatorPrecedence::MulOrDiv);
    assert_eq!(Token::Div.get_precedence(), OperatorPrecedence::MulOrDiv);
    assert_eq!(Token::Caret.get_precedence(), OperatorPrecedence::Power);
    assert_eq!(Token::EOF.get_precedence(), OperatorPrecedence::Default);
    assert_eq!(
        Token::Number(num(1, 0)).get_precedence(),
        OperatorPrecedence::Default
    );
    assert_eq!(Token::LeftParen.get_precedence(), OperatorPrecedence::Default);
}
