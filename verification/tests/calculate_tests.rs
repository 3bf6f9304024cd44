use calc::ast::Node;
use calc::calculate;
use calc::error::CalcError;
use calc::number::{Number, MAX_MANTISSA, MAX_SCALE};

fn num(mantissa: i128, scale: u32) -> Number {
    Number::from_parts(mantissa, scale).unwrap()
}

#[test]
fn ast_test_all() {
    let add: Node = Node::Add(
        Box::new(Node::Number(num(12, 0))),
        Box::new(Node::Number(num(1, 0))),
    );
    assert_eq!(add.eval(), Ok(num(13, 0)));

    let mul: Node = Node::Mul(
        Box::new(Node::Number(num(12, 0))),
        Box::new(Node::Number(num(3, 0))),
    );
    assert_eq!(mul.eval(), Ok(num(36, 0)));
}

#[test]
fn precedence_mixes_levels() {
    assert_eq!(calculate("1 + 2 * 3 - 4"), Ok(num(3, 0)));
}

#[test]
fn additive_operators_fold_left() {
    assert_eq!(calculate("1 - 2 - 3"), Ok(num(-4, 0)));
}

#[test]
fn parenthesis_overrides_precedence() {
    assert_eq!(calculate("(1 + 2) * 3"), Ok(num(9, 0)));
}

#[test]
fn unary_minus_binds_tighter_than_mul() {
    assert_eq!(calculate("-2 * 3"), Ok(num(-6, 0)));
}

#[test]
fn unary_minus_binds_tighter_than_pow() {
    assert_eq!(calculate("-2 ^ 2"), Ok(num(4, 0)));
}

#[test]
fn pow_chain_folds_left() {
    assert_eq!(calculate("2 ^ 3 ^ 2"), Ok(num(64, 0)));
}

#[test]
fn whitespace_is_insignificant() {
    assert_eq!(calculate(" 1 +  2 "), Ok(num(3, 0)));
    assert_eq!(calculate("1+2"), Ok(num(3, 0)));
}

#[test]
fn decimal_arithmetic_is_exact() {
    assert_eq!(calculate("0.1 + 0.2"), Ok(num(3, 1)));
}

#[test]
fn division_keeps_decimals() {
    assert_eq!(calculate("(1 + 2 ^ 5) / 4"), Ok(num(825, 2)));
}

#[test]
fn malformed_numeral_is_a_lexical_error() {
    assert_eq!(calculate("1 + 2.3.4"), Err(CalcError::UnexpectedChar('.')));
}

#[test]
fn unexpected_character_is_reported() {
    assert_eq!(calculate("1 $ 2"), Err(CalcError::UnexpectedChar('$')));
}

#[test]
fn division_by_zero_is_an_error() {
    assert_eq!(calculate("1 / 0"), Err(CalcError::DivisionByZero));
    assert_eq!(calculate("1 / (2 - 2)"), Err(CalcError::DivisionByZero));
}

#[test]
fn overflow_is_an_error() {
    assert_eq!(
        calculate("79228162514264337593543950335 + 1"),
        Err(CalcError::NumericOverflow)
    );
}

#[test]
fn empty_expression_is_incomplete() {
    assert_eq!(
        calculate(""),
        Err(CalcError::InvalidOperator(String::from(
            "incomplete expression"
        )))
    );
}

#[test]
fn tokens_after_a_complete_expression_are_ignored() {
    assert_eq!(calculate("1 2"), Ok(num(1, 0)));
}

#[test]
fn number_parts_are_checked() {
    assert!(Number::from_parts(MAX_MANTISSA, MAX_SCALE).is_some());
    assert!(Number::from_parts(MAX_MANTISSA + 1, 0).is_none());
    assert!(Number::from_parts(-MAX_MANTISSA - 1, 0).is_none());
    assert!(Number::from_parts(0, MAX_SCALE + 1).is_none());
    assert_eq!(num(5, 0).neg(), num(-5, 0));
    assert!(num(0, 2).is_zero());
    assert!(!num(3, 1).is_zero());
}
