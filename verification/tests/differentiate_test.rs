use symderiv::ast::{BinaryOp, Expr, UnaryOp};
use symderiv::differentiator::{differentiate, DiffError};
use symderiv::parser::Parser;
use symderiv::tokenizer::Tokenizer;

fn parse_text(text: &str) -> Expr {
    let mut tokenizer = Tokenizer::new(text);
    let tokens = tokenizer.tokenize().unwrap();
    Parser::new(tokens).parse().unwrap()
}

fn bin(op: BinaryOp, l: Expr, r: Expr) -> Expr {
    Expr::BinaryOp { op, left: Box::new(l), right: Box::new(r) }
}

#[test]
fn derivative_of_any_literal_is_zero() {
    for n in [0, 1, -1, 42, 2147483647, -2147483648] {
        assert_eq!(differentiate(&Expr::Number(n)), Ok(Expr::Number(0)));
    }
}

#[test]
fn derivative_of_variable_is_one() {
    assert_eq!(differentiate(&Expr::Variable('x')), Ok(Expr::Number(1)));
}

#[test]
fn derivative_of_constant_symbol_is_zero() {
    for c in ['a', 'b', 'Q'] {
        assert_eq!(differentiate(&Expr::Constant(c)), Ok(Expr::Number(0)));
    }
}

#[test]
fn derivative_of_negation_is_negated_derivative() {
    let e = parse_text("-x");
    assert_eq!(
        differentiate(&e),
        Ok(Expr::UnaryOp { op: UnaryOp::Neg, expr: Box::new(Expr::Number(1)) })
    );
}

#[test]
fn sum_rule() {
    let e = parse_text("x+7");
    assert_eq!(
        differentiate(&e),
        Ok(bin(BinaryOp::Add, Expr::Number(1), Expr::Number(0)))
    );
}

#[test]
fn product_rule_duplicates_operands() {
    let e = parse_text("2*x");
    assert_eq!(
        differentiate(&e),
        Ok(bin(
            BinaryOp::Add,
            bin(BinaryOp::Mul, Expr::Number(0), Expr::Variable('x')),
            bin(BinaryOp::Mul, Expr::Number(2), Expr::Number(1)),
        ))
    );
}

#[test]
fn quotient_rule_squares_the_denominator() {
    let e = parse_text("x/a");
    let expected = bin(
        BinaryOp::Div,
        bin(
            BinaryOp::Sub,
            bin(BinaryOp::Mul, Expr::Number(1), Expr::Constant('a')),
            bin(BinaryOp::Mul, Expr::Variable('x'), Expr::Number(0)),
        ),
        bin(BinaryOp::Pow, Expr::Constant('a'), Expr::Number(2)),
    );
    assert_eq!(differentiate(&e), Ok(expected));
}

#[test]
fn power_rule_with_literal_exponent() {
    let e = parse_text("x^3");
    assert_eq!(
        differentiate(&e),
        Ok(bin(
            BinaryOp::Mul,
            Expr::Number(3),
            bin(BinaryOp::Pow, Expr::Variable('x'), Expr::Number(2)),
        ))
    );
}

#[test]
fn non_literal_exponent_is_unsupported() {
    let e = parse_text("x^x");
    assert_eq!(differentiate(&e), Err(DiffError::UnsupportedExponent));
}

#[test]
fn negated_exponent_is_not_a_literal() {
    // `x^-5` parses the exponent as a negation node, not a literal
    let e = parse_text("x^-5");
    assert_eq!(differentiate(&e), Err(DiffError::UnsupportedExponent));
}
