use symderiv::ast::{BinaryOp, Expr, UnaryOp};
use symderiv::parser::Parser;
use symderiv::tokenizer::Tokenizer;

fn parse_text(text: &str) -> Option<Expr> {
    let mut tokenizer = Tokenizer::new(text);
    let tokens = tokenizer.tokenize().ok()?;
    Parser::new(tokens).parse()
}

fn bin(op: BinaryOp, l: Expr, r: Expr) -> Expr {
    Expr::BinaryOp { op, left: Box::new(l), right: Box::new(r) }
}

fn neg(e: Expr) -> Expr {
    Expr::UnaryOp { op: UnaryOp::Neg, expr: Box::new(e) }
}

#[test]
fn unmatched_trailing_parenthesis_fails() {
    assert!(parse_text("2x)").is_none());
}

#[test]
fn simple_product() {
    assert_eq!(
        parse_text("2*x").unwrap(),
        bin(BinaryOp::Mul, Expr::Number(2), Expr::Variable('x'))
    );
}

#[test]
fn addition_binds_looser_than_multiplication() {
    assert_eq!(
        parse_text("1+2*3").unwrap(),
        bin(
            BinaryOp::Add,
            Expr::Number(1),
            bin(BinaryOp::Mul, Expr::Number(2), Expr::Number(3))
        )
    );
}

#[test]
fn subtraction_is_left_associative() {
    assert_eq!(
        parse_text("5-2-1").unwrap(),
        bin(
            BinaryOp::Sub,
            bin(BinaryOp::Sub, Expr::Number(5), Expr::Number(2)),
            Expr::Number(1)
        )
    );
}

#[test]
fn power_is_right_associative() {
    assert_eq!(
        parse_text("2^3^2").unwrap(),
        bin(
            BinaryOp::Pow,
            Expr::Number(2),
            bin(BinaryOp::Pow, Expr::Number(3), Expr::Number(2))
        )
    );
}

#[test]
fn parenthesized_sum() {
    assert_eq!(
        parse_text("(x+1)").unwrap(),
        bin(BinaryOp::Add, Expr::Variable('x'), Expr::Number(1))
    );
}

#[test]
fn unmatched_open_parenthesis_fails() {
    assert!(parse_text("(x+1").is_none());
}

#[test]
fn unary_negation_parses_at_any_level() {
    assert_eq!(parse_text("-x").unwrap(), neg(Expr::Variable('x')));
    assert_eq!(
        parse_text("2*-3").unwrap(),
        bin(BinaryOp::Mul, Expr::Number(2), neg(Expr::Number(3)))
    );
}

#[test]
fn constant_symbol_is_a_base() {
    assert_eq!(
        parse_text("a*x").unwrap(),
        bin(BinaryOp::Mul, Expr::Constant('a'), Expr::Variable('x'))
    );
}

#[test]
fn operator_without_right_operand_fails() {
    assert!(parse_text("2+").is_none());
}

#[test]
fn inner_whitespace_is_not_skipped() {
    assert!(parse_text("2 + 3").is_none());
}

#[test]
fn trailing_whitespace_is_skipped() {
    assert_eq!(
        parse_text("2+3 ").unwrap(),
        bin(BinaryOp::Add, Expr::Number(2), Expr::Number(3))
    );
}
