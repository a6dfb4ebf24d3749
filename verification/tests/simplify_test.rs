use symderiv::ast::{BinaryOp, Expr, UnaryOp};
use symderiv::parser::Parser;
use symderiv::tokenizer::Tokenizer;

fn parse_text(text: &str) -> Expr {
    let mut tokenizer = Tokenizer::new(text);
    let tokens = tokenizer.tokenize().unwrap();
    Parser::new(tokens).parse().unwrap()
}

fn bin(op: BinaryOp, l: Expr, r: Expr) -> Expr {
    Expr::BinaryOp { op, left: Box::new(l), right: Box::new(r) }
}

#[test]
fn multiplication_folds_all_literal_factors() {
    let simplified = parse_text("3*4*x^2").simplify();
    assert_eq!(
        simplified,
        bin(
            BinaryOp::Mul,
            Expr::Number(12),
            bin(BinaryOp::Pow, Expr::Variable('x'), Expr::Number(2))
        )
    );
}

#[test]
fn zero_factor_collapses_product() {
    assert_eq!(parse_text("0*x*7").simplify(), Expr::Number(0));
}

#[test]
fn unit_factors_are_dropped() {
    assert_eq!(parse_text("1*x*1").simplify(), Expr::Variable('x'));
}

#[test]
fn addition_identities() {
    assert_eq!(parse_text("x+0").simplify(), Expr::Variable('x'));
    assert_eq!(parse_text("0+x").simplify(), Expr::Variable('x'));
    assert_eq!(parse_text("2+3").simplify(), Expr::Number(5));
}

#[test]
fn zero_left_of_subtraction_is_kept() {
    let simplified = parse_text("0-x").simplify();
    assert_eq!(
        simplified,
        bin(BinaryOp::Sub, Expr::Number(0), Expr::Variable('x'))
    );
    assert_eq!(parse_text("x-0").simplify(), Expr::Variable('x'));
    assert_eq!(parse_text("7-3").simplify(), Expr::Number(4));
}

#[test]
fn division_rules() {
    assert_eq!(parse_text("0/x").simplify(), Expr::Number(0));
    assert_eq!(parse_text("x/1").simplify(), Expr::Variable('x'));
    assert_eq!(parse_text("7/2").simplify(), Expr::Number(3));
    assert_eq!(parse_text("0/0").simplify(), Expr::Number(0));
    // division by a literal zero is left unfolded
    assert_eq!(
        parse_text("5/0").simplify(),
        bin(BinaryOp::Div, Expr::Number(5), Expr::Number(0))
    );
}

#[test]
fn power_rules() {
    assert_eq!(parse_text("x^0").simplify(), Expr::Number(1));
    assert_eq!(parse_text("x^1").simplify(), Expr::Variable('x'));
    assert_eq!(parse_text("2^3").simplify(), Expr::Number(8));
}

#[test]
fn negation_folds_literals() {
    assert_eq!(parse_text("-5").simplify(), Expr::Number(-5));
    let e = parse_text("-x").simplify();
    assert_eq!(
        e,
        Expr::UnaryOp { op: UnaryOp::Neg, expr: Box::new(Expr::Variable('x')) }
    );
}

#[test]
fn literal_fold_out_of_range_is_left_unfolded() {
    let sum = bin(BinaryOp::Add, Expr::Number(2147483647), Expr::Number(1));
    let simplified = sum.simplify();
    assert_eq!(
        simplified,
        bin(BinaryOp::Add, Expr::Number(2147483647), Expr::Number(1))
    );
}

#[test]
fn simplify_is_idempotent_on_samples() {
    let samples = [
        "3*4*x^2",
        "0*x",
        "x+0",
        "(x^2+2*x+1)/(x+1)",
        "2^3^2",
        "-5",
        "x*x+x",
        "1*x*1-0",
    ];
    for text in samples {
        let once = parse_text(text).simplify();
        let twice = once.simplify();
        assert_eq!(twice, once);
    }
}
