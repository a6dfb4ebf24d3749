use symderiv::tokenizer::{ErrorKind, Tokenizer};
use symderiv::tokens::{Token, WhiteSpace};

#[test]
fn tokenize_simple_expression() {
    let mut tokenizer = Tokenizer::new("2*x + 3");
    let tokens = tokenizer.tokenize().unwrap();
    assert_eq!(
        tokens,
        vec![
            Token::NUMBER(2),
            Token::MUL,
            Token::VARIABLE('x'),
            Token::WhiteSpace(WhiteSpace::SPACE),
            Token::PLUS,
            Token::WhiteSpace(WhiteSpace::SPACE),
            Token::NUMBER(3),
            Token::EOF,
        ]
    );
}

#[test]
fn tokenize_empty_input_is_eof() {
    let mut tokenizer = Tokenizer::new("");
    assert_eq!(tokenizer.tokenize().unwrap(), vec![Token::EOF]);
}

#[test]
fn tokenize_all_whitespace_kinds() {
    let mut tokenizer = Tokenizer::new("\t\n ");
    assert_eq!(
        tokenizer.tokenize().unwrap(),
        vec![
            Token::WhiteSpace(WhiteSpace::TAB),
            Token::WhiteSpace(WhiteSpace::NEWLINE),
            Token::WhiteSpace(WhiteSpace::SPACE),
            Token::EOF,
        ]
    );
}

#[test]
fn tokenize_operators_and_parens() {
    let mut tokenizer = Tokenizer::new("(-)/^*");
    assert_eq!(
        tokenizer.tokenize().unwrap(),
        vec![
            Token::LEFTPAREN,
            Token::MINUS,
            Token::RIGHTPAREN,
            Token::DIV,
            Token::POW,
            Token::MUL,
            Token::EOF,
        ]
    );
}

#[test]
fn tokenize_constants_both_cases() {
    let mut tokenizer = Tokenizer::new("aZ");
    assert_eq!(
        tokenizer.tokenize().unwrap(),
        vec![Token::CONSTANT('a'), Token::CONSTANT('Z'), Token::EOF]
    );
}

#[test]
fn tokenize_largest_number() {
    let mut tokenizer = Tokenizer::new("2147483647");
    assert_eq!(
        tokenizer.tokenize().unwrap(),
        vec![Token::NUMBER(2147483647), Token::EOF]
    );
}

#[test]
fn tokenize_number_overflow_is_invalid_number() {
    let mut tokenizer = Tokenizer::new("2147483648");
    let err = tokenizer.tokenize().unwrap_err();
    assert_eq!(err.kind, ErrorKind::InvalidNumber);
    assert_eq!(err.location.expr_idx, 0);
    assert_eq!(err.input, "2147483648");
}

#[test]
fn tokenize_double_x_is_invalid_variable() {
    let mut tokenizer = Tokenizer::new("2*xx");
    let err = tokenizer.tokenize().unwrap_err();
    assert_eq!(err.kind, ErrorKind::InvalidVariable);
    assert_eq!(err.location.expr_idx, 2);
}

#[test]
fn tokenize_unexpected_character() {
    let mut tokenizer = Tokenizer::new("2$3");
    let err = tokenizer.tokenize().unwrap_err();
    assert_eq!(err.kind, ErrorKind::UnexpectedOrUnsupportedToken('$'));
    assert_eq!(err.location.expr_idx, 1);
    assert_eq!(err.input, "2$3");
}

#[test]
fn iterator_yields_located_tokens_then_nothing() {
    let tokenizer = Tokenizer::new("x+1");
    let mut iter = tokenizer.iter();
    let first = iter.next().unwrap().unwrap();
    assert_eq!(*first.token(), Token::VARIABLE('x'));
    assert_eq!(first.location.expr_idx, 0);
    let second = iter.next().unwrap().unwrap();
    assert_eq!(second.location.expr_idx, 1);
    assert_eq!(second.token_only(), Token::PLUS);
    let third = iter.next().unwrap().unwrap();
    assert_eq!(third.location.expr_idx, 2);
    assert_eq!(third.token_only(), Token::NUMBER(1));
    let fourth = iter.next().unwrap().unwrap();
    assert_eq!(fourth.token_only(), Token::EOF);
    assert!(iter.next().is_none());
}
