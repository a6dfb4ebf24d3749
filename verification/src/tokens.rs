//! Token vocabulary shared by the tokenizer and the parser.

use vstd::prelude::*;

verus! {

/// One lexical token of a symbolic math expression.
///
/// Whitespace is carried as a token of its own so that a caller can still
/// compute exact character offsets from a token sequence; `EOF` marks the end
/// of the input and is always the last token a successful tokenization yields.
#[derive(Debug, Clone, Copy, PartialEq, Eq, Structural)]
pub enum Token {
    NUMBER(i32),
    PLUS,
    MINUS,
    MUL,
    DIV,
    POW,
    LEFTPAREN,
    RIGHTPAREN,
    VARIABLE(char),
    CONSTANT(char),
    EOF,
    WhiteSpace(WhiteSpace),
}

/// The whitespace characters the tokenizer recognizes.
#[derive(Debug, Clone, Copy, PartialEq, Eq, Structural)]
pub enum WhiteSpace {
    SPACE,
    TAB,
    NEWLINE,
}

} // verus!
