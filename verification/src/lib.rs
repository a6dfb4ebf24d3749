//! Symbolic differentiation of single-variable arithmetic expressions.
//!
//! The pipeline is: text -> `tokenizer` -> tokens -> `parser` -> expression
//! tree -> `differentiator` -> tree -> `Expr::simplify` -> tree ->
//! `Expr::pretty` -> text.  Every stage is a pure function over immutable
//! values, specified and verified here.

pub mod ast;
pub mod differentiator;
pub mod laws;
pub mod printer;
pub mod parser;
pub mod simplify;
pub mod tokenizer;
pub mod tokens;

pub use ast::{BinaryOp, Expr, UnaryOp};
pub use differentiator::{differentiate, DiffError};
pub use tokens::{Token, WhiteSpace};
