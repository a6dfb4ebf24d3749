//! The expression tree: the shared vocabulary of every stage.

use vstd::prelude::*;

verus! {

/// A single-variable arithmetic expression.
///
/// A value of this type is a strict tree: every node is owned by exactly one
/// parent, equality is structural, and no stage ever mutates a tree in place —
/// transforms read their input and build a fresh tree.
#[derive(Debug)]
#[allow(inconsistent_fields)]
pub enum Expr {
    /// An integer literal.
    Number(i32),
    /// The differentiation variable (the symbol `x`).
    Variable(char),
    /// Any other single-letter symbol; opaque, with derivative zero.
    Constant(char),
    UnaryOp { op: UnaryOp, expr: Box<Expr> },
    BinaryOp { op: BinaryOp, left: Box<Expr>, right: Box<Expr> },
}

/// The unary operators.
#[derive(Debug, Clone, Copy, PartialEq, Eq, Structural)]
pub enum UnaryOp {
    Neg,
}

/// The binary operators.
#[derive(Debug, Clone, Copy, PartialEq, Eq, Structural)]
pub enum BinaryOp {
    Add,
    Sub,
    Mul,
    Div,
    Pow,
}

impl Expr {
    /// Builds an identical tree; the value-semantics copy that the
    /// differentiation rules use when an operand appears twice in the result.
    pub fn duplicate(&self) -> (r: Expr)
        ensures
            r == *self,
        decreases *self,
    {
        match self {
            Expr::Number(n) => Expr::Number(*n),
            Expr::Variable(c) => Expr::Variable(*c),
            Expr::Constant(c) => Expr::Constant(*c),
            Expr::UnaryOp { op, expr } => Expr::UnaryOp {
                op: *op,
                expr: Box::new(expr.duplicate()),
            },
            Expr::BinaryOp { op, left, right } => Expr::BinaryOp {
                op: *op,
                left: Box::new(left.duplicate()),
                right: Box::new(right.duplicate()),
            },
        }
    }
}

/// Decides structural equality of two trees.
pub fn expr_eq(a: &Expr, b: &Expr) -> (r: bool)
    ensures
        r == (*a == *b),
    decreases *a,
{
    match (a, b) {
        (Expr::Number(x), Expr::Number(y)) => x == y,
        (Expr::Variable(x), Expr::Variable(y)) => x == y,
        (Expr::Constant(x), Expr::Constant(y)) => x == y,
        (Expr::UnaryOp { op: op_a, expr: expr_a }, Expr::UnaryOp { op: op_b, expr: expr_b }) => {
            op_a == op_b && expr_eq(expr_a, expr_b)
        },
        (
            Expr::BinaryOp { op: op_a, left: left_a, right: right_a },
            Expr::BinaryOp { op: op_b, left: left_b, right: right_b },
        ) => op_a == op_b && expr_eq(left_a, left_b) && expr_eq(right_a, right_b),
        _ => false,
    }
}

impl PartialEq for Expr {
    fn eq(&self, other: &Expr) -> bool {
        expr_eq(self, other)
    }
}

impl vstd::std_specs::cmp::PartialEqSpecImpl for Expr {
    open spec fn obeys_eq_spec() -> bool {
        true
    }

    open spec fn eq_spec(&self, other: &Expr) -> bool {
        *self == *other
    }
}

} // verus!
