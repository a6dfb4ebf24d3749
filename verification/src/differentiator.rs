//! Symbolic differentiation with respect to the variable `x`.

use vstd::prelude::*;

use crate::ast::{BinaryOp, Expr, UnaryOp};

verus! {

/// The recoverable failure of [`differentiate`]: the power rule only covers a
/// literal integer exponent (and one whose decrement still fits in `i32`).
#[derive(Debug, Clone, Copy, PartialEq, Eq, Structural)]
pub enum DiffError {
    UnsupportedExponent,
}

/// Holds when every power node that differentiation reaches has a literal
/// integer exponent `n` with `n - 1` representable in `i32`.
///
/// The power rule never recurses into either operand of `^`, so a power
/// nested under the base of another power is not constrained.
pub open spec fn can_differentiate(e: Expr) -> bool
    decreases e,
{
    match e {
        Expr::Number(_) => true,
        Expr::Variable(_) => true,
        Expr::Constant(_) => true,
        Expr::UnaryOp { op, expr } => can_differentiate(*expr),
        Expr::BinaryOp { op, left, right } => {
            if op is Pow {
                match *right {
                    Expr::Number(n) => n > i32::MIN,
                    _ => false,
                }
            } else {
                can_differentiate(*left) && can_differentiate(*right)
            }
        },
    }
}

/// The derivative of `e` with respect to `x`, as a tree.
///
/// Mirrors the textbook rules: linearity over `+`, `-` and negation, the
/// product rule, the quotient rule, and the power rule `d(u^n) = n*u^(n-1)`
/// for a literal `n` (without a chain-rule factor for the base, so the power
/// rule is only meaningful when the base is the bare variable).  Meaningless
/// where `can_differentiate(e)` fails.
pub open spec fn deriv(e: Expr) -> Expr
    recommends
        can_differentiate(e),
    decreases e,
{
    match e {
        Expr::Number(_) => Expr::Number(0),
        Expr::Variable(c) => if c == 'x' {
            Expr::Number(1)
        } else {
            Expr::Number(0)
        },
        Expr::Constant(_) => Expr::Number(0),
        Expr::UnaryOp { op, expr } => Expr::UnaryOp {
            op: UnaryOp::Neg,
            expr: Box::new(deriv(*expr)),
        },
        Expr::BinaryOp { op, left, right } => match op {
            BinaryOp::Add => Expr::BinaryOp {
                op: BinaryOp::Add,
                left: Box::new(deriv(*left)),
                right: Box::new(deriv(*right)),
            },
            BinaryOp::Sub => Expr::BinaryOp {
                op: BinaryOp::Sub,
                left: Box::new(deriv(*left)),
                right: Box::new(deriv(*right)),
            },
            BinaryOp::Mul => Expr::BinaryOp {
                op: BinaryOp::Add,
                left: Box::new(Expr::BinaryOp {
                    op: BinaryOp::Mul,
                    left: Box::new(deriv(*left)),
                    right,
                }),
                right: Box::new(Expr::BinaryOp {
                    op: BinaryOp::Mul,
                    left,
                    right: Box::new(deriv(*right)),
                }),
            },
            BinaryOp::Div => Expr::BinaryOp {
                op: BinaryOp::Div,
                left: Box::new(Expr::BinaryOp {
                    op: BinaryOp::Sub,
                    left: Box::new(Expr::BinaryOp {
                        op: BinaryOp::Mul,
                        left: Box::new(deriv(*left)),
                        right,
                    }),
                    right: Box::new(Expr::BinaryOp {
                        op: BinaryOp::Mul,
                        left,
                        right: Box::new(deriv(*right)),
                    }),
                }),
                right: Box::new(Expr::BinaryOp {
                    op: BinaryOp::Pow,
                    left: right,
                    right: Box::new(Expr::Number(2)),
                }),
            },
            BinaryOp::Pow => match *right {
                Expr::Number(n) => Expr::BinaryOp {
                    op: BinaryOp::Mul,
                    left: Box::new(Expr::Number(n)),
                    right: Box::new(Expr::BinaryOp {
                        op: BinaryOp::Pow,
                        left,
                        right: Box::new(Expr::Number((n - 1) as i32)),
                    }),
                },
                _ => Expr::Number(0),
            },
        },
    }
}

/// The derivative of any integer literal is zero, and differentiation never
/// fails on a literal.
pub proof fn lemma_deriv_number(n: i32)
    ensures
        can_differentiate(Expr::Number(n)),
        deriv(Expr::Number(n)) == Expr::Number(0i32),
{
}

/// The derivative of the variable is one, and of any constant symbol zero;
/// differentiation never fails on either.
pub proof fn lemma_deriv_variable_constant(c: char)
    ensures
        can_differentiate(Expr::Variable('x')),
        deriv(Expr::Variable('x')) == Expr::Number(1i32),
        can_differentiate(Expr::Constant(c)),
        deriv(Expr::Constant(c)) == Expr::Number(0i32),
{
}

/// Computes the symbolic derivative of `expr` with respect to `x`.
///
/// Succeeds exactly on the trees whose reached power nodes carry a literal
/// exponent, and then returns the tree that [`deriv`] describes; any other
/// power is reported as an unsupported operation instead of a wrong result.
pub fn differentiate(expr: &Expr) -> (r: Result<Expr, DiffError>)
    ensures
        r is Ok <==> can_differentiate(*expr),
        r is Ok ==> r->Ok_0 == deriv(*expr),
        r is Err ==> r->Err_0 == DiffError::UnsupportedExponent,
    decreases *expr,
{
    match expr {
        Expr::Number(_) => Ok(Expr::Number(0)),
        Expr::Variable(c) => {
            if *c == 'x' {
                Ok(Expr::Number(1))
            } else {
                Ok(Expr::Number(0))
            }
        },
        Expr::Constant(_) => Ok(Expr::Number(0)),
        Expr::UnaryOp { op, expr } => {
            let inner = differentiate(expr)?;
            Ok(Expr::UnaryOp { op: UnaryOp::Neg, expr: Box::new(inner) })
        },
        Expr::BinaryOp { op: BinaryOp::Add, left, right } => {
            let dl = differentiate(left)?;
            let dr = differentiate(right)?;
            Ok(Expr::BinaryOp { op: BinaryOp::Add, left: Box::new(dl), right: Box::new(dr) })
        },
        Expr::BinaryOp { op: BinaryOp::Sub, left, right } => {
            let dl = differentiate(left)?;
            let dr = differentiate(right)?;
            Ok(Expr::BinaryOp { op: BinaryOp::Sub, left: Box::new(dl), right: Box::new(dr) })
        },
        Expr::BinaryOp { op: BinaryOp::Mul, left, right } => {
            let dl = differentiate(left)?;
            let dr = differentiate(right)?;
            Ok(Expr::BinaryOp {
                op: BinaryOp::Add,
                left: Box::new(Expr::BinaryOp {
                    op: BinaryOp::Mul,
                    left: Box::new(dl),
                    right: Box::new(right.duplicate()),
                }),
                right: Box::new(Expr::BinaryOp {
                    op: BinaryOp::Mul,
                    left: Box::new(left.duplicate()),
                    right: Box::new(dr),
                }),
            })
        },
        Expr::BinaryOp { op: BinaryOp::Div, left, right } => {
            let dl = differentiate(left)?;
            let dr = differentiate(right)?;
            Ok(Expr::BinaryOp {
                op: BinaryOp::Div,
                left: Box::new(Expr::BinaryOp {
                    op: BinaryOp::Sub,
                    left: Box::new(Expr::BinaryOp {
                        op: BinaryOp::Mul,
                        left: Box::new(dl),
                        right: Box::new(right.duplicate()),
                    }),
                    right: Box::new(Expr::BinaryOp {
                        op: BinaryOp::Mul,
                        left: Box::new(left.duplicate()),
                        right: Box::new(dr),
                    }),
                }),
                right: Box::new(Expr::BinaryOp {
                    op: BinaryOp::Pow,
                    left: Box::new(right.duplicate()),
                    right: Box::new(Expr::Number(2)),
                }),
            })
        },
        Expr::BinaryOp { op: BinaryOp::Pow, left, right } => {
            match &**right {
                Expr::Number(n) => {
                    if *n > i32::MIN {
                        Ok(Expr::BinaryOp {
                            op: BinaryOp::Mul,
                            left: Box::new(Expr::Number(*n)),
                            right: Box::new(Expr::BinaryOp {
                                op: BinaryOp::Pow,
                                left: Box::new(left.duplicate()),
                                right: Box::new(Expr::Number(*n - 1)),
                            }),
                        })
                    } else {
                        Err(DiffError::UnsupportedExponent)
                    }
                },
                _ => Err(DiffError::UnsupportedExponent),
            }
        },
    }
}

} // verus!
