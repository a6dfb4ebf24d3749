//! Rendering of expression trees back to infix text.

use vstd::prelude::*;
use vstd::string::*;

use crate::ast::{BinaryOp, Expr, UnaryOp};

verus! {

/// The character of one decimal digit.
pub open spec fn dec_digit(d: int) -> char
    recommends
        0 <= d <= 9,
{
    if d == 0 {
        '0'
    } else if d == 1 {
        '1'
    } else if d == 2 {
        '2'
    } else if d == 3 {
        '3'
    } else if d == 4 {
        '4'
    } else if d == 5 {
        '5'
    } else if d == 6 {
        '6'
    } else if d == 7 {
        '7'
    } else if d == 8 {
        '8'
    } else {
        '9'
    }
}

/// The decimal digits of a natural number, most significant first.
pub open spec fn dec_nat(n: nat) -> Seq<char>
    decreases n,
{
    if n < 10 {
        seq![dec_digit(n as int)]
    } else {
        dec_nat(n / 10) + seq![dec_digit((n % 10) as int)]
    }
}

/// The decimal rendering of an integer: a minus sign for a negative value,
/// then the digits of its magnitude.
pub open spec fn dec_int(n: int) -> Seq<char> {
    if n < 0 {
        seq!['-'] + dec_nat((-n) as nat)
    } else {
        dec_nat(n as nat)
    }
}

/// True when `e` is a power node.
pub open spec fn is_pow(e: Expr) -> bool {
    match e {
        Expr::BinaryOp { op, left, right } => op is Pow,
        _ => false,
    }
}

/// The multiplication sign is omitted between a literal and a variable, a
/// literal and a power, and a variable and a literal.
pub open spec fn mul_implicit(l: Expr, r: Expr) -> bool {
    (l is Number && r is Variable) || (l is Number && is_pow(r)) || (l is Variable && r is Number)
}

/// The infix rendering of a tree.  Operands are joined without spaces, and no
/// parentheses are ever inserted, so a lower-precedence child inside a
/// higher-precedence node prints ambiguously; the omitted multiplication
/// signs of [`mul_implicit`] are the only other source of ambiguity.
pub open spec fn pp(e: Expr) -> Seq<char>
    decreases e,
{
    match e {
        Expr::Number(n) => dec_int(n as int),
        Expr::Variable(c) => seq![c],
        Expr::Constant(c) => seq![c],
        Expr::UnaryOp { op, expr } => seq!['-'] + pp(*expr),
        Expr::BinaryOp { op, left, right } => {
            let ls = pp(*left);
            let rs = pp(*right);
            match op {
                BinaryOp::Add => ls + seq!['+'] + rs,
                BinaryOp::Sub => ls + seq!['-'] + rs,
                BinaryOp::Div => ls + seq!['/'] + rs,
                BinaryOp::Pow => ls + seq!['^'] + rs,
                BinaryOp::Mul => if mul_implicit(*left, *right) {
                    ls + rs
                } else {
                    ls + seq!['*'] + rs
                },
            }
        },
    }
}

/// One decimal digit as a string slice.
fn digit_str(d: u32) -> (s: &'static str)
    requires
        d <= 9,
    ensures
        s@ == seq![dec_digit(d as int)],
{
    if d == 0 {
        proof {
            reveal_strlit("0");
            assert("0"@ =~= seq![dec_digit(0)]);
        }
        "0"
    } else if d == 1 {
        proof {
            reveal_strlit("1");
            assert("1"@ =~= seq![dec_digit(1)]);
        }
        "1"
    } else if d == 2 {
        proof {
            reveal_strlit("2");
            assert("2"@ =~= seq![dec_digit(2)]);
        }
        "2"
    } else if d == 3 {
        proof {
            reveal_strlit("3");
            assert("3"@ =~= seq![dec_digit(3)]);
        }
        "3"
    } else if d == 4 {
        proof {
            reveal_strlit("4");
            assert("4"@ =~= seq![dec_digit(4)]);
        }
        "4"
    } else if d == 5 {
        proof {
            reveal_strlit("5");
            assert("5"@ =~= seq![dec_digit(5)]);
        }
        "5"
    } else if d == 6 {
        proof {
            reveal_strlit("6");
            assert("6"@ =~= seq![dec_digit(6)]);
        }
        "6"
    } else if d == 7 {
        proof {
            reveal_strlit("7");
            assert("7"@ =~= seq![dec_digit(7)]);
        }
        "7"
    } else if d == 8 {
        proof {
            reveal_strlit("8");
            assert("8"@ =~= seq![dec_digit(8)]);
        }
        "8"
    } else {
        proof {
            reveal_strlit("9");
            assert("9"@ =~= seq![dec_digit(9)]);
        }
        "9"
    }
}

/// The decimal digits of `n`.
fn dec_nat_string(n: u32) -> (s: String)
    ensures
        s@ == dec_nat(n as nat),
    decreases n,
{
    if n < 10 {
        String::from_str(digit_str(n))
    } else {
        let mut s = dec_nat_string(n / 10);
        s.append(digit_str(n % 10));
        s
    }
}

/// The decimal rendering of `n`.
fn dec_i32_string(n: i32) -> (s: String)
    ensures
        s@ == dec_int(n as int),
{
    if n < 0 {
        let mag: u32 = (-(n as i64)) as u32;
        proof {
            reveal_strlit("-");
            assert("-"@ =~= seq!['-']);
        }
        let mut s = String::from_str("-");
        let digits = dec_nat_string(mag);
        s.append(digits.as_str());
        s
    } else {
        dec_nat_string(n as u32)
    }
}

/// Relies on `String::from` for a single character: the returned string
/// holds exactly that character.
#[verifier::external_body]
fn char_string(c: char) -> (s: String)
    ensures
        s@ == seq![c],
{
    String::from(c)
}

/// Appends `op_str` and `rs` to `ls`.
fn join_parts(ls: String, op_str: &str, rs: &String) -> (s: String)
    ensures
        s@ == ls@ + op_str@ + rs@,
{
    let mut s = ls;
    s.append(op_str);
    s.append(rs.as_str());
    s
}

/// Decides whether a multiplication prints without its sign.
fn mul_implicit_exec(l: &Expr, r: &Expr) -> (b: bool)
    ensures
        b == mul_implicit(*l, *r),
{
    match (l, r) {
        (Expr::Number(_), Expr::Variable(_)) => true,
        (Expr::Number(_), Expr::BinaryOp { op: BinaryOp::Pow, left: _, right: _ }) => true,
        (Expr::Variable(_), Expr::Number(_)) => true,
        _ => false,
    }
}

impl Expr {
    /// Renders the tree as infix text, exactly as [`pp`] describes: operands
    /// joined without spaces, the multiplication sign omitted in the
    /// [`mul_implicit`] shapes, and no parenthesization of lower-precedence
    /// children (a deliberate reproduction of the renderer's known
    /// ambiguity).
    pub fn pretty(&self) -> (s: String)
        ensures
            s@ == pp(*self),
        decreases *self,
    {
        match self {
            Expr::Number(n) => dec_i32_string(*n),
            Expr::Variable(c) => char_string(*c),
            Expr::Constant(c) => char_string(*c),
            Expr::UnaryOp { op, expr } => {
                proof {
                    reveal_strlit("-");
                    assert("-"@ =~= seq!['-']);
                }
                let mut s = String::from_str("-");
                let inner = expr.pretty();
                s.append(inner.as_str());
                s
            },
            Expr::BinaryOp { op, left, right } => {
                let ls = left.pretty();
                let rs = right.pretty();
                match op {
                    BinaryOp::Add => {
                        proof {
                            reveal_strlit("+");
                            assert("+"@ =~= seq!['+']);
                        }
                        join_parts(ls, "+", &rs)
                    },
                    BinaryOp::Sub => {
                        proof {
                            reveal_strlit("-");
                            assert("-"@ =~= seq!['-']);
                        }
                        join_parts(ls, "-", &rs)
                    },
                    BinaryOp::Div => {
                        proof {
                            reveal_strlit("/");
                            assert("/"@ =~= seq!['/']);
                        }
                        join_parts(ls, "/", &rs)
                    },
                    BinaryOp::Pow => {
                        proof {
                            reveal_strlit("^");
                            assert("^"@ =~= seq!['^']);
                        }
                        join_parts(ls, "^", &rs)
                    },
                    BinaryOp::Mul => {
                        if mul_implicit_exec(left, right) {
                            let mut s = ls;
                            s.append(rs.as_str());
                            s
                        } else {
                            proof {
                                reveal_strlit("*");
                                assert("*"@ =~= seq!['*']);
                            }
                            join_parts(ls, "*", &rs)
                        }
                    },
                }
            },
        }
    }
}

} // verus!
