//! Recursive-descent parsing of a token sequence into an expression tree.
//!
//! The grammar, lowest precedence first:
//!
//! ```text
//! expr   := term (('+' | '-') term)*            left-associative
//! term   := factor (('*' | '/') factor)*        left-associative
//! factor := base ('^' factor)?                  right-associative
//! base   := NUMBER | VARIABLE | CONSTANT
//!         | '(' expr ')'
//!         | '-' base
//! ```
//!
//! After the expression, only trailing whitespace and the end-of-input
//! marker may remain; whitespace anywhere else is not skipped and makes the
//! parse fail.  A failure carries no detail beyond `None`.

use vstd::prelude::*;

use crate::ast::{BinaryOp, Expr, UnaryOp};
use crate::tokens::Token;

verus! {

/// The outcome of one grammar rule: a tree and the position after it, or a
/// failure.
pub enum Parsed {
    Node(Expr, int),
    Fail,
}

/// Parses `base` at `i`.
pub open spec fn sp_base(ts: Seq<Token>, i: int) -> Parsed
    decreases ts.len() - i, 0int,
{
    if i < 0 || i >= ts.len() {
        Parsed::Fail
    } else {
        match ts[i] {
            Token::NUMBER(n) => Parsed::Node(Expr::Number(n), i + 1),
            Token::VARIABLE(c) => Parsed::Node(Expr::Variable(c), i + 1),
            Token::CONSTANT(c) => Parsed::Node(Expr::Constant(c), i + 1),
            Token::LEFTPAREN => match sp_expr(ts, i + 1) {
                Parsed::Fail => Parsed::Fail,
                Parsed::Node(e, j) => if 0 <= j < ts.len() && ts[j] is RIGHTPAREN {
                    Parsed::Node(e, j + 1)
                } else {
                    Parsed::Fail
                },
            },
            Token::MINUS => match sp_base(ts, i + 1) {
                Parsed::Fail => Parsed::Fail,
                Parsed::Node(e, j) => Parsed::Node(
                    Expr::UnaryOp { op: UnaryOp::Neg, expr: Box::new(e) },
                    j,
                ),
            },
            _ => Parsed::Fail,
        }
    }
}

/// Parses `factor` at `i`: a base, then optionally `^` and another factor
/// (right-associative).  The inner guard cannot fire, since a base always
/// advances; it only keeps the recursion visibly well-founded.
pub open spec fn sp_factor(ts: Seq<Token>, i: int) -> Parsed
    decreases ts.len() - i, 1int,
{
    match sp_base(ts, i) {
        Parsed::Fail => Parsed::Fail,
        Parsed::Node(e, j) => if 0 <= j < ts.len() && ts[j] is POW {
            if j < i {
                Parsed::Fail
            } else {
                match sp_factor(ts, j + 1) {
                    Parsed::Fail => Parsed::Fail,
                    Parsed::Node(r, j2) => Parsed::Node(
                        Expr::BinaryOp { op: BinaryOp::Pow, left: Box::new(e), right: Box::new(r) },
                        j2,
                    ),
                }
            }
        } else {
            Parsed::Node(e, j)
        },
    }
}

/// Parses the rest of a `term` after `node`: zero or more `*`/`/` factors,
/// folded left-associatively.  The inner guard cannot fire (a factor always
/// advances) and only keeps the recursion well-founded.
pub open spec fn sp_term_more(ts: Seq<Token>, i: int, node: Expr) -> Parsed
    decreases ts.len() - i, 2int,
{
    if 0 <= i < ts.len() && (ts[i] is MUL || ts[i] is DIV) {
        let op = if ts[i] is MUL {
            BinaryOp::Mul
        } else {
            BinaryOp::Div
        };
        match sp_factor(ts, i + 1) {
            Parsed::Fail => Parsed::Fail,
            Parsed::Node(r, j) => if j <= i || j > ts.len() {
                Parsed::Fail
            } else {
                sp_term_more(
                    ts,
                    j,
                    Expr::BinaryOp { op, left: Box::new(node), right: Box::new(r) },
                )
            },
        }
    } else {
        Parsed::Node(node, i)
    }
}

/// Parses `term` at `i`.
pub open spec fn sp_term(ts: Seq<Token>, i: int) -> Parsed
    decreases ts.len() - i, 3int,
{
    match sp_factor(ts, i) {
        Parsed::Fail => Parsed::Fail,
        Parsed::Node(e, j) => if j < i || j > ts.len() {
            Parsed::Fail
        } else {
            sp_term_more(ts, j, e)
        },
    }
}

/// Parses the rest of an `expr` after `node`: zero or more `+`/`-` terms,
/// folded left-associatively.
pub open spec fn sp_expr_more(ts: Seq<Token>, i: int, node: Expr) -> Parsed
    decreases ts.len() - i, 4int,
{
    if 0 <= i < ts.len() && (ts[i] is PLUS || ts[i] is MINUS) {
        let op = if ts[i] is PLUS {
            BinaryOp::Add
        } else {
            BinaryOp::Sub
        };
        match sp_term(ts, i + 1) {
            Parsed::Fail => Parsed::Fail,
            Parsed::Node(r, j) => if j <= i || j > ts.len() {
                Parsed::Fail
            } else {
                sp_expr_more(
                    ts,
                    j,
                    Expr::BinaryOp { op, left: Box::new(node), right: Box::new(r) },
                )
            },
        }
    } else {
        Parsed::Node(node, i)
    }
}

/// Parses `expr` at `i`.
pub open spec fn sp_expr(ts: Seq<Token>, i: int) -> Parsed
    decreases ts.len() - i, 5int,
{
    match sp_term(ts, i) {
        Parsed::Fail => Parsed::Fail,
        Parsed::Node(e, j) => if j < i || j > ts.len() {
            Parsed::Fail
        } else {
            sp_expr_more(ts, j, e)
        },
    }
}

/// After a parsed expression, only trailing whitespace and then the
/// end-of-input marker (or the sequence's end) are accepted.
pub open spec fn sp_finish(ts: Seq<Token>, i: int, e: Expr) -> Option<Expr>
    decreases ts.len() - i,
{
    if i < 0 || i >= ts.len() {
        Some(e)
    } else {
        match ts[i] {
            Token::WhiteSpace(_) => sp_finish(ts, i + 1, e),
            Token::EOF => Some(e),
            _ => None,
        }
    }
}

/// The tree of the whole token sequence from `i`, if it parses.
pub open spec fn sp_parse_at(ts: Seq<Token>, i: int) -> Option<Expr> {
    match sp_expr(ts, i) {
        Parsed::Fail => None,
        Parsed::Node(e, j) => sp_finish(ts, j, e),
    }
}

// ---------------------------------------------------------------------------
// Every rule advances
// ---------------------------------------------------------------------------

proof fn lemma_advance_base(ts: Seq<Token>, i: int)
    ensures
        sp_base(ts, i) matches Parsed::Node(e, j) ==> j > i,
    decreases ts.len() - i, 0int,
{
    if 0 <= i < ts.len() {
        match ts[i] {
            Token::LEFTPAREN => {
                lemma_advance_expr(ts, i + 1);
            },
            Token::MINUS => {
                lemma_advance_base(ts, i + 1);
            },
            _ => {},
        }
    }
}

proof fn lemma_advance_factor(ts: Seq<Token>, i: int)
    ensures
        sp_factor(ts, i) matches Parsed::Node(e, j) ==> j > i,
    decreases ts.len() - i, 1int,
{
    lemma_advance_base(ts, i);
    match sp_base(ts, i) {
        Parsed::Fail => {},
        Parsed::Node(e, j) => {
            if 0 <= j < ts.len() && ts[j] is POW && j >= i {
                lemma_advance_factor(ts, j + 1);
            }
        },
    }
}

proof fn lemma_advance_term_more(ts: Seq<Token>, i: int, node: Expr)
    ensures
        sp_term_more(ts, i, node) matches Parsed::Node(e, j) ==> j >= i,
    decreases ts.len() - i, 2int,
{
    if 0 <= i < ts.len() && (ts[i] is MUL || ts[i] is DIV) {
        lemma_advance_factor(ts, i + 1);
        match sp_factor(ts, i + 1) {
            Parsed::Fail => {},
            Parsed::Node(r, j) => {
                if j > i && j <= ts.len() {
                    let op = if ts[i] is MUL {
                        BinaryOp::Mul
                    } else {
                        BinaryOp::Div
                    };
                    lemma_advance_term_more(
                        ts,
                        j,
                        Expr::BinaryOp { op, left: Box::new(node), right: Box::new(r) },
                    );
                }
            },
        }
    }
}

proof fn lemma_advance_term(ts: Seq<Token>, i: int)
    ensures
        sp_term(ts, i) matches Parsed::Node(e, j) ==> j > i,
    decreases ts.len() - i, 3int,
{
    lemma_advance_factor(ts, i);
    match sp_factor(ts, i) {
        Parsed::Fail => {},
        Parsed::Node(e, j) => {
            if j >= i && j <= ts.len() {
                lemma_advance_term_more(ts, j, e);
            }
        },
    }
}

proof fn lemma_advance_expr_more(ts: Seq<Token>, i: int, node: Expr)
    ensures
        sp_expr_more(ts, i, node) matches Parsed::Node(e, j) ==> j >= i,
    decreases ts.len() - i, 4int,
{
    if 0 <= i < ts.len() && (ts[i] is PLUS || ts[i] is MINUS) {
        lemma_advance_term(ts, i + 1);
        match sp_term(ts, i + 1) {
            Parsed::Fail => {},
            Parsed::Node(r, j) => {
                if j > i && j <= ts.len() {
                    let op = if ts[i] is PLUS {
                        BinaryOp::Add
                    } else {
                        BinaryOp::Sub
                    };
                    lemma_advance_expr_more(
                        ts,
                        j,
                        Expr::BinaryOp { op, left: Box::new(node), right: Box::new(r) },
                    );
                }
            },
        }
    }
}

proof fn lemma_advance_expr(ts: Seq<Token>, i: int)
    ensures
        sp_expr(ts, i) matches Parsed::Node(e, j) ==> j > i,
    decreases ts.len() - i, 5int,
{
    lemma_advance_term(ts, i);
    match sp_term(ts, i) {
        Parsed::Fail => {},
        Parsed::Node(e, j) => {
            if j >= i && j <= ts.len() {
                lemma_advance_expr_more(ts, j, e);
            }
        },
    }
}

// ---------------------------------------------------------------------------
// The executable parser
// ---------------------------------------------------------------------------

/// A recursive-descent parser over a finished token sequence.
pub struct Parser {
    pub tokens: Vec<Token>,
    pub pos: usize,
}

impl Parser {
    /// The cursor never runs past the end of the token sequence.
    pub open spec fn wf(&self) -> bool {
        self.pos <= self.tokens@.len()
    }

    /// Creates a parser at the start of `tokens`.
    pub fn new(tokens: Vec<Token>) -> (p: Parser)
        ensures
            p.tokens@ == tokens@,
            p.pos == 0,
            p.wf(),
    {
        Parser { tokens, pos: 0 }
    }

    /// The token under the cursor, if any.
    fn peek(&self) -> (t: Option<Token>)
        requires
            self.wf(),
        ensures
            self.pos < self.tokens@.len() ==> t == Some(self.tokens@[self.pos as int]),
            self.pos >= self.tokens@.len() ==> t is None,
    {
        if self.pos < self.tokens.len() {
            Some(self.tokens[self.pos])
        } else {
            None
        }
    }

    /// Consumes the token under the cursor.
    fn next(&mut self) -> (t: Option<Token>)
        requires
            old(self).wf(),
            old(self).pos < old(self).tokens@.len(),
        ensures
            final(self).tokens@ == old(self).tokens@,
            final(self).pos == old(self).pos + 1,
            final(self).wf(),
            t == Some(old(self).tokens@[old(self).pos as int]),
    {
        let n = self.tokens.len();
        let tok = self.tokens[self.pos];
        self.pos = self.pos + 1;
        Some(tok)
    }

    /// Parses the whole sequence: one expression, then only trailing
    /// whitespace and the end-of-input marker, exactly as [`sp_parse_at`]
    /// describes from the current cursor.
    pub fn parse(&mut self) -> (r: Option<Expr>)
        requires
            old(self).wf(),
        ensures
            final(self).tokens@ == old(self).tokens@,
            final(self).wf(),
            r == sp_parse_at(old(self).tokens@, old(self).pos as int),
    {
        let ghost ts = self.tokens@;
        let ghost i0 = self.pos as int;
        proof {
            lemma_advance_expr(ts, i0);
        }
        let expr = match self.parse_expr() {
            None => {
                return None;
            },
            Some(e) => e,
        };
        loop
            invariant_except_break
                sp_parse_at(ts, i0) == sp_finish(ts, self.pos as int, expr),
            invariant
                self.wf(),
                self.tokens@ == ts,
                ts == old(self).tokens@,
                i0 == old(self).pos,
                i0 <= self.pos as int,
            ensures
                self.tokens@ == ts,
                self.wf(),
                sp_parse_at(ts, i0) == Some(expr),
            decreases ts.len() - self.pos,
        {
            match self.peek() {
                None => {
                    break ;
                },
                Some(Token::WhiteSpace(_)) => {
                    let _ = self.next();
                },
                Some(Token::EOF) => {
                    break ;
                },
                Some(_) => {
                    return None;
                },
            }
        }
        Some(expr)
    }

    /// Parses `expr`: a term, then any `+`/`-` chain, left-associated.
    fn parse_expr(&mut self) -> (r: Option<Expr>)
        requires
            old(self).wf(),
        ensures
            final(self).tokens@ == old(self).tokens@,
            final(self).wf(),
            match sp_expr(old(self).tokens@, old(self).pos as int) {
                Parsed::Node(e, j) => r == Some(e) && final(self).pos == j,
                Parsed::Fail => r is None,
            },
        decreases old(self).tokens@.len() - old(self).pos, 5int,
    {
        let ghost ts = self.tokens@;
        let ghost i0 = self.pos as int;
        proof {
            lemma_advance_term(ts, i0);
        }
        let mut node = match self.parse_term() {
            None => {
                return None;
            },
            Some(e) => e,
        };
        loop
            invariant_except_break
                sp_expr(ts, i0) == sp_expr_more(ts, self.pos as int, node),
            invariant
                self.wf(),
                self.tokens@ == ts,
                ts == old(self).tokens@,
                i0 == old(self).pos,
                i0 <= self.pos as int,
            ensures
                self.tokens@ == ts,
                self.wf(),
                sp_expr(ts, i0) == Parsed::Node(node, self.pos as int),
            decreases ts.len() - self.pos,
        {
            let ghost p = self.pos as int;
            let tok = self.peek();
            let op = match tok {
                Some(Token::PLUS) => BinaryOp::Add,
                Some(Token::MINUS) => BinaryOp::Sub,
                _ => {
                    break ;
                },
            };
            let _ = self.next();
            proof {
                lemma_advance_term(ts, p + 1);
            }
            let right = match self.parse_term() {
                None => {
                    return None;
                },
                Some(e) => e,
            };
            node = Expr::BinaryOp { op, left: Box::new(node), right: Box::new(right) };
        }
        Some(node)
    }

    /// Parses `term`: a factor, then any `*`/`/` chain, left-associated.
    fn parse_term(&mut self) -> (r: Option<Expr>)
        requires
            old(self).wf(),
        ensures
            final(self).tokens@ == old(self).tokens@,
            final(self).wf(),
            match sp_term(old(self).tokens@, old(self).pos as int) {
                Parsed::Node(e, j) => r == Some(e) && final(self).pos == j,
                Parsed::Fail => r is None,
            },
        decreases old(self).tokens@.len() - old(self).pos, 3int,
    {
        let ghost ts = self.tokens@;
        let ghost i0 = self.pos as int;
        proof {
            lemma_advance_factor(ts, i0);
        }
        let mut node = match self.parse_factor() {
            None => {
                return None;
            },
            Some(e) => e,
        };
        loop
            invariant_except_break
                sp_term(ts, i0) == sp_term_more(ts, self.pos as int, node),
            invariant
                self.wf(),
                self.tokens@ == ts,
                ts == old(self).tokens@,
                i0 == old(self).pos,
                i0 <= self.pos as int,
            ensures
                self.tokens@ == ts,
                self.wf(),
                sp_term(ts, i0) == Parsed::Node(node, self.pos as int),
            decreases ts.len() - self.pos,
        {
            let ghost p = self.pos as int;
            let tok = self.peek();
            let op = match tok {
                Some(Token::MUL) => BinaryOp::Mul,
                Some(Token::DIV) => BinaryOp::Div,
                _ => {
                    break ;
                },
            };
            let _ = self.next();
            proof {
                lemma_advance_factor(ts, p + 1);
            }
            let right = match self.parse_factor() {
                None => {
                    return None;
                },
                Some(e) => e,
            };
            node = Expr::BinaryOp { op, left: Box::new(node), right: Box::new(right) };
        }
        Some(node)
    }

    /// Parses `factor`: a base, then optionally `^` and another factor.
    fn parse_factor(&mut self) -> (r: Option<Expr>)
        requires
            old(self).wf(),
        ensures
            final(self).tokens@ == old(self).tokens@,
            final(self).wf(),
            match sp_factor(old(self).tokens@, old(self).pos as int) {
                Parsed::Node(e, j) => r == Some(e) && final(self).pos == j,
                Parsed::Fail => r is None,
            },
        decreases old(self).tokens@.len() - old(self).pos, 1int,
    {
        let ghost ts = self.tokens@;
        let ghost i0 = self.pos as int;
        proof {
            lemma_advance_base(ts, i0);
        }
        let node = match self.parse_base() {
            None => {
                return None;
            },
            Some(e) => e,
        };
        match self.peek() {
            Some(Token::POW) => {
                let ghost j = self.pos as int;
                let _ = self.next();
                proof {
                    lemma_advance_factor(ts, j + 1);
                }
                match self.parse_factor() {
                    None => None,
                    Some(right) => Some(
                        Expr::BinaryOp {
                            op: BinaryOp::Pow,
                            left: Box::new(node),
                            right: Box::new(right),
                        },
                    ),
                }
            },
            _ => Some(node),
        }
    }

    /// Parses `base`: a literal, the variable, a constant, a parenthesized
    /// expression, or a negated base.
    fn parse_base(&mut self) -> (r: Option<Expr>)
        requires
            old(self).wf(),
        ensures
            final(self).tokens@ == old(self).tokens@,
            final(self).wf(),
            match sp_base(old(self).tokens@, old(self).pos as int) {
                Parsed::Node(e, j) => r == Some(e) && final(self).pos == j,
                Parsed::Fail => r is None,
            },
        decreases old(self).tokens@.len() - old(self).pos, 0int,
    {
        let ghost ts = self.tokens@;
        let ghost i0 = self.pos as int;
        let tok = match self.peek() {
            None => {
                return None;
            },
            Some(t) => t,
        };
        match tok {
            Token::NUMBER(n) => {
                let _ = self.next();
                Some(Expr::Number(n))
            },
            Token::VARIABLE(c) => {
                let _ = self.next();
                Some(Expr::Variable(c))
            },
            Token::CONSTANT(c) => {
                let _ = self.next();
                Some(Expr::Constant(c))
            },
            Token::LEFTPAREN => {
                let _ = self.next();
                let inner = match self.parse_expr() {
                    None => {
                        return None;
                    },
                    Some(e) => e,
                };
                match self.peek() {
                    Some(Token::RIGHTPAREN) => {
                        let _ = self.next();
                        Some(inner)
                    },
                    _ => None,
                }
            },
            Token::MINUS => {
                let _ = self.next();
                match self.parse_base() {
                    None => None,
                    Some(e) => Some(Expr::UnaryOp { op: UnaryOp::Neg, expr: Box::new(e) }),
                }
            },
            _ => None,
        }
    }
}

} // verus!
