//! Canonical simplification of expression trees.
//!
//! The simplifier works bottom-up: children are simplified before the
//! parent's rule applies.  Multiplication chains are flattened into one
//! integer coefficient and a list of remaining factors; the other operators
//! fold literal operands and drop their identity elements.  Every literal
//! fold is guarded by an `i32` range check: a fold whose result would not be
//! representable leaves the node unfolded, which keeps the transform total
//! and idempotent.

use vstd::arithmetic::power::pow;
use vstd::prelude::*;

use crate::ast::{BinaryOp, Expr, UnaryOp};

verus! {

/// `v` is representable as an `i32`.
pub open spec fn fits_i32(v: int) -> bool {
    i32::MIN <= v <= i32::MAX
}

/// Absolute value.
pub open spec fn iabs(a: int) -> int {
    if a < 0 {
        -a
    } else {
        a
    }
}

/// Truncating integer division, the semantics of Rust's `/` on integers.
pub open spec fn tdiv(a: int, b: int) -> int
    recommends
        b != 0,
{
    if (a < 0) != (b < 0) {
        -(iabs(a) / iabs(b))
    } else {
        iabs(a) / iabs(b)
    }
}

/// True when `e` is a multiplication node.
pub open spec fn is_mul(e: Expr) -> bool {
    match e {
        Expr::BinaryOp { op, left, right } => op is Mul,
        _ => false,
    }
}

/// A binary node.
pub open spec fn mk_bin(op: BinaryOp, l: Expr, r: Expr) -> Expr {
    Expr::BinaryOp { op, left: Box::new(l), right: Box::new(r) }
}

/// The product of every integer literal reachable through nested
/// multiplications, as an unbounded integer.
pub open spec fn flat_coeff(e: Expr) -> int
    decreases e,
{
    match e {
        Expr::BinaryOp { op, left, right } => if op is Mul {
            flat_coeff(*left) * flat_coeff(*right)
        } else {
            1
        },
        Expr::Number(n) => n as int,
        _ => 1,
    }
}

/// The non-literal factors reachable through nested multiplications, in
/// their original left-to-right order.
pub open spec fn flat_factors(e: Expr) -> Seq<Expr>
    decreases e,
{
    match e {
        Expr::BinaryOp { op, left, right } => if op is Mul {
            flat_factors(*left) + flat_factors(*right)
        } else {
            seq![e]
        },
        Expr::Number(n) => seq![],
        _ => seq![e],
    }
}

/// The integer literals reachable through nested multiplications, in order.
pub open spec fn flat_nums(e: Expr) -> Seq<i32>
    decreases e,
{
    match e {
        Expr::BinaryOp { op, left, right } => if op is Mul {
            flat_nums(*left) + flat_nums(*right)
        } else {
            seq![]
        },
        Expr::Number(n) => seq![n],
        _ => seq![],
    }
}

/// The product of a sequence of `i32` literals.
pub open spec fn seq_product(s: Seq<i32>) -> int
    decreases s.len(),
{
    if s.len() == 0 {
        1
    } else {
        seq_product(s.drop_last()) * s.last()
    }
}

/// Left-associated multiplication of `head` with `os[i..]`.
pub open spec fn chain_from(head: Expr, os: Seq<Expr>, i: int) -> Expr
    decreases os.len() - i,
{
    if i < 0 || i >= os.len() {
        head
    } else {
        chain_from(mk_bin(BinaryOp::Mul, head, os[i]), os, i + 1)
    }
}

/// The simplification of a multiplication whose children `l` and `r` are
/// already simplified: flatten, fold the coefficient, drop units, rebuild.
pub open spec fn simp_mul(l: Expr, r: Expr) -> Expr {
    let c = flat_coeff(l) * flat_coeff(r);
    let os = flat_factors(l) + flat_factors(r);
    if c == 0 {
        Expr::Number(0)
    } else if !fits_i32(c) {
        mk_bin(BinaryOp::Mul, l, r)
    } else if os.len() == 0 {
        Expr::Number(c as i32)
    } else if c == 1 && os.len() == 1 {
        os[0]
    } else if c == 1 {
        chain_from(os[0], os, 1)
    } else {
        chain_from(mk_bin(BinaryOp::Mul, Expr::Number(c as i32), os[0]), os, 1)
    }
}

/// The simplification of an addition with simplified children.
pub open spec fn simp_add(l: Expr, r: Expr) -> Expr {
    if l == Expr::Number(0i32) {
        r
    } else if r == Expr::Number(0i32) {
        l
    } else if l is Number && r is Number && fits_i32(l->Number_0 + r->Number_0) {
        Expr::Number((l->Number_0 + r->Number_0) as i32)
    } else {
        mk_bin(BinaryOp::Add, l, r)
    }
}

/// The simplification of a subtraction with simplified children.  There is
/// deliberately no rule for a zero left operand: `0 - r` stays as it is.
pub open spec fn simp_sub(l: Expr, r: Expr) -> Expr {
    if r == Expr::Number(0i32) {
        l
    } else if l is Number && r is Number && fits_i32(l->Number_0 - r->Number_0) {
        Expr::Number((l->Number_0 - r->Number_0) as i32)
    } else {
        mk_bin(BinaryOp::Sub, l, r)
    }
}

/// The simplification of a division with simplified children.  A zero
/// numerator wins over everything (even `0/0` folds to `0`); a literal
/// quotient uses truncating division and a division by a literal zero is
/// left unfolded.
pub open spec fn simp_div(l: Expr, r: Expr) -> Expr {
    if l == Expr::Number(0i32) {
        Expr::Number(0)
    } else if r == Expr::Number(1i32) {
        l
    } else if l is Number && r is Number && r->Number_0 != 0 && fits_i32(
        tdiv(l->Number_0 as int, r->Number_0 as int),
    ) {
        Expr::Number(tdiv(l->Number_0 as int, r->Number_0 as int) as i32)
    } else {
        mk_bin(BinaryOp::Div, l, r)
    }
}

/// The simplification of a power with simplified children.  A literal power
/// folds only for a non-negative exponent.
pub open spec fn simp_pow(l: Expr, r: Expr) -> Expr {
    if r == Expr::Number(0i32) {
        Expr::Number(1)
    } else if r == Expr::Number(1i32) {
        l
    } else if l is Number && r is Number && r->Number_0 >= 0 && fits_i32(
        pow(l->Number_0 as int, r->Number_0 as nat),
    ) {
        Expr::Number(pow(l->Number_0 as int, r->Number_0 as nat) as i32)
    } else {
        mk_bin(BinaryOp::Pow, l, r)
    }
}

/// The simplification of a negation with a simplified operand: a literal is
/// folded to its negation when that stays in range.
pub open spec fn simp_neg(u: Expr) -> Expr {
    match u {
        Expr::Number(n) => if n == i32::MIN {
            Expr::UnaryOp { op: UnaryOp::Neg, expr: Box::new(u) }
        } else {
            Expr::Number((-n) as i32)
        },
        _ => Expr::UnaryOp { op: UnaryOp::Neg, expr: Box::new(u) },
    }
}

/// The canonical simplified form of `e`: children first, then the rule of
/// the node's operator.
pub open spec fn simp(e: Expr) -> Expr
    decreases e,
{
    match e {
        Expr::Number(_) => e,
        Expr::Variable(_) => e,
        Expr::Constant(_) => e,
        Expr::UnaryOp { op, expr } => simp_neg(simp(*expr)),
        Expr::BinaryOp { op, left, right } => {
            let l = simp(*left);
            let r = simp(*right);
            match op {
                BinaryOp::Add => simp_add(l, r),
                BinaryOp::Sub => simp_sub(l, r),
                BinaryOp::Mul => simp_mul(l, r),
                BinaryOp::Div => simp_div(l, r),
                BinaryOp::Pow => simp_pow(l, r),
            }
        },
    }
}

// ---------------------------------------------------------------------------
// The canonical form
// ---------------------------------------------------------------------------

/// `e` is a canonical simplified tree: no rule of [`simp`] changes it.
///
/// Each operator's clause is the exact complement of its fold conditions; a
/// multiplication is either a well-formed flattened chain (left-associated,
/// at most one literal factor, placed first and different from `0` and `1`)
/// or a pair whose exact coefficient is out of the `i32` range and therefore
/// stays unflattened.
pub open spec fn is_canon(e: Expr) -> bool
    decreases e, 0int,
{
    match e {
        Expr::Number(_) => true,
        Expr::Variable(_) => true,
        Expr::Constant(_) => true,
        Expr::UnaryOp { op, expr } => is_canon(*expr) && (match *expr {
            Expr::Number(n) => n == i32::MIN,
            _ => true,
        }),
        Expr::BinaryOp { op, left, right } => {
            let l = *left;
            let r = *right;
            is_canon(l) && is_canon(r) && (match op {
                BinaryOp::Add => l != Expr::Number(0i32) && r != Expr::Number(0i32) && !(l is Number
                    && r is Number && fits_i32(l->Number_0 + r->Number_0)),
                BinaryOp::Sub => r != Expr::Number(0i32) && !(l is Number && r is Number
                    && fits_i32(l->Number_0 - r->Number_0)),
                BinaryOp::Div => l != Expr::Number(0i32) && r != Expr::Number(1i32) && !(l is Number
                    && r is Number && r->Number_0 != 0 && fits_i32(
                    tdiv(l->Number_0 as int, r->Number_0 as int),
                )),
                BinaryOp::Pow => r != Expr::Number(0i32) && r != Expr::Number(1i32) && !(l is Number
                    && r is Number && r->Number_0 >= 0 && fits_i32(
                    pow(l->Number_0 as int, r->Number_0 as nat),
                )),
                BinaryOp::Mul => (chain_left_ok(l) && is_factor(r)) || !fits_i32(
                    flat_coeff(l) * flat_coeff(r),
                ),
            })
        },
    }
}

/// `e` can stand as a non-literal factor of a multiplication chain.
pub open spec fn is_factor(e: Expr) -> bool
    decreases e, 1int,
{
    is_canon(e) && !(e is Number) && !is_mul(e)
}

/// `e` can stand as the left part of a multiplication chain: either the
/// leading literal coefficient, a single factor, or a shorter chain.
pub open spec fn chain_left_ok(e: Expr) -> bool
    decreases e, 2int,
{
    match e {
        Expr::Number(n) => n != 0 && n != 1,
        Expr::BinaryOp { op, left, right } => if op is Mul {
            chain_left_ok(*left) && is_factor(*right)
        } else {
            is_factor(e)
        },
        _ => is_factor(e),
    }
}

// ---------------------------------------------------------------------------
// Arithmetic helper lemmas
// ---------------------------------------------------------------------------

/// The absolute value of a product is the product of the absolute values.
proof fn lemma_abs_mul(x: int, y: int)
    ensures
        iabs(x * y) == iabs(x) * iabs(y),
{
    if x >= 0 && y >= 0 {
        assert(x * y >= 0) by (nonlinear_arith)
            requires
                x >= 0,
                y >= 0,
        ;
    } else if x < 0 && y < 0 {
        assert(x * y >= 0 && x * y == (-x) * (-y)) by (nonlinear_arith)
            requires
                x < 0,
                y < 0,
        ;
    } else if x < 0 {
        assert(x * y <= 0 && -(x * y) == (-x) * y) by (nonlinear_arith)
            requires
                x < 0,
                y >= 0,
        ;
    } else {
        assert(x * y <= 0 && -(x * y) == x * (-y)) by (nonlinear_arith)
            requires
                x >= 0,
                y < 0,
        ;
    }
}

/// Multiplying by a non-zero integer can only grow the absolute value.
proof fn lemma_mul_abs_grows(x: int, y: int)
    requires
        y != 0,
    ensures
        iabs(x * y) >= iabs(x),
{
    lemma_abs_mul(x, y);
    assert(iabs(x) * iabs(y) >= iabs(x) * 1) by (nonlinear_arith)
        requires
            iabs(x) >= 0,
            iabs(y) >= 1,
    ;
}

// ---------------------------------------------------------------------------
// Sequence product lemmas
// ---------------------------------------------------------------------------

proof fn lemma_seq_product_push(s: Seq<i32>, x: i32)
    ensures
        seq_product(s.push(x)) == seq_product(s) * x,
{
    assert(s.push(x).drop_last() =~= s);
    assert(s.push(x).last() == x);
}

proof fn lemma_seq_product_concat(a: Seq<i32>, b: Seq<i32>)
    ensures
        seq_product(a + b) == seq_product(a) * seq_product(b),
    decreases b.len(),
{
    if b.len() == 0 {
        assert(a + b =~= a);
    } else {
        let b0 = b.drop_last();
        assert((a + b).drop_last() =~= a + b0);
        assert((a + b).len() > 0);
        lemma_seq_product_concat(a, b0);
        assert(seq_product(a) * (seq_product(b0) * b.last()) == (seq_product(a) * seq_product(b0))
            * b.last()) by (nonlinear_arith);
    }
}

proof fn lemma_flat_coeff_product(e: Expr)
    ensures
        seq_product(flat_nums(e)) == flat_coeff(e),
    decreases e,
{
    match e {
        Expr::BinaryOp { op, left, right } => {
            if op is Mul {
                lemma_flat_coeff_product(*left);
                lemma_flat_coeff_product(*right);
                lemma_seq_product_concat(flat_nums(*left), flat_nums(*right));
                assert(flat_nums(e) == flat_nums(*left) + flat_nums(*right));
                assert(flat_coeff(e) == flat_coeff(*left) * flat_coeff(*right));
            } else {
                assert(flat_nums(e) =~= Seq::<i32>::empty());
                assert(seq_product(flat_nums(e)) == 1);
                assert(flat_coeff(e) == 1);
            }
        },
        Expr::Number(n) => {
            assert(seq![n].drop_last() =~= Seq::<i32>::empty());
            assert(seq_product(Seq::<i32>::empty()) == 1);
            assert(flat_nums(e) == seq![n]);
        },
        _ => {
            assert(flat_nums(e) =~= Seq::<i32>::empty());
            assert(seq_product(flat_nums(e)) == 1);
        },
    }
}

proof fn lemma_seq_product_zero(s: Seq<i32>, j: int)
    requires
        0 <= j < s.len(),
        s[j] == 0,
    ensures
        seq_product(s) == 0,
    decreases s.len(),
{
    assert(seq_product(s) == seq_product(s.drop_last()) * s.last());
    if j == s.len() - 1 {
        assert(seq_product(s.drop_last()) * 0 == 0) by (nonlinear_arith);
    } else {
        assert(s.drop_last()[j] == 0);
        lemma_seq_product_zero(s.drop_last(), j);
        assert(0 * (s.last() as int) == 0) by (nonlinear_arith);
    }
}


// ---------------------------------------------------------------------------
// Canonical-form lemmas
// ---------------------------------------------------------------------------


proof fn lemma_chain_left_factors(e: Expr)
    requires
        chain_left_ok(e),
    ensures
        forall|i: int|
            0 <= i < flat_factors(e).len() ==> is_factor(#[trigger] flat_factors(e)[i]),
    decreases e,
{
    reveal_with_fuel(is_canon, 3);
    reveal_with_fuel(is_factor, 3);
    reveal_with_fuel(chain_left_ok, 3);
    match e {
        Expr::Number(_) => {},
        Expr::BinaryOp { op, left, right } => {
            if op is Mul {
                lemma_chain_left_factors(*left);
                assert(flat_factors(*right) =~= seq![*right]);
                let a = flat_factors(*left);
                let b = flat_factors(*right);
                assert forall|i: int|
                    0 <= i < flat_factors(e).len() implies is_factor(
                    #[trigger] flat_factors(e)[i],
                ) by {
                    assert(flat_factors(e) == a + b);
                    if i < a.len() {
                        assert((a + b)[i] == a[i]);
                    } else {
                        assert((a + b)[i] == b[i - a.len()]);
                        assert(b[0] == *right);
                    }
                };
            } else {
                assert(flat_factors(e) =~= seq![e]);
            }
        },
        _ => {
            assert(flat_factors(e) =~= seq![e]);
        },
    }
}

proof fn lemma_canon_factors(e: Expr)
    requires
        is_canon(e),
    ensures
        forall|i: int|
            0 <= i < flat_factors(e).len() ==> is_factor(#[trigger] flat_factors(e)[i]),
    decreases e,
{
    reveal_with_fuel(is_canon, 3);
    reveal_with_fuel(is_factor, 3);
    reveal_with_fuel(chain_left_ok, 3);
    match e {
        Expr::Number(_) => {},
        Expr::BinaryOp { op, left, right } => {
            if op is Mul {
                if chain_left_ok(*left) && is_factor(*right) {
                    lemma_chain_left_factors(*left);
                    assert(flat_factors(*right) =~= seq![*right]);
                } else {
                    lemma_canon_factors(*left);
                    lemma_canon_factors(*right);
                }
                let a = flat_factors(*left);
                let b = flat_factors(*right);
                assert forall|i: int|
                    0 <= i < flat_factors(e).len() implies is_factor(
                    #[trigger] flat_factors(e)[i],
                ) by {
                    assert(flat_factors(e) == a + b);
                    if i < a.len() {
                        assert((a + b)[i] == a[i]);
                    } else {
                        assert((a + b)[i] == b[i - a.len()]);
                    }
                };
            } else {
                assert(flat_factors(e) =~= seq![e]);
            }
        },
        _ => {
            assert(flat_factors(e) =~= seq![e]);
        },
    }
}

proof fn lemma_chain_from_shift(h: Expr, s1: Seq<Expr>, i1: int, s2: Seq<Expr>, i2: int)
    requires
        0 <= i1 <= s1.len(),
        0 <= i2 <= s2.len(),
        s1.skip(i1) == s2.skip(i2),
    ensures
        chain_from(h, s1, i1) == chain_from(h, s2, i2),
    decreases s1.len() - i1,
{
    assert(s1.skip(i1).len() == s1.len() - i1);
    assert(s2.skip(i2).len() == s2.len() - i2);
    if i1 >= s1.len() {
        assert(i2 >= s2.len());
    } else {
        assert(s1[i1] == s1.skip(i1)[0]);
        assert(s2[i2] == s2.skip(i2)[0]);
        assert forall|j: int|
            0 <= j < s1.len() - (i1 + 1) implies #[trigger] s1.skip(i1 + 1)[j] == s2.skip(
            i2 + 1,
        )[j] by {
            assert(s1.skip(i1 + 1)[j] == s1[i1 + 1 + j]);
            assert(s2.skip(i2 + 1)[j] == s2[i2 + 1 + j]);
            assert(s1.skip(i1)[j + 1] == s1[i1 + 1 + j]);
            assert(s2.skip(i2)[j + 1] == s2[i2 + 1 + j]);
        };
        assert(s1.skip(i1 + 1) =~= s2.skip(i2 + 1));
        lemma_chain_from_shift(mk_bin(BinaryOp::Mul, h, s1[i1]), s1, i1 + 1, s2, i2 + 1);
    }
}

/// Flattening a canonical chain `l` and rebuilding it with `tail` appended
/// gives exactly the left-associated product of `l` with `tail`.
proof fn lemma_chain_rebuild(l: Expr, tail: Seq<Expr>)
    requires
        chain_left_ok(l),
        tail.len() >= 1,
    ensures
        ({
            let c = flat_coeff(l);
            let os = flat_factors(l) + tail;
            &&& fits_i32(c)
            &&& c != 0
            &&& os.len() >= 1
            &&& !(c == 1 && os.len() == 1)
            &&& (if c == 1 {
                chain_from(os[0], os, 1)
            } else {
                chain_from(mk_bin(BinaryOp::Mul, Expr::Number(c as i32), os[0]), os, 1)
            }) == chain_from(l, tail, 0)
        }),
    decreases l,
{
    reveal_with_fuel(is_canon, 3);
    reveal_with_fuel(is_factor, 3);
    reveal_with_fuel(chain_left_ok, 3);
    let c = flat_coeff(l);
    let os = flat_factors(l) + tail;
    match l {
        Expr::Number(n) => {
            assert(flat_factors(l) =~= Seq::<Expr>::empty());
            assert(os =~= tail);
            assert(c == n as int);
            assert(chain_from(l, tail, 0) == chain_from(
                mk_bin(BinaryOp::Mul, Expr::Number(n), tail[0]),
                tail,
                1,
            ));
        },
        Expr::BinaryOp { op, left, right } => {
            if op is Mul {
                let a = *left;
                let b = *right;
                assert(flat_coeff(b) == 1);
                assert(flat_factors(b) =~= seq![b]);
                assert(c == flat_coeff(a) * 1);
                lemma_chain_rebuild(a, seq![b] + tail);
                let os_a = flat_factors(a) + (seq![b] + tail);
                assert(os =~= os_a);
                assert((seq![b] + tail)[0] == b);
                // unfold one step of the right-hand side of the induction
                // hypothesis, then shift it onto `tail`
                assert(chain_from(a, seq![b] + tail, 0) == chain_from(
                    mk_bin(BinaryOp::Mul, a, b),
                    seq![b] + tail,
                    1,
                ));
                assert(mk_bin(BinaryOp::Mul, a, b) == l);
                assert((seq![b] + tail).skip(1) =~= tail.skip(0));
                lemma_chain_from_shift(l, seq![b] + tail, 1, tail, 0);
            } else {
                assert(flat_factors(l) =~= seq![l]);
                assert(c == 1);
                assert(os[0] == l);
                assert(os.skip(1) =~= tail.skip(0));
                lemma_chain_from_shift(l, os, 1, tail, 0);
            }
        },
        _ => {
            assert(flat_factors(l) =~= seq![l]);
            assert(c == 1);
            assert(os[0] == l);
            assert(os.skip(1) =~= tail.skip(0));
            lemma_chain_from_shift(l, os, 1, tail, 0);
        },
    }
}

proof fn lemma_chain_from_canon(head: Expr, os: Seq<Expr>, i: int)
    requires
        0 <= i <= os.len(),
        is_canon(head),
        chain_left_ok(head),
        forall|j: int| i <= j < os.len() ==> is_factor(#[trigger] os[j]),
    ensures
        is_canon(chain_from(head, os, i)),
    decreases os.len() - i,
{
    reveal_with_fuel(is_canon, 3);
    reveal_with_fuel(is_factor, 3);
    reveal_with_fuel(chain_left_ok, 3);
    if i < os.len() {
        let h2 = mk_bin(BinaryOp::Mul, head, os[i]);
        assert(is_canon(h2));
        assert(chain_left_ok(h2));
        lemma_chain_from_canon(h2, os, i + 1);
    }
}

/// Simplification always lands in the canonical form.
pub proof fn lemma_simp_canon(e: Expr)
    ensures
        is_canon(simp(e)),
    decreases e,
{
    reveal_with_fuel(is_canon, 3);
    reveal_with_fuel(is_factor, 3);
    reveal_with_fuel(chain_left_ok, 3);
    match e {
        Expr::Number(_) => {},
        Expr::Variable(_) => {},
        Expr::Constant(_) => {},
        Expr::UnaryOp { op, expr } => {
            lemma_simp_canon(*expr);
        },
        Expr::BinaryOp { op, left, right } => {
            lemma_simp_canon(*left);
            lemma_simp_canon(*right);
            let l = simp(*left);
            let r = simp(*right);
            if op is Mul {
                lemma_canon_factors(l);
                lemma_canon_factors(r);
                let c = flat_coeff(l) * flat_coeff(r);
                let os = flat_factors(l) + flat_factors(r);
                if c == 0 {
                } else if !fits_i32(c) {
                    assert(flat_coeff(mk_bin(BinaryOp::Mul, l, r)) == c);
                    assert(is_canon(mk_bin(BinaryOp::Mul, l, r)));
                } else if os.len() == 0 {
                } else if c == 1 && os.len() == 1 {
                    assert(is_factor(os[0]));
                } else if c == 1 {
                    assert(is_factor(os[0]));
                    assert(chain_left_ok(os[0]));
                    lemma_chain_from_canon(os[0], os, 1);
                } else {
                    let head = mk_bin(BinaryOp::Mul, Expr::Number(c as i32), os[0]);
                    assert(chain_left_ok(Expr::Number(c as i32)));
                    assert(is_factor(os[0]));
                    assert(is_canon(head));
                    assert(chain_left_ok(head));
                    lemma_chain_from_canon(head, os, 1);
                }
            }
        },
    }
}

/// A canonical tree is a fixed point of simplification.
pub proof fn lemma_canon_simp(e: Expr)
    requires
        is_canon(e),
    ensures
        simp(e) == e,
    decreases e,
{
    reveal_with_fuel(is_canon, 3);
    reveal_with_fuel(is_factor, 3);
    reveal_with_fuel(chain_left_ok, 3);
    match e {
        Expr::Number(_) => {},
        Expr::Variable(_) => {},
        Expr::Constant(_) => {},
        Expr::UnaryOp { op, expr } => {
            lemma_canon_simp(*expr);
        },
        Expr::BinaryOp { op, left, right } => {
            lemma_canon_simp(*left);
            lemma_canon_simp(*right);
            let l = *left;
            let r = *right;
            if op is Mul {
                if chain_left_ok(l) && is_factor(r) {
                    assert(flat_factors(r) =~= seq![r]);
                    assert(flat_coeff(r) == 1);
                    lemma_chain_rebuild(l, seq![r]);
                    let c = flat_coeff(l);
                    assert(flat_coeff(l) * flat_coeff(r) == c);
                    assert(flat_factors(l) + flat_factors(r) =~= flat_factors(l) + seq![r]);
                    assert(chain_from(l, seq![r], 0) == chain_from(
                        mk_bin(BinaryOp::Mul, l, seq![r][0]),
                        seq![r],
                        1,
                    ));
                    assert(mk_bin(BinaryOp::Mul, l, r) == e);
                    assert(simp(e) == e);
                } else {
                    assert(!fits_i32(flat_coeff(l) * flat_coeff(r)));
                    assert(flat_coeff(l) * flat_coeff(r) != 0);
                    assert(mk_bin(BinaryOp::Mul, l, r) == e);
                }
            } else {
                assert(mk_bin(op, l, r) == e);
            }
        },
    }
}

/// The simplifier is idempotent: simplifying a tree twice gives the same
/// result as simplifying it once.
pub proof fn lemma_simplify_idempotent(e: Expr)
    ensures
        simp(simp(e)) == simp(e),
{
    lemma_simp_canon(e);
    lemma_canon_simp(simp(e));
}

// ---------------------------------------------------------------------------
// Executable helpers
// ---------------------------------------------------------------------------

/// The literal value of `e`, if `e` is a literal.
fn as_number(e: &Expr) -> (r: Option<i32>)
    ensures
        match r {
            Some(v) => *e == Expr::Number(v),
            None => !(*e is Number),
        },
{
    match e {
        Expr::Number(n) => Some(*n),
        _ => None,
    }
}

fn mk_bin_exec(op: BinaryOp, l: Expr, r: Expr) -> (res: Expr)
    ensures
        res == mk_bin(op, l, r),
{
    Expr::BinaryOp { op, left: Box::new(l), right: Box::new(r) }
}

/// Truncating `i32` division, widened so that `i32::MIN / -1` is exact.
fn trunc_div(a: i32, b: i32) -> (q: i64)
    requires
        b != 0,
    ensures
        q as int == tdiv(a as int, b as int),
{
    let aa: i64 = a as i64;
    let bb: i64 = b as i64;
    let ma: u64 = if aa < 0 {
        (-aa) as u64
    } else {
        aa as u64
    };
    let mb: u64 = if bb < 0 {
        (-bb) as u64
    } else {
        bb as u64
    };
    let mq: u64 = ma / mb;
    proof {
        assert(ma as int == iabs(a as int));
        assert(mb as int == iabs(b as int));
        assert(ma as int / mb as int <= ma as int) by (nonlinear_arith)
            requires
                mb as int >= 1,
                ma as int >= 0,
        ;
    }
    if (a < 0) != (b < 0) {
        -(mq as i64)
    } else {
        mq as i64
    }
}

/// Folds `a ^ b` when the result is representable.
fn pow_fold(a: i32, b: i32) -> (res: Option<i32>)
    requires
        b >= 0,
    ensures
        match res {
            Some(v) => v as int == pow(a as int, b as nat),
            None => !fits_i32(pow(a as int, b as nat)),
        },
{
    let mut acc: i64 = 1;
    let mut k: i32 = 0;
    proof {
        reveal(pow);
    }
    while k < b
        invariant
            0 <= k <= b,
            acc as int == pow(a as int, k as nat),
            -2147483648i64 <= acc && acc <= 2147483648i64,
        decreases b - k,
    {
        proof {
            assert((acc as int) * (a as int) <= 0x4000000000000000 && (acc as int) * (a as int)
                >= -0x4000000000000000) by (nonlinear_arith)
                requires
                    -0x80000000 <= acc as int <= 0x80000000,
                    -0x80000000 <= a as int <= 0x80000000,
            ;
        }
        let next: i64 = acc * (a as i64);
        proof {
            reveal(pow);
            assert(pow(a as int, (k + 1) as nat) == (a as int) * pow(a as int, k as nat));
        }
        if next > 2147483648i64 || next < -2147483648i64 {
            proof {
                assert(next as int == (acc as int) * (a as int));
                assert(a != 0 && acc != 0) by {
                    if a == 0 {
                        assert((acc as int) * 0 == 0) by (nonlinear_arith);
                    }
                    if acc == 0 {
                        assert(0 * (a as int) == 0) by (nonlinear_arith);
                    }
                };
                let rest = (b - k - 1) as nat;
                vstd::arithmetic::power::lemma_pow_adds(a as int, (k + 1) as nat, rest);
                lemma_pow_nonzero(a as int, rest);
                lemma_mul_abs_grows(next as int, pow(a as int, rest));
                assert(iabs(pow(a as int, b as nat)) > 0x80000000);
            }
            return None;
        }
        acc = next;
        k = k + 1;
    }
    if acc > 2147483647i64 {
        None
    } else {
        Some(acc as i32)
    }
}

proof fn lemma_pow_nonzero(a: int, e: nat)
    requires
        a != 0,
    ensures
        pow(a, e) != 0,
    decreases e,
{
    reveal(pow);
    if e > 0 {
        lemma_pow_nonzero(a, (e - 1) as nat);
        assert(a * pow(a, (e - 1) as nat) != 0) by (nonlinear_arith)
            requires
                a != 0,
                pow(a, (e - 1) as nat) != 0,
        ;
    }
}

/// Flattens a multiplication tree, collecting literal and non-literal
/// factors in order.
fn flatten_mul(e: &Expr, nums: &mut Vec<i32>, others: &mut Vec<Expr>)
    ensures
        final(nums)@ == old(nums)@ + flat_nums(*e),
        final(others)@ == old(others)@ + flat_factors(*e),
    decreases *e,
{
    match e {
        Expr::BinaryOp { op: BinaryOp::Mul, left, right } => {
            flatten_mul(left, nums, others);
            flatten_mul(right, nums, others);
            proof {
                assert(nums@ =~= old(nums)@ + flat_nums(*e));
                assert(others@ =~= old(others)@ + flat_factors(*e));
            }
        },
        Expr::Number(n) => {
            nums.push(*n);
            proof {
                assert(nums@ =~= old(nums)@ + flat_nums(*e));
                assert(others@ =~= old(others)@ + flat_factors(*e));
            }
        },
        _ => {
            others.push(e.duplicate());
            proof {
                assert(nums@ =~= old(nums)@ + flat_nums(*e));
                assert(others@ =~= old(others)@ + flat_factors(*e));
            }
        },
    }
}

/// Computes the exact product of `nums` when it is representable, and
/// reports an out-of-range product as `None`.
fn coeff_status(nums: &Vec<i32>) -> (res: Option<i32>)
    ensures
        match res {
            Some(c) => c as int == seq_product(nums@),
            None => !fits_i32(seq_product(nums@)),
        },
{
    let n = nums.len();
    let mut i: usize = 0;
    while i < n
        invariant
            n == nums@.len(),
            0 <= i <= n,
            forall|j: int| 0 <= j < i ==> nums@[j] != 0,
        decreases n - i,
    {
        if nums[i] == 0 {
            proof {
                lemma_seq_product_zero(nums@, i as int);
            }
            return Some(0);
        }
        i = i + 1;
    }
    let mut acc: i64 = 1;
    let mut big = false;
    let mut k: usize = 0;
    while k < n
        invariant
            n == nums@.len(),
            0 <= k <= n,
            forall|j: int| 0 <= j < n ==> nums@[j] != 0,
            !big ==> acc as int == seq_product(nums@.take(k as int)) && -2147483648i64 <= acc
                && acc <= 2147483648i64,
            big ==> iabs(seq_product(nums@.take(k as int))) > 0x80000000,
        decreases n - k,
    {
        let x = nums[k];
        proof {
            assert(nums@.take(k as int + 1) =~= nums@.take(k as int).push(nums@[k as int]));
            lemma_seq_product_push(nums@.take(k as int), nums@[k as int]);
        }
        if !big {
            proof {
                assert((acc as int) * (x as int) <= 0x4000000000000000 && (acc as int) * (x as int)
                    >= -0x4000000000000000) by (nonlinear_arith)
                    requires
                        -0x80000000 <= acc as int <= 0x80000000,
                        -0x80000000 <= x as int <= 0x80000000,
                ;
            }
            let next: i64 = acc * (x as i64);
            if next > 2147483648i64 || next < -2147483648i64 {
                big = true;
            } else {
                acc = next;
            }
        } else {
            proof {
                lemma_mul_abs_grows(seq_product(nums@.take(k as int)), x as int);
            }
        }
        k = k + 1;
    }
    proof {
        assert(nums@.take(n as int) =~= nums@);
    }
    if big || acc > 2147483647i64 {
        None
    } else {
        Some(acc as i32)
    }
}

/// The multiplication rule on simplified children.
fn simplify_mul(l: Expr, r: Expr) -> (res: Expr)
    ensures
        res == simp_mul(l, r),
{
    let mut nums: Vec<i32> = Vec::new();
    let mut others: Vec<Expr> = Vec::new();
    flatten_mul(&l, &mut nums, &mut others);
    flatten_mul(&r, &mut nums, &mut others);
    proof {
        assert(nums@ =~= flat_nums(l) + flat_nums(r));
        assert(others@ =~= flat_factors(l) + flat_factors(r));
        lemma_flat_coeff_product(l);
        lemma_flat_coeff_product(r);
        lemma_seq_product_concat(flat_nums(l), flat_nums(r));
    }
    let copt = coeff_status(&nums);
    match copt {
        None => mk_bin_exec(BinaryOp::Mul, l, r),
        Some(c) => {
            if c == 0 {
                Expr::Number(0)
            } else if others.len() == 0 {
                Expr::Number(c)
            } else if c == 1 && others.len() == 1 {
                others[0].duplicate()
            } else {
                let ghost os = others@;
                let head: Expr = if c != 1 {
                    Expr::BinaryOp {
                        op: BinaryOp::Mul,
                        left: Box::new(Expr::Number(c)),
                        right: Box::new(others[0].duplicate()),
                    }
                } else {
                    others[0].duplicate()
                };
                let ghost head0 = head;
                let mut ex = head;
                let mut i: usize = 1;
                while i < others.len()
                    invariant
                        1 <= i <= others@.len(),
                        others@ == os,
                        chain_from(head0, os, 1) == chain_from(ex, os, i as int),
                    decreases others@.len() - i,
                {
                    ex = Expr::BinaryOp {
                        op: BinaryOp::Mul,
                        left: Box::new(ex),
                        right: Box::new(others[i].duplicate()),
                    };
                    i = i + 1;
                }
                ex
            }
        },
    }
}

/// The addition rule on simplified children.
fn simplify_add(l: Expr, r: Expr) -> (res: Expr)
    ensures
        res == simp_add(l, r),
{
    let ln = as_number(&l);
    let rn = as_number(&r);
    match (ln, rn) {
        (Some(a), Some(b)) => {
            if a == 0 {
                r
            } else if b == 0 {
                l
            } else {
                let s: i64 = a as i64 + b as i64;
                if s >= -2147483648i64 && s <= 2147483647i64 {
                    Expr::Number(s as i32)
                } else {
                    mk_bin_exec(BinaryOp::Add, l, r)
                }
            }
        },
        (Some(a), None) => {
            if a == 0 {
                r
            } else {
                mk_bin_exec(BinaryOp::Add, l, r)
            }
        },
        (None, Some(b)) => {
            if b == 0 {
                l
            } else {
                mk_bin_exec(BinaryOp::Add, l, r)
            }
        },
        (None, None) => mk_bin_exec(BinaryOp::Add, l, r),
    }
}

/// The subtraction rule on simplified children.
fn simplify_sub(l: Expr, r: Expr) -> (res: Expr)
    ensures
        res == simp_sub(l, r),
{
    let ln = as_number(&l);
    let rn = as_number(&r);
    match (ln, rn) {
        (Some(a), Some(b)) => {
            if b == 0 {
                l
            } else {
                let s: i64 = a as i64 - b as i64;
                if s >= -2147483648i64 && s <= 2147483647i64 {
                    Expr::Number(s as i32)
                } else {
                    mk_bin_exec(BinaryOp::Sub, l, r)
                }
            }
        },
        (None, Some(b)) => {
            if b == 0 {
                l
            } else {
                mk_bin_exec(BinaryOp::Sub, l, r)
            }
        },
        (Some(_), None) => mk_bin_exec(BinaryOp::Sub, l, r),
        (None, None) => mk_bin_exec(BinaryOp::Sub, l, r),
    }
}

/// The division rule on simplified children.
fn simplify_div(l: Expr, r: Expr) -> (res: Expr)
    ensures
        res == simp_div(l, r),
{
    let ln = as_number(&l);
    let rn = as_number(&r);
    match (ln, rn) {
        (Some(a), Some(b)) => {
            if a == 0 {
                Expr::Number(0)
            } else if b == 1 {
                l
            } else if b != 0 {
                let q: i64 = trunc_div(a, b);
                if q >= -2147483648i64 && q <= 2147483647i64 {
                    Expr::Number(q as i32)
                } else {
                    mk_bin_exec(BinaryOp::Div, l, r)
                }
            } else {
                mk_bin_exec(BinaryOp::Div, l, r)
            }
        },
        (Some(a), None) => {
            if a == 0 {
                Expr::Number(0)
            } else {
                mk_bin_exec(BinaryOp::Div, l, r)
            }
        },
        (None, Some(b)) => {
            if b == 1 {
                l
            } else {
                mk_bin_exec(BinaryOp::Div, l, r)
            }
        },
        (None, None) => mk_bin_exec(BinaryOp::Div, l, r),
    }
}

/// The power rule on simplified children.
fn simplify_pow(l: Expr, r: Expr) -> (res: Expr)
    ensures
        res == simp_pow(l, r),
{
    let ln = as_number(&l);
    let rn = as_number(&r);
    match (ln, rn) {
        (Some(a), Some(b)) => {
            if b == 0 {
                Expr::Number(1)
            } else if b == 1 {
                l
            } else if b >= 0 {
                match pow_fold(a, b) {
                    Some(v) => Expr::Number(v),
                    None => mk_bin_exec(BinaryOp::Pow, l, r),
                }
            } else {
                mk_bin_exec(BinaryOp::Pow, l, r)
            }
        },
        (None, Some(b)) => {
            if b == 0 {
                Expr::Number(1)
            } else if b == 1 {
                l
            } else {
                mk_bin_exec(BinaryOp::Pow, l, r)
            }
        },
        (Some(_), None) => mk_bin_exec(BinaryOp::Pow, l, r),
        (None, None) => mk_bin_exec(BinaryOp::Pow, l, r),
    }
}

/// The negation rule on a simplified operand.
fn simplify_neg(u: Expr) -> (res: Expr)
    ensures
        res == simp_neg(u),
{
    match u {
        Expr::Number(n) => {
            if n == i32::MIN {
                Expr::UnaryOp { op: UnaryOp::Neg, expr: Box::new(Expr::Number(n)) }
            } else {
                Expr::Number(-n)
            }
        },
        other => Expr::UnaryOp { op: UnaryOp::Neg, expr: Box::new(other) },
    }
}

impl Expr {
    /// Returns the canonical simplified form of the tree: multiplication
    /// chains are flattened and their literal factors folded into one
    /// leading coefficient, literal operations are folded, and identity
    /// elements are dropped, exactly as [`simp`] describes.
    pub fn simplify(&self) -> (r: Expr)
        ensures
            r == simp(*self),
        decreases *self,
    {
        match self {
            Expr::Number(n) => Expr::Number(*n),
            Expr::Variable(c) => Expr::Variable(*c),
            Expr::Constant(c) => Expr::Constant(*c),
            Expr::UnaryOp { op, expr } => simplify_neg(expr.simplify()),
            Expr::BinaryOp { op, left, right } => {
                let l = left.simplify();
                let r = right.simplify();
                match op {
                    BinaryOp::Add => simplify_add(l, r),
                    BinaryOp::Sub => simplify_sub(l, r),
                    BinaryOp::Mul => simplify_mul(l, r),
                    BinaryOp::Div => simplify_div(l, r),
                    BinaryOp::Pow => simplify_pow(l, r),
                }
            },
        }
    }
}

} // verus!
