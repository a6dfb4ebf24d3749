//! The print/parse round trip.
//!
//! Printing a literal-only or single-operator tree and lexing and parsing the
//! text back restores a structurally equal tree — wherever the printed form
//! is unambiguous.  The known gaps are stated by [`rt_single`]: a negative
//! literal prints with a sign that re-reads as a negation node, and a
//! multiplication whose sign the printer omits does not re-parse.

use vstd::prelude::*;

use crate::ast::{BinaryOp, Expr, UnaryOp};
use crate::parser::{
    sp_base, sp_expr, sp_expr_more, sp_factor, sp_finish, sp_parse_at, sp_term, sp_term_more,
    Parsed,
};
use crate::printer::{dec_digit, dec_nat, mul_implicit, pp};
use crate::tokenizer::{
    digit_char_val, digits_val, is_digit_char, is_letter_char, lemma_digit_run_exact,
    lemma_x_run_exact, lex, lex_from, scan_token, Scan,
};
use crate::tokens::Token;

verus! {

/// A leaf whose printed form reads back as the same leaf: a non-negative
/// literal, the variable, or a letter constant.
pub open spec fn rt_leaf(e: Expr) -> bool {
    match e {
        Expr::Number(n) => n >= 0,
        Expr::Variable(c) => c == 'x',
        Expr::Constant(c) => is_letter_char(c) && c != 'x',
        _ => false,
    }
}

/// A literal-only or single-operator tree whose printed form is unambiguous:
/// a leaf, a negated leaf, or one operator over two leaves rendered with an
/// explicit operator sign.
pub open spec fn rt_single(e: Expr) -> bool {
    match e {
        Expr::UnaryOp { op, expr } => rt_leaf(*expr),
        Expr::BinaryOp { op, left, right } => rt_leaf(*left) && rt_leaf(*right) && !mul_implicit(
            *left,
            *right,
        ),
        _ => rt_leaf(e),
    }
}

/// The token a leaf prints to.
pub open spec fn leaf_token(e: Expr) -> Token {
    match e {
        Expr::Number(n) => Token::NUMBER(n),
        Expr::Variable(c) => Token::VARIABLE(c),
        Expr::Constant(c) => Token::CONSTANT(c),
        _ => Token::EOF,
    }
}

/// The glyph of a binary operator.
pub open spec fn op_char(op: BinaryOp) -> char {
    match op {
        BinaryOp::Add => '+',
        BinaryOp::Sub => '-',
        BinaryOp::Mul => '*',
        BinaryOp::Div => '/',
        BinaryOp::Pow => '^',
    }
}

spec fn is_op_char(c: char) -> bool {
    c == '+' || c == '-' || c == '*' || c == '/' || c == '^'
}

proof fn lemma_digits_val_transfer(cs: Seq<char>, pos: int, s: Seq<char>, k: int)
    requires
        0 <= k,
        forall|j: int| 0 <= j < k ==> cs[pos + j] == s[j],
    ensures
        digits_val(cs, pos, k) == digits_val(s, 0, k),
    decreases k,
{
    if k > 0 {
        lemma_digits_val_transfer(cs, pos, s, k - 1);
        assert(cs[pos + k - 1] == s[k - 1]);
    }
}

/// The decimal rendering of `n` is a non-empty digit run whose value is `n`.
proof fn lemma_dec_nat_digits(n: nat)
    ensures
        dec_nat(n).len() >= 1,
        forall|j: int| 0 <= j < dec_nat(n).len() ==> is_digit_char(#[trigger] dec_nat(n)[j]),
        digits_val(dec_nat(n), 0, dec_nat(n).len() as int) == n,
    decreases n,
{
    if n < 10 {
        assert(digit_char_val(dec_digit(n as int)) == n);
        assert(digits_val(dec_nat(n), 0, 1) == digits_val(dec_nat(n), 0, 0) * 10 + digit_char_val(
            dec_nat(n)[0],
        ));
    } else {
        lemma_dec_nat_digits(n / 10);
        let s1 = dec_nat(n / 10);
        let d = dec_digit((n % 10) as int);
        let s = s1 + seq![d];
        assert(dec_nat(n) == s);
        let k = s1.len() as int;
        assert(is_digit_char(d));
        assert(digit_char_val(d) == n % 10);
        assert forall|j: int| 0 <= j < k implies s[j] == s1[j] by {}
        lemma_digits_val_transfer(s, 0, s1, k);
        assert(digits_val(s, 0, k + 1) == digits_val(s, 0, k) * 10 + digit_char_val(s[k]));
        assert(digits_val(s, 0, k + 1) == (n / 10) * 10 + n % 10);
        assert((n / 10) * 10 + n % 10 == n);
    }
}

/// Scanning at the start of a printed leaf, bounded by an operator glyph or
/// the end of the input, yields exactly the leaf's token.
proof fn lemma_scan_leaf(cs: Seq<char>, pos: int, e: Expr)
    requires
        rt_leaf(e),
        0 <= pos,
        pos + pp(e).len() <= cs.len(),
        cs.subrange(pos, pos + pp(e).len() as int) == pp(e),
        pos + pp(e).len() == cs.len() || is_op_char(cs[pos + pp(e).len()]),
    ensures
        scan_token(cs, pos) == Scan::Tok(leaf_token(e), pos + pp(e).len()),
{
    let s = pp(e);
    let k = s.len() as int;
    assert forall|j: int| 0 <= j < k implies cs[pos + j] == s[j] by {
        assert(cs.subrange(pos, pos + k)[j] == cs[pos + j]);
    }
    match e {
        Expr::Number(n) => {
            lemma_dec_nat_digits(n as nat);
            assert(s == dec_nat(n as nat));
            assert forall|j: int| pos <= j < pos + k implies is_digit_char(#[trigger] cs[j]) by {
                assert(cs[j] == s[j - pos]);
            }
            assert(pos + k == cs.len() || !is_digit_char(cs[pos + k]));
            lemma_digit_run_exact(cs, pos, k);
            lemma_digits_val_transfer(cs, pos, s, k);
            assert(digits_val(cs, pos, k) == n);
            assert(cs.subrange(pos, pos + k)[0] == cs[pos]);
            assert(is_digit_char(cs[pos]));
        },
        Expr::Variable(c) => {
            assert(cs.subrange(pos, pos + k)[0] == cs[pos]);
            assert(cs[pos] == 'x');
            lemma_x_run_exact(cs, pos, 1);
        },
        Expr::Constant(c) => {
            assert(cs.subrange(pos, pos + k)[0] == cs[pos]);
            assert(cs[pos] == c);
        },
        _ => {},
    }
}

/// Scanning past the end of the text yields `EOF`, so lexing from the end
/// yields exactly the `EOF` token.
proof fn lemma_lex_end(cs: Seq<char>)
    ensures
        lex_from(cs, cs.len() as int) == Ok::<Seq<Token>, (crate::tokenizer::ErrorKind, int)>(
            seq![Token::EOF],
        ),
{
}

/// A parsed leaf token is the leaf itself.
proof fn lemma_base_leaf(ts: Seq<Token>, i: int, e: Expr)
    requires
        rt_leaf(e),
        0 <= i < ts.len(),
        ts[i] == leaf_token(e),
    ensures
        sp_base(ts, i) == Parsed::Node(e, i + 1),
{
}

/// Printing a literal-only or single-operator tree, then tokenizing and
/// parsing the text, yields a structurally equal tree.
/// Lexing the print of `leaf op leaf` gives the three tokens and `EOF`.
#[verifier::spinoff_prover]
proof fn lemma_rt_bin_lex(e: Expr)
    requires
        rt_single(e),
        e is BinaryOp,
    ensures
        ({
            let opt = bin_token(e->BinaryOp_op);
            lex(pp(e)) == Ok::<Seq<Token>, (crate::tokenizer::ErrorKind, int)>(
                seq![leaf_token(*e->BinaryOp_left), opt, leaf_token(*e->BinaryOp_right), Token::EOF],
            )
        }),
{
    match e {
        Expr::BinaryOp { op, left, right } => {
            let s = pp(e);
            let l = *left;
            let r = *right;
            let sl = pp(l);
            let sr = pp(r);
            let kl = sl.len() as int;
            let kr = sr.len() as int;
            let oc = op_char(op);
            assert(s == sl + seq![oc] + sr);
            assert(s.len() == kl + 1 + kr);
            assert(s.subrange(0, kl) =~= sl);
            assert(s[kl] == oc);
            assert(is_op_char(oc));
            lemma_scan_leaf(s, 0, l);
            let opt = bin_token(op);
            assert(scan_token(s, kl) == Scan::Tok(opt, kl + 1));
            assert(s.subrange(kl + 1, kl + 1 + kr) =~= sr);
            lemma_scan_leaf(s, kl + 1, r);
            lemma_lex_end(s);
            let tl = leaf_token(l);
            let tr = leaf_token(r);
            assert(lex_from(s, kl + 1 + kr) == Ok::<Seq<Token>, (crate::tokenizer::ErrorKind, int)>(
                seq![Token::EOF],
            ));
            assert(lex_from(s, kl + 1) == Ok::<Seq<Token>, (crate::tokenizer::ErrorKind, int)>(
                seq![tr] + seq![Token::EOF],
            ));
            assert(lex_from(s, kl) == Ok::<Seq<Token>, (crate::tokenizer::ErrorKind, int)>(
                seq![opt] + (seq![tr] + seq![Token::EOF]),
            ));
            assert(lex_from(s, 0) == Ok::<Seq<Token>, (crate::tokenizer::ErrorKind, int)>(
                seq![tl] + (seq![opt] + (seq![tr] + seq![Token::EOF])),
            ));
            assert(seq![tl] + (seq![opt] + (seq![tr] + seq![Token::EOF])) =~= seq![tl, opt, tr, Token::EOF]);
        },
        _ => {},
    }
}

/// The token of a binary operator glyph.
pub open spec fn bin_token(op: BinaryOp) -> Token {
    match op {
        BinaryOp::Add => Token::PLUS,
        BinaryOp::Sub => Token::MINUS,
        BinaryOp::Mul => Token::MUL,
        BinaryOp::Div => Token::DIV,
        BinaryOp::Pow => Token::POW,
    }
}

/// Parsing the three tokens of `leaf op leaf` rebuilds the same tree.
#[verifier::spinoff_prover]
proof fn lemma_rt_bin_parse(e: Expr)
    requires
        rt_single(e),
        e is BinaryOp,
    ensures
        ({
            let ts = seq![
                leaf_token(*e->BinaryOp_left),
                bin_token(e->BinaryOp_op),
                leaf_token(*e->BinaryOp_right),
                Token::EOF,
            ];
            sp_parse_at(ts, 0) == Some(e)
        }),
{
    match e {
        Expr::BinaryOp { op, left, right } => {
            let l = *left;
            let r = *right;
            let tl = leaf_token(l);
            let tr = leaf_token(r);
            let opt = bin_token(op);
            let ts = seq![tl, opt, tr, Token::EOF];
            lemma_base_leaf(ts, 0, l);
            lemma_base_leaf(ts, 2, r);
            assert(sp_base(ts, 0) == Parsed::Node(l, 1));
            assert(sp_base(ts, 2) == Parsed::Node(r, 3));
            assert(!(ts[3] is POW) && !(ts[3] is MUL) && !(ts[3] is DIV) && !(ts[3] is PLUS) && !(
            ts[3] is MINUS));
            match op {
                BinaryOp::Pow => {
                    assert(ts[1] is POW);
                    assert(sp_factor(ts, 2) == Parsed::Node(r, 3));
                    assert(sp_factor(ts, 0) == Parsed::Node(e, 3));
                    assert(sp_term_more(ts, 3, e) == Parsed::Node(e, 3));
                    assert(sp_term(ts, 0) == Parsed::Node(e, 3));
                    assert(sp_expr_more(ts, 3, e) == Parsed::Node(e, 3));
                    assert(sp_expr(ts, 0) == Parsed::Node(e, 3));
                },
                BinaryOp::Mul => {
                    assert(sp_factor(ts, 0) == Parsed::Node(l, 1));
                    assert(sp_factor(ts, 2) == Parsed::Node(r, 3));
                    assert(sp_term_more(ts, 3, e) == Parsed::Node(e, 3));
                    assert(sp_term_more(ts, 1, l) == Parsed::Node(e, 3));
                    assert(sp_term(ts, 0) == Parsed::Node(e, 3));
                    assert(sp_expr_more(ts, 3, e) == Parsed::Node(e, 3));
                    assert(sp_expr(ts, 0) == Parsed::Node(e, 3));
                },
                BinaryOp::Div => {
                    assert(sp_factor(ts, 0) == Parsed::Node(l, 1));
                    assert(sp_factor(ts, 2) == Parsed::Node(r, 3));
                    assert(sp_term_more(ts, 3, e) == Parsed::Node(e, 3));
                    assert(sp_term_more(ts, 1, l) == Parsed::Node(e, 3));
                    assert(sp_term(ts, 0) == Parsed::Node(e, 3));
                    assert(sp_expr_more(ts, 3, e) == Parsed::Node(e, 3));
                    assert(sp_expr(ts, 0) == Parsed::Node(e, 3));
                },
                BinaryOp::Add => {
                    assert(sp_factor(ts, 0) == Parsed::Node(l, 1));
                    assert(sp_term_more(ts, 1, l) == Parsed::Node(l, 1));
                    assert(sp_term(ts, 0) == Parsed::Node(l, 1));
                    assert(ts[1] is PLUS);
                    assert(sp_factor(ts, 2) == Parsed::Node(r, 3));
                    assert(sp_term_more(ts, 3, r) == Parsed::Node(r, 3));
                    assert(sp_term(ts, 2) == Parsed::Node(r, 3));
                    assert(sp_expr_more(ts, 3, e) == Parsed::Node(e, 3));
                    assert(sp_expr_more(ts, 1, l) == Parsed::Node(e, 3));
                    assert(sp_expr(ts, 0) == Parsed::Node(e, 3));
                },
                BinaryOp::Sub => {
                    assert(sp_factor(ts, 0) == Parsed::Node(l, 1));
                    assert(sp_term_more(ts, 1, l) == Parsed::Node(l, 1));
                    assert(sp_term(ts, 0) == Parsed::Node(l, 1));
                    assert(ts[1] is MINUS);
                    assert(sp_factor(ts, 2) == Parsed::Node(r, 3));
                    assert(sp_term_more(ts, 3, r) == Parsed::Node(r, 3));
                    assert(sp_term(ts, 2) == Parsed::Node(r, 3));
                    assert(sp_expr_more(ts, 3, e) == Parsed::Node(e, 3));
                    assert(sp_expr_more(ts, 1, l) == Parsed::Node(e, 3));
                    assert(sp_expr(ts, 0) == Parsed::Node(e, 3));
                },
            }
            assert(sp_finish(ts, 3, e) == Some(e));
        },
        _ => {},
    }
}

/// Printing a literal-only or single-operator tree, then tokenizing and
/// parsing the text, yields a structurally equal tree.
#[verifier::spinoff_prover]
pub proof fn lemma_print_parse_round_trip(e: Expr)
    requires
        rt_single(e),
    ensures
        lex(pp(e)) is Ok,
        sp_parse_at(lex(pp(e))->Ok_0, 0) == Some(e),
{
    let s = pp(e);
    match e {
        Expr::UnaryOp { op, expr } => {
            let inner = *expr;
            let si = pp(inner);
            let k = si.len() as int;
            assert(s == seq!['-'] + si);
            assert(s.len() == 1 + k);
            assert(s[0] == '-');
            assert(scan_token(s, 0) == Scan::Tok(Token::MINUS, 1));
            assert(s.subrange(1, 1 + k) =~= si);
            lemma_scan_leaf(s, 1, inner);
            lemma_lex_end(s);
            assert(lex_from(s, 1 + k) == Ok::<Seq<Token>, (crate::tokenizer::ErrorKind, int)>(
                seq![Token::EOF],
            ));
            let tl = leaf_token(inner);
            assert(lex_from(s, 1) == Ok::<Seq<Token>, (crate::tokenizer::ErrorKind, int)>(
                seq![tl] + seq![Token::EOF],
            ));
            assert(lex_from(s, 0) == Ok::<Seq<Token>, (crate::tokenizer::ErrorKind, int)>(
                seq![Token::MINUS] + (seq![tl] + seq![Token::EOF]),
            ));
            let ts = lex(s)->Ok_0;
            assert(ts =~= seq![Token::MINUS, tl, Token::EOF]);
            lemma_base_leaf(ts, 1, inner);
            assert(sp_base(ts, 0) == Parsed::Node(e, 2));
            assert(!(ts[2] is POW));
            assert(sp_factor(ts, 0) == Parsed::Node(e, 2));
            assert(sp_term_more(ts, 2, e) == Parsed::Node(e, 2));
            assert(sp_term(ts, 0) == Parsed::Node(e, 2));
            assert(sp_expr_more(ts, 2, e) == Parsed::Node(e, 2));
            assert(sp_expr(ts, 0) == Parsed::Node(e, 2));
            assert(sp_finish(ts, 2, e) == Some(e));
        },
        Expr::BinaryOp { op, left, right } => {
            lemma_rt_bin_lex(e);
            lemma_rt_bin_parse(e);
        },
        _ => {
            let k = s.len() as int;
            assert(s.subrange(0, k) =~= s);
            lemma_scan_leaf(s, 0, e);
            lemma_lex_end(s);
            let tl = leaf_token(e);
            assert(lex_from(s, k) == Ok::<Seq<Token>, (crate::tokenizer::ErrorKind, int)>(
                seq![Token::EOF],
            ));
            assert(lex_from(s, 0) == Ok::<Seq<Token>, (crate::tokenizer::ErrorKind, int)>(
                seq![tl] + seq![Token::EOF],
            ));
            let ts = lex(s)->Ok_0;
            assert(ts =~= seq![tl, Token::EOF]);
            lemma_base_leaf(ts, 0, e);
            assert(!(ts[1] is POW));
            assert(sp_factor(ts, 0) == Parsed::Node(e, 1));
            assert(sp_term_more(ts, 1, e) == Parsed::Node(e, 1));
            assert(sp_term(ts, 0) == Parsed::Node(e, 1));
            assert(sp_expr_more(ts, 1, e) == Parsed::Node(e, 1));
            assert(sp_expr(ts, 0) == Parsed::Node(e, 1));
            assert(sp_finish(ts, 1, e) == Some(e));
        },
    }
}

} // verus!
