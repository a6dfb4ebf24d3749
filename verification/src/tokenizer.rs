//! The lexer: raw text to a token sequence, with source offsets.

use vstd::prelude::*;
use vstd::string::*;

use crate::tokens::{Token, WhiteSpace};

verus! {

// ---------------------------------------------------------------------------
// Character classes and runs
// ---------------------------------------------------------------------------

/// An ASCII decimal digit.
pub open spec fn is_digit_char(c: char) -> bool {
    ('0' as u32) <= (c as u32) <= ('9' as u32)
}

/// An ASCII letter, either case.
pub open spec fn is_letter_char(c: char) -> bool {
    (('a' as u32) <= (c as u32) <= ('z' as u32)) || (('A' as u32) <= (c as u32) <= ('Z' as u32))
}

/// The numeric value of a digit character.
pub open spec fn digit_char_val(c: char) -> int {
    c as u32 - '0' as u32
}

/// The length of the run of decimal digits starting at `pos`.
pub open spec fn digit_run_len(cs: Seq<char>, pos: int) -> int
    decreases cs.len() - pos,
{
    if pos < 0 || pos >= cs.len() || !is_digit_char(cs[pos]) {
        0
    } else {
        1 + digit_run_len(cs, pos + 1)
    }
}

/// The length of the run of `x` characters starting at `pos`.
pub open spec fn x_run_len(cs: Seq<char>, pos: int) -> int
    decreases cs.len() - pos,
{
    if pos < 0 || pos >= cs.len() || cs[pos] != 'x' {
        0
    } else {
        1 + x_run_len(cs, pos + 1)
    }
}

/// The value of the `k` digits `cs[pos .. pos + k]` read as a decimal
/// number.
pub open spec fn digits_val(cs: Seq<char>, pos: int, k: int) -> int
    decreases k,
{
    if k <= 0 {
        0
    } else {
        digits_val(cs, pos, k - 1) * 10 + digit_char_val(cs[pos + k - 1])
    }
}

proof fn lemma_digit_run_bound(cs: Seq<char>, pos: int)
    ensures
        0 <= digit_run_len(cs, pos),
        pos <= cs.len() ==> pos + digit_run_len(cs, pos) <= cs.len(),
        0 <= x_run_len(cs, pos),
        pos <= cs.len() ==> pos + x_run_len(cs, pos) <= cs.len(),
    decreases cs.len() - pos,
{
    if 0 <= pos && pos < cs.len() {
        lemma_digit_run_bound(cs, pos + 1);
    }
}

/// A run of `k` digits bounded by a non-digit (or the end of input) is
/// exactly what `digit_run_len` measures.
pub(crate) proof fn lemma_digit_run_exact(cs: Seq<char>, pos: int, k: int)
    requires
        0 <= pos,
        0 <= k,
        pos + k <= cs.len(),
        forall|j: int| pos <= j < pos + k ==> is_digit_char(#[trigger] cs[j]),
        pos + k == cs.len() || !is_digit_char(cs[pos + k]),
    ensures
        digit_run_len(cs, pos) == k,
    decreases k,
{
    if k > 0 {
        lemma_digit_run_exact(cs, pos + 1, k - 1);
    }
}

pub(crate) proof fn lemma_x_run_exact(cs: Seq<char>, pos: int, k: int)
    requires
        0 <= pos,
        0 <= k,
        pos + k <= cs.len(),
        forall|j: int| pos <= j < pos + k ==> #[trigger] cs[j] == 'x',
        pos + k == cs.len() || cs[pos + k] != 'x',
    ensures
        x_run_len(cs, pos) == k,
    decreases k,
{
    if k > 0 {
        lemma_x_run_exact(cs, pos + 1, k - 1);
    }
}

// ---------------------------------------------------------------------------
// The lexing relation
// ---------------------------------------------------------------------------

/// The reasons the tokenizer can reject its input.
#[derive(Debug, Clone, Copy, PartialEq, Eq, Structural)]
pub enum ErrorKind {
    /// A character outside the token vocabulary, carried for diagnostics.
    UnexpectedOrUnsupportedToken(char),
    /// A digit run whose value does not fit in an `i32`.
    InvalidNumber,
    /// A run of more than one `x`.
    InvalidVariable,
}

/// The outcome of scanning one token at a given position: the token and the
/// position after it, or an error kind and the offset it points at.
pub enum Scan {
    Tok(Token, int),
    Fail(ErrorKind, int),
}

/// Scans the single token starting at `pos`: whitespace and one-character
/// operators map directly, a digit run is read greedily as an integer, a
/// single `x` is the variable, any other single letter is a constant.  Past
/// the end of the input the scan yields `EOF`.  Errors point at the start of
/// the offending run.
pub open spec fn scan_token(cs: Seq<char>, pos: int) -> Scan
    recommends
        0 <= pos <= cs.len(),
{
    if pos < 0 || pos >= cs.len() {
        Scan::Tok(Token::EOF, pos)
    } else {
        let c = cs[pos];
        if c == ' ' {
            Scan::Tok(Token::WhiteSpace(WhiteSpace::SPACE), pos + 1)
        } else if c == '\t' {
            Scan::Tok(Token::WhiteSpace(WhiteSpace::TAB), pos + 1)
        } else if c == '\n' {
            Scan::Tok(Token::WhiteSpace(WhiteSpace::NEWLINE), pos + 1)
        } else if c == '+' {
            Scan::Tok(Token::PLUS, pos + 1)
        } else if c == '-' {
            Scan::Tok(Token::MINUS, pos + 1)
        } else if c == '*' {
            Scan::Tok(Token::MUL, pos + 1)
        } else if c == '/' {
            Scan::Tok(Token::DIV, pos + 1)
        } else if c == '^' {
            Scan::Tok(Token::POW, pos + 1)
        } else if c == '(' {
            Scan::Tok(Token::LEFTPAREN, pos + 1)
        } else if c == ')' {
            Scan::Tok(Token::RIGHTPAREN, pos + 1)
        } else if is_digit_char(c) {
            let k = digit_run_len(cs, pos);
            let v = digits_val(cs, pos, k);
            if v <= i32::MAX {
                Scan::Tok(Token::NUMBER(v as i32), pos + k)
            } else {
                Scan::Fail(ErrorKind::InvalidNumber, pos)
            }
        } else if c == 'x' {
            if x_run_len(cs, pos) == 1 {
                Scan::Tok(Token::VARIABLE('x'), pos + 1)
            } else {
                Scan::Fail(ErrorKind::InvalidVariable, pos)
            }
        } else if is_letter_char(c) {
            Scan::Tok(Token::CONSTANT(c), pos + 1)
        } else {
            Scan::Fail(ErrorKind::UnexpectedOrUnsupportedToken(c), pos)
        }
    }
}

/// The tokens of `cs[pos..]`, ending with `EOF`, or the first error.
pub open spec fn lex_from(cs: Seq<char>, pos: int) -> Result<Seq<Token>, (ErrorKind, int)>
    decreases cs.len() - pos + 1,
        via lex_from_decreases
{
    if pos < 0 || pos > cs.len() {
        Ok(seq![])
    } else {
        match scan_token(cs, pos) {
            Scan::Fail(k, off) => Err((k, off)),
            Scan::Tok(t, p2) => if t == Token::EOF {
                Ok(seq![Token::EOF])
            } else {
                match lex_from(cs, p2) {
                    Ok(rest) => Ok(seq![t] + rest),
                    Err(e) => Err(e),
                }
            },
        }
    }
}

#[via_fn]
proof fn lex_from_decreases(cs: Seq<char>, pos: int) {
    lemma_digit_run_bound(cs, pos);
    lemma_digit_run_bound(cs, pos + 1);
}

/// The token sequence of a whole input, or its first lexical error.
pub open spec fn lex(cs: Seq<char>) -> Result<Seq<Token>, (ErrorKind, int)> {
    lex_from(cs, 0)
}

// ---------------------------------------------------------------------------
// Locations, errors, located tokens
// ---------------------------------------------------------------------------

/// A position in the input: the zero-based character index.
#[derive(Debug, Clone, Copy, PartialEq, Eq, Structural)]
pub struct Location {
    pub expr_idx: usize,
}

impl Default for Location {
    /// The start of the input.
    fn default() -> (loc: Location)
        ensures
            loc.expr_idx == 0,
    {
        Location { expr_idx: 0 }
    }
}

/// A token together with the offset of its first character.
#[derive(Debug, PartialEq, Eq, Structural)]
pub struct TokenWithLocation {
    pub variant: Token,
    pub location: Location,
}

impl TokenWithLocation {
    /// Discards the location.
    pub fn token_only(self) -> (t: Token)
        ensures
            t == self.variant,
    {
        self.variant
    }

    /// The token itself.
    pub fn token(&self) -> (t: &Token)
        ensures
            *t == self.variant,
    {
        &self.variant
    }
}

/// A lexical error: what was wrong, where, and in which input.
#[derive(Debug)]
pub struct TokenizeError {
    pub kind: ErrorKind,
    pub location: Location,
    pub input: String,
}

// ---------------------------------------------------------------------------
// The character stream
// ---------------------------------------------------------------------------

/// A forward character stream over the input, tracking its position.
pub struct Stream {
    /// The original input.
    pub input: String,
    /// The current position in the stream.
    pub location: Location,
}

impl Stream {
    /// The position never runs past the end of the input.
    pub open spec fn wf(&self) -> bool {
        self.location.expr_idx <= self.input@.len()
    }

    /// Creates a new stream over `input`.
    fn new(input: &str) -> (s: Stream)
        ensures
            s.input@ == input@,
            s.location.expr_idx == 0,
            s.wf(),
    {
        Stream { input: input.to_owned(), location: Location { expr_idx: 0 } }
    }

    /// Consumes the next character, advancing the position.
    fn next(&mut self) -> (c: Option<char>)
        requires
            old(self).wf(),
        ensures
            final(self).input == old(self).input,
            final(self).wf(),
            match c {
                Some(ch) => {
                    &&& old(self).location.expr_idx < old(self).input@.len()
                    &&& ch == old(self).input@[old(self).location.expr_idx as int]
                    &&& final(self).location.expr_idx == old(self).location.expr_idx + 1
                },
                None => {
                    &&& old(self).location.expr_idx >= old(self).input@.len()
                    &&& final(self).location == old(self).location
                },
            },
    {
        let idx = self.location.expr_idx;
        if idx < self.input.as_str().unicode_len() {
            let c = self.input.as_str().get_char(idx);
            self.location.expr_idx = idx + 1;
            Some(c)
        } else {
            None
        }
    }

    /// The next character, without consuming it.
    fn peek(&self) -> (c: Option<char>)
        requires
            self.wf(),
        ensures
            match c {
                Some(ch) => self.location.expr_idx < self.input@.len() && ch
                    == self.input@[self.location.expr_idx as int],
                None => self.location.expr_idx >= self.input@.len(),
            },
    {
        let idx = self.location.expr_idx;
        if idx < self.input.as_str().unicode_len() {
            Some(self.input.as_str().get_char(idx))
        } else {
            None
        }
    }

    /// Consumes one character, then peeks at the one after it.
    fn peek_next(&mut self) -> (c: Option<char>)
        requires
            old(self).wf(),
        ensures
            final(self).input == old(self).input,
            final(self).wf(),
            final(self).location.expr_idx == (if old(self).location.expr_idx < old(self).input@.len() {
                old(self).location.expr_idx + 1
            } else {
                old(self).location.expr_idx as int
            }),
            match c {
                Some(ch) => {
                    &&& final(self).location.expr_idx < final(self).input@.len()
                    &&& ch == final(self).input@[final(self).location.expr_idx as int]
                },
                None => final(self).location.expr_idx >= final(self).input@.len(),
            },
    {
        self.next();
        self.peek()
    }

    /// The current position.
    fn location(&self) -> (loc: Location)
        ensures
            loc == self.location,
    {
        self.location
    }
}

// ---------------------------------------------------------------------------
// The tokenizer
// ---------------------------------------------------------------------------

type TokenResult = Result<Token, TokenizeError>;

/// The lexer state: a character stream and the one-shot end-of-input flag.
/// Once `EOF` has been produced, iteration yields nothing more.
pub struct Tokenizer {
    pub stream: Stream,
    pub reached_eof: bool,
}

impl Tokenizer {
    /// The stream position is inside the input.
    pub open spec fn wf(&self) -> bool {
        self.stream.wf()
    }

    /// The input as a character sequence.
    pub open spec fn cs(&self) -> Seq<char> {
        self.stream.input@
    }

    /// The current scan position.
    pub open spec fn pos(&self) -> int {
        self.stream.location.expr_idx as int
    }

    /// Creates a tokenizer over `input`.
    pub fn new(input: &str) -> (t: Tokenizer)
        ensures
            t.wf(),
            t.cs() == input@,
            t.pos() == 0,
            !t.reached_eof,
    {
        Tokenizer { stream: Stream::new(input), reached_eof: false }
    }

    /// Consumes one character and wraps `token`.
    fn consume(&mut self, token: Token) -> (r: TokenResult)
        requires
            old(self).wf(),
            old(self).pos() < old(self).cs().len(),
        ensures
            final(self).wf(),
            final(self).cs() == old(self).cs(),
            final(self).pos() == old(self).pos() + 1,
            final(self).reached_eof == old(self).reached_eof,
            r == Ok::<Token, TokenizeError>(token),
    {
        let _ = self.stream.next();
        Ok(token)
    }

    /// Builds an error at the current position.
    fn error(&self, kind: ErrorKind) -> (r: TokenResult)
        ensures
            r is Err,
            r->Err_0.kind == kind,
            r->Err_0.location == self.stream.location,
            r->Err_0.input@ == self.cs(),
    {
        Err(
            TokenizeError {
                kind,
                location: self.stream.location(),
                input: self.stream.input.clone(),
            },
        )
    }

    /// Reads a maximal digit run as an integer literal; a run whose value
    /// does not fit in an `i32` is an `InvalidNumber` error pointing at the
    /// start of the run.
    fn tokenize_number(&mut self) -> (r: TokenResult)
        requires
            old(self).wf(),
            old(self).pos() < old(self).cs().len(),
            is_digit_char(old(self).cs()[old(self).pos()]),
        ensures
            final(self).wf(),
            final(self).cs() == old(self).cs(),
            final(self).reached_eof == old(self).reached_eof,
            ({
                let cs = old(self).cs();
                let p = old(self).pos();
                let k = digit_run_len(cs, p);
                let v = digits_val(cs, p, k);
                &&& final(self).pos() == p + k
                &&& (v <= i32::MAX ==> r == Ok::<Token, TokenizeError>(Token::NUMBER(v as i32)))
                &&& (v > i32::MAX ==> r is Err && r->Err_0.kind == ErrorKind::InvalidNumber
                    && r->Err_0.location.expr_idx == p && r->Err_0.input@ == cs)
            }),
    {
        let ghost cs = self.stream.input@;
        let ghost eof0 = self.reached_eof;
        let start = self.stream.location.expr_idx;
        let mut acc: u64 = 0;
        let mut big = false;
        loop
            invariant
                self.wf(),
                self.stream.input@ == cs,
                self.reached_eof == eof0,
                start <= self.stream.location.expr_idx <= cs.len(),
                forall|j: int|
                    start <= j < self.stream.location.expr_idx ==> is_digit_char(#[trigger] cs[j]),
                digits_val(cs, start as int, self.stream.location.expr_idx - start) >= 0,
                !big ==> acc as int == digits_val(
                    cs,
                    start as int,
                    self.stream.location.expr_idx - start,
                ) && acc <= 0x7fffffffu64,
                big ==> digits_val(cs, start as int, self.stream.location.expr_idx - start)
                    > 0x7fffffff,
            ensures
                self.wf(),
                self.stream.input@ == cs,
                self.reached_eof == eof0,
                self.stream.location.expr_idx == start + digit_run_len(cs, start as int),
                digits_val(cs, start as int, digit_run_len(cs, start as int)) >= 0,
                !big ==> acc as int == digits_val(
                    cs,
                    start as int,
                    digit_run_len(cs, start as int),
                ) && acc <= 0x7fffffffu64,
                big ==> digits_val(cs, start as int, digit_run_len(cs, start as int)) > 0x7fffffff,
            decreases cs.len() - self.stream.location.expr_idx,
        {
            let ghost k = self.stream.location.expr_idx - start;
            let copt = self.stream.peek();
            match copt {
                Some(c) => {
                    let cu = c as u32;
                    if cu >= 48 && cu <= 57 {
                        let _ = self.stream.next();
                        let d: u64 = (cu - 48) as u64;
                        proof {
                            assert(digits_val(cs, start as int, k + 1) == digits_val(
                                cs,
                                start as int,
                                k,
                            ) * 10 + digit_char_val(cs[start + k]));
                        }
                        if !big {
                            let acc2 = acc * 10 + d;
                            if acc2 > 0x7fffffff {
                                big = true;
                            } else {
                                acc = acc2;
                            }
                        }
                    } else {
                        proof {
                            lemma_digit_run_exact(
                                cs,
                                start as int,
                                self.stream.location.expr_idx - start,
                            );
                        }
                        break ;
                    }
                },
                None => {
                    proof {
                        lemma_digit_run_exact(
                            cs,
                            start as int,
                            self.stream.location.expr_idx - start,
                        );
                    }
                    break ;
                },
            }
        }
        if big {
            Err(
                TokenizeError {
                    kind: ErrorKind::InvalidNumber,
                    location: Location { expr_idx: start },
                    input: self.stream.input.clone(),
                },
            )
        } else {
            Ok(Token::NUMBER(acc as i32))
        }
    }

    /// Reads a run of `x` characters; exactly one is the variable, a longer
    /// run is an `InvalidVariable` error pointing at the start of the run.
    fn tokenize_variable(&mut self) -> (r: TokenResult)
        requires
            old(self).wf(),
            old(self).pos() < old(self).cs().len(),
            old(self).cs()[old(self).pos()] == 'x',
        ensures
            final(self).wf(),
            final(self).cs() == old(self).cs(),
            final(self).reached_eof == old(self).reached_eof,
            ({
                let cs = old(self).cs();
                let p = old(self).pos();
                let k = x_run_len(cs, p);
                &&& final(self).pos() == p + k
                &&& (k == 1 ==> r == Ok::<Token, TokenizeError>(Token::VARIABLE('x')))
                &&& (k != 1 ==> r is Err && r->Err_0.kind == ErrorKind::InvalidVariable
                    && r->Err_0.location.expr_idx == p && r->Err_0.input@ == cs)
            }),
    {
        let ghost cs = self.stream.input@;
        let ghost eof0 = self.reached_eof;
        let start = self.stream.location.expr_idx;
        loop
            invariant
                self.wf(),
                self.stream.input@ == cs,
                self.reached_eof == eof0,
                start <= self.stream.location.expr_idx <= cs.len(),
                forall|j: int| start <= j < self.stream.location.expr_idx ==> #[trigger] cs[j] == 'x',
            ensures
                self.wf(),
                self.stream.input@ == cs,
                self.reached_eof == eof0,
                self.stream.location.expr_idx == start + x_run_len(cs, start as int),
            decreases cs.len() - self.stream.location.expr_idx,
        {
            let copt = self.stream.peek();
            match copt {
                Some(c) => {
                    if c == 'x' {
                        let _ = self.stream.next();
                    } else {
                        proof {
                            lemma_x_run_exact(
                                cs,
                                start as int,
                                self.stream.location.expr_idx - start,
                            );
                        }
                        break ;
                    }
                },
                None => {
                    proof {
                        lemma_x_run_exact(cs, start as int, self.stream.location.expr_idx - start);
                    }
                    break ;
                },
            }
        }
        let run = self.stream.location.expr_idx - start;
        if run == 1 {
            Ok(Token::VARIABLE('x'))
        } else {
            Err(
                TokenizeError {
                    kind: ErrorKind::InvalidVariable,
                    location: Location { expr_idx: start },
                    input: self.stream.input.clone(),
                },
            )
        }
    }

    /// Reads one letter other than `x` as an opaque constant symbol.
    fn tokenize_constants(&mut self) -> (r: TokenResult)
        requires
            old(self).wf(),
            old(self).pos() < old(self).cs().len(),
            is_letter_char(old(self).cs()[old(self).pos()]),
        ensures
            final(self).wf(),
            final(self).cs() == old(self).cs(),
            final(self).reached_eof == old(self).reached_eof,
            final(self).pos() == old(self).pos() + 1,
            r == Ok::<Token, TokenizeError>(Token::CONSTANT(old(self).cs()[old(self).pos()])),
    {
        let copt = self.stream.peek();
        match copt {
            Some(c) => self.consume(Token::CONSTANT(c)),
            None => {
                proof {
                    assert(false);
                }
                Ok(Token::EOF)
            },
        }
    }

    /// Scans the next token of the stream, exactly as [`scan_token`]
    /// describes, setting the end-of-input flag once `EOF` is produced.
    fn next_token(&mut self) -> (r: TokenResult)
        requires
            old(self).wf(),
        ensures
            final(self).wf(),
            final(self).cs() == old(self).cs(),
            ({
                let cs = old(self).cs();
                let p = old(self).pos();
                match scan_token(cs, p) {
                    Scan::Tok(t, p2) => {
                        &&& r == Ok::<Token, TokenizeError>(t)
                        &&& final(self).pos() == p2
                        &&& (final(self).reached_eof <==> (old(self).reached_eof || t
                            == Token::EOF))
                    },
                    Scan::Fail(k, off) => {
                        &&& r is Err
                        &&& r->Err_0.kind == k
                        &&& r->Err_0.location.expr_idx == off
                        &&& r->Err_0.input@ == cs
                        &&& final(self).reached_eof == old(self).reached_eof
                    },
                }
            }),
    {
        let copt = self.stream.peek();
        let c = match copt {
            None => {
                self.reached_eof = true;
                return Ok(Token::EOF);
            },
            Some(c) => c,
        };
        if c == ' ' {
            self.consume(Token::WhiteSpace(WhiteSpace::SPACE))
        } else if c == '\t' {
            self.consume(Token::WhiteSpace(WhiteSpace::TAB))
        } else if c == '\n' {
            self.consume(Token::WhiteSpace(WhiteSpace::NEWLINE))
        } else if c == '+' {
            self.consume(Token::PLUS)
        } else if c == '-' {
            self.consume(Token::MINUS)
        } else if c == '*' {
            self.consume(Token::MUL)
        } else if c == '/' {
            self.consume(Token::DIV)
        } else if c == '^' {
            self.consume(Token::POW)
        } else if c == '(' {
            self.consume(Token::LEFTPAREN)
        } else if c == ')' {
            self.consume(Token::RIGHTPAREN)
        } else if c as u32 >= 48 && c as u32 <= 57 {
            self.tokenize_number()
        } else if c == 'x' {
            self.tokenize_variable()
        } else if (c as u32 >= 97 && c as u32 <= 122) || (c as u32 >= 65 && c as u32 <= 90) {
            self.tokenize_constants()
        } else {
            self.error(ErrorKind::UnexpectedOrUnsupportedToken(c))
        }
    }

    /// Scans the next token, paired with the offset where it starts.
    fn next_token_with_location(&mut self) -> (r: Result<TokenWithLocation, TokenizeError>)
        requires
            old(self).wf(),
        ensures
            final(self).wf(),
            final(self).cs() == old(self).cs(),
            ({
                let cs = old(self).cs();
                let p = old(self).pos();
                match scan_token(cs, p) {
                    Scan::Tok(t, p2) => {
                        &&& r is Ok
                        &&& r->Ok_0.variant == t
                        &&& r->Ok_0.location.expr_idx == p
                        &&& final(self).pos() == p2
                        &&& (final(self).reached_eof <==> (old(self).reached_eof || t
                            == Token::EOF))
                    },
                    Scan::Fail(k, off) => {
                        &&& r is Err
                        &&& r->Err_0.kind == k
                        &&& r->Err_0.location.expr_idx == off
                        &&& r->Err_0.input@ == cs
                        &&& final(self).reached_eof == old(self).reached_eof
                    },
                }
            }),
    {
        let location = self.stream.location();
        match self.next_token() {
            Ok(token) => Ok(TokenWithLocation { variant: token, location }),
            Err(e) => Err(e),
        }
    }

    /// Scans the next located token, or nothing once `EOF` has been
    /// produced: the sequence is one-shot and non-restartable.
    fn optional_next_token_with_location(&mut self) -> (r: Option<
        Result<TokenWithLocation, TokenizeError>,
    >)
        requires
            old(self).wf(),
        ensures
            final(self).wf(),
            final(self).cs() == old(self).cs(),
            old(self).reached_eof ==> r is None && *final(self) == *old(self),
            !old(self).reached_eof ==> ({
                let cs = old(self).cs();
                let p = old(self).pos();
                &&& r is Some
                &&& match scan_token(cs, p) {
                    Scan::Tok(t, p2) => {
                        &&& r->Some_0 is Ok
                        &&& r->Some_0->Ok_0.variant == t
                        &&& r->Some_0->Ok_0.location.expr_idx == p
                        &&& final(self).pos() == p2
                        &&& (final(self).reached_eof <==> t == Token::EOF)
                    },
                    Scan::Fail(k, off) => {
                        &&& r->Some_0 is Err
                        &&& r->Some_0->Err_0.kind == k
                        &&& r->Some_0->Err_0.location.expr_idx == off
                        &&& r->Some_0->Err_0.input@ == cs
                        &&& !final(self).reached_eof
                    },
                }
            }),
    {
        if !self.reached_eof {
            Some(self.next_token_with_location())
        } else {
            None
        }
    }

    /// Tokenizes the entire input: the token sequence that [`lex`] describes
    /// (ending with `EOF`), or its first error with the offset of the
    /// offending run and the original input.
    pub fn tokenize(&mut self) -> (r: Result<Vec<Token>, TokenizeError>)
        requires
            old(self).wf(),
        ensures
            final(self).wf(),
            old(self).reached_eof ==> r is Ok && r->Ok_0@ == Seq::<Token>::empty(),
            !old(self).reached_eof ==> match lex_from(old(self).cs(), old(self).pos()) {
                Ok(ts) => r is Ok && r->Ok_0@ == ts,
                Err((k, off)) => {
                    &&& r is Err
                    &&& r->Err_0.kind == k
                    &&& r->Err_0.location.expr_idx == off
                    &&& r->Err_0.input@ == old(self).cs()
                },
            },
    {
        let mut tokens: Vec<Token> = Vec::new();
        if self.reached_eof {
            proof {
                assert(tokens@ =~= Seq::<Token>::empty());
            }
            return Ok(tokens);
        }
        let ghost cs = self.stream.input@;
        let ghost p0 = self.stream.location.expr_idx as int;
        proof {
            match lex_from(cs, p0) {
                Ok(rest) => {
                    assert(tokens@ + rest =~= rest);
                },
                Err(e) => {},
            }
        }
        loop
            invariant_except_break
                lex_from(cs, p0) == (match lex_from(cs, self.stream.location.expr_idx as int) {
                    Ok(rest) => Ok::<Seq<Token>, (ErrorKind, int)>(tokens@ + rest),
                    Err(e) => Err::<Seq<Token>, (ErrorKind, int)>(e),
                }),
            invariant
                self.wf(),
                self.stream.input@ == cs,
                !old(self).reached_eof,
                cs == old(self).cs(),
                p0 == old(self).pos(),
                0 <= p0 <= cs.len(),
            ensures
                self.wf(),
                self.stream.input@ == cs,
                lex_from(cs, p0) == Ok::<Seq<Token>, (ErrorKind, int)>(tokens@),
            decreases cs.len() - self.stream.location.expr_idx,
        {
            let ghost p = self.stream.location.expr_idx as int;
            let ghost toks0 = tokens@;
            proof {
                lemma_digit_run_bound(cs, p);
                lemma_digit_run_bound(cs, p + 1);
            }
            let result = self.next_token_with_location();
            match result {
                Err(e) => {
                    return Err(e);
                },
                Ok(tl) => {
                    let t = tl.token_only();
                    let is_eof = matches!(t, Token::EOF);
                    tokens.push(t);
                    proof {
                        if is_eof {
                            assert(toks0 + seq![Token::EOF] =~= tokens@);
                        } else {
                            let p2 = self.stream.location.expr_idx as int;
                            match lex_from(cs, p2) {
                                Ok(rest2) => {
                                    assert(toks0 + (seq![t] + rest2) =~= tokens@ + rest2);
                                },
                                Err(e) => {},
                            }
                        }
                    }
                    if is_eof {
                        break ;
                    }
                },
            }
        }
        Ok(tokens)
    }

    /// Turns the tokenizer into an explicit token iterator.
    pub fn iter(self) -> (it: Iter)
        ensures
            it.tokenizer == self,
    {
        Iter { tokenizer: self }
    }
}

/// An explicit iterator over a tokenizer: each step yields the next located
/// token or the first error, and nothing once `EOF` has been produced.
pub struct Iter {
    pub tokenizer: Tokenizer,
}

impl Iter {
    /// The next located token, if the underlying tokenizer has any left.
    pub fn next(&mut self) -> (r: Option<Result<TokenWithLocation, TokenizeError>>)
        requires
            old(self).tokenizer.wf(),
        ensures
            final(self).tokenizer.wf(),
            final(self).tokenizer.cs() == old(self).tokenizer.cs(),
            old(self).tokenizer.reached_eof ==> r is None && *final(self) == *old(self),
            !old(self).tokenizer.reached_eof ==> ({
                let cs = old(self).tokenizer.cs();
                let p = old(self).tokenizer.pos();
                &&& r is Some
                &&& match scan_token(cs, p) {
                    Scan::Tok(t, p2) => {
                        &&& r->Some_0 is Ok
                        &&& r->Some_0->Ok_0.variant == t
                        &&& r->Some_0->Ok_0.location.expr_idx == p
                        &&& final(self).tokenizer.pos() == p2
                        &&& (final(self).tokenizer.reached_eof <==> t == Token::EOF)
                    },
                    Scan::Fail(k, off) => {
                        &&& r->Some_0 is Err
                        &&& r->Some_0->Err_0.kind == k
                        &&& r->Some_0->Err_0.location.expr_idx == off
                        &&& r->Some_0->Err_0.input@ == cs
                        &&& !final(self).tokenizer.reached_eof
                    },
                }
            }),
    {
        self.tokenizer.optional_next_token_with_location()
    }
}

} // verus!
