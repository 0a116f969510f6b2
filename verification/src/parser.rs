//! The recursive-descent parser: a cursor over the input bytes and a
//! three-level precedence grammar (additive over multiplicative over
//! atom/bracket), with implicit multiplication before a parenthesis.
//!
//! The grammar is given first as specification functions over the byte
//! sequence (`sp_addsub`, `sp_muldiv`, `sp_atom`); the executable parser
//! is proved to return exactly what they describe.  Parsing accepts a
//! successful parse of a prefix of the input and leaves any trailing
//! input unconsumed, as [`Parser::parse`] documents.

use vstd::prelude::*;
use vstd::string::StringSliceAdditionalSpecFns;

use crate::expr::{fits_i64, Expr};
use crate::op::{Op, DIGIT_NINE, DIGIT_ZERO, LPAREN, MINUS, PLUS, RPAREN, SLASH, SPACE, STAR};

verus! {

/// Is `b` the space byte?  Spaces are the only insignificant bytes.
pub open spec fn is_space_byte(b: u8) -> bool {
    b == SPACE
}

/// Is `b` a decimal digit?
pub open spec fn is_digit_byte(b: u8) -> bool {
    DIGIT_ZERO <= b <= DIGIT_NINE
}

/// The first position at or after `pos` that does not hold a space.
pub open spec fn skip_ws(s: Seq<u8>, pos: int) -> int
    decreases s.len() - pos,
{
    if 0 <= pos < s.len() && is_space_byte(s[pos]) {
        skip_ws(s, pos + 1)
    } else {
        pos
    }
}

/// The first position at or after `pos` that does not hold a digit.
pub open spec fn digits_end(s: Seq<u8>, pos: int) -> int
    decreases s.len() - pos,
{
    if 0 <= pos < s.len() && is_digit_byte(s[pos]) {
        digits_end(s, pos + 1)
    } else {
        pos
    }
}

/// The value of the digit run `s[from .. to]`, read as a decimal number.
pub open spec fn digits_value(s: Seq<u8>, from: int, to: int) -> int
    decreases to - from,
{
    if from >= to {
        0
    } else {
        digits_value(s, from, to - 1) * 10 + (s[to - 1] - DIGIT_ZERO)
    }
}

/// Matching a single literal byte after skipping spaces: the position
/// just past the byte, or `None` when the next significant byte differs.
pub open spec fn match_byte(s: Seq<u8>, pos: int, b: u8) -> Option<int> {
    let t = skip_ws(s, pos);
    if t < s.len() && s[t] == b {
        Some(t + 1)
    } else {
        None
    }
}

/// The next significant byte at or after `pos`, if any.
pub open spec fn peek_spec(s: Seq<u8>, pos: int) -> Option<u8> {
    let t = skip_ws(s, pos);
    if t < s.len() {
        Some(s[t])
    } else {
        None
    }
}

/// Matching a whole literal byte string after skipping spaces.
pub open spec fn consume_spec(s: Seq<u8>, pos: int, w: Seq<u8>) -> Option<int> {
    let t = skip_ws(s, pos);
    if t + w.len() <= s.len() && s.subrange(t, t + w.len() as int) == w {
        Some(t + w.len() as int)
    } else {
        None
    }
}

/// The number token at `pos`: after skipping spaces, an optional leading
/// minus sign immediately followed by one or more decimal digits, read
/// greedily.  Yields the value and the position just past the digits.
/// A lone minus sign is not a number token, and neither is a literal
/// whose value does not fit in `i64`.
pub open spec fn number_token(s: Seq<u8>, pos: int) -> Option<(i64, int)> {
    let t = skip_ws(s, pos);
    let ds = if t < s.len() && s[t] == MINUS {
        t + 1
    } else {
        t
    };
    let de = digits_end(s, ds);
    if de == ds {
        None
    } else {
        let v = if ds == t {
            digits_value(s, ds, de)
        } else {
            -digits_value(s, ds, de)
        };
        if fits_i64(v) {
            Some((v as i64, de))
        } else {
            None
        }
    }
}

/// The ways a parse can fail.
pub ghost enum PErr {
    /// A number or an opening parenthesis was expected at the atom level.
    Atom,
    /// An opening parenthesis had no matching closing one.
    Paren,
}

/// The outcome of a grammar production: the tree built and the position
/// just past the consumed text, or the failure.
pub ghost enum POut {
    Parsed { e: Expr, end: int },
    Failed { err: PErr },
}

/// The message carried by the error a failure produces.
pub open spec fn error_text(k: PErr) -> Seq<char> {
    match k {
        PErr::Atom => "Expected number or '('"@,
        PErr::Paren => "Mismatched parenthesis"@,
    }
}

/// A binary node, as the parser builds them.
pub open spec fn bin_expr(l: Expr, op: Op, r: Expr) -> Expr {
    Expr::BinaryOp { left: Box::new(l), op, right: Box::new(r) }
}

/// Atom := '(' AddSub ')' | Number
pub open spec fn sp_atom(s: Seq<u8>, pos: int) -> POut
    decreases s.len() - pos, 0int,
{
    match match_byte(s, pos, LPAREN) {
        Some(q) => if pos < q <= s.len() {
            match sp_addsub(s, q) {
                POut::Parsed { e, end } => match match_byte(s, end, RPAREN) {
                    Some(q2) => POut::Parsed { e, end: q2 },
                    None => POut::Failed { err: PErr::Paren },
                },
                failed => failed,
            }
        } else {
            // match_byte always moves forward and stays inside the input;
            // this branch is never taken.
            POut::Failed { err: PErr::Atom }
        },
        None => match number_token(s, pos) {
            Some(t) => POut::Parsed { e: Expr::Number(t.0), end: t.1 },
            None => POut::Failed { err: PErr::Atom },
        },
    }
}

/// The left-associative fold of `MulDiv`: explicit `*` and `/`, and an
/// implicit multiplication when the next significant byte opens a
/// parenthesis.
pub open spec fn sp_muldiv_loop(s: Seq<u8>, pos: int, left: Expr) -> POut
    decreases s.len() - pos, 1int,
{
    match match_byte(s, pos, STAR) {
        Some(q) => if pos < q <= s.len() {
            match sp_atom(s, q) {
                POut::Parsed { e, end } => if pos < end <= s.len() {
                    sp_muldiv_loop(s, end, bin_expr(left, Op::Mul, e))
                } else {
                    // a successful atom always moves forward; never taken
                    POut::Parsed { e: bin_expr(left, Op::Mul, e), end }
                },
                failed => failed,
            }
        } else {
            POut::Parsed { e: left, end: pos }
        },
        None => match match_byte(s, pos, SLASH) {
            Some(q) => if pos < q <= s.len() {
                match sp_atom(s, q) {
                    POut::Parsed { e, end } => if pos < end <= s.len() {
                        sp_muldiv_loop(s, end, bin_expr(left, Op::Div, e))
                    } else {
                        POut::Parsed { e: bin_expr(left, Op::Div, e), end }
                    },
                    failed => failed,
                }
            } else {
                POut::Parsed { e: left, end: pos }
            },
            None => if peek_spec(s, pos) == Some(LPAREN) {
                match sp_atom(s, pos) {
                    POut::Parsed { e, end } => if pos < end <= s.len() {
                        sp_muldiv_loop(s, end, bin_expr(left, Op::Mul, e))
                    } else {
                        POut::Parsed { e: bin_expr(left, Op::Mul, e), end }
                    },
                    failed => failed,
                }
            } else {
                POut::Parsed { e: left, end: pos }
            },
        },
    }
}

/// MulDiv := Atom ( ('*' | '/' | implicit) Atom )*
pub open spec fn sp_muldiv(s: Seq<u8>, pos: int) -> POut
    decreases s.len() - pos, 2int,
{
    match sp_atom(s, pos) {
        POut::Parsed { e, end } => if pos < end <= s.len() {
            sp_muldiv_loop(s, end, e)
        } else {
            POut::Parsed { e, end }
        },
        failed => failed,
    }
}

/// The left-associative fold of `AddSub` over `+` and `-`.
pub open spec fn sp_addsub_loop(s: Seq<u8>, pos: int, left: Expr) -> POut
    decreases s.len() - pos, 0int,
{
    match match_byte(s, pos, PLUS) {
        Some(q) => if pos < q <= s.len() {
            match sp_muldiv(s, q) {
                POut::Parsed { e, end } => if pos < end <= s.len() {
                    sp_addsub_loop(s, end, bin_expr(left, Op::Add, e))
                } else {
                    POut::Parsed { e: bin_expr(left, Op::Add, e), end }
                },
                failed => failed,
            }
        } else {
            POut::Parsed { e: left, end: pos }
        },
        None => match match_byte(s, pos, MINUS) {
            Some(q) => if pos < q <= s.len() {
                match sp_muldiv(s, q) {
                    POut::Parsed { e, end } => if pos < end <= s.len() {
                        sp_addsub_loop(s, end, bin_expr(left, Op::Sub, e))
                    } else {
                        POut::Parsed { e: bin_expr(left, Op::Sub, e), end }
                    },
                    failed => failed,
                }
            } else {
                POut::Parsed { e: left, end: pos }
            },
            None => POut::Parsed { e: left, end: pos },
        },
    }
}

/// AddSub := MulDiv ( ('+' | '-') MulDiv )*
pub open spec fn sp_addsub(s: Seq<u8>, pos: int) -> POut
    decreases s.len() - pos, 3int,
{
    match sp_muldiv(s, pos) {
        POut::Parsed { e, end } => if pos < end <= s.len() {
            sp_addsub_loop(s, end, e)
        } else {
            POut::Parsed { e, end }
        },
        failed => failed,
    }
}

/// A whole parse: the additive production, from the start of the input.
pub open spec fn sp_parse(s: Seq<u8>) -> POut {
    sp_addsub(s, 0)
}

/// A syntax error, carrying a human-readable message.
#[derive(Debug)]
pub struct ParseError {
    pub message: String,
}

impl ParseError {
    /// Builds a parse error from its message.
    pub fn new(message: &str) -> (r: ParseError)
        ensures
            r.message@ == message@,
    {
        ParseError { message: message.to_owned() }
    }
}

/// A parser: the input bytes and a cursor that moves monotonically
/// left-to-right, never rewound.
pub struct Parser<'a> {
    input: &'a [u8],
    pos: usize,
}

impl<'a> Parser<'a> {
    /// The input as a byte sequence.
    pub closed spec fn bytes(self) -> Seq<u8> {
        self.input@
    }

    /// The cursor position.
    pub closed spec fn at(self) -> int {
        self.pos as int
    }

    /// Well-formedness: the cursor is inside the input (or just past it).
    pub closed spec fn wf(self) -> bool {
        self.pos <= self.input@.len()
    }

    /// Builds a parser over the UTF-8 bytes of `input`, with the cursor
    /// at the start.
    pub fn new(input: &'a str) -> (r: Parser<'a>)
        ensures
            r.bytes() == input.spec_bytes(),
            r.at() == 0,
            r.wf(),
    {
        Parser { input: input.as_bytes(), pos: 0 }
    }

    /// The first position at or after the cursor holding no space.
    fn ws_end(&self) -> (t: usize)
        requires
            self.wf(),
        ensures
            t as int == skip_ws(self.bytes(), self.at()),
            self.at() <= t as int <= self.bytes().len(),
    {
        let mut i = self.pos;
        while i < self.input.len() && self.input[i] == SPACE
            invariant
                self.pos <= i <= self.input@.len(),
                skip_ws(self.input@, self.pos as int) == skip_ws(self.input@, i as int),
            decreases self.input@.len() - i,
        {
            i = i + 1;
        }
        i
    }

    /// The next significant character, if any: the next non-space byte,
    /// seen as a character.  The cursor does not move.
    pub fn peek(&self) -> (r: Option<char>)
        requires
            self.wf(),
        ensures
            ({
                match peek_spec(self.bytes(), self.at()) {
                    Some(b) => r == Some(b as char),
                    None => r == None::<char>,
                }
            }),
    {
        let t = self.ws_end();
        if t < self.input.len() {
            Some(self.input[t] as char)
        } else {
            None
        }
    }

    /// Skips spaces, then consumes the literal bytes of `expected` when
    /// they follow; otherwise leaves the cursor where it was.
    pub fn consume(&mut self, expected: &str) -> (r: bool)
        requires
            old(self).wf(),
        ensures
            final(self).wf(),
            final(self).bytes() == old(self).bytes(),
            ({
                match consume_spec(old(self).bytes(), old(self).at(), expected.spec_bytes()) {
                    Some(q) => r && final(self).at() == q,
                    None => !r && final(self).at() == old(self).at(),
                }
            }),
    {
        let t = self.ws_end();
        let eb: &[u8] = expected.as_bytes();
        let n = self.input.len();
        if n - t < eb.len() {
            return false;
        }
        let mut j: usize = 0;
        while j < eb.len()
            invariant
                self.wf(),
                self == old(self),
                eb@ == expected.spec_bytes(),
                t as int == skip_ws(self.bytes(), self.at()),
                self.at() <= t as int,
                j <= eb@.len(),
                n == self.input@.len(),
                t + eb@.len() <= n,
                forall|k: int| 0 <= k < j ==> self.input@[t + k] == eb@[k],
            decreases eb@.len() - j,
        {
            if self.input[t + j] != eb[j] {
                proof {
                    let s = self.input@;
                    let w = eb@;
                    assert(s.subrange(t as int, t + w.len() as int)[j as int] == s[t + j]);
                }
                return false;
            }
            j = j + 1;
        }
        proof {
            let s = self.input@;
            let w = eb@;
            assert(s.subrange(t as int, t + w.len() as int) =~= w);
        }
        self.pos = t + eb.len();
        true
    }

    /// Skips spaces, then consumes the single byte `b` when it follows.
    fn consume_byte(&mut self, b: u8) -> (r: bool)
        requires
            old(self).wf(),
        ensures
            final(self).wf(),
            final(self).bytes() == old(self).bytes(),
            ({
                match match_byte(old(self).bytes(), old(self).at(), b) {
                    Some(q) => r && final(self).at() == q && old(self).at() < q <= old(
                        self,
                    ).bytes().len(),
                    None => !r && final(self).at() == old(self).at(),
                }
            }),
    {
        let t = self.ws_end();
        if t < self.input.len() && self.input[t] == b {
            self.pos = t + 1;
            true
        } else {
            false
        }
    }

    /// The next significant byte, if any.  The cursor does not move.
    fn peek_byte(&self) -> (r: Option<u8>)
        requires
            self.wf(),
        ensures
            r == peek_spec(self.bytes(), self.at()),
    {
        let t = self.ws_end();
        if t < self.input.len() {
            Some(self.input[t])
        } else {
            None
        }
    }

    /// Consumes the number token at the cursor, if there is one;
    /// otherwise leaves the cursor where it was.
    fn consume_number(&mut self) -> (r: Option<i64>)
        requires
            old(self).wf(),
        ensures
            final(self).wf(),
            final(self).bytes() == old(self).bytes(),
            ({
                match number_token(old(self).bytes(), old(self).at()) {
                    Some(t) => r == Some(t.0) && final(self).at() == t.1 && old(self).at() < t.1
                        <= old(self).bytes().len(),
                    None => r == None::<i64> && final(self).at() == old(self).at(),
                }
            }),
    {
        let ghost s = self.input@;
        let t = self.ws_end();
        let neg = t < self.input.len() && self.input[t] == MINUS;
        let ds = if neg {
            t + 1
        } else {
            t
        };
        let limit: u64 = if neg {
            9223372036854775808
        } else {
            9223372036854775807
        };
        let mut i = ds;
        let mut mag: u64 = 0;
        let mut over = false;
        while i < self.input.len() && DIGIT_ZERO <= self.input[i] && self.input[i] <= DIGIT_NINE
            invariant
                self.wf(),
                ds <= i <= self.input@.len(),
                digits_end(self.input@, ds as int) == digits_end(self.input@, i as int),
                !over ==> mag == digits_value(self.input@, ds as int, i as int) && mag <= limit,
                over ==> digits_value(self.input@, ds as int, i as int) > limit,
                limit >= 9223372036854775807,
            decreases self.input@.len() - i,
        {
            let d = self.input[i] - DIGIT_ZERO;
            if !over {
                let m2: u128 = (mag as u128) * 10 + (d as u128);
                if m2 > limit as u128 {
                    over = true;
                } else {
                    mag = m2 as u64;
                }
            }
            proof {
                assert(digits_value(s, ds as int, i + 1) == digits_value(s, ds as int, i as int)
                    * 10 + (s[i as int] - DIGIT_ZERO));
            }
            i = i + 1;
        }
        if i == ds {
            return None;
        }
        if over {
            return None;
        }
        self.pos = i;
        if neg {
            if mag == 9223372036854775808 {
                Some(i64::MIN)
            } else {
                Some(-(mag as i64))
            }
        } else {
            Some(mag as i64)
        }
    }

    /// Atom := '(' AddSub ')' | Number.  Follows `sp_atom`.
    fn parse_brackets(&mut self) -> (r: Result<Expr, ParseError>)
        requires
            old(self).wf(),
        ensures
            final(self).wf(),
            final(self).bytes() == old(self).bytes(),
            ({
                match sp_atom(old(self).bytes(), old(self).at()) {
                    POut::Parsed { e, end } => r == Ok::<Expr, ParseError>(e) && final(self).at()
                        == end && old(self).at() < end <= old(self).bytes().len(),
                    POut::Failed { err } => (r matches Err(pe) && pe.message@ == error_text(err)),
                }
            }),
        decreases self.bytes().len() - self.at(), 0int,
    {
        if self.consume_byte(LPAREN) {
            let inner = match self.parse_addsub() {
                Ok(e) => e,
                Err(pe) => {
                    return Err(pe);
                },
            };
            if self.consume_byte(RPAREN) {
                Ok(inner)
            } else {
                Err(ParseError::new("Mismatched parenthesis"))
            }
        } else {
            match self.consume_number() {
                Some(n) => Ok(Expr::Number(n)),
                None => Err(ParseError::new("Expected number or '('")),
            }
        }
    }

    /// MulDiv := Atom ( ('*' | '/' | implicit) Atom )*.  Follows
    /// `sp_muldiv`.
    fn parse_multdiv(&mut self) -> (r: Result<Expr, ParseError>)
        requires
            old(self).wf(),
        ensures
            final(self).wf(),
            final(self).bytes() == old(self).bytes(),
            ({
                match sp_muldiv(old(self).bytes(), old(self).at()) {
                    POut::Parsed { e, end } => r == Ok::<Expr, ParseError>(e) && final(self).at()
                        == end && old(self).at() < end <= old(self).bytes().len(),
                    POut::Failed { err } => (r matches Err(pe) && pe.message@ == error_text(err)),
                }
            }),
        decreases self.bytes().len() - self.at(), 1int,
    {
        let ghost s = self.input@;
        let ghost pos0: int = self.pos as int;
        let mut left = match self.parse_brackets() {
            Ok(e) => e,
            Err(pe) => {
                return Err(pe);
            },
        };
        loop
            invariant
                self.wf(),
                self.bytes() == s,
                old(self).bytes() == s,
                old(self).at() == pos0,
                pos0 < self.at() <= s.len(),
                sp_muldiv(s, pos0) == sp_muldiv_loop(s, self.at(), left),
            ensures
                self.wf(),
                self.bytes() == s,
                pos0 < self.at() <= s.len(),
                sp_muldiv(s, pos0) == (POut::Parsed { e: left, end: self.at() }),
            decreases s.len() - self.at(),
        {
            if self.consume_byte(STAR) {
                let right = match self.parse_brackets() {
                    Ok(e) => e,
                    Err(pe) => {
                        return Err(pe);
                    },
                };
                left = Expr::BinaryOp { left: Box::new(left), op: Op::Mul, right: Box::new(right) };
            } else if self.consume_byte(SLASH) {
                let right = match self.parse_brackets() {
                    Ok(e) => e,
                    Err(pe) => {
                        return Err(pe);
                    },
                };
                left = Expr::BinaryOp { left: Box::new(left), op: Op::Div, right: Box::new(right) };
            } else {
                let lp = match self.peek_byte() {
                    Some(b) => b == LPAREN,
                    None => false,
                };
                if lp {
                    let right = match self.parse_brackets() {
                        Ok(e) => e,
                        Err(pe) => {
                            return Err(pe);
                        },
                    };
                    left = Expr::BinaryOp {
                        left: Box::new(left),
                        op: Op::Mul,
                        right: Box::new(right),
                    };
                } else {
                    break ;
                }
            }
        }
        Ok(left)
    }

    /// AddSub := MulDiv ( ('+' | '-') MulDiv )*.  Follows `sp_addsub`.
    fn parse_addsub(&mut self) -> (r: Result<Expr, ParseError>)
        requires
            old(self).wf(),
        ensures
            final(self).wf(),
            final(self).bytes() == old(self).bytes(),
            ({
                match sp_addsub(old(self).bytes(), old(self).at()) {
                    POut::Parsed { e, end } => r == Ok::<Expr, ParseError>(e) && final(self).at()
                        == end && old(self).at() < end <= old(self).bytes().len(),
                    POut::Failed { err } => (r matches Err(pe) && pe.message@ == error_text(err)),
                }
            }),
        decreases self.bytes().len() - self.at(), 2int,
    {
        let ghost s = self.input@;
        let ghost pos0: int = self.pos as int;
        let mut left = match self.parse_multdiv() {
            Ok(e) => e,
            Err(pe) => {
                return Err(pe);
            },
        };
        loop
            invariant
                self.wf(),
                self.bytes() == s,
                old(self).bytes() == s,
                old(self).at() == pos0,
                pos0 < self.at() <= s.len(),
                sp_addsub(s, pos0) == sp_addsub_loop(s, self.at(), left),
            ensures
                self.wf(),
                self.bytes() == s,
                pos0 < self.at() <= s.len(),
                sp_addsub(s, pos0) == (POut::Parsed { e: left, end: self.at() }),
            decreases s.len() - self.at(),
        {
            if self.consume_byte(PLUS) {
                let right = match self.parse_multdiv() {
                    Ok(e) => e,
                    Err(pe) => {
                        return Err(pe);
                    },
                };
                left = Expr::BinaryOp { left: Box::new(left), op: Op::Add, right: Box::new(right) };
            } else if self.consume_byte(MINUS) {
                let right = match self.parse_multdiv() {
                    Ok(e) => e,
                    Err(pe) => {
                        return Err(pe);
                    },
                };
                left = Expr::BinaryOp { left: Box::new(left), op: Op::Sub, right: Box::new(right) };
            } else {
                break ;
            }
        }
        Ok(left)
    }

    /// Parses an expression starting at the cursor and returns its tree,
    /// or the first syntax error met.
    ///
    /// The grammar is predictive and left-associative; the whole result
    /// is pinned down by `sp_addsub` over the input bytes.  A successful
    /// parse of a strict prefix of the input is accepted: trailing
    /// unconsumed input is not rejected, and the cursor then rests on it.
    pub fn parse(&mut self) -> (r: Result<Expr, ParseError>)
        requires
            old(self).wf(),
        ensures
            final(self).wf(),
            final(self).bytes() == old(self).bytes(),
            ({
                match sp_addsub(old(self).bytes(), old(self).at()) {
                    POut::Parsed { e, end } => r == Ok::<Expr, ParseError>(e) && final(self).at()
                        == end && old(self).at() < end <= old(self).bytes().len(),
                    POut::Failed { err } => (r matches Err(pe) && pe.message@ == error_text(err)),
                }
            }),
    {
        self.parse_addsub()
    }
}

} // verus!
