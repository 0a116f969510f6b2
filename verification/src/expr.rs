//! The expression tree, its exact rational evaluator, and its rendering
//! as a fully parenthesized text.
//!
//! A tree is either a numeric leaf or a binary-operator node owning two
//! subtrees; it is immutable once built.  Evaluation is a pure recursive
//! fold: it is exact rational arithmetic, so `1 / 3` keeps its full value,
//! and dividing by a subtree whose value is exactly zero is reported as
//! [`EvalError::DivisionByZero`].  Values whose numerator or denominator
//! leave the `i64` range are reported as [`EvalError::Overflow`].

use vstd::prelude::*;

use crate::op::{Op, DIGIT_NINE, DIGIT_ZERO, LPAREN, MINUS, RPAREN, SPACE};

verus! {

/// An expression tree: a numeric leaf or a binary-operator node with
/// exactly two children.
#[derive(Debug, PartialEq)]
pub enum Expr {
    Number(i64),
    BinaryOp { left: Box<Expr>, op: Op, right: Box<Expr> },
}

/// An error raised while evaluating a tree.
#[derive(Clone, Copy, Debug, PartialEq, Eq)]
pub enum EvalError {
    /// The right operand of a division evaluated to exactly zero.
    DivisionByZero,
    /// An intermediate numerator or denominator left the `i64` range.
    Overflow,
}

/// An exact rational number: the value is `num / den`.
///
/// Results of evaluation satisfy [`Rational::wf`]: the denominator is
/// strictly positive.  The fraction is not reduced.
#[derive(Clone, Copy, Debug, PartialEq, Eq)]
pub struct Rational {
    pub num: i64,
    pub den: i64,
}

impl Rational {
    /// Well-formedness: the denominator is strictly positive.
    pub open spec fn wf(self) -> bool {
        self.den > 0
    }

    /// Returns true when this rational denotes exactly the integer `i`.
    pub fn is_integer(&self, i: i64) -> (r: bool)
        requires
            self.wf(),
        ensures
            r == (self.num as int == i as int * self.den as int),
    {
        proof {
            lemma_mul_i64_bounds(i as int, self.den as int);
        }
        self.num as i128 == (i as i128) * (self.den as i128)
    }
}

/// Does `x` fit in the `i64` range?
pub open spec fn fits_i64(x: int) -> bool {
    i64::MIN <= x <= i64::MAX
}

/// The outcome of evaluating a tree, as a mathematical value.
pub ghost enum EvalOutcome {
    /// The evaluation succeeded with the exact rational `num / den`.
    Value { num: int, den: int },
    /// A division met a right operand that was exactly zero.
    DivisionByZero,
    /// An intermediate numerator or denominator left the `i64` range.
    Overflow,
}

/// Packs an exact numerator and denominator into an outcome, reporting
/// overflow when either leaves the `i64` range.
pub open spec fn fit_outcome(num: int, den: int) -> EvalOutcome {
    if fits_i64(num) && fits_i64(den) {
        EvalOutcome::Value { num, den }
    } else {
        EvalOutcome::Overflow
    }
}

/// Combines two exact rationals `ln/ld` and `rn/rd` with the operator `op`.
/// Division by a zero value fails; otherwise the result is the exact
/// (unreduced) rational with a positive denominator.
pub open spec fn combine_spec(op: Op, ln: int, ld: int, rn: int, rd: int) -> EvalOutcome {
    match op {
        Op::Add => fit_outcome(ln * rd + rn * ld, ld * rd),
        Op::Sub => fit_outcome(ln * rd - rn * ld, ld * rd),
        Op::Mul => fit_outcome(ln * rn, ld * rd),
        Op::Div => if rn == 0 {
            EvalOutcome::DivisionByZero
        } else if rn < 0 {
            fit_outcome(-(ln * rd), -(ld * rn))
        } else {
            fit_outcome(ln * rd, ld * rn)
        },
    }
}

/// The meaning of a tree: a pure, leaf-first fold.  The left subtree is
/// evaluated before the right one, so when both fail the left error is
/// the one reported.
pub open spec fn eval_spec(e: Expr) -> EvalOutcome
    decreases e,
{
    match e {
        Expr::Number(n) => EvalOutcome::Value { num: n as int, den: 1 },
        Expr::BinaryOp { left, op, right } => match eval_spec(*left) {
            EvalOutcome::Value { num: ln, den: ld } => match eval_spec(*right) {
                EvalOutcome::Value { num: rn, den: rd } => combine_spec(op, ln, ld, rn, rd),
                err => err,
            },
            err => err,
        },
    }
}

/// What `Expr::eval` promises of its result: the one value that
/// `eval_spec` assigns to the tree.
pub open spec fn eval_matches(e: Expr, r: Result<Rational, EvalError>) -> bool {
    match eval_spec(e) {
        EvalOutcome::Value { num, den } => r matches Ok(q) && q.num == num && q.den == den
            && q.wf(),
        EvalOutcome::DivisionByZero => r == Err::<Rational, EvalError>(EvalError::DivisionByZero),
        EvalOutcome::Overflow => r == Err::<Rational, EvalError>(EvalError::Overflow),
    }
}

/// Law: evaluation has no hidden state.  Any two results that `eval`
/// may return for the same tree are equal, so evaluating a tree twice
/// yields the same outcome.
pub proof fn lemma_eval_deterministic(
    e: Expr,
    r1: Result<Rational, EvalError>,
    r2: Result<Rational, EvalError>,
)
    requires
        eval_matches(e, r1),
        eval_matches(e, r2),
    ensures
        r1 == r2,
{
}

proof fn lemma_mul_i64_bounds(a: int, b: int)
    requires
        i64::MIN <= a <= i64::MAX,
        i64::MIN <= b <= i64::MAX,
    ensures
        -0x40000000000000000000000000000000 <= a * b <= 0x40000000000000000000000000000000,
    {
    assert(-0x40000000000000000000000000000000 <= a * b
        <= 0x40000000000000000000000000000000) by (nonlinear_arith)
        requires
            -0x8000000000000000 <= a <= 0x7fffffffffffffff,
            -0x8000000000000000 <= b <= 0x7fffffffffffffff,
    ;
}

proof fn lemma_mul_pos(a: int, b: int)
    requires
        a > 0,
        b > 0,
    ensures
        a * b > 0,
{
    assert(a * b > 0) by (nonlinear_arith)
        requires
            a > 0,
            b > 0,
    ;
}

proof fn lemma_mul_pos_neg(a: int, b: int)
    requires
        a > 0,
        b < 0,
    ensures
        a * b < 0,
{
    assert(a * b < 0) by (nonlinear_arith)
        requires
            a > 0,
            b < 0,
    ;
}

/// Packs an exact `i128` numerator and denominator into a `Rational`,
/// reporting overflow when either leaves the `i64` range.
fn fit(num: i128, den: i128) -> (res: Result<Rational, EvalError>)
    ensures
        ({
            let o = fit_outcome(num as int, den as int);
            match o {
                EvalOutcome::Value { num: n, den: d } => res matches Ok(q) && q.num == n && q.den
                    == d,
                EvalOutcome::Overflow => res == Err::<Rational, EvalError>(EvalError::Overflow),
                EvalOutcome::DivisionByZero => false,
            }
        }),
{
    if i64::MIN as i128 <= num && num <= i64::MAX as i128 && i64::MIN as i128 <= den && den
        <= i64::MAX as i128 {
        Ok(Rational { num: num as i64, den: den as i64 })
    } else {
        Err(EvalError::Overflow)
    }
}

/// Combines two well-formed rationals with an operator, with exact
/// `i128` intermediates, following `combine_spec`.
fn combine(op: Op, l: Rational, r: Rational) -> (res: Result<Rational, EvalError>)
    requires
        l.wf(),
        r.wf(),
    ensures
        ({
            let o = combine_spec(op, l.num as int, l.den as int, r.num as int, r.den as int);
            match o {
                EvalOutcome::Value { num, den } => res matches Ok(q) && q.num == num && q.den == den
                    && q.wf(),
                EvalOutcome::DivisionByZero => res == Err::<Rational, EvalError>(
                    EvalError::DivisionByZero,
                ),
                EvalOutcome::Overflow => res == Err::<Rational, EvalError>(EvalError::Overflow),
            }
        }),
{
    let ln = l.num as i128;
    let ld = l.den as i128;
    let rn = r.num as i128;
    let rd = r.den as i128;
    proof {
        lemma_mul_i64_bounds(l.num as int, r.den as int);
        lemma_mul_i64_bounds(r.num as int, l.den as int);
        lemma_mul_i64_bounds(l.den as int, r.den as int);
        lemma_mul_i64_bounds(l.num as int, r.num as int);
        lemma_mul_i64_bounds(l.den as int, r.num as int);
        lemma_mul_pos(l.den as int, r.den as int);
    }
    match op {
        Op::Add => {
            let p1 = ln * rd;
            let p2 = rn * ld;
            if p2 > 0 && p1 > i128::MAX - p2 {
                Err(EvalError::Overflow)
            } else if p2 < 0 && p1 < i128::MIN - p2 {
                Err(EvalError::Overflow)
            } else {
                fit(p1 + p2, ld * rd)
            }
        },
        Op::Sub => {
            let p1 = ln * rd;
            let p2 = rn * ld;
            if p2 < 0 && p1 > i128::MAX + p2 {
                Err(EvalError::Overflow)
            } else if p2 > 0 && p1 < i128::MIN + p2 {
                Err(EvalError::Overflow)
            } else {
                fit(p1 - p2, ld * rd)
            }
        },
        Op::Mul => fit(ln * rn, ld * rd),
        Op::Div => {
            if rn == 0 {
                Err(EvalError::DivisionByZero)
            } else if rn < 0 {
                proof {
                    lemma_mul_pos_neg(l.den as int, r.num as int);
                }
                fit(-(ln * rd), -(ld * rn))
            } else {
                proof {
                    lemma_mul_pos(l.den as int, r.num as int);
                }
                fit(ln * rd, ld * rn)
            }
        },
    }
}

/// The byte of the decimal digit `d`.
pub open spec fn digit_byte(d: int) -> u8 {
    (DIGIT_ZERO + d) as u8
}

/// The decimal digits of the magnitude `m`, most significant first.
pub open spec fn dec_mag(m: int) -> Seq<u8>
    decreases m,
{
    if m < 10 {
        seq![digit_byte(m)]
    } else {
        dec_mag(m / 10) + seq![digit_byte(m % 10)]
    }
}

/// The decimal rendering of the integer `n`: a minus sign for negative
/// values, then the digits of the magnitude.
pub open spec fn dec_bytes(n: int) -> Seq<u8> {
    if n < 0 {
        seq![MINUS] + dec_mag(-n)
    } else {
        dec_mag(n)
    }
}

/// The fully parenthesized rendering of a tree: a number renders as its
/// decimal literal, a binary node as `(left op right)`.
pub open spec fn render_bytes(e: Expr) -> Seq<u8>
    decreases e,
{
    match e {
        Expr::Number(n) => dec_bytes(n as int),
        Expr::BinaryOp { left, op, right } => seq![LPAREN] + render_bytes(*left) + seq![
            SPACE,
            op.symbol_spec(),
            SPACE,
        ] + render_bytes(*right) + seq![RPAREN],
    }
}

/// The digits of a magnitude are decimal digit bytes, and there is at
/// least one of them.
pub proof fn lemma_dec_mag_digits(m: int)
    requires
        m >= 0,
    ensures
        dec_mag(m).len() >= 1,
        forall|i: int|
            0 <= i < dec_mag(m).len() ==> DIGIT_ZERO <= #[trigger] dec_mag(m)[i] <= DIGIT_NINE,
    decreases m,
{
    if m >= 10 {
        lemma_dec_mag_digits(m / 10);
    }
}

/// Every byte of a rendering is an ASCII byte.
pub proof fn lemma_render_ascii(e: Expr)
    ensures
        render_bytes(e).len() >= 1,
        forall|i: int| 0 <= i < render_bytes(e).len() ==> #[trigger] render_bytes(e)[i] < 128,
    decreases e,
{
    match e {
        Expr::Number(n) => {
            if n < 0 {
                lemma_dec_mag_digits(-(n as int));
            } else {
                lemma_dec_mag_digits(n as int);
            }
        },
        Expr::BinaryOp { left, op, right } => {
            lemma_render_ascii(*left);
            lemma_render_ascii(*right);
        },
    }
}

/// Relies on `String::from_utf8`: a vector of ASCII bytes decodes to the
/// string whose characters have exactly those code points.
#[verifier::external_body]
fn ascii_to_string(v: Vec<u8>) -> (r: String)
    requires
        forall|i: int| 0 <= i < v@.len() ==> v@[i] < 128,
    ensures
        r@.len() == v@.len(),
        forall|i: int| 0 <= i < v@.len() ==> r@[i] == v@[i] as char,
{
    match String::from_utf8(v) {
        Ok(s) => s,
        Err(_) => String::new(),
    }
}

/// Appends the decimal digits of the magnitude `m` to `out`.
fn push_mag(out: &mut Vec<u8>, m: u64)
    ensures
        final(out)@ == old(out)@ + dec_mag(m as int),
    decreases m,
{
    if m < 10 {
        out.push(DIGIT_ZERO + (m as u8));
        proof {
            assert(out@ =~= old(out)@ + dec_mag(m as int));
        }
    } else {
        push_mag(out, m / 10);
        out.push(DIGIT_ZERO + ((m % 10) as u8));
        proof {
            assert(out@ =~= old(out)@ + dec_mag(m as int));
        }
    }
}

impl Expr {
    /// Appends the rendering of this tree to `out`.
    fn push_onto(&self, out: &mut Vec<u8>)
        ensures
            final(out)@ == old(out)@ + render_bytes(*self),
        decreases self,
    {
        match self {
            Expr::Number(n) => {
                if *n < 0 {
                    out.push(MINUS);
                    let mag = (-((*n) as i128)) as u64;
                    push_mag(out, mag);
                    proof {
                        assert(out@ =~= old(out)@ + render_bytes(*self));
                    }
                } else {
                    push_mag(out, *n as u64);
                }
            },
            Expr::BinaryOp { left, op, right } => {
                out.push(LPAREN);
                left.push_onto(out);
                out.push(SPACE);
                out.push(op.symbol());
                out.push(SPACE);
                right.push_onto(out);
                out.push(RPAREN);
                proof {
                    assert(out@ =~= old(out)@ + render_bytes(*self));
                }
            },
        }
    }

    /// The rendering of the tree as bytes: fully parenthesized infix
    /// notation.
    pub fn to_bytes(&self) -> (r: Vec<u8>)
        ensures
            r@ == render_bytes(*self),
    {
        let mut v: Vec<u8> = Vec::new();
        self.push_onto(&mut v);
        proof {
            assert(v@ =~= render_bytes(*self));
        }
        v
    }

    /// The rendering of the tree as text: fully parenthesized infix
    /// notation, e.g. the tree of `1+2*3` renders as `(1 + (2 * 3))`.
    pub fn to_text(&self) -> (r: String)
        ensures
            r@.len() == render_bytes(*self).len(),
            forall|i: int|
                0 <= i < r@.len() ==> #[trigger] r@[i] == render_bytes(*self)[i] as char,
    {
        let v = self.to_bytes();
        proof {
            lemma_render_ascii(*self);
        }
        ascii_to_string(v)
    }

    /// Evaluates the tree to an exact rational value, or reports the
    /// first failure found in a left-first, leaf-first walk.
    ///
    /// The result is a function of the tree alone — the tree is not
    /// changed, and evaluating it again yields the same outcome.
    pub fn eval(&self) -> (r: Result<Rational, EvalError>)
        ensures
            eval_matches(*self, r),
        decreases self,
    {
        match self {
            Expr::Number(n) => Ok(Rational { num: *n, den: 1 }),
            Expr::BinaryOp { left, op, right } => {
                let lv = match left.eval() {
                    Ok(v) => v,
                    Err(e) => {
                        return Err(e);
                    },
                };
                let rv = match right.eval() {
                    Ok(v) => v,
                    Err(e) => {
                        return Err(e);
                    },
                };
                combine(*op, lv, rv)
            },
        }
    }
}

} // verus!
