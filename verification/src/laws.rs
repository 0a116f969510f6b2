//! Laws relating the renderer and the parser.
//!
//! The central law: rendering any tree as its fully parenthesized text
//! and parsing that text again yields the very same tree, consuming the
//! whole text — so the re-parsed tree evaluates to the same result.

use vstd::prelude::*;
use vstd::string::StringSliceAdditionalSpecFns;

use crate::expr::{
    dec_bytes, dec_mag, digit_byte, lemma_dec_mag_digits, lemma_render_ascii, render_bytes, Expr,
};
use crate::op::{Op, DIGIT_ZERO, LPAREN, MINUS, PLUS, RPAREN, SLASH, SPACE, STAR};
use crate::parser::{
    bin_expr, digits_end, digits_value, is_digit_byte, is_space_byte, match_byte, number_token,
    peek_spec, skip_ws, sp_addsub, sp_addsub_loop, sp_atom, sp_muldiv, sp_muldiv_loop, sp_parse,
    POut,
};

verus! {

/// Skipping spaces never moves backwards nor past the end.
proof fn lemma_skip_ws_bounds(s: Seq<u8>, pos: int)
    requires
        0 <= pos <= s.len(),
    ensures
        pos <= skip_ws(s, pos) <= s.len(),
    decreases s.len() - pos,
{
    if pos < s.len() && is_space_byte(s[pos]) {
        lemma_skip_ws_bounds(s, pos + 1);
    }
}

/// A run of digits followed by a non-digit (or the end) scans to exactly
/// its end.
proof fn lemma_digits_end_run(s: Seq<u8>, a: int, b: int)
    requires
        0 <= a <= b <= s.len(),
        forall|k: int| a <= k < b ==> is_digit_byte(#[trigger] s[k]),
        b == s.len() || !is_digit_byte(s[b]),
    ensures
        digits_end(s, a) == b,
    decreases b - a,
{
    if a < b {
        lemma_digits_end_run(s, a + 1, b);
    }
}

/// Reading back the decimal digits of a magnitude yields the magnitude.
proof fn lemma_digits_value_of_mag(s: Seq<u8>, a: int, m: int)
    requires
        m >= 0,
        0 <= a,
        a + dec_mag(m).len() <= s.len(),
        s.subrange(a, a + dec_mag(m).len() as int) == dec_mag(m),
    ensures
        digits_value(s, a, a + dec_mag(m).len() as int) == m,
    decreases m,
{
    let d = dec_mag(m);
    let len = d.len() as int;
    assert forall|k: int| 0 <= k < len implies s[a + k] == d[k] by {
        assert(s.subrange(a, a + len)[k] == s[a + k]);
    }
    if m < 10 {
        assert(s.subrange(a, a + len)[0] == s[a]);
        assert(d[0] == digit_byte(m));
        assert(s[a] == digit_byte(m));
        assert(digits_value(s, a, a + 1) == digits_value(s, a, a) * 10 + (s[a] - DIGIT_ZERO));
    } else {
        let dp = dec_mag(m / 10);
        let lp = dp.len() as int;
        assert(d == dp + seq![digit_byte(m % 10)]);
        assert(len == lp + 1);
        assert(s.subrange(a, a + lp) =~= dp) by {
            assert forall|k: int| 0 <= k < lp implies s.subrange(a, a + lp)[k] == dp[k] by {
                assert(s.subrange(a, a + lp)[k] == s[a + k]);
                assert(d[k] == dp[k]);
            }
        }
        lemma_digits_value_of_mag(s, a, m / 10);
        assert(s[a + len - 1] == d[len - 1]);
        assert(d[len - 1] == digit_byte(m % 10));
        assert(digits_value(s, a, a + len) == digits_value(s, a, a + len - 1) * 10 + (s[a + len
            - 1] - DIGIT_ZERO));
    }
}

/// A rendering never starts with a space.
proof fn lemma_render_first(e: Expr)
    ensures
        render_bytes(e).len() >= 1,
        render_bytes(e)[0] != SPACE,
{
    match e {
        Expr::Number(n) => {
            if (n as int) < 0 {
                lemma_dec_mag_digits(-(n as int));
            } else {
                lemma_dec_mag_digits(n as int);
            }
        },
        Expr::BinaryOp { left, op, right } => {
        },
    }
}

/// When none of `*`, `/`, `(` follows, the multiplicative fold stops.
proof fn lemma_muldiv_loop_exit(s: Seq<u8>, pos: int, left: Expr)
    requires
        peek_spec(s, pos) != Some(STAR),
        peek_spec(s, pos) != Some(SLASH),
        peek_spec(s, pos) != Some(LPAREN),
    ensures
        sp_muldiv_loop(s, pos, left) == (POut::Parsed { e: left, end: pos }),
{
}

/// When neither `+` nor `-` follows, the additive fold stops.
proof fn lemma_addsub_loop_exit(s: Seq<u8>, pos: int, left: Expr)
    requires
        peek_spec(s, pos) != Some(PLUS),
        peek_spec(s, pos) != Some(MINUS),
    ensures
        sp_addsub_loop(s, pos, left) == (POut::Parsed { e: left, end: pos }),
{
}

/// Parsing the decimal rendering of `n` at `rstart` (after spaces)
/// yields exactly the leaf `Number(n)`, when no digit follows it.
proof fn lemma_number_round_trip(s: Seq<u8>, pos: int, rstart: int, n: i64)
    requires
        0 <= pos <= s.len(),
        skip_ws(s, pos) == rstart,
        rstart + dec_bytes(n as int).len() <= s.len(),
        s.subrange(rstart, rstart + dec_bytes(n as int).len() as int) == dec_bytes(n as int),
        rstart + dec_bytes(n as int).len() == s.len() || !is_digit_byte(
            s[rstart + dec_bytes(n as int).len()],
        ),
    ensures
        sp_atom(s, pos) == (POut::Parsed {
            e: Expr::Number(n),
            end: rstart + dec_bytes(n as int).len() as int,
        }),
{
    lemma_skip_ws_bounds(s, pos);
    let d = dec_bytes(n as int);
    let len = d.len() as int;
    assert forall|k: int| 0 <= k < len implies s[rstart + k] == d[k] by {
        assert(s.subrange(rstart, rstart + len)[k] == s[rstart + k]);
    }
    if (n as int) < 0 {
        let m = -(n as int);
        lemma_dec_mag_digits(m);
        let lm = dec_mag(m).len() as int;
        assert(len == lm + 1);
        assert(s.subrange(rstart, rstart + len)[0] == s[rstart]);
        assert(d[0] == MINUS);
        assert(s[rstart] == MINUS);
        assert forall|k: int| rstart + 1 <= k < rstart + len implies is_digit_byte(
            #[trigger] s[k],
        ) by {
            assert(d[k - rstart] == dec_mag(m)[k - rstart - 1]);
        }
        lemma_digits_end_run(s, rstart + 1, rstart + len);
        assert(s.subrange(rstart + 1, rstart + 1 + lm) =~= dec_mag(m)) by {
            assert forall|k: int| 0 <= k < lm implies s.subrange(rstart + 1, rstart + 1 + lm)[k]
                == dec_mag(m)[k] by {
                assert(s.subrange(rstart + 1, rstart + 1 + lm)[k] == s[rstart + 1 + k]);
                assert(d[1 + k] == dec_mag(m)[k]);
            }
        }
        lemma_digits_value_of_mag(s, rstart + 1, m);
        assert(number_token(s, pos) == Some((n, rstart + len)));
    } else {
        let m = n as int;
        lemma_dec_mag_digits(m);
        assert forall|k: int| rstart <= k < rstart + len implies is_digit_byte(
            #[trigger] s[k],
        ) by {
            assert(d[k - rstart] == dec_mag(m)[k - rstart]);
        }
        lemma_digits_end_run(s, rstart, rstart + len);
        lemma_digits_value_of_mag(s, rstart, m);
        assert(number_token(s, pos) == Some((n, rstart + len)));
    }
}

/// Once both operands are known to parse as atoms and the separating
/// bytes are in place, the whole body between the parentheses parses as
/// the one binary node.
proof fn lemma_bin_tail(s: Seq<u8>, p1: int, el: int, er: int, l: Expr, op: Op, rt: Expr)
    requires
        0 <= p1 < el,
        el + 3 <= er < s.len(),
        sp_atom(s, p1) == (POut::Parsed { e: l, end: el }),
        sp_atom(s, el + 2) == (POut::Parsed { e: rt, end: er }),
        s[el] == SPACE,
        s[el + 1] == op.symbol_spec(),
        s[el + 2] == SPACE,
        s[er] == RPAREN,
    ensures
        sp_addsub(s, p1) == (POut::Parsed { e: bin_expr(l, op, rt), end: er }),
{
    let b = bin_expr(l, op, rt);
    let sym = op.symbol_spec();
    assert(sym == PLUS || sym == MINUS || sym == STAR || sym == SLASH);
    assert(skip_ws(s, el) == skip_ws(s, el + 1));
    assert(skip_ws(s, el + 1) == el + 1);
    assert(peek_spec(s, el) == Some(sym));
    assert(skip_ws(s, er) == er);
    assert(peek_spec(s, er) == Some(RPAREN));
    lemma_muldiv_loop_exit(s, er, rt);
    lemma_muldiv_loop_exit(s, er, b);
    lemma_addsub_loop_exit(s, er, b);
    assert(sp_muldiv(s, el + 2) == (POut::Parsed { e: rt, end: er }));
    match op {
        Op::Add => {
            lemma_muldiv_loop_exit(s, el, l);
            assert(sp_muldiv(s, p1) == (POut::Parsed { e: l, end: el }));
            assert(match_byte(s, el, PLUS) == Some(el + 2));
            assert(sp_addsub_loop(s, el, l) == (POut::Parsed { e: b, end: er }));
            assert(sp_addsub(s, p1) == (POut::Parsed { e: b, end: er }));
        },
        Op::Sub => {
            lemma_muldiv_loop_exit(s, el, l);
            assert(sp_muldiv(s, p1) == (POut::Parsed { e: l, end: el }));
            assert(match_byte(s, el, PLUS) is None);
            assert(match_byte(s, el, MINUS) == Some(el + 2));
            assert(sp_addsub_loop(s, el, l) == (POut::Parsed { e: b, end: er }));
            assert(sp_addsub(s, p1) == (POut::Parsed { e: b, end: er }));
        },
        Op::Mul => {
            assert(match_byte(s, el, STAR) == Some(el + 2));
            assert(sp_muldiv_loop(s, el, l) == (POut::Parsed { e: b, end: er }));
            assert(sp_muldiv(s, p1) == (POut::Parsed { e: b, end: er }));
            assert(sp_addsub(s, p1) == (POut::Parsed { e: b, end: er }));
        },
        Op::Div => {
            assert(match_byte(s, el, STAR) is None);
            assert(match_byte(s, el, SLASH) == Some(el + 2));
            assert(sp_muldiv_loop(s, el, l) == (POut::Parsed { e: b, end: er }));
            assert(sp_muldiv(s, p1) == (POut::Parsed { e: b, end: er }));
            assert(sp_addsub(s, p1) == (POut::Parsed { e: b, end: er }));
        },
    }
}

/// Parsing a rendered tree at `rstart` (after spaces) yields exactly
/// that tree, consuming exactly the rendering, when no digit follows it.
proof fn lemma_atom_round_trip(e: Expr, s: Seq<u8>, pos: int, rstart: int)
    requires
        0 <= pos <= s.len(),
        skip_ws(s, pos) == rstart,
        rstart + render_bytes(e).len() <= s.len(),
        s.subrange(rstart, rstart + render_bytes(e).len() as int) == render_bytes(e),
        rstart + render_bytes(e).len() == s.len() || !is_digit_byte(
            s[rstart + render_bytes(e).len()],
        ),
    ensures
        sp_atom(s, pos) == (POut::Parsed { e, end: rstart + render_bytes(e).len() as int }),
    decreases e,
{
    lemma_skip_ws_bounds(s, pos);
    let r = render_bytes(e);
    let len = r.len() as int;
    assert forall|k: int| 0 <= k < len implies s[rstart + k] == r[k] by {
        assert(s.subrange(rstart, rstart + len)[k] == s[rstart + k]);
    }
    match e {
        Expr::Number(n) => {
            lemma_number_round_trip(s, pos, rstart, n);
        },
        Expr::BinaryOp { left, op, right } => {
            let l = *left;
            let rt = *right;
            let rl = render_bytes(l);
            let rr = render_bytes(rt);
            let ll = rl.len() as int;
            let lr = rr.len() as int;
            lemma_render_first(l);
            lemma_render_first(rt);
            let mid = seq![SPACE, op.symbol_spec(), SPACE];
            let c1 = seq![LPAREN] + rl;
            let c2 = c1 + mid;
            let c3 = c2 + rr;
            let c4 = c3 + seq![RPAREN];
            assert(r == c4);
            assert(c1.len() == 1 + ll);
            assert(c2.len() == 4 + ll);
            assert(c3.len() == 4 + ll + lr);
            assert(c4.len() == 5 + ll + lr);
            assert(len == ll + lr + 5);
            assert(r[0] == LPAREN) by {
                assert(c4[0] == c3[0]);
                assert(c3[0] == c2[0]);
                assert(c2[0] == c1[0]);
                assert(c1[0] == seq![LPAREN][0]);
            }
            assert forall|i: int| 0 <= i < ll implies r[1 + i] == rl[i] by {
                assert(c4[1 + i] == c3[1 + i]);
                assert(c3[1 + i] == c2[1 + i]);
                assert(c2[1 + i] == c1[1 + i]);
                assert(c1[1 + i] == rl[i]);
            }
            assert forall|i: int| 0 <= i < 3 implies r[1 + ll + i] == mid[i] by {
                assert(c4[1 + ll + i] == c3[1 + ll + i]);
                assert(c3[1 + ll + i] == c2[1 + ll + i]);
                assert(c2[1 + ll + i] == mid[i]);
            }
            assert forall|j: int| 0 <= j < lr implies r[4 + ll + j] == rr[j] by {
                assert(c4[4 + ll + j] == c3[4 + ll + j]);
                assert(c3[4 + ll + j] == rr[j]);
            }
            assert(r[4 + ll + lr] == RPAREN) by {
                assert(c4[4 + ll + lr] == seq![RPAREN][0]);
            }
            let p1 = rstart + 1;
            let el = p1 + ll;
            let er = el + 3 + lr;
            assert(er == rstart + len - 1);
            // the opening parenthesis
            assert(s[rstart] == LPAREN);
            assert(match_byte(s, pos, LPAREN) == Some(p1));
            // the left operand parses as an atom right after it
            assert(s[p1] == rl[0]);
            assert(skip_ws(s, p1) == p1);
            assert(s.subrange(p1, p1 + ll) =~= rl) by {
                assert forall|k: int| 0 <= k < ll implies s.subrange(p1, p1 + ll)[k] == rl[k] by {
                    assert(s.subrange(p1, p1 + ll)[k] == s[p1 + k]);
                    assert(s[p1 + k] == r[1 + k]);
                }
            }
            assert(s[el] == r[1 + ll] && r[1 + ll] == SPACE);
            lemma_atom_round_trip(l, s, p1, p1);
            // one space, the operator, one space
            assert(s[el + 1] == r[2 + ll] && r[2 + ll] == op.symbol_spec());
            assert(s[el + 2] == r[3 + ll] && r[3 + ll] == SPACE);
            // the right operand parses as an atom after the second space
            assert(s[el + 3] == r[4 + ll]);
            assert(r[4 + ll] == rr[0]);
            assert(skip_ws(s, el + 2) == skip_ws(s, el + 3));
            assert(skip_ws(s, el + 3) == el + 3);
            assert(s.subrange(el + 3, el + 3 + lr) =~= rr) by {
                assert forall|k: int| 0 <= k < lr implies s.subrange(el + 3, el + 3 + lr)[k]
                    == rr[k] by {
                    assert(s.subrange(el + 3, el + 3 + lr)[k] == s[el + 3 + k]);
                    assert(s[el + 3 + k] == r[4 + ll + k]);
                }
            }
            assert(s[er] == r[4 + ll + lr] && r[4 + ll + lr] == RPAREN);
            lemma_atom_round_trip(rt, s, el + 2, el + 3);
            // the two folds stop at the closing parenthesis
            lemma_bin_tail(s, p1, el, er, l, op, rt);
            assert(skip_ws(s, er) == er);
            assert(match_byte(s, er, RPAREN) == Some(rstart + len));
            assert(e == bin_expr(l, op, rt));
            assert(sp_atom(s, pos) == (POut::Parsed { e, end: rstart + len }));
        },
    }
}

/// Law: parsing the rendering of any tree yields that very tree back,
/// consuming the whole rendering — so rendering then re-parsing loses
/// nothing, and the re-parsed tree evaluates to the same result.
pub proof fn lemma_render_parse_round_trip(e: Expr)
    ensures
        sp_parse(render_bytes(e)) == (POut::Parsed { e, end: render_bytes(e).len() as int }),
{
    let s = render_bytes(e);
    let len = s.len() as int;
    lemma_render_first(e);
    assert(skip_ws(s, 0) == 0);
    assert(s.subrange(0, len) =~= s);
    lemma_atom_round_trip(e, s, 0, 0);
    assert(skip_ws(s, len) == len);
    assert(peek_spec(s, len) is None);
    lemma_muldiv_loop_exit(s, len, e);
    assert(sp_muldiv(s, 0) == (POut::Parsed { e, end: len }));
    lemma_addsub_loop_exit(s, len, e);
    assert(sp_addsub(s, 0) == (POut::Parsed { e, end: len }));
}

/// Law: for a text whose characters are exactly the rendering of `e` —
/// what [`Expr::to_text`] returns — the parser's grammar over the
/// text's bytes yields `e` back, consuming the whole text.
pub proof fn lemma_text_round_trip(e: Expr, t: &str)
    requires
        t@.len() == render_bytes(e).len(),
        forall|i: int| 0 <= i < t@.len() ==> #[trigger] t@[i] == render_bytes(e)[i] as char,
    ensures
        t.spec_bytes() == render_bytes(e),
        sp_parse(t.spec_bytes()) == (POut::Parsed { e, end: t.spec_bytes().len() as int }),
{
    lemma_render_ascii(e);
    assert(vstd::utf8::is_ascii_chars(t@)) by {
        assert forall|i: int| 0 <= i < t@.len() implies '\0' <= #[trigger] t@[i] <= '\u{7f}' by {
            assert(t@[i] == render_bytes(e)[i] as char);
            assert(render_bytes(e)[i] < 128);
        }
    }
    vstd::utf8::is_ascii_chars_encode_utf8(t@);
    assert(t.spec_bytes() =~= render_bytes(e)) by {
        assert forall|i: int| 0 <= i < t@.len() implies t.spec_bytes()[i] == render_bytes(
            e,
        )[i] by {
            assert(t.spec_bytes()[i] == t@[i] as u8);
            assert(t@[i] == render_bytes(e)[i] as char);
        }
    }
    lemma_render_parse_round_trip(e);
}

} // verus!
