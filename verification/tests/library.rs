use arith_expr::expr::{EvalError, Expr};
use arith_expr::op::Op;
use arith_expr::parser::{ParseError, Parser};

fn parse(input: &str) -> Result<Expr, ParseError> {
    let mut parser = Parser::new(input);
    parser.parse()
}

fn as_f64(input: &str) -> f64 {
    let q = parse(input).unwrap().eval().unwrap();
    q.num as f64 / q.den as f64
}

#[test]
fn exact_rational_results() {
    let q = parse("10 / 4").unwrap().eval().unwrap();
    assert_eq!((q.num, q.den), (10, 4));
    assert_eq!(q.num as f64 / q.den as f64, 2.5);
    assert_eq!(as_f64("1 / -2"), -0.5);
    assert_eq!(as_f64("1 / 3"), 1.0 / 3.0);
}

#[test]
fn is_integer_checks_the_exact_value() {
    let q = parse("10 / 5").unwrap().eval().unwrap();
    assert!(q.is_integer(2));
    assert!(!q.is_integer(3));
    let third = parse("1 / 3").unwrap().eval().unwrap();
    assert!(!third.is_integer(0));
}

#[test]
fn division_by_zero_error_value() {
    assert_eq!(parse("1 / 0").unwrap().eval(), Err(EvalError::DivisionByZero));
    assert_eq!(parse("1 / (5 - 5)").unwrap().eval(), Err(EvalError::DivisionByZero));
}

#[test]
fn overflow_is_reported_not_wrapped() {
    assert_eq!(
        parse("9223372036854775807 + 1").unwrap().eval(),
        Err(EvalError::Overflow)
    );
}

#[test]
fn smallest_literal_parses() {
    let q = parse("-9223372036854775808").unwrap().eval().unwrap();
    assert_eq!((q.num, q.den), (i64::MIN, 1));
}

#[test]
fn too_large_literal_is_a_parse_error() {
    let e = parse("99999999999999999999").unwrap_err();
    assert_eq!(e.message, "Expected number or '('");
}

#[test]
fn malformed_input_is_a_parse_error() {
    assert_eq!(parse("(1 + 2").unwrap_err().message, "Mismatched parenthesis");
    assert_eq!(parse("+").unwrap_err().message, "Expected number or '('");
    assert_eq!(parse("").unwrap_err().message, "Expected number or '('");
    assert_eq!(parse("-").unwrap_err().message, "Expected number or '('");
}

#[test]
fn trailing_input_is_ignored() {
    // a successful parse of a strict prefix is accepted
    let q = parse("1 + 2 junk").unwrap().eval().unwrap();
    assert_eq!((q.num, q.den), (3, 1));
    let q2 = parse("4)").unwrap().eval().unwrap();
    assert_eq!((q2.num, q2.den), (4, 1));
}

#[test]
fn rendering_is_fully_parenthesized() {
    assert_eq!(parse("1+2*3").unwrap().to_text(), "(1 + (2 * 3))");
    assert_eq!(parse("10 - 2 - 3").unwrap().to_text(), "((10 - 2) - 3)");
    assert_eq!(parse("2(3 - 1)").unwrap().to_text(), "(2 * (3 - 1))");
    assert_eq!(parse("-5").unwrap().to_text(), "-5");
}

#[test]
fn parse_render_parse_round_trip() {
    for input in ["1 + 2 * 3", "10 / 2 / 5", "-2(-3(1/3))", "((1 + 2) * (3 + 4))", "-5 * -2"] {
        let tree = parse(input).unwrap();
        let text = tree.to_text();
        let again = parse(&text).unwrap();
        assert_eq!(again, tree);
        assert_eq!(again.eval(), tree.eval());
    }
}

#[test]
fn evaluation_is_idempotent() {
    let tree = parse("10 / (2 + 3)").unwrap();
    let first = tree.eval();
    let second = tree.eval();
    assert_eq!(first, second);
    assert_eq!(first.unwrap().num, 10);
}

#[test]
fn peek_and_consume() {
    let mut p = Parser::new("   + 1");
    assert_eq!(p.peek(), Some('+'));
    assert!(p.consume("+"));
    assert!(!p.consume("+"));
    let q = p.parse().unwrap().eval().unwrap();
    assert_eq!((q.num, q.den), (1, 1));
}

#[test]
fn operator_symbols() {
    assert_eq!(Op::Add.symbol(), b'+');
    assert_eq!(Op::Sub.symbol(), b'-');
    assert_eq!(Op::Mul.symbol(), b'*');
    assert_eq!(Op::Div.symbol(), b'/');
}

#[test]
fn parse_error_new_keeps_the_message() {
    let e = ParseError::new("boom");
    assert_eq!(e.message, "boom");
}
