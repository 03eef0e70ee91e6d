use gfd::ast::{BinOp, DiffOperator, Expr, TensorOperator, UnOp};
use gfd::number::Num;
use gfd::parser::parse;
use gfd::ExpressionError;

fn num(i: i64) -> Expr {
    Expr::num(Num::from_int(i))
}

#[test]
fn literal_number() {
    assert_eq!(parse("42").unwrap(), Expr::Number(Num::from_int(42)));
}

#[test]
fn parser_simple_add() {
    let e = parse("1 + 2").unwrap();
    assert_eq!(e, Expr::binop(BinOp::Add, num(1), num(2)));
}

#[test]
fn precedence_mul_add() {
    let e = parse("1 + 2 * 3").unwrap();
    assert_eq!(
        e,
        Expr::binop(
            BinOp::Add,
            num(1),
            Expr::binop(BinOp::Mul, num(2), num(3)),
        )
    );
}

#[test]
fn precedence_pow() {
    let e = parse("2 ^ 3 ^ 2").unwrap();
    assert_eq!(
        e,
        Expr::binop(
            BinOp::Pow,
            num(2),
            Expr::binop(BinOp::Pow, num(3), num(2)),
        )
    );
}

#[test]
fn parentheses() {
    let e = parse("(1 + 2) * 3").unwrap();
    assert_eq!(
        e,
        Expr::binop(
            BinOp::Mul,
            Expr::binop(BinOp::Add, num(1), num(2)),
            num(3),
        )
    );
}

#[test]
fn parser_negation() {
    let e = parse("-x").unwrap();
    assert_eq!(e, Expr::unaryop(UnOp::Neg, Expr::var("x")));
}

#[test]
fn double_negation_folded() {
    let e = parse("--x").unwrap();
    assert_eq!(e, Expr::var("x"));
}

#[test]
fn field_ref_in_expr() {
    let e = parse("$rho * $U").unwrap();
    assert_eq!(
        e,
        Expr::binop(BinOp::Mul, Expr::field("rho"), Expr::field("U"))
    );
}

#[test]
fn function_sin() {
    let e = parse("sin(x)").unwrap();
    assert_eq!(e, Expr::unaryop(UnOp::Sin, Expr::var("x")));
}

#[test]
fn function_laplacian() {
    let e = parse("laplacian($nu, $U)").unwrap();
    assert_eq!(
        e,
        Expr::DiffOp {
            op: DiffOperator::Laplacian,
            operands: vec![Expr::field("nu"), Expr::field("U")],
        }
    );
}

#[test]
fn conditional() {
    let e = parse("if(x, 1, 0)").unwrap();
    assert_eq!(
        e,
        Expr::Conditional {
            condition: Box::new(Expr::var("x")),
            true_val: Box::new(num(1)),
            false_val: Box::new(num(0)),
        }
    );
}

#[test]
fn complex_expression() {
    let e = parse("$rho * ddt($U) + div($rho * $U * $U) - laplacian($mu, $U)").unwrap();
    match e {
        Expr::BinaryOp { op: BinOp::Sub, .. } => {}
        other => panic!("unexpected top-level node: {other:?}"),
    }
}

#[test]
fn parser_constant_pi() {
    let e = parse("pi * r ^ 2").unwrap();
    match &e {
        Expr::BinaryOp { left, .. } => {
            assert_eq!(**left, Expr::Constant("pi".into()));
        }
        _ => panic!("unexpected"),
    }
}

#[test]
fn generic_function() {
    let e = parse("max(a, b)").unwrap();
    assert_eq!(
        e,
        Expr::FunctionCall {
            name: "max".into(),
            args: vec![Expr::var("a"), Expr::var("b")],
        }
    );
}

#[test]
fn err_trailing_token() {
    assert!(parse("1 + 2 )").is_err());
}

#[test]
fn subtraction_is_left_associative() {
    let e = parse("a - b - c").unwrap();
    assert_eq!(
        e,
        Expr::binop(
            BinOp::Sub,
            Expr::binop(BinOp::Sub, Expr::var("a"), Expr::var("b")),
            Expr::var("c"),
        )
    );
}

#[test]
fn tensor_operator_call() {
    let e = parse("dot($U, $V)").unwrap();
    assert_eq!(
        e,
        Expr::TensorOp {
            op: TensorOperator::Dot,
            operands: vec![Expr::field("U"), Expr::field("V")],
        }
    );
}

#[test]
fn empty_input_is_a_parse_error() {
    assert!(matches!(parse(""), Err(ExpressionError::ParseError { .. })));
}

#[test]
fn unclosed_parenthesis_is_a_parse_error() {
    assert!(matches!(parse("(1 + 2"), Err(ExpressionError::ParseError { .. })));
}

#[test]
fn tokenize_errors_pass_through() {
    assert!(matches!(parse("1 + #"), Err(ExpressionError::TokenizeError { .. })));
}

#[test]
fn decimal_literal_parses_exactly() {
    assert_eq!(parse("2.5").unwrap(), Expr::Number(Num::decimal(25, -1)));
}

#[test]
fn unary_function_arity_is_checked() {
    assert!(matches!(parse("sin(x, y)"), Err(ExpressionError::ParseError { .. })));
}

#[test]
fn trailing_token_message() {
    match parse("1 + 2 )") {
        Err(ExpressionError::ParseError { message, position }) => {
            assert_eq!(message, "unexpected token after expression: RightParen");
            assert_eq!(position, 3);
        }
        other => panic!("unexpected result: {other:?}"),
    }
}
