use gfd::ast::{BinOp, Expr, UnOp};
use gfd::differentiate::differentiate;
use gfd::number::Num;
use gfd::parser::parse;
use gfd::ExpressionError;

fn num(i: i64) -> Expr {
    Expr::num(Num::from_int(i))
}

fn d(input: &str, var: &str) -> Expr {
    differentiate(&parse(input).unwrap(), var).unwrap()
}

#[test]
fn const_zero() {
    assert_eq!(d("5", "x"), num(0));
}

#[test]
fn identity() {
    assert_eq!(d("x", "x"), num(1));
}

#[test]
fn different_var() {
    assert_eq!(d("y", "x"), num(0));
}

#[test]
fn sum_rule() {
    assert_eq!(d("x + x", "x"), num(2));
}

#[test]
fn product_rule() {
    let result = d("x * x", "x");
    assert_eq!(
        result,
        Expr::binop(BinOp::Add, Expr::var("x"), Expr::var("x"))
    );
}

#[test]
fn power_rule() {
    let result = d("x ^ 3", "x");
    assert_eq!(
        result,
        Expr::binop(
            BinOp::Mul,
            num(3),
            Expr::binop(BinOp::Pow, Expr::var("x"), num(2)),
        )
    );
}

#[test]
fn chain_rule_sin() {
    let result = d("sin(x)", "x");
    assert_eq!(result, Expr::unaryop(UnOp::Cos, Expr::var("x")));
}

#[test]
fn chain_rule_exp() {
    let result = d("exp(x)", "x");
    assert_eq!(result, Expr::unaryop(UnOp::Exp, Expr::var("x")));
}

#[test]
fn differentiate_negation() {
    let result = d("-x", "x");
    assert_eq!(result, num(-1));
}

#[test]
fn constant_subexpressions_vanish() {
    assert_eq!(d("$rho * sin(y) + 3 ^ z - pi / sqrt(2)", "x"), num(0));
}

#[test]
fn quotient_of_constants_with_zero_divisor_stays() {
    assert_eq!(
        d("1 / 0", "x"),
        Expr::binop(BinOp::Div, num(0), num(0))
    );
}

#[test]
fn generic_function_is_not_differentiable() {
    assert!(matches!(
        differentiate(&parse("max(x, 1)").unwrap(), "x"),
        Err(ExpressionError::DifferentiationError { .. })
    ));
}

#[test]
fn operators_are_not_differentiable() {
    assert!(matches!(
        differentiate(&parse("grad(x)").unwrap(), "x"),
        Err(ExpressionError::DifferentiationError { .. })
    ));
}

#[test]
fn conditional_differentiates_branches() {
    let result = d("if(c, x, 2)", "x");
    assert_eq!(
        result,
        Expr::Conditional {
            condition: Box::new(Expr::var("c")),
            true_val: Box::new(num(1)),
            false_val: Box::new(num(0)),
        }
    );
}

#[test]
fn log_rule() {
    assert_eq!(
        d("ln(x)", "x"),
        Expr::binop(BinOp::Div, num(1), Expr::var("x"))
    );
}
