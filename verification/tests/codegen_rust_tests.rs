use gfd::ast::{BinOp, Expr, UnOp};
use gfd::codegen_rust::to_rust;
use gfd::number::Num;
use gfd::parser::parse;

#[test]
fn codegen_rust_simple_add() {
    let e = parse("1 + 2").unwrap();
    assert_eq!(to_rust(&e), "1.0 + 2.0");
}

#[test]
fn field_ref_access() {
    let e = parse("$rho * $U").unwrap();
    assert_eq!(to_rust(&e), "state.rho[cell_id] * state.U[cell_id]");
}

#[test]
fn codegen_rust_function_call() {
    let e = parse("sin(x) + cos(y)").unwrap();
    let code = to_rust(&e);
    assert!(code.contains(".sin()"));
    assert!(code.contains(".cos()"));
}

#[test]
fn power() {
    let e = parse("x ^ 3").unwrap();
    assert_eq!(to_rust(&e), "x.powf(3.0)");
}

#[test]
fn precedence_parens() {
    let e = parse("(a + b) * c").unwrap();
    let code = to_rust(&e);
    assert!(code.contains("(a + b)"));
}

#[test]
fn codegen_rust_constant_pi() {
    let e = parse("pi * r ^ 2").unwrap();
    let code = to_rust(&e);
    assert!(code.contains("std::f64::consts::PI"));
}

#[test]
fn exact_rust_strings() {
    assert_eq!(to_rust(&parse("pi * r ^ 2").unwrap()), "std::f64::consts::PI * r.powf(2.0)");
    assert_eq!(to_rust(&parse("(a + b) ^ 2").unwrap()), "(a + b).powf(2.0)");
    assert_eq!(to_rust(&parse("a - (b - c)").unwrap()), "a - b - c");
    assert_eq!(to_rust(&parse("a / (b * c)").unwrap()), "a / b * c");
    assert_eq!(to_rust(&parse("-x").unwrap()), "-x");
    assert_eq!(to_rust(&parse("ln(x) / e").unwrap()), "x.ln() / std::f64::consts::E");
    assert_eq!(to_rust(&parse("if(c, a, 2)").unwrap()), "if c { a } else { 2.0 }");
    assert_eq!(to_rust(&parse("grad($p)").unwrap()), "grad(state.p[cell_id])");
    assert_eq!(to_rust(&parse("magSqr(u)").unwrap()), "mag_sqr(u)");
    assert_eq!(to_rust(&parse("max(a, b, 3)").unwrap()), "max(a, b, 3.0)");
}

#[test]
fn number_literals() {
    assert_eq!(to_rust(&Expr::num(Num::decimal(25, -1))), "2.5");
    assert_eq!(to_rust(&Expr::num(Num::from_int(-4))), "-4.0");
    assert_eq!(to_rust(&Expr::num(Num::from_int(0))), "0.0");
    assert_eq!(to_rust(&Expr::num(Num::decimal(1, 15))), "1000000000000000");
    assert_eq!(to_rust(&Expr::num(Num::decimal(999_999_999_999_999, 0))), "999999999999999.0");
}

#[test]
fn unary_methods_apply_to_the_operand_text() {
    let e = Expr::unaryop(UnOp::Abs, Expr::var("v"));
    assert_eq!(to_rust(&e), "v.abs()");
    assert_eq!(to_rust(&parse("sqrt(x)").unwrap()), "x.sqrt()");
    assert_eq!(to_rust(&parse("exp(x)").unwrap()), "x.exp()");
}

#[test]
fn compound_operands_are_bracketed() {
    let e = Expr::unaryop(UnOp::Sin, Expr::binop(BinOp::Add, Expr::var("a"), Expr::var("b")));
    assert_eq!(to_rust(&e), "(a + b).sin()");
    assert_eq!(to_rust(&parse("-(a + b)").unwrap()), "-a + b");
    assert_eq!(to_rust(&parse("sqrt(-x)").unwrap()), "(-x).sqrt()");
    assert_eq!(to_rust(&parse("(-x) ^ 2").unwrap()), "(-x).powf(2.0)");
    assert_eq!(to_rust(&parse("abs(if(c, a, b))").unwrap()), "(if c { a } else { b }).abs()");
    assert_eq!(to_rust(&parse("exp(sin(x))").unwrap()), "x.sin().exp()");
    assert_eq!(
        to_rust(&Expr::unaryop(UnOp::Cos, Expr::num(Num::from_int(-2)))),
        "(-2.0).cos()"
    );
    assert_eq!(to_rust(&parse("x ^ 2 ^ 3").unwrap()), "x.powf(2.0.powf(3.0))");
}
