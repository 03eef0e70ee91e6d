use gfd::ast::Unit;
use gfd::ast::{BinOp, Expr};
use gfd::dimension::{
    check_dimensions, density, dimensionless, dimensions_fit, kelvin, metre, pressure, second,
    velocity, viscosity, DimensionContext,
};
use gfd::number::Num;
use gfd::parser::parse;
use gfd::ExpressionError;

fn ctx() -> DimensionContext {
    let mut c = DimensionContext::new();
    c.insert("rho", density());
    c.insert("U", velocity());
    c.insert("p", pressure());
    c.insert("mu", viscosity());
    c.insert("T", kelvin());
    c.insert("x", metre());
    c
}

#[test]
fn velocity_squared() {
    let e = parse("$U * $U").unwrap();
    let u = check_dimensions(&e, &ctx()).unwrap();
    assert_eq!(u, Unit::new(0, 2, -2, 0, 0));
}

#[test]
fn pressure_consistency() {
    let e1 = parse("$rho * $U * $U").unwrap();
    let e2 = parse("$p").unwrap();
    let u1 = check_dimensions(&e1, &ctx()).unwrap();
    let u2 = check_dimensions(&e2, &ctx()).unwrap();
    assert_eq!(u1, u2);
}

#[test]
fn add_mismatch() {
    let e = parse("$rho + $U").unwrap();
    assert!(check_dimensions(&e, &ctx()).is_err());
}

#[test]
fn transcendental_needs_dimensionless() {
    let e = parse("sin($x)").unwrap();
    assert!(check_dimensions(&e, &ctx()).is_err());
}

#[test]
fn sqrt_velocity_sq() {
    let e = parse("sqrt($U * $U)").unwrap();
    let u = check_dimensions(&e, &ctx()).unwrap();
    assert_eq!(u, velocity());
}

#[test]
fn get_reads_back_insert() {
    let mut c = DimensionContext::new();
    assert!(c.get("U").is_none());
    c.insert("U", velocity()).insert("t", second());
    assert_eq!(c.get("U"), Some(&velocity()));
    assert_eq!(c.get("t"), Some(&second()));
    c.insert("U", metre());
    assert_eq!(c.get("U"), Some(&metre()));
    assert_eq!(c.get("t"), Some(&second()));
}

#[test]
fn unknown_name_is_a_dimension_error() {
    let e = parse("$q * 2").unwrap();
    assert!(matches!(
        check_dimensions(&e, &ctx()),
        Err(ExpressionError::DimensionError { .. })
    ));
}

#[test]
fn numbers_are_dimensionless() {
    let e = parse("2 * 3.5").unwrap();
    assert_eq!(check_dimensions(&e, &ctx()).unwrap(), dimensionless());
}

#[test]
fn division_divides_units() {
    let e = parse("$x / $U").unwrap();
    assert_eq!(check_dimensions(&e, &ctx()).unwrap(), second());
}

#[test]
fn integer_power_scales_units() {
    let e = parse("$x ^ 3").unwrap();
    assert_eq!(check_dimensions(&e, &ctx()).unwrap(), Unit::new(0, 3, 0, 0, 0));
}

#[test]
fn viscous_term_has_pressure_units_per_length() {
    let e = parse("$mu * $U / $x / $x").unwrap();
    let u = check_dimensions(&e, &ctx()).unwrap();
    assert_eq!(u, pressure().div(metre()));
}

#[test]
fn fractional_literal_exponent_needs_dimensionless_base() {
    let e = Expr::binop(BinOp::Pow, Expr::var("x"), Expr::num(Num::decimal(5, -1)));
    match check_dimensions(&e, &ctx()) {
        Err(ExpressionError::DimensionError { message }) => {
            assert_eq!(message, "non-literal exponent requires dimensionless base")
        }
        other => panic!("unexpected result: {other:?}"),
    }
    let d = Expr::binop(BinOp::Pow, Expr::num(Num::from_int(2)), Expr::num(Num::decimal(5, -1)));
    assert_eq!(check_dimensions(&d, &ctx()).unwrap(), dimensionless());
}

#[test]
fn exponent_overflow_is_detected_before_checking() {
    let ok = parse("$x ^ 3").unwrap();
    assert!(dimensions_fit(&ok, &ctx()));
    let big = parse("($x * $x) ^ 100").unwrap();
    assert!(!dimensions_fit(&big, &ctx()));
    let mixed = parse("$x * $x ^ 127").unwrap();
    assert!(!dimensions_fit(&mixed, &ctx()));
}
