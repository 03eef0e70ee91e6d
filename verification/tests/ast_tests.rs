use gfd::ast::{BinOp, Expr, UnOp, Unit};
use gfd::number::Num;

fn num(i: i64) -> Expr {
    Expr::num(Num::from_int(i))
}

#[test]
fn unit_arithmetic() {
    let m = Unit::new(0, 1, 0, 0, 0);
    let s = Unit::new(0, 0, 1, 0, 0);
    let velocity = m.div(s);
    assert_eq!(velocity, Unit::new(0, 1, -1, 0, 0));

    let accel = velocity.div(s);
    assert_eq!(accel, Unit::new(0, 1, -2, 0, 0));

    let area = m.pow(2);
    assert_eq!(area, Unit::new(0, 2, 0, 0, 0));
}

#[test]
fn expr_construction() {
    let e = Expr::binop(BinOp::Add, num(1), Expr::var("x"));
    match &e {
        Expr::BinaryOp { op, left, right } => {
            assert_eq!(*op, BinOp::Add);
            assert_eq!(**left, Expr::Number(Num::from_int(1)));
            assert_eq!(**right, Expr::Variable("x".into()));
        }
        _ => panic!("unexpected variant"),
    }
}

#[test]
fn unit_mul_adds_exponents() {
    let a = Unit::new(1, -1, -2, 0, 0);
    let b = Unit::new(0, 2, 1, 1, -1);
    assert_eq!(a.mul(b), Unit::new(1, 1, -1, 1, -1));
    assert_eq!(a.mul(b), b.mul(a));
    assert_eq!(a.mul(b).div(b), a);
}

#[test]
fn unit_pow_scales_exponents() {
    let v = Unit::new(0, 1, -1, 0, 0);
    assert_eq!(v.pow(3), Unit::new(0, 3, -3, 0, 0));
    assert_eq!(v.pow(0), Unit::dimensionless());
    assert_eq!(v.pow(-1), Unit::new(0, -1, 1, 0, 0));
    assert_eq!(v.pow(2), v.mul(v));
}

#[test]
fn unit_dimensionless_identity() {
    let p = Unit::new(1, -1, -2, 0, 0);
    assert!(Unit::dimensionless().is_dimensionless());
    assert!(!p.is_dimensionless());
    assert_eq!(p.mul(Unit::dimensionless()), p);
    assert!(p.div(p).is_dimensionless());
}

#[test]
fn expr_helpers_build_nodes() {
    let e = Expr::unaryop(UnOp::Sqrt, Expr::field("rho"));
    assert_eq!(
        e,
        Expr::UnaryOp {
            op: UnOp::Sqrt,
            operand: Box::new(Expr::FieldRef("rho".into())),
        }
    );
}
