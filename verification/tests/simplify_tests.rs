use gfd::ast::{BinOp, Expr, UnOp};
use gfd::number::Num;
use gfd::parser::parse;
use gfd::simplify::{simplify, simplify_binop, simplify_unaryop};

fn num(i: i64) -> Expr {
    Expr::num(Num::from_int(i))
}

fn simplified(input: &str) -> Expr {
    simplify(&parse(input).unwrap())
}

#[test]
fn zero_add() {
    assert_eq!(simplified("0 + x"), Expr::var("x"));
    assert_eq!(simplified("x + 0"), Expr::var("x"));
}

#[test]
fn zero_mul() {
    assert_eq!(simplified("0 * x"), num(0));
    assert_eq!(simplified("x * 0"), num(0));
}

#[test]
fn one_mul() {
    assert_eq!(simplified("1 * x"), Expr::var("x"));
    assert_eq!(simplified("x * 1"), Expr::var("x"));
}

#[test]
fn sub_self() {
    assert_eq!(simplified("x - x"), num(0));
}

#[test]
fn div_self() {
    assert_eq!(simplified("x / x"), num(1));
}

#[test]
fn constant_folding() {
    assert_eq!(simplified("2 + 3"), num(5));
    assert_eq!(simplified("6 / 2"), num(3));
    assert_eq!(simplified("2 ^ 10"), num(1024));
}

#[test]
fn nested_negation() {
    assert_eq!(simplified("--x"), Expr::var("x"));
}

#[test]
fn pow_identities() {
    assert_eq!(simplified("x ^ 0"), num(1));
    assert_eq!(simplified("x ^ 1"), Expr::var("x"));
    assert_eq!(simplified("1 ^ x"), num(1));
}

#[test]
fn composite() {
    assert_eq!(simplified("(0 + x) * (1 + 0)"), Expr::var("x"));
}

#[test]
fn folding_is_exact_for_decimals() {
    assert_eq!(simplified("0.1 + 0.2"), Expr::num(Num::decimal(3, -1)));
    assert_eq!(simplified("1 / 4"), Expr::num(Num::decimal(25, -2)));
    assert_eq!(simplified("2 ^ -2"), Expr::num(Num::decimal(25, -2)));
}

#[test]
fn inexact_quotient_stays_symbolic() {
    assert_eq!(
        simplified("1 / 3"),
        Expr::binop(BinOp::Div, num(1), num(3))
    );
}

#[test]
fn division_by_literal_zero_is_kept() {
    assert_eq!(
        simplified("x / 0"),
        Expr::binop(BinOp::Div, Expr::var("x"), num(0))
    );
    assert_eq!(simplified("4 / 0"), Expr::binop(BinOp::Div, num(4), num(0)));
}

#[test]
fn zero_minus_x_is_negation() {
    assert_eq!(simplified("0 - x"), Expr::unaryop(UnOp::Neg, Expr::var("x")));
}

#[test]
fn x_plus_negated_x_cancels() {
    let e = Expr::binop(
        BinOp::Add,
        Expr::var("x"),
        Expr::unaryop(UnOp::Neg, Expr::var("x")),
    );
    assert_eq!(simplify(&e), num(0));
}

#[test]
fn special_function_values_fold() {
    assert_eq!(simplified("sin(0)"), num(0));
    assert_eq!(simplified("cos(0)"), num(1));
    assert_eq!(simplified("exp(0)"), num(1));
    assert_eq!(simplified("ln(1)"), num(0));
    assert_eq!(simplified("sqrt(1)"), num(1));
    assert_eq!(simplified("abs(-7)"), num(7));
    assert_eq!(
        simplified("sin(1)"),
        Expr::unaryop(UnOp::Sin, num(1))
    );
}

#[test]
fn simplify_binop_on_simplified_children() {
    assert_eq!(simplify_binop(BinOp::Mul, num(6), num(7)), num(42));
    assert_eq!(
        simplify_binop(BinOp::Pow, Expr::var("y"), num(1)),
        Expr::var("y")
    );
}

#[test]
fn simplify_unaryop_negates_numbers() {
    assert_eq!(simplify_unaryop(UnOp::Neg, num(3)), num(-3));
    assert_eq!(simplify_unaryop(UnOp::Neg, num(0)), num(0));
}

#[test]
fn identity_laws_on_a_compound_operand() {
    let x = || parse("a * b + c").unwrap();
    let sx = simplify(&x());
    assert_eq!(simplify(&Expr::binop(BinOp::Add, x(), num(0))), sx);
    assert_eq!(simplify(&Expr::binop(BinOp::Mul, num(1), x())), sx);
    assert_eq!(simplify(&Expr::binop(BinOp::Div, x(), num(1))), sx);
    assert_eq!(simplify(&Expr::binop(BinOp::Pow, x(), num(0))), num(1));
    assert_eq!(simplify(&Expr::binop(BinOp::Sub, x(), x())), num(0));
}

#[test]
fn exact_square_roots_fold() {
    assert_eq!(simplified("sqrt(4)"), num(2));
    assert_eq!(simplified("sqrt(0.04)"), Expr::num(Num::decimal(2, -1)));
    assert_eq!(simplified("sqrt(1e6)"), num(1000));
    assert_eq!(simplified("sqrt(2)"), Expr::unaryop(UnOp::Sqrt, num(2)));
    assert_eq!(simplified("sqrt(40)"), Expr::unaryop(UnOp::Sqrt, num(40)));
    assert_eq!(simplified("sqrt(0.4)"), Expr::unaryop(UnOp::Sqrt, Expr::num(Num::decimal(4, -1))));
    assert_eq!(simplified("sqrt(-4)"), Expr::unaryop(UnOp::Sqrt, num(-4)));
}

fn ring_eval(e: &Expr, x: i64, y: i64) -> i64 {
    match e {
        Expr::Number(n) => (-1000..=1000i64).find(|k| Num::from_int(*k) == *n).unwrap(),
        Expr::Variable(name) => if name == "x" { x } else { y },
        Expr::BinaryOp { op, left, right } => {
            let (a, b) = (ring_eval(left, x, y), ring_eval(right, x, y));
            match op {
                BinOp::Add => a + b,
                BinOp::Sub => a - b,
                BinOp::Mul => a * b,
                _ => panic!("outside the ring fragment"),
            }
        }
        Expr::UnaryOp { op: UnOp::Neg, operand } => -ring_eval(operand, x, y),
        _ => panic!("outside the ring fragment"),
    }
}

#[test]
fn simplification_keeps_ring_values() {
    let inputs = [
        "2 * (x + 3) - -(-x) + 0 * y",
        "(x - x) * y + 1 * (y - 0)",
        "-(-(x * 1)) + (4 - 4) - (0 - y)",
        "(2 + 3) * x - y * (7 - 2 * 3)",
    ];
    for input in inputs {
        let original = parse(input).unwrap();
        let reduced = simplify(&original);
        for (x, y) in [(0, 0), (5, -2), (-7, 11)] {
            assert_eq!(ring_eval(&reduced, x, y), ring_eval(&original, x, y), "{}", input);
        }
    }
    assert_eq!(simplified("(2 + 3) * x - y * (7 - 2 * 3)"), simplified("5 * x - y"));
}
