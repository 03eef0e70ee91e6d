use gfd::ast::{BinOp, Expr, UnOp};
use gfd::linearize::linearize_source;
use gfd::number::Num;
use gfd::parser::parse;

fn num(i: i64) -> Expr {
    Expr::num(Num::from_int(i))
}

fn lin(input: &str, phi: &str) -> (Expr, Expr) {
    linearize_source(&parse(input).unwrap(), phi).unwrap()
}

#[test]
fn pure_constant() {
    let (sc, sp) = lin("5", "T");
    assert_eq!(sc, num(5));
    assert_eq!(sp, num(0));
}

#[test]
fn linear_variable() {
    let (sc, sp) = lin("T", "T");
    assert_eq!(sc, num(0));
    assert_eq!(sp, num(1));
}

#[test]
fn linear_expression() {
    let (sc, sp) = lin("a * T + b", "T");
    assert_eq!(sc, Expr::var("b"));
    assert_eq!(sp, Expr::var("a"));
}

#[test]
fn negated() {
    let (sc, sp) = lin("-T", "T");
    assert_eq!(sc, num(0));
    assert_eq!(sp, num(-1));
}

#[test]
fn nonlinear_term_goes_to_sc() {
    let (sc, sp) = lin("T * T", "T");
    assert_eq!(sc, Expr::binop(BinOp::Mul, Expr::var("T"), Expr::var("T")));
    assert_eq!(sp, num(0));
}

#[test]
fn coefficient_on_the_right() {
    let (sc, sp) = lin("T * 4 - 3", "T");
    assert_eq!(sc, num(-3));
    assert_eq!(sp, num(4));
}

#[test]
fn independent_term_is_kept_whole() {
    let (sc, sp) = lin("sin(x) + $rho", "T");
    assert_eq!(
        sc,
        parse("sin(x) + $rho").unwrap()
    );
    assert_eq!(sp, num(0));
}

fn ring_eval(e: &Expr, t: i64, a: i64) -> i64 {
    match e {
        Expr::Number(n) => (-1000..=1000i64).find(|k| Num::from_int(*k) == *n).unwrap(),
        Expr::Variable(name) => if name == "T" { t } else { a },
        Expr::BinaryOp { op, left, right } => {
            let (x, y) = (ring_eval(left, t, a), ring_eval(right, t, a));
            match op {
                BinOp::Add => x + y,
                BinOp::Sub => x - y,
                BinOp::Mul => x * y,
                _ => panic!("outside the ring fragment"),
            }
        }
        Expr::UnaryOp { op: UnOp::Neg, operand } => -ring_eval(operand, t, a),
        _ => panic!("outside the ring fragment"),
    }
}

#[test]
fn split_is_exact_on_values() {
    let inputs = [
        "3 * T + a * T - 2 + T * T",
        "-(a - 2 * T) * 4 + 0 * T",
        "(T - a) * (1 + a) - (5 - T)",
    ];
    for input in inputs {
        let source = parse(input).unwrap();
        let (sc, sp) = linearize_source(&source, "T").unwrap();
        for (t, a) in [(0, 0), (3, -4), (-6, 9)] {
            assert_eq!(
                ring_eval(&sc, t, a) + ring_eval(&sp, t, a) * t,
                ring_eval(&source, t, a),
                "{}",
                input
            );
        }
    }
}
