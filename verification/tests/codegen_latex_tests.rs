use gfd::ast::{BinOp, Expr, TensorOperator, UnOp};
use gfd::codegen_latex::{child_needs_parens, greek_or_text, precedence, to_latex};
use gfd::number::Num;
use gfd::parser::parse;

#[test]
fn simple_fraction() {
    let e = parse("a / b").unwrap();
    let latex = to_latex(&e);
    assert_eq!(latex, r"\frac{a}{b}");
}

#[test]
fn greek_letters() {
    let e = parse("$rho * $mu").unwrap();
    let latex = to_latex(&e);
    assert!(latex.contains(r"\rho"));
    assert!(latex.contains(r"\mu"));
}

#[test]
fn gradient() {
    let e = parse("grad($T)").unwrap();
    let latex = to_latex(&e);
    assert!(latex.contains(r"\nabla"));
}

#[test]
fn laplacian_two_arg() {
    let e = parse("laplacian($nu, $U)").unwrap();
    let latex = to_latex(&e);
    assert!(latex.contains(r"\nabla \cdot"));
    assert!(latex.contains(r"\nabla"));
}

#[test]
fn time_derivative() {
    let e = parse("ddt($rho)").unwrap();
    let latex = to_latex(&e);
    assert!(latex.contains(r"\partial"));
}

#[test]
fn power_and_sqrt() {
    let e = parse("sqrt(x ^ 2 + y ^ 2)").unwrap();
    let latex = to_latex(&e);
    assert!(latex.contains(r"\sqrt"));
}

#[test]
fn codegen_latex_constant_pi() {
    let e = parse("pi").unwrap();
    assert_eq!(to_latex(&e), r"\pi");
}

#[test]
fn exact_latex_strings() {
    assert_eq!(to_latex(&parse("$rho * $mu").unwrap()), r"\rho \mu");
    assert_eq!(to_latex(&parse("(a + b) * c").unwrap()), r"\left( a + b \right) \cdot c");
    assert_eq!(to_latex(&parse("2 * x").unwrap()), "2 x");
    assert_eq!(to_latex(&parse("(a + b) * sin(c)").unwrap()), r"\left( a + b \right) \cdot \sin\left( c \right)");
    assert_eq!(to_latex(&parse("x ^ 2").unwrap()), r"{x}^{2}");
    assert_eq!(to_latex(&parse("laplacian($nu, $U)").unwrap()), r"\nabla \cdot \left( \nu \nabla U \right)");
    assert_eq!(to_latex(&parse("ddt($rho)").unwrap()), r"\frac{\partial \rho}{\partial t}");
    assert_eq!(to_latex(&parse("-(a + b)").unwrap()), r"-\left( a + b \right)");
    assert_eq!(to_latex(&parse("a - (b + c)").unwrap()), r"a - b + c");
    assert_eq!(to_latex(&parse("a - b * c").unwrap()), r"a - b c");
}

#[test]
fn names_and_numbers() {
    assert_eq!(to_latex(&parse("velocity").unwrap()), r"\text{velocity}");
    assert_eq!(to_latex(&parse("Gamma_coeff").unwrap()), r"\gamma");
    assert_eq!(to_latex(&Expr::num(Num::decimal(25, -1))), "2.5");
    assert_eq!(to_latex(&Expr::num(Num::from_int(-3))), "-3");
    assert_eq!(to_latex(&Expr::Constant("e".into())), "e");
}

#[test]
fn calls_conditionals_and_tensors() {
    assert_eq!(to_latex(&parse("max(a, b)").unwrap()), r"\operatorname{max}\left( a, b \right)");
    assert_eq!(
        to_latex(&parse("if(c, 1, 0)").unwrap()),
        r"\begin{cases} 1 & \text{if } c \\ 0 & \text{otherwise} \end{cases}"
    );
    let t = Expr::TensorOp { op: TensorOperator::Transpose, operands: vec![Expr::var("A")] };
    assert_eq!(to_latex(&t), "A^T");
    let dot = Expr::TensorOp { op: TensorOperator::Dot, operands: vec![Expr::var("a")] };
    assert_eq!(to_latex(&dot), r"a \cdot ");
    let abs = Expr::unaryop(UnOp::Abs, Expr::var("z"));
    assert_eq!(to_latex(&abs), r"\left| z \right|");
}

#[test]
fn greek_table_and_precedence() {
    assert_eq!(greek_or_text("Omega"), r"\Omega");
    assert_eq!(greek_or_text("T"), "T");
    assert_eq!(greek_or_text("é"), r"\text{é}");
    assert_eq!(precedence(BinOp::Pow), 3);
    assert!(child_needs_parens(BinOp::Add, BinOp::Mul));
    assert!(!child_needs_parens(BinOp::Mul, BinOp::Add));
    assert!(!child_needs_parens(BinOp::Div, BinOp::Mul));
}
