use gfd::ast::Expr;
use gfd::codegen_latex::to_latex;
use gfd::codegen_rust::to_rust;
use gfd::differentiate::differentiate;
use gfd::linearize::linearize_source;
use gfd::parser::parse;
use gfd::simplify::simplify;
use gfd::validate::{validate, ValidationContext};

#[test]
fn parse_simplify_latex_roundtrip() {
    let expr = parse("0 + $rho * $U").unwrap();
    let simplified = simplify(&expr);
    let latex = to_latex(&simplified);
    assert!(latex.contains(r"\rho"));
}

#[test]
fn parse_to_rust() {
    let expr = parse("$rho * sin($T)").unwrap();
    let code = to_rust(&expr);
    assert!(code.contains("state.rho[cell_id]"));
    assert!(code.contains(".sin()"));
}

#[test]
fn full_pipeline() {
    let expr = parse("$rho * ddt($U) + div($rho * $U * $U) - laplacian($mu, $U)").unwrap();

    let mut ctx = ValidationContext::new();
    ctx.add_field("rho").add_field("U").add_field("mu");
    let diags = validate(&expr, &ctx);
    assert!(diags.is_empty(), "unexpected validation errors: {diags:?}");

    let latex = to_latex(&expr);
    assert!(latex.contains(r"\nabla"));
    assert!(latex.contains(r"\rho"));

    let rust_code = to_rust(&expr);
    assert!(rust_code.contains("state.rho[cell_id]"));
}

#[test]
fn differentiate_and_simplify() {
    let expr = parse("x ^ 3 + 2 * x + 1").unwrap();
    let d = differentiate(&expr, "x").unwrap();
    let _latex = to_latex(&d);
}

#[test]
fn linearize_source_term() {
    let expr = parse("a * T + b").unwrap();
    let (sc, sp) = linearize_source(&expr, "T").unwrap();
    assert_eq!(sc, Expr::var("b"));
    assert_eq!(sp, Expr::var("a"));
}

#[test]
fn derivative_of_polynomial_is_exact() {
    let expr = parse("x ^ 3 + 2 * x + 1").unwrap();
    let d = differentiate(&expr, "x").unwrap();
    assert_eq!(to_rust(&d), "3.0 * x.powf(2.0) + 2.0");
}
