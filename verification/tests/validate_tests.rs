use gfd::ast::{DiffOperator, Expr, TensorOperator};
use gfd::dimension::{density, velocity, DimensionContext};
use gfd::parser::parse;
use gfd::validate::{validate, Diagnostic, DiagnosticLevel, ValidationContext};

#[test]
fn unknown_field() {
    let e = parse("$rho + $unknown_field").unwrap();
    let mut ctx = ValidationContext::new();
    ctx.add_field("rho");
    let diags = validate(&e, &ctx);
    assert!(diags.iter().any(|d| d.message.contains("unknown_field")));
}

#[test]
fn division_by_zero_detected() {
    let e = parse("x / 0").unwrap();
    let ctx = ValidationContext::new();
    let diags = validate(&e, &ctx);
    assert!(diags
        .iter()
        .any(|d| d.message.contains("division by literal zero")));
}

#[test]
fn operator_arity_mismatch() {
    let e = Expr::DiffOp {
        op: DiffOperator::Gradient,
        operands: vec![Expr::var("a"), Expr::var("b")],
    };
    let ctx = ValidationContext::new();
    let diags = validate(&e, &ctx);
    assert!(diags.iter().any(|d| d.level == DiagnosticLevel::Error));
}

#[test]
fn valid_expression_no_diags() {
    let e = parse("$rho * $U + $p").unwrap();
    let mut ctx = ValidationContext::new();
    ctx.add_field("rho").add_field("U").add_field("p");
    let diags = validate(&e, &ctx);
    assert!(diags.is_empty(), "unexpected diagnostics: {diags:?}");
}

#[test]
fn unknown_variable_is_a_warning() {
    let e = parse("a + b").unwrap();
    let mut ctx = ValidationContext::new();
    ctx.add_variable("a");
    let diags = validate(&e, &ctx);
    assert_eq!(diags, vec![Diagnostic::warning("unknown variable `b`")]);
}

#[test]
fn well_known_names_need_no_registration() {
    let e = parse("a * PI").unwrap();
    let mut ctx = ValidationContext::new();
    ctx.add_variable("a");
    assert!(validate(&e, &ctx).is_empty());
}

#[test]
fn empty_context_reports_every_name() {
    let e = parse("$q * w").unwrap();
    assert_eq!(
        validate(&e, &ValidationContext::new()),
        vec![
            Diagnostic::error("unknown field `$q`"),
            Diagnostic::warning("unknown variable `w`"),
        ]
    );
}

#[test]
fn unknown_field_message_and_level() {
    let e = parse("$q").unwrap();
    let mut ctx = ValidationContext::new();
    ctx.add_field("rho");
    assert_eq!(validate(&e, &ctx), vec![Diagnostic::error("unknown field `$q`")]);
}

#[test]
fn tensor_arity_is_checked() {
    let e = Expr::TensorOp {
        op: TensorOperator::Cross,
        operands: vec![Expr::var("a")],
    };
    let mut ctx = ValidationContext::new();
    ctx.add_variable("a");
    let diags = validate(&e, &ctx);
    assert_eq!(diags.len(), 1);
    assert_eq!(diags[0].level, DiagnosticLevel::Error);
}

#[test]
fn dimension_errors_are_reported_through_the_context() {
    let e = parse("$rho + $U").unwrap();
    let mut dims = DimensionContext::new();
    dims.insert("rho", density()).insert("U", velocity());
    let mut ctx = ValidationContext::new().with_dimensions(dims);
    ctx.add_field("rho").add_field("U");
    let diags = validate(&e, &ctx);
    assert_eq!(diags.len(), 1);
    assert!(diags[0].message.starts_with("dimension check: dimension error: dimension mismatch in Add"));
}

#[test]
fn diagnostic_builders() {
    let d = Diagnostic::error("bad").with_span("left");
    assert_eq!(d.level, DiagnosticLevel::Error);
    assert_eq!(d.message, "bad");
    assert_eq!(d.span, Some("left".to_string()));
    let w = Diagnostic::warning("odd");
    assert_eq!(w.level, DiagnosticLevel::Warning);
    assert_eq!(w.span, None);
}
