use gfd::ExpressionError;

#[test]
fn error_texts() {
    let cases = vec![
        (
            ExpressionError::TokenizeError { message: "bad".into(), position: 3 },
            "tokenize error at position 3: bad",
        ),
        (
            ExpressionError::ParseError { message: "oops".into(), position: 12 },
            "parse error at position 12: oops",
        ),
        (
            ExpressionError::DifferentiationError { message: "no".into() },
            "differentiation error: no",
        ),
        (ExpressionError::DimensionError { message: "m".into() }, "dimension error: m"),
        (ExpressionError::CodegenError { message: "c".into() }, "codegen error: c"),
        (
            ExpressionError::LinearizationError { message: "l".into() },
            "linearization error: l",
        ),
        (ExpressionError::Other("plain".into()), "plain"),
    ];
    for (err, text) in cases {
        assert_eq!(err.to_text(), text);
    }
}
