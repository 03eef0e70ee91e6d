//! The error type of the expression engine.
use vstd::prelude::*;

verus! {

/// Unified error type for the expression engine.
#[derive(Debug)]
pub enum ExpressionError {
    /// Error during tokenization.
    TokenizeError { message: String, position: usize },
    /// Error during parsing.
    ParseError { message: String, position: usize },
    /// Error during symbolic differentiation.
    DifferentiationError { message: String },
    /// Error during dimensional analysis.
    DimensionError { message: String },
    /// Error during code generation.
    CodegenError { message: String },
    /// Error during linearisation.
    LinearizationError { message: String },
    /// Generic / catch-all error.
    Other(String),
}

/// The mathematical value of an [`ExpressionError`].
pub enum ErrorView {
    TokenizeError { message: Seq<char>, position: nat },
    ParseError { message: Seq<char>, position: nat },
    DifferentiationError { message: Seq<char> },
    DimensionError { message: Seq<char> },
    CodegenError { message: Seq<char> },
    LinearizationError { message: Seq<char> },
    Other(Seq<char>),
}

impl View for ExpressionError {
    type V = ErrorView;

    open spec fn view(&self) -> ErrorView {
        match self {
            ExpressionError::TokenizeError { message, position } => ErrorView::TokenizeError {
                message: message@,
                position: *position as nat,
            },
            ExpressionError::ParseError { message, position } => ErrorView::ParseError {
                message: message@,
                position: *position as nat,
            },
            ExpressionError::DifferentiationError { message } => ErrorView::DifferentiationError {
                message: message@,
            },
            ExpressionError::DimensionError { message } => ErrorView::DimensionError {
                message: message@,
            },
            ExpressionError::CodegenError { message } => ErrorView::CodegenError {
                message: message@,
            },
            ExpressionError::LinearizationError { message } => ErrorView::LinearizationError {
                message: message@,
            },
            ExpressionError::Other(m) => ErrorView::Other(m@),
        }
    }
}

/// The text that the error displays.
pub open spec fn error_text(e: ErrorView) -> Seq<char> {
    match e {
        ErrorView::TokenizeError { message, position } => "tokenize error at position "@
            + crate::text::nat_text(position) + ": "@ + message,
        ErrorView::ParseError { message, position } => "parse error at position "@
            + crate::text::nat_text(position) + ": "@ + message,
        ErrorView::DifferentiationError { message } => "differentiation error: "@ + message,
        ErrorView::DimensionError { message } => "dimension error: "@ + message,
        ErrorView::CodegenError { message } => "codegen error: "@ + message,
        ErrorView::LinearizationError { message } => "linearization error: "@ + message,
        ErrorView::Other(m) => m,
    }
}

impl ExpressionError {
    /// The text that the error displays.
    pub fn to_text(&self) -> (s: String)
        ensures
            s@ == error_text(self@),
    {
        match self {
            ExpressionError::TokenizeError { message, position } => {
                let mut s = String::from_str("tokenize error at position ");
                crate::text::push_nat(&mut s, *position as u128);
                s.append(": ");
                s.append(message.as_str());
                s
            },
            ExpressionError::ParseError { message, position } => {
                let mut s = String::from_str("parse error at position ");
                crate::text::push_nat(&mut s, *position as u128);
                s.append(": ");
                s.append(message.as_str());
                s
            },
            ExpressionError::DifferentiationError { message } => {
                let mut s = String::from_str("differentiation error: ");
                s.append(message.as_str());
                s
            },
            ExpressionError::DimensionError { message } => {
                let mut s = String::from_str("dimension error: ");
                s.append(message.as_str());
                s
            },
            ExpressionError::CodegenError { message } => {
                let mut s = String::from_str("codegen error: ");
                s.append(message.as_str());
                s
            },
            ExpressionError::LinearizationError { message } => {
                let mut s = String::from_str("linearization error: ");
                s.append(message.as_str());
                s
            },
            ExpressionError::Other(m) => m.clone(),
        }
    }
}

} // verus!
