//! A symbolic expression engine for field equations: tokenizer, parser,
//! simplifier with exact constant folding, differentiator, source-term
//! linearizer, dimension checker, validator and LaTeX / Rust text
//! generators, together with the integer building blocks of the
//! discretization and flow-solver layers.
use vstd::prelude::*;

pub mod ast;
pub mod error;
pub mod number;
pub mod model;
pub mod text;

pub mod tokenizer;
pub mod parser;
pub mod simplify;
pub mod differentiate;
pub mod linearize;
pub mod dimension;
pub mod validate;
pub mod codegen_latex;
pub mod codegen_rust;
pub mod discretize;
pub mod fluid;

pub use codegen_latex::to_latex;
pub use codegen_rust::to_rust;
pub use error::ExpressionError;
pub use parser::parse;
pub use simplify::simplify;
pub use validate::validate;
