//! Values of terms in a model of real arithmetic.
use vstd::prelude::*;

use crate::ast::{BinOp, Term, UnOp};
use crate::number::Num;

verus! {

/// Values for the terms: a commutative ring with quotients, powers and the
/// functions (`func(op, a)` is `sin a`, `cos a`, `exp a`, `ln a`, `sqrt a`
/// or `|a|`), a truth test for conditions, and values of the literals and
/// of the names. The real numbers are one such model.
#[verifier::reject_recursive_types(V)]
pub struct ValueModel<V> {
    pub plus: spec_fn(V, V) -> V,
    pub times: spec_fn(V, V) -> V,
    pub minus: spec_fn(V) -> V,
    pub zero: V,
    pub one: V,
    pub div: spec_fn(V, V) -> V,
    pub pow: spec_fn(V, V) -> V,
    pub func: spec_fn(UnOp, V) -> V,
    pub truth: spec_fn(V) -> bool,
    pub num: spec_fn(Num) -> V,
    pub vars: spec_fn(Seq<char>) -> V,
    pub fields: spec_fn(Seq<char>) -> V,
    pub consts: spec_fn(Seq<char>) -> V,
}

/// The value of a term in the model, where it has one: quotients need a
/// non-zero divisor, `0^0` has none, and neither have calls and operators.
pub open spec fn model_value<V>(m: ValueModel<V>, t: Term) -> Option<V>
    decreases t,
{
    match t {
        Term::Number(n) => Some((m.num)(n)),
        Term::Variable(x) => Some((m.vars)(x)),
        Term::FieldRef(x) => Some((m.fields)(x)),
        Term::Constant(x) => Some((m.consts)(x)),
        Term::BinaryOp { op, left, right } => match (model_value(m, *left), model_value(m, *right)) {
            (Some(a), Some(b)) => match op {
                BinOp::Add => Some((m.plus)(a, b)),
                BinOp::Sub => Some((m.plus)(a, (m.minus)(b))),
                BinOp::Mul => Some((m.times)(a, b)),
                BinOp::Div => if b == m.zero {
                    None
                } else {
                    Some((m.div)(a, b))
                },
                BinOp::Pow => if a == m.zero && b == m.zero {
                    None
                } else {
                    Some((m.pow)(a, b))
                },
            },
            _ => None,
        },
        Term::UnaryOp { op, operand } => match model_value(m, *operand) {
            Some(a) => if op == UnOp::Neg {
                Some((m.minus)(a))
            } else {
                Some((m.func)(op, a))
            },
            None => None,
        },
        Term::Conditional { condition, true_val, false_val } => match (
            model_value(m, *condition),
            model_value(m, *true_val),
            model_value(m, *false_val),
        ) {
            (Some(c), Some(x), Some(y)) => if (m.truth)(c) {
                Some(x)
            } else {
                Some(y)
            },
            _ => None,
        },
        _ => None,
    }
}

} // verus!
