//! Algebraic simplification of expression trees.
use vstd::prelude::*;

use crate::ast::{
    copy_string, expr_eq, lemma_view_exprs_push, lemma_view_exprs_take, term_wf, terms_wf,
    view_expr, view_exprs, BinOp, Expr, Term, UnOp,
};
use crate::number::{
    lemma_identities, lemma_neg_wf, lemma_ops_wf, lemma_small_ints_wf, lemma_sqrt_wf, num_abs,
    num_add, num_div, num_mul, num_neg, num_pow, num_sqrt, num_sub, spec_abs, spec_add, spec_div,
    spec_mul, spec_neg, spec_num_int, spec_pow, spec_sqrt, spec_sub, Num,
};
use crate::linearize::{
    ax_pc, ax_pn, ax_pz, ax_tc, ax_to, is_comm_ring, ring_inverse_unique, ring_times_zero,
    ring_value, ring_zero_left,
};
use crate::model::{model_value, ValueModel};
use crate::parser::{bin, un};

verus! {

// ---------------------------------------------------------------------------
// specification
// ---------------------------------------------------------------------------

pub open spec fn is_zero_term(t: Term) -> bool {
    t matches Term::Number(v) && v.spec_is_zero()
}

pub open spec fn is_one_term(t: Term) -> bool {
    t matches Term::Number(v) && v.spec_is_one()
}

pub open spec fn num_term(i: int) -> Term {
    Term::Number(spec_num_int(i))
}

/// Exact value of `a op b` on two numbers, when it can be held.
pub open spec fn fold_binary(op: BinOp, a: Num, b: Num) -> Option<Num> {
    match op {
        BinOp::Add => spec_add(a, b),
        BinOp::Sub => spec_sub(a, b),
        BinOp::Mul => spec_mul(a, b),
        BinOp::Div => spec_div(a, b),
        BinOp::Pow => spec_pow(a, b),
    }
}

/// Exact value of a built-in function (other than negation) on a number,
/// where it is a number that can be held: absolute values, square roots
/// that are decimals, and the values at 0 (and `ln 1`); the sine, cosine,
/// exponential and logarithm of any other number are irrational and stay
/// symbolic.
pub open spec fn fold_unary(op: UnOp, v: Num) -> Option<Num> {
    match op {
        UnOp::Abs => spec_abs(v),
        UnOp::Sqrt => spec_sqrt(v),
        UnOp::Sin => if v.spec_is_zero() {
            Some(spec_num_int(0))
        } else {
            None
        },
        UnOp::Cos | UnOp::Exp => if v.spec_is_zero() {
            Some(spec_num_int(1))
        } else {
            None
        },
        UnOp::Log => if v.spec_is_one() {
            Some(spec_num_int(0))
        } else {
            None
        },
        UnOp::Neg => spec_neg(v),
    }
}

/// Identity rules for a binary node whose children are simplified.
pub open spec fn binop_identities(op: BinOp, l: Term, r: Term) -> Term {
    match op {
        BinOp::Add => if is_zero_term(l) {
            r
        } else if is_zero_term(r) {
            l
        } else if r matches Term::UnaryOp { op: UnOp::Neg, operand } && l == *operand {
            num_term(0)
        } else {
            bin(BinOp::Add, l, r)
        },
        BinOp::Sub => if is_zero_term(r) {
            l
        } else if is_zero_term(l) {
            un(UnOp::Neg, r)
        } else if l == r {
            num_term(0)
        } else {
            bin(BinOp::Sub, l, r)
        },
        BinOp::Mul => if is_zero_term(l) || is_zero_term(r) {
            num_term(0)
        } else if is_one_term(l) {
            r
        } else if is_one_term(r) {
            l
        } else {
            bin(BinOp::Mul, l, r)
        },
        BinOp::Div => if is_zero_term(l) {
            num_term(0)
        } else if is_one_term(r) {
            l
        } else if l == r {
            num_term(1)
        } else {
            bin(BinOp::Div, l, r)
        },
        BinOp::Pow => if is_zero_term(r) {
            num_term(1)
        } else if is_one_term(r) {
            l
        } else if is_zero_term(l) {
            num_term(0)
        } else if is_one_term(l) {
            num_term(1)
        } else {
            bin(BinOp::Pow, l, r)
        },
    }
}

/// Simplify a binary node whose children are already simplified.
pub open spec fn simplify_bin(op: BinOp, l: Term, r: Term) -> Term {
    match (l, r) {
        (Term::Number(a), Term::Number(b)) => if op == BinOp::Div && b.spec_is_zero() {
            bin(op, l, r)
        } else {
            match fold_binary(op, a, b) {
                Some(v) => Term::Number(v),
                None => binop_identities(op, l, r),
            }
        },
        _ => binop_identities(op, l, r),
    }
}

/// Simplify a unary node whose operand is already simplified.
pub open spec fn simplify_un(op: UnOp, inner: Term) -> Term {
    if op == UnOp::Neg {
        match inner {
            Term::UnaryOp { op: UnOp::Neg, operand } => *operand,
            Term::Number(v) => if v.spec_is_zero() {
                num_term(0)
            } else {
                match spec_neg(v) {
                    Some(n) => Term::Number(n),
                    None => un(UnOp::Neg, inner),
                }
            },
            _ => un(UnOp::Neg, inner),
        }
    } else {
        match inner {
            Term::Number(v) => match fold_unary(op, v) {
                Some(n) => Term::Number(n),
                None => un(op, inner),
            },
            _ => un(op, inner),
        }
    }
}

pub open spec fn simplify_list(ts: Seq<Term>) -> Seq<Term>
    decreases ts, 0nat,
{
    if ts.len() == 0 {
        Seq::empty()
    } else {
        simplify_list(ts.drop_last()).push(simplify_term(ts.last()))
    }
}

/// Bottom-up simplification: children first, then the node itself.
pub open spec fn simplify_term(t: Term) -> Term
    decreases t, 1nat,
{
    match t {
        Term::BinaryOp { op, left, right } => simplify_bin(
            op,
            simplify_term(*left),
            simplify_term(*right),
        ),
        Term::UnaryOp { op, operand } => simplify_un(op, simplify_term(*operand)),
        Term::FunctionCall { name, args } => Term::FunctionCall { name, args: simplify_list(args) },
        Term::Conditional { condition, true_val, false_val } => Term::Conditional {
            condition: Box::new(simplify_term(*condition)),
            true_val: Box::new(simplify_term(*true_val)),
            false_val: Box::new(simplify_term(*false_val)),
        },
        Term::DiffOp { op, operands } => Term::DiffOp { op, operands: simplify_list(operands) },
        Term::TensorOp { op, operands } => Term::TensorOp { op, operands: simplify_list(operands) },
        _ => t,
    }
}

// ---------------------------------------------------------------------------
// laws
// ---------------------------------------------------------------------------

proof fn lemma_simplify_bin_wf(op: BinOp, l: Term, r: Term)
    requires
        term_wf(l),
        term_wf(r),
    ensures
        term_wf(simplify_bin(op, l, r)),
{
    lemma_small_ints_wf();
    if let (Term::Number(a), Term::Number(b)) = (l, r) {
        lemma_ops_wf(a, b);
    }
}

proof fn lemma_simplify_un_wf(op: UnOp, inner: Term)
    requires
        term_wf(inner),
    ensures
        term_wf(simplify_un(op, inner)),
{
    lemma_small_ints_wf();
    if let Term::Number(v) = inner {
        lemma_neg_wf(v);
        lemma_sqrt_wf(v);
    }
}

proof fn lemma_simplify_list_wf(ts: Seq<Term>)
    requires
        terms_wf(ts),
    ensures
        terms_wf(simplify_list(ts)),
        simplify_list(ts).len() == ts.len(),
    decreases ts, 0nat,
{
    if ts.len() > 0 {
        lemma_simplify_list_wf(ts.drop_last());
        lemma_simplify_wf(ts.last());
        assert(simplify_list(ts).drop_last() =~= simplify_list(ts.drop_last()));
    }
}

/// Simplification keeps every number canonical.
pub proof fn lemma_simplify_wf(t: Term)
    requires
        term_wf(t),
    ensures
        term_wf(simplify_term(t)),
    decreases t, 1nat,
{
    match t {
        Term::BinaryOp { op, left, right } => {
            lemma_simplify_wf(*left);
            lemma_simplify_wf(*right);
            lemma_simplify_bin_wf(op, simplify_term(*left), simplify_term(*right));
        },
        Term::UnaryOp { op, operand } => {
            lemma_simplify_wf(*operand);
            lemma_simplify_un_wf(op, simplify_term(*operand));
        },
        Term::FunctionCall { args, .. } => lemma_simplify_list_wf(args),
        Term::Conditional { condition, true_val, false_val } => {
            lemma_simplify_wf(*condition);
            lemma_simplify_wf(*true_val);
            lemma_simplify_wf(*false_val);
        },
        Term::DiffOp { operands, .. } => lemma_simplify_list_wf(operands),
        Term::TensorOp { operands, .. } => lemma_simplify_list_wf(operands),
        _ => {},
    }
}

/// Facts about the simplified operand `s` of an identity law.
proof fn lemma_simplified_operand(x: Term)
    requires
        term_wf(x),
    ensures
        simplify_term(num_term(0)) == num_term(0),
        simplify_term(num_term(1)) == num_term(1),
        !is_zero_term(num_term(1)),
        is_zero_term(num_term(0)),
        is_one_term(num_term(1)),
        simplify_term(x) matches Term::Number(a) ==> {
            &&& a.wf()
            &&& spec_add(a, spec_num_int(0)) matches Some(n) ==> n == a
            &&& spec_add(spec_num_int(0), a) matches Some(n) ==> n == a
            &&& spec_sub(a, spec_num_int(0)) matches Some(n) ==> n == a
            &&& spec_sub(a, a) matches Some(n) ==> n == spec_num_int(0)
            &&& spec_mul(a, spec_num_int(1)) == Some(a)
            &&& spec_mul(spec_num_int(1), a) == Some(a)
            &&& spec_mul(a, spec_num_int(0)) == Some(spec_num_int(0))
            &&& spec_mul(spec_num_int(0), a) == Some(spec_num_int(0))
            &&& spec_div(a, spec_num_int(1)) == Some(a)
            &&& spec_pow(a, spec_num_int(0)) == Some(spec_num_int(1))
            &&& spec_pow(a, spec_num_int(1)) == Some(a)
            &&& (!a.spec_is_zero() ==> spec_div(a, a) == Some(spec_num_int(1)))
            &&& (a.spec_is_zero() ==> a == spec_num_int(0))
        },
{
    lemma_small_ints_wf();
    lemma_simplify_wf(x);
    if let Term::Number(a) = simplify_term(x) {
        lemma_identities(a);
    }
}

/// Adding zero, on either side, or subtracting zero changes nothing:
/// `x + 0`, `0 + x` and `x - 0` simplify to what `x` simplifies to.
pub proof fn law_simplify_additive_identity(x: Term)
    requires
        term_wf(x),
    ensures
        simplify_term(bin(BinOp::Add, x, num_term(0))) == simplify_term(x),
        simplify_term(bin(BinOp::Add, num_term(0), x)) == simplify_term(x),
        simplify_term(bin(BinOp::Sub, x, num_term(0))) == simplify_term(x),
{
    lemma_simplified_operand(x);
}

/// Multiplying by one, on either side, or dividing by one changes nothing,
/// and multiplying by zero gives zero.
pub proof fn law_simplify_multiplicative_identity(x: Term)
    requires
        term_wf(x),
    ensures
        simplify_term(bin(BinOp::Mul, x, num_term(1))) == simplify_term(x),
        simplify_term(bin(BinOp::Mul, num_term(1), x)) == simplify_term(x),
        simplify_term(bin(BinOp::Div, x, num_term(1))) == simplify_term(x),
        simplify_term(bin(BinOp::Mul, x, num_term(0))) == num_term(0),
        simplify_term(bin(BinOp::Mul, num_term(0), x)) == num_term(0),
{
    lemma_simplified_operand(x);
}

/// `x^0` simplifies to one and `x^1` to what `x` simplifies to.
pub proof fn law_simplify_power_identity(x: Term)
    requires
        term_wf(x),
    ensures
        simplify_term(bin(BinOp::Pow, x, num_term(0))) == num_term(1),
        simplify_term(bin(BinOp::Pow, x, num_term(1))) == simplify_term(x),
{
    lemma_simplified_operand(x);
}

/// `x - x` simplifies to zero, and `x / x` to one unless `x` simplifies to zero.
pub proof fn law_simplify_cancellation(x: Term)
    requires
        term_wf(x),
    ensures
        simplify_term(bin(BinOp::Sub, x, x)) == num_term(0),
        !is_zero_term(simplify_term(x)) ==> simplify_term(bin(BinOp::Div, x, x)) == num_term(1),
{
    lemma_simplified_operand(x);
}

/// The functions fold only where their value is a decimal known exactly:
/// `sin 0 = 0`, `cos 0 = exp 0 = 1`, `ln 1 = 0`; other sines, cosines,
/// exponentials and logarithms of numbers stay symbolic.
pub proof fn law_folded_function_values(v: Num)
    requires
        v.wf(),
    ensures
        fold_unary(UnOp::Sin, v) == (if v.spec_is_zero() { Some(spec_num_int(0)) } else { None::<Num> }),
        fold_unary(UnOp::Cos, v) == (if v.spec_is_zero() { Some(spec_num_int(1)) } else { None::<Num> }),
        fold_unary(UnOp::Exp, v) == (if v.spec_is_zero() { Some(spec_num_int(1)) } else { None::<Num> }),
        fold_unary(UnOp::Log, v) == (if v.spec_is_one() { Some(spec_num_int(0)) } else { None::<Num> }),
        simplify_term(un(UnOp::Sin, Term::Number(v))) == if v.spec_is_zero() {
            num_term(0)
        } else {
            un(UnOp::Sin, Term::Number(v))
        },
        simplify_term(un(UnOp::Cos, Term::Number(v))) == if v.spec_is_zero() {
            num_term(1)
        } else {
            un(UnOp::Cos, Term::Number(v))
        },
        simplify_term(un(UnOp::Exp, Term::Number(v))) == if v.spec_is_zero() {
            num_term(1)
        } else {
            un(UnOp::Exp, Term::Number(v))
        },
        simplify_term(un(UnOp::Log, Term::Number(v))) == if v.spec_is_one() {
            num_term(0)
        } else {
            un(UnOp::Log, Term::Number(v))
        },
{
    assert(simplify_term(Term::Number(v)) == Term::Number(v));
}

// ---------------------------------------------------------------------------
// simplification keeps values
// ---------------------------------------------------------------------------

/// The term is built from literals, variables, fields, `+`, `-`, `*` and
/// negation alone.
pub open spec fn in_ring_fragment(t: Term) -> bool
    decreases t,
{
    match t {
        Term::Number(_) | Term::Variable(_) | Term::FieldRef(_) => true,
        Term::BinaryOp { op, left, right } => (op == BinOp::Add || op == BinOp::Sub || op
            == BinOp::Mul) && in_ring_fragment(*left) && in_ring_fragment(*right),
        Term::UnaryOp { op, operand } => op == UnOp::Neg && in_ring_fragment(*operand),
        _ => false,
    }
}

/// `num` values literals as exact decimal arithmetic does: the exact sum,
/// difference, product and negation of two literals are valued as the
/// ring's sum, difference, product and negation of their values, and every
/// zero (one) literal is the ring's zero (one).
pub open spec fn literals_agree<V>(
    plus: spec_fn(V, V) -> V,
    times: spec_fn(V, V) -> V,
    minus: spec_fn(V) -> V,
    zero: V,
    one: V,
    num: spec_fn(Num) -> V,
) -> bool {
    &&& forall|a: Num, b: Num| #[trigger] spec_add(a, b) matches Some(c) ==> num(c) == plus(num(a), num(b))
    &&& forall|a: Num, b: Num| #[trigger] spec_sub(a, b) matches Some(c) ==> num(c) == plus(num(a), minus(num(b)))
    &&& forall|a: Num, b: Num| #[trigger] spec_mul(a, b) matches Some(c) ==> num(c) == times(num(a), num(b))
    &&& forall|a: Num| #[trigger] spec_neg(a) matches Some(c) ==> num(c) == minus(num(a))
    &&& forall|a: Num| #[trigger] a.spec_is_zero() ==> num(a) == zero
    &&& forall|a: Num| #[trigger] a.spec_is_one() ==> num(a) == one
    &&& num(spec_num_int(0)) == zero
    &&& num(spec_num_int(1)) == one
}

pub(crate) proof fn ring_minus_minus<V>(plus: spec_fn(V, V) -> V, times: spec_fn(V, V) -> V, minus: spec_fn(V) -> V, zero: V, one: V, a: V)
    requires
        is_comm_ring(plus, times, minus, zero, one),
    ensures
        minus(minus(a)) == a,
        minus(zero) == zero,
        plus(a, minus(zero)) == a,
        times(one, a) == a,
{
    ax_pc(plus, times, minus, zero, one, minus(a), a);
    ax_pn(plus, times, minus, zero, one, a);
    ring_inverse_unique(plus, times, minus, zero, one, minus(a), a);
    ax_pz(plus, times, minus, zero, one, zero);
    ring_inverse_unique(plus, times, minus, zero, one, zero, zero);
    ax_pz(plus, times, minus, zero, one, a);
    ax_tc(plus, times, minus, zero, one, one, a);
    ax_to(plus, times, minus, zero, one, a);
}

proof fn lemma_simplify_bin_value<V>(
    op: BinOp,
    l: Term,
    r: Term,
    plus: spec_fn(V, V) -> V, times: spec_fn(V, V) -> V, minus: spec_fn(V) -> V, zero: V, one: V,
    num: spec_fn(Num) -> V,
    vars: spec_fn(Seq<char>) -> V,
    fields: spec_fn(Seq<char>) -> V,
    other: spec_fn(Term) -> Option<V>,
)
    requires
        is_comm_ring(plus, times, minus, zero, one),
        literals_agree(plus, times, minus, zero, one, num),
        op == BinOp::Add || op == BinOp::Sub || op == BinOp::Mul,
        in_ring_fragment(l),
        in_ring_fragment(r),
        ring_value(l, plus, times, minus, num, vars, fields, other) is Some,
        ring_value(r, plus, times, minus, num, vars, fields, other) is Some,
    ensures
        in_ring_fragment(simplify_bin(op, l, r)),
        ring_value(simplify_bin(op, l, r), plus, times, minus, num, vars, fields, other)
            == ring_value(bin(op, l, r), plus, times, minus, num, vars, fields, other),
{
    let a = ring_value(l, plus, times, minus, num, vars, fields, other).unwrap();
    let b = ring_value(r, plus, times, minus, num, vars, fields, other).unwrap();
    ring_minus_minus(plus, times, minus, zero, one, a);
    ring_minus_minus(plus, times, minus, zero, one, b);
    ring_zero_left(plus, times, minus, zero, one, b);
    ring_zero_left(plus, times, minus, zero, one, minus(b));
    ring_times_zero(plus, times, minus, zero, one, a);
    ring_times_zero(plus, times, minus, zero, one, b);
    ax_pz(plus, times, minus, zero, one, a);
    ax_pn(plus, times, minus, zero, one, a);
    ax_to(plus, times, minus, zero, one, a);
    assert(in_ring_fragment(num_term(0)));
    assert(ring_value(num_term(0), plus, times, minus, num, vars, fields, other) == Some(zero));
    if let (Term::Number(x), Term::Number(y)) = (l, r) {
        if let Some(v) = fold_binary(op, x, y) {
            assert(in_ring_fragment(Term::Number(v)));
            return;
        }
    }
    if let Term::UnaryOp { op: uop, operand } = r {
        if uop == UnOp::Neg && l == *operand {
            assert(ring_value(r, plus, times, minus, num, vars, fields, other) == Some(minus(a)));
        }
    }
}

proof fn lemma_simplify_un_value<V>(
    inner: Term,
    plus: spec_fn(V, V) -> V, times: spec_fn(V, V) -> V, minus: spec_fn(V) -> V, zero: V, one: V,
    num: spec_fn(Num) -> V,
    vars: spec_fn(Seq<char>) -> V,
    fields: spec_fn(Seq<char>) -> V,
    other: spec_fn(Term) -> Option<V>,
)
    requires
        is_comm_ring(plus, times, minus, zero, one),
        literals_agree(plus, times, minus, zero, one, num),
        in_ring_fragment(inner),
        ring_value(inner, plus, times, minus, num, vars, fields, other) is Some,
    ensures
        in_ring_fragment(simplify_un(UnOp::Neg, inner)),
        ring_value(simplify_un(UnOp::Neg, inner), plus, times, minus, num, vars, fields, other)
            == ring_value(un(UnOp::Neg, inner), plus, times, minus, num, vars, fields, other),
{
    let a = ring_value(inner, plus, times, minus, num, vars, fields, other).unwrap();
    ring_minus_minus(plus, times, minus, zero, one, a);
    assert(in_ring_fragment(num_term(0)));
    match inner {
        Term::UnaryOp { op: UnOp::Neg, operand } => {
            let c = ring_value(*operand, plus, times, minus, num, vars, fields, other).unwrap();
            ring_minus_minus(plus, times, minus, zero, one, c);
        },
        Term::Number(v) => {
            if let Some(n) = spec_neg(v) {
                assert(in_ring_fragment(Term::Number(n)));
            }
        },
        _ => {},
    }
}

/// Simplification keeps the value of every term built from literals,
/// names, `+`, `-`, `*` and negation, in every commutative ring (the real
/// numbers among them) whose values of the literals agree with exact
/// decimal arithmetic, for any values of the names.
pub proof fn law_simplify_preserves_value<V>(
    t: Term,
    plus: spec_fn(V, V) -> V, times: spec_fn(V, V) -> V, minus: spec_fn(V) -> V, zero: V, one: V,
    num: spec_fn(Num) -> V,
    vars: spec_fn(Seq<char>) -> V,
    fields: spec_fn(Seq<char>) -> V,
    other: spec_fn(Term) -> Option<V>,
)
    requires
        is_comm_ring(plus, times, minus, zero, one),
        literals_agree(plus, times, minus, zero, one, num),
        in_ring_fragment(t),
    ensures
        in_ring_fragment(simplify_term(t)),
        ring_value(t, plus, times, minus, num, vars, fields, other) is Some,
        ring_value(simplify_term(t), plus, times, minus, num, vars, fields, other)
            == ring_value(t, plus, times, minus, num, vars, fields, other),
    decreases t,
{
    match t {
        Term::BinaryOp { op, left, right } => {
            law_simplify_preserves_value(*left, plus, times, minus, zero, one, num, vars, fields, other);
            law_simplify_preserves_value(*right, plus, times, minus, zero, one, num, vars, fields, other);
            lemma_simplify_bin_value(
                op,
                simplify_term(*left),
                simplify_term(*right),
                plus, times, minus, zero, one, num, vars, fields, other,
            );
        },
        Term::UnaryOp { op, operand } => {
            law_simplify_preserves_value(*operand, plus, times, minus, zero, one, num, vars, fields, other);
            lemma_simplify_un_value(simplify_term(*operand), plus, times, minus, zero, one, num, vars, fields, other);
        },
        _ => {},
    }
}

// ---------------------------------------------------------------------------
// simplification keeps values: the whole language
// ---------------------------------------------------------------------------

/// A model in which the literals have the values that exact decimal
/// arithmetic computes (sums, differences, products, negations, quotients,
/// powers, absolute values and square roots of literals are the model's
/// own), and the identities that simplification uses hold: `sin 0 = 0`,
/// `cos 0 = exp 0 = 1`, `ln 1 = 0`, `0 / b = 0` and `a / a = 1` for
/// non-zero `a`, `b`, `a / 1 = a`, `a^0 = 1` for non-zero `a`, `a^1 = a`,
/// `0^b = 0` for non-zero `b`, `1^b = 1`. The real numbers are one.
pub open spec fn exact_literals<V>(m: ValueModel<V>) -> bool {
    &&& is_comm_ring(m.plus, m.times, m.minus, m.zero, m.one)
    &&& forall|a: Num, b: Num| #[trigger] spec_add(a, b) matches Some(c) ==> (m.num)(c) == (m.plus)((m.num)(a), (m.num)(b))
    &&& forall|a: Num, b: Num| #[trigger] spec_sub(a, b) matches Some(c) ==> (m.num)(c) == (m.plus)((m.num)(a), (m.minus)((m.num)(b)))
    &&& forall|a: Num, b: Num| #[trigger] spec_mul(a, b) matches Some(c) ==> (m.num)(c) == (m.times)((m.num)(a), (m.num)(b))
    &&& forall|a: Num, b: Num| #[trigger] spec_div(a, b) matches Some(c) ==> ((m.num)(b) != m.zero ==> (m.num)(c) == (m.div)((m.num)(a), (m.num)(b)))
    &&& forall|a: Num, b: Num| #[trigger] spec_pow(a, b) matches Some(c) ==> (!((m.num)(a) == m.zero && (m.num)(b) == m.zero) ==> (m.num)(c) == (m.pow)((m.num)(a), (m.num)(b)))
    &&& forall|a: Num| #[trigger] spec_neg(a) matches Some(c) ==> (m.num)(c) == (m.minus)((m.num)(a))
    &&& forall|a: Num| #[trigger] spec_abs(a) matches Some(c) ==> (m.num)(c) == (m.func)(UnOp::Abs, (m.num)(a))
    &&& forall|a: Num| #[trigger] spec_sqrt(a) matches Some(c) ==> (m.num)(c) == (m.func)(UnOp::Sqrt, (m.num)(a))
    &&& forall|a: Num| #[trigger] a.spec_is_zero() ==> (m.num)(a) == m.zero
    &&& forall|a: Num| #[trigger] a.spec_is_one() ==> (m.num)(a) == m.one
    &&& (m.num)(spec_num_int(0)) == m.zero
    &&& (m.num)(spec_num_int(1)) == m.one
    &&& (m.func)(UnOp::Sin, m.zero) == m.zero
    &&& (m.func)(UnOp::Cos, m.zero) == m.one
    &&& (m.func)(UnOp::Exp, m.zero) == m.one
    &&& (m.func)(UnOp::Log, m.one) == m.zero
    &&& forall|b: V| b != m.zero ==> #[trigger] (m.div)(m.zero, b) == m.zero
    &&& forall|a: V| a != m.zero ==> #[trigger] (m.div)(a, a) == m.one
    &&& forall|a: V| #[trigger] (m.div)(a, m.one) == a
    &&& forall|a: V| a != m.zero ==> #[trigger] (m.pow)(a, m.zero) == m.one
    &&& forall|a: V| #[trigger] (m.pow)(a, m.one) == a
    &&& forall|b: V| b != m.zero ==> #[trigger] (m.pow)(m.zero, b) == m.zero
    &&& forall|b: V| #[trigger] (m.pow)(m.one, b) == m.one
}

proof fn lemma_simplify_bin_model<V>(m: ValueModel<V>, op: BinOp, l: Term, r: Term)
    requires
        exact_literals(m),
        model_value(m, bin(op, l, r)) is Some,
    ensures
        model_value(m, simplify_bin(op, l, r)) == model_value(m, bin(op, l, r)),
{
    let (plus, times, minus, zero, one) = (m.plus, m.times, m.minus, m.zero, m.one);
    let a = model_value(m, l).unwrap();
    let b = model_value(m, r).unwrap();
    ring_minus_minus(plus, times, minus, zero, one, a);
    ring_minus_minus(plus, times, minus, zero, one, b);
    ring_zero_left(plus, times, minus, zero, one, b);
    ring_zero_left(plus, times, minus, zero, one, minus(b));
    ring_times_zero(plus, times, minus, zero, one, a);
    ring_times_zero(plus, times, minus, zero, one, b);
    ax_pz(plus, times, minus, zero, one, a);
    ax_pn(plus, times, minus, zero, one, a);
    ax_to(plus, times, minus, zero, one, a);
    assert(model_value(m, num_term(0)) == Some(zero));
    assert(model_value(m, num_term(1)) == Some(one));
    if let (Term::Number(x), Term::Number(y)) = (l, r) {
        if !(op == BinOp::Div && y.spec_is_zero()) {
            if let Some(v) = fold_binary(op, x, y) {
                return;
            }
        }
    }
    if let Term::UnaryOp { op: uop, operand } = r {
        if uop == UnOp::Neg && l == *operand {
            assert(model_value(m, r) == Some(minus(a)));
        }
    }
    if op == BinOp::Sub && is_zero_term(l) {
        assert(model_value(m, un(UnOp::Neg, r)) == Some(minus(b)));
    }
}

proof fn lemma_simplify_un_model<V>(m: ValueModel<V>, op: UnOp, e: Term)
    requires
        exact_literals(m),
        model_value(m, un(op, e)) is Some,
    ensures
        model_value(m, simplify_un(op, e)) == model_value(m, un(op, e)),
{
    let (plus, times, minus, zero, one) = (m.plus, m.times, m.minus, m.zero, m.one);
    let a = model_value(m, e).unwrap();
    ring_minus_minus(plus, times, minus, zero, one, a);
    assert(model_value(m, num_term(0)) == Some(zero));
    assert(model_value(m, num_term(1)) == Some(one));
    match e {
        Term::UnaryOp { op: UnOp::Neg, operand } => {
            let c = model_value(m, *operand).unwrap();
            ring_minus_minus(plus, times, minus, zero, one, c);
        },
        _ => {},
    }
}

/// Simplification keeps the value of every term that has one, in every
/// model whose literals have their exact values and in which the identities
/// used hold (the real numbers among them), for any values of the names and
/// any outcome of the conditions.
pub proof fn law_simplify_keeps_value<V>(m: ValueModel<V>, t: Term)
    requires
        exact_literals(m),
    ensures
        model_value(m, t) is Some ==> model_value(m, simplify_term(t)) == model_value(m, t),
    decreases t,
{
    if model_value(m, t) is Some {
        match t {
            Term::BinaryOp { op, left, right } => {
                law_simplify_keeps_value(m, *left);
                law_simplify_keeps_value(m, *right);
                let (l2, r2) = (simplify_term(*left), simplify_term(*right));
                assert(model_value(m, bin(op, l2, r2)) == model_value(m, t));
                lemma_simplify_bin_model(m, op, l2, r2);
            },
            Term::UnaryOp { op, operand } => {
                law_simplify_keeps_value(m, *operand);
                let e2 = simplify_term(*operand);
                assert(model_value(m, un(op, e2)) == model_value(m, t));
                lemma_simplify_un_model(m, op, e2);
            },
            Term::Conditional { condition, true_val, false_val } => {
                law_simplify_keeps_value(m, *condition);
                law_simplify_keeps_value(m, *true_val);
                law_simplify_keeps_value(m, *false_val);
            },
            _ => {},
        }
    }
}

// ---------------------------------------------------------------------------
// implementation
// ---------------------------------------------------------------------------

fn is_zero(e: &Expr) -> (b: bool)
    ensures
        b == is_zero_term(e@),
{
    match e {
        Expr::Number(v) => v.is_zero(),
        _ => false,
    }
}

fn is_one(e: &Expr) -> (b: bool)
    ensures
        b == is_one_term(e@),
{
    match e {
        Expr::Number(v) => v.is_one(),
        _ => false,
    }
}

fn int_expr(i: i64) -> (e: Expr)
    ensures
        e@ == num_term(i as int),
{
    Expr::Number(Num::from_int(i))
}

fn fold_binary_exec(op: BinOp, a: Num, b: Num) -> (r: Option<Num>)
    ensures
        r == fold_binary(op, a, b),
{
    match op {
        BinOp::Add => num_add(a, b),
        BinOp::Sub => num_sub(a, b),
        BinOp::Mul => num_mul(a, b),
        BinOp::Div => num_div(a, b),
        BinOp::Pow => num_pow(a, b),
    }
}

fn fold_unary_exec(op: UnOp, v: Num) -> (r: Option<Num>)
    ensures
        r == fold_unary(op, v),
{
    match op {
        UnOp::Abs => num_abs(v),
        UnOp::Sqrt => num_sqrt(v),
        UnOp::Sin => if v.is_zero() {
            Some(Num::from_int(0))
        } else {
            None
        },
        UnOp::Cos | UnOp::Exp => if v.is_zero() {
            Some(Num::from_int(1))
        } else {
            None
        },
        UnOp::Log => if v.is_one() {
            Some(Num::from_int(0))
        } else {
            None
        },
        UnOp::Neg => num_neg(v),
    }
}

fn binop_identities_exec(op: BinOp, l: Expr, r: Expr) -> (e: Expr)
    ensures
        e@ == binop_identities(op, l@, r@),
{
    match op {
        BinOp::Add => {
            if is_zero(&l) {
                return r;
            }
            if is_zero(&r) {
                return l;
            }
            let cancels = match &r {
                Expr::UnaryOp { op: UnOp::Neg, operand } => expr_eq(&l, operand),
                _ => false,
            };
            if cancels {
                return int_expr(0);
            }
            Expr::binop(BinOp::Add, l, r)
        },
        BinOp::Sub => {
            if is_zero(&r) {
                return l;
            }
            if is_zero(&l) {
                return Expr::unaryop(UnOp::Neg, r);
            }
            if expr_eq(&l, &r) {
                return int_expr(0);
            }
            Expr::binop(BinOp::Sub, l, r)
        },
        BinOp::Mul => {
            if is_zero(&l) || is_zero(&r) {
                return int_expr(0);
            }
            if is_one(&l) {
                return r;
            }
            if is_one(&r) {
                return l;
            }
            Expr::binop(BinOp::Mul, l, r)
        },
        BinOp::Div => {
            if is_zero(&l) {
                return int_expr(0);
            }
            if is_one(&r) {
                return l;
            }
            if expr_eq(&l, &r) {
                return int_expr(1);
            }
            Expr::binop(BinOp::Div, l, r)
        },
        BinOp::Pow => {
            if is_zero(&r) {
                return int_expr(1);
            }
            if is_one(&r) {
                return l;
            }
            if is_zero(&l) {
                return int_expr(0);
            }
            if is_one(&l) {
                return int_expr(1);
            }
            Expr::binop(BinOp::Pow, l, r)
        },
    }
}

/// Simplify a binary node whose children are already simplified.
pub fn simplify_binop(op: BinOp, l: Expr, r: Expr) -> (e: Expr)
    ensures
        e@ == simplify_bin(op, l@, r@),
{
    let nums = match (&l, &r) {
        (Expr::Number(a), Expr::Number(b)) => Some((*a, *b)),
        _ => None,
    };
    match nums {
        Some((a, b)) => {
            if op == BinOp::Div && b.is_zero() {
                return Expr::binop(op, l, r);
            }
            match fold_binary_exec(op, a, b) {
                Some(v) => Expr::Number(v),
                None => binop_identities_exec(op, l, r),
            }
        },
        None => binop_identities_exec(op, l, r),
    }
}

/// Simplify a unary node whose operand is already simplified.
pub fn simplify_unaryop(op: UnOp, inner: Expr) -> (e: Expr)
    ensures
        e@ == simplify_un(op, inner@),
{
    match op {
        UnOp::Neg => match inner {
            Expr::UnaryOp { op: UnOp::Neg, operand } => *operand,
            Expr::Number(v) => {
                if v.is_zero() {
                    int_expr(0)
                } else {
                    match num_neg(v) {
                        Some(n) => Expr::Number(n),
                        None => Expr::unaryop(UnOp::Neg, Expr::Number(v)),
                    }
                }
            },
            other => Expr::unaryop(UnOp::Neg, other),
        },
        _ => match inner {
            Expr::Number(v) => match fold_unary_exec(op, v) {
                Some(n) => Expr::Number(n),
                None => Expr::unaryop(op, Expr::Number(v)),
            },
            other => Expr::unaryop(op, other),
        },
    }
}

fn simplify_all(es: &Vec<Expr>) -> (r: Vec<Expr>)
    ensures
        view_exprs(r@) == simplify_list(view_exprs(es@)),
    decreases es,
{
    let mut r: Vec<Expr> = Vec::new();
    let mut i: usize = 0;
    while i < es.len()
        invariant
            0 <= i <= es.len(),
            view_exprs(r@) == simplify_list(view_exprs(es@.take(i as int))),
        decreases es.len() - i,
    {
        proof {
            assert(decreases_to!(es => es@[i as int]));
        }
        let c = simplify(&es[i]);
        proof {
            lemma_view_exprs_push(r@, c);
            lemma_view_exprs_take(es@, i as int);
            let prev = view_exprs(es@.take(i as int));
            assert(prev.push(view_expr(es@[i as int])).drop_last() =~= prev);
        }
        r.push(c);
        i = i + 1;
    }
    proof {
        assert(es@.take(es.len() as int) =~= es@);
    }
    r
}

/// Apply the algebraic identity and exact constant-folding rules to an
/// expression, bottom-up.
pub fn simplify(expr: &Expr) -> (r: Expr)
    ensures
        r@ == simplify_term(expr@),
    decreases expr,
{
    match expr {
        Expr::Number(n) => Expr::Number(*n),
        Expr::Variable(s) => Expr::Variable(copy_string(s)),
        Expr::FieldRef(s) => Expr::FieldRef(copy_string(s)),
        Expr::Constant(s) => Expr::Constant(copy_string(s)),
        Expr::BinaryOp { op, left, right } => {
            let l = simplify(left);
            let r = simplify(right);
            simplify_binop(*op, l, r)
        },
        Expr::UnaryOp { op, operand } => {
            let inner = simplify(operand);
            simplify_unaryop(*op, inner)
        },
        Expr::FunctionCall { name, args } => Expr::FunctionCall {
            name: copy_string(name),
            args: simplify_all(args),
        },
        Expr::Conditional { condition, true_val, false_val } => Expr::Conditional {
            condition: Box::new(simplify(condition)),
            true_val: Box::new(simplify(true_val)),
            false_val: Box::new(simplify(false_val)),
        },
        Expr::DiffOp { op, operands } => Expr::DiffOp { op: *op, operands: simplify_all(operands) },
        Expr::TensorOp { op, operands } => Expr::TensorOp {
            op: *op,
            operands: simplify_all(operands),
        },
    }
}

} // verus!
