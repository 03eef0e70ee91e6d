//! Source-term linearisation `S(phi) -> Sc + Sp * phi`.
use vstd::prelude::*;

use crate::ast::{copy_expr, term_wf, BinOp, Expr, Term, UnOp};
use crate::differentiate::{is_const, is_const_term};
use crate::error::{ErrorView, ExpressionError};
use crate::number::Num;
use crate::parser::{bin, un};
use crate::simplify::{
    in_ring_fragment, law_simplify_preserves_value, literals_agree,
    law_simplify_additive_identity, law_simplify_multiplicative_identity, num_term, simplify,
    simplify_bin, simplify_term,
};

verus! {

/// The term mentions the variable `phi`.
pub open spec fn depends_on(t: Term, phi: Seq<char>) -> bool {
    !is_const_term(t, phi)
}

/// `(sc, sp)` with `t` read as `sc + sp * phi`: sums, differences, negations
/// and products with one side free of `phi` are split; anything else goes
/// whole into `sc`.
pub open spec fn split(t: Term, phi: Seq<char>) -> (Term, Term)
    decreases t,
{
    match t {
        Term::Variable(name) => if name == phi {
            (num_term(0), num_term(1))
        } else {
            (t, num_term(0))
        },
        Term::BinaryOp { op: BinOp::Add, left, right } => {
            let (lsc, lsp) = split(*left, phi);
            let (rsc, rsp) = split(*right, phi);
            (bin(BinOp::Add, lsc, rsc), bin(BinOp::Add, lsp, rsp))
        },
        Term::BinaryOp { op: BinOp::Sub, left, right } => {
            let (lsc, lsp) = split(*left, phi);
            let (rsc, rsp) = split(*right, phi);
            (bin(BinOp::Sub, lsc, rsc), bin(BinOp::Sub, lsp, rsp))
        },
        Term::BinaryOp { op: BinOp::Mul, left, right } => {
            let l_dep = depends_on(*left, phi);
            let r_dep = depends_on(*right, phi);
            if !l_dep && r_dep {
                let (rsc, rsp) = split(*right, phi);
                (bin(BinOp::Mul, *left, rsc), bin(BinOp::Mul, *left, rsp))
            } else if l_dep && !r_dep {
                let (lsc, lsp) = split(*left, phi);
                (bin(BinOp::Mul, lsc, *right), bin(BinOp::Mul, lsp, *right))
            } else {
                (t, num_term(0))
            }
        },
        Term::UnaryOp { op: UnOp::Neg, operand } => {
            let (sc, sp) = split(*operand, phi);
            (un(UnOp::Neg, sc), un(UnOp::Neg, sp))
        },
        _ => (t, num_term(0)),
    }
}

/// The simplified `(Sc, Sp)` of a source term.
pub open spec fn spec_linearize(t: Term, phi: Seq<char>) -> (Term, Term) {
    (simplify_term(split(t, phi).0), simplify_term(split(t, phi).1))
}

fn int_expr(i: i64) -> (e: Expr)
    ensures
        e@ == num_term(i as int),
{
    Expr::Number(Num::from_int(i))
}

fn split_exec(expr: &Expr, phi: &str) -> (r: (Expr, Expr))
    ensures
        (r.0@, r.1@) == split(expr@, phi@),
    decreases expr,
{
    match expr {
        Expr::Variable(name) => {
            if crate::text::str_eq(name, phi) {
                (int_expr(0), int_expr(1))
            } else {
                (copy_expr(expr), int_expr(0))
            }
        },
        Expr::BinaryOp { op: BinOp::Add, left, right } => {
            let (lsc, lsp) = split_exec(left, phi);
            let (rsc, rsp) = split_exec(right, phi);
            (Expr::binop(BinOp::Add, lsc, rsc), Expr::binop(BinOp::Add, lsp, rsp))
        },
        Expr::BinaryOp { op: BinOp::Sub, left, right } => {
            let (lsc, lsp) = split_exec(left, phi);
            let (rsc, rsp) = split_exec(right, phi);
            (Expr::binop(BinOp::Sub, lsc, rsc), Expr::binop(BinOp::Sub, lsp, rsp))
        },
        Expr::BinaryOp { op: BinOp::Mul, left, right } => {
            let l_dep = !is_const(left, phi);
            let r_dep = !is_const(right, phi);
            if !l_dep && r_dep {
                let (rsc, rsp) = split_exec(right, phi);
                (
                    Expr::binop(BinOp::Mul, copy_expr(left), rsc),
                    Expr::binop(BinOp::Mul, copy_expr(left), rsp),
                )
            } else if l_dep && !r_dep {
                let (lsc, lsp) = split_exec(left, phi);
                (
                    Expr::binop(BinOp::Mul, lsc, copy_expr(right)),
                    Expr::binop(BinOp::Mul, lsp, copy_expr(right)),
                )
            } else {
                (copy_expr(expr), int_expr(0))
            }
        },
        Expr::UnaryOp { op: UnOp::Neg, operand } => {
            let (sc, sp) = split_exec(operand, phi);
            (Expr::unaryop(UnOp::Neg, sc), Expr::unaryop(UnOp::Neg, sp))
        },
        _ => (copy_expr(expr), int_expr(0)),
    }
}

/// Linearise a source term `S(phi)` around the variable `phi`, giving
/// `(Sc, Sp)` with `S(phi) = Sc + Sp * phi` for the terms that split
/// linearly; terms that do not are kept whole in `Sc`.
pub fn linearize_source(expr: &Expr, phi: &str) -> (r: Result<(Expr, Expr), ExpressionError>)
    ensures
        r matches Ok((sc, sp)) && (sc@, sp@) == spec_linearize(expr@, phi@),
{
    let (sc, sp) = split_exec(expr, phi);
    Ok((simplify(&sc), simplify(&sp)))
}

// ---------------------------------------------------------------------------
// laws
// ---------------------------------------------------------------------------

/// A term that does not mention `phi` splits into itself and a coefficient
/// that simplifies to zero.
pub proof fn lemma_split_independent(t: Term, phi: Seq<char>)
    requires
        !depends_on(t, phi),
    ensures
        split(t, phi).0 == t,
        simplify_term(split(t, phi).1) == num_term(0),
    decreases t,
{
    crate::number::lemma_num_int_facts();
    match t {
        Term::BinaryOp { op, left, right } => {
            lemma_split_independent(*left, phi);
            lemma_split_independent(*right, phi);
        },
        Term::UnaryOp { op, operand } => {
            lemma_split_independent(*operand, phi);
        },
        _ => {},
    }
}

/// A source term that does not depend on `phi` is wholly explicit: the
/// linearisation gives `Sc = simplify(S)` and `Sp = 0`.
pub proof fn law_linearize_independent(t: Term, phi: Seq<char>)
    requires
        !depends_on(t, phi),
    ensures
        spec_linearize(t, phi) == (simplify_term(t), num_term(0)),
{
    lemma_split_independent(t, phi);
}

/// The variable itself is wholly implicit: `Sc = 0`, `Sp = 1`.
pub proof fn law_linearize_variable(phi: Seq<char>)
    ensures
        spec_linearize(Term::Variable(phi), phi) == (num_term(0), num_term(1)),
{
}

/// An affine source `a * phi + b`, with `a` and `b` free of `phi`, splits
/// into `Sc = b` and `Sp = a`, each simplified.
pub proof fn law_linearize_affine(a: Term, b: Term, phi: Seq<char>)
    requires
        !depends_on(a, phi),
        !depends_on(b, phi),
        term_wf(a),
        term_wf(b),
    ensures
        spec_linearize(bin(BinOp::Add, bin(BinOp::Mul, a, Term::Variable(phi)), b), phi) == (
            simplify_term(b),
            simplify_term(a),
        ),
{
    let t = bin(BinOp::Add, bin(BinOp::Mul, a, Term::Variable(phi)), b);
    let am = bin(BinOp::Mul, a, num_term(0));
    let ap = bin(BinOp::Mul, a, num_term(1));
    lemma_split_independent(a, phi);
    lemma_split_independent(b, phi);
    assert(split(Term::Variable(phi), phi) == (num_term(0), num_term(1)));
    assert(split(bin(BinOp::Mul, a, Term::Variable(phi)), phi) == (am, ap));
    let d = split(b, phi).1;
    assert(split(t, phi) == (bin(BinOp::Add, am, b), bin(BinOp::Add, ap, d)));
    lemma_affine_constant_part(a, b);
    lemma_affine_coefficient(a, d);
}

proof fn lemma_affine_constant_part(a: Term, b: Term)
    requires
        term_wf(a),
        term_wf(b),
    ensures
        simplify_term(bin(BinOp::Add, bin(BinOp::Mul, a, num_term(0)), b)) == simplify_term(b),
{
    law_simplify_multiplicative_identity(a);
    law_simplify_additive_identity(b);
    let am = bin(BinOp::Mul, a, num_term(0));
    assert(simplify_term(num_term(0)) == num_term(0));
    assert(simplify_term(bin(BinOp::Add, am, b)) == simplify_bin(
        BinOp::Add,
        simplify_term(am),
        simplify_term(b),
    ));
    assert(simplify_term(bin(BinOp::Add, num_term(0), b)) == simplify_bin(
        BinOp::Add,
        num_term(0),
        simplify_term(b),
    ));
}

proof fn lemma_affine_coefficient(a: Term, d: Term)
    requires
        term_wf(a),
        simplify_term(d) == num_term(0),
    ensures
        simplify_term(bin(BinOp::Add, bin(BinOp::Mul, a, num_term(1)), d)) == simplify_term(a),
{
    let ap = bin(BinOp::Mul, a, num_term(1));
    crate::number::lemma_small_ints_wf();
    assert(term_wf(num_term(1)));
    assert(term_wf(ap));
    law_simplify_multiplicative_identity(a);
    law_simplify_additive_identity(ap);
    assert(simplify_term(num_term(0)) == num_term(0));
    assert(simplify_term(bin(BinOp::Add, ap, d)) == simplify_bin(
        BinOp::Add,
        simplify_term(ap),
        num_term(0),
    ));
    assert(simplify_term(bin(BinOp::Add, ap, num_term(0))) == simplify_bin(
        BinOp::Add,
        simplify_term(ap),
        num_term(0),
    ));
}

// ---------------------------------------------------------------------------
// exactness of the split
// ---------------------------------------------------------------------------

/// The value of a term over the integers, on its arithmetic fragment: whole
/// number literals, variables (valued by `vars`) and fields (valued by
/// `fields`), sums, differences, products and negations; `None` for any term
/// outside that fragment.
pub open spec fn eval(t: Term, vars: spec_fn(Seq<char>) -> int, fields: spec_fn(Seq<char>) -> int) -> Option<int>
    decreases t,
{
    match t {
        Term::Number(n) => if n.spec_is_integer() {
            Some(n.scaled(0))
        } else {
            None
        },
        Term::Variable(name) => Some(vars(name)),
        Term::FieldRef(name) => Some(fields(name)),
        Term::BinaryOp { op, left, right } => match (eval(*left, vars, fields), eval(*right, vars, fields)) {
            (Some(a), Some(b)) => match op {
                BinOp::Add => Some(a + b),
                BinOp::Sub => Some(a - b),
                BinOp::Mul => Some(a * b),
                _ => None,
            },
            _ => None,
        },
        Term::UnaryOp { op: UnOp::Neg, operand } => match eval(*operand, vars, fields) {
            Some(a) => Some(-a),
            None => None,
        },
        _ => None,
    }
}

proof fn lemma_eval_small_ints(vars: spec_fn(Seq<char>) -> int, fields: spec_fn(Seq<char>) -> int)
    ensures
        eval(num_term(0), vars, fields) == Some(0int),
        eval(num_term(1), vars, fields) == Some(1int),
{
    crate::number::lemma_small_ints_wf();
    assert(crate::number::pow10(0) == 1);
}

/// The split is an exact decomposition: the coefficient `Sp` does not mention
/// `phi`, and wherever the source `S` has a value (on the arithmetic fragment,
/// for any valuation of the names), so do `Sc` and `Sp`, and
/// `S = Sc + Sp * phi`.
pub proof fn law_split_exact(
    t: Term,
    phi: Seq<char>,
    vars: spec_fn(Seq<char>) -> int,
    fields: spec_fn(Seq<char>) -> int,
)
    ensures
        !depends_on(split(t, phi).1, phi),
        eval(t, vars, fields) is Some ==> {
            &&& eval(split(t, phi).0, vars, fields) is Some
            &&& eval(split(t, phi).1, vars, fields) is Some
            &&& eval(split(t, phi).0, vars, fields).unwrap() + eval(split(t, phi).1, vars, fields).unwrap()
                * vars(phi) == eval(t, vars, fields).unwrap()
        },
    decreases t,
{
    lemma_eval_small_ints(vars, fields);
    let x = vars(phi);
    match t {
        Term::BinaryOp { op, left, right } => {
            law_split_exact(*left, phi, vars, fields);
            law_split_exact(*right, phi, vars, fields);
            if eval(t, vars, fields) is Some {
                lemma_split_bin_exact(op, *left, *right, phi, vars, fields);
                assert(t == bin(op, *left, *right));
                assert(eval(split(t, phi).0, vars, fields) is Some);
            }
        },
        Term::UnaryOp { op, operand } => {
            law_split_exact(*operand, phi, vars, fields);
            if eval(t, vars, fields) is Some {
                let (osc, osp) = split(*operand, phi);
                let k = eval(osp, vars, fields).unwrap();
                assert((-k) * x == -(k * x)) by (nonlinear_arith);
            }
        },
        _ => {
            assert(0 * x == 0);
            assert(1 * x == x);
        },
    }
}

proof fn lemma_split_bin_exact(
    op: BinOp,
    left: Term,
    right: Term,
    phi: Seq<char>,
    vars: spec_fn(Seq<char>) -> int,
    fields: spec_fn(Seq<char>) -> int,
)
    requires
        eval(bin(op, left, right), vars, fields) is Some,
        eval(left, vars, fields) is Some ==> {
            &&& eval(split(left, phi).0, vars, fields) is Some
            &&& eval(split(left, phi).1, vars, fields) is Some
            &&& eval(split(left, phi).0, vars, fields).unwrap() + eval(split(left, phi).1, vars, fields).unwrap()
                * vars(phi) == eval(left, vars, fields).unwrap()
        },
        eval(right, vars, fields) is Some ==> {
            &&& eval(split(right, phi).0, vars, fields) is Some
            &&& eval(split(right, phi).1, vars, fields) is Some
            &&& eval(split(right, phi).0, vars, fields).unwrap() + eval(split(right, phi).1, vars, fields).unwrap()
                * vars(phi) == eval(right, vars, fields).unwrap()
        },
    ensures
        ({
            let t = bin(op, left, right);
            &&& eval(split(t, phi).0, vars, fields) is Some
            &&& eval(split(t, phi).1, vars, fields) is Some
            &&& eval(split(t, phi).0, vars, fields).unwrap() + eval(split(t, phi).1, vars, fields).unwrap()
                * vars(phi) == eval(t, vars, fields).unwrap()
        }),
{
    lemma_eval_small_ints(vars, fields);
    let t = bin(op, left, right);
    let x = vars(phi);
    let l = eval(left, vars, fields).unwrap();
    let r = eval(right, vars, fields).unwrap();
    let (lsc, lsp) = split(left, phi);
    let (rsc, rsp) = split(right, phi);
    let lc = eval(lsc, vars, fields).unwrap();
    let lk = eval(lsp, vars, fields).unwrap();
    let rc = eval(rsc, vars, fields).unwrap();
    let rk = eval(rsp, vars, fields).unwrap();
    let s = eval(t, vars, fields).unwrap();
    match op {
        BinOp::Add => {
            assert(split(t, phi) == (bin(BinOp::Add, lsc, rsc), bin(BinOp::Add, lsp, rsp)));
            assert((lk + rk) * x == lk * x + rk * x) by (nonlinear_arith);
        },
        BinOp::Sub => {
            assert(split(t, phi) == (bin(BinOp::Sub, lsc, rsc), bin(BinOp::Sub, lsp, rsp)));
            assert((lk - rk) * x == lk * x - rk * x) by (nonlinear_arith);
        },
        BinOp::Mul => {
            assert(s == l * r);
            if !depends_on(left, phi) && depends_on(right, phi) {
                assert(split(t, phi) == (bin(BinOp::Mul, left, rsc), bin(BinOp::Mul, left, rsp)));
                assert(l * (rc + rk * x) == l * rc + (l * rk) * x) by (nonlinear_arith);
            } else if depends_on(left, phi) && !depends_on(right, phi) {
                assert(split(t, phi) == (bin(BinOp::Mul, lsc, right), bin(BinOp::Mul, lsp, right)));
                assert((lc + lk * x) * r == lc * r + (lk * r) * x) by (nonlinear_arith);
            } else {
                assert(split(t, phi) == (t, num_term(0)));
                assert(0 * x == 0);
            }
        },
        _ => {},
    }
}

// ---------------------------------------------------------------------------
// exactness of the split in any commutative ring
// ---------------------------------------------------------------------------

/// `plus`, `times`, `minus`, `zero` and `one` make the values `V` a
/// commutative ring (the real numbers, the rationals, the integers, ...).
#[verifier::opaque]
pub open spec fn is_comm_ring<V>(plus: spec_fn(V, V) -> V, times: spec_fn(V, V) -> V, minus: spec_fn(V) -> V, zero: V, one: V) -> bool {
    &&& forall|a: V, b: V| #[trigger] plus(a, b) == plus(b, a)
    &&& forall|a: V, b: V, c: V| #[trigger] plus(plus(a, b), c) == plus(a, plus(b, c))
    &&& forall|a: V| #[trigger] plus(a, zero) == a
    &&& forall|a: V| #[trigger] plus(a, minus(a)) == zero
    &&& forall|a: V, b: V| #[trigger] times(a, b) == times(b, a)
    &&& forall|a: V, b: V, c: V| #[trigger] times(times(a, b), c) == times(a, times(b, c))
    &&& forall|a: V| #[trigger] times(a, one) == a
    &&& forall|a: V, b: V, c: V| #[trigger] times(a, plus(b, c)) == plus(times(a, b), times(a, c))
}

pub(crate) proof fn ax_pc<V>(plus: spec_fn(V, V) -> V, times: spec_fn(V, V) -> V, minus: spec_fn(V) -> V, zero: V, one: V, a: V, b: V)
    requires
        is_comm_ring(plus, times, minus, zero, one),
    ensures
        plus(a, b) == plus(b, a),
{
    reveal(is_comm_ring);
}

proof fn ax_pa<V>(plus: spec_fn(V, V) -> V, times: spec_fn(V, V) -> V, minus: spec_fn(V) -> V, zero: V, one: V, a: V, b: V, c: V)
    requires
        is_comm_ring(plus, times, minus, zero, one),
    ensures
        plus(plus(a, b), c) == plus(a, plus(b, c)),
{
    reveal(is_comm_ring);
}

pub(crate) proof fn ax_pz<V>(plus: spec_fn(V, V) -> V, times: spec_fn(V, V) -> V, minus: spec_fn(V) -> V, zero: V, one: V, a: V)
    requires
        is_comm_ring(plus, times, minus, zero, one),
    ensures
        plus(a, zero) == a,
{
    reveal(is_comm_ring);
}

pub(crate) proof fn ax_pn<V>(plus: spec_fn(V, V) -> V, times: spec_fn(V, V) -> V, minus: spec_fn(V) -> V, zero: V, one: V, a: V)
    requires
        is_comm_ring(plus, times, minus, zero, one),
    ensures
        plus(a, minus(a)) == zero,
{
    reveal(is_comm_ring);
}

pub(crate) proof fn ax_tc<V>(plus: spec_fn(V, V) -> V, times: spec_fn(V, V) -> V, minus: spec_fn(V) -> V, zero: V, one: V, a: V, b: V)
    requires
        is_comm_ring(plus, times, minus, zero, one),
    ensures
        times(a, b) == times(b, a),
{
    reveal(is_comm_ring);
}

pub(crate) proof fn ax_ta<V>(plus: spec_fn(V, V) -> V, times: spec_fn(V, V) -> V, minus: spec_fn(V) -> V, zero: V, one: V, a: V, b: V, c: V)
    requires
        is_comm_ring(plus, times, minus, zero, one),
    ensures
        times(times(a, b), c) == times(a, times(b, c)),
{
    reveal(is_comm_ring);
}

pub(crate) proof fn ax_to<V>(plus: spec_fn(V, V) -> V, times: spec_fn(V, V) -> V, minus: spec_fn(V) -> V, zero: V, one: V, a: V)
    requires
        is_comm_ring(plus, times, minus, zero, one),
    ensures
        times(a, one) == a,
{
    reveal(is_comm_ring);
}

proof fn ax_d<V>(plus: spec_fn(V, V) -> V, times: spec_fn(V, V) -> V, minus: spec_fn(V) -> V, zero: V, one: V, a: V, b: V, c: V)
    requires
        is_comm_ring(plus, times, minus, zero, one),
    ensures
        times(a, plus(b, c)) == plus(times(a, b), times(a, c)),
{
    reveal(is_comm_ring);
}

pub(crate) proof fn ring_zero_left<V>(plus: spec_fn(V, V) -> V, times: spec_fn(V, V) -> V, minus: spec_fn(V) -> V, zero: V, one: V, a: V)
    requires
        is_comm_ring(plus, times, minus, zero, one),
    ensures
        plus(zero, a) == a,
{
    ax_pc(plus, times, minus, zero, one, zero, a);
    ax_pz(plus, times, minus, zero, one, a);
}

pub(crate) proof fn ring_times_zero<V>(plus: spec_fn(V, V) -> V, times: spec_fn(V, V) -> V, minus: spec_fn(V) -> V, zero: V, one: V, a: V)
    requires
        is_comm_ring(plus, times, minus, zero, one),
    ensures
        times(a, zero) == zero,
        times(zero, a) == zero,
{
    let z = times(a, zero);
    ax_pz(plus, times, minus, zero, one, zero);
    ax_d(plus, times, minus, zero, one, a, zero, zero);
    ax_pn(plus, times, minus, zero, one, z);
    ax_pa(plus, times, minus, zero, one, z, z, minus(z));
    ax_pz(plus, times, minus, zero, one, z);
    ax_tc(plus, times, minus, zero, one, zero, a);
}

/// An element that adds to `s` to give zero is `minus(s)`.
pub(crate) proof fn ring_inverse_unique<V>(plus: spec_fn(V, V) -> V, times: spec_fn(V, V) -> V, minus: spec_fn(V) -> V, zero: V, one: V, s: V, t: V)
    requires
        is_comm_ring(plus, times, minus, zero, one),
        plus(s, t) == zero,
    ensures
        minus(s) == t,
{
    ax_pz(plus, times, minus, zero, one, minus(s));
    ax_pa(plus, times, minus, zero, one, minus(s), s, t);
    ax_pc(plus, times, minus, zero, one, minus(s), s);
    ax_pn(plus, times, minus, zero, one, s);
    ring_zero_left(plus, times, minus, zero, one, t);
}

proof fn ring_minus_plus<V>(plus: spec_fn(V, V) -> V, times: spec_fn(V, V) -> V, minus: spec_fn(V) -> V, zero: V, one: V, a: V, b: V)
    requires
        is_comm_ring(plus, times, minus, zero, one),
    ensures
        minus(plus(a, b)) == plus(minus(a), minus(b)),
{
    let ma = minus(a);
    let mb = minus(b);
    ax_pa(plus, times, minus, zero, one, a, b, plus(ma, mb));
    ax_pa(plus, times, minus, zero, one, b, ma, mb);
    ax_pc(plus, times, minus, zero, one, b, ma);
    ax_pa(plus, times, minus, zero, one, ma, b, mb);
    ax_pn(plus, times, minus, zero, one, b);
    ax_pz(plus, times, minus, zero, one, ma);
    ax_pn(plus, times, minus, zero, one, a);
    ring_inverse_unique(plus, times, minus, zero, one, plus(a, b), plus(ma, mb));
}

proof fn ring_minus_times<V>(plus: spec_fn(V, V) -> V, times: spec_fn(V, V) -> V, minus: spec_fn(V) -> V, zero: V, one: V, a: V, b: V)
    requires
        is_comm_ring(plus, times, minus, zero, one),
    ensures
        times(minus(a), b) == minus(times(a, b)),
{
    let p = times(a, b);
    let q = times(minus(a), b);
    ax_d(plus, times, minus, zero, one, b, a, minus(a));
    ax_pn(plus, times, minus, zero, one, a);
    ring_times_zero(plus, times, minus, zero, one, b);
    ax_tc(plus, times, minus, zero, one, b, a);
    ax_tc(plus, times, minus, zero, one, b, minus(a));
    ring_inverse_unique(plus, times, minus, zero, one, p, q);
}

/// `(a + c) + (b + d) x == (a + b x) + (c + d x)`.
proof fn ring_sum_rule<V>(plus: spec_fn(V, V) -> V, times: spec_fn(V, V) -> V, minus: spec_fn(V) -> V, zero: V, one: V, a: V, b: V, c: V, d: V, x: V)
    requires
        is_comm_ring(plus, times, minus, zero, one),
    ensures
        plus(plus(a, c), times(plus(b, d), x)) == plus(plus(a, times(b, x)), plus(c, times(d, x))),
{
    let bx = times(b, x);
    let dx = times(d, x);
    ax_tc(plus, times, minus, zero, one, plus(b, d), x);
    ax_d(plus, times, minus, zero, one, x, b, d);
    ax_tc(plus, times, minus, zero, one, x, b);
    ax_tc(plus, times, minus, zero, one, x, d);
    ax_pa(plus, times, minus, zero, one, a, c, plus(bx, dx));
    ax_pa(plus, times, minus, zero, one, c, bx, dx);
    ax_pc(plus, times, minus, zero, one, c, bx);
    ax_pa(plus, times, minus, zero, one, bx, c, dx);
    ax_pa(plus, times, minus, zero, one, a, bx, plus(c, dx));
}

/// `l (c + d x) == l c + (l d) x`.
proof fn ring_left_factor<V>(plus: spec_fn(V, V) -> V, times: spec_fn(V, V) -> V, minus: spec_fn(V) -> V, zero: V, one: V, l: V, c: V, d: V, x: V)
    requires
        is_comm_ring(plus, times, minus, zero, one),
    ensures
        times(l, plus(c, times(d, x))) == plus(times(l, c), times(times(l, d), x)),
{
    ax_d(plus, times, minus, zero, one, l, c, times(d, x));
    ax_ta(plus, times, minus, zero, one, l, d, x);
}

/// `(a + b x) r == a r + (b r) x`.
proof fn ring_right_factor<V>(plus: spec_fn(V, V) -> V, times: spec_fn(V, V) -> V, minus: spec_fn(V) -> V, zero: V, one: V, a: V, b: V, r: V, x: V)
    requires
        is_comm_ring(plus, times, minus, zero, one),
    ensures
        times(plus(a, times(b, x)), r) == plus(times(a, r), times(times(b, r), x)),
{
    ax_tc(plus, times, minus, zero, one, plus(a, times(b, x)), r);
    ax_d(plus, times, minus, zero, one, r, a, times(b, x));
    ax_tc(plus, times, minus, zero, one, r, a);
    ax_tc(plus, times, minus, zero, one, r, times(b, x));
    ax_ta(plus, times, minus, zero, one, b, x, r);
    ax_tc(plus, times, minus, zero, one, x, r);
    ax_ta(plus, times, minus, zero, one, b, r, x);
}

/// `-(a + b x) == (-a) + (-b) x`.
proof fn ring_negation_rule<V>(plus: spec_fn(V, V) -> V, times: spec_fn(V, V) -> V, minus: spec_fn(V) -> V, zero: V, one: V, a: V, b: V, x: V)
    requires
        is_comm_ring(plus, times, minus, zero, one),
    ensures
        minus(plus(a, times(b, x))) == plus(minus(a), times(minus(b), x)),
{
    ring_minus_plus(plus, times, minus, zero, one, a, times(b, x));
    ring_minus_times(plus, times, minus, zero, one, b, x);
}

/// `t + 0 x == t` and `0 + 1 x == x`.
proof fn ring_trivial_rules<V>(plus: spec_fn(V, V) -> V, times: spec_fn(V, V) -> V, minus: spec_fn(V) -> V, zero: V, one: V, t: V, x: V)
    requires
        is_comm_ring(plus, times, minus, zero, one),
    ensures
        plus(t, times(zero, x)) == t,
        plus(zero, times(one, x)) == x,
{
    ring_times_zero(plus, times, minus, zero, one, x);
    ax_pz(plus, times, minus, zero, one, t);
    ax_tc(plus, times, minus, zero, one, one, x);
    ax_to(plus, times, minus, zero, one, x);
    ring_zero_left(plus, times, minus, zero, one, x);
}

/// The value of a term in the ring: literals valued by `num`, variables by
/// `vars`, fields by `fields`; `+`, `-`, `*` and negation are the ring's
/// operations (`a - b` is `a + minus(b)`); every other node (division,
/// powers, constants, functions, conditionals, operators) is valued by
/// `other`, where it has a value.
pub open spec fn ring_value<V>(
    t: Term,
    plus: spec_fn(V, V) -> V,
    times: spec_fn(V, V) -> V,
    minus: spec_fn(V) -> V,
    num: spec_fn(Num) -> V,
    vars: spec_fn(Seq<char>) -> V,
    fields: spec_fn(Seq<char>) -> V,
    other: spec_fn(Term) -> Option<V>,
) -> Option<V>
    decreases t,
{
    match t {
        Term::Number(n) => Some(num(n)),
        Term::Variable(name) => Some(vars(name)),
        Term::FieldRef(name) => Some(fields(name)),
        Term::BinaryOp { op, left, right } => if op == BinOp::Add || op == BinOp::Sub || op
            == BinOp::Mul {
            match (
                ring_value(*left, plus, times, minus, num, vars, fields, other),
                ring_value(*right, plus, times, minus, num, vars, fields, other),
            ) {
                (Some(a), Some(b)) => if op == BinOp::Add {
                    Some(plus(a, b))
                } else if op == BinOp::Sub {
                    Some(plus(a, minus(b)))
                } else {
                    Some(times(a, b))
                },
                _ => None,
            }
        } else {
            other(t)
        },
        Term::UnaryOp { op: UnOp::Neg, operand } => match ring_value(
            *operand,
            plus,
            times,
            minus,
            num,
            vars,
            fields,
            other,
        ) {
            Some(a) => Some(minus(a)),
            None => None,
        },
        _ => other(t),
    }
}

/// `t` has a value, and so do its split parts, which satisfy
/// `value(t) == value(Sc) + value(Sp) * value(phi)`.
pub open spec fn split_holds<V>(
    t: Term,
    phi: Seq<char>,
    plus: spec_fn(V, V) -> V,
    times: spec_fn(V, V) -> V,
    minus: spec_fn(V) -> V,
    num: spec_fn(Num) -> V,
    vars: spec_fn(Seq<char>) -> V,
    fields: spec_fn(Seq<char>) -> V,
    other: spec_fn(Term) -> Option<V>,
) -> bool {
    let sc = ring_value(split(t, phi).0, plus, times, minus, num, vars, fields, other);
    let sp = ring_value(split(t, phi).1, plus, times, minus, num, vars, fields, other);
    let v = ring_value(t, plus, times, minus, num, vars, fields, other);
    &&& sc is Some
    &&& sp is Some
    &&& plus(sc.unwrap(), times(sp.unwrap(), vars(phi))) == v.unwrap()
}

/// The split is an exact decomposition in every commutative ring, the real
/// numbers among them: wherever the source `S` has a value, so do `Sc` and
/// `Sp`, and `S = Sc + Sp * phi`, for any values of the literals (with `0`
/// and `1` valued as the ring's zero and one), of the names, and of the
/// nodes outside `+`, `-`, `*` and negation.
pub proof fn law_split_exact_in_ring<V>(
    t: Term,
    phi: Seq<char>,
    plus: spec_fn(V, V) -> V, times: spec_fn(V, V) -> V, minus: spec_fn(V) -> V, zero: V, one: V,
    num: spec_fn(Num) -> V,
    vars: spec_fn(Seq<char>) -> V,
    fields: spec_fn(Seq<char>) -> V,
    other: spec_fn(Term) -> Option<V>,
)
    requires
        is_comm_ring(plus, times, minus, zero, one),
        num(crate::number::spec_num_int(0)) == zero,
        num(crate::number::spec_num_int(1)) == one,
    ensures
        ring_value(t, plus, times, minus, num, vars, fields, other) is Some ==> split_holds(
            t,
            phi,
            plus,
            times,
            minus,
            num,
            vars,
            fields,
            other,
        ),
    decreases t,
{
    let x = vars(phi);
    let vt = ring_value(t, plus, times, minus, num, vars, fields, other);
    if vt is Some {
        match t {
            Term::BinaryOp { op, left, right } => {
                if op == BinOp::Add || op == BinOp::Sub || op == BinOp::Mul {
                    law_split_exact_in_ring(*left, phi, plus, times, minus, zero, one, num, vars, fields, other);
                    law_split_exact_in_ring(*right, phi, plus, times, minus, zero, one, num, vars, fields, other);
                    lemma_ring_bin(op, *left, *right, phi, plus, times, minus, zero, one, num, vars, fields, other);
                    assert(t == bin(op, *left, *right));
                } else {
                    assert(split(t, phi) == (t, num_term(0)));
                    ring_trivial_rules(plus, times, minus, zero, one, vt.unwrap(), x);
                }
            },
            Term::UnaryOp { op, operand } => {
                if op == UnOp::Neg {
                    law_split_exact_in_ring(*operand, phi, plus, times, minus, zero, one, num, vars, fields, other);
                    let (osc, osp) = split(*operand, phi);
                    let a = ring_value(osc, plus, times, minus, num, vars, fields, other).unwrap();
                    let b = ring_value(osp, plus, times, minus, num, vars, fields, other).unwrap();
                    ring_negation_rule(plus, times, minus, zero, one, a, b, x);
                } else {
                    assert(split(t, phi) == (t, num_term(0)));
                    ring_trivial_rules(plus, times, minus, zero, one, vt.unwrap(), x);
                }
            },
            Term::Variable(name) => {
                ring_trivial_rules(plus, times, minus, zero, one, vt.unwrap(), x);
            },
            _ => {
                assert(split(t, phi) == (t, num_term(0)));
                ring_trivial_rules(plus, times, minus, zero, one, vt.unwrap(), x);
            },
        }
    }
}

proof fn lemma_ring_bin<V>(
    op: BinOp,
    left: Term,
    right: Term,
    phi: Seq<char>,
    plus: spec_fn(V, V) -> V, times: spec_fn(V, V) -> V, minus: spec_fn(V) -> V, zero: V, one: V,
    num: spec_fn(Num) -> V,
    vars: spec_fn(Seq<char>) -> V,
    fields: spec_fn(Seq<char>) -> V,
    other: spec_fn(Term) -> Option<V>,
)
    requires
        is_comm_ring(plus, times, minus, zero, one),
        num(crate::number::spec_num_int(0)) == zero,
        op == BinOp::Add || op == BinOp::Sub || op == BinOp::Mul,
        ring_value(bin(op, left, right), plus, times, minus, num, vars, fields, other) is Some,
        ring_value(left, plus, times, minus, num, vars, fields, other) is Some ==> split_holds(
            left,
            phi,
            plus,
            times,
            minus,
            num,
            vars,
            fields,
            other,
        ),
        ring_value(right, plus, times, minus, num, vars, fields, other) is Some ==> split_holds(
            right,
            phi,
            plus,
            times,
            minus,
            num,
            vars,
            fields,
            other,
        ),
    ensures
        split_holds(bin(op, left, right), phi, plus, times, minus, num, vars, fields, other),
{
    let t = bin(op, left, right);
    let x = vars(phi);
    let l = ring_value(left, plus, times, minus, num, vars, fields, other).unwrap();
    let r = ring_value(right, plus, times, minus, num, vars, fields, other).unwrap();
    let (lsc, lsp) = split(left, phi);
    let (rsc, rsp) = split(right, phi);
    let a = ring_value(lsc, plus, times, minus, num, vars, fields, other).unwrap();
    let b = ring_value(lsp, plus, times, minus, num, vars, fields, other).unwrap();
    let c = ring_value(rsc, plus, times, minus, num, vars, fields, other).unwrap();
    let d = ring_value(rsp, plus, times, minus, num, vars, fields, other).unwrap();
    if op == BinOp::Add {
        assert(split(t, phi) == (bin(BinOp::Add, lsc, rsc), bin(BinOp::Add, lsp, rsp)));
        ring_sum_rule(plus, times, minus, zero, one, a, b, c, d, x);
    } else if op == BinOp::Sub {
        assert(split(t, phi) == (bin(BinOp::Sub, lsc, rsc), bin(BinOp::Sub, lsp, rsp)));
        ring_sum_rule(plus, times, minus, zero, one, a, b, minus(c), minus(d), x);
        ring_negation_rule(plus, times, minus, zero, one, c, d, x);
    } else {
        if !depends_on(left, phi) && depends_on(right, phi) {
            assert(split(t, phi) == (bin(BinOp::Mul, left, rsc), bin(BinOp::Mul, left, rsp)));
            ring_left_factor(plus, times, minus, zero, one, l, c, d, x);
        } else if depends_on(left, phi) && !depends_on(right, phi) {
            assert(split(t, phi) == (bin(BinOp::Mul, lsc, right), bin(BinOp::Mul, lsp, right)));
            ring_right_factor(plus, times, minus, zero, one, a, b, r, x);
        } else {
            assert(split(t, phi) == (t, num_term(0)));
            ring_trivial_rules(plus, times, minus, zero, one, times(l, r), x);
        }
    }
}


proof fn lemma_split_in_fragment(t: Term, phi: Seq<char>)
    requires
        in_ring_fragment(t),
    ensures
        in_ring_fragment(split(t, phi).0),
        in_ring_fragment(split(t, phi).1),
    decreases t,
{
    assert(in_ring_fragment(num_term(0)));
    assert(in_ring_fragment(num_term(1)));
    match t {
        Term::BinaryOp { left, right, .. } => {
            lemma_split_in_fragment(*left, phi);
            lemma_split_in_fragment(*right, phi);
        },
        Term::UnaryOp { operand, .. } => lemma_split_in_fragment(*operand, phi),
        _ => {},
    }
}

/// What `linearize_source` returns is exact: for a source built from
/// literals, names, `+`, `-`, `*` and negation, the simplified `Sc` and `Sp`
/// satisfy `S = Sc + Sp * phi` in every commutative ring (the real numbers
/// among them) whose values of the literals agree with exact decimal
/// arithmetic, for any values of the names.
pub proof fn law_linearize_exact_in_ring<V>(
    t: Term,
    phi: Seq<char>,
    plus: spec_fn(V, V) -> V, times: spec_fn(V, V) -> V, minus: spec_fn(V) -> V, zero: V, one: V,
    num: spec_fn(Num) -> V,
    vars: spec_fn(Seq<char>) -> V,
    fields: spec_fn(Seq<char>) -> V,
    other: spec_fn(Term) -> Option<V>,
)
    requires
        is_comm_ring(plus, times, minus, zero, one),
        literals_agree(plus, times, minus, zero, one, num),
        in_ring_fragment(t),
    ensures
        ({
            let sc = ring_value(spec_linearize(t, phi).0, plus, times, minus, num, vars, fields, other);
            let sp = ring_value(spec_linearize(t, phi).1, plus, times, minus, num, vars, fields, other);
            let v = ring_value(t, plus, times, minus, num, vars, fields, other);
            &&& sc is Some
            &&& sp is Some
            &&& v is Some
            &&& plus(sc.unwrap(), times(sp.unwrap(), vars(phi))) == v.unwrap()
        }),
{
    let (sc, sp) = split(t, phi);
    law_simplify_preserves_value(t, plus, times, minus, zero, one, num, vars, fields, other);
    lemma_split_in_fragment(t, phi);
    law_split_exact_in_ring(t, phi, plus, times, minus, zero, one, num, vars, fields, other);
    law_simplify_preserves_value(sc, plus, times, minus, zero, one, num, vars, fields, other);
    law_simplify_preserves_value(sp, plus, times, minus, zero, one, num, vars, fields, other);
}

} // verus!
