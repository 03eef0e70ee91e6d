//! Symbolic differentiation of expression trees.
use vstd::prelude::*;

use crate::ast::{
    copy_expr, lemma_view_exprs, term_wf, view_expr, view_exprs, BinOp, Expr, Term, UnOp,
};
use crate::error::{ErrorView, ExpressionError};
use crate::number::{
    lemma_identities, lemma_num_int_facts, lemma_small_ints_wf, lemma_square_nonzero,
    lemma_mul_nonzero, lemma_sqrt_wf, lemma_zero_div, spec_num_int, spec_sqrt, Num,
};
use crate::linearize::{
    ax_pc, ax_pn, ax_pz, ax_ta, ax_tc, is_comm_ring, ring_times_zero, ring_zero_left,
};
use crate::model::{model_value, ValueModel};
use crate::parser::{bin, un};
use crate::simplify::{
    fold_binary, is_zero_term, lemma_simplify_wf, law_simplify_multiplicative_identity, num_term, simplify,
    simplify_bin, simplify_term, simplify_un, ring_minus_minus,
};

verus! {

broadcast use vstd::string::group_string_axioms;

// ---------------------------------------------------------------------------
// specification
// ---------------------------------------------------------------------------

pub open spec fn all_const(ts: Seq<Term>, var: Seq<char>) -> bool
    decreases ts, 0nat,
{
    if ts.len() == 0 {
        true
    } else {
        all_const(ts.drop_last(), var) && is_const_term(ts.last(), var)
    }
}

/// The term does not mention the variable `var`.
pub open spec fn is_const_term(t: Term, var: Seq<char>) -> bool
    decreases t, 1nat,
{
    match t {
        Term::Variable(name) => name != var,
        Term::BinaryOp { left, right, .. } => is_const_term(*left, var) && is_const_term(
            *right,
            var,
        ),
        Term::UnaryOp { operand, .. } => is_const_term(*operand, var),
        Term::FunctionCall { args, .. } => all_const(args, var),
        Term::Conditional { condition, true_val, false_val } => is_const_term(*condition, var)
            && is_const_term(*true_val, var) && is_const_term(*false_val, var),
        Term::DiffOp { operands, .. } => all_const(operands, var),
        Term::TensorOp { operands, .. } => all_const(operands, var),
        _ => true,
    }
}

pub open spec fn diff_error(message: Seq<char>) -> ErrorView {
    ErrorView::DifferentiationError { message }
}

/// Derivative of `left op right` from the derivatives of its sides.
pub open spec fn diff_bin_rule(
    op: BinOp,
    left: Term,
    right: Term,
    dl: Term,
    dr: Term,
    var: Seq<char>,
) -> Term {
    match op {
        BinOp::Add => bin(BinOp::Add, dl, dr),
        BinOp::Sub => bin(BinOp::Sub, dl, dr),
        BinOp::Mul => bin(BinOp::Add, bin(BinOp::Mul, left, dr), bin(BinOp::Mul, right, dl)),
        BinOp::Div => bin(
            BinOp::Div,
            bin(BinOp::Sub, bin(BinOp::Mul, right, dl), bin(BinOp::Mul, left, dr)),
            bin(BinOp::Pow, right, num_term(2)),
        ),
        BinOp::Pow => if is_const_term(right, var) {
            bin(
                BinOp::Mul,
                bin(BinOp::Mul, right, bin(BinOp::Pow, left, bin(BinOp::Sub, right, num_term(1)))),
                dl,
            )
        } else if is_const_term(left, var) {
            bin(BinOp::Mul, bin(BinOp::Mul, bin(BinOp::Pow, left, right), un(UnOp::Log, left)), dr)
        } else {
            bin(
                BinOp::Mul,
                bin(BinOp::Pow, left, right),
                bin(
                    BinOp::Add,
                    bin(BinOp::Mul, dr, un(UnOp::Log, left)),
                    bin(BinOp::Mul, right, bin(BinOp::Div, dl, left)),
                ),
            )
        },
    }
}

/// Derivative of `op(f)` from the derivative `df` of `f` (chain rule).
pub open spec fn diff_un_rule(op: UnOp, f: Term, df: Term) -> Term {
    match op {
        UnOp::Neg => un(UnOp::Neg, df),
        UnOp::Abs => bin(BinOp::Mul, bin(BinOp::Div, f, un(UnOp::Abs, f)), df),
        UnOp::Sqrt => bin(BinOp::Div, df, bin(BinOp::Mul, num_term(2), un(UnOp::Sqrt, f))),
        UnOp::Sin => bin(BinOp::Mul, un(UnOp::Cos, f), df),
        UnOp::Cos => bin(BinOp::Mul, un(UnOp::Neg, un(UnOp::Sin, f)), df),
        UnOp::Exp => bin(BinOp::Mul, un(UnOp::Exp, f), df),
        UnOp::Log => bin(BinOp::Div, df, f),
    }
}

/// The derivative of `t` with respect to `var`, before simplification.
pub open spec fn diff_term(t: Term, var: Seq<char>) -> Result<Term, ErrorView>
    decreases t,
{
    match t {
        Term::Number(_) | Term::Constant(_) | Term::FieldRef(_) => Ok(num_term(0)),
        Term::Variable(name) => if name == var {
            Ok(num_term(1))
        } else {
            Ok(num_term(0))
        },
        Term::BinaryOp { op, left, right } => match diff_term(*left, var) {
            Err(e) => Err(e),
            Ok(dl) => match diff_term(*right, var) {
                Err(e) => Err(e),
                Ok(dr) => Ok(diff_bin_rule(op, *left, *right, dl, dr, var)),
            },
        },
        Term::UnaryOp { op, operand } => match diff_term(*operand, var) {
            Err(e) => Err(e),
            Ok(df) => Ok(diff_un_rule(op, *operand, df)),
        },
        Term::FunctionCall { name, .. } => Err(
            diff_error("cannot differentiate generic function `"@ + name + "`"@),
        ),
        Term::Conditional { condition, true_val, false_val } => match diff_term(*true_val, var) {
            Err(e) => Err(e),
            Ok(dt) => match diff_term(*false_val, var) {
                Err(e) => Err(e),
                Ok(df) => Ok(
                    Term::Conditional {
                        condition,
                        true_val: Box::new(dt),
                        false_val: Box::new(df),
                    },
                ),
            },
        },
        Term::DiffOp { .. } | Term::TensorOp { .. } => Err(
            diff_error("differentiation of differential/tensor operators not yet supported"@),
        ),
    }
}

/// The simplified derivative of `t` with respect to `var`.
pub open spec fn spec_differentiate(t: Term, var: Seq<char>) -> Result<Term, ErrorView> {
    match diff_term(t, var) {
        Err(e) => Err(e),
        Ok(d) => Ok(simplify_term(d)),
    }
}

// ---------------------------------------------------------------------------
// laws
// ---------------------------------------------------------------------------

/// `t` does not mention `var`, is built from numbers, names and the
/// arithmetic operators and functions only, and no divisor, square-root
/// argument or logarithm argument in it simplifies to zero.
pub open spec fn smooth_without(t: Term, var: Seq<char>) -> bool
    decreases t,
{
    match t {
        Term::Number(_) | Term::Constant(_) | Term::FieldRef(_) => true,
        Term::Variable(name) => name != var,
        Term::BinaryOp { op, left, right } => smooth_without(*left, var) && smooth_without(
            *right,
            var,
        ) && (op == BinOp::Div ==> !is_zero_term(simplify_term(*right))),
        Term::UnaryOp { op, operand } => smooth_without(*operand, var) && ((op == UnOp::Sqrt
            || op == UnOp::Log) ==> !is_zero_term(simplify_term(*operand))),
        _ => false,
    }
}

/// The derivative of a variable with respect to itself is one; that of any
/// other name, of a number, a constant or a field is zero.
pub proof fn law_derivative_of_leaf(var: Seq<char>, other: Seq<char>, n: Num)
    requires
        other != var,
    ensures
        spec_differentiate(Term::Variable(var), var) == Ok::<Term, ErrorView>(num_term(1)),
        spec_differentiate(Term::Variable(other), var) == Ok::<Term, ErrorView>(num_term(0)),
        spec_differentiate(Term::Number(n), var) == Ok::<Term, ErrorView>(num_term(0)),
        spec_differentiate(Term::Constant(other), var) == Ok::<Term, ErrorView>(num_term(0)),
        spec_differentiate(Term::FieldRef(var), var) == Ok::<Term, ErrorView>(num_term(0)),
{
}

proof fn lemma_smooth_is_const(t: Term, var: Seq<char>)
    requires
        smooth_without(t, var),
    ensures
        is_const_term(t, var),
    decreases t,
{
    match t {
        Term::BinaryOp { left, right, .. } => {
            lemma_smooth_is_const(*left, var);
            lemma_smooth_is_const(*right, var);
        },
        Term::UnaryOp { operand, .. } => lemma_smooth_is_const(*operand, var),
        _ => {},
    }
}

/// Zero over a simplified term that is not the number zero simplifies to zero.
proof fn lemma_zero_over(den: Term)
    requires
        term_wf(den),
        !is_zero_term(den),
    ensures
        simplify_bin(BinOp::Div, num_term(0), den) == num_term(0),
{
    lemma_small_ints_wf();
    if let Term::Number(b) = den {
        lemma_zero_div(b);
    }
}

/// `x * d` simplifies to zero when `d` does.
proof fn lemma_times_vanishing(x: Term, d: Term)
    requires
        term_wf(x),
        simplify_term(d) == num_term(0),
    ensures
        simplify_term(bin(BinOp::Mul, x, d)) == num_term(0),
{
    law_simplify_multiplicative_identity(x);
    assert(simplify_term(num_term(0)) == num_term(0));
    assert(simplify_term(bin(BinOp::Mul, x, d)) == simplify_bin(
        BinOp::Mul,
        simplify_term(x),
        num_term(0),
    ));
}

/// The product, sum, difference, quotient and power rules give a derivative
/// that simplifies to zero when both sides' derivatives do.
proof fn lemma_const_bin(op: BinOp, l: Term, r: Term, dl: Term, dr: Term, var: Seq<char>)
    requires
        term_wf(l),
        term_wf(r),
        simplify_term(dl) == num_term(0),
        simplify_term(dr) == num_term(0),
        is_const_term(r, var),
        op == BinOp::Div ==> !is_zero_term(simplify_term(r)),
    ensures
        simplify_term(diff_bin_rule(op, l, r, dl, dr, var)) == num_term(0),
{
    lemma_small_ints_wf();
    lemma_num_int_facts();
    match op {
        BinOp::Add | BinOp::Sub => {
            assert(diff_bin_rule(op, l, r, dl, dr, var) == bin(op, dl, dr));
            assert(simplify_term(bin(op, dl, dr)) == simplify_bin(op, num_term(0), num_term(0)));
            assert(fold_binary(op, spec_num_int(0), spec_num_int(0)) == Some(spec_num_int(0)));
            assert(simplify_bin(op, num_term(0), num_term(0)) == num_term(0));
        },
        BinOp::Mul => {
            lemma_times_vanishing(l, dr);
            lemma_times_vanishing(r, dl);
            assert(simplify_term(diff_bin_rule(op, l, r, dl, dr, var)) == simplify_bin(
                BinOp::Add,
                num_term(0),
                num_term(0),
            ));
        },
        BinOp::Div => {
            lemma_times_vanishing(r, dl);
            lemma_times_vanishing(l, dr);
            lemma_simplify_wf(r);
            let rs = simplify_term(r);
            if let Term::Number(a) = rs {
                lemma_square_nonzero(a);
                lemma_identities(a);
            }
            let sq = bin(BinOp::Pow, r, num_term(2));
            assert(term_wf(num_term(2)));
            assert(term_wf(sq));
            assert(simplify_term(num_term(2)) == num_term(2));
            let den = simplify_term(sq);
            assert(den == simplify_bin(BinOp::Pow, rs, num_term(2)));
            lemma_simplify_wf(sq);
            lemma_zero_over(den);
            let top = bin(BinOp::Sub, bin(BinOp::Mul, r, dl), bin(BinOp::Mul, l, dr));
            assert(simplify_term(top) == simplify_bin(BinOp::Sub, num_term(0), num_term(0)));
            assert(fold_binary(BinOp::Sub, spec_num_int(0), spec_num_int(0)) == Some(
                spec_num_int(0),
            ));
            assert(simplify_term(top) == num_term(0));
            assert(diff_bin_rule(op, l, r, dl, dr, var) == bin(BinOp::Div, top, sq));
            assert(simplify_term(bin(BinOp::Div, top, sq)) == simplify_bin(
                BinOp::Div,
                num_term(0),
                den,
            ));
        },
        BinOp::Pow => {
            let x = bin(BinOp::Mul, r, bin(BinOp::Pow, l, bin(BinOp::Sub, r, num_term(1))));
            assert(term_wf(num_term(1)));
            assert(term_wf(bin(BinOp::Sub, r, num_term(1))));
            assert(term_wf(bin(BinOp::Pow, l, bin(BinOp::Sub, r, num_term(1)))));
            assert(term_wf(x));
            lemma_times_vanishing(x, dl);
            assert(simplify_term(diff_bin_rule(op, l, r, dl, dr, var)) == num_term(0));
        },
    }
}

/// The chain rule gives a derivative that simplifies to zero when the
/// operand's derivative does.
proof fn lemma_const_un(op: UnOp, f: Term, df: Term)
    requires
        term_wf(f),
        simplify_term(df) == num_term(0),
        (op == UnOp::Sqrt || op == UnOp::Log) ==> !is_zero_term(simplify_term(f)),
    ensures
        simplify_term(diff_un_rule(op, f, df)) == num_term(0),
{
    lemma_small_ints_wf();
    lemma_num_int_facts();
    lemma_simplify_wf(f);
    let fs = simplify_term(f);
    match op {
        UnOp::Neg => {},
        UnOp::Abs => {
            assert(term_wf(un(UnOp::Abs, f)));
            lemma_times_vanishing(bin(BinOp::Div, f, un(UnOp::Abs, f)), df);
        },
        UnOp::Sqrt => {
            let root = un(UnOp::Sqrt, f);
            let prod = bin(BinOp::Mul, num_term(2), root);
            assert(simplify_term(num_term(2)) == num_term(2));
            assert(simplify_term(root) == simplify_un(UnOp::Sqrt, fs));
            let den = simplify_term(prod);
            assert(den == simplify_bin(BinOp::Mul, num_term(2), simplify_un(UnOp::Sqrt, fs)));
            lemma_identities(spec_num_int(2));
            if let Term::Number(v) = fs {
                lemma_sqrt_wf(v);
                if let Some(n) = spec_sqrt(v) {
                    lemma_mul_nonzero(spec_num_int(2), n);
                }
            }
            assert(term_wf(root));
            assert(term_wf(num_term(2)));
            assert(term_wf(prod));
            lemma_simplify_wf(prod);
            lemma_zero_over(den);
        },
        UnOp::Sin => {
            assert(term_wf(un(UnOp::Cos, f)));
            lemma_times_vanishing(un(UnOp::Cos, f), df);
        },
        UnOp::Cos => {
            assert(term_wf(un(UnOp::Sin, f)));
            assert(term_wf(un(UnOp::Neg, un(UnOp::Sin, f))));
            lemma_times_vanishing(un(UnOp::Neg, un(UnOp::Sin, f)), df);
        },
        UnOp::Exp => {
            assert(term_wf(un(UnOp::Exp, f)));
            lemma_times_vanishing(un(UnOp::Exp, f), df);
        },
        UnOp::Log => {
            lemma_zero_over(fs);
        },
    }
}

/// The derivative of a term that does not depend on `var` simplifies to zero,
/// for every such term whose quotients, roots and logarithms stay defined.
pub proof fn law_derivative_of_constant(t: Term, var: Seq<char>)
    requires
        term_wf(t),
        smooth_without(t, var),
    ensures
        diff_term(t, var) is Ok,
        spec_differentiate(t, var) == Ok::<Term, ErrorView>(num_term(0)),
    decreases t,
{
    lemma_small_ints_wf();
    match t {
        Term::BinaryOp { op, left, right } => {
            law_derivative_of_constant(*left, var);
            law_derivative_of_constant(*right, var);
            lemma_smooth_is_const(*right, var);
            let dl = diff_term(*left, var)->Ok_0;
            let dr = diff_term(*right, var)->Ok_0;
            lemma_const_bin(op, *left, *right, dl, dr, var);
        },
        Term::UnaryOp { op, operand } => {
            law_derivative_of_constant(*operand, var);
            let df = diff_term(*operand, var)->Ok_0;
            lemma_const_un(op, *operand, df);
        },
        _ => {},
    }
}

// ---------------------------------------------------------------------------
// implementation
// ---------------------------------------------------------------------------

fn int_expr(i: i64) -> (e: Expr)
    ensures
        e@ == num_term(i as int),
{
    Expr::Number(Num::from_int(i))
}

fn all_const_exec(es: &Vec<Expr>, var: &str) -> (b: bool)
    ensures
        b == all_const(view_exprs(es@), var@),
    decreases es,
{
    let mut i: usize = 0;
    while i < es.len()
        invariant
            0 <= i <= es.len(),
            all_const(view_exprs(es@.take(i as int)), var@),
        decreases es.len() - i,
    {
        proof {
            assert(decreases_to!(es => es@[i as int]));
        }
        let c = is_const(&es[i], var);
        proof {
            crate::ast::lemma_view_exprs_take(es@, i as int);
            let prev = view_exprs(es@.take(i as int));
            assert(prev.push(view_expr(es@[i as int])).drop_last() =~= prev);
        }
        if !c {
            proof {
                crate::ast::lemma_view_exprs(es@);
                lemma_view_exprs_take_eq(es@, i + 1);
                if all_const(view_exprs(es@), var@) {
                    lemma_all_const_prefix(view_exprs(es@), var@, i + 1);
                }
            }
            return false;
        }
        i = i + 1;
    }
    proof {
        assert(es@.take(es.len() as int) =~= es@);
    }
    true
}

proof fn lemma_view_exprs_take_eq(es: Seq<Expr>, i: int)
    requires
        0 <= i <= es.len(),
    ensures
        view_exprs(es.take(i)) == view_exprs(es).take(i),
    decreases es.len() - i,
{
    if i < es.len() {
        lemma_view_exprs_take_eq(es, i + 1);
        crate::ast::lemma_view_exprs_take(es, i);
        crate::ast::lemma_view_exprs(es);
        assert(view_exprs(es).take(i + 1) =~= view_exprs(es).take(i).push(view_exprs(es)[i]));
        assert(view_exprs(es).take(i) =~= view_exprs(es).take(i + 1).drop_last());
    } else {
        assert(es.take(i) =~= es);
        crate::ast::lemma_view_exprs(es);
        assert(view_exprs(es).take(i) =~= view_exprs(es));
    }
}

/// A list whose every term is constant has every prefix constant.
proof fn lemma_all_const_prefix(ts: Seq<Term>, var: Seq<char>, i: int)
    requires
        0 <= i <= ts.len(),
        all_const(ts, var),
    ensures
        all_const(ts.take(i), var),
    decreases ts.len(),
{
    if i < ts.len() {
        lemma_all_const_prefix(ts.drop_last(), var, i);
        assert(ts.drop_last().take(i) =~= ts.take(i));
    } else {
        assert(ts.take(i) =~= ts);
    }
}

/// Whether `expr` does not mention the variable `var`.
pub(crate) fn is_const(expr: &Expr, var: &str) -> (b: bool)
    ensures
        b == is_const_term(expr@, var@),
    decreases expr,
{
    match expr {
        Expr::Number(_) | Expr::Constant(_) | Expr::FieldRef(_) => true,
        Expr::Variable(name) => !crate::text::str_eq(name, var),
        Expr::BinaryOp { left, right, .. } => is_const(left, var) && is_const(right, var),
        Expr::UnaryOp { operand, .. } => is_const(operand, var),
        Expr::FunctionCall { args, .. } => all_const_exec(args, var),
        Expr::Conditional { condition, true_val, false_val } => is_const(condition, var) && is_const(
            true_val,
            var,
        ) && is_const(false_val, var),
        Expr::DiffOp { operands, .. } => all_const_exec(operands, var),
        Expr::TensorOp { operands, .. } => all_const_exec(operands, var),
    }
}

fn diff_error_exec(message: String) -> (e: ExpressionError)
    ensures
        e@ == diff_error(message@),
{
    ExpressionError::DifferentiationError { message }
}

fn diff_binop(op: BinOp, left: &Expr, right: &Expr, dl: Expr, dr: Expr, var: &str) -> (d: Expr)
    ensures
        d@ == diff_bin_rule(op, left@, right@, dl@, dr@, var@),
{
    match op {
        BinOp::Add => Expr::binop(BinOp::Add, dl, dr),
        BinOp::Sub => Expr::binop(BinOp::Sub, dl, dr),
        BinOp::Mul => {
            let a = Expr::binop(BinOp::Mul, copy_expr(left), dr);
            let b = Expr::binop(BinOp::Mul, copy_expr(right), dl);
            Expr::binop(BinOp::Add, a, b)
        },
        BinOp::Div => {
            let a = Expr::binop(BinOp::Mul, copy_expr(right), dl);
            let b = Expr::binop(BinOp::Mul, copy_expr(left), dr);
            let num = Expr::binop(BinOp::Sub, a, b);
            let den = Expr::binop(BinOp::Pow, copy_expr(right), int_expr(2));
            Expr::binop(BinOp::Div, num, den)
        },
        BinOp::Pow => {
            let f_const = is_const(left, var);
            let g_const = is_const(right, var);
            if g_const {
                // g * f^(g-1) * f'
                let g_minus_1 = Expr::binop(BinOp::Sub, copy_expr(right), int_expr(1));
                let pow = Expr::binop(BinOp::Pow, copy_expr(left), g_minus_1);
                let coeff = Expr::binop(BinOp::Mul, copy_expr(right), pow);
                Expr::binop(BinOp::Mul, coeff, dl)
            } else if f_const {
                // f^g * ln(f) * g'
                let pow = Expr::binop(BinOp::Pow, copy_expr(left), copy_expr(right));
                let ln = Expr::unaryop(UnOp::Log, copy_expr(left));
                Expr::binop(BinOp::Mul, Expr::binop(BinOp::Mul, pow, ln), dr)
            } else {
                // f^g * (g' * ln(f) + g * f' / f)
                let pow = Expr::binop(BinOp::Pow, copy_expr(left), copy_expr(right));
                let a = Expr::binop(BinOp::Mul, dr, Expr::unaryop(UnOp::Log, copy_expr(left)));
                let b = Expr::binop(
                    BinOp::Mul,
                    copy_expr(right),
                    Expr::binop(BinOp::Div, dl, copy_expr(left)),
                );
                Expr::binop(BinOp::Mul, pow, Expr::binop(BinOp::Add, a, b))
            }
        },
    }
}

fn diff_unaryop(op: UnOp, operand: &Expr, df: Expr) -> (d: Expr)
    ensures
        d@ == diff_un_rule(op, operand@, df@),
{
    match op {
        UnOp::Neg => Expr::unaryop(UnOp::Neg, df),
        UnOp::Abs => {
            let sign = Expr::binop(
                BinOp::Div,
                copy_expr(operand),
                Expr::unaryop(UnOp::Abs, copy_expr(operand)),
            );
            Expr::binop(BinOp::Mul, sign, df)
        },
        UnOp::Sqrt => {
            let den = Expr::binop(
                BinOp::Mul,
                int_expr(2),
                Expr::unaryop(UnOp::Sqrt, copy_expr(operand)),
            );
            Expr::binop(BinOp::Div, df, den)
        },
        UnOp::Sin => Expr::binop(BinOp::Mul, Expr::unaryop(UnOp::Cos, copy_expr(operand)), df),
        UnOp::Cos => {
            let outer = Expr::unaryop(UnOp::Neg, Expr::unaryop(UnOp::Sin, copy_expr(operand)));
            Expr::binop(BinOp::Mul, outer, df)
        },
        UnOp::Exp => Expr::binop(BinOp::Mul, Expr::unaryop(UnOp::Exp, copy_expr(operand)), df),
        UnOp::Log => Expr::binop(BinOp::Div, df, copy_expr(operand)),
    }
}

fn diff(expr: &Expr, var: &str) -> (r: Result<Expr, ExpressionError>)
    ensures
        match r {
            Ok(d) => diff_term(expr@, var@) == Ok::<Term, ErrorView>(d@),
            Err(e) => diff_term(expr@, var@) == Err::<Term, ErrorView>(e@),
        },
    decreases expr,
{
    match expr {
        Expr::Number(_) | Expr::Constant(_) | Expr::FieldRef(_) => Ok(int_expr(0)),
        Expr::Variable(name) => {
            if crate::text::str_eq(name, var) {
                Ok(int_expr(1))
            } else {
                Ok(int_expr(0))
            }
        },
        Expr::BinaryOp { op, left, right } => {
            let dl = diff(left, var)?;
            let dr = diff(right, var)?;
            Ok(diff_binop(*op, left, right, dl, dr, var))
        },
        Expr::UnaryOp { op, operand } => {
            let df = diff(operand, var)?;
            Ok(diff_unaryop(*op, operand, df))
        },
        Expr::FunctionCall { name, .. } => {
            let mut m = String::from_str("cannot differentiate generic function `");
            m.append(name.as_str());
            m.append("`");
            Err(diff_error_exec(m))
        },
        Expr::Conditional { condition, true_val, false_val } => {
            let dt = diff(true_val, var)?;
            let df = diff(false_val, var)?;
            Ok(
                Expr::Conditional {
                    condition: Box::new(copy_expr(condition)),
                    true_val: Box::new(dt),
                    false_val: Box::new(df),
                },
            )
        },
        Expr::DiffOp { .. } | Expr::TensorOp { .. } => {
            let m = String::from_str(
                "differentiation of differential/tensor operators not yet supported",
            );
            Err(diff_error_exec(m))
        },
    }
}

/// Symbolically differentiate `expr` with respect to `var`; the result is
/// simplified.
pub fn differentiate(expr: &Expr, var: &str) -> (r: Result<Expr, ExpressionError>)
    ensures
        match r {
            Ok(d) => spec_differentiate(expr@, var@) == Ok::<Term, ErrorView>(d@),
            Err(e) => spec_differentiate(expr@, var@) == Err::<Term, ErrorView>(e@),
        },
{
    let raw = diff(expr, var)?;
    Ok(simplify(&raw))
}


// ---------------------------------------------------------------------------
// the derivative has the value of the derivative
// ---------------------------------------------------------------------------

/// The facts of real arithmetic that the derivative rules rest on: a
/// commutative ring; zero over anything non-zero is zero; `a^b * (s / a) ==
/// a^(b - 1) * s` for non-zero `a`; `a^2 == a * a`; the literals 0, 1 and 2
/// are zero, one and one plus one.
pub open spec fn real_like<V>(m: ValueModel<V>) -> bool {
    let two = (m.plus)(m.one, m.one);
    &&& is_comm_ring(m.plus, m.times, m.minus, m.zero, m.one)
    &&& forall|b: V| b != m.zero ==> #[trigger] (m.div)(m.zero, b) == m.zero
    &&& forall|a: V, b: V, s: V|
        a != m.zero ==> #[trigger] (m.times)((m.pow)(a, b), (m.div)(s, a)) == (m.times)(
            (m.pow)(a, (m.plus)(b, (m.minus)(m.one))),
            s,
        )
    &&& forall|a: V| #[trigger] (m.pow)(a, two) == (m.times)(a, a)
    &&& (m.num)(spec_num_int(0)) == m.zero
    &&& (m.num)(spec_num_int(1)) == m.one
    &&& (m.num)(spec_num_int(2)) == two
}

/// The rate of change of `t` as the variable `var` changes, computed from
/// the values of its parts by the rules of calculus: `(f g)' = f' g + f g'`,
/// `(f / g)' = (f' g - f g') / g^2`, `(f^g)' = f^g (g' ln f + g f' / f)`,
/// `sin' = cos`, `cos' = -sin`, `exp' = exp`, `ln' f = 1 / f`,
/// `sqrt' f = 1 / (2 sqrt f)`, `|f|' = f / |f|`; a conditional changes as its
/// chosen branch. Where a formula would divide by zero there is none.
pub open spec fn model_slope<V>(m: ValueModel<V>, var: Seq<char>, t: Term) -> Option<V>
    decreases t,
{
    match t {
        Term::Number(_) | Term::FieldRef(_) | Term::Constant(_) => Some(m.zero),
        Term::Variable(x) => if x == var {
            Some(m.one)
        } else {
            Some(m.zero)
        },
        Term::BinaryOp { op, left, right } => match (
            model_value(m, *left),
            model_value(m, *right),
            model_slope(m, var, *left),
            model_slope(m, var, *right),
        ) {
            (Some(f), Some(g), Some(df), Some(dg)) => match op {
                BinOp::Add => Some((m.plus)(df, dg)),
                BinOp::Sub => Some((m.plus)(df, (m.minus)(dg))),
                BinOp::Mul => Some((m.plus)((m.times)(df, g), (m.times)(f, dg))),
                BinOp::Div => {
                    let gg = (m.times)(g, g);
                    if gg == m.zero {
                        None
                    } else {
                        Some(
                            (m.div)((m.plus)((m.times)(df, g), (m.minus)((m.times)(f, dg))), gg),
                        )
                    }
                },
                BinOp::Pow => if f == m.zero {
                    None
                } else {
                    Some(
                        (m.times)(
                            (m.pow)(f, g),
                            (m.plus)(
                                (m.times)(dg, (m.func)(UnOp::Log, f)),
                                (m.times)(g, (m.div)(df, f)),
                            ),
                        ),
                    )
                },
            },
            _ => None,
        },
        Term::UnaryOp { op, operand } => match (
            model_value(m, *operand),
            model_slope(m, var, *operand),
        ) {
            (Some(f), Some(df)) => match op {
                UnOp::Neg => Some((m.minus)(df)),
                UnOp::Sin => Some((m.times)((m.func)(UnOp::Cos, f), df)),
                UnOp::Cos => Some((m.times)((m.minus)((m.func)(UnOp::Sin, f)), df)),
                UnOp::Exp => Some((m.times)((m.func)(UnOp::Exp, f), df)),
                UnOp::Log => if f == m.zero {
                    None
                } else {
                    Some((m.div)(df, f))
                },
                UnOp::Sqrt => {
                    let q = (m.times)((m.plus)(m.one, m.one), (m.func)(UnOp::Sqrt, f));
                    if q == m.zero {
                        None
                    } else {
                        Some((m.div)(df, q))
                    }
                },
                UnOp::Abs => {
                    let q = (m.func)(UnOp::Abs, f);
                    if q == m.zero {
                        None
                    } else {
                        Some((m.times)((m.div)(f, q), df))
                    }
                },
            },
            _ => None,
        },
        Term::Conditional { condition, true_val, false_val } => match (
            model_value(m, *condition),
            model_slope(m, var, *true_val),
            model_slope(m, var, *false_val),
        ) {
            (Some(c), Some(x), Some(y)) => if (m.truth)(c) {
                Some(x)
            } else {
                Some(y)
            },
            _ => None,
        },
        _ => None,
    }
}

/// A term that does not mention `var` does not change with it.
proof fn lemma_const_slope<V>(m: ValueModel<V>, var: Seq<char>, t: Term)
    requires
        real_like(m),
        is_const_term(t, var),
        model_slope(m, var, t) is Some,
    ensures
        model_slope(m, var, t) == Some(m.zero),
    decreases t,
{
    let (plus, times, minus, zero, one) = (m.plus, m.times, m.minus, m.zero, m.one);
    ring_minus_minus(plus, times, minus, zero, one, zero);
    ax_pz(plus, times, minus, zero, one, zero);
    ax_pn(plus, times, minus, zero, one, zero);
    match t {
        Term::BinaryOp { op, left, right } => {
            lemma_const_slope(m, var, *left);
            lemma_const_slope(m, var, *right);
            let f = model_value(m, *left).unwrap();
            let g = model_value(m, *right).unwrap();
            ring_times_zero(plus, times, minus, zero, one, f);
            ring_times_zero(plus, times, minus, zero, one, g);
            ring_times_zero(plus, times, minus, zero, one, (m.func)(UnOp::Log, f));
            ring_times_zero(plus, times, minus, zero, one, (m.pow)(f, g));
        },
        Term::UnaryOp { op, operand } => {
            lemma_const_slope(m, var, *operand);
            let f = model_value(m, *operand).unwrap();
            ring_times_zero(plus, times, minus, zero, one, (m.func)(UnOp::Cos, f));
            ring_times_zero(plus, times, minus, zero, one, minus((m.func)(UnOp::Sin, f)));
            ring_times_zero(plus, times, minus, zero, one, (m.func)(UnOp::Exp, f));
            ring_times_zero(plus, times, minus, zero, one, (m.div)(f, (m.func)(UnOp::Abs, f)));
        },
        Term::Conditional { true_val, false_val, .. } => {
            lemma_const_slope(m, var, *true_val);
            lemma_const_slope(m, var, *false_val);
        },
        _ => {},
    }
}

/// The derivative that differentiation builds has, in every model of real
/// arithmetic, the value of the rate of change of the term at every point
/// where that rate is given by the rules of calculus: the sum, product,
/// quotient and general power rules and the chain rule for each function.
pub proof fn law_derivative_value<V>(m: ValueModel<V>, var: Seq<char>, t: Term)
    requires
        real_like(m),
    ensures
        diff_term(t, var) matches Ok(d) ==> (model_slope(m, var, t) is Some ==> model_value(m, d)
            == model_slope(m, var, t)),
    decreases t,
{
    let (plus, times, minus, zero, one) = (m.plus, m.times, m.minus, m.zero, m.one);
    if let Ok(d) = diff_term(t, var) {
        if model_slope(m, var, t) is Some {
            match t {
                Term::BinaryOp { op, left, right } => {
                    law_derivative_value(m, var, *left);
                    law_derivative_value(m, var, *right);
                    let f = model_value(m, *left).unwrap();
                    let g = model_value(m, *right).unwrap();
                    let df = model_slope(m, var, *left).unwrap();
                    let dg = model_slope(m, var, *right).unwrap();
                    let dl = diff_term(*left, var)->Ok_0;
                    let dr = diff_term(*right, var)->Ok_0;
                    lemma_derivative_bin(m, var, op, *left, *right, f, g, df, dg, dl, dr);
                    assert(t == bin(op, *left, *right));
                },
                Term::UnaryOp { op, operand } => {
                    law_derivative_value(m, var, *operand);
                    let f = model_value(m, *operand).unwrap();
                    let df = model_slope(m, var, *operand).unwrap();
                    let dop = diff_term(*operand, var)->Ok_0;
                    lemma_derivative_un(m, var, op, *operand, f, df, dop);
                    assert(t == un(op, *operand));
                },
                Term::Conditional { condition, true_val, false_val } => {
                    law_derivative_value(m, var, *true_val);
                    law_derivative_value(m, var, *false_val);
                    let dt = diff_term(*true_val, var)->Ok_0;
                    let dfv = diff_term(*false_val, var)->Ok_0;
                    assert(d == Term::Conditional {
                        condition,
                        true_val: Box::new(dt),
                        false_val: Box::new(dfv),
                    });
                    assert(model_value(m, dt) == model_slope(m, var, *true_val));
                    assert(model_value(m, dfv) == model_slope(m, var, *false_val));
                },
                _ => {},
            }
        }
    }
}

proof fn lemma_derivative_bin<V>(
    m: ValueModel<V>,
    var: Seq<char>,
    op: BinOp,
    l: Term,
    r: Term,
    f: V,
    g: V,
    df: V,
    dg: V,
    dl: Term,
    dr: Term,
)
    requires
        real_like(m),
        model_value(m, l) == Some(f),
        model_value(m, r) == Some(g),
        model_slope(m, var, l) == Some(df),
        model_slope(m, var, r) == Some(dg),
        model_value(m, dl) == Some(df),
        model_value(m, dr) == Some(dg),
        model_slope(m, var, bin(op, l, r)) is Some,
    ensures
        model_value(m, diff_bin_rule(op, l, r, dl, dr, var)) == model_slope(m, var, bin(op, l, r)),
{
    let (plus, times, minus, zero, one) = (m.plus, m.times, m.minus, m.zero, m.one);
    let two = plus(one, one);
    assert(model_value(m, num_term(1)) == Some(one));
    assert(model_value(m, num_term(2)) == Some(two));
    match op {
        BinOp::Add | BinOp::Sub => {},
        BinOp::Mul => {
            assert(model_value(m, bin(BinOp::Mul, l, dr)) == Some(times(f, dg)));
            assert(model_value(m, bin(BinOp::Mul, r, dl)) == Some(times(g, df)));
            ax_pc(plus, times, minus, zero, one, times(f, dg), times(g, df));
            ax_tc(plus, times, minus, zero, one, g, df);
        },
        BinOp::Div => {
            ring_times_zero(plus, times, minus, zero, one, zero);
            ax_tc(plus, times, minus, zero, one, g, df);
            assert(model_value(m, bin(BinOp::Mul, r, dl)) == Some(times(g, df)));
            assert(model_value(m, bin(BinOp::Mul, l, dr)) == Some(times(f, dg)));
            assert(model_value(m, bin(BinOp::Sub, bin(BinOp::Mul, r, dl), bin(BinOp::Mul, l, dr)))
                == Some(plus(times(g, df), minus(times(f, dg)))));
            assert(model_value(m, bin(BinOp::Pow, r, num_term(2))) == Some((m.pow)(g, two)));
        },
        BinOp::Pow => {
            let lnf = (m.func)(UnOp::Log, f);
            let p = (m.pow)(f, g);
            let q = (m.div)(df, f);
            assert(model_value(m, bin(BinOp::Pow, l, r)) == Some(p));
            assert(model_value(m, un(UnOp::Log, l)) == Some(lnf));
            if is_const_term(r, var) {
                lemma_const_slope(m, var, r);
                let p1 = (m.pow)(f, plus(g, minus(one)));
                ring_times_zero(plus, times, minus, zero, one, lnf);
                ring_zero_left(plus, times, minus, zero, one, times(g, q));
                ax_ta(plus, times, minus, zero, one, p, g, q);
                ax_tc(plus, times, minus, zero, one, p, g);
                ax_ta(plus, times, minus, zero, one, g, p, q);
                ax_ta(plus, times, minus, zero, one, g, p1, df);
                assert(times(p, q) == times(p1, df));
                assert(model_value(m, bin(BinOp::Sub, r, num_term(1))) == Some(plus(g, minus(one))));
                assert(model_value(m, bin(BinOp::Pow, l, bin(BinOp::Sub, r, num_term(1)))) == Some(p1));
                assert(model_value(m, bin(BinOp::Mul, r, bin(BinOp::Pow, l, bin(BinOp::Sub, r, num_term(1)))))
                    == Some(times(g, p1)));
            } else if is_const_term(l, var) {
                lemma_const_slope(m, var, l);
                ring_times_zero(plus, times, minus, zero, one, g);
                ax_pz(plus, times, minus, zero, one, times(dg, lnf));
                ax_tc(plus, times, minus, zero, one, dg, lnf);
                ax_ta(plus, times, minus, zero, one, p, lnf, dg);
                assert(model_value(m, bin(BinOp::Mul, bin(BinOp::Pow, l, r), un(UnOp::Log, l)))
                    == Some(times(p, lnf)));
            } else {
                assert(model_value(m, bin(BinOp::Mul, dr, un(UnOp::Log, l))) == Some(times(dg, lnf)));
                assert(model_value(m, bin(BinOp::Div, dl, l)) == Some(q));
                assert(model_value(m, bin(BinOp::Mul, r, bin(BinOp::Div, dl, l))) == Some(times(g, q)));
                assert(model_value(
                    m,
                    bin(
                        BinOp::Add,
                        bin(BinOp::Mul, dr, un(UnOp::Log, l)),
                        bin(BinOp::Mul, r, bin(BinOp::Div, dl, l)),
                    ),
                ) == Some(plus(times(dg, lnf), times(g, q))));
            }
        },
    }
}

proof fn lemma_derivative_un<V>(m: ValueModel<V>, var: Seq<char>, op: UnOp, e: Term, f: V, df: V, de: Term)
    requires
        real_like(m),
        model_value(m, e) == Some(f),
        model_slope(m, var, e) == Some(df),
        model_value(m, de) == Some(df),
        model_slope(m, var, un(op, e)) is Some,
    ensures
        model_value(m, diff_un_rule(op, e, de)) == model_slope(m, var, un(op, e)),
{
    let two = (m.plus)(m.one, m.one);
    assert(model_value(m, num_term(2)) == Some(two));
    assert(model_value(m, un(op, e)) == Some(if op == UnOp::Neg { (m.minus)(f) } else { (m.func)(op, f) }));
    assert(model_value(m, un(UnOp::Sin, e)) == Some((m.func)(UnOp::Sin, f)));
    assert(model_value(m, un(UnOp::Neg, un(UnOp::Sin, e))) == Some((m.minus)((m.func)(UnOp::Sin, f))));
    assert(model_value(m, un(UnOp::Sqrt, e)) == Some((m.func)(UnOp::Sqrt, f)));
    assert(model_value(m, bin(BinOp::Mul, num_term(2), un(UnOp::Sqrt, e))) == Some(
        (m.times)(two, (m.func)(UnOp::Sqrt, f)),
    ));
    assert(model_value(m, un(UnOp::Abs, e)) == Some((m.func)(UnOp::Abs, f)));
    match op {
        UnOp::Neg => {},
        UnOp::Sin => {
            assert(model_value(m, un(UnOp::Cos, e)) == Some((m.func)(UnOp::Cos, f)));
        },
        UnOp::Cos => {},
        UnOp::Exp => {
            assert(model_value(m, un(UnOp::Exp, e)) == Some((m.func)(UnOp::Exp, f)));
        },
        UnOp::Log => {
            assert(f != m.zero);
        },
        UnOp::Sqrt => {},
        UnOp::Abs => {
            assert((m.func)(UnOp::Abs, f) != m.zero);
            assert(model_value(m, bin(BinOp::Div, e, un(UnOp::Abs, e))) == Some(
                (m.div)(f, (m.func)(UnOp::Abs, f)),
            ));
        },
    }
}

/// Generic calls and the differential and tensor operators cannot be
/// differentiated: wherever one is reached, differentiation fails.
pub proof fn law_underivable_nodes(name: Seq<char>, args: Seq<Term>, dop: crate::ast::DiffOperator, top: crate::ast::TensorOperator, var: Seq<char>)
    ensures
        diff_term(Term::FunctionCall { name, args }, var) is Err,
        diff_term(Term::DiffOp { op: dop, operands: args }, var) is Err,
        diff_term(Term::TensorOp { op: top, operands: args }, var) is Err,
        forall|op: BinOp, t: Term| diff_term(t, var) is Err ==> #[trigger] diff_term(bin(op, t, t), var) is Err,
        forall|op: UnOp, t: Term| diff_term(t, var) is Err ==> #[trigger] diff_term(un(op, t), var) is Err,
{
}
} // verus!
