//! LaTeX markup from an expression tree.
use vstd::prelude::*;

use crate::ast::{lemma_view_exprs, lemma_view_exprs_take, view_expr, view_exprs, BinOp, DiffOperator, Expr, Term, TensorOperator, UnOp};
use crate::number::{num_text, push_num_text};
use crate::parser::{bin, un};
use crate::text::{chars_of, join, join_texts, str_eq};

verus! {

broadcast use vstd::string::group_string_axioms;

// ---------------------------------------------------------------------------
// specification
// ---------------------------------------------------------------------------

/// Binding strength of a binary operator.
pub open spec fn spec_precedence(op: BinOp) -> int {
    match op {
        BinOp::Add | BinOp::Sub => 1,
        BinOp::Mul | BinOp::Div => 2,
        BinOp::Pow => 3,
    }
}

/// A child of operator `child` under operator `parent` needs parentheses.
pub open spec fn spec_child_needs_parens(child: BinOp, parent: BinOp) -> bool {
    spec_precedence(child) < spec_precedence(parent)
}

/// The LaTeX command for a Greek-letter name, the name itself when it is a
/// single ASCII character, else `\text{name}`.
pub open spec fn spec_greek_or_text(name: Seq<char>) -> Seq<char> {
    if name == "alpha"@ {
        "\\alpha"@
    } else if name == "beta"@ {
        "\\beta"@
    } else if name == "gamma"@ || name == "Gamma_coeff"@ {
        "\\gamma"@
    } else if name == "delta"@ {
        "\\delta"@
    } else if name == "epsilon"@ {
        "\\epsilon"@
    } else if name == "zeta"@ {
        "\\zeta"@
    } else if name == "eta"@ {
        "\\eta"@
    } else if name == "theta"@ {
        "\\theta"@
    } else if name == "kappa"@ {
        "\\kappa"@
    } else if name == "lambda"@ {
        "\\lambda"@
    } else if name == "mu"@ {
        "\\mu"@
    } else if name == "nu"@ {
        "\\nu"@
    } else if name == "rho"@ {
        "\\rho"@
    } else if name == "sigma"@ {
        "\\sigma"@
    } else if name == "tau"@ {
        "\\tau"@
    } else if name == "phi"@ {
        "\\phi"@
    } else if name == "psi"@ {
        "\\psi"@
    } else if name == "omega"@ {
        "\\omega"@
    } else if name == "Gamma"@ {
        "\\Gamma"@
    } else if name == "Delta"@ {
        "\\Delta"@
    } else if name == "Theta"@ {
        "\\Theta"@
    } else if name == "Lambda"@ {
        "\\Lambda"@
    } else if name == "Sigma"@ {
        "\\Sigma"@
    } else if name == "Phi"@ {
        "\\Phi"@
    } else if name == "Psi"@ {
        "\\Psi"@
    } else if name == "Omega"@ {
        "\\Omega"@
    } else if name.len() == 1 && (name[0] as u32) < 128 {
        name
    } else {
        "\\text{"@ + name + "}"@
    }
}

pub open spec fn is_simple(t: Term) -> bool {
    match t {
        Term::Number(_) | Term::Variable(_) | Term::FieldRef(_) | Term::Constant(_) => true,
        _ => false,
    }
}

pub open spec fn first_or_empty(ss: Seq<Seq<char>>) -> Seq<char> {
    if ss.len() > 0 {
        ss[0]
    } else {
        Seq::empty()
    }
}

pub open spec fn second_or_empty(ss: Seq<Seq<char>>) -> Seq<char> {
    if ss.len() > 1 {
        ss[1]
    } else {
        Seq::empty()
    }
}

pub open spec fn latex_list(ts: Seq<Term>) -> Seq<Seq<char>>
    decreases ts, 0nat,
{
    if ts.len() == 0 {
        Seq::empty()
    } else {
        latex_list(ts.drop_last()).push(latex(ts.last()))
    }
}

/// A child under `parent`, in `\left( .. \right)` when it binds more loosely.
pub open spec fn latex_child(t: Term, parent: BinOp) -> Seq<char>
    decreases t, 2nat,
{
    match t {
        Term::BinaryOp { op, .. } => if spec_child_needs_parens(op, parent) {
            "\\left( "@ + latex(t) + " \\right)"@
        } else {
            latex(t)
        },
        _ => latex(t),
    }
}

pub open spec fn latex_constant(name: Seq<char>) -> Seq<char> {
    if name == "pi"@ {
        "\\pi"@
    } else if name == "e"@ {
        "e"@
    } else {
        "\\text{"@ + name + "}"@
    }
}

pub open spec fn latex_diff(op: DiffOperator, args: Seq<Seq<char>>) -> Seq<char> {
    match op {
        DiffOperator::TimeDerivative => if args.len() > 0 {
            "\\frac{\\partial "@ + args[0] + "}{\\partial t}"@
        } else {
            "\\frac{\\partial}{\\partial t}"@
        },
        DiffOperator::Gradient => "\\nabla "@ + first_or_empty(args),
        DiffOperator::Divergence => "\\nabla \\cdot "@ + first_or_empty(args),
        DiffOperator::Laplacian => if args.len() == 2 {
            "\\nabla \\cdot \\left( "@ + args[0] + " \\nabla "@ + args[1] + " \\right)"@
        } else {
            "\\nabla^2 "@ + first_or_empty(args)
        },
        DiffOperator::Curl => "\\nabla \\times "@ + first_or_empty(args),
    }
}

pub open spec fn latex_tensor(op: TensorOperator, args: Seq<Seq<char>>) -> Seq<char> {
    let a = first_or_empty(args);
    match op {
        TensorOperator::Dot => a + " \\cdot "@ + second_or_empty(args),
        TensorOperator::Cross => a + " \\times "@ + second_or_empty(args),
        TensorOperator::Outer => a + " \\otimes "@ + second_or_empty(args),
        TensorOperator::Trace => "\\operatorname{tr}\\left( "@ + a + " \\right)"@,
        TensorOperator::Transpose => a + "^T"@,
        TensorOperator::Symmetric => "\\operatorname{sym}\\left( "@ + a + " \\right)"@,
        TensorOperator::Skew => "\\operatorname{skew}\\left( "@ + a + " \\right)"@,
        TensorOperator::Magnitude => "\\left| "@ + a + " \\right|"@,
        TensorOperator::MagnitudeSqr => "\\left| "@ + a + " \\right|^2"@,
        TensorOperator::Determinant => "\\det\\left( "@ + a + " \\right)"@,
        TensorOperator::Inverse => a + "^{-1}"@,
    }
}

pub open spec fn latex_unary(op: UnOp, inner: Seq<char>, neg_child: Seq<char>) -> Seq<char> {
    match op {
        UnOp::Neg => "-"@ + neg_child,
        UnOp::Abs => "\\left| "@ + inner + " \\right|"@,
        UnOp::Sqrt => "\\sqrt{"@ + inner + "}"@,
        UnOp::Sin => "\\sin\\left( "@ + inner + " \\right)"@,
        UnOp::Cos => "\\cos\\left( "@ + inner + " \\right)"@,
        UnOp::Exp => "\\exp\\left( "@ + inner + " \\right)"@,
        UnOp::Log => "\\ln\\left( "@ + inner + " \\right)"@,
    }
}

/// The LaTeX math-mode text of a term.
pub open spec fn latex(t: Term) -> Seq<char>
    decreases t, 1nat,
{
    match t {
        Term::Number(n) => num_text(n),
        Term::Variable(name) => spec_greek_or_text(name),
        Term::FieldRef(name) => spec_greek_or_text(name),
        Term::Constant(name) => latex_constant(name),
        Term::BinaryOp { op, left, right } => match op {
            BinOp::Add => latex_child(*left, op) + " + "@ + latex_child(*right, op),
            BinOp::Sub => latex_child(*left, op) + " - "@ + latex_child(*right, op),
            BinOp::Mul => if is_simple(*left) && is_simple(*right) {
                latex_child(*left, op) + " "@ + latex_child(*right, op)
            } else {
                latex_child(*left, op) + " \\cdot "@ + latex_child(*right, op)
            },
            BinOp::Div => "\\frac{"@ + latex(*left) + "}{"@ + latex(*right) + "}"@,
            BinOp::Pow => "{"@ + latex_child(*left, op) + "}^{"@ + latex(*right) + "}"@,
        },
        Term::UnaryOp { op, operand } => latex_unary(
            op,
            latex(*operand),
            latex_child(*operand, BinOp::Mul),
        ),
        Term::FunctionCall { name, args } => "\\operatorname{"@ + name + "}\\left( "@ + join(
            latex_list(args),
            ", "@,
        ) + " \\right)"@,
        Term::Conditional { condition, true_val, false_val } => "\\begin{cases} "@ + latex(
            *true_val,
        ) + " & \\text{if } "@ + latex(*condition) + " \\\\ "@ + latex(*false_val)
            + " & \\text{otherwise} \\end{cases}"@,
        Term::DiffOp { op, operands } => latex_diff(op, latex_list(operands)),
        Term::TensorOp { op, operands } => latex_tensor(op, latex_list(operands)),
    }
}

// ---------------------------------------------------------------------------
// implementation
// ---------------------------------------------------------------------------

/// Binding strength of a binary operator.
pub fn precedence(op: BinOp) -> (p: u8)
    ensures
        p == spec_precedence(op),
{
    match op {
        BinOp::Add | BinOp::Sub => 1,
        BinOp::Mul | BinOp::Div => 2,
        BinOp::Pow => 3,
    }
}

/// Whether a child of operator `child` under operator `parent` needs parentheses.
pub fn child_needs_parens(child: BinOp, parent: BinOp) -> (b: bool)
    ensures
        b == spec_child_needs_parens(child, parent),
{
    precedence(child) < precedence(parent)
}

/// Map well-known names to Greek-letter LaTeX commands.
pub fn greek_or_text(name: &str) -> (s: String)
    ensures
        s@ == spec_greek_or_text(name@),
{
    let n = String::from_str(name);
    if str_eq(&n, "alpha") {
        String::from_str("\\alpha")
    } else if str_eq(&n, "beta") {
        String::from_str("\\beta")
    } else if str_eq(&n, "gamma") {
        String::from_str("\\gamma")
    } else if str_eq(&n, "Gamma_coeff") {
        String::from_str("\\gamma")
    } else if str_eq(&n, "delta") {
        String::from_str("\\delta")
    } else if str_eq(&n, "epsilon") {
        String::from_str("\\epsilon")
    } else if str_eq(&n, "zeta") {
        String::from_str("\\zeta")
    } else if str_eq(&n, "eta") {
        String::from_str("\\eta")
    } else if str_eq(&n, "theta") {
        String::from_str("\\theta")
    } else if str_eq(&n, "kappa") {
        String::from_str("\\kappa")
    } else if str_eq(&n, "lambda") {
        String::from_str("\\lambda")
    } else if str_eq(&n, "mu") {
        String::from_str("\\mu")
    } else if str_eq(&n, "nu") {
        String::from_str("\\nu")
    } else if str_eq(&n, "rho") {
        String::from_str("\\rho")
    } else if str_eq(&n, "sigma") {
        String::from_str("\\sigma")
    } else if str_eq(&n, "tau") {
        String::from_str("\\tau")
    } else if str_eq(&n, "phi") {
        String::from_str("\\phi")
    } else if str_eq(&n, "psi") {
        String::from_str("\\psi")
    } else if str_eq(&n, "omega") {
        String::from_str("\\omega")
    } else if str_eq(&n, "Gamma") {
        String::from_str("\\Gamma")
    } else if str_eq(&n, "Delta") {
        String::from_str("\\Delta")
    } else if str_eq(&n, "Theta") {
        String::from_str("\\Theta")
    } else if str_eq(&n, "Lambda") {
        String::from_str("\\Lambda")
    } else if str_eq(&n, "Sigma") {
        String::from_str("\\Sigma")
    } else if str_eq(&n, "Phi") {
        String::from_str("\\Phi")
    } else if str_eq(&n, "Psi") {
        String::from_str("\\Psi")
    } else if str_eq(&n, "Omega") {
        String::from_str("\\Omega")
    } else {
        let cs = chars_of(name);
        if cs.len() == 1 && (cs[0] as u32) < 128 {
            n
        } else {
            let mut s = String::from_str("\\text{");
            s.append(name);
            s.append("}");
            s
        }
    }
}

fn is_simple_exec(e: &Expr) -> (b: bool)
    ensures
        b == is_simple(e@),
{
    match e {
        Expr::Number(_) | Expr::Variable(_) | Expr::FieldRef(_) | Expr::Constant(_) => true,
        _ => false,
    }
}

fn emit_list(es: &Vec<Expr>) -> (r: Vec<String>)
    ensures
        r@.map_values(|s: String| s@) == latex_list(view_exprs(es@)),
    decreases es, 0nat,
{
    let mut r: Vec<String> = Vec::new();
    let mut i: usize = 0;
    assert(r@.map_values(|s: String| s@) =~= latex_list(view_exprs(es@.take(0))));
    while i < es.len()
        invariant
            0 <= i <= es.len(),
            r@.map_values(|s: String| s@) == latex_list(view_exprs(es@.take(i as int))),
        decreases es.len() - i,
    {
        proof {
            assert(decreases_to!(es => es@[i as int]));
            lemma_view_exprs_take(es@, i as int);
            let prev = view_exprs(es@.take(i as int));
            assert(prev.push(view_expr(es@[i as int])).drop_last() =~= prev);
        }
        let t = emit(&es[i]);
        let ghost before = r@;
        r.push(t);
        proof {
            assert(r@.map_values(|s: String| s@) =~= before.map_values(|s: String| s@).push(t@));
        }
        i = i + 1;
    }
    proof {
        assert(es@.take(es.len() as int) =~= es@);
    }
    r
}

fn emit_child(e: &Expr, parent: BinOp) -> (s: String)
    ensures
        s@ == latex_child(e@, parent),
    decreases e, 2nat,
{
    let inner = emit(e);
    match e {
        Expr::BinaryOp { op, .. } => {
            if child_needs_parens(*op, parent) {
                let mut s = String::from_str("\\left( ");
                s.append(inner.as_str());
                s.append(" \\right)");
                s
            } else {
                inner
            }
        },
        _ => inner,
    }
}

fn emit_constant(name: &String) -> (s: String)
    ensures
        s@ == latex_constant(name@),
{
    if str_eq(name, "pi") {
        String::from_str("\\pi")
    } else if str_eq(name, "e") {
        String::from_str("e")
    } else {
        let mut s = String::from_str("\\text{");
        s.append(name.as_str());
        s.append("}");
        s
    }
}

fn first_or_empty_exec(ss: &Vec<String>) -> (s: String)
    ensures
        s@ == first_or_empty(ss@.map_values(|s: String| s@)),
{
    if ss.len() > 0 {
        ss[0].clone()
    } else {
        String::new()
    }
}

fn second_or_empty_exec(ss: &Vec<String>) -> (s: String)
    ensures
        s@ == second_or_empty(ss@.map_values(|s: String| s@)),
{
    if ss.len() > 1 {
        ss[1].clone()
    } else {
        String::new()
    }
}

fn wrap(pre: &str, mid: &String, post: &str) -> (s: String)
    ensures
        s@ == pre@ + mid@ + post@,
{
    let mut s = String::from_str(pre);
    s.append(mid.as_str());
    s.append(post);
    s
}

fn prefixed(pre: &str, mid: &String) -> (s: String)
    ensures
        s@ == pre@ + mid@,
{
    let mut s = String::from_str(pre);
    s.append(mid.as_str());
    s
}

fn suffixed(mid: &String, post: &str) -> (s: String)
    ensures
        s@ == mid@ + post@,
{
    let mut s = mid.clone();
    s.append(post);
    s
}

fn emit_diff(op: DiffOperator, args: &Vec<String>) -> (s: String)
    ensures
        s@ == latex_diff(op, args@.map_values(|s: String| s@)),
{
    let a = first_or_empty_exec(args);
    match op {
        DiffOperator::TimeDerivative => {
            if args.len() > 0 {
                wrap("\\frac{\\partial ", &a, "}{\\partial t}")
            } else {
                String::from_str("\\frac{\\partial}{\\partial t}")
            }
        },
        DiffOperator::Gradient => prefixed("\\nabla ", &a),
        DiffOperator::Divergence => prefixed("\\nabla \\cdot ", &a),
        DiffOperator::Laplacian => {
            if args.len() == 2 {
                let mut s = String::from_str("\\nabla \\cdot \\left( ");
                s.append(args[0].as_str());
                s.append(" \\nabla ");
                s.append(args[1].as_str());
                s.append(" \\right)");
                s
            } else {
                prefixed("\\nabla^2 ", &a)
            }
        },
        DiffOperator::Curl => prefixed("\\nabla \\times ", &a),
    }
}

fn emit_tensor(op: TensorOperator, args: &Vec<String>) -> (s: String)
    ensures
        s@ == latex_tensor(op, args@.map_values(|s: String| s@)),
{
    let a = first_or_empty_exec(args);
    let b = second_or_empty_exec(args);
    match op {
        TensorOperator::Dot => {
            let mut s = a;
            s.append(" \\cdot ");
            s.append(b.as_str());
            s
        },
        TensorOperator::Cross => {
            let mut s = a;
            s.append(" \\times ");
            s.append(b.as_str());
            s
        },
        TensorOperator::Outer => {
            let mut s = a;
            s.append(" \\otimes ");
            s.append(b.as_str());
            s
        },
        TensorOperator::Trace => wrap("\\operatorname{tr}\\left( ", &a, " \\right)"),
        TensorOperator::Transpose => suffixed(&a, "^T"),
        TensorOperator::Symmetric => wrap("\\operatorname{sym}\\left( ", &a, " \\right)"),
        TensorOperator::Skew => wrap("\\operatorname{skew}\\left( ", &a, " \\right)"),
        TensorOperator::Magnitude => wrap("\\left| ", &a, " \\right|"),
        TensorOperator::MagnitudeSqr => wrap("\\left| ", &a, " \\right|^2"),
        TensorOperator::Determinant => wrap("\\det\\left( ", &a, " \\right)"),
        TensorOperator::Inverse => suffixed(&a, "^{-1}"),
    }
}

fn emit_unary(op: UnOp, inner: &String, neg_child: &String) -> (s: String)
    ensures
        s@ == latex_unary(op, inner@, neg_child@),
{
    match op {
        UnOp::Neg => prefixed("-", neg_child),
        UnOp::Abs => wrap("\\left| ", inner, " \\right|"),
        UnOp::Sqrt => wrap("\\sqrt{", inner, "}"),
        UnOp::Sin => wrap("\\sin\\left( ", inner, " \\right)"),
        UnOp::Cos => wrap("\\cos\\left( ", inner, " \\right)"),
        UnOp::Exp => wrap("\\exp\\left( ", inner, " \\right)"),
        UnOp::Log => wrap("\\ln\\left( ", inner, " \\right)"),
    }
}

fn join3(a: String, mid: &str, b: &String) -> (s: String)
    ensures
        s@ == a@ + mid@ + b@,
{
    let mut s = a;
    s.append(mid);
    s.append(b.as_str());
    s
}

fn emit(e: &Expr) -> (s: String)
    ensures
        s@ == latex(e@),
    decreases e, 1nat,
{
    match e {
        Expr::Number(n) => {
            let mut s = String::new();
            push_num_text(&mut s, *n);
            s
        },
        Expr::Variable(name) => greek_or_text(name.as_str()),
        Expr::FieldRef(name) => greek_or_text(name.as_str()),
        Expr::Constant(name) => emit_constant(name),
        Expr::BinaryOp { op, left, right } => match op {
            BinOp::Add => join3(emit_child(left, *op), " + ", &emit_child(right, *op)),
            BinOp::Sub => join3(emit_child(left, *op), " - ", &emit_child(right, *op)),
            BinOp::Mul => {
                let l = emit_child(left, *op);
                let r = emit_child(right, *op);
                if is_simple_exec(left) && is_simple_exec(right) {
                    join3(l, " ", &r)
                } else {
                    join3(l, " \\cdot ", &r)
                }
            },
            BinOp::Div => {
                let num = emit(left);
                let den = emit(right);
                let mut s = wrap("\\frac{", &num, "}{");
                s.append(den.as_str());
                s.append("}");
                s
            },
            BinOp::Pow => {
                let base = emit_child(left, *op);
                let exp = emit(right);
                let mut s = wrap("{", &base, "}^{");
                s.append(exp.as_str());
                s.append("}");
                s
            },
        },
        Expr::UnaryOp { op, operand } => {
            let inner = emit(operand);
            let neg_child = emit_child(operand, BinOp::Mul);
            emit_unary(*op, &inner, &neg_child)
        },
        Expr::FunctionCall { name, args } => {
            let parts = emit_list(args);
            let joined = join_texts(&parts, ", ");
            let mut s = wrap("\\operatorname{", name, "}\\left( ");
            s.append(joined.as_str());
            s.append(" \\right)");
            s
        },
        Expr::Conditional { condition, true_val, false_val } => {
            let c = emit(condition);
            let t = emit(true_val);
            let f = emit(false_val);
            let mut s = wrap("\\begin{cases} ", &t, " & \\text{if } ");
            s.append(c.as_str());
            s.append(" \\\\ ");
            s.append(f.as_str());
            s.append(" & \\text{otherwise} \\end{cases}");
            s
        },
        Expr::DiffOp { op, operands } => {
            let parts = emit_list(operands);
            emit_diff(*op, &parts)
        },
        Expr::TensorOp { op, operands } => {
            let parts = emit_list(operands);
            emit_tensor(*op, &parts)
        },
    }
}

/// Convert an expression to a LaTeX math-mode string.
pub fn to_latex(expr: &Expr) -> (s: String)
    ensures
        s@ == latex(expr@),
{
    emit(expr)
}


// ---------------------------------------------------------------------------
// laws
// ---------------------------------------------------------------------------

proof fn lemma_greek_names_distinct()
    ensures
        "alpha"@ != "beta"@,
        "alpha"@ != "gamma"@,
        "alpha"@ != "delta"@,
        "alpha"@ != "epsilon"@,
        "alpha"@ != "zeta"@,
        "alpha"@ != "eta"@,
        "alpha"@ != "theta"@,
        "alpha"@ != "kappa"@,
        "alpha"@ != "lambda"@,
        "alpha"@ != "mu"@,
        "alpha"@ != "nu"@,
        "alpha"@ != "rho"@,
        "alpha"@ != "sigma"@,
        "alpha"@ != "tau"@,
        "alpha"@ != "phi"@,
        "alpha"@ != "psi"@,
        "alpha"@ != "omega"@,
        "alpha"@ != "Gamma"@,
        "alpha"@ != "Delta"@,
        "alpha"@ != "Theta"@,
        "alpha"@ != "Lambda"@,
        "alpha"@ != "Sigma"@,
        "alpha"@ != "Phi"@,
        "alpha"@ != "Psi"@,
        "alpha"@ != "Omega"@,
        "alpha"@ != "Gamma_coeff"@,
        "beta"@ != "gamma"@,
        "beta"@ != "delta"@,
        "beta"@ != "epsilon"@,
        "beta"@ != "zeta"@,
        "beta"@ != "eta"@,
        "beta"@ != "theta"@,
        "beta"@ != "kappa"@,
        "beta"@ != "lambda"@,
        "beta"@ != "mu"@,
        "beta"@ != "nu"@,
        "beta"@ != "rho"@,
        "beta"@ != "sigma"@,
        "beta"@ != "tau"@,
        "beta"@ != "phi"@,
        "beta"@ != "psi"@,
        "beta"@ != "omega"@,
        "beta"@ != "Gamma"@,
        "beta"@ != "Delta"@,
        "beta"@ != "Theta"@,
        "beta"@ != "Lambda"@,
        "beta"@ != "Sigma"@,
        "beta"@ != "Phi"@,
        "beta"@ != "Psi"@,
        "beta"@ != "Omega"@,
        "beta"@ != "Gamma_coeff"@,
        "gamma"@ != "delta"@,
        "gamma"@ != "epsilon"@,
        "gamma"@ != "zeta"@,
        "gamma"@ != "eta"@,
        "gamma"@ != "theta"@,
        "gamma"@ != "kappa"@,
        "gamma"@ != "lambda"@,
        "gamma"@ != "mu"@,
        "gamma"@ != "nu"@,
        "gamma"@ != "rho"@,
        "gamma"@ != "sigma"@,
        "gamma"@ != "tau"@,
        "gamma"@ != "phi"@,
        "gamma"@ != "psi"@,
        "gamma"@ != "omega"@,
        "gamma"@ != "Gamma"@,
        "gamma"@ != "Delta"@,
        "gamma"@ != "Theta"@,
        "gamma"@ != "Lambda"@,
        "gamma"@ != "Sigma"@,
        "gamma"@ != "Phi"@,
        "gamma"@ != "Psi"@,
        "gamma"@ != "Omega"@,
        "gamma"@ != "Gamma_coeff"@,
        "delta"@ != "epsilon"@,
        "delta"@ != "zeta"@,
        "delta"@ != "eta"@,
        "delta"@ != "theta"@,
        "delta"@ != "kappa"@,
        "delta"@ != "lambda"@,
        "delta"@ != "mu"@,
        "delta"@ != "nu"@,
        "delta"@ != "rho"@,
        "delta"@ != "sigma"@,
        "delta"@ != "tau"@,
        "delta"@ != "phi"@,
        "delta"@ != "psi"@,
        "delta"@ != "omega"@,
        "delta"@ != "Gamma"@,
        "delta"@ != "Delta"@,
        "delta"@ != "Theta"@,
        "delta"@ != "Lambda"@,
        "delta"@ != "Sigma"@,
        "delta"@ != "Phi"@,
        "delta"@ != "Psi"@,
        "delta"@ != "Omega"@,
        "delta"@ != "Gamma_coeff"@,
        "epsilon"@ != "zeta"@,
        "epsilon"@ != "eta"@,
        "epsilon"@ != "theta"@,
        "epsilon"@ != "kappa"@,
        "epsilon"@ != "lambda"@,
        "epsilon"@ != "mu"@,
        "epsilon"@ != "nu"@,
        "epsilon"@ != "rho"@,
        "epsilon"@ != "sigma"@,
        "epsilon"@ != "tau"@,
        "epsilon"@ != "phi"@,
        "epsilon"@ != "psi"@,
        "epsilon"@ != "omega"@,
        "epsilon"@ != "Gamma"@,
        "epsilon"@ != "Delta"@,
        "epsilon"@ != "Theta"@,
        "epsilon"@ != "Lambda"@,
        "epsilon"@ != "Sigma"@,
        "epsilon"@ != "Phi"@,
        "epsilon"@ != "Psi"@,
        "epsilon"@ != "Omega"@,
        "epsilon"@ != "Gamma_coeff"@,
        "zeta"@ != "eta"@,
        "zeta"@ != "theta"@,
        "zeta"@ != "kappa"@,
        "zeta"@ != "lambda"@,
        "zeta"@ != "mu"@,
        "zeta"@ != "nu"@,
        "zeta"@ != "rho"@,
        "zeta"@ != "sigma"@,
        "zeta"@ != "tau"@,
        "zeta"@ != "phi"@,
        "zeta"@ != "psi"@,
        "zeta"@ != "omega"@,
        "zeta"@ != "Gamma"@,
        "zeta"@ != "Delta"@,
        "zeta"@ != "Theta"@,
        "zeta"@ != "Lambda"@,
        "zeta"@ != "Sigma"@,
        "zeta"@ != "Phi"@,
        "zeta"@ != "Psi"@,
        "zeta"@ != "Omega"@,
        "zeta"@ != "Gamma_coeff"@,
        "eta"@ != "theta"@,
        "eta"@ != "kappa"@,
        "eta"@ != "lambda"@,
        "eta"@ != "mu"@,
        "eta"@ != "nu"@,
        "eta"@ != "rho"@,
        "eta"@ != "sigma"@,
        "eta"@ != "tau"@,
        "eta"@ != "phi"@,
        "eta"@ != "psi"@,
        "eta"@ != "omega"@,
        "eta"@ != "Gamma"@,
        "eta"@ != "Delta"@,
        "eta"@ != "Theta"@,
        "eta"@ != "Lambda"@,
        "eta"@ != "Sigma"@,
        "eta"@ != "Phi"@,
        "eta"@ != "Psi"@,
        "eta"@ != "Omega"@,
        "eta"@ != "Gamma_coeff"@,
        "theta"@ != "kappa"@,
        "theta"@ != "lambda"@,
        "theta"@ != "mu"@,
        "theta"@ != "nu"@,
        "theta"@ != "rho"@,
        "theta"@ != "sigma"@,
        "theta"@ != "tau"@,
        "theta"@ != "phi"@,
        "theta"@ != "psi"@,
        "theta"@ != "omega"@,
        "theta"@ != "Gamma"@,
        "theta"@ != "Delta"@,
        "theta"@ != "Theta"@,
        "theta"@ != "Lambda"@,
        "theta"@ != "Sigma"@,
        "theta"@ != "Phi"@,
        "theta"@ != "Psi"@,
        "theta"@ != "Omega"@,
        "theta"@ != "Gamma_coeff"@,
        "kappa"@ != "lambda"@,
        "kappa"@ != "mu"@,
        "kappa"@ != "nu"@,
        "kappa"@ != "rho"@,
        "kappa"@ != "sigma"@,
        "kappa"@ != "tau"@,
        "kappa"@ != "phi"@,
        "kappa"@ != "psi"@,
        "kappa"@ != "omega"@,
        "kappa"@ != "Gamma"@,
        "kappa"@ != "Delta"@,
        "kappa"@ != "Theta"@,
        "kappa"@ != "Lambda"@,
        "kappa"@ != "Sigma"@,
        "kappa"@ != "Phi"@,
        "kappa"@ != "Psi"@,
        "kappa"@ != "Omega"@,
        "kappa"@ != "Gamma_coeff"@,
        "lambda"@ != "mu"@,
        "lambda"@ != "nu"@,
        "lambda"@ != "rho"@,
        "lambda"@ != "sigma"@,
        "lambda"@ != "tau"@,
        "lambda"@ != "phi"@,
        "lambda"@ != "psi"@,
        "lambda"@ != "omega"@,
        "lambda"@ != "Gamma"@,
        "lambda"@ != "Delta"@,
        "lambda"@ != "Theta"@,
        "lambda"@ != "Lambda"@,
        "lambda"@ != "Sigma"@,
        "lambda"@ != "Phi"@,
        "lambda"@ != "Psi"@,
        "lambda"@ != "Omega"@,
        "lambda"@ != "Gamma_coeff"@,
        "mu"@ != "nu"@,
        "mu"@ != "rho"@,
        "mu"@ != "sigma"@,
        "mu"@ != "tau"@,
        "mu"@ != "phi"@,
        "mu"@ != "psi"@,
        "mu"@ != "omega"@,
        "mu"@ != "Gamma"@,
        "mu"@ != "Delta"@,
        "mu"@ != "Theta"@,
        "mu"@ != "Lambda"@,
        "mu"@ != "Sigma"@,
        "mu"@ != "Phi"@,
        "mu"@ != "Psi"@,
        "mu"@ != "Omega"@,
        "mu"@ != "Gamma_coeff"@,
        "nu"@ != "rho"@,
        "nu"@ != "sigma"@,
        "nu"@ != "tau"@,
        "nu"@ != "phi"@,
        "nu"@ != "psi"@,
        "nu"@ != "omega"@,
        "nu"@ != "Gamma"@,
        "nu"@ != "Delta"@,
        "nu"@ != "Theta"@,
        "nu"@ != "Lambda"@,
        "nu"@ != "Sigma"@,
        "nu"@ != "Phi"@,
        "nu"@ != "Psi"@,
        "nu"@ != "Omega"@,
        "nu"@ != "Gamma_coeff"@,
        "rho"@ != "sigma"@,
        "rho"@ != "tau"@,
        "rho"@ != "phi"@,
        "rho"@ != "psi"@,
        "rho"@ != "omega"@,
        "rho"@ != "Gamma"@,
        "rho"@ != "Delta"@,
        "rho"@ != "Theta"@,
        "rho"@ != "Lambda"@,
        "rho"@ != "Sigma"@,
        "rho"@ != "Phi"@,
        "rho"@ != "Psi"@,
        "rho"@ != "Omega"@,
        "rho"@ != "Gamma_coeff"@,
        "sigma"@ != "tau"@,
        "sigma"@ != "phi"@,
        "sigma"@ != "psi"@,
        "sigma"@ != "omega"@,
        "sigma"@ != "Gamma"@,
        "sigma"@ != "Delta"@,
        "sigma"@ != "Theta"@,
        "sigma"@ != "Lambda"@,
        "sigma"@ != "Sigma"@,
        "sigma"@ != "Phi"@,
        "sigma"@ != "Psi"@,
        "sigma"@ != "Omega"@,
        "sigma"@ != "Gamma_coeff"@,
        "tau"@ != "phi"@,
        "tau"@ != "psi"@,
        "tau"@ != "omega"@,
        "tau"@ != "Gamma"@,
        "tau"@ != "Delta"@,
        "tau"@ != "Theta"@,
        "tau"@ != "Lambda"@,
        "tau"@ != "Sigma"@,
        "tau"@ != "Phi"@,
        "tau"@ != "Psi"@,
        "tau"@ != "Omega"@,
        "tau"@ != "Gamma_coeff"@,
        "phi"@ != "psi"@,
        "phi"@ != "omega"@,
        "phi"@ != "Gamma"@,
        "phi"@ != "Delta"@,
        "phi"@ != "Theta"@,
        "phi"@ != "Lambda"@,
        "phi"@ != "Sigma"@,
        "phi"@ != "Phi"@,
        "phi"@ != "Psi"@,
        "phi"@ != "Omega"@,
        "phi"@ != "Gamma_coeff"@,
        "psi"@ != "omega"@,
        "psi"@ != "Gamma"@,
        "psi"@ != "Delta"@,
        "psi"@ != "Theta"@,
        "psi"@ != "Lambda"@,
        "psi"@ != "Sigma"@,
        "psi"@ != "Phi"@,
        "psi"@ != "Psi"@,
        "psi"@ != "Omega"@,
        "psi"@ != "Gamma_coeff"@,
        "omega"@ != "Gamma"@,
        "omega"@ != "Delta"@,
        "omega"@ != "Theta"@,
        "omega"@ != "Lambda"@,
        "omega"@ != "Sigma"@,
        "omega"@ != "Phi"@,
        "omega"@ != "Psi"@,
        "omega"@ != "Omega"@,
        "omega"@ != "Gamma_coeff"@,
        "Gamma"@ != "Delta"@,
        "Gamma"@ != "Theta"@,
        "Gamma"@ != "Lambda"@,
        "Gamma"@ != "Sigma"@,
        "Gamma"@ != "Phi"@,
        "Gamma"@ != "Psi"@,
        "Gamma"@ != "Omega"@,
        "Gamma"@ != "Gamma_coeff"@,
        "Delta"@ != "Theta"@,
        "Delta"@ != "Lambda"@,
        "Delta"@ != "Sigma"@,
        "Delta"@ != "Phi"@,
        "Delta"@ != "Psi"@,
        "Delta"@ != "Omega"@,
        "Delta"@ != "Gamma_coeff"@,
        "Theta"@ != "Lambda"@,
        "Theta"@ != "Sigma"@,
        "Theta"@ != "Phi"@,
        "Theta"@ != "Psi"@,
        "Theta"@ != "Omega"@,
        "Theta"@ != "Gamma_coeff"@,
        "Lambda"@ != "Sigma"@,
        "Lambda"@ != "Phi"@,
        "Lambda"@ != "Psi"@,
        "Lambda"@ != "Omega"@,
        "Lambda"@ != "Gamma_coeff"@,
        "Sigma"@ != "Phi"@,
        "Sigma"@ != "Psi"@,
        "Sigma"@ != "Omega"@,
        "Sigma"@ != "Gamma_coeff"@,
        "Phi"@ != "Psi"@,
        "Phi"@ != "Omega"@,
        "Phi"@ != "Gamma_coeff"@,
        "Psi"@ != "Omega"@,
        "Psi"@ != "Gamma_coeff"@,
        "Omega"@ != "Gamma_coeff"@,
{
    reveal_strlit("alpha");
    reveal_strlit("beta");
    reveal_strlit("gamma");
    reveal_strlit("delta");
    reveal_strlit("epsilon");
    reveal_strlit("zeta");
    reveal_strlit("eta");
    reveal_strlit("theta");
    reveal_strlit("kappa");
    reveal_strlit("lambda");
    reveal_strlit("mu");
    reveal_strlit("nu");
    reveal_strlit("rho");
    reveal_strlit("sigma");
    reveal_strlit("tau");
    reveal_strlit("phi");
    reveal_strlit("psi");
    reveal_strlit("omega");
    reveal_strlit("Gamma");
    reveal_strlit("Delta");
    reveal_strlit("Theta");
    reveal_strlit("Lambda");
    reveal_strlit("Sigma");
    reveal_strlit("Phi");
    reveal_strlit("Psi");
    reveal_strlit("Omega");
    reveal_strlit("Gamma_coeff");
    assert("alpha"@.len() == 5);
    assert("beta"@.len() == 4);
    assert("gamma"@.len() == 5);
    assert("delta"@.len() == 5);
    assert("epsilon"@.len() == 7);
    assert("zeta"@.len() == 4);
    assert("eta"@.len() == 3);
    assert("theta"@.len() == 5);
    assert("kappa"@.len() == 5);
    assert("lambda"@.len() == 6);
    assert("mu"@.len() == 2);
    assert("nu"@.len() == 2);
    assert("rho"@.len() == 3);
    assert("sigma"@.len() == 5);
    assert("tau"@.len() == 3);
    assert("phi"@.len() == 3);
    assert("psi"@.len() == 3);
    assert("omega"@.len() == 5);
    assert("Gamma"@.len() == 5);
    assert("Delta"@.len() == 5);
    assert("Theta"@.len() == 5);
    assert("Lambda"@.len() == 6);
    assert("Sigma"@.len() == 5);
    assert("Phi"@.len() == 3);
    assert("Psi"@.len() == 3);
    assert("Omega"@.len() == 5);
    assert("Gamma_coeff"@.len() == 11);
    assert("alpha"@[0] != "gamma"@[0]);
    assert("alpha"@[0] != "delta"@[0]);
    assert("alpha"@[0] != "theta"@[0]);
    assert("alpha"@[0] != "kappa"@[0]);
    assert("alpha"@[0] != "sigma"@[0]);
    assert("alpha"@[0] != "omega"@[0]);
    assert("alpha"@[0] != "Gamma"@[0]);
    assert("alpha"@[0] != "Delta"@[0]);
    assert("alpha"@[0] != "Theta"@[0]);
    assert("alpha"@[0] != "Sigma"@[0]);
    assert("alpha"@[0] != "Omega"@[0]);
    assert("beta"@[0] != "zeta"@[0]);
    assert("gamma"@[0] != "delta"@[0]);
    assert("gamma"@[0] != "theta"@[0]);
    assert("gamma"@[0] != "kappa"@[0]);
    assert("gamma"@[0] != "sigma"@[0]);
    assert("gamma"@[0] != "omega"@[0]);
    assert("gamma"@[0] != "Gamma"@[0]);
    assert("gamma"@[0] != "Delta"@[0]);
    assert("gamma"@[0] != "Theta"@[0]);
    assert("gamma"@[0] != "Sigma"@[0]);
    assert("gamma"@[0] != "Omega"@[0]);
    assert("delta"@[0] != "theta"@[0]);
    assert("delta"@[0] != "kappa"@[0]);
    assert("delta"@[0] != "sigma"@[0]);
    assert("delta"@[0] != "omega"@[0]);
    assert("delta"@[0] != "Gamma"@[0]);
    assert("delta"@[0] != "Delta"@[0]);
    assert("delta"@[0] != "Theta"@[0]);
    assert("delta"@[0] != "Sigma"@[0]);
    assert("delta"@[0] != "Omega"@[0]);
    assert("eta"@[0] != "rho"@[0]);
    assert("eta"@[0] != "tau"@[0]);
    assert("eta"@[0] != "phi"@[0]);
    assert("eta"@[0] != "psi"@[0]);
    assert("eta"@[0] != "Phi"@[0]);
    assert("eta"@[0] != "Psi"@[0]);
    assert("theta"@[0] != "kappa"@[0]);
    assert("theta"@[0] != "sigma"@[0]);
    assert("theta"@[0] != "omega"@[0]);
    assert("theta"@[0] != "Gamma"@[0]);
    assert("theta"@[0] != "Delta"@[0]);
    assert("theta"@[0] != "Theta"@[0]);
    assert("theta"@[0] != "Sigma"@[0]);
    assert("theta"@[0] != "Omega"@[0]);
    assert("kappa"@[0] != "sigma"@[0]);
    assert("kappa"@[0] != "omega"@[0]);
    assert("kappa"@[0] != "Gamma"@[0]);
    assert("kappa"@[0] != "Delta"@[0]);
    assert("kappa"@[0] != "Theta"@[0]);
    assert("kappa"@[0] != "Sigma"@[0]);
    assert("kappa"@[0] != "Omega"@[0]);
    assert("lambda"@[0] != "Lambda"@[0]);
    assert("mu"@[0] != "nu"@[0]);
    assert("rho"@[0] != "tau"@[0]);
    assert("rho"@[0] != "phi"@[0]);
    assert("rho"@[0] != "psi"@[0]);
    assert("rho"@[0] != "Phi"@[0]);
    assert("rho"@[0] != "Psi"@[0]);
    assert("sigma"@[0] != "omega"@[0]);
    assert("sigma"@[0] != "Gamma"@[0]);
    assert("sigma"@[0] != "Delta"@[0]);
    assert("sigma"@[0] != "Theta"@[0]);
    assert("sigma"@[0] != "Sigma"@[0]);
    assert("sigma"@[0] != "Omega"@[0]);
    assert("tau"@[0] != "phi"@[0]);
    assert("tau"@[0] != "psi"@[0]);
    assert("tau"@[0] != "Phi"@[0]);
    assert("tau"@[0] != "Psi"@[0]);
    assert("phi"@[1] != "psi"@[1]);
    assert("phi"@[0] != "Phi"@[0]);
    assert("phi"@[0] != "Psi"@[0]);
    assert("psi"@[0] != "Phi"@[0]);
    assert("psi"@[0] != "Psi"@[0]);
    assert("omega"@[0] != "Gamma"@[0]);
    assert("omega"@[0] != "Delta"@[0]);
    assert("omega"@[0] != "Theta"@[0]);
    assert("omega"@[0] != "Sigma"@[0]);
    assert("omega"@[0] != "Omega"@[0]);
    assert("Gamma"@[0] != "Delta"@[0]);
    assert("Gamma"@[0] != "Theta"@[0]);
    assert("Gamma"@[0] != "Sigma"@[0]);
    assert("Gamma"@[0] != "Omega"@[0]);
    assert("Delta"@[0] != "Theta"@[0]);
    assert("Delta"@[0] != "Sigma"@[0]);
    assert("Delta"@[0] != "Omega"@[0]);
    assert("Theta"@[0] != "Sigma"@[0]);
    assert("Theta"@[0] != "Omega"@[0]);
    assert("Sigma"@[0] != "Omega"@[0]);
    assert("Phi"@[1] != "Psi"@[1]);
}

/// Greek letter names are written as the LaTeX command of that letter
/// (`Gamma_coeff` as a small gamma); other one-character ASCII names as
/// themselves, and other names as upright text.
#[verifier::rlimit(60)]
pub proof fn law_latex_names(name: Seq<char>)
    ensures
        name == "alpha"@ ==> spec_greek_or_text(name) == "\\alpha"@,
        name == "beta"@ ==> spec_greek_or_text(name) == "\\beta"@,
        name == "gamma"@ ==> spec_greek_or_text(name) == "\\gamma"@,
        name == "delta"@ ==> spec_greek_or_text(name) == "\\delta"@,
        name == "epsilon"@ ==> spec_greek_or_text(name) == "\\epsilon"@,
        name == "zeta"@ ==> spec_greek_or_text(name) == "\\zeta"@,
        name == "eta"@ ==> spec_greek_or_text(name) == "\\eta"@,
        name == "theta"@ ==> spec_greek_or_text(name) == "\\theta"@,
        name == "kappa"@ ==> spec_greek_or_text(name) == "\\kappa"@,
        name == "lambda"@ ==> spec_greek_or_text(name) == "\\lambda"@,
        name == "mu"@ ==> spec_greek_or_text(name) == "\\mu"@,
        name == "nu"@ ==> spec_greek_or_text(name) == "\\nu"@,
        name == "rho"@ ==> spec_greek_or_text(name) == "\\rho"@,
        name == "sigma"@ ==> spec_greek_or_text(name) == "\\sigma"@,
        name == "tau"@ ==> spec_greek_or_text(name) == "\\tau"@,
        name == "phi"@ ==> spec_greek_or_text(name) == "\\phi"@,
        name == "psi"@ ==> spec_greek_or_text(name) == "\\psi"@,
        name == "omega"@ ==> spec_greek_or_text(name) == "\\omega"@,
        name == "Gamma"@ ==> spec_greek_or_text(name) == "\\Gamma"@,
        name == "Delta"@ ==> spec_greek_or_text(name) == "\\Delta"@,
        name == "Theta"@ ==> spec_greek_or_text(name) == "\\Theta"@,
        name == "Lambda"@ ==> spec_greek_or_text(name) == "\\Lambda"@,
        name == "Sigma"@ ==> spec_greek_or_text(name) == "\\Sigma"@,
        name == "Phi"@ ==> spec_greek_or_text(name) == "\\Phi"@,
        name == "Psi"@ ==> spec_greek_or_text(name) == "\\Psi"@,
        name == "Omega"@ ==> spec_greek_or_text(name) == "\\Omega"@,
        name == "Gamma_coeff"@ ==> spec_greek_or_text(name) == "\\gamma"@,
        !(name == "alpha"@ || name == "beta"@ || name == "gamma"@ || name == "delta"@ || name == "epsilon"@ || name == "zeta"@ || name == "eta"@ || name == "theta"@ || name == "kappa"@ || name == "lambda"@ || name == "mu"@ || name == "nu"@ || name == "rho"@ || name == "sigma"@ || name == "tau"@ || name == "phi"@ || name == "psi"@ || name == "omega"@ || name == "Gamma"@ || name == "Delta"@ || name == "Theta"@ || name == "Lambda"@ || name == "Sigma"@ || name == "Phi"@ || name == "Psi"@ || name == "Omega"@ || name == "Gamma_coeff"@) ==> spec_greek_or_text(name) == if name.len() == 1 && (name[0] as u32) < 128 {
            name
        } else {
            "\\text{"@ + name + "}"@
        },
{
    lemma_greek_names_distinct();
    reveal_strlit("alpha");
    reveal_strlit("beta");
    reveal_strlit("gamma");
    reveal_strlit("delta");
    reveal_strlit("epsilon");
    reveal_strlit("zeta");
    reveal_strlit("eta");
    reveal_strlit("theta");
    reveal_strlit("kappa");
    reveal_strlit("lambda");
    reveal_strlit("mu");
    reveal_strlit("nu");
    reveal_strlit("rho");
    reveal_strlit("sigma");
    reveal_strlit("tau");
    reveal_strlit("phi");
    reveal_strlit("psi");
    reveal_strlit("omega");
    reveal_strlit("Gamma");
    reveal_strlit("Delta");
    reveal_strlit("Theta");
    reveal_strlit("Lambda");
    reveal_strlit("Sigma");
    reveal_strlit("Phi");
    reveal_strlit("Psi");
    reveal_strlit("Omega");
    reveal_strlit("Gamma_coeff");
    if name == "alpha"@ {
        assert(spec_greek_or_text(name) == "\\alpha"@);
    }
    if name == "beta"@ {
        assert(spec_greek_or_text(name) == "\\beta"@);
    }
    if name == "gamma"@ {
        assert(spec_greek_or_text(name) == "\\gamma"@);
    }
    if name == "delta"@ {
        assert(spec_greek_or_text(name) == "\\delta"@);
    }
    if name == "epsilon"@ {
        assert(spec_greek_or_text(name) == "\\epsilon"@);
    }
    if name == "zeta"@ {
        assert(spec_greek_or_text(name) == "\\zeta"@);
    }
    if name == "eta"@ {
        assert(spec_greek_or_text(name) == "\\eta"@);
    }
    if name == "theta"@ {
        assert(spec_greek_or_text(name) == "\\theta"@);
    }
    if name == "kappa"@ {
        assert(spec_greek_or_text(name) == "\\kappa"@);
    }
    if name == "lambda"@ {
        assert(spec_greek_or_text(name) == "\\lambda"@);
    }
    if name == "mu"@ {
        assert(spec_greek_or_text(name) == "\\mu"@);
    }
    if name == "nu"@ {
        assert(spec_greek_or_text(name) == "\\nu"@);
    }
    if name == "rho"@ {
        assert(spec_greek_or_text(name) == "\\rho"@);
    }
    if name == "sigma"@ {
        assert(spec_greek_or_text(name) == "\\sigma"@);
    }
    if name == "tau"@ {
        assert(spec_greek_or_text(name) == "\\tau"@);
    }
    if name == "phi"@ {
        assert(spec_greek_or_text(name) == "\\phi"@);
    }
    if name == "psi"@ {
        assert(spec_greek_or_text(name) == "\\psi"@);
    }
    if name == "omega"@ {
        assert(spec_greek_or_text(name) == "\\omega"@);
    }
    if name == "Gamma"@ {
        assert(spec_greek_or_text(name) == "\\Gamma"@);
    }
    if name == "Delta"@ {
        assert(spec_greek_or_text(name) == "\\Delta"@);
    }
    if name == "Theta"@ {
        assert(spec_greek_or_text(name) == "\\Theta"@);
    }
    if name == "Lambda"@ {
        assert(spec_greek_or_text(name) == "\\Lambda"@);
    }
    if name == "Sigma"@ {
        assert(spec_greek_or_text(name) == "\\Sigma"@);
    }
    if name == "Phi"@ {
        assert(spec_greek_or_text(name) == "\\Phi"@);
    }
    if name == "Psi"@ {
        assert(spec_greek_or_text(name) == "\\Psi"@);
    }
    if name == "Omega"@ {
        assert(spec_greek_or_text(name) == "\\Omega"@);
    }
}

proof fn lemma_latex_leaf(t: Term, op: BinOp)
    requires
        is_simple(t),
    ensures
        latex_child(t, op) == latex(t),
{
}

/// On leaves (numbers, names, constants, fields) `l` and `r`: `l + r`,
/// `l - r`, `l r` (juxtaposed), `\frac{l}{r}`, `{l}^{r}`, and the functions
/// as their LaTeX commands with the argument in brackets (`\sqrt{l}`,
/// `\left| l \right|`).
pub proof fn law_latex_operators(l: Term, r: Term)
    requires
        is_simple(l),
        is_simple(r),
    ensures
        latex(bin(BinOp::Add, l, r)) == latex(l) + " + "@ + latex(r),
        latex(bin(BinOp::Sub, l, r)) == latex(l) + " - "@ + latex(r),
        latex(bin(BinOp::Mul, l, r)) == latex(l) + " "@ + latex(r),
        latex(bin(BinOp::Div, l, r)) == "\\frac{"@ + latex(l) + "}{"@ + latex(r) + "}"@,
        latex(bin(BinOp::Pow, l, r)) == "{"@ + latex(l) + "}^{"@ + latex(r) + "}"@,
        latex(un(UnOp::Neg, l)) == "-"@ + latex(l),
        latex(un(UnOp::Abs, l)) == "\\left| "@ + latex(l) + " \\right|"@,
        latex(un(UnOp::Sqrt, l)) == "\\sqrt{"@ + latex(l) + "}"@,
        latex(un(UnOp::Sin, l)) == "\\sin\\left( "@ + latex(l) + " \\right)"@,
        latex(un(UnOp::Cos, l)) == "\\cos\\left( "@ + latex(l) + " \\right)"@,
        latex(un(UnOp::Exp, l)) == "\\exp\\left( "@ + latex(l) + " \\right)"@,
        latex(un(UnOp::Log, l)) == "\\ln\\left( "@ + latex(l) + " \\right)"@,
{
    lemma_latex_leaf(l, BinOp::Add);
    lemma_latex_leaf(l, BinOp::Sub);
    lemma_latex_leaf(l, BinOp::Mul);
    lemma_latex_leaf(l, BinOp::Pow);
    lemma_latex_leaf(r, BinOp::Add);
    lemma_latex_leaf(r, BinOp::Sub);
    lemma_latex_leaf(r, BinOp::Mul);
}

/// A sum or difference inside a product, or as the base of a power, is
/// bracketed with `\left( .. \right)`; a product of compound factors is
/// written with `\cdot`.
pub proof fn law_latex_grouping(l: Term, p: Term, q: Term, sum: BinOp)
    requires
        is_simple(l),
        sum == BinOp::Add || sum == BinOp::Sub,
    ensures
        latex(bin(BinOp::Mul, l, bin(sum, p, q))) == latex(l) + " \\cdot "@ + ("\\left( "@ + latex(
            bin(sum, p, q),
        ) + " \\right)"@),
        latex(bin(BinOp::Pow, bin(sum, p, q), l)) == "{"@ + ("\\left( "@ + latex(bin(sum, p, q))
            + " \\right)"@) + "}^{"@ + latex(l) + "}"@,
        latex(bin(BinOp::Add, l, bin(BinOp::Mul, p, q))) == latex(l) + " + "@ + latex(
            bin(BinOp::Mul, p, q),
        ),
{
    lemma_latex_leaf(l, BinOp::Mul);
    lemma_latex_leaf(l, BinOp::Add);
    assert(latex_child(bin(sum, p, q), BinOp::Mul) == "\\left( "@ + latex(bin(sum, p, q))
        + " \\right)"@);
    assert(latex_child(bin(sum, p, q), BinOp::Pow) == "\\left( "@ + latex(bin(sum, p, q))
        + " \\right)"@);
    assert(latex_child(bin(BinOp::Mul, p, q), BinOp::Add) == latex(bin(BinOp::Mul, p, q)));
}

} // verus!
