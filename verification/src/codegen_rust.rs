//! Rust source text from an expression tree.
use vstd::prelude::*;

use crate::ast::{lemma_view_exprs_take, view_expr, view_exprs, BinOp, DiffOperator, Expr, Term, TensorOperator, UnOp};
use crate::codegen_latex::{child_needs_parens, spec_child_needs_parens};
use crate::number::{num_text, push_num_text, Num};
use crate::parser::{bin, un};
use crate::text::{join, join_texts, str_eq};

verus! {

broadcast use vstd::string::group_string_axioms;

// ---------------------------------------------------------------------------
// specification
// ---------------------------------------------------------------------------

/// A float literal: whole numbers below `10^15` get a `.0` suffix.
pub open spec fn rust_number(n: Num) -> Seq<char> {
    if n.spec_is_integer_below(15) {
        num_text(n) + ".0"@
    } else {
        num_text(n)
    }
}

pub open spec fn rust_constant(name: Seq<char>) -> Seq<char> {
    if name == "pi"@ {
        "std::f64::consts::PI"@
    } else if name == "e"@ {
        "std::f64::consts::E"@
    } else {
        name
    }
}

pub open spec fn rust_symbol(op: BinOp) -> Seq<char> {
    match op {
        BinOp::Add => "+"@,
        BinOp::Sub => "-"@,
        BinOp::Mul => "*"@,
        BinOp::Div => "/"@,
        BinOp::Pow => "^"@,
    }
}

pub open spec fn rust_method(op: UnOp) -> Seq<char> {
    match op {
        UnOp::Neg => "neg"@,
        UnOp::Abs => "abs"@,
        UnOp::Sqrt => "sqrt"@,
        UnOp::Sin => "sin"@,
        UnOp::Cos => "cos"@,
        UnOp::Exp => "exp"@,
        UnOp::Log => "ln"@,
    }
}

pub open spec fn rust_diff_name(op: DiffOperator) -> Seq<char> {
    match op {
        DiffOperator::TimeDerivative => "ddt"@,
        DiffOperator::Gradient => "grad"@,
        DiffOperator::Divergence => "div"@,
        DiffOperator::Laplacian => "laplacian"@,
        DiffOperator::Curl => "curl"@,
    }
}

pub open spec fn rust_tensor_name(op: TensorOperator) -> Seq<char> {
    match op {
        TensorOperator::Dot => "dot"@,
        TensorOperator::Cross => "cross"@,
        TensorOperator::Outer => "outer"@,
        TensorOperator::Trace => "trace"@,
        TensorOperator::Transpose => "transpose"@,
        TensorOperator::Symmetric => "sym"@,
        TensorOperator::Skew => "skew"@,
        TensorOperator::Magnitude => "mag"@,
        TensorOperator::MagnitudeSqr => "mag_sqr"@,
        TensorOperator::Determinant => "det"@,
        TensorOperator::Inverse => "inv"@,
    }
}

pub open spec fn rust_list(ts: Seq<Term>) -> Seq<Seq<char>>
    decreases ts, 0nat,
{
    if ts.len() == 0 {
        Seq::empty()
    } else {
        rust_list(ts.drop_last()).push(rust(ts.last()))
    }
}

/// A child under `parent`, in parentheses when it binds more loosely.
pub open spec fn rust_paren(t: Term, parent: BinOp) -> Seq<char>
    decreases t, 2nat,
{
    match t {
        Term::BinaryOp { op, .. } => if spec_child_needs_parens(op, parent) {
            "("@ + rust(t) + ")"@
        } else {
            rust(t)
        },
        _ => rust(t),
    }
}

/// The Rust text of the term is a single postfix expression (a name, a
/// non-negative literal, a call or a method call), so a method call applied
/// to it applies to all of it.
pub open spec fn rust_postfix(t: Term) -> bool {
    match t {
        Term::Number(n) => n.mantissa() >= 0,
        Term::BinaryOp { op, .. } => op == BinOp::Pow,
        Term::UnaryOp { op, .. } => op != UnOp::Neg,
        Term::Conditional { .. } => false,
        _ => true,
    }
}

/// The receiver of a method call (a function applies to its whole
/// argument): in parentheses unless its text is a single postfix expression.
pub open spec fn rust_receiver(t: Term) -> Seq<char>
    decreases t, 2nat,
{
    if rust_postfix(t) {
        rust(t)
    } else {
        "("@ + rust(t) + ")"@
    }
}

/// A call `name(a, b, ..)`.
pub open spec fn rust_call(name: Seq<char>, args: Seq<Seq<char>>) -> Seq<char> {
    name + "("@ + join(args, ", "@) + ")"@
}

/// The Rust source text of a term.
pub open spec fn rust(t: Term) -> Seq<char>
    decreases t, 1nat,
{
    match t {
        Term::Number(n) => rust_number(n),
        Term::Variable(name) => name,
        Term::FieldRef(name) => "state."@ + name + "[cell_id]"@,
        Term::Constant(name) => rust_constant(name),
        Term::BinaryOp { op, left, right } => match op {
            BinOp::Pow => rust_receiver(*left) + ".powf("@ + rust_paren(*right, op) + ")"@,
            _ => rust_paren(*left, op) + " "@ + rust_symbol(op) + " "@ + rust_paren(*right, op),
        },
        Term::UnaryOp { op, operand } => match op {
            UnOp::Neg => "-"@ + rust(*operand),
            _ => rust_receiver(*operand) + "."@ + rust_method(op) + "()"@,
        },
        Term::FunctionCall { name, args } => rust_call(name, rust_list(args)),
        Term::Conditional { condition, true_val, false_val } => "if "@ + rust(*condition) + " { "@
            + rust(*true_val) + " } else { "@ + rust(*false_val) + " }"@,
        Term::DiffOp { op, operands } => rust_call(rust_diff_name(op), rust_list(operands)),
        Term::TensorOp { op, operands } => rust_call(rust_tensor_name(op), rust_list(operands)),
    }
}

// ---------------------------------------------------------------------------
// implementation
// ---------------------------------------------------------------------------

/// A number as a Rust float literal.
fn format_number(n: Num) -> (s: String)
    ensures
        s@ == rust_number(n),
{
    let mut s = String::new();
    push_num_text(&mut s, n);
    if n.is_integer_below(15) {
        s.append(".0");
    }
    s
}

fn emit_constant(name: &String) -> (s: String)
    ensures
        s@ == rust_constant(name@),
{
    if str_eq(name, "pi") {
        String::from_str("std::f64::consts::PI")
    } else if str_eq(name, "e") {
        String::from_str("std::f64::consts::E")
    } else {
        name.clone()
    }
}

fn symbol(op: BinOp) -> (s: &'static str)
    ensures
        s@ == rust_symbol(op),
{
    match op {
        BinOp::Add => "+",
        BinOp::Sub => "-",
        BinOp::Mul => "*",
        BinOp::Div => "/",
        BinOp::Pow => "^",
    }
}

fn method(op: UnOp) -> (s: &'static str)
    ensures
        s@ == rust_method(op),
{
    match op {
        UnOp::Neg => "neg",
        UnOp::Abs => "abs",
        UnOp::Sqrt => "sqrt",
        UnOp::Sin => "sin",
        UnOp::Cos => "cos",
        UnOp::Exp => "exp",
        UnOp::Log => "ln",
    }
}

fn diff_name(op: DiffOperator) -> (s: &'static str)
    ensures
        s@ == rust_diff_name(op),
{
    match op {
        DiffOperator::TimeDerivative => "ddt",
        DiffOperator::Gradient => "grad",
        DiffOperator::Divergence => "div",
        DiffOperator::Laplacian => "laplacian",
        DiffOperator::Curl => "curl",
    }
}

fn tensor_name(op: TensorOperator) -> (s: &'static str)
    ensures
        s@ == rust_tensor_name(op),
{
    match op {
        TensorOperator::Dot => "dot",
        TensorOperator::Cross => "cross",
        TensorOperator::Outer => "outer",
        TensorOperator::Trace => "trace",
        TensorOperator::Transpose => "transpose",
        TensorOperator::Symmetric => "sym",
        TensorOperator::Skew => "skew",
        TensorOperator::Magnitude => "mag",
        TensorOperator::MagnitudeSqr => "mag_sqr",
        TensorOperator::Determinant => "det",
        TensorOperator::Inverse => "inv",
    }
}

fn call(name: &str, args: &Vec<String>) -> (s: String)
    ensures
        s@ == rust_call(name@, args@.map_values(|a: String| a@)),
{
    let joined = join_texts(args, ", ");
    let mut s = String::from_str(name);
    s.append("(");
    s.append(joined.as_str());
    s.append(")");
    s
}

fn emit_list(es: &Vec<Expr>) -> (r: Vec<String>)
    ensures
        r@.map_values(|s: String| s@) == rust_list(view_exprs(es@)),
    decreases es, 0nat,
{
    let mut r: Vec<String> = Vec::new();
    let mut i: usize = 0;
    assert(r@.map_values(|s: String| s@) =~= rust_list(view_exprs(es@.take(0))));
    while i < es.len()
        invariant
            0 <= i <= es.len(),
            r@.map_values(|s: String| s@) == rust_list(view_exprs(es@.take(i as int))),
        decreases es.len() - i,
    {
        proof {
            assert(decreases_to!(es => es@[i as int]));
            lemma_view_exprs_take(es@, i as int);
            let prev = view_exprs(es@.take(i as int));
            assert(prev.push(view_expr(es@[i as int])).drop_last() =~= prev);
        }
        let t = emit(&es[i]);
        let ghost before = r@;
        r.push(t);
        proof {
            assert(r@.map_values(|s: String| s@) =~= before.map_values(|s: String| s@).push(t@));
        }
        i = i + 1;
    }
    proof {
        assert(es@.take(es.len() as int) =~= es@);
    }
    r
}

fn emit_paren(e: &Expr, parent: BinOp) -> (s: String)
    ensures
        s@ == rust_paren(e@, parent),
    decreases e, 2nat,
{
    let inner = emit(e);
    match e {
        Expr::BinaryOp { op, .. } => {
            if child_needs_parens(*op, parent) {
                let mut s = String::from_str("(");
                s.append(inner.as_str());
                s.append(")");
                s
            } else {
                inner
            }
        },
        _ => inner,
    }
}

fn is_postfix(e: &Expr) -> (b: bool)
    ensures
        b == rust_postfix(e@),
{
    match e {
        Expr::Number(n) => !n.is_negative(),
        Expr::BinaryOp { op, .. } => *op == BinOp::Pow,
        Expr::UnaryOp { op, .. } => *op != UnOp::Neg,
        Expr::Conditional { .. } => false,
        _ => true,
    }
}

fn emit_receiver(e: &Expr) -> (s: String)
    ensures
        s@ == rust_receiver(e@),
    decreases e, 2nat,
{
    let inner = emit(e);
    if is_postfix(e) {
        inner
    } else {
        let mut s = String::from_str("(");
        s.append(inner.as_str());
        s.append(")");
        s
    }
}

fn emit(e: &Expr) -> (s: String)
    ensures
        s@ == rust(e@),
    decreases e, 1nat,
{
    match e {
        Expr::Number(n) => format_number(*n),
        Expr::Variable(name) => name.clone(),
        Expr::FieldRef(name) => {
            let mut s = String::from_str("state.");
            s.append(name.as_str());
            s.append("[cell_id]");
            s
        },
        Expr::Constant(name) => emit_constant(name),
        Expr::BinaryOp { op, left, right } => {
            match op {
                BinOp::Pow => {
                    let mut s = emit_receiver(left);
                    let r = emit_paren(right, *op);
                    s.append(".powf(");
                    s.append(r.as_str());
                    s.append(")");
                    s
                },
                _ => {
                    let mut s = emit_paren(left, *op);
                    let r = emit_paren(right, *op);
                    s.append(" ");
                    s.append(symbol(*op));
                    s.append(" ");
                    s.append(r.as_str());
                    s
                },
            }
        },
        Expr::UnaryOp { op, operand } => {
            match op {
                UnOp::Neg => {
                    let inner = emit(operand);
                    let mut s = String::from_str("-");
                    s.append(inner.as_str());
                    s
                },
                _ => {
                    let mut s = emit_receiver(operand);
                    s.append(".");
                    s.append(method(*op));
                    s.append("()");
                    s
                },
            }
        },
        Expr::FunctionCall { name, args } => {
            let parts = emit_list(args);
            call(name.as_str(), &parts)
        },
        Expr::Conditional { condition, true_val, false_val } => {
            let c = emit(condition);
            let t = emit(true_val);
            let f = emit(false_val);
            let mut s = String::from_str("if ");
            s.append(c.as_str());
            s.append(" { ");
            s.append(t.as_str());
            s.append(" } else { ");
            s.append(f.as_str());
            s.append(" }");
            s
        },
        Expr::DiffOp { op, operands } => {
            let parts = emit_list(operands);
            call(diff_name(*op), &parts)
        },
        Expr::TensorOp { op, operands } => {
            let parts = emit_list(operands);
            call(tensor_name(*op), &parts)
        },
    }
}

/// Convert an expression to Rust source text.
pub fn to_rust(expr: &Expr) -> (s: String)
    ensures
        s@ == rust(expr@),
{
    emit(expr)
}


// ---------------------------------------------------------------------------
// laws
// ---------------------------------------------------------------------------

/// On two variables `a` and `b`, each operator is the Rust operator of the
/// same meaning (`a.powf(b)` for powers), negation is a leading `-`, and
/// each function is the `f64` method of that function (`ln` for logarithms).
pub proof fn law_rust_operators(a: Seq<char>, b: Seq<char>)
    ensures
        ({
            let (x, y) = (Term::Variable(a), Term::Variable(b));
            &&& rust(bin(BinOp::Add, x, y)) == a + " + "@ + b
            &&& rust(bin(BinOp::Sub, x, y)) == a + " - "@ + b
            &&& rust(bin(BinOp::Mul, x, y)) == a + " * "@ + b
            &&& rust(bin(BinOp::Div, x, y)) == a + " / "@ + b
            &&& rust(bin(BinOp::Pow, x, y)) == a + ".powf("@ + b + ")"@
            &&& rust(un(UnOp::Neg, x)) == "-"@ + a
            &&& rust(un(UnOp::Abs, x)) == a + ".abs()"@
            &&& rust(un(UnOp::Sqrt, x)) == a + ".sqrt()"@
            &&& rust(un(UnOp::Sin, x)) == a + ".sin()"@
            &&& rust(un(UnOp::Cos, x)) == a + ".cos()"@
            &&& rust(un(UnOp::Exp, x)) == a + ".exp()"@
            &&& rust(un(UnOp::Log, x)) == a + ".ln()"@
        }),
{
    let (x, y) = (Term::Variable(a), Term::Variable(b));
    reveal_strlit("+");
    reveal_strlit(" + ");
    reveal_strlit("-");
    reveal_strlit(" - ");
    reveal_strlit("*");
    reveal_strlit(" * ");
    reveal_strlit("/");
    reveal_strlit(" / ");
    reveal_strlit(".powf(");
    reveal_strlit(")");
    reveal_strlit("abs");
    reveal_strlit(".abs()");
    reveal_strlit("sqrt");
    reveal_strlit(".sqrt()");
    reveal_strlit("sin");
    reveal_strlit(".sin()");
    reveal_strlit("cos");
    reveal_strlit(".cos()");
    reveal_strlit("exp");
    reveal_strlit(".exp()");
    reveal_strlit("ln");
    reveal_strlit(".ln()");
    reveal_strlit(" ");
    reveal_strlit(".");
    reveal_strlit("()");
    reveal_strlit("-");
    lemma_rust_un_names(UnOp::Neg, a, b);
    lemma_rust_un_names(UnOp::Abs, a, b);
    assert(a + "."@ + "abs"@ + "()"@ =~= a + ".abs()"@);
    lemma_rust_un_names(UnOp::Sqrt, a, b);
    assert(a + "."@ + "sqrt"@ + "()"@ =~= a + ".sqrt()"@);
    lemma_rust_un_names(UnOp::Sin, a, b);
    assert(a + "."@ + "sin"@ + "()"@ =~= a + ".sin()"@);
    lemma_rust_un_names(UnOp::Cos, a, b);
    assert(a + "."@ + "cos"@ + "()"@ =~= a + ".cos()"@);
    lemma_rust_un_names(UnOp::Exp, a, b);
    assert(a + "."@ + "exp"@ + "()"@ =~= a + ".exp()"@);
    lemma_rust_un_names(UnOp::Log, a, b);
    assert(a + "."@ + "ln"@ + "()"@ =~= a + ".ln()"@);
    lemma_rust_bin_names(BinOp::Add, a, b);
    assert(" "@ + "+"@ + " "@ =~= " + "@);
    assert(a + " "@ + "+"@ + " "@ + b =~= a + (" "@ + "+"@ + " "@) + b);
    lemma_rust_bin_names(BinOp::Sub, a, b);
    assert(" "@ + "-"@ + " "@ =~= " - "@);
    assert(a + " "@ + "-"@ + " "@ + b =~= a + (" "@ + "-"@ + " "@) + b);
    lemma_rust_bin_names(BinOp::Mul, a, b);
    assert(" "@ + "*"@ + " "@ =~= " * "@);
    assert(a + " "@ + "*"@ + " "@ + b =~= a + (" "@ + "*"@ + " "@) + b);
    lemma_rust_bin_names(BinOp::Div, a, b);
    assert(" "@ + "/"@ + " "@ =~= " / "@);
    assert(a + " "@ + "/"@ + " "@ + b =~= a + (" "@ + "/"@ + " "@) + b);
}

proof fn lemma_rust_bin_names(op: BinOp, a: Seq<char>, b: Seq<char>)
    requires
        op != BinOp::Pow,
    ensures
        rust(bin(op, Term::Variable(a), Term::Variable(b))) == a + " "@ + rust_symbol(op) + " "@ + b,
{
    assert(rust_paren(Term::Variable(a), op) == a);
    assert(rust_paren(Term::Variable(b), op) == b);
}

proof fn lemma_rust_un_names(op: UnOp, a: Seq<char>, b: Seq<char>)
    ensures
        op != UnOp::Neg ==> rust(un(op, Term::Variable(a))) == a + "."@ + rust_method(op) + "()"@,
        rust(un(UnOp::Neg, Term::Variable(a))) == "-"@ + a,
        rust(bin(BinOp::Pow, Term::Variable(a), Term::Variable(b))) == a + ".powf("@ + b + ")"@,
{
    assert(rust(Term::Variable(a)) == a);
    assert(rust_receiver(Term::Variable(a)) == a);
    assert(rust_paren(Term::Variable(b), BinOp::Pow) == b);
}

proof fn lemma_rust_lists(x: Term, y: Term)
    ensures
        rust_list(seq![x]) == seq![rust(x)],
        rust_list(seq![x, y]) == seq![rust(x), rust(y)],
        join(seq![rust(x)], ", "@) == rust(x),
        join(seq![rust(x), rust(y)], ", "@) == rust(x) + ", "@ + rust(y),
{
    let e = Seq::<Term>::empty();
    assert(rust_list(e) =~= Seq::<Seq<char>>::empty());
    assert(seq![x].drop_last() =~= e);
    assert(rust_list(seq![x]) =~= seq![rust(x)]);
    assert(seq![x, y].drop_last() =~= seq![x]);
    assert(rust_list(seq![x, y]) =~= seq![rust(x), rust(y)]);
    let ss = seq![rust(x), rust(y)];
    assert(ss.drop_last() =~= seq![rust(x)]);
    assert(join(seq![rust(x)], ", "@) == rust(x));
}

/// The differential and tensor operators are calls of the functions of
/// the same names on their operands' code.
pub proof fn law_rust_operator_calls(a: Seq<char>, b: Seq<char>)
    ensures
        ({
            let (x, y) = (Term::Variable(a), Term::Variable(b));
            &&& rust(Term::DiffOp { op: DiffOperator::TimeDerivative, operands: seq![x] }) == "ddt("@ + a + ")"@
            &&& rust(Term::DiffOp { op: DiffOperator::Gradient, operands: seq![x] }) == "grad("@ + a + ")"@
            &&& rust(Term::DiffOp { op: DiffOperator::Divergence, operands: seq![x] }) == "div("@ + a + ")"@
            &&& rust(Term::DiffOp { op: DiffOperator::Laplacian, operands: seq![x] }) == "laplacian("@ + a + ")"@
            &&& rust(Term::DiffOp { op: DiffOperator::Curl, operands: seq![x] }) == "curl("@ + a + ")"@
            &&& rust(Term::DiffOp { op: DiffOperator::Laplacian, operands: seq![x, y] }) == "laplacian("@ + a + ", "@ + b + ")"@
            &&& rust(Term::TensorOp { op: TensorOperator::Trace, operands: seq![x] }) == "trace("@ + a + ")"@
            &&& rust(Term::TensorOp { op: TensorOperator::Transpose, operands: seq![x] }) == "transpose("@ + a + ")"@
            &&& rust(Term::TensorOp { op: TensorOperator::Symmetric, operands: seq![x] }) == "sym("@ + a + ")"@
            &&& rust(Term::TensorOp { op: TensorOperator::Skew, operands: seq![x] }) == "skew("@ + a + ")"@
            &&& rust(Term::TensorOp { op: TensorOperator::Magnitude, operands: seq![x] }) == "mag("@ + a + ")"@
            &&& rust(Term::TensorOp { op: TensorOperator::MagnitudeSqr, operands: seq![x] }) == "mag_sqr("@ + a + ")"@
            &&& rust(Term::TensorOp { op: TensorOperator::Determinant, operands: seq![x] }) == "det("@ + a + ")"@
            &&& rust(Term::TensorOp { op: TensorOperator::Inverse, operands: seq![x] }) == "inv("@ + a + ")"@
            &&& rust(Term::TensorOp { op: TensorOperator::Dot, operands: seq![x, y] }) == "dot("@ + a + ", "@ + b + ")"@
            &&& rust(Term::TensorOp { op: TensorOperator::Cross, operands: seq![x, y] }) == "cross("@ + a + ", "@ + b + ")"@
            &&& rust(Term::TensorOp { op: TensorOperator::Outer, operands: seq![x, y] }) == "outer("@ + a + ", "@ + b + ")"@
        }),
{
    let (x, y) = (Term::Variable(a), Term::Variable(b));
    lemma_rust_lists(x, y);
    reveal_strlit("(");
    reveal_strlit(")");
    reveal_strlit(", ");
    reveal_strlit("ddt");
    reveal_strlit("ddt(");
    reveal_strlit("grad");
    reveal_strlit("grad(");
    reveal_strlit("div");
    reveal_strlit("div(");
    reveal_strlit("laplacian");
    reveal_strlit("laplacian(");
    reveal_strlit("curl");
    reveal_strlit("curl(");
    reveal_strlit("trace");
    reveal_strlit("trace(");
    reveal_strlit("transpose");
    reveal_strlit("transpose(");
    reveal_strlit("sym");
    reveal_strlit("sym(");
    reveal_strlit("skew");
    reveal_strlit("skew(");
    reveal_strlit("mag");
    reveal_strlit("mag(");
    reveal_strlit("mag_sqr");
    reveal_strlit("mag_sqr(");
    reveal_strlit("det");
    reveal_strlit("det(");
    reveal_strlit("inv");
    reveal_strlit("inv(");
    reveal_strlit("dot");
    reveal_strlit("dot(");
    reveal_strlit("cross");
    reveal_strlit("cross(");
    reveal_strlit("outer");
    reveal_strlit("outer(");
}

/// A sum or difference inside a product or quotient is bracketed, and a
/// product or quotient inside a sum or difference is not; a method call on
/// a sum applies to the whole, bracketed sum.
pub proof fn law_rust_grouping(a: Seq<char>, p: Term, q: Term, sum: BinOp, product: BinOp)
    requires
        sum == BinOp::Add || sum == BinOp::Sub,
        product == BinOp::Mul || product == BinOp::Div,
    ensures
        rust(bin(product, Term::Variable(a), bin(sum, p, q))) == a + " "@ + rust_symbol(product) + " ("@
            + rust(bin(sum, p, q)) + ")"@,
        rust(bin(sum, Term::Variable(a), bin(product, p, q))) == a + " "@ + rust_symbol(sum) + " "@
            + rust(bin(product, p, q)),
        rust(un(UnOp::Sin, bin(sum, p, q))) == "("@ + rust(bin(sum, p, q)) + ").sin()"@,
        rust(bin(BinOp::Pow, bin(sum, p, q), Term::Variable(a))) == "("@ + rust(bin(sum, p, q))
            + ").powf("@ + a + ")"@,
{
    reveal_strlit(" (");
    reveal_strlit("(");
    reveal_strlit(")");
    reveal_strlit(" ");
    reveal_strlit(").sin()");
    reveal_strlit(".sin()");
    reveal_strlit(".");
    reveal_strlit("sin");
    reveal_strlit("()");
    reveal_strlit(").powf(");
    reveal_strlit(".powf(");
    let inner = bin(sum, p, q);
    assert(rust_paren(inner, product) == "("@ + rust(inner) + ")"@);
    assert(rust_paren(bin(product, p, q), sum) == rust(bin(product, p, q)));
    assert(rust_receiver(inner) == "("@ + rust(inner) + ")"@);
    let sym = rust_symbol(product);
    assert(rust(Term::Variable(a)) == a);
    assert(rust_paren(Term::Variable(a), product) == a);
    assert(rust_paren(Term::Variable(a), sum) == a);
    assert(rust_paren(Term::Variable(a), BinOp::Pow) == a);
    assert(rust(bin(product, Term::Variable(a), inner)) == a + " "@ + sym + " "@ + ("("@ + rust(inner) + ")"@));
    assert(" "@ + "("@ =~= " ("@);
    assert(a + " "@ + sym + " "@ + ("("@ + rust(inner) + ")"@) =~= a + " "@ + sym + (" "@ + "("@)
        + rust(inner) + ")"@);
    assert(rust(un(UnOp::Sin, inner)) =~= "("@ + rust(inner) + ").sin()"@);
    assert(rust(bin(BinOp::Pow, inner, Term::Variable(a))) == ("("@ + rust(inner) + ")"@) + ".powf("@
        + a + ")"@);
    assert(")"@ + ".powf("@ =~= ").powf("@);
    assert(("("@ + rust(inner) + ")"@) + ".powf("@ + a + ")"@ =~= "("@ + rust(inner) + (")"@
        + ".powf("@) + a + ")"@);
}

} // verus!
