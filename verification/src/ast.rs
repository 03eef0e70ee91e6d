//! Abstract syntax tree of expressions, its mathematical view, and SI units.
use vstd::prelude::*;

use crate::number::Num;

verus! {

/// Binary arithmetic / power operators.
#[derive(Debug, Clone, Copy, PartialEq, Eq, Structural)]
pub enum BinOp {
    Add,
    Sub,
    Mul,
    Div,
    Pow,
}

/// Unary operators / single-argument built-in functions.
#[derive(Debug, Clone, Copy, PartialEq, Eq, Structural)]
pub enum UnOp {
    Neg,
    Abs,
    Sqrt,
    Sin,
    Cos,
    Exp,
    Log,
}

/// Differential operators used in PDE notation.
#[derive(Debug, Clone, Copy, PartialEq, Eq, Structural)]
pub enum DiffOperator {
    TimeDerivative,
    Gradient,
    Divergence,
    Laplacian,
    Curl,
}

/// Tensor algebra operators.
#[derive(Debug, Clone, Copy, PartialEq, Eq, Structural)]
pub enum TensorOperator {
    Dot,
    Cross,
    Outer,
    Trace,
    Transpose,
    Symmetric,
    Skew,
    Magnitude,
    MagnitudeSqr,
    Determinant,
    Inverse,
}

/// Expression tree.
#[derive(Debug, PartialEq)]
#[allow(inconsistent_fields)]
pub enum Expr {
    /// Literal number.
    Number(Num),
    /// Named variable (e.g. `x`, `T`).
    Variable(String),
    /// Field reference written with a `$` prefix (e.g. `$rho`).
    FieldRef(String),
    /// Named mathematical constant (`pi`, `e`).
    Constant(String),
    /// Binary operation.
    BinaryOp { op: BinOp, left: Box<Expr>, right: Box<Expr> },
    /// Unary operation / built-in single-argument function.
    UnaryOp { op: UnOp, operand: Box<Expr> },
    /// Generic function call (e.g. `max(a, b)`).
    FunctionCall { name: String, args: Vec<Expr> },
    /// Conditional `if(cond, true_val, false_val)`.
    Conditional { condition: Box<Expr>, true_val: Box<Expr>, false_val: Box<Expr> },
    /// Differential operator applied to operands.
    DiffOp { op: DiffOperator, operands: Vec<Expr> },
    /// Tensor operator applied to operands.
    TensorOp { op: TensorOperator, operands: Vec<Expr> },
}

/// The mathematical value of an [`Expr`]: names are character sequences.
#[allow(inconsistent_fields)]
pub enum Term {
    Number(Num),
    Variable(Seq<char>),
    FieldRef(Seq<char>),
    Constant(Seq<char>),
    BinaryOp { op: BinOp, left: Box<Term>, right: Box<Term> },
    UnaryOp { op: UnOp, operand: Box<Term> },
    FunctionCall { name: Seq<char>, args: Seq<Term> },
    Conditional { condition: Box<Term>, true_val: Box<Term>, false_val: Box<Term> },
    DiffOp { op: DiffOperator, operands: Seq<Term> },
    TensorOp { op: TensorOperator, operands: Seq<Term> },
}

pub open spec fn view_exprs(es: Seq<Expr>) -> Seq<Term>
    decreases es, 0nat,
{
    if es.len() == 0 {
        Seq::empty()
    } else {
        view_exprs(es.drop_last()).push(view_expr(es.last()))
    }
}

pub open spec fn view_expr(e: Expr) -> Term
    decreases e, 1nat,
{
    match e {
        Expr::Number(n) => Term::Number(n),
        Expr::Variable(s) => Term::Variable(s@),
        Expr::FieldRef(s) => Term::FieldRef(s@),
        Expr::Constant(s) => Term::Constant(s@),
        Expr::BinaryOp { op, left, right } => Term::BinaryOp {
            op,
            left: Box::new(view_expr(*left)),
            right: Box::new(view_expr(*right)),
        },
        Expr::UnaryOp { op, operand } => Term::UnaryOp { op, operand: Box::new(view_expr(*operand)) },
        Expr::FunctionCall { name, args } => Term::FunctionCall {
            name: name@,
            args: view_exprs(args@),
        },
        Expr::Conditional { condition, true_val, false_val } => Term::Conditional {
            condition: Box::new(view_expr(*condition)),
            true_val: Box::new(view_expr(*true_val)),
            false_val: Box::new(view_expr(*false_val)),
        },
        Expr::DiffOp { op, operands } => Term::DiffOp { op, operands: view_exprs(operands@) },
        Expr::TensorOp { op, operands } => Term::TensorOp { op, operands: view_exprs(operands@) },
    }
}

/// Every number in the term is in canonical form, as every number held by
/// an [`Expr`] is.
pub open spec fn term_wf(t: Term) -> bool
    decreases t, 1nat,
{
    match t {
        Term::Number(n) => n.wf(),
        Term::BinaryOp { left, right, .. } => term_wf(*left) && term_wf(*right),
        Term::UnaryOp { operand, .. } => term_wf(*operand),
        Term::FunctionCall { args, .. } => terms_wf(args),
        Term::Conditional { condition, true_val, false_val } => term_wf(*condition) && term_wf(
            *true_val,
        ) && term_wf(*false_val),
        Term::DiffOp { operands, .. } => terms_wf(operands),
        Term::TensorOp { operands, .. } => terms_wf(operands),
        _ => true,
    }
}

pub open spec fn terms_wf(ts: Seq<Term>) -> bool
    decreases ts, 0nat,
{
    if ts.len() == 0 {
        true
    } else {
        terms_wf(ts.drop_last()) && term_wf(ts.last())
    }
}

impl View for Expr {
    type V = Term;

    open spec fn view(&self) -> Term {
        view_expr(*self)
    }
}

pub proof fn lemma_view_exprs(es: Seq<Expr>)
    ensures
        view_exprs(es).len() == es.len(),
        forall|i: int| 0 <= i < es.len() ==> #[trigger] view_exprs(es)[i] == view_expr(es[i]),
    decreases es.len(),
{
    if es.len() > 0 {
        lemma_view_exprs(es.drop_last());
    }
}

pub proof fn lemma_view_exprs_take(es: Seq<Expr>, i: int)
    requires
        0 <= i < es.len(),
    ensures
        view_exprs(es.take(i + 1)) == view_exprs(es.take(i)).push(view_expr(es[i])),
{
    assert(es.take(i + 1).drop_last() =~= es.take(i));
}

pub proof fn lemma_view_exprs_push(es: Seq<Expr>, e: Expr)
    ensures
        view_exprs(es.push(e)) == view_exprs(es).push(view_expr(e)),
{
    assert(es.push(e).drop_last() =~= es);
}

impl Expr {
    /// Shorthand for `Expr::Number`.
    pub fn num(v: Num) -> (r: Expr)
        ensures
            r@ == Term::Number(v),
    {
        Expr::Number(v)
    }

    /// Shorthand for `Expr::Variable`.
    pub fn var(name: &str) -> (r: Expr)
        ensures
            r@ == Term::Variable(name@),
    {
        Expr::Variable(String::from_str(name))
    }

    /// Shorthand for `Expr::FieldRef`.
    pub fn field(name: &str) -> (r: Expr)
        ensures
            r@ == Term::FieldRef(name@),
    {
        Expr::FieldRef(String::from_str(name))
    }

    /// Shorthand: build a binary op node.
    pub fn binop(op: BinOp, left: Expr, right: Expr) -> (r: Expr)
        ensures
            r@ == (Term::BinaryOp { op, left: Box::new(left@), right: Box::new(right@) }),
    {
        Expr::BinaryOp { op, left: Box::new(left), right: Box::new(right) }
    }

    /// Shorthand: build a unary op node.
    pub fn unaryop(op: UnOp, operand: Expr) -> (r: Expr)
        ensures
            r@ == (Term::UnaryOp { op, operand: Box::new(operand@) }),
    {
        Expr::UnaryOp { op, operand: Box::new(operand) }
    }
}

/// A copy of a string with the same characters.
pub fn copy_string(s: &String) -> (r: String)
    ensures
        r@ == s@,
{
    s.clone()
}

/// A copy of an expression with the same view.
pub fn copy_expr(e: &Expr) -> (r: Expr)
    ensures
        r@ == e@,
    decreases e,
{
    match e {
        Expr::Number(n) => Expr::Number(*n),
        Expr::Variable(s) => Expr::Variable(copy_string(s)),
        Expr::FieldRef(s) => Expr::FieldRef(copy_string(s)),
        Expr::Constant(s) => Expr::Constant(copy_string(s)),
        Expr::BinaryOp { op, left, right } => Expr::BinaryOp {
            op: *op,
            left: Box::new(copy_expr(left)),
            right: Box::new(copy_expr(right)),
        },
        Expr::UnaryOp { op, operand } => Expr::UnaryOp {
            op: *op,
            operand: Box::new(copy_expr(operand)),
        },
        Expr::FunctionCall { name, args } => Expr::FunctionCall {
            name: copy_string(name),
            args: copy_exprs(args),
        },
        Expr::Conditional { condition, true_val, false_val } => Expr::Conditional {
            condition: Box::new(copy_expr(condition)),
            true_val: Box::new(copy_expr(true_val)),
            false_val: Box::new(copy_expr(false_val)),
        },
        Expr::DiffOp { op, operands } => Expr::DiffOp { op: *op, operands: copy_exprs(operands) },
        Expr::TensorOp { op, operands } => Expr::TensorOp { op: *op, operands: copy_exprs(operands) },
    }
}

/// A copy of a list of expressions with the same view.
pub fn copy_exprs(es: &Vec<Expr>) -> (r: Vec<Expr>)
    ensures
        view_exprs(r@) == view_exprs(es@),
    decreases es,
{
    let mut r: Vec<Expr> = Vec::new();
    let mut i: usize = 0;
    while i < es.len()
        invariant
            0 <= i <= es.len(),
            view_exprs(r@) == view_exprs(es@.take(i as int)),
        decreases es.len() - i,
    {
        proof {
            assert(decreases_to!(es => es@[i as int]));
        }
        let c = copy_expr(&es[i]);
        proof {
            lemma_view_exprs_push(r@, c);
            lemma_view_exprs_take(es@, i as int);
        }
        r.push(c);
        i = i + 1;
    }
    proof {
        assert(es@.take(es.len() as int) =~= es@);
    }
    r
}

/// Whether two expressions are the same tree (same view).
pub fn expr_eq(a: &Expr, b: &Expr) -> (r: bool)
    ensures
        r == (a@ == b@),
    decreases a,
{
    match (a, b) {
        (Expr::Number(x), Expr::Number(y)) => *x == *y,
        (Expr::Variable(x), Expr::Variable(y)) => *x == *y,
        (Expr::FieldRef(x), Expr::FieldRef(y)) => *x == *y,
        (Expr::Constant(x), Expr::Constant(y)) => *x == *y,
        (
            Expr::BinaryOp { op: o1, left: l1, right: r1 },
            Expr::BinaryOp { op: o2, left: l2, right: r2 },
        ) => *o1 == *o2 && expr_eq(l1, l2) && expr_eq(r1, r2),
        (Expr::UnaryOp { op: o1, operand: x1 }, Expr::UnaryOp { op: o2, operand: x2 }) => *o1
            == *o2 && expr_eq(x1, x2),
        (
            Expr::FunctionCall { name: n1, args: a1 },
            Expr::FunctionCall { name: n2, args: a2 },
        ) => *n1 == *n2 && exprs_eq(a1, a2),
        (
            Expr::Conditional { condition: c1, true_val: t1, false_val: f1 },
            Expr::Conditional { condition: c2, true_val: t2, false_val: f2 },
        ) => expr_eq(c1, c2) && expr_eq(t1, t2) && expr_eq(f1, f2),
        (Expr::DiffOp { op: o1, operands: a1 }, Expr::DiffOp { op: o2, operands: a2 }) => *o1
            == *o2 && exprs_eq(a1, a2),
        (Expr::TensorOp { op: o1, operands: a1 }, Expr::TensorOp { op: o2, operands: a2 }) => *o1
            == *o2 && exprs_eq(a1, a2),
        _ => false,
    }
}

/// Whether two lists of expressions have the same views.
pub fn exprs_eq(a: &Vec<Expr>, b: &Vec<Expr>) -> (r: bool)
    ensures
        r == (view_exprs(a@) == view_exprs(b@)),
    decreases a,
{
    proof {
        lemma_view_exprs(a@);
        lemma_view_exprs(b@);
    }
    if a.len() != b.len() {
        return false;
    }
    let mut i: usize = 0;
    while i < a.len()
        invariant
            a.len() == b.len(),
            0 <= i <= a.len(),
            view_exprs(a@).len() == a.len(),
            view_exprs(b@).len() == b.len(),
            forall|j: int| 0 <= j < a.len() ==> #[trigger] view_exprs(a@)[j] == view_expr(a@[j]),
            forall|j: int| 0 <= j < b.len() ==> #[trigger] view_exprs(b@)[j] == view_expr(b@[j]),
            forall|j: int| 0 <= j < i ==> view_exprs(a@)[j] == view_exprs(b@)[j],
        decreases a.len() - i,
    {
        proof {
            assert(decreases_to!(a => a@[i as int]));
        }
        if !expr_eq(&a[i], &b[i]) {
            proof {
                assert(view_exprs(a@)[i as int] != view_exprs(b@)[i as int]);
            }
            return false;
        }
        i = i + 1;
    }
    proof {
        assert(view_exprs(a@) =~= view_exprs(b@));
    }
    true
}

// ---- dimensional analysis ------------------------------------------------

/// SI unit expressed as a product of base-dimension powers.
///
/// For example, velocity (m/s) is `Unit { kg: 0, m: 1, s: -1, k: 0, mol: 0 }`.
#[derive(Debug, Clone, Copy, PartialEq, Eq, Structural)]
pub struct Unit {
    pub kg: i8,
    pub m: i8,
    pub s: i8,
    pub k: i8,
    pub mol: i8,
}

pub open spec fn in_i8(x: int) -> bool {
    i8::MIN <= x <= i8::MAX
}

/// Exponents of `a * b` fit.
pub open spec fn unit_mul_fits(a: Unit, b: Unit) -> bool {
    &&& in_i8(a.kg + b.kg)
    &&& in_i8(a.m + b.m)
    &&& in_i8(a.s + b.s)
    &&& in_i8(a.k + b.k)
    &&& in_i8(a.mol + b.mol)
}

/// Exponents of `a / b` fit.
pub open spec fn unit_div_fits(a: Unit, b: Unit) -> bool {
    &&& in_i8(a.kg - b.kg)
    &&& in_i8(a.m - b.m)
    &&& in_i8(a.s - b.s)
    &&& in_i8(a.k - b.k)
    &&& in_i8(a.mol - b.mol)
}

/// Exponents of `a^n` fit.
pub open spec fn unit_pow_fits(a: Unit, n: int) -> bool {
    &&& in_i8(a.kg * n)
    &&& in_i8(a.m * n)
    &&& in_i8(a.s * n)
    &&& in_i8(a.k * n)
    &&& in_i8(a.mol * n)
}

pub open spec fn spec_unit_mul(a: Unit, b: Unit) -> Unit {
    Unit {
        kg: (a.kg + b.kg) as i8,
        m: (a.m + b.m) as i8,
        s: (a.s + b.s) as i8,
        k: (a.k + b.k) as i8,
        mol: (a.mol + b.mol) as i8,
    }
}

pub open spec fn spec_unit_div(a: Unit, b: Unit) -> Unit {
    Unit {
        kg: (a.kg - b.kg) as i8,
        m: (a.m - b.m) as i8,
        s: (a.s - b.s) as i8,
        k: (a.k - b.k) as i8,
        mol: (a.mol - b.mol) as i8,
    }
}

pub open spec fn spec_unit_pow(a: Unit, n: int) -> Unit {
    Unit {
        kg: (a.kg * n) as i8,
        m: (a.m * n) as i8,
        s: (a.s * n) as i8,
        k: (a.k * n) as i8,
        mol: (a.mol * n) as i8,
    }
}

pub open spec fn spec_dimensionless() -> Unit {
    Unit { kg: 0, m: 0, s: 0, k: 0, mol: 0 }
}

pub open spec fn spec_is_dimensionless(u: Unit) -> bool {
    u.kg == 0 && u.m == 0 && u.s == 0 && u.k == 0 && u.mol == 0
}

impl Unit {
    /// Dimensionless (all powers zero).
    pub fn dimensionless() -> (u: Unit)
        ensures
            u == spec_dimensionless(),
    {
        Unit { kg: 0, m: 0, s: 0, k: 0, mol: 0 }
    }

    pub fn new(kg: i8, m: i8, s: i8, k: i8, mol: i8) -> (u: Unit)
        ensures
            u == (Unit { kg, m, s, k, mol }),
    {
        Unit { kg, m, s, k, mol }
    }

    /// Multiply two units (add exponents).
    pub fn mul(self, other: Unit) -> (u: Unit)
        requires
            unit_mul_fits(self, other),
        ensures
            u == spec_unit_mul(self, other),
    {
        Unit {
            kg: self.kg + other.kg,
            m: self.m + other.m,
            s: self.s + other.s,
            k: self.k + other.k,
            mol: self.mol + other.mol,
        }
    }

    /// Divide two units (subtract exponents).
    pub fn div(self, other: Unit) -> (u: Unit)
        requires
            unit_div_fits(self, other),
        ensures
            u == spec_unit_div(self, other),
    {
        Unit {
            kg: self.kg - other.kg,
            m: self.m - other.m,
            s: self.s - other.s,
            k: self.k - other.k,
            mol: self.mol - other.mol,
        }
    }

    /// Raise a unit to an integer power.
    pub fn pow(self, n: i8) -> (u: Unit)
        requires
            unit_pow_fits(self, n as int),
        ensures
            u == spec_unit_pow(self, n as int),
    {
        Unit {
            kg: self.kg * n,
            m: self.m * n,
            s: self.s * n,
            k: self.k * n,
            mol: self.mol * n,
        }
    }

    /// Returns `true` when the unit is dimensionless.
    pub fn is_dimensionless(self) -> (b: bool)
        ensures
            b == spec_is_dimensionless(self),
    {
        self.kg == 0 && self.m == 0 && self.s == 0 && self.k == 0 && self.mol == 0
    }
}

/// Multiplying by a unit and dividing by it again gives back the unit.
pub proof fn law_unit_mul_div(a: Unit, b: Unit)
    requires
        unit_mul_fits(a, b),
    ensures
        unit_div_fits(spec_unit_mul(a, b), b),
        spec_unit_div(spec_unit_mul(a, b), b) == a,
{
}

/// Multiplication of units is commutative.
pub proof fn law_unit_mul_commutes(a: Unit, b: Unit)
    requires
        unit_mul_fits(a, b),
    ensures
        unit_mul_fits(b, a),
        spec_unit_mul(a, b) == spec_unit_mul(b, a),
{
}

/// The dimensionless unit is the identity of multiplication.
pub proof fn law_unit_mul_identity(a: Unit)
    ensures
        unit_mul_fits(a, spec_dimensionless()),
        spec_unit_mul(a, spec_dimensionless()) == a,
{
}

/// Squaring a unit is multiplying it by itself.
pub proof fn law_unit_pow_two(a: Unit)
    requires
        unit_mul_fits(a, a),
    ensures
        unit_pow_fits(a, 2),
        spec_unit_pow(a, 2) == spec_unit_mul(a, a),
{
}

} // verus!
