//! Multi-pass validation of expression trees.
use vstd::prelude::*;

use crate::ast::{
    lemma_view_exprs_take, view_expr, view_exprs, BinOp, DiffOperator, Expr, Term, TensorOperator,
    Unit,
};
use crate::dimension::{check_dimensions, infer, DimensionContext};
use crate::error::{error_text, ErrorView};
use crate::number::Num;
use crate::parser::bin;
use crate::text::{nat_text, push_nat, str_eq};

verus! {

broadcast use vstd::string::group_string_axioms;

// ---------------------------------------------------------------------------
// diagnostic types
// ---------------------------------------------------------------------------

/// Severity level for a diagnostic.
#[derive(Debug, Clone, Copy, PartialEq, Eq, Structural)]
pub enum DiagnosticLevel {
    Warning,
    Error,
}

/// A single diagnostic produced during validation.
#[derive(Debug, PartialEq)]
pub struct Diagnostic {
    pub level: DiagnosticLevel,
    pub message: String,
    /// Optional textual span / path indicating where the issue was found.
    pub span: Option<String>,
}

/// The mathematical value of a [`Diagnostic`].
pub struct DiagView {
    pub level: DiagnosticLevel,
    pub message: Seq<char>,
    pub span: Option<Seq<char>>,
}

impl View for Diagnostic {
    type V = DiagView;

    open spec fn view(&self) -> DiagView {
        DiagView {
            level: self.level,
            message: self.message@,
            span: match self.span {
                Some(s) => Some(s@),
                None => None,
            },
        }
    }
}

pub open spec fn view_diags(ds: Seq<Diagnostic>) -> Seq<DiagView> {
    ds.map_values(|d: Diagnostic| d@)
}

pub open spec fn err_diag(message: Seq<char>) -> DiagView {
    DiagView { level: DiagnosticLevel::Error, message, span: None }
}

pub open spec fn warn_diag(message: Seq<char>) -> DiagView {
    DiagView { level: DiagnosticLevel::Warning, message, span: None }
}

impl Diagnostic {
    pub fn error(message: &str) -> (d: Self)
        ensures
            d@ == err_diag(message@),
    {
        Diagnostic { level: DiagnosticLevel::Error, message: String::from_str(message), span: None }
    }

    pub fn warning(message: &str) -> (d: Self)
        ensures
            d@ == warn_diag(message@),
    {
        Diagnostic {
            level: DiagnosticLevel::Warning,
            message: String::from_str(message),
            span: None,
        }
    }

    pub fn with_span(self, span: &str) -> (d: Self)
        ensures
            d@ == (DiagView { span: Some(span@), ..self@ }),
    {
        Diagnostic { span: Some(String::from_str(span)), ..self }
    }
}

// ---------------------------------------------------------------------------
// validation context
// ---------------------------------------------------------------------------

/// The set of names held in a list.
pub open spec fn name_set(v: Seq<String>) -> Set<Seq<char>> {
    Set::new(|k: Seq<char>| exists|i: int| 0 <= i < v.len() && (#[trigger] v[i])@ == k)
}

/// Context supplied to the validator so it knows which names exist.
pub struct ValidationContext {
    /// Known variable names.
    pub known_variables: Vec<String>,
    /// Known field names (without the `$` prefix).
    pub known_fields: Vec<String>,
    /// Optional dimension context for unit checking.
    pub dimensions: Option<DimensionContext>,
}

fn contains_name(v: &Vec<String>, name: &String) -> (b: bool)
    ensures
        b == name_set(v@).contains(name@),
{
    let mut i: usize = 0;
    while i < v.len()
        invariant
            0 <= i <= v.len(),
            forall|j: int| 0 <= j < i ==> (#[trigger] v@[j])@ != name@,
        decreases v.len() - i,
    {
        if v[i] == *name {
            return true;
        }
        i = i + 1;
    }
    false
}

impl ValidationContext {
    pub fn new() -> (c: Self)
        ensures
            c.known_variables@.len() == 0,
            c.known_fields@.len() == 0,
            c.dimensions is None,
    {
        ValidationContext { known_variables: Vec::new(), known_fields: Vec::new(), dimensions: None }
    }

    pub fn add_variable(&mut self, name: &str) -> (r: &mut Self)
        ensures
            name_set((*r).known_variables@) == name_set(old(self).known_variables@).insert(name@),
            (*r).known_variables@.len() > 0,
            (*r).known_fields@ == old(self).known_fields@,
            (*r).dimensions == old(self).dimensions,
            *final(self) == *final(r),
    {
        let ghost old_v = self.known_variables@;
        self.known_variables.push(String::from_str(name));
        proof {
            let v = self.known_variables@;
            assert(v[v.len() - 1]@ == name@);
            assert forall|k: Seq<char>| name_set(v).contains(k) <==> name_set(old_v).insert(
                name@,
            ).contains(k) by {
                if name_set(old_v).contains(k) {
                    let i = choose|i: int| 0 <= i < old_v.len() && (#[trigger] old_v[i])@ == k;
                    assert(v[i] == old_v[i]);
                }
                if name_set(v).contains(k) && k != name@ {
                    let i = choose|i: int| 0 <= i < v.len() && (#[trigger] v[i])@ == k;
                    assert(old_v[i] == v[i]);
                }
            }
            assert(name_set(v) =~= name_set(old_v).insert(name@));
        }
        self
    }

    pub fn add_field(&mut self, name: &str) -> (r: &mut Self)
        ensures
            name_set((*r).known_fields@) == name_set(old(self).known_fields@).insert(name@),
            (*r).known_fields@.len() > 0,
            (*r).known_variables@ == old(self).known_variables@,
            (*r).dimensions == old(self).dimensions,
            *final(self) == *final(r),
    {
        let ghost old_v = self.known_fields@;
        self.known_fields.push(String::from_str(name));
        proof {
            let v = self.known_fields@;
            assert(v[v.len() - 1]@ == name@);
            assert forall|k: Seq<char>| name_set(v).contains(k) <==> name_set(old_v).insert(
                name@,
            ).contains(k) by {
                if name_set(old_v).contains(k) {
                    let i = choose|i: int| 0 <= i < old_v.len() && (#[trigger] old_v[i])@ == k;
                    assert(v[i] == old_v[i]);
                }
                if name_set(v).contains(k) && k != name@ {
                    let i = choose|i: int| 0 <= i < v.len() && (#[trigger] v[i])@ == k;
                    assert(old_v[i] == v[i]);
                }
            }
            assert(name_set(v) =~= name_set(old_v).insert(name@));
        }
        self
    }

    pub fn with_dimensions(self, dim_ctx: DimensionContext) -> (c: Self)
        ensures
            c.known_variables == self.known_variables,
            c.known_fields == self.known_fields,
            c.dimensions == Some(dim_ctx),
    {
        ValidationContext { dimensions: Some(dim_ctx), ..self }
    }
}

// ---------------------------------------------------------------------------
// specification of the checks
// ---------------------------------------------------------------------------

pub open spec fn known_math(name: Seq<char>) -> bool {
    name == "pi"@ || name == "e"@ || name == "PI"@ || name == "E_CONST"@
}

pub open spec fn names_list(ts: Seq<Term>, vars: Seq<String>, fields: Seq<String>) -> Seq<DiagView>
    decreases ts, 0nat,
{
    if ts.len() == 0 {
        Seq::empty()
    } else {
        names_list(ts.drop_last(), vars, fields) + names_diags(ts.last(), vars, fields)
    }
}

/// Pass 1: every variable and field reference must be in the context; an
/// unknown variable (other than a well-known constant name) is a warning, an
/// unknown field an error.
pub open spec fn names_diags(t: Term, vars: Seq<String>, fields: Seq<String>) -> Seq<DiagView>
    decreases t, 1nat,
{
    match t {
        Term::Variable(name) => if !name_set(vars).contains(name) && !known_math(name) {
            seq![warn_diag("unknown variable `"@ + name + "`"@)]
        } else {
            Seq::empty()
        },
        Term::FieldRef(name) => if !name_set(fields).contains(name) {
            seq![err_diag("unknown field `$"@ + name + "`"@)]
        } else {
            Seq::empty()
        },
        Term::BinaryOp { left, right, .. } => names_diags(*left, vars, fields) + names_diags(
            *right,
            vars,
            fields,
        ),
        Term::UnaryOp { operand, .. } => names_diags(*operand, vars, fields),
        Term::FunctionCall { args, .. } => names_list(args, vars, fields),
        Term::Conditional { condition, true_val, false_val } => names_diags(*condition, vars, fields)
            + names_diags(*true_val, vars, fields) + names_diags(*false_val, vars, fields),
        Term::DiffOp { operands, .. } => names_list(operands, vars, fields),
        Term::TensorOp { operands, .. } => names_list(operands, vars, fields),
        _ => Seq::empty(),
    }
}

/// The term mentions `name` as a field (`field`) or as a variable.
pub open spec fn mentions(t: Term, name: Seq<char>, field: bool) -> bool
    decreases t, 1nat,
{
    match t {
        Term::Variable(n) => !field && n == name,
        Term::FieldRef(n) => field && n == name,
        Term::BinaryOp { left, right, .. } => mentions(*left, name, field) || mentions(
            *right,
            name,
            field,
        ),
        Term::UnaryOp { operand, .. } => mentions(*operand, name, field),
        Term::FunctionCall { args, .. } => mentions_list(args, name, field),
        Term::Conditional { condition, true_val, false_val } => mentions(*condition, name, field)
            || mentions(*true_val, name, field) || mentions(*false_val, name, field),
        Term::DiffOp { operands, .. } => mentions_list(operands, name, field),
        Term::TensorOp { operands, .. } => mentions_list(operands, name, field),
        _ => false,
    }
}

pub open spec fn mentions_list(ts: Seq<Term>, name: Seq<char>, field: bool) -> bool
    decreases ts, 0nat,
{
    if ts.len() == 0 {
        false
    } else {
        mentions_list(ts.drop_last(), name, field) || mentions(ts.last(), name, field)
    }
}

/// A variable (`field` false) or field name that the context accepts: it is
/// listed, or well known for a variable.
pub open spec fn name_ok(n: Seq<char>, field: bool, vars: Seq<String>, fields: Seq<String>) -> bool {
    if field {
        name_set(fields).contains(n)
    } else {
        name_set(vars).contains(n) || known_math(n)
    }
}

/// Every variable and field that the term mentions is accepted.
pub open spec fn names_known(t: Term, vars: Seq<String>, fields: Seq<String>) -> bool {
    forall|n: Seq<char>, f: bool| #[trigger] mentions(t, n, f) ==> name_ok(n, f, vars, fields)
}

pub open spec fn names_known_list(ts: Seq<Term>, vars: Seq<String>, fields: Seq<String>) -> bool {
    forall|n: Seq<char>, f: bool| #[trigger] mentions_list(ts, n, f) ==> name_ok(n, f, vars, fields)
}

proof fn lemma_names_list(ts: Seq<Term>, vars: Seq<String>, fields: Seq<String>)
    ensures
        (names_list(ts, vars, fields).len() == 0) == names_known_list(ts, vars, fields),
    decreases ts, 0nat,
{
    if ts.len() > 0 {
        let init = ts.drop_last();
        let last = ts.last();
        lemma_names_list(init, vars, fields);
        law_names_pass(last, vars, fields);
        if names_known_list(ts, vars, fields) {
            assert forall|n: Seq<char>, f: bool| #[trigger]
                mentions_list(init, n, f) implies name_ok(n, f, vars, fields) by {
                assert(mentions_list(ts, n, f));
            }
            assert forall|n: Seq<char>, f: bool| #[trigger]
                mentions(last, n, f) implies name_ok(n, f, vars, fields) by {
                assert(mentions_list(ts, n, f));
            }
        }
        if names_known_list(init, vars, fields) && names_known(last, vars, fields) {
            assert forall|n: Seq<char>, f: bool| #[trigger]
                mentions_list(ts, n, f) implies name_ok(n, f, vars, fields) by {
                if mentions_list(init, n, f) {
                } else {
                    assert(mentions(last, n, f));
                }
            }
        }
    }
}

/// The name pass reports nothing exactly when every variable and field that
/// the expression mentions is known to the context.
pub proof fn law_names_pass(t: Term, vars: Seq<String>, fields: Seq<String>)
    ensures
        (names_diags(t, vars, fields).len() == 0) == names_known(t, vars, fields),
    decreases t, 1nat,
{
    match t {
        Term::BinaryOp { left, right, .. } => {
            let l = *left;
            let r = *right;
            law_names_pass(l, vars, fields);
            law_names_pass(r, vars, fields);
            if names_known(t, vars, fields) {
                assert forall|n: Seq<char>, f: bool| #[trigger]
                    mentions(l, n, f) implies name_ok(n, f, vars, fields) by {
                    assert(mentions(t, n, f));
                }
                assert forall|n: Seq<char>, f: bool| #[trigger]
                    mentions(r, n, f) implies name_ok(n, f, vars, fields) by {
                    assert(mentions(t, n, f));
                }
            }
            if names_known(l, vars, fields) && names_known(r, vars, fields) {
                assert forall|n: Seq<char>, f: bool| #[trigger]
                    mentions(t, n, f) implies name_ok(n, f, vars, fields) by {
                    if mentions(l, n, f) {
                    } else {
                        assert(mentions(r, n, f));
                    }
                }
            }
        },
        Term::UnaryOp { operand, .. } => {
            let o = *operand;
            law_names_pass(o, vars, fields);
            if names_known(t, vars, fields) {
                assert forall|n: Seq<char>, f: bool| #[trigger]
                    mentions(o, n, f) implies name_ok(n, f, vars, fields) by {
                    assert(mentions(t, n, f));
                }
            }
            if names_known(o, vars, fields) {
                assert forall|n: Seq<char>, f: bool| #[trigger]
                    mentions(t, n, f) implies name_ok(n, f, vars, fields) by {
                    assert(mentions(o, n, f));
                }
            }
        },
        Term::FunctionCall { args, .. } => {
            lemma_names_list(args, vars, fields);
            if names_known(t, vars, fields) {
                assert forall|n: Seq<char>, f: bool| #[trigger]
                    mentions_list(args, n, f) implies name_ok(n, f, vars, fields) by {
                    assert(mentions(t, n, f));
                }
            }
            if names_known_list(args, vars, fields) {
                assert forall|n: Seq<char>, f: bool| #[trigger]
                    mentions(t, n, f) implies name_ok(n, f, vars, fields) by {
                    assert(mentions_list(args, n, f));
                }
            }
        },
        Term::Conditional { condition, true_val, false_val } => {
            let c = *condition;
            let a = *true_val;
            let b = *false_val;
            law_names_pass(c, vars, fields);
            law_names_pass(a, vars, fields);
            law_names_pass(b, vars, fields);
            if names_known(t, vars, fields) {
                assert forall|n: Seq<char>, f: bool| #[trigger]
                    mentions(c, n, f) implies name_ok(n, f, vars, fields) by {
                    assert(mentions(t, n, f));
                }
                assert forall|n: Seq<char>, f: bool| #[trigger]
                    mentions(a, n, f) implies name_ok(n, f, vars, fields) by {
                    assert(mentions(t, n, f));
                }
                assert forall|n: Seq<char>, f: bool| #[trigger]
                    mentions(b, n, f) implies name_ok(n, f, vars, fields) by {
                    assert(mentions(t, n, f));
                }
            }
            if names_known(c, vars, fields) && names_known(a, vars, fields) && names_known(
                b,
                vars,
                fields,
            ) {
                assert forall|n: Seq<char>, f: bool| #[trigger]
                    mentions(t, n, f) implies name_ok(n, f, vars, fields) by {
                    if mentions(c, n, f) {
                    } else if mentions(a, n, f) {
                    } else {
                        assert(mentions(b, n, f));
                    }
                }
            }
        },
        Term::DiffOp { operands, .. } => {
            lemma_names_list(operands, vars, fields);
            if names_known(t, vars, fields) {
                assert forall|n: Seq<char>, f: bool| #[trigger]
                    mentions_list(operands, n, f) implies name_ok(n, f, vars, fields) by {
                    assert(mentions(t, n, f));
                }
            }
            if names_known_list(operands, vars, fields) {
                assert forall|n: Seq<char>, f: bool| #[trigger]
                    mentions(t, n, f) implies name_ok(n, f, vars, fields) by {
                    assert(mentions_list(operands, n, f));
                }
            }
        },
        Term::TensorOp { operands, .. } => {
            lemma_names_list(operands, vars, fields);
            if names_known(t, vars, fields) {
                assert forall|n: Seq<char>, f: bool| #[trigger]
                    mentions_list(operands, n, f) implies name_ok(n, f, vars, fields) by {
                    assert(mentions(t, n, f));
                }
            }
            if names_known_list(operands, vars, fields) {
                assert forall|n: Seq<char>, f: bool| #[trigger]
                    mentions(t, n, f) implies name_ok(n, f, vars, fields) by {
                    assert(mentions_list(operands, n, f));
                }
            }
        },
        Term::Variable(name) => {
            assert(mentions(t, name, false));
        },
        Term::FieldRef(name) => {
            assert(mentions(t, name, true));
        },
        _ => {},
    }
}

/// A division whose divisor is the literal zero is reported first among the
/// zero-division diagnostics of that division.
pub proof fn law_zero_divisor_reported(l: Term, z: Num)
    requires
        z.spec_is_zero(),
    ensures
        zero_div_diags(bin(BinOp::Div, l, Term::Number(z))).len() > 0,
        zero_div_diags(bin(BinOp::Div, l, Term::Number(z)))[0] == err_diag(
            "division by literal zero"@,
        ),
{
}

/// With a dimension context, the dimension pass reports exactly when the
/// dimension check refuses the expression, with the check's error text.
pub proof fn law_dimension_pass(t: Term, dims: Map<Seq<char>, Unit>)
    ensures
        (dims_diags(t, Some(dims)).len() > 0) == (infer(t, dims) matches Some(Err(_))),
        infer(t, dims) matches Some(Err(e)) ==> dims_diags(t, Some(dims)) == seq![
            err_diag("dimension check: "@ + error_text(e)),
        ],
{
}

pub open spec fn zero_div_list(ts: Seq<Term>) -> Seq<DiagView>
    decreases ts, 0nat,
{
    if ts.len() == 0 {
        Seq::empty()
    } else {
        zero_div_list(ts.drop_last()) + zero_div_diags(ts.last())
    }
}

/// Pass 2: divisions by a literal zero.
pub open spec fn zero_div_diags(t: Term) -> Seq<DiagView>
    decreases t, 1nat,
{
    match t {
        Term::BinaryOp { op, left, right } => {
            let here = if op == BinOp::Div && (*right matches Term::Number(v) && v.spec_is_zero()) {
                seq![err_diag("division by literal zero"@)]
            } else {
                Seq::empty()
            };
            here + zero_div_diags(*left) + zero_div_diags(*right)
        },
        Term::UnaryOp { operand, .. } => zero_div_diags(*operand),
        Term::FunctionCall { args, .. } => zero_div_list(args),
        Term::Conditional { condition, true_val, false_val } => zero_div_diags(*condition)
            + zero_div_diags(*true_val) + zero_div_diags(*false_val),
        Term::DiffOp { operands, .. } => zero_div_list(operands),
        Term::TensorOp { operands, .. } => zero_div_list(operands),
        _ => Seq::empty(),
    }
}

pub open spec fn diff_arity(op: DiffOperator) -> nat {
    match op {
        DiffOperator::Laplacian => 2,
        _ => 1,
    }
}

pub open spec fn tensor_arity(op: TensorOperator) -> nat {
    match op {
        TensorOperator::Dot | TensorOperator::Cross | TensorOperator::Outer => 2,
        _ => 1,
    }
}

pub open spec fn diff_op_text(op: DiffOperator) -> Seq<char> {
    match op {
        DiffOperator::TimeDerivative => "TimeDerivative"@,
        DiffOperator::Gradient => "Gradient"@,
        DiffOperator::Divergence => "Divergence"@,
        DiffOperator::Laplacian => "Laplacian"@,
        DiffOperator::Curl => "Curl"@,
    }
}

pub open spec fn tensor_op_text(op: TensorOperator) -> Seq<char> {
    match op {
        TensorOperator::Dot => "Dot"@,
        TensorOperator::Cross => "Cross"@,
        TensorOperator::Outer => "Outer"@,
        TensorOperator::Trace => "Trace"@,
        TensorOperator::Transpose => "Transpose"@,
        TensorOperator::Symmetric => "Symmetric"@,
        TensorOperator::Skew => "Skew"@,
        TensorOperator::Magnitude => "Magnitude"@,
        TensorOperator::MagnitudeSqr => "MagnitudeSqr"@,
        TensorOperator::Determinant => "Determinant"@,
        TensorOperator::Inverse => "Inverse"@,
    }
}

pub open spec fn arity_message(op_text: Seq<char>, expected: nat, got: nat) -> Seq<char> {
    op_text + " expects "@ + nat_text(expected) + " operand(s), got "@ + nat_text(got)
}

pub open spec fn arity_list(ts: Seq<Term>) -> Seq<DiagView>
    decreases ts, 0nat,
{
    if ts.len() == 0 {
        Seq::empty()
    } else {
        arity_list(ts.drop_last()) + arity_diags(ts.last())
    }
}

/// Pass 3: operand counts of differential and tensor operators.
pub open spec fn arity_diags(t: Term) -> Seq<DiagView>
    decreases t, 1nat,
{
    match t {
        Term::DiffOp { op, operands } => {
            let here = if operands.len() != diff_arity(op) {
                seq![err_diag(arity_message(diff_op_text(op), diff_arity(op), operands.len()))]
            } else {
                Seq::empty()
            };
            here + arity_list(operands)
        },
        Term::TensorOp { op, operands } => {
            let here = if operands.len() != tensor_arity(op) {
                seq![err_diag(arity_message(tensor_op_text(op), tensor_arity(op), operands.len()))]
            } else {
                Seq::empty()
            };
            here + arity_list(operands)
        },
        Term::BinaryOp { left, right, .. } => arity_diags(*left) + arity_diags(*right),
        Term::UnaryOp { operand, .. } => arity_diags(*operand),
        Term::FunctionCall { args, .. } => arity_list(args),
        Term::Conditional { condition, true_val, false_val } => arity_diags(*condition)
            + arity_diags(*true_val) + arity_diags(*false_val),
        _ => Seq::empty(),
    }
}

/// Pass 4 (with a dimension context): the first dimension inconsistency.
pub open spec fn dims_diags(t: Term, dims: Option<Map<Seq<char>, Unit>>) -> Seq<DiagView> {
    match dims {
        None => Seq::empty(),
        Some(m) => match infer(t, m) {
            Some(Err(e)) => seq![err_diag("dimension check: "@ + error_text(e))],
            _ => Seq::empty(),
        },
    }
}

/// All diagnostics for `t`, pass by pass.
pub open spec fn spec_validate(
    t: Term,
    vars: Seq<String>,
    fields: Seq<String>,
    dims: Option<Map<Seq<char>, Unit>>,
) -> Seq<DiagView> {
    names_diags(t, vars, fields) + zero_div_diags(t) + arity_diags(t) + dims_diags(t, dims)
}

pub open spec fn dims_view(d: Option<DimensionContext>) -> Option<Map<Seq<char>, Unit>> {
    match d {
        Some(c) => Some(c@),
        None => None,
    }
}

/// The binary tensor products `dot`, `cross` and `outer` take two operands
/// and the other tensor operators one; the Laplacian takes two (a
/// coefficient and a field) and the other differential operators one. Where
/// the operands raise nothing themselves, the pass reports nothing exactly
/// when the count is right, and otherwise one error naming both counts.
pub proof fn law_operand_counts(top: TensorOperator, dop: DiffOperator, operands: Seq<Term>)
    requires
        arity_list(operands) == Seq::<DiagView>::empty(),
    ensures
        ({
            let want: nat = if top == TensorOperator::Dot || top == TensorOperator::Cross || top
                == TensorOperator::Outer {
                2
            } else {
                1
            };
            let ds = arity_diags(Term::TensorOp { op: top, operands });
            &&& operands.len() == want ==> ds.len() == 0
            &&& operands.len() != want ==> ds == seq![
                err_diag(arity_message(tensor_op_text(top), want, operands.len())),
            ]
        }),
        ({
            let want: nat = if dop == DiffOperator::Laplacian {
                2
            } else {
                1
            };
            let ds = arity_diags(Term::DiffOp { op: dop, operands });
            &&& operands.len() == want ==> ds.len() == 0
            &&& operands.len() != want ==> ds == seq![
                err_diag(arity_message(diff_op_text(dop), want, operands.len())),
            ]
        }),
{
    assert(Seq::<DiagView>::empty() + arity_list(operands) =~= Seq::<DiagView>::empty());
    assert(seq![err_diag(arity_message(tensor_op_text(top), tensor_arity(top), operands.len()))]
        + arity_list(operands) =~= seq![err_diag(arity_message(tensor_op_text(top), tensor_arity(top), operands.len()))]);
    assert(seq![err_diag(arity_message(diff_op_text(dop), diff_arity(dop), operands.len()))]
        + arity_list(operands) =~= seq![err_diag(arity_message(diff_op_text(dop), diff_arity(dop), operands.len()))]);
}

/// Leaves (numbers, names, constants, fields) raise no operand-count error,
/// so a list of them raises none either.
pub proof fn law_leaves_have_no_operator(ts: Seq<Term>)
    requires
        forall|i: int| 0 <= i < ts.len() ==> (ts[i] is Number || ts[i] is Variable || ts[i] is Constant
            || ts[i] is FieldRef),
    ensures
        arity_list(ts) == Seq::<DiagView>::empty(),
    decreases ts.len(),
{
    if ts.len() > 0 {
        law_leaves_have_no_operator(ts.drop_last());
        assert(arity_diags(ts.last()) == Seq::<DiagView>::empty());
        assert(arity_list(ts) =~= Seq::<DiagView>::empty());
    }
}

// ---------------------------------------------------------------------------
// implementation
// ---------------------------------------------------------------------------

proof fn lemma_view_diags_push(ds: Seq<Diagnostic>, d: Diagnostic)
    ensures
        view_diags(ds.push(d)) == view_diags(ds).push(d@),
{
    assert(view_diags(ds.push(d)) =~= view_diags(ds).push(d@));
}

fn push_diag(diags: &mut Vec<Diagnostic>, d: Diagnostic)
    ensures
        view_diags(final(diags)@) == view_diags(old(diags)@).push(d@),
{
    proof {
        lemma_view_diags_push(diags@, d);
    }
    diags.push(d);
}

fn check_names_list(
    es: &Vec<Expr>,
    ctx: &ValidationContext,
    diags: &mut Vec<Diagnostic>,
)
    ensures
        view_diags(final(diags)@) == view_diags(old(diags)@) + names_list(
            view_exprs(es@),
            ctx.known_variables@,
            ctx.known_fields@,
        ),
    decreases es,
{
    let mut i: usize = 0;
    assert(view_diags(diags@) =~= view_diags(old(diags)@) + names_list(
        view_exprs(es@.take(0)),
        ctx.known_variables@,
        ctx.known_fields@,
    ));
    while i < es.len()
        invariant
            0 <= i <= es.len(),
            view_diags(diags@) == view_diags(old(diags)@) + names_list(
                view_exprs(es@.take(i as int)),
                ctx.known_variables@,
                ctx.known_fields@,
            ),
        decreases es.len() - i,
    {
        proof {
            assert(decreases_to!(es => es@[i as int]));
            lemma_view_exprs_take(es@, i as int);
            let prev = view_exprs(es@.take(i as int));
            assert(prev.push(view_expr(es@[i as int])).drop_last() =~= prev);
        }
        let ghost before = view_diags(diags@);
        check_names(&es[i], ctx, diags);
        proof {
            let prev = view_exprs(es@.take(i as int));
            assert(view_diags(diags@) =~= view_diags(old(diags)@) + names_list(
                view_exprs(es@.take(i + 1)),
                ctx.known_variables@,
                ctx.known_fields@,
            ));
        }
        i = i + 1;
    }
    proof {
        assert(es@.take(es.len() as int) =~= es@);
    }
}

fn check_names(expr: &Expr, ctx: &ValidationContext, diags: &mut Vec<Diagnostic>)
    ensures
        view_diags(final(diags)@) == view_diags(old(diags)@) + names_diags(
            expr@,
            ctx.known_variables@,
            ctx.known_fields@,
        ),
    decreases expr,
{
    let ghost d0 = view_diags(diags@);
    match expr {
        Expr::Variable(name) => {
            if !contains_name(&ctx.known_variables, name) {
                if !(str_eq(name, "pi") || str_eq(name, "e") || str_eq(name, "PI") || str_eq(
                    name,
                    "E_CONST",
                )) {
                    let mut m = String::from_str("unknown variable `");
                    m.append(name.as_str());
                    m.append("`");
                    push_diag(
                        diags,
                        Diagnostic { level: DiagnosticLevel::Warning, message: m, span: None },
                    );
                }
            }
        },
        Expr::FieldRef(name) => {
            if !contains_name(&ctx.known_fields, name) {
                let mut m = String::from_str("unknown field `$");
                m.append(name.as_str());
                m.append("`");
                push_diag(diags, Diagnostic { level: DiagnosticLevel::Error, message: m, span: None });
            }
        },
        Expr::BinaryOp { left, right, .. } => {
            check_names(left, ctx, diags);
            check_names(right, ctx, diags);
        },
        Expr::UnaryOp { operand, .. } => check_names(operand, ctx, diags),
        Expr::FunctionCall { args, .. } => check_names_list(args, ctx, diags),
        Expr::Conditional { condition, true_val, false_val } => {
            check_names(condition, ctx, diags);
            check_names(true_val, ctx, diags);
            check_names(false_val, ctx, diags);
        },
        Expr::DiffOp { operands, .. } => check_names_list(operands, ctx, diags),
        Expr::TensorOp { operands, .. } => check_names_list(operands, ctx, diags),
        _ => {},
    }
    proof {
        assert(view_diags(diags@) =~= d0 + names_diags(
            expr@,
            ctx.known_variables@,
            ctx.known_fields@,
        ));
    }
}

fn check_zero_div_list(es: &Vec<Expr>, diags: &mut Vec<Diagnostic>)
    ensures
        view_diags(final(diags)@) == view_diags(old(diags)@) + zero_div_list(view_exprs(es@)),
    decreases es,
{
    let mut i: usize = 0;
    assert(view_diags(diags@) =~= view_diags(old(diags)@) + zero_div_list(
        view_exprs(es@.take(0)),
    ));
    while i < es.len()
        invariant
            0 <= i <= es.len(),
            view_diags(diags@) == view_diags(old(diags)@) + zero_div_list(
                view_exprs(es@.take(i as int)),
            ),
        decreases es.len() - i,
    {
        proof {
            assert(decreases_to!(es => es@[i as int]));
            lemma_view_exprs_take(es@, i as int);
            let prev = view_exprs(es@.take(i as int));
            assert(prev.push(view_expr(es@[i as int])).drop_last() =~= prev);
        }
        check_zero_div(&es[i], diags);
        proof {
            assert(view_diags(diags@) =~= view_diags(old(diags)@) + zero_div_list(
                view_exprs(es@.take(i + 1)),
            ));
        }
        i = i + 1;
    }
    proof {
        assert(es@.take(es.len() as int) =~= es@);
    }
}

fn check_zero_div(expr: &Expr, diags: &mut Vec<Diagnostic>)
    ensures
        view_diags(final(diags)@) == view_diags(old(diags)@) + zero_div_diags(expr@),
    decreases expr,
{
    let ghost d0 = view_diags(diags@);
    match expr {
        Expr::BinaryOp { op, left, right } => {
            let zero = match &**right {
                Expr::Number(v) => v.is_zero(),
                _ => false,
            };
            if *op == BinOp::Div && zero {
                push_diag(diags, Diagnostic::error("division by literal zero"));
            }
            check_zero_div(left, diags);
            check_zero_div(right, diags);
        },
        Expr::UnaryOp { operand, .. } => check_zero_div(operand, diags),
        Expr::FunctionCall { args, .. } => check_zero_div_list(args, diags),
        Expr::Conditional { condition, true_val, false_val } => {
            check_zero_div(condition, diags);
            check_zero_div(true_val, diags);
            check_zero_div(false_val, diags);
        },
        Expr::DiffOp { operands, .. } => check_zero_div_list(operands, diags),
        Expr::TensorOp { operands, .. } => check_zero_div_list(operands, diags),
        _ => {},
    }
    proof {
        assert(view_diags(diags@) =~= d0 + zero_div_diags(expr@));
    }
}

fn push_diff_op_text(s: &mut String, op: DiffOperator)
    ensures
        final(s)@ == old(s)@ + diff_op_text(op),
{
    match op {
        DiffOperator::TimeDerivative => s.append("TimeDerivative"),
        DiffOperator::Gradient => s.append("Gradient"),
        DiffOperator::Divergence => s.append("Divergence"),
        DiffOperator::Laplacian => s.append("Laplacian"),
        DiffOperator::Curl => s.append("Curl"),
    }
}

fn push_tensor_op_text(s: &mut String, op: TensorOperator)
    ensures
        final(s)@ == old(s)@ + tensor_op_text(op),
{
    match op {
        TensorOperator::Dot => s.append("Dot"),
        TensorOperator::Cross => s.append("Cross"),
        TensorOperator::Outer => s.append("Outer"),
        TensorOperator::Trace => s.append("Trace"),
        TensorOperator::Transpose => s.append("Transpose"),
        TensorOperator::Symmetric => s.append("Symmetric"),
        TensorOperator::Skew => s.append("Skew"),
        TensorOperator::Magnitude => s.append("Magnitude"),
        TensorOperator::MagnitudeSqr => s.append("MagnitudeSqr"),
        TensorOperator::Determinant => s.append("Determinant"),
        TensorOperator::Inverse => s.append("Inverse"),
    }
}

/// Appends " expects {expected} operand(s), got {got}".
fn push_arity_tail(s: &mut String, expected: usize, got: usize)
    ensures
        final(s)@ == old(s)@ + " expects "@ + nat_text(expected as nat) + " operand(s), got "@
            + nat_text(got as nat),
{
    s.append(" expects ");
    push_nat(s, expected as u128);
    s.append(" operand(s), got ");
    push_nat(s, got as u128);
}

fn check_arity_list(es: &Vec<Expr>, diags: &mut Vec<Diagnostic>)
    ensures
        view_diags(final(diags)@) == view_diags(old(diags)@) + arity_list(view_exprs(es@)),
    decreases es,
{
    let mut i: usize = 0;
    assert(view_diags(diags@) =~= view_diags(old(diags)@) + arity_list(view_exprs(es@.take(0))));
    while i < es.len()
        invariant
            0 <= i <= es.len(),
            view_diags(diags@) == view_diags(old(diags)@) + arity_list(
                view_exprs(es@.take(i as int)),
            ),
        decreases es.len() - i,
    {
        proof {
            assert(decreases_to!(es => es@[i as int]));
            lemma_view_exprs_take(es@, i as int);
            let prev = view_exprs(es@.take(i as int));
            assert(prev.push(view_expr(es@[i as int])).drop_last() =~= prev);
        }
        check_arity(&es[i], diags);
        proof {
            assert(view_diags(diags@) =~= view_diags(old(diags)@) + arity_list(
                view_exprs(es@.take(i + 1)),
            ));
        }
        i = i + 1;
    }
    proof {
        assert(es@.take(es.len() as int) =~= es@);
    }
}

fn check_arity(expr: &Expr, diags: &mut Vec<Diagnostic>)
    ensures
        view_diags(final(diags)@) == view_diags(old(diags)@) + arity_diags(expr@),
    decreases expr,
{
    let ghost d0 = view_diags(diags@);
    match expr {
        Expr::DiffOp { op, operands } => {
            let expected: usize = match op {
                DiffOperator::Laplacian => 2,
                _ => 1,
            };
            proof {
                crate::ast::lemma_view_exprs(operands@);
            }
            if operands.len() != expected {
                let mut m = String::new();
                push_diff_op_text(&mut m, *op);
                push_arity_tail(&mut m, expected, operands.len());
                proof {
                    assert(m@ =~= arity_message(diff_op_text(*op), expected as nat, operands.len() as nat));
                }
                push_diag(diags, Diagnostic { level: DiagnosticLevel::Error, message: m, span: None });
            }
            check_arity_list(operands, diags);
        },
        Expr::TensorOp { op, operands } => {
            let expected: usize = match op {
                TensorOperator::Dot | TensorOperator::Cross | TensorOperator::Outer => 2,
                _ => 1,
            };
            proof {
                crate::ast::lemma_view_exprs(operands@);
            }
            if operands.len() != expected {
                let mut m = String::new();
                push_tensor_op_text(&mut m, *op);
                push_arity_tail(&mut m, expected, operands.len());
                proof {
                    assert(m@ =~= arity_message(tensor_op_text(*op), expected as nat, operands.len() as nat));
                }
                push_diag(diags, Diagnostic { level: DiagnosticLevel::Error, message: m, span: None });
            }
            check_arity_list(operands, diags);
        },
        Expr::BinaryOp { left, right, .. } => {
            check_arity(left, diags);
            check_arity(right, diags);
        },
        Expr::UnaryOp { operand, .. } => check_arity(operand, diags),
        Expr::FunctionCall { args, .. } => check_arity_list(args, diags),
        Expr::Conditional { condition, true_val, false_val } => {
            check_arity(condition, diags);
            check_arity(true_val, diags);
            check_arity(false_val, diags);
        },
        _ => {},
    }
    proof {
        assert(view_diags(diags@) =~= d0 + arity_diags(expr@));
    }
}

/// Run all validation passes on `expr` and return the diagnostics:
/// unknown names, divisions by a literal zero, operator operand counts and,
/// with a dimension context, the first dimension inconsistency.
pub fn validate(expr: &Expr, ctx: &ValidationContext) -> (diags: Vec<Diagnostic>)
    requires
        ctx.dimensions matches Some(d) ==> infer(expr@, d@) is Some,
    ensures
        view_diags(diags@) == spec_validate(
            expr@,
            ctx.known_variables@,
            ctx.known_fields@,
            dims_view(ctx.dimensions),
        ),
{
    let mut diags: Vec<Diagnostic> = Vec::new();
    assert(view_diags(diags@) =~= Seq::<DiagView>::empty());
    check_names(expr, ctx, &mut diags);
    check_zero_div(expr, &mut diags);
    check_arity(expr, &mut diags);
    let ghost before = view_diags(diags@);
    match &ctx.dimensions {
        Some(dim_ctx) => {
            match check_dimensions(expr, dim_ctx) {
                Err(e) => {
                    let mut m = String::from_str("dimension check: ");
                    let t = e.to_text();
                    m.append(t.as_str());
                    push_diag(&mut diags, Diagnostic { level: DiagnosticLevel::Error, message: m, span: None });
                },
                Ok(_) => {},
            }
        },
        None => {},
    }
    proof {
        assert(view_diags(diags@) =~= spec_validate(
            expr@,
            ctx.known_variables@,
            ctx.known_fields@,
            dims_view(ctx.dimensions),
        ));
    }
    diags
}

} // verus!
