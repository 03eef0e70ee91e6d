//! Dimensional analysis: SI unit inference and consistency checking.
use vstd::prelude::*;

use crate::ast::{
    lemma_view_exprs, spec_dimensionless, spec_is_dimensionless, spec_unit_div, spec_unit_mul,
    spec_unit_pow, in_i8, unit_div_fits, unit_mul_fits, unit_pow_fits, BinOp, Expr, Term, UnOp, Unit,
};
use crate::error::{ErrorView, ExpressionError};
use crate::number::{spec_to_i8_saturating, spec_trunc, Num};
use crate::text::{int_text, push_int};

verus! {

broadcast use vstd::string::group_string_axioms;

// ---------------------------------------------------------------------------
// common SI units
// ---------------------------------------------------------------------------

/// Dimensionless.
pub fn dimensionless() -> (u: Unit)
    ensures
        u == spec_dimensionless(),
{
    Unit::dimensionless()
}

/// Metre.
pub fn metre() -> (u: Unit)
    ensures
        u == (Unit { kg: 0, m: 1, s: 0, k: 0, mol: 0 }),
{
    Unit::new(0, 1, 0, 0, 0)
}

/// Second.
pub fn second() -> (u: Unit)
    ensures
        u == (Unit { kg: 0, m: 0, s: 1, k: 0, mol: 0 }),
{
    Unit::new(0, 0, 1, 0, 0)
}

/// Kilogram.
pub fn kilogram() -> (u: Unit)
    ensures
        u == (Unit { kg: 1, m: 0, s: 0, k: 0, mol: 0 }),
{
    Unit::new(1, 0, 0, 0, 0)
}

/// Kelvin.
pub fn kelvin() -> (u: Unit)
    ensures
        u == (Unit { kg: 0, m: 0, s: 0, k: 1, mol: 0 }),
{
    Unit::new(0, 0, 0, 1, 0)
}

/// Mole.
pub fn mole() -> (u: Unit)
    ensures
        u == (Unit { kg: 0, m: 0, s: 0, k: 0, mol: 1 }),
{
    Unit::new(0, 0, 0, 0, 1)
}

/// Velocity, m/s.
pub fn velocity() -> (u: Unit)
    ensures
        u == (Unit { kg: 0, m: 1, s: -1i8, k: 0, mol: 0 }),
{
    Unit::new(0, 1, -1, 0, 0)
}

/// Acceleration, m/s^2.
pub fn acceleration() -> (u: Unit)
    ensures
        u == (Unit { kg: 0, m: 1, s: -2i8, k: 0, mol: 0 }),
{
    Unit::new(0, 1, -2, 0, 0)
}

/// Density, kg/m^3.
pub fn density() -> (u: Unit)
    ensures
        u == (Unit { kg: 1, m: -3i8, s: 0, k: 0, mol: 0 }),
{
    Unit::new(1, -3, 0, 0, 0)
}

/// Pressure / stress, kg/(m s^2) = Pa.
pub fn pressure() -> (u: Unit)
    ensures
        u == (Unit { kg: 1, m: -1i8, s: -2i8, k: 0, mol: 0 }),
{
    Unit::new(1, -1, -2, 0, 0)
}

/// Dynamic viscosity, kg/(m s) = Pa s.
pub fn viscosity() -> (u: Unit)
    ensures
        u == (Unit { kg: 1, m: -1i8, s: -1i8, k: 0, mol: 0 }),
{
    Unit::new(1, -1, -1, 0, 0)
}

// ---------------------------------------------------------------------------
// context
// ---------------------------------------------------------------------------

/// The unit registered last for `k` among `es`.
pub open spec fn dims_lookup(es: Seq<(String, Unit)>, k: Seq<char>) -> Option<Unit>
    decreases es.len(),
{
    if es.len() == 0 {
        None
    } else if es.last().0@ == k {
        Some(es.last().1)
    } else {
        dims_lookup(es.drop_last(), k)
    }
}

/// Maps variable / field names to their physical dimensions.
pub struct DimensionContext {
    dims: Vec<(String, Unit)>,
}

impl View for DimensionContext {
    type V = Map<Seq<char>, Unit>;

    closed spec fn view(&self) -> Map<Seq<char>, Unit> {
        Map::new(
            |k: Seq<char>| dims_lookup(self.dims@, k) is Some,
            |k: Seq<char>| dims_lookup(self.dims@, k).unwrap(),
        )
    }
}

impl DimensionContext {
    pub fn new() -> (c: Self)
        ensures
            c@ == Map::<Seq<char>, Unit>::empty(),
    {
        let c = DimensionContext { dims: Vec::new() };
        proof {
            assert(c@ =~= Map::<Seq<char>, Unit>::empty());
        }
        c
    }

    /// Register a variable or field name with its unit.
    pub fn insert(&mut self, name: &str, unit: Unit) -> (r: &mut Self)
        ensures
            (*r)@ == old(self)@.insert(name@, unit),
            *final(self) == *final(r),
    {
        let ghost old_dims = self.dims@;
        self.dims.push((String::from_str(name), unit));
        proof {
            assert(self.dims@.drop_last() =~= old_dims);
            assert(self@ =~= old(self)@.insert(name@, unit));
        }
        self
    }

    /// Look up the unit for a name.
    pub fn get(&self, name: &str) -> (r: Option<&Unit>)
        ensures
            match r {
                Some(u) => self@.contains_key(name@) && *u == self@[name@],
                None => !self@.contains_key(name@),
            },
    {
        let mut i = self.dims.len();
        proof {
            assert(self.dims@.take(i as int) =~= self.dims@);
        }
        while i > 0
            invariant
                i <= self.dims.len(),
                dims_lookup(self.dims@, name@) == dims_lookup(self.dims@.take(i as int), name@),
            decreases i,
        {
            proof {
                assert(self.dims@.take(i as int).drop_last() =~= self.dims@.take(i - 1));
            }
            if crate::text::str_eq(&self.dims[i - 1].0, name) {
                return Some(&self.dims[i - 1].1);
            }
            i = i - 1;
        }
        None
    }
}

/// A lookup after `insert(name, unit)` finds `unit` under `name`, and every
/// other name keeps what it had: `get` reads back what `insert` wrote.
pub proof fn law_get_after_insert(ctx: DimensionContext, name: Seq<char>, unit: Unit, other: Seq<char>)
    ensures
        ctx@.insert(name, unit).contains_key(name),
        ctx@.insert(name, unit)[name] == unit,
        other != name ==> ctx@.insert(name, unit).contains_key(other) == ctx@.contains_key(other),
        other != name && ctx@.contains_key(other) ==> ctx@.insert(name, unit)[other] == ctx@[other],
{
}

// ---------------------------------------------------------------------------
// specification of the inference
// ---------------------------------------------------------------------------

pub open spec fn unit_text(u: Unit) -> Seq<char> {
    "Unit { kg: "@ + int_text(u.kg as int) + ", m: "@ + int_text(u.m as int) + ", s: "@
        + int_text(u.s as int) + ", k: "@ + int_text(u.k as int) + ", mol: "@ + int_text(
        u.mol as int,
    ) + " }"@
}

pub open spec fn binop_text(op: BinOp) -> Seq<char> {
    match op {
        BinOp::Add => "Add"@,
        BinOp::Sub => "Sub"@,
        BinOp::Mul => "Mul"@,
        BinOp::Div => "Div"@,
        BinOp::Pow => "Pow"@,
    }
}

pub open spec fn unop_text(op: UnOp) -> Seq<char> {
    match op {
        UnOp::Neg => "Neg"@,
        UnOp::Abs => "Abs"@,
        UnOp::Sqrt => "Sqrt"@,
        UnOp::Sin => "Sin"@,
        UnOp::Cos => "Cos"@,
        UnOp::Exp => "Exp"@,
        UnOp::Log => "Log"@,
    }
}

pub open spec fn dim_error(message: Seq<char>) -> ErrorView {
    ErrorView::DimensionError { message }
}

pub open spec fn all_even(u: Unit) -> bool {
    u.kg % 2 == 0 && u.m % 2 == 0 && u.s % 2 == 0 && u.k % 2 == 0 && u.mol % 2 == 0
}

pub open spec fn half(u: Unit) -> Unit {
    Unit {
        kg: (u.kg / 2) as i8,
        m: (u.m / 2) as i8,
        s: (u.s / 2) as i8,
        k: (u.k / 2) as i8,
        mol: (u.mol / 2) as i8,
    }
}

/// Result of inference: `None` where an exponent would leave the range of
/// `i8` (where the arithmetic on exponents overflows), else the unit or the
/// first inconsistency.
pub type DimRes = Option<Result<Unit, ErrorView>>;

/// A power whose exponent is not a literal integer: the resulting dimension
/// cannot be determined, so the base must be dimensionless.
pub open spec fn symbolic_power(lu: Unit) -> DimRes {
    if spec_is_dimensionless(lu) {
        Some(Ok(spec_dimensionless()))
    } else {
        Some(Err(dim_error("non-literal exponent requires dimensionless base"@)))
    }
}

pub open spec fn infer_bin(op: BinOp, right: Term, lu: Unit, ru: Unit) -> DimRes {
    match op {
        BinOp::Add | BinOp::Sub => if lu != ru {
            Some(
                Err(
                    dim_error(
                        "dimension mismatch in "@ + binop_text(op) + ": "@ + unit_text(lu)
                            + " vs "@ + unit_text(ru),
                    ),
                ),
            )
        } else {
            Some(Ok(lu))
        },
        BinOp::Mul => if unit_mul_fits(lu, ru) {
            Some(Ok(spec_unit_mul(lu, ru)))
        } else {
            None
        },
        BinOp::Div => if unit_div_fits(lu, ru) {
            Some(Ok(spec_unit_div(lu, ru)))
        } else {
            None
        },
        BinOp::Pow => if !spec_is_dimensionless(ru) {
            Some(Err(dim_error("exponent must be dimensionless"@)))
        } else {
            match right {
                Term::Number(n) => if n.spec_is_integer() {
                    let ni = spec_to_i8_saturating(n);
                    if unit_pow_fits(lu, ni) {
                        Some(Ok(spec_unit_pow(lu, ni)))
                    } else {
                        None
                    }
                } else {
                    symbolic_power(lu)
                },
                _ => symbolic_power(lu),
            }
        },
    }
}

pub open spec fn infer_un(op: UnOp, u: Unit) -> Result<Unit, ErrorView> {
    match op {
        UnOp::Neg | UnOp::Abs => Ok(u),
        UnOp::Sqrt => if !all_even(u) {
            Err(dim_error("sqrt requires even dimension exponents, got "@ + unit_text(u)))
        } else {
            Ok(half(u))
        },
        _ => if !spec_is_dimensionless(u) {
            Err(
                dim_error(
                    unop_text(op) + " requires dimensionless argument, got "@ + unit_text(u),
                ),
            )
        } else {
            Ok(spec_dimensionless())
        },
    }
}

/// The unit of `t` in the context `ctx`.
pub open spec fn infer(t: Term, ctx: Map<Seq<char>, Unit>) -> DimRes
    decreases t,
{
    match t {
        Term::Number(_) | Term::Constant(_) => Some(Ok(spec_dimensionless())),
        Term::Variable(name) | Term::FieldRef(name) => if ctx.contains_key(name) {
            Some(Ok(ctx[name]))
        } else {
            Some(Err(dim_error("unknown dimension for `"@ + name + "`"@)))
        },
        Term::BinaryOp { op, left, right } => match infer(*left, ctx) {
            None => None,
            Some(Err(e)) => Some(Err(e)),
            Some(Ok(lu)) => match infer(*right, ctx) {
                None => None,
                Some(Err(e)) => Some(Err(e)),
                Some(Ok(ru)) => infer_bin(op, *right, lu, ru),
            },
        },
        Term::UnaryOp { op, operand } => match infer(*operand, ctx) {
            None => None,
            Some(Err(e)) => Some(Err(e)),
            Some(Ok(u)) => Some(infer_un(op, u)),
        },
        Term::Conditional { true_val, false_val, .. } => match infer(*true_val, ctx) {
            None => None,
            Some(Err(e)) => Some(Err(e)),
            Some(Ok(tu)) => match infer(*false_val, ctx) {
                None => None,
                Some(Err(e)) => Some(Err(e)),
                Some(Ok(fu)) => if tu != fu {
                    Some(
                        Err(
                            dim_error(
                                "conditional branches have different dimensions: "@ + unit_text(
                                    tu,
                                ) + " vs "@ + unit_text(fu),
                            ),
                        ),
                    )
                } else {
                    Some(Ok(tu))
                },
            },
        },
        _ => Some(Ok(spec_dimensionless())),
    }
}

// ---------------------------------------------------------------------------
// laws
// ---------------------------------------------------------------------------

/// Negation and absolute value keep the unit of their operand (and its
/// errors).
pub proof fn law_unit_of_sign(t: Term, ctx: Map<Seq<char>, Unit>)
    ensures
        infer(Term::UnaryOp { op: UnOp::Neg, operand: Box::new(t) }, ctx) == infer(t, ctx),
        infer(Term::UnaryOp { op: UnOp::Abs, operand: Box::new(t) }, ctx) == infer(t, ctx),
{
}

/// Sums and differences need operands of one unit, which they keep.
pub proof fn law_unit_of_sum(a: Term, b: Term, ctx: Map<Seq<char>, Unit>, u: Unit, v: Unit)
    requires
        infer(a, ctx) == Some(Ok::<Unit, ErrorView>(u)),
        infer(b, ctx) == Some(Ok::<Unit, ErrorView>(v)),
    ensures
        u == v ==> infer(Term::BinaryOp { op: BinOp::Add, left: Box::new(a), right: Box::new(b) }, ctx)
            == Some(Ok::<Unit, ErrorView>(u)),
        u == v ==> infer(Term::BinaryOp { op: BinOp::Sub, left: Box::new(a), right: Box::new(b) }, ctx)
            == Some(Ok::<Unit, ErrorView>(u)),
        u != v ==> infer(Term::BinaryOp { op: BinOp::Add, left: Box::new(a), right: Box::new(b) }, ctx)
            matches Some(Err(_)),
        u != v ==> infer(Term::BinaryOp { op: BinOp::Sub, left: Box::new(a), right: Box::new(b) }, ctx)
            matches Some(Err(_)),
{
}

/// The exponents of a product are the sums of those of its factors, and the
/// exponents of a quotient are their differences; where one leaves the
/// range of `i8` there is no result.
pub proof fn law_unit_of_product(a: Term, b: Term, ctx: Map<Seq<char>, Unit>, u: Unit, v: Unit)
    requires
        infer(a, ctx) == Some(Ok::<Unit, ErrorView>(u)),
        infer(b, ctx) == Some(Ok::<Unit, ErrorView>(v)),
    ensures
        ({
            let r = infer(Term::BinaryOp { op: BinOp::Mul, left: Box::new(a), right: Box::new(b) }, ctx);
            if in_i8(u.kg + v.kg) && in_i8(u.m + v.m) && in_i8(u.s + v.s) && in_i8(u.k + v.k)
                && in_i8(u.mol + v.mol) {
                r matches Some(Ok(w)) && w.kg == u.kg + v.kg && w.m == u.m + v.m && w.s == u.s
                    + v.s && w.k == u.k + v.k && w.mol == u.mol + v.mol
            } else {
                r is None
            }
        }),
        ({
            let r = infer(Term::BinaryOp { op: BinOp::Div, left: Box::new(a), right: Box::new(b) }, ctx);
            if in_i8(u.kg - v.kg) && in_i8(u.m - v.m) && in_i8(u.s - v.s) && in_i8(u.k - v.k)
                && in_i8(u.mol - v.mol) {
                r matches Some(Ok(w)) && w.kg == u.kg - v.kg && w.m == u.m - v.m && w.s == u.s
                    - v.s && w.k == u.k - v.k && w.mol == u.mol - v.mol
            } else {
                r is None
            }
        }),
{
}

/// Raising to a literal integer power `k` multiplies every exponent by `k`;
/// raising to anything else needs a dimensionless base (and result), and
/// any exponent must be dimensionless.
pub proof fn law_unit_of_power(a: Term, b: Term, ctx: Map<Seq<char>, Unit>, u: Unit, v: Unit, n: Num, k: i8)
    requires
        infer(a, ctx) == Some(Ok::<Unit, ErrorView>(u)),
        infer(b, ctx) == Some(Ok::<Unit, ErrorView>(v)),
    ensures
        !(v.kg == 0 && v.m == 0 && v.s == 0 && v.k == 0 && v.mol == 0) ==> infer(
            Term::BinaryOp { op: BinOp::Pow, left: Box::new(a), right: Box::new(b) },
            ctx,
        ) matches Some(Err(_)),
        b == Term::Number(n) && n.spec_is_integer() && spec_trunc(n) == k ==> ({
            let r = infer(Term::BinaryOp { op: BinOp::Pow, left: Box::new(a), right: Box::new(b) }, ctx);
            if in_i8(u.kg * k) && in_i8(u.m * k) && in_i8(u.s * k) && in_i8(u.k * k) && in_i8(u.mol * k) {
                r matches Some(Ok(w)) && w.kg == u.kg * k && w.m == u.m * k && w.s == u.s * k
                    && w.k == u.k * k && w.mol == u.mol * k
            } else {
                r is None
            }
        }),
        !(b is Number) && v.kg == 0 && v.m == 0 && v.s == 0 && v.k == 0 && v.mol == 0 && u.kg == 0
            && u.m == 0 && u.s == 0 && u.k == 0 && u.mol == 0 ==> infer(
            Term::BinaryOp { op: BinOp::Pow, left: Box::new(a), right: Box::new(b) },
            ctx,
        ) == Some(Ok::<Unit, ErrorView>(Unit { kg: 0, m: 0, s: 0, k: 0, mol: 0 })),
        !(b is Number) && !(u.kg == 0 && u.m == 0 && u.s == 0 && u.k == 0 && u.mol == 0) ==> infer(
            Term::BinaryOp { op: BinOp::Pow, left: Box::new(a), right: Box::new(b) },
            ctx,
        ) matches Some(Err(_)),
{
}

/// Both branches of a conditional must have one unit, which it has; the
/// condition's unit does not matter.
pub proof fn law_unit_of_conditional(c: Term, a: Term, b: Term, ctx: Map<Seq<char>, Unit>, u: Unit, v: Unit)
    requires
        infer(a, ctx) == Some(Ok::<Unit, ErrorView>(u)),
        infer(b, ctx) == Some(Ok::<Unit, ErrorView>(v)),
    ensures
        u == v ==> infer(Term::Conditional { condition: Box::new(c), true_val: Box::new(a), false_val: Box::new(b) }, ctx)
            == Some(Ok::<Unit, ErrorView>(u)),
        u != v ==> infer(Term::Conditional { condition: Box::new(c), true_val: Box::new(a), false_val: Box::new(b) }, ctx)
            matches Some(Err(_)),
{
}

/// A name has the unit the context gives it, and is an error where the
/// context has none; numbers and constants are dimensionless.
pub proof fn law_unit_of_leaves(name: Seq<char>, n: Num, ctx: Map<Seq<char>, Unit>)
    ensures
        ctx.contains_key(name) ==> infer(Term::Variable(name), ctx) == Some(Ok::<Unit, ErrorView>(ctx[name]))
            && infer(Term::FieldRef(name), ctx) == Some(Ok::<Unit, ErrorView>(ctx[name])),
        !ctx.contains_key(name) ==> (infer(Term::Variable(name), ctx) matches Some(Err(_))),
        !ctx.contains_key(name) ==> (infer(Term::FieldRef(name), ctx) matches Some(Err(_))),
        infer(Term::Number(n), ctx) == Some(Ok::<Unit, ErrorView>(Unit { kg: 0, m: 0, s: 0, k: 0, mol: 0 })),
        infer(Term::Constant(name), ctx) == Some(Ok::<Unit, ErrorView>(Unit { kg: 0, m: 0, s: 0, k: 0, mol: 0 })),
{
}

/// A square root halves every exponent, which must all be even; sines,
/// cosines, exponentials and logarithms take and give dimensionless values.
pub proof fn law_unit_of_functions(a: Term, ctx: Map<Seq<char>, Unit>, u: Unit)
    requires
        infer(a, ctx) == Some(Ok::<Unit, ErrorView>(u)),
    ensures
        ({
            let r = infer(Term::UnaryOp { op: UnOp::Sqrt, operand: Box::new(a) }, ctx);
            if u.kg % 2 == 0 && u.m % 2 == 0 && u.s % 2 == 0 && u.k % 2 == 0 && u.mol % 2 == 0 {
                r matches Some(Ok(w)) && 2 * w.kg == u.kg && 2 * w.m == u.m && 2 * w.s == u.s && 2
                    * w.k == u.k && 2 * w.mol == u.mol
            } else {
                r matches Some(Err(_))
            }
        }),
        forall|op: UnOp|
            (op == UnOp::Sin || op == UnOp::Cos || op == UnOp::Exp || op == UnOp::Log) ==> {
                let r = #[trigger] infer(Term::UnaryOp { op, operand: Box::new(a) }, ctx);
                if u.kg == 0 && u.m == 0 && u.s == 0 && u.k == 0 && u.mol == 0 {
                    r == Some(Ok::<Unit, ErrorView>(Unit { kg: 0, m: 0, s: 0, k: 0, mol: 0 }))
                } else {
                    r matches Some(Err(_))
                }
            },
{
}

// ---------------------------------------------------------------------------
// implementation
// ---------------------------------------------------------------------------

fn push_unit_text(s: &mut String, u: Unit)
    ensures
        final(s)@ == old(s)@ + unit_text(u),
{
    let ghost s0 = s@;
    s.append("Unit { kg: ");
    push_int(s, u.kg as i128);
    s.append(", m: ");
    push_int(s, u.m as i128);
    s.append(", s: ");
    push_int(s, u.s as i128);
    s.append(", k: ");
    push_int(s, u.k as i128);
    s.append(", mol: ");
    push_int(s, u.mol as i128);
    s.append(" }");
    proof {
        assert(s@ =~= s0 + unit_text(u));
    }
}

pub(crate) fn push_binop_text(s: &mut String, op: BinOp)
    ensures
        final(s)@ == old(s)@ + binop_text(op),
{
    match op {
        BinOp::Add => s.append("Add"),
        BinOp::Sub => s.append("Sub"),
        BinOp::Mul => s.append("Mul"),
        BinOp::Div => s.append("Div"),
        BinOp::Pow => s.append("Pow"),
    }
}

fn push_unop_text(s: &mut String, op: UnOp)
    ensures
        final(s)@ == old(s)@ + unop_text(op),
{
    match op {
        UnOp::Neg => s.append("Neg"),
        UnOp::Abs => s.append("Abs"),
        UnOp::Sqrt => s.append("Sqrt"),
        UnOp::Sin => s.append("Sin"),
        UnOp::Cos => s.append("Cos"),
        UnOp::Exp => s.append("Exp"),
        UnOp::Log => s.append("Log"),
    }
}

fn dim_error_exec(message: String) -> (e: ExpressionError)
    ensures
        e@ == dim_error(message@),
{
    ExpressionError::DimensionError { message }
}

fn units_differ(a: Unit, b: Unit) -> (r: bool)
    ensures
        r == (a != b),
{
    !(a.kg == b.kg && a.m == b.m && a.s == b.s && a.k == b.k && a.mol == b.mol)
}

fn fits_i8(x: i16) -> (b: bool)
    ensures
        b == in_i8(x as int),
{
    -128 <= x && x <= 127
}

fn mul_fits(a: Unit, b: Unit) -> (r: bool)
    ensures
        r == unit_mul_fits(a, b),
{
    fits_i8(a.kg as i16 + b.kg as i16) && fits_i8(a.m as i16 + b.m as i16) && fits_i8(
        a.s as i16 + b.s as i16,
    ) && fits_i8(a.k as i16 + b.k as i16) && fits_i8(a.mol as i16 + b.mol as i16)
}

fn div_fits(a: Unit, b: Unit) -> (r: bool)
    ensures
        r == unit_div_fits(a, b),
{
    fits_i8(a.kg as i16 - b.kg as i16) && fits_i8(a.m as i16 - b.m as i16) && fits_i8(
        a.s as i16 - b.s as i16,
    ) && fits_i8(a.k as i16 - b.k as i16) && fits_i8(a.mol as i16 - b.mol as i16)
}

fn pow_fits(a: Unit, n: i8) -> (r: bool)
    ensures
        r == unit_pow_fits(a, n as int),
{
    let m = n as i16;
    assert(-128 * 128 <= a.kg * n <= 128 * 128) by (nonlinear_arith)
        requires
            -128 <= a.kg <= 127,
            -128 <= n <= 127,
    ;
    assert(-128 * 128 <= a.m * n <= 128 * 128) by (nonlinear_arith)
        requires
            -128 <= a.m <= 127,
            -128 <= n <= 127,
    ;
    assert(-128 * 128 <= a.s * n <= 128 * 128) by (nonlinear_arith)
        requires
            -128 <= a.s <= 127,
            -128 <= n <= 127,
    ;
    assert(-128 * 128 <= a.k * n <= 128 * 128) by (nonlinear_arith)
        requires
            -128 <= a.k <= 127,
            -128 <= n <= 127,
    ;
    assert(-128 * 128 <= a.mol * n <= 128 * 128) by (nonlinear_arith)
        requires
            -128 <= a.mol <= 127,
            -128 <= n <= 127,
    ;
    fits_i8(a.kg as i16 * m) && fits_i8(a.m as i16 * m) && fits_i8(a.s as i16 * m) && fits_i8(
        a.k as i16 * m,
    ) && fits_i8(a.mol as i16 * m)
}

fn symbolic_power_exec(lu: Unit) -> (r: Result<Unit, ExpressionError>)
    ensures
        match r {
            Ok(u) => symbolic_power(lu) == Some(Ok::<Unit, ErrorView>(u)),
            Err(e) => symbolic_power(lu) == Some(Err::<Unit, ErrorView>(e@)),
        },
{
    if lu.is_dimensionless() {
        Ok(Unit::dimensionless())
    } else {
        Err(dim_error_exec(String::from_str("non-literal exponent requires dimensionless base")))
    }
}

/// The result of `infer_bin`, with `None` where an exponent leaves `i8`.
fn infer_bin_checked(op: BinOp, right: &Expr, lu: Unit, ru: Unit) -> (r: Option<
    Result<Unit, ExpressionError>,
>)
    ensures
        match r {
            None => infer_bin(op, right@, lu, ru) is None,
            Some(Ok(u)) => infer_bin(op, right@, lu, ru) == Some(Ok::<Unit, ErrorView>(u)),
            Some(Err(e)) => infer_bin(op, right@, lu, ru) == Some(Err::<Unit, ErrorView>(e@)),
        },
{
    match op {
        BinOp::Add | BinOp::Sub => {
            if units_differ(lu, ru) {
                let mut m = String::from_str("dimension mismatch in ");
                push_binop_text(&mut m, op);
                m.append(": ");
                push_unit_text(&mut m, lu);
                m.append(" vs ");
                push_unit_text(&mut m, ru);
                Some(Err(dim_error_exec(m)))
            } else {
                Some(Ok(lu))
            }
        },
        BinOp::Mul => if mul_fits(lu, ru) {
            Some(Ok(lu.mul(ru)))
        } else {
            None
        },
        BinOp::Div => if div_fits(lu, ru) {
            Some(Ok(lu.div(ru)))
        } else {
            None
        },
        BinOp::Pow => {
            if !ru.is_dimensionless() {
                return Some(Err(dim_error_exec(String::from_str("exponent must be dimensionless"))));
            }
            match right {
                Expr::Number(n) => {
                    if n.is_integer() {
                        let ni = n.to_i8_saturating();
                        if pow_fits(lu, ni) {
                            Some(Ok(lu.pow(ni)))
                        } else {
                            None
                        }
                    } else {
                        Some(symbolic_power_exec(lu))
                    }
                },
                _ => Some(symbolic_power_exec(lu)),
            }
        },
    }
}

fn infer_un_exec(op: UnOp, u: Unit) -> (r: Result<Unit, ExpressionError>)
    ensures
        match r {
            Ok(v) => infer_un(op, u) == Ok::<Unit, ErrorView>(v),
            Err(e) => infer_un(op, u) == Err::<Unit, ErrorView>(e@),
        },
{
    match op {
        UnOp::Neg | UnOp::Abs => Ok(u),
        UnOp::Sqrt => {
            if u.kg % 2 != 0 || u.m % 2 != 0 || u.s % 2 != 0 || u.k % 2 != 0 || u.mol % 2 != 0 {
                let mut m = String::from_str("sqrt requires even dimension exponents, got ");
                push_unit_text(&mut m, u);
                Err(dim_error_exec(m))
            } else {
                Ok(Unit::new(u.kg / 2, u.m / 2, u.s / 2, u.k / 2, u.mol / 2))
            }
        },
        _ => {
            if !u.is_dimensionless() {
                let mut m = String::new();
                push_unop_text(&mut m, op);
                m.append(" requires dimensionless argument, got ");
                push_unit_text(&mut m, u);
                proof {
                    assert(m@ =~= unop_text(op) + " requires dimensionless argument, got "@
                        + unit_text(u));
                }
                Err(dim_error_exec(m))
            } else {
                Ok(Unit::dimensionless())
            }
        },
    }
}

/// The unit of `expr`, or `None` where an exponent leaves `i8`.
fn infer_checked(expr: &Expr, ctx: &DimensionContext) -> (r: Option<Result<Unit, ExpressionError>>)
    ensures
        match r {
            None => infer(expr@, ctx@) is None,
            Some(Ok(u)) => infer(expr@, ctx@) == Some(Ok::<Unit, ErrorView>(u)),
            Some(Err(e)) => infer(expr@, ctx@) == Some(Err::<Unit, ErrorView>(e@)),
        },
    decreases expr,
{
    match expr {
        Expr::Number(_) | Expr::Constant(_) => Some(Ok(Unit::dimensionless())),
        Expr::Variable(name) | Expr::FieldRef(name) => match ctx.get(name.as_str()) {
            Some(u) => Some(Ok(*u)),
            None => {
                let mut m = String::from_str("unknown dimension for `");
                m.append(name.as_str());
                m.append("`");
                Some(Err(dim_error_exec(m)))
            },
        },
        Expr::BinaryOp { op, left, right } => {
            let lu = match infer_checked(left, ctx) {
                Some(Ok(u)) => u,
                other => return other,
            };
            let ru = match infer_checked(right, ctx) {
                Some(Ok(u)) => u,
                other => return other,
            };
            infer_bin_checked(*op, right, lu, ru)
        },
        Expr::UnaryOp { op, operand } => {
            let u = match infer_checked(operand, ctx) {
                Some(Ok(u)) => u,
                other => return other,
            };
            Some(infer_un_exec(*op, u))
        },
        Expr::Conditional { true_val, false_val, .. } => {
            let tu = match infer_checked(true_val, ctx) {
                Some(Ok(u)) => u,
                other => return other,
            };
            let fu = match infer_checked(false_val, ctx) {
                Some(Ok(u)) => u,
                other => return other,
            };
            if units_differ(tu, fu) {
                let mut m = String::from_str("conditional branches have different dimensions: ");
                push_unit_text(&mut m, tu);
                m.append(" vs ");
                push_unit_text(&mut m, fu);
                Some(Err(dim_error_exec(m)))
            } else {
                Some(Ok(tu))
            }
        },
        _ => Some(Ok(Unit::dimensionless())),
    }
}

/// Whether the dimensions of `expr` can be inferred without a unit exponent
/// leaving the range of `i8`: the condition that [`check_dimensions`] asks.
pub fn dimensions_fit(expr: &Expr, ctx: &DimensionContext) -> (b: bool)
    ensures
        b == (infer(expr@, ctx@) is Some),
{
    infer_checked(expr, ctx).is_some()
}

/// Infer and check the physical dimensions of `expr`: the resulting unit
/// when every sub-expression is consistent, else the first inconsistency.
/// Only a literal integer exponent scales a unit; any other exponent needs a
/// dimensionless base.
pub fn check_dimensions(expr: &Expr, ctx: &DimensionContext) -> (r: Result<Unit, ExpressionError>)
    requires
        infer(expr@, ctx@) is Some,
    ensures
        match r {
            Ok(u) => infer(expr@, ctx@) == Some(Ok::<Unit, ErrorView>(u)),
            Err(e) => infer(expr@, ctx@) == Some(Err::<Unit, ErrorView>(e@)),
        },
{
    match infer_checked(expr, ctx) {
        Some(r) => r,
        None => Err(dim_error_exec(String::new())),
    }
}

} // verus!
