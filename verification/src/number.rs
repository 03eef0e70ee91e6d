//! Exact decimal numbers: the numeric literals and constants of expressions.
//!
//! A [`Num`] is a value `mant * 10^exp` kept in canonical form (no trailing
//! decimal zero in the mantissa, zero stored as `0 * 10^0`), so that two
//! numbers are equal exactly when their values are.  Arithmetic is exact:
//! an operation whose exact result cannot be held is reported as `None`.
use vstd::prelude::*;

verus! {

/// Largest magnitude of a decimal exponent.
pub const EXP_BOUND: i64 = 1000;

/// Largest exponent used when folding an integer power.
pub const POW_LIMIT: i64 = 64;

/// Number of extra decimal digits tried when dividing exactly.
pub const DIV_DIGITS: i64 = 38;

pub open(crate) spec fn pow10(n: nat) -> int
    decreases n,
{
    if n == 0 {
        1
    } else {
        10 * pow10((n - 1) as nat)
    }
}

pub open(crate) spec fn in_i128(x: int) -> bool {
    i128::MIN <= x <= i128::MAX
}

pub open(crate) spec fn abs_int(x: int) -> int {
    if x < 0 {
        -x
    } else {
        x
    }
}

/// Strip trailing decimal zeros from `m * 10^e`.
pub open(crate) spec fn norm(m: int, e: int) -> (int, int)
    decreases abs_int(m),
{
    if m == 0 {
        (0, 0)
    } else if m % 10 == 0 {
        norm(m / 10, e + 1)
    } else {
        (m, e)
    }
}

/// An exact decimal number `mant * 10^exp`.
#[derive(Debug, Clone, Copy, PartialEq, Eq, Structural)]
pub struct Num {
    pub(crate) mant: i128,
    pub(crate) exp: i64,
}

impl Num {
    /// Canonical form: no trailing zero digit, zero is `0e0`, bounded exponent.
    #[verifier::type_invariant]
    pub closed spec fn wf(self) -> bool {
        &&& (self.mant == 0 ==> self.exp == 0)
        &&& (self.mant != 0 ==> self.mant % 10 != 0)
        &&& -EXP_BOUND <= self.exp <= EXP_BOUND
    }

    pub open(crate) spec fn mantissa(self) -> int {
        self.mant as int
    }

    pub open(crate) spec fn exponent(self) -> int {
        self.exp as int
    }

    /// The value scaled to the decimal exponent `e` (for `e <= exponent()`).
    pub open(crate) spec fn scaled(self, e: int) -> int {
        self.mant * pow10((self.exp - e) as nat)
    }

    pub open(crate) spec fn spec_is_zero(self) -> bool {
        self.mant == 0
    }

    pub open(crate) spec fn spec_is_one(self) -> bool {
        self.mant == 1 && self.exp == 0
    }

    pub open(crate) spec fn spec_is_integer(self) -> bool {
        self.exp >= 0
    }
}

/// The canonical number with value `m * 10^e`, if it can be held.
pub open(crate) spec fn spec_make(m: int, e: int) -> Option<Num> {
    let (nm, ne) = norm(m, e);
    if in_i128(nm) && -EXP_BOUND <= ne <= EXP_BOUND {
        Some(Num { mant: nm as i128, exp: ne as i64 })
    } else {
        None
    }
}

pub open(crate) spec fn spec_num_int(i: int) -> Num {
    spec_make(i, 0).unwrap()
}

pub open(crate) spec fn spec_add(a: Num, b: Num) -> Option<Num> {
    let e = if a.exp <= b.exp { a.exp as int } else { b.exp as int };
    let sa = a.scaled(e);
    let sb = b.scaled(e);
    if in_i128(sa) && in_i128(sb) && in_i128(sa + sb) {
        spec_make(sa + sb, e)
    } else {
        None
    }
}

pub open(crate) spec fn spec_sub(a: Num, b: Num) -> Option<Num> {
    let e = if a.exp <= b.exp { a.exp as int } else { b.exp as int };
    let sa = a.scaled(e);
    let sb = b.scaled(e);
    if in_i128(sa) && in_i128(sb) && in_i128(sa - sb) {
        spec_make(sa - sb, e)
    } else {
        None
    }
}

pub open(crate) spec fn spec_mul(a: Num, b: Num) -> Option<Num> {
    if in_i128(a.mant * b.mant) {
        spec_make(a.mant * b.mant, a.exp + b.exp)
    } else {
        None
    }
}

pub open(crate) spec fn spec_neg(a: Num) -> Option<Num> {
    if in_i128(-a.mant) {
        Some(Num { mant: (-a.mant) as i128, exp: a.exp })
    } else {
        None
    }
}

pub open(crate) spec fn spec_abs(a: Num) -> Option<Num> {
    if a.mant < 0 {
        spec_neg(a)
    } else {
        Some(a)
    }
}

pub open(crate) spec fn square(r: int) -> int {
    r * r
}

/// `m` is the square of a non-negative integer.
pub open(crate) spec fn is_square(m: int) -> bool {
    exists|r: int| r >= 0 && #[trigger] square(r) == m
}

/// The exact square root of `a` when it is a decimal: `a` is not negative,
/// its exponent is even and its mantissa is a perfect square (a canonical
/// number with an odd exponent has an irrational root).
pub open(crate) spec fn spec_sqrt(a: Num) -> Option<Num> {
    if a.mant >= 0 && a.exp % 2 == 0 && is_square(a.mant as int) {
        spec_make(choose|r: int| r >= 0 && #[trigger] square(r) == a.mant, a.exp / 2)
    } else {
        None
    }
}

/// Exact integer quotient `x / d` when `d` divides `x`.
pub open(crate) spec fn exact_quot(x: int, d: int) -> Option<int> {
    let xm = abs_int(x);
    let dm = abs_int(d);
    if d == 0 || xm % dm != 0 {
        None
    } else {
        let qm = xm / dm;
        let q = if (x < 0) != (d < 0) { -qm } else { qm };
        if in_i128(q) {
            Some(q)
        } else {
            None
        }
    }
}

/// Exact quotient, looking for `k` extra digits, `k` from `k0` up to `DIV_DIGITS`.
pub open(crate) spec fn spec_div_from(a: Num, b: Num, k: int) -> Option<Num>
    decreases DIV_DIGITS + 1 - k,
{
    if k > DIV_DIGITS || k < 0 || b.mant == 0 {
        None
    } else {
        let sa = a.mant * pow10(k as nat);
        if !in_i128(sa) {
            None
        } else {
            match exact_quot(sa, b.mant as int) {
                Some(q) => spec_make(q, a.exp - b.exp - k),
                None => spec_div_from(a, b, k + 1),
            }
        }
    }
}

/// The exact quotient `a / b` when it is a decimal that can be held.
pub open(crate) spec fn spec_div(a: Num, b: Num) -> Option<Num> {
    spec_div_from(a, b, 0)
}

/// `a^n` by repeated exact multiplication.
pub open(crate) spec fn spec_pow_nat(a: Num, n: nat) -> Option<Num>
    decreases n,
{
    if n == 0 {
        Some(spec_num_int(1))
    } else {
        match spec_pow_nat(a, (n - 1) as nat) {
            Some(p) => spec_mul(p, a),
            None => None,
        }
    }
}

/// `a^b` for an integer exponent `b` with `|b| <= POW_LIMIT`.
pub open(crate) spec fn spec_pow(a: Num, b: Num) -> Option<Num> {
    if b.exp < 0 {
        None
    } else {
        let n = b.mant * pow10(b.exp as nat);
        if abs_int(n) <= POW_LIMIT {
            spec_pow_int(a, n)
        } else {
            None
        }
    }
}

pub open(crate) spec fn spec_pow_int(a: Num, n: int) -> Option<Num> {
    if n >= 0 {
        spec_pow_nat(a, n as nat)
    } else {
        match spec_pow_nat(a, (-n) as nat) {
            Some(p) => spec_div(spec_num_int(1), p),
            None => None,
        }
    }
}

// ---------------------------------------------------------------------------
// lemmas
// ---------------------------------------------------------------------------

pub proof fn lemma_pow10_pos(n: nat)
    ensures
        pow10(n) >= 1,
    decreases n,
{
    if n > 0 {
        lemma_pow10_pos((n - 1) as nat);
    }
}

pub proof fn lemma_pow10_add(a: nat, b: nat)
    ensures
        pow10(a + b) == pow10(a) * pow10(b),
    decreases a,
{
    if a > 0 {
        lemma_pow10_add((a - 1) as nat, b);
        assert(pow10(a + b) == 10 * pow10((a - 1 + b) as nat));
        assert(10 * (pow10((a - 1) as nat) * pow10(b)) == (10 * pow10((a - 1) as nat)) * pow10(b))
            by (nonlinear_arith);
    }
}

pub proof fn lemma_pow10_mono(a: nat, b: nat)
    requires
        a <= b,
    ensures
        pow10(a) <= pow10(b),
    decreases b,
{
    if a < b {
        lemma_pow10_mono(a, (b - 1) as nat);
        lemma_pow10_pos((b - 1) as nat);
    }
}

pub proof fn lemma_pow10_39()
    ensures
        pow10(39) > i128::MAX,
        pow10(38) <= i128::MAX,
{
    reveal_with_fuel(pow10, 40);
}

/// Magnitude of `m * 10^d` for a non-zero `m`.
proof fn lemma_scale_magnitude(m: int, d: nat)
    requires
        m != 0,
    ensures
        abs_int(m * pow10(d)) >= pow10(d),
        abs_int(m * pow10(d)) == abs_int(m) * pow10(d),
{
    lemma_pow10_pos(d);
    let p = pow10(d);
    if m > 0 {
        assert(m * p >= p) by (nonlinear_arith)
            requires
                m >= 1,
                p >= 1,
        ;
    } else {
        assert(m * p <= -p) by (nonlinear_arith)
            requires
                m <= -1,
                p >= 1,
        ;
        assert(-(m * p) == (-m) * p) by (nonlinear_arith);
    }
}

proof fn lemma_norm_props(m: int, e: int)
    ensures
        abs_int(norm(m, e).0) <= abs_int(m),
        norm(m, e).0 == 0 ==> norm(m, e).1 == 0,
        norm(m, e).0 != 0 ==> norm(m, e).0 % 10 != 0,
        m != 0 ==> norm(m, e).1 >= e,
        m != 0 ==> abs_int(norm(m, e).0) * pow10((norm(m, e).1 - e) as nat) == abs_int(m),
        m != 0 ==> norm(m, e).0 != 0,
    decreases abs_int(m),
{
    if m != 0 && m % 10 == 0 {
        let m2 = m / 10;
        lemma_norm_props(m2, e + 1);
        let (nm, ne) = norm(m2, e + 1);
        assert(abs_int(m2) * 10 == abs_int(m));
        assert(pow10((ne - e) as nat) == 10 * pow10((ne - (e + 1)) as nat));
        assert(abs_int(nm) * (10 * pow10((ne - (e + 1)) as nat)) == (abs_int(nm) * pow10(
            (ne - (e + 1)) as nat,
        )) * 10) by (nonlinear_arith);
    }
}

/// A value of `i128` range with an exponent in range gives a number.
proof fn lemma_make_some(m: int, e: int)
    requires
        in_i128(m),
        -EXP_BOUND <= e,
        e + 38 <= EXP_BOUND,
    ensures
        spec_make(m, e) is Some,
{
    lemma_norm_props(m, e);
    if m != 0 {
        let (nm, ne) = norm(m, e);
        if ne - e > 38 {
            lemma_pow10_39();
            lemma_pow10_mono(39, (ne - e) as nat);
            assert(abs_int(nm) * pow10((ne - e) as nat) >= pow10((ne - e) as nat)) by (nonlinear_arith)
                requires
                    abs_int(nm) >= 1,
                    pow10((ne - e) as nat) >= 1,
            ;
        }
    }
}

/// Facts about the numbers zero and one.
pub proof fn lemma_num_int_facts()
    ensures
        spec_num_int(0).spec_is_zero(),
        spec_num_int(1).spec_is_one(),
        !spec_num_int(1).spec_is_zero(),
        spec_add(spec_num_int(0), spec_num_int(0)) == Some(spec_num_int(0)),
        spec_sub(spec_num_int(0), spec_num_int(0)) == Some(spec_num_int(0)),
        spec_mul(spec_num_int(0), spec_num_int(0)) == Some(spec_num_int(0)),
        spec_neg(spec_num_int(0)) == Some(spec_num_int(0)),
{
    assert(norm(0, 0) == (0int, 0int));
    assert(norm(1, 0) == (1int, 0int));
    assert(pow10(0) == 1);
}

// ---------------------------------------------------------------------------
// canonical results
// ---------------------------------------------------------------------------

/// Stripping the zeros of `m * 10^k` gives `m` back when `m` has none.
proof fn lemma_norm_scaled(m: int, e: int, k: nat)
    requires
        m != 0,
        m % 10 != 0,
    ensures
        norm(m * pow10(k), e) == (m, e + k),
    decreases k,
{
    if k == 0 {
        assert(m * pow10(0) == m);
    } else {
        let p = pow10((k - 1) as nat);
        lemma_pow10_pos((k - 1) as nat);
        assert(pow10(k) == 10 * p);
        assert(m * (10 * p) == (m * p) * 10) by (nonlinear_arith);
        assert(m * p != 0) by (nonlinear_arith)
            requires
                m != 0,
                p >= 1,
        ;
        assert(((m * p) * 10) % 10 == 0 && ((m * p) * 10) / 10 == m * p) by (nonlinear_arith);
        lemma_scale_magnitude(m, k);
        lemma_norm_scaled(m, e + 1, (k - 1) as nat);
    }
}

/// Every number that `spec_make` builds is canonical.
pub(crate) proof fn lemma_make_wf(m: int, e: int)
    ensures
        spec_make(m, e) matches Some(n) ==> n.wf(),
{
    lemma_norm_props(m, e);
}

/// A canonical number is rebuilt unchanged from its own parts.
pub(crate) proof fn lemma_make_canonical(a: Num)
    requires
        a.wf(),
    ensures
        spec_make(a.mant as int, a.exp as int) == Some(a),
{
    if a.mant != 0 {
        lemma_norm_scaled(a.mant as int, a.exp as int, 0);
        assert(a.mant * pow10(0) == a.mant);
    }
}

/// A canonical number written at a lower exponent is rebuilt unchanged.
proof fn lemma_make_rescaled(a: Num, e: int)
    requires
        a.wf(),
        e <= a.exp,
    ensures
        spec_make(a.scaled(e), e) == Some(a),
{
    if a.mant != 0 {
        lemma_norm_scaled(a.mant as int, e, (a.exp - e) as nat);
    } else {
        assert(a.scaled(e) == 0);
    }
}

pub(crate) proof fn lemma_small_ints_wf()
    ensures
        spec_num_int(0).wf(),
        spec_num_int(1).wf(),
        spec_num_int(2).wf(),
        spec_num_int(0) == (Num { mant: 0, exp: 0 }),
        spec_num_int(1) == (Num { mant: 1, exp: 0 }),
        spec_num_int(2) == (Num { mant: 2, exp: 0 }),
{
    assert(norm(0, 0) == (0int, 0int));
    assert(norm(1, 0) == (1int, 0int));
    assert(norm(2, 0) == (2int, 0int));
}

/// Zero divided by any number is zero, where the quotient is a number.
pub(crate) proof fn lemma_zero_div(b: Num)
    ensures
        spec_div(spec_num_int(0), b) matches Some(n) ==> n == spec_num_int(0),
{
    lemma_small_ints_wf();
    if b.mant != 0 {
        assert(0 * pow10(0) == 0);
        let dm = abs_int(b.mant as int);
        assert(0int % dm == 0 && 0int / dm == 0) by (nonlinear_arith)
            requires
                dm > 0,
        ;
        assert(exact_quot(0, b.mant as int) == Some(0int));
        assert(norm(0, 0 - b.exp - 0) == (0int, 0int));
    }
}

/// The square of a non-zero number is not zero, where it is a number.
pub(crate) proof fn lemma_square_nonzero(a: Num)
    requires
        a.wf(),
        !a.spec_is_zero(),
    ensures
        spec_pow(a, spec_num_int(2)) matches Some(n) ==> !n.spec_is_zero(),
{
    lemma_small_ints_wf();
    lemma_identities(a);
    assert(2 * pow10(0) == 2);
    assert(spec_pow_nat(a, 1) == Some(a));
    assert(spec_pow_nat(a, 2) == spec_mul(a, a));
    let m = a.mant as int;
    assert(m * m != 0) by (nonlinear_arith)
        requires
            m != 0,
    ;
    lemma_norm_props(m * m, a.exp + a.exp);
}

pub(crate) proof fn lemma_neg_wf(a: Num)
    requires
        a.wf(),
    ensures
        spec_neg(a) matches Some(n) ==> n.wf(),
        spec_abs(a) matches Some(n) ==> n.wf(),
{
}

pub(crate) proof fn lemma_div_from_wf(a: Num, b: Num, k: int)
    ensures
        spec_div_from(a, b, k) matches Some(n) ==> n.wf(),
    decreases DIV_DIGITS + 1 - k,
{
    if !(k > DIV_DIGITS || k < 0 || b.mant == 0) {
        let sa = a.mant * pow10(k as nat);
        if in_i128(sa) {
            match exact_quot(sa, b.mant as int) {
                Some(q) => lemma_make_wf(q, a.exp - b.exp - k),
                None => lemma_div_from_wf(a, b, k + 1),
            }
        }
    }
}

pub(crate) proof fn lemma_pow_nat_wf(a: Num, n: nat)
    ensures
        spec_pow_nat(a, n) matches Some(r) ==> r.wf(),
    decreases n,
{
    lemma_small_ints_wf();
    if n > 0 {
        lemma_pow_nat_wf(a, (n - 1) as nat);
        if let Some(p) = spec_pow_nat(a, (n - 1) as nat) {
            lemma_make_wf(p.mant * a.mant, p.exp + a.exp);
        }
    }
}

/// Every exact operation gives a canonical number.
pub(crate) proof fn lemma_ops_wf(a: Num, b: Num)
    ensures
        spec_add(a, b) matches Some(n) ==> n.wf(),
        spec_sub(a, b) matches Some(n) ==> n.wf(),
        spec_mul(a, b) matches Some(n) ==> n.wf(),
        spec_div(a, b) matches Some(n) ==> n.wf(),
        spec_pow(a, b) matches Some(n) ==> n.wf(),
{
    let e = if a.exp <= b.exp { a.exp as int } else { b.exp as int };
    lemma_make_wf(a.scaled(e) + b.scaled(e), e);
    lemma_make_wf(a.scaled(e) - b.scaled(e), e);
    lemma_make_wf(a.mant * b.mant, a.exp + b.exp);
    lemma_div_from_wf(a, b, 0);
    if b.exp >= 0 {
        let n = b.mant * pow10(b.exp as nat);
        if n >= 0 {
            lemma_pow_nat_wf(a, n as nat);
        } else {
            lemma_pow_nat_wf(a, (-n) as nat);
            if let Some(p) = spec_pow_nat(a, (-n) as nat) {
                lemma_div_from_wf(spec_num_int(1), p, 0);
            }
        }
    }
}

/// The exact identities `a + 0 = 0 + a = a - 0 = a * 1 = 1 * a = a / 1 = a^1 = a`,
/// `a * 0 = 0 * a = 0`, `a - a = 0` and `a^0 = 1`, where the operation gives a number.
pub(crate) proof fn lemma_identities(a: Num)
    requires
        a.wf(),
    ensures
        spec_add(a, spec_num_int(0)) matches Some(n) ==> n == a,
        spec_add(spec_num_int(0), a) matches Some(n) ==> n == a,
        spec_sub(a, spec_num_int(0)) matches Some(n) ==> n == a,
        spec_sub(a, a) matches Some(n) ==> n == spec_num_int(0),
        spec_mul(a, spec_num_int(1)) == Some(a),
        spec_mul(spec_num_int(1), a) == Some(a),
        spec_mul(a, spec_num_int(0)) == Some(spec_num_int(0)),
        spec_mul(spec_num_int(0), a) == Some(spec_num_int(0)),
        spec_div(a, spec_num_int(1)) == Some(a),
        spec_pow(a, spec_num_int(0)) == Some(spec_num_int(1)),
        spec_pow(a, spec_num_int(1)) == Some(a),
        !a.spec_is_zero() ==> spec_div(a, a) == Some(spec_num_int(1)),
        a.spec_is_zero() ==> a == spec_num_int(0),
        a.spec_is_one() ==> a == spec_num_int(1),
{
    lemma_small_ints_wf();
    let z = spec_num_int(0);
    let o = spec_num_int(1);
    // additive identities
    let e = if a.exp <= 0 { a.exp as int } else { 0int };
    assert(z.scaled(e) == 0);
    lemma_make_rescaled(a, e);
    let e2 = if a.exp <= a.exp { a.exp as int } else { a.exp as int };
    assert(a.scaled(e2) == a.mant) by {
        assert(pow10(0) == 1);
    }
    assert(norm(0, e2) == (0int, 0int));
    // multiplicative identities
    lemma_make_canonical(a);
    assert(a.mant * 1 == a.mant);
    assert(1 * a.mant == a.mant);
    assert(a.mant * 0 == 0);
    assert(0 * a.mant == 0);
    assert(norm(0, a.exp as int) == (0int, 0int));
    // division by one
    assert(pow10(0) == 1);
    assert(exact_quot(a.mant as int, 1) == Some(a.mant as int));
    // powers
    assert(spec_pow_nat(a, 0) == Some(o));
    assert(spec_pow_nat(a, 1) == spec_mul(o, a));
    // a / a
    if !a.spec_is_zero() {
        let m = a.mant as int;
        assert(abs_int(m) % abs_int(m) == 0 && abs_int(m) / abs_int(m) == 1) by (nonlinear_arith)
            requires
                abs_int(m) > 0,
        ;
        assert(exact_quot(m, m) == Some(1int));
        assert(norm(1, 0) == (1int, 0int));
    }
}

// ---------------------------------------------------------------------------
// exactness
// ---------------------------------------------------------------------------

/// The value of `n` counted in units of `10^e` (meaningful for `e` at most
/// the exponent of `n`).
pub closed spec fn in_units(n: Num, e: int) -> int {
    n.mant * pow10((n.exp - e) as nat)
}

/// Stripping zeros keeps the value: `nm * 10^(ne - e) == m`.
proof fn lemma_norm_value(m: int, e: int)
    ensures
        norm(m, e).1 >= e || m == 0,
        norm(m, e).0 * pow10((norm(m, e).1 - e) as nat) == m || m == 0,
        m == 0 ==> norm(m, e) == (0int, 0int),
    decreases abs_int(m),
{
    if m != 0 && m % 10 == 0 {
        let m2 = m / 10;
        assert(m2 * 10 == m);
        assert(abs_int(m2) < abs_int(m));
        lemma_norm_value(m2, e + 1);
        let (nm, ne) = norm(m2, e + 1);
        assert(pow10((ne - e) as nat) == 10 * pow10((ne - (e + 1)) as nat));
        assert(nm * (10 * pow10((ne - (e + 1)) as nat)) == (nm * pow10((ne - (e + 1)) as nat)) * 10)
            by (nonlinear_arith);
    } else if m != 0 {
        assert(pow10(0) == 1);
    }
}

/// `a * 10^x * 10^y == a * 10^(x + y)`.
proof fn lemma_shift(a: int, x: nat, y: nat)
    ensures
        a * pow10(x) * pow10(y) == a * pow10(x + y),
{
    lemma_pow10_add(x, y);
    assert(a * pow10(x) * pow10(y) == a * (pow10(x) * pow10(y))) by (nonlinear_arith);
}

/// A number built by `spec_make(m, e)` is worth `m * 10^e`.
proof fn lemma_make_value(m: int, e: int, u: int)
    requires
        u <= e,
    ensures
        spec_make(m, e) matches Some(n) ==> in_units(n, u) == m * pow10((e - u) as nat),
{
    lemma_norm_value(m, e);
    if let Some(n) = spec_make(m, e) {
        if m == 0 {
            assert(0 * pow10((e - u) as nat) == 0);
            assert(0 * pow10((0 - u) as nat) == 0);
        } else {
            let (nm, ne) = norm(m, e);
            lemma_shift(nm, (ne - e) as nat, (e - u) as nat);
        }
    }
}

/// A canonical number counted in units of `10^u`, for `u` at most its
/// exponent, is its scaled mantissa.
proof fn lemma_units_scaled(a: Num, x: int, u: int)
    requires
        u <= x <= a.exp,
    ensures
        in_units(a, u) == a.scaled(x) * pow10((x - u) as nat),
{
    lemma_shift(a.mant as int, (a.exp - x) as nat, (x - u) as nat);
}

/// Sums, differences and products computed by the exact arithmetic have
/// exactly the value of the operation on the operands' values, counted in
/// units of `10^u` (of `10^(2u)` for the product) for any `u` at most every
/// exponent a number can have.
pub proof fn law_exact_arithmetic(a: Num, b: Num, u: int)
    requires
        a.wf(),
        b.wf(),
        u <= -EXP_BOUND,
    ensures
        spec_add(a, b) matches Some(c) ==> in_units(c, u) == in_units(a, u) + in_units(b, u),
        spec_sub(a, b) matches Some(c) ==> in_units(c, u) == in_units(a, u) - in_units(b, u),
        spec_mul(a, b) matches Some(c) ==> in_units(c, 2 * u) == in_units(a, u) * in_units(b, u),
{
    let e = if a.exp <= b.exp { a.exp as int } else { b.exp as int };
    let sa = a.scaled(e);
    let sb = b.scaled(e);
    let p = pow10((e - u) as nat);
    lemma_units_scaled(a, e, u);
    lemma_units_scaled(b, e, u);
    lemma_make_value(sa + sb, e, u);
    lemma_make_value(sa - sb, e, u);
    assert((sa + sb) * p == sa * p + sb * p) by (nonlinear_arith);
    assert((sa - sb) * p == sa * p - sb * p) by (nonlinear_arith);
    // product
    let am = a.mant as int;
    let bm = b.mant as int;
    let pa = pow10((a.exp - u) as nat);
    let pb = pow10((b.exp - u) as nat);
    lemma_make_value(am * bm, a.exp + b.exp, 2 * u);
    lemma_pow10_add((a.exp - u) as nat, (b.exp - u) as nat);
    assert((am * bm) * (pa * pb) == (am * pa) * (bm * pb)) by (nonlinear_arith);
}

/// Negation and absolute value are exact: the negation has the opposite
/// value and the absolute value the magnitude (never negative), both in the
/// canonical form; each can be computed unless the mantissa is the least
/// `i128`.
pub proof fn law_exact_sign(a: Num, u: int)
    requires
        a.wf(),
        u <= -EXP_BOUND,
    ensures
        spec_neg(a) matches Some(n) ==> n.wf() && in_units(n, u) == -in_units(a, u),
        spec_abs(a) matches Some(n) ==> n.wf() && in_units(n, u) == abs_int(in_units(a, u))
            && in_units(n, u) >= 0,
        a.mantissa() != i128::MIN ==> spec_neg(a) is Some && spec_abs(a) is Some,
{
    let p = pow10((a.exp - u) as nat);
    lemma_pow10_pos((a.exp - u) as nat);
    let m = a.mant as int;
    assert((-m) * p == -(m * p)) by (nonlinear_arith);
    assert(m < 0 ==> m * p < 0) by (nonlinear_arith)
        requires
            p >= 1,
    ;
    assert(m >= 0 ==> m * p >= 0) by (nonlinear_arith)
        requires
            p >= 1,
    ;
    if let Some(n) = spec_neg(a) {
        assert(n.mant == -m);
        assert(-m != 0 ==> (-m) % 10 != 0);
    }
}

/// A square root found by the exact arithmetic is not negative and its
/// square is exactly the number; one is found whenever the number is a
/// mantissa `r * r` (with `r` not negative) times an even power of ten.
pub proof fn law_exact_roots(a: Num, u: int, r: int)
    requires
        a.wf(),
        u <= -EXP_BOUND,
    ensures
        spec_sqrt(a) matches Some(n) ==> in_units(n, u) >= 0 && in_units(n, u) * in_units(n, u)
            == in_units(a, 2 * u),
        r >= 0 && r * r == a.mantissa() && a.exponent() % 2 == 0 ==> spec_sqrt(a) is Some,
{
    if r >= 0 && r * r == a.mant && a.exp % 2 == 0 {
        lemma_sqrt_is(a, r);
        assert(r <= r * r || r == 0) by (nonlinear_arith)
            requires
                r >= 0,
        ;
        lemma_make_some(r, a.exp / 2);
    }
    if let Some(n) = spec_sqrt(a) {
        let c = choose|c: int| c >= 0 && #[trigger] square(c) == a.mant;
        let h = a.exp / 2;
        lemma_make_value(c, h, u);
        let p = pow10((h - u) as nat);
        lemma_pow10_add((h - u) as nat, (h - u) as nat);
        lemma_pow10_pos((h - u) as nat);
        assert(((h - u) + (h - u)) as nat == (a.exp - 2 * u) as nat);
        assert(in_units(a, 2 * u) == a.mant * pow10((a.exp - 2 * u) as nat));
        assert((c * p) * (c * p) == (c * c) * (p * p)) by (nonlinear_arith);
        assert(c * p >= 0) by (nonlinear_arith)
            requires
                c >= 0,
                p >= 1,
        ;
    }
}

/// A quotient computed by the exact arithmetic times the divisor is exactly
/// the dividend, counted in units small enough for every quotient tried.
pub proof fn law_exact_division(a: Num, b: Num, u: int)
    requires
        a.wf(),
        b.wf(),
        u <= -(2 * EXP_BOUND + DIV_DIGITS),
    ensures
        spec_div(a, b) matches Some(c) ==> in_units(c, u) * in_units(b, u) == in_units(a, 2 * u),
{
    lemma_div_from_value(a, b, 0, u);
}

proof fn lemma_exact_quot(x: int, d: int)
    ensures
        exact_quot(x, d) matches Some(q) ==> q * d == x,
{
    if let Some(q) = exact_quot(x, d) {
        let xm = abs_int(x);
        let dm = abs_int(d);
        let qm = xm / dm;
        assert(qm * dm == xm) by (nonlinear_arith)
            requires
                dm > 0,
                xm % dm == 0,
                qm == xm / dm,
        ;
        if (x < 0) != (d < 0) {
            assert(q * d == x) by (nonlinear_arith)
                requires
                    q == -qm,
                    qm * dm == xm,
                    (x < 0) != (d < 0),
                    xm == abs_int(x),
                    dm == abs_int(d),
                    d != 0,
            ;
        } else {
            assert(q * d == x) by (nonlinear_arith)
                requires
                    q == qm,
                    qm * dm == xm,
                    (x < 0) == (d < 0),
                    xm == abs_int(x),
                    dm == abs_int(d),
                    d != 0,
            ;
        }
    }
}

proof fn lemma_div_from_value(a: Num, b: Num, k: int, u: int)
    requires
        a.wf(),
        b.wf(),
        u <= -(2 * EXP_BOUND + DIV_DIGITS),
        k >= 0,
    ensures
        spec_div_from(a, b, k) matches Some(c) ==> in_units(c, u) * in_units(b, u) == in_units(
            a,
            2 * u,
        ),
    decreases DIV_DIGITS + 1 - k,
{
    if !(k > DIV_DIGITS || k < 0 || b.mant == 0) {
        let sa = a.mant * pow10(k as nat);
        if in_i128(sa) {
            match exact_quot(sa, b.mant as int) {
                Some(q) => {
                    let ce = a.exp - b.exp - k;
                    lemma_exact_quot(sa, b.mant as int);
                    lemma_make_value(q, ce, u);
                    if let Some(c) = spec_make(q, ce) {
                        let bm = b.mant as int;
                        let am = a.mant as int;
                        let pc = pow10((ce - u) as nat);
                        let pb = pow10((b.exp - u) as nat);
                        let pk = pow10(k as nat);
                        lemma_pow10_add((ce - u) as nat, (b.exp - u) as nat);
                        lemma_pow10_add(k as nat, ((ce - u) + (b.exp - u)) as nat);
                        assert((a.exp - 2 * u) == k + (ce - u) + (b.exp - u));
                        assert((q * pc) * (bm * pb) == (q * bm) * (pc * pb)) by (nonlinear_arith);
                        assert((am * pk) * (pc * pb) == am * (pk * (pc * pb))) by (nonlinear_arith);
                    }
                },
                None => lemma_div_from_value(a, b, k + 1, u),
            }
        }
    }
}

// ---------------------------------------------------------------------------
// executable operations
// ---------------------------------------------------------------------------

/// `m * 10^d` when it fits an `i128`.
fn scale(m: i128, d: i64) -> (r: Option<i128>)
    requires
        d >= 0,
    ensures
        r == (if in_i128(m * pow10(d as nat)) {
            Some((m * pow10(d as nat)) as i128)
        } else {
            None::<i128>
        }),
{
    if m == 0 {
        assert(0 * pow10(d as nat) == 0);
        return Some(0);
    }
    proof {
        lemma_scale_magnitude(m as int, d as nat);
    }
    if d > 38 {
        proof {
            lemma_pow10_39();
            lemma_pow10_mono(39, d as nat);
        }
        return None;
    }
    let mut v: i128 = m;
    let mut i: i64 = 0;
    while i < d
        invariant
            0 <= i <= d <= 38,
            m != 0,
            v == m * pow10(i as nat),
        decreases d - i,
    {
        let ghost old_i = i;
        proof {
            assert(pow10((i + 1) as nat) == 10 * pow10(i as nat));
            assert(m * (10 * pow10(i as nat)) == (m * pow10(i as nat)) * 10) by (nonlinear_arith);
        }
        match v.checked_mul(10) {
            Some(w) => {
                v = w;
            },
            None => {
                proof {
                    lemma_scale_magnitude(m as int, (i + 1) as nat);
                    lemma_scale_magnitude(m as int, d as nat);
                    lemma_pow10_mono((i + 1) as nat, d as nat);
                    let a = abs_int(m as int);
                    assert(a * pow10((i + 1) as nat) <= a * pow10(d as nat)) by (nonlinear_arith)
                        requires
                            a >= 1,
                            pow10((i + 1) as nat) <= pow10(d as nat),
                    ;
                }
                return None;
            },
        }
        i = i + 1;
    }
    Some(v)
}

/// The canonical number with value `m * 10^e`.
pub(crate) fn make(m: i128, e: i64) -> (r: Option<Num>)
    requires
        -4 * EXP_BOUND <= e <= 4 * EXP_BOUND,
    ensures
        r == spec_make(m as int, e as int),
{
    if m == 0 {
        return Some(Num { mant: 0, exp: 0 });
    }
    let mut cm = m;
    let mut ce = e;
    proof {
        lemma_pow10_39();
    }
    while cm % 10 == 0
        invariant
            cm != 0,
            norm(cm as int, ce as int) == norm(m as int, e as int),
            e <= ce <= e + 38,
            -4 * EXP_BOUND <= e <= 4 * EXP_BOUND,
            abs_int(cm as int) * pow10((ce - e) as nat) == abs_int(m as int),
            pow10(39) > i128::MAX,
        decreases abs_int(cm as int),
    {
        proof {
            let a = abs_int(cm as int);
            let c2 = abs_int((cm / 10) as int);
            assert(c2 * 10 == a);
            assert(c2 >= 1);
            lemma_pow10_pos((ce - e) as nat);
            assert(pow10((ce + 1 - e) as nat) == 10 * pow10((ce - e) as nat));
            assert(c2 * (10 * pow10((ce - e) as nat)) == a * pow10((ce - e) as nat))
                by (nonlinear_arith)
                requires
                    c2 * 10 == a,
            ;
            if ce + 1 - e > 38 {
                lemma_pow10_mono(39, (ce + 1 - e) as nat);
                assert(c2 * pow10((ce + 1 - e) as nat) >= pow10((ce + 1 - e) as nat))
                    by (nonlinear_arith)
                    requires
                        c2 >= 1,
                        pow10((ce + 1 - e) as nat) >= 1,
                ;
            }
        }
        cm = cm / 10;
        ce = ce + 1;
    }
    if -EXP_BOUND <= ce && ce <= EXP_BOUND {
        Some(Num { mant: cm, exp: ce })
    } else {
        None
    }
}

impl Num {
    /// The number `0`.
    pub fn zero() -> (r: Num)
        ensures
            r == spec_num_int(0),
            r.spec_is_zero(),
    {
        Num { mant: 0, exp: 0 }
    }

    /// The integer `i` as a number.
    pub fn from_int(i: i64) -> (r: Num)
        ensures
            r == spec_num_int(i as int),
    {
        proof {
            lemma_make_some(i as int, 0);
        }
        make(i as i128, 0).unwrap()
    }

    /// The decimal `mant * 10^exp` as a number.
    pub fn decimal(mant: i64, exp: i8) -> (r: Num)
        ensures
            Some(r) == spec_make(mant as int, exp as int),
    {
        proof {
            lemma_make_some(mant as int, exp as int);
        }
        make(mant as i128, exp as i64).unwrap()
    }

    pub fn is_zero(&self) -> (b: bool)
        ensures
            b == self.spec_is_zero(),
    {
        self.mant == 0
    }

    /// Whether the value is below zero.
    pub fn is_negative(&self) -> (b: bool)
        ensures
            b == (self.mantissa() < 0),
    {
        self.mant < 0
    }

    /// Whether the value is a whole number.
    pub fn is_integer(&self) -> (b: bool)
        ensures
            b == (self.exponent() >= 0),
    {
        self.exp >= 0
    }

    pub fn is_one(&self) -> (b: bool)
        ensures
            b == self.spec_is_one(),
    {
        self.mant == 1 && self.exp == 0
    }

    /// A whole number of magnitude below `10^k`.
    pub open(crate) spec fn spec_is_integer_below(self, k: nat) -> bool {
        self.exp >= 0 && abs_int(self.mant as int) * pow10(self.exp as nat) < pow10(k)
    }

    /// Whether the value is a whole number of magnitude below `10^k`.
    pub fn is_integer_below(&self, k: u32) -> (b: bool)
        requires
            k <= 30,
        ensures
            b == self.spec_is_integer_below(k as nat),
    {
        proof {
            use_type_invariant(self);
        }
        if self.exp < 0 {
            return false;
        }
        if self.mant == 0 {
            proof {
                lemma_pow10_pos(k as nat);
            }
            return true;
        }
        let e = self.exp as u32;
        let ghost m = abs_int(self.mant as int);
        proof {
            lemma_pow10_pos(e as nat);
        }
        if e >= k {
            proof {
                lemma_pow10_mono(k as nat, e as nat);
                let p = pow10(e as nat);
                assert(m * p >= p) by (nonlinear_arith)
                    requires
                        m >= 1,
                        p >= 1,
                ;
            }
            return false;
        }
        let j = k - e;
        let mut bound: u128 = 1;
        let mut i: u32 = 0;
        while i < j
            invariant
                i <= j <= 30,
                bound == pow10(i as nat),
            decreases j - i,
        {
            proof {
                lemma_pow10_mono((i + 1) as nat, 30);
                reveal_with_fuel(pow10, 31);
                assert(pow10(30) < u128::MAX);
            }
            bound = bound * 10;
            i = i + 1;
        }
        let mag: u128 = if self.mant < 0 {
            if self.mant == i128::MIN {
                (i128::MAX as u128) + 1
            } else {
                (-self.mant) as u128
            }
        } else {
            self.mant as u128
        };
        proof {
            lemma_pow10_add(j as nat, e as nat);
            let p = pow10(e as nat);
            let q = pow10(j as nat);
            assert(mag == m);
            assert((m * p < q * p) == (m < q)) by (nonlinear_arith)
                requires
                    p >= 1,
            ;
        }
        mag < bound
    }
}

pub fn num_add(a: Num, b: Num) -> (r: Option<Num>)
    ensures
        r == spec_add(a, b),
{
    proof {
        use_type_invariant(&a);
        use_type_invariant(&b);
    }
    let e = if a.exp <= b.exp { a.exp } else { b.exp };
    let sa = scale(a.mant, a.exp - e);
    let sb = scale(b.mant, b.exp - e);
    match (sa, sb) {
        (Some(x), Some(y)) => match x.checked_add(y) {
            Some(s) => make(s, e),
            None => None,
        },
        _ => None,
    }
}

pub fn num_sub(a: Num, b: Num) -> (r: Option<Num>)
    ensures
        r == spec_sub(a, b),
{
    proof {
        use_type_invariant(&a);
        use_type_invariant(&b);
    }
    let e = if a.exp <= b.exp { a.exp } else { b.exp };
    let sa = scale(a.mant, a.exp - e);
    let sb = scale(b.mant, b.exp - e);
    match (sa, sb) {
        (Some(x), Some(y)) => match x.checked_sub(y) {
            Some(s) => make(s, e),
            None => None,
        },
        _ => None,
    }
}

pub fn num_mul(a: Num, b: Num) -> (r: Option<Num>)
    ensures
        r == spec_mul(a, b),
{
    proof {
        use_type_invariant(&a);
        use_type_invariant(&b);
    }
    match a.mant.checked_mul(b.mant) {
        Some(p) => make(p, a.exp + b.exp),
        None => None,
    }
}

pub fn num_neg(a: Num) -> (r: Option<Num>)
    ensures
        r == spec_neg(a),
{
    proof {
        use_type_invariant(&a);
    }
    if a.mant == i128::MIN {
        None
    } else {
        Some(Num { mant: -a.mant, exp: a.exp })
    }
}

pub fn num_abs(a: Num) -> (r: Option<Num>)
    ensures
        r == spec_abs(a),
{
    if a.mant < 0 {
        num_neg(a)
    } else {
        Some(a)
    }
}

fn magnitude(x: i128) -> (r: u128)
    ensures
        r == abs_int(x as int),
{
    if x < 0 {
        ((-(x + 1)) as u128) + 1
    } else {
        x as u128
    }
}

/// Exact integer quotient.
fn quot(x: i128, d: i128) -> (r: Option<i128>)
    ensures
        r == (match exact_quot(x as int, d as int) {
            Some(q) => Some(q as i128),
            None => None::<i128>,
        }),
{
    if d == 0 {
        return None;
    }
    let xm = magnitude(x);
    let dm = magnitude(d);
    if xm % dm != 0 {
        return None;
    }
    let qm = xm / dm;
    if (x < 0) != (d < 0) {
        if qm <= (i128::MAX as u128) + 1 {
            if qm == (i128::MAX as u128) + 1 {
                Some(i128::MIN)
            } else {
                Some(-(qm as i128))
            }
        } else {
            None
        }
    } else {
        if qm <= i128::MAX as u128 {
            Some(qm as i128)
        } else {
            None
        }
    }
}

/// A product of two non-zero numbers is not zero, where it is a number.
pub(crate) proof fn lemma_mul_nonzero(a: Num, b: Num)
    requires
        !a.spec_is_zero(),
        !b.spec_is_zero(),
    ensures
        spec_mul(a, b) matches Some(p) ==> !p.spec_is_zero(),
{
    let m = a.mant * b.mant;
    assert(m != 0) by (nonlinear_arith)
        requires
            a.mant != 0,
            b.mant != 0,
            m == a.mant * b.mant,
    ;
    lemma_norm_props(m, a.exp + b.exp);
}

/// Square roots of non-negative integers are unique.
proof fn lemma_root_unique(a: int, b: int)
    requires
        a >= 0,
        b >= 0,
        a * a == b * b,
    ensures
        a == b,
{
    if a < b {
        assert(a * a < b * b) by (nonlinear_arith)
            requires
                0 <= a < b,
        ;
    } else if b < a {
        assert(b * b < a * a) by (nonlinear_arith)
            requires
                0 <= b < a,
        ;
    }
}

/// The root chosen by `spec_sqrt` is the one found.
proof fn lemma_sqrt_is(a: Num, r: int)
    requires
        a.mant >= 0,
        a.exp % 2 == 0,
        r >= 0,
        r * r == a.mant,
    ensures
        spec_sqrt(a) == spec_make(r, a.exp / 2),
{
    assert(square(r) == a.mant);
    assert(is_square(a.mant as int));
    let c = choose|c: int| c >= 0 && #[trigger] square(c) == a.mant;
    lemma_root_unique(c, r);
}

/// The square root of a canonical number is canonical, and it is zero only
/// for zero.
pub(crate) proof fn lemma_sqrt_wf(a: Num)
    requires
        a.wf(),
    ensures
        spec_sqrt(a) matches Some(n) ==> n.wf() && (n.spec_is_zero() == a.spec_is_zero()),
{
    if spec_sqrt(a) is Some {
        let r = choose|c: int| c >= 0 && #[trigger] square(c) == a.mant;
        lemma_make_wf(r, a.exp / 2);
        lemma_norm_props(r, a.exp / 2);
        if a.mant != 0 {
            assert(square(r) == a.mant);
            assert(r != 0);
        } else {
            assert(r == 0) by {
                lemma_root_unique(r, 0);
            }
            assert(norm(0, a.exp / 2) == (0int, 0int));
        }
    }
}

/// The exact square root of `a`, when it is a decimal.
pub fn num_sqrt(a: Num) -> (r: Option<Num>)
    ensures
        r == spec_sqrt(a),
{
    proof {
        use_type_invariant(&a);
    }
    if a.mant < 0 || a.exp % 2 != 0 {
        return None;
    }
    let m = a.mant as u128;
    // largest `lo` with `lo * lo <= m`
    let mut lo: u128 = 0;
    let mut hi: u128 = 0x1_0000_0000_0000_0000;
    assert(m < hi * hi) by (nonlinear_arith)
        requires
            m <= 0x7fff_ffff_ffff_ffff_ffff_ffff_ffff_ffff,
            hi == 0x1_0000_0000_0000_0000,
    ;
    while hi - lo > 1
        invariant
            lo < hi <= 0x1_0000_0000_0000_0000,
            lo * lo <= m,
            m < hi * hi,
        decreases hi - lo,
    {
        let mid = lo + (hi - lo) / 2;
        assert(mid * mid <= 0xffff_ffff_ffff_ffff * 0xffff_ffff_ffff_ffff) by (nonlinear_arith)
            requires
                mid < 0x1_0000_0000_0000_0000,
        ;
        if mid * mid <= m {
            lo = mid;
        } else {
            hi = mid;
        }
    }
    assert(hi == lo + 1);
    if lo * lo == m {
        proof {
            assert(square(lo as int) == a.mant);
            lemma_sqrt_is(a, lo as int);
        }
        make(lo as i128, a.exp / 2)
    } else {
        proof {
            if is_square(a.mant as int) {
                let c = choose|c: int| c >= 0 && #[trigger] square(c) == a.mant;
                if c <= lo {
                    assert(c * c <= lo * lo) by (nonlinear_arith)
                        requires
                            0 <= c <= lo,
                    ;
                    assert(c * c < lo * lo);
                    assert(false);
                } else {
                    assert(hi * hi <= c * c) by (nonlinear_arith)
                        requires
                            0 <= hi <= c,
                    ;
                    assert(false);
                }
            }
        }
        None
    }
}

pub fn num_div(a: Num, b: Num) -> (r: Option<Num>)
    ensures
        r == spec_div(a, b),
{
    proof {
        use_type_invariant(&a);
        use_type_invariant(&b);
    }
    if b.mant == 0 {
        return None;
    }
    let mut k: i64 = 0;
    while k <= DIV_DIGITS
        invariant
            0 <= k <= DIV_DIGITS + 1,
            b.mant != 0,
            -EXP_BOUND <= a.exp <= EXP_BOUND,
            -EXP_BOUND <= b.exp <= EXP_BOUND,
            spec_div(a, b) == spec_div_from(a, b, k as int),
        decreases DIV_DIGITS + 1 - k,
    {
        match scale(a.mant, k) {
            None => {
                return None;
            },
            Some(sa) => {
                match quot(sa, b.mant) {
                    Some(q) => {
                        return make(q, a.exp - b.exp - k);
                    },
                    None => {},
                }
            },
        }
        k = k + 1;
    }
    None
}

fn num_pow_nat(a: Num, n: i64) -> (r: Option<Num>)
    requires
        0 <= n <= POW_LIMIT,
    ensures
        r == spec_pow_nat(a, n as nat),
{
    let mut acc = Num::from_int(1);
    let mut i: i64 = 0;
    while i < n
        invariant
            0 <= i <= n,
            spec_pow_nat(a, i as nat) == Some(acc),
        decreases n - i,
    {
        match num_mul(acc, a) {
            Some(p) => {
                acc = p;
            },
            None => {
                proof {
                    lemma_pow_nat_none_persists(a, (i + 1) as nat, n as nat);
                }
                return None;
            },
        }
        i = i + 1;
    }
    Some(acc)
}

proof fn lemma_pow_nat_none_persists(a: Num, i: nat, n: nat)
    requires
        spec_pow_nat(a, i) is None,
        i <= n,
    ensures
        spec_pow_nat(a, n) is None,
    decreases n - i,
{
    if i < n {
        lemma_pow_nat_none_persists(a, i + 1, n);
    }
}

fn num_pow_int(a: Num, n: i64) -> (r: Option<Num>)
    requires
        -POW_LIMIT <= n <= POW_LIMIT,
    ensures
        r == spec_pow_int(a, n as int),
{
    if n >= 0 {
        num_pow_nat(a, n)
    } else {
        match num_pow_nat(a, -n) {
            Some(p) => num_div(Num::from_int(1), p),
            None => None,
        }
    }
}

/// `a^b` when `b` is an integer with `|b| <= POW_LIMIT` and the result is exact.
pub fn num_pow(a: Num, b: Num) -> (r: Option<Num>)
    ensures
        r == spec_pow(a, b),
{
    proof {
        use_type_invariant(&b);
        reveal_with_fuel(pow10, 3);
        assert(pow10(0) == 1);
        assert(pow10(1) == 10);
        assert(pow10(2) == 100);
    }
    if b.exp < 0 {
        None
    } else if b.exp == 0 {
        assert(b.mant * pow10(0) == b.mant);
        if -POW_LIMIT as i128 <= b.mant && b.mant <= POW_LIMIT as i128 {
            num_pow_int(a, b.mant as i64)
        } else {
            None
        }
    } else if b.exp == 1 && -6 <= b.mant && b.mant <= 6 {
        assert(b.mant * pow10(1) == b.mant * 10);
        num_pow_int(a, (b.mant * 10) as i64)
    } else {
        proof {
            if b.exp == 1 {
                assert(b.mant * pow10(1) == b.mant * 10);
                assert(abs_int(b.mant * pow10(b.exp as nat)) > POW_LIMIT);
            } else {
                lemma_pow10_mono(2, b.exp as nat);
                lemma_scale_magnitude(b.mant as int, b.exp as nat);
                assert(abs_int(b.mant * pow10(b.exp as nat)) > POW_LIMIT);
            }
        }
        None
    }
}

/// The value truncated toward zero.
pub open(crate) spec fn spec_trunc(n: Num) -> int {
    if n.exp >= 0 {
        n.mant * pow10(n.exp as nat)
    } else if n.mant >= 0 {
        (n.mant as int) / pow10((-n.exp) as nat)
    } else {
        -((-(n.mant as int)) / pow10((-n.exp) as nat))
    }
}

/// The value truncated toward zero and saturated to the range of `i8`.
pub open(crate) spec fn spec_to_i8_saturating(n: Num) -> int {
    let t = spec_trunc(n);
    if t < -128 {
        -128
    } else if t > 127 {
        127
    } else {
        t
    }
}

impl Num {
    /// The value truncated toward zero and saturated to the range of `i8`.
    pub fn to_i8_saturating(&self) -> (r: i8)
        ensures
            r == spec_to_i8_saturating(*self),
    {
        proof {
            use_type_invariant(self);
            lemma_pow10_39();
        }
        let m = self.mant;
        if self.exp >= 0 {
            if m == 0 {
                assert(0 * pow10(self.exp as nat) == 0);
                return 0;
            }
            proof {
                lemma_scale_magnitude(m as int, self.exp as nat);
            }
            if m > 127 || m < -128 || self.exp > 2 {
                proof {
                    lemma_pow10_pos(self.exp as nat);
                    if self.exp > 2 {
                        lemma_pow10_mono(3, self.exp as nat);
                        reveal_with_fuel(pow10, 4);
                    }
                    let pp = pow10(self.exp as nat);
                    if m > 0 {
                        assert(m * pp >= m && m * pp >= pp) by (nonlinear_arith)
                            requires
                                m > 0,
                                pp >= 1,
                        ;
                    } else {
                        assert(m * pp <= m && m * pp <= -pp) by (nonlinear_arith)
                            requires
                                m < 0,
                                pp >= 1,
                        ;
                    }
                }
                return if m > 0 { 127 } else { -128 };
            }
            let f: i128 = if self.exp == 0 { 1 } else if self.exp == 1 { 10 } else { 100 };
            proof {
                reveal_with_fuel(pow10, 3);
            }
            let v = m * f;
            if v > 127 {
                127
            } else if v < -128 {
                -128
            } else {
                v as i8
            }
        } else {
            let k = -self.exp;
            let mag = if m < 0 {
                if m == i128::MIN {
                    (i128::MAX as u128) + 1
                } else {
                    (-m) as u128
                }
            } else {
                m as u128
            };
            let q: u128 = if k > 38 {
                proof {
                    lemma_pow10_mono(39, k as nat);
                    assert(mag < pow10(k as nat));
                    vstd::arithmetic::div_mod::lemma_basic_div(mag as int, pow10(k as nat));
                }
                0
            } else {
                let mut p: u128 = 1;
                let mut i: i64 = 0;
                while i < k
                    invariant
                        0 <= i <= k <= 38,
                        p == pow10(i as nat),
                        p >= 1,
                        pow10(38) <= i128::MAX,
                    decreases k - i,
                {
                    proof {
                        lemma_pow10_mono((i + 1) as nat, 38);
                        lemma_pow10_pos((i + 1) as nat);
                    }
                    p = p * 10;
                    i = i + 1;
                }
                mag / p
            };
            proof {
                lemma_pow10_pos(k as nat);
                assert(q as int == abs_int(m as int) / pow10(k as nat));
                vstd::arithmetic::div_mod::lemma_div_is_ordered_by_denominator(
                    abs_int(m as int),
                    1,
                    pow10(k as nat),
                );
            }
            if m >= 0 {
                if q > 127 {
                    127
                } else {
                    q as i8
                }
            } else {
                if q > 128 {
                    -128
                } else {
                    (-(q as i16)) as i8
                }
            }
        }
    }
}

// ---------------------------------------------------------------------------
// text
// ---------------------------------------------------------------------------

pub open spec fn zeros(k: nat) -> Seq<char> {
    Seq::new(k, |i: int| '0')
}

/// Plain decimal text of a number: sign, digits and a decimal point where
/// the value has a fractional part; no exponent.
pub open(crate) spec fn num_text(n: Num) -> Seq<char> {
    let sign = if n.mant < 0 { seq!['-'] } else { Seq::<char>::empty() };
    let d = crate::text::nat_text(abs_int(n.mant as int) as nat);
    if n.exp >= 0 {
        sign + d + zeros(n.exp as nat)
    } else {
        let k = -n.exp;
        if d.len() > k {
            sign + d.take(d.len() - k) + seq!['.'] + d.skip(d.len() - k)
        } else {
            sign + seq!['0', '.'] + zeros((k - d.len()) as nat) + d
        }
    }
}

fn push_zeros(s: &mut String, k: u64)
    ensures
        final(s)@ == old(s)@ + zeros(k as nat),
{
    let mut i: u64 = 0;
    while i < k
        invariant
            i <= k,
            s@ == old(s)@ + zeros(i as nat),
        decreases k - i,
    {
        crate::text::push_char(s, '0');
        proof {
            assert(old(s)@ + zeros(i as nat) + seq!['0'] =~= old(s)@ + zeros((i + 1) as nat));
        }
        i = i + 1;
    }
}

fn push_chars(s: &mut String, cs: &Vec<char>, start: usize, end: usize)
    requires
        start <= end <= cs.len(),
    ensures
        final(s)@ == old(s)@ + cs@.subrange(start as int, end as int),
{
    let mut i = start;
    while i < end
        invariant
            start <= i <= end <= cs.len(),
            s@ == old(s)@ + cs@.subrange(start as int, i as int),
        decreases end - i,
    {
        crate::text::push_char(s, cs[i]);
        proof {
            assert(old(s)@ + cs@.subrange(start as int, i as int) + seq![cs@[i as int]] =~= old(s)@
                + cs@.subrange(start as int, i + 1));
        }
        i = i + 1;
    }
}

/// Appends the plain decimal text of `n`.
#[verifier::rlimit(40)]
pub fn push_num_text(s: &mut String, n: Num)
    ensures
        final(s)@ == old(s)@ + num_text(n),
{
    proof {
        use_type_invariant(&n);
    }
    let ghost s0 = s@;
    if n.mant < 0 {
        crate::text::push_char(s, '-');
    }
    let ghost sign = if n.mant < 0 { seq!['-'] } else { Seq::<char>::empty() };
    assert(s@ == s0 + sign);
    let mag = if n.mant < 0 {
        if n.mant == i128::MIN {
            (i128::MAX as u128) + 1
        } else {
            (-n.mant) as u128
        }
    } else {
        n.mant as u128
    };
    let ds = crate::text::nat_to_string(mag);
    let d = crate::text::chars_of(ds.as_str());
    let ghost dd = crate::text::nat_text(abs_int(n.mant as int) as nat);
    assert(d@ == dd);
    if n.exp >= 0 {
        push_chars(s, &d, 0, d.len());
        push_zeros(s, n.exp as u64);
        proof {
            assert(d@.subrange(0, d.len() as int) =~= d@);
            assert(s@ =~= s0 + num_text(n));
        }
    } else {
        let k = (-n.exp) as usize;
        if d.len() > k {
            push_chars(s, &d, 0, d.len() - k);
            crate::text::push_char(s, '.');
            push_chars(s, &d, d.len() - k, d.len());
            proof {
                assert(s@ =~= s0 + num_text(n));
            }
        } else {
            crate::text::push_char(s, '0');
            crate::text::push_char(s, '.');
            push_zeros(s, (k - d.len()) as u64);
            push_chars(s, &d, 0, d.len());
            proof {
                assert(d@.subrange(0, d.len() as int) =~= d@);
                assert(s@ =~= s0 + num_text(n));
            }
        }
    }
}

} // verus!
