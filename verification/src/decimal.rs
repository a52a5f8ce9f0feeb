//! Exact decimal numbers for prices and quantities.
//!
//! A `Decimal` holds a mantissa and a decimal scale and denotes the value
//! `mantissa / 10^scale`. The engine only ever compares decimals and
//! subtracts a smaller quantity from a larger one, and both operations are
//! exact: no rounding ever happens on the match path. Comparison and
//! subtraction are carried out by the `bigdecimal` crate behind two trusted
//! wrappers whose contracts are stated over the mathematical value.
use vstd::prelude::*;

verus! {

/// 10^n as a mathematical integer.
pub open spec fn pow10(n: nat) -> int
    decreases n,
{
    if n == 0 {
        1
    } else {
        10 * pow10((n - 1) as nat)
    }
}

pub proof fn lemma_pow10_pos(n: nat)
    ensures
        pow10(n) >= 1,
    decreases n,
{
    if n > 0 {
        lemma_pow10_pos((n - 1) as nat);
    }
}

pub proof fn lemma_pow10_add(a: nat, b: nat)
    ensures
        pow10(a + b) == pow10(a) * pow10(b),
    decreases a,
{
    if a == 0 {
    } else {
        lemma_pow10_add((a - 1) as nat, b);
        assert(pow10(a + b) == 10 * pow10((a - 1) as nat + b)) by {
            assert(a + b == ((a - 1) as nat + b) + 1);
        }
        assert(10 * (pow10((a - 1) as nat) * pow10(b)) == (10 * pow10((a - 1) as nat)) * pow10(b))
            by (nonlinear_arith);
    }
}

pub proof fn lemma_pow10_mono(a: nat, b: nat)
    requires
        a <= b,
    ensures
        pow10(a) <= pow10(b),
    decreases b,
{
    if a < b {
        lemma_pow10_mono(a, (b - 1) as nat);
        lemma_pow10_pos((b - 1) as nat);
    }
}

/// Largest scale a well-formed decimal may carry.
pub const MAX_SCALE: u32 = 18;

/// Bound on the magnitude of a well-formed decimal, measured in 10^-18 units;
/// this is 10^37, which leaves room for an exact difference of two
/// well-formed decimals inside `i128`.
pub const UNITS_BOUND: i128 = 10000000000000000000000000000000000000;

/// An exact decimal: the value `mantissa / 10^scale`.
#[derive(Clone, Copy, Debug, PartialEq, Eq, Structural)]
pub struct Decimal {
    pub mantissa: i128,
    pub scale: u32,
}

impl Decimal {
    /// The value of this decimal measured in 10^-18 units, an exact integer
    /// for every well-formed decimal.
    pub open spec fn units(self) -> int {
        self.mantissa * pow10((MAX_SCALE - self.scale) as nat)
    }

    /// Well-formedness: the scale is bounded and the magnitude leaves room
    /// for exact subtraction inside `i128`.
    pub open spec fn wf(self) -> bool {
        &&& self.scale <= MAX_SCALE
        &&& -(UNITS_BOUND as int) < self.units()
        &&& self.units() < UNITS_BOUND as int
    }

    pub fn new(mantissa: i128, scale: u32) -> (r: Decimal)
        ensures
            r.mantissa == mantissa,
            r.scale == scale,
    {
        Decimal { mantissa, scale }
    }

    pub fn zero() -> (r: Decimal)
        ensures
            r.mantissa == 0,
            r.scale == 0,
            r.units() == 0,
            r.wf(),
    {
        proof {
            lemma_pow10_pos((MAX_SCALE - 0) as nat);
        }
        Decimal { mantissa: 0, scale: 0 }
    }
}

/// The sign of a bounded-scale decimal is the sign of its mantissa.
pub proof fn lemma_units_sign(d: Decimal)
    requires
        d.scale <= MAX_SCALE,
    ensures
        d.units() > 0 <==> d.mantissa > 0,
        d.units() < 0 <==> d.mantissa < 0,
        d.units() == 0 <==> d.mantissa == 0,
{
    lemma_pow10_pos((MAX_SCALE - d.scale) as nat);
    let p = pow10((MAX_SCALE - d.scale) as nat);
    assert(d.mantissa > 0 ==> d.mantissa * p > 0) by (nonlinear_arith)
        requires p >= 1;
    assert(d.mantissa < 0 ==> d.mantissa * p < 0) by (nonlinear_arith)
        requires p >= 1;
    assert(d.mantissa == 0 ==> d.mantissa * p == 0) by (nonlinear_arith);
}

/// The mantissa of the exact difference of `a` and `b`, written at the
/// larger of the two scales.
pub open spec fn sub_mantissa(a: Decimal, b: Decimal) -> int {
    if a.scale >= b.scale {
        a.mantissa - b.mantissa * pow10((a.scale - b.scale) as nat)
    } else {
        a.mantissa * pow10((b.scale - a.scale) as nat) - b.mantissa
    }
}

/// The exact difference `a - b` as `bigdecimal` computes it: mantissas are
/// aligned to the larger scale and subtracted, and the result keeps that
/// scale.
pub open spec fn spec_sub(a: Decimal, b: Decimal) -> Decimal {
    Decimal {
        mantissa: sub_mantissa(a, b) as i128,
        scale: if a.scale >= b.scale {
            a.scale
        } else {
            b.scale
        },
    }
}

/// For well-formed operands the aligned difference fits `i128` and the
/// result denotes exactly `a - b`.
pub proof fn lemma_spec_sub_units(a: Decimal, b: Decimal)
    requires
        a.wf(),
        b.wf(),
    ensures
        spec_sub(a, b).scale <= MAX_SCALE,
        -(UNITS_BOUND as int) * 2 < sub_mantissa(a, b) < (UNITS_BOUND as int) * 2,
        sub_mantissa(a, b) == spec_sub(a, b).mantissa,
        spec_sub(a, b).units() == a.units() - b.units(),
{
    let s_max: u32 = if a.scale >= b.scale {
        a.scale
    } else {
        b.scale
    };
    let k = (MAX_SCALE - s_max) as nat;
    let m = sub_mantissa(a, b);
    lemma_pow10_pos(k);
    // The aligned difference, rescaled to 10^-18 units, is the difference of
    // the operands' unit values.
    if a.scale >= b.scale {
        let d = (a.scale - b.scale) as nat;
        lemma_pow10_add(d, k);
        assert((a.mantissa - b.mantissa * pow10(d)) * pow10(k) == a.mantissa * pow10(k)
            - b.mantissa * (pow10(d) * pow10(k))) by (nonlinear_arith);
        assert(b.units() == b.mantissa * pow10((d + k) as nat));
    } else {
        let d = (b.scale - a.scale) as nat;
        lemma_pow10_add(d, k);
        assert((a.mantissa * pow10(d) - b.mantissa) * pow10(k) == a.mantissa * (pow10(d) * pow10(
            k,
        )) - b.mantissa * pow10(k)) by (nonlinear_arith);
        assert(a.units() == a.mantissa * pow10((d + k) as nat));
    }
    assert(m * pow10(k) == a.units() - b.units());
    // Magnitude: |m| <= |m * 10^k| < 2 * UNITS_BOUND, so `m as i128` is `m`.
    let p = pow10(k);
    assert(m >= 0 ==> m <= m * p) by (nonlinear_arith)
        requires p >= 1;
    assert(m < 0 ==> m * p <= m) by (nonlinear_arith)
        requires p >= 1;
    assert(-(UNITS_BOUND as int) * 2 < m * p < (UNITS_BOUND as int) * 2);
    assert(-(UNITS_BOUND as int) * 2 < m < (UNITS_BOUND as int) * 2);
    assert(m == m as i128);
}

/// Relies on `bigdecimal::BigDecimal`'s `PartialOrd`, which orders decimals
/// by exact numeric value; for bounded-scale operands that is the order of
/// their values in 10^-18 units.
#[verifier::external_body]
pub(crate) fn dec_lt_raw(a: &Decimal, b: &Decimal) -> (r: bool)
    requires
        a.wf(),
        b.wf(),
    ensures
        r <==> a.units() < b.units(),
{
    let x = bigdecimal::BigDecimal::from_bigint(
        bigdecimal::num_bigint::BigInt::from(a.mantissa),
        a.scale as i64,
    );
    let y = bigdecimal::BigDecimal::from_bigint(
        bigdecimal::num_bigint::BigInt::from(b.mantissa),
        b.scale as i64,
    );
    x < y
}

/// Relies on `bigdecimal::BigDecimal`'s subtraction, which aligns the
/// mantissas to the larger scale and subtracts them exactly, keeping that
/// scale when neither operand is zero; for well-formed operands the result's
/// mantissa fits `i128`.
#[verifier::external_body]
pub(crate) fn dec_sub_raw(a: &Decimal, b: &Decimal) -> (r: Decimal)
    requires
        a.wf(),
        b.wf(),
        a.mantissa != 0,
        b.mantissa != 0,
    ensures
        r == spec_sub(*a, *b),
{
    let x = bigdecimal::BigDecimal::from_bigint(
        bigdecimal::num_bigint::BigInt::from(a.mantissa),
        a.scale as i64,
    );
    let y = bigdecimal::BigDecimal::from_bigint(
        bigdecimal::num_bigint::BigInt::from(b.mantissa),
        b.scale as i64,
    );
    let (digits, exponent) = (x - y).into_bigint_and_exponent();
    Decimal { mantissa: bigdecimal::ToPrimitive::to_i128(&digits).unwrap(), scale: exponent as u32 }
}

impl Decimal {
    /// Exact comparison by value: `self < other`.
    pub fn lt(&self, other: &Decimal) -> (r: bool)
        requires
            self.wf(),
            other.wf(),
        ensures
            r <==> self.units() < other.units(),
    {
        dec_lt_raw(self, other)
    }

    /// Exact comparison by value: `self <= other`.
    pub fn le(&self, other: &Decimal) -> (r: bool)
        requires
            self.wf(),
            other.wf(),
        ensures
            r <==> self.units() <= other.units(),
    {
        !dec_lt_raw(other, self)
    }

    /// Exact equality by value; decimals with different scales can denote
    /// the same number.
    pub fn value_eq(&self, other: &Decimal) -> (r: bool)
        requires
            self.wf(),
            other.wf(),
        ensures
            r <==> self.units() == other.units(),
    {
        !dec_lt_raw(self, other) && !dec_lt_raw(other, self)
    }

    /// Whether the value is strictly positive.
    pub fn is_positive(&self) -> (r: bool)
        requires
            self.scale <= MAX_SCALE,
        ensures
            r <==> self.units() > 0,
    {
        proof {
            lemma_units_sign(*self);
        }
        self.mantissa > 0
    }

    /// Exact subtraction of a smaller positive value from a larger one.
    pub fn minus(&self, other: &Decimal) -> (r: Decimal)
        requires
            self.wf(),
            other.wf(),
            self.units() > 0,
            other.units() > 0,
            other.units() < self.units(),
        ensures
            r == spec_sub(*self, *other),
            r.units() == self.units() - other.units(),
            r.units() > 0,
            r.wf(),
    {
        proof {
            lemma_units_sign(*self);
            lemma_units_sign(*other);
            lemma_spec_sub_units(*self, *other);
            lemma_units_sign(spec_sub(*self, *other));
        }
        dec_sub_raw(self, other)
    }
}

} // verus!
