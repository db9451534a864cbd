//! Exact rational numbers over the arbitrary-precision integer backend.
//!
//! The Gram–Schmidt statistics of the reduction engine are rationals. Every
//! comparison that steers the reduction is made here, exactly, by
//! cross-multiplication of numerators and denominators; no floating point is
//! involved anywhere. A value is well formed when its denominator is
//! positive, and every operation keeps it so.

use vstd::prelude::*;
use rug::Integer;
use crate::bignum::{
    int_of, int_from_i64, int_clone, int_add, int_sub, int_mul, int_neg, int_abs, int_lt, int_le,
    int_is_zero, int_div_rem_floor,
};

verus! {

/// A fraction `num / den`. Not necessarily in lowest terms; `reduce`
/// cancels the greatest common divisor to keep sizes manageable.
pub struct Rat {
    pub num: Integer,
    pub den: Integer,
}

impl Rat {
    /// Numerator as a mathematical integer.
    pub open spec fn n(self) -> int {
        int_of(self.num)
    }

    /// Denominator as a mathematical integer.
    pub open spec fn d(self) -> int {
        int_of(self.den)
    }

    /// Well-formed: the denominator is positive.
    pub open spec fn wf(self) -> bool {
        self.d() > 0
    }

    /// The two fractions denote the same rational number.
    pub open spec fn same_value(self, o: Rat) -> bool {
        self.n() * o.d() == o.n() * self.d()
    }
}

/// Spec-level order of two fractions with positive denominators.
pub open spec fn rat_lt_spec(a: Rat, b: Rat) -> bool {
    a.n() * b.d() < b.n() * a.d()
}

/// Spec-level weak order of two fractions with positive denominators.
pub open spec fn rat_le_spec(a: Rat, b: Rat) -> bool {
    a.n() * b.d() <= b.n() * a.d()
}

/// Build the fraction `num / den` from machine integers.
pub fn rat_new_i64(num: i64, den: i64) -> (r: Rat)
    requires
        den > 0,
    ensures
        r.n() == num as int,
        r.d() == den as int,
        r.wf(),
{
    Rat { num: int_from_i64(num), den: int_from_i64(den) }
}

/// Embed an integer as a fraction with denominator one.
pub fn rat_of_int(a: &Integer) -> (r: Rat)
    ensures
        r.n() == int_of(*a),
        r.d() == 1,
        r.wf(),
{
    Rat { num: int_clone(a), den: int_from_i64(1) }
}

/// Copy a fraction.
pub fn rat_clone(a: &Rat) -> (r: Rat)
    ensures
        r.n() == a.n(),
        r.d() == a.d(),
{
    Rat { num: int_clone(&a.num), den: int_clone(&a.den) }
}

/// Relies on `rug::Integer::gcd`: the greatest common divisor, non-negative,
/// and zero only when both arguments are zero.
#[verifier::external_body]
fn int_gcd(a: &Integer, b: &Integer) -> (r: Integer)
    ensures
        int_of(r) >= 0,
        (int_of(*a) != 0 || int_of(*b) != 0) ==> int_of(r) > 0,
        int_of(r) != 0 ==> int_of(*a) % int_of(r) == 0 && int_of(*b) % int_of(r) == 0,
{
    a.clone().gcd(b)
}

/// Relies on `rug::Integer::div_exact_ref`: the exact quotient, which the
/// precondition guarantees to exist.
#[verifier::external_body]
fn int_div_exact(a: &Integer, b: &Integer) -> (r: Integer)
    requires
        int_of(*b) != 0,
        int_of(*a) % int_of(*b) == 0,
    ensures
        int_of(r) * int_of(*b) == int_of(*a),
{
    Integer::from(a.div_exact_ref(b))
}

/// Cancel the greatest common divisor of numerator and denominator. The
/// result denotes the same rational number.
pub fn rat_reduce(a: Rat) -> (r: Rat)
    requires
        a.wf(),
    ensures
        r.wf(),
        r.same_value(a),
{
    let g = int_gcd(&a.num, &a.den);
    let num2 = int_div_exact(&a.num, &g);
    let den2 = int_div_exact(&a.den, &g);
    let ghost gv = int_of(g);
    let ghost n2 = int_of(num2);
    let ghost d2 = int_of(den2);
    assert(d2 > 0 && n2 * a.d() == a.n() * d2) by (nonlinear_arith)
        requires
            gv > 0,
            d2 * gv == a.d(),
            n2 * gv == a.n(),
            a.d() > 0,
    {
    }
    Rat { num: num2, den: den2 }
}

/// Exact sum, reduced to smaller terms.
pub fn rat_add(a: &Rat, b: &Rat) -> (r: Rat)
    requires
        a.wf(),
        b.wf(),
    ensures
        r.wf(),
        r.n() * (a.d() * b.d()) == (a.n() * b.d() + b.n() * a.d()) * r.d(),
{
    let num = int_add(&int_mul(&a.num, &b.den), &int_mul(&b.num, &a.den));
    let den = int_mul(&a.den, &b.den);
    assert(int_of(den) > 0) by (nonlinear_arith)
        requires
            int_of(den) == a.d() * b.d(),
            a.d() > 0,
            b.d() > 0,
    {
    }
    let s = Rat { num, den };
    let r = rat_reduce(s);
    r
}

/// Exact difference, reduced to smaller terms.
pub fn rat_sub(a: &Rat, b: &Rat) -> (r: Rat)
    requires
        a.wf(),
        b.wf(),
    ensures
        r.wf(),
        r.n() * (a.d() * b.d()) == (a.n() * b.d() - b.n() * a.d()) * r.d(),
{
    let num = int_sub(&int_mul(&a.num, &b.den), &int_mul(&b.num, &a.den));
    let den = int_mul(&a.den, &b.den);
    assert(int_of(den) > 0) by (nonlinear_arith)
        requires
            int_of(den) == a.d() * b.d(),
            a.d() > 0,
            b.d() > 0,
    {
    }
    let s = Rat { num, den };
    let r = rat_reduce(s);
    r
}

/// Exact product, reduced to smaller terms.
pub fn rat_mul(a: &Rat, b: &Rat) -> (r: Rat)
    requires
        a.wf(),
        b.wf(),
    ensures
        r.wf(),
        r.n() * (a.d() * b.d()) == (a.n() * b.n()) * r.d(),
{
    let num = int_mul(&a.num, &b.num);
    let den = int_mul(&a.den, &b.den);
    assert(int_of(den) > 0) by (nonlinear_arith)
        requires
            int_of(den) == a.d() * b.d(),
            a.d() > 0,
            b.d() > 0,
    {
    }
    let s = Rat { num, den };
    let r = rat_reduce(s);
    r
}

/// Exact quotient by a nonzero fraction, reduced to smaller terms. The
/// denominator of the result is normalized to stay positive.
pub fn rat_div(a: &Rat, b: &Rat) -> (r: Rat)
    requires
        a.wf(),
        b.wf(),
        b.n() != 0,
    ensures
        r.wf(),
        r.n() * (a.d() * b.n()) == (a.n() * b.d()) * r.d(),
{
    let num0 = int_mul(&a.num, &b.den);
    let den0 = int_mul(&a.den, &b.num);
    let zero = int_from_i64(0);
    let s: Rat;
    if int_lt(&den0, &zero) {
        s = Rat { num: int_neg(&num0), den: int_neg(&den0) };
    } else {
        assert(int_of(den0) != 0) by (nonlinear_arith)
            requires
                int_of(den0) == a.d() * b.n(),
                a.d() > 0,
                b.n() != 0,
        {
        }
        s = Rat { num: num0, den: den0 };
    }
    let r = rat_reduce(s);
    assert(r.n() * (a.d() * b.n()) == (a.n() * b.d()) * r.d()) by (nonlinear_arith)
        requires
            r.n() * s.d() == s.n() * r.d(),
            (s.n() == a.n() * b.d() && s.d() == a.d() * b.n()) || (s.n() == -(a.n() * b.d())
                && s.d() == -(a.d() * b.n())),
    {
    }
    r
}

/// Absolute value.
pub fn rat_abs(a: &Rat) -> (r: Rat)
    requires
        a.wf(),
    ensures
        r.wf(),
        r.d() == a.d(),
        r.n() == if a.n() >= 0 { a.n() } else { -a.n() },
{
    Rat { num: int_abs(&a.num), den: int_clone(&a.den) }
}

/// Exact comparison: does `a` denote a strictly smaller rational than `b`?
pub fn rat_lt(a: &Rat, b: &Rat) -> (r: bool)
    requires
        a.wf(),
        b.wf(),
    ensures
        r == rat_lt_spec(*a, *b),
{
    int_lt(&int_mul(&a.num, &b.den), &int_mul(&b.num, &a.den))
}

/// Exact comparison: does `a` denote a rational no greater than `b`?
pub fn rat_le(a: &Rat, b: &Rat) -> (r: bool)
    requires
        a.wf(),
        b.wf(),
    ensures
        r == rat_le_spec(*a, *b),
{
    int_le(&int_mul(&a.num, &b.den), &int_mul(&b.num, &a.den))
}

/// Does the fraction denote zero?
pub fn rat_is_zero(a: &Rat) -> (r: bool)
    requires
        a.wf(),
    ensures
        r == (a.n() == 0),
{
    int_is_zero(&a.num)
}

/// Nearest integer to the fraction, ties rounded up: the floor of
/// `(2 num + den) / (2 den)`.
pub fn rat_round_nearest(a: &Rat) -> (q: Integer)
    requires
        a.wf(),
    ensures
        2 * a.d() * int_of(q) <= 2 * a.n() + a.d() < 2 * a.d() * (int_of(q) + 1),
{
    let two = int_from_i64(2);
    let t = int_add(&int_mul(&two, &a.num), &a.den);
    let d2 = int_mul(&two, &a.den);
    let qr = int_div_rem_floor(&t, &d2);
    let ghost qv = int_of(qr.0);
    let ghost rv = int_of(qr.1);
    assert(2 * a.d() * qv <= 2 * a.n() + a.d() < 2 * a.d() * (qv + 1)) by (nonlinear_arith)
        requires
            2 * a.n() + a.d() == qv * (2 * a.d()) + rv,
            0 <= rv < 2 * a.d(),
            a.d() > 0,
    {
    }
    qr.0
}

} // verus!
