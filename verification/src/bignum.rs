//! Trusted boundary around the arbitrary-precision integer backend.
//!
//! The algorithms in this crate are exact: they never round. All they ask of
//! the backend is signed integers of unbounded size with exact addition,
//! subtraction, multiplication, comparison, absolute value and floor
//! division. `rug::Integer` (GMP) supplies these; each primitive used is
//! wrapped here with a contract stated over the uninterpreted content
//! function `int_of`, and a few derived operations (weak comparison, zero
//! test, absolute value) are verified on top of the primitives.

use vstd::prelude::*;
use rug::Integer;

verus! {

#[verifier::external_type_specification]
#[verifier::external_body]
pub struct ExInteger(Integer);

/// The mathematical integer that an arbitrary-precision value holds.
pub uninterp spec fn int_of(x: Integer) -> int;

/// Relies on `rug::Integer::from(i64)`: constructs the integer with exactly
/// the given value.
#[verifier::external_body]
pub fn int_from_i64(v: i64) -> (r: Integer)
    ensures
        int_of(r) == v as int,
{
    Integer::from(v)
}

/// Relies on `Clone` for `rug::Integer`: the clone holds an equal value.
#[verifier::external_body]
pub fn int_clone(a: &Integer) -> (r: Integer)
    ensures
        int_of(r) == int_of(*a),
{
    a.clone()
}

/// Relies on addition of `rug::Integer` references: the exact sum.
#[verifier::external_body]
pub fn int_add(a: &Integer, b: &Integer) -> (r: Integer)
    ensures
        int_of(r) == int_of(*a) + int_of(*b),
{
    Integer::from(a + b)
}

/// Relies on subtraction of `rug::Integer` references: the exact difference.
#[verifier::external_body]
pub fn int_sub(a: &Integer, b: &Integer) -> (r: Integer)
    ensures
        int_of(r) == int_of(*a) - int_of(*b),
{
    Integer::from(a - b)
}

/// Relies on multiplication of `rug::Integer` references: the exact product.
#[verifier::external_body]
pub fn int_mul(a: &Integer, b: &Integer) -> (r: Integer)
    ensures
        int_of(r) == int_of(*a) * int_of(*b),
{
    Integer::from(a * b)
}

/// Relies on negation of a `rug::Integer` reference: the exact negation.
#[verifier::external_body]
pub fn int_neg(a: &Integer) -> (r: Integer)
    ensures
        int_of(r) == -int_of(*a),
{
    Integer::from(-a)
}

/// The absolute value, derived from the primitive comparison, negation and
/// clone, so it needs no trust of its own.
pub fn int_abs(a: &Integer) -> (r: Integer)
    ensures
        int_of(r) == if int_of(*a) >= 0 { int_of(*a) } else { -int_of(*a) },
{
    let zero = int_from_i64(0);
    if int_lt(a, &zero) {
        int_neg(a)
    } else {
        int_clone(a)
    }
}

/// Relies on `Ord` for `rug::Integer` (GMP comparison): true iff `a < b`.
#[verifier::external_body]
pub fn int_lt(a: &Integer, b: &Integer) -> (r: bool)
    ensures
        r == (int_of(*a) < int_of(*b)),
{
    a < b
}

/// True iff `a <= b`: the complement of the reversed strict comparison,
/// verified rather than trusted.
pub fn int_le(a: &Integer, b: &Integer) -> (r: bool)
    ensures
        r == (int_of(*a) <= int_of(*b)),
{
    !int_lt(b, a)
}

/// Does the value equal zero? Decided by two strict comparisons against
/// zero, verified rather than trusted.
pub fn int_is_zero(a: &Integer) -> (r: bool)
    ensures
        r == (int_of(*a) == 0),
{
    let zero = int_from_i64(0);
    !int_lt(a, &zero) && !int_lt(&zero, a)
}

/// Relies on `rug::Integer::div_rem_floor`: quotient rounded down, remainder
/// with the sign of the divisor; panics on a zero divisor, which the
/// precondition rules out. For a positive divisor this is exactly Euclidean
/// division.
#[verifier::external_body]
pub fn int_div_rem_floor(a: &Integer, b: &Integer) -> (r: (Integer, Integer))
    requires
        int_of(*b) > 0,
    ensures
        int_of(*a) == int_of(r.0) * int_of(*b) + int_of(r.1),
        0 <= int_of(r.1) < int_of(*b),
{
    a.clone().div_rem_floor(b.clone())
}

/// Relies on `rug::Integer::significant_digits::<u64>`: the number of
/// 64-bit digits required to represent the absolute value, computed and
/// returned as a `usize` (no narrowing), and zero exactly for the value
/// zero. Used only to size the iteration budget of the reduction loop.
#[verifier::external_body]
pub fn int_digits64(a: &Integer) -> (r: usize)
    ensures
        (r == 0) == (int_of(*a) == 0),
{
    a.significant_digits::<u64>()
}

} // verus!
