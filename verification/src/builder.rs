//! The lattice builder: the scale factor and the fresh augmented basis.
//!
//! For coefficients `c` of length `n` the basis is the `n × (n+1)` matrix
//! whose row `i` is the `i`-th standard basis vector followed by
//! `c[i] * s`, with `s` ten times the largest coefficient magnitude (one
//! when every coefficient is zero). Both functions are deterministic and
//! their contracts pin the result down entry by entry.

use vstd::prelude::*;
use rug::Integer;
use crate::bignum::{int_of, int_from_i64, int_abs, int_lt, int_is_zero, int_mul};
use crate::matrix::Mat;
use crate::model::{ints_of, max_abs, scale_spec, build_row_spec, build_spec, abs_i};

verus! {

/// The scale factor for the given coefficients: `10 * max(|c[i]|)`, or `1`
/// when every coefficient is zero. Always positive.
pub fn compute_scale(coeffs: &Vec<Integer>) -> (s: Integer)
    ensures
        int_of(s) == scale_spec(ints_of(coeffs@)),
        int_of(s) > 0,
{
    let ghost c = ints_of(coeffs@);
    let n = coeffs.len();
    let mut mx = int_from_i64(0);
    let mut t: usize = 0;
    proof {
        assert(c.take(0) =~= Seq::<int>::empty());
    }
    while t < n
        invariant
            t <= n,
            n == coeffs@.len(),
            c == ints_of(coeffs@),
            int_of(mx) == max_abs(c.take(t as int)),
        decreases n - t,
    {
        let av = int_abs(&coeffs[t]);
        proof {
            assert(c.take(t + 1).drop_last() =~= c.take(t as int));
            assert(c.take(t + 1).last() == c[t as int]);
            assert(int_of(av) == abs_i(c[t as int]));
        }
        if int_lt(&mx, &av) {
            mx = av;
        }
        t = t + 1;
    }
    proof {
        assert(c.take(n as int) =~= c);
        crate::model::lemma_max_abs_nonneg(c);
    }
    if int_is_zero(&mx) {
        int_from_i64(1)
    } else {
        let ten = int_from_i64(10);
        int_mul(&ten, &mx)
    }
}

/// Build the fresh augmented lattice basis for the given coefficients and
/// scale factor.
pub fn build_lattice(coeffs: &Vec<Integer>, scale: &Integer) -> (m: Mat)
    requires
        coeffs@.len() >= 1,
        coeffs@.len() < usize::MAX,
        int_of(*scale) > 0,
    ensures
        m.m() == build_spec(ints_of(coeffs@), int_of(*scale)),
        m.is_dims(coeffs@.len(), (coeffs@.len() + 1) as nat),
{
    let ghost c = ints_of(coeffs@);
    let ghost sv = int_of(*scale);
    let n = coeffs.len();
    let mut rows: Vec<Vec<Integer>> = Vec::new();
    let mut i: usize = 0;
    while i < n
        invariant
            i <= n,
            n == coeffs@.len(),
            n < usize::MAX,
            c == ints_of(coeffs@),
            sv == int_of(*scale),
            rows@.len() == i,
            forall|x: int|
                0 <= x < i ==> ints_of((#[trigger] rows@[x])@) == build_row_spec(c, sv, x),
            forall|x: int| 0 <= x < i ==> (#[trigger] rows@[x])@.len() == n + 1,
        decreases n - i,
    {
        let mut row: Vec<Integer> = Vec::new();
        let mut j: usize = 0;
        while j < n + 1
            invariant
                j <= n + 1,
                i < n,
                n == coeffs@.len(),
                n < usize::MAX,
                c == ints_of(coeffs@),
                sv == int_of(*scale),
                row@.len() == j,
                forall|y: int|
                    0 <= y < j ==> int_of(#[trigger] row@[y]) == build_row_spec(c, sv, i as int)[y],
            decreases n + 1 - j,
        {
            let e: Integer;
            if j == n {
                e = int_mul(&coeffs[i], scale);
                proof {
                    assert(int_of(coeffs@[i as int]) == c[i as int]);
                }
            } else if j == i {
                e = int_from_i64(1);
            } else {
                e = int_from_i64(0);
            }
            row.push(e);
            j = j + 1;
        }
        proof {
            assert(ints_of(row@) =~= build_row_spec(c, sv, i as int));
        }
        rows.push(row);
        i = i + 1;
    }
    let m = Mat { rows };
    proof {
        assert(m.m() =~= build_spec(c, sv));
    }
    m
}

} // verus!
