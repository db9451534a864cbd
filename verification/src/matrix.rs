//! The owned, bounds-checked integer matrix that carries the lattice basis,
//! together with the two unimodular row operations of the reduction: a swap
//! of two rows and the subtraction of an integer multiple of one row from
//! another. Each operation's contract pins the new matrix down exactly, so
//! the preservation of `lattice_inv` is proved, not assumed.

use vstd::prelude::*;
use rug::Integer;
use crate::bignum::{int_of, int_clone, int_sub, int_mul, int_is_zero};
use crate::model::{ints_of, rows_of, dot, sub_mul_seq, all_zero_seq, lemma_dot_take_step};

verus! {

/// An owned matrix of arbitrary-precision integers, held row by row.
pub struct Mat {
    pub rows: Vec<Vec<Integer>>,
}

impl Mat {
    /// The matrix as a sequence of rows of mathematical integers.
    pub open spec fn m(self) -> Seq<Seq<int>> {
        rows_of(self.rows@)
    }

    /// `r` rows, each of `c` entries.
    pub open spec fn is_dims(self, r: nat, c: nat) -> bool {
        &&& self.rows@.len() == r
        &&& forall|i: int| 0 <= i < r ==> (#[trigger] self.rows@[i])@.len() == c
    }
}

/// Copy the first `len` entries of a row.
pub fn clone_prefix(src: &Vec<Integer>, len: usize) -> (r: Vec<Integer>)
    requires
        len <= src@.len(),
    ensures
        ints_of(r@) == ints_of(src@).take(len as int),
{
    let mut out: Vec<Integer> = Vec::new();
    let mut t: usize = 0;
    while t < len
        invariant
            t <= len,
            len <= src@.len(),
            out@.len() == t,
            forall|x: int| 0 <= x < t ==> int_of(#[trigger] out@[x]) == ints_of(src@)[x],
        decreases len - t,
    {
        out.push(int_clone(&src[t]));
        t = t + 1;
    }
    assert(ints_of(out@) =~= ints_of(src@).take(len as int));
    out
}

/// Exact dot product of the first `len` entries of two rows.
pub fn dot_prefix(a: &Vec<Integer>, b: &Vec<Integer>, len: usize) -> (r: Integer)
    requires
        len <= a@.len(),
        len <= b@.len(),
    ensures
        int_of(r) == dot(ints_of(a@).take(len as int), ints_of(b@).take(len as int)),
{
    let mut acc = crate::bignum::int_from_i64(0);
    let mut t: usize = 0;
    while t < len
        invariant
            t <= len,
            len <= a@.len(),
            len <= b@.len(),
            int_of(acc) == dot(ints_of(a@).take(t as int), ints_of(b@).take(t as int)),
        decreases len - t,
    {
        proof {
            lemma_dot_take_step(ints_of(a@).take(len as int), ints_of(b@).take(len as int), t as int);
            assert(ints_of(a@).take(len as int).take(t as int) =~= ints_of(a@).take(t as int));
            assert(ints_of(b@).take(len as int).take(t as int) =~= ints_of(b@).take(t as int));
            assert(ints_of(a@).take(len as int).take(t + 1) =~= ints_of(a@).take(t + 1));
            assert(ints_of(b@).take(len as int).take(t + 1) =~= ints_of(b@).take(t + 1));
        }
        acc = crate::bignum::int_add(&acc, &int_mul(&a[t], &b[t]));
        t = t + 1;
    }
    acc
}

/// Are the first `len` entries of the row all zero?
pub fn prefix_all_zero(v: &Vec<Integer>, len: usize) -> (r: bool)
    requires
        len <= v@.len(),
    ensures
        r == all_zero_seq(ints_of(v@).take(len as int)),
{
    let mut t: usize = 0;
    while t < len
        invariant
            t <= len,
            len <= v@.len(),
            forall|x: int| 0 <= x < t ==> ints_of(v@).take(len as int)[x] == 0,
        decreases len - t,
    {
        if !int_is_zero(&v[t]) {
            assert(ints_of(v@).take(len as int)[t as int] != 0);
            return false;
        }
        t = t + 1;
    }
    true
}

/// Swap rows `i` and `j`. The rows of the result are a permutation of the
/// rows of the input, stated exactly.
pub fn swap_rows(m: &mut Mat, i: usize, j: usize)
    requires
        i < old(m).rows@.len(),
        j < old(m).rows@.len(),
    ensures
        final(m).m() == old(m).m().update(i as int, old(m).m()[j as int]).update(
            j as int,
            old(m).m()[i as int],
        ),
        final(m).rows@.len() == old(m).rows@.len(),
        forall|x: int|
            0 <= x < final(m).rows@.len() ==> (#[trigger] final(m).rows@[x])@.len() == if x == i {
                old(m).rows@[j as int]@.len()
            } else if x == j {
                old(m).rows@[i as int]@.len()
            } else {
                old(m).rows@[x]@.len()
            },
{
    let ri = clone_prefix(&m.rows[i], m.rows[i].len());
    let rj = clone_prefix(&m.rows[j], m.rows[j].len());
    proof {
        assert(ints_of(ri@) =~= ints_of(old(m).rows@[i as int]@));
        assert(ints_of(rj@) =~= ints_of(old(m).rows@[j as int]@));
    }
    m.rows[i] = rj;
    m.rows[j] = ri;
    proof {
        assert(final(m).m() =~= old(m).m().update(i as int, old(m).m()[j as int]).update(
            j as int,
            old(m).m()[i as int],
        ));
    }
}

/// Replace row `k` by `row[k] - q * row[j]`, entry by entry: the unimodular
/// subtraction step of size reduction.
pub fn row_sub_mul(m: &mut Mat, k: usize, j: usize, q: &Integer)
    requires
        k < old(m).rows@.len(),
        j < old(m).rows@.len(),
        k != j,
        old(m).rows@[k as int]@.len() == old(m).rows@[j as int]@.len(),
    ensures
        final(m).m() == old(m).m().update(
            k as int,
            sub_mul_seq(old(m).m()[k as int], int_of(*q), old(m).m()[j as int]),
        ),
        final(m).rows@.len() == old(m).rows@.len(),
        forall|x: int|
            0 <= x < final(m).rows@.len() ==> (#[trigger] final(m).rows@[x])@.len()
                == old(m).rows@[x]@.len(),
{
    let len = m.rows[k].len();
    let ghost a = ints_of(old(m).rows@[k as int]@);
    let ghost b = ints_of(old(m).rows@[j as int]@);
    let ghost qv = int_of(*q);
    let mut out: Vec<Integer> = Vec::new();
    let mut t: usize = 0;
    while t < len
        invariant
            t <= len,
            k < m.rows@.len(),
            j < m.rows@.len(),
            k != j,
            m == old(m),
            len == m.rows@[k as int]@.len(),
            len == m.rows@[j as int]@.len(),
            a == ints_of(m.rows@[k as int]@),
            b == ints_of(m.rows@[j as int]@),
            qv == int_of(*q),
            out@.len() == t,
            forall|x: int| 0 <= x < t ==> int_of(#[trigger] out@[x]) == a[x] - qv * b[x],
        decreases len - t,
    {
        proof {
            assert(a[t as int] == int_of(m.rows@[k as int]@[t as int]));
            assert(b[t as int] == int_of(m.rows@[j as int]@[t as int]));
        }
        let prod = int_mul(q, &m.rows[j][t]);
        assert(int_of(prod) == qv * b[t as int]);
        let v = int_sub(&m.rows[k][t], &prod);
        assert(int_of(v) == a[t as int] - qv * b[t as int]);
        out.push(v);
        t = t + 1;
    }
    proof {
        assert(ints_of(out@) =~= sub_mul_seq(a, qv, b));
    }
    m.rows[k] = out;
    proof {
        assert(final(m).m() =~= old(m).m().update(
            k as int,
            sub_mul_seq(old(m).m()[k as int], int_of(*q), old(m).m()[j as int]),
        ));
    }
}

} // verus!
