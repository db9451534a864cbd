//! The mathematical model: sequences of unbounded integers stand for
//! coefficient vectors and lattice bases, and the central predicate
//! `lattice_inv` states the one fact that reduction must keep: in every row
//! of the augmented matrix, the last entry equals the scale times the dot
//! product of the coefficients with the first `n` entries. Row swaps and
//! integer row subtractions preserve it, so any reduced row whose last entry
//! is zero encodes an exact integer relation.

use vstd::prelude::*;
use rug::Integer;
use crate::bignum::int_of;

verus! {

/// The integer values held by a sequence of arbitrary-precision integers.
pub open spec fn ints_of(s: Seq<Integer>) -> Seq<int> {
    s.map(|i: int, x: Integer| int_of(x))
}

/// The integer values held by a sequence of rows.
pub open spec fn rows_of(s: Seq<Vec<Integer>>) -> Seq<Seq<int>> {
    s.map(|i: int, r: Vec<Integer>| ints_of(r@))
}

/// Exact dot product of two equally long integer vectors.
pub open spec fn dot(a: Seq<int>, b: Seq<int>) -> int
    recommends
        a.len() == b.len(),
    decreases a.len(),
{
    if a.len() == 0 {
        0
    } else {
        dot(a.drop_last(), b.drop_last()) + a.last() * b.last()
    }
}

/// Elementwise `a - q * b`.
pub open spec fn sub_mul_seq(a: Seq<int>, q: int, b: Seq<int>) -> Seq<int> {
    Seq::new(a.len(), |i: int| a[i] - q * b[i])
}

/// Every entry is zero.
pub open spec fn all_zero_seq(v: Seq<int>) -> bool {
    forall|i: int| 0 <= i < v.len() ==> v[i] == 0
}

/// Absolute value of a mathematical integer.
pub open spec fn abs_i(x: int) -> int {
    if x >= 0 {
        x
    } else {
        -x
    }
}

/// Largest absolute value in the sequence, zero for the empty sequence.
pub open spec fn max_abs(c: Seq<int>) -> int
    decreases c.len(),
{
    if c.len() == 0 {
        0
    } else {
        let m = max_abs(c.drop_last());
        if abs_i(c.last()) > m {
            abs_i(c.last())
        } else {
            m
        }
    }
}

/// The scale factor of the lattice: ten times the largest coefficient
/// magnitude, or one when every coefficient is zero.
pub open spec fn scale_spec(c: Seq<int>) -> int {
    if max_abs(c) == 0 {
        1
    } else {
        10 * max_abs(c)
    }
}

/// Row `i` of the fresh lattice: the `i`-th standard basis vector in the
/// first `n` columns, and `c[i] * s` in the last.
pub open spec fn build_row_spec(c: Seq<int>, s: int, i: int) -> Seq<int> {
    Seq::new(
        c.len() + 1,
        |j: int|
            if j == c.len() {
                c[i] * s
            } else if j == i {
                1
            } else {
                0
            },
    )
}

/// The fresh augmented lattice basis for coefficients `c` and scale `s`.
pub open spec fn build_spec(c: Seq<int>, s: int) -> Seq<Seq<int>> {
    Seq::new(c.len(), |i: int| build_row_spec(c, s, i))
}

/// The augmented-row shape: one more entry than `c`, and the last entry is
/// the scaled dot product of `c` with the rest.
pub open spec fn row_ok(c: Seq<int>, s: int, row: Seq<int>) -> bool {
    &&& row.len() == c.len() + 1
    &&& row.last() == s * dot(c, row.drop_last())
}

/// The reduction invariant: every row of the matrix satisfies `row_ok`.
/// Unimodular row operations preserve it.
pub open spec fn lattice_inv(c: Seq<int>, s: int, m: Seq<Seq<int>>) -> bool {
    forall|i: int| 0 <= i < m.len() ==> row_ok(c, s, #[trigger] m[i])
}

/// A row of the reduced basis that yields a relation: its target entry is
/// zero, its leading entries dot to zero with the coefficients exactly, and
/// they are not all zero.
pub open spec fn keep_row(c: Seq<int>, row: Seq<int>) -> bool {
    &&& row.len() == c.len() + 1
    &&& row.last() == 0
    &&& dot(c, row.take(c.len() as int)) == 0
    &&& !all_zero_seq(row.take(c.len() as int))
}

/// The relations extracted from a matrix, in row order: the leading `n`
/// entries of every row that `keep_row` accepts.
pub open spec fn extract_spec(c: Seq<int>, m: Seq<Seq<int>>) -> Seq<Seq<int>>
    decreases m.len(),
{
    if m.len() == 0 {
        Seq::empty()
    } else {
        let rest = extract_spec(c, m.drop_last());
        if keep_row(c, m.last()) {
            rest.push(m.last().take(c.len() as int))
        } else {
            rest
        }
    }
}

/// Extending equal-length prefixes by one entry adds one product term to the
/// dot product.
pub proof fn lemma_dot_take_step(a: Seq<int>, b: Seq<int>, i: int)
    requires
        a.len() == b.len(),
        0 <= i < a.len(),
    ensures
        dot(a.take(i + 1), b.take(i + 1)) == dot(a.take(i), b.take(i)) + a[i] * b[i],
{
    assert(a.take(i + 1).drop_last() =~= a.take(i));
    assert(b.take(i + 1).drop_last() =~= b.take(i));
    assert(a.take(i + 1).last() == a[i]);
    assert(b.take(i + 1).last() == b[i]);
}

/// The dot product with an all-zero vector is zero.
pub proof fn lemma_dot_zero(c: Seq<int>, z: Seq<int>)
    requires
        c.len() == z.len(),
        all_zero_seq(z),
    ensures
        dot(c, z) == 0,
    decreases c.len(),
{
    if c.len() > 0 {
        assert(all_zero_seq(z.drop_last()));
        lemma_dot_zero(c.drop_last(), z.drop_last());
    }
}

/// The dot product with the `i`-th standard basis vector picks out `c[i]`.
pub proof fn lemma_dot_unit(c: Seq<int>, u: Seq<int>, i: int)
    requires
        c.len() == u.len(),
        0 <= i < u.len(),
        u[i] == 1,
        forall|j: int| 0 <= j < u.len() && j != i ==> u[j] == 0,
    ensures
        dot(c, u) == c[i],
    decreases c.len(),
{
    if i == c.len() - 1 {
        assert(all_zero_seq(u.drop_last()));
        lemma_dot_zero(c.drop_last(), u.drop_last());
    } else {
        lemma_dot_unit(c.drop_last(), u.drop_last(), i);
    }
}

/// Dot products are linear in their second argument under `a - q * b`.
pub proof fn lemma_dot_sub_mul(c: Seq<int>, a: Seq<int>, q: int, b: Seq<int>)
    requires
        c.len() == a.len(),
        c.len() == b.len(),
    ensures
        dot(c, sub_mul_seq(a, q, b)) == dot(c, a) - q * dot(c, b),
    decreases c.len(),
{
    if c.len() > 0 {
        assert(sub_mul_seq(a, q, b).drop_last() =~= sub_mul_seq(
            a.drop_last(),
            q,
            b.drop_last(),
        ));
        lemma_dot_sub_mul(c.drop_last(), a.drop_last(), q, b.drop_last());
        let cl = c.last();
        let al = a.last();
        let bl = b.last();
        let r = sub_mul_seq(a, q, b);
        assert(r.last() == al - q * bl);
        let d1 = dot(c.drop_last(), a.drop_last());
        let d2 = dot(c.drop_last(), b.drop_last());
        assert((d1 - q * d2) + cl * (al - q * bl) == (d1 + cl * al) - q * (d2 + cl * bl))
            by (nonlinear_arith);
    }
}

/// Subtracting an integer multiple of one invariant row from another yields
/// an invariant row.
pub proof fn lemma_row_ok_sub_mul(c: Seq<int>, s: int, a: Seq<int>, q: int, b: Seq<int>)
    requires
        row_ok(c, s, a),
        row_ok(c, s, b),
    ensures
        row_ok(c, s, sub_mul_seq(a, q, b)),
{
    let r = sub_mul_seq(a, q, b);
    assert(r.drop_last() =~= sub_mul_seq(a.drop_last(), q, b.drop_last()));
    lemma_dot_sub_mul(c, a.drop_last(), q, b.drop_last());
    let da = dot(c, a.drop_last());
    let db = dot(c, b.drop_last());
    assert(s * da - q * (s * db) == s * (da - q * db)) by (nonlinear_arith);
    assert(r.last() == a.last() - q * b.last());
}

/// One verified row operation on a basis: a swap of two rows, or the
/// subtraction of an integer multiple of one row from another. These are
/// exactly the operations of `matrix`, both unimodular, so a step neither
/// changes the lattice the rows generate nor their linear independence.
pub open spec fn basis_step(m1: Seq<Seq<int>>, m2: Seq<Seq<int>>) -> bool {
    ||| exists|i: int, j: int|
        0 <= i < m1.len() && 0 <= j < m1.len() && m2 == m1.update(i, m1[j]).update(j, m1[i])
    ||| exists|k: int, j: int, q: int|
        0 <= k < m1.len() && 0 <= j < m1.len() && k != j && m2 == m1.update(
            k,
            sub_mul_seq(m1[k], q, m1[j]),
        )
}

/// A chain of bases, each obtained from the previous one by a single row
/// operation.
pub open spec fn basis_chain(tr: Seq<Seq<Seq<int>>>) -> bool {
    forall|i: int| 0 <= i < tr.len() - 1 ==> basis_step(#[trigger] tr[i], tr[i + 1])
}

/// `m2` arises from `m1` by a finite sequence of row swaps and integer row
/// subtractions. A reachable basis generates the same lattice as `m1` and
/// keeps its rows linearly independent and pairwise distinct.
pub open spec fn reachable_by_row_ops(m1: Seq<Seq<int>>, m2: Seq<Seq<int>>) -> bool {
    exists|tr: Seq<Seq<Seq<int>>>|
        #[trigger] basis_chain(tr) && tr.len() >= 1 && tr[0] == m1 && tr[tr.len() - 1] == m2
}

/// The value at column `col` of the integer linear combination of the rows
/// of `m` with coefficients `lam`.
pub open spec fn combo_entry(lam: Seq<int>, m: Seq<Seq<int>>, col: int) -> int
    recommends
        lam.len() == m.len(),
    decreases m.len(),
{
    if m.len() == 0 {
        0
    } else {
        combo_entry(lam.drop_last(), m.drop_last(), col) + lam.last() * m.last()[col]
    }
}

/// The combination vanishes on every one of the first `w` columns.
pub open spec fn combo_vanishes(lam: Seq<int>, m: Seq<Seq<int>>, w: int) -> bool {
    forall|col: int| 0 <= col < w ==> #[trigger] combo_entry(lam, m, col) == 0
}

/// The rows are linearly independent over the integers, judged on the
/// first `w` columns: only the trivial combination vanishes there.
pub open spec fn lin_indep(m: Seq<Seq<int>>, w: int) -> bool {
    forall|lam: Seq<int>|
        lam.len() == m.len() && #[trigger] combo_vanishes(lam, m, w) ==> all_zero_seq(lam)
}

/// The combination with all-zero coefficients is zero everywhere.
pub proof fn lemma_combo_zero(lam: Seq<int>, m: Seq<Seq<int>>, col: int)
    requires
        lam.len() == m.len(),
        all_zero_seq(lam),
    ensures
        combo_entry(lam, m, col) == 0,
    decreases m.len(),
{
    if m.len() > 0 {
        assert(all_zero_seq(lam.drop_last()));
        lemma_combo_zero(lam.drop_last(), m.drop_last(), col);
    }
}

/// Changing one coefficient changes the combination by the difference of
/// the two multiples of that row.
pub proof fn lemma_combo_update_lam(lam: Seq<int>, m: Seq<Seq<int>>, col: int, i: int, v: int)
    requires
        lam.len() == m.len(),
        0 <= i < lam.len(),
    ensures
        combo_entry(lam.update(i, v), m, col) == combo_entry(lam, m, col) - lam[i] * m[i][col] + v
            * m[i][col],
    decreases m.len(),
{
    let lam2 = lam.update(i, v);
    if i == m.len() - 1 {
        assert(lam2.drop_last() =~= lam.drop_last());
        assert(lam2.last() == v);
    } else {
        assert(lam2.drop_last() =~= lam.drop_last().update(i, v));
        assert(lam2.last() == lam.last());
        lemma_combo_update_lam(lam.drop_last(), m.drop_last(), col, i, v);
        assert(m.drop_last()[i] == m[i]);
    }
}

/// Changing one row changes the combination by its coefficient times the
/// difference of the two rows at that column.
pub proof fn lemma_combo_update_row(
    lam: Seq<int>,
    m: Seq<Seq<int>>,
    col: int,
    k: int,
    row: Seq<int>,
)
    requires
        lam.len() == m.len(),
        0 <= k < m.len(),
    ensures
        combo_entry(lam, m.update(k, row), col) == combo_entry(lam, m, col) - lam[k] * m[k][col]
            + lam[k] * row[col],
    decreases m.len(),
{
    let m2 = m.update(k, row);
    if k == m.len() - 1 {
        assert(m2.drop_last() =~= m.drop_last());
        assert(m2.last() == row);
    } else {
        assert(m2.drop_last() =~= m.drop_last().update(k, row));
        assert(m2.last() == m.last());
        lemma_combo_update_row(lam.drop_last(), m.drop_last(), col, k, row);
        assert(m.drop_last()[k] == m[k]);
    }
}

/// One row operation keeps the row count and the common row length.
pub proof fn lemma_step_shape(m1: Seq<Seq<int>>, m2: Seq<Seq<int>>, ll: int)
    requires
        basis_step(m1, m2),
        forall|i: int| 0 <= i < m1.len() ==> (#[trigger] m1[i]).len() == ll,
    ensures
        m2.len() == m1.len(),
        forall|i: int| 0 <= i < m2.len() ==> (#[trigger] m2[i]).len() == ll,
{
}

/// One row operation preserves linear independence on the first `w`
/// columns: swaps permute the coefficients, and a subtraction step
/// translates a vanishing combination of the new rows into one of the old.
pub proof fn lemma_indep_step(m1: Seq<Seq<int>>, m2: Seq<Seq<int>>, w: int, ll: int)
    requires
        basis_step(m1, m2),
        lin_indep(m1, w),
        forall|i: int| 0 <= i < m1.len() ==> (#[trigger] m1[i]).len() == ll,
        0 <= w <= ll,
    ensures
        lin_indep(m2, w),
{
    assert forall|lam: Seq<int>|
        lam.len() == m2.len() && #[trigger] combo_vanishes(lam, m2, w) implies all_zero_seq(
        lam,
    ) by {
        if exists|i: int, j: int|
            0 <= i < m1.len() && 0 <= j < m1.len() && m2 == m1.update(i, m1[j]).update(
                j,
                m1[i],
            ) {
            let (i, j) = choose|i: int, j: int|
                0 <= i < m1.len() && 0 <= j < m1.len() && m2 == m1.update(i, m1[j]).update(
                    j,
                    m1[i],
                );
            if i == j {
                assert(m2 =~= m1);
                assert(combo_vanishes(lam, m1, w));
            } else {
                let lam2 = lam.update(i, lam[j]).update(j, lam[i]);
                assert forall|col: int| 0 <= col < w implies #[trigger] combo_entry(
                    lam2,
                    m1,
                    col,
                ) == 0 by {
                    let mid = m1.update(i, m1[j]);
                    lemma_combo_update_row(lam, m1, col, i, m1[j]);
                    lemma_combo_update_row(lam, mid, col, j, m1[i]);
                    assert(mid[j] == m1[j]);
                    let lmid = lam.update(i, lam[j]);
                    lemma_combo_update_lam(lam, m1, col, i, lam[j]);
                    lemma_combo_update_lam(lmid, m1, col, j, lam[i]);
                    assert(lmid[j] == lam[j]);
                    assert(combo_entry(lam, m2, col) == 0);
                }
                assert(combo_vanishes(lam2, m1, w));
                assert(lam2.len() == m1.len());
                assert(all_zero_seq(lam2));
                assert forall|x: int| 0 <= x < lam.len() implies lam[x] == 0 by {
                    if x == i {
                        assert(lam2[j] == lam[i]);
                    } else if x == j {
                        assert(lam2[i] == lam[j]);
                    } else {
                        assert(lam2[x] == lam[x]);
                    }
                }
            }
        } else {
            let (k, j, q) = choose|k: int, j: int, q: int|
                0 <= k < m1.len() && 0 <= j < m1.len() && k != j && m2 == m1.update(
                    k,
                    sub_mul_seq(m1[k], q, m1[j]),
                );
            let lam2 = lam.update(j, lam[j] - lam[k] * q);
            assert forall|col: int| 0 <= col < w implies #[trigger] combo_entry(lam2, m1, col)
                == 0 by {
                let row = sub_mul_seq(m1[k], q, m1[j]);
                lemma_combo_update_row(lam, m1, col, k, row);
                assert(row[col] == m1[k][col] - q * m1[j][col]);
                lemma_combo_update_lam(lam, m1, col, j, lam[j] - lam[k] * q);
                let a = lam[k];
                let b = m1[k][col];
                let d = m1[j][col];
                assert(a * (b - q * d) - a * b == -((a * q) * d)) by (nonlinear_arith);
                assert((lam[j] - a * q) * d - lam[j] * d == -((a * q) * d)) by (nonlinear_arith);
                assert(combo_entry(lam, m2, col) == 0);
            }
            assert(combo_vanishes(lam2, m1, w));
            assert(lam2.len() == m1.len());
            assert(all_zero_seq(lam2));
            assert forall|x: int| 0 <= x < lam.len() implies lam[x] == 0 by {
                if x != j {
                    assert(lam2[x] == lam[x]);
                } else {
                    assert(lam2[j] == lam[j] - lam[k] * q);
                    assert(lam2[k] == lam[k]) by {
                        assert(k != j);
                    }
                    assert(lam[k] == 0);
                    assert(lam[k] * q == 0) by (nonlinear_arith)
                        requires
                            lam[k] == 0,
                    {
                    }
                }
            }
        }
    }
}

/// Every basis is reachable from itself.
pub proof fn lemma_reachable_refl(m: Seq<Seq<int>>)
    ensures
        reachable_by_row_ops(m, m),
{
    let tr = seq![m];
    assert(basis_chain(tr));
    assert(tr.len() >= 1 && tr[0] == m && tr[tr.len() - 1] == m);
}

/// Reachability extends by one more row operation.
pub proof fn lemma_reachable_step(m1: Seq<Seq<int>>, m2: Seq<Seq<int>>, m3: Seq<Seq<int>>)
    requires
        reachable_by_row_ops(m1, m2),
        basis_step(m2, m3),
    ensures
        reachable_by_row_ops(m1, m3),
{
    let tr = choose|tr: Seq<Seq<Seq<int>>>|
        #[trigger] basis_chain(tr) && tr.len() >= 1 && tr[0] == m1 && tr[tr.len() - 1] == m2;
    let tr2 = tr.push(m3);
    assert forall|i: int| 0 <= i < tr2.len() - 1 implies basis_step(
        #[trigger] tr2[i],
        tr2[i + 1],
    ) by {
        if i < tr.len() - 1 {
            assert(tr2[i] == tr[i]);
            assert(tr2[i + 1] == tr[i + 1]);
        } else {
            assert(tr2[i] == tr[tr.len() - 1]);
            assert(tr2[i + 1] == m3);
        }
    }
    assert(basis_chain(tr2) && tr2.len() >= 1 && tr2[0] == m1 && tr2[tr2.len() - 1] == m3);
}

/// Reachability composes.
pub proof fn lemma_reachable_trans(m1: Seq<Seq<int>>, m2: Seq<Seq<int>>, m3: Seq<Seq<int>>)
    requires
        reachable_by_row_ops(m1, m2),
        reachable_by_row_ops(m2, m3),
    ensures
        reachable_by_row_ops(m1, m3),
{
    let tr = choose|tr: Seq<Seq<Seq<int>>>|
        #[trigger] basis_chain(tr) && tr.len() >= 1 && tr[0] == m2 && tr[tr.len() - 1] == m3;
    lemma_reachable_along_chain(m1, tr, tr.len() - 1);
}

/// Walking any prefix of a chain preserves reachability from `m1`.
proof fn lemma_reachable_along_chain(m1: Seq<Seq<int>>, tr: Seq<Seq<Seq<int>>>, t: int)
    requires
        basis_chain(tr),
        0 <= t < tr.len(),
        reachable_by_row_ops(m1, tr[0]),
    ensures
        reachable_by_row_ops(m1, tr[t]),
    decreases t,
{
    if t > 0 {
        lemma_reachable_along_chain(m1, tr, t - 1);
        assert(basis_step(tr[t - 1], tr[t]));
        lemma_reachable_step(m1, tr[t - 1], tr[t]);
    }
}

/// A row subtraction step preserves the reduction invariant.
pub proof fn lemma_inv_step_sub_mul(
    c: Seq<int>,
    s: int,
    m1: Seq<Seq<int>>,
    m2: Seq<Seq<int>>,
    k: int,
    j: int,
    q: int,
)
    requires
        0 <= k < m1.len(),
        0 <= j < m1.len(),
        m2 == m1.update(k, sub_mul_seq(m1[k], q, m1[j])),
        lattice_inv(c, s, m1),
    ensures
        lattice_inv(c, s, m2),
{
    lemma_row_ok_sub_mul(c, s, m1[k], q, m1[j]);
    assert forall|i: int| 0 <= i < m2.len() implies row_ok(c, s, #[trigger] m2[i]) by {
        if i != k {
            assert(m2[i] == m1[i]);
        }
    }
}

/// A row swap preserves the reduction invariant.
pub proof fn lemma_inv_step_swap(
    c: Seq<int>,
    s: int,
    m1: Seq<Seq<int>>,
    m2: Seq<Seq<int>>,
    i: int,
    j: int,
)
    requires
        0 <= i < m1.len(),
        0 <= j < m1.len(),
        m2 == m1.update(i, m1[j]).update(j, m1[i]),
        lattice_inv(c, s, m1),
    ensures
        lattice_inv(c, s, m2),
{
    assert forall|x: int| 0 <= x < m2.len() implies row_ok(c, s, #[trigger] m2[x]) by {
        if x == j {
            assert(m2[x] == m1[i]);
        } else if x == i {
            assert(m2[x] == m1[j]);
        } else {
            assert(m2[x] == m1[x]);
        }
    }
}

/// The fresh lattice basis satisfies the reduction invariant.
pub proof fn lemma_build_inv(c: Seq<int>, s: int)
    ensures
        lattice_inv(c, s, build_spec(c, s)),
{
    assert forall|i: int| 0 <= i < build_spec(c, s).len() implies row_ok(
        c,
        s,
        #[trigger] build_spec(c, s)[i],
    ) by {
        let row = build_row_spec(c, s, i);
        let u = row.drop_last();
        assert(u =~= Seq::new(c.len(), |j: int| if j == i { 1 } else { 0 }));
        lemma_dot_unit(c, u, i);
        assert(row.last() == c[i] * s);
        assert(c[i] * s == s * c[i]) by (nonlinear_arith);
    }
}

/// The largest magnitude is never negative.
pub proof fn lemma_max_abs_nonneg(c: Seq<int>)
    ensures
        max_abs(c) >= 0,
    decreases c.len(),
{
    if c.len() > 0 {
        lemma_max_abs_nonneg(c.drop_last());
    }
}

/// The scale factor is always positive.
pub proof fn lemma_scale_pos(c: Seq<int>)
    ensures
        scale_spec(c) > 0,
{
    lemma_max_abs_nonneg(c);
}

/// Reachability preserves linear independence and the row shape.
pub proof fn lemma_indep_reachable(m1: Seq<Seq<int>>, m2: Seq<Seq<int>>, w: int, ll: int)
    requires
        reachable_by_row_ops(m1, m2),
        lin_indep(m1, w),
        forall|i: int| 0 <= i < m1.len() ==> (#[trigger] m1[i]).len() == ll,
        0 <= w <= ll,
    ensures
        lin_indep(m2, w),
        m2.len() == m1.len(),
        forall|i: int| 0 <= i < m2.len() ==> (#[trigger] m2[i]).len() == ll,
{
    let tr = choose|tr: Seq<Seq<Seq<int>>>|
        #[trigger] basis_chain(tr) && tr.len() >= 1 && tr[0] == m1 && tr[tr.len() - 1] == m2;
    lemma_indep_along_chain(tr, tr.len() - 1, w, ll);
}

proof fn lemma_indep_along_chain(tr: Seq<Seq<Seq<int>>>, t: int, w: int, ll: int)
    requires
        basis_chain(tr),
        0 <= t < tr.len(),
        lin_indep(tr[0], w),
        forall|i: int| 0 <= i < tr[0].len() ==> (#[trigger] tr[0][i]).len() == ll,
        0 <= w <= ll,
    ensures
        lin_indep(tr[t], w),
        tr[t].len() == tr[0].len(),
        forall|i: int| 0 <= i < tr[t].len() ==> (#[trigger] tr[t][i]).len() == ll,
    decreases t,
{
    if t > 0 {
        lemma_indep_along_chain(tr, t - 1, w, ll);
        assert(basis_step(tr[t - 1], tr[t]));
        lemma_indep_step(tr[t - 1], tr[t], w, ll);
        lemma_step_shape(tr[t - 1], tr[t], ll);
    }
}

/// The fresh lattice basis is linearly independent, already on its first
/// `n` columns: a vanishing combination reads off each coefficient in turn.
pub proof fn lemma_build_indep(c: Seq<int>, s: int)
    ensures
        lin_indep(build_spec(c, s), c.len() as int),
{
    let m = build_spec(c, s);
    let n = c.len() as int;
    assert forall|lam: Seq<int>|
        lam.len() == m.len() && #[trigger] combo_vanishes(lam, m, n) implies all_zero_seq(
        lam,
    ) by {
        assert forall|x: int| 0 <= x < lam.len() implies lam[x] == 0 by {
            lemma_build_combo(c, s, lam, lam.len() as int, x);
            assert(lam.take(lam.len() as int) =~= lam);
            assert(m.take(lam.len() as int) =~= m);
            assert(combo_entry(lam, m, x) == 0);
        }
    }
}

proof fn lemma_build_combo(c: Seq<int>, s: int, lam: Seq<int>, t: int, col: int)
    requires
        lam.len() == c.len(),
        0 <= t <= c.len(),
        0 <= col < c.len(),
    ensures
        combo_entry(lam.take(t), build_spec(c, s).take(t), col) == if col < t {
            lam[col]
        } else {
            0
        },
    decreases t,
{
    if t > 0 {
        lemma_build_combo(c, s, lam, t - 1, col);
        assert(lam.take(t).drop_last() =~= lam.take(t - 1));
        assert(build_spec(c, s).take(t).drop_last() =~= build_spec(c, s).take(t - 1));
        assert(build_spec(c, s).take(t).last() == build_row_spec(c, s, t - 1));
        assert(build_row_spec(c, s, t - 1)[col] == if col == t - 1 {
            1int
        } else {
            0int
        });
        assert(lam.take(t).last() == lam[t - 1]);
    }
}

/// The dot product with an all-zero first argument is zero.
pub proof fn lemma_dot_zero_left(z: Seq<int>, v: Seq<int>)
    requires
        z.len() == v.len(),
        all_zero_seq(z),
    ensures
        dot(z, v) == 0,
    decreases z.len(),
{
    if z.len() > 0 {
        assert(all_zero_seq(z.drop_last()));
        lemma_dot_zero_left(z.drop_last(), v.drop_last());
    }
}

/// In a linearly independent family every row has a nonzero entry among
/// the first `w` columns.
pub proof fn lemma_indep_rows_nonzero(m: Seq<Seq<int>>, w: int, i: int)
    requires
        lin_indep(m, w),
        0 <= i < m.len(),
        w >= 1,
    ensures
        exists|col: int| 0 <= col < w && #[trigger] m[i][col] != 0,
{
    if forall|col: int| 0 <= col < w ==> #[trigger] m[i][col] == 0 {
        let z = Seq::<int>::new(m.len(), |x: int| 0);
        let lam = z.update(i, 1);
        assert forall|col: int| 0 <= col < w implies #[trigger] combo_entry(lam, m, col)
            == 0 by {
            assert(all_zero_seq(z));
            lemma_combo_zero(z, m, col);
            lemma_combo_update_lam(z, m, col, i, 1);
        }
        assert(combo_vanishes(lam, m, w));
        assert(lam.len() == m.len());
        assert(all_zero_seq(lam));
        assert(lam[i] == 1);
        assert(false);
    }
}

/// When every row is accepted, extraction returns one relation per row.
pub proof fn lemma_extract_all(c: Seq<int>, m: Seq<Seq<int>>)
    requires
        forall|i: int| 0 <= i < m.len() ==> keep_row(c, #[trigger] m[i]),
    ensures
        extract_spec(c, m).len() == m.len(),
    decreases m.len(),
{
    if m.len() > 0 {
        lemma_extract_all(c, m.drop_last());
    }
}

/// Linearly independent rows are pairwise distinct.
pub proof fn lemma_indep_distinct(m: Seq<Seq<int>>, w: int)
    requires
        lin_indep(m, w),
        w >= 1,
    ensures
        forall|i: int, j: int| 0 <= i < j < m.len() ==> m[i] != m[j],
{
    assert forall|i: int, j: int| 0 <= i < j < m.len() implies m[i] != m[j] by {
        if m[i] == m[j] {
            let z = Seq::<int>::new(m.len(), |x: int| 0);
            let lam = z.update(i, 1).update(j, -1);
            assert forall|col: int| 0 <= col < w implies #[trigger] combo_entry(lam, m, col)
                == 0 by {
                assert(all_zero_seq(z));
                lemma_combo_zero(z, m, col);
                lemma_combo_update_lam(z, m, col, i, 1);
                lemma_combo_update_lam(z.update(i, 1), m, col, j, -1);
                assert(z.update(i, 1)[j] == 0);
            }
            assert(combo_vanishes(lam, m, w));
            assert(lam.len() == m.len());
            assert(all_zero_seq(lam));
            assert(lam[i] == 1);
            assert(false);
        }
    }
}

/// A matrix of `n` rows yields at most `n` relations.
pub proof fn lemma_extract_len(c: Seq<int>, m: Seq<Seq<int>>)
    ensures
        extract_spec(c, m).len() <= m.len(),
    decreases m.len(),
{
    if m.len() > 0 {
        lemma_extract_len(c, m.drop_last());
    }
}

/// The vector is the leading part of some accepted row of the matrix.
pub open spec fn from_kept_row(c: Seq<int>, m: Seq<Seq<int>>, x: Seq<int>) -> bool {
    exists|i: int|
        0 <= i < m.len() && #[trigger] keep_row(c, m[i]) && x == m[i].take(c.len() as int)
}

/// Every extracted relation is the leading part of some accepted row.
pub proof fn lemma_extract_member(c: Seq<int>, m: Seq<Seq<int>>)
    ensures
        forall|x: int|
            0 <= x < extract_spec(c, m).len() ==> from_kept_row(
                c,
                m,
                #[trigger] extract_spec(c, m)[x],
            ),
    decreases m.len(),
{
    if m.len() > 0 {
        lemma_extract_member(c, m.drop_last());
        let e = extract_spec(c, m);
        let rest = extract_spec(c, m.drop_last());
        assert forall|x: int| #![trigger e[x]] 0 <= x < e.len() implies from_kept_row(
            c,
            m,
            e[x],
        ) by {
            if keep_row(c, m.last()) && x == rest.len() {
                let iw = m.len() - 1;
                assert(m[iw] == m.last());
                assert(keep_row(c, m[iw]) && e[x] == m[iw].take(c.len() as int));
            } else {
                assert(e[x] == rest[x]);
                assert(from_kept_row(c, m.drop_last(), rest[x]));
                let i0 = choose|i: int|
                    0 <= i < m.drop_last().len() && #[trigger] keep_row(
                        c,
                        m.drop_last()[i],
                    ) && rest[x] == m.drop_last()[i].take(c.len() as int);
                assert(m[i0] == m.drop_last()[i0]);
                assert(keep_row(c, m[i0]) && e[x] == m[i0].take(c.len() as int));
            }
        }
    }
}

/// Rows that are pairwise distinct yield pairwise distinct relations: two
/// accepted rows agree on their last entry (it is zero), so equal leading
/// parts would make the rows themselves equal.
pub proof fn lemma_extract_distinct(c: Seq<int>, m: Seq<Seq<int>>)
    requires
        forall|i: int, j: int| 0 <= i < j < m.len() ==> m[i] != m[j],
    ensures
        forall|a: int, b: int|
            0 <= a < b < extract_spec(c, m).len() ==> extract_spec(c, m)[a] != extract_spec(
                c,
                m,
            )[b],
    decreases m.len(),
{
    if m.len() > 0 {
        lemma_extract_distinct(c, m.drop_last());
        lemma_extract_member(c, m.drop_last());
        let e = extract_spec(c, m);
        let rest = extract_spec(c, m.drop_last());
        assert forall|a: int, b: int| 0 <= a < b < e.len() implies e[a] != e[b] by {
            if keep_row(c, m.last()) && b == rest.len() {
                assert(e[a] == rest[a]);
                assert(e[b] == m.last().take(c.len() as int));
                assert(from_kept_row(c, m.drop_last(), rest[a]));
                let i0 = choose|i: int|
                    0 <= i < m.drop_last().len() && #[trigger] keep_row(
                        c,
                        m.drop_last()[i],
                    ) && rest[a] == m.drop_last()[i].take(c.len() as int);
                if e[a] == e[b] {
                    assert(m[i0] == m.drop_last()[i0]);
                    assert(m[i0].take(c.len() as int) == m.last().take(c.len() as int));
                    assert(m[i0] =~= m.last()) by {
                        assert(m[i0].len() == c.len() + 1 && m.last().len() == c.len() + 1);
                        assert forall|col: int| 0 <= col < c.len() + 1 implies m[i0][col]
                            == m.last()[col] by {
                            if col < c.len() {
                                assert(m[i0].take(c.len() as int)[col] == m[i0][col]);
                                assert(m.last().take(c.len() as int)[col] == m.last()[col]);
                            } else {
                                assert(m[i0][col] == m[i0].last());
                                assert(m.last()[col] == m.last().last());
                            }
                        }
                    }
                    assert(m[i0] == m[m.len() - 1]);
                    assert(false);
                }
            } else {
                assert(e[a] == rest[a]);
                assert(e[b] == rest[b]);
            }
        }
    }
}

/// With a positive scale, a zero target entry certifies an exact relation:
/// in any matrix satisfying the reduction invariant, a row whose last entry
/// is zero has leading entries that dot to zero with the coefficients. So
/// the defensive re-verification in the extractor can never reject a
/// candidate taken from such a matrix.
pub proof fn lemma_target_zero_gives_relation(c: Seq<int>, s: int, row: Seq<int>)
    requires
        row_ok(c, s, row),
        s > 0,
        row.last() == 0,
    ensures
        dot(c, row.take(c.len() as int)) == 0,
{
    let d = dot(c, row.drop_last());
    assert(s * d == 0);
    assert(s * d == 0 && s > 0 ==> d == 0) by (nonlinear_arith);
    assert(row.take(c.len() as int) =~= row.drop_last());
}

/// For a single coefficient the fresh basis is already reduced, and
/// extraction is decided completely: the coefficient zero yields the one
/// relation `[1]`, and any other coefficient yields no relation at all,
/// since no nonzero integer multiple of it is zero.
pub proof fn lemma_extract_single(c: Seq<int>, s: int)
    requires
        c.len() == 1,
        s > 0,
    ensures
        c[0] == 0 ==> extract_spec(c, build_spec(c, s)) == seq![seq![1int]],
        c[0] != 0 ==> extract_spec(c, build_spec(c, s)) == Seq::<Seq<int>>::empty(),
{
    let m = build_spec(c, s);
    let row = m[0];
    assert(row == build_row_spec(c, s, 0));
    assert(row.len() == 2);
    assert(row.last() == c[0] * s);
    assert(row[0] == 1);
    let pre = row.take(1);
    assert(pre =~= seq![1int]);
    lemma_dot_unit(c, pre, 0);
    assert(pre[0] == 1);
    assert(!all_zero_seq(pre));
    assert(m.drop_last() =~= Seq::<Seq<int>>::empty());
    assert(extract_spec(c, m.drop_last()) == Seq::<Seq<int>>::empty());
    if c[0] == 0 {
        assert(row.last() == 0);
        assert(keep_row(c, row));
        assert(extract_spec(c, m) =~= seq![seq![1int]]);
    } else {
        assert(c[0] * s != 0) by (nonlinear_arith)
            requires
                c[0] != 0,
                s > 0,
        {
        }
        assert(!keep_row(c, row));
    }
}

/// Every extracted relation is exact: it has the length of `c`, its dot
/// product with `c` is zero, and it is not the zero vector.
pub proof fn lemma_extract_sound(c: Seq<int>, m: Seq<Seq<int>>)
    ensures
        forall|i: int|
            0 <= i < extract_spec(c, m).len() ==> {
                let r = #[trigger] extract_spec(c, m)[i];
                r.len() == c.len() && dot(c, r) == 0 && !all_zero_seq(r)
            },
    decreases m.len(),
{
    if m.len() > 0 {
        lemma_extract_sound(c, m.drop_last());
        let e = extract_spec(c, m);
        let rest = extract_spec(c, m.drop_last());
        assert forall|i: int| 0 <= i < e.len() implies {
            let r = #[trigger] e[i];
            r.len() == c.len() && dot(c, r) == 0 && !all_zero_seq(r)
        } by {
            if keep_row(c, m.last()) {
                if i < rest.len() {
                    assert(e[i] == rest[i]);
                } else {
                    assert(e[i] == m.last().take(c.len() as int));
                }
            } else {
                assert(e[i] == rest[i]);
            }
        }
    }
}

} // verus!
