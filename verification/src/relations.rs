//! Relation extraction and the public entry points.
//!
//! A row of the reduced basis whose target entry (column `n`) is exactly
//! zero is a candidate relation; its leading `n` entries are re-checked by
//! an exact dot product against the original coefficients and discarded if
//! they are the zero vector. The contract of `find_relations` states the
//! exactness guarantee: every returned vector dots to zero with the
//! coefficients, none is the zero vector, and the collection is exactly
//! the extraction of a basis of the built lattice.

use vstd::prelude::*;
use rug::Integer;
use crate::bignum::{int_of, int_from_i64, int_lt, int_is_zero};
use crate::matrix::{Mat, dot_prefix, clone_prefix, prefix_all_zero};
use crate::model::{
    ints_of, rows_of, dot, all_zero_seq, keep_row, extract_spec, lattice_inv, scale_spec,
    build_spec, reachable_by_row_ops, lemma_build_inv, lemma_extract_sound, lemma_extract_len,
    lemma_scale_pos, lemma_extract_single, lemma_build_indep, lemma_indep_reachable,
    lemma_indep_distinct, lemma_extract_distinct, lemma_dot_zero_left, lemma_indep_rows_nonzero,
    lemma_extract_all, row_ok,
};
use crate::builder::{compute_scale, build_lattice};
use crate::reduce::lll_reduce;
use crate::config::{Config, config_valid, check_config, default_config};

verus! {

/// The failures `find_relations` can report: an empty coefficient
/// sequence, a non-positive scale, or out-of-range reduction parameters.
#[derive(Clone, Copy, PartialEq, Eq, Structural, Debug)]
pub enum RelError {
    InvalidInput,
}

/// Scan a reduced basis and collect, in row order, the verified relations:
/// the leading entries of every row whose target entry is zero, whose dot
/// product with the coefficients is exactly zero, and which are not all
/// zero. The result is pinned to `extract_spec` exactly.
pub fn extract_relations(m: &Mat, coeffs: &Vec<Integer>) -> (rels: Vec<Vec<Integer>>)
    requires
        m.is_dims(coeffs@.len(), (coeffs@.len() + 1) as nat),
        coeffs@.len() < usize::MAX,
    ensures
        rows_of(rels@) == extract_spec(ints_of(coeffs@), m.m()),
{
    let ghost c = ints_of(coeffs@);
    let n = coeffs.len();
    let mut out: Vec<Vec<Integer>> = Vec::new();
    let mut i: usize = 0;
    proof {
        assert(m.m().take(0) =~= Seq::<Seq<int>>::empty());
        assert(rows_of(out@) =~= extract_spec(c, m.m().take(0)));
    }
    while i < n
        invariant
            i <= n,
            n == coeffs@.len(),
            n < usize::MAX,
            c == ints_of(coeffs@),
            m.is_dims(n as nat, (n + 1) as nat),
            rows_of(out@) == extract_spec(c, m.m().take(i as int)),
        decreases n - i,
    {
        assert(m.rows@[i as int]@.len() == n + 1);
        let ghost row = m.m()[i as int];
        proof {
            assert(row == ints_of(m.rows@[i as int]@));
            assert(row.len() == n + 1);
            assert(row.last() == int_of(m.rows@[i as int]@[n as int]));
            assert(ints_of(coeffs@).take(n as int) =~= c);
            assert(ints_of(m.rows@[i as int]@).take(n as int) =~= row.take(c.len() as int));
        }
        let keep: bool;
        if int_is_zero(&m.rows[i][n]) {
            let d = dot_prefix(coeffs, &m.rows[i], n);
            if int_is_zero(&d) {
                keep = !prefix_all_zero(&m.rows[i], n);
            } else {
                keep = false;
            }
        } else {
            keep = false;
        }
        assert(keep == keep_row(c, row));
        if keep {
            let sol = clone_prefix(&m.rows[i], n);
            proof {
                assert(ints_of(sol@) == row.take(c.len() as int));
            }
            let ghost out_prev = out@;
            out.push(sol);
            proof {
                assert(rows_of(out@) =~= rows_of(out_prev).push(ints_of(sol@)));
            }
        }
        proof {
            assert(m.m().take(i + 1).drop_last() =~= m.m().take(i as int));
            assert(m.m().take(i + 1).last() == row);
            assert(rows_of(out@) =~= extract_spec(c, m.m().take(i + 1)));
        }
        i = i + 1;
    }
    proof {
        assert(m.m().take(n as int) =~= m.m());
    }
    out
}

/// Find integer relations for the given coefficients using an explicit
/// scale factor. Fails exactly on an empty sequence, a non-positive scale,
/// or an invalid configuration; on success every returned vector is an
/// exact, non-trivial relation, the relations are pairwise distinct with
/// at most as many as there are coefficients, and the collection is the
/// extraction of a basis reached from the fresh
/// lattice by row swaps and integer row subtractions alone, so it
/// generates the same lattice. A reduction stopped early by its iteration
/// budget (which cannot occur under the default budget for any realistic
/// input) weakens none of these guarantees, only the reduced quality of
/// the basis extraction reads from.
pub fn find_relations_with_scale(coeffs: &Vec<Integer>, scale: &Integer, cfg: &Config) -> (r:
    Result<Vec<Vec<Integer>>, RelError>)
    requires
        coeffs@.len() < usize::MAX,
    ensures
        r is Err <==> (coeffs@.len() == 0 || int_of(*scale) <= 0 || !config_valid(*cfg)),
        r matches Ok(rels) ==> forall|i: int|
            0 <= i < rels@.len() ==> {
                let v = ints_of((#[trigger] rels@[i])@);
                v.len() == coeffs@.len() && dot(ints_of(coeffs@), v) == 0 && !all_zero_seq(v)
            },
        r matches Ok(rels) ==> exists|mm: Seq<Seq<int>>|
            #[trigger] lattice_inv(ints_of(coeffs@), int_of(*scale), mm) && mm.len()
                == coeffs@.len() && reachable_by_row_ops(
                build_spec(ints_of(coeffs@), int_of(*scale)),
                mm,
            ) && rows_of(rels@) == extract_spec(ints_of(coeffs@), mm),
        r matches Ok(rels) ==> rels@.len() <= coeffs@.len(),
        r matches Ok(rels) ==> forall|a: int, b: int|
            #![trigger rels@[a], rels@[b]]
            0 <= a < b < rels@.len() ==> ints_of(rels@[a]@) != ints_of(rels@[b]@),
        all_zero_seq(ints_of(coeffs@)) ==> (r matches Ok(rels) ==> rels@.len()
            == coeffs@.len()),
        coeffs@.len() == 1 ==> (r matches Ok(rels) ==> rows_of(rels@) == extract_spec(
            ints_of(coeffs@),
            build_spec(ints_of(coeffs@), int_of(*scale)),
        )),
{
    let ghost c = ints_of(coeffs@);
    let n = coeffs.len();
    let zero = int_from_i64(0);
    if n == 0 || !int_lt(&zero, scale) || !check_config(cfg) {
        return Err(RelError::InvalidInput);
    }
    let mut m = build_lattice(coeffs, scale);
    proof {
        lemma_build_inv(c, int_of(*scale));
    }
    let ghost m_built = m.m();
    let _complete = lll_reduce(&mut m, cfg);
    assert(lattice_inv(c, int_of(*scale), m.m()));
    proof {
        if n == 1 {
            assert(m.m() == m_built);
        }
    }
    let rels = extract_relations(&m, coeffs);
    proof {
        lemma_extract_sound(c, m.m());
        lemma_extract_len(c, m.m());
        assert(rels@.len() == rows_of(rels@).len());
        lemma_build_indep(c, int_of(*scale));
        assert forall|i: int| 0 <= i < build_spec(c, int_of(*scale)).len() implies (
        #[trigger] build_spec(c, int_of(*scale))[i]).len() == c.len() + 1 by {}
        lemma_indep_reachable(
            build_spec(c, int_of(*scale)),
            m.m(),
            c.len() as int,
            c.len() + 1 as int,
        );
        lemma_indep_distinct(m.m(), c.len() as int);
        lemma_extract_distinct(c, m.m());
        assert forall|a: int, b: int|
            #![trigger rels@[a], rels@[b]]
            0 <= a < b < rels@.len() implies ints_of(rels@[a]@) != ints_of(rels@[b]@) by {
            assert(rows_of(rels@)[a] == ints_of(rels@[a]@));
            assert(rows_of(rels@)[b] == ints_of(rels@[b]@));
            assert(extract_spec(c, m.m())[a] != extract_spec(c, m.m())[b]);
        }
        if all_zero_seq(c) {
            assert forall|i: int| 0 <= i < m.m().len() implies keep_row(c, #[trigger] m.m()[i]) by {
                let row = m.m()[i];
                assert(row_ok(c, int_of(*scale), row));
                lemma_dot_zero_left(c, row.drop_last());
                assert(row.take(c.len() as int) =~= row.drop_last());
                if all_zero_seq(row.take(c.len() as int)) {
                    assert forall|col: int| 0 <= col < c.len() implies #[trigger] m.m()[i][col]
                        == 0 by {
                        assert(row.take(c.len() as int)[col] == row[col]);
                    }
                    lemma_indep_rows_nonzero(m.m(), c.len() as int, i);
                }
            }
            lemma_extract_all(c, m.m());
        }
        assert forall|i: int| 0 <= i < rels@.len() implies {
            let v = ints_of((#[trigger] rels@[i])@);
            v.len() == coeffs@.len() && dot(ints_of(coeffs@), v) == 0 && !all_zero_seq(v)
        } by {
            assert(rows_of(rels@)[i] == ints_of(rels@[i]@));
        }
    }
    Ok(rels)
}

/// Find integer relations for the given coefficients: build the augmented
/// lattice at the default scale (ten times the largest coefficient
/// magnitude, one if all are zero), reduce it, and extract the verified
/// relations. Fails exactly on an empty sequence or an invalid
/// configuration; the result carries the same guarantees as
/// `find_relations_with_scale`, at the default scale.
pub fn find_relations(coeffs: &Vec<Integer>, cfg: &Config) -> (r: Result<
    Vec<Vec<Integer>>,
    RelError,
>)
    requires
        coeffs@.len() < usize::MAX,
    ensures
        r is Err <==> (coeffs@.len() == 0 || !config_valid(*cfg)),
        r matches Ok(rels) ==> forall|i: int|
            0 <= i < rels@.len() ==> {
                let v = ints_of((#[trigger] rels@[i])@);
                v.len() == coeffs@.len() && dot(ints_of(coeffs@), v) == 0 && !all_zero_seq(v)
            },
        r matches Ok(rels) ==> exists|mm: Seq<Seq<int>>|
            #[trigger] lattice_inv(ints_of(coeffs@), scale_spec(ints_of(coeffs@)), mm)
                && mm.len() == coeffs@.len() && reachable_by_row_ops(
                build_spec(ints_of(coeffs@), scale_spec(ints_of(coeffs@))),
                mm,
            ) && rows_of(rels@) == extract_spec(ints_of(coeffs@), mm),
        r matches Ok(rels) ==> rels@.len() <= coeffs@.len(),
        r matches Ok(rels) ==> forall|a: int, b: int|
            #![trigger rels@[a], rels@[b]]
            0 <= a < b < rels@.len() ==> ints_of(rels@[a]@) != ints_of(rels@[b]@),
        all_zero_seq(ints_of(coeffs@)) ==> (r matches Ok(rels) ==> rels@.len()
            == coeffs@.len()),
        coeffs@.len() == 1 ==> (r matches Ok(rels) ==> rows_of(rels@) == extract_spec(
            ints_of(coeffs@),
            build_spec(ints_of(coeffs@), scale_spec(ints_of(coeffs@))),
        )),
{
    let s = compute_scale(coeffs);
    proof {
        lemma_scale_pos(ints_of(coeffs@));
    }
    find_relations_with_scale(coeffs, &s, cfg)
}

/// Find integer relations at the conventional configuration
/// (`delta = 99/100`, `eta = 51/100`). The coefficient sequence must not
/// be empty.
pub fn find_integer_relations(coeffs: &Vec<Integer>) -> (rels: Vec<Vec<Integer>>)
    requires
        1 <= coeffs@.len() < usize::MAX,
    ensures
        forall|i: int|
            0 <= i < rels@.len() ==> {
                let v = ints_of((#[trigger] rels@[i])@);
                v.len() == coeffs@.len() && dot(ints_of(coeffs@), v) == 0 && !all_zero_seq(v)
            },
        rels@.len() <= coeffs@.len(),
        forall|a: int, b: int|
            #![trigger rels@[a], rels@[b]]
            0 <= a < b < rels@.len() ==> ints_of(rels@[a]@) != ints_of(rels@[b]@),
        all_zero_seq(ints_of(coeffs@)) ==> rels@.len() == coeffs@.len(),
        exists|mm: Seq<Seq<int>>|
            #[trigger] lattice_inv(ints_of(coeffs@), scale_spec(ints_of(coeffs@)), mm)
                && mm.len() == coeffs@.len() && reachable_by_row_ops(
                build_spec(ints_of(coeffs@), scale_spec(ints_of(coeffs@))),
                mm,
            ) && rows_of(rels@) == extract_spec(ints_of(coeffs@), mm),
        coeffs@.len() == 1 && ints_of(coeffs@)[0] == 0 ==> rels@.len() == 1 && ints_of(
            rels@[0]@,
        ) == seq![1int],
        coeffs@.len() == 1 && ints_of(coeffs@)[0] != 0 ==> rels@.len() == 0,
{
    let cfg = default_config();
    let r = find_relations(coeffs, &cfg);
    match r {
        Ok(rels) => {
            proof {
                if coeffs@.len() == 1 {
                    lemma_scale_pos(ints_of(coeffs@));
                    lemma_extract_single(ints_of(coeffs@), scale_spec(ints_of(coeffs@)));
                    if ints_of(coeffs@)[0] == 0 {
                        assert(rows_of(rels@) == seq![seq![1int]]);
                        assert(ints_of(rels@[0]@) == rows_of(rels@)[0]);
                    }
                }
            }
            rels
        },
        Err(_) => {
            proof {
                assert(false);
            }
            Vec::new()
        },
    }
}

} // verus!
