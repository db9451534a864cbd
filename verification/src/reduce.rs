//! The reduction engine: iterative size reduction and swaps until the basis
//! satisfies the Lovász condition everywhere, with Gram–Schmidt statistics
//! tracked incrementally in exact rational arithmetic.
//!
//! Every decision the engine takes (reduce or not, swap or advance) is an
//! exact rational comparison, so no floating error can corrupt it. The row
//! operations themselves are the verified unimodular operations of
//! `matrix`, and the engine's contract states the fact extraction rests on:
//! any `lattice_inv` instance true of the input basis is true of the
//! reduced basis. An explicit iteration budget, sized from the bit length
//! of the input, bounds the loop; if it were ever exhausted the engine
//! stops early and reports incompleteness, which endangers no exactness
//! property because every extracted relation is re-verified.

use vstd::prelude::*;
use crate::bignum::{int_of, int_digits64};
use crate::rational::{
    Rat, rat_new_i64, rat_clone, rat_of_int, rat_add, rat_sub, rat_mul, rat_div, rat_abs, rat_lt,
    rat_le, rat_is_zero, rat_round_nearest,
};
use crate::matrix::{Mat, dot_prefix, swap_rows, row_sub_mul};
use crate::model::{
    lattice_inv, lemma_inv_step_sub_mul, lemma_inv_step_swap, basis_step, reachable_by_row_ops,
    lemma_reachable_refl, lemma_reachable_step,
};
use crate::config::{Config, config_valid};

verus! {

/// Gram–Schmidt statistics of the current basis: projection coefficients
/// `mu[k][j]` for `j < k` and the squared norms of the orthogonalized rows,
/// all exact rationals.
pub(crate) struct Gso {
    pub mu: Vec<Vec<Rat>>,
    pub norm: Vec<Rat>,
}

impl Gso {
    /// Shape and well-formedness for an `n`-row basis.
    pub(crate) open spec fn wf(self, n: nat) -> bool {
        &&& self.mu@.len() == n
        &&& forall|i: int| 0 <= i < n ==> (#[trigger] self.mu@[i])@.len() == n
        &&& forall|i: int, j: int|
            0 <= i < n && 0 <= j < n ==> (#[trigger] self.mu@[i]@[j]).wf()
        &&& self.norm@.len() == n
        &&& forall|i: int| 0 <= i < n ==> (#[trigger] self.norm@[i]).wf()
    }
}

/// The rational zero.
fn rat_zero() -> (r: Rat)
    ensures
        r.wf(),
{
    rat_new_i64(0, 1)
}

/// Store one projection coefficient, keeping the state well formed.
fn set_mu(g: &mut Gso, i: usize, j: usize, v: Rat, Ghost(n): Ghost<nat>)
    requires
        old(g).wf(n),
        (i as nat) < n,
        (j as nat) < n,
        v.wf(),
    ensures
        final(g).wf(n),
{
    g.mu[i][j] = v;
    proof {
        assert forall|x: int| 0 <= x < n implies (#[trigger] final(g).mu@[x])@.len() == n by {
            if x != i {
                assert(final(g).mu@[x] == old(g).mu@[x]);
            }
        }
        assert forall|x: int, y: int|
            0 <= x < n && 0 <= y < n implies (#[trigger] final(g).mu@[x]@[y]).wf() by {
            if x == i && y == j {
                assert(final(g).mu@[x]@[y] == v);
            } else if x == i {
                assert(final(g).mu@[x]@[y] == old(g).mu@[x]@[y]);
            } else {
                assert(final(g).mu@[x] == old(g).mu@[x]);
            }
        }
    }
}

/// Store one squared norm, keeping the state well formed.
fn set_norm(g: &mut Gso, i: usize, v: Rat, Ghost(n): Ghost<nat>)
    requires
        old(g).wf(n),
        (i as nat) < n,
        v.wf(),
    ensures
        final(g).wf(n),
{
    g.norm[i] = v;
    proof {
        assert forall|x: int| 0 <= x < n implies (#[trigger] final(g).norm@[x]).wf() by {
            if x != i {
                assert(final(g).norm@[x] == old(g).norm@[x]);
            }
        }
    }
}

/// Compute the Gram–Schmidt statistics of a basis from scratch, used once
/// at initialization. Returns nothing when an orthogonalized squared norm
/// vanishes, which cannot happen for linearly independent rows.
fn init_gso(m: &Mat, n: usize) -> (r: Option<Gso>)
    requires
        m.is_dims(n as nat, (n + 1) as nat),
        1 <= n,
        n < usize::MAX,
    ensures
        r matches Some(g) ==> g.wf(n as nat),
{
    let mut mu: Vec<Vec<Rat>> = Vec::new();
    let mut i: usize = 0;
    while i < n
        invariant
            i <= n,
            mu@.len() == i,
            forall|x: int| 0 <= x < i ==> (#[trigger] mu@[x])@.len() == n,
            forall|x: int, y: int| 0 <= x < i && 0 <= y < n ==> (#[trigger] mu@[x]@[y]).wf(),
        decreases n - i,
    {
        let mut row: Vec<Rat> = Vec::new();
        let mut j: usize = 0;
        while j < n
            invariant
                j <= n,
                row@.len() == j,
                forall|y: int| 0 <= y < j ==> (#[trigger] row@[y]).wf(),
            decreases n - j,
        {
            row.push(rat_zero());
            j = j + 1;
        }
        mu.push(row);
        i = i + 1;
    }
    let mut norm: Vec<Rat> = Vec::new();
    let mut i2: usize = 0;
    while i2 < n
        invariant
            i2 <= n,
            norm@.len() == i2,
            forall|x: int| 0 <= x < i2 ==> (#[trigger] norm@[x]).wf(),
        decreases n - i2,
    {
        norm.push(rat_zero());
        i2 = i2 + 1;
    }
    let mut g = Gso { mu, norm };
    assert(g.wf(n as nat));
    let mut k: usize = 0;
    while k < n
        invariant
            k <= n,
            1 <= n,
            n < usize::MAX,
            m.is_dims(n as nat, (n + 1) as nat),
            g.wf(n as nat),
        decreases n - k,
    {
        let mut cvec: Vec<Rat> = Vec::new();
        let mut j: usize = 0;
        while j < k
            invariant
                j <= k,
                k < n,
                n < usize::MAX,
                m.is_dims(n as nat, (n + 1) as nat),
                g.wf(n as nat),
                cvec@.len() == j,
                forall|x: int| 0 <= x < j ==> (#[trigger] cvec@[x]).wf(),
            decreases k - j,
        {
            assert(m.rows@[k as int]@.len() == n + 1);
            assert(m.rows@[j as int]@.len() == n + 1);
            let mut s = rat_of_int(&dot_prefix(&m.rows[k], &m.rows[j], n + 1));
            let mut i3: usize = 0;
            while i3 < j
                invariant
                    i3 <= j,
                    j < n,
                    s.wf(),
                    g.wf(n as nat),
                    cvec@.len() == j,
                    forall|x: int| 0 <= x < j ==> (#[trigger] cvec@[x]).wf(),
                decreases j - i3,
            {
                let t = rat_mul(&g.mu[j][i3], &cvec[i3]);
                s = rat_sub(&s, &t);
                i3 = i3 + 1;
            }
            if rat_is_zero(&g.norm[j]) {
                return None;
            }
            let mukj = rat_div(&s, &g.norm[j]);
            set_mu(&mut g, k, j, mukj, Ghost(n as nat));
            cvec.push(s);
            j = j + 1;
        }
        assert(m.rows@[k as int]@.len() == n + 1);
        let mut nk = rat_of_int(&dot_prefix(&m.rows[k], &m.rows[k], n + 1));
        let mut i4: usize = 0;
        while i4 < k
            invariant
                i4 <= k,
                k < n,
                nk.wf(),
                g.wf(n as nat),
                cvec@.len() == k,
                forall|x: int| 0 <= x < k ==> (#[trigger] cvec@[x]).wf(),
            decreases k - i4,
        {
            let t = rat_mul(&g.mu[k][i4], &cvec[i4]);
            nk = rat_sub(&nk, &t);
            i4 = i4 + 1;
        }
        set_norm(&mut g, k, nk, Ghost(n as nat));
        k = k + 1;
    }
    Some(g)
}

/// Size-reduce row `k` against every row below it, from `k-1` down to `0`,
/// updating the projection coefficients incrementally. Only unimodular row
/// subtractions touch the matrix, so every `lattice_inv` instance carries
/// over.
fn size_reduce_row(m: &mut Mat, g: &mut Gso, k: usize, eta: &Rat, n: usize)
    requires
        old(m).is_dims(n as nat, (n + 1) as nat),
        old(g).wf(n as nat),
        1 <= k < n,
        n < usize::MAX,
        eta.wf(),
    ensures
        final(m).is_dims(n as nat, (n + 1) as nat),
        final(g).wf(n as nat),
        forall|c: Seq<int>, s: int|
            lattice_inv(c, s, old(m).m()) ==> #[trigger] lattice_inv(c, s, final(m).m()),
        reachable_by_row_ops(old(m).m(), final(m).m()),
{
    let ghost m0 = old(m).m();
    proof {
        lemma_reachable_refl(m0);
    }
    let mut j: usize = k;
    while j > 0
        invariant
            j <= k,
            1 <= k < n,
            n < usize::MAX,
            m.is_dims(n as nat, (n + 1) as nat),
            g.wf(n as nat),
            eta.wf(),
            forall|c: Seq<int>, s: int|
                lattice_inv(c, s, m0) ==> #[trigger] lattice_inv(c, s, m.m()),
            reachable_by_row_ops(m0, m.m()),
        decreases j,
    {
        let jj = j - 1;
        let amu = rat_abs(&g.mu[k][jj]);
        if rat_lt(eta, &amu) {
            let q = rat_round_nearest(&g.mu[k][jj]);
            let ghost mprev = m.m();
            assert(m.rows@[k as int]@.len() == n + 1);
            assert(m.rows@[jj as int]@.len() == n + 1);
            row_sub_mul(m, k, jj, &q);
            proof {
                assert forall|c: Seq<int>, s: int|
                    lattice_inv(c, s, m0) implies #[trigger] lattice_inv(c, s, m.m()) by {
                    if lattice_inv(c, s, m0) {
                        assert(lattice_inv(c, s, mprev));
                        lemma_inv_step_sub_mul(c, s, mprev, m.m(), k as int, jj as int, int_of(q));
                    }
                }
                assert forall|x: int|
                    0 <= x < n implies (#[trigger] m.rows@[x])@.len() == n + 1 by {}
                assert(m.m() == mprev.update(
                    k as int,
                    crate::model::sub_mul_seq(mprev[k as int], int_of(q), mprev[jj as int]),
                ));
                assert(basis_step(mprev, m.m()));
                lemma_reachable_step(m0, mprev, m.m());
            }
            let qr = rat_of_int(&q);
            let mut i2: usize = 0;
            while i2 < jj
                invariant
                    i2 <= jj,
                    jj < k,
                    k < n,
                    g.wf(n as nat),
                    qr.wf(),
                decreases jj - i2,
            {
                let t = rat_mul(&qr, &g.mu[jj][i2]);
                let nv = rat_sub(&g.mu[k][i2], &t);
                set_mu(g, k, i2, nv, Ghost(n as nat));
                i2 = i2 + 1;
            }
            let nv2 = rat_sub(&g.mu[k][jj], &qr);
            set_mu(g, k, jj, nv2, Ghost(n as nat));
        }
        j = jj;
    }
}

/// Apply the standard incremental identities for the projection
/// coefficients and squared norms after a swap of rows `k-1` and `k`.
/// Returns false when the new leading squared norm vanishes, which cannot
/// happen for linearly independent rows.
fn update_gso_after_swap(g: &mut Gso, k: usize, n: usize) -> (ok: bool)
    requires
        old(g).wf(n as nat),
        1 <= k < n,
        n < usize::MAX,
    ensures
        final(g).wf(n as nat),
{
    let km1 = k - 1;
    let nu = rat_clone(&g.mu[k][km1]);
    let bk = rat_clone(&g.norm[k]);
    let bk1 = rat_clone(&g.norm[km1]);
    assert(nu.wf() && bk.wf() && bk1.wf());
    let nu2 = rat_mul(&nu, &nu);
    let t1 = rat_mul(&nu2, &bk1);
    let bnew = rat_add(&bk, &t1);
    if rat_is_zero(&bnew) {
        return false;
    }
    let t2 = rat_mul(&nu, &bk1);
    let munew = rat_div(&t2, &bnew);
    let t3 = rat_mul(&bk1, &bk);
    let bknew = rat_div(&t3, &bnew);
    set_norm(g, km1, bnew, Ghost(n as nat));
    set_norm(g, k, bknew, Ghost(n as nat));
    let mut i: usize = 0;
    while i < km1
        invariant
            i <= km1,
            km1 < k,
            k < n,
            g.wf(n as nat),
        decreases km1 - i,
    {
        let t4 = rat_clone(&g.mu[km1][i]);
        let t5 = rat_clone(&g.mu[k][i]);
        assert(t4.wf() && t5.wf());
        set_mu(g, km1, i, t5, Ghost(n as nat));
        set_mu(g, k, i, t4, Ghost(n as nat));
        i = i + 1;
    }
    let mut r: usize = k + 1;
    while r < n
        invariant
            k + 1 <= r <= n,
            1 <= k < n,
            km1 == k - 1,
            g.wf(n as nat),
            munew.wf(),
            nu.wf(),
        decreases n - r,
    {
        let t = rat_clone(&g.mu[r][k]);
        assert(t.wf());
        let u1 = rat_mul(&nu, &t);
        let v1 = rat_sub(&g.mu[r][km1], &u1);
        let u2 = rat_mul(&munew, &v1);
        let v2 = rat_add(&t, &u2);
        set_mu(g, r, k, v1, Ghost(n as nat));
        set_mu(g, r, km1, v2, Ghost(n as nat));
        r = r + 1;
    }
    set_mu(g, k, km1, munew, Ghost(n as nat));
    true
}

/// An iteration budget for the main loop, generous for any input that can
/// occur in practice: cubic in the row count and linear in the total bit
/// length of the matrix, saturating at `u64::MAX`.
fn iteration_budget(m: &Mat, n: usize) -> (fuel: u64)
    requires
        m.is_dims(n as nat, (n + 1) as nat),
        1 <= n,
        n < usize::MAX,
    ensures
        fuel >= 1000,
{
    let mut bits: u64 = 0;
    let mut i: usize = 0;
    while i < n
        invariant
            i <= n,
            n < usize::MAX,
            m.is_dims(n as nat, (n + 1) as nat),
            bits <= 10_000_000 + 0xFFFF_FFFFu64,
        decreases n - i,
    {
        let mut j: usize = 0;
        while j < n + 1
            invariant
                j <= n + 1,
                i < n,
                n < usize::MAX,
                m.is_dims(n as nat, (n + 1) as nat),
                bits <= 10_000_000 + 0xFFFF_FFFFu64,
            decreases n + 1 - j,
        {
            if bits < 10_000_000 {
                assert(m.rows@[i as int]@.len() == n + 1);
                let d = int_digits64(&m.rows[i][j]);
                let d64: u64 = if d > 0xFFFF_FFFFusize {
                    0xFFFF_FFFFu64
                } else {
                    d as u64
                };
                bits = bits + d64;
            }
            j = j + 1;
        }
        i = i + 1;
    }
    let nn: u128 = if n > 1_048_576 { 1_048_576u128 } else { n as u128 };
    let bs: u128 = (bits as u128) * 64 + 64;
    assert(nn * nn <= 0x100_0000_0000u128) by (nonlinear_arith)
        requires
            nn <= 0x10_0000u128,
    {
    }
    let p1: u128 = nn * nn;
    assert(p1 * (nn + 2) <= 0x100_0000_0000u128 * 0x10_0002u128) by (nonlinear_arith)
        requires
            p1 <= 0x100_0000_0000u128,
            nn <= 0x10_0000u128,
    {
    }
    let p2: u128 = p1 * (nn + 2);
    assert(p2 * (bs + 64) <= 0x1000_2000_0000_0000u128 * 0x41_0000_0100u128) by (nonlinear_arith)
        requires
            p2 <= 0x1000_2000_0000_0000u128,
            bs <= 0x41_0000_0000u128,
    {
    }
    let p3: u128 = p2 * (bs + 64);
    let total: u128 = p3 + 1000;
    if total > 0xFFFF_FFFF_FFFF_FFFFu128 {
        u64::MAX
    } else {
        total as u64
    }
}

/// Reduce the basis in place, spending at most `budget` advance-or-swap
/// decisions: the cooperative cancellation point of the engine, evaluated
/// once per outer-loop iteration, so a caller can bound or abort a long
/// run. The returned flag tells whether the run reached the reduced
/// terminal state; a false value (an exhausted budget or a vanishing
/// orthogonalized norm) leaves a partially reduced basis, which is still a
/// basis of the same lattice, so every guarantee of extraction stands.
///
/// The contract carries exactly what relation extraction needs: the
/// dimensions are unchanged, and every `lattice_inv` instance that held of
/// the input holds of the output, because swaps and integer row
/// subtractions are the only operations applied.
pub fn lll_reduce_with_budget(m: &mut Mat, cfg: &Config, budget: u64) -> (complete: bool)
    requires
        config_valid(*cfg),
        old(m).is_dims(old(m).rows@.len(), (old(m).rows@.len() + 1) as nat),
        old(m).rows@.len() >= 1,
        old(m).rows@.len() < usize::MAX,
    ensures
        final(m).is_dims(old(m).rows@.len(), (old(m).rows@.len() + 1) as nat),
        forall|c: Seq<int>, s: int|
            lattice_inv(c, s, old(m).m()) ==> #[trigger] lattice_inv(c, s, final(m).m()),
        reachable_by_row_ops(old(m).m(), final(m).m()),
        old(m).rows@.len() == 1 ==> *final(m) == *old(m) && complete,
        budget == 0 && old(m).rows@.len() > 1 ==> !complete,
{
    let ghost m0 = old(m).m();
    let ghost nn = old(m).rows@.len();
    proof {
        lemma_reachable_refl(m0);
    }
    let n = m.rows.len();
    if n == 1 {
        return true;
    }
    let g_opt = init_gso(m, n);
    let mut g: Gso;
    match g_opt {
        Some(g0) => {
            g = g0;
        },
        None => {
            return false;
        },
    }
    let mut fuel = budget;
    let mut k: usize = 1;
    while k < n && fuel > 0
        invariant
            1 <= k <= n,
            2 <= n,
            n == nn,
            nn == old(m).rows@.len(),
            m0 == old(m).m(),
            n < usize::MAX,
            config_valid(*cfg),
            m.is_dims(n as nat, (n + 1) as nat),
            g.wf(n as nat),
            forall|c: Seq<int>, s: int|
                lattice_inv(c, s, m0) ==> #[trigger] lattice_inv(c, s, m.m()),
            reachable_by_row_ops(m0, m.m()),
            budget == 0 ==> k == 1 && fuel == 0,
            fuel <= budget,
        decreases fuel,
    {
        fuel = fuel - 1;
        let ghost mbefore = m.m();
        size_reduce_row(m, &mut g, k, &cfg.eta, n);
        proof {
            assert forall|c: Seq<int>, s: int|
                lattice_inv(c, s, m0) implies #[trigger] lattice_inv(c, s, m.m()) by {
                if lattice_inv(c, s, m0) {
                    assert(lattice_inv(c, s, mbefore));
                    assert(lattice_inv(c, s, m.m()));
                }
            }
            crate::model::lemma_reachable_trans(m0, mbefore, m.m());
        }
        let km1 = k - 1;
        let mukk = rat_clone(&g.mu[k][km1]);
        assert(mukk.wf());
        let lhs = rat_clone(&g.norm[k]);
        let rhs0 = rat_mul(&mukk, &mukk);
        let rhs1 = rat_sub(&cfg.delta, &rhs0);
        let rhs = rat_mul(&rhs1, &g.norm[km1]);
        assert(lhs.wf());
        if rat_le(&rhs, &lhs) {
            k = k + 1;
        } else {
            let ghost mprev = m.m();
            swap_rows(m, km1, k);
            proof {
                assert forall|c: Seq<int>, s: int|
                    lattice_inv(c, s, m0) implies #[trigger] lattice_inv(c, s, m.m()) by {
                    if lattice_inv(c, s, m0) {
                        assert(lattice_inv(c, s, mprev));
                        lemma_inv_step_swap(c, s, mprev, m.m(), km1 as int, k as int);
                    }
                }
                assert forall|x: int|
                    0 <= x < n implies (#[trigger] m.rows@[x])@.len() == n + 1 by {}
                assert(m.m() == mprev.update(km1 as int, mprev[k as int]).update(
                    k as int,
                    mprev[km1 as int],
                ));
                assert(basis_step(mprev, m.m()));
                lemma_reachable_step(m0, mprev, m.m());
            }
            let ok = update_gso_after_swap(&mut g, k, n);
            if !ok {
                return false;
            }
            if k > 1 {
                k = k - 1;
            }
        }
    }
    k == n
}

/// Reduce the basis in place under the default iteration budget, which is
/// generous for any input that can occur in practice (cubic in the row
/// count and linear in the total bit length of the matrix).
pub fn lll_reduce(m: &mut Mat, cfg: &Config) -> (complete: bool)
    requires
        config_valid(*cfg),
        old(m).is_dims(old(m).rows@.len(), (old(m).rows@.len() + 1) as nat),
        old(m).rows@.len() >= 1,
        old(m).rows@.len() < usize::MAX,
    ensures
        final(m).is_dims(old(m).rows@.len(), (old(m).rows@.len() + 1) as nat),
        forall|c: Seq<int>, s: int|
            lattice_inv(c, s, old(m).m()) ==> #[trigger] lattice_inv(c, s, final(m).m()),
        reachable_by_row_ops(old(m).m(), final(m).m()),
        old(m).rows@.len() == 1 ==> *final(m) == *old(m) && complete,
{
    let n = m.rows.len();
    let budget = iteration_budget(m, n);
    lll_reduce_with_budget(m, cfg, budget)
}

} // verus!
