//! Reduction parameters.
//!
//! `delta` controls how strongly consecutive orthogonalized vectors must
//! shorten (the Lovász condition); `eta` is the size-reduction tolerance.
//! Both are exact rationals. The representation and Gram settings record
//! the engine's policy: it reduces an integer basis (not a Gram matrix) and
//! keeps its Gram–Schmidt statistics in exact arithmetic; these are the only
//! supported settings, and anything else is rejected as invalid input.

use vstd::prelude::*;
use crate::rational::{Rat, rat_new_i64, rat_clone};
use crate::bignum::{int_from_i64, int_lt, int_le, int_mul};

verus! {

/// How the input matrix is to be read: as a lattice basis of integer rows,
/// or as a Gram matrix of inner products. This engine reduces bases only.
#[allow(non_camel_case_types)]
#[derive(Clone, Copy, PartialEq, Eq, Structural, Debug)]
pub enum rep_type {
    GRAM,
    Z_BASIS,
}

/// How Gram–Schmidt statistics are carried: approximately (floating point)
/// or exactly. This engine computes them exactly.
#[allow(non_camel_case_types)]
#[derive(Clone, Copy, PartialEq, Eq, Structural, Debug)]
pub enum gram_type {
    APPROX,
    EXACT,
}

/// The configuration of one reduction run.
pub struct Config {
    pub delta: Rat,
    pub eta: Rat,
    pub rt: rep_type,
    pub gt: gram_type,
}

/// A valid configuration: `1/4 < delta < 1`, `1/2 <= eta` and
/// `eta * eta < delta`, stated by cross-multiplication over the positive
/// denominators; and the two policy settings this engine supports.
pub open spec fn config_valid(cfg: Config) -> bool {
    &&& cfg.delta.wf()
    &&& cfg.eta.wf()
    &&& cfg.delta.d() < 4 * cfg.delta.n()
    &&& cfg.delta.n() < cfg.delta.d()
    &&& cfg.eta.d() <= 2 * cfg.eta.n()
    &&& cfg.eta.n() * cfg.eta.n() * cfg.delta.d() < cfg.delta.n() * (cfg.eta.d() * cfg.eta.d())
    &&& cfg.rt is Z_BASIS
    &&& cfg.gt is EXACT
}

/// The conventional configuration: `delta = 99/100`, `eta = 51/100`.
pub fn default_config() -> (cfg: Config)
    ensures
        config_valid(cfg),
        cfg.delta.n() == 99 && cfg.delta.d() == 100,
        cfg.eta.n() == 51 && cfg.eta.d() == 100,
{
    let cfg = Config {
        delta: rat_new_i64(99, 100),
        eta: rat_new_i64(51, 100),
        rt: rep_type::Z_BASIS,
        gt: gram_type::EXACT,
    };
    proof {
        assert(51 * 51 * 100 < 99 * (100 * 100)) by (nonlinear_arith);
    }
    cfg
}

/// Copy a configuration.
pub fn config_clone(cfg: &Config) -> (r: Config)
    ensures
        r.delta.n() == cfg.delta.n() && r.delta.d() == cfg.delta.d(),
        r.eta.n() == cfg.eta.n() && r.eta.d() == cfg.eta.d(),
        r.rt == cfg.rt && r.gt == cfg.gt,
{
    Config { delta: rat_clone(&cfg.delta), eta: rat_clone(&cfg.eta), rt: cfg.rt, gt: cfg.gt }
}

/// Decide validity of a configuration, exactly.
pub fn check_config(cfg: &Config) -> (r: bool)
    ensures
        r == config_valid(*cfg),
{
    let zero = int_from_i64(0);
    if !int_lt(&zero, &cfg.delta.den) || !int_lt(&zero, &cfg.eta.den) {
        return false;
    }
    let four = int_from_i64(4);
    let two = int_from_i64(2);
    let dn = &cfg.delta.num;
    let dd = &cfg.delta.den;
    let en = &cfg.eta.num;
    let ed = &cfg.eta.den;
    let c1 = int_lt(dd, &int_mul(&four, dn));
    let c2 = int_lt(dn, dd);
    let c3 = int_le(ed, &int_mul(&two, en));
    let c4 = int_lt(&int_mul(&int_mul(en, en), dd), &int_mul(dn, &int_mul(ed, ed)));
    let c5 = match cfg.rt {
        rep_type::Z_BASIS => true,
        rep_type::GRAM => false,
    };
    let c6 = match cfg.gt {
        gram_type::EXACT => true,
        gram_type::APPROX => false,
    };
    c1 && c2 && c3 && c4 && c5 && c6
}

} // verus!
