//! Detection of integer linear relations among arbitrary-precision integers.
//!
//! Given coefficients `c`, the library builds an augmented lattice basis,
//! reduces it with an exact-arithmetic LLL procedure, and extracts the rows
//! whose target coordinate vanishes: each such row yields an integer vector
//! `r` with `sum(c[i] * r[i]) == 0`, re-verified exactly before it is
//! returned.
//!
//! The arbitrary-precision arithmetic itself is supplied by an external
//! backend behind the trusted boundary in `bignum`; everything above that
//! boundary is verified.

pub mod bignum;
pub mod builder;
pub mod config;
pub mod matrix;
pub mod model;
pub mod rational;
pub mod reduce;
pub mod relations;
