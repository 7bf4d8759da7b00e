//! Interactive proofs over a prime field: a turn-taking protocol engine, the
//! sum-check protocol over a multilinear extension, a matrix-product check and a
//! Reed-Solomon fingerprint.

pub mod fields;
pub mod fingerprint;
pub mod freivalds;
pub mod ip;
pub mod sums;
pub mod mle;
pub mod polynomials;
pub mod sumcheck;
