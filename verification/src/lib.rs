//! Groth16 prover support for bellman over BN256.
pub mod constraint;
pub mod curve;
pub mod domain;
pub mod field;
pub mod gpu;
pub mod prove;
pub mod qap;
pub mod setup;
