//! A verified core for an on-chain STARK proof verifier over Winterfell's
//! reference computation `x -> x^3 + 42`.
//!
//! - `field`: arithmetic in the 128-bit prime field of the computation.
//! - `air`: the AIR: one trace column, the cubing transition, two boundary
//!   assertions.
//! - `prover`: the execution trace and public inputs the prover derives.
//! - `decimal`: the public inputs as base-10 strings.
//! - `candid_blob`: proof bytes as hex and as a Candid blob literal.
//! - `proof_layout`: the layout of an encoded proof, and where decoding it
//!   traps.
//! - `canister`: the verifier's request, answer and the decisions around
//!   the STARK verification.

pub mod field;
pub mod air;
pub mod prover;
pub mod decimal;
pub mod candid_blob;
pub mod canister;
pub mod proof_layout;
