//! Packing, decoding and hashing for Merkle Mountain Range inclusion proofs
//! checked by on-chain verifier scripts, and the pure steps of the fixture
//! generator that feeds them.

pub mod hash;
pub mod merge;
pub mod packed;
pub mod witness;
pub mod fixture;
pub mod inputs;
