//! The verifier variant built on Plonky3's Poseidon2 permutations, with
//! hashes held as fixed-size field arrays.

pub mod field;
pub mod types;
pub mod tweak_hash;
pub mod encoding;
pub mod verify;
