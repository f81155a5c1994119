//! The compact variant: four-element hashes and parameters, three-element
//! tweaks, a byte-oriented target-sum encoding, and a sponge that folds the
//! chain ends into the leaf. Hashing is over Plonky3's Poseidon2
//! permutations, in two arrangements of the same compression.

pub mod tweak;
pub mod native_hash;
pub mod plonky3_hash;
pub mod encoding;
pub mod types;
pub mod verify;
