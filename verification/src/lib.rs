//! Verified XMSS signature verification for leanSig's TargetSum W=1
//! instantiation over the KoalaBear prime field, in the shapes that the
//! zkVM guests of the benchmark use.
//!
//! - `koalabear`, `permutation`, `poseidon`, `encoding`, `biguint`, `types`,
//!   `verify`: the field, and the verifier with fixed-size keys and
//!   signatures, its compressions and sponge built on Plonky3's Poseidon2.
//! - `plonky3`: the Plonky3 Poseidon2 permutations (the one place they are
//!   called), and compression, sponge and domain separation over them.
//! - `risc0`: the verifier with hashes held as field arrays, over Plonky3.
//! - `openvm`: batches of byte-encoded signatures, their verification and
//!   commitment, and the prover input document.
//! - `compact`: four-element hashes, a SHAKE128 target-sum encoding and a
//!   sponge-folded leaf.
//! - `field_order`: 3 generates the field's multiplicative group, hence
//!   Fermat's little theorem for P, its primality and the correctness of
//!   `inverse`.
//! - `digest`, `export`, `host`, `zkvm`, `testgen`, `biguint64`: SHA-256,
//!   splitting key and signature encodings, epoch checks, host helpers and
//!   synthetic test vectors.

pub mod constants;
pub mod koalabear;
pub mod permutation;
pub mod poseidon;
pub mod biguint;
pub mod biguint64;
pub mod encoding;
pub mod types;
pub mod verify;
pub mod plonky3;
pub mod digest;
pub mod risc0;
pub mod openvm;
pub mod compact;
pub mod host;
pub mod export;
pub mod zkvm;
pub mod testgen;
pub mod field_order;
