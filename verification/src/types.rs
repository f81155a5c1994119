//! Core types for signature verification.

use crate::constants::{HASH_LEN, MESSAGE_LENGTH, PARAMETER_LEN, RANDOMNESS_LEN};
use crate::koalabear::KoalaBear;
use vstd::prelude::*;

verus! {

/// Public key containing the Merkle root and the hash parameter.
#[derive(Clone, Debug)]
pub struct PublicKey {
    /// Merkle tree root (7 field elements)
    pub root: [KoalaBear; HASH_LEN],
    /// Tweakable hash parameter (5 field elements)
    pub parameter: [KoalaBear; PARAMETER_LEN],
}

/// XMSS signature containing the authentication path and chain data.
#[derive(Clone, Debug)]
pub struct Signature {
    /// Merkle authentication path (sibling hashes)
    pub path: Vec<[KoalaBear; HASH_LEN]>,
    /// Encoding randomness (rho) - 6 field elements
    pub rho: [KoalaBear; RANDOMNESS_LEN],
    /// Hash chain starting points (one per chain)
    pub hashes: Vec<[KoalaBear; HASH_LEN]>,
    /// Leaf index (epoch)
    pub leaf_index: u32,
}

/// Complete input for verification.
#[derive(Clone, Debug)]
pub struct VerifyInput {
    pub public_key: PublicKey,
    pub epoch: u32,
    pub message: [u8; MESSAGE_LENGTH],
    pub signature: Signature,
}

} // verus!
