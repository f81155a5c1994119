//! Keys, signatures and verification input of the field-array variant.

use crate::constants::{HASH_LEN, MESSAGE_LENGTH, PARAMETER_LEN, RANDOMNESS_LEN};
use crate::koalabear::KoalaBear;
use crate::risc0::field::FieldArray;
use vstd::prelude::*;

verus! {

/// A hash: `HASH_LEN` field elements.
pub type Hash = FieldArray<HASH_LEN>;

/// The public hash parameter: `PARAMETER_LEN` field elements.
pub type Parameter = FieldArray<PARAMETER_LEN>;

/// Encoding randomness: `RANDOMNESS_LEN` field elements.
pub type EncodingRandomness = FieldArray<RANDOMNESS_LEN>;

/// Public key for the XMSS signature scheme.
#[derive(Clone, Debug)]
pub struct PublicKey {
    /// Merkle tree root.
    pub root: Hash,
    /// Hash function parameter.
    pub parameter: Parameter,
}

/// Merkle authentication path: co-path nodes with their side (true when
/// the sibling is on the right).
#[derive(Clone, Debug)]
pub struct MerklePath {
    pub co_path: Vec<(Hash, bool)>,
}

/// XMSS signature.
#[derive(Clone, Debug)]
pub struct Signature {
    /// Merkle authentication path (one sibling per level).
    pub path: Vec<Hash>,
    /// Encoding randomness.
    pub rho: EncodingRandomness,
    /// Chain hash values, one per chain.
    pub hashes: Vec<Hash>,
    /// Leaf index (equals the epoch).
    pub leaf_index: u32,
}

/// Input of a verification.
#[derive(Clone, Debug)]
pub struct VerificationInput {
    pub public_key: PublicKey,
    /// Epoch (time period).
    pub epoch: u32,
    /// Message to verify.
    pub message: [u8; MESSAGE_LENGTH],
    pub signature: Signature,
}

/// Output of a verification.
#[derive(Clone, Debug)]
pub struct VerificationOutput {
    /// Whether the signature is valid.
    pub is_valid: bool,
    /// Epoch that was verified.
    pub epoch: u32,
    /// Hash of the message that was verified.
    pub message_hash: [u8; 32],
}

/// The hashes of a list, each as its sequence of field elements.
pub open spec fn hash_list_view(h: Seq<Hash>) -> Seq<Seq<KoalaBear>> {
    Seq::new(h.len(), |i: int| h[i]@)
}

} // verus!
