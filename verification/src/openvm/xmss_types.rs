//! Wire types of a batch of XMSS signatures over one message and epoch.

use vstd::prelude::*;

verus! {

/// A signature with byte-encoded field elements (4 little-endian bytes each).
#[derive(Debug, Clone)]
pub struct Signature {
    pub leaf_index: u32,
    pub randomness: Vec<u8>,
    pub wots_chain_ends: Vec<Vec<u8>>,
    pub auth_path: Vec<Vec<u8>>,
}

/// A public key with byte-encoded field elements.
#[derive(Debug, Clone)]
pub struct PublicKey {
    pub root: Vec<u8>,
    pub parameter: Vec<u8>,
}

/// What a batch claims: `k` signers of message `m` at epoch `ep`.
#[derive(Debug, Clone)]
pub struct Statement {
    /// Number of signers/signatures expected
    pub k: u32,
    /// Epoch
    pub ep: u64,
    /// Single common message for all signatures
    pub m: Vec<u8>,
    /// Public keys corresponding to each signature
    pub public_keys: Vec<PublicKey>,
}

/// The signatures of a batch.
#[derive(Debug, Clone)]
pub struct Witness {
    pub signatures: Vec<Signature>,
}

/// Outcome of verifying a batch.
#[derive(Debug, Clone, Copy, PartialEq, Eq, Structural)]
pub struct VerificationResult {
    pub all_signatures_valid: bool,
    pub num_signatures_verified: usize,
}

/// Parameters of the signature scheme a batch was made with.
#[derive(Debug, Clone, Copy, PartialEq, Eq, Structural)]
pub struct TslParams {
    pub w: u16,
    pub v: u16,
    pub d0: u32,
    pub security_bits: u16,
    pub tree_height: u16,
}

/// A complete batch: parameters, statement and witness.
#[derive(Debug, Clone)]
pub struct VerificationBatch {
    pub params: TslParams,
    pub statement: Statement,
    pub witness: Witness,
}

} // verus!
