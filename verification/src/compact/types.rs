//! Keys, signatures and verification input of the compact variant.

use crate::constants::MESSAGE_LENGTH;
use crate::koalabear::KoalaBear;
use vstd::prelude::*;

verus! {

/// Public key: Merkle root and hash parameter, as field elements.
#[derive(Clone, Debug)]
pub struct PublicKey {
    pub root: Vec<KoalaBear>,
    pub parameter: Vec<KoalaBear>,
}

/// Signature: authentication path, encoding randomness and one hash per chain.
#[derive(Clone, Debug)]
pub struct Signature {
    /// Sibling hashes, from the leaf upwards.
    pub path: Vec<Vec<KoalaBear>>,
    /// Encoding randomness.
    pub rho: Vec<u8>,
    /// Chain values at the positions the encoding gives.
    pub hashes: Vec<Vec<KoalaBear>>,
}

/// Complete input of a verification.
#[derive(Clone, Debug)]
pub struct VerifyInput {
    pub public_key: PublicKey,
    pub epoch: u32,
    pub message: [u8; MESSAGE_LENGTH],
    pub signature: Signature,
}

} // verus!
