//! XMSS signature verification using TargetSum W=1 encoding.

use crate::constants::{BASE, HASH_LEN, MESSAGE_LENGTH, NUM_CHAINS, PARAMETER_LEN, TREE_HEIGHT};
use crate::encoding::{codeword_spec, compute_codeword, message_hash_spec};
use crate::koalabear::KoalaBear;
use crate::poseidon::{chain_spec, chain_walk, hashes_view, merkle_root_spec, verify_merkle_path};
use crate::types::{PublicKey, Signature, VerifyInput};
use vstd::prelude::*;

verus! {

/// Whether some codeword entry among the first `n` names a position outside a chain.
pub open spec fn has_bad_position(codeword: Seq<u8>, n: nat) -> bool {
    exists|i: int| 0 <= i < n && codeword[i] >= BASE
}

/// Chain ends reached from the signature's chain values, pairing codeword
/// entries with hashes: chain `i` starts at position `codeword[i]` and walks
/// to position `BASE - 1`; nothing when an entry is outside a chain.
pub open spec fn chain_ends_spec(
    parameter: Seq<KoalaBear>,
    epoch: u32,
    codeword: Seq<u8>,
    hashes: Seq<Seq<KoalaBear>>,
) -> Seq<Seq<KoalaBear>> {
    let n = if codeword.len() < hashes.len() { codeword.len() } else { hashes.len() };
    if has_bad_position(codeword, n) {
        Seq::empty()
    } else {
        Seq::new(
            n,
            |i: int|
                chain_spec(parameter, epoch, i as u8, codeword[i] as int, (BASE - 1 - codeword[i]) as nat, hashes[i]),
        )
    }
}

/// When a signature is valid for a public key, epoch and message.
pub open spec fn signature_valid(pk: PublicKey, epoch: u32, message: Seq<u8>, sig: Signature) -> bool {
    let codeword = codeword_spec(message_hash_spec(pk.parameter@, epoch, sig.rho@, message));
    &&& sig.hashes@.len() == NUM_CHAINS
    &&& sig.path@.len() == TREE_HEIGHT
    &&& sig.leaf_index == epoch
    &&& merkle_root_spec(
        pk.parameter@,
        epoch,
        chain_ends_spec(pk.parameter@, epoch, codeword, hashes_view(sig.hashes@)),
        hashes_view(sig.path@),
    ) == pk.root@
}

/// Verify an XMSS signature: `true` if the signature is valid.
pub fn verify_signature(pk: &PublicKey, epoch: u32, message: &[u8; MESSAGE_LENGTH], sig: &Signature) -> (r: bool)
    ensures
        r == signature_valid(*pk, epoch, message@, *sig),
{
    // Validate signature structure
    if sig.hashes.len() != NUM_CHAINS {
        return false;
    }
    if sig.path.len() != TREE_HEIGHT {
        return false;
    }
    if sig.leaf_index != epoch {
        return false;
    }

    // Step 1: compute the codeword (chain positions) from the message
    let codeword = compute_codeword(&pk.parameter, epoch, &sig.rho, message);

    if codeword.len() != NUM_CHAINS {
        return false;
    }

    // Step 2: reconstruct the chain ends by walking from the signature hashes
    let chain_ends = reconstruct_chain_endpoints(&pk.parameter, epoch, &codeword, &sig.hashes);
    proof {
        assert(!has_bad_position(codeword@, NUM_CHAINS as nat));
        assert(hashes_view(chain_ends@).len() == chain_ends@.len());
        assert(chain_ends@.len() == NUM_CHAINS);
    }

    // Step 3: verify the Merkle authentication path
    verify_merkle_path(&pk.parameter, &pk.root, epoch, &chain_ends, &sig.path, TREE_HEIGHT)
}

/// Reconstruct the chain ends from the signature hashes and the codeword.
///
/// For BASE = 2 each codeword value is 0 or 1: a 0 walks one step, a 1 is
/// already at the end. A codeword value out of range gives an empty result.
fn reconstruct_chain_endpoints(
    parameter: &[KoalaBear; PARAMETER_LEN],
    epoch: u32,
    codeword: &[u8],
    sig_hashes: &[[KoalaBear; HASH_LEN]],
) -> (r: Vec<[KoalaBear; HASH_LEN]>)
    ensures
        hashes_view(r@) == chain_ends_spec(parameter@, epoch, codeword@, hashes_view(sig_hashes@)),
{
    let n = if codeword.len() < sig_hashes.len() { codeword.len() } else { sig_hashes.len() };
    let mut endpoints: Vec<[KoalaBear; HASH_LEN]> = Vec::new();
    let ghost hv = hashes_view(sig_hashes@);
    let mut chain_index: usize = 0;
    while chain_index < n
        invariant
            n == (if codeword@.len() < hv.len() { codeword@.len() } else { hv.len() }),
            n <= codeword@.len(),
            n <= sig_hashes@.len(),
            hv == hashes_view(sig_hashes@),
            chain_index <= n,
            endpoints@.len() == chain_index,
            forall|i: int| 0 <= i < chain_index ==> #[trigger] codeword@[i] < BASE,
            forall|i: int|
                0 <= i < chain_index ==> #[trigger] endpoints@[i]@ == chain_spec(
                    parameter@,
                    epoch,
                    i as u8,
                    codeword@[i] as int,
                    (BASE - 1 - codeword@[i]) as nat,
                    hv[i],
                ),
        decreases n - chain_index,
    {
        let steps_seen = codeword[chain_index];
        let start_pos = steps_seen;
        if steps_seen as usize >= BASE {
            proof {
                assert(has_bad_position(codeword@, n as nat));
                assert(hashes_view(Seq::<[KoalaBear; HASH_LEN]>::empty()) =~= Seq::empty());
            }
            return Vec::new();
        }
        let remaining = (BASE - 1) as u8 - start_pos;
        let endpoint = chain_walk(
            parameter,
            epoch,
            chain_index as u8,
            start_pos,
            remaining as usize,
            &sig_hashes[chain_index],
        );
        endpoints.push(endpoint);
        chain_index += 1;
    }
    proof {
        assert(!has_bad_position(codeword@, n as nat));
        assert(hashes_view(endpoints@) =~= chain_ends_spec(parameter@, epoch, codeword@, hv));
    }
    endpoints
}

/// Verify from a complete verification input.
pub fn verify_from_input(input: &VerifyInput) -> (r: bool)
    ensures
        r == signature_valid(input.public_key, input.epoch, input.message@, input.signature),
{
    verify_signature(&input.public_key, input.epoch, &input.message, &input.signature)
}

} // verus!
