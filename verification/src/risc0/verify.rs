//! Signature verification of the field-array variant: encode the message,
//! walk each chain to its end, hash the ends into the leaf and climb the
//! Merkle path to the root.

use crate::constants::{BASE, NUM_CHAINS, TREE_HEIGHT};
use crate::koalabear::KoalaBear;
use crate::risc0::encoding::{codeword_spec, compute_codeword};
use crate::risc0::tweak_hash::{apply, apply_spec, chain, chain_spec, Tweak};
use crate::risc0::types::{hash_list_view, Parameter, PublicKey, Signature, VerificationInput, VerificationOutput};
use vstd::arithmetic::div_mod::*;
use vstd::arithmetic::power::*;
use vstd::prelude::*;

verus! {

/// Whether some codeword entry names a position outside a chain.
pub open spec fn has_bad_position(codeword: Seq<u8>, n: nat) -> bool {
    exists|i: int| 0 <= i < n && codeword[i] >= BASE
}

/// The chain ends: chain `i` walked from position `codeword[i]` to the end
/// of the chain, for each pair of codeword entry and signature hash; nothing
/// when some entry is outside a chain.
pub open spec fn chain_ends_spec(
    param: Seq<KoalaBear>,
    epoch: u32,
    codeword: Seq<u8>,
    hashes: Seq<Seq<KoalaBear>>,
) -> Seq<Seq<KoalaBear>> {
    let n = if codeword.len() < hashes.len() { codeword.len() } else { hashes.len() };
    if has_bad_position(codeword, n) {
        Seq::empty()
    } else {
        Seq::new(
            n,
            |i: int| chain_spec(param, epoch, i as u8, codeword[i] as int, (BASE - 1 - codeword[i]) as nat, hashes[i]),
        )
    }
}

/// Node at level `i` on the path from `leaf` at `pos`.
pub open spec fn merkle_node(
    param: Seq<KoalaBear>,
    pos: u32,
    leaf: Seq<KoalaBear>,
    path: Seq<Seq<KoalaBear>>,
    i: nat,
) -> Seq<KoalaBear>
    decreases i,
{
    if i == 0 {
        leaf
    } else {
        let prev = merkle_node(param, pos, leaf, path, (i - 1) as nat);
        let idx = pos as int / pow(2, (i - 1) as nat);
        let sib = path[i - 1];
        let t = Tweak::TreeTweak { level: i as u8, pos_in_level: (idx / 2) as u32 };
        if idx % 2 == 0 {
            apply_spec(param, t, seq![prev, sib])
        } else {
            apply_spec(param, t, seq![sib, prev])
        }
    }
}

/// The root reached from the leaf hashed from `leaf_hashes` at `pos`.
pub open spec fn merkle_root_spec(
    param: Seq<KoalaBear>,
    pos: u32,
    leaf_hashes: Seq<Seq<KoalaBear>>,
    path: Seq<Seq<KoalaBear>>,
) -> Seq<KoalaBear> {
    let leaf = apply_spec(param, Tweak::TreeTweak { level: 0, pos_in_level: pos }, leaf_hashes);
    merkle_node(param, pos, leaf, path, path.len())
}

/// Whether a signature is valid for a public key, epoch and message.
pub open spec fn signature_valid(pk: PublicKey, epoch: u32, message: Seq<u8>, sig: Signature) -> bool {
    let param = pk.parameter@;
    let codeword = codeword_spec(param, epoch, sig.rho@, message);
    &&& sig.hashes@.len() == NUM_CHAINS
    &&& sig.path@.len() == TREE_HEIGHT
    &&& sig.leaf_index == epoch
    &&& merkle_root_spec(
        param,
        epoch,
        chain_ends_spec(param, epoch, codeword, hash_list_view(sig.hashes@)),
        hash_list_view(sig.path@),
    ) == pk.root@
}

/// Verify an XMSS signature.
pub fn verify_signature(public_key: &PublicKey, epoch: u32, message: &[u8; 32], signature: &Signature) -> (r: bool)
    ensures
        r == signature_valid(*public_key, epoch, message@, *signature),
{
    if signature.hashes.len() != NUM_CHAINS {
        return false;
    }
    if signature.path.len() != TREE_HEIGHT {
        return false;
    }
    if signature.leaf_index != epoch {
        return false;
    }
    let codeword = compute_codeword(&public_key.parameter, epoch, &signature.rho, message);
    if codeword.len() != NUM_CHAINS {
        return false;
    }
    let chain_ends = reconstruct_chain_endpoints(&public_key.parameter, epoch, &codeword, &signature.hashes);
    proof {
        assert(!has_bad_position(codeword@, NUM_CHAINS as nat));
        assert(chain_ends@.len() == NUM_CHAINS);
    }
    if chain_ends.len() == 0 {
        return false;
    }
    verify_merkle_path(&public_key.parameter, &public_key.root, epoch, &chain_ends, &signature.path)
}

/// Walk each chain from the position that the codeword gives to the end of
/// the chain; nothing when an entry names a position outside a chain.
fn reconstruct_chain_endpoints(
    parameter: &Parameter,
    epoch: u32,
    codeword: &[u8],
    sig_hashes: &[crate::risc0::types::Hash],
) -> (r: Vec<crate::risc0::types::Hash>)
    ensures
        hash_list_view(r@) == chain_ends_spec(parameter@, epoch, codeword@, hash_list_view(sig_hashes@)),
        r@.len() == hash_list_view(r@).len(),
{
    let ghost hv = hash_list_view(sig_hashes@);
    let n = if codeword.len() < sig_hashes.len() { codeword.len() } else { sig_hashes.len() };
    let mut endpoints: Vec<crate::risc0::types::Hash> = Vec::new();
    let mut chain_index: usize = 0;
    while chain_index < n
        invariant
            hv == hash_list_view(sig_hashes@),
            n == (if codeword@.len() < hv.len() { codeword@.len() } else { hv.len() }),
            n <= codeword@.len(),
            n <= sig_hashes@.len(),
            chain_index <= n,
            endpoints@.len() == chain_index,
            forall|j: int| 0 <= j < chain_index ==> #[trigger] codeword@[j] < BASE,
            forall|j: int|
                0 <= j < chain_index ==> #[trigger] endpoints@[j]@ == chain_spec(
                    parameter@,
                    epoch,
                    j as u8,
                    codeword@[j] as int,
                    (BASE - 1 - codeword@[j]) as nat,
                    hv[j],
                ),
        decreases n - chain_index,
    {
        let steps_seen = codeword[chain_index];
        if steps_seen as usize >= BASE {
            proof {
                assert(has_bad_position(codeword@, n as nat));
                assert(hash_list_view(Seq::<crate::risc0::types::Hash>::empty()) =~= Seq::empty());
            }
            return Vec::new();
        }
        let remaining = (BASE - 1) as u8 - steps_seen;
        let endpoint = chain(
            parameter,
            epoch,
            chain_index as u8,
            steps_seen,
            remaining as usize,
            &sig_hashes[chain_index],
        );
        endpoints.push(endpoint);
        chain_index += 1;
    }
    proof {
        assert(!has_bad_position(codeword@, n as nat));
        assert(hash_list_view(endpoints@) =~= chain_ends_spec(parameter@, epoch, codeword@, hv));
    }
    endpoints
}

/// Hash the chain ends into the leaf at `position`, climb the path, and
/// compare with `root`.
pub fn verify_merkle_path(
    parameter: &Parameter,
    root: &crate::risc0::types::Hash,
    position: u32,
    leaf_hashes: &[crate::risc0::types::Hash],
    path: &[crate::risc0::types::Hash],
) -> (r: bool)
    requires
        crate::plonky3::input_fits(leaf_hashes@.len()),
    ensures
        r == (path@.len() == TREE_HEIGHT && merkle_root_spec(
            parameter@,
            position,
            hash_list_view(leaf_hashes@),
            hash_list_view(path@),
        ) == root@),
{
    if path.len() != TREE_HEIGHT {
        return false;
    }
    let tweak = Tweak::tree_tweak(0, position);
    let mut current = apply(parameter, &tweak, leaf_hashes);
    let ghost leaf_value = current@;
    let ghost pv = hash_list_view(path@);
    let mut idx = position;
    let mut level: usize = 0;
    proof {
        lemma_pow0(2);
        lemma_div_basics(position as int);
    }
    while level < path.len()
        invariant
            path@.len() == TREE_HEIGHT,
            pv == hash_list_view(path@),
            level <= path@.len(),
            idx as int == position as int / pow(2, level as nat),
            current@ == merkle_node(parameter@, position, leaf_value, pv, level as nat),
        decreases path@.len() - level,
    {
        let sibling = path[level];
        let bit = idx & 1;
        let ghost idx0 = idx;
        let children = if bit == 0 {
            [current, sibling]
        } else {
            [sibling, current]
        };
        idx = idx >> 1;
        proof {
            assert(bit == idx0 % 2 && idx == idx0 / 2) by (bit_vector)
                requires
                    bit == idx0 & 1,
                    idx == idx0 >> 1,
            ;
            reveal(pow);
            assert(pow(2, (level + 1) as nat) == 2 * pow(2, level as nat));
            lemma_pow_positive(2, level as nat);
            lemma_div_denominator(position as int, pow(2, level as nat), 2);
            vstd::arithmetic::mul::lemma_mul_is_commutative(2, pow(2, level as nat));
            assert(hash_list_view(children@) =~= if bit == 0 {
                seq![current@, sibling@]
            } else {
                seq![sibling@, current@]
            });
        }
        let tweak = Tweak::tree_tweak(level as u8 + 1, idx);
        current = apply(parameter, &tweak, &children);
        level += 1;
    }
    crate::poseidon::hash_eq(&current.0, &root.0)
}

/// Verify the signature held in a verification input.
pub fn verify_from_input(input: &VerificationInput) -> (r: bool)
    ensures
        r == signature_valid(input.public_key, input.epoch, input.message@, input.signature),
{
    verify_signature(&input.public_key, input.epoch, &input.message, &input.signature)
}

/// The public output of a verification: whether the signature is valid,
/// the epoch, and the message it binds.
pub fn verification_output(input: &VerificationInput) -> (r: VerificationOutput)
    ensures
        r.is_valid == signature_valid(input.public_key, input.epoch, input.message@, input.signature),
        r.epoch == input.epoch,
        r.message_hash == input.message,
{
    let is_valid = verify_signature(&input.public_key, input.epoch, &input.message, &input.signature);
    VerificationOutput { is_valid, epoch: input.epoch, message_hash: input.message }
}

} // verus!
