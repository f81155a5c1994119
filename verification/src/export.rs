//! Splitting the canonical byte encodings of leanSig Poseidon keys and
//! signatures into the byte vectors that the verifier input holds.

use crate::openvm::xmss_verify::le_word;
use vstd::prelude::*;

verus! {

/// Field elements in a Poseidon hash.
pub const POSEIDON_HASH_LEN_FE: usize = 7;

/// Field elements in the Poseidon public parameter.
pub const POSEIDON_PARAMETER_LEN_FE: usize = 5;

/// Field elements in the TargetSum randomness.
pub const POSEIDON_RANDOMNESS_LEN_FE: usize = 6;

/// Bytes per KoalaBear field element.
pub const POSEIDON_FE_BYTES: usize = 4;

/// Number of TargetSum chains for the w=1 instantiation.
pub const TARGETSIM_W1_NUM_CHAINS: usize = 155;

/// Merkle tree height for lifetime 2^18.
pub const TARGETSIM_TREE_HEIGHT: usize = 18;

/// Bytes in a hash.
pub const HASH_BYTES: usize = 28;

/// Bytes in the parameter.
pub const PARAM_BYTES: usize = 20;

/// Bytes in the randomness.
pub const RAND_BYTES: usize = 24;

/// Bytes in the fixed part of a signature: path offset, randomness, hashes offset.
pub const SIG_FIXED_BYTES: usize = 32;

/// Host-facing representation of a Poseidon XMSS public key.
pub struct ExportedPublicKey {
    pub root: Vec<u8>,
    pub parameter: Vec<u8>,
}

/// Host-facing representation of a Poseidon XMSS signature.
pub struct ExportedSignature {
    pub randomness: Vec<u8>,
    pub chain_hashes: Vec<Vec<u8>>,
    pub auth_path: Vec<Vec<u8>>,
}

/// Why an export failed.
#[derive(Debug)]
pub enum LeansigExportError {
    Serialization(String),
    UnexpectedChainCount { expected: usize, actual: usize },
    InvalidByteLength { expected: usize, actual: usize },
}

/// Split a public key encoding: the root, then the parameter.
pub fn export_public_key(bytes: &[u8]) -> (r: Result<ExportedPublicKey, LeansigExportError>)
    ensures
        r is Ok <==> bytes@.len() == HASH_BYTES + PARAM_BYTES,
        r matches Ok(pk) ==> pk.root@ == bytes@.take(HASH_BYTES as int) && pk.parameter@ == bytes@.skip(
            HASH_BYTES as int,
        ),
        r matches Err(e) ==> e matches LeansigExportError::InvalidByteLength { expected, actual } && expected
            == HASH_BYTES + PARAM_BYTES && actual == bytes@.len(),
{
    let expected_len = HASH_BYTES + PARAM_BYTES;
    if bytes.len() != expected_len {
        return Err(LeansigExportError::InvalidByteLength { expected: expected_len, actual: bytes.len() });
    }
    let root = copy_range(bytes, 0, HASH_BYTES);
    let parameter = copy_range(bytes, HASH_BYTES, bytes.len());
    proof {
        assert(root@ =~= bytes@.take(HASH_BYTES as int));
        assert(parameter@ =~= bytes@.skip(HASH_BYTES as int));
    }
    Ok(ExportedPublicKey { root, parameter })
}

/// `bytes[start..end]` as a new vector.
fn copy_range(bytes: &[u8], start: usize, end: usize) -> (r: Vec<u8>)
    requires
        start <= end <= bytes@.len(),
    ensures
        r@ == bytes@.subrange(start as int, end as int),
{
    let mut out: Vec<u8> = Vec::new();
    let mut i = start;
    while i < end
        invariant
            start <= i <= end <= bytes@.len(),
            out@ == bytes@.subrange(start as int, i as int),
        decreases end - i,
    {
        out.push(bytes[i]);
        i += 1;
        proof {
            assert(out@ =~= bytes@.subrange(start as int, i as int));
        }
    }
    out
}

/// The whole `size`-byte chunks of `s`, in order (a shorter tail is dropped).
pub open spec fn exact_chunks(s: Seq<u8>, size: nat) -> Seq<Seq<u8>> {
    Seq::new(s.len() / size, |i: int| s.subrange(i * size, i * size + size))
}

/// The views of a list of byte vectors.
pub open spec fn byte_vecs_view(v: Seq<Vec<u8>>) -> Seq<Seq<u8>> {
    Seq::new(v.len(), |i: int| v[i]@)
}

/// The whole `HASH_BYTES` chunks of `bytes[start..end]`.
fn hash_chunks(bytes: &[u8], start: usize, end: usize) -> (r: Vec<Vec<u8>>)
    requires
        start <= end <= bytes@.len(),
    ensures
        byte_vecs_view(r@) == exact_chunks(bytes@.subrange(start as int, end as int), HASH_BYTES as nat),
{
    let ghost s = bytes@.subrange(start as int, end as int);
    let count = (end - start) / HASH_BYTES;
    let mut out: Vec<Vec<u8>> = Vec::new();
    let mut k: usize = 0;
    while k < count
        invariant
            start <= end <= bytes@.len(),
            s == bytes@.subrange(start as int, end as int),
            count == (end - start) / (HASH_BYTES as int),
            k <= count,
            out@.len() == k,
            forall|i: int| 0 <= i < k ==> (#[trigger] out@[i])@ == s.subrange(i * 28, i * 28 + 28),
        decreases count - k,
    {
        proof {
            assert(k * 28 + 28 <= count * 28) by (nonlinear_arith)
                requires
                    k < count,
            ;
            assert(count * 28 <= end - start) by (nonlinear_arith)
                requires
                    count == (end - start) / 28,
                    end - start >= 0,
            ;
        }
        let from = start + k * HASH_BYTES;
        let chunk = copy_range(bytes, from, from + HASH_BYTES);
        proof {
            assert(chunk@ =~= s.subrange(k * 28, k * 28 + 28));
        }
        out.push(chunk);
        k += 1;
    }
    proof {
        assert(byte_vecs_view(out@) =~= exact_chunks(s, HASH_BYTES as nat));
    }
    out
}

/// The little-endian `u32` at byte offset `j`.
fn read_u32_le(bytes: &[u8], j: usize) -> (r: u32)
    requires
        j + 4 <= bytes@.len(),
    ensures
        r == le_word(bytes@, j as int),
{
    (bytes[j] as u32) + (bytes[j + 1] as u32) * 256 + (bytes[j + 2] as u32) * 65536 + (bytes[j + 3] as u32)
        * 16777216
}

/// Offset of the authentication path data, from the fixed part.
pub open spec fn path_offset(bytes: Seq<u8>) -> int {
    le_word(bytes, 0)
}

/// Offset of the chain hashes, from the fixed part.
pub open spec fn hashes_offset(bytes: Seq<u8>) -> int {
    le_word(bytes, 28)
}

/// The offsets frame the path data inside the encoding.
pub open spec fn offsets_in_bounds(bytes: Seq<u8>) -> bool {
    bytes.len() >= SIG_FIXED_BYTES ==> path_offset(bytes) + 4 <= hashes_offset(bytes) <= bytes.len()
}

/// The authentication path nodes held in a signature encoding.
pub open spec fn path_chunks(bytes: Seq<u8>) -> Seq<Seq<u8>> {
    exact_chunks(bytes.subrange(path_offset(bytes) + 4, hashes_offset(bytes)), HASH_BYTES as nat)
}

/// The chain hashes held in a signature encoding.
pub open spec fn hash_chunks_spec(bytes: Seq<u8>) -> Seq<Seq<u8>> {
    exact_chunks(bytes.skip(hashes_offset(bytes)), HASH_BYTES as nat)
}

/// Split a signature encoding: randomness from the fixed part, then the
/// authentication path (between the path data and the hashes offset, after
/// the path's own 4-byte offset) and the chain hashes (from the hashes
/// offset to the end), each cut into hash-sized chunks.
pub fn export_signature(bytes: &[u8]) -> (r: Result<ExportedSignature, LeansigExportError>)
    requires
        offsets_in_bounds(bytes@),
    ensures
        r is Ok <==> bytes@.len() >= SIG_FIXED_BYTES && path_chunks(bytes@).len() == TARGETSIM_TREE_HEIGHT
            && hash_chunks_spec(bytes@).len() == TARGETSIM_W1_NUM_CHAINS,
        r matches Ok(sig) ==> sig.randomness@ == bytes@.subrange(4, 28) && byte_vecs_view(sig.auth_path@)
            == path_chunks(bytes@) && byte_vecs_view(sig.chain_hashes@) == hash_chunks_spec(bytes@),
        r matches Err(e) ==> (if bytes@.len() < SIG_FIXED_BYTES {
            e matches LeansigExportError::InvalidByteLength { expected, actual } && expected == SIG_FIXED_BYTES
                && actual == bytes@.len()
        } else if path_chunks(bytes@).len() != TARGETSIM_TREE_HEIGHT {
            e matches LeansigExportError::UnexpectedChainCount { expected, actual } && expected
                == TARGETSIM_TREE_HEIGHT && actual == path_chunks(bytes@).len()
        } else {
            e matches LeansigExportError::UnexpectedChainCount { expected, actual } && expected
                == TARGETSIM_W1_NUM_CHAINS && actual == hash_chunks_spec(bytes@).len()
        }),
{
    let fixed_size = 4 + RAND_BYTES + 4;
    if bytes.len() < fixed_size {
        return Err(LeansigExportError::InvalidByteLength { expected: fixed_size, actual: bytes.len() });
    }
    let path_offset = read_u32_le(bytes, 0) as usize;
    let rho_start: usize = 4;
    let rho_end = rho_start + RAND_BYTES;
    let randomness = copy_range(bytes, rho_start, rho_end);
    let hashes_offset = read_u32_le(bytes, rho_end) as usize;
    let path_data_start = path_offset + 4;
    let path_data_end = hashes_offset;
    let auth_path = hash_chunks(bytes, path_data_start, path_data_end);
    if auth_path.len() != TARGETSIM_TREE_HEIGHT {
        return Err(
            LeansigExportError::UnexpectedChainCount { expected: TARGETSIM_TREE_HEIGHT, actual: auth_path.len() },
        );
    }
    let chain_hashes = hash_chunks(bytes, hashes_offset, bytes.len());
    proof {
        assert(bytes@.subrange(hashes_offset as int, bytes@.len() as int) =~= bytes@.skip(hashes_offset as int));
    }
    if chain_hashes.len() != TARGETSIM_W1_NUM_CHAINS {
        return Err(
            LeansigExportError::UnexpectedChainCount {
                expected: TARGETSIM_W1_NUM_CHAINS,
                actual: chain_hashes.len(),
            },
        );
    }
    Ok(ExportedSignature { randomness, chain_hashes, auth_path })
}

/// The two parts of an exported public key, rejoined, are the encoding it
/// was split from.
pub proof fn law_key_parts_rejoin(bytes: Seq<u8>, root: Seq<u8>, parameter: Seq<u8>)
    requires
        bytes.len() == HASH_BYTES + PARAM_BYTES,
        root == bytes.take(HASH_BYTES as int),
        parameter == bytes.skip(HASH_BYTES as int),
    ensures
        root + parameter == bytes,
        root.len() == HASH_BYTES,
        parameter.len() == PARAM_BYTES,
{
    assert(root + parameter =~= bytes);
}

} // verus!
