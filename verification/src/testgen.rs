//! Synthetic test vectors in the verifier's input formats. The signatures
//! do not verify; they exercise every step of verification.

use crate::constants::{HASH_LEN, MESSAGE_LENGTH, NUM_CHAINS, PARAMETER_LEN, RANDOMNESS_LEN, TREE_HEIGHT};
use crate::koalabear::KoalaBear;
use crate::risc0::field::FieldArray;
use crate::types::{PublicKey, Signature, VerifyInput};
use vstd::prelude::*;

verus! {

/// `n` consecutive field elements starting at `start`.
pub open spec fn run_from(n: nat, start: int) -> Seq<KoalaBear> {
    Seq::new(n, |i: int| KoalaBear((start + i) as u32))
}

/// The test message: bytes 1 to 32.
pub open spec fn test_message() -> Seq<u8> {
    Seq::new(32, |i: int| (i + 1) as u8)
}

/// Hash `j` of a block of hashes that starts at `base`.
pub open spec fn block_hash(j: int, base: int) -> Seq<KoalaBear> {
    run_from(HASH_LEN as nat, j * HASH_LEN + base)
}

/// `HASH_LEN` consecutive elements from `start`.
fn hash_run(start: u32) -> (r: [KoalaBear; HASH_LEN])
    requires
        start + HASH_LEN < P_BOUND,
    ensures
        r@ == run_from(HASH_LEN as nat, start as int),
{
    let mut h = [KoalaBear(0); HASH_LEN];
    let mut i: usize = 0;
    while i < HASH_LEN
        invariant
            start + HASH_LEN < P_BOUND,
            i <= HASH_LEN,
            forall|k: int| 0 <= k < i ==> #[trigger] h@[k] == KoalaBear((start + k) as u32),
        decreases HASH_LEN - i,
    {
        h[i] = KoalaBear::new(start + i as u32);
        i += 1;
    }
    proof {
        assert(h@ =~= run_from(HASH_LEN as nat, start as int));
    }
    h
}

/// A bound under which small values are canonical field elements.
pub const P_BOUND: u32 = 0x1000_0000;

/// `count` hashes, hash `j` holding `j * HASH_LEN + base ..`.
fn hash_block(count: usize, base: u32) -> (r: Vec<[KoalaBear; HASH_LEN]>)
    requires
        count * HASH_LEN + base + HASH_LEN < P_BOUND,
    ensures
        r@.len() == count,
        forall|j: int| 0 <= j < count ==> (#[trigger] r@[j])@ == block_hash(j, base as int),
{
    let mut out: Vec<[KoalaBear; HASH_LEN]> = Vec::new();
    let mut j: usize = 0;
    while j < count
        invariant
            count * HASH_LEN + base + HASH_LEN < P_BOUND,
            j <= count,
            out@.len() == j,
            forall|k: int| 0 <= k < j ==> (#[trigger] out@[k])@ == block_hash(k, base as int),
        decreases count - j,
    {
        proof {
            assert(j * HASH_LEN <= count * HASH_LEN) by (nonlinear_arith)
                requires
                    j <= count,
            ;
        }
        out.push(hash_run((j * HASH_LEN) as u32 + base));
        j += 1;
    }
    out
}

/// The test message as an array.
fn message_bytes() -> (r: [u8; MESSAGE_LENGTH])
    ensures
        r@ == test_message(),
{
    let mut m = [0u8; MESSAGE_LENGTH];
    let mut i: usize = 0;
    while i < MESSAGE_LENGTH
        invariant
            i <= MESSAGE_LENGTH,
            forall|k: int| 0 <= k < i ==> #[trigger] m@[k] == (k + 1) as u8,
        decreases MESSAGE_LENGTH - i,
    {
        m[i] = (i + 1) as u8;
        i += 1;
    }
    proof {
        assert(m@ =~= test_message());
    }
    m
}

/// Generate a test `VerifyInput`: root `100..`, parameter `200..`,
/// randomness `300..`, path level `l` at `7 l + 1000..`, chain `c` at
/// `7 c + 5000..`, the message `1..=32`, epoch and leaf index 0.
pub fn generate_test_input() -> (r: VerifyInput)
    ensures
        r.public_key.root@ == run_from(HASH_LEN as nat, 100),
        r.public_key.parameter@ == run_from(PARAMETER_LEN as nat, 200),
        r.epoch == 0,
        r.message@ == test_message(),
        r.signature.path@.len() == TREE_HEIGHT,
        forall|l: int| 0 <= l < TREE_HEIGHT ==> (#[trigger] r.signature.path@[l])@ == block_hash(l, 1000),
        r.signature.rho@ == run_from(RANDOMNESS_LEN as nat, 300),
        r.signature.hashes@.len() == NUM_CHAINS,
        forall|c: int| 0 <= c < NUM_CHAINS ==> (#[trigger] r.signature.hashes@[c])@ == block_hash(c, 5000),
        r.signature.leaf_index == 0,
{
    let root = hash_run(100);
    let p = [KoalaBear::new(200), KoalaBear::new(201), KoalaBear::new(202), KoalaBear::new(203), KoalaBear::new(204)];
    let q = [
        KoalaBear::new(300),
        KoalaBear::new(301),
        KoalaBear::new(302),
        KoalaBear::new(303),
        KoalaBear::new(304),
        KoalaBear::new(305),
    ];
    proof {
        assert(root@ =~= run_from(HASH_LEN as nat, 100));
        assert(p@ =~= run_from(PARAMETER_LEN as nat, 200));
        assert(q@ =~= run_from(RANDOMNESS_LEN as nat, 300));
    }
    let path = hash_block(TREE_HEIGHT, 1000);
    let hashes = hash_block(NUM_CHAINS, 5000);
    let message = message_bytes();
    let epoch = 0u32;
    VerifyInput {
        public_key: PublicKey { root, parameter: p },
        epoch,
        message,
        signature: Signature { path, rho: q, hashes, leaf_index: epoch },
    }
}

/// Whether a decoded input agrees with the original on epoch, message and
/// path length, and holds one hash per chain; false when decoding failed.
pub fn verify_roundtrip(original: &VerifyInput, decoded: Option<&VerifyInput>) -> (r: bool)
    ensures
        r == (match decoded {
            Some(d) => d.epoch == original.epoch && d.message@ == original.message@ && d.signature.path@.len()
                == original.signature.path@.len() && d.signature.hashes@.len() == NUM_CHAINS,
            None => false,
        }),
{
    let d = match decoded {
        Some(d) => d,
        None => return false,
    };
    if d.epoch != original.epoch {
        return false;
    }
    let mut i: usize = 0;
    while i < MESSAGE_LENGTH
        invariant
            decoded == Some(d),
            d.epoch == original.epoch,
            i <= MESSAGE_LENGTH,
            forall|k: int| 0 <= k < i ==> d.message@[k] == original.message@[k],
        decreases MESSAGE_LENGTH - i,
    {
        if d.message[i] != original.message[i] {
            proof {
                assert(d.message@[i as int] != original.message@[i as int]);
            }
            return false;
        }
        i += 1;
    }
    proof {
        assert(d.message@ =~= original.message@);
    }
    d.signature.path.len() == original.signature.path.len() && d.signature.hashes.len() == NUM_CHAINS
}

/// Test data in the field-array format, with the same values as
/// `generate_test_input`.
pub fn create_test_data() -> (r: crate::risc0::types::VerificationInput)
    ensures
        r.public_key.root@ == run_from(HASH_LEN as nat, 100),
        r.public_key.parameter@ == run_from(PARAMETER_LEN as nat, 200),
        r.epoch == 0,
        r.message@ == test_message(),
        r.signature.path@.len() == TREE_HEIGHT,
        forall|l: int| 0 <= l < TREE_HEIGHT ==> (#[trigger] r.signature.path@[l])@ == block_hash(l, 1000),
        r.signature.rho@ == run_from(RANDOMNESS_LEN as nat, 300),
        r.signature.hashes@.len() == NUM_CHAINS,
        forall|c: int| 0 <= c < NUM_CHAINS ==> (#[trigger] r.signature.hashes@[c])@ == block_hash(c, 5000),
        r.signature.leaf_index == 0,
{
    let base = generate_test_input();
    let path = wrap_hashes(&base.signature.path);
    let hashes = wrap_hashes(&base.signature.hashes);
    crate::risc0::types::VerificationInput {
        public_key: crate::risc0::types::PublicKey {
            root: FieldArray::new(base.public_key.root),
            parameter: FieldArray::new(base.public_key.parameter),
        },
        epoch: base.epoch,
        message: base.message,
        signature: crate::risc0::types::Signature {
            path,
            rho: FieldArray::new(base.signature.rho),
            hashes,
            leaf_index: base.signature.leaf_index,
        },
    }
}

/// Wrap each hash array as a field array.
fn wrap_hashes(v: &Vec<[KoalaBear; HASH_LEN]>) -> (r: Vec<crate::risc0::types::Hash>)
    ensures
        r@.len() == v@.len(),
        forall|i: int| 0 <= i < v@.len() ==> (#[trigger] r@[i]).0 == v@[i],
{
    let mut out: Vec<crate::risc0::types::Hash> = Vec::new();
    let mut i: usize = 0;
    while i < v.len()
        invariant
            i <= v@.len(),
            out@.len() == i,
            forall|k: int| 0 <= k < i ==> (#[trigger] out@[k]).0 == v@[k],
        decreases v@.len() - i,
    {
        out.push(FieldArray::new(v[i]));
        i += 1;
    }
    out
}

} // verus!
