//! Verification of a batch of XMSS signatures (TargetSum W=1, Poseidon2 from
//! Plonky3) whose keys and signatures carry field elements as bytes.

use crate::constants::{BASE, HASH_LEN, MSG_HASH_LEN, NUM_CHAINS, PARAMETER_LEN, RANDOMNESS_LEN, TREE_HEIGHT, TWEAK_LEN};
use crate::digest::{sha256, sha256_spec};
use crate::encoding::{codeword_spec, decode_to_chunks, encode_epoch, encode_message, epoch_fe_spec, message_fe_spec};
use crate::koalabear::{kb, KoalaBear, P};
use crate::openvm::xmss_types::{PublicKey, Signature, Statement, TslParams, VerificationBatch};
use crate::plonky3::{
    input_fits, p3_apply_spec, p3_chain_spec, p3_compress_spec, p3_merkle_node, p3_merkle_root_spec, poseidon_compress,
    poseidon_safe_domain_separator, poseidon_sponge, SPONGE_CAPACITY,
};
use crate::poseidon::{flatten, hash_eq, hashes_view, tweak_fe, PoseidonTweak};
use vstd::arithmetic::div_mod::*;
use vstd::arithmetic::power::*;
use vstd::prelude::*;

verus! {

/// Bytes per field element on the wire.
pub const FE_BYTES: usize = 4;

/// The little-endian 32-bit word at byte offset `j`.
pub open spec fn le_word(b: Seq<u8>, j: int) -> int {
    b[j] + 256 * b[j + 1] + 65536 * b[j + 2] + 16777216 * b[j + 3]
}

/// `n` field elements read from 4-byte little-endian words (reduced mod P).
pub open spec fn fe_array_spec(bytes: Seq<u8>, n: nat) -> Seq<KoalaBear> {
    Seq::new(n, |i: int| kb(le_word(bytes, 4 * i)))
}

/// The four little-endian bytes of a `u32`.
pub open spec fn u32_le(x: u32) -> Seq<u8> {
    Seq::new(4, |i: int| ((x as int / pow(256, i as nat)) % 256) as u8)
}

/// The eight little-endian bytes of a `u64`.
pub open spec fn u64_le(x: u64) -> Seq<u8> {
    Seq::new(8, |i: int| ((x as int / pow(256, i as nat)) % 256) as u8)
}

/// Root and parameter bytes of each key, one key after another.
pub open spec fn keys_bytes(pks: Seq<PublicKey>) -> Seq<u8>
    decreases pks.len(),
{
    if pks.len() == 0 {
        Seq::empty()
    } else {
        keys_bytes(pks.drop_last()) + pks.last().root@ + pks.last().parameter@
    }
}

/// The bytes that the statement commitment hashes.
pub open spec fn statement_bytes(stmt: Statement) -> Seq<u8> {
    u32_le(stmt.k) + u64_le(stmt.ep) + u32_le(stmt.m@.len() as u32) + stmt.m@ + u32_le(
        stmt.public_keys@.len() as u32,
    ) + keys_bytes(stmt.public_keys@)
}

/// The parameters are those of TargetSum W=1 with 155 chains and height 18.
pub open spec fn params_ok(params: TslParams) -> bool {
    params.w == 2 && params.v as int == NUM_CHAINS && params.tree_height as int == TREE_HEIGHT
}

/// The lengths of a signature and key are those of the instantiation.
#[verifier::opaque]
pub open spec fn shapes_ok(sig: Signature, pk: PublicKey) -> bool {
    &&& sig.wots_chain_ends@.len() == NUM_CHAINS
    &&& sig.auth_path@.len() == TREE_HEIGHT
    &&& sig.randomness@.len() == RANDOMNESS_LEN * FE_BYTES
    &&& pk.parameter@.len() == PARAMETER_LEN * FE_BYTES
    &&& pk.root@.len() == HASH_LEN * FE_BYTES
    &&& forall|i: int| 0 <= i < NUM_CHAINS ==> (#[trigger] sig.wots_chain_ends@[i])@.len() == HASH_LEN * FE_BYTES
    &&& forall|i: int| 0 <= i < TREE_HEIGHT ==> (#[trigger] sig.auth_path@[i])@.len() == HASH_LEN * FE_BYTES
}

/// Decoded hashes of a list of byte strings.
pub open spec fn decode_hashes_spec(items: Seq<Vec<u8>>) -> Seq<Seq<KoalaBear>> {
    items.map_values(|b: Vec<u8>| fe_array_spec(b@, HASH_LEN as nat))
}

/// The codeword of the message under the Plonky3-based message hash.
pub open spec fn p3_codeword_spec(param: Seq<KoalaBear>, epoch: u32, rho: Seq<KoalaBear>, message: Seq<u8>) -> Seq<u8> {
    codeword_spec(
        p3_compress_spec(24, rho + param + epoch_fe_spec(epoch) + message_fe_spec(message), MSG_HASH_LEN as nat),
    )
}

/// The chain ends of a signature's chain values under a codeword.
pub open spec fn p3_chain_ends_spec(
    param: Seq<KoalaBear>,
    epoch: u32,
    cw: Seq<u8>,
    hashes: Seq<Seq<KoalaBear>>,
) -> Seq<Seq<KoalaBear>> {
    Seq::new(
        NUM_CHAINS as nat,
        |i: int| p3_chain_spec(param, epoch, i as u8, cw[i] as int, (BASE - 1 - cw[i]) as nat, hashes[i]),
    )
}

/// Validity of decoded signature data: the path from the leaf of the chain
/// ends leads to the root.
#[verifier::opaque]
pub open spec fn decoded_valid(
    param: Seq<KoalaBear>,
    root: Seq<KoalaBear>,
    rho: Seq<KoalaBear>,
    hashes: Seq<Seq<KoalaBear>>,
    path: Seq<Seq<KoalaBear>>,
    message: Seq<u8>,
    epoch: u32,
) -> bool {
    let cw = p3_codeword_spec(param, epoch, rho, message);
    p3_merkle_root_spec(param, epoch, p3_chain_ends_spec(param, epoch, cw, hashes), path) == root
}

/// When one signature of the batch is valid for its key, the message and the epoch.
pub open spec fn one_valid(sig: Signature, pk: PublicKey, message: Seq<u8>, epoch: u32) -> bool {
    &&& shapes_ok(sig, pk)
    &&& sig.leaf_index == epoch
    &&& message.len() == 32
    &&& decoded_valid(
        fe_array_spec(pk.parameter@, PARAMETER_LEN as nat),
        fe_array_spec(pk.root@, HASH_LEN as nat),
        fe_array_spec(sig.randomness@, RANDOMNESS_LEN as nat),
        decode_hashes_spec(sig.wots_chain_ends@),
        decode_hashes_spec(sig.auth_path@),
        message,
        epoch,
    )
}

/// The outcome of verifying a batch: (all valid, number verified).
pub open spec fn batch_outcome(batch: VerificationBatch) -> (bool, u32) {
    let k = batch.statement.k;
    let pks = batch.statement.public_keys@;
    let sigs = batch.witness.signatures@;
    if pks.len() != k || sigs.len() != k || !params_ok(batch.params) || batch.statement.ep > u32::MAX {
        (false, 0)
    } else {
        (
            forall|i: int|
                0 <= i < k ==> one_valid(#[trigger] sigs[i], pks[i], batch.statement.m@, batch.statement.ep as u32),
            k,
        )
    }
}

/// Verify every signature of a batch; returns whether all are valid and how
/// many were checked (`(false, 0)` for a malformed batch).
pub fn verify_batch(batch: &VerificationBatch) -> (r: (bool, u32))
    ensures
        r == batch_outcome(*batch),
{
    let expected = batch.statement.k as usize;
    if batch.statement.public_keys.len() != expected || batch.witness.signatures.len() != expected {
        return (false, 0);
    }

    if !params_match(&batch.params) {
        return (false, 0);
    }

    if batch.statement.ep > u32::MAX as u64 {
        return (false, 0);
    }
    let epoch = batch.statement.ep as u32;

    let mut all_valid = true;
    let mut count: u32 = 0;
    let mut i: usize = 0;
    while i < expected
        invariant
            expected == batch.statement.k,
            batch.statement.public_keys@.len() == expected,
            batch.witness.signatures@.len() == expected,
            epoch == batch.statement.ep,
            i <= expected,
            count == i,
            all_valid == forall|j: int|
                0 <= j < i ==> one_valid(
                    #[trigger] batch.witness.signatures@[j],
                    batch.statement.public_keys@[j],
                    batch.statement.m@,
                    epoch,
                ),
        decreases expected - i,
    {
        let ok = verify_one(
            &batch.witness.signatures[i],
            &batch.statement.public_keys[i],
            &batch.statement.m,
            epoch,
        );
        all_valid = all_valid && ok;
        count += 1;
        i += 1;
    }
    (all_valid, count)
}

/// Append the little-endian bytes of a `u32`.
pub(crate) fn push_u32_le(buf: &mut Vec<u8>, x: u32)
    ensures
        final(buf)@ == old(buf)@ + u32_le(x),
{
    let b0 = (x & 0xff) as u8;
    let b1 = ((x >> 8) & 0xff) as u8;
    let b2 = ((x >> 16) & 0xff) as u8;
    let b3 = ((x >> 24) & 0xff) as u8;
    proof {
        reveal_with_fuel(pow, 5);
        assert(b0 == x % 256 && b1 == (x / 256) % 256 && b2 == (x / 65536) % 256 && b3 == (x / 16777216)
            % 256) by (bit_vector)
            requires
                b0 == (x & 0xff) as u8,
                b1 == ((x >> 8) & 0xff) as u8,
                b2 == ((x >> 16) & 0xff) as u8,
                b3 == ((x >> 24) & 0xff) as u8,
        ;
    }
    buf.push(b0);
    buf.push(b1);
    buf.push(b2);
    buf.push(b3);
    proof {
        assert(buf@ =~= old(buf)@ + u32_le(x));
    }
}

/// Append the little-endian bytes of a `u64`.
fn push_u64_le(buf: &mut Vec<u8>, x: u64)
    ensures
        final(buf)@ == old(buf)@ + u64_le(x),
{
    let b0 = (x & 0xff) as u8;
    let b1 = ((x >> 8) & 0xff) as u8;
    let b2 = ((x >> 16) & 0xff) as u8;
    let b3 = ((x >> 24) & 0xff) as u8;
    let b4 = ((x >> 32) & 0xff) as u8;
    let b5 = ((x >> 40) & 0xff) as u8;
    let b6 = ((x >> 48) & 0xff) as u8;
    let b7 = ((x >> 56) & 0xff) as u8;
    proof {
        assert(b0 == x % 256 && b1 == (x / 0x100) % 256 && b2 == (x / 0x1_0000) % 256 && b3 == (x
            / 0x100_0000) % 256) by (bit_vector)
            requires
                b0 == (x & 0xff) as u8,
                b1 == ((x >> 8) & 0xff) as u8,
                b2 == ((x >> 16) & 0xff) as u8,
                b3 == ((x >> 24) & 0xff) as u8,
        ;
        assert(b4 == (x / 0x1_0000_0000) % 256 && b5 == (x / 0x100_0000_0000) % 256 && b6 == (x
            / 0x1_0000_0000_0000) % 256 && b7 == (x / 0x100_0000_0000_0000) % 256) by (bit_vector)
            requires
                b4 == ((x >> 32) & 0xff) as u8,
                b5 == ((x >> 40) & 0xff) as u8,
                b6 == ((x >> 48) & 0xff) as u8,
                b7 == ((x >> 56) & 0xff) as u8,
        ;
        reveal_with_fuel(pow, 9);
    }
    buf.push(b0);
    buf.push(b1);
    buf.push(b2);
    buf.push(b3);
    buf.push(b4);
    buf.push(b5);
    buf.push(b6);
    buf.push(b7);
    proof {
        assert(buf@ =~= old(buf)@ + u64_le(x));
    }
}

/// Commit to a statement: SHA-256 of its fields, lengths as little-endian
/// `u32`, then each key's root and parameter.
pub fn statement_commitment(stmt: &Statement) -> (r: [u8; 32])
    ensures
        r@ == sha256_spec(statement_bytes(*stmt)),
{
    let mut buf: Vec<u8> = Vec::new();
    push_u32_le(&mut buf, stmt.k);
    push_u64_le(&mut buf, stmt.ep);
    let mlen: u32 = stmt.m.len() as u32;
    push_u32_le(&mut buf, mlen);
    let mut i: usize = 0;
    let ghost start = buf@;
    while i < stmt.m.len()
        invariant
            i <= stmt.m@.len(),
            buf@ == start + stmt.m@.take(i as int),
        decreases stmt.m@.len() - i,
    {
        buf.push(stmt.m[i]);
        i += 1;
        proof {
            assert(buf@ =~= start + stmt.m@.take(i as int));
        }
    }
    proof {
        assert(stmt.m@.take(stmt.m@.len() as int) =~= stmt.m@);
    }
    let pklen: u32 = stmt.public_keys.len() as u32;
    push_u32_le(&mut buf, pklen);
    let ghost prefix = buf@;
    let mut k: usize = 0;
    proof {
        assert(stmt.public_keys@.take(0) =~= Seq::<PublicKey>::empty());
        assert(buf@ =~= prefix + keys_bytes(stmt.public_keys@.take(0)));
    }
    while k < stmt.public_keys.len()
        invariant
            k <= stmt.public_keys@.len(),
            buf@ == prefix + keys_bytes(stmt.public_keys@.take(k as int)),
        decreases stmt.public_keys@.len() - k,
    {
        let pk = &stmt.public_keys[k];
        let ghost before = buf@;
        let mut j: usize = 0;
        while j < pk.root.len()
            invariant
                j <= pk.root@.len(),
                buf@ == before + pk.root@.take(j as int),
            decreases pk.root@.len() - j,
        {
            buf.push(pk.root[j]);
            j += 1;
            proof {
                assert(buf@ =~= before + pk.root@.take(j as int));
            }
        }
        let ghost mid = buf@;
        let mut j: usize = 0;
        while j < pk.parameter.len()
            invariant
                j <= pk.parameter@.len(),
                buf@ == mid + pk.parameter@.take(j as int),
            decreases pk.parameter@.len() - j,
        {
            buf.push(pk.parameter[j]);
            j += 1;
            proof {
                assert(buf@ =~= mid + pk.parameter@.take(j as int));
            }
        }
        proof {
            assert(pk.root@.take(pk.root@.len() as int) =~= pk.root@);
            assert(pk.parameter@.take(pk.parameter@.len() as int) =~= pk.parameter@);
            assert(stmt.public_keys@.take(k + 1).drop_last() =~= stmt.public_keys@.take(k as int));
            assert(buf@ =~= prefix + keys_bytes(stmt.public_keys@.take(k + 1)));
        }
        k += 1;
    }
    proof {
        assert(stmt.public_keys@.take(stmt.public_keys@.len() as int) =~= stmt.public_keys@);
        assert(buf@ =~= statement_bytes(*stmt));
    }
    sha256(&buf)
}

/// The parameters are those of TargetSum W=1 with 155 chains and height 18.
pub fn params_match(params: &TslParams) -> (r: bool)
    ensures
        r == params_ok(*params),
{
    params.w == 2 && params.v as usize == NUM_CHAINS && params.tree_height as usize == TREE_HEIGHT
}

/// The message as a 32-byte digest, if it has 32 bytes.
pub fn digest_to_array(message: &[u8]) -> (r: Option<[u8; 32]>)
    ensures
        r is Some <==> message@.len() == 32,
        r matches Some(d) ==> d@ == message@,
{
    if message.len() != 32 {
        return None;
    }
    let mut out = [0u8; 32];
    let mut i: usize = 0;
    while i < 32
        invariant
            message@.len() == 32,
            i <= 32,
            forall|k: int| 0 <= k < i ==> #[trigger] out@[k] == message@[k],
        decreases 32 - i,
    {
        out[i] = message[i];
        i += 1;
    }
    proof {
        assert(out@ =~= message@);
    }
    Some(out)
}

/// `n` field elements from `4 n` little-endian bytes; `None` for any other length.
pub fn bytes_to_field_array(bytes: &[u8], n: usize) -> (r: Option<Vec<KoalaBear>>)
    requires
        n <= 0x1000_0000,
    ensures
        r is Some <==> bytes@.len() == n * FE_BYTES,
        r matches Some(v) ==> v@ == fe_array_spec(bytes@, n as nat),
{
    if bytes.len() != n * FE_BYTES {
        return None;
    }
    let mut out: Vec<KoalaBear> = Vec::new();
    let mut i: usize = 0;
    while i < n
        invariant
            bytes@.len() == n * FE_BYTES,
            n <= 0x1000_0000,
            i <= n,
            out@.len() == i,
            forall|k: int| 0 <= k < i ==> #[trigger] out@[k] == fe_array_spec(bytes@, n as nat)[k],
        decreases n - i,
    {
        let j = i * FE_BYTES;
        let limb: u32 = (bytes[j] as u32) + (bytes[j + 1] as u32) * 256 + (bytes[j + 2] as u32) * 65536 + (
        bytes[j + 3] as u32) * 16777216;
        out.push(KoalaBear::new(limb));
        i += 1;
    }
    proof {
        assert(out@ =~= fe_array_spec(bytes@, n as nat));
    }
    Some(out)
}

/// Decode each byte string as one hash; `None` if any has the wrong length.
pub fn decode_domains(input: &[Vec<u8>]) -> (r: Option<Vec<[KoalaBear; HASH_LEN]>>)
    ensures
        r is Some <==> forall|i: int| 0 <= i < input@.len() ==> (#[trigger] input@[i])@.len() == HASH_LEN
            * FE_BYTES,
        r matches Some(v) ==> hashes_view(v@) == decode_hashes_spec(input@) && v@.len() == input@.len(),
{
    let mut out: Vec<[KoalaBear; HASH_LEN]> = Vec::new();
    let mut i: usize = 0;
    while i < input.len()
        invariant
            i <= input@.len(),
            out@.len() == i,
            forall|k: int| 0 <= k < i ==> (#[trigger] input@[k])@.len() == HASH_LEN * FE_BYTES,
            forall|k: int| 0 <= k < i ==> (#[trigger] out@[k])@ == fe_array_spec(input@[k]@, HASH_LEN as nat),
        decreases input@.len() - i,
    {
        match bytes_to_field_array(&input[i], HASH_LEN) {
            Some(v) => {
                let arr = [v[0], v[1], v[2], v[3], v[4], v[5], v[6]];
                proof {
                    assert(arr@ =~= v@);
                }
                out.push(arr);
            },
            None => {
                return None;
            },
        }
        i += 1;
    }
    proof {
        assert(hashes_view(out@) =~= decode_hashes_spec(input@));
    }
    Some(out)
}

/// The lengths of a signature and its key are those of the instantiation.
fn check_shapes(sig: &Signature, pk: &PublicKey) -> (r: bool)
    ensures
        r == shapes_ok(*sig, *pk),
{
    proof {
        reveal(shapes_ok);
    }
    if sig.wots_chain_ends.len() != NUM_CHAINS {
        return false;
    }
    if sig.auth_path.len() != TREE_HEIGHT {
        return false;
    }
    if sig.randomness.len() != RANDOMNESS_LEN * FE_BYTES {
        return false;
    }
    if pk.parameter.len() != PARAMETER_LEN * FE_BYTES || pk.root.len() != HASH_LEN * FE_BYTES {
        return false;
    }
    let mut i: usize = 0;
    while i < NUM_CHAINS
        invariant
            sig.wots_chain_ends@.len() == NUM_CHAINS,
            i <= NUM_CHAINS,
            forall|k: int| 0 <= k < i ==> (#[trigger] sig.wots_chain_ends@[k])@.len() == HASH_LEN * FE_BYTES,
        decreases NUM_CHAINS - i,
    {
        if sig.wots_chain_ends[i].len() != HASH_LEN * FE_BYTES {
            proof {
                reveal(shapes_ok);
                assert(sig.wots_chain_ends@[i as int]@.len() != HASH_LEN * FE_BYTES);
            }
            return false;
        }
        i += 1;
    }
    let mut i: usize = 0;
    while i < TREE_HEIGHT
        invariant
            sig.auth_path@.len() == TREE_HEIGHT,
            i <= TREE_HEIGHT,
            forall|k: int| 0 <= k < i ==> (#[trigger] sig.auth_path@[k])@.len() == HASH_LEN * FE_BYTES,
        decreases TREE_HEIGHT - i,
    {
        if sig.auth_path[i].len() != HASH_LEN * FE_BYTES {
            proof {
                reveal(shapes_ok);
                assert(sig.auth_path@[i as int]@.len() != HASH_LEN * FE_BYTES);
            }
            return false;
        }
        i += 1;
    }
    true
}

/// What well-shaped signatures and keys provide.
proof fn lemma_shapes_facts(sig: Signature, pk: PublicKey)
    requires
        shapes_ok(sig, pk),
    ensures
        sig.wots_chain_ends@.len() == NUM_CHAINS,
        sig.auth_path@.len() == TREE_HEIGHT,
        sig.randomness@.len() == RANDOMNESS_LEN * FE_BYTES,
        pk.parameter@.len() == PARAMETER_LEN * FE_BYTES,
        pk.root@.len() == HASH_LEN * FE_BYTES,
        forall|i: int| 0 <= i < sig.wots_chain_ends@.len() ==> (#[trigger] sig.wots_chain_ends@[i])@.len() == HASH_LEN * FE_BYTES,
        forall|i: int| 0 <= i < sig.auth_path@.len() ==> (#[trigger] sig.auth_path@[i])@.len() == HASH_LEN * FE_BYTES,
{
    reveal(shapes_ok);
}

/// Verify one signature of the batch against its key, the message and the epoch.
#[verifier::spinoff_prover]
pub fn verify_one(sig: &Signature, pk: &PublicKey, message: &[u8], epoch: u32) -> (r: bool)
    ensures
        r == one_valid(*sig, *pk, message@, epoch),
{
    if !check_shapes(sig, pk) {
        return false;
    }
    if sig.leaf_index != epoch {
        return false;
    }
    let digest = match digest_to_array(message) {
        Some(d) => d,
        None => return false,
    };
    proof {
        lemma_shapes_facts(*sig, *pk);
    }
    let randomness = bytes_to_field_array(&sig.randomness, RANDOMNESS_LEN).unwrap();
    let parameter_v = bytes_to_field_array(&pk.parameter, PARAMETER_LEN).unwrap();
    let root_v = bytes_to_field_array(&pk.root, HASH_LEN).unwrap();
    let chain_hashes = decode_domains(&sig.wots_chain_ends).unwrap();
    let auth_path = decode_domains(&sig.auth_path).unwrap();
    let rho = [randomness[0], randomness[1], randomness[2], randomness[3], randomness[4], randomness[5]];
    let parameter = [parameter_v[0], parameter_v[1], parameter_v[2], parameter_v[3], parameter_v[4]];
    let pk_root = [root_v[0], root_v[1], root_v[2], root_v[3], root_v[4], root_v[5], root_v[6]];
    proof {
        assert(rho@ =~= randomness@);
        assert(parameter@ =~= parameter_v@);
        assert(pk_root@ =~= root_v@);
    }

    verify_decoded(&parameter, &pk_root, &rho, &chain_hashes, &auth_path, &digest, epoch)
}

/// Verify decoded signature data: codeword, chain ends, Merkle path.
fn verify_decoded(
    parameter: &[KoalaBear; PARAMETER_LEN],
    pk_root: &[KoalaBear; HASH_LEN],
    rho: &[KoalaBear; RANDOMNESS_LEN],
    chain_hashes: &Vec<[KoalaBear; HASH_LEN]>,
    auth_path: &Vec<[KoalaBear; HASH_LEN]>,
    digest: &[u8; 32],
    epoch: u32,
) -> (r: bool)
    requires
        chain_hashes@.len() == NUM_CHAINS,
    ensures
        r == (auth_path@.len() == TREE_HEIGHT && decoded_valid(
            parameter@,
            pk_root@,
            rho@,
            hashes_view(chain_hashes@),
            hashes_view(auth_path@),
            digest@,
            epoch,
        )),
{
    let codeword = targetsim_codeword(parameter, epoch, rho, digest);

    let ghost cw = codeword@;
    let ghost hv = hashes_view(chain_hashes@);
    let mut chain_ends: Vec<[KoalaBear; HASH_LEN]> = Vec::new();
    let mut chain_index: usize = 0;
    while chain_index < NUM_CHAINS
        invariant
            codeword@ == cw,
            cw.len() == NUM_CHAINS,
            forall|i: int| 0 <= i < NUM_CHAINS ==> #[trigger] cw[i] < BASE,
            chain_hashes@.len() == NUM_CHAINS,
            hv == hashes_view(chain_hashes@),
            chain_index <= NUM_CHAINS,
            chain_ends@.len() == chain_index,
            forall|i: int|
                0 <= i < chain_index ==> (#[trigger] chain_ends@[i])@ == p3_chain_spec(
                    parameter@,
                    epoch,
                    i as u8,
                    cw[i] as int,
                    (BASE - 1 - cw[i]) as nat,
                    hv[i],
                ),
        decreases NUM_CHAINS - chain_index,
    {
        let steps_seen = codeword[chain_index];
        let start_pos = steps_seen;
        let remaining = (BASE - 1) as u8 - start_pos;
        let progressed = walk_chain(
            parameter,
            epoch,
            chain_index as u8,
            start_pos,
            remaining as usize,
            &chain_hashes[chain_index],
        );
        chain_ends.push(progressed);
        chain_index += 1;
    }
    proof {
        assert(hashes_view(chain_ends@) =~= p3_chain_ends_spec(parameter@, epoch, cw, hv));
        reveal(decoded_valid);
    }
    hash_tree_verify(parameter, pk_root, epoch, &chain_ends, auth_path)
}

/// Compute the TargetSum codeword (chain positions) for a message.
pub fn targetsim_codeword(
    parameter: &[KoalaBear; PARAMETER_LEN],
    epoch: u32,
    randomness: &[KoalaBear; RANDOMNESS_LEN],
    message: &[u8; 32],
) -> (r: Vec<u8>)
    ensures
        r@ == p3_codeword_spec(parameter@, epoch, randomness@, message@),
        r@.len() == NUM_CHAINS,
        forall|i: int| 0 <= i < r@.len() ==> #[trigger] r@[i] < BASE,
{
    let r = poseidon_message_hash(parameter, epoch, randomness, message);
    proof {
        assert forall|i: int| 0 <= i < r@.len() implies #[trigger] r@[i] < BASE by {
            lemma_mod_bound(
                crate::encoding::horner(
                    p3_compress_spec(
                        24,
                        randomness@ + parameter@ + epoch_fe_spec(epoch) + message_fe_spec(message@),
                        MSG_HASH_LEN as nat,
                    ),
                ) as int / pow(2, i as nat),
                2,
            );
        }
    }
    r
}

/// Hash the message with the Plonky3 width-24 compression and cut the hash
/// into the codeword.
pub fn poseidon_message_hash(
    parameter: &[KoalaBear; PARAMETER_LEN],
    epoch: u32,
    randomness: &[KoalaBear; RANDOMNESS_LEN],
    message: &[u8; 32],
) -> (r: Vec<u8>)
    ensures
        r@ == p3_codeword_spec(parameter@, epoch, randomness@, message@),
{
    let message_fe = encode_message(message);
    let epoch_fe = encode_epoch(epoch);
    let combined = [
        randomness[0],
        randomness[1],
        randomness[2],
        randomness[3],
        randomness[4],
        randomness[5],
        parameter[0],
        parameter[1],
        parameter[2],
        parameter[3],
        parameter[4],
        epoch_fe[0],
        epoch_fe[1],
        message_fe[0],
        message_fe[1],
        message_fe[2],
        message_fe[3],
        message_fe[4],
        message_fe[5],
        message_fe[6],
        message_fe[7],
        message_fe[8],
    ];
    proof {
        assert(combined@ =~= randomness@ + parameter@ + epoch_fe_spec(epoch) + message_fe_spec(message@));
    }
    let hash = poseidon_compress(24, &combined, MSG_HASH_LEN);
    let h = [hash[0], hash[1], hash[2], hash[3], hash[4]];
    proof {
        assert(h@ =~= hash@);
    }
    decode_to_chunks(&h)
}

/// Walk a chain with the Plonky3-based tweakable hash.
pub fn walk_chain(
    parameter: &[KoalaBear; PARAMETER_LEN],
    epoch: u32,
    chain_index: u8,
    start_pos: u8,
    steps: usize,
    start: &[KoalaBear; HASH_LEN],
) -> (r: [KoalaBear; HASH_LEN])
    requires
        start_pos + steps <= 255,
    ensures
        r@ == p3_chain_spec(parameter@, epoch, chain_index, start_pos as int, steps as nat, start@),
{
    let mut current = *start;
    if steps == 0 {
        return current;
    }
    let mut offset: usize = 0;
    while offset < steps
        invariant
            start_pos + steps <= 255,
            offset <= steps,
            p3_chain_spec(parameter@, epoch, chain_index, start_pos + offset, (steps - offset) as nat, current@)
                == p3_chain_spec(parameter@, epoch, chain_index, start_pos as int, steps as nat, start@),
        decreases steps - offset,
    {
        let tweak = PoseidonTweak::chain(epoch, chain_index, start_pos + offset as u8 + 1);
        let prev = current;
        let msgs = [prev];
        proof {
            assert(hashes_view(msgs@) =~= seq![prev@]);
        }
        current = poseidon_apply(parameter, &tweak, &msgs);
        offset += 1;
    }
    current
}

/// Hash the chain ends into the leaf at `position`, climb the path, and
/// compare with `root`.
pub fn hash_tree_verify(
    parameter: &[KoalaBear; PARAMETER_LEN],
    root: &[KoalaBear; HASH_LEN],
    position: u32,
    leaf: &[[KoalaBear; HASH_LEN]],
    path: &[[KoalaBear; HASH_LEN]],
) -> (r: bool)
    requires
        input_fits(leaf@.len()),
    ensures
        r == (path@.len() == TREE_HEIGHT && p3_merkle_root_spec(
            parameter@,
            position,
            hashes_view(leaf@),
            hashes_view(path@),
        ) == root@),
{
    if path.len() != TREE_HEIGHT {
        return false;
    }
    let mut current = poseidon_apply(parameter, &PoseidonTweak::tree(0, position), leaf);
    let ghost leaf_value = current@;
    let ghost pv = hashes_view(path@);
    let mut idx = position;
    let mut level: usize = 0;
    proof {
        lemma_pow0(2);
        lemma_div_basics(position as int);
    }
    while level < path.len()
        invariant
            path@.len() == TREE_HEIGHT,
            pv == hashes_view(path@),
            level <= path@.len(),
            idx as int == position as int / pow(2, level as nat),
            current@ == p3_merkle_node(parameter@, position, leaf_value, pv, level as nat),
        decreases path@.len() - level,
    {
        let sibling = path[level];
        let bit = idx & 1;
        let ghost idx0 = idx;
        let children = if bit == 0 {
            [current, sibling]
        } else {
            [sibling, current]
        };
        idx = idx >> 1;
        proof {
            assert(bit == idx0 % 2 && idx == idx0 / 2) by (bit_vector)
                requires
                    bit == idx0 & 1,
                    idx == idx0 >> 1,
            ;
            reveal(pow);
            assert(pow(2, (level + 1) as nat) == 2 * pow(2, level as nat));
            lemma_pow_positive(2, level as nat);
            lemma_div_denominator(position as int, pow(2, level as nat), 2);
            vstd::arithmetic::mul::lemma_mul_is_commutative(2, pow(2, level as nat));
            assert(hashes_view(children@) =~= if bit == 0 {
                seq![current@, sibling@]
            } else {
                seq![sibling@, current@]
            });
        }
        current = poseidon_apply(parameter, &PoseidonTweak::tree(level as u8 + 1, idx), &children);
        level += 1;
    }
    hash_eq(&current, root)
}

/// The tweakable hash over the Plonky3 permutations.
pub fn poseidon_apply(
    parameter: &[KoalaBear; PARAMETER_LEN],
    tweak: &PoseidonTweak,
    message: &[[KoalaBear; HASH_LEN]],
) -> (r: [KoalaBear; HASH_LEN])
    requires
        input_fits(message@.len()),
    ensures
        r@ == p3_apply_spec(parameter@, tweak_fe(*tweak), hashes_view(message@)),
{
    let tweak_fe_arr = tweak.to_field_elements();
    let ghost msgs = hashes_view(message@);
    if message.len() == 1 {
        let m0 = message[0];
        let input = [
            parameter[0],
            parameter[1],
            parameter[2],
            parameter[3],
            parameter[4],
            tweak_fe_arr[0],
            tweak_fe_arr[1],
            m0[0],
            m0[1],
            m0[2],
            m0[3],
            m0[4],
            m0[5],
            m0[6],
        ];
        proof {
            assert(input@ =~= parameter@ + tweak_fe(*tweak) + msgs[0]);
        }
        let v = poseidon_compress(16, &input, HASH_LEN);
        let out = [v[0], v[1], v[2], v[3], v[4], v[5], v[6]];
        proof {
            assert(out@ =~= v@);
        }
        out
    } else if message.len() == 2 {
        let m0 = message[0];
        let m1 = message[1];
        let input = [
            parameter[0],
            parameter[1],
            parameter[2],
            parameter[3],
            parameter[4],
            tweak_fe_arr[0],
            tweak_fe_arr[1],
            m0[0],
            m0[1],
            m0[2],
            m0[3],
            m0[4],
            m0[5],
            m0[6],
            m1[0],
            m1[1],
            m1[2],
            m1[3],
            m1[4],
            m1[5],
            m1[6],
        ];
        proof {
            assert(input@ =~= parameter@ + tweak_fe(*tweak) + msgs[0] + msgs[1]);
        }
        let v = poseidon_compress(24, &input, HASH_LEN);
        let out = [v[0], v[1], v[2], v[3], v[4], v[5], v[6]];
        proof {
            assert(out@ =~= v@);
        }
        out
    } else {
        let lengths: [u32; 4] = [PARAMETER_LEN as u32, TWEAK_LEN as u32, message.len() as u32, HASH_LEN as u32];
        let combined = flatten_input(parameter, &tweak_fe_arr, message);
        let capacity = poseidon_safe_domain_separator(&lengths, SPONGE_CAPACITY);
        proof {
            assert(lengths@ =~= seq![PARAMETER_LEN as u32, TWEAK_LEN as u32, msgs.len() as u32, HASH_LEN as u32]);
        }
        let v = poseidon_sponge(&capacity, &combined, HASH_LEN);
        let out = [v[0], v[1], v[2], v[3], v[4], v[5], v[6]];
        proof {
            assert(out@ =~= v@);
        }
        out
    }
}

/// `parameter || tweak || messages`, flattened.
pub fn flatten_input(
    parameter: &[KoalaBear; PARAMETER_LEN],
    tweak: &[KoalaBear; TWEAK_LEN],
    messages: &[[KoalaBear; HASH_LEN]],
) -> (r: Vec<KoalaBear>)
    requires
        input_fits(messages@.len()),
    ensures
        r@ == parameter@ + tweak@ + flatten(hashes_view(messages@)),
        r@.len() == PARAMETER_LEN + TWEAK_LEN + messages@.len() * HASH_LEN,
{
    let ghost msgs = hashes_view(messages@);
    let mut input: Vec<KoalaBear> = Vec::new();
    let mut i: usize = 0;
    while i < PARAMETER_LEN
        invariant
            i <= PARAMETER_LEN,
            input@ == parameter@.take(i as int),
        decreases PARAMETER_LEN - i,
    {
        input.push(parameter[i]);
        i += 1;
        proof {
            assert(input@ =~= parameter@.take(i as int));
        }
    }
    let mut i: usize = 0;
    while i < TWEAK_LEN
        invariant
            i <= TWEAK_LEN,
            input@ == parameter@ + tweak@.take(i as int),
        decreases TWEAK_LEN - i,
    {
        input.push(tweak[i]);
        i += 1;
        proof {
            assert(input@ =~= parameter@ + tweak@.take(i as int));
        }
    }
    let mut k: usize = 0;
    proof {
        assert(parameter@.take(PARAMETER_LEN as int) =~= parameter@);
        assert(tweak@.take(TWEAK_LEN as int) =~= tweak@);
        assert(msgs.take(0) =~= Seq::<Seq<KoalaBear>>::empty());
        assert(input@ =~= parameter@ + tweak@ + flatten(msgs.take(0)));
    }
    while k < messages.len()
        invariant
            msgs == hashes_view(messages@),
            k <= messages@.len(),
            input_fits(messages@.len()),
            input@ == parameter@ + tweak@ + flatten(msgs.take(k as int)),
            input@.len() == PARAMETER_LEN + TWEAK_LEN + k * HASH_LEN,
        decreases messages@.len() - k,
    {
        let m = messages[k];
        let mut j: usize = 0;
        while j < HASH_LEN
            invariant
                msgs == hashes_view(messages@),
                k < messages@.len(),
                input_fits(messages@.len()),
                m == messages@[k as int],
                j <= HASH_LEN,
                input@ == parameter@ + tweak@ + flatten(msgs.take(k as int)) + m@.take(j as int),
                input@.len() == PARAMETER_LEN + TWEAK_LEN + k * HASH_LEN + j,
            decreases HASH_LEN - j,
        {
            input.push(m[j]);
            j += 1;
            proof {
                assert(m@.take(j as int) =~= m@.take(j - 1).push(m@[j - 1]));
                assert(input@ =~= parameter@ + tweak@ + flatten(msgs.take(k as int)) + m@.take(j as int));
            }
        }
        proof {
            assert(msgs.take(k + 1).drop_last() =~= msgs.take(k as int));
            assert(m@.take(HASH_LEN as int) =~= m@);
            assert(msgs.take(k + 1).last() == m@);
        }
        k += 1;
    }
    proof {
        assert(msgs.take(messages@.len() as int) =~= msgs);
    }
    input
}

/// The words a prover reveals for a batch: whether all signatures are
/// valid, how many were checked, then the statement commitment as eight
/// little-endian words.
pub fn public_outputs(batch: &VerificationBatch) -> (r: [u32; 10])
    ensures
        r[0] == (if batch_outcome(*batch).0 { 1u32 } else { 0u32 }),
        r[1] == batch_outcome(*batch).1,
        forall|i: int|
            0 <= i < 8 ==> #[trigger] r[2 + i] as int == le_word(sha256_spec(statement_bytes(batch.statement)), 4 * i),
{
    let (all_valid, count) = verify_batch(batch);
    let h = statement_commitment(&batch.statement);
    let mut out = [0u32; 10];
    out[0] = if all_valid { 1 } else { 0 };
    out[1] = count;
    let mut i: usize = 0;
    while i < 8
        invariant
            i <= 8,
            h@ == sha256_spec(statement_bytes(batch.statement)),
            out[0] == (if all_valid { 1u32 } else { 0u32 }),
            out[1] == count,
            forall|k: int| 0 <= k < i ==> #[trigger] out[2 + k] as int == le_word(h@, 4 * k),
        decreases 8 - i,
    {
        let j = 4 * i;
        out[2 + i] = (h[j] as u32) + (h[j + 1] as u32) * 256 + (h[j + 2] as u32) * 65536 + (h[j + 3] as u32)
            * 16777216;
        i += 1;
    }
    out
}

/// Keys at the same place in the two lists have roots of equal length and
/// parameters of equal length.
pub open spec fn keys_shaped_alike(a: Seq<PublicKey>, b: Seq<PublicKey>) -> bool {
    forall|i: int|
        0 <= i < a.len() && i < b.len() ==> (#[trigger] a[i]).root@.len() == b[i].root@.len()
            && a[i].parameter@.len() == b[i].parameter@.len()
}

/// Two statements agree on every field, keys compared by their bytes.
pub open spec fn same_statement(a: Statement, b: Statement) -> bool {
    &&& a.k == b.k
    &&& a.ep == b.ep
    &&& a.m@ == b.m@
    &&& a.public_keys@.len() == b.public_keys@.len()
    &&& forall|i: int|
        0 <= i < a.public_keys@.len() ==> (#[trigger] a.public_keys@[i]).root@ == b.public_keys@[i].root@
            && a.public_keys@[i].parameter@ == b.public_keys@[i].parameter@
}

/// Equal concatenations with equal-length heads have equal heads and tails.
proof fn lemma_concat_split(x1: Seq<u8>, y1: Seq<u8>, x2: Seq<u8>, y2: Seq<u8>)
    requires
        x1 + y1 == x2 + y2,
        x1.len() == x2.len(),
    ensures
        x1 == x2,
        y1 == y2,
{
    assert(x1 =~= (x1 + y1).subrange(0, x1.len() as int));
    assert(x2 =~= (x2 + y2).subrange(0, x2.len() as int));
    assert(y1 =~= (x1 + y1).skip(x1.len() as int));
    assert(y2 =~= (x2 + y2).skip(x2.len() as int));
}

/// Powers of 256 up to the eighth byte.
proof fn lemma_pow256_values()
    ensures
        pow(256, 0) == 1,
        pow(256, 1) == 0x100,
        pow(256, 2) == 0x1_0000,
        pow(256, 3) == 0x100_0000,
        pow(256, 4) == 0x1_0000_0000,
        pow(256, 5) == 0x100_0000_0000,
        pow(256, 6) == 0x1_0000_0000_0000,
        pow(256, 7) == 0x100_0000_0000_0000,
{
    reveal_with_fuel(pow, 8);
}

/// A little-endian byte, as an integer.
proof fn lemma_le_byte(v: int, i: nat)
    requires
        v >= 0,
    ensures
        (((v / pow(256, i)) % 256) as u8) as int == (v / pow(256, i)) % 256,
{
    lemma_pow_positive(256, i);
    lemma_mod_bound(v / pow(256, i), 256);
}

/// The little-endian bytes determine a `u32`.
proof fn lemma_u32_le_injective(x: u32, y: u32)
    requires
        u32_le(x) == u32_le(y),
    ensures
        x == y,
{
    lemma_pow256_values();
    lemma_u32_le_byte_agrees(x, y, 0);
    lemma_u32_le_byte_agrees(x, y, 1);
    lemma_u32_le_byte_agrees(x, y, 2);
    lemma_u32_le_byte_agrees(x, y, 3);
    assert((x as int / pow(256, 1)) % 256 == (y as int / pow(256, 1)) % 256);
    assert((x as int / pow(256, 2)) % 256 == (y as int / pow(256, 2)) % 256);
    assert((x as int / pow(256, 3)) % 256 == (y as int / pow(256, 3)) % 256);
    assert((x as int / pow(256, 0)) % 256 == (y as int / pow(256, 0)) % 256);
    assert(x == y) by (bit_vector)
        requires
            x % 256 == y % 256,
            (x / 256) % 256 == (y / 256) % 256,
            (x / 65536) % 256 == (y / 65536) % 256,
            (x / 16777216) % 256 == (y / 16777216) % 256,
    ;
}

/// The little-endian bytes determine a `u64`.
proof fn lemma_u64_le_injective(x: u64, y: u64)
    requires
        u64_le(x) == u64_le(y),
    ensures
        x == y,
{
    lemma_pow256_values();
    lemma_u64_le_byte_agrees(x, y, 0);
    lemma_u64_le_byte_agrees(x, y, 1);
    lemma_u64_le_byte_agrees(x, y, 2);
    lemma_u64_le_byte_agrees(x, y, 3);
    lemma_u64_le_byte_agrees(x, y, 4);
    lemma_u64_le_byte_agrees(x, y, 5);
    lemma_u64_le_byte_agrees(x, y, 6);
    lemma_u64_le_byte_agrees(x, y, 7);
    assert((x as int / pow(256, 0)) % 256 == (y as int / pow(256, 0)) % 256);
    assert((x as int / pow(256, 1)) % 256 == (y as int / pow(256, 1)) % 256);
    assert((x as int / pow(256, 2)) % 256 == (y as int / pow(256, 2)) % 256);
    assert((x as int / pow(256, 3)) % 256 == (y as int / pow(256, 3)) % 256);
    assert((x as int / pow(256, 4)) % 256 == (y as int / pow(256, 4)) % 256);
    assert((x as int / pow(256, 5)) % 256 == (y as int / pow(256, 5)) % 256);
    assert((x as int / pow(256, 6)) % 256 == (y as int / pow(256, 6)) % 256);
    assert((x as int / pow(256, 7)) % 256 == (y as int / pow(256, 7)) % 256);
    assert(x == y) by (bit_vector)
        requires
            x % 256 == y % 256,
            (x / 0x100) % 256 == (y / 0x100) % 256,
            (x / 0x1_0000) % 256 == (y / 0x1_0000) % 256,
            (x / 0x100_0000) % 256 == (y / 0x100_0000) % 256,
            (x / 0x1_0000_0000) % 256 == (y / 0x1_0000_0000) % 256,
            (x / 0x100_0000_0000) % 256 == (y / 0x100_0000_0000) % 256,
            (x / 0x1_0000_0000_0000) % 256 == (y / 0x1_0000_0000_0000) % 256,
            (x / 0x100_0000_0000_0000) % 256 == (y / 0x100_0000_0000_0000) % 256,
    ;
}

/// Equal `u32_le` bytes agree at byte `i`, as integers.
proof fn lemma_u32_le_byte_agrees(x: u32, y: u32, i: nat)
    requires
        u32_le(x) == u32_le(y),
        i < 4,
    ensures
        (x as int / pow(256, i)) % 256 == (y as int / pow(256, i)) % 256,
{
    let j = i as int;
    assert(u32_le(x)[j] == u32_le(y)[j]);
    let a = (x as int / pow(256, i)) % 256;
    let b = (y as int / pow(256, i)) % 256;
    assert(u32_le(x)[j] == a as u8);
    assert(u32_le(y)[j] == b as u8);
    lemma_le_byte(x as int, i);
    lemma_le_byte(y as int, i);
}

/// Equal `u64_le` bytes agree at byte `i`, as integers.
proof fn lemma_u64_le_byte_agrees(x: u64, y: u64, i: nat)
    requires
        u64_le(x) == u64_le(y),
        i < 8,
    ensures
        (x as int / pow(256, i)) % 256 == (y as int / pow(256, i)) % 256,
{
    let j = i as int;
    assert(u64_le(x)[j] == u64_le(y)[j]);
    let a = (x as int / pow(256, i)) % 256;
    let b = (y as int / pow(256, i)) % 256;
    assert(u64_le(x)[j] == a as u8);
    assert(u64_le(y)[j] == b as u8);
    lemma_le_byte(x as int, i);
    lemma_le_byte(y as int, i);
}

/// Equally many keys shaped alike take equally many bytes.
proof fn lemma_keys_bytes_len(a: Seq<PublicKey>, b: Seq<PublicKey>)
    requires
        a.len() == b.len(),
        keys_shaped_alike(a, b),
    ensures
        keys_bytes(a).len() == keys_bytes(b).len(),
    decreases a.len(),
{
    if a.len() > 0 {
        let n = a.len() - 1;
        assert(keys_shaped_alike(a.drop_last(), b.drop_last())) by {
            assert forall|i: int| 0 <= i < n implies (#[trigger] a.drop_last()[i]).root@.len()
                == b.drop_last()[i].root@.len() && a.drop_last()[i].parameter@.len()
                == b.drop_last()[i].parameter@.len() by {
                assert(a.drop_last()[i] == a[i] && b.drop_last()[i] == b[i]);
            }
        }
        lemma_keys_bytes_len(a.drop_last(), b.drop_last());
        assert(a[n] == a.last() && b[n] == b.last());
    }
}

/// Equal bytes of equally many keys shaped alike give equal keys.
proof fn lemma_keys_bytes_injective(a: Seq<PublicKey>, b: Seq<PublicKey>)
    requires
        a.len() == b.len(),
        keys_shaped_alike(a, b),
        keys_bytes(a) == keys_bytes(b),
    ensures
        forall|i: int| 0 <= i < a.len() ==> (#[trigger] a[i]).root@ == b[i].root@ && a[i].parameter@ == b[i].parameter@,
    decreases a.len(),
{
    if a.len() > 0 {
        let n = a.len() - 1;
        assert(keys_shaped_alike(a.drop_last(), b.drop_last())) by {
            assert forall|i: int| 0 <= i < n implies (#[trigger] a.drop_last()[i]).root@.len()
                == b.drop_last()[i].root@.len() && a.drop_last()[i].parameter@.len()
                == b.drop_last()[i].parameter@.len() by {
                assert(a.drop_last()[i] == a[i] && b.drop_last()[i] == b[i]);
            }
        }
        assert(a[n] == a.last() && b[n] == b.last());
        lemma_keys_bytes_len(a.drop_last(), b.drop_last());
        assert(keys_bytes(a) == keys_bytes(a.drop_last()) + (a.last().root@ + a.last().parameter@));
        assert(keys_bytes(b) == keys_bytes(b.drop_last()) + (b.last().root@ + b.last().parameter@));
        lemma_concat_split(
            keys_bytes(a.drop_last()),
            a.last().root@ + a.last().parameter@,
            keys_bytes(b.drop_last()),
            b.last().root@ + b.last().parameter@,
        );
        lemma_concat_split(a.last().root@, a.last().parameter@, b.last().root@, b.last().parameter@);
        lemma_keys_bytes_injective(a.drop_last(), b.drop_last());
        assert forall|i: int| 0 <= i < a.len() implies (#[trigger] a[i]).root@ == b[i].root@ && a[i].parameter@
            == b[i].parameter@ by {
            if i < n {
                assert(a.drop_last()[i] == a[i] && b.drop_last()[i] == b[i]);
            }
        }
    }
}

/// The committed bytes determine the statement: two statements whose
/// message and key counts fit in 32 bits, and whose keys at the same place
/// have roots of equal length and parameters of equal length, have the same
/// commitment input only if they agree on every field. This is what makes
/// the statement commitment binding.
pub proof fn law_statement_bytes_injective(a: Statement, b: Statement)
    requires
        a.m@.len() <= u32::MAX,
        b.m@.len() <= u32::MAX,
        a.public_keys@.len() <= u32::MAX,
        b.public_keys@.len() <= u32::MAX,
        keys_shaped_alike(a.public_keys@, b.public_keys@),
        statement_bytes(a) == statement_bytes(b),
    ensures
        same_statement(a, b),
{
    let ka = keys_bytes(a.public_keys@);
    let kb_ = keys_bytes(b.public_keys@);
    let na = u32_le(a.public_keys@.len() as u32);
    let nb = u32_le(b.public_keys@.len() as u32);
    let la = u32_le(a.m@.len() as u32);
    let lb = u32_le(b.m@.len() as u32);
    assert(statement_bytes(a) =~= u32_le(a.k) + (u64_le(a.ep) + (la + (a.m@ + (na + ka)))));
    assert(statement_bytes(b) =~= u32_le(b.k) + (u64_le(b.ep) + (lb + (b.m@ + (nb + kb_)))));
    lemma_concat_split(u32_le(a.k), u64_le(a.ep) + (la + (a.m@ + (na + ka))), u32_le(b.k), u64_le(b.ep) + (lb + (
    b.m@ + (nb + kb_))));
    lemma_u32_le_injective(a.k, b.k);
    lemma_concat_split(u64_le(a.ep), la + (a.m@ + (na + ka)), u64_le(b.ep), lb + (b.m@ + (nb + kb_)));
    lemma_u64_le_injective(a.ep, b.ep);
    lemma_concat_split(la, a.m@ + (na + ka), lb, b.m@ + (nb + kb_));
    lemma_u32_le_injective(a.m@.len() as u32, b.m@.len() as u32);
    lemma_concat_split(a.m@, na + ka, b.m@, nb + kb_);
    lemma_concat_split(na, ka, nb, kb_);
    lemma_u32_le_injective(a.public_keys@.len() as u32, b.public_keys@.len() as u32);
    lemma_keys_bytes_injective(a.public_keys@, b.public_keys@);
}

} // verus!
