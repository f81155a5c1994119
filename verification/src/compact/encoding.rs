//! Target-sum encoding: SHAKE128 of the epoch, randomness and message gives
//! `DIMENSION` byte chunks, accepted only when they sum to `TARGET_SUM`.

use crate::constants::MESSAGE_LENGTH;
use crate::openvm::xmss_verify::{push_u32_le, u32_le};
use sha3::digest::{ExtendableOutput, Update, XofReader};
use vstd::prelude::*;

verus! {

/// Encoding dimension (number of chunks).
pub const DIMENSION: usize = 256;

/// Base of the chunk values (largest value plus one).
pub const BASE: u32 = 256;

/// Sum that a valid encoding must reach: `DIMENSION * (BASE - 1) / 2`.
pub const TARGET_SUM: u32 = 32640;

/// The first `out_len` bytes of SHAKE128 output on `input`.
pub uninterp spec fn shake128_output(input: Seq<u8>, out_len: nat) -> Seq<u8>;

/// SHAKE128 (`sha3::Shake128`): absorb `input`, then read `out_len` bytes
/// of output.
///
/// Trusted: the result is the named output for this input and length, and
/// has `out_len` bytes. Nothing else about SHAKE128 is stated.
#[verifier::external_body]
fn shake128(input: &[u8], out_len: usize) -> (r: Vec<u8>)
    ensures
        r@ == shake128_output(input@, out_len as nat),
        r@.len() == out_len,
{
    let mut hasher = sha3::Shake128::default();
    hasher.update(input);
    let mut out = vec![0u8; out_len];
    let mut reader = hasher.finalize_xof();
    reader.read(&mut out);
    out
}

/// Error during encoding.
#[derive(Debug, Clone, PartialEq, Eq, Structural)]
pub enum EncodingError {
    SumMismatch { expected: u32, actual: u32 },
}

/// The bytes hashed for the chunks: the message-hash tweak byte 0, the
/// epoch in little-endian order, the randomness and the message.
pub open spec fn chunk_input(epoch: u32, randomness: Seq<u8>, message: Seq<u8>) -> Seq<u8> {
    seq![0u8] + u32_le(epoch) + randomness + message
}

/// The chunks of a message.
pub open spec fn chunks_spec(epoch: u32, randomness: Seq<u8>, message: Seq<u8>) -> Seq<u8> {
    shake128_output(chunk_input(epoch, randomness, message), DIMENSION as nat)
}

/// Sum of byte values.
pub open spec fn byte_sum(s: Seq<u8>) -> nat
    decreases s.len(),
{
    if s.len() == 0 {
        0
    } else {
        byte_sum(s.drop_last()) + s.last() as nat
    }
}

/// Accept chunks whose sum is `TARGET_SUM`; otherwise report the sum.
pub open spec fn target_sum_outcome(chunks: Seq<u8>) -> Result<Seq<u8>, EncodingError> {
    if byte_sum(chunks) == TARGET_SUM {
        Ok(chunks)
    } else {
        Err(EncodingError::SumMismatch { expected: TARGET_SUM, actual: byte_sum(chunks) as u32 })
    }
}

/// Encode a message: its chunks when they reach the target sum, otherwise
/// the sum mismatch.
pub fn encode(epoch: u32, randomness: &[u8], message: &[u8; MESSAGE_LENGTH]) -> (r: Result<Vec<u8>, EncodingError>)
    ensures
        match r {
            Ok(v) => target_sum_outcome(chunks_spec(epoch, randomness@, message@)) == Ok::<Seq<u8>, EncodingError>(v@),
            Err(e) => target_sum_outcome(chunks_spec(epoch, randomness@, message@)) == Err::<Seq<u8>, EncodingError>(e),
        },
        r matches Ok(v) ==> v@.len() == DIMENSION,
{
    let chunks = generate_chunks(epoch, randomness, message);
    check_target_sum(chunks)
}

/// Keep `chunks` when they sum to `TARGET_SUM`, otherwise report the sum.
pub fn check_target_sum(chunks: Vec<u8>) -> (r: Result<Vec<u8>, EncodingError>)
    requires
        chunks@.len() <= DIMENSION,
    ensures
        match r {
            Ok(v) => target_sum_outcome(chunks@) == Ok::<Seq<u8>, EncodingError>(v@),
            Err(e) => target_sum_outcome(chunks@) == Err::<Seq<u8>, EncodingError>(e),
        },
{
    let mut sum: u32 = 0;
    let mut i: usize = 0;
    while i < chunks.len()
        invariant
            chunks@.len() <= DIMENSION,
            i <= chunks@.len(),
            sum == byte_sum(chunks@.take(i as int)),
            sum <= 255 * i,
        decreases chunks@.len() - i,
    {
        proof {
            assert(chunks@.take(i + 1).drop_last() =~= chunks@.take(i as int));
        }
        sum = sum + chunks[i] as u32;
        i += 1;
    }
    proof {
        assert(chunks@.take(chunks@.len() as int) =~= chunks@);
    }
    if sum == TARGET_SUM {
        Ok(chunks)
    } else {
        Err(EncodingError::SumMismatch { expected: TARGET_SUM, actual: sum })
    }
}

/// The `DIMENSION` chunks: SHAKE128 output on the tweak byte, the epoch,
/// the randomness and the message.
fn generate_chunks(epoch: u32, randomness: &[u8], message: &[u8; MESSAGE_LENGTH]) -> (r: Vec<u8>)
    ensures
        r@ == chunks_spec(epoch, randomness@, message@),
        r@.len() == DIMENSION,
{
    let mut input: Vec<u8> = Vec::new();
    input.push(0x00);
    push_u32_le(&mut input, epoch);
    let mut i: usize = 0;
    while i < randomness.len()
        invariant
            i <= randomness@.len(),
            input@ == seq![0u8] + u32_le(epoch) + randomness@.take(i as int),
        decreases randomness@.len() - i,
    {
        input.push(randomness[i]);
        i += 1;
        proof {
            assert(input@ =~= seq![0u8] + u32_le(epoch) + randomness@.take(i as int));
        }
    }
    proof {
        assert(randomness@.take(randomness@.len() as int) =~= randomness@);
    }
    let mut j: usize = 0;
    while j < MESSAGE_LENGTH
        invariant
            j <= MESSAGE_LENGTH,
            input@ == seq![0u8] + u32_le(epoch) + randomness@ + message@.take(j as int),
        decreases MESSAGE_LENGTH - j,
    {
        input.push(message[j]);
        j += 1;
        proof {
            assert(input@ =~= seq![0u8] + u32_le(epoch) + randomness@ + message@.take(j as int));
        }
    }
    proof {
        assert(message@.take(MESSAGE_LENGTH as int) =~= message@);
    }
    shake128(&input, DIMENSION)
}

/// An accepted encoding's chunks sum to the target, and a rejection reports
/// the actual sum, which differs from it.
pub proof fn law_target_sum_outcome(chunks: Seq<u8>)
    requires
        chunks.len() <= DIMENSION,
    ensures
        target_sum_outcome(chunks) matches Ok(c) ==> c == chunks && byte_sum(chunks) == TARGET_SUM,
        target_sum_outcome(chunks) matches Err(EncodingError::SumMismatch { expected, actual }) ==> expected
            == TARGET_SUM && actual == byte_sum(chunks) && actual != TARGET_SUM,
{
    lemma_byte_sum_bound(chunks);
}

/// A byte sum is at most 255 per byte.
proof fn lemma_byte_sum_bound(s: Seq<u8>)
    ensures
        byte_sum(s) <= 255 * s.len(),
    decreases s.len(),
{
    if s.len() > 0 {
        lemma_byte_sum_bound(s.drop_last());
    }
}

} // verus!
