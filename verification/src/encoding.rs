//! TargetSum W=1 message encoding: the message, epoch and randomness are
//! hashed with Poseidon2 to `MSG_HASH_LEN` field elements, which are read as
//! one integer and cut into `NUM_CHAINS` binary chunks.

use crate::biguint::{base_digit, biguint_to_base, le_bytes_val, SmallBigUint};
use crate::constants::{BASE, MESSAGE_LENGTH, MSG_HASH_LEN, MSG_LEN_FE, NUM_CHAINS, PARAMETER_LEN, RANDOMNESS_LEN, TWEAK_LEN};
use crate::koalabear::{KoalaBear, P};
use crate::permutation::{compress24_spec, poseidon_compress_24};
use crate::poseidon::base_p_digits;
use vstd::arithmetic::div_mod::*;
use vstd::arithmetic::mul::*;
use vstd::arithmetic::power::*;
use vstd::prelude::*;

verus! {

/// Tweak separator for the message hash.
pub const TWEAK_SEPARATOR_FOR_MESSAGE_HASH: u8 = 0x02;

/// Input length for the message hash: rho + parameter + tweak + message.
pub const MESSAGE_HASH_INPUT_LEN: usize = 22;

/// The message as `MSG_LEN_FE` base-P digits of its little-endian value.
pub open spec fn message_fe_spec(message: Seq<u8>) -> Seq<KoalaBear> {
    base_p_digits(le_bytes_val(message), MSG_LEN_FE as nat)
}

/// The epoch with the message-hash separator, as `TWEAK_LEN` base-P digits.
pub open spec fn epoch_fe_spec(epoch: u32) -> Seq<KoalaBear> {
    base_p_digits((epoch as nat) * 256 + TWEAK_SEPARATOR_FOR_MESSAGE_HASH as nat, TWEAK_LEN as nat)
}

/// The message hash: width-24 compression of `rho || parameter || epoch || message`.
pub open spec fn message_hash_spec(
    parameter: Seq<KoalaBear>,
    epoch: u32,
    randomness: Seq<KoalaBear>,
    message: Seq<u8>,
) -> Seq<KoalaBear> {
    compress24_spec(
        randomness + parameter + epoch_fe_spec(epoch) + message_fe_spec(message),
        MSG_HASH_LEN as nat,
    )
}

/// Field elements read as one base-P integer, most significant first.
pub open spec fn horner(fe: Seq<KoalaBear>) -> nat
    decreases fe.len(),
{
    if fe.len() == 0 {
        0
    } else {
        horner(fe.drop_last()) * (P as nat) + fe.last().0 as nat
    }
}

/// The codeword: the `NUM_CHAINS` lowest base-2 digits of the hash integer.
pub open spec fn codeword_spec(hash: Seq<KoalaBear>) -> Seq<u8> {
    Seq::new(NUM_CHAINS as nat, |i: int| base_digit(horner(hash), BASE as nat, i as nat) as u8)
}

/// Compute the TargetSum codeword (chain positions) for a message.
///
/// Returns `NUM_CHAINS` binary values (0 or 1).
pub fn compute_codeword(
    parameter: &[KoalaBear; PARAMETER_LEN],
    epoch: u32,
    randomness: &[KoalaBear; RANDOMNESS_LEN],
    message: &[u8; MESSAGE_LENGTH],
) -> (r: Vec<u8>)
    ensures
        r@ == codeword_spec(message_hash_spec(parameter@, epoch, randomness@, message@)),
        r@.len() == NUM_CHAINS,
        forall|i: int| 0 <= i < r@.len() ==> #[trigger] r@[i] < BASE,
{
    let hash = poseidon_message_hash(parameter, epoch, randomness, message);
    let r = decode_to_chunks(&hash);
    proof {
        assert forall|i: int| 0 <= i < r@.len() implies #[trigger] r@[i] < BASE by {
            lemma_mod_bound(horner(hash@) as int / pow(2, i as nat), 2);
        }
    }
    r
}

/// Compute the Poseidon2 message hash.
pub fn poseidon_message_hash(
    parameter: &[KoalaBear; PARAMETER_LEN],
    epoch: u32,
    randomness: &[KoalaBear; RANDOMNESS_LEN],
    message: &[u8; MESSAGE_LENGTH],
) -> (r: [KoalaBear; MSG_HASH_LEN])
    ensures
        r@ == message_hash_spec(parameter@, epoch, randomness@, message@),
{
    let message_fe = encode_message(message);
    let epoch_fe = encode_epoch(epoch);

    let combined: [KoalaBear; MESSAGE_HASH_INPUT_LEN] = [
        randomness[0],
        randomness[1],
        randomness[2],
        randomness[3],
        randomness[4],
        randomness[5],
        parameter[0],
        parameter[1],
        parameter[2],
        parameter[3],
        parameter[4],
        epoch_fe[0],
        epoch_fe[1],
        message_fe[0],
        message_fe[1],
        message_fe[2],
        message_fe[3],
        message_fe[4],
        message_fe[5],
        message_fe[6],
        message_fe[7],
        message_fe[8],
    ];
    proof {
        assert(combined@ =~= randomness@ + parameter@ + epoch_fe_spec(epoch) + message_fe_spec(message@));
    }
    let v = poseidon_compress_24(&combined, MSG_HASH_LEN);
    let out = [v[0], v[1], v[2], v[3], v[4]];
    proof {
        assert(out@ =~= v@);
    }
    out
}

/// The first `n` base-P digits of the integer held in `acc`.
fn base_p_digits_of(acc: SmallBigUint, n: usize) -> (r: Vec<KoalaBear>)
    ensures
        r@ == base_p_digits(acc.value(), n as nat),
{
    let mut acc = acc;
    let ghost v0 = acc.value();
    let mut out: Vec<KoalaBear> = Vec::new();
    let mut k: usize = 0;
    proof {
        lemma_pow0(P as int);
        lemma_div_basics(v0 as int);
    }
    while k < n
        invariant
            k <= n,
            out@.len() == k,
            acc.value() == v0 as int / pow(P as int, k as nat),
            forall|i: int| 0 <= i < k ==> #[trigger] out@[i] == base_p_digits(v0, n as nat)[i],
        decreases n - k,
    {
        proof {
            lemma_pow_positive(P as int, k as nat);
        }
        let rem = acc.div_small(P);
        proof {
            lemma_div_denominator(v0 as int, pow(P as int, k as nat), P as int);
            lemma_pow_adds(P as int, k as nat, 1);
            lemma_pow1(P as int);
            lemma_mul_is_commutative(pow(P as int, k as nat), P as int);
            lemma_small_mod(rem as nat, P as nat);
        }
        out.push(KoalaBear::new(rem));
        k = k + 1;
    }
    proof {
        assert(out@ =~= base_p_digits(v0, n as nat));
    }
    out
}

/// Encode the 32-byte message as `MSG_LEN_FE` field elements.
pub fn encode_message(message: &[u8; MESSAGE_LENGTH]) -> (r: [KoalaBear; MSG_LEN_FE])
    ensures
        r@ == message_fe_spec(message@),
{
    let acc = SmallBigUint::from_le_bytes(message);
    let d = base_p_digits_of(acc, MSG_LEN_FE);
    let out = [d[0], d[1], d[2], d[3], d[4], d[5], d[6], d[7], d[8]];
    proof {
        assert(out@ =~= d@);
    }
    out
}

/// Encode the epoch with the message-hash separator as `TWEAK_LEN` field elements.
pub fn encode_epoch(epoch: u32) -> (r: [KoalaBear; TWEAK_LEN])
    ensures
        r@ == epoch_fe_spec(epoch),
{
    let value: u64 = ((epoch as u64) << 8) | (TWEAK_SEPARATOR_FOR_MESSAGE_HASH as u64);
    proof {
        assert(value == (epoch as u64) * 256 + 2) by (bit_vector)
            requires
                value == ((epoch as u64) << 8) | 2u64,
        ;
    }
    let acc = SmallBigUint::from_u64(value);
    let d = base_p_digits_of(acc, TWEAK_LEN);
    let out = [d[0], d[1]];
    proof {
        assert(out@ =~= d@);
    }
    out
}

/// Decode `MSG_HASH_LEN` field elements into `NUM_CHAINS` binary chunks.
pub fn decode_to_chunks(fe: &[KoalaBear; MSG_HASH_LEN]) -> (r: Vec<u8>)
    ensures
        r@ == codeword_spec(fe@),
{
    let mut acc = SmallBigUint::zero();
    let mut i: usize = 0;
    while i < MSG_HASH_LEN
        invariant
            i <= MSG_HASH_LEN,
            acc.value() == horner(fe@.take(i as int)),
        decreases MSG_HASH_LEN - i,
    {
        acc.mul_small(P);
        acc.add_small(fe[i].value());
        proof {
            assert(fe@.take(i + 1).drop_last() =~= fe@.take(i as int));
        }
        i += 1;
    }
    proof {
        assert(fe@.take(MSG_HASH_LEN as int) =~= fe@);
    }
    let out = biguint_to_base(acc, BASE as u32, NUM_CHAINS);
    proof {
        assert(out@ =~= codeword_spec(fe@));
    }
    out
}


/// Nested Horner steps are the expanded polynomial.
proof fn lemma_horner_expand(a: int, b: int, c: int, d: int, e: int, p: int)
    ensures
        (((a * p + b) * p + c) * p + d) * p + e == a * (p * p * p * p) + b * (p * p * p) + c * (p * p) + d * p + e,
{
    assert((((a * p + b) * p + c) * p + d) * p + e == a * (p * p * p * p) + b * (p * p * p) + c * (p * p) + d * p + e)
        by (nonlinear_arith);
}

/// The codeword's digits are the binary digits (least significant first)
/// of the message hash read as one base-P integer with the first element
/// most significant: `h[0]·P^4 + h[1]·P^3 + h[2]·P^2 + h[3]·P + h[4]`.
pub proof fn law_codeword_digits(hash: Seq<KoalaBear>)
    requires
        hash.len() == MSG_HASH_LEN,
    ensures
        codeword_spec(hash).len() == NUM_CHAINS,
        forall|i: int|
            0 <= i < NUM_CHAINS ==> #[trigger] codeword_spec(hash)[i] as int == ((hash[0].0 as int) * pow(P as int, 4)
                + (hash[1].0 as int) * pow(P as int, 3) + (hash[2].0 as int) * pow(P as int, 2) + (hash[3].0 as int) * (
            P as int) + hash[4].0 as int) / pow(2, i as nat) % 2,
{
    let p = P as int;
    assert(hash.take(4).drop_last() =~= hash.take(3));
    assert(hash.take(3).drop_last() =~= hash.take(2));
    assert(hash.take(2).drop_last() =~= hash.take(1));
    assert(hash.take(1).drop_last() =~= hash.take(0));
    assert(hash.drop_last() =~= hash.take(4));
    assert(horner(hash.take(0)) == 0);
    assert(horner(hash.take(1)) == hash[0].0);
    assert(horner(hash.take(2)) == hash[0].0 * p + hash[1].0);
    assert(horner(hash.take(3)) == (hash[0].0 * p + hash[1].0) * p + hash[2].0);
    assert(horner(hash.take(4)) == ((hash[0].0 * p + hash[1].0) * p + hash[2].0) * p + hash[3].0);
    assert(horner(hash) == (((hash[0].0 * p + hash[1].0) * p + hash[2].0) * p + hash[3].0) * p + hash[4].0);
    lemma_horner_expand(hash[0].0 as int, hash[1].0 as int, hash[2].0 as int, hash[3].0 as int, hash[4].0 as int, p);
    assert(pow(p, 4) == p * p * p * p && pow(p, 3) == p * p * p && pow(p, 2) == p * p) by {
        reveal_with_fuel(pow, 5);
    }
    assert forall|i: int| 0 <= i < NUM_CHAINS implies #[trigger] codeword_spec(hash)[i] as int == (horner(hash) as int)
        / pow(2, i as nat) % 2 by {
        lemma_pow_positive(2, i as nat);
        lemma_mod_bound(horner(hash) as int / pow(2, i as nat), 2);
    }
}

} // verus!
