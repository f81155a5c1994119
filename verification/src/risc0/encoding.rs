//! TargetSum W=1 encoding of the field-array variant: the message hash is
//! the width-24 Plonky3 compression of `parameter || tweak || rho || message`,
//! read as one little-endian base-P integer and cut into binary digits.

use crate::biguint::{base_digit, lemma_pow_succ};
use crate::biguint64::SmallBigUint;
use crate::constants::{BASE, MSG_HASH_LEN, MSG_LEN_FE, NUM_CHAINS, TWEAK_LEN};
use crate::encoding::{encode_epoch, epoch_fe_spec};
use crate::koalabear::{KoalaBear, P};
use crate::plonky3::{p3_compress_spec, poseidon_compress};
use crate::poseidon::base_p_digits;
use crate::risc0::types::{EncodingRandomness, Parameter};
use vstd::arithmetic::div_mod::*;
use vstd::arithmetic::mul::*;
use vstd::arithmetic::power::*;
use vstd::prelude::*;

verus! {

/// Big-endian value of a byte string.
pub open spec fn be_bytes_val(s: Seq<u8>) -> nat
    decreases s.len(),
{
    if s.len() == 0 {
        0
    } else {
        be_bytes_val(s.drop_last()) * 256 + s.last() as nat
    }
}

/// The message as field elements: five base-P digits of its first sixteen
/// bytes read big-endian, then four of its last sixteen.
pub open spec fn message_elements(message: Seq<u8>) -> Seq<KoalaBear> {
    base_p_digits(be_bytes_val(message.take(16)), 5) + base_p_digits(be_bytes_val(message.skip(16)), 4)
}

/// The message hash: width-24 compression of `parameter || tweak || rho || message`.
pub open spec fn message_hash_spec(
    parameter: Seq<KoalaBear>,
    epoch: u32,
    rho: Seq<KoalaBear>,
    message: Seq<u8>,
) -> Seq<KoalaBear> {
    p3_compress_spec(24, parameter + epoch_fe_spec(epoch) + rho + message_elements(message), MSG_HASH_LEN as nat)
}

/// Field elements read as one integer, the first the least significant,
/// each by its canonical value.
pub open spec fn le_elements_val(s: Seq<KoalaBear>) -> nat
    decreases s.len(),
{
    if s.len() == 0 {
        0
    } else {
        ((s[0].0 % P) as nat + (P as nat) * le_elements_val(s.drop_first())) as nat
    }
}

/// The codeword: the `NUM_CHAINS` lowest binary digits of the hash integer.
pub open spec fn binary_codeword(hash: Seq<KoalaBear>) -> Seq<u8> {
    Seq::new(NUM_CHAINS as nat, |i: int| base_digit(le_elements_val(hash), BASE as nat, i as nat) as u8)
}

/// The codeword of a message under a parameter, epoch and randomness.
pub open spec fn codeword_spec(parameter: Seq<KoalaBear>, epoch: u32, rho: Seq<KoalaBear>, message: Seq<u8>) -> Seq<u8> {
    binary_codeword(message_hash_spec(parameter, epoch, rho, message))
}

/// Compute the codeword (`NUM_CHAINS` binary chain positions) of a message.
pub fn compute_codeword(parameter: &Parameter, epoch: u32, rho: &EncodingRandomness, message: &[u8; 32]) -> (r: Vec<u8>)
    ensures
        r@ == codeword_spec(parameter@, epoch, rho@, message@),
        r@.len() == NUM_CHAINS,
        forall|i: int| 0 <= i < r@.len() ==> #[trigger] r@[i] < BASE,
{
    let msg_hash = compute_message_hash(parameter, epoch, rho, message);
    encode_to_binary(&msg_hash)
}

/// Hash `parameter || tweak || rho || message` with the width-24 compression.
fn compute_message_hash(parameter: &Parameter, epoch: u32, rho: &EncodingRandomness, message: &[u8; 32]) -> (r: [KoalaBear; MSG_HASH_LEN])
    ensures
        r@ == message_hash_spec(parameter@, epoch, rho@, message@),
{
    let tweak = build_message_tweak(epoch);
    let msg_fe = bytes_to_field_elements(message);
    let p = parameter.inner();
    let q = rho.inner();
    let input = [
        p[0], p[1], p[2], p[3], p[4],
        tweak[0], tweak[1],
        q[0], q[1], q[2], q[3], q[4], q[5],
        msg_fe[0], msg_fe[1], msg_fe[2], msg_fe[3], msg_fe[4], msg_fe[5], msg_fe[6], msg_fe[7], msg_fe[8],
    ];
    proof {
        assert(input@ =~= parameter@ + epoch_fe_spec(epoch) + rho@ + message_elements(message@));
    }
    let v = poseidon_compress(24, &input, MSG_HASH_LEN);
    let out = [v[0], v[1], v[2], v[3], v[4]];
    proof {
        assert(out@ =~= v@);
    }
    out
}

/// The message-hash tweak: base-P digits of `epoch * 256 + 2`.
fn build_message_tweak(epoch: u32) -> (r: [KoalaBear; TWEAK_LEN])
    ensures
        r@ == epoch_fe_spec(epoch),
{
    encode_epoch(epoch)
}

/// `be(s ++ [x]) == be(s) * 256 + x`, and `be(s) < 256^len`.
proof fn lemma_be_bytes_bound(s: Seq<u8>)
    ensures
        be_bytes_val(s) < pow(256, s.len()),
    decreases s.len(),
{
    if s.len() == 0 {
        reveal(pow);
    } else {
        lemma_be_bytes_bound(s.drop_last());
        lemma_pow_succ(256, (s.len() - 1) as nat);
        let a = be_bytes_val(s.drop_last()) as int;
        let m = pow(256, (s.len() - 1) as nat);
        assert(a * 256 + 255 < m * 256) by (nonlinear_arith)
            requires
                a < m,
        ;
    }
}

/// Big-endian value of `message[start..start + 16]`, with its bound.
fn be_u128(message: &[u8; 32], start: usize) -> (r: u128)
    requires
        start == 0 || start == 16,
    ensures
        r == be_bytes_val(message@.subrange(start as int, start + 16)),
{
    let mut acc: u128 = 0;
    let mut k: usize = 0;
    while k < 16
        invariant
            start == 0 || start == 16,
            k <= 16,
            acc == be_bytes_val(message@.subrange(start as int, start + k)),
        decreases 16 - k,
    {
        let ghost s = message@.subrange(start as int, start + k);
        proof {
            lemma_be_bytes_bound(s);
            lemma_pow_increases(256, k as nat, 15);
            assert(pow(256, 15) == 0x100_0000_0000_0000_0000_0000_0000_0000int) by {
                reveal_with_fuel(pow, 16);
            }
        }
        let b = message[start + k];
        let a0 = acc;
        acc = (a0 << 8) | (b as u128);
        proof {
            assert(acc == a0 * 256 + b) by (bit_vector)
                requires
                    a0 < 0x100_0000_0000_0000_0000_0000_0000_0000u128,
                    acc == (a0 << 8) | (b as u128),
            ;
            assert(message@.subrange(start as int, start + k + 1).drop_last() =~= s);
        }
        k += 1;
    }
    acc
}

/// The first `n` base-P digits of `v`.
fn base_p_split(v: u128, n: usize) -> (r: Vec<KoalaBear>)
    ensures
        r@ == base_p_digits(v as nat, n as nat),
{
    let mut acc = v;
    let mut out: Vec<KoalaBear> = Vec::new();
    let mut i: usize = 0;
    proof {
        lemma_pow0(P as int);
        lemma_div_basics(v as int);
    }
    while i < n
        invariant
            i <= n,
            acc as int == v as int / pow(P as int, i as nat),
            out@.len() == i,
            forall|j: int| 0 <= j < i ==> #[trigger] out@[j] == base_p_digits(v as nat, n as nat)[j],
        decreases n - i,
    {
        proof {
            lemma_pow_positive(P as int, i as nat);
        }
        let digit = (acc % (P as u128)) as u32;
        out.push(KoalaBear(digit));
        acc = acc / (P as u128);
        proof {
            lemma_div_denominator(v as int, pow(P as int, i as nat), P as int);
            lemma_pow_adds(P as int, i as nat, 1);
            lemma_pow1(P as int);
            lemma_mul_is_commutative(pow(P as int, i as nat), P as int);
        }
        i += 1;
    }
    proof {
        assert(out@ =~= base_p_digits(v as nat, n as nat));
    }
    out
}

/// The message as `MSG_LEN_FE` field elements.
fn bytes_to_field_elements(message: &[u8; 32]) -> (r: [KoalaBear; MSG_LEN_FE])
    ensures
        r@ == message_elements(message@),
{
    let hi = be_u128(message, 0);
    let first = base_p_split(hi, 5);
    let lo = be_u128(message, 16);
    let second = base_p_split(lo, 4);
    let out = [first[0], first[1], first[2], first[3], first[4], second[0], second[1], second[2], second[3]];
    proof {
        assert(message@.subrange(0, 16) =~= message@.take(16));
        assert(message@.subrange(16, 32) =~= message@.skip(16));
        assert(out@ =~= message_elements(message@));
    }
    out
}

/// Read the hash as one integer (first element least significant) and
/// take its `NUM_CHAINS` lowest binary digits.
fn encode_to_binary(hash: &[KoalaBear; MSG_HASH_LEN]) -> (r: Vec<u8>)
    ensures
        r@ == binary_codeword(hash@),
        r@.len() == NUM_CHAINS,
        forall|i: int| 0 <= i < r@.len() ==> #[trigger] r@[i] < BASE,
{
    let mut big_int = SmallBigUint::zero();
    let mut i: usize = MSG_HASH_LEN;
    proof {
        assert(hash@.skip(MSG_HASH_LEN as int) =~= Seq::<KoalaBear>::empty());
    }
    while i > 0
        invariant
            i <= MSG_HASH_LEN,
            big_int.value() == le_elements_val(hash@.skip(i as int)),
            big_int.limbs@.len() >= 1,
        decreases i,
    {
        i -= 1;
        big_int.mul_scalar(P as u64);
        big_int.add_scalar((hash[i].0 % P) as u64);
        proof {
            assert(hash@.skip(i as int).drop_first() =~= hash@.skip(i + 1));
            lemma_mul_is_commutative(le_elements_val(hash@.skip(i + 1)) as int, P as int);
        }
    }
    proof {
        assert(hash@.skip(0) =~= hash@);
    }
    let ghost v = le_elements_val(hash@);
    let mut codeword: Vec<u8> = Vec::new();
    let mut k: usize = 0;
    proof {
        lemma_pow0(2);
        lemma_div_basics(v as int);
    }
    while k < NUM_CHAINS
        invariant
            k <= NUM_CHAINS,
            big_int.value() == v as int / pow(2, k as nat),
            big_int.limbs@.len() >= 1,
            codeword@.len() == k,
            forall|j: int| 0 <= j < k ==> #[trigger] codeword@[j] == base_digit(v, BASE as nat, j as nat) as u8,
            forall|j: int| 0 <= j < k ==> #[trigger] codeword@[j] < BASE,
        decreases NUM_CHAINS - k,
    {
        let digit = big_int.mod_scalar(BASE as u64) as u8;
        proof {
            lemma_pow_positive(2, k as nat);
            lemma_mod_bound(big_int.value() as int, 2);
        }
        codeword.push(digit);
        big_int.div_scalar(BASE as u64);
        proof {
            lemma_div_denominator(v as int, pow(2, k as nat), 2);
            lemma_pow_succ(2, k as nat);
            lemma_mul_is_commutative(pow(2, k as nat), 2);
        }
        k += 1;
    }
    proof {
        assert(codeword@ =~= binary_codeword(hash@));
    }
    codeword
}


/// Big-endian reading: a byte put in front of `s` counts `256^|s|` times,
/// a byte put behind counts once, after `s` is shifted up one byte.
pub proof fn law_be_bytes_val_order(b: u8, s: Seq<u8>)
    ensures
        be_bytes_val(seq![b] + s) == (b as nat) * pow(256, s.len()) + be_bytes_val(s),
        be_bytes_val(s + seq![b]) == be_bytes_val(s) * 256 + b as nat,
    decreases s.len(),
{
    assert((s + seq![b]).drop_last() =~= s);
    reveal(pow);
    if s.len() > 0 {
        let t = s.drop_last();
        law_be_bytes_val_order(b, t);
        assert((seq![b] + s).drop_last() =~= seq![b] + t);
        assert((seq![b] + s).last() == s.last());
        lemma_pow_succ(256, t.len());
        assert(be_bytes_val(seq![b] + s) == ((b as nat) * pow(256, t.len()) + be_bytes_val(t)) * 256 + s.last() as nat);
        assert(((b as nat) * pow(256, t.len()) + be_bytes_val(t)) * 256 == (b as nat) * (pow(256, t.len()) * 256)
            + be_bytes_val(t) * 256) by (nonlinear_arith);
    } else {
        assert(seq![b] + s =~= seq![b]);
        assert(seq![b].drop_last() =~= Seq::<u8>::empty());
    }
}

/// The message's field elements: the first five are the base-P digits
/// (least significant first) of its first sixteen bytes read big-endian,
/// the last four those of its last sixteen bytes.
pub proof fn law_message_elements_digits(message: Seq<u8>)
    requires
        message.len() == 32,
    ensures
        message_elements(message).len() == MSG_LEN_FE,
        forall|i: int|
            0 <= i < 5 ==> (#[trigger] message_elements(message)[i]).0 == (be_bytes_val(message.subrange(0, 16)) as int
                / pow(P as int, i as nat)) % (P as int),
        forall|i: int|
            5 <= i < 9 ==> (#[trigger] message_elements(message)[i]).0 == (be_bytes_val(message.subrange(16, 32)) as int
                / pow(P as int, (i - 5) as nat)) % (P as int),
{
    assert(message.take(16) =~= message.subrange(0, 16));
    assert(message.skip(16) =~= message.subrange(16, 32));
    let hi = be_bytes_val(message.take(16)) as int;
    let lo = be_bytes_val(message.skip(16)) as int;
    assert forall|i: int| 0 <= i < 5 implies (#[trigger] message_elements(message)[i]).0 == (hi / pow(P as int, i as nat))
        % (P as int) by {
        lemma_pow_positive(P as int, i as nat);
        lemma_mod_bound(hi / pow(P as int, i as nat), P as int);
    }
    assert forall|i: int| 5 <= i < 9 implies (#[trigger] message_elements(message)[i]).0 == (lo / pow(
        P as int,
        (i - 5) as nat,
    )) % (P as int) by {
        lemma_pow_positive(P as int, (i - 5) as nat);
        lemma_mod_bound(lo / pow(P as int, (i - 5) as nat), P as int);
    }
}

/// The first five message elements depend only on the first sixteen bytes,
/// the last four only on the last sixteen: messages that agree on a half
/// agree on that half's elements.
pub proof fn law_message_elements_halves(m1: Seq<u8>, m2: Seq<u8>)
    requires
        m1.len() == 32,
        m2.len() == 32,
    ensures
        m1.subrange(0, 16) == m2.subrange(0, 16) ==> message_elements(m1).subrange(0, 5) == message_elements(
            m2,
        ).subrange(0, 5),
        m1.subrange(16, 32) == m2.subrange(16, 32) ==> message_elements(m1).subrange(5, 9) == message_elements(
            m2,
        ).subrange(5, 9),
{
    law_message_elements_digits(m1);
    law_message_elements_digits(m2);
    if m1.subrange(0, 16) == m2.subrange(0, 16) {
        assert forall|i: int| 0 <= i < 5 implies message_elements(m1)[i] == message_elements(m2)[i] by {
            assert(message_elements(m1)[i].0 == message_elements(m2)[i].0);
        }
        assert(message_elements(m1).subrange(0, 5) =~= message_elements(m2).subrange(0, 5));
    }
    if m1.subrange(16, 32) == m2.subrange(16, 32) {
        assert forall|i: int| 5 <= i < 9 implies message_elements(m1)[i] == message_elements(m2)[i] by {
            assert(message_elements(m1)[i].0 == message_elements(m2)[i].0);
        }
        assert(message_elements(m1).subrange(5, 9) =~= message_elements(m2).subrange(5, 9));
    }
}

} // verus!
