//! Compression, sponge and domain separation built on the Plonky3 Poseidon2
//! permutations over KoalaBear (widths 16 and 24).

use crate::koalabear::{kb, kb_add, KoalaBear, P};
use crate::poseidon::{base_p_digits, flatten, tweak_fe, PoseidonTweak};
use crate::constants::{HASH_LEN, PARAMETER_LEN, TWEAK_LEN};
use p3_field::PrimeField32;
use p3_symmetric::Permutation;
use vstd::arithmetic::div_mod::*;
use vstd::arithmetic::mul::*;
use vstd::arithmetic::power::*;
use vstd::prelude::*;

verus! {

/// The output of Plonky3's default width-16 Poseidon2 permutation over
/// KoalaBear, as canonical values, on a state given by raw `u32` values
/// (each read modulo P, as `KoalaBear::new` does).
pub uninterp spec fn plonky3_poseidon2_16(state: Seq<u32>) -> Seq<u32>;

/// The output of Plonky3's default width-24 Poseidon2 permutation over
/// KoalaBear, as canonical values, on a state given by raw `u32` values
/// (each read modulo P, as `KoalaBear::new` does).
pub uninterp spec fn plonky3_poseidon2_24(state: Seq<u32>) -> Seq<u32>;

/// `p3_koala_bear::default_koalabear_poseidon2_16().permute_mut`, on
/// canonical `u32` values in and out.
///
/// Trusted: the result is the named permutation output of the input, every
/// output value is canonical (`as_canonical_u32` documents the range
/// `[0, P)`), and the width is kept. Nothing else about the permutation is
/// stated.
#[verifier::external_body]
fn plonky3_permute_16(state: [u32; 16]) -> (r: [u32; 16])
    ensures
        r@ == plonky3_poseidon2_16(state@),
        forall|i: int| 0 <= i < 16 ==> #[trigger] r@[i] < P,
{
    let perm = p3_koala_bear::default_koalabear_poseidon2_16();
    let mut s = state.map(p3_koala_bear::KoalaBear::new);
    perm.permute_mut(&mut s);
    s.map(|x| x.as_canonical_u32())
}

/// `p3_koala_bear::default_koalabear_poseidon2_24().permute_mut`, on
/// canonical `u32` values in and out.
///
/// Trusted: the result is the named permutation output of the input and
/// every output value is canonical. Nothing else is stated.
#[verifier::external_body]
fn plonky3_permute_24(state: [u32; 24]) -> (r: [u32; 24])
    ensures
        r@ == plonky3_poseidon2_24(state@),
        forall|i: int| 0 <= i < 24 ==> #[trigger] r@[i] < P,
{
    let perm = p3_koala_bear::default_koalabear_poseidon2_24();
    let mut s = state.map(p3_koala_bear::KoalaBear::new);
    perm.permute_mut(&mut s);
    s.map(|x| x.as_canonical_u32())
}

/// Raw values of field elements.
pub open spec fn raw(s: Seq<KoalaBear>) -> Seq<u32> {
    s.map_values(|x: KoalaBear| x.0)
}

/// The Plonky3 permutation of a width-16 or width-24 state, as canonical
/// field elements (the permutation's outputs are canonical values, so the
/// reduction changes none of them).
pub open spec fn p3_permute_spec(s: Seq<KoalaBear>) -> Seq<KoalaBear> {
    if s.len() == 16 {
        Seq::new(16, |i: int| kb(plonky3_poseidon2_16(raw(s))[i] as int))
    } else {
        Seq::new(24, |i: int| kb(plonky3_poseidon2_24(raw(s))[i] as int))
    }
}

/// The input zero-padded to `width` elements.
pub open spec fn pad_to(input: Seq<KoalaBear>, width: nat) -> Seq<KoalaBear> {
    Seq::new(width, |i: int| if i < input.len() { input[i] } else { KoalaBear(0) })
}

/// Compression: `Truncate(Permute(x) + x)` with `x` the zero-padded input.
#[verifier::opaque]
pub open spec fn p3_compress_spec(width: nat, input: Seq<KoalaBear>, out_len: nat) -> Seq<KoalaBear> {
    let padded = pad_to(input, width);
    let p = p3_permute_spec(padded);
    Seq::new(out_len, |i: int| kb_add(p[i], padded[i]))
}

/// The Plonky3 permutation applied to a width-16 state in place.
pub fn p3_permute_16(state: &mut [KoalaBear; 16])
    ensures
        final(state)@ == p3_permute_spec(old(state)@),
        forall|i: int| 0 <= i < 16 ==> #[trigger] final(state)@[i].is_canonical(),
{
    let mut raw_in = [0u32; 16];
    let mut i: usize = 0;
    while i < 16
        invariant
            i <= 16,
            forall|k: int| 0 <= k < i ==> #[trigger] raw_in@[k] == state@[k].0,
        decreases 16 - i,
    {
        raw_in[i] = state[i].0;
        i += 1;
    }
    proof {
        assert(raw_in@ =~= raw(state@));
    }
    let out = plonky3_permute_16(raw_in);
    let ghost s0 = state@;
    let mut i: usize = 0;
    while i < 16
        invariant
            i <= 16,
            s0.len() == 16,
            out@ == plonky3_poseidon2_16(raw(s0)),
            forall|k: int| 0 <= k < 16 ==> #[trigger] out@[k] < P,
            forall|k: int| 0 <= k < i ==> #[trigger] state@[k] == KoalaBear(out@[k]),
        decreases 16 - i,
    {
        state[i] = KoalaBear(out[i]);
        i += 1;
    }
    proof {
        assert forall|k: int| 0 <= k < 16 implies #[trigger] state@[k] == kb(out@[k] as int) by {
            lemma_small_mod(out@[k] as nat, P as nat);
        }
        assert(state@ =~= p3_permute_spec(s0));
    }
}

/// The Plonky3 permutation applied to a width-24 state in place.
pub fn p3_permute_24(state: &mut [KoalaBear; 24])
    ensures
        final(state)@ == p3_permute_spec(old(state)@),
        forall|i: int| 0 <= i < 24 ==> #[trigger] final(state)@[i].is_canonical(),
{
    let mut raw_in = [0u32; 24];
    let mut i: usize = 0;
    while i < 24
        invariant
            i <= 24,
            forall|k: int| 0 <= k < i ==> #[trigger] raw_in@[k] == state@[k].0,
        decreases 24 - i,
    {
        raw_in[i] = state[i].0;
        i += 1;
    }
    proof {
        assert(raw_in@ =~= raw(state@));
    }
    let out = plonky3_permute_24(raw_in);
    let ghost s0 = state@;
    let mut i: usize = 0;
    while i < 24
        invariant
            i <= 24,
            s0.len() == 24,
            out@ == plonky3_poseidon2_24(raw(s0)),
            forall|k: int| 0 <= k < 24 ==> #[trigger] out@[k] < P,
            forall|k: int| 0 <= k < i ==> #[trigger] state@[k] == KoalaBear(out@[k]),
        decreases 24 - i,
    {
        state[i] = KoalaBear(out[i]);
        i += 1;
    }
    proof {
        assert forall|k: int| 0 <= k < 24 implies #[trigger] state@[k] == kb(out@[k] as int) by {
            lemma_small_mod(out@[k] as nat, P as nat);
        }
        assert(state@ =~= p3_permute_spec(s0));
    }
}

/// Poseidon compression `Truncate(Permute(x) + x)` with the width-16 or
/// width-24 permutation; the input is zero-padded to the width.
pub fn poseidon_compress(width: usize, input: &[KoalaBear], out_len: usize) -> (r: Vec<KoalaBear>)
    requires
        width == 16 || width == 24,
        input@.len() >= out_len,
        input@.len() <= width,
    ensures
        r@ == p3_compress_spec(width as nat, input@, out_len as nat),
        r@.len() == out_len,
{
    let ghost padded_spec = pad_to(input@, width as nat);
    let mut out: Vec<KoalaBear> = Vec::new();
    if width == 16 {
        let mut padded = [KoalaBear(0); 16];
        let mut i: usize = 0;
        while i < input.len()
            invariant
                input@.len() <= 16,
                i <= input@.len(),
                forall|k: int| 0 <= k < i ==> #[trigger] padded@[k] == input@[k],
                forall|k: int| i <= k < 16 ==> #[trigger] padded@[k] == KoalaBear(0),
            decreases input@.len() - i,
        {
            padded[i] = input[i];
            i += 1;
        }
        proof {
            assert(padded@ =~= padded_spec);
        }
        let mut state = padded;
        p3_permute_16(&mut state);
        let mut i: usize = 0;
        while i < out_len
            invariant
                out_len <= 16,
                i <= out_len,
                padded@ == padded_spec,
                state@ == p3_permute_spec(padded_spec),
                out@.len() == i,
                forall|k: int| 0 <= k < i ==> #[trigger] out@[k] == kb_add(state@[k], padded@[k]),
            decreases out_len - i,
        {
            out.push(state[i] + padded[i]);
            i += 1;
        }
    } else {
        let mut padded = [KoalaBear(0); 24];
        let mut i: usize = 0;
        while i < input.len()
            invariant
                input@.len() <= 24,
                i <= input@.len(),
                forall|k: int| 0 <= k < i ==> #[trigger] padded@[k] == input@[k],
                forall|k: int| i <= k < 24 ==> #[trigger] padded@[k] == KoalaBear(0),
            decreases input@.len() - i,
        {
            padded[i] = input[i];
            i += 1;
        }
        proof {
            assert(padded@ =~= padded_spec);
        }
        let mut state = padded;
        p3_permute_24(&mut state);
        let mut i: usize = 0;
        while i < out_len
            invariant
                out_len <= 24,
                i <= out_len,
                padded@ == padded_spec,
                state@ == p3_permute_spec(padded_spec),
                out@.len() == i,
                forall|k: int| 0 <= k < i ==> #[trigger] out@[k] == kb_add(state@[k], padded@[k]),
            decreases out_len - i,
        {
            out.push(state[i] + padded[i]);
            i += 1;
        }
    }
    proof {
        reveal(p3_compress_spec);
        assert(out@ =~= p3_compress_spec(width as nat, input@, out_len as nat));
    }
    out
}

/// Add chunk `k` (of `rate` elements) of the padded input into the rate part.
pub open spec fn p3_add_chunk(state: Seq<KoalaBear>, input: Seq<KoalaBear>, rate: nat, k: nat) -> Seq<KoalaBear> {
    Seq::new(24, |i: int| if i < rate { kb_add(state[i], input[k * rate + i]) } else { state[i] })
}

/// Absorb the first `k` chunks.
pub open spec fn p3_absorb(state: Seq<KoalaBear>, input: Seq<KoalaBear>, rate: nat, k: nat) -> Seq<KoalaBear>
    decreases k,
{
    if k == 0 {
        state
    } else {
        p3_permute_spec(p3_add_chunk(p3_absorb(state, input, rate, (k - 1) as nat), input, rate, (k - 1) as nat))
    }
}

/// Squeeze at least `need` elements, `rate` at a time, permuting after each block.
pub open spec fn p3_squeeze(state: Seq<KoalaBear>, rate: nat, need: int) -> Seq<KoalaBear>
    decreases need,
{
    if need <= 0 || rate == 0 {
        Seq::empty()
    } else if need <= rate {
        state.take(rate as int)
    } else {
        state.take(rate as int) + p3_squeeze(p3_permute_spec(state), rate, need - rate)
    }
}

/// The input zero-padded to a multiple of `rate`.
pub open spec fn pad_to_rate(input: Seq<KoalaBear>, rate: nat) -> Seq<KoalaBear> {
    input + Seq::new(pad_extra(input.len() as int, rate as int) as nat, |i: int| KoalaBear(0))
}

/// Number of zeros that bring `n` up to a multiple of `r`.
pub open spec fn pad_extra(n: int, r: int) -> int {
    (r - n % r) % r
}

/// Sponge hash: capacity initialised to `capacity_value`, absorb the padded
/// input, squeeze `out_len` elements.
#[verifier::opaque]
pub open spec fn p3_sponge_spec(capacity_value: Seq<KoalaBear>, input: Seq<KoalaBear>, out_len: nat) -> Seq<KoalaBear> {
    let rate = (24 - capacity_value.len()) as nat;
    let padded = pad_to_rate(input, rate);
    let init = Seq::new(24, |i: int| if i < rate { KoalaBear(0) } else { capacity_value[i - rate] });
    let absorbed = p3_absorb(init, padded, rate, padded.len() / rate);
    p3_squeeze(absorbed, rate, out_len as int).take(out_len as int)
}

/// Poseidon sponge hash over the width-24 permutation.
pub fn poseidon_sponge(capacity_value: &[KoalaBear], input: &[KoalaBear], out_len: usize) -> (r: Vec<KoalaBear>)
    requires
        capacity_value@.len() < 24,
        input@.len() + 24 <= usize::MAX,
        out_len + 24 <= usize::MAX,
    ensures
        r@ == p3_sponge_spec(capacity_value@, input@, out_len as nat),
        r@.len() == out_len,
{
    reveal(p3_sponge_spec);
    let rate = 24 - capacity_value.len();
    let ghost padded_spec = pad_to_rate(input@, rate as nat);

    // Pad input to a multiple of rate
    let extra_elements = (rate - (input.len() % rate)) % rate;
    proof {
        lemma_pad_to_rate_len(input@.len() as int, rate as int);
        assert(extra_elements == pad_extra(input@.len() as int, rate as int));
    }
    let mut input_vector: Vec<KoalaBear> = Vec::new();
    let mut i: usize = 0;
    while i < input.len()
        invariant
            i <= input@.len(),
            input_vector@ == input@.take(i as int),
        decreases input@.len() - i,
    {
        input_vector.push(input[i]);
        i += 1;
        proof {
            assert(input_vector@ =~= input@.take(i as int));
        }
    }
    let mut i: usize = 0;
    proof {
        assert(input@.take(input@.len() as int) =~= input@);
    }
    while i < extra_elements
        invariant
            extra_elements < rate,
            i <= extra_elements,
            input_vector@ == input@ + Seq::new(i as nat, |j: int| KoalaBear(0)),
        decreases extra_elements - i,
    {
        input_vector.push(KoalaBear(0));
        i += 1;
        proof {
            assert(input_vector@ =~= input@ + Seq::new(i as nat, |j: int| KoalaBear(0)));
        }
    }
    proof {
        assert(input_vector@ =~= padded_spec);
    }
    let num_chunks = input_vector.len() / rate;
    proof {
        lemma_fundamental_div_mod(input_vector@.len() as int, rate as int);
        lemma_mul_is_commutative(num_chunks as int, rate as int);
    }

    // Initialize state with capacity
    let mut state = [KoalaBear(0); 24];
    let mut i: usize = rate;
    while i < 24
        invariant
            rate <= i <= 24,
            rate == 24 - capacity_value@.len(),
            forall|k: int| 0 <= k < rate ==> #[trigger] state@[k] == KoalaBear(0),
            forall|k: int| rate <= k < i ==> #[trigger] state@[k] == capacity_value@[k - rate],
            forall|k: int| i <= k < 24 ==> #[trigger] state@[k] == KoalaBear(0),
        decreases 24 - i,
    {
        state[i] = capacity_value[i - rate];
        i += 1;
    }
    let ghost init = state@;
    proof {
        assert(init =~= Seq::new(24, |i: int| if i < rate { KoalaBear(0) } else { capacity_value@[i - rate] }));
    }

    // Absorb phase
    let mut c: usize = 0;
    while c < num_chunks
        invariant
            rate == 24 - capacity_value@.len(),
            0 < rate <= 24,
            input_vector@ == padded_spec,
            input_vector@.len() == num_chunks * rate,
            input_vector@.len() <= usize::MAX,
            c <= num_chunks,
            state@ == p3_absorb(init, padded_spec, rate as nat, c as nat),
        decreases num_chunks - c,
    {
        let ghost before = state@;
        proof {
            lemma_mul_inequality(c as int + 1, num_chunks as int, rate as int);
            lemma_mul_is_distributive_add_other_way(rate as int, c as int, 1);
        }
        let offset = c * rate;
        let mut i: usize = 0;
        while i < rate
            invariant
                0 < rate <= 24,
                offset == c * rate,
                offset + rate <= input_vector@.len(),
                input_vector@.len() <= usize::MAX,
                i <= rate,
                before.len() == 24,
                forall|k: int| 0 <= k < i ==> #[trigger] state@[k] == kb_add(before[k], input_vector@[offset + k]),
                forall|k: int| i <= k < 24 ==> #[trigger] state@[k] == before[k],
            decreases rate - i,
        {
            state[i] = state[i] + input_vector[offset + i];
            i += 1;
        }
        proof {
            assert(state@ =~= p3_add_chunk(before, padded_spec, rate as nat, c as nat));
        }
        p3_permute_24(&mut state);
        c += 1;
    }
    let ghost absorbed = state@;
    proof {
        lemma_div_multiples_vanish(num_chunks as int, rate as int);
        lemma_mul_is_commutative(num_chunks as int, rate as int);
    }

    // Squeeze phase
    let mut out: Vec<KoalaBear> = Vec::new();
    while out.len() < out_len
        invariant
            0 < rate <= 24,
            out_len + 24 <= usize::MAX,
            out@.len() <= out_len + 24,
            state@.len() == 24,
            out@ + p3_squeeze(state@, rate as nat, out_len - out@.len()) == p3_squeeze(
                absorbed,
                rate as nat,
                out_len as int,
            ),
        decreases out_len + 24 - out@.len(),
    {
        let ghost before = state@;
        let ghost out_before = out@;
        let mut i: usize = 0;
        while i < rate
            invariant
                0 < rate <= 24,
                i <= rate,
                state@ == before,
                before.len() == 24,
                out@ == out_before + before.take(i as int),
            decreases rate - i,
        {
            out.push(state[i]);
            i += 1;
            proof {
                assert(out@ =~= out_before + before.take(i as int));
            }
        }
        p3_permute_24(&mut state);
        proof {
            assert(out_before + p3_squeeze(before, rate as nat, out_len - out_before.len()) =~= out@
                + p3_squeeze(state@, rate as nat, out_len - out@.len()));
        }
    }
    proof {
        assert(p3_squeeze(state@, rate as nat, out_len - out@.len()) =~= Seq::<KoalaBear>::empty());
        assert(out@ =~= p3_squeeze(absorbed, rate as nat, out_len as int));
    }
    let mut result: Vec<KoalaBear> = Vec::new();
    let mut i: usize = 0;
    while i < out_len
        invariant
            i <= out_len,
            out_len <= out@.len(),
            result@ == out@.take(i as int),
        decreases out_len - i,
    {
        result.push(out[i]);
        i += 1;
        proof {
            assert(result@ =~= out@.take(i as int));
        }
    }
    result
}

/// Padding to a multiple of the rate gives a multiple of the rate.
proof fn lemma_pad_to_rate_len(n: int, r: int)
    requires
        r > 0,
        n >= 0,
    ensures
        (n + pad_extra(n, r)) % r == 0,
        0 <= pad_extra(n, r) < r,
{
    let m = n % r;
    lemma_mod_bound(n, r);
    lemma_fundamental_div_mod(n, r);
    lemma_mod_bound(r - m, r);
    if m == 0 {
        lemma_mod_self_0(r);
        assert(pad_extra(n, r) == 0);
        assert(n == r * (n / r));
        lemma_mul_is_commutative(r, n / r);
        lemma_mod_multiples_basic(n / r, r);
    } else {
        lemma_small_mod((r - m) as nat, r as nat);
        assert(n + (r - m) == r * (n / r) + r);
        lemma_mul_is_distributive_add(r, n / r, 1);
        lemma_mul_is_commutative(r, n / r + 1);
        lemma_mod_multiples_basic(n / r + 1, r);
    }
}

/// Pack four 32-bit words into one integer, most significant first.
pub open spec fn pack_words(params: Seq<u32>) -> nat {
    ((((params[0] as nat) * 0x1_0000_0000 + params[1] as nat) * 0x1_0000_0000 + params[2] as nat)
        * 0x1_0000_0000 + params[3] as nat) as nat
}

/// Domain separator: compress the 24 base-P digits of the packed lengths.
pub open spec fn domain_separator_spec(params: Seq<u32>, out_len: nat) -> Seq<KoalaBear> {
    p3_compress_spec(24, base_p_digits(pack_words(params), 24), out_len)
}

/// Domain separator computation for the sponge.
pub fn poseidon_safe_domain_separator(params: &[u32; 4], out_len: usize) -> (r: Vec<KoalaBear>)
    requires
        out_len <= 24,
    ensures
        r@ == domain_separator_spec(params@, out_len as nat),
        r@.len() == out_len,
{
    // Combine params into a single number in base 2^32
    let mut acc: u128 = 0;
    let mut k: usize = 0;
    proof {
        lemma_pow0(0x1_0000_0000);
    }
    while k < 4
        invariant
            k <= 4,
            acc < pow(0x1_0000_0000, k as nat),
            k == 4 ==> acc == pack_words(params@),
            k == 0 ==> acc == 0,
            k == 1 ==> acc == params@[0],
            k == 2 ==> acc == (params@[0] as nat) * 0x1_0000_0000 + params@[1] as nat,
            k == 3 ==> acc == ((params@[0] as nat) * 0x1_0000_0000 + params@[1] as nat) * 0x1_0000_0000
                + params@[2] as nat,
        decreases 4 - k,
    {
        let ghost a0 = acc;
        let p = params[k];
        proof {
            reveal_with_fuel(pow, 5);
            assert(acc < 0x1_0000_0000_0000_0000_0000_0000);
        }
        let shifted = acc << 32;
        acc = shifted | (p as u128);
        proof {
            assert(acc == a0 * 0x1_0000_0000 + p) by (bit_vector)
                requires
                    a0 < 0x1_0000_0000_0000_0000_0000_0000,
                    shifted == a0 << 32,
                    acc == shifted | (p as u128),
            ;
            lemma_pow_succ_words(k as nat);
        }
        k += 1;
    }

    // Base-p decomposition
    let ghost v = acc as nat;
    let mut input = [KoalaBear(0); 24];
    let mut i: usize = 0;
    proof {
        lemma_pow0(P as int);
        lemma_div_basics(v as int);
    }
    while i < 24
        invariant
            i <= 24,
            acc as int == v as int / pow(P as int, i as nat),
            forall|j: int| 0 <= j < i ==> #[trigger] input@[j] == base_p_digits(v, 24)[j],
        decreases 24 - i,
    {
        proof {
            lemma_pow_positive(P as int, i as nat);
        }
        let digit = (acc % (P as u128)) as u32;
        input[i] = KoalaBear(digit);
        acc = acc / (P as u128);
        proof {
            lemma_div_denominator(v as int, pow(P as int, i as nat), P as int);
            lemma_pow_adds(P as int, i as nat, 1);
            lemma_pow1(P as int);
            lemma_mul_is_commutative(pow(P as int, i as nat), P as int);
        }
        i += 1;
    }
    proof {
        assert(input@ =~= base_p_digits(v, 24));
    }
    poseidon_compress(24, &input, out_len)
}

/// The flattened input of `n` messages (parameter, tweak, messages), with
/// room for the sponge's padding, fits in memory.
pub open spec fn input_fits(n: nat) -> bool {
    PARAMETER_LEN + TWEAK_LEN + n * HASH_LEN + 24 <= usize::MAX
}

/// Capacity width of the sponge used for many messages.
pub const SPONGE_CAPACITY: usize = 9;

/// Tweakable hash over the Plonky3 permutations: width-16 compression of
/// `parameter || tweak || message` for one message, width-24 for two, and
/// otherwise the sponge whose capacity is the domain separator of the
/// lengths (parameter, tweak, message count, hash).
pub open spec fn p3_apply_spec(param: Seq<KoalaBear>, tfe: Seq<KoalaBear>, msgs: Seq<Seq<KoalaBear>>) -> Seq<KoalaBear> {
    if msgs.len() == 1 {
        p3_compress_spec(16, param + tfe + msgs[0], HASH_LEN as nat)
    } else if msgs.len() == 2 {
        p3_compress_spec(24, param + tfe + msgs[0] + msgs[1], HASH_LEN as nat)
    } else {
        p3_sponge_spec(
            domain_separator_spec(
                seq![PARAMETER_LEN as u32, TWEAK_LEN as u32, msgs.len() as u32, HASH_LEN as u32],
                SPONGE_CAPACITY as nat,
            ),
            param + tfe + flatten(msgs),
            HASH_LEN as nat,
        )
    }
}

/// Walk `steps` steps of a chain with the Plonky3-based hash.
pub open spec fn p3_chain_spec(
    param: Seq<KoalaBear>,
    epoch: u32,
    chain_index: u8,
    pos: int,
    steps: nat,
    v: Seq<KoalaBear>,
) -> Seq<KoalaBear>
    decreases steps,
{
    if steps == 0 {
        v
    } else {
        let t = PoseidonTweak::Chain { epoch, chain_index, pos_in_chain: (pos + 1) as u8 };
        p3_chain_spec(param, epoch, chain_index, pos + 1, (steps - 1) as nat, p3_apply_spec(param, tweak_fe(t), seq![v]))
    }
}

/// Node at level `i` on the path from `leaf` at `pos`, with the Plonky3-based hash.
pub open spec fn p3_merkle_node(
    param: Seq<KoalaBear>,
    pos: u32,
    leaf: Seq<KoalaBear>,
    path: Seq<Seq<KoalaBear>>,
    i: nat,
) -> Seq<KoalaBear>
    decreases i,
{
    if i == 0 {
        leaf
    } else {
        let prev = p3_merkle_node(param, pos, leaf, path, (i - 1) as nat);
        let idx = pos as int / pow(2, (i - 1) as nat);
        let sib = path[i - 1];
        let t = PoseidonTweak::Tree { level: i as u8, pos_in_level: (idx / 2) as u32 };
        if idx % 2 == 0 {
            p3_apply_spec(param, tweak_fe(t), seq![prev, sib])
        } else {
            p3_apply_spec(param, tweak_fe(t), seq![sib, prev])
        }
    }
}

/// Root reached by the path from the leaf hashed from `leaf_hashes` at `pos`.
pub open spec fn p3_merkle_root_spec(
    param: Seq<KoalaBear>,
    pos: u32,
    leaf_hashes: Seq<Seq<KoalaBear>>,
    path: Seq<Seq<KoalaBear>>,
) -> Seq<KoalaBear> {
    let leaf = p3_apply_spec(param, tweak_fe(PoseidonTweak::Tree { level: 0, pos_in_level: pos }), leaf_hashes);
    p3_merkle_node(param, pos, leaf, path, path.len())
}

/// `2^(32 (k+1)) == 2^(32 k) * 2^32`.
proof fn lemma_pow_succ_words(k: nat)
    ensures
        pow(0x1_0000_0000, k + 1) == pow(0x1_0000_0000, k) * 0x1_0000_0000,
{
    reveal(pow);
}

/// Walking a chain `a` steps and then `b` more is walking it `a + b` steps.
pub proof fn law_p3_chain_composes(
    param: Seq<KoalaBear>,
    epoch: u32,
    chain_index: u8,
    pos: int,
    a: nat,
    b: nat,
    v: Seq<KoalaBear>,
)
    ensures
        p3_chain_spec(param, epoch, chain_index, pos + a, b, p3_chain_spec(param, epoch, chain_index, pos, a, v))
            == p3_chain_spec(param, epoch, chain_index, pos, a + b, v),
    decreases a,
{
    if a > 0 {
        let t = PoseidonTweak::Chain { epoch, chain_index, pos_in_chain: (pos + 1) as u8 };
        law_p3_chain_composes(
            param,
            epoch,
            chain_index,
            pos + 1,
            (a - 1) as nat,
            b,
            p3_apply_spec(param, tweak_fe(t), seq![v]),
        );
        assert(pos + 1 + (a - 1) == pos + a);
        assert((a - 1) + b == (a + b - 1));
    }
}


/// Step `n` of a chain walk started at position `pos` (the step from
/// position `pos + n` to `pos + n + 1`) is the width-16 compression of the
/// parameter, the chain tweak naming the position the step arrives at, and
/// the value the walk had reached: one step from position 0 uses the tweak
/// at position 1.
pub proof fn law_p3_chain_step_tweak(
    param: Seq<KoalaBear>,
    epoch: u32,
    chain_index: u8,
    pos: int,
    n: nat,
    v: Seq<KoalaBear>,
)
    ensures
        p3_chain_spec(param, epoch, chain_index, pos, n + 1, v) == p3_compress_spec(
            16,
            param + tweak_fe(PoseidonTweak::Chain { epoch, chain_index, pos_in_chain: (pos + n + 1) as u8 })
                + p3_chain_spec(param, epoch, chain_index, pos, n, v),
            HASH_LEN as nat,
        ),
{
    law_p3_chain_composes(param, epoch, chain_index, pos, n, 1, v);
    let w = p3_chain_spec(param, epoch, chain_index, pos, n, v);
    let t = PoseidonTweak::Chain { epoch, chain_index, pos_in_chain: (pos + n + 1) as u8 };
    assert(p3_chain_spec(param, epoch, chain_index, pos + n, 1, w) == p3_chain_spec(
        param,
        epoch,
        chain_index,
        pos + n + 1,
        0,
        p3_apply_spec(param, tweak_fe(t), seq![w]),
    ));
    assert(seq![w][0] == w);
}

} // verus!
