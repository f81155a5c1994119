//! Poseidon2 tweakable hash over KoalaBear: tweak encoding, the hash of one,
//! two or many messages, hash-chain walking and Merkle path verification.

use crate::constants::{HASH_LEN, PARAMETER_LEN, TWEAK_LEN};
use crate::koalabear::{kb_add, KoalaBear, P};
use crate::permutation::{
    compress16_spec, compress24_spec, poseidon2_permute_24, poseidon_compress_16_internal, poseidon_compress_24,
    WIDTH_16, WIDTH_24,
};
use crate::plonky3::{
    domain_separator_spec, p3_absorb, p3_add_chunk, p3_apply_spec, p3_compress_spec, p3_permute_spec,
    p3_sponge_spec, p3_squeeze, pad_extra, pad_to_rate, poseidon_safe_domain_separator,
};
use vstd::arithmetic::div_mod::*;
use vstd::arithmetic::power::*;
use vstd::prelude::*;

verus! {

/// Tweak separator for tree hashing.
pub const TWEAK_SEPARATOR_FOR_TREE_HASH: u8 = 0x01;

/// Tweak separator for chain hashing.
pub const TWEAK_SEPARATOR_FOR_CHAIN_HASH: u8 = 0x00;

/// Sponge capacity (in field elements).
pub const SPONGE_CAPACITY: usize = 9;

/// Sponge rate (in field elements).
pub const SPONGE_RATE: usize = 15;

/// Tweak type for domain separation in hash operations.
#[derive(Clone, Copy, Debug, PartialEq, Eq, Structural)]
pub enum PoseidonTweak {
    /// Tree node: (level, position_in_level)
    Tree { level: u8, pos_in_level: u32 },
    /// Chain step: (epoch, chain_index, position_in_chain)
    Chain { epoch: u32, chain_index: u8, pos_in_chain: u8 },
}

/// The tweak as one integer: its fields packed side by side with the
/// domain separator in the low byte.
pub open spec fn tweak_int(t: PoseidonTweak) -> nat {
    match t {
        PoseidonTweak::Tree { level, pos_in_level } => (level as nat) * 0x100_0000_0000 + (pos_in_level as nat)
            * 0x100 + TWEAK_SEPARATOR_FOR_TREE_HASH as nat,
        PoseidonTweak::Chain { epoch, chain_index, pos_in_chain } => (epoch as nat) * 0x100_0000
            + (chain_index as nat) * 0x1_0000 + (pos_in_chain as nat) * 0x100
            + TWEAK_SEPARATOR_FOR_CHAIN_HASH as nat,
    }
}

/// Base-P digits of a value (least significant first), as field elements.
pub open spec fn base_p_digits(v: nat, n: nat) -> Seq<KoalaBear> {
    Seq::new(n, |i: int| KoalaBear(((v as int / pow(P as int, i as nat)) % (P as int)) as u32))
}

/// The tweak as `TWEAK_LEN` field elements: base-P digits of `tweak_int`.
pub open spec fn tweak_fe(t: PoseidonTweak) -> Seq<KoalaBear> {
    base_p_digits(tweak_int(t), TWEAK_LEN as nat)
}

/// Hash of one message: width-16 compression of `parameter || tweak || message || 0 0`.
pub open spec fn apply_one_spec(param: Seq<KoalaBear>, tfe: Seq<KoalaBear>, m: Seq<KoalaBear>) -> Seq<KoalaBear> {
    compress16_spec(param + tfe + m + seq![KoalaBear(0), KoalaBear(0)])
}

/// Hash of two messages: width-24 compression of `parameter || tweak || left || right || 0 0 0`.
pub open spec fn apply_two_spec(
    param: Seq<KoalaBear>,
    tfe: Seq<KoalaBear>,
    l: Seq<KoalaBear>,
    r: Seq<KoalaBear>,
) -> Seq<KoalaBear> {
    compress24_spec(
        param + tfe + l + r + seq![KoalaBear(0), KoalaBear(0), KoalaBear(0)],
        HASH_LEN as nat,
    )
}

/// All messages, one after another.
pub open spec fn flatten(msgs: Seq<Seq<KoalaBear>>) -> Seq<KoalaBear>
    decreases msgs.len(),
{
    if msgs.len() == 0 {
        Seq::empty()
    } else {
        flatten(msgs.drop_last()) + msgs.last()
    }
}

/// Initial sponge state: zero rate; the capacity is the domain separator
/// of the lengths (parameter, tweak, message count, hash).
pub open spec fn sponge_init(n: nat) -> Seq<KoalaBear> {
    let cap = domain_separator_spec(
        seq![PARAMETER_LEN as u32, TWEAK_LEN as u32, n as u32, HASH_LEN as u32],
        SPONGE_CAPACITY as nat,
    );
    Seq::new(24, |i: int| if i < SPONGE_RATE { KoalaBear(0) } else { cap[i - SPONGE_RATE] })
}

/// Add the next chunk of at most `SPONGE_RATE` input elements to the state.
pub open spec fn sponge_add_chunk(state: Seq<KoalaBear>, input: Seq<KoalaBear>, idx: int) -> Seq<KoalaBear> {
    let chunk = if input.len() - idx < SPONGE_RATE { input.len() - idx } else { SPONGE_RATE as int };
    Seq::new(24, |i: int| if i < chunk { kb_add(state[i], input[idx + i]) } else { state[i] })
}

/// Absorb `input[idx..]` chunk by chunk, permuting after each chunk.
pub open spec fn sponge_absorb(state: Seq<KoalaBear>, input: Seq<KoalaBear>, idx: int) -> Seq<KoalaBear>
    decreases input.len() - idx,
{
    if idx >= input.len() || idx < 0 {
        state
    } else {
        let chunk = if input.len() - idx < SPONGE_RATE { input.len() - idx } else { SPONGE_RATE as int };
        sponge_absorb(
            p3_permute_spec(sponge_add_chunk(state, input, idx)),
            input,
            idx + chunk,
        )
    }
}

/// Sponge hash of many messages: absorb `parameter || tweak || messages`,
/// squeeze the first `HASH_LEN` elements.
pub open spec fn sponge_spec(param: Seq<KoalaBear>, tfe: Seq<KoalaBear>, msgs: Seq<Seq<KoalaBear>>) -> Seq<KoalaBear> {
    sponge_absorb(sponge_init(msgs.len()), param + tfe + flatten(msgs), 0).take(HASH_LEN as int)
}

/// The tweakable hash of a list of messages.
pub open spec fn apply_spec(param: Seq<KoalaBear>, tfe: Seq<KoalaBear>, msgs: Seq<Seq<KoalaBear>>) -> Seq<KoalaBear> {
    if msgs.len() == 1 {
        apply_one_spec(param, tfe, msgs[0])
    } else if msgs.len() == 2 {
        apply_two_spec(param, tfe, msgs[0], msgs[1])
    } else {
        sponge_spec(param, tfe, msgs)
    }
}

/// The views of an array of hashes.
pub open spec fn hashes_view(h: Seq<[KoalaBear; HASH_LEN]>) -> Seq<Seq<KoalaBear>> {
    h.map_values(|a: [KoalaBear; HASH_LEN]| a@)
}

/// Walk `steps` steps of chain `chain_index` from position `pos` (value `v`).
pub open spec fn chain_spec(
    param: Seq<KoalaBear>,
    epoch: u32,
    chain_index: u8,
    pos: int,
    steps: nat,
    v: Seq<KoalaBear>,
) -> Seq<KoalaBear>
    decreases steps,
{
    if steps == 0 {
        v
    } else {
        let t = PoseidonTweak::Chain { epoch, chain_index, pos_in_chain: (pos + 1) as u8 };
        chain_spec(param, epoch, chain_index, pos + 1, (steps - 1) as nat, apply_one_spec(param, tweak_fe(t), v))
    }
}

/// Node at level `i` on the path from leaf value `leaf` at position `pos`.
pub open spec fn merkle_node(
    param: Seq<KoalaBear>,
    pos: u32,
    leaf: Seq<KoalaBear>,
    path: Seq<Seq<KoalaBear>>,
    i: nat,
) -> Seq<KoalaBear>
    decreases i,
{
    if i == 0 {
        leaf
    } else {
        let prev = merkle_node(param, pos, leaf, path, (i - 1) as nat);
        let idx = pos as int / pow(2, (i - 1) as nat);
        let sib = path[i - 1];
        let t = PoseidonTweak::Tree { level: i as u8, pos_in_level: (idx / 2) as u32 };
        if idx % 2 == 0 {
            apply_two_spec(param, tweak_fe(t), prev, sib)
        } else {
            apply_two_spec(param, tweak_fe(t), sib, prev)
        }
    }
}

/// The root that a path leads to from a set of chain ends at a position.
pub open spec fn merkle_root_spec(
    param: Seq<KoalaBear>,
    pos: u32,
    leaf_hashes: Seq<Seq<KoalaBear>>,
    path: Seq<Seq<KoalaBear>>,
) -> Seq<KoalaBear> {
    let leaf = apply_spec(param, tweak_fe(PoseidonTweak::Tree { level: 0, pos_in_level: pos }), leaf_hashes);
    merkle_node(param, pos, leaf, path, path.len())
}

impl PoseidonTweak {
    /// A tree tweak.
    pub fn tree(level: u8, pos_in_level: u32) -> (r: Self)
        ensures
            r == (PoseidonTweak::Tree { level, pos_in_level }),
    {
        PoseidonTweak::Tree { level, pos_in_level }
    }

    /// A chain tweak.
    pub fn chain(epoch: u32, chain_index: u8, pos_in_chain: u8) -> (r: Self)
        ensures
            r == (PoseidonTweak::Chain { epoch, chain_index, pos_in_chain }),
    {
        PoseidonTweak::Chain { epoch, chain_index, pos_in_chain }
    }

    /// Convert the tweak to `TWEAK_LEN` field elements (base-P digits).
    pub fn to_field_elements(&self) -> (r: [KoalaBear; TWEAK_LEN])
        ensures
            r@ == tweak_fe(*self),
    {
        let acc: u128 = match self {
            PoseidonTweak::Tree { level, pos_in_level } => {
                let a = ((*level as u128) << 40) | ((*pos_in_level as u128) << 8) | (
                TWEAK_SEPARATOR_FOR_TREE_HASH as u128);
                proof {
                    let l = *level;
                    let p = *pos_in_level;
                    assert(a == (l as u128) * 0x100_0000_0000 + (p as u128) * 0x100 + 1) by (bit_vector)
                        requires
                            a == ((l as u128) << 40) | ((p as u128) << 8) | 1u128,
                    ;
                }
                a
            },
            PoseidonTweak::Chain { epoch, chain_index, pos_in_chain } => {
                let a = ((*epoch as u128) << 24) | ((*chain_index as u128) << 16) | ((
                *pos_in_chain as u128) << 8) | (TWEAK_SEPARATOR_FOR_CHAIN_HASH as u128);
                proof {
                    let e = *epoch;
                    let c = *chain_index;
                    let q = *pos_in_chain;
                    assert(a == (e as u128) * 0x100_0000 + (c as u128) * 0x1_0000 + (q as u128) * 0x100)
                        by (bit_vector)
                        requires
                            a == ((e as u128) << 24) | ((c as u128) << 16) | ((q as u128) << 8) | 0u128,
                    ;
                }
                a
            },
        };
        let ghost v = acc as nat;
        assert(v == tweak_int(*self));
        let d0 = (acc % (P as u128)) as u32;
        let rest = acc / (P as u128);
        let d1 = (rest % (P as u128)) as u32;
        let out = [KoalaBear::new(d0), KoalaBear::new(d1)];
        proof {
            lemma_pow0(P as int);
            lemma_pow1(P as int);
            lemma_div_basics(v as int);
            lemma_mod_twice(v as int, P as int);
            lemma_mod_twice(rest as int, P as int);
            assert(out@ =~= tweak_fe(*self));
        }
        out
    }
}

/// Two hashes are equal, element by element.
pub fn hash_eq(a: &[KoalaBear; HASH_LEN], b: &[KoalaBear; HASH_LEN]) -> (r: bool)
    ensures
        r == (a@ == b@),
{
    let mut i: usize = 0;
    while i < HASH_LEN
        invariant
            i <= HASH_LEN,
            forall|k: int| 0 <= k < i ==> a@[k] == b@[k],
        decreases HASH_LEN - i,
    {
        if a[i] != b[i] {
            proof {
                assert(a@[i as int] != b@[i as int]);
            }
            return false;
        }
        i += 1;
    }
    proof {
        assert(a@ =~= b@);
    }
    true
}

/// Apply the tweakable hash function.
///
/// Uses width-16 for a single message, width-24 for two messages, and the
/// sponge for any other number.
pub fn poseidon_apply(
    parameter: &[KoalaBear; PARAMETER_LEN],
    tweak: &PoseidonTweak,
    messages: &[[KoalaBear; HASH_LEN]],
) -> (r: [KoalaBear; HASH_LEN])
    requires
        PARAMETER_LEN + TWEAK_LEN + messages@.len() * HASH_LEN <= usize::MAX,
    ensures
        r@ == apply_spec(parameter@, tweak_fe(*tweak), hashes_view(messages@)),
{
    let tweak_fe_arr = tweak.to_field_elements();
    let ghost msgs = hashes_view(messages@);
    if messages.len() == 1 {
        let m0 = messages[0];
        let input: [KoalaBear; WIDTH_16] = [
            parameter[0],
            parameter[1],
            parameter[2],
            parameter[3],
            parameter[4],
            tweak_fe_arr[0],
            tweak_fe_arr[1],
            m0[0],
            m0[1],
            m0[2],
            m0[3],
            m0[4],
            m0[5],
            m0[6],
            KoalaBear(0),
            KoalaBear(0),
        ];
        proof {
            assert(input@ =~= parameter@ + tweak_fe(*tweak) + msgs[0] + seq![KoalaBear(0), KoalaBear(0)]);
        }
        poseidon_compress_16_internal(&input)
    } else if messages.len() == 2 {
        let m0 = messages[0];
        let m1 = messages[1];
        let input: [KoalaBear; WIDTH_24] = [
            parameter[0],
            parameter[1],
            parameter[2],
            parameter[3],
            parameter[4],
            tweak_fe_arr[0],
            tweak_fe_arr[1],
            m0[0],
            m0[1],
            m0[2],
            m0[3],
            m0[4],
            m0[5],
            m0[6],
            m1[0],
            m1[1],
            m1[2],
            m1[3],
            m1[4],
            m1[5],
            m1[6],
            KoalaBear(0),
            KoalaBear(0),
            KoalaBear(0),
        ];
        proof {
            assert(input@ =~= parameter@ + tweak_fe(*tweak) + msgs[0] + msgs[1] + seq![
                KoalaBear(0),
                KoalaBear(0),
                KoalaBear(0),
            ]);
        }
        let v = poseidon_compress_24(&input, HASH_LEN);
        let out = [v[0], v[1], v[2], v[3], v[4], v[5], v[6]];
        proof {
            assert(out@ =~= v@);
        }
        out
    } else {
        poseidon_sponge(parameter, &tweak_fe_arr, messages)
    }
}

/// Sponge construction for hashing many messages.
pub fn poseidon_sponge(
    parameter: &[KoalaBear; PARAMETER_LEN],
    tweak: &[KoalaBear; TWEAK_LEN],
    messages: &[[KoalaBear; HASH_LEN]],
) -> (r: [KoalaBear; HASH_LEN])
    requires
        PARAMETER_LEN + TWEAK_LEN + messages@.len() * HASH_LEN <= usize::MAX,
    ensures
        r@ == sponge_spec(parameter@, tweak@, hashes_view(messages@)),
{
    let ghost msgs = hashes_view(messages@);
    // Build input: parameter || tweak || all messages
    let mut input: Vec<KoalaBear> = Vec::new();
    let mut i: usize = 0;
    while i < PARAMETER_LEN
        invariant
            i <= PARAMETER_LEN,
            input@ == parameter@.take(i as int),
        decreases PARAMETER_LEN - i,
    {
        input.push(parameter[i]);
        i += 1;
        proof {
            assert(input@ =~= parameter@.take(i as int));
        }
    }
    let mut i: usize = 0;
    while i < TWEAK_LEN
        invariant
            i <= TWEAK_LEN,
            input@ == parameter@ + tweak@.take(i as int),
        decreases TWEAK_LEN - i,
    {
        input.push(tweak[i]);
        i += 1;
        proof {
            assert(input@ =~= parameter@ + tweak@.take(i as int));
        }
    }
    let mut k: usize = 0;
    proof {
        assert(parameter@.take(PARAMETER_LEN as int) =~= parameter@);
        assert(tweak@.take(TWEAK_LEN as int) =~= tweak@);
        assert(msgs.take(0) =~= Seq::<Seq<KoalaBear>>::empty());
        assert(input@ =~= parameter@ + tweak@ + flatten(msgs.take(0)));
    }
    while k < messages.len()
        invariant
            msgs == hashes_view(messages@),
            k <= messages@.len(),
            input@ == parameter@ + tweak@ + flatten(msgs.take(k as int)),
        decreases messages@.len() - k,
    {
        let m = messages[k];
        let mut j: usize = 0;
        while j < HASH_LEN
            invariant
                msgs == hashes_view(messages@),
                k < messages@.len(),
                m == messages@[k as int],
                j <= HASH_LEN,
                input@ == parameter@ + tweak@ + flatten(msgs.take(k as int)) + m@.take(j as int),
            decreases HASH_LEN - j,
        {
            input.push(m[j]);
            j += 1;
            proof {
                assert(m@.take(j as int) =~= m@.take(j - 1).push(m@[j - 1]));
                assert(input@ =~= parameter@ + tweak@ + flatten(msgs.take(k as int)) + m@.take(j as int));
            }
        }
        proof {
            assert(msgs.take(k + 1).drop_last() =~= msgs.take(k as int));
            assert(m@.take(HASH_LEN as int) =~= m@);
            assert(msgs.take(k + 1).last() == m@);
        }
        k += 1;
    }
    proof {
        assert(msgs.take(messages@.len() as int) =~= msgs);
    }

    // Initialize state with the domain separator in the capacity
    let lengths: [u32; 4] = [PARAMETER_LEN as u32, TWEAK_LEN as u32, messages.len() as u32, HASH_LEN as u32];
    let capacity = poseidon_safe_domain_separator(&lengths, SPONGE_CAPACITY);
    let mut state = [KoalaBear(0); WIDTH_24];
    let mut c: usize = 0;
    while c < SPONGE_CAPACITY
        invariant
            capacity@.len() == SPONGE_CAPACITY,
            c <= SPONGE_CAPACITY,
            forall|k: int| 0 <= k < SPONGE_RATE + c ==> #[trigger] state@[k] == (if k < SPONGE_RATE {
                KoalaBear(0)
            } else {
                capacity@[k - SPONGE_RATE]
            }),
        decreases SPONGE_CAPACITY - c,
    {
        state[SPONGE_RATE + c] = capacity[c];
        c += 1;
    }
    proof {
        assert(lengths@ =~= seq![PARAMETER_LEN as u32, TWEAK_LEN as u32, messages@.len() as u32, HASH_LEN as u32]);
        assert(state@ =~= sponge_init(messages@.len()));
    }

    // Absorb
    let ghost full = input@;
    let mut idx: usize = 0;
    while idx < input.len()
        invariant
            full == input@,
            idx <= input@.len(),
            sponge_absorb(state@, full, idx as int) == sponge_absorb(sponge_init(messages@.len()), full, 0),
        decreases input@.len() - idx,
    {
        let chunk_len = if SPONGE_RATE < input.len() - idx { SPONGE_RATE } else { input.len() - idx };
        let ghost before = state@;
        let mut i: usize = 0;
        while i < chunk_len
            invariant
                full == input@,
                chunk_len <= SPONGE_RATE,
                idx + chunk_len <= input@.len(),
                input@.len() <= usize::MAX,
                before.len() == WIDTH_24,
                i <= chunk_len,
                forall|k: int| 0 <= k < i ==> #[trigger] state@[k] == kb_add(before[k], full[idx + k]),
                forall|k: int| i <= k < WIDTH_24 ==> #[trigger] state@[k] == before[k],
            decreases chunk_len - i,
        {
            state[i] = state[i] + input[idx + i];
            i += 1;
        }
        proof {
            assert(state@ =~= sponge_add_chunk(before, full, idx as int));
        }
        poseidon2_permute_24(&mut state);
        idx += chunk_len;
    }
    proof {
        assert(sponge_absorb(state@, full, idx as int) == state@);
    }

    // Squeeze
    let out = [state[0], state[1], state[2], state[3], state[4], state[5], state[6]];
    proof {
        assert(out@ =~= state@.take(HASH_LEN as int));
    }
    out
}

/// Walk a hash chain from a starting point for a given number of steps.
pub fn chain_walk(
    parameter: &[KoalaBear; PARAMETER_LEN],
    epoch: u32,
    chain_index: u8,
    start_pos: u8,
    steps: usize,
    start_value: &[KoalaBear; HASH_LEN],
) -> (r: [KoalaBear; HASH_LEN])
    requires
        start_pos + steps <= 255,
    ensures
        r@ == chain_spec(parameter@, epoch, chain_index, start_pos as int, steps as nat, start_value@),
{
    let mut current = *start_value;

    if steps == 0 {
        return current;
    }

    let mut offset: usize = 0;
    while offset < steps
        invariant
            start_pos + steps <= 255,
            offset <= steps,
            chain_spec(parameter@, epoch, chain_index, start_pos + offset, (steps - offset) as nat, current@)
                == chain_spec(parameter@, epoch, chain_index, start_pos as int, steps as nat, start_value@),
        decreases steps - offset,
    {
        let tweak = PoseidonTweak::chain(epoch, chain_index, start_pos + offset as u8 + 1);
        let prev = current;
        let msgs = [prev];
        proof {
            assert(hashes_view(msgs@) =~= seq![prev@]);
        }
        current = poseidon_apply(parameter, &tweak, &msgs);
        offset += 1;
    }
    current
}

/// Verify a Merkle authentication path: hash the chain ends into a leaf at
/// `position`, climb the path, compare with `root`.
pub fn verify_merkle_path(
    parameter: &[KoalaBear; PARAMETER_LEN],
    root: &[KoalaBear; HASH_LEN],
    position: u32,
    leaf_hashes: &[[KoalaBear; HASH_LEN]],
    path: &[[KoalaBear; HASH_LEN]],
    tree_height: usize,
) -> (r: bool)
    requires
        path@.len() == tree_height ==> tree_height <= 255,
        PARAMETER_LEN + TWEAK_LEN + leaf_hashes@.len() * HASH_LEN <= usize::MAX,
    ensures
        r == (path@.len() == tree_height && merkle_root_spec(
            parameter@,
            position,
            hashes_view(leaf_hashes@),
            hashes_view(path@),
        ) == root@),
{
    if path.len() != tree_height {
        return false;
    }

    // Hash all chain ends to get the leaf value
    let tweak = PoseidonTweak::tree(0, position);
    let mut current = poseidon_apply(parameter, &tweak, leaf_hashes);
    let ghost leaf = current@;
    let ghost pv = hashes_view(path@);

    let mut idx = position;
    let mut level: usize = 0;
    proof {
        lemma_pow0(2);
        lemma_div_basics(position as int);
    }
    while level < path.len()
        invariant
            path@.len() == tree_height,
            tree_height <= 255,
            pv == hashes_view(path@),
            level <= path@.len(),
            idx as int == position as int / pow(2, level as nat),
            current@ == merkle_node(parameter@, position, leaf, pv, level as nat),
        decreases path@.len() - level,
    {
        let sibling = path[level];
        let bit = idx & 1;
        let ghost idx0 = idx;
        let children = if bit == 0 {
            [current, sibling]
        } else {
            [sibling, current]
        };
        idx = idx >> 1;
        proof {
            assert(bit == idx0 % 2 && idx == idx0 / 2) by (bit_vector)
                requires
                    bit == idx0 & 1,
                    idx == idx0 >> 1,
            ;
            lemma_pow_succ2(level as nat);
            lemma_pow_positive(2, level as nat);
            lemma_div_denominator(position as int, pow(2, level as nat), 2);
            assert(hashes_view(children@) =~= if bit == 0 {
                seq![current@, sibling@]
            } else {
                seq![sibling@, current@]
            });
        }
        let tweak = PoseidonTweak::tree(level as u8 + 1, idx);
        current = poseidon_apply(parameter, &tweak, &children);
        level += 1;
    }
    hash_eq(&current, root)
}

/// `2^(e+1) == 2^e * 2`.
proof fn lemma_pow_succ2(e: nat)
    ensures
        pow(2, e + 1) == pow(2, e) * 2,
{
    reveal(pow);
}

/// Two base-P digits determine a value below `P^2`.
proof fn lemma_two_digits_determine(v: nat, w: nat)
    requires
        v < (P as nat) * (P as nat),
        w < (P as nat) * (P as nat),
        base_p_digits(v, 2) == base_p_digits(w, 2),
    ensures
        v == w,
{
    let m = P as int;
    reveal_with_fuel(pow, 2);
    assert(pow(m, 0) == 1 && pow(m, 1) == m);
    assert(v as int / 1 == v && w as int / 1 == w);
    assert(base_p_digits(v, 2)[0] == base_p_digits(w, 2)[0]);
    assert(base_p_digits(v, 2)[1] == base_p_digits(w, 2)[1]);
    lemma_mod_bound(v as int, m);
    lemma_mod_bound(w as int, m);
    lemma_mod_bound(v as int / m, m);
    lemma_mod_bound(w as int / m, m);
    let a0 = v as int % m;
    let b0 = w as int % m;
    let a1 = (v as int / m) % m;
    let b1 = (w as int / m) % m;
    assert(base_p_digits(v, 2)[0] == KoalaBear(a0 as u32));
    assert(base_p_digits(w, 2)[0] == KoalaBear(b0 as u32));
    assert(base_p_digits(v, 2)[1] == KoalaBear(a1 as u32));
    assert(base_p_digits(w, 2)[1] == KoalaBear(b1 as u32));
    assert(a0 as u32 == b0 as u32);
    assert(a1 as u32 == b1 as u32);
    assert(v as int % m == w as int % m);
    assert((v as int / m) % m == (w as int / m) % m);
    vstd::arithmetic::div_mod::lemma_div_is_ordered(v as int, m * m - 1, m);
    vstd::arithmetic::div_mod::lemma_div_is_ordered(w as int, m * m - 1, m);
    assert((m * m - 1) / m == m - 1) by (nonlinear_arith)
        requires
            m == 2130706433,
    ;
    lemma_small_mod((v as int / m) as nat, m as nat);
    lemma_small_mod((w as int / m) as nat, m as nat);
    lemma_fundamental_div_mod(v as int, m);
    lemma_fundamental_div_mod(w as int, m);
}

/// Every tweak integer is below `P^2`.
proof fn lemma_tweak_int_bound(t: PoseidonTweak)
    ensures
        tweak_int(t) < (P as nat) * (P as nat),
{
    assert((P as nat) * (P as nat) == 4539909903627583489nat) by (nonlinear_arith);
}

/// The tweak encoding is injective: distinct tweaks (tree or chain) give
/// distinct field elements, so hashes in different positions are domain
/// separated.
pub proof fn law_tweak_encoding_injective(t1: PoseidonTweak, t2: PoseidonTweak)
    requires
        tweak_fe(t1) == tweak_fe(t2),
    ensures
        t1 == t2,
{
    lemma_tweak_int_bound(t1);
    lemma_tweak_int_bound(t2);
    lemma_two_digits_determine(tweak_int(t1), tweak_int(t2));
    match (t1, t2) {
        (
            PoseidonTweak::Tree { level: l1, pos_in_level: p1 },
            PoseidonTweak::Tree { level: l2, pos_in_level: p2 },
        ) => {
            assert(l1 * 0x100_0000_0000 + p1 * 0x100 + 1 == l2 * 0x100_0000_0000 + p2 * 0x100 + 1 ==> l1 == l2 && p1
                == p2) by (bit_vector);
        },
        (
            PoseidonTweak::Chain { epoch: e1, chain_index: c1, pos_in_chain: q1 },
            PoseidonTweak::Chain { epoch: e2, chain_index: c2, pos_in_chain: q2 },
        ) => {
            assert(e1 * 0x100_0000 + c1 * 0x1_0000 + q1 * 0x100 == e2 * 0x100_0000 + c2 * 0x1_0000 + q2 * 0x100 ==> e1
                == e2 && c1 == c2 && q1 == q2) by (bit_vector);
        },
        (
            PoseidonTweak::Tree { level: l, pos_in_level: p },
            PoseidonTweak::Chain { epoch: e, chain_index: c, pos_in_chain: q },
        ) => {
            assert(l * 0x100_0000_0000 + p * 0x100 + 1 != e * 0x100_0000 + c * 0x1_0000 + q * 0x100) by (bit_vector);
        },
        (
            PoseidonTweak::Chain { epoch: e, chain_index: c, pos_in_chain: q },
            PoseidonTweak::Tree { level: l, pos_in_level: p },
        ) => {
            assert(l * 0x100_0000_0000 + p * 0x100 + 1 != e * 0x100_0000 + c * 0x1_0000 + q * 0x100) by (bit_vector);
        },
    }
}

/// Walking a chain `a` steps and then `b` more is walking it `a + b` steps.
pub proof fn law_chain_composes(
    param: Seq<KoalaBear>,
    epoch: u32,
    chain_index: u8,
    pos: int,
    a: nat,
    b: nat,
    v: Seq<KoalaBear>,
)
    ensures
        chain_spec(param, epoch, chain_index, pos + a, b, chain_spec(param, epoch, chain_index, pos, a, v))
            == chain_spec(param, epoch, chain_index, pos, a + b, v),
    decreases a,
{
    if a > 0 {
        let t = PoseidonTweak::Chain { epoch, chain_index, pos_in_chain: (pos + 1) as u8 };
        law_chain_composes(param, epoch, chain_index, pos + 1, (a - 1) as nat, b, apply_one_spec(param, tweak_fe(t), v));
        assert(pos + 1 + (a - 1) == pos + a);
        assert((a - 1) + b == (a + b - 1));
    }
}


/// Messages of `HASH_LEN` elements each flatten to `HASH_LEN` elements per message.
proof fn lemma_flatten_len(msgs: Seq<Seq<KoalaBear>>)
    requires
        forall|i: int| 0 <= i < msgs.len() ==> (#[trigger] msgs[i]).len() == HASH_LEN,
    ensures
        flatten(msgs).len() == HASH_LEN * msgs.len(),
    decreases msgs.len(),
{
    if msgs.len() > 0 {
        assert forall|i: int| 0 <= i < msgs.len() - 1 implies (#[trigger] msgs.drop_last()[i]).len() == HASH_LEN by {
            assert(msgs.drop_last()[i] == msgs[i]);
        }
        lemma_flatten_len(msgs.drop_last());
        assert(msgs.last() == msgs[msgs.len() - 1]);
    }
}

/// Every element of a sponge state is canonical.
spec fn state_canonical(s: Seq<KoalaBear>) -> bool {
    s.len() == 24 && forall|i: int| 0 <= i < 24 ==> (#[trigger] s[i]).is_canonical()
}

/// Absorbing chunk by chunk from chunk `k` on, adding only the input's own
/// elements, ends where absorbing the zero-padded input does: the zeros
/// leave canonical values unchanged.
proof fn lemma_absorb_matches_padded(
    init: Seq<KoalaBear>,
    x: Seq<KoalaBear>,
    y: Seq<KoalaBear>,
    nchunks: nat,
    k: nat,
)
    requires
        state_canonical(init),
        y.len() == nchunks * 15,
        x.len() <= nchunks * 15,
        nchunks > 0 ==> x.len() > (nchunks - 1) * 15,
        forall|j: int| 0 <= j < x.len() ==> #[trigger] y[j] == x[j],
        forall|j: int| x.len() <= j < y.len() ==> #[trigger] y[j] == KoalaBear(0),
        k <= nchunks,
    ensures
        sponge_absorb(p3_absorb(init, y, 15, k), x, (k * 15) as int) == p3_absorb(init, y, 15, nchunks),
    decreases nchunks - k,
{
    let st = p3_absorb(init, y, 15, k);
    let idx = (k * 15) as int;
    assert(state_canonical(st)) by {
        if k > 0 {
            let prev = p3_add_chunk(p3_absorb(init, y, 15, (k - 1) as nat), y, 15, (k - 1) as nat);
            assert(st == p3_permute_spec(prev));
            assert forall|i: int| 0 <= i < 24 implies (#[trigger] st[i]).is_canonical() by {
                assert(prev.len() == 24);
            }
        }
    }
    if k < nchunks {
        assert(idx < x.len()) by (nonlinear_arith)
            requires
                k < nchunks,
                nchunks > 0 ==> x.len() > (nchunks - 1) * 15,
                idx == k * 15,
        ;
        let chunk = if x.len() - idx < SPONGE_RATE { x.len() - idx } else { SPONGE_RATE as int };
        let added = sponge_add_chunk(st, x, idx);
        let padded_added = p3_add_chunk(st, y, 15, k);
        assert forall|i: int| 0 <= i < 24 implies #[trigger] added[i] == padded_added[i] by {
            if i < chunk {
                assert(y[k * 15 + i] == x[idx + i]);
            } else if i < 15 {
                assert(x.len() <= k * 15 + i);
                assert(k * 15 + i < y.len()) by (nonlinear_arith)
                    requires
                        k < nchunks,
                        i < 15,
                        y.len() == nchunks * 15,
                ;
                assert(y[k * 15 + i] == KoalaBear(0));
                lemma_small_mod(st[i].0 as nat, P as nat);
            }
        }
        assert(added =~= padded_added);
        let next = p3_permute_spec(padded_added);
        assert(p3_absorb(init, y, 15, k + 1) == next);
        assert(sponge_absorb(st, x, idx) == sponge_absorb(next, x, idx + chunk));
        if chunk < 15 {
            assert(k + 1 == nchunks) by (nonlinear_arith)
                requires
                    idx + chunk == x.len(),
                    chunk < 15,
                    idx == k * 15,
                    k < nchunks,
                    x.len() <= nchunks * 15,
                    x.len() > (nchunks - 1) * 15,
            ;
            assert(sponge_absorb(next, x, idx + chunk) == next);
            assert((k + 1) * 15 >= x.len());
            assert(sponge_absorb(next, x, ((k + 1) * 15) as int) == next);
        } else {
            assert(idx + chunk == (k + 1) * 15);
        }
        lemma_absorb_matches_padded(init, x, y, nchunks, k + 1);
    } else {
        assert(idx >= x.len());
    }
}

/// The shared tweakable hash is the batch verifier's: for a parameter of
/// `PARAMETER_LEN` elements, a tweak of `TWEAK_LEN` elements and messages
/// of `HASH_LEN` elements each, both give the same hash for every number of
/// messages (width-16 compression for one, width-24 for two, the sponge
/// seeded with the domain separator otherwise).
pub proof fn law_apply_matches_batch_hash(param: Seq<KoalaBear>, tfe: Seq<KoalaBear>, msgs: Seq<Seq<KoalaBear>>)
    requires
        param.len() == PARAMETER_LEN,
        tfe.len() == TWEAK_LEN,
        forall|i: int| 0 <= i < msgs.len() ==> (#[trigger] msgs[i]).len() == HASH_LEN,
    ensures
        apply_spec(param, tfe, msgs) == p3_apply_spec(param, tfe, msgs),
{
    reveal(p3_compress_spec);
    if msgs.len() == 1 {
        let x = param + tfe + msgs[0] + seq![KoalaBear(0), KoalaBear(0)];
        assert(crate::plonky3::pad_to(param + tfe + msgs[0], 16) =~= x);
        assert(apply_one_spec(param, tfe, msgs[0]) =~= p3_compress_spec(16, param + tfe + msgs[0], HASH_LEN as nat));
    } else if msgs.len() == 2 {
        let x = param + tfe + msgs[0] + msgs[1] + seq![KoalaBear(0), KoalaBear(0), KoalaBear(0)];
        assert(crate::permutation::pad24(x) =~= x);
        assert(crate::plonky3::pad_to(param + tfe + msgs[0] + msgs[1], 24) =~= x);
        assert(apply_two_spec(param, tfe, msgs[0], msgs[1]) =~= p3_compress_spec(
            24,
            param + tfe + msgs[0] + msgs[1],
            HASH_LEN as nat,
        ));
    } else {
        reveal(p3_sponge_spec);
        let cap = domain_separator_spec(
            seq![PARAMETER_LEN as u32, TWEAK_LEN as u32, msgs.len() as u32, HASH_LEN as u32],
            SPONGE_CAPACITY as nat,
        );
        assert(cap.len() == 9);
        let x = param + tfe + flatten(msgs);
        lemma_flatten_len(msgs);
        let len = x.len() as int;
        assert(len == 7 + 7 * msgs.len());
        let y = pad_to_rate(x, 15);
        let init = sponge_init(msgs.len());
        let p3_init = Seq::new(24, |i: int| if i < 15 { KoalaBear(0) } else { cap[i - 15] });
        assert(init =~= p3_init);
        assert(state_canonical(init)) by {
            assert forall|i: int| 0 <= i < 24 implies (#[trigger] init[i]).is_canonical() by {
                if i >= 15 {
                    assert(cap[i - 15] == init[i]);
                }
            }
        }
        let q = len / 15;
        let r = len % 15;
        lemma_fundamental_div_mod(len, 15);
        let nchunks: nat = if r == 0 { q as nat } else { (q + 1) as nat };
        assert(pad_extra(len, 15) == if r == 0 { 0 } else { 15 - r });
        assert(y.len() == nchunks * 15);
        assert(y.len() as int / 15 == nchunks as int) by {
            lemma_div_by_multiple(nchunks as int, 15);
        }
        assert(nchunks > 0 ==> len > (nchunks - 1) * 15);
        assert forall|j: int| 0 <= j < x.len() implies #[trigger] y[j] == x[j] by {}
        assert forall|j: int| x.len() <= j < y.len() implies #[trigger] y[j] == KoalaBear(0) by {}
        lemma_absorb_matches_padded(init, x, y, nchunks, 0);
        let absorbed = p3_absorb(init, y, 15, nchunks);
        assert(sponge_absorb(init, x, 0) == absorbed);
        assert(p3_squeeze(absorbed, 15, HASH_LEN as int) == absorbed.take(15));
        assert(sponge_spec(param, tfe, msgs) =~= p3_sponge_spec(cap, x, HASH_LEN as nat));
    }
}


/// Step `n` of a chain walk started at position `pos` (the step from
/// position `pos + n` to `pos + n + 1`) is the width-16 compression of the
/// parameter, the chain tweak naming the position the step arrives at, the
/// value the walk had reached and two zeros: one step from position `p`
/// uses the tweak at position `p + 1`.
pub proof fn law_chain_step_tweak(
    param: Seq<KoalaBear>,
    epoch: u32,
    chain_index: u8,
    pos: int,
    n: nat,
    v: Seq<KoalaBear>,
)
    ensures
        chain_spec(param, epoch, chain_index, pos, n + 1, v) == compress16_spec(
            param + tweak_fe(PoseidonTweak::Chain { epoch, chain_index, pos_in_chain: (pos + n + 1) as u8 })
                + chain_spec(param, epoch, chain_index, pos, n, v) + seq![KoalaBear(0), KoalaBear(0)],
        ),
{
    law_chain_composes(param, epoch, chain_index, pos, n, 1, v);
    let w = chain_spec(param, epoch, chain_index, pos, n, v);
    let t = PoseidonTweak::Chain { epoch, chain_index, pos_in_chain: (pos + n + 1) as u8 };
    assert(chain_spec(param, epoch, chain_index, pos + n, 1, w) == chain_spec(
        param,
        epoch,
        chain_index,
        pos + n + 1,
        0,
        apply_one_spec(param, tweak_fe(t), w),
    ));
}

} // verus!
