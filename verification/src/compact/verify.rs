//! Signature verification of the compact variant (Plonky3 permutations):
//! encode the message, walk each chain to its end, fold the ends into the
//! leaf with a sponge, and climb the authentication path.

use crate::compact::encoding::{chunks_spec, encode, target_sum_outcome};
use crate::compact::native_hash::vecs_view;
use crate::compact::plonky3_hash::{chain_walk, verify_merkle_path};
use crate::compact::tweak::{concat, path_node, walk_spec, HASH_LEN, PARAMETER_LEN, WIDTH_24};
use crate::compact::types::{PublicKey, Signature, VerifyInput};
use crate::constants::MESSAGE_LENGTH;
use crate::koalabear::{kb, kb_add, KoalaBear, P};
use crate::plonky3::{
    p3_absorb, p3_add_chunk, p3_permute_24, p3_permute_spec, p3_sponge_spec, p3_squeeze, pad_extra, pad_to_rate,
};
use crate::poseidon::flatten;
use vstd::arithmetic::div_mod::*;
use vstd::arithmetic::mul::*;
use vstd::prelude::*;

verus! {

/// Rate of the leaf sponge.
pub const SPONGE_RATE: usize = 20;

/// The chain ends: chain `i` walked from step `encoded[i]` for the
/// `255 - encoded[i]` steps left.
pub open spec fn chain_ends_spec(
    param: Seq<KoalaBear>,
    epoch: u32,
    encoded: Seq<u8>,
    hashes: Seq<Seq<KoalaBear>>,
) -> Seq<Seq<KoalaBear>> {
    Seq::new(
        encoded.len(),
        |i: int| walk_spec(param, epoch, i as u32, encoded[i] as int, (255 - encoded[i]) as nat, hashes[i]),
    )
}

/// The sponge input: the parameter (at most `PARAMETER_LEN` elements) and
/// every chain end.
pub open spec fn leaf_input(param: Seq<KoalaBear>, ends: Seq<Seq<KoalaBear>>) -> Seq<KoalaBear> {
    let n = if param.len() < PARAMETER_LEN { param.len() } else { PARAMETER_LEN as nat };
    param.take(n as int) + flatten(ends)
}

/// Initial sponge state: zero rate; the capacity starts with the number of
/// ends and the hash length.
pub open spec fn leaf_init(count: nat) -> Seq<KoalaBear> {
    Seq::new(
        WIDTH_24 as nat,
        |i: int|
            if i == SPONGE_RATE {
                kb((count as u32) as int)
            } else if i == SPONGE_RATE + 1 {
                kb(HASH_LEN as int)
            } else {
                KoalaBear(0)
            },
    )
}

/// Add chunk `k` of the input (what is left of it, at most `SPONGE_RATE`
/// elements) into the rate part.
pub open spec fn add_chunk(state: Seq<KoalaBear>, input: Seq<KoalaBear>, k: nat) -> Seq<KoalaBear> {
    Seq::new(
        WIDTH_24 as nat,
        |i: int|
            if i < SPONGE_RATE && k * SPONGE_RATE + i < input.len() {
                kb_add(state[i], input[k * SPONGE_RATE + i])
            } else {
                state[i]
            },
    )
}

/// Absorb the first `k` chunks, permuting after each.
pub open spec fn absorb(state: Seq<KoalaBear>, input: Seq<KoalaBear>, k: nat) -> Seq<KoalaBear>
    decreases k,
{
    if k == 0 {
        state
    } else {
        p3_permute_spec(add_chunk(absorb(state, input, (k - 1) as nat), input, (k - 1) as nat))
    }
}

/// The leaf: absorb every chunk of the input and keep `HASH_LEN` elements.
pub open spec fn combine_spec(param: Seq<KoalaBear>, ends: Seq<Seq<KoalaBear>>) -> Seq<KoalaBear> {
    let input = leaf_input(param, ends);
    let chunks = ((input.len() + SPONGE_RATE - 1) / (SPONGE_RATE as int)) as nat;
    absorb(leaf_init(ends.len()), input, chunks).take(HASH_LEN as int)
}

/// Whether a signature is valid: the encoding reaches the target sum, and
/// the path from the leaf of the chain ends at the epoch leads to the root.
pub open spec fn signature_valid(pk: PublicKey, epoch: u32, message: Seq<u8>, sig: Signature) -> bool {
    match target_sum_outcome(chunks_spec(epoch, sig.rho@, message)) {
        Ok(chunks) => {
            let param = pk.parameter@;
            let ends = chain_ends_spec(param, epoch, chunks, vecs_view(sig.hashes@));
            let leaf = combine_spec(param, ends);
            &&& sig.hashes@.len() >= chunks.len()
            &&& path_node(param, epoch as u64, leaf, vecs_view(sig.path@), sig.path@.len() as nat) == pk.root@
        },
        Err(_) => false,
    }
}

/// Verify an XMSS signature: `true` if it is valid, `false` otherwise
/// (among others when it holds fewer chain hashes than the encoding has
/// chunks).
pub fn verify_signature(pk: &PublicKey, epoch: u32, message: &[u8; MESSAGE_LENGTH], sig: &Signature) -> (r: bool)
    ensures
        r == signature_valid(*pk, epoch, message@, *sig),
{
    let encoded = match encode(epoch, &sig.rho, message) {
        Ok(chunks) => chunks,
        Err(_) => return false,
    };
    if sig.hashes.len() < encoded.len() {
        return false;
    }
    let chain_endpoints = reconstruct_chain_endpoints(&pk.parameter, epoch, &encoded, &sig.hashes);
    let leaf = combine_chain_endpoints(&pk.parameter, &chain_endpoints);
    let leaf_index = epoch as u64;
    verify_merkle_path(&pk.parameter, &leaf, &sig.path, leaf_index, &pk.root)
}

/// Walk each chain from the step its chunk gives to the end of the chain.
fn reconstruct_chain_endpoints(
    parameter: &[KoalaBear],
    epoch: u32,
    encoded: &[u8],
    sig_hashes: &[Vec<KoalaBear>],
) -> (r: Vec<Vec<KoalaBear>>)
    requires
        encoded@.len() <= sig_hashes@.len(),
    ensures
        vecs_view(r@) == chain_ends_spec(parameter@, epoch, encoded@, vecs_view(sig_hashes@)),
{
    let ghost hv = vecs_view(sig_hashes@);
    let mut endpoints: Vec<Vec<KoalaBear>> = Vec::new();
    let mut i: usize = 0;
    while i < encoded.len()
        invariant
            hv == vecs_view(sig_hashes@),
            encoded@.len() <= sig_hashes@.len(),
            i <= encoded@.len(),
            endpoints@.len() == i,
            forall|j: int|
                0 <= j < i ==> #[trigger] endpoints@[j]@ == walk_spec(parameter@,
                    epoch,
                    j as u32,
                    encoded@[j] as int,
                    (255 - encoded@[j]) as nat,
                    hv[j],
                ),
        decreases encoded@.len() - i,
    {
        let steps_done = encoded[i];
        let remaining_steps = 255u32 - steps_done as u32;
        let endpoint = chain_walk(parameter, epoch, i as u32, steps_done as u32, remaining_steps, &sig_hashes[i]);
        endpoints.push(endpoint);
        i += 1;
    }
    proof {
        assert(vecs_view(endpoints@) =~= chain_ends_spec(parameter@, epoch, encoded@, hv));
    }
    endpoints
}

/// Flatten the parameter and the chain ends into the sponge input.
fn leaf_input_vec(parameter: &[KoalaBear], endpoints: &[Vec<KoalaBear>]) -> (r: Vec<KoalaBear>)
    ensures
        r@ == leaf_input(parameter@, vecs_view(endpoints@)),
{
    let n = if parameter.len() < PARAMETER_LEN { parameter.len() } else { PARAMETER_LEN };
    let mut input: Vec<KoalaBear> = Vec::new();
    let mut i: usize = 0;
    while i < n
        invariant
            n <= parameter@.len(),
            i <= n,
            input@ == parameter@.take(i as int),
        decreases n - i,
    {
        input.push(parameter[i]);
        i += 1;
        proof {
            assert(input@ =~= parameter@.take(i as int));
        }
    }
    let ghost ev = vecs_view(endpoints@);
    let mut k: usize = 0;
    proof {
        assert(ev.take(0) =~= Seq::<Seq<KoalaBear>>::empty());
    }
    while k < endpoints.len()
        invariant
            ev == vecs_view(endpoints@),
            k <= endpoints@.len(),
            input@ == parameter@.take(n as int) + flatten(ev.take(k as int)),
        decreases endpoints@.len() - k,
    {
        let before = input;
        input = concat(&before, &endpoints[k]);
        proof {
            assert(ev.take(k + 1).drop_last() =~= ev.take(k as int));
            assert(ev.take(k + 1).last() == endpoints@[k as int]@);
        }
        k += 1;
    }
    proof {
        assert(ev.take(endpoints@.len() as int) =~= ev);
    }
    input
}

/// Fold the chain ends into the leaf with a width-24 sponge of rate 20.
fn combine_chain_endpoints(parameter: &[KoalaBear], endpoints: &[Vec<KoalaBear>]) -> (r: Vec<KoalaBear>)
    ensures
        r@ == combine_spec(parameter@, vecs_view(endpoints@)),
{
    let input = leaf_input_vec(parameter, endpoints);
    let mut state = [KoalaBear(0); WIDTH_24];
    state[SPONGE_RATE] = KoalaBear::new(endpoints.len() as u32);
    state[SPONGE_RATE + 1] = KoalaBear::new(HASH_LEN as u32);
    let ghost init = state@;
    proof {
        assert(init =~= leaf_init(endpoints@.len() as nat));
    }
    let len = input.len();
    let mut offset: usize = 0;
    let mut k: usize = 0;
    while offset < len
        invariant
            len == input@.len(),
            offset <= len,
            offset == k * SPONGE_RATE || (offset == len && k > 0 && (k - 1) * SPONGE_RATE < len),
            offset < len ==> offset == k * SPONGE_RATE,
            offset <= k * SPONGE_RATE,
            state@ == absorb(init, input@, k as nat),
        decreases len - offset,
    {
        let ghost s0 = state@;
        let mut i: usize = 0;
        while i < SPONGE_RATE
            invariant
                len == input@.len(),
                offset < len,
                offset == k * SPONGE_RATE,
                i <= SPONGE_RATE,
                forall|j: int| 0 <= j < i ==> #[trigger] state@[j] == add_chunk(s0, input@, k as nat)[j],
                forall|j: int| i <= j < WIDTH_24 ==> #[trigger] state@[j] == s0[j],
            decreases SPONGE_RATE - i,
        {
            if i < len - offset {
                state[i] = state[i] + input[offset + i];
            }
            i += 1;
        }
        proof {
            assert(state@ =~= add_chunk(s0, input@, k as nat));
        }
        let step = if len - offset < SPONGE_RATE { len - offset } else { SPONGE_RATE };
        offset = offset + step;
        p3_permute_24(&mut state);
        k += 1;
    }
    proof {
        let il = input@.len() as int;
        assert(k == (il + SPONGE_RATE - 1) / (SPONGE_RATE as int)) by {
            if k > 0 {
                lemma_fundamental_div_mod(il + SPONGE_RATE - 1, SPONGE_RATE as int);
                assert((k - 1) * SPONGE_RATE < il);
                assert(k * SPONGE_RATE >= il);
                lemma_div_is_ordered((k * SPONGE_RATE) as int, il + SPONGE_RATE - 1, SPONGE_RATE as int);
                lemma_div_multiples_vanish(k as int, SPONGE_RATE as int);
                lemma_div_is_ordered(il + SPONGE_RATE - 1, (k * SPONGE_RATE + SPONGE_RATE - 1) as int, SPONGE_RATE as int);
                lemma_div_plus_one_bound(k as int);
            } else {
                assert(il == 0);
            }
        }
    }
    let r = vec![state[0], state[1], state[2], state[3]];
    proof {
        assert(r@ =~= state@.take(HASH_LEN as int));
    }
    r
}

/// `(20 k + 19) / 20 == k`.
proof fn lemma_div_plus_one_bound(k: int)
    requires
        k >= 0,
    ensures
        (k * 20 + 19) / 20 == k,
{
    lemma_fundamental_div_mod(k * 20 + 19, 20);
    assert((k * 20 + 19) / 20 == k) by (nonlinear_arith)
        requires
            k >= 0,
    ;
}

/// Verify the signature held in a verification input.
pub fn verify_from_input(input: &VerifyInput) -> (r: bool)
    ensures
        r == signature_valid(input.public_key, input.epoch, input.message@, input.signature),
{
    verify_signature(&input.public_key, input.epoch, &input.message, &input.signature)
}


/// Absorbing the first `k` chunks, adding only the input's own elements,
/// gives the state that absorbing the zero-padded input gives: the zeros
/// leave the canonical state values unchanged.
proof fn lemma_absorb_matches_padded(init: Seq<KoalaBear>, x: Seq<KoalaBear>, y: Seq<KoalaBear>, nchunks: nat, k: nat)
    requires
        init.len() == 24,
        forall|i: int| 0 <= i < 24 ==> (#[trigger] init[i]).is_canonical(),
        y.len() == nchunks * 20,
        x.len() <= y.len(),
        forall|j: int| 0 <= j < x.len() ==> #[trigger] y[j] == x[j],
        forall|j: int| x.len() <= j < y.len() ==> #[trigger] y[j] == KoalaBear(0),
        k <= nchunks,
    ensures
        absorb(init, x, k) == p3_absorb(init, y, 20, k),
        forall|i: int| 0 <= i < 24 ==> (#[trigger] absorb(init, x, k)[i]).is_canonical(),
        absorb(init, x, k).len() == 24,
    decreases k,
{
    if k > 0 {
        let km = (k - 1) as nat;
        lemma_absorb_matches_padded(init, x, y, nchunks, km);
        let st = absorb(init, x, km);
        let added = add_chunk(st, x, km);
        let padded_added = p3_add_chunk(st, y, 20, km);
        assert forall|i: int| 0 <= i < 24 implies #[trigger] added[i] == padded_added[i] by {
            if i < 20 {
                assert(km * 20 + i < y.len()) by (nonlinear_arith)
                    requires
                        km < nchunks,
                        0 <= i < 20,
                        y.len() == nchunks * 20,
                ;
                if km * 20 + i >= x.len() {
                    assert(y[km * 20 + i] == KoalaBear(0));
                    lemma_small_mod(st[i].0 as nat, P as nat);
                }
            }
        }
        assert(added =~= padded_added);
        assert(absorb(init, x, k) == p3_permute_spec(added));
    }
}

/// The leaf is Plonky3's sponge over `parameter || chain ends` (rate 20)
/// whose capacity holds the number of chain ends, then `HASH_LEN`, then
/// zeros: the first capacity element counts the ends.
pub proof fn law_leaf_is_sponge(param: Seq<KoalaBear>, ends: Seq<Seq<KoalaBear>>)
    ensures
        combine_spec(param, ends) == p3_sponge_spec(
            seq![kb((ends.len() as u32) as int), kb(HASH_LEN as int), KoalaBear(0), KoalaBear(0)],
            leaf_input(param, ends),
            HASH_LEN as nat,
        ),
{
    reveal(p3_sponge_spec);
    let cap = seq![kb((ends.len() as u32) as int), kb(HASH_LEN as int), KoalaBear(0), KoalaBear(0)];
    let x = leaf_input(param, ends);
    let y = pad_to_rate(x, 20);
    let init = leaf_init(ends.len());
    let p3_init = Seq::new(24, |i: int| if i < 20 { KoalaBear(0) } else { cap[i - 20] });
    assert(init =~= p3_init);
    let len = x.len() as int;
    let q = len / 20;
    let r = len % 20;
    lemma_fundamental_div_mod(len, 20);
    let nchunks: nat = if r == 0 { q as nat } else { (q + 1) as nat };
    assert(y.len() == nchunks * 20);
    assert(y.len() as int / 20 == nchunks as int) by {
        lemma_div_by_multiple(nchunks as int, 20);
    }
    assert((len + SPONGE_RATE - 1) / (SPONGE_RATE as int) == nchunks as int) by {
        lemma_fundamental_div_mod(len + 19, 20);
    }
    assert forall|j: int| 0 <= j < x.len() implies #[trigger] y[j] == x[j] by {}
    assert forall|j: int| x.len() <= j < y.len() implies #[trigger] y[j] == KoalaBear(0) by {}
    lemma_absorb_matches_padded(init, x, y, nchunks, nchunks);
    let absorbed = p3_absorb(p3_init, y, 20, nchunks);
    assert(p3_squeeze(absorbed, 20, HASH_LEN as int) == absorbed.take(20));
    assert(combine_spec(param, ends) =~= p3_sponge_spec(cap, x, HASH_LEN as nat));
}

} // verus!
