//! The Poseidon2 permutations over KoalaBear (widths 16 and 24) are
//! Plonky3's, as leanSig uses them; this module holds the compression
//! functions of the shared verifier built on them.

use crate::constants::HASH_LEN;
use crate::koalabear::{kb_add, KoalaBear};
use crate::plonky3::{p3_permute_16, p3_permute_24, p3_permute_spec};
use vstd::prelude::*;

verus! {

/// Permutation width for compression of a single message.
pub const WIDTH_16: usize = 16;

/// Permutation width for tree operations (two messages) and the sponge.
pub const WIDTH_24: usize = 24;

/// Width-16 compression: permutation plus feed-forward, truncated to `HASH_LEN`.
pub open spec fn compress16_spec(input: Seq<KoalaBear>) -> Seq<KoalaBear> {
    let p = p3_permute_spec(input);
    Seq::new(HASH_LEN as nat, |i: int| kb_add(p[i], input[i]))
}

/// The input zero-padded (or cut) to 24 elements.
pub open spec fn pad24(input: Seq<KoalaBear>) -> Seq<KoalaBear> {
    Seq::new(24, |i: int| if i < input.len() { input[i] } else { KoalaBear(0) })
}

/// Width-24 compression of a slice: pad, permute, feed forward the copied
/// part, truncate to `out_len`.
pub open spec fn compress24_spec(input: Seq<KoalaBear>, out_len: nat) -> Seq<KoalaBear> {
    let padded = pad24(input);
    let p = p3_permute_spec(padded);
    Seq::new(out_len, |i: int| if i < input.len() { kb_add(p[i], padded[i]) } else { p[i] })
}

/// The Poseidon2 width-24 permutation (Plonky3's) applied in place.
pub fn poseidon2_permute_24(state: &mut [KoalaBear; WIDTH_24])
    ensures
        final(state)@ == p3_permute_spec(old(state)@),
{
    p3_permute_24(state);
}

/// Poseidon2 compression with feed-forward for width 16.
pub fn poseidon_compress_16_internal(input: &[KoalaBear; WIDTH_16]) -> (r: [KoalaBear; HASH_LEN])
    ensures
        r@ == compress16_spec(input@),
{
    let mut state = *input;
    p3_permute_16(&mut state);
    let ghost p = state@;
    let mut i: usize = 0;
    while i < WIDTH_16
        invariant
            i <= WIDTH_16,
            p.len() == WIDTH_16,
            forall|k: int| 0 <= k < i ==> #[trigger] state@[k] == kb_add(p[k], input@[k]),
            forall|k: int| i <= k < WIDTH_16 ==> #[trigger] state@[k] == p[k],
        decreases WIDTH_16 - i,
    {
        state[i] = state[i] + input[i];
        i += 1;
    }
    let output = [state[0], state[1], state[2], state[3], state[4], state[5], state[6]];
    proof {
        assert(output@ =~= compress16_spec(input@));
    }
    output
}

/// Poseidon2 compression with feed-forward for width 24; returns the first
/// `out_len` elements.
pub fn poseidon_compress_24(input: &[KoalaBear], out_len: usize) -> (r: Vec<KoalaBear>)
    requires
        input@.len() >= out_len,
        out_len <= WIDTH_24,
    ensures
        r@ == compress24_spec(input@, out_len as nat),
{
    let mut padded = [KoalaBear(0); WIDTH_24];
    let copy_len = if input.len() < WIDTH_24 { input.len() } else { WIDTH_24 };
    let mut i: usize = 0;
    while i < copy_len
        invariant
            copy_len <= WIDTH_24,
            copy_len <= input@.len(),
            copy_len == input@.len() || copy_len == WIDTH_24,
            i <= copy_len,
            forall|k: int| 0 <= k < i ==> #[trigger] padded@[k] == input@[k],
            forall|k: int| i <= k < WIDTH_24 ==> #[trigger] padded@[k] == KoalaBear(0),
        decreases copy_len - i,
    {
        padded[i] = input[i];
        i += 1;
    }
    proof {
        assert(padded@ =~= pad24(input@));
    }
    let mut state = padded;
    p3_permute_24(&mut state);
    let ghost p = state@;
    let mut i: usize = 0;
    while i < copy_len
        invariant
            copy_len <= WIDTH_24,
            copy_len == input@.len() || copy_len == WIDTH_24,
            copy_len <= input@.len(),
            i <= copy_len,
            p.len() == WIDTH_24,
            padded@ == pad24(input@),
            forall|k: int| 0 <= k < i ==> #[trigger] state@[k] == kb_add(p[k], padded@[k]),
            forall|k: int| i <= k < WIDTH_24 ==> #[trigger] state@[k] == p[k],
        decreases copy_len - i,
    {
        state[i] = state[i] + padded[i];
        i += 1;
    }
    let mut output: Vec<KoalaBear> = Vec::new();
    let mut i: usize = 0;
    while i < out_len
        invariant
            out_len <= WIDTH_24,
            out_len <= input@.len(),
            copy_len <= WIDTH_24,
            copy_len == input@.len() || copy_len == WIDTH_24,
            i <= out_len,
            output@.len() == i,
            padded@ == pad24(input@),
            forall|k: int| 0 <= k < copy_len ==> #[trigger] state@[k] == kb_add(p[k], padded@[k]),
            forall|k: int| copy_len <= k < WIDTH_24 ==> #[trigger] state@[k] == p[k],
            forall|k: int| 0 <= k < i ==> #[trigger] output@[k] == state@[k],
        decreases out_len - i,
    {
        output.push(state[i]);
        i += 1;
    }
    proof {
        assert(p == p3_permute_spec(pad24(input@)));
        assert(output@ =~= compress24_spec(input@, out_len as nat));
    }
    output
}

} // verus!
