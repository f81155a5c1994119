//! Tweakable hash, chain walk and Merkle path check of the compact variant
//! with its own compression functions around Plonky3's Poseidon2 permutation.

use crate::compact::tweak::{
    apply_spec, concat, fill_state, path_node, walk_spec, Tweak, HASH_LEN,
    WIDTH_16, WIDTH_24,
};
use crate::koalabear::KoalaBear;
use crate::plonky3::{p3_compress_spec, p3_permute_16, p3_permute_24, pad_to};
use vstd::arithmetic::div_mod::*;
use vstd::arithmetic::power::*;
use vstd::prelude::*;

verus! {

/// Width-16 compression with feed-forward, keeping `HASH_LEN` elements.
fn poseidon_compress_16(input: &[KoalaBear; WIDTH_16]) -> (r: [KoalaBear; HASH_LEN])
    ensures
        r@ == p3_compress_spec(16, input@, HASH_LEN as nat),
{
    let mut state = *input;
    p3_permute_16(&mut state);
    let r = [state[0] + input[0], state[1] + input[1], state[2] + input[2], state[3] + input[3]];
    proof {
        reveal(p3_compress_spec);
        assert(pad_to(input@, 16) =~= input@);
        assert(r@ =~= p3_compress_spec(16, input@, HASH_LEN as nat));
    }
    r
}

/// Width-24 compression with feed-forward, keeping `HASH_LEN` elements.
fn poseidon_compress_24(input: &[KoalaBear; WIDTH_24]) -> (r: [KoalaBear; HASH_LEN])
    ensures
        r@ == p3_compress_spec(24, input@, HASH_LEN as nat),
{
    let mut state = *input;
    p3_permute_24(&mut state);
    let r = [state[0] + input[0], state[1] + input[1], state[2] + input[2], state[3] + input[3]];
    proof {
        reveal(p3_compress_spec);
        assert(pad_to(input@, 24) =~= input@);
        assert(r@ =~= p3_compress_spec(24, input@, HASH_LEN as nat));
    }
    r
}

/// Apply the tweakable hash: width 16 for at most one hash of input,
/// width 24 (input cut to fit) otherwise.
pub fn apply_hash(parameter: &[KoalaBear], tweak: &Tweak, input: &[KoalaBear]) -> (r: Vec<KoalaBear>)
    ensures
        r@ == apply_spec(parameter@, *tweak, input@),
{
    let tweak_elems = tweak.to_field_elements();
    let out = if input.len() <= HASH_LEN {
        let mut state = [KoalaBear(0); WIDTH_16];
        fill_state(&mut state, parameter, &tweak_elems, input);
        poseidon_compress_16(&state)
    } else {
        let mut state = [KoalaBear(0); WIDTH_24];
        fill_state(&mut state, parameter, &tweak_elems, input);
        poseidon_compress_24(&state)
    };
    let r = vec![out[0], out[1], out[2], out[3]];
    proof {
        assert(r@ =~= out@);
    }
    r
}

/// Walk a hash chain from `start_step` for `steps` steps.
pub fn chain_walk(
    parameter: &[KoalaBear],
    epoch: u32,
    chain_index: u32,
    start_step: u32,
    steps: u32,
    start_value: &[KoalaBear],
) -> (r: Vec<KoalaBear>)
    requires
        start_step + steps <= 0x1_0000_0000,
    ensures
        r@ == walk_spec(parameter@, epoch, chain_index, start_step as int, steps as nat, start_value@),
{
    let mut current = concat(start_value, &[]);
    let mut i: u32 = 0;
    while i < steps
        invariant
            start_step + steps <= 0x1_0000_0000,
            i <= steps,
            walk_spec(parameter@, epoch, chain_index, start_step + i, (steps - i) as nat, current@)
                == walk_spec(parameter@, epoch, chain_index, start_step as int, steps as nat, start_value@),
        decreases steps - i,
    {
        let tweak = Tweak::Chain { epoch, chain_index, step: start_step + i };
        current = apply_hash(parameter, &tweak, &current);
        i += 1;
    }
    current
}

/// Whether two slices of field elements are equal.
pub fn elements_eq(a: &[KoalaBear], b: &[KoalaBear]) -> (r: bool)
    ensures
        r == (a@ == b@),
{
    if a.len() != b.len() {
        return false;
    }
    let mut i: usize = 0;
    while i < a.len()
        invariant
            a@.len() == b@.len(),
            i <= a@.len(),
            forall|k: int| 0 <= k < i ==> a@[k] == b@[k],
        decreases a@.len() - i,
    {
        if a[i] != b[i] {
            return false;
        }
        i += 1;
    }
    proof {
        assert(a@ =~= b@);
    }
    true
}

/// The sequences held by a list of vectors.
pub open spec fn vecs_view(v: Seq<Vec<KoalaBear>>) -> Seq<Seq<KoalaBear>> {
    Seq::new(v.len(), |i: int| v[i]@)
}

/// Climb the authentication path from `leaf` at `leaf_index`: at each level
/// hash the current node with its sibling, ordered by the index's low bit,
/// then compare with `expected_root`.
pub fn verify_merkle_path(
    parameter: &[KoalaBear],
    leaf: &[KoalaBear],
    path: &[Vec<KoalaBear>],
    leaf_index: u64,
    expected_root: &[KoalaBear],
) -> (r: bool)
    ensures
        r == (path_node(parameter@, leaf_index, leaf@, vecs_view(path@), path@.len() as nat) == expected_root@),
{
    let ghost pv = vecs_view(path@);
    let mut current = concat(leaf, &[]);
    let mut index = leaf_index;
    let mut level: usize = 0;
    proof {
        lemma_pow0(2);
        lemma_div_basics(leaf_index as int);
    }
    while level < path.len()
        invariant
            pv == vecs_view(path@),
            level <= path@.len(),
            index as int == leaf_index as int / pow(2, level as nat),
            current@ == path_node(parameter@, leaf_index, leaf@, pv, level as nat),
        decreases path@.len() - level,
    {
        let tweak = Tweak::Tree { level: level as u32, position: index / 2 };
        let sibling = &path[level];
        let combined = if index % 2 == 0 {
            concat(&current, sibling)
        } else {
            concat(sibling, &current)
        };
        current = apply_hash(parameter, &tweak, &combined);
        index = index / 2;
        proof {
            lemma_pow_positive(2, level as nat);
            lemma_div_denominator(leaf_index as int, pow(2, level as nat), 2);
            reveal(pow);
            assert(pow(2, (level + 1) as nat) == 2 * pow(2, level as nat));
            vstd::arithmetic::mul::lemma_mul_is_commutative(2, pow(2, level as nat));
        }
        level += 1;
    }
    elements_eq(&current, expected_root)
}

} // verus!
