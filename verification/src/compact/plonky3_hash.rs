//! Tweakable hash, chain walk and Merkle path check of the compact variant
//! over Plonky3's Poseidon2 permutations.

use crate::compact::native_hash::{elements_eq, vecs_view};
use crate::compact::tweak::{apply_spec, concat, fill_state, path_node, walk_spec, Tweak, HASH_LEN, WIDTH_16, WIDTH_24};
use crate::koalabear::KoalaBear;
use crate::plonky3::poseidon_compress;
use vstd::arithmetic::div_mod::*;
use vstd::arithmetic::power::*;
use vstd::prelude::*;

verus! {

/// Apply the tweakable hash: width 16 for at most one hash of input,
/// width 24 (input cut to fit) otherwise.
pub fn apply_hash(parameter: &[KoalaBear], tweak: &Tweak, input: &[KoalaBear]) -> (r: Vec<KoalaBear>)
    ensures
        r@ == apply_spec(parameter@, *tweak, input@),
{
    let tweak_elems = tweak.to_field_elements();
    let out = if input.len() <= HASH_LEN {
        let mut state = [KoalaBear(0); WIDTH_16];
        fill_state(&mut state, parameter, &tweak_elems, input);
        poseidon_compress(16, &state, HASH_LEN)
    } else {
        let mut state = [KoalaBear(0); WIDTH_24];
        fill_state(&mut state, parameter, &tweak_elems, input);
        poseidon_compress(24, &state, HASH_LEN)
    };
    out
}

/// Walk a hash chain from `start_step` for `steps` steps.
pub fn chain_walk(
    parameter: &[KoalaBear],
    epoch: u32,
    chain_index: u32,
    start_step: u32,
    steps: u32,
    start_value: &[KoalaBear],
) -> (r: Vec<KoalaBear>)
    requires
        start_step + steps <= 0x1_0000_0000,
    ensures
        r@ == walk_spec(parameter@, epoch, chain_index, start_step as int, steps as nat, start_value@),
{
    let mut current = concat(start_value, &[]);
    let mut i: u32 = 0;
    while i < steps
        invariant
            start_step + steps <= 0x1_0000_0000,
            i <= steps,
            walk_spec(parameter@, epoch, chain_index, start_step + i, (steps - i) as nat, current@)
                == walk_spec(parameter@, epoch, chain_index, start_step as int, steps as nat, start_value@),
        decreases steps - i,
    {
        let tweak = Tweak::Chain { epoch, chain_index, step: start_step + i };
        current = apply_hash(parameter, &tweak, &current);
        i += 1;
    }
    current
}

/// Climb the authentication path from `leaf` at `leaf_index`: at each level
/// hash the current node with its sibling, ordered by the index's low bit,
/// then compare with `expected_root`.
pub fn verify_merkle_path(
    parameter: &[KoalaBear],
    leaf: &[KoalaBear],
    path: &[Vec<KoalaBear>],
    leaf_index: u64,
    expected_root: &[KoalaBear],
) -> (r: bool)
    ensures
        r == (path_node(parameter@, leaf_index, leaf@, vecs_view(path@), path@.len() as nat) == expected_root@),
{
    let ghost pv = vecs_view(path@);
    let mut current = concat(leaf, &[]);
    let mut index = leaf_index;
    let mut level: usize = 0;
    proof {
        lemma_pow0(2);
        lemma_div_basics(leaf_index as int);
    }
    while level < path.len()
        invariant
            pv == vecs_view(path@),
            level <= path@.len(),
            index as int == leaf_index as int / pow(2, level as nat),
            current@ == path_node(parameter@, leaf_index, leaf@, pv, level as nat),
        decreases path@.len() - level,
    {
        let tweak = Tweak::Tree { level: level as u32, position: index / 2 };
        let sibling = &path[level];
        let combined = if index % 2 == 0 {
            concat(&current, sibling)
        } else {
            concat(sibling, &current)
        };
        current = apply_hash(parameter, &tweak, &combined);
        index = index / 2;
        proof {
            lemma_pow_positive(2, level as nat);
            lemma_div_denominator(leaf_index as int, pow(2, level as nat), 2);
            reveal(pow);
            assert(pow(2, (level + 1) as nat) == 2 * pow(2, level as nat));
            vstd::arithmetic::mul::lemma_mul_is_commutative(2, pow(2, level as nat));
        }
        level += 1;
    }
    elements_eq(&current, expected_root)
}

} // verus!
