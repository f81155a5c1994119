//! Tweakable hash over the Plonky3 permutations, for chains and the Merkle
//! tree of the field-array variant.

use crate::constants::{HASH_LEN, TWEAK_LEN};
use crate::koalabear::KoalaBear;
use crate::openvm::xmss_verify::poseidon_apply;
use crate::plonky3::p3_apply_spec;
use crate::poseidon::{hashes_view, tweak_fe, PoseidonTweak};
use crate::risc0::field::{zeros, FieldArray};
use crate::risc0::types::{hash_list_view, Parameter};
use vstd::prelude::*;

verus! {

/// Capacity of the sponge used for many messages.
pub const CAPACITY: usize = 9;

/// Tweak for the two hash contexts.
#[derive(Clone, Copy, Debug, PartialEq, Eq, Structural)]
pub enum Tweak {
    /// Merkle tree hashing.
    TreeTweak { level: u8, pos_in_level: u32 },
    /// Chain hashing.
    ChainTweak { epoch: u32, chain_index: u8, pos_in_chain: u8 },
}

/// The same tweak in the shared tweak type, whose integer encoding it uses.
pub open spec fn shared_tweak(t: Tweak) -> PoseidonTweak {
    match t {
        Tweak::TreeTweak { level, pos_in_level } => PoseidonTweak::Tree { level, pos_in_level },
        Tweak::ChainTweak { epoch, chain_index, pos_in_chain } => PoseidonTweak::Chain {
            epoch,
            chain_index,
            pos_in_chain,
        },
    }
}

/// The field elements of a tweak.
pub open spec fn tweak_elements(t: Tweak) -> Seq<KoalaBear> {
    tweak_fe(shared_tweak(t))
}

impl Tweak {
    /// The tweak as `TWEAK_LEN` field elements: the base-P digits of the
    /// integer that packs its fields above the domain separator byte.
    pub fn to_field_elements(&self) -> (r: [KoalaBear; TWEAK_LEN])
        ensures
            r@ == tweak_elements(*self),
    {
        let shared = match self {
            Tweak::TreeTweak { level, pos_in_level } => PoseidonTweak::tree(*level, *pos_in_level),
            Tweak::ChainTweak { epoch, chain_index, pos_in_chain } => PoseidonTweak::chain(
                *epoch,
                *chain_index,
                *pos_in_chain,
            ),
        };
        shared.to_field_elements()
    }

    /// A tree tweak.
    pub fn tree_tweak(level: u8, pos_in_level: u32) -> (r: Self)
        ensures
            r == (Tweak::TreeTweak { level, pos_in_level }),
    {
        Tweak::TreeTweak { level, pos_in_level }
    }

    /// A chain tweak.
    pub fn chain_tweak(epoch: u32, chain_index: u8, pos_in_chain: u8) -> (r: Self)
        ensures
            r == (Tweak::ChainTweak { epoch, chain_index, pos_in_chain }),
    {
        Tweak::ChainTweak { epoch, chain_index, pos_in_chain }
    }
}

/// The tweakable hash: the all-zero hash for no message, otherwise the
/// Plonky3-based hash (compression for one or two messages, sponge for more).
pub open spec fn apply_spec(param: Seq<KoalaBear>, t: Tweak, msgs: Seq<Seq<KoalaBear>>) -> Seq<KoalaBear> {
    if msgs.len() == 0 {
        zeros(HASH_LEN as nat)
    } else {
        p3_apply_spec(param, tweak_elements(t), msgs)
    }
}

/// Walk `steps` steps of chain `chain_index` from position `pos`.
pub open spec fn chain_spec(
    param: Seq<KoalaBear>,
    epoch: u32,
    chain_index: u8,
    pos: int,
    steps: nat,
    v: Seq<KoalaBear>,
) -> Seq<KoalaBear>
    decreases steps,
{
    if steps == 0 {
        v
    } else {
        let t = Tweak::ChainTweak { epoch, chain_index, pos_in_chain: (pos + 1) as u8 };
        chain_spec(param, epoch, chain_index, pos + 1, (steps - 1) as nat, apply_spec(param, t, seq![v]))
    }
}

/// Apply the tweakable hash to parameter, tweak and messages.
pub fn apply(parameter: &Parameter, tweak: &Tweak, message: &[crate::risc0::types::Hash]) -> (r: crate::risc0::types::Hash)
    requires
        crate::plonky3::input_fits(message@.len()),
    ensures
        r@ == apply_spec(parameter@, *tweak, hash_list_view(message@)),
{
    if message.len() == 0 {
        return FieldArray::<HASH_LEN>::default();
    }
    let shared = match tweak {
        Tweak::TreeTweak { level, pos_in_level } => PoseidonTweak::tree(*level, *pos_in_level),
        Tweak::ChainTweak { epoch, chain_index, pos_in_chain } => PoseidonTweak::chain(
            *epoch,
            *chain_index,
            *pos_in_chain,
        ),
    };
    let mut arrays: Vec<[KoalaBear; HASH_LEN]> = Vec::new();
    let mut i: usize = 0;
    while i < message.len()
        invariant
            i <= message@.len(),
            arrays@.len() == i,
            forall|k: int| 0 <= k < i ==> #[trigger] arrays@[k] == message@[k].0,
        decreases message@.len() - i,
    {
        arrays.push(message[i].0);
        i += 1;
    }
    proof {
        assert(hashes_view(arrays@) =~= hash_list_view(message@));
    }
    let out = poseidon_apply(parameter.inner(), &shared, arrays.as_slice());
    FieldArray(out)
}

/// Walk a hash chain from `start_pos_in_chain` for `steps` steps; step `j`
/// hashes with the chain tweak at position `start_pos_in_chain + j + 1`.
pub fn chain(
    parameter: &Parameter,
    epoch: u32,
    chain_index: u8,
    start_pos_in_chain: u8,
    steps: usize,
    start: &crate::risc0::types::Hash,
) -> (r: crate::risc0::types::Hash)
    requires
        start_pos_in_chain + steps <= 255,
    ensures
        r@ == chain_spec(parameter@, epoch, chain_index, start_pos_in_chain as int, steps as nat, start@),
{
    let mut current = *start;
    let mut j: usize = 0;
    while j < steps
        invariant
            start_pos_in_chain + steps <= 255,
            j <= steps,
            chain_spec(parameter@, epoch, chain_index, start_pos_in_chain + j, (steps - j) as nat, current@)
                == chain_spec(parameter@, epoch, chain_index, start_pos_in_chain as int, steps as nat, start@),
        decreases steps - j,
    {
        let tweak = Tweak::chain_tweak(epoch, chain_index, start_pos_in_chain + (j as u8) + 1);
        let msgs = [current];
        proof {
            assert(hash_list_view(msgs@) =~= seq![current@]);
        }
        current = apply(parameter, &tweak, &msgs);
        j += 1;
    }
    current
}

/// Distinct tweaks give distinct field elements.
pub proof fn law_tweak_elements_injective(t1: Tweak, t2: Tweak)
    requires
        tweak_elements(t1) == tweak_elements(t2),
    ensures
        t1 == t2,
{
    crate::poseidon::law_tweak_encoding_injective(shared_tweak(t1), shared_tweak(t2));
}

/// Walking a chain `a` steps and then `b` more is walking it `a + b` steps.
pub proof fn law_chain_composes(
    param: Seq<KoalaBear>,
    epoch: u32,
    chain_index: u8,
    pos: int,
    a: nat,
    b: nat,
    v: Seq<KoalaBear>,
)
    ensures
        chain_spec(param, epoch, chain_index, pos + a, b, chain_spec(param, epoch, chain_index, pos, a, v))
            == chain_spec(param, epoch, chain_index, pos, a + b, v),
    decreases a,
{
    if a > 0 {
        let t = Tweak::ChainTweak { epoch, chain_index, pos_in_chain: (pos + 1) as u8 };
        law_chain_composes(param, epoch, chain_index, pos + 1, (a - 1) as nat, b, apply_spec(param, t, seq![v]));
        assert(pos + 1 + (a - 1) == pos + a);
        assert((a - 1) + b == (a + b - 1));
    }
}


/// Step `n` of a chain walk started at position `pos` (the step from
/// position `pos + n` to `pos + n + 1`) is the width-16 compression of the
/// parameter, the chain tweak naming the position the step arrives at, and
/// the value the walk had reached.
pub proof fn law_chain_step_tweak(
    param: Seq<KoalaBear>,
    epoch: u32,
    chain_index: u8,
    pos: int,
    n: nat,
    v: Seq<KoalaBear>,
)
    ensures
        chain_spec(param, epoch, chain_index, pos, n + 1, v) == crate::plonky3::p3_compress_spec(
            16,
            param + tweak_elements(Tweak::ChainTweak { epoch, chain_index, pos_in_chain: (pos + n + 1) as u8 })
                + chain_spec(param, epoch, chain_index, pos, n, v),
            HASH_LEN as nat,
        ),
{
    law_chain_composes(param, epoch, chain_index, pos, n, 1, v);
    let w = chain_spec(param, epoch, chain_index, pos, n, v);
    let t = Tweak::ChainTweak { epoch, chain_index, pos_in_chain: (pos + n + 1) as u8 };
    assert(chain_spec(param, epoch, chain_index, pos + n, 1, w) == chain_spec(
        param,
        epoch,
        chain_index,
        pos + n + 1,
        0,
        apply_spec(param, t, seq![w]),
    ));
    assert(seq![w][0] == w);
}

} // verus!
