//! Tweaks, input layout and the hash specifications shared by both
//! permutation flavours of the compact variant.

use crate::koalabear::{kb, KoalaBear, P};
use crate::plonky3::p3_compress_spec;
use vstd::arithmetic::power::*;
use vstd::prelude::*;

verus! {

/// Permutation width for one message.
pub const WIDTH_16: usize = 16;

/// Permutation width for two messages.
pub const WIDTH_24: usize = 24;

/// Hash output length in field elements.
pub const HASH_LEN: usize = 4;

/// Parameter length in field elements.
pub const PARAMETER_LEN: usize = 4;

/// Tweak length in field elements.
pub const TWEAK_LEN: usize = 3;

/// Tweak for domain separation in hash operations.
#[derive(Clone, Copy, Debug, PartialEq, Eq, Structural)]
pub enum Tweak {
    /// Tree node at (level, position).
    Tree { level: u32, position: u64 },
    /// Chain step at (epoch, chain index, step).
    Chain { epoch: u32, chain_index: u32, step: u32 },
}

/// The tweak's field elements: separator 1, level and position (cut to 32
/// bits) for a tree node; `0x20000` plus the low 16 bits of the epoch, the
/// chain index and the step for a chain step. Each is reduced modulo P.
pub open spec fn tweak_elements(t: Tweak) -> Seq<KoalaBear> {
    match t {
        Tweak::Tree { level, position } => seq![kb(1), kb(level as int), kb((position as u32) as int)],
        Tweak::Chain { epoch, chain_index, step } => seq![
            kb(0x2_0000 + epoch as int % 0x1_0000),
            kb(chain_index as int),
            kb(step as int),
        ],
    }
}

/// The range on which the encoding is one to one: every field below P, and
/// an epoch below `2^16` (only its low 16 bits are encoded).
pub open spec fn tweak_in_range(t: Tweak) -> bool {
    match t {
        Tweak::Tree { level, position } => level < P && position < P,
        Tweak::Chain { epoch, chain_index, step } => epoch < 0x1_0000 && chain_index < P && step < P,
    }
}

impl Tweak {
    /// Convert the tweak to `TWEAK_LEN` field elements.
    pub fn to_field_elements(&self) -> (r: [KoalaBear; TWEAK_LEN])
        ensures
            r@ == tweak_elements(*self),
    {
        match self {
            Tweak::Tree { level, position } => {
                let r = [KoalaBear::new(0x01), KoalaBear::new(*level), KoalaBear::new(*position as u32)];
                proof {
                    assert(r@ =~= tweak_elements(*self));
                }
                r
            },
            Tweak::Chain { epoch, chain_index, step } => {
                let e = *epoch;
                let packed = 0x02_0000 | (e & 0xFFFF);
                proof {
                    assert(packed == 0x2_0000 + e % 0x1_0000) by (bit_vector)
                        requires
                            packed == 0x02_0000u32 | (e & 0xFFFFu32),
                    ;
                }
                let r = [KoalaBear::new(packed), KoalaBear::new(*chain_index), KoalaBear::new(*step)];
                proof {
                    assert(r@ =~= tweak_elements(*self));
                }
                r
            },
        }
    }
}

/// The permutation input: the parameter (its first `PARAMETER_LEN`
/// elements, zeros where it is shorter), the tweak, then the message, cut
/// or zero-padded to `width`.
pub open spec fn hash_state(width: nat, param: Seq<KoalaBear>, tfe: Seq<KoalaBear>, input: Seq<KoalaBear>) -> Seq<KoalaBear> {
    Seq::new(
        width,
        |i: int|
            if i < PARAMETER_LEN {
                if i < param.len() {
                    param[i]
                } else {
                    KoalaBear(0)
                }
            } else if i < PARAMETER_LEN + TWEAK_LEN {
                tfe[i - PARAMETER_LEN]
            } else if i - (PARAMETER_LEN + TWEAK_LEN) < input.len() {
                input[i - (PARAMETER_LEN + TWEAK_LEN)]
            } else {
                KoalaBear(0)
            },
    )
}

/// The tweakable hash: width-16 compression when the message has at most
/// `HASH_LEN` elements, width-24 otherwise, over Plonky3's Poseidon2.
pub open spec fn apply_spec(param: Seq<KoalaBear>, t: Tweak, input: Seq<KoalaBear>) -> Seq<KoalaBear> {
    let tfe = tweak_elements(t);
    if input.len() <= HASH_LEN {
        p3_compress_spec(16, hash_state(WIDTH_16 as nat, param, tfe, input), HASH_LEN as nat)
    } else {
        p3_compress_spec(24, hash_state(WIDTH_24 as nat, param, tfe, input), HASH_LEN as nat)
    }
}

/// Walk `steps` steps of a chain from `step`; each step hashes with the
/// chain tweak at the current step number.
pub open spec fn walk_spec(
    param: Seq<KoalaBear>,
    epoch: u32,
    chain_index: u32,
    step: int,
    steps: nat,
    v: Seq<KoalaBear>,
) -> Seq<KoalaBear>
    decreases steps,
{
    if steps == 0 {
        v
    } else {
        let t = Tweak::Chain { epoch, chain_index, step: step as u32 };
        walk_spec(param, epoch, chain_index, step + 1, (steps - 1) as nat, apply_spec(param, t, v))
    }
}

/// Node `i` levels above `leaf` at `index`: the hash, with the tree tweak of
/// the level below and the parent position, of the two children in order.
pub open spec fn path_node(
    param: Seq<KoalaBear>,
    index: u64,
    leaf: Seq<KoalaBear>,
    path: Seq<Seq<KoalaBear>>,
    i: nat,
) -> Seq<KoalaBear>
    decreases i,
{
    if i == 0 {
        leaf
    } else {
        let prev = path_node(param, index, leaf, path, (i - 1) as nat);
        let idx = index as int / pow(2, (i - 1) as nat);
        let t = Tweak::Tree { level: (i - 1) as u32, position: (idx / 2) as u64 };
        if idx % 2 == 0 {
            apply_spec(param, t, prev + path[i - 1])
        } else {
            apply_spec(param, t, path[i - 1] + prev)
        }
    }
}

/// `a ++ b` as a new vector.
pub fn concat(a: &[KoalaBear], b: &[KoalaBear]) -> (r: Vec<KoalaBear>)
    ensures
        r@ == a@ + b@,
{
    let mut r: Vec<KoalaBear> = Vec::new();
    let mut i: usize = 0;
    while i < a.len()
        invariant
            i <= a@.len(),
            r@ == a@.take(i as int),
        decreases a@.len() - i,
    {
        r.push(a[i]);
        i += 1;
        proof {
            assert(r@ =~= a@.take(i as int));
        }
    }
    let mut j: usize = 0;
    proof {
        assert(a@.take(a@.len() as int) =~= a@);
    }
    while j < b.len()
        invariant
            j <= b@.len(),
            r@ == a@ + b@.take(j as int),
        decreases b@.len() - j,
    {
        r.push(b[j]);
        j += 1;
        proof {
            assert(r@ =~= a@ + b@.take(j as int));
        }
    }
    proof {
        assert(b@.take(b@.len() as int) =~= b@);
    }
    r
}

/// Fill a zeroed permutation state with parameter, tweak and message.
pub(crate) fn fill_state<const W: usize>(
    state: &mut [KoalaBear; W],
    parameter: &[KoalaBear],
    tweak_elems: &[KoalaBear; TWEAK_LEN],
    input: &[KoalaBear],
)
    requires
        W == 16 || W == 24,
        W == 16 ==> input@.len() <= HASH_LEN,
        forall|i: int| 0 <= i < W ==> #[trigger] old(state)@[i] == KoalaBear(0),
    ensures
        final(state)@ == hash_state(W as nat, parameter@, tweak_elems@, input@),
{
    let plen = if parameter.len() < PARAMETER_LEN { parameter.len() } else { PARAMETER_LEN };
    let mut i: usize = 0;
    while i < plen
        invariant
            W == 16 || W == 24,
            plen <= PARAMETER_LEN,
            plen <= parameter@.len(),
            plen == PARAMETER_LEN || plen == parameter@.len(),
            i <= plen,
            forall|k: int| 0 <= k < i ==> #[trigger] state@[k] == parameter@[k],
            forall|k: int| i <= k < W ==> #[trigger] state@[k] == KoalaBear(0),
        decreases plen - i,
    {
        state[i] = parameter[i];
        i += 1;
    }
    let mut j: usize = 0;
    while j < TWEAK_LEN
        invariant
            W == 16 || W == 24,
            plen <= PARAMETER_LEN,
            plen <= parameter@.len(),
            plen == PARAMETER_LEN || plen == parameter@.len(),
            j <= TWEAK_LEN,
            forall|k: int| 0 <= k < plen ==> #[trigger] state@[k] == parameter@[k],
            forall|k: int| plen <= k < PARAMETER_LEN ==> #[trigger] state@[k] == KoalaBear(0),
            forall|k: int| 0 <= k < j ==> #[trigger] state@[PARAMETER_LEN + k] == tweak_elems@[k],
            forall|k: int| PARAMETER_LEN + j <= k < W ==> #[trigger] state@[k] == KoalaBear(0),
        decreases TWEAK_LEN - j,
    {
        state[PARAMETER_LEN + j] = tweak_elems[j];
        j += 1;
    }
    let base: usize = PARAMETER_LEN + TWEAK_LEN;
    let room = W - base;
    let n = if input.len() < room { input.len() } else { room };
    let mut m: usize = 0;
    while m < n
        invariant
            W == 16 || W == 24,
            base == PARAMETER_LEN + TWEAK_LEN,
            room == W - base,
            n <= room,
            n <= input@.len(),
            n == room || n == input@.len(),
            plen <= PARAMETER_LEN,
            plen <= parameter@.len(),
            plen == PARAMETER_LEN || plen == parameter@.len(),
            m <= n,
            forall|k: int| 0 <= k < plen ==> #[trigger] state@[k] == parameter@[k],
            forall|k: int| plen <= k < PARAMETER_LEN ==> #[trigger] state@[k] == KoalaBear(0),
            forall|k: int| 0 <= k < TWEAK_LEN ==> #[trigger] state@[PARAMETER_LEN + k] == tweak_elems@[k],
            forall|k: int| 0 <= k < m ==> #[trigger] state@[base + k] == input@[k],
            forall|k: int| base + m <= k < W ==> #[trigger] state@[k] == KoalaBear(0),
        decreases n - m,
    {
        state[base + m] = input[m];
        m += 1;
    }
    proof {
        let target = hash_state(W as nat, parameter@, tweak_elems@, input@);
        assert forall|k: int| 0 <= k < W implies #[trigger] state@[k] == target[k] by {
            if PARAMETER_LEN <= k < base {
                assert(state@[PARAMETER_LEN + (k - PARAMETER_LEN)] == tweak_elems@[k - PARAMETER_LEN]);
            } else if base <= k < base + n {
                assert(state@[base + (k - base)] == input@[k - base]);
            }
        }
        assert(state@ =~= target);
    }
}

/// A tree tweak and a chain tweak never give the same field elements: their
/// first elements are the separator 1 and at least `0x20000`.
pub proof fn law_tree_and_chain_tweaks_differ(level: u32, position: u64, epoch: u32, chain_index: u32, step: u32)
    ensures
        tweak_elements(Tweak::Tree { level, position }) != tweak_elements(
            Tweak::Chain { epoch, chain_index, step },
        ),
{
    vstd::arithmetic::div_mod::lemma_mod_bound(epoch as int, 0x1_0000);
    vstd::arithmetic::div_mod::lemma_small_mod((0x2_0000 + epoch as int % 0x1_0000) as nat, P as nat);
    vstd::arithmetic::div_mod::lemma_small_mod(1, P as nat);
    assert(tweak_elements(Tweak::Tree { level, position })[0] != tweak_elements(
        Tweak::Chain { epoch, chain_index, step },
    )[0]);
}

/// The encoding is one to one on its range: distinct tweaks (tree or
/// chain, epochs below `2^16`) give distinct field elements, so hashes
/// at different places are domain separated.
pub proof fn law_tweak_elements_injective(t1: Tweak, t2: Tweak)
    requires
        tweak_in_range(t1),
        tweak_in_range(t2),
        tweak_elements(t1) == tweak_elements(t2),
    ensures
        t1 == t2,
{
    let e1 = tweak_elements(t1);
    let e2 = tweak_elements(t2);
    assert(e1[0] == e2[0] && e1[1] == e2[1] && e1[2] == e2[2]);
    match t1 {
        Tweak::Tree { level, position } => {
            vstd::arithmetic::div_mod::lemma_small_mod(1, P as nat);
            vstd::arithmetic::div_mod::lemma_small_mod(level as nat, P as nat);
            vstd::arithmetic::div_mod::lemma_small_mod(position as nat, P as nat);
        },
        Tweak::Chain { epoch, chain_index, step } => {
            vstd::arithmetic::div_mod::lemma_small_mod(epoch as nat, 0x1_0000);
            vstd::arithmetic::div_mod::lemma_small_mod((0x2_0000 + epoch) as nat, P as nat);
            vstd::arithmetic::div_mod::lemma_small_mod(chain_index as nat, P as nat);
            vstd::arithmetic::div_mod::lemma_small_mod(step as nat, P as nat);
        },
    }
    match t2 {
        Tweak::Tree { level, position } => {
            vstd::arithmetic::div_mod::lemma_small_mod(1, P as nat);
            vstd::arithmetic::div_mod::lemma_small_mod(level as nat, P as nat);
            vstd::arithmetic::div_mod::lemma_small_mod(position as nat, P as nat);
        },
        Tweak::Chain { epoch, chain_index, step } => {
            vstd::arithmetic::div_mod::lemma_small_mod(epoch as nat, 0x1_0000);
            vstd::arithmetic::div_mod::lemma_small_mod((0x2_0000 + epoch) as nat, P as nat);
            vstd::arithmetic::div_mod::lemma_small_mod(chain_index as nat, P as nat);
            vstd::arithmetic::div_mod::lemma_small_mod(step as nat, P as nat);
        },
    }
}

/// Walking a chain `a` steps and then `b` more is walking it `a + b` steps.
pub proof fn law_walk_composes(
    param: Seq<KoalaBear>,
    epoch: u32,
    chain_index: u32,
    step: int,
    a: nat,
    b: nat,
    v: Seq<KoalaBear>,
)
    ensures
        walk_spec(param, epoch, chain_index, step + a, b, walk_spec(param, epoch, chain_index, step, a, v))
            == walk_spec(param, epoch, chain_index, step, a + b, v),
    decreases a,
{
    if a > 0 {
        let t = Tweak::Chain { epoch, chain_index, step: step as u32 };
        law_walk_composes(param, epoch, chain_index, step + 1, (a - 1) as nat, b, apply_spec(param, t, v));
        assert(step + 1 + (a - 1) == step + a);
        assert((a - 1) + b == (a + b - 1));
    }
}


/// Step `n` of a chain walk started at `step` hashes the value the walk had
/// reached with the chain tweak of step `step + n`, the step being taken.
pub proof fn law_walk_step_tweak(
    param: Seq<KoalaBear>,
    epoch: u32,
    chain_index: u32,
    step: int,
    n: nat,
    v: Seq<KoalaBear>,
)
    ensures
        walk_spec(param, epoch, chain_index, step, n + 1, v) == apply_spec(
            param,
            Tweak::Chain { epoch, chain_index, step: (step + n) as u32 },
            walk_spec(param, epoch, chain_index, step, n, v),
        ),
{
    law_walk_composes(param, epoch, chain_index, step, n, 1, v);
    let w = walk_spec(param, epoch, chain_index, step, n, v);
    let t = Tweak::Chain { epoch, chain_index, step: (step + n) as u32 };
    assert(walk_spec(param, epoch, chain_index, step + n, 1, w) == walk_spec(
        param,
        epoch,
        chain_index,
        step + n + 1,
        0,
        apply_spec(param, t, w),
    ));
}

} // verus!
