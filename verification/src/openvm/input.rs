//! Building the prover input: a batch assembled from exported keys and
//! signatures, and the JSON document that carries its words as hex.

use crate::export::{ExportedPublicKey, ExportedSignature, TARGETSIM_TREE_HEIGHT, TARGETSIM_W1_NUM_CHAINS};
use crate::openvm::xmss_types::{PublicKey, Signature, Statement, TslParams, VerificationBatch, Witness};
use crate::openvm::xmss_verify::{push_u32_le, u32_le};
use vstd::prelude::*;

verus! {

/// The hex digit of a value below 16, lowercase.
pub open spec fn hex_digit(n: int) -> char {
    if n < 10 {
        (48 + n) as char
    } else {
        (87 + n) as char
    }
}

/// Lowercase hex of a byte string, two digits per byte, high nibble first.
pub open spec fn hex_chars(bytes: Seq<u8>) -> Seq<char> {
    Seq::new(
        2 * bytes.len(),
        |i: int| if i % 2 == 0 { hex_digit(bytes[i / 2] as int / 16) } else { hex_digit(bytes[i / 2] as int % 16) },
    )
}

/// The words' bytes, each word little-endian, one after another.
pub open spec fn words_le(words: Seq<u32>) -> Seq<u8>
    decreases words.len(),
{
    if words.len() == 0 {
        Seq::empty()
    } else {
        words_le(words.drop_last()) + u32_le(words.last())
    }
}

/// The digit table holds the hex digits in order.
proof fn lemma_hex_table(n: int)
    requires
        0 <= n < 16,
    ensures
        "0123456789abcdef"@[n] == hex_digit(n),
{
    reveal_strlit("0123456789abcdef");
    assert('0' == 48 as char && 'a' == 97 as char);
}

/// Lowercase hex encoding of bytes.
pub fn to_hex(bytes: &[u8]) -> (r: String)
    ensures
        r@ == hex_chars(bytes@),
{
    let digits = "0123456789abcdef";
    proof {
        reveal_strlit("0123456789abcdef");
    }
    let mut s = String::new();
    let mut i: usize = 0;
    while i < bytes.len()
        invariant
            digits@ == "0123456789abcdef"@,
            digits@.len() == 16,
            vstd::string::is_ascii(digits),
            i <= bytes@.len(),
            s@ == hex_chars(bytes@.take(i as int)),
        decreases bytes@.len() - i,
    {
        let b = bytes[i];
        let hi = (b >> 4) as usize;
        let lo = (b & 0x0f) as usize;
        proof {
            assert(hi == b / 16 && lo == b % 16) by (bit_vector)
                requires
                    hi == (b >> 4) as usize,
                    lo == (b & 0x0f) as usize,
            ;
        }
        s.append(digits.substring_ascii(hi, hi + 1));
        s.append(digits.substring_ascii(lo, lo + 1));
        i += 1;
        proof {
            lemma_hex_table(hi as int);
            lemma_hex_table(lo as int);
            assert(s@ =~= hex_chars(bytes@.take(i as int)));
        }
    }
    proof {
        assert(bytes@.take(bytes@.len() as int) =~= bytes@);
    }
    s
}

/// The words as bytes, each little-endian.
pub fn words_to_bytes(words: &[u32]) -> (r: Vec<u8>)
    ensures
        r@ == words_le(words@),
{
    let mut bytes: Vec<u8> = Vec::new();
    let mut i: usize = 0;
    while i < words.len()
        invariant
            i <= words@.len(),
            bytes@ == words_le(words@.take(i as int)),
        decreases words@.len() - i,
    {
        push_u32_le(&mut bytes, words[i]);
        proof {
            assert(words@.take(i + 1).drop_last() =~= words@.take(i as int));
        }
        i += 1;
    }
    proof {
        assert(words@.take(words@.len() as int) =~= words@);
    }
    bytes
}

/// The input document: the words' bytes as hex behind the `0x01` marker,
/// as the one entry of the `input` list.
pub fn input_json(words: &[u32]) -> (r: String)
    ensures
        r@ == "{\n  \"input\": [\"0x01"@ + hex_chars(words_le(words@)) + "\"]\n}\n"@,
{
    let bytes = words_to_bytes(words);
    let hex = to_hex(&bytes);
    let mut json = String::from_str("{\n  \"input\": [\"0x01");
    json.append(hex.as_str());
    json.append("\"]\n}\n");
    json
}

/// Parameters of the benchmark batch: TargetSum base 2, one chain per
/// codeword entry, no offset, 128-bit security, the tree height.
pub open spec fn benchmark_params() -> TslParams {
    TslParams {
        w: 2,
        v: TARGETSIM_W1_NUM_CHAINS as u16,
        d0: 0,
        security_bits: 128,
        tree_height: TARGETSIM_TREE_HEIGHT as u16,
    }
}

/// A batch of signatures on `digest` at `epoch`: the statement lists the
/// keys, the witness the signatures (leaf index `epoch`), in sample order.
pub fn assemble_batch(digest: &[u8; 32], epoch: u32, samples: Vec<(ExportedPublicKey, ExportedSignature)>) -> (r:
    VerificationBatch)
    requires
        samples@.len() <= u32::MAX,
    ensures
        r.params == benchmark_params(),
        r.statement.k == samples@.len(),
        r.statement.ep == epoch,
        r.statement.m@ == digest@,
        r.statement.public_keys@.len() == samples@.len(),
        r.witness.signatures@.len() == samples@.len(),
        forall|i: int|
            0 <= i < samples@.len() ==> {
                let pk = #[trigger] r.statement.public_keys@[i];
                let sig = r.witness.signatures@[i];
                &&& pk.root == samples@[i].0.root
                &&& pk.parameter == samples@[i].0.parameter
                &&& sig.leaf_index == epoch
                &&& sig.randomness == samples@[i].1.randomness
                &&& sig.wots_chain_ends == samples@[i].1.chain_hashes
                &&& sig.auth_path == samples@[i].1.auth_path
            },
{
    let params = TslParams {
        w: 2,
        v: TARGETSIM_W1_NUM_CHAINS as u16,
        d0: 0,
        security_bits: 128,
        tree_height: TARGETSIM_TREE_HEIGHT as u16,
    };
    let count = samples.len();
    let ghost orig = samples@;
    let mut public_keys: Vec<PublicKey> = Vec::new();
    let mut signatures: Vec<Signature> = Vec::new();
    let mut rest = samples;
    let mut i: usize = 0;
    let mut m: Vec<u8> = Vec::new();
    let mut k: usize = 0;
    while k < 32
        invariant
            k <= 32,
            m@ == digest@.take(k as int),
        decreases 32 - k,
    {
        m.push(digest[k]);
        k += 1;
        proof {
            assert(m@ =~= digest@.take(k as int));
        }
    }
    proof {
        assert(digest@.take(32) =~= digest@);
    }
    while rest.len() > 0
        invariant
            count == orig.len(),
            i + rest@.len() == count,
            rest@ == orig.skip(i as int),
            public_keys@.len() == i,
            signatures@.len() == i,
            forall|j: int|
                0 <= j < i ==> {
                    let pk = #[trigger] public_keys@[j];
                    let sig = signatures@[j];
                    &&& pk.root == orig[j].0.root
                    &&& pk.parameter == orig[j].0.parameter
                    &&& sig.leaf_index == epoch
                    &&& sig.randomness == orig[j].1.randomness
                    &&& sig.wots_chain_ends == orig[j].1.chain_hashes
                    &&& sig.auth_path == orig[j].1.auth_path
                },
        decreases rest@.len(),
    {
        let (epk, esig) = rest.remove(0);
        proof {
            assert(rest@ =~= orig.skip(i + 1));
        }
        public_keys.push(PublicKey { root: epk.root, parameter: epk.parameter });
        signatures.push(
            Signature {
                leaf_index: epoch,
                randomness: esig.randomness,
                wots_chain_ends: esig.chain_hashes,
                auth_path: esig.auth_path,
            },
        );
        i += 1;
    }
    let statement = Statement { k: count as u32, ep: epoch as u64, m, public_keys };
    let witness = Witness { signatures };
    VerificationBatch { params, statement, witness }
}

/// Hex encoding is injective: the hex text determines the bytes.
pub proof fn law_hex_injective(a: Seq<u8>, b: Seq<u8>)
    requires
        hex_chars(a) == hex_chars(b),
    ensures
        a == b,
{
    assert(hex_chars(a).len() == 2 * a.len());
    assert(hex_chars(b).len() == 2 * b.len());
    assert(a.len() == b.len());
    assert forall|i: int| 0 <= i < a.len() implies a[i] == b[i] by {
        assert((2 * i) / 2 == i && (2 * i) % 2 == 0);
        assert((2 * i + 1) / 2 == i && (2 * i + 1) % 2 == 1);
        assert(hex_chars(a)[2 * i] == hex_digit(a[i] as int / 16));
        assert(hex_chars(b)[2 * i] == hex_digit(b[i] as int / 16));
        assert(hex_chars(a)[2 * i + 1] == hex_digit(a[i] as int % 16));
        assert(hex_chars(b)[2 * i + 1] == hex_digit(b[i] as int % 16));
        lemma_hex_digit_injective(a[i] as int / 16, b[i] as int / 16);
        lemma_hex_digit_injective(a[i] as int % 16, b[i] as int % 16);
    }
    assert(a =~= b);
}

/// Distinct nibbles have distinct digits.
proof fn lemma_hex_digit_injective(x: int, y: int)
    requires
        0 <= x < 16,
        0 <= y < 16,
        hex_digit(x) == hex_digit(y),
    ensures
        x == y,
{
    let cx = if x < 10 { 48 + x } else { 87 + x };
    let cy = if y < 10 { 48 + y } else { 87 + y };
    assert(hex_digit(x) == cx as char);
    assert(hex_digit(y) == cy as char);
    assert((cx as char) as int == cx);
    assert((cy as char) as int == cy);
}

} // verus!
