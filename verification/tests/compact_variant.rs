use leansig_zkvm::compact::encoding::{check_target_sum, encode, EncodingError, DIMENSION, TARGET_SUM};
use leansig_zkvm::compact::tweak::Tweak;
use leansig_zkvm::compact::types::{PublicKey, Signature, VerifyInput};
use leansig_zkvm::compact::verify::{verify_from_input, verify_signature};
use leansig_zkvm::compact::{native_hash, plonky3_hash};
use leansig_zkvm::koalabear::{KoalaBear, P};
use p3_field::PrimeField32;
use p3_symmetric::Permutation;
use sha3::digest::{ExtendableOutput, Update, XofReader};

fn fe(v: u32) -> KoalaBear {
    KoalaBear::new(v)
}

fn shake_chunks(epoch: u32, rho: &[u8], message: &[u8; 32]) -> Vec<u8> {
    let mut h = sha3::Shake128::default();
    h.update(&[0x00]);
    h.update(&epoch.to_le_bytes());
    h.update(rho);
    h.update(message);
    let mut out = vec![0u8; 256];
    h.finalize_xof().read(&mut out);
    out
}

#[test]
fn compact_tweak_elements() {
    let t = Tweak::Tree { level: 5, position: (1u64 << 32) + 9 }.to_field_elements();
    assert_eq!(t, [fe(1), fe(5), fe(9)]);
    let c = Tweak::Chain { epoch: 0x12345, chain_index: 7, step: P + 1 }.to_field_elements();
    assert_eq!(c, [fe(0x2_0000 + 0x2345), fe(7), fe(1)]);
    let top = Tweak::Chain { epoch: u32::MAX, chain_index: 0, step: 0 }.to_field_elements();
    assert_eq!(top[0], fe(0x2_FFFF));
}

#[test]
fn compact_tree_and_chain_tweaks_differ() {
    for (l, e) in [(0u32, 0u32), (1, 1), (u32::MAX, u32::MAX)] {
        let t = Tweak::Tree { level: l, position: 0 }.to_field_elements();
        let c = Tweak::Chain { epoch: e, chain_index: l, step: 0 }.to_field_elements();
        assert_ne!(t, c);
    }
}

#[test]
fn compact_apply_hash_has_four_elements() {
    let param = vec![fe(1), fe(2), fe(3), fe(4)];
    let msg = vec![fe(5), fe(6), fe(7), fe(8)];
    let t = Tweak::Chain { epoch: 1, chain_index: 2, step: 3 };
    let a = native_hash::apply_hash(&param, &t, &msg);
    let b = plonky3_hash::apply_hash(&param, &t, &msg);
    assert_eq!(a.len(), 4);
    assert_eq!(a, b);
    let two = [msg.clone(), msg.clone()].concat();
    assert_ne!(native_hash::apply_hash(&param, &t, &two), a);
}

#[test]
fn compact_plonky3_compression_matches_direct_permutation() {
    let param = vec![fe(1), fe(2), fe(3), fe(4)];
    let msg = vec![fe(5), fe(6), fe(7), fe(8)];
    let t = Tweak::Tree { level: 2, position: 3 };
    let got = plonky3_hash::apply_hash(&param, &t, &msg);
    let state_vals: [u32; 16] = [1, 2, 3, 4, 1, 2, 3, 5, 6, 7, 8, 0, 0, 0, 0, 0];
    let input = state_vals.map(p3_koala_bear::KoalaBear::new);
    let perm = p3_koala_bear::default_koalabear_poseidon2_16();
    let out = perm.permute(input);
    let expected: Vec<u32> = (0..4).map(|i| (out[i] + input[i]).as_canonical_u32()).collect();
    let got_vals: Vec<u32> = got.iter().map(|x| x.value()).collect();
    assert_eq!(got_vals, expected);
}

#[test]
fn compact_chain_walks_compose() {
    let param = vec![fe(1), fe(2), fe(3), fe(4)];
    let start = vec![fe(10), fe(11), fe(12), fe(13)];
    for (walk, name) in [
        (native_hash::chain_walk as fn(&[KoalaBear], u32, u32, u32, u32, &[KoalaBear]) -> Vec<KoalaBear>, "native"),
        (plonky3_hash::chain_walk, "plonky3"),
    ] {
        let two = walk(&param, 8, 1, 5, 2, &start);
        let more = walk(&param, 8, 1, 7, 3, &two);
        assert_eq!(more, walk(&param, 8, 1, 5, 5, &start), "{}", name);
        assert_eq!(walk(&param, 8, 1, 5, 0, &start), start, "{}", name);
    }
}

#[test]
fn compact_merkle_path_orders_children_by_index() {
    let param = vec![fe(1), fe(2), fe(3), fe(4)];
    let leaf = vec![fe(20), fe(21), fe(22), fe(23)];
    let sib = vec![fe(30), fe(31), fe(32), fe(33)];
    let left = [leaf.clone(), sib.clone()].concat();
    let right = [sib.clone(), leaf.clone()].concat();
    let even_root = native_hash::apply_hash(&param, &Tweak::Tree { level: 0, position: 2 }, &left);
    let odd_root = native_hash::apply_hash(&param, &Tweak::Tree { level: 0, position: 2 }, &right);
    assert!(native_hash::verify_merkle_path(&param, &leaf, &[sib.clone()], 4, &even_root));
    assert!(native_hash::verify_merkle_path(&param, &leaf, &[sib.clone()], 5, &odd_root));
    assert!(!native_hash::verify_merkle_path(&param, &leaf, &[sib.clone()], 5, &even_root));
    assert!(plonky3_hash::verify_merkle_path(&param, &leaf, &[], 0, &leaf));
    assert!(!plonky3_hash::verify_merkle_path(&param, &leaf, &[], 0, &sib));
}

#[test]
fn target_sum_check() {
    let balanced: Vec<u8> = (0..DIMENSION).map(|i| if i % 2 == 0 { 0 } else { 255 }).collect();
    assert_eq!(check_target_sum(balanced.clone()), Ok(balanced));
    let zeros = vec![0u8; DIMENSION];
    assert_eq!(
        check_target_sum(zeros),
        Err(EncodingError::SumMismatch { expected: TARGET_SUM, actual: 0 })
    );
    assert_eq!(TARGET_SUM, 32640);
}

#[test]
fn encode_uses_shake128_chunks() {
    let message = [9u8; 32];
    let rho = [1u8, 2, 3];
    let chunks = shake_chunks(17, &rho, &message);
    let sum: u32 = chunks.iter().map(|&c| c as u32).sum();
    match encode(17, &rho, &message) {
        Ok(c) => assert_eq!(c, chunks),
        Err(EncodingError::SumMismatch { expected, actual }) => {
            assert_eq!(expected, TARGET_SUM);
            assert_eq!(actual, sum);
            assert_ne!(sum, TARGET_SUM);
        }
    }
}

fn sample_input(hashes: usize) -> VerifyInput {
    VerifyInput {
        public_key: PublicKey { root: vec![fe(1); 4], parameter: vec![fe(2); 4] },
        epoch: 3,
        message: [4u8; 32],
        signature: Signature {
            path: vec![vec![fe(5); 4]; 2],
            rho: vec![6u8; 8],
            hashes: vec![vec![fe(7); 4]; hashes],
        },
    }
}

#[test]
fn compact_verification_rejects_synthetic_input() {
    let input = sample_input(DIMENSION);
    assert!(!verify_from_input(&input));
    assert!(!verify_signature(&input.public_key, input.epoch, &input.message, &input.signature));
}

#[test]
fn compact_verification_with_short_hashes_is_false() {
    let input = sample_input(3);
    assert!(!verify_from_input(&input));
}

#[test]
fn compact_chain_tweaks_keep_the_low_epoch_bits() {
    let a = Tweak::Chain { epoch: 0, chain_index: 3, step: 4 }.to_field_elements();
    let b = Tweak::Chain { epoch: 1, chain_index: 3, step: 4 }.to_field_elements();
    assert_ne!(a, b);
    let c = Tweak::Chain { epoch: 0xFFFF, chain_index: 3, step: 4 }.to_field_elements();
    assert_ne!(a, c);
    assert_ne!(b, c);
    let wrapped = Tweak::Chain { epoch: 65536, chain_index: 3, step: 4 }.to_field_elements();
    assert_eq!(a, wrapped);
}
