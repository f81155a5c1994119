use leansig_zkvm::constants::{HASH_LEN, NUM_CHAINS, TREE_HEIGHT};
use leansig_zkvm::digest::hash_message_to_digest;
use leansig_zkvm::encoding::{compute_codeword, encode_epoch, encode_message};
use leansig_zkvm::koalabear::{KoalaBear, P};
use leansig_zkvm::poseidon::{chain_walk, poseidon_apply, verify_merkle_path, PoseidonTweak};
use leansig_zkvm::testgen::{generate_test_input, verify_roundtrip};
use leansig_zkvm::verify::{verify_from_input, verify_signature};

fn fe(v: u32) -> KoalaBear {
    KoalaBear::new(v)
}

#[test]
fn poseidon_tweaks_differ_between_tree_and_chain() {
    let t = PoseidonTweak::tree(0, 0).to_field_elements();
    let c = PoseidonTweak::chain(0, 0, 0).to_field_elements();
    assert_ne!(t, c);
    assert_eq!(t[0].value(), 1);
    assert_eq!(c[0].value(), 0);
}

#[test]
fn poseidon_tweak_digits() {
    let c = PoseidonTweak::chain(1, 2, 3).to_field_elements();
    let v: u64 = (1u64 << 24) | (2u64 << 16) | (3u64 << 8);
    assert_eq!(c[0].value() as u64, v % P as u64);
    assert_eq!(c[1].value() as u64, v / P as u64);
}

#[test]
fn shared_chain_walks_compose() {
    let param = [fe(1), fe(2), fe(3), fe(4), fe(5)];
    let start = [fe(9); HASH_LEN];
    let one = chain_walk(&param, 3, 4, 0, 1, &start);
    let rest = chain_walk(&param, 3, 4, 1, 2, &one);
    assert_eq!(rest, chain_walk(&param, 3, 4, 0, 3, &start));
    assert_eq!(chain_walk(&param, 3, 4, 0, 0, &start), start);
}

#[test]
fn shared_apply_depends_on_message_count() {
    let param = [fe(1), fe(2), fe(3), fe(4), fe(5)];
    let m = [fe(7); HASH_LEN];
    let one = poseidon_apply(&param, &PoseidonTweak::tree(0, 0), &[m]);
    let two = poseidon_apply(&param, &PoseidonTweak::tree(0, 0), &[m, m]);
    let three = poseidon_apply(&param, &PoseidonTweak::tree(0, 0), &[m, m, m]);
    assert_ne!(one, two);
    assert_ne!(two, three);
}

#[test]
fn shared_merkle_path_requires_full_height() {
    let param = [fe(0); 5];
    let root = [fe(0); HASH_LEN];
    assert!(!verify_merkle_path(&param, &root, 0, &[[fe(0); HASH_LEN]], &[], TREE_HEIGHT));
}

#[test]
fn shared_merkle_path_of_height_zero_compares_leaf() {
    let param = [fe(3); 5];
    let leaves = [[fe(1); HASH_LEN], [fe(2); HASH_LEN], [fe(4); HASH_LEN]];
    let leaf = poseidon_apply(&param, &PoseidonTweak::tree(0, 6), &leaves);
    assert!(verify_merkle_path(&param, &leaf, 6, &leaves, &[], 0));
    let path = [[fe(5); HASH_LEN]];
    let parent = poseidon_apply(&param, &PoseidonTweak::tree(1, 3), &[leaf, path[0]]);
    assert!(verify_merkle_path(&param, &parent, 6, &leaves, &path, 1));
    let leaf7 = poseidon_apply(&param, &PoseidonTweak::tree(0, 7), &leaves);
    let parent7 = poseidon_apply(&param, &PoseidonTweak::tree(1, 3), &[path[0], leaf7]);
    assert!(verify_merkle_path(&param, &parent7, 7, &leaves, &path, 1));
    assert!(!verify_merkle_path(&param, &parent, 7, &leaves, &path, 1));
}

#[test]
fn message_and_epoch_elements() {
    let e = encode_epoch(5);
    assert_eq!(e[0].value(), 5 * 256 + 2);
    assert_eq!(e[1].value(), 0);
    let mut msg = [0u8; 32];
    msg[0] = 7;
    let m = encode_message(&msg);
    assert_eq!(m[0].value(), 7);
    assert!(m[1..].iter().all(|x| x.value() == 0));
}

#[test]
fn shared_codeword_is_binary() {
    let input = generate_test_input();
    let cw = compute_codeword(&input.public_key.parameter, input.epoch, &input.signature.rho, &input.message);
    assert_eq!(cw.len(), NUM_CHAINS);
    assert!(cw.iter().all(|&c| c <= 1));
}

#[test]
fn shared_synthetic_signature_is_rejected() {
    let input = generate_test_input();
    assert!(!verify_from_input(&input));
    let mut bad = generate_test_input();
    bad.signature.leaf_index = 3;
    assert!(!verify_signature(&bad.public_key, bad.epoch, &bad.message, &bad.signature));
}

#[test]
fn generated_input_values() {
    let input = generate_test_input();
    assert_eq!(input.public_key.root[0].value(), 100);
    assert_eq!(input.public_key.parameter[4].value(), 204);
    assert_eq!(input.signature.rho[0].value(), 300);
    assert_eq!(input.signature.path.len(), TREE_HEIGHT);
    assert_eq!(input.signature.path[1][2].value(), 1009);
    assert_eq!(input.signature.hashes.len(), NUM_CHAINS);
    assert_eq!(input.signature.hashes[2][3].value(), 5017);
    assert_eq!(input.message[0], 1);
    assert_eq!(input.epoch, 0);
    assert_eq!(input.signature.leaf_index, 0);
}

#[test]
fn roundtrip_comparison() {
    let input = generate_test_input();
    let copy = generate_test_input();
    assert!(verify_roundtrip(&input, Some(&copy)));
    assert!(!verify_roundtrip(&input, None));
    let mut other = generate_test_input();
    other.message[5] ^= 1;
    assert!(!verify_roundtrip(&input, Some(&other)));
    let mut fewer = generate_test_input();
    fewer.signature.hashes.pop();
    assert!(!verify_roundtrip(&input, Some(&fewer)));
}

#[test]
fn sha256_digest_of_known_inputs() {
    let d = hash_message_to_digest(b"abc");
    assert_eq!(
        d,
        [
            0xba, 0x78, 0x16, 0xbf, 0x8f, 0x01, 0xcf, 0xea, 0x41, 0x41, 0x40, 0xde, 0x5d, 0xae, 0x22, 0x23, 0xb0,
            0x03, 0x61, 0xa3, 0x96, 0x17, 0x7a, 0x9c, 0xb4, 0x10, 0xff, 0x61, 0xf2, 0x00, 0x15, 0xad
        ]
    );
}

#[test]
fn shared_hash_matches_batch_hash_for_every_message_count() {
    let param = [fe(1), fe(2), fe(3), fe(4), fe(5)];
    let tweak = PoseidonTweak::tree(3, 9);
    for n in [0usize, 1, 2, 3, 5] {
        let msgs: Vec<[KoalaBear; HASH_LEN]> =
            (0..n).map(|k| core::array::from_fn(|i| fe((10 * k + i) as u32 + 7))).collect();
        let shared = poseidon_apply(&param, &tweak, &msgs);
        let batch = leansig_zkvm::openvm::xmss_verify::poseidon_apply(&param, &tweak, &msgs);
        assert_eq!(shared, batch, "message count {}", n);
    }
}
