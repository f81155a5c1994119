use leansig_zkvm::constants::{HASH_LEN, NUM_CHAINS};
use leansig_zkvm::koalabear::KoalaBear;
use leansig_zkvm::risc0::encoding::compute_codeword;
use leansig_zkvm::risc0::field::FieldArray;
use leansig_zkvm::risc0::tweak_hash::{apply, chain, Tweak};
use leansig_zkvm::risc0::verify::{verify_from_input, verify_merkle_path, verify_signature};
use leansig_zkvm::testgen::create_test_data;

type Parameter = leansig_zkvm::risc0::types::Parameter;

#[test]
fn test_tweak_encoding() {
    let tree_tweak = Tweak::tree_tweak(0, 0);
    let chain_tweak = Tweak::chain_tweak(0, 0, 0);

    let tree_fe = tree_tweak.to_field_elements();
    let chain_fe = chain_tweak.to_field_elements();

    assert_ne!(tree_fe, chain_fe);
}

#[test]
fn test_chain_deterministic() {
    let param = Parameter::default();
    let start = leansig_zkvm::risc0::types::Hash::default();

    let result1 = chain(&param, 1, 0, 0, 5, &start);
    let result2 = chain(&param, 1, 0, 0, 5, &start);

    assert_eq!(result1, result2);
}

#[test]
fn test_apply_single_hash() {
    let param = Parameter::default();
    let tweak = Tweak::chain_tweak(1, 2, 3);
    let msg = leansig_zkvm::risc0::types::Hash::default();

    let result = apply(&param, &tweak, &[msg]);

    assert_eq!(result.inner().len(), HASH_LEN);
}

#[test]
fn test_merkle_path_depth_validation() {
    let param = Parameter::default();
    let root = leansig_zkvm::risc0::types::Hash::default();
    let leaf = vec![leansig_zkvm::risc0::types::Hash::default()];

    let result = verify_merkle_path(&param, &root, 0, &leaf, &[]);
    assert!(!result);
}

#[test]
fn tweak_field_elements_are_base_p_digits() {
    let p = 2130706433u128;
    let t = Tweak::tree_tweak(3, 77);
    let v: u128 = (3u128 << 40) | (77u128 << 8) | 1;
    let fe = t.to_field_elements();
    assert_eq!(fe[0].value() as u128, v % p);
    assert_eq!(fe[1].value() as u128, (v / p) % p);
    let c = Tweak::chain_tweak(u32::MAX, 9, 200);
    let w: u128 = ((u32::MAX as u128) << 24) | (9u128 << 16) | (200u128 << 8);
    let fe = c.to_field_elements();
    assert_eq!(fe[0].value() as u128, w % p);
    assert_eq!(fe[1].value() as u128, (w / p) % p);
}

#[test]
fn apply_without_messages_is_zero() {
    let param = Parameter::default();
    let out = apply(&param, &Tweak::tree_tweak(0, 0), &[]);
    assert_eq!(out, leansig_zkvm::risc0::types::Hash::default());
}

#[test]
fn apply_depends_on_tweak_and_message_count() {
    let param = FieldArray::new([KoalaBear::new(1), KoalaBear::new(2), KoalaBear::new(3), KoalaBear::new(4), KoalaBear::new(5)]);
    let m = leansig_zkvm::risc0::types::Hash::default();
    let a = apply(&param, &Tweak::chain_tweak(0, 0, 1), &[m]);
    let b = apply(&param, &Tweak::chain_tweak(0, 0, 2), &[m]);
    let c = apply(&param, &Tweak::tree_tweak(1, 0), &[m, m]);
    let d = apply(&param, &Tweak::tree_tweak(0, 0), &[m, m, m]);
    assert_ne!(a, b);
    assert_ne!(a, c);
    assert_ne!(c, d);
}

#[test]
fn chain_walks_compose() {
    let param = Parameter::default();
    let start = leansig_zkvm::risc0::types::Hash::default();
    let two = chain(&param, 4, 7, 0, 2, &start);
    let three_more = chain(&param, 4, 7, 2, 3, &two);
    let five = chain(&param, 4, 7, 0, 5, &start);
    assert_eq!(three_more, five);
    assert_eq!(chain(&param, 4, 7, 3, 0, &start), start);
}

#[test]
fn codeword_is_binary_of_right_length() {
    let input = create_test_data();
    let cw = compute_codeword(&input.public_key.parameter, input.epoch, &input.signature.rho, &input.message);
    assert_eq!(cw.len(), NUM_CHAINS);
    assert!(cw.iter().all(|&c| c < 2));
    assert!(cw.iter().any(|&c| c == 0) && cw.iter().any(|&c| c == 1));
}

#[test]
fn synthetic_signature_is_rejected() {
    let input = create_test_data();
    assert!(!verify_from_input(&input));
    assert!(!verify_signature(&input.public_key, input.epoch, &input.message, &input.signature));
}

#[test]
fn malformed_signature_is_rejected() {
    let mut input = create_test_data();
    input.signature.leaf_index = 1;
    assert!(!verify_from_input(&input));
    let mut input = create_test_data();
    input.signature.hashes.pop();
    assert!(!verify_from_input(&input));
    let mut input = create_test_data();
    input.signature.path.pop();
    assert!(!verify_from_input(&input));
}

#[test]
fn test_data_values() {
    let input = create_test_data();
    assert_eq!(input.public_key.root.inner()[6].value(), 106);
    assert_eq!(input.public_key.parameter.inner()[0].value(), 200);
    assert_eq!(input.signature.rho.inner()[5].value(), 305);
    assert_eq!(input.signature.path[17].inner()[6].value(), 17 * 7 + 6 + 1000);
    assert_eq!(input.signature.hashes[154].inner()[0].value(), 154 * 7 + 5000);
    assert_eq!(input.message[31], 32);
}
