use leansig_zkvm::digest::hash_message_to_digest;
use leansig_zkvm::export::{ExportedPublicKey, ExportedSignature};
use leansig_zkvm::openvm::input::{assemble_batch, input_json, to_hex, words_to_bytes};
use leansig_zkvm::openvm::xmss_types::{Statement, TslParams, VerificationBatch, Witness};
use leansig_zkvm::openvm::xmss_verify::{bytes_to_field_array, digest_to_array, params_match, statement_commitment, verify_batch};
use leansig_zkvm::plonky3::poseidon_compress;
use leansig_zkvm::koalabear::KoalaBear;

fn empty_batch(k: u32) -> VerificationBatch {
    VerificationBatch {
        params: TslParams { w: 2, v: 155, d0: 0, security_bits: 128, tree_height: 18 },
        statement: Statement { k, ep: 0, m: vec![0u8; 32], public_keys: vec![] },
        witness: Witness { signatures: vec![] },
    }
}

#[test]
fn empty_batch_is_valid() {
    assert_eq!(verify_batch(&empty_batch(0)), (true, 0));
}

#[test]
fn batch_count_mismatch_is_rejected() {
    assert_eq!(verify_batch(&empty_batch(1)), (false, 0));
}

#[test]
fn batch_with_wrong_params_is_rejected() {
    let mut b = empty_batch(0);
    b.params.w = 4;
    assert_eq!(verify_batch(&b), (false, 0));
    assert!(!params_match(&b.params));
    assert!(params_match(&empty_batch(0).params));
}

#[test]
fn batch_with_large_epoch_is_rejected() {
    let mut b = empty_batch(0);
    b.statement.ep = 1u64 << 40;
    assert_eq!(verify_batch(&b), (false, 0));
}

#[test]
fn assembled_batch_with_malformed_signature_is_rejected() {
    let digest = hash_message_to_digest(b"bench");
    let sample = (
        ExportedPublicKey { root: vec![1u8; 28], parameter: vec![2u8; 20] },
        ExportedSignature { randomness: vec![3u8; 24], chain_hashes: vec![vec![4u8; 28]; 155], auth_path: vec![vec![5u8; 28]; 17] },
    );
    let batch = assemble_batch(&digest, 0, vec![sample]);
    assert_eq!(batch.statement.k, 1);
    assert_eq!(batch.statement.m, digest.to_vec());
    assert_eq!(batch.witness.signatures[0].auth_path.len(), 17);
    assert_eq!(batch.params, TslParams { w: 2, v: 155, d0: 0, security_bits: 128, tree_height: 18 });
    assert_eq!(verify_batch(&batch), (false, 1));
}

#[test]
fn assembled_well_shaped_synthetic_signature_is_rejected() {
    let digest = hash_message_to_digest(b"bench");
    let sample = (
        ExportedPublicKey { root: vec![1u8; 28], parameter: vec![2u8; 20] },
        ExportedSignature { randomness: vec![3u8; 24], chain_hashes: vec![vec![4u8; 28]; 155], auth_path: vec![vec![5u8; 28]; 18] },
    );
    let batch = assemble_batch(&digest, 0, vec![sample]);
    assert_eq!(verify_batch(&batch), (false, 1));
}

#[test]
fn statement_commitment_hashes_fields() {
    let stmt = Statement { k: 0, ep: 0, m: vec![], public_keys: vec![] };
    let c = statement_commitment(&stmt);
    assert_eq!(c, hash_message_to_digest(&[0u8; 20]));
}

#[test]
fn digest_array_requires_32_bytes() {
    assert_eq!(digest_to_array(&[7u8; 32]), Some([7u8; 32]));
    assert_eq!(digest_to_array(&[7u8; 31]), None);
}

#[test]
fn field_array_from_bytes() {
    let v = bytes_to_field_array(&[1, 0, 0, 0, 0xff, 0xff, 0xff, 0xff], 2).unwrap();
    assert_eq!(v[0].value(), 1);
    assert_eq!(v[1].value(), u32::MAX % 2130706433);
    assert!(bytes_to_field_array(&[1, 2, 3], 1).is_none());
}

#[test]
fn hex_encoding() {
    assert_eq!(to_hex(&[0x00, 0x0f, 0xa5, 0xff]), "000fa5ff");
    assert_eq!(to_hex(&[]), "");
}

#[test]
fn words_are_little_endian() {
    assert_eq!(words_to_bytes(&[0x04030201, 0xa0b0c0d0]), vec![1, 2, 3, 4, 0xd0, 0xc0, 0xb0, 0xa0]);
}

#[test]
fn input_document() {
    assert_eq!(input_json(&[0x01020304]), "{\n  \"input\": [\"0x0104030201\"]\n}\n");
}

#[test]
fn plonky3_compression_is_not_doubling() {
    let input: Vec<KoalaBear> = (1..=16).map(KoalaBear::new).collect();
    let out = poseidon_compress(16, &input, 16);
    let doubled: Vec<KoalaBear> = input.iter().map(|&x| x + x).collect();
    assert_ne!(out, doubled);
    let out24 = poseidon_compress(24, &input, 8);
    assert_ne!(out24, doubled[..8].to_vec());
}
