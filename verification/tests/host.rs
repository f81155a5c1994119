use leansig_zkvm::export::{export_public_key, export_signature, LeansigExportError};
use leansig_zkvm::host::{validate_epoch_range, XmssHostError};
use leansig_zkvm::zkvm::{children_maxrss_bytes, ZkvmHost};

#[test]
fn epoch_validation_passes_within_range() {
    validate_epoch_range(10, 5, 12).expect("epoch inside range");
}

#[test]
fn epoch_validation_errors_outside_range() {
    let err = validate_epoch_range(10, 5, 42).expect_err("epoch must be rejected");
    assert!(matches!(
        err,
        XmssHostError::EpochOutOfRange {
            epoch: 42,
            activation_epoch: 10,
            num_active_epochs: 5
        }
    ));
}

#[test]
fn epoch_validation_bounds() {
    assert!(validate_epoch_range(10, 5, 10).is_ok());
    assert!(validate_epoch_range(10, 5, 14).is_ok());
    assert!(validate_epoch_range(10, 5, 15).is_err());
    assert!(validate_epoch_range(10, 5, 9).is_err());
    assert!(validate_epoch_range(0, 0, 0).is_err());
}

#[test]
fn epoch_validation_rejects_overflowing_range() {
    let err = validate_epoch_range(usize::MAX, 2, 7).unwrap_err();
    assert_eq!(
        err,
        XmssHostError::EpochOutOfRange { epoch: 7, activation_epoch: usize::MAX, num_active_epochs: 2 }
    );
}

#[test]
fn public_key_export_splits_root_and_parameter() {
    let bytes: Vec<u8> = (0..48u8).collect();
    let pk = export_public_key(&bytes).unwrap();
    assert_eq!(pk.root, (0..28u8).collect::<Vec<u8>>());
    assert_eq!(pk.parameter, (28..48u8).collect::<Vec<u8>>());
    let mut rejoined = pk.root.clone();
    rejoined.extend_from_slice(&pk.parameter);
    assert_eq!(rejoined, bytes);
}

#[test]
fn public_key_export_rejects_wrong_length() {
    match export_public_key(&[0u8; 47]) {
        Err(LeansigExportError::InvalidByteLength { expected, actual }) => {
            assert_eq!(expected, 48);
            assert_eq!(actual, 47);
        }
        _ => panic!("expected a length error"),
    }
}

fn signature_bytes(path_nodes: usize, chains: usize) -> Vec<u8> {
    let path_offset: u32 = 32;
    let hashes_offset: u32 = path_offset + 4 + (path_nodes * 28) as u32;
    let mut bytes = Vec::new();
    bytes.extend_from_slice(&path_offset.to_le_bytes());
    bytes.extend((0..24u8).map(|i| 100 + i));
    bytes.extend_from_slice(&hashes_offset.to_le_bytes());
    bytes.extend_from_slice(&4u32.to_le_bytes());
    for n in 0..path_nodes {
        bytes.extend(std::iter::repeat(n as u8).take(28));
    }
    for c in 0..chains {
        bytes.extend(std::iter::repeat((c % 251) as u8).take(28));
    }
    bytes
}

#[test]
fn signature_export_reads_fields() {
    let bytes = signature_bytes(18, 155);
    let sig = export_signature(&bytes).unwrap();
    assert_eq!(sig.randomness, (0..24u8).map(|i| 100 + i).collect::<Vec<u8>>());
    assert_eq!(sig.auth_path.len(), 18);
    assert_eq!(sig.chain_hashes.len(), 155);
    assert_eq!(sig.auth_path[3], vec![3u8; 28]);
    assert_eq!(sig.chain_hashes[154], vec![154u8; 28]);
}

#[test]
fn signature_export_rejects_short_input() {
    match export_signature(&[0u8; 31]) {
        Err(LeansigExportError::InvalidByteLength { expected, actual }) => {
            assert_eq!((expected, actual), (32, 31));
        }
        _ => panic!("expected a length error"),
    }
}

#[test]
fn signature_export_rejects_wrong_path_length() {
    let bytes = signature_bytes(17, 155);
    match export_signature(&bytes) {
        Err(LeansigExportError::UnexpectedChainCount { expected, actual }) => {
            assert_eq!((expected, actual), (18, 17));
        }
        _ => panic!("expected a path count error"),
    }
}

#[test]
fn signature_export_rejects_wrong_chain_count() {
    let bytes = signature_bytes(18, 154);
    match export_signature(&bytes) {
        Err(LeansigExportError::UnexpectedChainCount { expected, actual }) => {
            assert_eq!((expected, actual), (155, 154));
        }
        _ => panic!("expected a chain count error"),
    }
}

#[test]
fn maxrss_conversion() {
    assert_eq!(children_maxrss_bytes(0, 10, false), Some(10240));
    assert_eq!(children_maxrss_bytes(0, 10, true), Some(10));
    assert_eq!(children_maxrss_bytes(-1, 10, false), None);
    assert_eq!(children_maxrss_bytes(0, -3, true), None);
    assert_eq!(children_maxrss_bytes(0, i64::MAX, false), Some(u64::MAX));
}

#[test]
fn zkvm_host_reports_unimplemented_backend() {
    let host = ZkvmHost::new().unwrap();
    assert_eq!(host.generate_proof(&[1, 2, 3]), Err(String::from("OpenVM proof generation is not implemented")));
    assert_eq!(host.verify_proof(&[]), Err(String::from("OpenVM proof verification is not implemented")));
}
