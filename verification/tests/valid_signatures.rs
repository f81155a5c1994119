use leansig_zkvm::constants::{HASH_LEN, NUM_CHAINS, TREE_HEIGHT};
use leansig_zkvm::encoding::compute_codeword;
use leansig_zkvm::koalabear::KoalaBear;
use leansig_zkvm::openvm::xmss_types::{PublicKey as WirePublicKey, Signature as WireSignature, Statement, TslParams, VerificationBatch, Witness};
use leansig_zkvm::openvm::xmss_verify::{self as batch_verify, verify_batch, verify_one};
use leansig_zkvm::poseidon::{chain_walk, poseidon_apply, PoseidonTweak};
use leansig_zkvm::risc0::encoding::compute_codeword as codeword_of;
use leansig_zkvm::risc0::field::FieldArray;
use leansig_zkvm::risc0::types::{PublicKey as FaPublicKey, Signature as FaSignature};
use leansig_zkvm::risc0::verify::verify_signature as verify_fa;
use leansig_zkvm::risc0::tweak_hash::{apply, chain, Tweak};
use leansig_zkvm::types::{PublicKey, Signature};
use leansig_zkvm::verify::verify_signature;

fn fe(v: u32) -> KoalaBear {
    KoalaBear::new(v)
}

fn hash_at(seed: u32) -> [KoalaBear; HASH_LEN] {
    let mut h = [fe(0); HASH_LEN];
    for (i, x) in h.iter_mut().enumerate() {
        *x = fe(seed.wrapping_mul(2654435761).wrapping_add(i as u32 * 97) % 2130706433);
    }
    h
}

#[test]
fn honestly_built_signature_verifies() {
    let parameter = [fe(11), fe(22), fe(33), fe(44), fe(55)];
    let rho = [fe(1), fe(2), fe(3), fe(4), fe(5), fe(6)];
    let epoch: u32 = 5;
    let message = [0x5au8; 32];
    let hashes: Vec<[KoalaBear; HASH_LEN]> = (0..NUM_CHAINS as u32).map(hash_at).collect();
    let path: Vec<[KoalaBear; HASH_LEN]> = (0..TREE_HEIGHT as u32).map(|l| hash_at(10_000 + l)).collect();

    let codeword = compute_codeword(&parameter, epoch, &rho, &message);
    let ends: Vec<[KoalaBear; HASH_LEN]> = (0..NUM_CHAINS)
        .map(|i| chain_walk(&parameter, epoch, i as u8, codeword[i], (1 - codeword[i]) as usize, &hashes[i]))
        .collect();
    let mut current = poseidon_apply(&parameter, &PoseidonTweak::tree(0, epoch), &ends);
    let mut idx = epoch;
    for (level, sibling) in path.iter().enumerate() {
        let children = if idx & 1 == 0 { [current, *sibling] } else { [*sibling, current] };
        idx >>= 1;
        current = poseidon_apply(&parameter, &PoseidonTweak::tree(level as u8 + 1, idx), &children);
    }
    let pk = PublicKey { root: current, parameter };
    let sig = Signature { path: path.clone(), rho, hashes: hashes.clone(), leaf_index: epoch };
    assert!(verify_signature(&pk, epoch, &message, &sig));

    let mut wrong_message = message;
    wrong_message[0] ^= 1;
    assert!(!verify_signature(&pk, epoch, &wrong_message, &sig));
    let mut tampered = Signature { path, rho, hashes, leaf_index: epoch };
    tampered.hashes[7][0] = tampered.hashes[7][0] + fe(1);
    assert!(!verify_signature(&pk, epoch, &message, &tampered));
}

#[test]
fn honestly_built_field_array_signature_verifies() {
    let parameter = FieldArray::new([fe(7), fe(8), fe(9), fe(10), fe(11)]);
    let rho = FieldArray::new([fe(21), fe(22), fe(23), fe(24), fe(25), fe(26)]);
    let epoch: u32 = 12;
    let message = [0x33u8; 32];
    let hashes: Vec<FieldArray<HASH_LEN>> = (0..NUM_CHAINS as u32).map(|i| FieldArray::new(hash_at(i + 500))).collect();
    let path: Vec<FieldArray<HASH_LEN>> = (0..TREE_HEIGHT as u32).map(|l| FieldArray::new(hash_at(20_000 + l))).collect();

    let codeword = codeword_of(&parameter, epoch, &rho, &message);
    let ends: Vec<FieldArray<HASH_LEN>> = (0..NUM_CHAINS)
        .map(|i| chain(&parameter, epoch, i as u8, codeword[i], (1 - codeword[i]) as usize, &hashes[i]))
        .collect();
    let mut current = apply(&parameter, &Tweak::tree_tweak(0, epoch), &ends);
    let mut idx = epoch;
    for (level, sibling) in path.iter().enumerate() {
        let children = if idx & 1 == 0 { [current, *sibling] } else { [*sibling, current] };
        idx >>= 1;
        current = apply(&parameter, &Tweak::tree_tweak(level as u8 + 1, idx), &children);
    }
    let pk = FaPublicKey { root: current, parameter };
    let sig = FaSignature { path, rho, hashes, leaf_index: epoch };
    assert!(verify_fa(&pk, epoch, &message, &sig));
    assert!(!verify_fa(&pk, epoch + 1, &message, &FaSignature { leaf_index: epoch + 1, ..sig.clone() }));
}

fn to_bytes(h: &[KoalaBear]) -> Vec<u8> {
    h.iter().flat_map(|x| x.value().to_le_bytes()).collect()
}

#[test]
fn honestly_built_batch_verifies() {
    let parameter = [fe(101), fe(102), fe(103), fe(104), fe(105)];
    let rho = [fe(31), fe(32), fe(33), fe(34), fe(35), fe(36)];
    let epoch: u32 = 3;
    let message = [0x11u8; 32];
    let hashes: Vec<[KoalaBear; HASH_LEN]> = (0..NUM_CHAINS as u32).map(|i| hash_at(i + 900)).collect();
    let path: Vec<[KoalaBear; HASH_LEN]> = (0..TREE_HEIGHT as u32).map(|l| hash_at(30_000 + l)).collect();

    let codeword = batch_verify::targetsim_codeword(&parameter, epoch, &rho, &message);
    let ends: Vec<[KoalaBear; HASH_LEN]> = (0..NUM_CHAINS)
        .map(|i| batch_verify::walk_chain(&parameter, epoch, i as u8, codeword[i], (1 - codeword[i]) as usize, &hashes[i]))
        .collect();
    let mut current = batch_verify::poseidon_apply(&parameter, &PoseidonTweak::tree(0, epoch), &ends);
    let mut idx = epoch;
    for (level, sibling) in path.iter().enumerate() {
        let children = if idx & 1 == 0 { [current, *sibling] } else { [*sibling, current] };
        idx >>= 1;
        current = batch_verify::poseidon_apply(&parameter, &PoseidonTweak::tree(level as u8 + 1, idx), &children);
    }
    assert!(batch_verify::hash_tree_verify(&parameter, &current, epoch, &ends, &path));

    let pk = WirePublicKey { root: to_bytes(&current), parameter: to_bytes(&parameter) };
    let sig = WireSignature {
        leaf_index: epoch,
        randomness: to_bytes(&rho),
        wots_chain_ends: hashes.iter().map(|h| to_bytes(h)).collect(),
        auth_path: path.iter().map(|h| to_bytes(h)).collect(),
    };
    assert!(verify_one(&sig, &pk, &message, epoch));

    let batch = VerificationBatch {
        params: TslParams { w: 2, v: 155, d0: 0, security_bits: 128, tree_height: 18 },
        statement: Statement { k: 2, ep: epoch as u64, m: message.to_vec(), public_keys: vec![pk.clone(), pk.clone()] },
        witness: Witness { signatures: vec![sig.clone(), sig.clone()] },
    };
    assert_eq!(verify_batch(&batch), (true, 2));
    let outputs = batch_verify::public_outputs(&batch);
    assert_eq!(outputs[0], 1);
    assert_eq!(outputs[1], 2);

    let mut bad = sig.clone();
    bad.randomness[0] ^= 1;
    let mixed = VerificationBatch {
        witness: Witness { signatures: vec![sig, bad] },
        ..batch
    };
    assert_eq!(verify_batch(&mixed), (false, 2));
}
