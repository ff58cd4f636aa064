//! Carving protocol tests: the artifact frame, the round trip, and that any
//! tampering with the stored artifact fails authentication.

use ultra_edr::carving::{seal_region, unseal_artifact};
use ultra_edr::hashing::{key_from_passphrase, sha256_hash};
use ultra_edr::orchestrator::{carve_region_data, CarveOutcome};

fn sealed(data: &[u8], key: &[u8; 32]) -> Vec<u8> {
    seal_region(data, key).expect("sealing failed")
}

#[test]
fn artifact_is_nonce_then_ciphertext_and_tag() {
    let key = key_from_passphrase("ultra_edr_secret");
    let data = b"region bytes to preserve";
    let art = sealed(data, &key);
    assert_eq!(art.len(), data.len() + 12 + 16);
}

#[test]
fn carve_round_trip_reconstructs_exactly() {
    let key = key_from_passphrase("ultra_edr_secret");
    let data = b"for all B and 256-bit keys K";
    let art = sealed(data, &key);
    assert_eq!(unseal_artifact(&art, &key), Some(data.to_vec()));
}

#[test]
fn fresh_nonce_per_call() {
    let key = key_from_passphrase("k");
    let a = sealed(b"same input", &key);
    let b = sealed(b"same input", &key);
    assert_ne!(a[..12], b[..12], "nonce reuse under one key");
}

#[test]
fn wrong_key_fails_authentication() {
    let key = key_from_passphrase("right");
    let art = sealed(b"payload", &key);
    let other = key_from_passphrase("wrong");
    assert_eq!(unseal_artifact(&art, &other), None);
}

#[test]
fn single_bit_flip_fails_authentication() {
    let key = key_from_passphrase("k");
    let data = b"bit flip target";
    let art = sealed(data, &key);
    for pos in [0usize, 5, 12, art.len() - 1] {
        let mut bad = art.clone();
        bad[pos] ^= 1;
        assert_eq!(unseal_artifact(&bad, &key), None, "flip at {} accepted", pos);
    }
}

#[test]
fn truncation_fails_authentication() {
    let key = key_from_passphrase("k");
    let art = sealed(b"truncate me", &key);
    for keep in [0usize, 5, 12, art.len() - 1] {
        let bad = &art[..keep];
        assert_eq!(unseal_artifact(bad, &key), None, "truncation to {} accepted", keep);
    }
}

#[test]
fn appended_byte_fails_authentication() {
    let key = key_from_passphrase("k");
    let mut bad = sealed(b"append to me", &key);
    bad.push(0);
    assert_eq!(unseal_artifact(&bad, &key), None);
}

#[test]
fn zeroed_overwrite_fails_authentication() {
    let key = key_from_passphrase("k");
    let art = sealed(b"zero me out", &key);
    let bad = vec![0u8; art.len()];
    assert_eq!(unseal_artifact(&bad, &key), None);
}

#[test]
fn carve_step_rejects_empty_reads() {
    let key = key_from_passphrase("k");
    assert!(matches!(carve_region_data(&[], &key), CarveOutcome::EmptyRegion));
}

#[test]
fn carve_step_hashes_before_dumping() {
    let key = key_from_passphrase("k");
    let data = b"malicious region bytes";
    match carve_region_data(data, &key) {
        CarveOutcome::Sealed { artifact, digest } => {
            assert_eq!(digest, sha256_hash(data));
            assert_eq!(unseal_artifact(&artifact, &key), Some(data.to_vec()));
        },
        other => panic!("expected a sealed artifact, got {:?}", other),
    }
}
