//! Content-heuristic tests: entropy range and exact fixed-point values,
//! signatures, digest diffing, and the digest and hex wrappers.

use ultra_edr::analysis::{analyze_region, shannon_entropy};
use ultra_edr::hashing::{key_from_passphrase, sha256_hash};

#[test]
fn entropy_of_empty_is_zero() {
    assert_eq!(shannon_entropy(&[]), 0);
    let a = analyze_region(&[], None);
    assert_eq!(a.entropy_x1024, 0);
    assert_eq!(a.compressed_entropy_score, 0);
}

#[test]
fn entropy_of_uniform_buffer_is_zero() {
    assert_eq!(shannon_entropy(&[7u8; 4096]), 0);
}

#[test]
fn entropy_of_two_symbols_is_one_bit() {
    // one 'A' and one 'B': exactly 1.000 bits = 1024
    assert_eq!(shannon_entropy(&[65, 66]), 1024);
}

#[test]
fn entropy_of_all_byte_values_is_eight_bits() {
    let data: Vec<u8> = (0u8..=255).collect();
    assert_eq!(shannon_entropy(&data), 8192);
    let a = analyze_region(&data, None);
    assert_eq!(a.compressed_entropy_score, 20);
}

#[test]
fn entropy_always_within_range() {
    let mut buffers: Vec<Vec<u8>> = vec![
        vec![],
        vec![0],
        vec![0, 255],
        b"hello world".to_vec(),
        (0u8..=255).cycle().take(70000).collect(),
    ];
    let mut seed = 0x12345678u32;
    let mut noisy = Vec::new();
    for _ in 0..5000 {
        seed = seed.wrapping_mul(1103515245).wrapping_add(12345);
        noisy.push((seed >> 16) as u8);
    }
    buffers.push(noisy);
    for b in &buffers {
        let e = shannon_entropy(b);
        assert!(e <= 8192, "entropy {} out of range for len {}", e, b.len());
        if b.is_empty() {
            assert_eq!(e, 0);
        }
    }
}

#[test]
fn header_magic_needs_two_bytes() {
    assert!(analyze_region(&[0x4D, 0x5A], None).has_pe_header);
    assert!(analyze_region(&[0x4D, 0x5A, 0x90], None).has_pe_header);
    assert!(!analyze_region(&[0x4D], None).has_pe_header);
    assert!(!analyze_region(&[0x4D, 0x5B], None).has_pe_header);
    assert!(!analyze_region(&[], None).has_pe_header);
}

#[test]
fn syscall_stub_pattern_detected() {
    let sig = [0x4Cu8, 0x8B, 0xD1, 0xB8, 0x00, 0x00];
    let mut data = vec![0x90u8; 64];
    data.extend_from_slice(&sig);
    data.extend_from_slice(&[0x0F, 0x05]);
    assert!(analyze_region(&data, None).contains_syscalls);
    assert!(!analyze_region(&[0x4C, 0x8B, 0xD1, 0xB8, 0x00], None).contains_syscalls);
    assert!(!analyze_region(b"no stub in here at all", None).contains_syscalls);
}

#[test]
fn diff_against_previous_hash() {
    let data = b"some region contents";
    let same = sha256_hash(data);
    assert!(!analyze_region(data, Some(same)).diffed_from_last_scan);
    assert!(analyze_region(data, Some([0u8; 32])).diffed_from_last_scan);
    assert!(!analyze_region(data, None).diffed_from_last_scan);
}

#[test]
fn analyzer_leaves_metadata_flags_to_caller() {
    let a = analyze_region(b"anything", None);
    assert!(!a.is_anonymous);
    assert!(!a.has_no_backing_file);
}

#[test]
fn sha256_known_vector() {
    let digest = sha256_hash(b"");
    assert_eq!(
        hex::encode(digest),
        "e3b0c44298fc1c149afbf4c8996fb92427ae41e4649b934ca495991b7852b855"
    );
    let digest2 = sha256_hash(b"abc");
    assert_eq!(
        hex::encode(digest2),
        "ba7816bf8f01cfea414140de5dae2223b00361a396177a9cb410ff61f20015ad"
    );
}

#[test]
fn key_derivation_hashes_the_passphrase() {
    assert_eq!(key_from_passphrase("ultra_edr_secret"), sha256_hash(b"ultra_edr_secret"));
}
