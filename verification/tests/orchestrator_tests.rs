//! Orchestrator decision tests: jitter window, scan filters, factor
//! thresholds, per-region verdicts, and artifact naming.

use ultra_edr::analysis::analyze_region;
use ultra_edr::orchestrator::{
    analyze_mapped_region, build_risk_factors, dump_path, pick_jitter, scan_and_analyze,
    should_scan_process, should_scan_region, triage_region, RegionVerdict,
};
use ultra_edr::process::{MemoryRegion, Perms, ProcessInfo};
use ultra_edr::triage::RiskClass;

fn region(start: u64, end: u64, execute: bool, file_path: Option<&str>) -> MemoryRegion {
    MemoryRegion {
        start,
        end,
        perms: Perms {
            read: true,
            write: false,
            execute,
        },
        is_anonymous: file_path.is_none(),
        file_path: file_path.map(|p| p.to_string()),
    }
}

#[test]
fn jitter_stays_within_thirty_percent() {
    for _ in 0..50 {
        let j = pick_jitter(60);
        assert!((42..78).contains(&j), "jitter {} outside the window", j);
    }
    assert_eq!(pick_jitter(1), 0);
}

#[test]
fn pid_zero_is_skipped() {
    let p = ProcessInfo {
        pid: 0,
        name: "idle".to_string(),
    };
    assert!(!should_scan_process(&p));
    let q = ProcessInfo {
        pid: 1,
        name: "init".to_string(),
    };
    assert!(should_scan_process(&q));
}

#[test]
fn only_executable_regions_are_scanned() {
    assert!(should_scan_region(&region(0, 10, true, None)));
    assert!(!should_scan_region(&region(0, 10, false, None)));
}

#[test]
fn metadata_flags_come_from_the_region() {
    let r = region(0, 10, true, None);
    let a = analyze_mapped_region(&r, b"bytes", None);
    assert!(a.is_anonymous);
    assert!(a.has_no_backing_file);
    let r = region(0, 10, true, Some("/usr/lib/x.so"));
    let a = analyze_mapped_region(&r, b"bytes", None);
    assert!(!a.is_anonymous);
    assert!(!a.has_no_backing_file);
}

#[test]
fn high_entropy_threshold_is_six_and_a_half_bits() {
    let mut a = analyze_region(b"x", None);
    a.entropy_x1024 = 6656;
    assert!(!build_risk_factors(&a).high_entropy);
    a.entropy_x1024 = 6657;
    assert!(build_risk_factors(&a).high_entropy);
}

#[test]
fn benign_regions_are_ignored() {
    let r = region(0x1000, 0x2000, true, Some("/bin/ls"));
    let a = analyze_region(b"plain text, nothing odd", None);
    assert!(matches!(triage_region(&r, &a), RegionVerdict::Ignore));
}

#[test]
fn malicious_regions_are_carved_when_bounds_hold() {
    let r = region(0x1000, 0x2000, true, None);
    // anonymous + header + syscalls + high entropy: well past the threshold
    let mut a = analyze_region(&[0x4D, 0x5A, 0x4C, 0x8B, 0xD1, 0xB8, 0x00, 0x00], None);
    a.is_anonymous = true;
    a.entropy_x1024 = 8000;
    a.compressed_entropy_score = 20;
    match triage_region(&r, &a) {
        RegionVerdict::Carve(s) => {
            assert_eq!(s.score, 30 + 10 + 20 + 15 + 20);
            assert_eq!(s.classification, RiskClass::Malicious);
        },
        other => panic!("expected a carve verdict, got {:?}", other),
    }
}

#[test]
fn malicious_region_with_invalid_bounds_is_skipped() {
    let r = region(0x2000, 0x2000, true, None);
    let mut a = analyze_region(&[0x4D, 0x5A, 0x4C, 0x8B, 0xD1, 0xB8, 0x00, 0x00], None);
    a.is_anonymous = true;
    a.entropy_x1024 = 8000;
    a.compressed_entropy_score = 20;
    assert!(matches!(triage_region(&r, &a), RegionVerdict::InvalidBounds(_)));
}

#[test]
fn suspicious_regions_are_logged_only() {
    let r = region(0x1000, 0x2000, true, None);
    let mut a = analyze_region(b"somewhat odd", None);
    a.is_anonymous = true;
    a.entropy_x1024 = 7000; // high entropy (30) + anonymous (10) + rescaled entropy
    a.compressed_entropy_score = 17;
    match triage_region(&r, &a) {
        RegionVerdict::LogOnly(s) => {
            assert_eq!(s.score, 57);
            assert_eq!(s.classification, RiskClass::Suspicious);
        },
        other => panic!("expected a log-only verdict, got {:?}", other),
    }
}

#[test]
fn scan_pass_skips_unreadable_and_non_executable_regions() {
    let input = vec![
        (region(0, 10, true, None), Some(b"readable".to_vec())),
        (region(10, 20, false, None), Some(b"not exec".to_vec())),
        (region(20, 30, true, None), None),
        (region(30, 40, true, Some("/lib/a.so")), Some(vec![0x4D, 0x5A, 0x90])),
    ];
    let results = scan_and_analyze(input);
    assert_eq!(results.len(), 2);
    assert_eq!(results[0].0.start, 0);
    assert!(results[0].1.is_anonymous);
    assert_eq!(results[1].0.start, 30);
    assert!(results[1].1.has_pe_header);
    assert!(!results[1].1.is_anonymous);
}

#[test]
fn dump_path_embeds_pid_and_bounds() {
    assert_eq!(dump_path(1234, 10, 20), "/tmp/edr_dump_1234_10_20.bin");
    assert_eq!(dump_path(0, 0, 0), "/tmp/edr_dump_0_0_0.bin");
    assert_eq!(
        dump_path(u32::MAX, u64::MAX, 1),
        format!("/tmp/edr_dump_{}_{}_1.bin", u32::MAX, u64::MAX)
    );
}
