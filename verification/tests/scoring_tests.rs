//! Risk-engine tests: the exact weights, the classification boundaries, and
//! monotonicity checked on concrete factor sets.

use ultra_edr::triage::{classify, score, score_factors, RiskClass, RiskFactors};

fn factors() -> RiskFactors {
    RiskFactors {
        high_entropy: false,
        is_anonymous: false,
        has_pe_header: false,
        contains_syscalls: false,
        has_no_backing_file: false,
        diffed_from_last_scan: false,
        compressed_entropy_score: 0,
    }
}

#[test]
fn all_false_factors_score_zero_and_benign() {
    let r = score_factors(&factors());
    assert_eq!(r.score, 0);
    assert_eq!(r.classification, RiskClass::Benign);
}

#[test]
fn weights_are_exact() {
    let mut f = factors();
    f.high_entropy = true;
    assert_eq!(score(&f), 30);
    let mut f = factors();
    f.is_anonymous = true;
    assert_eq!(score(&f), 10);
    let mut f = factors();
    f.has_pe_header = true;
    assert_eq!(score(&f), 20);
    let mut f = factors();
    f.contains_syscalls = true;
    assert_eq!(score(&f), 15);
    let mut f = factors();
    f.diffed_from_last_scan = true;
    assert_eq!(score(&f), 10);
    let mut f = factors();
    f.has_no_backing_file = true;
    assert_eq!(score(&f), 0, "no backing file carries no weight of its own");
    let mut f = factors();
    f.compressed_entropy_score = 17;
    assert_eq!(score(&f), 17);
}

#[test]
fn entropy_contribution_is_capped_at_twenty() {
    let mut f = factors();
    f.compressed_entropy_score = 1000;
    assert_eq!(score(&f), 20);
}

#[test]
fn classification_boundaries() {
    assert_eq!(classify(49), "benign");
    assert_eq!(classify(50), "suspicious");
    assert_eq!(classify(80), "suspicious");
    assert_eq!(classify(81), "likely malicious");
    assert_eq!(classify(0), "benign");
    assert_eq!(classify(105), "likely malicious");
}

#[test]
fn score_boundaries_classify_exactly() {
    // 30 + 15 + 4 = 49: benign
    let mut f = factors();
    f.high_entropy = true;
    f.contains_syscalls = true;
    f.compressed_entropy_score = 4;
    let r = score_factors(&f);
    assert_eq!(r.score, 49);
    assert_eq!(r.classification, RiskClass::Benign);
    // 30 + 20 = 50: suspicious
    let mut f = factors();
    f.high_entropy = true;
    f.has_pe_header = true;
    let r = score_factors(&f);
    assert_eq!(r.score, 50);
    assert_eq!(r.classification, RiskClass::Suspicious);
    // 30 + 10 + 20 + 15 + 5 = 80: suspicious
    let mut f = factors();
    f.high_entropy = true;
    f.is_anonymous = true;
    f.has_pe_header = true;
    f.contains_syscalls = true;
    f.compressed_entropy_score = 5;
    let r = score_factors(&f);
    assert_eq!(r.score, 80);
    assert_eq!(r.classification, RiskClass::Suspicious);
    // one more point: malicious
    f.compressed_entropy_score = 6;
    let r = score_factors(&f);
    assert_eq!(r.score, 81);
    assert_eq!(r.classification, RiskClass::Malicious);
}

#[test]
fn suspicious_scenario_scores_sixty_five() {
    let f = RiskFactors {
        high_entropy: true,
        is_anonymous: true,
        has_pe_header: true,
        contains_syscalls: false,
        has_no_backing_file: false,
        diffed_from_last_scan: false,
        compressed_entropy_score: 5,
    };
    let r = score_factors(&f);
    assert_eq!(r.score, 65);
    assert_eq!(r.classification, RiskClass::Suspicious);
    assert_eq!(r.factors, f);
}

#[test]
fn turning_a_factor_on_never_lowers_the_score() {
    let mut low = factors();
    low.compressed_entropy_score = 3;
    let mut high = low;
    high.is_anonymous = true;
    high.diffed_from_last_scan = true;
    high.compressed_entropy_score = 9;
    assert!(score(&low) <= score(&high));
}

#[test]
fn identical_factors_give_identical_scores() {
    let mut f = factors();
    f.high_entropy = true;
    f.compressed_entropy_score = 12;
    let a = score_factors(&f);
    let b = score_factors(&f);
    assert_eq!(a.score, b.score);
    assert_eq!(a.classification, b.classification);
}
