//! Risk scoring and region classification.
//!
//! Scoring is a deterministic, side-effect-free function of the observed
//! risk factors; classification is a fixed three-tier partition of the score.

use vstd::prelude::*;

verus! {

/// Risk factors observed for a memory region.
///
/// `compressed_entropy_score` is the region's Shannon entropy rescaled to
/// `0..=20`; any value above 20 is treated as 20 by the scoring functions.
#[derive(Debug, Clone, Copy, PartialEq, Eq, Structural)]
pub struct RiskFactors {
    /// High entropy detected (above the orchestrator's threshold).
    pub high_entropy: bool,
    /// Region is anonymous (not backed by a file).
    pub is_anonymous: bool,
    /// Executable-header magic detected at the region start.
    pub has_pe_header: bool,
    /// Direct-syscall stub pattern detected.
    pub contains_syscalls: bool,
    /// No backing file (carries no weight of its own).
    pub has_no_backing_file: bool,
    /// Region content changed since the previous scan.
    pub diffed_from_last_scan: bool,
    /// Entropy rescaled to `0..=20`.
    pub compressed_entropy_score: u32,
}

impl Default for RiskFactors {
    /// All factors off, zero entropy contribution.
    fn default() -> (r: Self)
        ensures
            r == (RiskFactors {
                high_entropy: false,
                is_anonymous: false,
                has_pe_header: false,
                contains_syscalls: false,
                has_no_backing_file: false,
                diffed_from_last_scan: false,
                compressed_entropy_score: 0u32,
            }),
    {
        RiskFactors {
            high_entropy: false,
            is_anonymous: false,
            has_pe_header: false,
            contains_syscalls: false,
            has_no_backing_file: false,
            diffed_from_last_scan: false,
            compressed_entropy_score: 0,
        }
    }
}

/// Three-tier risk classification.
#[derive(Debug, Clone, Copy, PartialEq, Eq, Structural)]
pub enum RiskClass {
    /// Total score below 50.
    Benign,
    /// Total score in 50..=80.
    Suspicious,
    /// Total score above 80.
    Malicious,
}

/// Risk score result: the total, its classification, and the factors scored.
#[derive(Debug, Clone, Copy, PartialEq, Eq, Structural)]
pub struct RiskScore {
    /// Total score.
    pub score: u32,
    /// Classification of the total.
    pub classification: RiskClass,
    /// The factors that produced the total.
    pub factors: RiskFactors,
}

/// The entropy contribution, capped at 20.
pub open spec fn spec_entropy_weight(f: RiskFactors) -> int {
    if f.compressed_entropy_score > 20 {
        20int
    } else {
        f.compressed_entropy_score as int
    }
}

/// The deterministic total: fixed weights for the boolean factors plus the
/// capped entropy contribution. `has_no_backing_file` carries no weight.
pub open spec fn spec_score(f: RiskFactors) -> int {
    (if f.high_entropy {
        30int
    } else {
        0int
    }) + (if f.is_anonymous {
        10int
    } else {
        0int
    }) + (if f.has_pe_header {
        20int
    } else {
        0int
    }) + (if f.contains_syscalls {
        15int
    } else {
        0int
    }) + (if f.diffed_from_last_scan {
        10int
    } else {
        0int
    }) + spec_entropy_weight(f)
}

/// Fixed three-tier partition: below 50 benign, 50..=80 suspicious,
/// above 80 malicious.
pub open spec fn spec_classify(score: int) -> RiskClass {
    if score < 50 {
        RiskClass::Benign
    } else if score <= 80 {
        RiskClass::Suspicious
    } else {
        RiskClass::Malicious
    }
}

/// Calculate the total risk score from factors.
pub fn score(f: &RiskFactors) -> (total: u32)
    ensures
        total == spec_score(*f),
        total <= 105,
{
    let mut s: u32 = 0;
    if f.high_entropy {
        s += 30;
    }
    if f.is_anonymous {
        s += 10;
    }
    if f.has_pe_header {
        s += 20;
    }
    if f.contains_syscalls {
        s += 15;
    }
    if f.diffed_from_last_scan {
        s += 10;
    }
    if f.compressed_entropy_score > 20 {
        s += 20;
    } else {
        s += f.compressed_entropy_score;
    }
    s
}

/// Score the factors and classify the total.
pub fn score_factors(f: &RiskFactors) -> (r: RiskScore)
    ensures
        r.score == spec_score(*f),
        r.classification == spec_classify(r.score as int),
        r.factors == *f,
{
    let total = score(f);
    let classification = if total < 50 {
        RiskClass::Benign
    } else if total <= 80 {
        RiskClass::Suspicious
    } else {
        RiskClass::Malicious
    };
    RiskScore { score: total, classification, factors: *f }
}

/// Name the classification of a total score.
pub fn classify(score: u32) -> (label: &'static str)
    ensures
        label@ == (if score < 50 {
            "benign"@
        } else if score <= 80 {
            "suspicious"@
        } else {
            "likely malicious"@
        }),
{
    if score < 50 {
        "benign"
    } else if score <= 80 {
        "suspicious"
    } else {
        "likely malicious"
    }
}

/// Pointwise comparison of factors: every factor of `a` is at most that of `b`.
pub open spec fn factors_le(a: RiskFactors, b: RiskFactors) -> bool {
    &&& (a.high_entropy ==> b.high_entropy)
    &&& (a.is_anonymous ==> b.is_anonymous)
    &&& (a.has_pe_header ==> b.has_pe_header)
    &&& (a.contains_syscalls ==> b.contains_syscalls)
    &&& (a.has_no_backing_file ==> b.has_no_backing_file)
    &&& (a.diffed_from_last_scan ==> b.diffed_from_last_scan)
    &&& a.compressed_entropy_score <= b.compressed_entropy_score
}

/// The score is monotonic in the factors: turning a factor on, or raising the
/// entropy contribution, never lowers the total.
pub proof fn lemma_score_monotonic(a: RiskFactors, b: RiskFactors)
    requires
        factors_le(a, b),
    ensures
        spec_score(a) <= spec_score(b),
{
}

/// Identical factors yield the identical score and classification.
pub proof fn lemma_score_deterministic(a: RiskFactors, b: RiskFactors)
    requires
        a == b,
    ensures
        spec_score(a) == spec_score(b),
        spec_classify(spec_score(a)) == spec_classify(spec_score(b)),
{
}

} // verus!
