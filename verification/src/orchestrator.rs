//! The scan orchestrator's per-pass decisions: jittered sleep intervals,
//! which processes and regions to scan, turning an analysis into risk
//! factors, the per-region verdict, and the carving step for a malicious
//! region. The loop itself — sleeping, enumerating, reading, writing,
//! logging — runs outside the library and feeds these functions.

use crate::analysis::{analyze_region, content_analysis_matches, prev_view, RegionAnalysis};
use crate::carving::{seal_region, sealed_artifact};
use crate::hashing::{sha256_hash, sha256_of};
use crate::process::{MemoryRegion, ProcessInfo};
use crate::render::{dec_chars, u64_to_string};
use crate::triage::{score_factors, spec_classify, spec_score, RiskClass, RiskFactors, RiskScore};
use rand::Rng;
use vstd::arithmetic::div_mod::{lemma_div_is_ordered, lemma_hoist_over_denominator};
use vstd::prelude::*;
use vstd::string::StringExecFns;

verus! {

/// Draw a number in `lo..hi`.
///
/// Relies on `rand::Rng::gen_range` on a `ThreadRng`: the draw lies in the
/// half-open range; an empty range would panic, so the range must be
/// nonempty. Nothing is promised about which value comes back.
#[verifier::external_body]
fn rand_range(lo: u64, hi: u64) -> (r: u64)
    requires
        lo < hi,
    ensures
        lo <= r < hi,
{
    rand::thread_rng().gen_range(lo..hi)
}

/// Pick the jittered sleep before the next pass: uniform in plus or minus
/// 30 percent of the interval, defeating fixed-period detection. The interval
/// bound keeps the upper end of the window inside the machine word.
pub fn pick_jitter(interval: u64) -> (r: u64)
    requires
        1 <= interval <= u64::MAX / 13,
    ensures
        interval * 7 / 10 <= r < interval * 13 / 10,
{
    proof {
        assert(interval * 13 <= (u64::MAX / 13) * 13 <= u64::MAX) by (nonlinear_arith)
            requires
                interval <= u64::MAX / 13,
        ;
        if interval >= 2 {
            assert(interval * 7 + 10 <= interval * 13) by (nonlinear_arith)
                requires
                    interval >= 2,
            ;
            lemma_hoist_over_denominator(interval as int * 7, 1, 10);
            lemma_div_is_ordered(interval as int * 7 + 10, interval as int * 13, 10);
        }
    }
    let lo = interval * 7 / 10;
    let hi = interval * 13 / 10;
    rand_range(lo, hi)
}

/// Whether a process is scanned at all: pid 0 is skipped defensively.
pub fn should_scan_process(p: &ProcessInfo) -> (r: bool)
    ensures
        r == (p.pid != 0),
{
    p.pid != 0
}

/// Whether a region's content is scanned: only executable regions are, for
/// stealth and cost.
pub fn should_scan_region(region: &MemoryRegion) -> (r: bool)
    ensures
        r == region.perms.execute,
{
    region.perms.execute
}

/// Analyze a region's bytes and fill in the metadata flags the pure analyzer
/// leaves to the caller.
pub fn analyze_mapped_region(
    region: &MemoryRegion,
    data: &[u8],
    previous_hash: Option<[u8; 32]>,
) -> (r: RegionAnalysis)
    ensures
        content_analysis_matches(data@, prev_view(previous_hash), r),
        r.is_anonymous == region.is_anonymous,
        r.has_no_backing_file == (region.file_path is None),
{
    let mut analysis = analyze_region(data, previous_hash);
    analysis.is_anonymous = region.is_anonymous;
    analysis.has_no_backing_file = match &region.file_path {
        Some(_) => false,
        None => true,
    };
    analysis
}

/// The analyses a scan pass yields: exactly the executable regions whose
/// bytes could be read, in order, each analyzed with no previous digest and
/// its metadata flags filled from the region.
pub open spec fn scan_results_match(
    input: Seq<(MemoryRegion, Option<Vec<u8>>)>,
    out: Seq<(MemoryRegion, RegionAnalysis)>,
) -> bool
    decreases input.len(),
{
    if input.len() == 0 {
        out.len() == 0
    } else {
        let reg = input.last().0;
        match input.last().1 {
            Some(d) => {
                if reg.perms.execute {
                    &&& out.len() > 0
                    &&& out.last().0 == reg
                    &&& content_analysis_matches(d@, None, out.last().1)
                    &&& out.last().1.is_anonymous == reg.is_anonymous
                    &&& out.last().1.has_no_backing_file == (reg.file_path is None)
                    &&& scan_results_match(input.drop_last(), out.drop_last())
                } else {
                    scan_results_match(input.drop_last(), out)
                }
            },
            None => scan_results_match(input.drop_last(), out),
        }
    }
}

/// Analyze one scan pass over a process: each region paired with its read
/// bytes, `None` where the read failed. Only executable regions are
/// analyzed; unreadable ones are skipped, never fatal.
pub fn scan_and_analyze(input: Vec<(MemoryRegion, Option<Vec<u8>>)>) -> (results: Vec<
    (MemoryRegion, RegionAnalysis),
>)
    ensures
        scan_results_match(input@, results@),
{
    let mut results: Vec<(MemoryRegion, RegionAnalysis)> = Vec::new();
    let mut i: usize = 0;
    while i < input.len()
        invariant
            i <= input.len(),
            scan_results_match(input@.take(i as int), results@),
        decreases input.len() - i,
    {
        let ghost prev = results@;
        let (region, data) = &input[i];
        match data {
            Some(d) => {
                if should_scan_region(region) {
                    let analysis = analyze_mapped_region(region, d.as_slice(), None);
                    results.push((region.clone(), analysis));
                }
            },
            None => {},
        }
        proof {
            let taken = input@.take(i as int + 1);
            assert(taken.drop_last() =~= input@.take(i as int));
            assert(taken.last() == input@[i as int]);
            if input@[i as int].1 is Some && input@[i as int].0.perms.execute {
                assert(results@.drop_last() =~= prev);
            }
        }
        i += 1;
    }
    proof {
        assert(input@.take(input@.len() as int) =~= input@);
    }
    results
}

/// The high-entropy threshold: above 6.5 bits, in 1/1024ths of a bit.
pub open spec fn high_entropy_threshold() -> nat {
    6656
}

/// The risk factors an analysis yields.
pub open spec fn spec_risk_factors(a: RegionAnalysis) -> RiskFactors {
    RiskFactors {
        high_entropy: a.entropy_x1024 > high_entropy_threshold(),
        is_anonymous: a.is_anonymous,
        has_pe_header: a.has_pe_header,
        contains_syscalls: a.contains_syscalls,
        has_no_backing_file: a.has_no_backing_file,
        diffed_from_last_scan: a.diffed_from_last_scan,
        compressed_entropy_score: a.compressed_entropy_score,
    }
}

/// Turn an analysis into risk factors.
pub fn build_risk_factors(a: &RegionAnalysis) -> (f: RiskFactors)
    ensures
        f == spec_risk_factors(*a),
{
    RiskFactors {
        high_entropy: a.entropy_x1024 > 6656,
        is_anonymous: a.is_anonymous,
        has_pe_header: a.has_pe_header,
        contains_syscalls: a.contains_syscalls,
        has_no_backing_file: a.has_no_backing_file,
        diffed_from_last_scan: a.diffed_from_last_scan,
        compressed_entropy_score: a.compressed_entropy_score,
    }
}

/// The orchestrator's verdict on one analyzed region.
#[derive(Debug, Clone, Copy)]
pub enum RegionVerdict {
    /// Benign: no action.
    Ignore,
    /// Suspicious: a structured log line, nothing more.
    LogOnly(RiskScore),
    /// Malicious with re-validated bounds: log and carve the region.
    Carve(RiskScore),
    /// Malicious, but the region's bounds are invalid on re-validation
    /// (regions may change between listing and action): warn and skip.
    InvalidBounds(RiskScore),
}

/// Score an analyzed region and decide the action. Benign regions are left
/// alone; suspicious ones are logged; malicious ones are carved, unless
/// their re-validated bounds are invalid.
pub fn triage_region(region: &MemoryRegion, analysis: &RegionAnalysis) -> (v: RegionVerdict)
    ensures
        ({
            let f = spec_risk_factors(*analysis);
            let sc = spec_score(f);
            let expected = RiskScore {
                score: sc as u32,
                classification: spec_classify(sc),
                factors: f,
            };
            match v {
                RegionVerdict::Ignore => spec_classify(sc) == RiskClass::Benign,
                RegionVerdict::LogOnly(s) => spec_classify(sc) == RiskClass::Suspicious && s
                    == expected,
                RegionVerdict::Carve(s) => spec_classify(sc) == RiskClass::Malicious
                    && region.start < region.end && s == expected,
                RegionVerdict::InvalidBounds(s) => spec_classify(sc) == RiskClass::Malicious
                    && region.start >= region.end && s == expected,
            }
        }),
{
    let factors = build_risk_factors(analysis);
    let score = score_factors(&factors);
    match score.classification {
        RiskClass::Benign => RegionVerdict::Ignore,
        RiskClass::Suspicious => RegionVerdict::LogOnly(score),
        RiskClass::Malicious => {
            if region.start < region.end {
                RegionVerdict::Carve(score)
            } else {
                RegionVerdict::InvalidBounds(score)
            }
        },
    }
}

/// The carving step for one malicious region's freshly read bytes.
#[derive(Debug, Clone)]
pub enum CarveOutcome {
    /// The fresh read came back empty; nothing is dumped.
    EmptyRegion,
    /// The artifact to persist, with the digest of the plaintext for the log.
    Sealed {
        /// The framed artifact: nonce then ciphertext and tag.
        artifact: Vec<u8>,
        /// SHA-256 of the region bytes, computed before the dump.
        digest: [u8; 32],
    },
    /// The cipher refused the encryption; the region is skipped.
    Failed,
}

/// Hash and seal a malicious region's bytes. Empty buffers are rejected
/// before any encryption; every nonempty buffer below the cipher's
/// 2^36-byte limit is sealed; a failure never aborts the scan loop.
pub fn carve_region_data(data: &[u8], key: &[u8; 32]) -> (r: CarveOutcome)
    ensures
        data@.len() == 0 <==> r is EmptyRegion,
        1 <= data@.len() <= 0x10_0000_0000 ==> r is Sealed,
        r matches CarveOutcome::Sealed { artifact, digest } ==> sealed_artifact(
            key@,
            data@,
            artifact@,
        ) && digest@ == sha256_of(data@),
{
    if data.len() == 0 {
        return CarveOutcome::EmptyRegion;
    }
    let digest = sha256_hash(data);
    match seal_region(data, key) {
        Ok(artifact) => CarveOutcome::Sealed { artifact, digest },
        Err(_) => CarveOutcome::Failed,
    }
}

/// The deterministic dump destination for a region: pid and bounds under the
/// fixed temporary directory, so concurrent dumps never collide.
pub fn dump_path(pid: u32, start: u64, end: u64) -> (r: String)
    ensures
        r@ == "/tmp/edr_dump_"@ + dec_chars(pid as int) + "_"@ + dec_chars(start as int) + "_"@
            + dec_chars(end as int) + ".bin"@,
{
    let mut s = String::from_str("/tmp/edr_dump_");
    let pid_str = u64_to_string(pid as u64);
    s.append(pid_str.as_str());
    s.append("_");
    let start_str = u64_to_string(start);
    s.append(start_str.as_str());
    s.append("_");
    let end_str = u64_to_string(end);
    s.append(end_str.as_str());
    s.append(".bin");
    proof {
        assert(s@ =~= "/tmp/edr_dump_"@ + dec_chars(pid as int) + "_"@ + dec_chars(start as int)
            + "_"@ + dec_chars(end as int) + ".bin"@);
    }
    s
}

} // verus!
