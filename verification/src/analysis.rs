//! Pure content heuristics over raw region bytes: digest, fixed-point Shannon
//! entropy, executable-header and syscall-stub signatures, and diff against a
//! previous digest.
//!
//! Entropy is computed in fixed point, in 1/1024ths of a bit, so a region's
//! measure lies in `0..=8192` (0 to 8 bits). The analyzer is a total function
//! of the bytes and the optional previous digest; region metadata flags are
//! filled in by the caller.

use crate::hashing::{sha256_hash, sha256_of};
use vstd::arithmetic::div_mod::{
    lemma_div_denominator,
    lemma_div_is_ordered,
    lemma_fundamental_div_mod,
    lemma_multiply_divide_lt,
};
use vstd::prelude::*;

verus! {

/// Analysis result for a memory region.
#[derive(Debug, Clone, Copy)]
pub struct RegionAnalysis {
    /// SHA-256 digest of the region bytes.
    pub sha256: [u8; 32],
    /// Shannon entropy in 1/1024ths of a bit, in `0..=8192`.
    pub entropy_x1024: u32,
    /// True if the region is anonymous; filled in by the caller.
    pub is_anonymous: bool,
    /// True if the region starts with the executable-header magic `MZ`.
    pub has_pe_header: bool,
    /// True if the region contains the direct-syscall stub pattern.
    pub contains_syscalls: bool,
    /// True if the region has no backing file; filled in by the caller.
    pub has_no_backing_file: bool,
    /// True if the region differs from the previous scan's digest.
    pub diffed_from_last_scan: bool,
    /// Entropy rescaled to `0..=20`.
    pub compressed_entropy_score: u32,
}

/// Occurrences of `b` in `s`.
pub open spec fn count_byte(s: Seq<u8>, b: u8) -> nat
    decreases s.len(),
{
    if s.len() == 0 {
        0
    } else {
        count_byte(s.drop_last(), b) + if s.last() == b {
            1nat
        } else {
            0nat
        }
    }
}

pub proof fn lemma_count_le(s: Seq<u8>, b: u8)
    ensures
        count_byte(s, b) <= s.len(),
    decreases s.len(),
{
    if s.len() > 0 {
        lemma_count_le(s.drop_last(), b);
    }
}

/// Floor of the base-2 logarithm.
pub open spec fn spec_ilog2(x: nat) -> nat
    decreases x,
{
    if x < 2 {
        0
    } else {
        1 + spec_ilog2(x / 2)
    }
}

pub open spec fn spec_pow2(k: nat) -> nat
    decreases k,
{
    if k == 0 {
        1
    } else {
        2 * spec_pow2((k - 1) as nat)
    }
}

proof fn lemma_pow2_mono(a: nat, b: nat)
    requires
        a <= b,
    ensures
        spec_pow2(a) <= spec_pow2(b),
        spec_pow2(a) >= 1,
    decreases b,
{
    if a < b {
        lemma_pow2_mono(a, (b - 1) as nat);
    } else if a > 0 {
        lemma_pow2_mono((a - 1) as nat, (a - 1) as nat);
    }
}

proof fn lemma_pow2_64()
    ensures
        spec_pow2(64) == 0x1_0000_0000_0000_0000,
{
    reveal_with_fuel(spec_pow2, 65);
}

/// Ten rounds of mantissa squaring: the fractional bits of the base-2
/// logarithm of `m / 2^32`, accumulated onto `acc`.
pub open spec fn frac_bits(m: nat, rounds: nat, acc: nat) -> nat
    decreases rounds,
{
    if rounds == 0 {
        acc
    } else {
        let m2 = (m * m) / 0x1_0000_0000;
        if m2 >= 0x2_0000_0000 {
            frac_bits(m2 / 2, (rounds - 1) as nat, acc * 2 + 1)
        } else {
            frac_bits(m2, (rounds - 1) as nat, acc * 2)
        }
    }
}

/// The base-2 logarithm in 1/1024ths of a bit: the integer part by repeated
/// halving, ten fractional bits by repeated squaring of the mantissa.
pub open spec fn spec_log2_x1024(x: nat) -> nat {
    spec_ilog2(x) * 1024 + frac_bits(
        x * 0x1_0000_0000 / spec_pow2(spec_ilog2(x)),
        10,
        0,
    )
}

/// Compute the fixed-point base-2 logarithm.
pub fn log2_x1024(x: u64) -> (r: u64)
    requires
        x >= 1,
    ensures
        r == spec_log2_x1024(x as nat),
        r <= 65535,
{
    let mut y: u64 = x;
    let mut k: u64 = 0;
    let mut p: u64 = 1;
    while y >= 2
        invariant
            1 <= y,
            1 <= p <= x,
            y == x as nat / p as nat,
            p == spec_pow2(k as nat),
            spec_ilog2(x as nat) == k as nat + spec_ilog2(y as nat),
            k <= 63,
        decreases y,
    {
        proof {
            lemma_fundamental_div_mod(x as int, p as int);
            assert(p as int * (y as int) >= 2 * (p as int)) by (nonlinear_arith)
                requires
                    y >= 2,
                    p >= 1,
            ;
            lemma_div_denominator(x as int, p as int, 2);
            if k >= 63 {
                lemma_pow2_mono(64, k as nat + 1);
                lemma_pow2_64();
            }
        }
        y = y / 2;
        k = k + 1;
        p = p * 2;
    }
    assert(y == 1);
    assert(spec_ilog2(x as nat) == k as nat);
    // mantissa in Q32: x * 2^32 / 2^(integer part), in [2^32, 2^33)
    let m0: u128 = (x as u128) * 0x1_0000_0000 / (p as u128);
    proof {
        lemma_fundamental_div_mod(x as int, p as int);
        // p <= x < 2p since x / p == 1
        assert(p <= x && x < 2 * (p as int));
        assert((p as int) * 0x1_0000_0000 <= (x as int) * 0x1_0000_0000 < (p as int) * 2
            * 0x1_0000_0000) by (nonlinear_arith)
            requires
                p <= x,
                (x as int) < 2 * (p as int),
                p >= 1,
        ;
        lemma_div_is_ordered((p as int) * 0x1_0000_0000, (x as int) * 0x1_0000_0000, p as int);
        vstd::arithmetic::div_mod::lemma_div_multiples_vanish(0x1_0000_0000, p as int);
        assert((p as int) * 0x1_0000_0000 == (p as int) * 0x1_0000_0000);
        assert(((p as int) * 0x1_0000_0000) / (p as int) == 0x1_0000_0000);
        lemma_multiply_divide_lt((x as int) * 0x1_0000_0000, p as int, 0x2_0000_0000int);
        assert((p as int) * (2 * 0x1_0000_0000) == (p as int) * 2 * 0x1_0000_0000)
            by (nonlinear_arith);
    }
    assert(0x1_0000_0000 <= m0 < 0x2_0000_0000);
    let ghost m_start = m0 as nat;
    let mut m: u128 = m0;
    let mut acc: u64 = 0;
    let mut i: u64 = 0;
    while i < 10
        invariant
            i <= 10,
            0x1_0000_0000 <= m < 0x2_0000_0000,
            acc as nat + 1 <= spec_pow2(i as nat),
            frac_bits(m_start, 10, 0) == frac_bits(m as nat, (10 - i) as nat, acc as nat),
        decreases 10 - i,
    {
        proof {
            assert((m as int) * (m as int) >= 0x1_0000_0000 * 0x1_0000_0000 && (m as int) * (
            m as int) < 0x2_0000_0000 * 0x2_0000_0000) by (nonlinear_arith)
                requires
                    0x1_0000_0000 <= (m as int) < 0x2_0000_0000,
            ;
            lemma_div_is_ordered(
                0x1_0000_0000int * 0x1_0000_0000,
                (m as int) * (m as int),
                0x1_0000_0000int,
            );
            lemma_multiply_divide_lt(
                (m as int) * (m as int),
                0x1_0000_0000int,
                0x4_0000_0000int,
            );
        }
        let m2: u128 = (m * m) / 0x1_0000_0000;
        assert(0x1_0000_0000 <= m2 < 0x4_0000_0000);
        proof {
            reveal_with_fuel(spec_pow2, 12);
            lemma_pow2_mono(i as nat + 1, 10);
        }
        if m2 >= 0x2_0000_0000 {
            m = m2 / 2;
            acc = acc * 2 + 1;
        } else {
            m = m2;
            acc = acc * 2;
        }
        i = i + 1;
    }
    proof {
        reveal_with_fuel(spec_pow2, 12);
        assert(acc <= 1023);
    }
    k * 1024 + acc
}

/// One byte value's contribution to the entropy sum: its count times the
/// fixed-point logarithm gap between the total length and the count.
pub open spec fn entropy_term(c: nat, n: nat) -> nat {
    if c == 0 {
        0
    } else if spec_log2_x1024(c) > spec_log2_x1024(n) {
        0
    } else {
        c * ((spec_log2_x1024(n) - spec_log2_x1024(c)) as nat)
    }
}

/// The entropy sum over byte values `j..256`.
pub open spec fn entropy_sum_from(s: Seq<u8>, j: int) -> nat
    decreases 256 - j,
    when j <= 256
{
    if j >= 256 {
        0
    } else {
        entropy_term(count_byte(s, j as u8), s.len()) + entropy_sum_from(s, j + 1)
    }
}

/// Shannon entropy in 1/1024ths of a bit: the per-byte entropy sum averaged
/// over the length and clamped to 8 bits. Empty input has zero entropy.
pub open spec fn spec_entropy_x1024(s: Seq<u8>) -> nat {
    if s.len() == 0 {
        0
    } else if entropy_sum_from(s, 0) / s.len() > 8192 {
        8192
    } else {
        entropy_sum_from(s, 0) / s.len()
    }
}

/// Count the occurrences of each byte value.
fn byte_counts(data: &[u8]) -> (counts: Vec<u64>)
    ensures
        counts@.len() == 256,
        forall|b: int| 0 <= b < 256 ==> counts@[b] == count_byte(data@, b as u8),
{
    let mut counts: Vec<u64> = vec![0u64; 256];
    proof {
        assert(data@.take(0) =~= Seq::<u8>::empty());
    }
    let mut i: usize = 0;
    while i < data.len()
        invariant
            i <= data.len(),
            counts@.len() == 256,
            forall|b: int| 0 <= b < 256 ==> counts@[b] == count_byte(data@.take(i as int), b as u8),
        decreases data.len() - i,
    {
        let b = *vstd::slice::slice_index_get(data, i) as usize;
        proof {
            lemma_count_le(data@.take(i as int), b as u8);
        }
        counts[b] = counts[b] + 1;
        proof {
            assert(data@.take(i as int + 1).drop_last() =~= data@.take(i as int));
            assert(data@.take(i as int + 1).last() == data@[i as int]);
            assert forall|bb: int| 0 <= bb < 256 implies counts@[bb] == count_byte(
                data@.take(i as int + 1),
                bb as u8,
            ) by {
                assert(count_byte(data@.take(i as int + 1), bb as u8) == count_byte(
                    data@.take(i as int),
                    bb as u8,
                ) + if data@[i as int] == bb as u8 {
                    1nat
                } else {
                    0nat
                });
            }
        }
        i += 1;
    }
    proof {
        assert(data@.take(data@.len() as int) =~= data@);
    }
    counts
}

/// Compute the fixed-point Shannon entropy of a byte buffer.
pub fn shannon_entropy(data: &[u8]) -> (r: u32)
    ensures
        r == spec_entropy_x1024(data@),
        r <= 8192,
        data@.len() == 0 ==> r == 0,
{
    if data.len() == 0 {
        return 0;
    }
    let counts = byte_counts(data);
    let n: u64 = data.len() as u64;
    let log_n = log2_x1024(n);
    let mut acc: u128 = 0;
    let mut j: usize = 0;
    while j < 256
        invariant
            j <= 256,
            n == data@.len(),
            1 <= n,
            counts@.len() == 256,
            forall|b: int| 0 <= b < 256 ==> counts@[b] == count_byte(data@, b as u8),
            log_n == spec_log2_x1024(n as nat),
            log_n <= 65535,
            acc + entropy_sum_from(data@, j as int) == entropy_sum_from(data@, 0),
            acc <= (j as nat) * ((n as nat) * 65535),
        decreases 256 - j,
    {
        let c: u64 = counts[j];
        if c > 0 {
            proof {
                lemma_count_le(data@, j as u8);
            }
            let log_c = log2_x1024(c);
            let diff: u64 = if log_c > log_n {
                0
            } else {
                log_n - log_c
            };
            proof {
                assert((c as int) * (diff as int) <= u128::MAX) by (nonlinear_arith)
                    requires
                        c <= u64::MAX,
                        diff <= 65535,
                ;
            }
            let term: u128 = (c as u128) * (diff as u128);
            proof {
                assert(term == entropy_term(count_byte(data@, j as u8), n as nat));
                assert((c as nat) * (diff as nat) <= (n as nat) * 65535) by (nonlinear_arith)
                    requires
                        c <= n,
                        diff <= 65535,
                ;
                assert(acc + term <= ((j as nat) + 1) * ((n as nat) * 65535)) by (nonlinear_arith)
                    requires
                        acc <= (j as nat) * ((n as nat) * 65535),
                        term <= (n as nat) * 65535,
                ;
                assert(((j as nat) + 1) * ((n as nat) * 65535) <= 256 * ((n as nat) * 65535))
                    by (nonlinear_arith)
                    requires
                        (j as nat) + 1 <= 256,
                ;
                assert(256 * ((n as nat) * 65535) < u128::MAX) by (nonlinear_arith)
                    requires
                        (n as nat) <= u64::MAX,
                ;
            }
            acc = acc + term;
        } else {
            proof {
                assert(entropy_term(count_byte(data@, j as u8), n as nat) == 0);
            }
        }
        proof {
            assert((j as nat) * ((n as nat) * 65535) <= ((j as nat) + 1) * ((n as nat) * 65535))
                by (nonlinear_arith);
        }
        j += 1;
    }
    let e: u128 = acc / (n as u128);
    if e > 8192 {
        8192
    } else {
        e as u32
    }
}

/// The two-byte executable-header magic: `M`, `Z`.
pub open spec fn has_header_magic(s: Seq<u8>) -> bool {
    s.len() >= 2 && s[0] == 0x4D && s[1] == 0x5A
}

/// The fixed six-byte reference pattern of a known direct-syscall stub.
pub open spec fn syscall_sig() -> Seq<u8> {
    seq![0x4Cu8, 0x8Bu8, 0xD1u8, 0xB8u8, 0x00u8, 0x00u8]
}

/// Whether some contiguous six-byte window matches the syscall-stub pattern.
/// A narrow heuristic: false negatives on variants are expected.
pub open spec fn has_syscall_pattern(s: Seq<u8>) -> bool {
    exists|i: int| 0 <= i <= s.len() - 6 && #[trigger] s.subrange(i, i + 6) == syscall_sig()
}

/// Scan for the syscall-stub pattern.
fn scan_syscall_pattern(data: &[u8]) -> (r: bool)
    ensures
        r == has_syscall_pattern(data@),
{
    if data.len() < 6 {
        assert(!has_syscall_pattern(data@));
        return false;
    }
    let mut i: usize = 0;
    while i <= data.len() - 6
        invariant
            6 <= data.len(),
            i <= data.len() - 5,
            forall|m: int| 0 <= m < i ==> #[trigger] data@.subrange(m, m + 6) != syscall_sig(),
        decreases data.len() - i,
    {
        let w0 = *vstd::slice::slice_index_get(data, i);
        let w1 = *vstd::slice::slice_index_get(data, i + 1);
        let w2 = *vstd::slice::slice_index_get(data, i + 2);
        let w3 = *vstd::slice::slice_index_get(data, i + 3);
        let w4 = *vstd::slice::slice_index_get(data, i + 4);
        let w5 = *vstd::slice::slice_index_get(data, i + 5);
        if w0 == 0x4C && w1 == 0x8B && w2 == 0xD1 && w3 == 0xB8 && w4 == 0x00 && w5 == 0x00 {
            proof {
                assert(data@.subrange(i as int, i as int + 6) =~= syscall_sig());
            }
            return true;
        }
        proof {
            let w = data@.subrange(i as int, i as int + 6);
            assert(w[0] == data@[i as int]);
            assert(w[1] == data@[i as int + 1]);
            assert(w[2] == data@[i as int + 2]);
            assert(w[3] == data@[i as int + 3]);
            assert(w[4] == data@[i as int + 4]);
            assert(w[5] == data@[i as int + 5]);
            assert(w != syscall_sig());
        }
        i += 1;
    }
    false
}

/// Equality of two 32-byte digests.
pub fn digests_equal(a: &[u8; 32], b: &[u8; 32]) -> (r: bool)
    ensures
        r == (a@ == b@),
{
    let sa = a.as_slice();
    let sb = b.as_slice();
    let mut i: usize = 0;
    while i < 32
        invariant
            i <= 32,
            sa@ == a@,
            sb@ == b@,
            a@.len() == 32,
            b@.len() == 32,
            forall|m: int| 0 <= m < i ==> a@[m] == b@[m],
        decreases 32 - i,
    {
        if *vstd::slice::slice_index_get(sa, i) != *vstd::slice::slice_index_get(sb, i) {
            return false;
        }
        i += 1;
    }
    proof {
        assert(a@ =~= b@);
    }
    true
}

/// Whether the region's content changed since the previous scan: a previous
/// digest is present and differs from the current one. No previous digest
/// means no change.
pub open spec fn spec_diffed(prev: Option<Seq<u8>>, digest: Seq<u8>) -> bool {
    match prev {
        Some(p) => p != digest,
        None => false,
    }
}

/// The view of an optional stored digest.
pub open spec fn prev_view(prev: Option<[u8; 32]>) -> Option<Seq<u8>> {
    match prev {
        Some(p) => Some(p@),
        None => None,
    }
}

/// Entropy rescaled from `0..=8192` to `0..=20`, rounded to nearest.
pub open spec fn spec_scaled_score(e: nat) -> nat {
    (e * 20 + 4096) / 8192
}

/// What the content heuristics say of a buffer: the digest, the fixed-point
/// entropy and its rescaling, both signatures, and the diff against the
/// previous digest.
pub open spec fn content_analysis_matches(
    data: Seq<u8>,
    prev: Option<Seq<u8>>,
    a: RegionAnalysis,
) -> bool {
    &&& a.sha256@ == sha256_of(data)
    &&& a.entropy_x1024 == spec_entropy_x1024(data)
    &&& a.entropy_x1024 <= 8192
    &&& a.has_pe_header == has_header_magic(data)
    &&& a.contains_syscalls == has_syscall_pattern(data)
    &&& a.diffed_from_last_scan == spec_diffed(prev, sha256_of(data))
    &&& a.compressed_entropy_score == spec_scaled_score(spec_entropy_x1024(data))
    &&& a.compressed_entropy_score <= 20
}

/// Analyze a memory region's contents: digest, fixed-point entropy, header
/// and syscall signatures, diff against the previous digest, and the rescaled
/// entropy score. Total: every byte buffer yields a best-effort result.
/// `is_anonymous` and `has_no_backing_file` are left false for the caller.
pub fn analyze_region(data: &[u8], previous_hash: Option<[u8; 32]>) -> (r: RegionAnalysis)
    ensures
        content_analysis_matches(data@, prev_view(previous_hash), r),
        data@.len() == 0 ==> r.entropy_x1024 == 0,
        !r.is_anonymous,
        !r.has_no_backing_file,
{
    let sha256 = sha256_hash(data);
    let entropy_x1024 = shannon_entropy(data);
    let has_pe_header = data.len() >= 2 && *vstd::slice::slice_index_get(data, 0) == 0x4D
        && *vstd::slice::slice_index_get(data, 1) == 0x5A;
    let contains_syscalls = scan_syscall_pattern(data);
    let diffed_from_last_scan = match &previous_hash {
        Some(prev) => !digests_equal(prev, &sha256),
        None => false,
    };
    let compressed_entropy_score = (entropy_x1024 * 20 + 4096) / 8192;
    RegionAnalysis {
        sha256,
        entropy_x1024,
        is_anonymous: false,  // set by the caller from region metadata
        has_pe_header,
        contains_syscalls,
        has_no_backing_file: false,  // set by the caller from region metadata
        diffed_from_last_scan,
        compressed_entropy_score,
    }
}

/// Entropy always lies in `0..=8192` (0 to 8 bits), and empty input has
/// entropy zero.
pub proof fn lemma_entropy_bounds(s: Seq<u8>)
    ensures
        spec_entropy_x1024(s) <= 8192,
        s.len() == 0 ==> spec_entropy_x1024(s) == 0,
{
}

/// A region whose digest equals the previous scan's digest is unchanged, as
/// is a region with no previous digest.
pub proof fn lemma_unchanged_when_hash_matches(digest: Seq<u8>)
    ensures
        !spec_diffed(Some(digest), digest),
        !spec_diffed(None, digest),
{
}

/// A differing previous digest marks the region changed.
pub proof fn lemma_changed_when_hash_differs(prev: Seq<u8>, digest: Seq<u8>)
    requires
        prev != digest,
    ensures
        spec_diffed(Some(prev), digest),
{
}

} // verus!
