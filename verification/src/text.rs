//! Byte-level text utilities shared by the metadata and configuration parsers.
//!
//! OS metadata and configuration arrive as raw bytes; these helpers tokenize
//! on ASCII whitespace, locate separator bytes, trim, and parse unsigned
//! numbers, each against an exact sequence-level specification.

use vstd::prelude::*;

verus! {

/// ASCII whitespace.
pub open spec fn is_ws(b: u8) -> bool {
    b == 32 || b == 9 || b == 10 || b == 13 || b == 11 || b == 12
}

/// Exec test for ASCII whitespace.
pub fn byte_is_ws(b: u8) -> (r: bool)
    ensures
        r == is_ws(b),
{
    b == 32 || b == 9 || b == 10 || b == 13 || b == 11 || b == 12
}

/// Length of the leading run of non-whitespace bytes.
pub open spec fn tok_len(s: Seq<u8>) -> nat
    decreases s.len(),
{
    if s.len() == 0 || is_ws(s[0]) {
        0
    } else {
        1 + tok_len(s.skip(1))
    }
}

pub proof fn lemma_tok_len_le(s: Seq<u8>)
    ensures
        tok_len(s) <= s.len(),
    decreases s.len(),
{
    if s.len() == 0 || is_ws(s[0]) {
    } else {
        lemma_tok_len_le(s.skip(1));
    }
}

/// `tok_len` is exactly the scanned run: `k` non-whitespace bytes followed by
/// the end or a whitespace byte.
pub proof fn lemma_tok_len_is(s: Seq<u8>, k: int)
    requires
        0 <= k <= s.len(),
        forall|m: int| 0 <= m < k ==> !is_ws(s[m]),
        k == s.len() || is_ws(s[k]),
    ensures
        tok_len(s) == k,
    decreases s.len(),
{
    if k == 0 {
    } else {
        assert(!is_ws(s[0]));
        let t = s.skip(1);
        assert forall|m: int| 0 <= m < k - 1 implies !is_ws(t[m]) by {
            assert(t[m] == s[m + 1]);
        }
        if k - 1 < t.len() {
            assert(t[k - 1] == s[k]);
        }
        lemma_tok_len_is(t, k - 1);
    }
}

/// The whitespace-separated tokens of a byte string, in order.
pub open spec fn tokens_of(s: Seq<u8>) -> Seq<Seq<u8>>
    decreases s.len(),
    when s.len() >= 0
    via tokens_of_decreases
{
    if s.len() == 0 {
        Seq::empty()
    } else if is_ws(s[0]) {
        tokens_of(s.skip(1))
    } else {
        seq![s.take(tok_len(s) as int)] + tokens_of(s.skip(tok_len(s) as int))
    }
}

#[via_fn]
proof fn tokens_of_decreases(s: Seq<u8>) {
    if s.len() > 0 && !is_ws(s[0]) {
        lemma_tok_len_le(s);
    }
}

/// The views of a sequence of byte vectors.
pub open spec fn token_views(ts: Seq<Vec<u8>>) -> Seq<Seq<u8>> {
    ts.map_values(|t: Vec<u8>| t@)
}

/// Tokenize on ASCII whitespace.
pub fn tokens(line: &[u8]) -> (toks: Vec<Vec<u8>>)
    ensures
        token_views(toks@) == tokens_of(line@),
{
    let mut toks: Vec<Vec<u8>> = Vec::new();
    let mut i: usize = 0;
    proof {
        assert(line@.skip(0) =~= line@);
        assert(token_views(toks@) =~= Seq::<Seq<u8>>::empty());
        assert(token_views(toks@) + tokens_of(line@) =~= tokens_of(line@));
    }
    while i < line.len()
        invariant
            i <= line.len(),
            token_views(toks@) + tokens_of(line@.skip(i as int)) == tokens_of(line@),
        decreases line.len() - i,
    {
        if byte_is_ws(*vstd::slice::slice_index_get(line, i)) {
            proof {
                let t = line@.skip(i as int);
                assert(t[0] == line@[i as int]);
                assert(t.skip(1) =~= line@.skip(i as int + 1));
            }
            i += 1;
        } else {
            let start = i;
            i += 1;
            while i < line.len() && !byte_is_ws(*vstd::slice::slice_index_get(line, i))
                invariant
                    start < i <= line.len(),
                    forall|m: int| start <= m < i ==> !is_ws(line@[m]),
                decreases line.len() - i,
            {
                i += 1;
            }
            let tok = vstd::slice::slice_to_vec(vstd::slice::slice_subrange(line, start, i));
            proof {
                let t = line@.skip(start as int);
                assert forall|m: int| 0 <= m < i - start implies !is_ws(t[m]) by {
                    assert(t[m] == line@[start + m]);
                }
                if i < line.len() {
                    assert(t[i - start] == line@[i as int]);
                }
                lemma_tok_len_is(t, i - start);
                assert(t.take(i - start) =~= line@.subrange(start as int, i as int));
                assert(t.skip(i - start) =~= line@.skip(i as int));
            }
            let ghost prev = token_views(toks@);
            toks.push(tok);
            proof {
                assert(token_views(toks@) =~= prev + seq![tok@]);
                assert(prev + seq![tok@] + tokens_of(line@.skip(i as int)) =~= prev + (seq![
                    tok@,
                ] + tokens_of(line@.skip(i as int))));
            }
        }
    }
    proof {
        assert(line@.skip(line@.len() as int) =~= Seq::<u8>::empty());
        assert(token_views(toks@) + tokens_of(Seq::<u8>::empty()) =~= token_views(toks@));
    }
    toks
}

/// Index of the first occurrence of `b` in `s`; `s.len()` if absent.
pub open spec fn first_idx(s: Seq<u8>, b: u8) -> nat
    decreases s.len(),
{
    if s.len() == 0 {
        0
    } else if s[0] == b {
        0
    } else {
        1 + first_idx(s.skip(1), b)
    }
}

pub proof fn lemma_first_idx_le(s: Seq<u8>, b: u8)
    ensures
        first_idx(s, b) <= s.len(),
    decreases s.len(),
{
    if s.len() > 0 && s[0] != b {
        lemma_first_idx_le(s.skip(1), b);
    }
}

/// `first_idx` is exactly the scanned position.
pub proof fn lemma_first_idx_is(s: Seq<u8>, b: u8, k: int)
    requires
        0 <= k <= s.len(),
        forall|m: int| 0 <= m < k ==> s[m] != b,
        k == s.len() || s[k] == b,
    ensures
        first_idx(s, b) == k,
    decreases s.len(),
{
    if k > 0 {
        let t = s.skip(1);
        assert forall|m: int| 0 <= m < k - 1 implies t[m] != b by {
            assert(t[m] == s[m + 1]);
        }
        if k - 1 < t.len() {
            assert(t[k - 1] == s[k]);
        }
        lemma_first_idx_is(t, b, k - 1);
    }
}

/// Find the first occurrence of `b`.
pub fn find_byte(s: &[u8], b: u8) -> (r: Option<usize>)
    ensures
        match r {
            Some(j) => j == first_idx(s@, b) && j < s@.len() && s@[j as int] == b,
            None => first_idx(s@, b) == s@.len(),
        },
{
    let mut i: usize = 0;
    while i < s.len()
        invariant
            i <= s.len(),
            forall|m: int| 0 <= m < i ==> s@[m] != b,
        decreases s.len() - i,
    {
        if *vstd::slice::slice_index_get(s, i) == b {
            proof {
                lemma_first_idx_is(s@, b, i as int);
            }
            return Some(i);
        }
        i += 1;
    }
    proof {
        lemma_first_idx_is(s@, b, s@.len() as int);
    }
    None
}

/// Whether `s` begins with `prefix`.
pub fn has_prefix(s: &[u8], prefix: &[u8]) -> (r: bool)
    ensures
        r == (s@.len() >= prefix@.len() && s@.take(prefix@.len() as int) == prefix@),
{
    if s.len() < prefix.len() {
        return false;
    }
    let mut i: usize = 0;
    while i < prefix.len()
        invariant
            i <= prefix.len() <= s.len(),
            forall|m: int| 0 <= m < i ==> s@[m] == prefix@[m],
        decreases prefix.len() - i,
    {
        if *vstd::slice::slice_index_get(s, i) != *vstd::slice::slice_index_get(prefix, i) {
            assert(s@.take(prefix@.len() as int)[i as int] != prefix@[i as int]);
            return false;
        }
        i += 1;
    }
    assert(s@.take(prefix@.len() as int) =~= prefix@);
    true
}

/// Length of the leading whitespace run.
pub open spec fn ws_prefix_len(s: Seq<u8>) -> nat
    decreases s.len(),
{
    if s.len() == 0 || !is_ws(s[0]) {
        0
    } else {
        1 + ws_prefix_len(s.skip(1))
    }
}

pub proof fn lemma_ws_prefix_is(s: Seq<u8>, k: int)
    requires
        0 <= k <= s.len(),
        forall|m: int| 0 <= m < k ==> is_ws(s[m]),
        k == s.len() || !is_ws(s[k]),
    ensures
        ws_prefix_len(s) == k,
    decreases s.len(),
{
    if k > 0 {
        let t = s.skip(1);
        assert forall|m: int| 0 <= m < k - 1 implies is_ws(t[m]) by {
            assert(t[m] == s[m + 1]);
        }
        if k - 1 < t.len() {
            assert(t[k - 1] == s[k]);
        }
        lemma_ws_prefix_is(t, k - 1);
    }
}

/// Length of the trailing whitespace run.
pub open spec fn ws_suffix_len(s: Seq<u8>) -> nat
    decreases s.len(),
{
    if s.len() == 0 || !is_ws(s.last()) {
        0
    } else {
        1 + ws_suffix_len(s.drop_last())
    }
}

pub proof fn lemma_ws_suffix_is(s: Seq<u8>, k: int)
    requires
        0 <= k <= s.len(),
        forall|m: int| s.len() - k <= m < s.len() ==> is_ws(s[m]),
        k == s.len() || !is_ws(s[s.len() - k - 1]),
    ensures
        ws_suffix_len(s) == k,
    decreases s.len(),
{
    if k > 0 {
        assert(is_ws(s.last()));
        let t = s.drop_last();
        assert forall|m: int| t.len() - (k - 1) <= m < t.len() implies is_ws(t[m]) by {
            assert(t[m] == s[m]);
        }
        if k - 1 < t.len() {
            assert(t[t.len() - (k - 1) - 1] == s[s.len() - k - 1]);
        }
        lemma_ws_suffix_is(t, k - 1);
    }
}

/// `s` with leading and trailing ASCII whitespace removed.
pub open spec fn spec_trim(s: Seq<u8>) -> Seq<u8> {
    let t = s.skip(ws_prefix_len(s) as int);
    t.take(t.len() - ws_suffix_len(t))
}

/// Trim leading and trailing ASCII whitespace.
pub fn trim(s: &[u8]) -> (r: Vec<u8>)
    ensures
        r@ == spec_trim(s@),
{
    let mut lo: usize = 0;
    while lo < s.len() && byte_is_ws(*vstd::slice::slice_index_get(s, lo))
        invariant
            lo <= s.len(),
            forall|m: int| 0 <= m < lo ==> is_ws(s@[m]),
        decreases s.len() - lo,
    {
        lo += 1;
    }
    proof {
        lemma_ws_prefix_is(s@, lo as int);
    }
    let mut hi: usize = s.len();
    while hi > lo && byte_is_ws(*vstd::slice::slice_index_get(s, hi - 1))
        invariant
            lo <= hi <= s.len(),
            forall|m: int| hi <= m < s.len() ==> is_ws(s@[m]),
            ws_prefix_len(s@) == lo,
        decreases hi,
    {
        hi -= 1;
    }
    let r = vstd::slice::slice_to_vec(vstd::slice::slice_subrange(s, lo, hi));
    proof {
        let t = s@.skip(lo as int);
        if hi > lo {
            // the byte before the trailing run is not whitespace
            assert(!is_ws(s@[hi - 1]));
        }
        assert forall|m: int| t.len() - (s@.len() - hi) <= m < t.len() implies is_ws(t[m]) by {
            assert(t[m] == s@[m + lo]);
        }
        if hi > lo {
            assert(t[t.len() - (s@.len() - hi) - 1] == s@[hi - 1]);
            lemma_ws_suffix_is(t, s@.len() - hi);
        } else {
            // everything from lo on is whitespace
            assert forall|m: int| 0 <= m < t.len() implies is_ws(t[m]) by {
                assert(t[m] == s@[m + lo]);
            }
            lemma_ws_suffix_is(t, t.len() as int);
        }
        assert(r@ =~= spec_trim(s@));
    }
    r
}

/// Length of the leading run of `b` bytes.
pub open spec fn byte_prefix_len(s: Seq<u8>, b: u8) -> nat
    decreases s.len(),
{
    if s.len() == 0 || s[0] != b {
        0
    } else {
        1 + byte_prefix_len(s.skip(1), b)
    }
}

pub proof fn lemma_byte_prefix_is(s: Seq<u8>, b: u8, k: int)
    requires
        0 <= k <= s.len(),
        forall|m: int| 0 <= m < k ==> s[m] == b,
        k == s.len() || s[k] != b,
    ensures
        byte_prefix_len(s, b) == k,
    decreases s.len(),
{
    if k > 0 {
        let t = s.skip(1);
        assert forall|m: int| 0 <= m < k - 1 implies t[m] == b by {
            assert(t[m] == s[m + 1]);
        }
        if k - 1 < t.len() {
            assert(t[k - 1] == s[k]);
        }
        lemma_byte_prefix_is(t, b, k - 1);
    }
}

/// Length of the trailing run of `b` bytes.
pub open spec fn byte_suffix_len(s: Seq<u8>, b: u8) -> nat
    decreases s.len(),
{
    if s.len() == 0 || s.last() != b {
        0
    } else {
        1 + byte_suffix_len(s.drop_last(), b)
    }
}

pub proof fn lemma_byte_suffix_is(s: Seq<u8>, b: u8, k: int)
    requires
        0 <= k <= s.len(),
        forall|m: int| s.len() - k <= m < s.len() ==> s[m] == b,
        k == s.len() || s[s.len() - k - 1] != b,
    ensures
        byte_suffix_len(s, b) == k,
    decreases s.len(),
{
    if k > 0 {
        let t = s.drop_last();
        assert forall|m: int| t.len() - (k - 1) <= m < t.len() implies t[m] == b by {
            assert(t[m] == s[m]);
        }
        if k - 1 < t.len() {
            assert(t[t.len() - (k - 1) - 1] == s[s.len() - k - 1]);
        }
        lemma_byte_suffix_is(t, b, k - 1);
    }
}

/// `s` with all leading and trailing `b` bytes removed.
pub open spec fn spec_strip_runs(s: Seq<u8>, b: u8) -> Seq<u8> {
    let t = s.skip(byte_prefix_len(s, b) as int);
    t.take(t.len() - byte_suffix_len(t, b))
}

/// Remove all leading and trailing occurrences of `b`.
pub fn strip_runs(s: &[u8], b: u8) -> (r: Vec<u8>)
    ensures
        r@ == spec_strip_runs(s@, b),
{
    let mut lo: usize = 0;
    while lo < s.len() && *vstd::slice::slice_index_get(s, lo) == b
        invariant
            lo <= s.len(),
            forall|m: int| 0 <= m < lo ==> s@[m] == b,
        decreases s.len() - lo,
    {
        lo += 1;
    }
    proof {
        lemma_byte_prefix_is(s@, b, lo as int);
    }
    let mut hi: usize = s.len();
    while hi > lo && *vstd::slice::slice_index_get(s, hi - 1) == b
        invariant
            lo <= hi <= s.len(),
            forall|m: int| hi <= m < s.len() ==> s@[m] == b,
            byte_prefix_len(s@, b) == lo,
        decreases hi,
    {
        hi -= 1;
    }
    let r = vstd::slice::slice_to_vec(vstd::slice::slice_subrange(s, lo, hi));
    proof {
        let t = s@.skip(lo as int);
        assert forall|m: int| t.len() - (s@.len() - hi) <= m < t.len() implies t[m] == b by {
            assert(t[m] == s@[m + lo]);
        }
        if hi > lo {
            assert(t[t.len() - (s@.len() - hi) - 1] == s@[hi - 1]);
            lemma_byte_suffix_is(t, b, s@.len() - hi);
        } else {
            assert forall|m: int| 0 <= m < t.len() implies t[m] == b by {
                assert(t[m] == s@[m + lo]);
            }
            lemma_byte_suffix_is(t, b, t.len() as int);
        }
        assert(r@ =~= spec_strip_runs(s@, b));
    }
    r
}

/// ASCII decimal digit.
pub open spec fn is_dec_digit(b: u8) -> bool {
    48 <= b <= 57
}

/// ASCII hexadecimal digit (either case).
pub open spec fn is_hex_digit(b: u8) -> bool {
    is_dec_digit(b) || (97 <= b <= 102) || (65 <= b <= 70)
}

/// Numeric value of a hexadecimal digit.
pub open spec fn hex_digit_val(b: u8) -> nat {
    if is_dec_digit(b) {
        (b - 48) as nat
    } else if 97 <= b <= 102 {
        (b - 87) as nat
    } else {
        (b - 55) as nat
    }
}

pub open spec fn all_dec_digits(s: Seq<u8>) -> bool {
    forall|i: int| 0 <= i < s.len() ==> is_dec_digit(#[trigger] s[i])
}

pub open spec fn all_hex_digits(s: Seq<u8>) -> bool {
    forall|i: int| 0 <= i < s.len() ==> is_hex_digit(#[trigger] s[i])
}

/// Value of a decimal digit string.
pub open spec fn dec_value(s: Seq<u8>) -> nat
    decreases s.len(),
{
    if s.len() == 0 {
        0
    } else {
        dec_value(s.drop_last()) * 10 + (s.last() - 48) as nat
    }
}

/// Value of a hexadecimal digit string.
pub open spec fn hex_value(s: Seq<u8>) -> nat
    decreases s.len(),
{
    if s.len() == 0 {
        0
    } else {
        hex_value(s.drop_last()) * 16 + hex_digit_val(s.last())
    }
}

proof fn lemma_dec_prefix_le(s: Seq<u8>, j: int)
    requires
        0 <= j <= s.len(),
        all_dec_digits(s),
    ensures
        dec_value(s.take(j)) <= dec_value(s),
    decreases s.len() - j,
{
    if j < s.len() {
        let t = s.take(j + 1);
        assert(t.drop_last() =~= s.take(j));
        assert(dec_value(s.take(j)) <= dec_value(s.take(j)) * 10 + (t.last() - 48) as nat)
            by (nonlinear_arith);
        lemma_dec_prefix_le(s, j + 1);
        assert(s.take(s.len() as int) =~= s);
    } else {
        assert(s.take(j) =~= s);
    }
}

proof fn lemma_hex_prefix_le(s: Seq<u8>, j: int)
    requires
        0 <= j <= s.len(),
        all_hex_digits(s),
    ensures
        hex_value(s.take(j)) <= hex_value(s),
    decreases s.len() - j,
{
    if j < s.len() {
        let t = s.take(j + 1);
        assert(t.drop_last() =~= s.take(j));
        assert(hex_value(s.take(j)) <= hex_value(s.take(j)) * 16 + hex_digit_val(t.last()))
            by (nonlinear_arith);
        lemma_hex_prefix_le(s, j + 1);
        assert(s.take(s.len() as int) =~= s);
    } else {
        assert(s.take(j) =~= s);
    }
}

/// Parse an unsigned decimal number. `Some` exactly when `s` is nonempty,
/// all decimal digits, and the value fits in `u64`.
pub fn parse_dec_u64(s: &[u8]) -> (r: Option<u64>)
    ensures
        match r {
            Some(v) => s@.len() > 0 && all_dec_digits(s@) && dec_value(s@) <= u64::MAX && v
                == dec_value(s@),
            None => s@.len() == 0 || !all_dec_digits(s@) || dec_value(s@) > u64::MAX,
        },
{
    if s.len() == 0 {
        return None;
    }
    let mut acc: u64 = 0;
    let mut i: usize = 0;
    while i < s.len()
        invariant
            i <= s.len(),
            s@.len() > 0,
            forall|m: int| 0 <= m < i ==> is_dec_digit(#[trigger] s@[m]),
            acc == dec_value(s@.take(i as int)),
        decreases s.len() - i,
    {
        let b = *vstd::slice::slice_index_get(s, i);
        if b < 48 || b > 57 {
            return None;
        }
        let d = (b - 48) as u64;
        if acc > (u64::MAX - d) / 10 {
            proof {
                assert(s@.take(i as int + 1).drop_last() =~= s@.take(i as int));
                assert(s@.take(i as int + 1).last() == s@[i as int]);
                assert(acc * 10 + d > u64::MAX) by (nonlinear_arith)
                    requires
                        acc > (u64::MAX - d) / 10,
                        d <= 9,
                ;
                assert forall|m: int| 0 <= m < i + 1 implies is_dec_digit(#[trigger] s@[m]) by {}
                if all_dec_digits(s@) {
                    lemma_dec_prefix_le(s@, i as int + 1);
                }
            }
            return None;
        }
        proof {
            assert(acc * 10 + d <= u64::MAX) by (nonlinear_arith)
                requires
                    acc <= (u64::MAX - d) / 10,
                    d <= 9,
            ;
            assert(s@.take(i as int + 1).drop_last() =~= s@.take(i as int));
            assert(s@.take(i as int + 1).last() == s@[i as int]);
        }
        acc = acc * 10 + d;
        i += 1;
    }
    proof {
        assert(s@.take(s@.len() as int) =~= s@);
    }
    Some(acc)
}

/// Parse an unsigned decimal number into `u32`.
pub fn parse_dec_u32(s: &[u8]) -> (r: Option<u32>)
    ensures
        match r {
            Some(v) => s@.len() > 0 && all_dec_digits(s@) && dec_value(s@) <= u32::MAX && v
                == dec_value(s@),
            None => s@.len() == 0 || !all_dec_digits(s@) || dec_value(s@) > u32::MAX,
        },
{
    match parse_dec_u64(s) {
        Some(v) => {
            if v <= 0xFFFF_FFFF {
                Some(v as u32)
            } else {
                None
            }
        },
        None => None,
    }
}

/// Parse an unsigned hexadecimal number. `Some` exactly when `s` is nonempty,
/// all hexadecimal digits, and the value fits in `u64`.
pub fn parse_hex_u64(s: &[u8]) -> (r: Option<u64>)
    ensures
        match r {
            Some(v) => s@.len() > 0 && all_hex_digits(s@) && hex_value(s@) <= u64::MAX && v
                == hex_value(s@),
            None => s@.len() == 0 || !all_hex_digits(s@) || hex_value(s@) > u64::MAX,
        },
{
    if s.len() == 0 {
        return None;
    }
    let mut acc: u64 = 0;
    let mut i: usize = 0;
    while i < s.len()
        invariant
            i <= s.len(),
            s@.len() > 0,
            forall|m: int| 0 <= m < i ==> is_hex_digit(#[trigger] s@[m]),
            acc == hex_value(s@.take(i as int)),
        decreases s.len() - i,
    {
        let b = *vstd::slice::slice_index_get(s, i);
        let d: u64 = if b >= 48 && b <= 57 {
            (b - 48) as u64
        } else if b >= 97 && b <= 102 {
            (b - 87) as u64
        } else if b >= 65 && b <= 70 {
            (b - 55) as u64
        } else {
            assert(!is_hex_digit(s@[i as int]));
            return None;
        };
        assert(d == hex_digit_val(s@[i as int]) && d <= 15);
        if acc > (u64::MAX - d) / 16 {
            proof {
                assert(s@.take(i as int + 1).drop_last() =~= s@.take(i as int));
                assert(s@.take(i as int + 1).last() == s@[i as int]);
                assert(acc * 16 + d > u64::MAX) by (nonlinear_arith)
                    requires
                        acc > (u64::MAX - d) / 16,
                        d <= 15,
                ;
                if all_hex_digits(s@) {
                    lemma_hex_prefix_le(s@, i as int + 1);
                }
            }
            return None;
        }
        proof {
            assert(acc * 16 + d <= u64::MAX) by (nonlinear_arith)
                requires
                    acc <= (u64::MAX - d) / 16,
                    d <= 15,
            ;
            assert(s@.take(i as int + 1).drop_last() =~= s@.take(i as int));
            assert(s@.take(i as int + 1).last() == s@[i as int]);
        }
        acc = acc * 16 + d;
        i += 1;
    }
    proof {
        assert(s@.take(s@.len() as int) =~= s@);
    }
    Some(acc)
}

/// The value a defensive hexadecimal field parse yields: the number, or zero
/// when the field is absent, malformed or out of range.
pub open spec fn spec_hex_or_zero(s: Seq<u8>) -> u64 {
    if s.len() > 0 && all_hex_digits(s) && hex_value(s) <= u64::MAX {
        hex_value(s) as u64
    } else {
        0
    }
}

/// Parse a hexadecimal field defensively: malformed input degrades to zero.
pub fn parse_hex_or_zero(s: &[u8]) -> (r: u64)
    ensures
        r == spec_hex_or_zero(s@),
{
    match parse_hex_u64(s) {
        Some(v) => v,
        None => 0,
    }
}

/// The value a defensive decimal field parse yields.
pub open spec fn spec_dec_or_zero(s: Seq<u8>) -> u64 {
    if s.len() > 0 && all_dec_digits(s) && dec_value(s) <= u64::MAX {
        dec_value(s) as u64
    } else {
        0
    }
}

/// Parse a decimal field defensively: malformed input degrades to zero.
pub fn parse_dec_or_zero(s: &[u8]) -> (r: u64)
    ensures
        r == spec_dec_or_zero(s@),
{
    match parse_dec_u64(s) {
        Some(v) => v,
        None => 0,
    }
}

/// Whether `s` contains the byte `b`.
pub open spec fn contains_byte(s: Seq<u8>, b: u8) -> bool {
    first_idx(s, b) < s.len()
}

/// The lines of a text: split at every newline byte, a trailing carriage
/// return stripped from each, and a final empty fragment dropped.
pub open spec fn lines_of(s: Seq<u8>) -> Seq<Seq<u8>>
    decreases s.len(),
    when s.len() >= 0
    via lines_of_decreases
{
    if s.len() == 0 {
        Seq::empty()
    } else {
        let j = first_idx(s, 10);
        if j == s.len() {
            seq![strip_cr(s)]
        } else {
            seq![strip_cr(s.take(j as int))] + lines_of(s.skip(j as int + 1))
        }
    }
}

#[via_fn]
proof fn lines_of_decreases(s: Seq<u8>) {
    if s.len() > 0 {
        lemma_first_idx_le(s, 10);
    }
}

/// A line fragment with its trailing carriage return stripped.
pub open spec fn strip_cr(s: Seq<u8>) -> Seq<u8> {
    if s.len() > 0 && s.last() == 13 {
        s.drop_last()
    } else {
        s
    }
}

/// Split a text into lines.
pub fn split_lines(text: &[u8]) -> (lines: Vec<Vec<u8>>)
    ensures
        token_views(lines@) == lines_of(text@),
{
    let mut lines: Vec<Vec<u8>> = Vec::new();
    let mut pos: usize = 0;
    proof {
        assert(text@.skip(0) =~= text@);
        assert(token_views(lines@) =~= Seq::<Seq<u8>>::empty());
        assert(token_views(lines@) + lines_of(text@) =~= lines_of(text@));
    }
    while pos < text.len()
        invariant
            pos <= text.len(),
            token_views(lines@) + lines_of(text@.skip(pos as int)) == lines_of(text@),
        decreases text.len() - pos,
    {
        let rest = vstd::slice::slice_subrange(text, pos, text.len());
        proof {
            lemma_first_idx_le(rest@, 10);
        }
        let (line_end, next_pos) = match find_byte(rest, 10) {
            Some(j) => (pos + j, pos + j + 1),
            None => (text.len(), text.len()),
        };
        let mut fragment = vstd::slice::slice_to_vec(
            vstd::slice::slice_subrange(text, pos, line_end),
        );
        assert(fragment@ =~= rest@.take(first_idx(rest@, 10) as int));
        if fragment.len() > 0 && fragment[fragment.len() - 1] == 13 {
            fragment.truncate(fragment.len() - 1);
            assert(fragment@ =~= strip_cr(rest@.take(first_idx(rest@, 10) as int)));
        }
        assert(fragment@ == strip_cr(rest@.take(first_idx(rest@, 10) as int)));
        let ghost prev = token_views(lines@);
        lines.push(fragment);
        proof {
            assert(token_views(lines@) =~= prev + seq![fragment@]);
            if first_idx(rest@, 10) == rest@.len() {
                assert(rest@.take(rest@.len() as int) =~= rest@);
                assert(lines_of(rest@) =~= seq![strip_cr(rest@)]);
                assert(text@.skip(text@.len() as int) =~= Seq::<u8>::empty());
            } else {
                assert(rest@.skip(first_idx(rest@, 10) as int + 1) =~= text@.skip(next_pos as int));
            }
            assert(prev + seq![fragment@] + lines_of(text@.skip(next_pos as int)) =~= prev + (seq![
                fragment@,
            ] + lines_of(text@.skip(next_pos as int))));
        }
        pos = next_pos;
    }
    proof {
        assert(text@.skip(text@.len() as int) =~= Seq::<u8>::empty());
        assert(token_views(lines@) + lines_of(Seq::<u8>::empty()) =~= token_views(lines@));
    }
    lines
}

} // verus!
