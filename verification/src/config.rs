//! Permissive configuration parsing: `key = value` lines, first match wins,
//! and any failure on a line falls back to the built-in default rather than
//! failing the whole configuration. This fail-safe shape is deliberate; do
//! not tighten it.

use crate::text::{
    all_dec_digits,
    byte_is_ws,
    contains_byte,
    dec_value,
    find_byte,
    first_idx,
    has_prefix,
    is_ws,
    lemma_first_idx_le,
    lemma_ws_prefix_is,
    lines_of,
    spec_strip_runs,
    spec_trim,
    split_lines,
    strip_runs,
    token_views,
    trim,
    ws_prefix_len,
};
use crate::render::bytes_to_string;
use vstd::prelude::*;
use vstd::string::StringExecFns;
use vstd::utf8::{encode_utf8, valid_utf8};

verus! {

/// The two scalars the core consumes from the excluded configuration layer.
#[derive(Debug, Clone)]
pub struct Config {
    /// Seconds between scan passes, at least 1; 60 when absent or unusable.
    pub scan_interval_seconds: u64,
    /// Path of the log sink.
    pub log_path: String,
}

/// `s` with leading ASCII whitespace removed.
pub open spec fn spec_trim_start(s: Seq<u8>) -> Seq<u8> {
    s.skip(ws_prefix_len(s) as int)
}

/// A line selects a key when, after leading whitespace, it begins with it.
pub open spec fn selects(line: Seq<u8>, key: Seq<u8>) -> bool {
    let t = spec_trim_start(line);
    t.len() >= key.len() && t.take(key.len() as int) == key
}

/// Index of the first line selecting `key`; `ls.len()` if none does.
pub open spec fn first_selected(ls: Seq<Seq<u8>>, key: Seq<u8>) -> nat
    decreases ls.len(),
{
    if ls.len() == 0 {
        0
    } else if selects(ls[0], key) {
        0
    } else {
        1 + first_selected(ls.skip(1), key)
    }
}

/// `first_selected` is exactly the scanned position.
proof fn lemma_first_selected_is(ls: Seq<Seq<u8>>, key: Seq<u8>, k: int)
    requires
        0 <= k <= ls.len(),
        forall|m: int| 0 <= m < k ==> !selects(#[trigger] ls[m], key),
        k == ls.len() || selects(ls[k], key),
    ensures
        first_selected(ls, key) == k,
    decreases ls.len(),
{
    if k > 0 {
        let t = ls.skip(1);
        assert forall|m: int| 0 <= m < k - 1 implies !selects(#[trigger] t[m], key) by {
            assert(t[m] == ls[m + 1]);
        }
        if k - 1 < t.len() {
            assert(t[k - 1] == ls[k]);
        }
        lemma_first_selected_is(t, key, k - 1);
    }
}

/// The value field of a `key = value` line: the bytes between the first
/// equals sign and the second one or the end; nothing without an equals sign.
pub open spec fn eq_field(line: Seq<u8>) -> Option<Seq<u8>> {
    let j = first_idx(line, 61);
    if j == line.len() {
        None
    } else {
        let rest = line.skip(j as int + 1);
        Some(rest.take(first_idx(rest, 61) as int))
    }
}

/// The raw value field for `key`: from the first line selecting the key, if
/// any line does and that line has an equals sign.
pub open spec fn config_field(text: Seq<u8>, key: Seq<u8>) -> Option<Seq<u8>> {
    let ls = lines_of(text);
    if first_selected(ls, key) == ls.len() {
        None
    } else {
        eq_field(ls[first_selected(ls, key) as int])
    }
}

/// The interval key, as UTF-8 bytes.
pub open spec fn interval_key() -> Seq<u8> {
    encode_utf8("scan_interval_seconds"@)
}

/// The log-path key, as UTF-8 bytes.
pub open spec fn log_path_key() -> Seq<u8> {
    encode_utf8("log_path"@)
}

/// The scan interval: the trimmed value field parsed as a decimal number of
/// seconds, if it parses and is at least 1; otherwise the default 60.
pub open spec fn spec_scan_interval(text: Seq<u8>) -> u64 {
    match config_field(text, interval_key()) {
        Some(v) => {
            let tv = spec_trim(v);
            if tv.len() > 0 && all_dec_digits(tv) && 1 <= dec_value(tv) <= u64::MAX {
                dec_value(tv) as u64
            } else {
                60
            }
        },
        None => 60,
    }
}

/// The log path bytes: the trimmed value field with surrounding quote runs
/// removed, accepted only as valid UTF-8 free of NUL and newline bytes.
/// `None` means the built-in default path is used.
pub open spec fn spec_log_path_bytes(text: Seq<u8>) -> Option<Seq<u8>> {
    match config_field(text, log_path_key()) {
        Some(v) => {
            let q = spec_strip_runs(spec_trim(v), 34);
            if valid_utf8(q) && !contains_byte(q, 0) && !contains_byte(q, 10) {
                Some(q)
            } else {
                None
            }
        },
        None => None,
    }
}

/// Whether a line selects a key.
fn line_selects(line: &[u8], key: &[u8]) -> (r: bool)
    ensures
        r == selects(line@, key@),
{
    let mut lo: usize = 0;
    while lo < line.len() && byte_is_ws(*vstd::slice::slice_index_get(line, lo))
        invariant
            lo <= line.len(),
            forall|m: int| 0 <= m < lo ==> is_ws(line@[m]),
        decreases line.len() - lo,
    {
        lo += 1;
    }
    proof {
        lemma_ws_prefix_is(line@, lo as int);
    }
    let t = vstd::slice::slice_subrange(line, lo, line.len());
    proof {
        assert(t@ =~= spec_trim_start(line@));
    }
    has_prefix(t, key)
}

/// Extract the raw value field for `key` from the configuration text.
fn config_field_bytes(text: &[u8], key: &[u8]) -> (r: Option<Vec<u8>>)
    ensures
        match r {
            Some(v) => config_field(text@, key@) == Some(v@),
            None => config_field(text@, key@) is None,
        },
{
    let lines = split_lines(text);
    let ghost ls = lines_of(text@);
    let mut i: usize = 0;
    while i < lines.len()
        invariant
            i <= lines.len(),
            ls == lines_of(text@),
            token_views(lines@) == ls,
            forall|m: int| 0 <= m < i ==> !selects(#[trigger] ls[m], key@),
        decreases lines.len() - i,
    {
        let line: &Vec<u8> = &lines[i];
        assert(line@ == ls[i as int]);
        if line_selects(line.as_slice(), key) {
            proof {
                lemma_first_selected_is(ls, key@, i as int);
                lemma_first_idx_le(line@, 61);
            }
            match find_byte(line.as_slice(), 61) {
                Some(j) => {
                    let rest = vstd::slice::slice_subrange(line.as_slice(), j + 1, line.len());
                    proof {
                        assert(rest@ =~= line@.skip(first_idx(line@, 61) as int + 1));
                        lemma_first_idx_le(rest@, 61);
                    }
                    let field = match find_byte(rest, 61) {
                        Some(j2) => vstd::slice::slice_subrange(rest, 0, j2),
                        None => rest,
                    };
                    proof {
                        assert(field@ =~= rest@.take(first_idx(rest@, 61) as int));
                    }
                    return Some(vstd::slice::slice_to_vec(field));
                },
                None => {
                    return None;
                },
            }
        }
        i += 1;
    }
    proof {
        lemma_first_selected_is(ls, key@, ls.len() as int);
    }
    None
}

/// Parse the scan interval from configuration text: permissive, first match
/// wins, default 60 on anything absent or unusable. Always at least 1.
pub fn parse_scan_interval(text: &[u8]) -> (r: u64)
    ensures
        r == spec_scan_interval(text@),
        r >= 1,
{
    let key: &[u8] = "scan_interval_seconds".as_bytes();
    match config_field_bytes(text, key) {
        Some(v) => {
            let tv = trim(v.as_slice());
            match crate::text::parse_dec_u64(tv.as_slice()) {
                Some(n) => {
                    if n >= 1 {
                        n
                    } else {
                        60
                    }
                },
                None => 60,
            }
        },
        None => 60,
    }
}

/// Parse the log path from configuration text: the quoted value of the first
/// matching line, or the built-in default. A value holding a NUL or newline
/// byte, or not valid UTF-8, is rejected in favor of the default.
pub fn parse_log_path(text: &[u8]) -> (r: String)
    ensures
        match spec_log_path_bytes(text@) {
            Some(q) => encode_utf8(r@) == q,
            None => r@ == "../logs/edr.log"@,
        },
{
    let key: &[u8] = "log_path".as_bytes();
    let default = "../logs/edr.log";
    match config_field_bytes(text, key) {
        Some(v) => {
            let tv = trim(v.as_slice());
            let q = strip_runs(tv.as_slice(), 34);
            proof {
                lemma_first_idx_le(q@, 0);
                lemma_first_idx_le(q@, 10);
            }
            let has_nul = match find_byte(q.as_slice(), 0) {
                Some(_) => true,
                None => false,
            };
            let has_nl = match find_byte(q.as_slice(), 10) {
                Some(_) => true,
                None => false,
            };
            if has_nul || has_nl {
                return String::from_str(default);
            }
            match bytes_to_string(q.as_slice()) {
                Some(s) => s,
                None => String::from_str(default),
            }
        },
        None => String::from_str(default),
    }
}

/// Parse both configuration scalars.
pub fn parse_config(text: &[u8]) -> (c: Config)
    ensures
        c.scan_interval_seconds == spec_scan_interval(text@),
        c.scan_interval_seconds >= 1,
        match spec_log_path_bytes(text@) {
            Some(q) => encode_utf8(c.log_path@) == q,
            None => c.log_path@ == "../logs/edr.log"@,
        },
{
    Config { scan_interval_seconds: parse_scan_interval(text), log_path: parse_log_path(text) }
}

} // verus!
