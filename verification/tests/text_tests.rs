//! Byte-level text utility tests: tokenizing, trimming, and the exact
//! overflow boundaries of the numeric parsers.

use ultra_edr::text::{
    find_byte, has_prefix, parse_dec_u32, parse_dec_u64, parse_hex_or_zero, parse_hex_u64,
    split_lines, strip_runs, tokens, trim,
};

#[test]
fn tokens_split_on_whitespace_runs() {
    let toks = tokens(b"  a\tbb \n ccc  ");
    let views: Vec<&[u8]> = toks.iter().map(|t| t.as_slice()).collect();
    assert_eq!(views, [b"a" as &[u8], b"bb", b"ccc"]);
    assert!(tokens(b"").is_empty());
    assert!(tokens(b" \t ").is_empty());
}

#[test]
fn lines_split_at_newlines_and_strip_carriage_returns() {
    let lines = split_lines(b"one\r\ntwo\nthree");
    let views: Vec<&[u8]> = lines.iter().map(|l| l.as_slice()).collect();
    assert_eq!(views, [b"one" as &[u8], b"two", b"three"]);
    assert!(split_lines(b"").is_empty());
    assert_eq!(split_lines(b"a\n").len(), 1);
}

#[test]
fn trimming_and_stripping() {
    assert_eq!(trim(b"  x y \t"), b"x y");
    assert_eq!(trim(b"   "), b"");
    assert_eq!(strip_runs(b"\"\"quoted\"", b'"'), b"quoted");
    assert_eq!(strip_runs(b"\"\"\"", b'"'), b"");
}

#[test]
fn prefix_and_search() {
    assert!(has_prefix(b"scan_interval_seconds = 1", b"scan_interval_seconds"));
    assert!(!has_prefix(b"scan", b"scan_interval_seconds"));
    assert_eq!(find_byte(b"a=b=c", b'='), Some(1));
    assert_eq!(find_byte(b"abc", b'='), None);
}

#[test]
fn decimal_parse_boundaries() {
    assert_eq!(parse_dec_u64(b"0"), Some(0));
    assert_eq!(parse_dec_u64(b"18446744073709551615"), Some(u64::MAX));
    assert_eq!(parse_dec_u64(b"18446744073709551616"), None);
    assert_eq!(parse_dec_u64(b""), None);
    assert_eq!(parse_dec_u64(b"12a"), None);
    assert_eq!(parse_dec_u64(b"+12"), None);
    assert_eq!(parse_dec_u32(b"4294967295"), Some(u32::MAX));
    assert_eq!(parse_dec_u32(b"4294967296"), None);
}

#[test]
fn hexadecimal_parse_boundaries() {
    assert_eq!(parse_hex_u64(b"ffffffffffffffff"), Some(u64::MAX));
    assert_eq!(parse_hex_u64(b"10000000000000000"), None);
    assert_eq!(parse_hex_u64(b"DeadBEEF"), Some(0xdead_beef));
    assert_eq!(parse_hex_u64(b"xyz"), None);
    assert_eq!(parse_hex_or_zero(b"7f00"), 0x7f00);
    assert_eq!(parse_hex_or_zero(b"nope"), 0);
    assert_eq!(parse_hex_or_zero(b""), 0);
}
