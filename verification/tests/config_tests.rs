//! Configuration parser tests: permissive `key = value` parsing, first match
//! wins, defaults on anything absent or unusable.

use ultra_edr::config::{parse_config, parse_log_path, parse_scan_interval};

#[test]
fn parses_both_scalars() {
    let text = b"scan_interval_seconds = 45\nlog_path = \"/var/log/x.log\"";
    let c = parse_config(text);
    assert_eq!(c.scan_interval_seconds, 45);
    assert_eq!(c.log_path, "/var/log/x.log");
}

#[test]
fn empty_config_yields_defaults() {
    let c = parse_config(b"");
    assert_eq!(c.scan_interval_seconds, 60);
    assert_eq!(c.log_path, "../logs/edr.log");
}

#[test]
fn first_match_wins() {
    let text = b"scan_interval_seconds = 10\nscan_interval_seconds = 20";
    assert_eq!(parse_scan_interval(text), 10);
}

#[test]
fn one_bad_line_never_fails_the_config() {
    let text = b"garbage line without equals\nscan_interval_seconds = 90\n= = =";
    assert_eq!(parse_scan_interval(text), 90);
}

#[test]
fn unparsable_interval_defaults_to_sixty() {
    assert_eq!(parse_scan_interval(b"scan_interval_seconds = soon"), 60);
    assert_eq!(parse_scan_interval(b"scan_interval_seconds ="), 60);
    assert_eq!(parse_scan_interval(b"scan_interval_seconds"), 60);
    assert_eq!(parse_scan_interval(b"scan_interval_seconds = 0"), 60);
    assert_eq!(
        parse_scan_interval(b"scan_interval_seconds = 99999999999999999999999"),
        60
    );
}

#[test]
fn interval_tolerates_leading_whitespace_and_quotes_elsewhere() {
    assert_eq!(parse_scan_interval(b"   scan_interval_seconds = 7"), 7);
}

#[test]
fn log_path_strips_quotes_and_trims() {
    assert_eq!(parse_log_path(b"log_path =   \"/tmp/a.log\"  "), "/tmp/a.log");
    assert_eq!(parse_log_path(b"log_path = /plain/path.log"), "/plain/path.log");
}

#[test]
fn log_path_with_nul_byte_is_rejected() {
    let mut text = b"log_path = \"/tmp/a".to_vec();
    text.push(0);
    text.extend_from_slice(b".log\"");
    assert_eq!(parse_log_path(&text), "../logs/edr.log");
}

#[test]
fn missing_log_path_defaults() {
    assert_eq!(parse_log_path(b"scan_interval_seconds = 5"), "../logs/edr.log");
    assert_eq!(parse_log_path(b"log_path"), "../logs/edr.log");
}
