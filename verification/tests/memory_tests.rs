//! Tests for the standalone enumeration records, the positional map-line
//! parser, the bounded read-buffer arithmetic, and string rendering.

use ultra_edr::memory::{
    finish_read, list_processes, list_regions, parse_region_line, prepare_read_buffer, ExeEntry,
};
use ultra_edr::render::{log_line, u64_to_string};

#[test]
fn list_processes_keeps_only_numeric_entries() {
    let entries = vec![
        ExeEntry {
            name: b"17".to_vec(),
            exe: Some("/usr/bin/htop".to_string()),
        },
        ExeEntry {
            name: b"self".to_vec(),
            exe: None,
        },
        ExeEntry {
            name: b"400".to_vec(),
            exe: None,
        },
    ];
    let procs = list_processes(entries);
    assert_eq!(procs.len(), 2);
    assert_eq!(procs[0].pid, 17);
    assert_eq!(procs[0].exe.as_deref(), Some("/usr/bin/htop"));
    assert_eq!(procs[1].pid, 400);
    assert_eq!(procs[1].exe, None);
}

#[test]
fn region_line_parses_all_fields() {
    let line = b"7f1200000000-7f1200021000 r-xp 0001a000 08:02 525342 /usr/lib/libm.so.6";
    let r = parse_region_line(line);
    assert_eq!(r.start, 0x7f1200000000);
    assert_eq!(r.end, 0x7f1200021000);
    assert_eq!(r.perms, "r-xp");
    assert_eq!(r.offset, 0x1a000);
    assert_eq!(r.dev, "08:02");
    assert_eq!(r.inode, 525342);
    assert_eq!(r.pathname.as_deref(), Some("/usr/lib/libm.so.6"));
}

#[test]
fn region_line_defaults_malformed_fields_to_zero() {
    let r = parse_region_line(b"zzz nope r--p");
    assert_eq!(r.start, 0);
    assert_eq!(r.end, 0);
    assert_eq!(r.perms, "nope"); // positional: second space-separated field
    assert_eq!(r.offset, 0);
    assert_eq!(r.dev, "");
    assert_eq!(r.inode, 0);
    assert_eq!(r.pathname, None);
}

#[test]
fn list_regions_never_fails() {
    let maps = b"00400000-00452000 r-xp 00000000 08:02 173521 /usr/bin/dbus-daemon\n\
nonsense\n\
7ffc-7ffd rw-p zz 00:00 notanumber [stack]\n";
    let regions = list_regions(maps);
    assert_eq!(regions.len(), 3);
    assert_eq!(regions[0].inode, 173521);
    assert_eq!(regions[1].start, 0);
    assert_eq!(regions[2].start, 0x7ffc);
    assert_eq!(regions[2].offset, 0);
    assert_eq!(regions[2].inode, 0);
    assert_eq!(regions[2].pathname.as_deref(), Some("[stack]"));
}

#[test]
fn read_buffer_is_capped_and_zeroed() {
    let buf = prepare_read_buffer(0x1000, 0x2000, 1024 * 1024);
    assert_eq!(buf.len(), 0x1000);
    assert!(buf.iter().all(|&b| b == 0));
    let capped = prepare_read_buffer(0, u64::MAX, 1024 * 1024);
    assert_eq!(capped.len(), 1024 * 1024);
}

#[test]
fn zero_length_request_returns_empty() {
    let buf = prepare_read_buffer(0x5000, 0x5000, 1024);
    assert!(buf.is_empty());
    assert!(finish_read(buf, 0).is_empty());
}

#[test]
fn short_reads_never_return_more_than_requested() {
    let buf = prepare_read_buffer(0, 100, 1024);
    let r = finish_read(buf, 40);
    assert_eq!(r.len(), 40);
    let buf = prepare_read_buffer(0, 100, 1024);
    let r = finish_read(buf, 5000);
    assert_eq!(r.len(), 100);
}

#[test]
fn decimal_rendering_is_exact() {
    assert_eq!(u64_to_string(0), "0");
    assert_eq!(u64_to_string(7), "7");
    assert_eq!(u64_to_string(12345), "12345");
    assert_eq!(u64_to_string(u64::MAX), u64::MAX.to_string());
}

#[test]
fn log_lines_are_leveled_and_terminated() {
    assert_eq!(log_line("INFO", "scan pass complete"), "[INFO] scan pass complete\n");
    assert_eq!(log_line("WARN", ""), "[WARN] \n");
}
