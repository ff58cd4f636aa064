//! Integration tests for the enumeration core, fed with `/proc`-shaped bytes.

use ultra_edr::process::{scan_open_error, LinuxScanner, OsErrorClass, ProcEntry, ProcessScanError};

#[test]
fn test_list_processes() {
    let entries = vec![
        ProcEntry {
            name: b"1".to_vec(),
            comm: Some(b"systemd\n".to_vec()),
        },
        ProcEntry {
            name: b"sys".to_vec(),
            comm: None,
        },
        ProcEntry {
            name: b"4242".to_vec(),
            comm: Some(b"bash\n".to_vec()),
        },
    ];
    let procs = LinuxScanner::list_processes(entries);
    assert!(!procs.is_empty(), "No processes found");
    assert_eq!(procs.len(), 2);
    assert_eq!(procs[0].pid, 1);
    assert_eq!(procs[0].name, "systemd");
    assert_eq!(procs[1].pid, 4242);
    assert_eq!(procs[1].name, "bash");
}

#[test]
fn test_scan_memory() {
    let maps = b"55d000000000-55d000021000 r-xp 00000000 08:01 393228 /usr/bin/cat\n\
7f2a00000000-7f2a00001000 rw-p 00000000 00:00 0\n";
    let regions = LinuxScanner::scan_memory(maps).expect("list_processes failed");
    assert!(!regions.is_empty(), "No accessible process with memory regions found");
    assert_eq!(regions.len(), 2);
    assert_eq!(regions[0].start, 0x55d000000000);
    assert_eq!(regions[0].end, 0x55d000021000);
    assert!(regions[0].perms.read);
    assert!(!regions[0].perms.write);
    assert!(regions[0].perms.execute);
    assert!(!regions[0].is_anonymous);
    assert_eq!(regions[0].file_path.as_deref(), Some("/usr/bin/cat"));
    assert!(regions[1].is_anonymous);
    assert!(regions[1].file_path.is_none());
    assert!(!regions[1].perms.execute);
}

#[test]
fn scan_memory_rejects_fieldless_line() {
    let maps = b"55d000000000-55d000021000 r-xp 00000000 08:01 393228 /usr/bin/cat\n   \nrest";
    let err = LinuxScanner::scan_memory(maps).unwrap_err();
    match err {
        ProcessScanError::Parse(line) => assert_eq!(line, b"   ".to_vec()),
        other => panic!("expected a parse error, got {:?}", other),
    }
}

#[test]
fn scan_memory_degrades_malformed_ranges_to_zero() {
    let maps = b"nonsense r--p\n12-zz rw-p\n";
    let regions = LinuxScanner::scan_memory(maps).unwrap();
    assert_eq!(regions.len(), 2);
    assert_eq!(regions[0].start, 0);
    assert_eq!(regions[0].end, 0);
    assert!(regions[0].perms.read);
    assert_eq!(regions[1].start, 0x12);
    assert_eq!(regions[1].end, 0);
}

#[test]
fn permission_denied_is_distinct_from_io_error() {
    let denied = scan_open_error(77, OsErrorClass::PermissionDenied, String::from("open failed"));
    assert!(matches!(denied, ProcessScanError::PermissionDenied(77)));
    let gone = scan_open_error(77, OsErrorClass::NotFound, String::from("open failed"));
    assert!(matches!(gone, ProcessScanError::NotFound(77)));
    let io = scan_open_error(77, OsErrorClass::Other, String::from("open failed"));
    match io {
        ProcessScanError::Io(msg) => assert_eq!(msg, "open failed"),
        other => panic!("expected an io error, got {:?}", other),
    }
}

#[test]
fn non_utf8_path_is_dropped() {
    let mut maps = b"1000-2000 r-xp 00000000 08:01 5 /usr/lib/".to_vec();
    maps.push(0xFF);
    maps.push(b'\n');
    let regions = LinuxScanner::scan_memory(&maps).unwrap();
    assert_eq!(regions.len(), 1);
    assert!(regions[0].file_path.is_none());
}

#[test]
fn non_utf8_comm_becomes_unknown() {
    let entries = vec![ProcEntry {
        name: b"9".to_vec(),
        comm: Some(vec![0xFF, 0xFE]),
    }];
    let procs = LinuxScanner::list_processes(entries);
    assert_eq!(procs.len(), 1);
    assert_eq!(procs[0].name, "unknown");
}
