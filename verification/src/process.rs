//! Process and memory-region enumeration: the parsing core.
//!
//! The OS hands the agent raw bytes (directory entry names, `comm` contents,
//! the per-process memory-map text); everything here turns those bytes into
//! typed records. The reads themselves happen outside the library; a single
//! malformed process entry is skipped and an unparsable address range
//! degrades to a zero-valued range rather than aborting a whole listing.

use crate::render::bytes_to_string;
use crate::text::{
    all_dec_digits,
    contains_byte,
    dec_value,
    find_byte,
    first_idx,
    lines_of,
    parse_dec_u32,
    parse_hex_or_zero,
    spec_hex_or_zero,
    spec_trim,
    split_lines,
    tokens,
    tokens_of,
    token_views,
    trim,
};
use vstd::prelude::*;
use vstd::string::StringExecFns;
use vstd::utf8::{encode_utf8, valid_utf8};

verus! {

/// A process observed in one enumeration pass. Ephemeral: pids may be
/// recycled by the host, so identity never persists across passes.
#[derive(Debug, Clone)]
pub struct ProcessInfo {
    /// Process ID.
    pub pid: u32,
    /// Process name.
    pub name: String,
}

/// Permission flags of a mapped region.
#[derive(Debug, Clone, Copy, PartialEq, Eq, Structural)]
pub struct Perms {
    /// Readable.
    pub read: bool,
    /// Writable.
    pub write: bool,
    /// Executable.
    pub execute: bool,
}

/// A mapped memory region of a process, rebuilt every pass.
#[derive(Debug)]
pub struct MemoryRegion {
    /// Start address.
    pub start: u64,
    /// End address.
    pub end: u64,
    /// Permission flags.
    pub perms: Perms,
    /// Whether the region is anonymous (no backing file listed).
    pub is_anonymous: bool,
    /// Path of the backing file, if any.
    pub file_path: Option<String>,
}

impl Clone for MemoryRegion {
    /// An exact copy of the region record.
    fn clone(&self) -> (r: Self)
        ensures
            r == *self,
    {
        MemoryRegion {
            start: self.start,
            end: self.end,
            perms: self.perms,
            is_anonymous: self.is_anonymous,
            file_path: match &self.file_path {
                Some(p) => Some(p.clone()),
                None => None,
            },
        }
    }
}

/// Errors of process scanning. Every leaf failure is one of these values;
/// nothing in the pipeline aborts.
#[derive(Debug, Clone)]
pub enum ProcessScanError {
    /// The process or region vanished mid-scan: an expected race.
    NotFound(u32),
    /// The OS refused access to the process's metadata.
    PermissionDenied(u32),
    /// Any other I/O failure, with its message.
    Io(String),
    /// A metadata line with no fields at all, carried verbatim.
    Parse(Vec<u8>),
}

/// How the OS classified a failed metadata access, as plain values.
#[derive(Debug, Clone, Copy, PartialEq, Eq, Structural)]
pub enum OsErrorClass {
    /// The path no longer exists.
    NotFound,
    /// Access was refused.
    PermissionDenied,
    /// Anything else.
    Other,
}

/// Classify a failed metadata open. A vanished process and an access-control
/// refusal are each kept distinct from generic I/O failures, so callers can
/// silently skip rather than alarm.
pub fn scan_open_error(pid: u32, class: OsErrorClass, message: String) -> (e: ProcessScanError)
    ensures
        class == OsErrorClass::NotFound ==> e == ProcessScanError::NotFound(pid),
        class == OsErrorClass::PermissionDenied ==> e == ProcessScanError::PermissionDenied(pid),
        class == OsErrorClass::Other ==> (e matches ProcessScanError::Io(m) && m == message),
{
    match class {
        OsErrorClass::NotFound => ProcessScanError::NotFound(pid),
        OsErrorClass::PermissionDenied => ProcessScanError::PermissionDenied(pid),
        OsErrorClass::Other => ProcessScanError::Io(message),
    }
}

/// One `/proc` directory entry as handed in from outside: the entry name and
/// the bytes of the process's `comm` file, where that read succeeded.
#[derive(Debug, Clone)]
pub struct ProcEntry {
    /// Directory entry name.
    pub name: Vec<u8>,
    /// Contents of the process's name file, if it could be read.
    pub comm: Option<Vec<u8>>,
}

/// An entry names a process exactly when its name is a decimal pid.
pub open spec fn entry_pid(name: Seq<u8>) -> Option<u32> {
    if name.len() > 0 && all_dec_digits(name) && dec_value(name) <= u32::MAX {
        Some(dec_value(name) as u32)
    } else {
        None
    }
}

/// The name recorded for a process: its trimmed `comm` contents, or
/// `"unknown"` when the file was unreadable or not text.
pub open spec fn entry_name_matches(e: ProcEntry, name: Seq<char>) -> bool {
    match e.comm {
        Some(c) => {
            let t = spec_trim(c@);
            if valid_utf8(t) {
                encode_utf8(name) == t
            } else {
                name == "unknown"@
            }
        },
        None => name == "unknown"@,
    }
}

/// The listing contains exactly the entries whose names are decimal pids, in
/// order, each with its recorded name.
pub open spec fn listing_matches(entries: Seq<ProcEntry>, out: Seq<ProcessInfo>) -> bool
    decreases entries.len(),
{
    if entries.len() == 0 {
        out.len() == 0
    } else {
        let e = entries.last();
        match entry_pid(e.name@) {
            Some(pid) => out.len() > 0 && out.last().pid == pid && entry_name_matches(
                e,
                out.last().name@,
            ) && listing_matches(entries.drop_last(), out.drop_last()),
            None => listing_matches(entries.drop_last(), out),
        }
    }
}

/// Cross-platform interface for memory scanning: an implementation turns the
/// OS's raw metadata bytes into typed records.
pub trait MemoryScanner {
    /// Build the process listing from raw directory entries.
    fn list_processes(entries: Vec<ProcEntry>) -> Vec<ProcessInfo>;

    /// Parse a process's memory-map text into regions.
    fn scan_memory(maps_text: &[u8]) -> Result<Vec<MemoryRegion>, ProcessScanError>;
}

/// The Linux scanner: parses `/proc`-shaped metadata.
pub struct LinuxScanner;

/// Start address of a `start-end` range field: the hexadecimal value before
/// the first dash, or zero when malformed.
pub open spec fn addr_start_field(addr: Seq<u8>) -> u64 {
    spec_hex_or_zero(addr.take(first_idx(addr, 45) as int))
}

/// End address of a `start-end` range field: the hexadecimal value between
/// the first and second dashes, or zero when absent or malformed.
pub open spec fn addr_end_field(addr: Seq<u8>) -> u64 {
    if first_idx(addr, 45) == addr.len() {
        0
    } else {
        let rest = addr.skip(first_idx(addr, 45) as int + 1);
        spec_hex_or_zero(rest.take(first_idx(rest, 45) as int))
    }
}

/// Permission flags of a permissions field such as `r-xp`.
pub open spec fn perms_of_token(t: Seq<u8>) -> Perms {
    Perms { read: contains_byte(t, 114), write: contains_byte(t, 119), execute: contains_byte(
        t,
        120,
    ) }
}

/// How a parsed region relates to its metadata line. Fields are the
/// whitespace-separated tokens `address perms offset dev inode path`; a
/// missing path marks the region anonymous.
pub open spec fn region_matches_line(line: Seq<u8>, r: MemoryRegion) -> bool {
    let toks = tokens_of(line);
    &&& toks.len() > 0
    &&& r.start == addr_start_field(toks[0])
    &&& r.end == addr_end_field(toks[0])
    &&& r.perms == (if toks.len() >= 2 {
        perms_of_token(toks[1])
    } else {
        perms_of_token(Seq::empty())
    })
    &&& r.is_anonymous == (toks.len() < 6)
    &&& match r.file_path {
        Some(p) => toks.len() >= 6 && valid_utf8(toks[5]) && encode_utf8(p@) == toks[5],
        None => toks.len() < 6 || !valid_utf8(toks[5]),
    }
}

/// Test whether a permissions token grants a flag.
fn perm_flag(t: &[u8], b: u8) -> (r: bool)
    ensures
        r == contains_byte(t@, b),
{
    proof {
        crate::text::lemma_first_idx_le(t@, b);
    }
    match find_byte(t, b) {
        Some(_) => true,
        None => false,
    }
}

/// Parse one memory-map line. A line with no fields at all is a parse error;
/// an unparsable address range degrades to a zero-valued range.
pub fn parse_maps_line(line: &[u8]) -> (r: Result<MemoryRegion, ProcessScanError>)
    ensures
        match r {
            Ok(region) => tokens_of(line@).len() > 0 && region_matches_line(line@, region),
            Err(e) => tokens_of(line@).len() == 0 && (e matches ProcessScanError::Parse(l)
                && l@ == line@),
        },
{
    let toks = tokens(line);
    if toks.len() == 0 {
        assert(tokens_of(line@).len() == 0);
        return Err(ProcessScanError::Parse(vstd::slice::slice_to_vec(line)));
    }
    let ghost tv = tokens_of(line@);
    let addr: &Vec<u8> = &toks[0];
    assert(addr@ == tv[0]);
    proof {
        crate::text::lemma_first_idx_le(addr@, 45);
    }
    let (start, end) = match find_byte(addr.as_slice(), 45) {
        Some(dash) => {
            let start_part = vstd::slice::slice_subrange(addr.as_slice(), 0, dash);
            assert(start_part@ =~= addr@.take(first_idx(addr@, 45) as int));
            let start = parse_hex_or_zero(start_part);
            assert(dash < addr@.len());
            let rest = vstd::slice::slice_subrange(addr.as_slice(), dash + 1, addr.len());
            assert(rest@ =~= addr@.skip(first_idx(addr@, 45) as int + 1));
            proof {
                crate::text::lemma_first_idx_le(rest@, 45);
            }
            let end_part = match find_byte(rest, 45) {
                Some(dash2) => vstd::slice::slice_subrange(rest, 0, dash2),
                None => rest,
            };
            assert(end_part@ =~= rest@.take(first_idx(rest@, 45) as int));
            let end = parse_hex_or_zero(end_part);
            (start, end)
        },
        None => {
            let start = parse_hex_or_zero(addr.as_slice());
            assert(addr@.take(first_idx(addr@, 45) as int) =~= addr@);
            (start, 0u64)
        },
    };
    let perms = if toks.len() >= 2 {
        let t: &Vec<u8> = &toks[1];
        assert(t@ == tv[1]);
        Perms {
            read: perm_flag(t.as_slice(), 114),
            write: perm_flag(t.as_slice(), 119),
            execute: perm_flag(t.as_slice(), 120),
        }
    } else {
        Perms { read: false, write: false, execute: false }
    };
    let file_path: Option<String> = if toks.len() >= 6 {
        let t: &Vec<u8> = &toks[5];
        assert(t@ == tv[5]);
        bytes_to_string(t.as_slice())
    } else {
        None
    };
    let region = MemoryRegion { start, end, perms, is_anonymous: toks.len() < 6, file_path };
    Ok(region)
}

/// Index of the first line with no fields at all; `ls.len()` if every line
/// has at least one field.
pub open spec fn first_fieldless(ls: Seq<Seq<u8>>) -> nat
    decreases ls.len(),
{
    if ls.len() == 0 {
        0
    } else if tokens_of(ls[0]).len() == 0 {
        0
    } else {
        1 + first_fieldless(ls.skip(1))
    }
}

/// `first_fieldless` is exactly the scanned position.
pub proof fn lemma_first_fieldless_is(ls: Seq<Seq<u8>>, k: int)
    requires
        0 <= k <= ls.len(),
        forall|m: int| 0 <= m < k ==> tokens_of(#[trigger] ls[m]).len() > 0,
        k == ls.len() || tokens_of(ls[k]).len() == 0,
    ensures
        first_fieldless(ls) == k,
    decreases ls.len(),
{
    if k > 0 {
        let t = ls.skip(1);
        assert forall|m: int| 0 <= m < k - 1 implies tokens_of(#[trigger] t[m]).len() > 0 by {
            assert(t[m] == ls[m + 1]);
        }
        if k - 1 < t.len() {
            assert(t[k - 1] == ls[k]);
        }
        lemma_first_fieldless_is(t, k - 1);
    }
}

/// A map parse aborted on the first line with no fields at all, carrying
/// that line verbatim.
pub open spec fn scan_parse_failure(text: Seq<u8>, e: ProcessScanError) -> bool {
    let ls = lines_of(text);
    &&& first_fieldless(ls) < ls.len()
    &&& (e matches ProcessScanError::Parse(l) && l@ == ls[first_fieldless(ls) as int])
}

/// Every parsed region matches its line, in order.
pub open spec fn regions_match_lines(ls: Seq<Seq<u8>>, out: Seq<MemoryRegion>) -> bool {
    &&& out.len() == ls.len()
    &&& forall|i: int| 0 <= i < ls.len() ==> region_matches_line(ls[i], #[trigger] out[i])
}

impl LinuxScanner {
    /// Build the process listing from raw `/proc` directory entries: entries
    /// whose names are decimal pids become processes, all others are skipped.
    pub fn list_processes(entries: Vec<ProcEntry>) -> (procs: Vec<ProcessInfo>)
        ensures
            listing_matches(entries@, procs@),
    {
        let mut procs: Vec<ProcessInfo> = Vec::new();
        let mut i: usize = 0;
        while i < entries.len()
            invariant
                i <= entries.len(),
                listing_matches(entries@.take(i as int), procs@),
            decreases entries.len() - i,
        {
            let e = &entries[i];
            let ghost prev_procs = procs@;
            match parse_dec_u32(e.name.as_slice()) {
                Some(pid) => {
                    let name: String = match &e.comm {
                        Some(c) => {
                            let t = trim(c.as_slice());
                            match bytes_to_string(t.as_slice()) {
                                Some(s) => s,
                                None => String::from_str("unknown"),
                            }
                        },
                        None => String::from_str("unknown"),
                    };
                    procs.push(ProcessInfo { pid, name });
                },
                None => {},
            }
            proof {
                let taken = entries@.take(i as int + 1);
                assert(taken.drop_last() =~= entries@.take(i as int));
                assert(taken.last() == entries@[i as int]);
                if entry_pid(entries@[i as int].name@) is Some {
                    assert(procs@.drop_last() =~= prev_procs);
                }
            }
            i += 1;
        }
        proof {
            assert(entries@.take(entries@.len() as int) =~= entries@);
        }
        procs
    }

    /// Parse a process's memory-map text. The first line with no fields at
    /// all aborts the listing with its parse error; otherwise every line
    /// yields a region, malformed ranges degrading to zero.
    pub fn scan_memory(maps_text: &[u8]) -> (r: Result<Vec<MemoryRegion>, ProcessScanError>)
        ensures
            match r {
                Ok(regions) => regions_match_lines(lines_of(maps_text@), regions@)
                    && first_fieldless(lines_of(maps_text@)) == lines_of(maps_text@).len(),
                Err(e) => scan_parse_failure(maps_text@, e),
            },
    {
        let lines = split_lines(maps_text);
        let ghost ls = lines_of(maps_text@);
        let mut regions: Vec<MemoryRegion> = Vec::new();
        let mut i: usize = 0;
        while i < lines.len()
            invariant
                i <= lines.len(),
                ls == lines_of(maps_text@),
                token_views(lines@) == ls,
                regions@.len() == i,
                forall|m: int|
                    0 <= m < i ==> region_matches_line(ls[m], #[trigger] regions@[m]),
                forall|m: int| 0 <= m < i ==> tokens_of(#[trigger] ls[m]).len() > 0,
            decreases lines.len() - i,
        {
            let line: &Vec<u8> = &lines[i];
            assert(line@ == ls[i as int]);
            match parse_maps_line(line.as_slice()) {
                Ok(region) => {
                    regions.push(region);
                },
                Err(e) => {
                    proof {
                        lemma_first_fieldless_is(ls, i as int);
                    }
                    return Err(e);
                },
            }
            i += 1;
        }
        proof {
            lemma_first_fieldless_is(ls, ls.len() as int);
        }
        Ok(regions)
    }
}

impl MemoryScanner for LinuxScanner {
    fn list_processes(entries: Vec<ProcEntry>) -> Vec<ProcessInfo> {
        LinuxScanner::list_processes(entries)
    }

    fn scan_memory(maps_text: &[u8]) -> Result<Vec<MemoryRegion>, ProcessScanError> {
        LinuxScanner::scan_memory(maps_text)
    }
}

} // verus!
