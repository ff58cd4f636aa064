//! Standalone-tool flavor of region enumeration and bounded reading: richer
//! region records (offset, device, inode), positional space-separated field
//! parsing, and the buffer arithmetic of the capped region reader. The file
//! and link reads themselves happen outside the library.

use crate::render::bytes_to_string;
use crate::text::{
    all_dec_digits,
    dec_value,
    find_byte,
    first_idx,
    lemma_first_idx_le,
    lines_of,
    parse_dec_or_zero,
    parse_hex_or_zero,
    spec_dec_or_zero,
    spec_hex_or_zero,
    spec_trim,
    split_lines,
    token_views,
    trim,
};
use vstd::prelude::*;
use vstd::utf8::{encode_utf8, valid_utf8};

verus! {

/// A process observed in one enumeration pass, with its executable link.
#[derive(Debug, Clone)]
pub struct Process {
    /// Process ID.
    pub pid: u32,
    /// Target of the process's executable link, if it could be read.
    pub exe: Option<String>,
}

/// A mapped memory region with full metadata fields.
#[derive(Debug, Clone)]
pub struct Region {
    /// Start address.
    pub start: u64,
    /// End address.
    pub end: u64,
    /// Permission string, such as `r-xp`.
    pub perms: String,
    /// File offset.
    pub offset: u64,
    /// Device field.
    pub dev: String,
    /// Inode number.
    pub inode: u64,
    /// Backing path, if listed.
    pub pathname: Option<String>,
}

/// One `/proc` directory entry with the target of its executable link, as
/// handed in from outside.
#[derive(Debug, Clone)]
pub struct ExeEntry {
    /// Directory entry name.
    pub name: Vec<u8>,
    /// Where the executable link points, if it could be read.
    pub exe: Option<String>,
}

/// The listing contains exactly the entries whose names are decimal pids, in
/// order, each with its executable link carried through.
pub open spec fn exe_listing_matches(entries: Seq<ExeEntry>, out: Seq<Process>) -> bool
    decreases entries.len(),
{
    if entries.len() == 0 {
        out.len() == 0
    } else {
        let e = entries.last();
        if e.name@.len() > 0 && all_dec_digits(e.name@) && dec_value(e.name@) <= u32::MAX {
            &&& out.len() > 0
            &&& out.last().pid == dec_value(e.name@)
            &&& out.last().exe == e.exe
            &&& exe_listing_matches(entries.drop_last(), out.drop_last())
        } else {
            exe_listing_matches(entries.drop_last(), out)
        }
    }
}

/// Build the process listing from raw directory entries: entries whose names
/// are decimal pids become processes, all others are skipped.
pub fn list_processes(entries: Vec<ExeEntry>) -> (procs: Vec<Process>)
    ensures
        exe_listing_matches(entries@, procs@),
{
    let mut procs: Vec<Process> = Vec::new();
    let mut i: usize = 0;
    while i < entries.len()
        invariant
            i <= entries.len(),
            exe_listing_matches(entries@.take(i as int), procs@),
        decreases entries.len() - i,
    {
        let e = &entries[i];
        let ghost prev = procs@;
        match crate::text::parse_dec_u32(e.name.as_slice()) {
            Some(pid) => {
                procs.push(Process { pid, exe: e.exe.clone() });
            },
            None => {},
        }
        proof {
            let taken = entries@.take(i as int + 1);
            assert(taken.drop_last() =~= entries@.take(i as int));
            assert(taken.last() == entries@[i as int]);
            if entries@[i as int].name@.len() > 0 && all_dec_digits(entries@[i as int].name@)
                && dec_value(entries@[i as int].name@) <= u32::MAX {
                assert(procs@.drop_last() =~= prev);
            }
        }
        i += 1;
    }
    proof {
        assert(entries@.take(entries@.len() as int) =~= entries@);
    }
    procs
}

/// The positional split of a metadata line: at most `n` parts, split at each
/// single space byte, the last part taking the rest of the line.
pub open spec fn split_space_n(s: Seq<u8>, n: nat) -> Seq<Seq<u8>>
    decreases n,
{
    if n <= 1 {
        seq![s]
    } else {
        let j = first_idx(s, 32);
        if j == s.len() {
            seq![s]
        } else {
            seq![s.take(j as int)] + split_space_n(s.skip(j as int + 1), (n - 1) as nat)
        }
    }
}

/// Split at single space bytes into at most `n` parts.
pub fn split_space(line: &[u8], n: usize) -> (parts: Vec<Vec<u8>>)
    requires
        n >= 1,
    ensures
        token_views(parts@) == split_space_n(line@, n as nat),
{
    let mut parts: Vec<Vec<u8>> = Vec::new();
    let mut pos: usize = 0;
    proof {
        assert(line@.skip(0) =~= line@);
        assert(token_views(parts@) =~= Seq::<Seq<u8>>::empty());
        assert(token_views(parts@) + split_space_n(line@, n as nat) =~= split_space_n(
            line@,
            n as nat,
        ));
    }
    loop
        invariant
            pos <= line@.len(),
            parts@.len() < n,
            token_views(parts@) + split_space_n(line@.skip(pos as int), (n - parts@.len()) as nat)
                == split_space_n(line@, n as nat),
        ensures
            token_views(parts@) == split_space_n(line@, n as nat),
        decreases n - parts@.len(),
    {
        let rest = vstd::slice::slice_subrange(line, pos, line.len());
        proof {
            lemma_first_idx_le(rest@, 32);
        }
        let cut = if parts.len() + 1 < n {
            find_byte(rest, 32)
        } else {
            None
        };
        match cut {
            Some(j) => {
                let part = vstd::slice::slice_to_vec(vstd::slice::slice_subrange(rest, 0, j));
                proof {
                    assert(part@ =~= rest@.take(first_idx(rest@, 32) as int));
                    assert(rest@.skip(first_idx(rest@, 32) as int + 1) =~= line@.skip(
                        pos as int + j + 1,
                    ));
                }
                let ghost prev = token_views(parts@);
                parts.push(part);
                proof {
                    assert(token_views(parts@) =~= prev + seq![part@]);
                    assert(prev + seq![part@] + split_space_n(
                        line@.skip(pos as int + j + 1),
                        (n - parts@.len()) as nat,
                    ) =~= prev + (seq![part@] + split_space_n(
                        line@.skip(pos as int + j + 1),
                        (n - parts@.len()) as nat,
                    )));
                }
                pos = pos + j + 1;
            },
            None => {
                let part = vstd::slice::slice_to_vec(rest);
                let ghost prev = token_views(parts@);
                proof {
                    if parts@.len() + 1 < n {
                        assert(first_idx(rest@, 32) == rest@.len());
                    }
                    assert(split_space_n(rest@, (n - parts@.len()) as nat) =~= seq![rest@]);
                }
                parts.push(part);
                proof {
                    assert(token_views(parts@) =~= prev + seq![part@]);
                }
                return parts;
            },
        }
    }
}

/// The part at `k`, or `default` when the split has no such part.
pub open spec fn part_or(ps: Seq<Seq<u8>>, k: int, default: Seq<u8>) -> Seq<u8> {
    if 0 <= k < ps.len() {
        ps[k]
    } else {
        default
    }
}

/// How a text field of a region record relates to its source bytes: decoded
/// when valid UTF-8, empty otherwise.
pub open spec fn text_field_matches(bytes: Seq<u8>, s: Seq<char>) -> bool {
    if valid_utf8(bytes) {
        encode_utf8(s) == bytes
    } else {
        s == Seq::<char>::empty()
    }
}

/// How a parsed region record relates to its metadata line. The fields are
/// positional: `address perms offset dev inode pathname`, split at single
/// spaces, the pathname taking the rest of the line.
pub open spec fn region_record_matches(line: Seq<u8>, r: Region) -> bool {
    let ps = split_space_n(line, 6);
    let addr = part_or(ps, 0, Seq::empty());
    let dash = first_idx(addr, 45);
    &&& r.start == spec_hex_or_zero(addr.take(dash as int))
    &&& r.end == (if dash == addr.len() {
        0u64
    } else {
        spec_hex_or_zero(addr.skip(dash as int + 1))
    })
    &&& text_field_matches(part_or(ps, 1, Seq::empty()), r.perms@)
    &&& r.offset == spec_hex_or_zero(part_or(ps, 2, Seq::empty()))
    &&& text_field_matches(part_or(ps, 3, Seq::empty()), r.dev@)
    &&& r.inode == spec_dec_or_zero(part_or(ps, 4, Seq::empty()))
    &&& match r.pathname {
        Some(p) => ps.len() >= 6 && valid_utf8(spec_trim(ps[5])) && encode_utf8(p@) == spec_trim(
            ps[5],
        ),
        None => ps.len() < 6 || !valid_utf8(spec_trim(ps[5])),
    }
}

/// Decode a text field, empty on invalid UTF-8.
fn text_field(bytes: &[u8]) -> (s: String)
    ensures
        text_field_matches(bytes@, s@),
{
    match bytes_to_string(bytes) {
        Some(s) => s,
        None => String::new(),
    }
}

/// Parse one region record line. Defensive: every malformed numeric field
/// degrades to zero, missing fields to empty.
pub fn parse_region_line(line: &[u8]) -> (r: Region)
    ensures
        region_record_matches(line@, r),
{
    let parts = split_space(line, 6);
    let ghost ps = split_space_n(line@, 6);
    proof {
        assert(ps.len() >= 1);
    }
    let empty_vec: Vec<u8> = Vec::new();
    let addr: &Vec<u8> = if parts.len() > 0 {
        &parts[0]
    } else {
        &empty_vec
    };
    assert(addr@ == part_or(ps, 0, Seq::empty()));
    proof {
        lemma_first_idx_le(addr@, 45);
    }
    let (start, end) = match find_byte(addr.as_slice(), 45) {
        Some(dash) => {
            let start_part = vstd::slice::slice_subrange(addr.as_slice(), 0, dash);
            let end_part = vstd::slice::slice_subrange(addr.as_slice(), dash + 1, addr.len());
            proof {
                assert(start_part@ =~= addr@.take(first_idx(addr@, 45) as int));
                assert(end_part@ =~= addr@.skip(first_idx(addr@, 45) as int + 1));
            }
            (parse_hex_or_zero(start_part), parse_hex_or_zero(end_part))
        },
        None => {
            proof {
                assert(addr@.take(first_idx(addr@, 45) as int) =~= addr@);
            }
            (parse_hex_or_zero(addr.as_slice()), 0u64)
        },
    };
    let perms = if parts.len() > 1 {
        text_field(parts[1].as_slice())
    } else {
        text_field(empty_vec.as_slice())
    };
    let offset = if parts.len() > 2 {
        parse_hex_or_zero(parts[2].as_slice())
    } else {
        0
    };
    let dev = if parts.len() > 3 {
        text_field(parts[3].as_slice())
    } else {
        text_field(empty_vec.as_slice())
    };
    let inode = if parts.len() > 4 {
        parse_dec_or_zero(parts[4].as_slice())
    } else {
        0
    };
    let pathname: Option<String> = if parts.len() > 5 {
        let t = trim(parts[5].as_slice());
        bytes_to_string(t.as_slice())
    } else {
        None
    };
    proof {
        assert(Seq::<u8>::empty().len() == 0);
        if ps.len() <= 2 {
            assert(spec_hex_or_zero(part_or(ps, 2, Seq::empty())) == 0);
        }
        if ps.len() <= 4 {
            assert(spec_dec_or_zero(part_or(ps, 4, Seq::empty())) == 0);
        }
    }
    Region { start, end, perms, offset, dev, inode, pathname }
}

/// Every parsed region record matches its line, in order.
pub open spec fn region_records_match(ls: Seq<Seq<u8>>, out: Seq<Region>) -> bool {
    &&& out.len() == ls.len()
    &&& forall|i: int| 0 <= i < ls.len() ==> region_record_matches(ls[i], #[trigger] out[i])
}

/// Parse a process's full memory-map text into region records, one per line.
/// Never fails: malformed fields degrade rather than abort the listing.
pub fn list_regions(maps_text: &[u8]) -> (regions: Vec<Region>)
    ensures
        region_records_match(lines_of(maps_text@), regions@),
{
    let lines = split_lines(maps_text);
    let ghost ls = lines_of(maps_text@);
    let mut regions: Vec<Region> = Vec::new();
    let mut i: usize = 0;
    while i < lines.len()
        invariant
            i <= lines.len(),
            ls == lines_of(maps_text@),
            token_views(lines@) == ls,
            regions@.len() == i,
            forall|m: int| 0 <= m < i ==> region_record_matches(ls[m], #[trigger] regions@[m]),
        decreases lines.len() - i,
    {
        let line: &Vec<u8> = &lines[i];
        assert(line@ == ls[i as int]);
        let region = parse_region_line(line.as_slice());
        regions.push(region);
        i += 1;
    }
    regions
}

/// How many bytes a bounded region read requests: the region's span, capped.
pub open spec fn spec_read_len(start: int, end: int, cap: int) -> int {
    if end - start < cap {
        end - start
    } else {
        cap
    }
}

/// Allocate the zeroed buffer for a bounded region read. A zero-length span
/// yields an empty buffer; no read ever requests more than the cap.
pub fn prepare_read_buffer(start: u64, end: u64, cap: usize) -> (buf: Vec<u8>)
    requires
        start <= end,
    ensures
        buf@.len() == spec_read_len(start as int, end as int, cap as int),
        buf@.len() <= cap,
        forall|i: int| 0 <= i < buf@.len() ==> buf@[i] == 0u8,
{
    let span = end - start;
    let len: usize = if span < cap as u64 {
        span as usize
    } else {
        cap
    };
    let buf = vec![0u8; len];
    buf
}

/// Keep the bytes a partial read filled: the reader returns a short read
/// rather than an error, and never more bytes than were requested.
pub fn finish_read(buf: Vec<u8>, n: usize) -> (r: Vec<u8>)
    ensures
        r@ == (if n <= buf@.len() {
            buf@.take(n as int)
        } else {
            buf@
        }),
        r@.len() <= buf@.len(),
        r@.len() <= n,
{
    let mut out = buf;
    out.truncate(n);
    proof {
        if n <= out@.len() {
            assert(out@.take(out@.len() as int) =~= out@);
        }
    }
    out
}

} // verus!
