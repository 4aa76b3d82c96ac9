//! The end-of-archive records of ZIP and ZIP64 files.
//!
//! An archive is accepted only when its end records agree with each other, cover the whole
//! file, and announce a directory of bounded size that ends where the records begin.
use crate::error::{deployment_error, deployment_text, refusal, ErrorView, Result};
use vstd::prelude::*;

verus! {

/// The fixed part of an end record, in bytes.
pub const END_RECORD: usize = 22;

/// An end record and its longest comment, in bytes.
pub const END_WINDOW: usize = 65557;

/// A ZIP64 locator, in bytes.
pub const LOCATOR: usize = 20;

/// The shortest directory entry, in bytes.
pub const DIRECTORY_ENTRY: usize = 46;

/// The little-endian number in the `width` bytes from `at`.
pub open spec fn little_endian(bytes: Seq<u8>, at: int, width: nat) -> int
    decreases width,
{
    if width == 0 {
        0
    } else {
        bytes[at] as int + 256 * little_endian(bytes, at + 1, (width - 1) as nat)
    }
}

/// The four bytes `P K a b` stand at `at`.
pub open spec fn signature(bytes: Seq<u8>, at: int, a: u8, b: u8) -> bool {
    &&& 0 <= at
    &&& at + 4 <= bytes.len()
    &&& bytes[at] == 0x50
    &&& bytes[at + 1] == 0x4b
    &&& bytes[at + 2] == a
    &&& bytes[at + 3] == b
}

/// An end record may begin at `at`: its signature is there, its fixed part fits, and it lies
/// in the window that the longest comment allows.
pub open spec fn end_candidate(bytes: Seq<u8>, at: int) -> bool {
    &&& bytes.len() - END_WINDOW <= at
    &&& 0 <= at
    &&& at + END_RECORD <= bytes.len()
    &&& signature(bytes, at, 5, 6)
}

/// The end record is the last candidate.
pub open spec fn end_record(bytes: Seq<u8>, at: int) -> bool {
    &&& end_candidate(bytes, at)
    &&& forall|later: int| at < later ==> !#[trigger] end_candidate(bytes, later)
}

/// What the end records say of the archive's directory.
pub struct Directory {
    /// Entries of the directory.
    pub count: int,
    /// Bytes of the directory.
    pub size: int,
    /// Where the directory begins.
    pub offset: int,
    /// Where the records behind the directory begin.
    pub boundary: int,
}

/// The directory that a ZIP end record at `end` announces on its own.
pub open spec fn plain_directory(bytes: Seq<u8>, end: int) -> core::result::Result<Directory, ErrorView> {
    let entries = little_endian(bytes, end + 10, 2);
    let size = little_endian(bytes, end + 12, 4);
    let offset = little_endian(bytes, end + 16, 4);
    if entries == 0xffff || size == 0xffff_ffff || offset == 0xffff_ffff || little_endian(bytes, end + 8, 2) != entries {
        Err(deployment_text("missing ZIP64 directory metadata"@))
    } else {
        Ok(Directory { count: entries, size, offset, boundary: end })
    }
}

/// A field of the ZIP end record defers to the ZIP64 record or repeats its value.
pub open spec fn defers(field: int, sentinel: int, value: int) -> bool {
    field == sentinel || field == value
}

/// The directory that a ZIP64 locator before the end record at `end` leads to.
pub open spec fn wide_directory(bytes: Seq<u8>, end: int) -> core::result::Result<Directory, ErrorView> {
    let locator = end - LOCATOR;
    let position = little_endian(bytes, locator + 8, 8);
    let length = little_endian(bytes, position + 4, 8);
    let count = little_endian(bytes, position + 32, 8);
    let size = little_endian(bytes, position + 40, 8);
    let offset = little_endian(bytes, position + 48, 8);
    if little_endian(bytes, locator + 4, 4) != 0 || little_endian(bytes, locator + 16, 4) != 1 {
        Err(deployment_text("multi-disk ZIP64 is unsupported"@))
    } else if position > usize::MAX {
        Err(deployment_text("out of range integral type conversion attempted"@))
    } else if !signature(bytes, position, 6, 6) {
        Err(deployment_text("invalid ZIP64 end pointer"@))
    } else if position + 12 > bytes.len() {
        Err(deployment_text("truncated ZIP header"@))
    } else if length < 44 || position + 12 + length != locator {
        Err(deployment_text("invalid ZIP64 record bounds"@))
    } else if little_endian(bytes, position + 16, 4) != 0 || little_endian(bytes, position + 20, 4) != 0 {
        Err(deployment_text("multi-disk ZIP64 is unsupported"@))
    } else if little_endian(bytes, position + 24, 8) != count
        || !defers(little_endian(bytes, end + 10, 2), 0xffff, count)
        || !defers(little_endian(bytes, end + 8, 2), 0xffff, count)
        || !defers(little_endian(bytes, end + 12, 4), 0xffff_ffff, size)
        || !defers(little_endian(bytes, end + 16, 4), 0xffff_ffff, offset) {
        Err(deployment_text("inconsistent ZIP/ZIP64 directory metadata"@))
    } else {
        Ok(Directory { count, size, offset, boundary: position })
    }
}

/// A ZIP64 locator stands directly before the end record at `end`.
pub open spec fn has_locator(bytes: Seq<u8>, end: int) -> bool {
    end >= LOCATOR && signature(bytes, end - LOCATOR, 6, 7)
}

/// The directory that the end records announce.
pub open spec fn announced_directory(bytes: Seq<u8>, end: int) -> core::result::Result<Directory, ErrorView> {
    if end + END_RECORD + little_endian(bytes, end + 20, 2) != bytes.len() {
        Err(deployment_text("ZIP end record does not cover the complete envelope"@))
    } else if little_endian(bytes, end + 4, 2) != 0 || little_endian(bytes, end + 6, 2) != 0 {
        Err(deployment_text("multi-disk ZIP is unsupported"@))
    } else if has_locator(bytes, end) {
        wide_directory(bytes, end)
    } else {
        plain_directory(bytes, end)
    }
}

/// The directory holds a permitted number of entries and ends exactly where the records begin.
pub open spec fn directory_fits(directory: Directory, max_entries: int, max_bytes: int) -> bool {
    &&& 0 < directory.count <= max_entries
    &&& directory.size <= max_bytes
    &&& directory.offset + directory.size == directory.boundary
    &&& DIRECTORY_ENTRY * directory.count <= directory.size
}

/// The error with which an archive is refused, or none when its envelope is valid.
pub open spec fn envelope_refusal(bytes: Seq<u8>, max_entries: int, max_bytes: int) -> Option<ErrorView> {
    if bytes.len() > max_bytes {
        Some(deployment_text("ZIP envelope exceeds byte limit"@))
    } else if forall|at: int| !#[trigger] end_candidate(bytes, at) {
        Some(deployment_text("missing bounded ZIP end record"@))
    } else {
        match announced_directory(bytes, choose|at: int| end_record(bytes, at)) {
            Err(e) => Some(e),
            Ok(directory) => if directory_fits(directory, max_entries, max_bytes) {
                None
            } else {
                Some(deployment_text("ZIP directory count or bounds exceed limits"@))
            },
        }
    }
}

/// At most one position is the end record.
pub proof fn end_record_is_unique(bytes: Seq<u8>, a: int, b: int)
    requires
        end_record(bytes, a),
        end_record(bytes, b),
    ensures
        a == b,
{
    assert(end_candidate(bytes, a) && end_candidate(bytes, b));
}

fn number16(bytes: &[u8], at: usize) -> (r: u64)
    requires
        at + 2 <= bytes@.len(),
    ensures
        r == little_endian(bytes@, at as int, 2),
        r <= 0xffff,
{
    proof {
        reveal_with_fuel(little_endian, 3);
    }
    bytes[at] as u64 + 256 * (bytes[at + 1] as u64)
}

fn number32(bytes: &[u8], at: usize) -> (r: u64)
    requires
        at + 4 <= bytes@.len(),
    ensures
        r == little_endian(bytes@, at as int, 4),
        r <= 0xffff_ffff,
{
    proof {
        reveal_with_fuel(little_endian, 5);
    }
    bytes[at] as u64 + 256 * (bytes[at + 1] as u64) + 65536 * (bytes[at + 2] as u64) + 16777216 * (bytes[at + 3] as u64)
}

fn number64(bytes: &[u8], at: usize) -> (r: u64)
    requires
        at + 8 <= bytes@.len(),
    ensures
        r == little_endian(bytes@, at as int, 8),
{
    assert(bytes.len() == bytes@.len());
    let low: u64 = number32(bytes, at);
    let high: u64 = number32(bytes, at + 4);
    proof {
        reveal_with_fuel(little_endian, 9);
    }
    low + 4294967296 * high
}

fn signed(bytes: &[u8], at: usize, a: u8, b: u8) -> (r: bool)
    ensures
        r == signature(bytes@, at as int, a, b),
{
    bytes.len() >= 4 && at <= bytes.len() - 4 && bytes[at] == 0x50 && bytes[at + 1] == 0x4b && bytes[at + 2] == a
        && bytes[at + 3] == b
}

/// Finds the last end record of the archive.
fn find_end(bytes: &[u8]) -> (r: Option<usize>)
    ensures
        match r {
            Some(at) => end_record(bytes@, at as int) && at == (choose|e: int| end_record(bytes@, e)),
            None => forall|at: int| !#[trigger] end_candidate(bytes@, at),
        },
{
    if bytes.len() < END_RECORD {
        return None;
    }
    let start: usize = if bytes.len() > END_WINDOW { bytes.len() - END_WINDOW } else { 0 };
    let mut next: usize = bytes.len() - END_RECORD + 1;
    while next > start
        invariant
            start <= next,
            next + END_RECORD <= bytes@.len() + 1,
            start == (if bytes@.len() > END_WINDOW { bytes@.len() - END_WINDOW } else { 0 }),
            forall|at: int| next <= at ==> !#[trigger] end_candidate(bytes@, at),
        decreases next,
    {
        let at: usize = next - 1;
        if signed(bytes, at, 5, 6) {
            proof {
                assert(end_record(bytes@, at as int));
                end_record_is_unique(bytes@, at as int, choose|e: int| end_record(bytes@, e));
            }
            return Some(at);
        }
        assert(!end_candidate(bytes@, at as int));
        next = at;
    }
    None
}

/// Reads the ZIP64 record and holds it against the ZIP end record.
fn read_wide(bytes: &[u8], end: usize) -> (r: Result<(u64, u64, u64, u64)>)
    requires
        end_candidate(bytes@, end as int),
        has_locator(bytes@, end as int),
    ensures
        match (r, wide_directory(bytes@, end as int)) {
            (Ok(d), Ok(w)) => d.0 == w.count && d.1 == w.size && d.2 == w.offset && d.3 == w.boundary && d.3 <= bytes@.len(),
            (Err(e), Err(w)) => e@ == w,
            _ => false,
        },
{
    let locator: usize = end - LOCATOR;
    if number32(bytes, locator + 4) != 0 || number32(bytes, locator + 16) != 1 {
        return Err(deployment_error("multi-disk ZIP64 is unsupported"));
    }
    let pointer: u64 = number64(bytes, locator + 8);
    if pointer > usize::MAX as u64 {
        return Err(deployment_error("out of range integral type conversion attempted"));
    }
    let position: usize = pointer as usize;
    if !signed(bytes, position, 6, 6) {
        return Err(deployment_error("invalid ZIP64 end pointer"));
    }
    if bytes.len() - position < 12 {
        return Err(deployment_error("truncated ZIP header"));
    }
    let length: u64 = number64(bytes, position + 4);
    if length < 44 || position as u128 + 12 + length as u128 != locator as u128 {
        return Err(deployment_error("invalid ZIP64 record bounds"));
    }
    if number32(bytes, position + 16) != 0 || number32(bytes, position + 20) != 0 {
        return Err(deployment_error("multi-disk ZIP64 is unsupported"));
    }
    let disk_entries: u64 = number64(bytes, position + 24);
    let count: u64 = number64(bytes, position + 32);
    let size: u64 = number64(bytes, position + 40);
    let offset: u64 = number64(bytes, position + 48);
    let entries: u64 = number16(bytes, end + 10);
    let plain_disk_entries: u64 = number16(bytes, end + 8);
    let plain_size: u64 = number32(bytes, end + 12);
    let plain_offset: u64 = number32(bytes, end + 16);
    if disk_entries != count || (entries != 0xffff && entries != count) || (plain_disk_entries != 0xffff
        && plain_disk_entries != count) || (plain_size != 0xffff_ffff && plain_size != size) || (plain_offset
        != 0xffff_ffff && plain_offset != offset) {
        return Err(deployment_error("inconsistent ZIP/ZIP64 directory metadata"));
    }
    Ok((count, size, offset, position as u64))
}

/// Checks an archive's end records before anything is allocated for its entries.
///
/// The last end record of the file decides, as it does for archive readers; an earlier,
/// better formed record is never considered in its place.
pub fn validate_zip_envelope(bytes: &[u8], max_entries: usize, max_bytes: usize) -> (r: Result<()>)
    ensures
        refusal(r) == envelope_refusal(bytes@, max_entries as int, max_bytes as int),
{
    if bytes.len() > max_bytes {
        return Err(deployment_error("ZIP envelope exceeds byte limit"));
    }
    let end: usize = match find_end(bytes) {
        Some(at) => at,
        None => {
            return Err(deployment_error("missing bounded ZIP end record"));
        },
    };
    assert(end_candidate(bytes@, end as int));
    if end as u128 + END_RECORD as u128 + number16(bytes, end + 20) as u128 != bytes.len() as u128 {
        return Err(deployment_error("ZIP end record does not cover the complete envelope"));
    }
    if number16(bytes, end + 4) != 0 || number16(bytes, end + 6) != 0 {
        return Err(deployment_error("multi-disk ZIP is unsupported"));
    }
    let found: (u64, u64, u64, u64) = if end >= LOCATOR && signed(bytes, end - LOCATOR, 6, 7) {
        match read_wide(bytes, end) {
            Ok(found) => found,
            Err(e) => {
                return Err(e);
            },
        }
    } else {
        let disk_entries: u64 = number16(bytes, end + 8);
        let entries: u64 = number16(bytes, end + 10);
        let size: u64 = number32(bytes, end + 12);
        let offset: u64 = number32(bytes, end + 16);
        if entries == 0xffff || size == 0xffff_ffff || offset == 0xffff_ffff || disk_entries != entries {
            return Err(deployment_error("missing ZIP64 directory metadata"));
        }
        (entries, size, offset, end as u64)
    };
    let (count, size, offset, boundary) = found;
    if count == 0 || count > max_entries as u64 || size > max_bytes as u64 || offset as u128 + size as u128
        != boundary as u128 || (size as u128) < (count as u128) * (DIRECTORY_ENTRY as u128) {
        return Err(deployment_error("ZIP directory count or bounds exceed limits"));
    }
    Ok(())
}

} // verus!
