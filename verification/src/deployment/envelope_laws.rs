//! What the records at the end of an archive have to say.
use super::zip_envelope::{
    announced_directory, directory_fits, end_candidate, end_record, end_record_is_unique, envelope_refusal, has_locator, little_endian,
    plain_directory, signature, wide_directory, Directory,
};
use vstd::prelude::*;

verus! {

/// A number of several bytes has its least byte first.
pub proof fn numbers_have_their_least_byte_first(bytes: Seq<u8>, at: int)
    ensures
        little_endian(bytes, at, 2) == bytes[at] + 256 * bytes[at + 1],
        little_endian(bytes, at, 4) == bytes[at] + 256 * bytes[at + 1] + 65536 * bytes[at + 2] + 16777216 * bytes[at + 3],
{
    reveal_with_fuel(little_endian, 5);
}

/// The record that ends an archive begins with four known bytes and is the last one that does, within as many
/// bytes from the end as a comment may have.
pub proof fn archives_end_with_a_record(bytes: Seq<u8>, at: int, later: int)
    ensures
        end_candidate(bytes, at) <==> 0 <= at && at + 22 <= bytes.len() && bytes.len() - at <= 65557 && bytes[at] == 0x50 && bytes[at + 1]
            == 0x4b && bytes[at + 2] == 5 && bytes[at + 3] == 6,
        end_record(bytes, at) ==> end_candidate(bytes, at) && (later > at ==> !end_candidate(bytes, later)),
{
}

/// A directory is accepted exactly if it lists at least one file and at most as many as allowed, is no longer
/// than allowed, ends where the records after it begin, and has room for an entry of 46 bytes for each file.
pub proof fn directories_end_at_the_records(directory: Directory, max_entries: int, max_bytes: int)
    ensures
        directory_fits(directory, max_entries, max_bytes) <==> {
            &&& 1 <= directory.count && directory.count <= max_entries
            &&& directory.size <= max_bytes
            &&& directory.boundary - directory.size == directory.offset
            &&& directory.count * 46 <= directory.size
        },
{
}

/// An archive without wide records is accepted only if its last record closes it, tells one disk, and tells
/// twice the same number of files; its directory then lies right before that record.
pub proof fn plain_archives_are_closed(bytes: Seq<u8>, end: int, max_entries: int, max_bytes: int)
    requires
        end_record(bytes, end),
        !has_locator(bytes, end),
        envelope_refusal(bytes, max_entries, max_bytes) is None,
    ensures
        bytes.len() <= max_bytes,
        end + 22 + little_endian(bytes, end + 20, 2) == bytes.len(),
        little_endian(bytes, end + 4, 2) == 0 && little_endian(bytes, end + 6, 2) == 0,
        little_endian(bytes, end + 8, 2) == little_endian(bytes, end + 10, 2),
        1 <= little_endian(bytes, end + 10, 2) && little_endian(bytes, end + 10, 2) <= max_entries,
        little_endian(bytes, end + 16, 4) + little_endian(bytes, end + 12, 4) == end,
        46 * little_endian(bytes, end + 10, 2) <= little_endian(bytes, end + 12, 4),
{
    assert(end_candidate(bytes, end));
    let at = choose|at: int| end_record(bytes, at);
    end_record_is_unique(bytes, at, end);
    assert(announced_directory(bytes, end) is Ok);
    assert(plain_directory(bytes, end) is Ok);
}

/// An archive with wide records is accepted only if they tell one disk and close it in turn; its directory
/// then lies right before the first of them.
pub proof fn wide_archives_are_closed(bytes: Seq<u8>, end: int, max_entries: int, max_bytes: int)
    requires
        end_record(bytes, end),
        has_locator(bytes, end),
        envelope_refusal(bytes, max_entries, max_bytes) is None,
    ensures
        ({
            let locator = end - 20;
            let wide = little_endian(bytes, locator + 8, 8);
            &&& signature(bytes, locator, 6, 7)
            &&& little_endian(bytes, locator + 4, 4) == 0 && little_endian(bytes, locator + 16, 4) == 1
            &&& signature(bytes, wide, 6, 6)
            &&& wide + 12 + little_endian(bytes, wide + 4, 8) == locator
            &&& little_endian(bytes, wide + 24, 8) == little_endian(bytes, wide + 32, 8)
            &&& 1 <= little_endian(bytes, wide + 32, 8) && little_endian(bytes, wide + 32, 8) <= max_entries
            &&& little_endian(bytes, wide + 48, 8) + little_endian(bytes, wide + 40, 8) == wide
            &&& 46 * little_endian(bytes, wide + 32, 8) <= little_endian(bytes, wide + 40, 8)
        }),
{
    assert(end_candidate(bytes, end));
    let at = choose|at: int| end_record(bytes, at);
    end_record_is_unique(bytes, at, end);
    assert(announced_directory(bytes, end) is Ok);
    assert(wide_directory(bytes, end) is Ok);
}

} // verus!
