//! ZIP archives that are held in memory.
use crate::deployment::zip_envelope::{
    end_candidate, end_record, end_record_is_unique, envelope_refusal, has_locator, little_endian, signature,
};
use crate::text::owned;
use std::io::{Cursor, Read, Write};
use vstd::prelude::*;
use vstd::utf8::encode_utf8;

verus! {

/// Bytes with a place in them.
#[verifier::external_type_specification]
#[verifier::external_body]
#[verifier::reject_recursive_types(T)]
pub struct ExCursor<T>(std::io::Cursor<T>);

/// An archive whose directory has been read.
#[verifier::external_type_specification]
#[verifier::external_body]
#[verifier::reject_recursive_types(R)]
pub struct ExZipArchive<R>(zip::ZipArchive<R>);

/// How a member is packed.
#[derive(Debug, Clone, Copy, PartialEq, Eq, Structural)]
pub enum Packing {
    Stored,
    Deflated,
    Other,
}

/// What an archive tells of a member.
#[derive(Debug)]
pub struct Entry {
    /// The path of the member.
    pub name: String,
    /// How the content is packed.
    pub packing: Packing,
    /// Whether the member is a directory.
    pub directory: bool,
    /// The mode of the member, where the archive has one.
    pub mode: Option<u32>,
    /// The length of the content, in bytes.
    pub size: u64,
}

/// The mathematical content of an [`Entry`].
pub struct EntryView {
    pub name: Seq<char>,
    pub packing: Packing,
    pub directory: bool,
    pub mode: Option<u32>,
    pub size: u64,
}

impl View for Entry {
    type V = EntryView;

    open spec fn view(&self) -> EntryView {
        EntryView {
            name: self.name@,
            packing: self.packing,
            directory: self.directory,
            mode: self.mode,
            size: self.size,
        }
    }
}

/// What came out of an archive, taken by its view.
pub open spec fn found<T: View>(r: core::result::Result<T, String>) -> core::result::Result<T::V, Seq<char>> {
    match r {
        Ok(value) => Ok(value@),
        Err(text) => Err(text@),
    }
}

/// The bytes that an archive was opened on.
pub uninterp spec fn archive_bytes(archive: zip::ZipArchive<Cursor<&[u8]>>) -> Seq<u8>;

/// The number of members that `zip::ZipArchive::new` finds in the directory of an archive, or
/// the text of its error.
pub uninterp spec fn listed_count(bytes: Seq<u8>) -> core::result::Result<usize, Seq<char>>;

/// Where `zip::read::ZipFile::central_header_start` finds the directory entry of a member, if
/// `zip::ZipArchive::by_index_raw` finds the member.
pub uninterp spec fn entry_place(bytes: Seq<u8>, index: usize) -> Option<u64>;

/// Whether `zip::ZipArchive::by_index_decrypt` refuses the empty password for a member.
pub uninterp spec fn refuses_password(bytes: Seq<u8>, index: usize) -> bool;

/// What `zip::ZipArchive::by_index` tells of a member, or the text of its error.
pub uninterp spec fn listed_entry(bytes: Seq<u8>, index: usize) -> core::result::Result<EntryView, Seq<char>>;

/// What `zip::read::ZipFile` gives when at most `count` bytes are read from a member, or the
/// text of its error.
pub uninterp spec fn unpacked(bytes: Seq<u8>, index: usize, count: u64) -> core::result::Result<Seq<u8>, Seq<char>>;

/// Calls `zip::ZipArchive::new`, which reads the directory at the end of the bytes. The
/// archive keeps the bytes. Its outcome is named.
#[verifier::external_body]
fn open_archive<'a>(bytes: &'a [u8]) -> (r: core::result::Result<zip::ZipArchive<Cursor<&'a [u8]>>, String>)
    ensures
        match (r, listed_count(bytes@)) {
            (Ok(archive), Ok(_)) => archive_bytes(archive) == bytes@,
            (Err(text), Err(expected)) => text@ == expected,
            _ => false,
        },
{
    zip::ZipArchive::new(Cursor::new(bytes)).map_err(|e| e.to_string())
}

/// Calls `zip::ZipArchive::len`: the number of members that the directory lists.
#[verifier::external_body]
fn count_members(archive: &zip::ZipArchive<Cursor<&[u8]>>) -> (r: usize)
    ensures
        match listed_count(archive_bytes(*archive)) {
            Ok(count) => r == count,
            Err(_) => false,
        },
{
    archive.len()
}

/// Calls `zip::ZipArchive::by_index_raw` and `zip::read::ZipFile::central_header_start`. An
/// entry of the directory takes 46 bytes and more, which lie in the archive. The bytes of the
/// archive stay. The outcome is named.
#[verifier::external_body]
fn find_entry(archive: &mut zip::ZipArchive<Cursor<&[u8]>>, index: usize) -> (r: Option<u64>)
    ensures
        archive_bytes(*final(archive)) == archive_bytes(*old(archive)),
        r == entry_place(archive_bytes(*old(archive)), index),
        r matches Some(at) ==> at + 46 <= archive_bytes(*old(archive)).len(),
{
    match archive.by_index_raw(index) {
        Ok(file) => Some(file.central_header_start()),
        Err(_) => None,
    }
}

/// A member is marked as encrypted: the lowest bit of the flags in its directory entry is set.
pub open spec fn is_encrypted(bytes: Seq<u8>, index: usize) -> bool {
    match entry_place(bytes, index) {
        Some(at) => bytes[at + 8] % 2 == 1,
        None => false,
    }
}

/// Calls `zip::ZipArchive::by_index_decrypt` with the empty password and tells whether the
/// password was refused. Of a member that is not marked as encrypted nothing is decrypted: the
/// password is refused if and only if the member has settings for its decryption nevertheless.
/// One that is marked is left out, as the length of its content is not checked before it is
/// decrypted. The bytes of the archive stay. The outcome is named.
#[verifier::external_body]
fn try_password(archive: &mut zip::ZipArchive<Cursor<&[u8]>>, index: usize) -> (r: bool)
    requires
        !is_encrypted(archive_bytes(*old(archive)), index),
    ensures
        archive_bytes(*final(archive)) == archive_bytes(*old(archive)),
        r == refuses_password(archive_bytes(*old(archive)), index),
{
    match archive.by_index_decrypt(index, &[]) {
        Ok(Ok(_)) => false,
        Ok(Err(_)) => true,
        Err(_) => false,
    }
}

/// A member can be asked for without a password: it is opened, or answered with an error.
pub open spec fn is_askable(bytes: Seq<u8>, index: usize) -> bool {
    is_encrypted(bytes, index) || !refuses_password(bytes, index)
}

/// Calls `zip::ZipArchive::by_index` and takes what the member tells of itself. A member that is
/// marked as encrypted is answered with an error. One that is not must have no settings for its
/// decryption, which are not expected there. The bytes of the archive stay. The outcome is
/// named.
#[verifier::external_body]
fn read_entry(archive: &mut zip::ZipArchive<Cursor<&[u8]>>, index: usize) -> (r: core::result::Result<Entry, String>)
    requires
        is_askable(archive_bytes(*old(archive)), index),
    ensures
        archive_bytes(*final(archive)) == archive_bytes(*old(archive)),
        found(r) == listed_entry(archive_bytes(*old(archive)), index),
{
    let file = archive.by_index(index).map_err(|e| e.to_string())?;
    Ok(Entry {
        name: file.name().to_owned(),
        packing: match file.compression() {
            zip::CompressionMethod::Stored => Packing::Stored,
            zip::CompressionMethod::Deflated => Packing::Deflated,
            _ => Packing::Other,
        },
        directory: file.is_dir(),
        mode: file.unix_mode(),
        size: file.size(),
    })
}

/// Opens a member with `zip::ZipArchive::by_index`, as [`read_entry`] does, and reads what
/// `zip::read::ZipFile` unpacks, at most `count` bytes. The bytes of the archive stay. The
/// outcome is named.
#[verifier::external_body]
fn read_content(archive: &mut zip::ZipArchive<Cursor<&[u8]>>, index: usize, count: u64) -> (r: core::result::Result<Vec<u8>, String>)
    requires
        is_askable(archive_bytes(*old(archive)), index),
    ensures
        archive_bytes(*final(archive)) == archive_bytes(*old(archive)),
        found(r) == unpacked(archive_bytes(*old(archive)), index, count),
{
    let file = archive.by_index(index).map_err(|e| e.to_string())?;
    let mut data = Vec::new();
    file.take(count).read_to_end(&mut data).map_err(|e| e.to_string())?;
    Ok(data)
}

/// What an archive tells of a member, or why it cannot be opened.
pub open spec fn entry_of(bytes: Seq<u8>, index: usize) -> core::result::Result<EntryView, Seq<char>> {
    if !is_askable(bytes, index) {
        Err("unsupported Zip archive: Password required to decrypt file"@)
    } else {
        listed_entry(bytes, index)
    }
}

/// One byte more than `most`, so that a longer content shows, as far as there is such a number.
pub open spec fn one_more(most: u64) -> u64 {
    if most == u64::MAX {
        most
    } else {
        (most + 1) as u64
    }
}

/// The content of a member, cut behind `most` and one more bytes, or why it cannot be read.
pub open spec fn content_of(bytes: Seq<u8>, index: usize, most: u64) -> core::result::Result<Seq<u8>, Seq<char>> {
    if !is_askable(bytes, index) {
        Err("unsupported Zip archive: Password required to decrypt file"@)
    } else {
        unpacked(bytes, index, one_more(most))
    }
}

/// An archive that is read member by member. Its view is its bytes.
pub struct Archive<'a> {
    bytes: &'a [u8],
    inner: zip::ZipArchive<Cursor<&'a [u8]>>,
}

impl<'a> View for Archive<'a> {
    type V = Seq<u8>;

    closed spec fn view(&self) -> Seq<u8> {
        self.bytes@
    }
}

impl<'a> Archive<'a> {
    /// The directory is that of the bytes.
    pub closed spec fn wf(self) -> bool {
        archive_bytes(self.inner) == self.bytes@
    }

    /// Opens an archive.
    pub fn open(bytes: &'a [u8]) -> (r: core::result::Result<Self, String>)
        ensures
            match (r, listed_count(bytes@)) {
                (Ok(archive), Ok(_)) => archive.wf() && archive@ == bytes@,
                (Err(text), Err(expected)) => text@ == expected,
                _ => false,
            },
    {
        match open_archive(bytes) {
            Ok(inner) => Ok(Archive { bytes, inner }),
            Err(text) => Err(text),
        }
    }

    /// The number of members.
    pub fn count(&self) -> (r: usize)
        requires
            self.wf(),
        ensures
            listed_count(self@) == Ok::<usize, Seq<char>>(r),
    {
        count_members(&self.inner)
    }

    fn askable(&mut self, index: usize) -> (r: bool)
        requires
            old(self).wf(),
        ensures
            final(self).wf(),
            final(self)@ == old(self)@,
            r == is_askable(old(self)@, index),
    {
        assert(self.bytes.len() == self.bytes@.len());
        let encrypted = match find_entry(&mut self.inner, index) {
            Some(at) => self.bytes[at as usize + 8] % 2 == 1,
            None => false,
        };
        encrypted || !try_password(&mut self.inner, index)
    }

    /// What the archive tells of a member.
    pub fn entry(&mut self, index: usize) -> (r: core::result::Result<Entry, String>)
        requires
            old(self).wf(),
        ensures
            final(self).wf(),
            final(self)@ == old(self)@,
            found(r) == entry_of(old(self)@, index),
    {
        if !self.askable(index) {
            return Err(owned("unsupported Zip archive: Password required to decrypt file"));
        }
        read_entry(&mut self.inner, index)
    }

    /// The content of a member, cut behind `most` and one more bytes.
    pub fn content(&mut self, index: usize, most: u64) -> (r: core::result::Result<Vec<u8>, String>)
        requires
            old(self).wf(),
        ensures
            final(self).wf(),
            final(self)@ == old(self)@,
            found(r) == content_of(old(self)@, index, most),
    {
        if !self.askable(index) {
            return Err(owned("unsupported Zip archive: Password required to decrypt file"));
        }
        read_content(&mut self.inner, index, most.saturating_add(1))
    }
}

/// An archive that is being written in memory, with `zip::ZipWriter`. It has no member that
/// failed.
#[verifier::external_body]
pub struct Packer {
    inner: zip::ZipWriter<Cursor<Vec<u8>>>,
}

/// A member that is written.
pub struct PackedView {
    pub name: Seq<char>,
    pub mode: u32,
    pub content: Seq<u8>,
}

/// The members that have been written to an archive.
pub uninterp spec fn packed(packer: Packer) -> Seq<PackedView>;

/// The largest member, in bytes.
pub const MAX_MEMBER: u64 = 0xffff_ffff;

/// The type of a regular file, as a mode tells it.
pub const REGULAR_FILE: u32 = 0o100000;

/// A name without control characters that fits its length field.
pub open spec fn is_plain(name: Seq<char>) -> bool {
    encode_utf8(name).len() <= 0xffff && forall|i: int| 0 <= i < name.len() ==> ' ' <= #[trigger] name[i]
}

/// All names are plain.
pub open spec fn are_plain(members: Seq<PackedView>) -> bool {
    forall|i: int| 0 <= i < members.len() ==> is_plain((#[trigger] members[i]).name)
}

/// The bytes before the directory: for each member a header, its name and its content.
pub open spec fn front_length(members: Seq<PackedView>) -> int
    decreases members.len(),
{
    if members.len() == 0 {
        0
    } else {
        let last = members.last();
        front_length(members.drop_last()) + 30 + encode_utf8(last.name).len() + last.content.len()
    }
}

/// The bytes of the directory: for each member an entry and its name, and a wide field where
/// the place of the member does not fit the entry.
pub open spec fn directory_length(members: Seq<PackedView>) -> int
    decreases members.len(),
{
    if members.len() == 0 {
        0
    } else {
        let place = front_length(members.drop_last());
        let field: int = if place > MAX_MEMBER { 12 } else { 0 };
        directory_length(members.drop_last()) + 46 + encode_utf8(members.last().name).len() + field
    }
}

/// The end record is too narrow for the directory, so that wide records stand before it.
pub open spec fn is_wide(members: Seq<PackedView>) -> bool {
    members.len() > 0xffff || front_length(members) > MAX_MEMBER || directory_length(members) > MAX_MEMBER
}

/// The bytes of an archive: the members, the directory and the end records.
pub open spec fn archive_length(members: Seq<PackedView>) -> int {
    let wide: int = if is_wide(members) { 76 } else { 0 };
    front_length(members) + directory_length(members) + wide + 22
}

/// The directory ends like the locator of a wide record: the place of the last member, before
/// a name of sixteen bytes, reads like its signature.
pub open spec fn ends_like_locator(members: Seq<PackedView>) -> bool {
    members.len() > 0 && encode_utf8(members.last().name).len() == 16 && front_length(members.drop_last()) == 0x0706_4b50
}

/// The length of a member reads as if a wide field held it, and there is one, for its place.
pub open spec fn has_misread_length(members: Seq<PackedView>) -> bool {
    exists|i: int|
        0 <= i < members.len() && (#[trigger] members[i]).content.len() == MAX_MEMBER && front_length(members.take(i)) > MAX_MEMBER
}

/// Nothing in the archive can be taken for something else when it is read.
pub open spec fn is_faithful(members: Seq<PackedView>) -> bool {
    are_plain(members) && !has_misread_length(members) && (is_wide(members) || !ends_like_locator(members))
}

/// No field of the end record holds by itself what points to a wide record.
pub open spec fn is_settled(members: Seq<PackedView>) -> bool {
    is_wide(members) || members.len() < 0xffff && front_length(members) < MAX_MEMBER && directory_length(members) < MAX_MEMBER
}

/// What a field of the end record holds: the value, or the largest one that fits.
pub open spec fn narrowed(value: int, most: int) -> int {
    if value < most {
        value
    } else {
        most
    }
}

/// Wide records stand before the end record at `end`: they lie directly behind the directory.
pub open spec fn closes_wide(bytes: Seq<u8>, end: int, members: Seq<PackedView>) -> bool {
    let locator = end - 20;
    let wide = locator - 56;
    &&& 0 <= wide
    &&& little_endian(bytes, locator + 4, 4) == 0
    &&& little_endian(bytes, locator + 8, 8) == wide
    &&& little_endian(bytes, locator + 16, 4) == 1
    &&& signature(bytes, wide, 6, 6)
    &&& little_endian(bytes, wide + 4, 8) == 44
    &&& little_endian(bytes, wide + 16, 4) == 0
    &&& little_endian(bytes, wide + 20, 4) == 0
    &&& little_endian(bytes, wide + 24, 8) == members.len()
    &&& little_endian(bytes, wide + 32, 8) == members.len()
    &&& little_endian(bytes, wide + 40, 8) == directory_length(members)
    &&& little_endian(bytes, wide + 48, 8) == front_length(members)
}

/// The bytes end with an end record without comment that tells of the directory, behind wide
/// records where they are needed.
pub open spec fn closes(bytes: Seq<u8>, members: Seq<PackedView>) -> bool {
    let end = bytes.len() - 22;
    &&& 0 <= end
    &&& signature(bytes, end, 5, 6)
    &&& little_endian(bytes, end + 4, 2) == 0
    &&& little_endian(bytes, end + 6, 2) == 0
    &&& little_endian(bytes, end + 8, 2) == narrowed(members.len() as int, 0xffff)
    &&& little_endian(bytes, end + 10, 2) == narrowed(members.len() as int, 0xffff)
    &&& little_endian(bytes, end + 12, 4) == narrowed(directory_length(members), MAX_MEMBER as int)
    &&& little_endian(bytes, end + 16, 4) == narrowed(front_length(members), MAX_MEMBER as int)
    &&& little_endian(bytes, end + 20, 2) == 0
    &&& has_locator(bytes, end) == is_wide(members)
    &&& is_wide(members) ==> closes_wide(bytes, end, members)
}

/// What a directory tells of a member that was written.
pub open spec fn listing(member: PackedView) -> EntryView {
    let last = member.name.last();
    EntryView {
        name: member.name,
        packing: Packing::Stored,
        directory: member.name.len() > 0 && (last == '/' || last == '\\'),
        mode: Some((REGULAR_FILE + member.mode) as u32),
        size: member.content.len() as u64,
    }
}

/// The members can be read from the bytes, in the order in which they were written.
pub open spec fn reads_back(bytes: Seq<u8>, members: Seq<PackedView>) -> bool {
    &&& listed_count(bytes) matches Ok(count) && count == members.len()
    &&& forall|i: usize| i < members.len() ==> !#[trigger] refuses_password(bytes, i)
    &&& forall|i: usize|
        i < members.len() ==> (#[trigger] listed_entry(bytes, i) matches Ok(entry) && entry == listing(members[i as int]))
    &&& forall|i: usize, count: u64|
        i < members.len() && members[i as int].content.len() <= count ==> (#[trigger] unpacked(bytes, i, count) matches Ok(data)
            && data == members[i as int].content)
}

/// Calls `zip::ZipWriter::new` on an empty buffer. Nothing has been written.
#[verifier::external_body]
pub(crate) fn begin_packing() -> (r: Packer)
    ensures
        packed(r) == Seq::<PackedView>::empty(),
{
    Packer { inner: zip::ZipWriter::new(Cursor::new(Vec::new())) }
}

/// Calls `zip::ZipWriter::start_file` with permissions and without compression, and writes the
/// content with the `std::io::Write` of `zip::ZipWriter`. A member is written unless it is too
/// large for a directory without wide records.
#[verifier::external_body]
pub(crate) fn pack_member(packer: Packer, name: &str, mode: u32, content: &[u8]) -> (r: core::result::Result<Packer, String>)
    requires
        mode <= 0o777,
    ensures
        match r {
            Ok(next) => content@.len() <= MAX_MEMBER && packed(next) == packed(packer).push(
                (PackedView { name: name@, mode, content: content@ }),
            ),
            Err(text) => content@.len() > MAX_MEMBER && text@ == "Large file option has not been set"@,
        },
{
    let mut inner = packer.inner;
    let options = zip::write::FileOptions::default();
    let options = options.compression_method(zip::CompressionMethod::Stored).unix_permissions(mode);
    inner.start_file(name, options).map_err(|e| e.to_string())?;
    inner.write_all(content).map_err(|e| e.to_string())?;
    Ok(Packer { inner })
}

/// Calls `zip::ZipWriter::finish`, which writes the directory and the end records, wide ones
/// where they are needed. The length of the archive is known. If nothing in it can be taken for
/// something else, it ends as it should, and `zip::ZipArchive` reads its members again. The
/// bytes hold the time at which they were written, so no more is said of them.
#[verifier::external_body]
pub(crate) fn finish_packing(packer: Packer) -> (r: core::result::Result<Vec<u8>, String>)
    ensures
        r is Ok,
        r->Ok_0@.len() == archive_length(packed(packer)),
        is_faithful(packed(packer)) ==> closes(r->Ok_0@, packed(packer)),
        is_faithful(packed(packer)) ==> reads_back(r->Ok_0@, packed(packer)),
{
    let mut inner = packer.inner;
    inner.finish().map(|cursor| cursor.into_inner()).map_err(|e| e.to_string())
}

/// The first members take no more than all of them.
pub proof fn front_grows(members: Seq<PackedView>, n: int)
    requires
        0 <= n <= members.len(),
    ensures
        0 <= front_length(members.take(n)) <= front_length(members),
    decreases members.len() + (members.len() - n),
{
    if n < members.len() {
        front_grows(members, n + 1);
        assert(members.take(n + 1).drop_last() =~= members.take(n));
        front_grows(members.take(n), n);
        assert(members.take(n).take(n) =~= members.take(n));
    } else {
        assert(members.take(n) =~= members);
        if n > 0 {
            front_grows(members.drop_last(), n - 1);
            assert(members.drop_last().take(n - 1) =~= members.drop_last());
        }
    }
}

/// Every entry takes its bytes in the directory.
pub proof fn directory_holds_entries(members: Seq<PackedView>)
    ensures
        46 * members.len() <= directory_length(members),
    decreases members.len(),
{
    if members.len() > 0 {
        directory_holds_entries(members.drop_last());
    }
}

/// An archive that was written is accepted as a whole.
pub proof fn written_envelope_is_accepted(bytes: Seq<u8>, members: Seq<PackedView>, max_entries: int, max_bytes: usize)
    requires
        closes(bytes, members),
        is_settled(members),
        bytes.len() == archive_length(members),
        0 < members.len() <= max_entries,
        bytes.len() <= max_bytes,
    ensures
        envelope_refusal(bytes, max_entries, max_bytes as int) is None,
{
    let end = bytes.len() - 22;
    assert(end_candidate(bytes, end));
    assert(end_record(bytes, end));
    let at = choose|at: int| end_record(bytes, at);
    end_record_is_unique(bytes, at, end);
    front_grows(members, members.len() as int);
    directory_holds_entries(members);
}

} // verus!
