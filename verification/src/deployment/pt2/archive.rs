//! The members of an archive: which ones are accepted, and how they are found.
use super::super::layout::MAX_BYTES;
use super::super::tree::MAX_NODES;
use super::super::zip_envelope::{envelope_refusal, validate_zip_envelope};
use crate::archive::{content_of, entry_of, listed_count, Archive, Entry, EntryView, Packing};
use crate::error::{deployment_error, deployment_text, refusal, ErrorView, Result};
use crate::names::NameMap;
use crate::text::{
    begins, byte_length, characters, collect, ends, ends_with, has_char, is_space, join, lossy, same, space,
    starts_with,
};
use vstd::prelude::*;
use vstd::utf8::{decode_utf8, encode_utf8, valid_utf8};

verus! {

/// The longest path of a member, in bytes.
pub const MAX_PATH: usize = 2048;

/// The largest JSON member, in bytes.
pub const MAX_JSON: usize = 16777216;

/// The characters from `a` up to `b` are one part of a path: no separator is inside, and they
/// reach from separator to separator.
pub open spec fn is_part(path: Seq<char>, a: int, b: int) -> bool {
    &&& 0 <= a <= b <= path.len()
    &&& a == 0 || path[a - 1] == '/'
    &&& b == path.len() || path[b] == '/'
    &&& forall|k: int| a <= k < b ==> #[trigger] path[k] != '/'
}

/// A part that names no member: it is empty, or leads to the directory itself or out of it.
pub open spec fn is_bad_part(path: Seq<char>, a: int, b: int) -> bool {
    a == b || (b - a == 1 && path[a] == '.') || (b - a == 2 && path[a] == '.' && path[a + 1] == '.')
}

/// A relative path of bounded length whose parts are plain names.
pub open spec fn path_ok(path: Seq<char>) -> bool {
    &&& path.len() > 0
    &&& encode_utf8(path).len() <= MAX_PATH
    &&& !path.contains('\\')
    &&& !path.contains(':')
    &&& forall|a: int, b: int| #[trigger] is_part(path, a, b) ==> !is_bad_part(path, a, b)
}

/// Why a path is refused, if it is.
pub open spec fn path_refusal(path: Seq<char>) -> Option<ErrorView> {
    if path_ok(path) {
        None
    } else {
        Some(deployment_text("invalid PT2 ZIP path"@))
    }
}

fn good_parts(path: &Vec<char>) -> (r: bool)
    ensures
        r == forall|a: int, b: int| #[trigger] is_part(path@, a, b) ==> !is_bad_part(path@, a, b),
{
    let mut start: usize = 0;
    let mut i: usize = 0;
    assert(path.len() == path@.len());
    while i <= path.len()
        invariant
            path@.len() <= usize::MAX,
            start <= i,
            i <= path@.len() + 1,
            i == path@.len() + 1 ==> start == i,
            start <= path@.len() ==> (start == 0 || path@[start - 1] == '/'),
            forall|k: int| start <= k < i && k < path@.len() ==> #[trigger] path@[k] != '/',
            forall|a: int, b: int| #[trigger] is_part(path@, a, b) && a < start ==> !is_bad_part(path@, a, b),
        decreases path@.len() + 1 - i,
    {
        if i == path.len() || path[i] == '/' {
            assert(is_part(path@, start as int, i as int));
            let size: usize = i - start;
            if size == 0 || (size == 1 && path[start] == '.') || (size == 2 && path[start] == '.' && path[start + 1] == '.') {
                assert(is_bad_part(path@, start as int, i as int));
                return false;
            }
            proof {
                assert forall|a: int, b: int| #[trigger] is_part(path@, a, b) && a < i + 1 implies !is_bad_part(path@, a, b) by {
                    if a >= start {
                        if a > start {
                            assert(path@[a - 1] == '/');
                            assert(a - 1 >= start);
                        }
                        assert(a == start);
                        if b < i {
                            assert(path@[b] == '/');
                        }
                        if b > i {
                            assert(path@[i as int] == '/');
                        }
                        assert(b == i);
                    }
                }
            }
            assert(path.len() == path@.len());
            if i == path.len() {
                return true;
            }
            start = i + 1;
        }
        i += 1;
    }
    true
}

/// Checks the path of a member.
pub fn entry_path(path: &str) -> (r: Result<()>)
    ensures
        refusal(r) == path_refusal(path@),
{
    let all = characters(path);
    if path.is_empty() || byte_length(path) > MAX_PATH || has_char(path, '\\') || has_char(path, ':') || !good_parts(&all) {
        Err(deployment_error("invalid PT2 ZIP path"))
    } else {
        Ok(())
    }
}

/// Members that have been read.
pub struct ReadingView {
    /// The bytes of all members so far.
    pub total: int,
    /// The directory that every member lies in.
    pub root: Option<Seq<char>>,
    /// The members by the paths below that directory.
    pub files: Map<Seq<char>, Seq<u8>>,
    /// The path and the size of the member whose content comes next.
    pub current: Option<(Seq<char>, u64)>,
}

/// The place of the first separator.
pub open spec fn separator(path: Seq<char>) -> int {
    path.index_of_first('/')->0
}

/// The contents of files.
pub open spec fn contents(files: Map<Seq<char>, Vec<u8>>) -> Map<Seq<char>, Seq<u8>> {
    files.map_values(|bytes: Vec<u8>| bytes@)
}

impl ReadingView {
    /// Nothing has been read.
    pub open spec fn start() -> ReadingView {
        ReadingView { total: 0, root: None, files: Map::empty(), current: None }
    }

    /// Accepts what the archive tells of a member.
    pub open spec fn member(self, entry: EntryView) -> core::result::Result<ReadingView, ErrorView> {
        let name = entry.name;
        let total = self.total + entry.size;
        if path_refusal(name) is Some {
            Err(path_refusal(name)->0)
        } else if entry.packing == Packing::Other || entry.directory {
            Err(deployment_text("unsupported PT2 ZIP entry"@))
        } else if total > u64::MAX {
            Err(deployment_text("archive length overflow"@))
        } else if total > MAX_BYTES {
            Err(deployment_text("uncompressed PT2 exceeds limit"@))
        } else if !name.contains('/') {
            Err(deployment_text("PT2 ZIP requires one root directory"@))
        } else if self.root is Some && self.root != Some(name.take(separator(name))) {
            Err(deployment_text("PT2 ZIP has multiple roots"@))
        } else {
            Ok(
                ReadingView {
                    total,
                    root: Some(name.take(separator(name))),
                    current: Some((name.skip(separator(name) + 1), entry.size)),
                    ..self
                },
            )
        }
    }

    /// Accepts the content of the current member.
    pub open spec fn content(self, data: Seq<u8>) -> core::result::Result<ReadingView, ErrorView> {
        let (path, size) = self.current->0;
        if data.len() != size || self.files.dom().contains(path) {
            Err(deployment_text("duplicate or truncated PT2 ZIP entry"@))
        } else {
            Ok(ReadingView { files: self.files.insert(path, data), current: None, ..self })
        }
    }
}

/// Members under way.
pub struct ArchiveReader {
    total: u64,
    root: Option<String>,
    files: NameMap<Vec<u8>>,
    current: Option<(String, u64)>,
}

impl View for ArchiveReader {
    type V = ReadingView;

    closed spec fn view(&self) -> ReadingView {
        ReadingView {
            total: self.total as int,
            root: match self.root {
                Some(root) => Some(root@),
                None => None,
            },
            files: contents(self.files@),
            current: match self.current {
                Some((path, size)) => Some((path@, size)),
                None => None,
            },
        }
    }
}

/// A member has the given content.
pub open spec fn holds(files: Map<Seq<char>, Seq<u8>>, name: Seq<char>, content: Seq<u8>) -> bool {
    files.dom().contains(name) && files[name] == content
}

/// The text `6` between white space.
pub open spec fn says_six(text: Seq<char>) -> bool {
    exists|i: int|
        0 <= i < text.len() && #[trigger] text[i] == '6' && forall|j: int|
            0 <= j < text.len() && j != i ==> is_space(#[trigger] text[j])
}

/// The text of the bytes is `6` between white space.
pub open spec fn tells_six(bytes: Seq<u8>) -> bool {
    valid_utf8(bytes) && says_six(decode_utf8(bytes))
}

/// The bytes of `pt2`.
pub open spec fn format_bytes() -> Seq<u8> {
    seq![0x70u8, 0x74u8, 0x32u8]
}

/// The bytes of `0`.
pub open spec fn version_bytes() -> Seq<u8> {
    seq![0x30u8]
}

/// The bytes of `little`.
pub open spec fn order_bytes() -> Seq<u8> {
    seq![0x6cu8, 0x69u8, 0x74u8, 0x74u8, 0x6cu8, 0x65u8]
}

/// Why the members that describe an archive are refused, if they are.
pub open spec fn description_refusal(files: Map<Seq<char>, Seq<u8>>) -> Option<ErrorView> {
    if !holds(files, "archive_format"@, format_bytes()) {
        Some(deployment_text("unsupported or missing PT2 archive_format"@))
    } else if !holds(files, "archive_version"@, version_bytes()) {
        Some(deployment_text("unsupported or missing PT2 archive_version"@))
    } else if !holds(files, "byteorder"@, order_bytes()) {
        Some(deployment_text("unsupported or missing PT2 byteorder"@))
    } else if !files.dom().contains(".data/version"@) || !tells_six(files[".data/version"@])
        || !files.dom().contains(".data/serialization_id"@) {
        Some(deployment_text("unsupported PT2 serialization headers"@))
    } else {
        None
    }
}

fn find_separator(path: &Vec<char>) -> (r: Option<usize>)
    ensures
        match r {
            Some(at) => path@.contains('/') && at == separator(path@) && at < path@.len(),
            None => !path@.contains('/'),
        },
{
    let mut i: usize = 0;
    while i < path.len()
        invariant
            i <= path@.len(),
            forall|j: int| 0 <= j < i ==> #[trigger] path@[j] != '/',
        decreases path@.len() - i,
    {
        if path[i] == '/' {
            proof {
                assert(path@[i as int] == '/');
                path@.index_of_first_ensures('/');
            }
            return Some(i);
        }
        i += 1;
    }
    None
}

fn same_bytes(a: &Vec<u8>, b: &Vec<u8>) -> (r: bool)
    ensures
        r == (a@ == b@),
{
    if a.len() != b.len() {
        return false;
    }
    let mut i: usize = 0;
    while i < a.len()
        invariant
            a@.len() == b@.len(),
            i <= a@.len(),
            forall|j: int| 0 <= j < i ==> #[trigger] a@[j] == b@[j],
        decreases a@.len() - i,
    {
        if a[i] != b[i] {
            return false;
        }
        i += 1;
    }
    assert(a@ =~= b@);
    true
}

fn file_is(files: &NameMap<Vec<u8>>, name: &str, content: &Vec<u8>) -> (r: bool)
    requires
        files.wf(),
    ensures
        r == holds(contents(files@), name@, content@),
{
    match files.get(name) {
        Some(found) => same_bytes(found, content),
        None => false,
    }
}

fn is_six(text: &str) -> (r: bool)
    ensures
        r == says_six(text@),
{
    let all = characters(text);
    let mut found: Option<usize> = None;
    let mut i: usize = 0;
    while i < all.len()
        invariant
            all@ == text@,
            i <= all@.len(),
            match found {
                Some(at) => at < i && all@[at as int] == '6' && forall|j: int|
                    0 <= j < i && j != at ==> is_space(#[trigger] all@[j]),
                None => forall|j: int| 0 <= j < i ==> is_space(#[trigger] all@[j]),
            },
        decreases all@.len() - i,
    {
        if all[i] == '6' {
            if let Some(at) = found {
                proof {
                    if says_six(text@) {
                        let k = choose|k: int|
                            0 <= k < text@.len() && #[trigger] text@[k] == '6' && forall|j: int|
                                0 <= j < text@.len() && j != k ==> is_space(#[trigger] text@[j]);
                        assert(!is_space('6'));
                        assert(text@[at as int] == '6' && text@[i as int] == '6');
                    }
                }
                return false;
            }
            found = Some(i);
        } else if !space(all[i]) {
            proof {
                if says_six(text@) {
                    let k = choose|k: int|
                        0 <= k < text@.len() && #[trigger] text@[k] == '6' && forall|j: int|
                            0 <= j < text@.len() && j != k ==> is_space(#[trigger] text@[j]);
                    assert(text@[i as int] != '6');
                    assert(i != k);
                }
            }
            return false;
        }
        i += 1;
    }
    proof {
        match found {
            Some(at) => {
                assert(text@[at as int] == '6');
            },
            None => {
                if says_six(text@) {
                    let k = choose|k: int|
                        0 <= k < text@.len() && #[trigger] text@[k] == '6' && forall|j: int|
                            0 <= j < text@.len() && j != k ==> is_space(#[trigger] text@[j]);
                    assert(is_space(text@[k]));
                }
            },
        }
    }
    found.is_some()
}

impl ArchiveReader {
    /// The map of members is in order.
    pub closed spec fn wf(self) -> bool {
        self.files.wf()
    }

    /// Begins to read the members of an archive that has `count` of them.
    pub fn begin(count: usize) -> (r: Result<Self>)
        ensures
            refusal(r) == (if count > MAX_NODES {
                Some(deployment_text("too many PT2 ZIP entries"@))
            } else {
                None
            }),
            r matches Ok(reader) ==> reader.wf() && reader@ == ReadingView::start(),
    {
        if count > MAX_NODES {
            return Err(deployment_error("too many PT2 ZIP entries"));
        }
        let reader = ArchiveReader { total: 0, root: None, files: NameMap::new(), current: None };
        assert(reader@.files =~= Map::empty());
        Ok(reader)
    }

    /// Accepts or refuses a member before its content is read.
    pub fn member(&mut self, entry: &Entry) -> (r: Result<()>)
        requires
            old(self).wf(),
        ensures
            final(self).wf(),
            match (r, old(self)@.member(entry@)) {
                (Ok(_), Ok(next)) => final(self)@ == next && next.current is Some,
                (Err(e), Err(expected)) => e@ == expected,
                _ => false,
            },
    {
        let ghost start = self@;
        if let Err(e) = entry_path(entry.name.as_str()) {
            return Err(e);
        }
        if entry.packing == Packing::Other || entry.directory {
            return Err(deployment_error("unsupported PT2 ZIP entry"));
        }
        let total = match self.total.checked_add(entry.size) {
            Some(total) => total,
            None => {
                return Err(deployment_error("archive length overflow"));
            },
        };
        if total > MAX_BYTES as u64 {
            return Err(deployment_error("uncompressed PT2 exceeds limit"));
        }
        let all = characters(entry.name.as_str());
        let at = match find_separator(&all) {
            Some(at) => at,
            None => {
                return Err(deployment_error("PT2 ZIP requires one root directory"));
            },
        };
        let prefix = collect(&all, 0, at);
        assert(prefix@ =~= entry.name@.take(separator(entry.name@)));
        if let Some(root) = &self.root {
            if !same(root.as_str(), prefix.as_str()) {
                return Err(deployment_error("PT2 ZIP has multiple roots"));
            }
        }
        let relative = collect(&all, at + 1, all.len());
        assert(relative@ =~= entry.name@.skip(separator(entry.name@) + 1));
        self.total = total;
        self.root = Some(prefix);
        self.current = Some((relative, entry.size));
        Ok(())
    }

    /// Takes the content of the member that was accepted last.
    pub fn content(&mut self, data: Vec<u8>) -> (r: Result<()>)
        requires
            old(self).wf(),
            old(self)@.current is Some,
        ensures
            final(self).wf(),
            match (r, old(self)@.content(data@)) {
                (Ok(_), Ok(next)) => final(self)@ == next,
                (Err(e), Err(expected)) => e@ == expected,
                _ => false,
            },
    {
        match self.current.take() {
            Some((path, size)) => {
                if data.len() as u64 != size || self.files.contains(path.as_str()) {
                    return Err(deployment_error("duplicate or truncated PT2 ZIP entry"));
                }
                let ghost before = contents(self.files@);
                let ghost content = data@;
                self.files.insert(path, data);
                assert(contents(self.files@) =~= before.insert(path@, content));
                Ok(())
            },
            None => Ok(()),
        }
    }

    /// Checks the members that describe the archive.
    pub fn finish(self) -> (r: Result<Files>)
        requires
            self.wf(),
        ensures
            refusal(r) == description_refusal(self@.files),
            r matches Ok(files) ==> files.wf() && contents(files@) == self@.files,
    {
        let files = self.files;
        let format: Vec<u8> = vec![0x70, 0x74, 0x32];
        let version: Vec<u8> = vec![0x30];
        let order: Vec<u8> = vec![0x6c, 0x69, 0x74, 0x74, 0x6c, 0x65];
        proof {
            assert(format@ =~= format_bytes());
            assert(version@ =~= version_bytes());
            assert(order@ =~= order_bytes());
        }
        if !file_is(&files, "archive_format", &format) {
            return Err(deployment_error("unsupported or missing PT2 archive_format"));
        }
        if !file_is(&files, "archive_version", &version) {
            return Err(deployment_error("unsupported or missing PT2 archive_version"));
        }
        if !file_is(&files, "byteorder", &order) {
            return Err(deployment_error("unsupported or missing PT2 byteorder"));
        }
        let six = match files.get(".data/version") {
            Some(bytes) => {
                let text = lossy(bytes.as_slice());
                proof {
                    if !valid_utf8(bytes@) && says_six(text@) {
                        let i = text@.index_of('\u{fffd}');
                        assert(text@[i] == '\u{fffd}');
                        assert(!is_space('\u{fffd}'));
                    }
                }
                is_six(text.as_str())
            },
            None => false,
        };
        if !six || !files.contains(".data/serialization_id") {
            return Err(deployment_error("unsupported PT2 serialization headers"));
        }
        Ok(Files { files })
    }
}

/// The members of an archive by their paths below its root directory.
pub struct Files {
    files: NameMap<Vec<u8>>,
}

impl View for Files {
    type V = Map<Seq<char>, Vec<u8>>;

    closed spec fn view(&self) -> Map<Seq<char>, Vec<u8>> {
        self.files@
    }
}

/// Reads one more member of an archive.
#[verifier::opaque]
pub open spec fn read_next(bytes: Seq<u8>, before: ReadingView, index: usize) -> core::result::Result<ReadingView, ErrorView> {
    match entry_of(bytes, index) {
        Err(text) => Err(deployment_text(text)),
        Ok(entry) => match before.member(entry) {
            Err(e) => Err(e),
            Ok(open) => match content_of(bytes, index, MAX_BYTES as u64) {
                Err(text) => Err(deployment_text(text)),
                Ok(data) => open.content(data),
            },
        },
    }
}

/// What the first `n` members of an archive amount to.
pub open spec fn read_members(bytes: Seq<u8>, n: int) -> core::result::Result<ReadingView, ErrorView>
    decreases n,
{
    if n <= 0 {
        Ok(ReadingView::start())
    } else {
        match read_members(bytes, n - 1) {
            Err(e) => Err(e),
            Ok(before) => read_next(bytes, before, (n - 1) as usize),
        }
    }
}

/// The members of an archive by their paths below its root directory, or why it is refused.
pub open spec fn archive_outcome(bytes: Seq<u8>) -> core::result::Result<Map<Seq<char>, Seq<u8>>, ErrorView> {
    match envelope_refusal(bytes, MAX_NODES as int, MAX_BYTES as int) {
        Some(e) => Err(e),
        None => match listed_count(bytes) {
            Err(text) => Err(deployment_text(text)),
            Ok(count) => if count > MAX_NODES {
                Err(deployment_text("too many PT2 ZIP entries"@))
            } else {
                match read_members(bytes, count as int) {
                    Err(e) => Err(e),
                    Ok(read) => match description_refusal(read.files) {
                        Some(e) => Err(e),
                        None => Ok(read.files),
                    },
                }
            },
        },
    }
}

proof fn refused_early(bytes: Seq<u8>, i: int, n: int)
    requires
        0 <= i <= n,
        read_members(bytes, i) is Err,
    ensures
        read_members(bytes, n) == read_members(bytes, i),
    decreases n,
{
    if i < n {
        refused_early(bytes, i, n - 1);
    }
}

fn read_one(archive: &mut Archive, reader: &mut ArchiveReader, index: usize) -> (r: Result<()>)
    requires
        old(archive).wf(),
        old(reader).wf(),
    ensures
        final(archive).wf(),
        final(archive)@ == old(archive)@,
        final(reader).wf(),
        match (r, read_next(old(archive)@, old(reader)@, index)) {
            (Ok(_), Ok(next)) => final(reader)@ == next,
            (Err(e), Err(expected)) => e@ == expected,
            _ => false,
        },
{
    proof {
        reveal(read_next);
    }
    let entry = match archive.entry(index) {
        Ok(entry) => entry,
        Err(text) => {
            return Err(deployment_error(text.as_str()));
        },
    };
    if let Err(e) = reader.member(&entry) {
        return Err(e);
    }
    match archive.content(index, MAX_BYTES as u64) {
        Ok(data) => reader.content(data),
        Err(text) => Err(deployment_error(text.as_str())),
    }
}

fn read_all(archive: &mut Archive, reader: &mut ArchiveReader, count: usize) -> (r: Result<()>)
    requires
        old(archive).wf(),
        old(reader).wf(),
        old(reader)@ == ReadingView::start(),
    ensures
        final(reader).wf(),
        match (r, read_members(old(archive)@, count as int)) {
            (Ok(_), Ok(read)) => final(reader)@ == read,
            (Err(e), Err(expected)) => e@ == expected,
            _ => false,
        },
{
    let ghost all = archive@;
    let mut i: usize = 0;
    while i < count
        invariant
            i <= count,
            all == old(archive)@,
            archive.wf(),
            archive@ == all,
            reader.wf(),
            read_members(all, i as int) == Ok::<ReadingView, ErrorView>(reader@),
        decreases count - i,
    {
        if let Err(e) = read_one(archive, reader, i) {
            proof {
                assert(read_members(all, i + 1) == Err::<ReadingView, ErrorView>(e@));
                refused_early(all, i + 1, count as int);
            }
            return Err(e);
        }
        i += 1;
    }
    Ok(())
}

/// Reads an archive.
pub fn read_archive(bytes: Vec<u8>) -> (r: Result<Files>)
    ensures
        match (r, archive_outcome(bytes@)) {
            (Ok(files), Ok(expected)) => files.wf() && contents(files@) == expected,
            (Err(e), Err(expected)) => e@ == expected,
            _ => false,
        },
{
    let ghost all = bytes@;
    if let Err(e) = validate_zip_envelope(bytes.as_slice(), MAX_NODES, MAX_BYTES) {
        return Err(e);
    }
    let mut archive = match Archive::open(bytes.as_slice()) {
        Ok(archive) => archive,
        Err(text) => {
            return Err(deployment_error(text.as_str()));
        },
    };
    let count: usize = archive.count();
    let mut reader = match ArchiveReader::begin(count) {
        Ok(reader) => reader,
        Err(e) => {
            return Err(e);
        },
    };
    if let Err(e) = read_all(&mut archive, &mut reader, count) {
        return Err(e);
    }
    reader.finish()
}

/// Why a member cannot be parsed as JSON, if it cannot.
pub open spec fn json_refusal(files: Map<Seq<char>, Vec<u8>>, name: Seq<char>) -> Option<ErrorView> {
    if !files.dom().contains(name) {
        Some(deployment_text("missing PT2 member "@ + name))
    } else if files[name]@.len() > MAX_JSON {
        Some(deployment_text("PT2 JSON member exceeds 16 MiB"@))
    } else {
        None
    }
}

/// A path of a model description.
pub open spec fn is_model_path(name: Seq<char>) -> bool {
    begins(name, "models/"@)
}

/// The paths among the first `n` that are model descriptions.
pub open spec fn model_paths(names: Seq<Seq<char>>, n: int) -> Seq<Seq<char>>
    decreases n,
{
    if n <= 0 {
        Seq::empty()
    } else if is_model_path(names[n - 1]) {
        model_paths(names, n - 1).push(names[n - 1])
    } else {
        model_paths(names, n - 1)
    }
}

/// The path and the name of the only model.
pub open spec fn only_model(files: Map<Seq<char>, Vec<u8>>) -> core::result::Result<(Seq<char>, Seq<char>), ErrorView> {
    let names = crate::names::listing_of(files);
    let models = model_paths(names, names.len() as int);
    let path = models[0];
    let below = path.skip("models/"@.len() as int);
    if models.len() != 1 {
        Err(deployment_text("PT2 import requires exactly one model"@))
    } else if !ends(below, ".json"@) {
        Err(deployment_text("invalid PT2 model filename"@))
    } else {
        let name = below.take(below.len() - ".json"@.len());
        if name.contains('/') {
            Err(deployment_text("invalid PT2 model name"@))
        } else {
            Ok((path, name))
        }
    }
}

impl Files {
    /// The map of members is in order.
    pub closed spec fn wf(self) -> bool {
        self.files.wf()
    }

    /// Finds a member.
    pub fn get(&self, name: &str) -> (r: Option<&Vec<u8>>)
        requires
            self.wf(),
        ensures
            match r {
                Some(bytes) => self@.dom().contains(name@) && *bytes == self@[name@],
                None => !self@.dom().contains(name@),
            },
    {
        self.files.get(name)
    }

    /// Finds a member that holds JSON.
    pub fn json(&self, name: &str) -> (r: Result<&Vec<u8>>)
        requires
            self.wf(),
        ensures
            refusal(r) == json_refusal(self@, name@),
            r matches Ok(bytes) ==> *bytes == self@[name@],
    {
        match self.files.get(name) {
            None => {
                let message = join("missing PT2 member ", name);
                Err(deployment_error(message.as_str()))
            },
            Some(bytes) => {
                if bytes.len() > MAX_JSON {
                    Err(deployment_error("PT2 JSON member exceeds 16 MiB"))
                } else {
                    Ok(bytes)
                }
            },
        }
    }

    /// Finds the only model: the path of its description, and its name.
    pub fn model(&self) -> (r: Result<(String, String)>)
        requires
            self.wf(),
        ensures
            match (r, only_model(self@)) {
                (Ok(found), Ok(expected)) => found.0@ == expected.0 && found.1@ == expected.1,
                (Err(e), Err(expected)) => e@ == expected,
                _ => false,
            },
    {
        proof {
            self.files.listing_is_determined();
        }
        let ghost names = self.files.listing();
        let mut models: Vec<String> = Vec::new();
        let mut i: usize = 0;
        assert(crate::error::texts(models@) =~= model_paths(names, 0));
        while i < self.files.len()
            invariant
                self.files.wf(),
                names == self.files.listing(),
                i <= names.len(),
                crate::error::texts(models@) == model_paths(names, i as int),
            decreases names.len() - i,
        {
            let name = self.files.name(i);
            if starts_with(name.as_str(), "models/") {
                let ghost earlier = crate::error::texts(models@);
                models.push(name.clone());
                assert(crate::error::texts(models@) =~= earlier.push(names[i as int]));
            }
            i += 1;
        }
        let ghost paths = model_paths(names, names.len() as int);
        assert(paths.len() == models@.len());
        if models.len() != 1 {
            return Err(deployment_error("PT2 import requires exactly one model"));
        }
        let path = models[0].clone();
        proof {
            assert(crate::error::texts(models@)[0] == models@[0]@);
            assert(path@ == paths[0]);
            model_paths_begin(names, names.len() as int);
            assert(is_model_path(paths[0]));
        }
        let all = characters(path.as_str());
        let prefix = characters("models/");
        let below = collect(&all, prefix.len(), all.len());
        assert(below@ =~= path@.skip("models/"@.len() as int));
        if !ends_with(below.as_str(), ".json") {
            return Err(deployment_error("invalid PT2 model filename"));
        }
        let rest = characters(below.as_str());
        let suffix = characters(".json");
        let name = collect(&rest, 0, rest.len() - suffix.len());
        assert(name@ =~= below@.take(below@.len() - ".json"@.len()));
        if has_char(name.as_str(), '/') {
            return Err(deployment_error("invalid PT2 model name"));
        }
        Ok((path, name))
    }
}

proof fn model_paths_begin(names: Seq<Seq<char>>, n: int)
    requires
        0 <= n <= names.len(),
    ensures
        forall|i: int| 0 <= i < model_paths(names, n).len() ==> is_model_path(#[trigger] model_paths(names, n)[i]),
    decreases n,
{
    if n > 0 {
        model_paths_begin(names, n - 1);
        let before = model_paths(names, n - 1);
        let now = model_paths(names, n);
        assert forall|i: int| 0 <= i < now.len() implies is_model_path(#[trigger] now[i]) by {
            if i < before.len() {
                assert(now[i] == before[i]);
                assert(is_model_path(before[i]));
            }
        }
    }
}

} // verus!
