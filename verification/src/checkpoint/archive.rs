//! The members of a checkpoint archive.
use super::{check_size, fault, invalid, invalid_fault, size_fault, CheckpointError, CheckpointLimits, CheckpointResult, Fault};
use crate::archive::{
    archive_length, begin_packing, closes, content_of, directory_holds_entries, directory_length, ends_like_locator, entry_of, finish_packing,
    front_length, is_faithful, is_plain, is_settled, is_wide, listed_count, listed_entry, listing, one_more, pack_member, packed,
    reads_back, refuses_password, unpacked, written_envelope_is_accepted, Archive, Entry, EntryView, PackedView, MAX_MEMBER,
};
use crate::deployment::zip_envelope::{envelope_refusal, validate_zip_envelope};
use crate::text::same;
use vstd::prelude::*;
use vstd::utf8::{encode_utf8, is_ascii_chars_encode_utf8};

verus! {

/// The bits of a mode that tell the type of a file.
pub const TYPE_BITS: u32 = 0o170000;

/// The type of a regular file.
pub const REGULAR: u32 = 0o100000;

/// One of the three members.
#[derive(Debug, Clone, Copy, PartialEq, Eq, Structural)]
pub enum Member {
    Weights,
    Optimizer,
    Metadata,
}

/// The member of a name.
pub open spec fn member_of(name: Seq<char>) -> Option<Member> {
    if name == "model.safetensors"@ {
        Some(Member::Weights)
    } else if name == "optimizer.json"@ {
        Some(Member::Optimizer)
    } else if name == "metadata.json"@ {
        Some(Member::Metadata)
    } else {
        None
    }
}

impl Member {
    /// The most bytes of the member.
    pub open spec fn limit(self, limits: CheckpointLimits) -> usize {
        match self {
            Member::Weights => limits.weight_bytes,
            _ => limits.json_bytes,
        }
    }
}

/// The members that have been read.
pub struct MembersView {
    pub total: int,
    pub weights: Option<Seq<u8>>,
    pub optimizer: Option<Seq<u8>>,
    pub metadata: Option<Seq<u8>>,
    /// The member whose content comes next, and its size.
    pub current: Option<(Member, u64)>,
}

/// A mode that is not that of an ordinary file.
pub open spec fn is_special(mode: Option<u32>) -> bool {
    mode matches Some(bits) && bits & TYPE_BITS != 0 && bits & TYPE_BITS != REGULAR
}

impl MembersView {
    /// Nothing has been read.
    pub open spec fn start() -> MembersView {
        MembersView { total: 0, weights: None, optimizer: None, metadata: None, current: None }
    }

    /// A member has been read.
    pub open spec fn has(self, member: Member) -> bool {
        match member {
            Member::Weights => self.weights is Some,
            Member::Optimizer => self.optimizer is Some,
            Member::Metadata => self.metadata is Some,
        }
    }

    /// How many members have been read.
    pub open spec fn count(self) -> int {
        (if self.weights is Some {
            1int
        } else {
            0
        }) + (if self.optimizer is Some {
            1int
        } else {
            0
        }) + (if self.metadata is Some {
            1int
        } else {
            0
        })
    }

    /// Accepts what the archive tells of a member.
    pub open spec fn member(self, limits: CheckpointLimits, entry: EntryView) -> core::result::Result<MembersView, Fault> {
        match member_of(entry.name) {
            None => Err(invalid_fault("unexpected archive member"@)),
            Some(member) => {
                let total = self.total + entry.size;
                if entry.directory || is_special(entry.mode) {
                    Err(invalid_fault("archive members must be ordinary files"@))
                } else if self.has(member) {
                    Err(invalid_fault("duplicate archive member"@))
                } else if size_fault(entry.name, entry.size, member.limit(limits)) is Some {
                    Err(size_fault(entry.name, entry.size, member.limit(limits))->0)
                } else if total > limits.archive_bytes {
                    Err(invalid_fault("combined member payload exceeds archive limit"@))
                } else {
                    Ok(MembersView { total, current: Some((member, entry.size)), ..self })
                }
            },
        }
    }

    /// Accepts the content of the current member.
    pub open spec fn content(self, limits: CheckpointLimits, data: Seq<u8>) -> core::result::Result<MembersView, Fault> {
        let (member, size) = self.current->0;
        if data.len() > member.limit(limits) {
            Err(invalid_fault("checkpoint payload exceeds resource limit"@))
        } else if data.len() != size {
            Err(invalid_fault("archive member's decoded size differs from its directory"@))
        } else {
            Ok(
                match member {
                    Member::Weights => MembersView { weights: Some(data), current: None, ..self },
                    Member::Optimizer => MembersView { optimizer: Some(data), current: None, ..self },
                    Member::Metadata => MembersView { metadata: Some(data), current: None, ..self },
                },
            )
        }
    }
}

/// Members under way.
pub struct MemberReader {
    limits: CheckpointLimits,
    total: usize,
    weights: Option<Vec<u8>>,
    optimizer: Option<Vec<u8>>,
    metadata: Option<Vec<u8>>,
    current: Option<(Member, u64)>,
}

spec fn bytes_of(bytes: Option<Vec<u8>>) -> Option<Seq<u8>> {
    match bytes {
        Some(data) => Some(data@),
        None => None,
    }
}

impl View for MemberReader {
    type V = MembersView;

    closed spec fn view(&self) -> MembersView {
        MembersView {
            total: self.total as int,
            weights: bytes_of(self.weights),
            optimizer: bytes_of(self.optimizer),
            metadata: bytes_of(self.metadata),
            current: self.current,
        }
    }
}

fn find_member(name: &str) -> (r: Option<Member>)
    ensures
        r == member_of(name@),
{
    if same(name, "model.safetensors") {
        Some(Member::Weights)
    } else if same(name, "optimizer.json") {
        Some(Member::Optimizer)
    } else if same(name, "metadata.json") {
        Some(Member::Metadata)
    } else {
        None
    }
}

impl MemberReader {
    /// The limits under which the members are read.
    pub closed spec fn limits(self) -> CheckpointLimits {
        self.limits
    }

    /// Starts to read an archive with the given number of members.
    pub fn begin(count: usize, limits: CheckpointLimits) -> (r: CheckpointResult<Self>)
        ensures
            fault(r) == (if count != 3 {
                Some(invalid_fault("archive must contain exactly three members"@))
            } else {
                None
            }),
            r matches Ok(reader) ==> reader@ == MembersView::start() && reader.limits() == limits,
    {
        if count != 3 {
            return Err(invalid("archive must contain exactly three members"));
        }
        Ok(MemberReader { limits, total: 0, weights: None, optimizer: None, metadata: None, current: None })
    }

    fn holds(&self, member: Member) -> (r: bool)
        ensures
            r == self@.has(member),
    {
        match member {
            Member::Weights => self.weights.is_some(),
            Member::Optimizer => self.optimizer.is_some(),
            Member::Metadata => self.metadata.is_some(),
        }
    }

    fn limit_of(&self, member: Member) -> (r: usize)
        ensures
            r == member.limit(self.limits()),
    {
        match member {
            Member::Weights => self.limits.weight_bytes,
            _ => self.limits.json_bytes,
        }
    }

    /// Accepts what the archive tells of the next member. A refused member changes nothing.
    pub fn member(&mut self, entry: &Entry) -> (r: CheckpointResult<usize>)
        ensures
            final(self).limits() == old(self).limits(),
            match (r, old(self)@.member(old(self).limits(), entry@)) {
                (Ok(limit), Ok(next)) => final(self)@ == next && next.current is Some && limit == member_of(entry.name@)->0.limit(
                    old(self).limits(),
                ),
                (Err(e), Err(expected)) => e@ == expected && final(self)@ == old(self)@,
                _ => false,
            },
    {
        let member = match find_member(entry.name.as_str()) {
            Some(member) => member,
            None => {
                return Err(invalid("unexpected archive member"));
            },
        };
        let special = match entry.mode {
            Some(bits) => bits & TYPE_BITS != 0 && bits & TYPE_BITS != REGULAR,
            None => false,
        };
        if entry.directory || special {
            return Err(invalid("archive members must be ordinary files"));
        }
        if self.holds(member) {
            return Err(invalid("duplicate archive member"));
        }
        let limit: usize = self.limit_of(member);
        if let Err(e) = check_size(entry.name.as_str(), entry.size, limit) {
            return Err(e);
        }
        let size: usize = entry.size as usize;
        assert(size == entry.size);
        if self.total > self.limits.archive_bytes || size > self.limits.archive_bytes - self.total {
            return Err(invalid("combined member payload exceeds archive limit"));
        }
        self.total = self.total + size;
        self.current = Some((member, entry.size));
        Ok(limit)
    }

    /// Accepts the content of the current member.
    pub fn content(&mut self, data: Vec<u8>) -> (r: CheckpointResult<()>)
        requires
            old(self)@.current is Some,
        ensures
            final(self).limits() == old(self).limits(),
            match (r, old(self)@.content(old(self).limits(), data@)) {
                (Ok(_), Ok(next)) => final(self)@ == next,
                (Err(e), Err(expected)) => e@ == expected,
                _ => false,
            },
    {
        match self.current {
            Some((member, size)) => {
                if data.len() > self.limit_of(member) {
                    return Err(invalid("checkpoint payload exceeds resource limit"));
                }
                if data.len() as u64 != size {
                    return Err(invalid("archive member's decoded size differs from its directory"));
                }
                match member {
                    Member::Weights => {
                        self.weights = Some(data);
                    },
                    Member::Optimizer => {
                        self.optimizer = Some(data);
                    },
                    Member::Metadata => {
                        self.metadata = Some(data);
                    },
                }
                self.current = None;
                Ok(())
            },
            None => Ok(()),
        }
    }

    /// Takes the weights, the optimizer state and the metadata, if all have been read.
    pub fn finish(self) -> (r: Option<(Vec<u8>, Vec<u8>, Vec<u8>)>)
        ensures
            r is Some <==> self@.count() == 3,
            r matches Some((weights, optimizer, metadata)) ==> self@.weights == Some(weights@) && self@.optimizer == Some(
                optimizer@,
            ) && self@.metadata == Some(metadata@),
    {
        match (self.weights, self.optimizer, self.metadata) {
            (Some(weights), Some(optimizer), Some(metadata)) => Some((weights, optimizer, metadata)),
            _ => None,
        }
    }
}

/// Every member that is accepted is one more: after three, all are there.
pub proof fn members_accumulate(before: MembersView, limits: CheckpointLimits, entry: EntryView, data: Seq<u8>)
    requires
        before.member(limits, entry) is Ok,
        before.member(limits, entry)->Ok_0.content(limits, data) is Ok,
    ensures
        before.member(limits, entry)->Ok_0.content(limits, data)->Ok_0.count() == before.count() + 1,
{
}

/// What has been accepted never exceeds the limit of the archive.
pub proof fn members_stay_bounded(before: MembersView, limits: CheckpointLimits, entry: EntryView)
    requires
        before.member(limits, entry) is Ok,
    ensures
        before.member(limits, entry)->Ok_0.total <= limits.archive_bytes,
{
}

/// Reads one more member of an archive.
#[verifier::opaque]
pub open spec fn read_next(bytes: Seq<u8>, limits: CheckpointLimits, before: MembersView, index: usize) -> core::result::Result<
    MembersView,
    Fault,
> {
    match entry_of(bytes, index) {
        Err(text) => Err(Fault::Archive(text)),
        Ok(entry) => match before.member(limits, entry) {
            Err(e) => Err(e),
            Ok(open) => {
                let (member, size) = open.current->0;
                match content_of(bytes, index, member.limit(limits) as u64) {
                    Err(text) => Err(Fault::Io(text)),
                    Ok(data) => open.content(limits, data),
                }
            },
        },
    }
}

/// What the first `n` members of an archive amount to.
pub open spec fn read_first(bytes: Seq<u8>, limits: CheckpointLimits, n: int) -> core::result::Result<MembersView, Fault>
    decreases n,
{
    if n <= 0 {
        Ok(MembersView::start())
    } else {
        match read_first(bytes, limits, n - 1) {
            Err(e) => Err(e),
            Ok(before) => read_next(bytes, limits, before, (n - 1) as usize),
        }
    }
}

/// The three members of an archive, or why it is refused.
pub open spec fn members_outcome(bytes: Seq<u8>, limits: CheckpointLimits) -> core::result::Result<MembersView, Fault> {
    match envelope_refusal(bytes, 3, limits.archive_bytes as int) {
        Some(e) => Err(Fault::Model(e)),
        None => match listed_count(bytes) {
            Err(text) => Err(Fault::Archive(text)),
            Ok(count) => if count != 3 {
                Err(invalid_fault("archive must contain exactly three members"@))
            } else {
                read_first(bytes, limits, 3)
            },
        },
    }
}

fn read_one(archive: &mut Archive, reader: &mut MemberReader, index: usize) -> (r: CheckpointResult<()>)
    requires
        old(archive).wf(),
    ensures
        final(archive).wf(),
        final(archive)@ == old(archive)@,
        final(reader).limits() == old(reader).limits(),
        match (r, read_next(old(archive)@, old(reader).limits(), old(reader)@, index)) {
            (Ok(_), Ok(next)) => final(reader)@ == next && next.count() == old(reader)@.count() + 1,
            (Err(e), Err(expected)) => e@ == expected,
            _ => false,
        },
{
    proof {
        reveal(read_next);
    }
    let entry = match archive.entry(index) {
        Ok(entry) => entry,
        Err(text) => {
            return Err(CheckpointError::Archive(text));
        },
    };
    let limit: usize = match reader.member(&entry) {
        Ok(limit) => limit,
        Err(e) => {
            return Err(e);
        },
    };
    match archive.content(index, limit as u64) {
        Ok(data) => reader.content(data),
        Err(text) => Err(CheckpointError::Io(text)),
    }
}

/// Reads an archive: the weights, the optimizer state and the metadata.
pub fn read_members(bytes: Vec<u8>, limits: CheckpointLimits) -> (r: CheckpointResult<(Vec<u8>, Vec<u8>, Vec<u8>)>)
    ensures
        match (r, members_outcome(bytes@, limits)) {
            (Ok((weights, optimizer, metadata)), Ok(read)) => read.weights == Some(weights@) && read.optimizer == Some(
                optimizer@,
            ) && read.metadata == Some(metadata@),
            (Err(e), Err(expected)) => e@ == expected,
            _ => false,
        },
{
    let ghost all = bytes@;
    if let Err(e) = validate_zip_envelope(bytes.as_slice(), 3, limits.archive_bytes) {
        return Err(CheckpointError::Model(e));
    }
    let mut archive = match Archive::open(bytes.as_slice()) {
        Ok(archive) => archive,
        Err(text) => {
            return Err(CheckpointError::Archive(text));
        },
    };
    let mut reader = match MemberReader::begin(archive.count(), limits) {
        Ok(reader) => reader,
        Err(e) => {
            return Err(e);
        },
    };
    proof {
        reveal_with_fuel(read_first, 4);
    }
    if let Err(e) = read_one(&mut archive, &mut reader, 0) {
        return Err(e);
    }
    if let Err(e) = read_one(&mut archive, &mut reader, 1) {
        return Err(e);
    }
    if let Err(e) = read_one(&mut archive, &mut reader, 2) {
        return Err(e);
    }
    match reader.finish() {
        Some(members) => Ok(members),
        None => Err(invalid("archive must contain exactly three members")),
    }
}

/// The members as they are packed.
pub open spec fn packing_list(weights: Seq<u8>, optimizer: Seq<u8>, metadata: Seq<u8>) -> Seq<PackedView> {
    seq![
        PackedView { name: "model.safetensors"@, mode: 0o600, content: weights },
        PackedView { name: "optimizer.json"@, mode: 0o600, content: optimizer },
        PackedView { name: "metadata.json"@, mode: 0o600, content: metadata },
    ]
}

/// What the names of the members take in an archive: each is plain and none is sixteen bytes
/// long.
proof fn list_is_plain(weights: Seq<u8>, optimizer: Seq<u8>, metadata: Seq<u8>)
    ensures
        ({
            let list = packing_list(weights, optimizer, metadata);
            &&& is_plain(list[0].name) && encode_utf8(list[0].name).len() == 17
            &&& is_plain(list[1].name) && encode_utf8(list[1].name).len() == 14
            &&& is_plain(list[2].name) && encode_utf8(list[2].name).len() == 13
            &&& list[0].content == weights && list[1].content == optimizer && list[2].content == metadata
            &&& list.take(0).len() == 0
            &&& list.take(1).drop_last() == list.take(0) && list.take(1).last() == list[0]
            &&& list.take(2).drop_last() == list.take(1) && list.take(2).last() == list[1]
            &&& list.drop_last() == list.take(2) && list.last() == list[2]
        }),
{
    reveal_strlit("model.safetensors");
    reveal_strlit("optimizer.json");
    reveal_strlit("metadata.json");
    let list = packing_list(weights, optimizer, metadata);
    assert(list[0].name.len() == 17 && list[1].name.len() == 14 && list[2].name.len() == 13);
    is_ascii_chars_encode_utf8(list[0].name);
    is_ascii_chars_encode_utf8(list[1].name);
    is_ascii_chars_encode_utf8(list[2].name);
    assert(list.take(1).drop_last() =~= list.take(0));
    assert(list.take(2).drop_last() =~= list.take(1));
    assert(list.drop_last() =~= list.take(2));
}

/// Below four gigabytes a checkpoint archive has a header, an entry and twice a name for each
/// member, and the end record.
pub proof fn small_archive_length(weights: Seq<u8>, optimizer: Seq<u8>, metadata: Seq<u8>)
    requires
        338 + weights.len() + optimizer.len() + metadata.len() < MAX_MEMBER,
    ensures
        archive_length(packing_list(weights, optimizer, metadata)) == 338 + weights.len() + optimizer.len() + metadata.len(),
        is_settled(packing_list(weights, optimizer, metadata)),
        !is_wide(packing_list(weights, optimizer, metadata)),
{
    list_is_plain(weights, optimizer, metadata);
    reveal_with_fuel(front_length, 4);
    reveal_with_fuel(directory_length, 4);
}

/// A checkpoint archive can be read as it was written, unless a member of the largest length
/// begins where its place needs a wide field.
pub proof fn packing_list_is_faithful(weights: Seq<u8>, optimizer: Seq<u8>, metadata: Seq<u8>)
    requires
        optimizer.len() == MAX_MEMBER ==> 47 + weights.len() <= MAX_MEMBER,
        metadata.len() == MAX_MEMBER ==> 91 + weights.len() + optimizer.len() <= MAX_MEMBER,
    ensures
        is_faithful(packing_list(weights, optimizer, metadata)),
{
    list_is_plain(weights, optimizer, metadata);
    let list = packing_list(weights, optimizer, metadata);
    assert(!ends_like_locator(list));
    assert forall|i: int| 0 <= i < list.len() && (#[trigger] list[i]).content.len() == MAX_MEMBER implies front_length(
        list.take(i),
    ) <= MAX_MEMBER by {
        reveal_with_fuel(front_length, 3);
        assert(i == 0 || i == 1 || i == 2);
    }
    assert forall|i: int| 0 <= i < list.len() implies is_plain((#[trigger] list[i]).name) by {
        if i == 0 {
        } else if i == 1 {
        } else {
            assert(i == 2);
        }
    }
}

/// Packs an archive. One that is not longer than its limit is written, and its members can be
/// read again.
pub fn pack_members(weights: &[u8], optimizer: &[u8], metadata: &[u8], limits: CheckpointLimits) -> (r: CheckpointResult<Vec<u8>>)
    ensures
        ({
            let list = packing_list(weights@, optimizer@, metadata@);
            let large = weights@.len() > MAX_MEMBER || optimizer@.len() > MAX_MEMBER || metadata@.len() > MAX_MEMBER;
            match r {
                Ok(bytes) => {
                    &&& !large
                    &&& bytes@.len() == archive_length(list)
                    &&& bytes@.len() <= limits.archive_bytes
                    &&& is_faithful(list) ==> closes(bytes@, list) && reads_back(bytes@, list)
                },
                Err(e) => if large {
                    e@ == Fault::Io("Large file option has not been set"@)
                } else {
                    e@ == invalid_fault("archive exceeds resource limit"@) && archive_length(list) > limits.archive_bytes
                },
            }
        }),
{
    let packer = begin_packing();
    let packer = match pack_member(packer, "model.safetensors", 0o600, weights) {
        Ok(packer) => packer,
        Err(text) => {
            return Err(CheckpointError::Io(text));
        },
    };
    let packer = match pack_member(packer, "optimizer.json", 0o600, optimizer) {
        Ok(packer) => packer,
        Err(text) => {
            return Err(CheckpointError::Io(text));
        },
    };
    let packer = match pack_member(packer, "metadata.json", 0o600, metadata) {
        Ok(packer) => packer,
        Err(text) => {
            return Err(CheckpointError::Io(text));
        },
    };
    assert(packed(packer) =~= packing_list(weights@, optimizer@, metadata@));
    match finish_packing(packer) {
        Ok(bytes) => {
            proof {
                reveal_strlit("archive");
                reveal_strlit(" exceeds resource limit");
                reveal_strlit("archive exceeds resource limit");
                assert("archive"@ + " exceeds resource limit"@ =~= "archive exceeds resource limit"@);
            }
            match check_size("archive", bytes.len() as u64, limits.archive_bytes) {
                Ok(_) => Ok(bytes),
                Err(e) => Err(e),
            }
        },
        Err(text) => Err(CheckpointError::Archive(text)),
    }
}

proof fn written_member_is_read(
    bytes: Seq<u8>,
    limits: CheckpointLimits,
    list: Seq<PackedView>,
    before: MembersView,
    index: usize,
    member: Member,
)
    requires
        reads_back(bytes, list),
        index < list.len(),
        list[index as int].mode == 0o600,
        list[index as int].name.len() > 0,
        list[index as int].name.last() != '/',
        list[index as int].name.last() != '\\',
        member_of(list[index as int].name) == Some(member),
        !before.has(member),
        list[index as int].content.len() <= member.limit(limits),
        before.total + list[index as int].content.len() <= limits.archive_bytes,
    ensures
        before.member(limits, listing(list[index as int])) is Ok,
        read_next(bytes, limits, before, index) == before.member(limits, listing(list[index as int]))->Ok_0.content(
            limits,
            list[index as int].content,
        ),
{
    reveal(read_next);
    assert(!refuses_password(bytes, index));
    assert(listed_entry(bytes, index) is Ok);
    assert(unpacked(bytes, index, one_more(member.limit(limits) as u64)) is Ok);
    assert(0o100600u32 & 0o170000u32 == 0o100000u32) by (bit_vector);
}

proof fn front_is_longer(weights: Seq<u8>, optimizer: Seq<u8>, metadata: Seq<u8>)
    ensures
        weights.len() + optimizer.len() + metadata.len() <= archive_length(packing_list(weights, optimizer, metadata)),
{
    list_is_plain(weights, optimizer, metadata);
    directory_holds_entries(packing_list(weights, optimizer, metadata));
    reveal_with_fuel(front_length, 4);
}

/// A checkpoint archive that was packed under some limits is read back under the same limits.
pub proof fn packed_members_are_read(
    bytes: Seq<u8>,
    weights: Seq<u8>,
    optimizer: Seq<u8>,
    metadata: Seq<u8>,
    limits: CheckpointLimits,
)
    requires
        closes(bytes, packing_list(weights, optimizer, metadata)),
        reads_back(bytes, packing_list(weights, optimizer, metadata)),
        bytes.len() == archive_length(packing_list(weights, optimizer, metadata)),
        is_settled(packing_list(weights, optimizer, metadata)),
        bytes.len() <= limits.archive_bytes,
        weights.len() <= limits.weight_bytes,
        optimizer.len() <= limits.json_bytes,
        metadata.len() <= limits.json_bytes,
    ensures
        members_outcome(bytes, limits) matches Ok(read) && read.weights == Some(weights) && read.optimizer == Some(optimizer)
            && read.metadata == Some(metadata),
{
    let list = packing_list(weights, optimizer, metadata);
    written_envelope_is_accepted(bytes, list, 3, limits.archive_bytes);
    front_is_longer(weights, optimizer, metadata);
    reveal_strlit("model.safetensors");
    reveal_strlit("optimizer.json");
    reveal_strlit("metadata.json");
    assert("model.safetensors"@.len() == 17 && "optimizer.json"@.len() == 14 && "metadata.json"@.len() == 13);
    reveal_with_fuel(read_first, 4);
    let start = MembersView::start();
    written_member_is_read(bytes, limits, list, start, 0, Member::Weights);
    let first = read_first(bytes, limits, 1)->Ok_0;
    written_member_is_read(bytes, limits, list, first, 1, Member::Optimizer);
    let second = read_first(bytes, limits, 2)->Ok_0;
    written_member_is_read(bytes, limits, list, second, 2, Member::Metadata);
}

} // verus!
