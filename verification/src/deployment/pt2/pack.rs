//! Members are packed into an archive.
use super::super::layout::MAX_BYTES;
use super::super::tree::MAX_NODES;
use super::archive::{
    archive_outcome, contents, description_refusal, is_bad_part, is_part, path_ok, read_members, read_next, separator,
};
use super::save::check_length;
use crate::archive::{
    archive_length, begin_packing, closes, directory_holds_entries, ends_like_locator, finish_packing, front_grows, front_length,
    is_faithful, is_plain, is_settled, listed_entry, listing, one_more, pack_member, packed, reads_back, refuses_password,
    unpacked, written_envelope_is_accepted, PackedView, MAX_MEMBER,
};
use crate::error::{deployment_error, deployment_text, ErrorView, Result};
use crate::names::{ascending_is_distinct, listing_exists, listing_of, NameMap};
use crate::text::join;
use vstd::prelude::*;

verus! {

/// The members as they are packed: in the order of their names, below one root directory.
pub open spec fn packing_list(names: Seq<Seq<char>>, files: Map<Seq<char>, Seq<u8>>) -> Seq<PackedView> {
    Seq::new(
        names.len(),
        |i: int| PackedView { name: "package/"@ + names[i], mode: 0o644, content: files[names[i]] },
    )
}

/// A member is too large for an archive.
pub open spec fn has_large(files: Map<Seq<char>, Seq<u8>>) -> bool {
    exists|name: Seq<char>| #[trigger] files.dom().contains(name) && files[name].len() > MAX_MEMBER
}

/// Packs the members of an archive. One that is not longer than the limit is written, and its
/// members can be read again.
pub fn pack(members: &NameMap<Vec<u8>>) -> (r: Result<Vec<u8>>)
    requires
        members.wf(),
    ensures
        ({
            let list = packing_list(listing_of(members@), contents(members@));
            match r {
                Ok(bytes) => {
                    &&& !has_large(contents(members@))
                    &&& bytes@.len() == archive_length(list)
                    &&& bytes@.len() <= MAX_BYTES
                    &&& is_faithful(list) ==> closes(bytes@, list) && reads_back(bytes@, list)
                },
                Err(e) => if has_large(contents(members@)) {
                    e@ == deployment_text("Large file option has not been set"@)
                } else {
                    e@ == deployment_text("PT2 output exceeds limit"@) && archive_length(list) > MAX_BYTES
                },
            }
        }),
{
    proof {
        members.listing_is_determined();
    }
    let ghost names = members.listing();
    let ghost files = contents(members@);
    let ghost list = packing_list(names, files);
    let mut packer = begin_packing();
    assert(packed(packer) =~= list.take(0));
    let mut i: usize = 0;
    while i < members.len()
        invariant
            members.wf(),
            names == members.listing(),
            names == listing_of(members@),
            files == contents(members@),
            list == packing_list(names, files),
            i <= names.len(),
            packed(packer) == list.take(i as int),
            forall|k: int| 0 <= k < i ==> files[#[trigger] names[k]].len() <= MAX_MEMBER,
        decreases names.len() - i,
    {
        let name = join("package/", members.name(i).as_str());
        let data = members.item(i);
        proof {
            members.entry_in_map(i as int);
            assert(files[names[i as int]] == data@);
            assert(files.dom().contains(names[i as int]));
        }
        packer = match pack_member(packer, name.as_str(), 0o644, data.as_slice()) {
            Ok(next) => next,
            Err(text) => {
                return Err(deployment_error(text.as_str()));
            },
        };
        assert(packed(packer) =~= list.take(i + 1));
        i += 1;
    }
    proof {
        assert(list.take(names.len() as int) =~= list);
        if has_large(files) {
            let name = choose|name: Seq<char>| #[trigger] files.dom().contains(name) && files[name].len() > MAX_MEMBER;
            members.map_is_listed(name);
        }
    }
    match finish_packing(packer) {
        Ok(bytes) => {
            if let Err(e) = check_length(bytes.len()) {
                return Err(e);
            }
            Ok(bytes)
        },
        Err(text) => Err(deployment_error(text.as_str())),
    }
}

/// Files can be packed so that they are accepted when they are read: there are not too many,
/// the names are plain paths, and the archive is not longer than the limit and does not end
/// like a wide one.
pub open spec fn is_packable(files: Map<Seq<char>, Seq<u8>>) -> bool {
    let names = listing_of(files);
    let list = packing_list(names, files);
    &&& files.dom().finite()
    &&& 0 < names.len() <= MAX_NODES
    &&& archive_length(list) <= MAX_BYTES
    &&& !ends_like_locator(list)
    &&& forall|i: int| 0 <= i < list.len() ==> is_plain((#[trigger] list[i]).name) && path_ok(list[i].name)
}

/// The archive of packable files can be read as it was written.
pub proof fn packable_is_faithful(files: Map<Seq<char>, Seq<u8>>)
    requires
        is_packable(files),
    ensures
        is_faithful(packing_list(listing_of(files), files)),
        is_settled(packing_list(listing_of(files), files)),
{
    let list = packing_list(listing_of(files), files);
    directory_holds_entries(list);
    front_grows(list, list.len() as int);
    assert forall|i: int| 0 <= i < list.len() && (#[trigger] list[i]).content.len() == MAX_MEMBER implies front_length(
        list.take(i),
    ) <= MAX_MEMBER by {
        front_grows(list, i);
    }
}

/// A path below the root directory is taken apart again.
proof fn path_is_split(name: Seq<char>)
    ensures
        ("package/"@ + name).contains('/'),
        separator("package/"@ + name) == 7,
        ("package/"@ + name).take(7) == "package"@,
        ("package/"@ + name).skip(8) == name,
{
    reveal_strlit("package/");
    reveal_strlit("package");
    let path = "package/"@ + name;
    assert(path[7] == '/');
    assert(forall|k: int| 0 <= k < 7 ==> path[k] == "package/"@[k]);
    path.index_of_first_ensures('/');
    assert(path.take(7) =~= "package"@);
    assert(path.skip(8) =~= name);
}

/// The first names and what they stand for.
spec fn leading(names: Seq<Seq<char>>, files: Map<Seq<char>, Seq<u8>>, n: int) -> Map<Seq<char>, Seq<u8>>
    decreases n,
{
    if n <= 0 {
        Map::empty()
    } else {
        leading(names, files, n - 1).insert(names[n - 1], files[names[n - 1]])
    }
}

proof fn leading_names(names: Seq<Seq<char>>, files: Map<Seq<char>, Seq<u8>>, n: int)
    requires
        0 <= n <= names.len(),
    ensures
        forall|name: Seq<char>| #[trigger]
            leading(names, files, n).dom().contains(name) <==> exists|i: int| 0 <= i < n && #[trigger] names[i] == name,
        forall|name: Seq<char>| #[trigger]
            leading(names, files, n).dom().contains(name) ==> leading(names, files, n)[name] == files[name],
    decreases n,
{
    if n > 0 {
        leading_names(names, files, n - 1);
        let before = leading(names, files, n - 1);
        assert forall|name: Seq<char>| #[trigger]
            leading(names, files, n).dom().contains(name) <==> exists|i: int| 0 <= i < n && #[trigger] names[i] == name by {
            assert(leading(names, files, n).dom().contains(name) <==> before.dom().contains(name) || name == names[n - 1]);
            if before.dom().contains(name) {
                let i = choose|i: int| 0 <= i < n - 1 && #[trigger] names[i] == name;
                assert(0 <= i < n);
            }
            if exists|i: int| 0 <= i < n && #[trigger] names[i] == name {
                let i = choose|i: int| 0 <= i < n && #[trigger] names[i] == name;
                if i < n - 1 {
                    assert(before.dom().contains(name));
                }
            }
        }
    }
}

proof fn members_are_read(bytes: Seq<u8>, files: Map<Seq<char>, Seq<u8>>, n: int)
    requires
        is_packable(files),
        reads_back(bytes, packing_list(listing_of(files), files)),
        0 <= n <= listing_of(files).len(),
    ensures
        read_members(bytes, n) matches Ok(read) && read.files == leading(listing_of(files), files, n) && read.current is None
            && (read.root is Some ==> read.root == Some("package"@)) && 0 <= read.total <= front_length(
            packing_list(listing_of(files), files).take(n),
        ),
    decreases n,
{
    let names = listing_of(files);
    let list = packing_list(names, files);
    if n > 0 {
        members_are_read(bytes, files, n - 1);
        listing_exists(files.dom());
        ascending_is_distinct(names);
        let before = read_members(bytes, n - 1)->Ok_0;
        let index = (n - 1) as usize;
        let name = names[n - 1];
        let member = list[n - 1];
        path_is_split(name);
        front_grows(list, n);
        front_grows(list, n - 1);
        front_grows(list, list.len() as int);
        directory_holds_entries(list);
        assert(list.take(n).drop_last() =~= list.take(n - 1));
        assert(list.take(n).last() == member);
        assert(front_length(list.take(n)) >= front_length(list.take(n - 1)) + member.content.len());
        assert(!refuses_password(bytes, index));
        assert(listed_entry(bytes, index) is Ok);
        assert(unpacked(bytes, index, one_more(MAX_BYTES as u64)) is Ok) by {
            assert(member.content.len() <= MAX_BYTES);
        }
        assert(path_ok(member.name));
        let last = member.name.len() as int;
        assert(member.name.last() != '/') by {
            if member.name.last() == '/' {
                assert(is_part(member.name, last, last));
                assert(is_bad_part(member.name, last, last));
            }
        }
        assert(member.name.last() != '\\') by {
            assert(member.name[last - 1] == member.name.last());
        }
        leading_names(names, files, n - 1);
        assert(!before.files.dom().contains(name)) by {
            if before.files.dom().contains(name) {
                let i = choose|i: int| 0 <= i < n - 1 && #[trigger] names[i] == name;
                assert(names[i] == names[n - 1]);
            }
        }
        reveal(read_next);
        let entry = listing(member);
        assert(before.member(entry) is Ok);
        assert(read_members(bytes, n) == read_next(bytes, before, index));
    } else {
        assert(list.take(0).len() == 0);
    }
}

/// An archive that was packed gives the same files back when it is read.
pub proof fn packed_files_are_read(bytes: Seq<u8>, files: Map<Seq<char>, Seq<u8>>)
    requires
        is_packable(files),
        description_refusal(files) is None,
        bytes.len() == archive_length(packing_list(listing_of(files), files)),
        closes(bytes, packing_list(listing_of(files), files)),
        reads_back(bytes, packing_list(listing_of(files), files)),
    ensures
        archive_outcome(bytes) == Ok::<Map<Seq<char>, Seq<u8>>, ErrorView>(files),
{
    let names = listing_of(files);
    let n = names.len();
    packable_is_faithful(files);
    written_envelope_is_accepted(bytes, packing_list(names, files), MAX_NODES as int, MAX_BYTES);
    members_are_read(bytes, files, n as int);
    leading_names(names, files, n as int);
    listing_exists(files.dom());
    let read = leading(names, files, n as int);
    assert forall|name: Seq<char>| read.dom().contains(name) == files.dom().contains(name) by {
        if files.dom().contains(name) {
            assert(names.contains(name));
            let i = names.index_of(name);
            assert(names[i] == name);
        }
        if read.dom().contains(name) {
            let i = choose|i: int| 0 <= i < n && #[trigger] names[i] == name;
            assert(names.contains(name));
        }
    }
    assert(read =~= files);
}

} // verus!
