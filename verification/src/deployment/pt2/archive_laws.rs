//! Which files an archive may hold, and how they are found in it.
use super::archive::{
    description_refusal, is_bad_part, is_model_path, is_part, json_refusal, model_paths, only_model, path_refusal, says_six,
    separator, ReadingView,
};
use super::load::{constants_path, weights_path};
use super::pack::packing_list;
use super::state::{storage_path, StatesView};
use super::json::{field, JsonView};
use super::super::types::DType;
use crate::archive::EntryView;
use crate::text::is_space;
use vstd::prelude::*;
use vstd::utf8::encode_utf8;

verus! {

/// An accepted path is not empty and at most 2048 bytes long; it has no backslash and no colon, does not
/// begin or end with a slash, and has no empty part.
pub proof fn accepted_paths_have_parts(path: Seq<char>, i: int)
    requires
        path_refusal(path) is None,
    ensures
        0 < path.len() && encode_utf8(path).len() <= 2048,
        !path.contains('\\') && !path.contains(':'),
        path[0] != '/' && path[path.len() - 1] != '/',
        0 <= i < path.len() - 1 && path[i] == '/' ==> path[i + 1] != '/',
{
    if path[0] == '/' {
        assert(is_part(path, 0, 0));
    }
    let n = path.len() as int;
    if path[n - 1] == '/' {
        assert(is_part(path, n, n));
    }
    if 0 <= i < n - 1 && path[i] == '/' && path[i + 1] == '/' {
        assert(is_part(path, i + 1, i + 1));
    }
}

/// No part of an accepted path is a dot or two dots.
pub proof fn accepted_paths_stay_below_their_root(path: Seq<char>, a: int, b: int)
    requires
        path_refusal(path) is None,
        is_part(path, a, b),
    ensures
        path.subrange(a, b) != seq!['.'],
        path.subrange(a, b) != seq!['.', '.'],
        b > a,
{
    assert(!is_bad_part(path, a, b));
    let part = path.subrange(a, b);
    if part == seq!['.'] {
        assert(part.len() == 1 && part[0] == '.');
    }
    if part == seq!['.', '.'] {
        assert(part.len() == 2 && part[0] == '.' && part[1] == '.');
    }
}

/// A file is taken exactly if its path is accepted and lies in the one directory that all files share, it is an
/// ordinary file that is stored or deflated, and all files together stay within 256 MiB. It is then awaited
/// under its path below that directory.
pub proof fn files_lie_below_one_root(r: ReadingView, entry: EntryView)
    requires
        r.total >= 0,
    ensures
        r.member(entry) is Ok <==> {
            &&& path_refusal(entry.name) is None
            &&& !(entry.packing is Other) && !entry.directory
            &&& r.total + entry.size <= 268435456
            &&& entry.name.contains('/')
            &&& r.root matches Some(root) ==> entry.name.take(separator(entry.name)) == root
        },
        r.member(entry) matches Ok(after) ==> {
            &&& after.total == r.total + entry.size && after.files == r.files
            &&& after.root == Some(entry.name.take(separator(entry.name)))
            &&& after.current == Some((entry.name.skip(separator(entry.name) + 1), entry.size))
        },
{
}

/// The directory of a path is what stands before its first slash.
pub proof fn roots_end_at_the_first_slash(path: Seq<char>, i: int)
    requires
        path.contains('/'),
        0 <= i < separator(path),
    ensures
        0 <= separator(path) < path.len(),
        path[separator(path)] == '/',
        path[i] != '/',
{
    path.index_of_first_ensures('/');
}

/// A content is kept under its path exactly if it has the length that was listed and no file has that path
/// already.
pub proof fn contents_are_kept_once(r: ReadingView, path: Seq<char>, size: u64, data: Seq<u8>, other: Seq<char>)
    requires
        r.current == Some((path, size)),
        other != path,
    ensures
        r.content(data) is Ok <==> data.len() == size && !r.files.dom().contains(path),
        r.content(data) matches Ok(after) ==> {
            &&& after.files.dom().contains(path) && after.files[path] == data
            &&& after.files.dom().contains(other) == r.files.dom().contains(other) && after.files[other] == r.files[other]
            &&& after.root == r.root && after.total == r.total
        },
{
}

/// A package is told by its format, its version and its byte order, letter by letter.
pub proof fn packages_are_told_by_their_headers(files: Map<Seq<char>, Seq<u8>>)
    ensures
        description_refusal(files) is None ==> {
            &&& files.dom().contains("archive_format"@) && files["archive_format"@] == seq![0x70u8, 0x74u8, 0x32u8]
            &&& files.dom().contains("archive_version"@) && files["archive_version"@] == seq![0x30u8]
            &&& files.dom().contains("byteorder"@) && files["byteorder"@] == seq![
                0x6cu8,
                0x69u8,
                0x74u8,
                0x74u8,
                0x6cu8,
                0x65u8,
            ]
            &&& files.dom().contains(".data/version"@) && files.dom().contains(".data/serialization_id"@)
        },
{
}

/// A text says six exactly if it is one six among spaces.
pub proof fn versions_are_six(text: Seq<char>, before: Seq<char>, after: Seq<char>)
    requires
        text == before + seq!['6'] + after,
        forall|i: int| 0 <= i < before.len() ==> is_space(#[trigger] before[i]),
        forall|i: int| 0 <= i < after.len() ==> is_space(#[trigger] after[i]),
    ensures
        says_six(text),
        !says_six(before),
{
    let at = before.len() as int;
    assert(text[at] == '6');
    assert forall|j: int| 0 <= j < text.len() && j != at implies is_space(#[trigger] text[j]) by {
        if j < at {
            assert(text[j] == before[j]);
        } else {
            assert(text[j] == after[j - at - 1]);
        }
    }
    if says_six(before) {
        let i = choose|i: int| 0 <= i < before.len() && #[trigger] before[i] == '6' && forall|j: int|
            0 <= j < before.len() && j != i ==> is_space(#[trigger] before[j]);
        assert(is_space(before[i]));
    }
}

/// A JSON file is read exactly if it is there and has at most 16 MiB.
pub proof fn documents_are_bounded(files: Map<Seq<char>, Vec<u8>>, name: Seq<char>)
    ensures
        json_refusal(files, name) is None <==> files.dom().contains(name) && files[name]@.len() <= 16 * 1024 * 1024,
{
}

proof fn models_are_listed(names: Seq<Seq<char>>, n: int, i: int)
    requires
        0 <= i < n <= names.len(),
    ensures
        is_model_path(names[i]) ==> model_paths(names, n).contains(names[i]),
    decreases n,
{
    let before = model_paths(names, n - 1);
    let all = model_paths(names, n);
    if is_model_path(names[i]) {
        if i < n - 1 {
            models_are_listed(names, n - 1, i);
            let k = choose|k: int| 0 <= k < before.len() && before[k] == names[i];
            assert(all[k] == names[i]);
        } else {
            assert(all[before.len() as int] == names[i]);
        }
    }
}

/// The one model of a package lies below `models/` in a JSON file with its name.
pub proof fn the_model_is_named_by_its_file(files: Map<Seq<char>, Vec<u8>>)
    ensures
        only_model(files) matches Ok(found) ==> {
            let (path, name) = found;
            &&& path == "models/"@ + name + ".json"@
            &&& !name.contains('/')
        },
{
    if only_model(files) is Ok {
        let (path, name) = only_model(files)->Ok_0;
        let names = crate::names::listing_of(files);
        let models = model_paths(names, names.len() as int);
        assert(models[0] == path);
        listed_models_lie_below(names, names.len() as int, 0);
        let below = path.skip("models/"@.len() as int);
        assert(path =~= "models/"@ + below);
        assert(below =~= name + ".json"@);
        assert(path =~= "models/"@ + name + ".json"@);
    }
}

proof fn listed_models_lie_below(names: Seq<Seq<char>>, n: int, k: int)
    requires
        0 <= n <= names.len(),
        0 <= k < model_paths(names, n).len(),
    ensures
        is_model_path(model_paths(names, n)[k]),
    decreases n,
{
    if n > 0 {
        if k < model_paths(names, n - 1).len() {
            listed_models_lie_below(names, n - 1, k);
        }
    }
}

/// The lists of weights and constants of a model are found by its name.
pub proof fn lists_are_found_by_name(name: Seq<char>)
    ensures
        weights_path(name) == "data/weights/"@ + name + "_weights_config.json"@,
        constants_path(name) == "data/constants/"@ + name + "_constants_config.json"@,
{
}

/// The file of a storage lies in the directory of its list, under the name that is told for it, which names
/// no other directory.
pub proof fn storages_are_found_in_their_directory(directory: Seq<char>, payload: JsonView)
    ensures
        storage_path(directory, payload) matches Ok(path) ==> {
            &&& field(payload, "path_name"@) is Text
            &&& path == directory + field(payload, "path_name"@)->Text_0
            &&& !field(payload, "path_name"@)->Text_0.contains('/') && !field(payload, "path_name"@)->Text_0.contains('\\')
            &&& path_refusal(path) is None
        },
{
}

/// State that names a file again shares the storage that was read from it, if it has the same element type;
/// a new file becomes a new storage with its bytes.
pub proof fn files_become_storages_once(s: StatesView, members: super::state::Members, path: Seq<char>, dtype: DType)
    requires
        s.storages.len() < usize::MAX,
    ensures
        s.paths.dom().contains(path) ==> (s.with_storage(members, path, dtype) is Ok <==> s.storages[s.paths[path] as int].dtype == dtype),
        s.paths.dom().contains(path) && s.with_storage(members, path, dtype) is Ok ==> s.with_storage(members, path, dtype)->Ok_0 == s,
        !s.paths.dom().contains(path) ==> (s.with_storage(members, path, dtype) is Ok <==> members.dom().contains(path)),
        !s.paths.dom().contains(path) && members.dom().contains(path) ==> {
            let after = s.with_storage(members, path, dtype)->Ok_0;
            &&& after.storages.len() == s.storages.len() + 1
            &&& after.storages.last().bytes == members[path]@ && after.storages.last().dtype == dtype
            &&& after.paths.dom().contains(path) && after.paths[path] == s.storages.len()
            &&& after.state == s.state
        },
{
}

/// Files are packed under one directory, with their contents and in the order of their names.
pub proof fn files_are_packed_under_one_root(names: Seq<Seq<char>>, files: Map<Seq<char>, Seq<u8>>, i: int)
    requires
        0 <= i < names.len(),
    ensures
        packing_list(names, files).len() == names.len(),
        packing_list(names, files)[i].name == "package/"@ + names[i],
        packing_list(names, files)[i].content == files[names[i]],
        packing_list(names, files)[i].mode == 0o644,
{
}

} // verus!
