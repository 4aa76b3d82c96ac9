//! A package that was written is read back.
use super::super::artifact::{StateView, StorageView};
use super::super::layout::MAX_BYTES;
use super::super::tree::MAX_NODES;
use super::super::types::StateRole;
use super::archive::{archive_outcome, description_refusal, is_bad_part, is_part, path_ok, says_six, tells_six};
use super::pack::{is_packable, packed_files_are_read, packing_list};
use super::save::{directory_of, packaged, raw_members, storage_name};
use super::state_laws::storage_numerals;
use crate::archive::{archive_length, closes, ends_like_locator, is_plain, reads_back};
use crate::error::ErrorView;
use crate::names::{listing_exists, listing_of};
use crate::text::{digits, is_space};
use vstd::prelude::*;
use vstd::utf8::{encode_utf8, is_ascii_chars};

verus! {

/// A character of a path that needs no care.
spec fn is_tame(c: char) -> bool {
    ' ' <= c && c <= '~' && c != '\\' && c != ':'
}

/// A part may begin at `i`: a dot is followed by something that is neither a dot nor the end.
spec fn begins_well(path: Seq<char>, i: int) -> bool {
    i < path.len() && path[i] != '/' && (path[i] == '.' ==> i + 1 < path.len() && path[i + 1] != '/' && path[i + 1] != '.')
}

/// A path of tame characters all of whose parts begin well.
spec fn is_tidy(path: Seq<char>) -> bool {
    &&& forall|i: int| 0 <= i < path.len() ==> is_tame(#[trigger] path[i])
    &&& begins_well(path, 0)
    &&& forall|i: int| 0 <= i < path.len() && #[trigger] path[i] == '/' ==> begins_well(path, i + 1)
}

proof fn tidy_is_accepted(path: Seq<char>)
    requires
        is_tidy(path),
        path.len() <= 2048,
    ensures
        path_ok(path),
{
    assert(is_ascii_chars(path)) by {
        assert forall|i: int| 0 <= i < path.len() implies (#[trigger] path[i] as u32) < 128 by {
            assert(is_tame(path[i]));
        }
    }
    vstd::utf8::is_ascii_chars_encode_utf8(path);
    assert forall|a: int, b: int| #[trigger] is_part(path, a, b) implies !is_bad_part(path, a, b) by {
        if a > 0 {
            assert(path[a - 1] == '/');
        }
        assert(begins_well(path, a));
        if b - a == 1 {
            assert(path[a] == '.' ==> path[a + 1] != '/');
        }
    }
    if path.contains('\\') {
        let i = path.index_of('\\');
        assert(is_tame(path[i]));
    }
    if path.contains(':') {
        let i = path.index_of(':');
        assert(is_tame(path[i]));
    }
}

proof fn below_is_tidy(name: Seq<char>)
    requires
        is_tidy(name),
        name.len() != 8,
        name.len() <= 100,
    ensures
        is_plain("package/"@ + name),
        path_ok("package/"@ + name),
        encode_utf8("package/"@ + name).len() != 16,
{
    reveal_strlit("package/");
    let path = "package/"@ + name;
    assert(path.len() == name.len() + 8);
    assert forall|i: int| 0 <= i < path.len() implies is_tame(#[trigger] path[i]) by {
        if i < 8 {
            assert(path[i] == "package/"@[i]);
        } else {
            assert(path[i] == name[i - 8]);
        }
    }
    assert(path[0] == 'p');
    assert forall|i: int| 0 <= i < path.len() && #[trigger] path[i] == '/' implies begins_well(path, i + 1) by {
        if i < 8 {
            assert(path[i] == "package/"@[i]);
            assert(i == 7);
            assert(begins_well(name, 0));
            assert(path[8] == name[0]);
            if name.len() > 1 {
                assert(path[9] == name[1]);
            }
        } else {
            assert(path[i] == name[i - 8]);
            assert(begins_well(name, i - 7));
            assert(path[i + 1] == name[i - 7]);
            if i - 6 < name.len() {
                assert(path[i + 2] == name[i - 6]);
            }
        }
    }
    assert(is_tidy(path));
    tidy_is_accepted(path);
    assert forall|i: int| 0 <= i < path.len() implies ' ' <= #[trigger] path[i] && (path[i] as u32) < 128 by {
        assert(is_tame(path[i]));
    }
    vstd::utf8::is_ascii_chars_encode_utf8(path);
}

proof fn storage_is_tidy(role: StateRole, storage: usize)
    ensures
        is_tidy(directory_of(role) + storage_name(storage)),
        20 < (directory_of(role) + storage_name(storage)).len() <= 42,
{
    reveal_strlit("data/constants/");
    reveal_strlit("data/weights/");
    reveal_strlit("tensor_");
    storage_numerals(storage);
    let numerals = digits(storage as nat);
    let directory = directory_of(role);
    let d = directory.len() as int;
    let path = directory + storage_name(storage);
    assert(storage_name(storage) =~= "tensor_"@ + numerals);
    assert(d == 13 || d == 15);
    assert forall|i: int| 0 <= i < path.len() implies is_tame(#[trigger] path[i]) && (path[i] == '/' ==> i == 4 || i == d - 1) by {
        if i < d {
            assert(path[i] == directory[i]);
        } else if i < d + 7 {
            assert(path[i] == "tensor_"@[i - d]);
        } else {
            assert(path[i] == numerals[i - d - 7]);
        }
    }
    assert(path[0] == directory[0] && path[5] == directory[5]);
    assert(path[d] == "tensor_"@[0]);
}

/// A member that every package has.
spec fn is_fixed(name: Seq<char>) -> bool {
    ||| name == "models/model.json"@
    ||| name == "data/weights/model_weights_config.json"@
    ||| name == "data/constants/model_constants_config.json"@
    ||| name == "archive_format"@
    ||| name == "archive_version"@
    ||| name == "byteorder"@
    ||| name == ".data/version"@
    ||| name == ".data/serialization_id"@
    ||| name == "data/sample_inputs/model.pt"@
}

proof fn model_is_tidy()
    ensures
        is_tidy("models/model.json"@),
        "models/model.json"@.len() == 17,
{
    reveal_strlit("models/model.json");
}

proof fn weights_are_tidy()
    ensures
        is_tidy("data/weights/model_weights_config.json"@),
        "data/weights/model_weights_config.json"@.len() == 38,
{
    reveal_strlit("data/weights/model_weights_config.json");
}

proof fn constants_are_tidy()
    ensures
        is_tidy("data/constants/model_constants_config.json"@),
        "data/constants/model_constants_config.json"@.len() == 42,
{
    reveal_strlit("data/constants/model_constants_config.json");
}

proof fn format_is_tidy()
    ensures
        is_tidy("archive_format"@),
        "archive_format"@.len() == 14,
{
    reveal_strlit("archive_format");
}

proof fn version_is_tidy()
    ensures
        is_tidy("archive_version"@),
        "archive_version"@.len() == 15,
{
    reveal_strlit("archive_version");
}

proof fn order_is_tidy()
    ensures
        is_tidy("byteorder"@),
        "byteorder"@.len() == 9,
{
    reveal_strlit("byteorder");
}

proof fn serialization_is_tidy()
    ensures
        is_tidy(".data/version"@),
        ".data/version"@.len() == 13,
{
    reveal_strlit(".data/version");
}

proof fn identifier_is_tidy()
    ensures
        is_tidy(".data/serialization_id"@),
        ".data/serialization_id"@.len() == 22,
{
    reveal_strlit(".data/serialization_id");
}

proof fn sample_is_tidy()
    ensures
        is_tidy("data/sample_inputs/model.pt"@),
        "data/sample_inputs/model.pt"@.len() == 27,
{
    reveal_strlit("data/sample_inputs/model.pt");
}

proof fn fixed_is_tidy(name: Seq<char>)
    requires
        is_fixed(name),
    ensures
        is_tidy(name),
        8 < name.len() <= 42,
{
    model_is_tidy();
    weights_are_tidy();
    constants_are_tidy();
    format_is_tidy();
    version_is_tidy();
    order_is_tidy();
    serialization_is_tidy();
    identifier_is_tidy();
    sample_is_tidy();
}

proof fn storage_members(storages: Seq<StorageView>, state: Seq<StateView>, n: int)
    requires
        0 <= n <= state.len(),
    ensures
        raw_members(storages, state, n).dom().finite(),
        forall|name: Seq<char>| #[trigger]
            raw_members(storages, state, n).dom().contains(name) ==> is_tidy(name) && 8 < name.len() <= 42,
    decreases n,
{
    if n > 0 {
        storage_members(storages, state, n - 1);
        storage_is_tidy(state[n - 1].role, state[n - 1].storage);
    }
}

proof fn version_tells_six()
    ensures
        tells_six(seq![0x36u8, 0x0au8]),
{
    let text = seq!['6', '\n'];
    let bytes = seq![0x36u8, 0x0au8];
    assert(is_ascii_chars(text));
    vstd::utf8::is_ascii_chars_encode_utf8(text);
    assert(encode_utf8(text) =~= bytes) by {
        assert(text[0] as u8 == 0x36u8 && text[1] as u8 == 0x0au8);
    }
    vstd::utf8::encode_utf8_valid_utf8(text);
    vstd::utf8::encode_utf8_decode_utf8(text);
    assert(text[0] == '6');
    assert(is_space(text[1]));
    assert(says_six(text));
}

/// The members of a package have plain paths, and those that describe it are in order.
pub proof fn package_is_described(
    storages: Seq<StorageView>,
    state: Seq<StateView>,
    model: Seq<u8>,
    weights: Seq<u8>,
    constants: Seq<u8>,
)
    ensures
        ({
            let files = packaged(raw_members(storages, state, state.len() as int), model, weights, constants);
            &&& description_refusal(files) is None
            &&& files.dom().finite()
            &&& forall|name: Seq<char>| #[trigger]
                files.dom().contains(name) ==> is_plain("package/"@ + name) && path_ok("package/"@ + name) && encode_utf8(
                "package/"@ + name,
            ).len() != 16
        }),
{
    let raw = raw_members(storages, state, state.len() as int);
    let files = packaged(raw, model, weights, constants);
    storage_members(storages, state, state.len() as int);
    version_tells_six();
    model_is_tidy();
    weights_are_tidy();
    constants_are_tidy();
    format_is_tidy();
    version_is_tidy();
    order_is_tidy();
    serialization_is_tidy();
    identifier_is_tidy();
    sample_is_tidy();
    assert forall|name: Seq<char>| #[trigger] files.dom().contains(name) implies is_plain("package/"@ + name) && path_ok(
        "package/"@ + name,
    ) && encode_utf8("package/"@ + name).len() != 16 by {
        if is_fixed(name) {
            fixed_is_tidy(name);
        } else {
            assert(raw.dom().contains(name));
        }
        below_is_tidy(name);
    }
}

/// A package that was packed gives the same members back when it is read.
pub proof fn written_package_is_read(
    bytes: Seq<u8>,
    storages: Seq<StorageView>,
    state: Seq<StateView>,
    model: Seq<u8>,
    weights: Seq<u8>,
    constants: Seq<u8>,
)
    requires
        ({
            let files = packaged(raw_members(storages, state, state.len() as int), model, weights, constants);
            let list = packing_list(listing_of(files), files);
            &&& listing_of(files).len() <= MAX_NODES
            &&& bytes.len() == archive_length(list)
            &&& bytes.len() <= MAX_BYTES
            &&& closes(bytes, list)
            &&& reads_back(bytes, list)
        }),
    ensures
        archive_outcome(bytes) == Ok::<Map<Seq<char>, Seq<u8>>, ErrorView>(
            packaged(raw_members(storages, state, state.len() as int), model, weights, constants),
        ),
{
    let files = packaged(raw_members(storages, state, state.len() as int), model, weights, constants);
    let names = listing_of(files);
    let list = packing_list(names, files);
    package_is_described(storages, state, model, weights, constants);
    listing_exists(files.dom());
    assert(names.contains("byteorder"@)) by {
        assert(files.dom().contains("byteorder"@));
    }
    assert forall|i: int| 0 <= i < list.len() implies is_plain((#[trigger] list[i]).name) && path_ok(list[i].name) by {
        assert(names.contains(names[i]));
        assert(files.dom().contains(names[i]));
    }
    assert(!ends_like_locator(list)) by {
        let last = names[names.len() - 1];
        assert(names.contains(last));
        assert(files.dom().contains(last));
    }
    assert(is_packable(files));
    packed_files_are_read(bytes, files);
}

} // verus!
