//! State that was written is read back.
use super::super::artifact::{ArtifactView, StateView, StorageView};
use super::super::types::{StateRole, ValueSpecView};
use super::archive::{is_bad_part, is_part, path_ok};
use super::json::JsonView;
use super::load::{body_of, header_refusal, BodyView};
use super::round_trip::{
    are_named_apart, found, holds_state, is_state, metadata_survives, only, read_back, root_of, size_list_survives,
    written_program_is_read, Written,
};
use super::save::{config_map, config_of, directory_of, payload_of, raw_members, state_meta, storage_name, storages_exist};
use super::state::{described, role_of, storage_path, Members, StateStep, StatesView};
use super::write::{int_unions, object_of_map};
use crate::error::ErrorView;
use crate::names::{ascending_is_distinct, listing_exists, listing_of};
use crate::text::{decimal, digit, digits, digits_are_distinct};
use vstd::prelude::*;
use vstd::utf8::is_ascii_chars;

verus! {

spec fn ten(n: nat) -> nat
    decreases n,
{
    if n == 0 {
        1
    } else {
        10 * ten((n - 1) as nat)
    }
}

/// The numerals of a number are digits, as many as its size asks for.
proof fn numerals(value: nat, n: nat)
    requires
        n > 0,
        value < ten(n),
    ensures
        0 < digits(value).len() <= n,
        forall|i: int| 0 <= i < digits(value).len() ==> '0' <= #[trigger] digits(value)[i] && digits(value)[i] <= '9',
    decreases n,
{
    if value >= 10 {
        if n == 1 {
            reveal_with_fuel(ten, 2);
            assert(ten(1) == 10);
        }
        numerals(value / 10, (n - 1) as nat);
        let rest = digits(value / 10);
        assert forall|i: int| 0 <= i < digits(value).len() implies '0' <= #[trigger] digits(value)[i] && digits(value)[i]
            <= '9' by {
            if i < rest.len() {
                assert(digits(value)[i] == rest[i]);
            } else {
                assert(digits(value)[i] == digit(value % 10));
            }
        }
    }
}

pub(crate) proof fn storage_numerals(storage: usize)
    ensures
        0 < digits(storage as nat).len() <= 20,
        forall|i: int|
            0 <= i < digits(storage as nat).len() ==> '0' <= #[trigger] digits(storage as nat)[i] && digits(storage as nat)[i]
                <= '9',
{
    reveal_with_fuel(ten, 21);
    assert(ten(20) == 100000000000000000000);
    numerals(storage as nat, 20);
}

/// The path of a storage is a plain path, and its last part has no separator.
proof fn storage_path_is_plain(role: StateRole, storage: usize)
    ensures
        path_ok(directory_of(role) + storage_name(storage)),
        !storage_name(storage).contains('/'),
        !storage_name(storage).contains('\\'),
{
    reveal_strlit("data/constants/");
    reveal_strlit("data/weights/");
    reveal_strlit("tensor_");
    storage_numerals(storage);
    let leaf = storage_name(storage);
    let numerals = digits(storage as nat);
    assert(leaf =~= "tensor_"@ + numerals);
    assert forall|i: int| 0 <= i < leaf.len() implies #[trigger] leaf[i] != '/' && leaf[i] != '\\' && leaf[i] != ':' && (
    leaf[i] as u32) < 128 by {
        if i >= 7 {
            assert(leaf[i] == numerals[i - 7]);
        } else {
            assert(leaf[i] == "tensor_"@[i]);
        }
    }
    let directory = directory_of(role);
    let path = directory + leaf;
    let d = directory.len() as int;
    assert(d == 13 || d == 15);
    assert forall|i: int| 0 <= i < path.len() implies (#[trigger] path[i] == '/' <==> i == 4 || i == d - 1) && path[i] != '\\'
        && path[i] != ':' && (path[i] as u32) < 128 by {
        if i < d {
            assert(path[i] == directory[i]);
        } else {
            assert(path[i] == leaf[i - d]);
        }
    }
    assert(is_ascii_chars(path));
    vstd::utf8::is_ascii_chars_encode_utf8(path);
    assert forall|a: int, b: int| #[trigger] is_part(path, a, b) implies !is_bad_part(path, a, b) by {
        assert(a == 0 || path[a - 1] == '/');
        assert(a == 0 || a == 5 || a == d);
        if b < path.len() {
            assert(path[b] == '/');
        }
        assert(b - a > 2);
    }
}

/// The path of the storage of a state tensor.
pub open spec fn path_of(state: StateView) -> Seq<char> {
    directory_of(state.role) + storage_name(state.storage)
}

/// Members hold the storages of an artifact.
pub open spec fn holds_members(members: Members, artifact: ArtifactView) -> bool {
    let raw = raw_members(artifact.storages, artifact.state, artifact.state.len() as int);
    forall|path: Seq<char>| #[trigger] raw.dom().contains(path) ==> members.dom().contains(path) && members[path]@ == raw[path]
}

/// Storages with the same path are the same.
proof fn paths_differ(a: StateView, b: StateView)
    requires
        path_of(a) == path_of(b),
    ensures
        a.storage == b.storage,
{
    reveal_strlit("data/constants/");
    reveal_strlit("data/weights/");
    let x = path_of(a);
    let y = path_of(b);
    assert(x[5] == directory_of(a.role)[5]);
    assert(y[5] == directory_of(b.role)[5]);
    assert("data/constants/"@[5] == 'c' && "data/weights/"@[5] == 'w');
    let skip = directory_of(a.role).len() + "tensor_"@.len();
    assert(x.skip(skip as int) =~= decimal(a.storage as int));
    assert(y.skip(skip as int) =~= decimal(b.storage as int));
    digits_are_distinct(a.storage as nat, b.storage as nat);
}

proof fn raw_members_hold(storages: Seq<StorageView>, state: Seq<StateView>, n: int)
    requires
        0 <= n <= state.len(),
    ensures
        forall|i: int|
            0 <= i < n ==> raw_members(storages, state, n).dom().contains(path_of(#[trigger] state[i])) && raw_members(
                storages,
                state,
                n,
            )[path_of(state[i])] == storages[state[i].storage as int].bytes,
    decreases n,
{
    if n > 0 {
        raw_members_hold(storages, state, n - 1);
        assert forall|i: int| 0 <= i < n implies raw_members(storages, state, n).dom().contains(path_of(#[trigger] state[i]))
            && raw_members(storages, state, n)[path_of(state[i])] == storages[state[i].storage as int].bytes by {
            if i < n - 1 && path_of(state[i]) == path_of(state[n - 1]) {
                paths_differ(state[i], state[n - 1]);
            }
        }
    }
}

/// A tensor that was read is a tensor of an artifact: its name, role and layout are the same,
/// and so is the content of its storage.
pub open spec fn is_same(states: StatesView, k: int, artifact: ArtifactView, i: int) -> bool {
    let read = states.state[k];
    let state = artifact.state[i];
    &&& 0 <= k < states.state.len()
    &&& 0 <= i < artifact.state.len()
    &&& read == StateView { storage: read.storage, ..state }
    &&& read.storage < states.storages.len()
    &&& states.storages[read.storage as int] == artifact.storages[state.storage as int]
}

/// What has been read belongs to an artifact.
spec fn belongs(states: StatesView, artifact: ArtifactView) -> bool {
    &&& states.storages.len() <= states.state.len()
    &&& states.names.dom().finite()
    &&& states.state.len() == states.names.dom().len()
    &&& forall|name: Seq<char>| #[trigger]
        states.names.dom().contains(name) ==> states.names[name] < states.state.len() && states.state[states.names[name] as int].name
            == name
    &&& forall|k: int| 0 <= k < states.state.len() ==> states.names.dom().contains((#[trigger] states.state[k]).name)
    &&& forall|k: int| 0 <= k < states.state.len() ==> is_from(states, #[trigger] states.state[k], artifact)
    &&& forall|path: Seq<char>| #[trigger]
        states.paths.dom().contains(path) ==> states.paths[path] < states.storages.len() && is_stored(
            artifact,
            path,
            states.storages[states.paths[path] as int],
        )
}

/// A tensor that was read is one of an artifact.
spec fn is_from(states: StatesView, read: StateView, artifact: ArtifactView) -> bool {
    exists|i: int|
        0 <= i < artifact.state.len() && read == (StateView { storage: read.storage, ..(#[trigger] artifact.state[i]) })
            && read.storage < states.storages.len() && states.storages[read.storage as int]
            == artifact.storages[artifact.state[i].storage as int]
}

/// A storage is the one that an artifact has at a path.
spec fn is_stored(artifact: ArtifactView, path: Seq<char>, storage: StorageView) -> bool {
    exists|i: int|
        0 <= i < artifact.state.len() && path_of(#[trigger] artifact.state[i]) == path && storage
            == artifact.storages[artifact.state[i].storage as int]
}

/// An entry that was written is read back.
proof fn entry_is_read(states: StatesView, members: Members, artifact: ArtifactView, i: int)
    requires
        belongs(states, artifact),
        holds_members(members, artifact),
        storages_exist(artifact),
        0 <= i < artifact.state.len(),
        !states.names.dom().contains(artifact.state[i].name),
        states.state.len() < usize::MAX,
    ensures
        ({
            let state = artifact.state[i];
            let step = states.with_entry(
                members,
                directory_of(state.role),
                state.role is Constant,
                state.name,
                payload_of(artifact.storages, state),
            );
            &&& step is Ok
            &&& belongs(step->Ok_0, artifact)
            &&& step->Ok_0.names.dom() == states.names.dom().insert(state.name)
        }),
{
    let state = artifact.state[i];
    let storage = artifact.storages[state.storage as int];
    let directory = directory_of(state.role);
    let payload = payload_of(artifact.storages, state);
    let meta = state_meta(artifact.storages, state, state.offset);
    reveal_strlit("is_param");
    reveal_strlit("path_name");
    reveal_strlit("tensor_meta");
    reveal_strlit("use_pickle");
    assert("is_param"@.len() == 8 && "path_name"@.len() == 9 && "tensor_meta"@.len() == 11 && "use_pickle"@.len() == 10);
    let keys = seq!["is_param"@, "path_name"@, "tensor_meta"@, "use_pickle"@];
    let values = seq![
        JsonView::Bool(state.role is Parameter),
        JsonView::Text(storage_name(state.storage)),
        meta,
        JsonView::Bool(false),
    ];
    found(keys, values, 0, 0);
    found(keys, values, 1, 0);
    found(keys, values, 2, 0);
    found(keys, values, 3, 0);
    metadata_survives(storage.dtype, int_unions(state.shape), state.requires_grad, state.strides, state.offset);
    size_list_survives(state.shape);
    storage_path_is_plain(state.role, state.storage);
    let path = path_of(state);
    assert(storage_path(directory, payload) == Ok::<Seq<char>, ErrorView>(path));
    raw_members_hold(artifact.storages, artifact.state, artifact.state.len() as int);
    assert(members.dom().contains(path) && members[path]@ == storage.bytes);
    if states.paths.dom().contains(path) {
        let j = choose|j: int|
            0 <= j < artifact.state.len() && path_of(#[trigger] artifact.state[j]) == path
                && states.storages[states.paths[path] as int] == artifact.storages[artifact.state[j].storage as int];
        paths_differ(artifact.state[j], state);
    }
    let step = states.with_storage(members, path, storage.dtype);
    assert(step is Ok);
    let next = step->Ok_0;
    let at = next.paths[path];
    assert(at < next.storages.len());
    assert(next.storages[at as int] == storage);
    assert(role_of(state.role is Constant, payload) == Ok::<StateRole, ErrorView>(state.role));
    let view = StateView { storage: at, ..state };
    assert(described(state.name, state.role, at, meta) == Ok::<StateView, ErrorView>(view));
    let last = next.with_view(state.name, state.role, at, meta)->Ok_0;
    assert(last.state == states.state.push(view));
    assert forall|path: Seq<char>| #[trigger] last.paths.dom().contains(path) implies last.paths[path] < last.storages.len()
        && is_stored(artifact, path, last.storages[last.paths[path] as int]) by {
        if states.paths.dom().contains(path) {
            assert(last.storages[states.paths[path] as int] == states.storages[states.paths[path] as int]);
        } else {
            assert(path == path_of(artifact.state[i]));
        }
    }
    assert forall|k: int| 0 <= k < last.state.len() implies is_from(last, #[trigger] last.state[k], artifact) by {
        if k < states.state.len() {
            let read = states.state[k];
            assert(is_from(states, read, artifact));
            let j = choose|j: int|
                0 <= j < artifact.state.len() && read == (StateView { storage: read.storage, ..(#[trigger] artifact.state[j]) })
                    && read.storage < states.storages.len() && states.storages[read.storage as int]
                    == artifact.storages[artifact.state[j].storage as int];
            assert(last.storages[read.storage as int] == states.storages[read.storage as int]);
            assert(read == (StateView { storage: read.storage, ..artifact.state[j] }));
        } else {
            assert(last.state[k] == view);
            assert(view == (StateView { storage: view.storage, ..artifact.state[i] }));
        }
    }
}

/// The entries of a written configuration.
proof fn config_holds(storages: Seq<StorageView>, state: Seq<StateView>, constant: bool, n: int)
    requires
        0 <= n <= state.len(),
        are_named_apart(state),
    ensures
        config_map(storages, state, constant, n).dom().finite(),
        forall|i: int|
            0 <= i < n && ((#[trigger] state[i]).role is Constant) == constant ==> config_map(
                storages,
                state,
                constant,
                n,
            ).dom().contains(state[i].name),
        forall|name: Seq<char>| #[trigger]
            config_map(storages, state, constant, n).dom().contains(name) ==> is_payload(
                storages,
                state,
                constant,
                name,
                config_map(storages, state, constant, n)[name],
            ),
    decreases n,
{
    if n > 0 {
        config_holds(storages, state, constant, n - 1);
        let before = config_map(storages, state, constant, n - 1);
        let after = config_map(storages, state, constant, n);
        assert forall|name: Seq<char>| #[trigger] after.dom().contains(name) implies is_payload(
            storages,
            state,
            constant,
            name,
            after[name],
        ) by {
            if (state[n - 1].role is Constant) == constant && name == state[n - 1].name {
            } else {
                assert(before.dom().contains(name));
            }
        }
    }
}

/// A payload describes the state tensor of that name.
spec fn is_payload(storages: Seq<StorageView>, state: Seq<StateView>, constant: bool, name: Seq<char>, payload: JsonView) -> bool {
    exists|i: int|
        0 <= i < state.len() && (#[trigger] state[i]).name == name && (state[i].role is Constant) == constant && payload
            == payload_of(storages, state[i])
}

/// The directory of a configuration.
pub open spec fn config_directory(constant: bool) -> Seq<char> {
    if constant {
        "data/constants/"@
    } else {
        "data/weights/"@
    }
}

proof fn entries_are_read(
    states: StatesView,
    members: Members,
    artifact: ArtifactView,
    constant: bool,
    entries: Seq<(Seq<char>, JsonView)>,
    n: int,
)
    requires
        belongs(states, artifact),
        holds_members(members, artifact),
        storages_exist(artifact),
        0 <= n <= entries.len(),
        states.state.len() + entries.len() <= usize::MAX,
        forall|k: int|
            0 <= k < entries.len() ==> is_payload(
                artifact.storages,
                artifact.state,
                constant,
                (#[trigger] entries[k]).0,
                entries[k].1,
            ),
        forall|k: int| 0 <= k < entries.len() ==> !states.names.dom().contains((#[trigger] entries[k]).0),
        forall|j: int, k: int| 0 <= j < k < entries.len() ==> (#[trigger] entries[j]).0 != (#[trigger] entries[k]).0,
    ensures
        ({
            let step = states.with_entries(members, config_directory(constant), constant, entries, n);
            &&& step is Ok
            &&& belongs(step->Ok_0, artifact)
            &&& step->Ok_0.state.len() == states.state.len() + n
            &&& forall|name: Seq<char>| #[trigger]
                step->Ok_0.names.dom().contains(name) <==> states.names.dom().contains(name) || (exists|k: int|
                    0 <= k < n && (#[trigger] entries[k]).0 == name)
        }),
    decreases n,
{
    if n > 0 {
        entries_are_read(states, members, artifact, constant, entries, n - 1);
        let before = states.with_entries(members, config_directory(constant), constant, entries, n - 1)->Ok_0;
        let (name, payload) = entries[n - 1];
        assert(is_payload(artifact.storages, artifact.state, constant, entries[n - 1].0, entries[n - 1].1));
        let i = choose|i: int|
            0 <= i < artifact.state.len() && (#[trigger] artifact.state[i]).name == name && (artifact.state[i].role is Constant)
                == constant && payload == payload_of(artifact.storages, artifact.state[i]);
        assert(!before.names.dom().contains(name));
        entry_is_read(before, members, artifact, i);
        let after = states.with_entries(members, config_directory(constant), constant, entries, n)->Ok_0;
        assert(after.names.dom() == before.names.dom().insert(name));
        assert forall|other: Seq<char>| #[trigger] after.names.dom().contains(other) <==> states.names.dom().contains(other)
            || (exists|k: int| 0 <= k < n && (#[trigger] entries[k]).0 == other) by {
            if other == name {
                assert(entries[n - 1].0 == other);
            } else {
                assert(before.names.dom().contains(other) <==> after.names.dom().contains(other));
                if exists|k: int| 0 <= k < n && (#[trigger] entries[k]).0 == other {
                    let k = choose|k: int| 0 <= k < n && (#[trigger] entries[k]).0 == other;
                    assert(0 <= k < n - 1 && entries[k].0 == other);
                }
            }
        }
    }
}

proof fn config_is_read(states: StatesView, members: Members, artifact: ArtifactView, constant: bool)
    requires
        belongs(states, artifact),
        holds_members(members, artifact),
        storages_exist(artifact),
        are_named_apart(artifact.state),
        states.state.len() + artifact.state.len() <= usize::MAX,
        forall|i: int|
            0 <= i < artifact.state.len() && ((#[trigger] artifact.state[i]).role is Constant) == constant
                ==> !states.names.dom().contains(artifact.state[i].name),
    ensures
        ({
            let step = states.with_config(members, config_directory(constant), constant, config_of(artifact, constant));
            &&& step is Ok
            &&& belongs(step->Ok_0, artifact)
            &&& step->Ok_0.state.len() <= states.state.len() + artifact.state.len()
            &&& forall|name: Seq<char>| #[trigger]
                step->Ok_0.names.dom().contains(name) <==> states.names.dom().contains(name) || (exists|i: int|
                    0 <= i < artifact.state.len() && (#[trigger] artifact.state[i]).name == name && (artifact.state[i].role is Constant)
                        == constant)
        }),
{
    let n = artifact.state.len() as int;
    let map = config_map(artifact.storages, artifact.state, constant, n);
    config_holds(artifact.storages, artifact.state, constant, n);
    only("config"@, object_of_map(map));
    listing_exists(map.dom());
    let keys = listing_of(map);
    ascending_is_distinct(keys);
    let entries = object_of_map(map)->Object_0;
    assert(entries.len() == keys.len());
    assert forall|k: int| 0 <= k < entries.len() implies (#[trigger] entries[k]) == (keys[k], map[keys[k]]) && map.dom().contains(
        keys[k],
    ) by {
        assert(keys.contains(keys[k]));
    }
    assert(keys.len() <= n) by {
        config_is_small(artifact.storages, artifact.state, constant, n);
        keys.unique_seq_to_set();
        assert(keys.to_set() =~= map.dom());
    }
    entries_are_read(states, members, artifact, constant, entries, entries.len() as int);
    let after = states.with_config(members, config_directory(constant), constant, config_of(artifact, constant))->Ok_0;
    assert forall|name: Seq<char>| #[trigger] after.names.dom().contains(name) <==> states.names.dom().contains(name) || (
    exists|i: int|
        0 <= i < artifact.state.len() && (#[trigger] artifact.state[i]).name == name && (artifact.state[i].role is Constant)
            == constant) by {
        if map.dom().contains(name) {
            assert(keys.contains(name));
            let k = keys.index_of(name);
            assert(entries[k].0 == name);
        }
        if exists|k: int| 0 <= k < entries.len() && (#[trigger] entries[k]).0 == name {
            let k = choose|k: int| 0 <= k < entries.len() && (#[trigger] entries[k]).0 == name;
            assert(map.dom().contains(name));
            assert(is_payload(artifact.storages, artifact.state, constant, name, map[name]));
        }
    }
}

proof fn config_is_small(storages: Seq<StorageView>, state: Seq<StateView>, constant: bool, n: int)
    requires
        0 <= n <= state.len(),
    ensures
        config_map(storages, state, constant, n).dom().finite(),
        config_map(storages, state, constant, n).dom().len() <= n,
    decreases n,
{
    if n > 0 {
        config_is_small(storages, state, constant, n - 1);
        let before = config_map(storages, state, constant, n - 1);
        if (state[n - 1].role is Constant) == constant {
            assert(config_map(storages, state, constant, n).dom() =~= before.dom().insert(state[n - 1].name));
        }
    }
}

/// The state of an artifact as it is read: the weights, then the constants.
pub open spec fn state_read(artifact: ArtifactView, members: Members) -> StateStep {
    match StatesView::start().with_config(members, "data/weights/"@, false, config_of(artifact, false)) {
        Err(e) => Err(e),
        Ok(weights) => weights.with_config(members, "data/constants/"@, true, config_of(artifact, true)),
    }
}

/// State that was written is read back: every tensor is there once, under its name, with its
/// role, its layout and the content of its storage, and there is no other.
pub proof fn written_state_is_read(artifact: ArtifactView, members: Members)
    requires
        holds_members(members, artifact),
        storages_exist(artifact),
        are_named_apart(artifact.state),
        2 * artifact.state.len() <= usize::MAX,
    ensures
        state_read(artifact, members) is Ok,
        holds_state(state_read(artifact, members)->Ok_0, artifact),
        forall|i: int|
            0 <= i < artifact.state.len() ==> {
                let states = state_read(artifact, members)->Ok_0;
                &&& states.names.dom().contains((#[trigger] artifact.state[i]).name)
                &&& is_same(states, states.names[artifact.state[i].name] as int, artifact, i)
            },
{
    let start = StatesView::start();
    config_is_read(start, members, artifact, false);
    let weights = start.with_config(members, "data/weights/"@, false, config_of(artifact, false))->Ok_0;
    assert forall|i: int| 0 <= i < artifact.state.len() && (#[trigger] artifact.state[i]).role is Constant
        implies !weights.names.dom().contains(artifact.state[i].name) by {
        if weights.names.dom().contains(artifact.state[i].name) {
            let j = choose|j: int|
                0 <= j < artifact.state.len() && (#[trigger] artifact.state[j]).name == artifact.state[i].name && (
                artifact.state[j].role is Constant) == false;
            assert(i != j);
        }
    }
    config_is_read(weights, members, artifact, true);
    let states = state_read(artifact, members)->Ok_0;
    assert forall|i: int| 0 <= i < artifact.state.len() implies states.names.dom().contains((#[trigger] artifact.state[i]).name)
        && is_same(states, states.names[artifact.state[i].name] as int, artifact, i) by {
        let name = artifact.state[i].name;
        if artifact.state[i].role is Constant {
            assert((artifact.state[i].role is Constant) == true);
        } else {
            assert((artifact.state[i].role is Constant) == false);
            assert(weights.names.dom().contains(name));
        }
        assert(states.names.dom().contains(name));
        let k = states.names[name] as int;
        assert(is_from(states, states.state[k], artifact));
        let read = states.state[k];
        let j = choose|j: int|
            0 <= j < artifact.state.len() && read == (StateView { storage: read.storage, ..(#[trigger] artifact.state[j]) })
                && read.storage < states.storages.len() && states.storages[read.storage as int]
                == artifact.storages[artifact.state[j].storage as int];
        assert(artifact.state[j].name == name);
        assert(i == j);
    }
    assert forall|k: int| 0 <= k < states.state.len() implies is_state(artifact.state, (#[trigger] states.state[k]).name) by {
        assert(is_from(states, states.state[k], artifact));
    }
}

/// A model that was written is read back: from its description and its configurations come its
/// inputs, under new names for their symbols, its operations, its outputs and its state.
pub proof fn written_model_is_read(written: Written, members: Members)
    requires
        written.is_written(),
        holds_members(members, written.artifact),
        storages_exist(written.artifact),
        2 * written.artifact.state.len() <= usize::MAX,
    ensures
        header_refusal(written.ep()) is None,
        state_read(written.artifact, members) is Ok,
        body_of(written.ep(), state_read(written.artifact, members)->Ok_0) == Ok::<BodyView, ErrorView>(
            BodyView {
                inputs: written.artifact.program.inputs.map_values(
                    |input: ValueSpecView| read_back(input, written.samples, written.symbols.names),
                ),
                operations: written.artifact.program.operations,
                outputs: written.outputs,
                call: root_of(written.in_spec, written.out_spec),
            },
        ),
{
    written_state_is_read(written.artifact, members);
    written_program_is_read(written, state_read(written.artifact, members)->Ok_0);
}

} // verus!
