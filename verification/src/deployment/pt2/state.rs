//! The state of a model and the storages that hold it.
use super::super::artifact::{copy_bytes, states_view, storages_view, State, StateView, Storage, StorageView};
use super::super::types::{DType, StateRole};
use super::archive::{entry_path, path_refusal, Files};
use super::json::{
    as_boolean, as_dtype, as_fixed, as_fixed_list, as_object, as_string, boolean, dtype, entries_view, field, fixed, fixed_list, get,
    object, present, read_plain, string, Json, JsonView,
};
use super::values::{layout_refusal, meta_layout};
use crate::error::{deployment_error, deployment_text, outcome, ErrorView, Result};
use crate::names::NameMap;
use crate::text::{has_char, join, join3};
use vstd::prelude::*;

verus! {

/// The members of an archive by their paths.
pub type Members = Map<Seq<char>, Vec<u8>>;

/// The state that has been read so far.
pub struct StatesView {
    pub storages: Seq<StorageView>,
    pub state: Seq<StateView>,
    /// The storage of each path that holds one.
    pub paths: Map<Seq<char>, usize>,
    /// The place of each name.
    pub names: Map<Seq<char>, usize>,
}

/// The state after a step, or why the step is refused.
pub type StateStep = core::result::Result<StatesView, ErrorView>;

/// The path of the storage of an entry.
pub open spec fn storage_path(directory: Seq<char>, payload: JsonView) -> core::result::Result<Seq<char>, ErrorView> {
    match as_string(field(payload, "path_name"@)) {
        Err(e) => Err(e),
        Ok(leaf) => if leaf.contains('/') || leaf.contains('\\') {
            Err(deployment_text("invalid PT2 state path"@))
        } else if path_refusal(directory + leaf) is Some {
            Err(path_refusal(directory + leaf)->0)
        } else {
            Ok(directory + leaf)
        },
    }
}

/// The role of an entry.
pub open spec fn role_of(constant: bool, payload: JsonView) -> core::result::Result<StateRole, ErrorView> {
    if constant {
        Ok(StateRole::Constant)
    } else {
        match as_boolean(field(payload, "is_param"@)) {
            Err(e) => Err(e),
            Ok(parameter) => Ok(
                if parameter {
                    StateRole::Parameter
                } else {
                    StateRole::Buffer
                },
            ),
        }
    }
}

/// A view of a storage as tensor metadata describes it.
pub open spec fn described(
    name: Seq<char>,
    role: StateRole,
    storage: usize,
    meta: JsonView,
) -> core::result::Result<StateView, ErrorView> {
    match as_fixed_list(field(meta, "sizes"@)) {
        Err(e) => Err(e),
        Ok(shape) => match as_fixed_list(field(meta, "strides"@)) {
            Err(e) => Err(e),
            Ok(strides) => match as_fixed(field(meta, "storage_offset"@)) {
                Err(e) => Err(e),
                Ok(offset) => match as_boolean(field(meta, "requires_grad"@)) {
                    Err(e) => Err(e),
                    Ok(requires_grad) => Ok(StateView { name, role, storage, shape, strides, offset, requires_grad }),
                },
            },
        },
    }
}

impl StatesView {
    /// No state.
    pub open spec fn start() -> StatesView {
        StatesView { storages: Seq::empty(), state: Seq::empty(), paths: Map::empty(), names: Map::empty() }
    }

    /// With the storage at a path, which is read once.
    pub open spec fn with_storage(self, members: Members, path: Seq<char>, dtype: DType) -> StateStep {
        if self.paths.dom().contains(path) {
            if self.storages[self.paths[path] as int].dtype != dtype {
                Err(deployment_text("shared PT2 storage has conflicting dtypes"@))
            } else {
                Ok(self)
            }
        } else if !members.dom().contains(path) {
            Err(deployment_text("missing raw PT2 state"@))
        } else {
            Ok(
                StatesView {
                    storages: self.storages.push(StorageView { dtype, bytes: members[path]@ }),
                    paths: self.paths.insert(path, self.storages.len() as usize),
                    ..self
                },
            )
        }
    }

    /// With a named view.
    pub open spec fn with_view(self, name: Seq<char>, role: StateRole, storage: usize, meta: JsonView) -> StateStep {
        match described(name, role, storage, meta) {
            Err(e) => Err(e),
            Ok(view) => if self.names.dom().contains(name) {
                Err(deployment_text("duplicate PT2 state name"@))
            } else {
                Ok(
                    StatesView {
                        state: self.state.push(view),
                        names: self.names.insert(name, self.state.len() as usize),
                        ..self
                    },
                )
            },
        }
    }

    /// With an entry of a configuration.
    pub open spec fn with_entry(
        self,
        members: Members,
        directory: Seq<char>,
        constant: bool,
        name: Seq<char>,
        payload: JsonView,
    ) -> StateStep {
        let meta = field(payload, "tensor_meta"@);
        match as_boolean(field(payload, "use_pickle"@)) {
            Err(e) => Err(e),
            Ok(pickled) => if pickled {
                Err(deployment_text("pickled state "@ + name + " is unsupported"@))
            } else if layout_refusal(meta) is Some {
                Err(layout_refusal(meta)->0)
            } else {
                match as_dtype(field(meta, "dtype"@)) {
                    Err(e) => Err(e),
                    Ok(dtype) => match storage_path(directory, payload) {
                        Err(e) => Err(e),
                        Ok(path) => match self.with_storage(members, path, dtype) {
                            Err(e) => Err(e),
                            Ok(next) => match role_of(constant, payload) {
                                Err(e) => Err(e),
                                Ok(role) => next.with_view(name, role, next.paths[path], meta),
                            },
                        },
                    },
                }
            },
        }
    }

    /// With the first `n` entries of a configuration.
    pub open spec fn with_entries(
        self,
        members: Members,
        directory: Seq<char>,
        constant: bool,
        entries: Seq<(Seq<char>, JsonView)>,
        n: int,
    ) -> StateStep
        decreases n,
    {
        if n <= 0 {
            Ok(self)
        } else {
            match self.with_entries(members, directory, constant, entries, n - 1) {
                Err(e) => Err(e),
                Ok(next) => next.with_entry(members, directory, constant, entries[n - 1].0, entries[n - 1].1),
            }
        }
    }

    /// With a whole configuration.
    pub open spec fn with_config(self, members: Members, directory: Seq<char>, constant: bool, config: JsonView) -> StateStep {
        match as_object(field(config, "config"@)) {
            Err(e) => Err(e),
            Ok(entries) => self.with_entries(members, directory, constant, entries, entries.len() as int),
        }
    }
}

/// The state that has been read so far.
pub struct States {
    pub(crate) storages: Vec<Storage>,
    pub(crate) state: Vec<State>,
    pub(crate) paths: NameMap<usize>,
    pub(crate) names: NameMap<usize>,
}

impl View for States {
    type V = StatesView;

    closed spec fn view(&self) -> StatesView {
        StatesView {
            storages: storages_view(self.storages@),
            state: states_view(self.state@),
            paths: self.paths@,
            names: self.names@,
        }
    }
}

/// What became of the state.
pub open spec fn advanced(r: Result<()>, after: StatesView) -> StateStep {
    match r {
        Ok(_) => Ok(after),
        Err(e) => Err(e@),
    }
}

fn read_path(directory: &str, payload: Option<&Json>) -> (r: Result<String>)
    ensures
        outcome(r) == storage_path(directory@, present(payload)),
{
    match string(get(payload, "path_name")) {
        Err(e) => Err(e),
        Ok(leaf) => {
            if has_char(leaf, '/') || has_char(leaf, '\\') {
                return Err(deployment_error("invalid PT2 state path"));
            }
            let path = join(directory, leaf);
            match entry_path(path.as_str()) {
                Ok(()) => Ok(path),
                Err(e) => Err(e),
            }
        },
    }
}

fn read_role(constant: bool, payload: Option<&Json>) -> (r: Result<StateRole>)
    ensures
        read_plain(r) == role_of(constant, present(payload)),
{
    if constant {
        return Ok(StateRole::Constant);
    }
    match boolean(get(payload, "is_param")) {
        Err(e) => Err(e),
        Ok(true) => Ok(StateRole::Parameter),
        Ok(false) => Ok(StateRole::Buffer),
    }
}

fn describe(name: &str, role: StateRole, storage: usize, meta: Option<&Json>) -> (r: Result<State>)
    ensures
        outcome(r) == described(name@, role, storage, present(meta)),
{
    let shape = match fixed_list(get(meta, "sizes")) {
        Ok(shape) => shape,
        Err(e) => {
            return Err(e);
        },
    };
    let strides = match fixed_list(get(meta, "strides")) {
        Ok(strides) => strides,
        Err(e) => {
            return Err(e);
        },
    };
    let offset: i64 = match fixed(get(meta, "storage_offset")) {
        Ok(offset) => offset,
        Err(e) => {
            return Err(e);
        },
    };
    match boolean(get(meta, "requires_grad")) {
        Ok(requires_grad) => Ok(
            State { name: crate::text::owned(name), role, storage, shape, strides, offset, requires_grad },
        ),
        Err(e) => Err(e),
    }
}

proof fn entries_fail(
    s: StatesView,
    members: Members,
    directory: Seq<char>,
    constant: bool,
    entries: Seq<(Seq<char>, JsonView)>,
    k: int,
    n: int,
)
    requires
        0 <= k <= n,
        s.with_entries(members, directory, constant, entries, k) is Err,
    ensures
        s.with_entries(members, directory, constant, entries, n) == s.with_entries(members, directory, constant, entries, k),
    decreases n - k,
{
    if k < n {
        entries_fail(s, members, directory, constant, entries, k, n - 1);
    }
}

impl States {
    /// The maps are in order, and every place they name exists.
    pub closed spec fn wf(self) -> bool {
        &&& self.paths.wf()
        &&& self.names.wf()
        &&& forall|path: Seq<char>| #[trigger] self.paths@.dom().contains(path) ==> self.paths@[path] < self.storages@.len()
        &&& forall|name: Seq<char>| #[trigger] self.names@.dom().contains(name) ==> self.names@[name] < self.state@.len()
        &&& forall|i: int| 0 <= i < self.state@.len() ==> (#[trigger] self.state@[i]).storage < self.storages@.len()
    }

    /// Nothing has been read yet.
    pub fn start() -> (r: Self)
        ensures
            r.wf(),
            r@ == StatesView::start(),
    {
        let r = States { storages: Vec::new(), state: Vec::new(), paths: NameMap::new(), names: NameMap::new() };
        proof {
            assert(r@.storages =~= Seq::empty());
            assert(r@.state =~= Seq::empty());
        }
        r
    }

    /// Finds the place of a name.
    pub fn find(&self, name: &str) -> (r: Option<usize>)
        requires
            self.wf(),
        ensures
            match r {
                Some(at) => self@.names.dom().contains(name@) && at == self@.names[name@] && at < self@.state.len(),
                None => !self@.names.dom().contains(name@),
            },
    {
        match self.names.get(name) {
            Some(at) => Some(*at),
            None => None,
        }
    }

    /// Returns a view by its place.
    pub fn entry(&self, at: usize) -> (r: &State)
        requires
            self.wf(),
            at < self@.state.len(),
        ensures
            r@ == self@.state[at as int],
            r.storage < self@.storages.len(),
    {
        &self.state[at]
    }

    /// Returns the dtype of a storage.
    pub fn dtype(&self, at: usize) -> (r: DType)
        requires
            self.wf(),
            at < self@.storages.len(),
        ensures
            r == self@.storages[at as int].dtype,
    {
        self.storages[at].dtype
    }

    /// Takes the storages and the views apart.
    pub fn into_parts(self) -> (r: (Vec<Storage>, Vec<State>))
        ensures
            storages_view(r.0@) == self@.storages,
            states_view(r.1@) == self@.state,
    {
        (self.storages, self.state)
    }

    /// Returns the number of views.
    pub fn len(&self) -> (r: usize)
        ensures
            r == self@.state.len(),
    {
        self.state.len()
    }

    fn add_storage(&mut self, files: &Files, path: &str, dtype: DType) -> (r: Result<usize>)
        requires
            old(self).wf(),
            files.wf(),
        ensures
            match (r, old(self)@.with_storage(files@, path@, dtype)) {
                (Ok(at), Ok(next)) => final(self).wf() && final(self)@ == next && at == next.paths[path@] && at
                    < final(self)@.storages.len(),
                (Err(e), Err(expected)) => e@ == expected,
                _ => false,
            },
    {
        let ghost start = *self;
        match self.paths.get(path) {
            Some(at) => {
                let at: usize = *at;
                assert(self@.storages[at as int] == self.storages@[at as int]@);
                if self.storages[at].dtype != dtype {
                    return Err(deployment_error("shared PT2 storage has conflicting dtypes"));
                }
                return Ok(at);
            },
            None => {},
        }
        let bytes = match files.get(path) {
            Some(bytes) => copy_bytes(bytes.as_slice()),
            None => {
                return Err(deployment_error("missing raw PT2 state"));
            },
        };
        let at: usize = self.storages.len();
        self.storages.push(Storage { dtype, bytes });
        self.paths.insert(crate::text::owned(path), at);
        proof {
            let expected = start@.with_storage(files@, path@, dtype)->Ok_0;
            assert(self@.storages =~= expected.storages);
            assert forall|p: Seq<char>| #[trigger] self.paths@.dom().contains(p) implies self.paths@[p] < self.storages@.len() by {
                if p != path@ {
                    assert(start.paths@.dom().contains(p));
                }
            }
        }
        Ok(at)
    }

    fn add_view(&mut self, name: &str, role: StateRole, storage: usize, meta: Option<&Json>) -> (r: Result<()>)
        requires
            old(self).wf(),
            storage < old(self)@.storages.len(),
        ensures
            r is Ok ==> final(self).wf(),
            advanced(r, final(self)@) == old(self)@.with_view(name@, role, storage, present(meta)),
    {
        let ghost start = *self;
        let view = match describe(name, role, storage, meta) {
            Ok(view) => view,
            Err(e) => {
                return Err(e);
            },
        };
        let at: usize = self.state.len();
        if self.names.contains(name) {
            return Err(deployment_error("duplicate PT2 state name"));
        }
        self.names.insert(crate::text::owned(name), at);
        self.state.push(view);
        proof {
            let expected = start@.with_view(name@, role, storage, present(meta))->Ok_0;
            assert(self@.state =~= expected.state);
            assert forall|n: Seq<char>| #[trigger] self.names@.dom().contains(n) implies self.names@[n] < self.state@.len() by {
                if n != name@ {
                    assert(start.names@.dom().contains(n));
                }
            }
        }
        Ok(())
    }

    fn add_entry(&mut self, files: &Files, directory: &str, constant: bool, name: &str, payload: Option<&Json>) -> (r: Result<()>)
        requires
            old(self).wf(),
            files.wf(),
        ensures
            r is Ok ==> final(self).wf(),
            advanced(r, final(self)@) == old(self)@.with_entry(files@, directory@, constant, name@, present(payload)),
    {
        match boolean(get(payload, "use_pickle")) {
            Err(e) => {
                return Err(e);
            },
            Ok(true) => {
                let message = join3("pickled state ", name, " is unsupported");
                return Err(deployment_error(message.as_str()));
            },
            Ok(false) => {},
        }
        let meta = get(payload, "tensor_meta");
        if let Err(e) = meta_layout(meta) {
            return Err(e);
        }
        let dtype = match dtype(get(meta, "dtype")) {
            Ok(dtype) => dtype,
            Err(e) => {
                return Err(e);
            },
        };
        let path = match read_path(directory, payload) {
            Ok(path) => path,
            Err(e) => {
                return Err(e);
            },
        };
        let storage: usize = match self.add_storage(files, path.as_str(), dtype) {
            Ok(storage) => storage,
            Err(e) => {
                return Err(e);
            },
        };
        let role = match read_role(constant, payload) {
            Ok(role) => role,
            Err(e) => {
                return Err(e);
            },
        };
        self.add_view(name, role, storage, meta)
    }

    /// Reads a configuration of state below a directory.
    pub fn add_config(&mut self, files: &Files, directory: &str, constant: bool, config: &Json) -> (r: Result<()>)
        requires
            old(self).wf(),
            files.wf(),
        ensures
            r is Ok ==> final(self).wf(),
            advanced(r, final(self)@) == old(self)@.with_config(files@, directory@, constant, config@),
    {
        let entries = match object(get(Some(config), "config")) {
            Ok(entries) => entries,
            Err(e) => {
                return Err(e);
            },
        };
        let ghost view = entries_view(entries@);
        let ghost n = entries@.len() as int;
        let ghost start = self@;
        let mut i: usize = 0;
        while i < entries.len()
            invariant
                files.wf(),
                view == entries_view(entries@),
                n == entries@.len(),
                as_object(field(config@, "config"@)) == Ok::<Seq<(Seq<char>, JsonView)>, ErrorView>(view),
                start == old(self)@,
                i <= n,
                self.wf(),
                start.with_entries(files@, directory@, constant, view, i as int) == Ok::<StatesView, ErrorView>(self@),
            decreases n - i,
        {
            proof {
                assert(view[i as int] == (entries@[i as int].0@, entries@[i as int].1@));
                if start.with_entries(files@, directory@, constant, view, i + 1) is Err {
                    entries_fail(start, files@, directory@, constant, view, i + 1, n);
                }
            }
            let item = &entries[i];
            if let Err(e) = self.add_entry(files, directory, constant, item.0.as_str(), Some(&item.1)) {
                return Err(e);
            }
            i += 1;
        }
        Ok(())
    }
}

} // verus!
