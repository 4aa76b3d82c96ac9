//! What a portable model stores: its program, its raw storages and its named state.
use super::layout::{byte_count, byte_size, check_view, contiguous_strides, strides_of, view_refusal, MAX_BYTES};
use super::layout_laws::{is_index, place, view_does_not_overlap, view_stays_in_storage};
use super::program::{program_verdict, valid_name, value_name_refusal};
use super::tree::MAX_NODES;
use super::types::{copy_program, DType, Program, ProgramView, StateRole};
use crate::error::{
    deployment_error, deployment_text, first_at, first_at_none, first_at_step, refusal, ErrorView, Result,
};
use crate::kind::Kind;
use crate::names::NameMap;
use crate::tensor::{copy_shape, same_shape};
use vstd::prelude::*;

verus! {

/// Raw little-endian elements of one dtype, which any number of views share.
#[derive(Debug, PartialEq, Eq)]
pub struct Storage {
    /// The type of every element.
    pub dtype: DType,
    /// The elements, one behind the other.
    pub bytes: Vec<u8>,
}

/// The content of a [`Storage`].
#[verifier::ext_equal]
pub struct StorageView {
    pub dtype: DType,
    pub bytes: Seq<u8>,
}

impl View for Storage {
    type V = StorageView;

    open spec fn view(&self) -> StorageView {
        StorageView { dtype: self.dtype, bytes: self.bytes@ }
    }
}

impl StorageView {
    /// The number of whole elements.
    pub open spec fn count(self) -> int {
        self.bytes.len() as int / self.dtype.width()
    }
}

/// A named view of a storage.
#[derive(Debug, PartialEq, Eq)]
pub struct State {
    /// Unique name.
    pub name: String,
    /// Meaning of the tensor.
    pub role: StateRole,
    /// The place of its storage in the list of storages.
    pub storage: usize,
    /// The size of each axis.
    pub shape: Vec<i64>,
    /// The distance between neighbours along each axis, in elements.
    pub strides: Vec<i64>,
    /// The place of the first element in the storage.
    pub offset: i64,
    /// Whether gradients are tracked.
    pub requires_grad: bool,
}

/// The content of a [`State`].
#[verifier::ext_equal]
pub struct StateView {
    pub name: Seq<char>,
    pub role: StateRole,
    pub storage: usize,
    pub shape: Seq<i64>,
    pub strides: Seq<i64>,
    pub offset: i64,
    pub requires_grad: bool,
}

impl View for State {
    type V = StateView;

    open spec fn view(&self) -> StateView {
        StateView {
            name: self.name@,
            role: self.role,
            storage: self.storage,
            shape: self.shape@,
            strides: self.strides@,
            offset: self.offset,
            requires_grad: self.requires_grad,
        }
    }
}

impl StateView {
    /// Whether two states are the same view of the same storage.
    pub open spec fn coincides(self, other: StateView) -> bool {
        &&& self.storage == other.storage
        &&& self.shape == other.shape
        &&& self.strides == other.strides
        &&& self.offset == other.offset
        &&& self.requires_grad == other.requires_grad
    }
}

/// The contents of a list of storages.
pub open spec fn storages_view(storages: Seq<Storage>) -> Seq<StorageView> {
    storages.map_values(|s: Storage| s@)
}

/// The contents of a list of states.
pub open spec fn states_view(states: Seq<State>) -> Seq<StateView> {
    states.map_values(|s: State| s@)
}

/// A program with its storages and its state.
#[derive(Debug, PartialEq)]
pub struct Artifact {
    /// The program.
    pub program: Program,
    /// The storages.
    pub storages: Vec<Storage>,
    /// The named views, in the order of their definition.
    pub state: Vec<State>,
}

/// The content of an [`Artifact`].
pub struct ArtifactView {
    pub program: ProgramView,
    pub storages: Seq<StorageView>,
    pub state: Seq<StateView>,
}

impl View for Artifact {
    type V = ArtifactView;

    open spec fn view(&self) -> ArtifactView {
        ArtifactView {
            program: self.program@,
            storages: storages_view(self.storages@),
            state: states_view(self.state@),
        }
    }
}

/// The bytes of the first `n` storages.
pub open spec fn total_bytes(storages: Seq<StorageView>, n: int) -> int
    decreases n,
{
    if n <= 0 {
        0
    } else {
        total_bytes(storages, n - 1) + storages[n - 1].bytes.len()
    }
}

/// Why storage `i` is refused, if it is: the bytes so far are too many, its own are no whole
/// number of elements, or a Boolean is neither zero nor one.
pub open spec fn storage_refusal(storages: Seq<StorageView>, i: int) -> Option<ErrorView> {
    let storage = storages[i];
    let total = total_bytes(storages, i + 1);
    if total > usize::MAX {
        Some(deployment_text("storage size overflow"@))
    } else if total > MAX_BYTES || storage.bytes.len() as int % storage.dtype.width() != 0 || (storage.dtype is Bool && exists|k: int|
        0 <= k < storage.bytes.len() && #[trigger] storage.bytes[k] > 1) {
        Some(deployment_text("invalid or excessive storage size"@))
    } else {
        None
    }
}

/// The check of each storage.
pub open spec fn storage_checks(storages: Seq<StorageView>) -> spec_fn(int) -> Option<ErrorView> {
    |i: int| storage_refusal(storages, i)
}

/// Why state `i` is refused, if it is: its name, that it is new, its storage and its view.
pub open spec fn state_refusal(storages: Seq<StorageView>, state: Seq<StateView>, i: int) -> Option<ErrorView> {
    let entry = state[i];
    if value_name_refusal(entry.name) is Some {
        value_name_refusal(entry.name)
    } else if exists|j: int| 0 <= j < i && (#[trigger] state[j]).name == entry.name {
        Some(deployment_text("duplicate state name"@))
    } else if entry.storage >= storages.len() {
        Some(deployment_text("state references missing storage"@))
    } else {
        let storage = storages[entry.storage as int];
        view_refusal(entry.shape, entry.strides, entry.offset, entry.requires_grad, storage.dtype, storage.count())
    }
}

/// The check of each state.
pub open spec fn state_checks(storages: Seq<StorageView>, state: Seq<StateView>) -> spec_fn(int) -> Option<ErrorView> {
    |i: int| state_refusal(storages, state, i)
}

/// The names of the first `n` states.
pub open spec fn names_of(state: Seq<StateView>, n: int) -> Set<Seq<char>> {
    Set::new(|name: Seq<char>| exists|j: int| 0 <= j < n && (#[trigger] state[j]).name == name)
}

/// Why an artifact is refused, if it is.
pub open spec fn artifact_refusal(artifact: ArtifactView) -> Option<ErrorView> {
    let storages = first_at(0, artifact.storages.len() as int, storage_checks(artifact.storages));
    let state = first_at(0, artifact.state.len() as int, state_checks(artifact.storages, artifact.state));
    if artifact.state.len() > MAX_NODES || artifact.storages.len() > MAX_NODES {
        Some(deployment_text("state count exceeds limit"@))
    } else if storages is Some {
        storages
    } else if state is Some {
        state
    } else {
        program_verdict(artifact.program, names_of(artifact.state, artifact.state.len() as int), 0, 0).1
    }
}

/// In an accepted artifact every element of every state lies in its storage, different
/// elements of a state lie in different places, and the names are pairwise different.
pub proof fn accepted_state_is_sound(artifact: ArtifactView, i: int)
    requires
        artifact_refusal(artifact) is None,
        0 <= i < artifact.state.len(),
    ensures
        ({
            let entry = artifact.state[i];
            let storage = artifact.storages[entry.storage as int];
            &&& entry.storage < artifact.storages.len()
            &&& forall|index: Seq<int>| #[trigger]
                is_index(entry.shape, index) ==> 0 <= place(entry.strides, entry.offset as int, index) < storage.count()
            &&& forall|a: Seq<int>, b: Seq<int>|
                #![trigger is_index(entry.shape, a), is_index(entry.shape, b)]
                is_index(entry.shape, a) && is_index(entry.shape, b) && a != b ==> place(entry.strides, entry.offset as int, a)
                    != place(entry.strides, entry.offset as int, b)
            &&& forall|j: int| 0 <= j < artifact.state.len() && j != i ==> (#[trigger] artifact.state[j]).name != entry.name
        }),
{
    let checks = state_checks(artifact.storages, artifact.state);
    let n = artifact.state.len() as int;
    first_at_none(0, n, checks);
    assert(checks(i) is None);
    let entry = artifact.state[i];
    let storage = artifact.storages[entry.storage as int];
    assert forall|index: Seq<int>| #[trigger] is_index(entry.shape, index) implies 0 <= place(
        entry.strides,
        entry.offset as int,
        index,
    ) < storage.count() by {
        view_stays_in_storage(
            entry.shape,
            entry.strides,
            entry.offset,
            entry.requires_grad,
            storage.dtype,
            storage.count(),
            index,
        );
    }
    assert forall|a: Seq<int>, b: Seq<int>|
        #![trigger is_index(entry.shape, a), is_index(entry.shape, b)]
        is_index(entry.shape, a) && is_index(entry.shape, b) && a != b implies place(entry.strides, entry.offset as int, a)
        != place(entry.strides, entry.offset as int, b) by {
        view_does_not_overlap(
            entry.shape,
            entry.strides,
            entry.offset,
            entry.requires_grad,
            storage.dtype,
            storage.count(),
            a,
            b,
        );
    }
    assert forall|j: int| 0 <= j < n && j != i implies (#[trigger] artifact.state[j]).name != entry.name by {
        assert(checks(j) is None);
    }
}

/// An accepted artifact holds no more than the permitted number of bytes.
pub proof fn accepted_storage_is_bounded(artifact: ArtifactView)
    requires
        artifact_refusal(artifact) is None,
    ensures
        total_bytes(artifact.storages, artifact.storages.len() as int) <= MAX_BYTES,
{
    let n = artifact.storages.len() as int;
    let checks = storage_checks(artifact.storages);
    first_at_none(0, n, checks);
    if n > 0 {
        assert(checks(n - 1) is None);
    }
}

fn only_booleans(bytes: &Vec<u8>) -> (r: bool)
    ensures
        r == !(exists|k: int| 0 <= k < bytes@.len() && #[trigger] bytes@[k] > 1),
{
    let mut k: usize = 0;
    while k < bytes.len()
        invariant
            k <= bytes@.len(),
            forall|j: int| 0 <= j < k ==> #[trigger] bytes@[j] <= 1,
        decreases bytes@.len() - k,
    {
        if bytes[k] > 1 {
            return false;
        }
        k += 1;
    }
    true
}

impl Artifact {
    fn check_storages(&self) -> (r: Result<()>)
        ensures
            refusal(r) == first_at(0, self@.storages.len() as int, storage_checks(self@.storages)),
    {
        let ghost storages = self@.storages;
        let ghost n = storages.len() as int;
        let ghost checks = storage_checks(storages);
        let mut total: usize = 0;
        let mut i: usize = 0;
        while i < self.storages.len()
            invariant
                storages == self@.storages,
                n == storages.len(),
                checks == storage_checks(storages),
                i <= n,
                total == total_bytes(storages, i as int),
                first_at(0, n, checks) == first_at(i as int, n, checks),
            decreases n - i,
        {
            let storage = &self.storages[i];
            proof {
                first_at_step(i as int, n, checks);
                assert(storages[i as int] == storage@);
                assert(checks(i as int) == storage_refusal(storages, i as int));
                assert(storage.bytes.len() == storage.bytes@.len());
            }
            match total.checked_add(storage.bytes.len()) {
                None => {
                    return Err(deployment_error("storage size overflow"));
                },
                Some(sum) => {
                    total = sum;
                },
            }
            if total > MAX_BYTES || storage.bytes.len() % storage.dtype.bytes() != 0 || (storage.dtype == DType::Bool
                && !only_booleans(&storage.bytes)) {
                return Err(deployment_error("invalid or excessive storage size"));
            }
            i += 1;
        }
        Ok(())
    }

    fn check_state(&self, names: &mut NameMap<()>) -> (r: Result<()>)
        requires
            old(names).wf(),
            old(names)@ == Map::<Seq<char>, ()>::empty(),
        ensures
            final(names).wf(),
            refusal(r) == first_at(0, self@.state.len() as int, state_checks(self@.storages, self@.state)),
            r is Ok ==> final(names)@.dom() == names_of(self@.state, self@.state.len() as int),
    {
        let ghost storages = self@.storages;
        let ghost state = self@.state;
        let ghost n = state.len() as int;
        let ghost checks = state_checks(storages, state);
        let mut i: usize = 0;
        assert(names@.dom() =~= names_of(state, 0));
        while i < self.state.len()
            invariant
                storages == self@.storages,
                state == self@.state,
                n == state.len(),
                checks == state_checks(storages, state),
                i <= n,
                names.wf(),
                names@.dom() == names_of(state, i as int),
                first_at(0, n, checks) == first_at(i as int, n, checks),
            decreases n - i,
        {
            let entry = &self.state[i];
            let ghost earlier = names@;
            proof {
                first_at_step(i as int, n, checks);
                assert(state[i as int] == entry@);
                assert(checks(i as int) == state_refusal(storages, state, i as int));
            }
            if let Err(e) = valid_name(entry.name.as_str()) {
                return Err(e);
            }
            if names.insert(entry.name.clone(), ()).is_some() {
                assert(names_of(state, i as int).contains(entry@.name));
                return Err(deployment_error("duplicate state name"));
            }
            assert(!names_of(state, i as int).contains(entry@.name));
            if entry.storage >= self.storages.len() {
                return Err(deployment_error("state references missing storage"));
            }
            let storage = &self.storages[entry.storage];
            assert(storages[entry.storage as int] == storage@);
            let count: usize = storage.bytes.len() / storage.dtype.bytes();
            if let Err(e) = check_view(
                entry.shape.as_slice(),
                entry.strides.as_slice(),
                entry.offset,
                entry.requires_grad,
                storage.dtype,
                count,
            ) {
                return Err(e);
            }
            proof {
                assert forall|name: Seq<char>| names@.dom().contains(name) <==> names_of(state, i + 1).contains(name) by {
                    if name == entry@.name {
                        assert(state[i as int].name == name);
                    } else {
                        assert(names@.dom().contains(name) == names_of(state, i as int).contains(name));
                        if exists|j: int| 0 <= j < i + 1 && (#[trigger] state[j]).name == name {
                            let j = choose|j: int| 0 <= j < i + 1 && (#[trigger] state[j]).name == name;
                            assert(j != i);
                        }
                    }
                }
                assert(names@.dom() =~= names_of(state, i + 1));
            }
            i += 1;
        }
        Ok(())
    }

    /// Checks the storages, the state and the program.
    pub fn validate(&self) -> (r: Result<()>)
        ensures
            refusal(r) == artifact_refusal(self@),
    {
        if self.state.len() > MAX_NODES || self.storages.len() > MAX_NODES {
            return Err(deployment_error("state count exceeds limit"));
        }
        if let Err(e) = self.check_storages() {
            return Err(e);
        }
        let mut names: NameMap<()> = NameMap::new();
        if let Err(e) = self.check_state(&mut names) {
            return Err(e);
        }
        let mut budget: usize = 0;
        self.program.validate(&names, 0, &mut budget)
    }

    /// For each state the first one that is the same view of the same storage. States with
    /// the same entry share one tensor.
    pub fn shared_views(&self) -> (r: Vec<usize>)
        ensures
            r@.len() == self@.state.len(),
            forall|i: int| #![trigger r@[i]] 0 <= i < r@.len() ==> first_coinciding(self@.state, i, r@[i] as int),
    {
        let ghost state = self@.state;
        let mut out: Vec<usize> = Vec::new();
        let mut i: usize = 0;
        while i < self.state.len()
            invariant
                state == self@.state,
                i <= state.len(),
                out@.len() == i,
                forall|k: int| #![trigger out@[k]] 0 <= k < i ==> first_coinciding(state, k, out@[k] as int),
            decreases state.len() - i,
        {
            let mut j: usize = 0;
            while !self.coincide(j, i)
                invariant
                    state == self@.state,
                    j <= i < state.len(),
                    forall|k: int| 0 <= k < j ==> !(#[trigger] state[k]).coincides(state[i as int]),
                decreases i - j,
            {
                assert(j != i);
                j += 1;
            }
            out.push(j);
            i += 1;
        }
        out
    }

    fn coincide(&self, a: usize, b: usize) -> (r: bool)
        requires
            a < self@.state.len(),
            b < self@.state.len(),
        ensures
            r == self@.state[a as int].coincides(self@.state[b as int]),
    {
        let x = &self.state[a];
        let y = &self.state[b];
        assert(self@.state[a as int] == x@ && self@.state[b as int] == y@);
        x.storage == y.storage && same_shape(x.shape.as_slice(), y.shape.as_slice()) && same_shape(
            x.strides.as_slice(),
            y.strides.as_slice(),
        ) && x.offset == y.offset && x.requires_grad == y.requires_grad
    }

    /// The states that are views of a storage, in the order of their definition.
    pub fn views_of(&self, storage: usize) -> (r: Vec<usize>)
        ensures
            r@.map_values(|i: usize| i as int) == viewers(self@.state, storage, self@.state.len() as int),
    {
        let ghost state = self@.state;
        let mut out: Vec<usize> = Vec::new();
        let mut i: usize = 0;
        assert(out@.map_values(|i: usize| i as int) =~= viewers(state, storage, 0));
        while i < self.state.len()
            invariant
                state == self@.state,
                i <= state.len(),
                out@.map_values(|i: usize| i as int) == viewers(state, storage, i as int),
            decreases state.len() - i,
        {
            assert(state[i as int] == self.state@[i as int]@);
            if self.state[i].storage == storage {
                let ghost earlier = out@;
                out.push(i);
                assert(out@.map_values(|i: usize| i as int) =~= earlier.map_values(|i: usize| i as int).push(i as int));
            }
            i += 1;
        }
        out
    }
}

/// State `j` is the first one that is the same view as state `i`.
pub open spec fn first_coinciding(state: Seq<StateView>, i: int, j: int) -> bool {
    &&& 0 <= j <= i
    &&& state[j].coincides(state[i])
    &&& forall|k: int| 0 <= k < j ==> !(#[trigger] state[k]).coincides(state[i])
}

/// The places of the first `n` states that are views of a storage.
pub open spec fn viewers(state: Seq<StateView>, storage: usize, n: int) -> Seq<int>
    decreases n,
{
    if n <= 0 {
        Seq::empty()
    } else if state[n - 1].storage == storage {
        viewers(state, storage, n - 1).push(n - 1)
    } else {
        viewers(state, storage, n - 1)
    }
}

/// A live tensor that becomes state of a model.
#[derive(Debug)]
pub struct StateTensor {
    /// Unique name.
    pub name: String,
    /// Meaning of the tensor.
    pub role: StateRole,
    /// The element type.
    pub kind: Kind,
    /// The size of each axis.
    pub shape: Vec<i64>,
    /// The distance between neighbours along each axis, in elements.
    pub strides: Vec<i64>,
    /// Where the first element is stored. Together with the shape and the strides this tells
    /// whether two tensors are the same.
    pub address: usize,
    /// Whether gradients are tracked.
    pub requires_grad: bool,
    /// The elements in row-major order, as little-endian bytes.
    pub bytes: Vec<u8>,
}

/// The content of a [`StateTensor`].
pub struct StateTensorView {
    pub name: Seq<char>,
    pub role: StateRole,
    pub kind: Kind,
    pub shape: Seq<i64>,
    pub strides: Seq<i64>,
    pub address: usize,
    pub requires_grad: bool,
    pub bytes: Seq<u8>,
}

impl View for StateTensor {
    type V = StateTensorView;

    open spec fn view(&self) -> StateTensorView {
        StateTensorView {
            name: self.name@,
            role: self.role,
            kind: self.kind,
            shape: self.shape@,
            strides: self.strides@,
            address: self.address,
            requires_grad: self.requires_grad,
            bytes: self.bytes@,
        }
    }
}

impl StateTensorView {
    /// Whether two tensors with elements are the same tensor.
    pub open spec fn identical(self, other: StateTensorView) -> bool {
        &&& !self.shape.contains(0i64)
        &&& self.address == other.address
        &&& self.shape == other.shape
        &&& self.strides == other.strides
    }
}

/// The contents of a list of tensors.
pub open spec fn tensors_view(tensors: Seq<StateTensor>) -> Seq<StateTensorView> {
    tensors.map_values(|t: StateTensor| t@)
}

/// Storages and the views of them.
pub type Packed = (Seq<StorageView>, Seq<StateView>);

/// The first tensor that is identical to tensor `i`, if an earlier one is.
pub open spec fn first_identical(tensors: Seq<StateTensorView>, i: int) -> Option<int> {
    if exists|j: int| #![trigger tensors[j]] 0 <= j < i && tensors[i].identical(tensors[j]) {
        Some(choose|j: int| #[trigger] is_first_identical(tensors, i, j))
    } else {
        None
    }
}

/// Tensor `j` is the first one that is identical to tensor `i`.
pub open spec fn is_first_identical(tensors: Seq<StateTensorView>, i: int, j: int) -> bool {
    &&& 0 <= j < i
    &&& tensors[i].identical(tensors[j])
    &&& forall|k: int| 0 <= k < j ==> !tensors[i].identical(#[trigger] tensors[k])
}

/// Adds tensor `i`: an identical earlier tensor lends its storage, else the bytes become a
/// storage of their own. Every view is contiguous.
pub open spec fn pack_one(tensors: Seq<StateTensorView>, i: int, packed: Packed) -> core::result::Result<Packed, ErrorView> {
    let tensor = tensors[i];
    match DType::of(tensor.kind) {
        Err(e) => Err(e),
        Ok(dtype) => {
            let shared = first_identical(tensors, i);
            if shared is None && byte_size(tensor.shape, dtype) is Err {
                Err(byte_size(tensor.shape, dtype)->Err_0)
            } else {
                match strides_of(tensor.shape) {
                    Err(e) => Err(e),
                    Ok(strides) => {
                        let (storages, state) = packed;
                        let entry = StateView {
                            name: tensor.name,
                            role: tensor.role,
                            storage: match shared {
                                Some(j) => state[j].storage,
                                None => storages.len() as usize,
                            },
                            shape: tensor.shape,
                            strides,
                            offset: 0,
                            requires_grad: tensor.requires_grad,
                        };
                        Ok(
                            (
                                if shared is Some {
                                    storages
                                } else {
                                    storages.push(StorageView { dtype, bytes: tensor.bytes })
                                },
                                state.push(entry),
                            ),
                        )
                    },
                }
            }
        },
    }
}

/// The storages and views of the first `n` tensors.
pub open spec fn packed(tensors: Seq<StateTensorView>, n: int) -> core::result::Result<Packed, ErrorView>
    decreases n,
{
    if n <= 0 {
        Ok((Seq::empty(), Seq::empty()))
    } else {
        match packed(tensors, n - 1) {
            Err(e) => Err(e),
            Ok(before) => pack_one(tensors, n - 1, before),
        }
    }
}

proof fn packing_fails(tensors: Seq<StateTensorView>, k: int, n: int)
    requires
        0 <= k <= n,
        packed(tensors, k) is Err,
    ensures
        packed(tensors, n) == packed(tensors, k),
    decreases n - k,
{
    if k < n {
        packing_fails(tensors, k, n - 1);
    }
}

/// Copies bytes.
pub fn copy_bytes(bytes: &[u8]) -> (r: Vec<u8>)
    ensures
        r@ == bytes@,
{
    let mut out: Vec<u8> = Vec::new();
    let mut i: usize = 0;
    while i < bytes.len()
        invariant
            i <= bytes@.len(),
            out@ == bytes@.take(i as int),
        decreases bytes@.len() - i,
    {
        out.push(bytes[i]);
        assert(out@ =~= bytes@.take(i as int + 1));
        i += 1;
    }
    assert(out@ =~= bytes@);
    out
}

fn has_no_elements(shape: &Vec<i64>) -> (r: bool)
    ensures
        r == shape@.contains(0i64),
{
    let mut i: usize = 0;
    while i < shape.len()
        invariant
            i <= shape@.len(),
            forall|j: int| 0 <= j < i ==> #[trigger] shape@[j] != 0,
        decreases shape@.len() - i,
    {
        if shape[i] == 0 {
            assert(shape@[i as int] == 0i64);
            return true;
        }
        i += 1;
    }
    false
}

fn find_identical(tensors: &[StateTensor], i: usize) -> (r: Option<usize>)
    requires
        i < tensors@.len(),
    ensures
        match (r, first_identical(tensors_view(tensors@), i as int)) {
            (Some(j), Some(expected)) => j == expected && j < i,
            (None, None) => true,
            _ => false,
        },
{
    let ghost view = tensors_view(tensors@);
    if has_no_elements(&tensors[i].shape) {
        assert(view[i as int] == tensors@[i as int]@);
        return None;
    }
    let mut j: usize = 0;
    while j < i
        invariant
            view == tensors_view(tensors@),
            j <= i < tensors@.len(),
            !tensors@[i as int].shape@.contains(0i64),
            forall|k: int| 0 <= k < j ==> !view[i as int].identical(#[trigger] view[k]),
        decreases i - j,
    {
        assert(view[i as int] == tensors@[i as int]@ && view[j as int] == tensors@[j as int]@);
        if tensors[i].address == tensors[j].address && same_shape(
            tensors[i].shape.as_slice(),
            tensors[j].shape.as_slice(),
        ) && same_shape(tensors[i].strides.as_slice(), tensors[j].strides.as_slice()) {
            proof {
                assert(is_first_identical(view, i as int, j as int));
                let found = first_identical(view, i as int)->0;
                assert(is_first_identical(view, i as int, found));
                if found < j {
                    assert(!view[i as int].identical(view[found]));
                }
                if found > j {
                    assert(!view[i as int].identical(view[j as int]));
                }
            }
            return Some(j);
        }
        j += 1;
    }
    None
}

/// Packs live tensors into storages and contiguous views. Identical tensors share a storage.
#[verifier::loop_isolation(false)]
pub fn pack(tensors: &[StateTensor]) -> (r: Result<(Vec<Storage>, Vec<State>)>)
    ensures
        match (r, packed(tensors_view(tensors@), tensors@.len() as int)) {
            (Ok(pair), Ok(expected)) => storages_view(pair.0@) == expected.0 && states_view(pair.1@) == expected.1,
            (Err(e), Err(expected)) => e@ == expected,
            _ => false,
        },
{
    let ghost view = tensors_view(tensors@);
    let ghost n = tensors@.len() as int;
    let mut storages: Vec<Storage> = Vec::new();
    let mut state: Vec<State> = Vec::new();
    let mut i: usize = 0;
    assert(storages_view(storages@) =~= Seq::empty() && states_view(state@) =~= Seq::empty());
    while i < tensors.len()
        invariant
            i <= n,
            state@.len() == i,
            packed(view, i as int) == Ok::<Packed, ErrorView>((storages_view(storages@), states_view(state@))),
        decreases n - i,
    {
        let tensor = &tensors[i];
        assert(view[i as int] == tensor@);
        let ghost next = packed(view, i + 1);
        assert(next == pack_one(view, i as int, (storages_view(storages@), states_view(state@))));
        proof {
            if next is Err {
                packing_fails(view, i + 1, n);
            }
        }
        let dtype = match DType::from_kind(tensor.kind) {
            Ok(dtype) => dtype,
            Err(e) => {
                return Err(e);
            },
        };
        let shared = find_identical(tensors, i);
        if shared.is_none() {
            if let Err(e) = byte_count(tensor.shape.as_slice(), dtype) {
                return Err(e);
            }
        }
        let strides = match contiguous_strides(tensor.shape.as_slice()) {
            Ok(strides) => strides,
            Err(e) => {
                return Err(e);
            },
        };
        let ghost old_storages = storages_view(storages@);
        let ghost old_state = states_view(state@);
        let storage: usize = match shared {
            Some(j) => {
                assert(old_state[j as int] == state@[j as int]@);
                state[j].storage
            },
            None => {
                let at: usize = storages.len();
                storages.push(Storage { dtype, bytes: copy_bytes(tensor.bytes.as_slice()) });
                at
            },
        };
        state.push(
            State {
                name: tensor.name.clone(),
                role: tensor.role,
                storage,
                shape: copy_shape(tensor.shape.as_slice()),
                strides,
                offset: 0,
                requires_grad: tensor.requires_grad,
            },
        );
        proof {
            let pair = next->Ok_0;
            assert(storages_view(storages@) =~= pair.0);
            assert(states_view(state@) =~= pair.1) by {
                assert(states_view(state@).drop_last() =~= old_state);
                assert(states_view(state@).last() =~= pair.1.last());
                assert(pair.1.drop_last() =~= old_state);
            }
        }
        i += 1;
    }
    Ok((storages, state))
}

/// What a live tensor has become since it was stored.
#[derive(Debug)]
pub struct LiveTensor {
    /// The element type.
    pub kind: Kind,
    /// The size of each axis.
    pub shape: Vec<i64>,
    /// Whether gradients are tracked.
    pub requires_grad: bool,
}

/// Why the live tensor of a state is refused, if it is.
pub open spec fn live_refusal(storages: Seq<StorageView>, entry: StateView, live: LiveTensor) -> Option<ErrorView> {
    if live.shape@ != entry.shape {
        Some(deployment_text("live state shape or dtype differs from its declaration"@))
    } else {
        match DType::of(live.kind) {
            Err(e) => Some(e),
            Ok(dtype) => if dtype != storages[entry.storage as int].dtype {
                Some(deployment_text("live state shape or dtype differs from its declaration"@))
            } else {
                None
            },
        }
    }
}

/// The check of each live tensor.
pub open spec fn live_checks(artifact: ArtifactView, live: Seq<LiveTensor>) -> spec_fn(int) -> Option<ErrorView> {
    |i: int| live_refusal(artifact.storages, artifact.state[i], live[i])
}

/// The states with what their live tensors say of gradients.
pub open spec fn refreshed(state: Seq<StateView>, live: Seq<LiveTensor>) -> Seq<StateView> {
    state.map(|i: int, s: StateView| StateView { requires_grad: live[i].requires_grad, ..s })
}

/// The storages with other bytes.
pub open spec fn rewritten(storages: Seq<StorageView>, bytes: Seq<Vec<u8>>) -> Seq<StorageView> {
    storages.map(|i: int, s: StorageView| StorageView { dtype: s.dtype, bytes: bytes[i]@ })
}

impl Artifact {
    fn refresh(&self, live: &[LiveTensor]) -> (r: Result<Vec<State>>)
        requires
            artifact_refusal(self@) is None,
            live@.len() == self@.state.len(),
        ensures
            refusal(r) == first_at(0, live@.len() as int, live_checks(self@, live@)),
            r matches Ok(state) ==> states_view(state@) == refreshed(self@.state, live@),
    {
        let ghost start = self@;
        let ghost n = live@.len() as int;
        let ghost checks = live_checks(start, live@);
        let mut out: Vec<State> = Vec::new();
        let mut i: usize = 0;
        while i < live.len()
            invariant
                start == self@,
                artifact_refusal(start) is None,
                n == live@.len() == start.state.len(),
                checks == live_checks(start, live@),
                i <= n,
                out@.len() == i,
                first_at(0, n, checks) == first_at(i as int, n, checks),
                forall|j: int|
                    0 <= j < i ==> (#[trigger] out@[j])@ == (StateView {
                        requires_grad: live@[j].requires_grad,
                        ..start.state[j]
                    }),
            decreases n - i,
        {
            let entry = &self.state[i];
            proof {
                first_at_step(i as int, n, checks);
                accepted_state_is_sound(start, i as int);
                assert(entry@ == start.state[i as int]);
                assert(start.storages[entry.storage as int] == self.storages@[entry.storage as int]@);
            }
            if !same_shape(live[i].shape.as_slice(), entry.shape.as_slice()) {
                return Err(deployment_error("live state shape or dtype differs from its declaration"));
            }
            let dtype = match DType::from_kind(live[i].kind) {
                Ok(dtype) => dtype,
                Err(e) => {
                    return Err(e);
                },
            };
            if dtype != self.storages[entry.storage].dtype {
                return Err(deployment_error("live state shape or dtype differs from its declaration"));
            }
            out.push(
                State {
                    name: entry.name.clone(),
                    role: entry.role,
                    storage: entry.storage,
                    shape: copy_shape(entry.shape.as_slice()),
                    strides: copy_shape(entry.strides.as_slice()),
                    offset: entry.offset,
                    requires_grad: live[i].requires_grad,
                },
            );
            i += 1;
        }
        assert(states_view(out@) =~= refreshed(start.state, live@));
        Ok(out)
    }

    /// What the artifact becomes when its live tensors are stored again. The live tensors are
    /// held against their declarations; `bytes` are those of the storages, written through
    /// every live view of them.
    pub fn snapshot(&self, live: &[LiveTensor], bytes: Vec<Vec<u8>>) -> (r: Result<Artifact>)
        requires
            artifact_refusal(self@) is None,
            live@.len() == self@.state.len(),
            bytes@.len() == self@.storages.len(),
        ensures
            refusal(r) == first_at(0, live@.len() as int, live_checks(self@, live@)),
            r matches Ok(artifact) ==> artifact@ == (ArtifactView {
                program: self@.program,
                storages: rewritten(self@.storages, bytes@),
                state: refreshed(self@.state, live@),
            }),
    {
        let state = match self.refresh(live) {
            Ok(state) => state,
            Err(e) => {
                return Err(e);
            },
        };
        let ghost all = bytes@;
        let mut rest = bytes;
        let mut storages: Vec<Storage> = Vec::new();
        while storages.len() < self.storages.len()
            invariant
                all.len() == self.storages@.len(),
                storages@.len() <= all.len(),
                rest@ == all.skip(storages@.len() as int),
                forall|j: int|
                    0 <= j < storages@.len() ==> (#[trigger] storages@[j])@ == (StorageView {
                        dtype: self.storages@[j].dtype,
                        bytes: all[j]@,
                    }),
            decreases all.len() - storages@.len(),
        {
            let i: usize = storages.len();
            let content = rest.remove(0);
            assert(content == all[i as int]);
            assert(rest@ =~= all.skip(i + 1));
            storages.push(Storage { dtype: self.storages[i].dtype, bytes: content });
        }
        assert(storages_view(storages@) =~= rewritten(self@.storages, all));
        Ok(Artifact { program: copy_program(&self.program), storages, state })
    }
}

} // verus!
