//! The weights of a checkpoint.
use super::{fault, invalid, invalid_fault, CheckpointError, CheckpointLimits, CheckpointResult, Fault};
use crate::bytes::{number, read_number};
use crate::kind::Kind;
use crate::names::NameMap;
use crate::text::{byte_length, join, same};
use vstd::prelude::*;
use vstd::utf8::encode_utf8;

verus! {

/// The most bytes of the name of a tensor.
pub const MAX_NAME: usize = 4096;

/// The most dimensions of a tensor.
pub const MAX_RANK: usize = 64;

/// A tensor as a weights file holds it.
#[derive(Debug, PartialEq, Eq)]
pub struct Stored {
    /// Its name.
    pub name: String,
    /// The name of its element type.
    pub dtype: String,
    /// The size of each axis.
    pub shape: Vec<usize>,
    /// Its elements in row-major order, the lowest byte of each first.
    pub bytes: Vec<u8>,
}

/// The content of a [`Stored`].
pub struct StoredView {
    pub name: Seq<char>,
    pub dtype: Seq<char>,
    pub shape: Seq<usize>,
    pub bytes: Seq<u8>,
}

impl View for Stored {
    type V = StoredView;

    open spec fn view(&self) -> StoredView {
        StoredView { name: self.name@, dtype: self.dtype@, shape: self.shape@, bytes: self.bytes@ }
    }
}

/// The contents of tensors.
pub open spec fn stored_view(list: Seq<Stored>) -> Seq<StoredView> {
    list.map_values(|s: Stored| s@)
}

/// A list holds every tensor of a map once.
pub open spec fn lists(list: Seq<StoredView>, map: Map<Seq<char>, StoredView>) -> bool {
    &&& forall|i: int| 0 <= i < list.len() ==> map.dom().contains((#[trigger] list[i]).name) && map[list[i].name] == list[i]
    &&& forall|i: int, j: int| 0 <= i < j < list.len() ==> (#[trigger] list[i]).name != (#[trigger] list[j]).name
    &&& forall|name: Seq<char>| #[trigger] map.dom().contains(name) ==> exists|i: int| 0 <= i < list.len() && (#[trigger] list[i]).name == name
}

/// The length of the header of a weights file, as far as the file reaches.
pub open spec fn header_length(bytes: Seq<u8>) -> int {
    if bytes.len() < 8 {
        0
    } else if number(bytes.take(8)) <= bytes.len() - 8 {
        number(bytes.take(8))
    } else {
        bytes.len() - 8
    }
}

/// The header of a weights file.
pub open spec fn header_of(bytes: Seq<u8>) -> Seq<u8> {
    bytes.subrange(8, 8 + header_length(bytes))
}

/// Where the tensors end that a header lists, if it is well formed. This is what
/// `serde_json::from_slice` finds for a `safetensors::tensor::Metadata`.
pub uninterp spec fn header_ends(header: Seq<u8>) -> Option<Set<usize>>;

/// Calls `serde_json::from_slice` for a `safetensors::tensor::Metadata`, and takes the second of
/// the offsets of every tensor from `Metadata::tensors`, in an order that is left open. The
/// result is named.
#[verifier::external_body]
fn read_ends(header: &[u8]) -> (r: Option<Vec<usize>>)
    ensures
        r is Some <==> header_ends(header@) is Some,
        r matches Some(list) ==> list@.to_set() == header_ends(header@)->0,
{
    match serde_json::from_slice::<safetensors::tensor::Metadata>(header) {
        Ok(metadata) => Some(metadata.tensors().into_values().map(|info| info.data_offsets.1).collect()),
        Err(_) => None,
    }
}

/// Behind a header of the given length, one of the ends is no `usize`.
pub open spec fn ends_late(ends: Set<usize>, length: int) -> bool {
    exists|end: usize| #[trigger] ends.contains(end) && end + 8 + length > usize::MAX
}

/// A tensor of a weights file ends so late that the length of the file up to there is no
/// `usize`.
pub open spec fn overflows(bytes: Seq<u8>) -> bool {
    &&& bytes.len() >= 8
    &&& header_ends(header_of(bytes)) is Some
    &&& ends_late(header_ends(header_of(bytes))->0, header_length(bytes))
}

/// The tensors that a weights file holds, by their names, if it is well formed. This is what
/// `safetensors::SafeTensors::deserialize` finds in it.
pub uninterp spec fn stored_tensors(bytes: Seq<u8>) -> Option<Map<Seq<char>, StoredView>>;

/// Calls `safetensors::SafeTensors::deserialize` and `SafeTensors::tensors`. A well-formed file
/// gives every tensor once, in an order that is left open. The call adds the lengths of the
/// parts of the file without a check, so a file whose tensors end too late is left out.
#[verifier::external_body]
fn read_tensors(bytes: &[u8]) -> (r: core::result::Result<Vec<Stored>, String>)
    requires
        !overflows(bytes@),
    ensures
        r is Ok <==> stored_tensors(bytes@) is Some,
        r is Ok ==> lists(stored_view(r->Ok_0@), stored_tensors(bytes@)->0),
{
    let file = match safetensors::SafeTensors::deserialize(bytes) {
        Ok(file) => file,
        Err(e) => return Err(e.to_string()),
    };
    let tensors = file.tensors();
    Ok(tensors.into_iter().map(|(name, view)| Stored {
        name,
        dtype: format!("{:?}", view.dtype()),
        shape: view.shape().to_vec(),
        bytes: view.data().to_vec(),
    }).collect())
}

/// The element type of a stored name.
pub open spec fn kind_of(dtype: Seq<char>) -> Option<Kind> {
    if dtype == "BOOL"@ {
        Some(Kind::Bool)
    } else if dtype == "U8"@ {
        Some(Kind::Uint8)
    } else if dtype == "I8"@ {
        Some(Kind::Int8)
    } else if dtype == "I16"@ {
        Some(Kind::Int16)
    } else if dtype == "I32"@ {
        Some(Kind::Int)
    } else if dtype == "I64"@ {
        Some(Kind::Int64)
    } else if dtype == "BF16"@ {
        Some(Kind::BFloat16)
    } else if dtype == "F16"@ {
        Some(Kind::Half)
    } else if dtype == "F32"@ {
        Some(Kind::Float)
    } else if dtype == "F64"@ {
        Some(Kind::Double)
    } else {
        None
    }
}

/// The product of the first `n` sizes, as far as it fits.
pub open spec fn elements(shape: Seq<usize>, n: int) -> Option<int>
    decreases n,
{
    if n <= 0 {
        Some(1)
    } else {
        match elements(shape, n - 1) {
            None => None,
            Some(count) => if count * shape[n - 1] > usize::MAX {
                None
            } else {
                Some(count * shape[n - 1])
            },
        }
    }
}

/// A Boolean tensor has other bytes than zero and one.
pub open spec fn bad_truth(kind: Kind, bytes: Seq<u8>) -> bool {
    kind == Kind::Bool && exists|i: int| 0 <= i < bytes.len() && #[trigger] bytes[i] > 1
}

/// Why a stored tensor is refused, if it is.
pub open spec fn stored_fault(tensor: StoredView) -> Option<Fault> {
    if tensor.name.len() == 0 || encode_utf8(tensor.name).len() > MAX_NAME || tensor.shape.len() > MAX_RANK {
        Some(invalid_fault("invalid tensor name or rank"@))
    } else if exists|i: int| 0 <= i < tensor.shape.len() && #[trigger] tensor.shape[i] > i64::MAX {
        Some(invalid_fault("tensor dimension exceeds i64"@))
    } else {
        match kind_of(tensor.dtype) {
            None => Some(Fault::Backend("unsupported dtype "@ + tensor.dtype)),
            Some(kind) => match elements(tensor.shape, tensor.shape.len() as int) {
                None => Some(invalid_fault("tensor shape product overflow"@)),
                Some(count) => if count * kind.width() != tensor.bytes.len() {
                    Some(invalid_fault("tensor byte count mismatch"@))
                } else if bad_truth(kind, tensor.bytes) {
                    Some(invalid_fault("boolean tensor payload must contain only 0 or 1"@))
                } else {
                    None
                },
            },
        }
    }
}

/// A tensor that has been accepted.
#[derive(Debug, PartialEq, Eq)]
pub struct Weight {
    /// The element type.
    pub kind: Kind,
    /// The size of each axis.
    pub shape: Vec<i64>,
    /// The elements in row-major order, the lowest byte of each first.
    pub bytes: Vec<u8>,
}

/// The content of a [`Weight`].
pub struct WeightView {
    pub kind: Kind,
    pub shape: Seq<i64>,
    pub bytes: Seq<u8>,
}

impl View for Weight {
    type V = WeightView;

    open spec fn view(&self) -> WeightView {
        WeightView { kind: self.kind, shape: self.shape@, bytes: self.bytes@ }
    }
}

/// An accepted tensor.
pub open spec fn weight_of(tensor: StoredView) -> WeightView {
    WeightView {
        kind: kind_of(tensor.dtype)->0,
        shape: tensor.shape.map_values(|d: usize| d as i64),
        bytes: tensor.bytes,
    }
}

/// Accepted tensors by their names.
#[derive(Debug)]
pub struct Weights {
    map: NameMap<Weight>,
}

impl View for Weights {
    type V = Map<Seq<char>, WeightView>;

    closed spec fn view(&self) -> Map<Seq<char>, WeightView> {
        self.map@.map_values(|w: Weight| w@)
    }
}

pub(crate) fn find_kind(dtype: &str) -> (r: Option<Kind>)
    ensures
        r == kind_of(dtype@),
{
    if same(dtype, "BOOL") {
        Some(Kind::Bool)
    } else if same(dtype, "U8") {
        Some(Kind::Uint8)
    } else if same(dtype, "I8") {
        Some(Kind::Int8)
    } else if same(dtype, "I16") {
        Some(Kind::Int16)
    } else if same(dtype, "I32") {
        Some(Kind::Int)
    } else if same(dtype, "I64") {
        Some(Kind::Int64)
    } else if same(dtype, "BF16") {
        Some(Kind::BFloat16)
    } else if same(dtype, "F16") {
        Some(Kind::Half)
    } else if same(dtype, "F32") {
        Some(Kind::Float)
    } else if same(dtype, "F64") {
        Some(Kind::Double)
    } else {
        None
    }
}

proof fn elements_fail(shape: Seq<usize>, k: int, n: int)
    requires
        0 <= k <= n,
        elements(shape, k) is None,
    ensures
        elements(shape, n) is None,
    decreases n - k,
{
    if k < n {
        elements_fail(shape, k, n - 1);
    }
}

pub(crate) fn count_elements(shape: &[usize]) -> (r: Option<usize>)
    ensures
        match (r, elements(shape@, shape@.len() as int)) {
            (Some(count), Some(expected)) => count == expected,
            (None, None) => true,
            _ => false,
        },
{
    let ghost n = shape@.len() as int;
    let mut count: usize = 1;
    let mut i: usize = 0;
    while i < shape.len()
        invariant
            n == shape@.len(),
            i <= n,
            elements(shape@, i as int) == Some(count as int),
        decreases n - i,
    {
        proof {
            if elements(shape@, i + 1) is None {
                elements_fail(shape@, i + 1, n);
            }
        }
        match count.checked_mul(shape[i]) {
            Some(product) => {
                count = product;
            },
            None => {
                return None;
            },
        }
        i += 1;
    }
    Some(count)
}

/// Checks that the bytes of a Boolean tensor are zeros and ones.
pub fn validate_tensor_bytes(kind: Kind, bytes: &[u8]) -> (r: CheckpointResult<()>)
    ensures
        fault(r) == (if bad_truth(kind, bytes@) {
            Some(invalid_fault("boolean tensor payload must contain only 0 or 1"@))
        } else {
            None
        }),
{
    if kind != Kind::Bool {
        return Ok(());
    }
    let mut i: usize = 0;
    while i < bytes.len()
        invariant
            kind == Kind::Bool,
            i <= bytes@.len(),
            forall|j: int| 0 <= j < i ==> #[trigger] bytes@[j] <= 1,
        decreases bytes@.len() - i,
    {
        if bytes[i] > 1 {
            assert(bytes@[i as int] > 1);
            return Err(invalid("boolean tensor payload must contain only 0 or 1"));
        }
        i += 1;
    }
    Ok(())
}

fn convert_shape(shape: &[usize]) -> (r: Option<Vec<i64>>)
    ensures
        match r {
            Some(list) => list@ == shape@.map_values(|d: usize| d as i64) && forall|i: int|
                0 <= i < shape@.len() ==> #[trigger] shape@[i] <= i64::MAX,
            None => exists|i: int| 0 <= i < shape@.len() && #[trigger] shape@[i] > i64::MAX,
        },
{
    let mut out: Vec<i64> = Vec::new();
    let mut i: usize = 0;
    while i < shape.len()
        invariant
            i <= shape@.len(),
            out@.len() == i,
            forall|j: int| 0 <= j < i ==> #[trigger] shape@[j] <= i64::MAX,
            forall|j: int| 0 <= j < i ==> #[trigger] out@[j] == shape@[j] as i64,
        decreases shape@.len() - i,
    {
        let size: u64 = shape[i] as u64;
        if size > 0x7fff_ffff_ffff_ffff {
            assert(shape@[i as int] > i64::MAX);
            return None;
        }
        out.push(size as i64);
        i += 1;
    }
    assert(out@ =~= shape@.map_values(|d: usize| d as i64));
    Some(out)
}

/// Accepts a stored tensor.
pub fn accept(tensor: Stored) -> (r: CheckpointResult<Weight>)
    ensures
        fault(r) == stored_fault(tensor@),
        r matches Ok(weight) ==> weight@ == weight_of(tensor@),
{
    if tensor.name.as_str().is_empty() || byte_length(tensor.name.as_str()) > MAX_NAME || tensor.shape.len() > MAX_RANK {
        return Err(invalid("invalid tensor name or rank"));
    }
    let shape = match convert_shape(tensor.shape.as_slice()) {
        Some(shape) => shape,
        None => {
            return Err(invalid("tensor dimension exceeds i64"));
        },
    };
    let kind = match find_kind(tensor.dtype.as_str()) {
        Some(kind) => kind,
        None => {
            return Err(CheckpointError::Backend(join("unsupported dtype ", tensor.dtype.as_str())));
        },
    };
    let count: usize = match count_elements(tensor.shape.as_slice()) {
        Some(count) => count,
        None => {
            return Err(invalid("tensor shape product overflow"));
        },
    };
    let fits = match count.checked_mul(kind.bytes()) {
        Some(length) => length == tensor.bytes.len(),
        None => false,
    };
    assert(tensor.bytes.len() == tensor.bytes@.len());
    assert(fits == (count * kind.width() == tensor.bytes@.len()));
    if !fits {
        return Err(invalid("tensor byte count mismatch"));
    }
    match validate_tensor_bytes(kind, tensor.bytes.as_slice()) {
        Ok(()) => Ok(Weight { kind, shape, bytes: tensor.bytes }),
        Err(e) => Err(e),
    }
}

/// The accepted tensors of the first `n`.
pub open spec fn weights_of(list: Seq<StoredView>, n: int) -> Map<Seq<char>, WeightView>
    decreases n,
{
    if n <= 0 {
        Map::empty()
    } else {
        weights_of(list, n - 1).insert(list[n - 1].name, weight_of(list[n - 1]))
    }
}

/// The first tensor of a list that is refused, from place `i` on.
pub open spec fn first_fault(list: Seq<StoredView>, i: int) -> Option<Fault>
    decreases list.len() - i,
{
    if i < 0 || i >= list.len() {
        None
    } else if stored_fault(list[i]) is Some {
        stored_fault(list[i])
    } else {
        first_fault(list, i + 1)
    }
}

/// Why a list of tensors is refused, if it is.
pub open spec fn list_fault(list: Seq<StoredView>, limits: CheckpointLimits) -> Option<Fault> {
    if list.len() > limits.tensors {
        Some(invalid_fault("too many named tensors"@))
    } else {
        first_fault(list, 0)
    }
}

/// Accepts a list of stored tensors.
#[verifier::loop_isolation(false)]
pub fn accept_all(list: Vec<Stored>, limits: CheckpointLimits) -> (r: CheckpointResult<Weights>)
    ensures
        fault(r) == list_fault(stored_view(list@), limits),
        r matches Ok(weights) ==> weights.wf() && weights@ == weights_of(stored_view(list@), list@.len() as int),
{
    let ghost view = stored_view(list@);
    let ghost all = list@;
    let ghost n = list@.len() as int;
    if list.len() > limits.tensors {
        return Err(invalid("too many named tensors"));
    }
    let mut rest = list;
    let mut map: NameMap<Weight> = NameMap::new();
    let ghost mut done: int = 0;
    let ghost empty = Weights { map };
    assert(empty@ =~= Map::empty());
    let mut weights = Weights { map };
    while rest.len() > 0
        invariant
            view == stored_view(all),
            n == all.len(),
            n <= limits.tensors,
            0 <= done <= n,
            rest@ == all.skip(done),
            weights.wf(),
            weights@ == weights_of(view, done),
            first_fault(view, 0) == first_fault(view, done),
        decreases rest@.len(),
    {
        let tensor = rest.remove(0);
        assert(tensor == all[done]);
        assert(view[done] == tensor@);
        let name = tensor.name.clone();
        match accept(tensor) {
            Ok(weight) => {
                let ghost before = weights@;
                let ghost content = weight@;
                let ghost key = name@;
                weights.map.insert(name, weight);
                proof {
                    assert(weights@ =~= before.insert(key, content));
                }
            },
            Err(e) => {
                return Err(e);
            },
        }
        proof {
            done = done + 1;
            assert(rest@ =~= all.skip(done));
        }
    }
    Ok(weights)
}

impl Weights {
    /// The map is in order.
    pub closed spec fn wf(self) -> bool {
        self.map.wf()
    }

    /// The names in ascending order.
    pub closed spec fn listing(self) -> Seq<Seq<char>> {
        self.map.listing()
    }

    /// Every name is listed.
    pub proof fn names_are_listed(self)
        requires
            self.wf(),
        ensures
            forall|name: Seq<char>| self.listing().contains(name) <==> #[trigger] self@.dom().contains(name),
    {
    }

    /// The number of tensors.
    pub fn len(&self) -> (r: usize)
        ensures
            r == self.listing().len(),
    {
        self.map.len()
    }

    /// A name by its place.
    pub fn name(&self, i: usize) -> (r: &String)
        requires
            i < self.listing().len(),
        ensures
            r@ == self.listing()[i as int],
    {
        self.map.name(i)
    }

    /// Finds a tensor.
    pub fn get(&self, name: &str) -> (r: Option<&Weight>)
        requires
            self.wf(),
        ensures
            match r {
                Some(weight) => self@.dom().contains(name@) && weight@ == self@[name@],
                None => !self@.dom().contains(name@),
            },
    {
        self.map.get(name)
    }
}

fn is_overflowing(bytes: &[u8]) -> (r: bool)
    ensures
        r == overflows(bytes@),
{
    if bytes.len() < 8 {
        return false;
    }
    let declared = read_number(bytes, 0, 8);
    assert(bytes@.subrange(0, 8) =~= bytes@.take(8));
    let rest: usize = bytes.len() - 8;
    let length: usize = if declared <= rest as u64 {
        declared as usize
    } else {
        rest
    };
    let header = vstd::slice::slice_subrange(bytes, 8, 8 + length);
    assert(header@ == header_of(bytes@));
    let ends = match read_ends(header) {
        Some(ends) => ends,
        None => {
            return false;
        },
    };
    let ghost set = header_ends(header_of(bytes@))->0;
    let mut i: usize = 0;
    while i < ends.len()
        invariant
            bytes@.len() >= 8,
            length == header_length(bytes@),
            8 + length <= usize::MAX,
            header_ends(header_of(bytes@)) == Some(set),
            set == ends@.to_set(),
            i <= ends@.len(),
            forall|k: int| 0 <= k < i ==> #[trigger] ends@[k] + 8 + length <= usize::MAX,
        decreases ends@.len() - i,
    {
        if ends[i] > usize::MAX - (8 + length) {
            let ghost end = ends@[i as int];
            assert(ends@.contains(end));
            assert(set.contains(end));
            assert(ends_late(set, length as int));
            return true;
        }
        i += 1;
    }
    assert forall|end: usize| #[trigger] set.contains(end) implies end + 8 + length <= usize::MAX by {
        let k = ends@.index_of(end);
        assert(ends@[k] == end);
    }
    false
}

/// Why the tensors of a weights file are refused, if they are.
pub open spec fn is_file_fault(map: Map<Seq<char>, StoredView>, limits: CheckpointLimits, e: Fault) -> bool {
    if map.dom().len() > limits.tensors {
        e == invalid_fault("too many named tensors"@)
    } else {
        exists|name: Seq<char>| map.dom().contains(name) && stored_fault(#[trigger] map[name]) == Some(e)
    }
}

/// Reads a weights file. It is accepted if and only if it is well formed, no tensor ends beyond
/// what a file can hold, and every tensor in it is accepted.
pub fn read_weights(bytes: &[u8], limits: CheckpointLimits) -> (r: CheckpointResult<Weights>)
    ensures
        overflows(bytes@) ==> r matches Err(CheckpointError::Weights(_)),
        !overflows(bytes@) ==> match stored_tensors(bytes@) {
            None => r matches Err(CheckpointError::Weights(_)),
            Some(map) => match r {
                Ok(weights) => {
                    &&& weights.wf()
                    &&& map.dom().finite()
                    &&& map.dom().len() <= limits.tensors
                    &&& weights@ == map.map_values(|t: StoredView| weight_of(t))
                    &&& forall|name: Seq<char>| #[trigger] map.dom().contains(name) ==> stored_fault(map[name]) is None
                },
                Err(e) => is_file_fault(map, limits, e@),
            },
        },
{
    if is_overflowing(bytes) {
        return Err(CheckpointError::Weights(crate::text::owned("MetadataIncompleteBuffer")));
    }
    match read_tensors(bytes) {
        Err(e) => Err(CheckpointError::Weights(e)),
        Ok(list) => {
            let ghost view = stored_view(list@);
            let ghost map = stored_tensors(bytes@)->0;
            proof {
                listing_covers(view, map);
                if list_fault(view, limits) is Some && view.len() <= limits.tensors {
                    first_fault_is_one(view, 0);
                } else if view.len() <= limits.tensors {
                    no_fault_is_none(view, 0);
                    weights_are_all(view, map);
                }
            }
            accept_all(list, limits)
        },
    }
}

proof fn first_fault_is_one(list: Seq<StoredView>, i: int)
    requires
        0 <= i,
        first_fault(list, i) is Some,
    ensures
        exists|j: int| 0 <= j < list.len() && stored_fault(#[trigger] list[j]) == first_fault(list, i),
    decreases list.len() - i,
{
    if i < list.len() && stored_fault(list[i]) is None {
        first_fault_is_one(list, i + 1);
    }
}

proof fn no_fault_is_none(list: Seq<StoredView>, i: int)
    requires
        0 <= i,
        first_fault(list, i) is None,
    ensures
        forall|j: int| i <= j < list.len() ==> stored_fault(#[trigger] list[j]) is None,
    decreases list.len() - i,
{
    if i < list.len() {
        no_fault_is_none(list, i + 1);
    }
}

proof fn listing_covers(list: Seq<StoredView>, map: Map<Seq<char>, StoredView>)
    requires
        lists(list, map),
    ensures
        map.dom().finite(),
        map.dom().len() == list.len(),
{
    let names = list.map_values(|t: StoredView| t.name);
    assert(names.no_duplicates()) by {
        assert forall|i: int, j: int| 0 <= i < names.len() && 0 <= j < names.len() && i != j implies names[i] != names[j] by {
            if i < j {
                assert(list[i].name != list[j].name);
            } else {
                assert(list[j].name != list[i].name);
            }
        }
    }
    names.unique_seq_to_set();
    assert(map.dom() =~= names.to_set()) by {
        assert forall|name: Seq<char>| map.dom().contains(name) <==> #[trigger] names.to_set().contains(name) by {
            if map.dom().contains(name) {
                let i = choose|i: int| 0 <= i < list.len() && (#[trigger] list[i]).name == name;
                assert(names[i] == name);
            }
            if names.to_set().contains(name) {
                let i = choose|i: int| 0 <= i < names.len() && #[trigger] names[i] == name;
                assert(map.dom().contains(list[i].name));
            }
        }
    }
}

proof fn weights_hold(list: Seq<StoredView>, n: int, name: Seq<char>)
    requires
        0 <= n <= list.len(),
        forall|i: int, j: int| 0 <= i < j < list.len() ==> (#[trigger] list[i]).name != (#[trigger] list[j]).name,
    ensures
        weights_of(list, n).dom().contains(name) <==> exists|i: int| 0 <= i < n && (#[trigger] list[i]).name == name,
        forall|i: int| 0 <= i < n && (#[trigger] list[i]).name == name ==> weights_of(list, n)[name] == weight_of(list[i]),
    decreases n,
{
    if n > 0 {
        weights_hold(list, n - 1, name);
        let before = weights_of(list, n - 1);
        if list[n - 1].name == name {
            assert forall|i: int| 0 <= i < n && (#[trigger] list[i]).name == name implies weights_of(list, n)[name] == weight_of(
                list[i],
            ) by {
                if i < n - 1 {
                    assert(list[i].name != list[n - 1].name);
                }
            }
        } else {
            if exists|i: int| 0 <= i < n && (#[trigger] list[i]).name == name {
                let i = choose|i: int| 0 <= i < n && (#[trigger] list[i]).name == name;
                assert(i != n - 1);
            }
        }
    }
}

proof fn weights_are_all(list: Seq<StoredView>, map: Map<Seq<char>, StoredView>)
    requires
        lists(list, map),
        forall|j: int| 0 <= j < list.len() ==> stored_fault(#[trigger] list[j]) is None,
    ensures
        weights_of(list, list.len() as int) == map.map_values(|t: StoredView| weight_of(t)),
        forall|name: Seq<char>| #[trigger] map.dom().contains(name) ==> stored_fault(map[name]) is None,
{
    let n = list.len() as int;
    let expected = map.map_values(|t: StoredView| weight_of(t));
    assert forall|name: Seq<char>| #[trigger] map.dom().contains(name) implies stored_fault(map[name]) is None by {
        let i = choose|i: int| 0 <= i < list.len() && (#[trigger] list[i]).name == name;
        assert(map[list[i].name] == list[i]);
    }
    assert forall|name: Seq<char>| weights_of(list, n).dom().contains(name) <==> #[trigger] expected.dom().contains(name) by {
        weights_hold(list, n, name);
        if expected.dom().contains(name) {
            assert(map.dom().contains(name));
        }
        if weights_of(list, n).dom().contains(name) {
            let i = choose|i: int| 0 <= i < n && (#[trigger] list[i]).name == name;
            assert(map.dom().contains(list[i].name));
        }
    }
    assert(weights_of(list, n).dom() =~= expected.dom());
    assert forall|name: Seq<char>| #[trigger] weights_of(list, n).dom().contains(name) implies weights_of(list, n)[name]
        == expected[name] by {
        weights_hold(list, n, name);
        assert(map.dom().contains(name));
        let i = choose|i: int| 0 <= i < list.len() && (#[trigger] list[i]).name == name;
        assert(map[list[i].name] == list[i]);
    }
    assert(weights_of(list, n) =~= expected);
}

} // verus!
