//! Writing the weights of a checkpoint.
use super::weights::{
    bad_truth, count_elements, elements, header_length, kind_of, lists, overflows, stored_tensors, stored_view, validate_tensor_bytes, weight_of,
    Stored, StoredView, WeightView, MAX_NAME, MAX_RANK,
};
use super::{check_size, fault, invalid, invalid_fault, CheckpointError, CheckpointLimits, CheckpointResult, Fault};
use crate::kind::Kind;
use crate::names::{ascending_is_distinct, items_of, listing_of_domain, NameMap};
use crate::text::{byte_length, join3, owned};
use vstd::prelude::*;
use vstd::utf8::encode_utf8;

verus! {

/// The most bytes of a header.
pub const READABLE: usize = 100000000;

/// The stored name of an element type.
pub open spec fn dtype_of(kind: Kind) -> Option<Seq<char>> {
    match kind {
        Kind::Bool => Some("BOOL"@),
        Kind::Uint8 => Some("U8"@),
        Kind::Int8 => Some("I8"@),
        Kind::Int16 => Some("I16"@),
        Kind::Int => Some("I32"@),
        Kind::Int64 => Some("I64"@),
        Kind::BFloat16 => Some("BF16"@),
        Kind::Half => Some("F16"@),
        Kind::Float => Some("F32"@),
        Kind::Double => Some("F64"@),
        _ => None,
    }
}

/// The stored name of an element type stands for that type.
pub proof fn kinds_survive(kind: Kind)
    ensures
        dtype_of(kind) is Some ==> kind_of(dtype_of(kind)->0) == Some(kind),
{
    reveal_strlit("BOOL");
    reveal_strlit("U8");
    reveal_strlit("I8");
    reveal_strlit("I16");
    reveal_strlit("I32");
    reveal_strlit("I64");
    reveal_strlit("BF16");
    reveal_strlit("F16");
    reveal_strlit("F32");
    reveal_strlit("F64");
    assert("U8"@[0] == 'U' && "I8"@[0] == 'I');
    assert("I16"@[1] == '1' && "I32"@[1] == '3' && "I64"@[1] == '6');
    assert("I16"@[0] == 'I' && "I32"@[0] == 'I' && "I64"@[0] == 'I' && "F16"@[0] == 'F' && "F32"@[0] == 'F' && "F64"@[0] == 'F');
    assert("F16"@[1] == '1' && "F32"@[1] == '3' && "F64"@[1] == '6');
    assert("BOOL"@[1] == 'O' && "BF16"@[1] == 'F');
}

/// The bytes of a tensor are as many as its shape and element type need.
pub open spec fn is_sized(tensor: StoredView) -> bool {
    match (kind_of(tensor.dtype), elements(tensor.shape, tensor.shape.len() as int)) {
        (Some(kind), Some(count)) => count * kind.width() == tensor.bytes.len(),
        _ => false,
    }
}

/// No name occurs twice.
pub open spec fn distinct_names(list: Seq<StoredView>) -> bool {
    forall|i: int, j: int| 0 <= i < j < list.len() ==> (#[trigger] list[i]).name != (#[trigger] list[j]).name
}

/// A name that the header uses for itself.
pub open spec fn is_reserved(name: Seq<char>) -> bool {
    name == "__metadata__"@
}

/// Every tensor of a list can be read again from a file: its name is its own.
pub open spec fn is_readable(list: Seq<StoredView>) -> bool {
    forall|i: int| 0 <= i < list.len() ==> !is_reserved((#[trigger] list[i]).name)
}

/// What `safetensors::tensor::serialize` writes for tensors whose bytes fit their shapes.
pub uninterp spec fn weights_file(list: Seq<StoredView>) -> Seq<u8>;

/// Calls `safetensors::tensor::TensorView::new` for every tensor and
/// `safetensors::tensor::serialize` for all. Tensors whose bytes fit their shapes are always
/// written, and end within the file; what is written is named. It is read again by
/// `safetensors::SafeTensors::deserialize`, as long as its header does not exceed the limit of
/// the format.
#[verifier::external_body]
fn write_tensors(list: &Vec<Stored>) -> (r: core::result::Result<Vec<u8>, String>)
    requires
        distinct_names(stored_view(list@)),
        forall|i: int| 0 <= i < list@.len() ==> is_sized((#[trigger] list@[i])@),
    ensures
        r is Ok,
        r->Ok_0@ == weights_file(stored_view(list@)),
        !overflows(r->Ok_0@),
        header_length(r->Ok_0@) <= READABLE && is_readable(stored_view(list@)) ==> stored_tensors(r->Ok_0@) is Some,
        header_length(r->Ok_0@) <= READABLE && is_readable(stored_view(list@)) ==> lists(
            stored_view(list@),
            stored_tensors(r->Ok_0@)->0,
        ),
{
    let mut views = Vec::new();
    for t in list {
        let name = serde_json::Value::String(t.dtype.clone());
        let dtype: safetensors::Dtype = serde_json::from_value(name).map_err(|e| e.to_string())?;
        let view = safetensors::tensor::TensorView::new(dtype, t.shape.clone(), &t.bytes);
        views.push((t.name.as_str(), view.map_err(|e| e.to_string())?));
    }
    safetensors::tensor::serialize(views, &None).map_err(|e| e.to_string())
}

/// The tensors that are to be written.
pub struct WritingView {
    pub size: int,
    pub tensors: Map<Seq<char>, StoredView>,
}

impl WritingView {
    /// No tensor.
    pub open spec fn start() -> WritingView {
        WritingView { size: 0, tensors: Map::empty() }
    }

    /// Announces a tensor by its name, rank and number of elements.
    pub open spec fn announce(
        self,
        limits: CheckpointLimits,
        name: Seq<char>,
        rank: usize,
        count: usize,
        kind: Kind,
    ) -> core::result::Result<WritingView, Fault> {
        if name.len() == 0 || encode_utf8(name).len() > MAX_NAME || rank > MAX_RANK {
            Err(invalid_fault("invalid tensor name or rank"@))
        } else if count * kind.width() > usize::MAX {
            Err(invalid_fault("tensor byte size overflow"@))
        } else if self.size + count * kind.width() > limits.weight_bytes {
            Err(invalid_fault("model exceeds checkpoint weight limit"@))
        } else {
            Ok(WritingView { size: self.size + count * kind.width(), ..self })
        }
    }

    /// Adds an announced tensor with its bytes.
    pub open spec fn add_tensor(
        self,
        name: Seq<char>,
        kind: Kind,
        shape: Seq<usize>,
        bytes: Seq<u8>,
    ) -> core::result::Result<WritingView, Fault> {
        if bad_truth(kind, bytes) {
            Err(invalid_fault("boolean tensor payload must contain only 0 or 1"@))
        } else {
            match dtype_of(kind) {
                None => Err(Fault::Backend("unsupported kind ("@ + kind.form() + ")"@)),
                Some(dtype) => Ok(
                    WritingView { tensors: self.tensors.insert(name, StoredView { name, dtype, shape, bytes }), ..self },
                ),
            }
        }
    }
}

/// Weights under way.
pub struct WeightWriter {
    limits: CheckpointLimits,
    size: usize,
    tensors: NameMap<Stored>,
}

impl View for WeightWriter {
    type V = WritingView;

    closed spec fn view(&self) -> WritingView {
        WritingView { size: self.size as int, tensors: self.tensors@.map_values(|t: Stored| t@) }
    }
}

fn dtype_name(kind: Kind) -> (r: Option<&'static str>)
    ensures
        match (r, dtype_of(kind)) {
            (Some(name), Some(expected)) => name@ == expected,
            (None, None) => true,
            _ => false,
        },
{
    match kind {
        Kind::Bool => Some("BOOL"),
        Kind::Uint8 => Some("U8"),
        Kind::Int8 => Some("I8"),
        Kind::Int16 => Some("I16"),
        Kind::Int => Some("I32"),
        Kind::Int64 => Some("I64"),
        Kind::BFloat16 => Some("BF16"),
        Kind::Half => Some("F16"),
        Kind::Float => Some("F32"),
        Kind::Double => Some("F64"),
        _ => None,
    }
}

/// Some tensor has not as many bytes as it needs.
pub open spec fn has_unsized(tensors: Map<Seq<char>, StoredView>) -> bool {
    exists|name: Seq<char>| tensors.dom().contains(name) && !is_sized(#[trigger] tensors[name])
}

/// Every tensor of a map can be read again.
pub open spec fn all_readable(tensors: Map<Seq<char>, StoredView>) -> bool {
    forall|name: Seq<char>| #[trigger] tensors.dom().contains(name) ==> !is_reserved(name)
}

impl WeightWriter {
    /// The limits under which the weights are written.
    pub closed spec fn limits(self) -> CheckpointLimits {
        self.limits
    }

    /// Every tensor stands under its own name.
    pub closed spec fn wf(self) -> bool {
        &&& self.tensors.wf()
        &&& forall|name: Seq<char>| #[trigger] self.tensors@.dom().contains(name) ==> self.tensors@[name].name@ == name
    }

    /// Starts to write a number of tensors.
    pub fn begin(count: usize, limits: CheckpointLimits) -> (r: CheckpointResult<Self>)
        ensures
            fault(r) == (if count > limits.tensors {
                Some(invalid_fault("too many named tensors"@))
            } else {
                None
            }),
            r matches Ok(writer) ==> writer.wf() && writer@ == WritingView::start() && writer.limits() == limits,
    {
        if count > limits.tensors {
            return Err(invalid("too many named tensors"));
        }
        let writer = WeightWriter { limits, size: 0, tensors: NameMap::new() };
        assert(writer@.tensors =~= Map::empty());
        Ok(writer)
    }

    /// Announces a tensor and returns the number of its bytes.
    pub fn announce(&mut self, name: &str, rank: usize, count: usize, kind: Kind) -> (r: CheckpointResult<usize>)
        requires
            old(self).wf(),
        ensures
            final(self).wf(),
            final(self).limits() == old(self).limits(),
            match (r, old(self)@.announce(old(self).limits(), name@, rank, count, kind)) {
                (Ok(bytes), Ok(next)) => final(self)@ == next && bytes == count * kind.width(),
                (Err(e), Err(expected)) => e@ == expected && final(self)@ == old(self)@,
                _ => false,
            },
    {
        if name.is_empty() || byte_length(name) > MAX_NAME || rank > MAX_RANK {
            return Err(invalid("invalid tensor name or rank"));
        }
        let bytes: usize = match count.checked_mul(kind.bytes()) {
            Some(bytes) => bytes,
            None => {
                return Err(invalid("tensor byte size overflow"));
            },
        };
        if self.size > self.limits.weight_bytes || bytes > self.limits.weight_bytes - self.size {
            return Err(invalid("model exceeds checkpoint weight limit"));
        }
        self.size = self.size + bytes;
        Ok(bytes)
    }

    /// Adds an announced tensor.
    pub fn add_tensor(&mut self, name: &str, kind: Kind, shape: Vec<usize>, bytes: Vec<u8>) -> (r: CheckpointResult<()>)
        requires
            old(self).wf(),
        ensures
            final(self).wf(),
            final(self).limits() == old(self).limits(),
            match (r, old(self)@.add_tensor(name@, kind, shape@, bytes@)) {
                (Ok(_), Ok(next)) => final(self)@ == next,
                (Err(e), Err(expected)) => e@ == expected && final(self)@ == old(self)@,
                _ => false,
            },
    {
        let ghost start = *self;
        if let Err(e) = validate_tensor_bytes(kind, bytes.as_slice()) {
            return Err(e);
        }
        let dtype = match dtype_name(kind) {
            Some(dtype) => dtype,
            None => {
                let message = join3("unsupported kind (", kind.text(), ")");
                return Err(CheckpointError::Backend(message));
            },
        };
        let tensor = Stored { name: owned(name), dtype: owned(dtype), shape, bytes };
        let ghost content = tensor@;
        self.tensors.insert(owned(name), tensor);
        proof {
            assert(self@.tensors =~= start@.tensors.insert(name@, content));
            assert forall|other: Seq<char>| #[trigger] self.tensors@.dom().contains(other) implies self.tensors@[other].name@
                == other by {
                if other != name@ {
                    assert(start.tensors@.dom().contains(other));
                }
            }
        }
        Ok(())
    }

    /// Writes the weights in the order of their names, unless the file exceeds its limit. What
    /// is written is read again as long as its header does not exceed the limit of the format.
    pub fn finish(self) -> (r: CheckpointResult<Vec<u8>>)
        requires
            self.wf(),
        ensures
            has_unsized(self@.tensors) ==> r matches Err(CheckpointError::Weights(_)),
            !has_unsized(self@.tensors) ==> match r {
                Ok(bytes) => {
                    &&& bytes@ == weights_file(items_of(self@.tensors))
                    &&& bytes@.len() <= self.limits().weight_bytes
                    &&& !overflows(bytes@)
                    &&& header_length(bytes@) <= READABLE && all_readable(self@.tensors) ==> stored_tensors(bytes@) == Some(
                        self@.tensors,
                    )
                },
                Err(e) => e@ == invalid_fault("model.safetensors exceeds resource limit"@) && weights_file(
                    items_of(self@.tensors),
                ).len() > self.limits().weight_bytes,
            },
    {
        let ghost tensors = self@.tensors;
        let ghost names = self.tensors.listing();
        let ghost whole = self.tensors;
        let limit: usize = self.limits.weight_bytes;
        let entries = self.tensors.into_entries();
        let mut list: Vec<Stored> = Vec::new();
        let ghost all = entries@;
        let mut rest = entries;
        let ghost mut done: int = 0;
        proof {
            assert(whole.listing().len() == all.len());
        }
        while rest.len() > 0
            invariant
                self.wf(),
                tensors == self@.tensors,
                whole == self.tensors,
                names == whole.listing(),
                names.len() == all.len(),
                whole.items().len() == all.len(),
                forall|i: int| #![trigger all[i]] 0 <= i < all.len() ==> all[i].0@ == names[i] && all[i].1 == whole.items()[i],
                0 <= done <= all.len(),
                rest@ == all.skip(done),
                list@.len() == done,
                forall|i: int| 0 <= i < done ==> (#[trigger] list@[i]) == all[i].1 && is_sized(list@[i]@),
            decreases rest@.len(),
        {
            let entry = rest.remove(0);
            assert(entry == all[done]);
            let tensor = entry.1;
            proof {
                whole.entry_in_map(done);
                assert(tensors[names[done]] == tensor@);
            }
            let sized = is_sized_tensor(&tensor);
            if !sized {
                assert(tensors.dom().contains(names[done]) && !is_sized(tensors[names[done]]));
                return Err(CheckpointError::Weights(owned("tensor bytes do not match shape and dtype")));
            }
            list.push(tensor);
            proof {
                done = done + 1;
                assert(rest@ =~= all.skip(done));
            }
        }
        let ghost view = stored_view(list@);
        proof {
            ascending_is_distinct(names);
            assert forall|i: int| 0 <= i < list@.len() implies (#[trigger] view[i]).name == names[i] && tensors.dom().contains(
                names[i],
            ) && tensors[names[i]] == view[i] by {
                whole.entry_in_map(i);
                assert(list@[i] == all[i].1);
            }
            assert(distinct_names(view)) by {
                assert forall|i: int, j: int| 0 <= i < j < view.len() implies (#[trigger] view[i]).name != (#[trigger] view[j]).name by {
                    assert(names[i] != names[j]);
                }
            }
            assert(!has_unsized(tensors)) by {
                assert forall|name: Seq<char>| tensors.dom().contains(name) implies is_sized(#[trigger] tensors[name]) by {
                    whole.map_is_listed(name);
                    let i = choose|i: int| 0 <= i < names.len() && #[trigger] names[i] == name;
                    assert(view[i].name == names[i]);
                    assert(is_sized(list@[i]@));
                }
            }
            assert(view == items_of(tensors)) by {
                whole.listing_is_determined();
                listing_of_domain(whole@, tensors);
                assert forall|i: int| 0 <= i < view.len() implies view[i] == items_of(tensors)[i] by {
                    assert(view[i].name == names[i]);
                }
                assert(view =~= items_of(tensors));
            }
            if all_readable(tensors) {
                assert(is_readable(view)) by {
                    assert forall|i: int| 0 <= i < view.len() implies !is_reserved((#[trigger] view[i]).name) by {
                        assert(tensors.dom().contains(names[i]));
                    }
                }
            }
        }
        let bytes = match write_tensors(&list) {
            Ok(bytes) => bytes,
            Err(e) => {
                return Err(CheckpointError::Weights(e));
            },
        };
        proof {
            if header_length(bytes@) <= READABLE && all_readable(tensors) {
                let found = stored_tensors(bytes@)->0;
                assert forall|name: Seq<char>| found.dom().contains(name) == #[trigger] tensors.dom().contains(name) by {
                    if found.dom().contains(name) {
                        let i = choose|i: int| 0 <= i < view.len() && (#[trigger] view[i]).name == name;
                        assert(tensors.dom().contains(names[i]));
                    }
                    if tensors.dom().contains(name) {
                        whole.map_is_listed(name);
                        let i = choose|i: int| 0 <= i < names.len() && #[trigger] names[i] == name;
                        assert(view[i].name == names[i]);
                        assert(found.dom().contains(view[i].name));
                    }
                }
                assert(found.dom() =~= tensors.dom());
                assert forall|name: Seq<char>| #[trigger] found.dom().contains(name) implies found[name] == tensors[name] by {
                    let i = choose|i: int| 0 <= i < view.len() && (#[trigger] view[i]).name == name;
                    assert(found[view[i].name] == view[i]);
                    assert(tensors[names[i]] == view[i]);
                }
                assert(found =~= tensors);
            }
            reveal_strlit("model.safetensors");
            reveal_strlit(" exceeds resource limit");
            reveal_strlit("model.safetensors exceeds resource limit");
            assert("model.safetensors"@ + " exceeds resource limit"@ =~= "model.safetensors exceeds resource limit"@);
        }
        match check_size("model.safetensors", bytes.len() as u64, limit) {
            Ok(()) => Ok(bytes),
            Err(e) => Err(e),
        }
    }
}

fn is_sized_tensor(tensor: &Stored) -> (r: bool)
    ensures
        r == is_sized(tensor@),
{
    let kind = match super::weights::find_kind(tensor.dtype.as_str()) {
        Some(kind) => kind,
        None => {
            return false;
        },
    };
    let count: usize = match count_elements(tensor.shape.as_slice()) {
        Some(count) => count,
        None => {
            return false;
        },
    };
    assert(tensor.bytes.len() == tensor.bytes@.len());
    match count.checked_mul(kind.bytes()) {
        Some(length) => length == tensor.bytes.len(),
        None => false,
    }
}

/// A tensor that was added is accepted when it is read again, with the same element type, the
/// same sizes and the same bytes.
pub proof fn written_tensors_are_accepted(name: Seq<char>, kind: Kind, shape: Seq<usize>, bytes: Seq<u8>, tensor: StoredView)
    requires
        0 < name.len(),
        encode_utf8(name).len() <= MAX_NAME,
        shape.len() <= MAX_RANK,
        forall|k: int| 0 <= k < shape.len() ==> #[trigger] shape[k] <= i64::MAX,
        WritingView::start().add_tensor(name, kind, shape, bytes) is Ok,
        tensor == WritingView::start().add_tensor(name, kind, shape, bytes)->Ok_0.tensors[name],
        is_sized(tensor),
    ensures
        super::weights::stored_fault(tensor) is None,
        weight_of(tensor) == (WeightView { kind, shape: shape.map_values(|d: usize| d as i64), bytes }),
{
    kinds_survive(kind);
}

} // verus!
