//! Element types, value types and constant tensors of the format.
use super::super::artifact::copy_bytes;
use super::super::layout::{byte_count, byte_size};
use super::super::types::{dimensions_view, DType, Dimension, DimensionView, ValueSpec, ValueSpecView};
use super::proto::{dims_view, DimProto, DimProtoView, Kinds, TensorProto, TensorProtoView, TensorType, TensorTypeView, TypeProto, TypeProtoView, ValueProto, ValueProtoView};
use crate::bytes::{little_endian, push_number, to_unsigned, unsigned_of};
use crate::error::{deployment_error, deployment_text, outcome, ErrorView, Result};
use crate::text::{decimal, integer_text, join};
use vstd::prelude::*;

verus! {

/// The dtype that a code stands for.
pub open spec fn dtype_of(code: i32) -> core::result::Result<DType, ErrorView> {
    if code == 1 {
        Ok(DType::Float)
    } else if code == 11 {
        Ok(DType::Double)
    } else if code == 7 {
        Ok(DType::Int64)
    } else if code == 9 {
        Ok(DType::Bool)
    } else {
        Err(deployment_text("unsupported ONNX dtype "@ + decimal(code as int)))
    }
}

/// The code of a dtype.
pub open spec fn code_of(dtype: DType) -> i32 {
    match dtype {
        DType::Float => 1,
        DType::Double => 11,
        DType::Int64 => 7,
        DType::Bool => 9,
    }
}

/// The code of a dtype stands for that dtype.
pub proof fn codes_survive(dtype: DType)
    ensures
        dtype_of(code_of(dtype)) == Ok::<DType, ErrorView>(dtype),
{
}

/// Returns the dtype that a code stands for.
pub fn dtype(code: i32) -> (r: Result<DType>)
    ensures
        match (r, dtype_of(code)) {
            (Ok(found), Ok(expected)) => found == expected,
            (Err(e), Err(expected)) => e@ == expected,
            _ => false,
        },
{
    if code == 1 {
        Ok(DType::Float)
    } else if code == 11 {
        Ok(DType::Double)
    } else if code == 7 {
        Ok(DType::Int64)
    } else if code == 9 {
        Ok(DType::Bool)
    } else {
        let number = integer_text(code as i64);
        let message = join("unsupported ONNX dtype ", number.as_str());
        Err(deployment_error(message.as_str()))
    }
}

/// Returns the code of a dtype.
pub fn code(dtype: DType) -> (r: i32)
    ensures
        r == code_of(dtype),
{
    match dtype {
        DType::Float => 1,
        DType::Double => 11,
        DType::Int64 => 7,
        DType::Bool => 9,
    }
}

/// A dimension: either a size or a nonempty name.
pub open spec fn dimension_of(dim: DimProtoView) -> Option<DimensionView> {
    match (dim.value, dim.symbol) {
        (Some(n), None) => Some(DimensionView::Known(n)),
        (None, Some(name)) => if name.len() > 0 {
            Some(DimensionView::Symbol { name, min: 0, max: None })
        } else {
            None
        },
        _ => None,
    }
}

/// The spec of a dense tensor value of known rank.
pub open spec fn spec_of(value: ValueProtoView) -> core::result::Result<ValueSpecView, ErrorView> {
    match value.ty {
        None => Err(deployment_text("missing ONNX value type"@)),
        Some(ty) => if ty.kinds.present() {
            Err(deployment_text("ONNX requires dense tensor values"@))
        } else {
            match ty.tensor {
                None => Err(deployment_text("missing ONNX tensor type"@)),
                Some(tensor) => match tensor.shape {
                    None => Err(deployment_text("unknown ONNX rank is unsupported"@)),
                    Some(dims) => if exists|k: int| 0 <= k < dims.len() && dimension_of(#[trigger] dims[k]) is None {
                        Err(deployment_text("invalid or unnamed ONNX dimension"@))
                    } else {
                        match dtype_of(tensor.dtype) {
                            Err(e) => Err(e),
                            Ok(dtype) => Ok(
                                ValueSpecView {
                                    name: value.name,
                                    dtype,
                                    dimensions: dims.map_values(|d: DimProtoView| dimension_of(d)->0),
                                },
                            ),
                        }
                    },
                },
            }
        },
    }
}

/// The message of a dimension.
pub open spec fn dimension_message(dim: DimensionView) -> DimProtoView {
    match dim {
        DimensionView::Known(n) => DimProtoView { value: Some(n), symbol: None },
        DimensionView::Symbol { name, .. } => DimProtoView { value: None, symbol: Some(name) },
    }
}

/// The message of a value.
pub open spec fn value_message(spec: ValueSpecView) -> ValueProtoView {
    ValueProtoView {
        name: spec.name,
        ty: Some(
            TypeProtoView {
                tensor: Some(
                    TensorTypeView {
                        dtype: code_of(spec.dtype),
                        shape: Some(spec.dimensions.map_values(|d: DimensionView| dimension_message(d))),
                    },
                ),
                kinds: Kinds { sequence: false, map: false, opaque: false, sparse: false, optional: false },
            },
        ),
    }
}

/// A spec without the ranges of its symbols, which the format does not hold.
pub open spec fn without_ranges(spec: ValueSpecView) -> ValueSpecView {
    ValueSpecView { dimensions: spec.dimensions.map_values(|d: DimensionView| without_range(d)), ..spec }
}

/// A dimension without its range.
pub open spec fn without_range(dim: DimensionView) -> DimensionView {
    match dim {
        DimensionView::Known(n) => dim,
        DimensionView::Symbol { name, .. } => DimensionView::Symbol { name, min: 0, max: None },
    }
}

/// A value that is written is read back, but for the ranges of its symbols.
pub proof fn values_survive(spec: ValueSpecView)
    requires
        forall|k: int|
            0 <= k < spec.dimensions.len() ==> ((#[trigger] spec.dimensions[k]) matches DimensionView::Symbol { name, .. }
                ==> name.len() > 0),
    ensures
        spec_of(value_message(spec)) == Ok::<ValueSpecView, ErrorView>(without_ranges(spec)),
{
    let message = value_message(spec);
    let dims = message.ty->0.tensor->0.shape->0;
    assert forall|k: int| 0 <= k < dims.len() implies dimension_of(#[trigger] dims[k]) == Some(without_range(spec.dimensions[k])) by {
        assert(dims[k] == dimension_message(spec.dimensions[k]));
    }
    assert(dims.map_values(|d: DimProtoView| dimension_of(d)->0) =~= without_ranges(spec).dimensions);
}

fn read_dimension(dim: &DimProto) -> (r: Option<Dimension>)
    ensures
        match (r, dimension_of(dim@)) {
            (Some(d), Some(expected)) => d@ == expected,
            (None, None) => true,
            _ => false,
        },
{
    match (&dim.value, &dim.symbol) {
        (Some(n), None) => Some(Dimension::Known(*n)),
        (None, Some(name)) => {
            if name.as_str().is_empty() {
                None
            } else {
                Some(Dimension::Symbol { name: name.clone(), min: 0, max: None })
            }
        },
        _ => None,
    }
}

/// Reads the spec of a value.
pub fn value_spec(value: &ValueProto) -> (r: Result<ValueSpec>)
    ensures
        outcome(r) == spec_of(value@),
{
    let ty = match &value.ty {
        Some(ty) => ty,
        None => {
            return Err(deployment_error("missing ONNX value type"));
        },
    };
    if ty.kinds.any() {
        return Err(deployment_error("ONNX requires dense tensor values"));
    }
    let tensor = match &ty.tensor {
        Some(tensor) => tensor,
        None => {
            return Err(deployment_error("missing ONNX tensor type"));
        },
    };
    let dims = match &tensor.shape {
        Some(dims) => dims,
        None => {
            return Err(deployment_error("unknown ONNX rank is unsupported"));
        },
    };
    let ghost view = dims_view(dims@);
    let mut dimensions: Vec<Dimension> = Vec::new();
    let mut k: usize = 0;
    while k < dims.len()
        invariant
            view == dims_view(dims@),
            value@.ty is Some,
            !value@.ty->0.kinds.present(),
            value@.ty->0.tensor is Some,
            value@.ty->0.tensor->0.shape == Some(view),
            k <= dims@.len(),
            dimensions@.len() == k,
            forall|j: int| 0 <= j < k ==> dimension_of(#[trigger] view[j]) == Some(dimensions@[j]@),
        decreases dims@.len() - k,
    {
        assert(view[k as int] == dims@[k as int]@);
        match read_dimension(&dims[k]) {
            Some(d) => {
                dimensions.push(d);
            },
            None => {
                assert(dimension_of(view[k as int]) is None);
                return Err(deployment_error("invalid or unnamed ONNX dimension"));
            },
        }
        k += 1;
    }
    proof {
        assert forall|j: int| 0 <= j < view.len() implies dimension_of(#[trigger] view[j]) is Some by {}
        assert(dimensions_view(dimensions@) =~= view.map_values(|d: DimProtoView| dimension_of(d)->0)) by {
            assert forall|j: int| 0 <= j < view.len() implies dimensions_view(dimensions@)[j] == dimension_of(view[j])->0 by {
                assert(dimension_of(view[j]) == Some(dimensions@[j]@));
            }
        }
    }
    match dtype(tensor.dtype) {
        Ok(dtype) => Ok(ValueSpec::new(value.name.as_str(), dtype, dimensions)),
        Err(e) => Err(e),
    }
}

/// Writes the message of a value.
pub fn value_proto(spec: &ValueSpec) -> (r: ValueProto)
    ensures
        r@ == value_message(spec@),
{
    let mut dims: Vec<DimProto> = Vec::new();
    let mut k: usize = 0;
    while k < spec.dimensions.len()
        invariant
            k <= spec.dimensions@.len(),
            dims@.len() == k,
            forall|j: int| 0 <= j < k ==> (#[trigger] dims@[j])@ == dimension_message(spec.dimensions@[j]@),
        decreases spec.dimensions@.len() - k,
    {
        let dim = match &spec.dimensions[k] {
            Dimension::Known(n) => DimProto { value: Some(*n), symbol: None },
            Dimension::Symbol { name, .. } => DimProto { value: None, symbol: Some(name.clone()) },
        };
        dims.push(dim);
        k += 1;
    }
    assert(dims_view(dims@) =~= spec@.dimensions.map_values(|d: DimensionView| dimension_message(d)));
    ValueProto {
        name: spec.name.clone(),
        ty: Some(
            TypeProto {
                tensor: Some(TensorType { dtype: code(spec.dtype), shape: Some(dims) }),
                kinds: Kinds { sequence: false, map: false, opaque: false, sparse: false, optional: false },
            },
        ),
    }
}

/// Numbers one behind the other, each as `width` bytes.
pub open spec fn packed_numbers(numbers: Seq<int>, width: nat) -> Seq<u8>
    decreases numbers.len(),
{
    if numbers.len() == 0 {
        Seq::empty()
    } else {
        packed_numbers(numbers.drop_last(), width) + little_endian(numbers.last(), width)
    }
}

/// The number of data fields that are filled.
pub open spec fn filled_fields(t: TensorProtoView) -> int {
    (if t.floats.len() > 0 { 1int } else { 0 }) + (if t.doubles.len() > 0 { 1int } else { 0 }) + (if t.ints64.len() > 0 {
        1int
    } else {
        0
    }) + (if t.ints32.len() > 0 { 1int } else { 0 }) + (if t.raw.len() > 0 { 1int } else { 0 })
}

/// The elements of a tensor as bytes. Where no raw bytes are given, the field that belongs to
/// the dtype holds them.
pub open spec fn element_bytes(t: TensorProtoView, dtype: DType) -> core::result::Result<Seq<u8>, ErrorView> {
    if t.raw.len() > 0 {
        Ok(t.raw)
    } else {
        let floats = t.floats.len() == 0;
        let doubles = t.doubles.len() == 0;
        let ints64 = t.ints64.len() == 0;
        let ints32 = t.ints32.len() == 0;
        match dtype {
            DType::Float => if doubles && ints64 && ints32 {
                Ok(packed_numbers(t.floats.map_values(|x: u32| x as int), 4))
            } else {
                Err(deployment_text("ONNX data field disagrees with dtype"@))
            },
            DType::Double => if floats && ints64 && ints32 {
                Ok(packed_numbers(t.doubles.map_values(|x: u64| x as int), 8))
            } else {
                Err(deployment_text("ONNX data field disagrees with dtype"@))
            },
            DType::Int64 => if floats && doubles && ints32 {
                Ok(packed_numbers(t.ints64.map_values(|x: i64| unsigned_of(x)), 8))
            } else {
                Err(deployment_text("ONNX data field disagrees with dtype"@))
            },
            DType::Bool => if !(floats && doubles && ints64) {
                Err(deployment_text("ONNX data field disagrees with dtype"@))
            } else if exists|k: int| 0 <= k < t.ints32.len() && !(0 <= #[trigger] t.ints32[k] <= 1) {
                Err(deployment_text("invalid ONNX Boolean"@))
            } else {
                Ok(t.ints32.map_values(|x: i32| x as u8))
            },
        }
    }
}

/// The dtype and the bytes of a constant tensor.
pub open spec fn raw_of(t: TensorProtoView) -> core::result::Result<(DType, Seq<u8>), ErrorView> {
    if t.segment || t.external || t.location != 0 || t.strings || t.uints64 {
        Err(deployment_text("ONNX external, segmented or unsupported tensor data"@))
    } else {
        match dtype_of(t.dtype) {
            Err(e) => Err(e),
            Ok(dtype) => match byte_size(t.dims, dtype) {
                Err(e) => Err(e),
                Ok(expected) => if filled_fields(t) > 1 {
                    Err(deployment_text("ONNX tensor has conflicting data fields"@))
                } else {
                    match element_bytes(t, dtype) {
                        Err(e) => Err(e),
                        Ok(bytes) => if bytes.len() != expected || (dtype is Bool && exists|k: int|
                            0 <= k < bytes.len() && #[trigger] bytes[k] > 1) {
                            Err(deployment_text("ONNX tensor byte length or Boolean data is invalid"@))
                        } else {
                            Ok((dtype, bytes))
                        },
                    }
                },
            },
        }
    }
}

fn pack_floats(numbers: &Vec<u32>) -> (r: Vec<u8>)
    ensures
        r@ == packed_numbers(numbers@.map_values(|x: u32| x as int), 4),
{
    let ghost all = numbers@.map_values(|x: u32| x as int);
    let mut out: Vec<u8> = Vec::new();
    let mut k: usize = 0;
    assert(all.take(0) =~= Seq::empty());
    while k < numbers.len()
        invariant
            all == numbers@.map_values(|x: u32| x as int),
            k <= numbers@.len(),
            out@ == packed_numbers(all.take(k as int), 4),
        decreases numbers@.len() - k,
    {
        assert(all.take(k + 1).drop_last() =~= all.take(k as int));
        assert(all.take(k + 1).last() == numbers@[k as int] as int);
        push_number(&mut out, numbers[k] as u64, 4);
        k += 1;
    }
    assert(all.take(k as int) =~= all);
    out
}

fn pack_doubles(numbers: &Vec<u64>) -> (r: Vec<u8>)
    ensures
        r@ == packed_numbers(numbers@.map_values(|x: u64| x as int), 8),
{
    let ghost all = numbers@.map_values(|x: u64| x as int);
    let mut out: Vec<u8> = Vec::new();
    let mut k: usize = 0;
    assert(all.take(0) =~= Seq::empty());
    while k < numbers.len()
        invariant
            all == numbers@.map_values(|x: u64| x as int),
            k <= numbers@.len(),
            out@ == packed_numbers(all.take(k as int), 8),
        decreases numbers@.len() - k,
    {
        assert(all.take(k + 1).drop_last() =~= all.take(k as int));
        assert(all.take(k + 1).last() == numbers@[k as int] as int);
        push_number(&mut out, numbers[k], 8);
        k += 1;
    }
    assert(all.take(k as int) =~= all);
    out
}

fn pack_integers(numbers: &Vec<i64>) -> (r: Vec<u8>)
    ensures
        r@ == packed_numbers(numbers@.map_values(|x: i64| unsigned_of(x)), 8),
{
    let ghost all = numbers@.map_values(|x: i64| unsigned_of(x));
    let mut out: Vec<u8> = Vec::new();
    let mut k: usize = 0;
    assert(all.take(0) =~= Seq::empty());
    while k < numbers.len()
        invariant
            all == numbers@.map_values(|x: i64| unsigned_of(x)),
            k <= numbers@.len(),
            out@ == packed_numbers(all.take(k as int), 8),
        decreases numbers@.len() - k,
    {
        assert(all.take(k + 1).drop_last() =~= all.take(k as int));
        assert(all.take(k + 1).last() == unsigned_of(numbers@[k as int]));
        push_number(&mut out, to_unsigned(numbers[k]), 8);
        k += 1;
    }
    assert(all.take(k as int) =~= all);
    out
}

fn pack_booleans(numbers: &Vec<i32>) -> (r: Option<Vec<u8>>)
    ensures
        match r {
            Some(bytes) => bytes@ == numbers@.map_values(|x: i32| x as u8) && forall|k: int|
                0 <= k < numbers@.len() ==> 0 <= #[trigger] numbers@[k] <= 1,
            None => exists|k: int| 0 <= k < numbers@.len() && !(0 <= #[trigger] numbers@[k] <= 1),
        },
{
    let mut out: Vec<u8> = Vec::new();
    let mut k: usize = 0;
    while k < numbers.len()
        invariant
            k <= numbers@.len(),
            out@.len() == k,
            forall|j: int| 0 <= j < k ==> 0 <= #[trigger] numbers@[j] <= 1,
            forall|j: int| 0 <= j < k ==> #[trigger] out@[j] == numbers@[j] as u8,
        decreases numbers@.len() - k,
    {
        if numbers[k] < 0 || numbers[k] > 1 {
            assert(!(0 <= numbers@[k as int] <= 1));
            return None;
        }
        out.push(numbers[k] as u8);
        k += 1;
    }
    assert(out@ =~= numbers@.map_values(|x: i32| x as u8));
    Some(out)
}

fn element_data(t: &TensorProto, dtype: DType) -> (r: Result<Vec<u8>>)
    ensures
        match (r, element_bytes(t@, dtype)) {
            (Ok(bytes), Ok(expected)) => bytes@ == expected,
            (Err(e), Err(expected)) => e@ == expected,
            _ => false,
        },
{
    if t.raw.len() > 0 {
        return Ok(copy_bytes(t.raw.as_slice()));
    }
    let floats = t.floats.len() == 0;
    let doubles = t.doubles.len() == 0;
    let ints64 = t.ints64.len() == 0;
    let ints32 = t.ints32.len() == 0;
    match dtype {
        DType::Float => {
            if doubles && ints64 && ints32 {
                return Ok(pack_floats(&t.floats));
            }
        },
        DType::Double => {
            if floats && ints64 && ints32 {
                return Ok(pack_doubles(&t.doubles));
            }
        },
        DType::Int64 => {
            if floats && doubles && ints32 {
                return Ok(pack_integers(&t.ints64));
            }
        },
        DType::Bool => {
            if floats && doubles && ints64 {
                return match pack_booleans(&t.ints32) {
                    Some(bytes) => Ok(bytes),
                    None => Err(deployment_error("invalid ONNX Boolean")),
                };
            }
        },
    }
    Err(deployment_error("ONNX data field disagrees with dtype"))
}

fn flag(present: bool) -> (r: u8)
    ensures
        r == (if present {
            1int
        } else {
            0
        }),
{
    if present {
        1
    } else {
        0
    }
}

fn only_booleans(bytes: &Vec<u8>) -> (r: bool)
    ensures
        r == !(exists|k: int| 0 <= k < bytes@.len() && #[trigger] bytes@[k] > 1),
{
    let mut k: usize = 0;
    while k < bytes.len()
        invariant
            k <= bytes@.len(),
            forall|j: int| 0 <= j < k ==> #[trigger] bytes@[j] <= 1,
        decreases bytes@.len() - k,
    {
        if bytes[k] > 1 {
            return false;
        }
        k += 1;
    }
    true
}

/// Reads the dtype and the bytes of a constant tensor.
pub fn raw_tensor(t: &TensorProto) -> (r: Result<(DType, Vec<u8>)>)
    ensures
        match (r, raw_of(t@)) {
            (Ok(found), Ok(expected)) => found.0 == expected.0 && found.1@ == expected.1,
            (Err(e), Err(expected)) => e@ == expected,
            _ => false,
        },
{
    if t.segment || t.external || t.location != 0 || t.strings || t.uints64 {
        return Err(deployment_error("ONNX external, segmented or unsupported tensor data"));
    }
    let dtype = match dtype(t.dtype) {
        Ok(dtype) => dtype,
        Err(e) => {
            return Err(e);
        },
    };
    let expected = match byte_count(t.dims.as_slice(), dtype) {
        Ok(expected) => expected,
        Err(e) => {
            return Err(e);
        },
    };
    let filled: u8 = flag(t.floats.len() > 0) + flag(t.doubles.len() > 0) + flag(t.ints64.len() > 0) + flag(
        t.ints32.len() > 0,
    ) + flag(t.raw.len() > 0);
    if filled > 1 {
        return Err(deployment_error("ONNX tensor has conflicting data fields"));
    }
    let bytes = match element_data(t, dtype) {
        Ok(bytes) => bytes,
        Err(e) => {
            return Err(e);
        },
    };
    if bytes.len() != expected || (dtype == DType::Bool && !only_booleans(&bytes)) {
        return Err(deployment_error("ONNX tensor byte length or Boolean data is invalid"));
    }
    Ok((dtype, bytes))
}

} // verus!
