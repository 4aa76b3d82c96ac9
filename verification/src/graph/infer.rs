//! How the spec of a node follows from the specs of its operands.
use super::op::GraphOp;
use super::spec::{copy_dims, dims_view, Dim, DimView, SpecView, TensorSpec};
use crate::error::{first_at, first_at_none, first_at_step, graph_error, outcome, ErrorView, Result};
use crate::kind::{DeviceSpec, Kind};
use crate::text::{decimal, integer_text, join, natural_text, owned, same};
use vstd::prelude::*;
use vstd::string::*;

verus! {

/// A position counted from the front, or from the back when negative.
pub open spec fn normalized(dim: int, rank: int) -> core::result::Result<int, ErrorView> {
    let position = if dim < 0 { rank + dim } else { dim };
    if rank > i64::MAX {
        Err(ErrorView::GraphValidation("tensor rank does not fit in i64"@))
    } else if 0 <= position < rank {
        Ok(position)
    } else {
        Err(ErrorView::GraphValidation("dimension "@ + decimal(dim) + " is invalid for rank "@ + decimal(rank)))
    }
}

/// Resolves a dimension that may be counted from the end.
pub fn normalize_dim(dim: i64, rank: usize) -> (r: Result<usize>)
    ensures
        match (r, normalized(dim as int, rank as int)) {
            (Ok(at), Ok(expected)) => at == expected && at < rank,
            (Err(e), Err(expected)) => e@ == expected,
            _ => false,
        },
{
    if rank as u64 > i64::MAX as u64 {
        return Err(graph_error("tensor rank does not fit in i64"));
    }
    let size: i64 = rank as i64;
    let position: i64 = if dim < 0 { size + dim } else { dim };
    if position >= 0 && position < size {
        Ok(position as usize)
    } else {
        let mut message = owned("dimension ");
        let number = integer_text(dim);
        message.append(number.as_str());
        message.append(" is invalid for rank ");
        let total = natural_text(rank as u64);
        message.append(total.as_str());
        Err(graph_error(message.as_str()))
    }
}

/// The dimension `offset` places from the end.
pub open spec fn from_end(dims: Seq<DimView>, offset: int) -> Option<DimView> {
    if 0 <= offset < dims.len() {
        Some(dims[dims.len() - 1 - offset])
    } else {
        None
    }
}

/// The dimension that two aligned dimensions broadcast to.
pub open spec fn broadcast_pair(left: Option<DimView>, right: Option<DimView>) -> core::result::Result<DimView, ErrorView> {
    match (left, right) {
        (None, None) => Ok(DimView::Dynamic),
        (None, Some(value)) => Ok(value),
        (Some(value), None) => Ok(value),
        (Some(l), Some(r)) => if l == DimView::Known(1) {
            Ok(r)
        } else if r == DimView::Known(1) {
            Ok(l)
        } else {
            match (l, r) {
                (DimView::Known(a), DimView::Known(b)) => if a == b {
                    Ok(l)
                } else {
                    Err(
                        ErrorView::GraphValidation(
                            "dimensions "@ + decimal(a as int) + " and "@ + decimal(b as int)
                                + " are not broadcast-compatible"@,
                        ),
                    )
                },
                (DimView::Symbol(a), DimView::Symbol(b)) => if a == b {
                    Ok(l)
                } else {
                    Ok(DimView::Dynamic)
                },
                _ => Ok(DimView::Dynamic),
            }
        },
    }
}

/// The larger of two lengths.
pub open spec fn larger(a: int, b: int) -> int {
    if a >= b {
        a
    } else {
        b
    }
}

/// The check of each pair of dimensions, counted from the end.
pub open spec fn broadcast_checks(left: Seq<DimView>, right: Seq<DimView>) -> spec_fn(int) -> Option<ErrorView> {
    |offset: int|
        match broadcast_pair(from_end(left, offset), from_end(right, offset)) {
            Ok(_) => None,
            Err(e) => Some(e),
        }
}

/// The dimension that two shapes broadcast to, `offset` places from the end.
pub open spec fn broadcast_at(left: Seq<DimView>, right: Seq<DimView>, offset: int) -> DimView {
    match broadcast_pair(from_end(left, offset), from_end(right, offset)) {
        Ok(dim) => dim,
        Err(_) => DimView::Dynamic,
    }
}

/// The dimensions two shapes broadcast to when aligned at their ends, or the error of the
/// last pair that does not fit.
pub open spec fn broadcast_dims(left: Seq<DimView>, right: Seq<DimView>) -> core::result::Result<Seq<DimView>, ErrorView> {
    let rank = larger(left.len() as int, right.len() as int);
    match first_at(0, rank, broadcast_checks(left, right)) {
        Some(e) => Err(e),
        None => Ok(Seq::new(rank as nat, |i: int| broadcast_at(left, right, rank - 1 - i))),
    }
}

fn pair_dimension(left: Option<&Dim>, right: Option<&Dim>) -> (r: Result<Dim>)
    ensures
        outcome(r) == broadcast_pair(
            match left {
                Some(d) => Some(d@),
                None => None,
            },
            match right {
                Some(d) => Some(d@),
                None => None,
            },
        ),
{
    match (left, right) {
        (None, None) => Ok(Dim::Dynamic),
        (None, Some(value)) => Ok(value.clone()),
        (Some(value), None) => Ok(value.clone()),
        (Some(l), Some(r)) => {
            if let Dim::Known(a) = l {
                if *a == 1 {
                    return Ok(r.clone());
                }
            }
            if let Dim::Known(b) = r {
                if *b == 1 {
                    return Ok(l.clone());
                }
            }
            match (l, r) {
                (Dim::Known(a), Dim::Known(b)) => {
                    if *a == *b {
                        Ok(Dim::Known(*a))
                    } else {
                        let mut message = owned("dimensions ");
                        let first = integer_text(*a);
                        message.append(first.as_str());
                        message.append(" and ");
                        let second = integer_text(*b);
                        message.append(second.as_str());
                        message.append(" are not broadcast-compatible");
                        Err(graph_error(message.as_str()))
                    }
                },
                (Dim::Symbol(a), Dim::Symbol(b)) => {
                    if same(a.as_str(), b.as_str()) {
                        Ok(Dim::Symbol(a.clone()))
                    } else {
                        Ok(Dim::Dynamic)
                    }
                },
                _ => Ok(Dim::Dynamic),
            }
        },
    }
}

/// Broadcasts two lists of dimensions.
pub fn broadcast_dimensions(left: &[Dim], right: &[Dim]) -> (r: Result<Vec<Dim>>)
    ensures
        match (r, broadcast_dims(dims_view(left@), dims_view(right@))) {
            (Ok(dims), Ok(expected)) => dims_view(dims@) == expected,
            (Err(e), Err(expected)) => e@ == expected,
            _ => false,
        },
{
    let rank: usize = if left.len() >= right.len() { left.len() } else { right.len() };
    let ghost l = dims_view(left@);
    let ghost r = dims_view(right@);
    let ghost checks = broadcast_checks(l, r);
    let mut reversed: Vec<Dim> = Vec::new();
    let mut offset: usize = 0;
    while offset < rank
        invariant
            l == dims_view(left@),
            r == dims_view(right@),
            rank == larger(l.len() as int, r.len() as int),
            checks == broadcast_checks(l, r),
            offset <= rank,
            reversed@.len() == offset,
            first_at(0, rank as int, checks) == first_at(offset as int, rank as int, checks),
            forall|k: int| 0 <= k < offset ==> (#[trigger] reversed@[k])@ == broadcast_at(l, r, k),
        decreases rank - offset,
    {
        proof {
            first_at_step(offset as int, rank as int, checks);
        }
        let a: Option<&Dim> = if offset < left.len() { Some(&left[left.len() - 1 - offset]) } else { None };
        let b: Option<&Dim> = if offset < right.len() { Some(&right[right.len() - 1 - offset]) } else { None };
        match pair_dimension(a, b) {
            Ok(dim) => {
                reversed.push(dim);
            },
            Err(e) => {
                return Err(e);
            },
        }
        offset += 1;
    }
    let ghost found = reversed@;
    let mut out: Vec<Dim> = Vec::new();
    while reversed.len() > 0
        invariant
            found.len() == rank,
            reversed@.len() + out@.len() == rank,
            reversed@ == found.take(reversed@.len() as int),
            forall|k: int| 0 <= k < out@.len() ==> #[trigger] out@[k] == found[rank - 1 - k],
        decreases reversed@.len(),
    {
        let ghost m = reversed@.len() as int;
        if let Some(dim) = reversed.pop() {
            proof {
                assert(dim == found[m - 1]);
                assert(reversed@ =~= found.take(m - 1));
            }
            out.push(dim);
        }
    }
    assert(dims_view(out@) =~= Seq::new(rank as nat, |i: int| broadcast_at(l, r, rank - 1 - i)));
    Ok(out)
}

/// The device two operands agree on.
pub open spec fn merged_device(
    left: Option<DeviceSpec>,
    right: Option<DeviceSpec>,
    context: Seq<char>,
) -> core::result::Result<Option<DeviceSpec>, ErrorView> {
    match (left, right) {
        (Some(l), Some(r)) => if l != r {
            Err(
                ErrorView::GraphValidation(
                    context + " inputs declare incompatible devices "@ + l.form() + " and "@ + r.form(),
                ),
            )
        } else {
            Ok(left)
        },
        (Some(_), None) => Ok(left),
        _ => Ok(right),
    }
}

/// Merges the device requests of two operands.
pub fn merge_device(left: Option<DeviceSpec>, right: Option<DeviceSpec>, context: &str) -> (r: Result<Option<DeviceSpec>>)
    ensures
        match (r, merged_device(left, right, context@)) {
            (Ok(device), Ok(expected)) => device == expected,
            (Err(e), Err(expected)) => e@ == expected,
            _ => false,
        },
{
    match (left, right) {
        (Some(l), Some(r)) => {
            if l != r {
                let mut message = join(context, " inputs declare incompatible devices ");
                let first = l.text();
                message.append(first.as_str());
                message.append(" and ");
                let second = r.text();
                message.append(second.as_str());
                Err(graph_error(message.as_str()))
            } else {
                Ok(left)
            }
        },
        (Some(_), None) => Ok(left),
        _ => Ok(right),
    }
}

/// Two dtypes that do not agree, told with `context` in front.
pub open spec fn dtype_conflict(context: Seq<char>, left: Kind, right: Kind) -> ErrorView {
    ErrorView::GraphValidation(context + " inputs have incompatible dtypes "@ + left.form() + " and "@ + right.form())
}

pub(crate) fn dtype_error(context: &str, left: Kind, right: Kind) -> (e: crate::error::RustTorchError)
    ensures
        e@ == dtype_conflict(context@, left, right),
{
    let mut message = join(context, " inputs have incompatible dtypes ");
    message.append(left.text());
    message.append(" and ");
    message.append(right.text());
    graph_error(message.as_str())
}

/// The first of two settings that is given.
pub open spec fn either<T>(left: Option<T>, right: Option<T>) -> Option<T> {
    match left {
        Some(_) => left,
        None => right,
    }
}

/// The spec of an element-wise operation on two operands.
pub open spec fn binary_spec(left: SpecView, right: SpecView) -> core::result::Result<SpecView, ErrorView> {
    match (left.kind, right.kind) {
        (Some(l), Some(r)) if l != r => Err(dtype_conflict("binary"@, l, r)),
        _ => {
            let kind = either(left.kind, right.kind);
            let dims = match (left.dimensions, right.dimensions) {
                (Some(l), Some(r)) => match broadcast_dims(l, r) {
                    Ok(dims) => Ok(Some(dims)),
                    Err(e) => Err(e),
                },
                _ => Ok(None),
            };
            match dims {
                Err(e) => Err(e),
                Ok(dimensions) => {
                    let rank = match dimensions {
                        Some(d) => Some(d.len() as usize),
                        None => match (left.known_rank(), right.known_rank()) {
                            (Some(l), Some(r)) => Some(if l >= r { l } else { r }),
                            _ => None,
                        },
                    };
                    match merged_device(left.device, right.device, "binary"@) {
                        Err(e) => Err(e),
                        Ok(device) => Ok(SpecView { dimensions, rank, kind, device }),
                    }
                },
            }
        },
    }
}

/// Infers the spec of an element-wise operation on two operands.
pub fn infer_binary_spec(left: &TensorSpec, right: &TensorSpec) -> (r: Result<TensorSpec>)
    ensures
        outcome(r) == binary_spec(left@, right@),
{
    if let (Some(l), Some(r)) = (left.kind_value(), right.kind_value()) {
        if l != r {
            return Err(dtype_error("binary", l, r));
        }
    }
    let kind = match left.kind_value() {
        Some(k) => Some(k),
        None => right.kind_value(),
    };
    let dimensions: Option<Vec<Dim>> = match (left.dims(), right.dims()) {
        (Some(l), Some(r)) => match broadcast_dimensions(l, r) {
            Ok(dims) => Some(dims),
            Err(e) => {
                return Err(e);
            },
        },
        _ => None,
    };
    let rank: Option<usize> = match &dimensions {
        Some(d) => Some(d.len()),
        None => match (left.rank_value(), right.rank_value()) {
            (Some(l), Some(r)) => Some(if l >= r { l } else { r }),
            _ => None,
        },
    };
    let device = match merge_device(left.device_value(), right.device_value(), "binary") {
        Ok(device) => device,
        Err(e) => {
            return Err(e);
        },
    };
    Ok(TensorSpec::from_parts(dimensions, rank, kind, device))
}

/// The product of known sizes, as long as every partial product fits and every size is known.
pub open spec fn known_product(dims: Seq<DimView>) -> Option<i64>
    decreases dims.len(),
{
    if dims.len() == 0 {
        Some(1)
    } else {
        match (known_product(dims.drop_last()), dims.last()) {
            (Some(product), DimView::Known(value)) => if i64::MIN <= product * value <= i64::MAX {
                Some((product * value) as i64)
            } else {
                None
            },
            _ => None,
        }
    }
}

/// A known product, or a dynamic size.
pub open spec fn flat_dim(dims: Seq<DimView>) -> DimView {
    match known_product(dims) {
        Some(value) => DimView::Known(value),
        None => DimView::Dynamic,
    }
}

/// The spec of flattening the axes from `start_dim` through `end_dim`.
pub open spec fn flatten_spec(input: SpecView, start_dim: int, end_dim: int) -> core::result::Result<SpecView, ErrorView> {
    match input.known_rank() {
        None => Ok(input),
        Some(rank) => match normalized(start_dim, rank as int) {
            Err(e) => Err(e),
            Ok(start) => match normalized(end_dim, rank as int) {
                Err(e) => Err(e),
                Ok(end) => if start > end {
                    Err(
                        ErrorView::GraphValidation(
                            "flatten start_dim "@ + decimal(start_dim) + " follows end_dim "@ + decimal(end_dim),
                        ),
                    )
                } else {
                    Ok(
                        SpecView {
                            dimensions: match input.dimensions {
                                None => None,
                                Some(d) => Some(
                                    d.take(start).push(flat_dim(d.subrange(start, end + 1))) + d.skip(end + 1),
                                ),
                            },
                            rank: Some((rank - (end - start)) as usize),
                            kind: input.kind,
                            device: input.device,
                        },
                    )
                },
            },
        },
    }
}

fn flat_size(dims: &[Dim], start: usize, end: usize) -> (r: Dim)
    requires
        start <= end < dims@.len(),
    ensures
        r@ == flat_dim(dims_view(dims@).subrange(start as int, end + 1)),
{
    let ghost d = dims_view(dims@);
    let mut product: Option<i64> = Some(1);
    let mut i: usize = start;
    assert(d.subrange(start as int, start as int) =~= Seq::<DimView>::empty());
    while i <= end
        invariant
            d == dims_view(dims@),
            start <= i <= end + 1,
            end < dims@.len(),
            product == known_product(d.subrange(start as int, i as int)),
        decreases end + 1 - i,
    {
        proof {
            let longer = d.subrange(start as int, i + 1);
            assert(longer.drop_last() =~= d.subrange(start as int, i as int));
            assert(longer.last() == dims@[i as int]@);
            assert(dims.len() == dims@.len());
        }
        product = match (product, &dims[i]) {
            (Some(p), Dim::Known(value)) => p.checked_mul(*value),
            _ => None,
        };
        i += 1;
    }
    match product {
        Some(value) => Dim::Known(value),
        None => Dim::Dynamic,
    }
}

/// Infers the spec of a flattened tensor.
pub fn infer_flatten_spec(input: &TensorSpec, start_dim: i64, end_dim: i64) -> (r: Result<TensorSpec>)
    ensures
        outcome(r) == flatten_spec(input@, start_dim as int, end_dim as int),
{
    let rank: usize = match input.rank_value() {
        None => {
            return Ok(input.clone());
        },
        Some(rank) => rank,
    };
    let start: usize = match normalize_dim(start_dim, rank) {
        Ok(at) => at,
        Err(e) => {
            return Err(e);
        },
    };
    let end: usize = match normalize_dim(end_dim, rank) {
        Ok(at) => at,
        Err(e) => {
            return Err(e);
        },
    };
    if start > end {
        let mut message = owned("flatten start_dim ");
        let first = integer_text(start_dim);
        message.append(first.as_str());
        message.append(" follows end_dim ");
        let second = integer_text(end_dim);
        message.append(second.as_str());
        return Err(graph_error(message.as_str()));
    }
    let dimensions: Option<Vec<Dim>> = match input.dims() {
        None => None,
        Some(dims) => {
            let ghost d = dims_view(dims@);
            assert(dims.len() == dims@.len());
            let flat = flat_size(dims, start, end);
            let ghost flat_view = flat@;
            let mut out: Vec<Dim> = Vec::new();
            let mut i: usize = 0;
            while i < start
                invariant
                    d == dims_view(dims@),
                    i <= start <= dims@.len(),
                    out@.len() == i,
                    dims_view(out@) =~= d.take(i as int),
                decreases start - i,
            {
                out.push(dims[i].clone());
                i += 1;
            }
            out.push(flat);
            let ghost head = d.take(start as int).push(flat_view);
            assert(dims_view(out@) =~= head);
            i = end + 1;
            while i < dims.len()
                invariant
                    d == dims_view(dims@),
                    end + 1 <= i <= dims@.len(),
                    dims_view(out@) =~= head + d.subrange(end + 1, i as int),
                decreases dims@.len() - i,
            {
                let ghost earlier = dims_view(out@);
                out.push(dims[i].clone());
                proof {
                    assert(dims_view(out@) =~= earlier.push(d[i as int]));
                    assert(d.subrange(end + 1, i + 1) =~= d.subrange(end + 1, i as int).push(d[i as int]));
                }
                i += 1;
            }
            assert(d.subrange(end + 1, i as int) =~= d.skip(end + 1));
            Some(out)
        },
    };
    Ok(TensorSpec::from_parts(dimensions, Some(rank - (end - start)), input.kind_value(), input.device_value()))
}

/// The contents of a list of specs.
pub open spec fn specs_view(specs: Seq<TensorSpec>) -> Seq<SpecView> {
    specs.map_values(|s: TensorSpec| s@)
}

/// The first dtype declared among the first `n` specs.
pub open spec fn first_kind(specs: Seq<SpecView>, n: int) -> Option<Kind>
    decreases n,
{
    if n <= 0 {
        None
    } else {
        either(first_kind(specs, n - 1), specs[n - 1].kind)
    }
}

/// The first device requested among the first `n` specs.
pub open spec fn first_device(specs: Seq<SpecView>, n: int) -> Option<DeviceSpec>
    decreases n,
{
    if n <= 0 {
        None
    } else {
        either(first_device(specs, n - 1), specs[n - 1].device)
    }
}

/// Two operands whose ranks differ.
pub open spec fn rank_conflict(left: usize, right: usize) -> ErrorView {
    ErrorView::GraphValidation(
        "concatenate inputs have ranks "@ + decimal(left as int) + " and "@ + decimal(right as int),
    )
}

/// Each operand agrees with the earlier ones in dtype, in rank and in device.
pub open spec fn operand_checks(specs: Seq<SpecView>) -> spec_fn(int) -> Option<ErrorView> {
    |i: int|
        match (first_kind(specs, i), specs[i].kind) {
            (Some(l), Some(r)) if l != r => Some(dtype_conflict("concatenate"@, l, r)),
            _ => match (specs[0].known_rank(), specs[i].known_rank()) {
                (Some(l), Some(r)) if l != r => Some(rank_conflict(l, r)),
                _ => match merged_device(first_device(specs, i), specs[i].device, "concatenate"@) {
                    Err(e) => Some(e),
                    Ok(_) => None,
                },
            },
        }
}

/// The sum of two sizes, held within the range of sizes.
pub open spec fn saturated_sum(a: int, b: int) -> int {
    if a + b > i64::MAX {
        i64::MAX as int
    } else if a + b < i64::MIN {
        i64::MIN as int
    } else {
        a + b
    }
}

/// The extent along the joined axis once an operand's size is added.
pub open spec fn joined_extent(total: Option<i64>, size: DimView) -> Option<i64> {
    match (total, size) {
        (Some(a), DimView::Known(b)) => Some(saturated_sum(a as int, b as int) as i64),
        _ => None,
    }
}

/// Known sizes off the joined axis must be equal.
pub open spec fn side_checks(first: Seq<DimView>, dims: Seq<DimView>, axis: int) -> spec_fn(int) -> Option<ErrorView> {
    |index: int|
        match (first[index], dims[index]) {
            (DimView::Known(l), DimView::Known(r)) => if index != axis && l != r {
                Some(
                    ErrorView::GraphValidation(
                        "concatenate dimension "@ + decimal(index) + " differs: "@ + decimal(l as int) + " vs "@
                            + decimal(r as int),
                    ),
                )
            } else {
                None
            },
            _ => None,
        }
}

/// Joins the operands from `i` on: the extent along the axis, or `None` once an operand has
/// no dimensions, or the first conflict.
pub open spec fn join_from(
    specs: Seq<SpecView>,
    first: Seq<DimView>,
    axis: int,
    i: int,
    total: Option<i64>,
) -> core::result::Result<Option<Option<i64>>, ErrorView>
    decreases specs.len() - i,
{
    if i >= specs.len() {
        Ok(Some(total))
    } else {
        match specs[i].dimensions {
            None => Ok(None),
            Some(dims) => match first_at(0, first.len() as int, side_checks(first, dims, axis)) {
                Some(e) => Err(e),
                None => join_from(specs, first, axis, i + 1, joined_extent(total, dims[axis])),
            },
        }
    }
}

/// A size that is known, or dynamic.
pub open spec fn known_or_dynamic(size: Option<i64>) -> DimView {
    match size {
        Some(value) => DimView::Known(value),
        None => DimView::Dynamic,
    }
}

/// A dimension's size, if it is known.
pub open spec fn known_size(dim: DimView) -> Option<i64> {
    match dim {
        DimView::Known(value) => Some(value),
        _ => None,
    }
}

/// The spec of concatenating operands along `dim`.
pub open spec fn concat_spec(specs: Seq<SpecView>, dim: int) -> core::result::Result<SpecView, ErrorView> {
    let n = specs.len() as int;
    let kind = first_kind(specs, n);
    let device = first_device(specs, n);
    match first_at(1, n, operand_checks(specs)) {
        Some(e) => Err(e),
        None => match specs[0].known_rank() {
            None => Ok(specs[0]),
            Some(rank) => match normalized(dim, rank as int) {
                Err(e) => Err(e),
                Ok(axis) => {
                    let unknown = SpecView { dimensions: None, rank: Some(rank), kind, device };
                    match specs[0].dimensions {
                        None => Ok(unknown),
                        Some(first) => match join_from(specs, first, axis, 1, known_size(first[axis])) {
                            Err(e) => Err(e),
                            Ok(None) => Ok(unknown),
                            Ok(Some(total)) => Ok(
                                SpecView {
                                    dimensions: Some(first.update(axis, known_or_dynamic(total))),
                                    ..unknown
                                },
                            ),
                        },
                    }
                },
            },
        },
    }
}

fn extend_extent(total: Option<i64>, size: &Dim) -> (r: Option<i64>)
    ensures
        r == joined_extent(total, size@),
{
    match (total, size) {
        (Some(a), Dim::Known(b)) => {
            let sum: i128 = a as i128 + *b as i128;
            if sum > i64::MAX as i128 {
                Some(i64::MAX)
            } else if sum < i64::MIN as i128 {
                Some(i64::MIN)
            } else {
                Some(sum as i64)
            }
        },
        _ => None,
    }
}

fn check_sides(first: &[Dim], dims: &[Dim], axis: usize) -> (r: Result<()>)
    requires
        first@.len() == dims@.len(),
    ensures
        crate::error::refusal(r) == first_at(
            0,
            first@.len() as int,
            side_checks(dims_view(first@), dims_view(dims@), axis as int),
        ),
{
    let ghost checks = side_checks(dims_view(first@), dims_view(dims@), axis as int);
    let mut index: usize = 0;
    while index < first.len()
        invariant
            first@.len() == dims@.len(),
            index <= first@.len(),
            checks == side_checks(dims_view(first@), dims_view(dims@), axis as int),
            first_at(0, first@.len() as int, checks) == first_at(index as int, first@.len() as int, checks),
        decreases first@.len() - index,
    {
        proof {
            first_at_step(index as int, first@.len() as int, checks);
            assert(dims_view(first@)[index as int] == first@[index as int]@);
            assert(dims_view(dims@)[index as int] == dims@[index as int]@);
        }
        if index != axis {
            if let (Dim::Known(l), Dim::Known(r)) = (&first[index], &dims[index]) {
                if *l != *r {
                    let mut message = owned("concatenate dimension ");
                    let at = natural_text(index as u64);
                    message.append(at.as_str());
                    message.append(" differs: ");
                    let left = integer_text(*l);
                    message.append(left.as_str());
                    message.append(" vs ");
                    let right = integer_text(*r);
                    message.append(right.as_str());
                    return Err(graph_error(message.as_str()));
                }
            }
        }
        index += 1;
    }
    Ok(())
}

/// Infers the spec of concatenated tensors.
#[verifier::loop_isolation(false)]
pub fn infer_concat_spec(inputs: &[TensorSpec], dim: i64) -> (r: Result<TensorSpec>)
    requires
        inputs@.len() > 0,
    ensures
        outcome(r) == concat_spec(specs_view(inputs@), dim as int),
{
    let ghost specs = specs_view(inputs@);
    let ghost n = inputs@.len() as int;
    let ghost checks = operand_checks(specs);
    let first = &inputs[0];
    let mut kind = first.kind_value();
    let mut device = first.device_value();
    let mut i: usize = 1;
    proof {
        reveal_with_fuel(first_kind, 2);
        reveal_with_fuel(first_device, 2);
        assert(specs[0] == first@);
    }
    while i < inputs.len()
        invariant
            n == inputs@.len(),
            1 <= i <= n,
            specs == specs_view(inputs@),
            checks == operand_checks(specs),
            *first == inputs@[0],
            kind == first_kind(specs, i as int),
            device == first_device(specs, i as int),
            first_at(1, n, checks) == first_at(i as int, n, checks),
        decreases n - i,
    {
        let input = &inputs[i];
        proof {
            first_at_step(i as int, n, checks);
            assert(specs[i as int] == input@);
            assert(specs[0] == first@);
        }
        if let (Some(l), Some(r)) = (kind, input.kind_value()) {
            if l != r {
                return Err(dtype_error("concatenate", l, r));
            }
        }
        if let (Some(l), Some(r)) = (first.rank_value(), input.rank_value()) {
            if l != r {
                let mut message = owned("concatenate inputs have ranks ");
                let left = natural_text(l as u64);
                message.append(left.as_str());
                message.append(" and ");
                let right = natural_text(r as u64);
                message.append(right.as_str());
                return Err(graph_error(message.as_str()));
            }
        }
        kind = match kind {
            Some(k) => Some(k),
            None => input.kind_value(),
        };
        device = match merge_device(device, input.device_value(), "concatenate") {
            Ok(merged) => merged,
            Err(e) => {
                return Err(e);
            },
        };
        i += 1;
    }
    proof {
        assert(specs[0] == first@);
        first_at_none(1, n, checks);
    }
    let rank: usize = match first.rank_value() {
        None => {
            return Ok(first.clone());
        },
        Some(rank) => rank,
    };
    let axis: usize = match normalize_dim(dim, rank) {
        Ok(axis) => axis,
        Err(e) => {
            return Err(e);
        },
    };
    let first_dims = match first.dims() {
        None => {
            return Ok(TensorSpec::from_parts(None, Some(rank), kind, device));
        },
        Some(dims) => dims,
    };
    let ghost f = dims_view(first_dims@);
    assert(first_dims.len() == first_dims@.len());
    let mut out: Vec<Dim> = copy_dims(first_dims);
    assert(f[axis as int] == first_dims@[axis as int]@);
    let mut total: Option<i64> = match &first_dims[axis] {
        Dim::Known(value) => Some(*value),
        _ => None,
    };
    i = 1;
    while i < inputs.len()
        invariant
            n == inputs@.len(),
            1 <= i <= n,
            specs == specs_view(inputs@),
            specs[0] == first@,
            f == dims_view(first_dims@),
            first@.dimensions == Some(f),
            axis < f.len(),
            rank == f.len(),
            checks == operand_checks(specs),
            forall|k: int| 1 <= k < n ==> (#[trigger] checks(k)) is None,
            join_from(specs, f, axis as int, 1, known_size(f[axis as int])) == join_from(specs, f, axis as int, i as int, total),
        decreases n - i,
    {
        let input = &inputs[i];
        proof {
            assert(specs[i as int] == input@);
            assert(checks(i as int) is None);
        }
        let dims = match input.dims() {
            None => {
                return Ok(TensorSpec::from_parts(None, Some(rank), kind, device));
            },
            Some(dims) => dims,
        };
        assert(dims.len() == dims@.len());
        assert(first_dims.len() == first_dims@.len());
        if let Err(e) = check_sides(first_dims, dims, axis) {
            return Err(e);
        }
        assert(dims_view(dims@)[axis as int] == dims@[axis as int]@);
        total = extend_extent(total, &dims[axis]);
        i += 1;
    }
    let joined = match total {
        Some(value) => Dim::Known(value),
        None => Dim::Dynamic,
    };
    let ghost joined_view = joined@;
    out.set(axis, joined);
    assert(dims_view(out@) =~= f.update(axis as int, joined_view));
    Ok(TensorSpec::from_parts(Some(out), Some(rank), kind, device))
}

/// The spec with its last dimension replaced by `features`.
pub open spec fn projected(spec: SpecView, features: i64) -> SpecView {
    SpecView {
        dimensions: match spec.dimensions {
            Some(dims) => if dims.len() > 0 {
                Some(dims.update(dims.len() - 1, DimView::Known(features)))
            } else {
                Some(dims)
            },
            None => None,
        },
        ..spec
    }
}

/// Replaces the last dimension of a spec.
pub fn project_spec(spec: &TensorSpec, features: i64) -> (r: TensorSpec)
    ensures
        r@ == projected(spec@, features),
{
    let dimensions = match spec.dims() {
        None => None,
        Some(dims) => {
            let mut out = copy_dims(dims);
            let ghost d = dims_view(dims@);
            let ghost earlier = out@;
            assert(dims_view(out@).len() == out@.len());
            if out.len() > 0 {
                let last: usize = out.len() - 1;
                out.set(last, Dim::Known(features));
                assert(dims_view(out@) =~= d.update(last as int, DimView::Known(features)));
            }
            Some(out)
        },
    };
    TensorSpec::from_parts(dimensions, spec.declared_rank(), spec.kind_value(), spec.device_value())
}

/// The spec of a node, from its operation, its current spec and the specs of its operands.
pub open spec fn node_spec(op: GraphOp, current: SpecView, inputs: Seq<SpecView>) -> core::result::Result<SpecView, ErrorView> {
    match op {
        GraphOp::Input | GraphOp::MseLoss | GraphOp::CrossEntropyLoss => Ok(current),
        GraphOp::Output | GraphOp::Identity | GraphOp::ReLU | GraphOp::Gelu { .. } | GraphOp::Dropout { .. } => Ok(inputs[0]),
        GraphOp::Linear { out_features, .. } => Ok(projected(inputs[0], out_features)),
        GraphOp::Flatten { start_dim, end_dim } => flatten_spec(inputs[0], start_dim as int, end_dim as int),
        GraphOp::Add | GraphOp::Subtract | GraphOp::Multiply => binary_spec(inputs[0], inputs[1]),
        GraphOp::Concatenate { dim } => concat_spec(inputs, dim as int),
    }
}

/// Infers the spec of a node.
pub fn infer_node_spec(op: &GraphOp, current: &TensorSpec, inputs: &[TensorSpec]) -> (r: Result<TensorSpec>)
    requires
        op.takes(inputs@.len() as int),
    ensures
        outcome(r) == node_spec(*op, current@, specs_view(inputs@)),
{
    proof {
        if inputs@.len() > 0 {
            assert(specs_view(inputs@)[0] == inputs@[0]@);
        }
        if inputs@.len() > 1 {
            assert(specs_view(inputs@)[1] == inputs@[1]@);
        }
    }
    match op {
        GraphOp::Input | GraphOp::MseLoss | GraphOp::CrossEntropyLoss => Ok(current.clone()),
        GraphOp::Output | GraphOp::Identity | GraphOp::ReLU | GraphOp::Gelu { .. } | GraphOp::Dropout { .. } => Ok(
            inputs[0].clone(),
        ),
        GraphOp::Linear { out_features, .. } => Ok(project_spec(&inputs[0], *out_features)),
        GraphOp::Flatten { start_dim, end_dim } => infer_flatten_spec(&inputs[0], *start_dim, *end_dim),
        GraphOp::Add | GraphOp::Subtract | GraphOp::Multiply => infer_binary_spec(&inputs[0], &inputs[1]),
        GraphOp::Concatenate { dim } => infer_concat_spec(inputs, *dim),
    }
}

} // verus!
