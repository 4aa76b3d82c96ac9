//! Symbolic shape inference for the values of a program.
//!
//! The rules are algebraic: what is inferred holds for every size that the symbols may stand
//! for.
use super::evaluate::{accepted, operation_is_sound};
use super::program::{known_name, operator_ok};
use super::types::{
    copy_dimensions, dimensions_view, operation_parts, operations_view, program_parts, same_dimensions, value_specs_view, DType, Dimension,
    DimensionView, OperationView, Operator, OperatorView, Program, ProgramView, ValueSpec, ValueSpecView,
};
use crate::error::{deployment_error, deployment_text, outcome, texts, ErrorView, Result};
use crate::kind::Kind;
use crate::names::NameMap;
use crate::text::same;
use vstd::prelude::*;

verus! {

/// Dimensions, or why they cannot be told.
pub type Inferred = core::result::Result<Seq<DimensionView>, ErrorView>;

/// The axis that a possibly negative number means.
pub open spec fn axis_of(d: i64, rank: int) -> core::result::Result<int, ErrorView> {
    let at = if d < 0 {
        rank + d
    } else {
        d as int
    };
    if 0 <= at < rank {
        Ok(at)
    } else {
        Err(deployment_text("axis outside tensor rank"@))
    }
}

/// Two dimensions that are equal whatever the symbols stand for.
pub open spec fn alike(a: DimensionView, b: DimensionView) -> bool {
    match (a, b) {
        (DimensionView::Known(x), DimensionView::Known(y)) => x == y,
        (DimensionView::Symbol { name: x, .. }, DimensionView::Symbol { name: y, .. }) => x == y,
        _ => false,
    }
}

/// The dimension `i` places from the end, if there is one.
pub open spec fn from_end(dims: Seq<DimensionView>, i: int) -> Option<DimensionView> {
    if i < dims.len() {
        Some(dims[dims.len() - 1 - i])
    } else {
        None
    }
}

/// The common dimension of two that are aligned, if it can be told.
pub open spec fn merged(a: Option<DimensionView>, b: Option<DimensionView>) -> Option<DimensionView> {
    match (a, b) {
        (None, y) => y,
        (x, None) => x,
        (Some(x), Some(y)) => if x == DimensionView::Known(1) {
            Some(y)
        } else if y == DimensionView::Known(1) {
            Some(x)
        } else if alike(x, y) {
            Some(x)
        } else {
            None
        },
    }
}

/// The larger of two numbers.
pub open spec fn larger(a: int, b: int) -> int {
    if a < b {
        b
    } else {
        a
    }
}

/// The dimensions of a broadcast result.
pub open spec fn broadcast_of(a: Seq<DimensionView>, b: Seq<DimensionView>) -> Inferred {
    let n = larger(a.len() as int, b.len() as int);
    if exists|i: int| 0 <= i < n && (#[trigger] merged(from_end(a, i), from_end(b, i))) is None {
        Err(deployment_text("cannot prove symbolic broadcasting for export"@))
    } else {
        Ok(Seq::new(n as nat, |k: int| merged(from_end(a, n - 1 - k), from_end(b, n - 1 - k))->0))
    }
}

/// A product under way: the known factors, and the one symbol.
pub type Factors = (i64, Option<DimensionView>);

/// Why a product cannot be formed.
pub struct ProductMessages {
    pub overflow: Seq<char>,
    pub symbols: Seq<char>,
}

/// The factors of the first `n` dimensions.
pub open spec fn factors(dims: Seq<DimensionView>, n: int, messages: ProductMessages) -> core::result::Result<Factors, ErrorView>
    decreases n,
{
    if n <= 0 {
        Ok((1i64, None))
    } else {
        match factors(dims, n - 1, messages) {
            Err(e) => Err(e),
            Ok((count, symbol)) => match dims[n - 1] {
                DimensionView::Known(size) => if i64::MIN <= count * size <= i64::MAX {
                    Ok(((count * size) as i64, symbol))
                } else {
                    Err(deployment_text(messages.overflow))
                },
                DimensionView::Symbol { .. } => if symbol is Some {
                    Err(deployment_text(messages.symbols))
                } else {
                    Ok((count, Some(dims[n - 1])))
                },
            },
        }
    }
}

/// The messages about the product of all dimensions.
pub open spec fn product_messages() -> ProductMessages {
    ProductMessages {
        overflow: "symbolic dimension product overflow"@,
        symbols: "products of symbolic dimensions are unsupported for export"@,
    }
}

/// The messages about the product of the operand of a reshape.
pub open spec fn reshape_messages() -> ProductMessages {
    ProductMessages { overflow: "reshape size overflow"@, symbols: "reshape has multiple symbolic dimensions"@ }
}

/// The product of dimensions as one dimension.
pub open spec fn product_of(dims: Seq<DimensionView>) -> core::result::Result<DimensionView, ErrorView> {
    if dims.contains(DimensionView::Known(0)) {
        Ok(DimensionView::Known(0))
    } else {
        match factors(dims, dims.len() as int, product_messages()) {
            Err(e) => Err(e),
            Ok((count, None)) => Ok(DimensionView::Known(count)),
            Ok((count, Some(symbol))) => if count == 1 {
                Ok(symbol)
            } else {
                Err(deployment_text("scaled symbolic dimensions are unsupported for export"@))
            },
        }
    }
}

/// The dimensions of a linear result.
pub open spec fn linear_of(inputs: Seq<ValueSpecView>) -> Inferred {
    let first = inputs[0].dimensions;
    let weight = inputs[1].dimensions;
    if first.len() == 0 || weight.len() != 2 || !alike(first.last(), weight[1]) {
        Err(deployment_text("linear dimensions cannot be proven during export"@))
    } else if inputs.len() == 3 && inputs[2].dimensions != weight.take(1) {
        Err(deployment_text("linear bias dimensions differ from weight"@))
    } else {
        Ok(first.update(first.len() - 1, weight[0]))
    }
}

/// The dimensions in front of the last two.
pub open spec fn batch_of(dims: Seq<DimensionView>) -> Seq<DimensionView> {
    if dims.len() > 2 {
        dims.take(dims.len() - 2)
    } else {
        Seq::empty()
    }
}

/// The dimensions of a matrix product.
pub open spec fn matmul_of(a: Seq<DimensionView>, b: Seq<DimensionView>) -> Inferred {
    if a.len() == 0 || b.len() == 0 || !alike(
        a.last(),
        b[if b.len() > 1 {
            b.len() - 2
        } else {
            0
        }],
    ) {
        Err(deployment_text("matmul inner dimensions cannot be proven during export"@))
    } else {
        match broadcast_of(batch_of(a), batch_of(b)) {
            Err(e) => Err(e),
            Ok(batch) => {
                let rows = if a.len() > 1 {
                    batch.push(a[a.len() - 2])
                } else {
                    batch
                };
                if b.len() > 1 {
                    Ok(rows.push(b[b.len() - 1]))
                } else {
                    Ok(rows)
                }
            },
        }
    }
}

/// The dimensions with two axes swapped.
pub open spec fn transpose_of(dims: Seq<DimensionView>, dim0: i64, dim1: i64) -> Inferred {
    match axis_of(dim0, dims.len() as int) {
        Err(e) => Err(e),
        Ok(a) => match axis_of(dim1, dims.len() as int) {
            Err(e) => Err(e),
            Ok(b) => Ok(dims.update(a, dims[b]).update(b, dims[a])),
        },
    }
}

/// The dimensions in another order.
pub open spec fn permute_of(dims: Seq<DimensionView>, axes: Seq<i64>) -> Inferred {
    if exists|k: int| 0 <= k < axes.len() && !(0 <= #[trigger] axes[k] < dims.len()) {
        Err(deployment_text("permutation rank mismatch"@))
    } else {
        Ok(axes.map_values(|a: i64| dims[a as int]))
    }
}

/// The dimensions with a range of axes made one.
pub open spec fn flatten_of(dims: Seq<DimensionView>, start: i64, end: i64) -> Inferred {
    match axis_of(start, dims.len() as int) {
        Err(e) => Err(e),
        Ok(a) => match axis_of(end, dims.len() as int) {
            Err(e) => Err(e),
            Ok(b) => if a > b {
                Err(deployment_text("flatten axes reversed"@))
            } else {
                match product_of(dims.subrange(a, b + 1)) {
                    Err(e) => Err(e),
                    Ok(flat) => Ok(dims.take(a).push(flat) + dims.skip(b + 1)),
                }
            },
        },
    }
}

/// The sizes of a shape as known dimensions.
pub open spec fn known_dims(shape: Seq<i64>) -> Seq<DimensionView> {
    shape.map_values(|n: i64| DimensionView::Known(n))
}

/// The product of the first `n` sizes other than `-1`, if it can be represented.
pub open spec fn divisor_of(shape: Seq<i64>, n: int) -> Option<i64>
    decreases n,
{
    if n <= 0 {
        Some(1i64)
    } else {
        match divisor_of(shape, n - 1) {
            None => None,
            Some(p) => if shape[n - 1] == -1 {
                Some(p)
            } else if i64::MIN <= p * shape[n - 1] <= i64::MAX {
                Some((p * shape[n - 1]) as i64)
            } else {
                None
            },
        }
    }
}

/// The place of the first `-1`, if there is one.
pub open spec fn inferred_axis(shape: Seq<i64>) -> Option<int> {
    if shape.contains(-1i64) {
        Some(shape.index_of_first(-1i64)->0)
    } else {
        None
    }
}

/// The dimension that stands for `-1` in a reshape.
pub open spec fn quotient_of(dims: Seq<DimensionView>, divisor: i64) -> core::result::Result<DimensionView, ErrorView> {
    match factors(dims, dims.len() as int, reshape_messages()) {
        Err(e) => Err(e),
        Ok((known, None)) => if known as int % divisor as int == 0 {
            Ok(DimensionView::Known((known as int / divisor as int) as i64))
        } else {
            Err(deployment_text("cannot express inferred reshape dimension"@))
        },
        Ok((known, Some(symbol))) => if known == divisor {
            Ok(symbol)
        } else {
            Err(deployment_text("cannot express inferred reshape dimension"@))
        },
    }
}

/// The dimensions of a reshape result.
pub open spec fn reshape_of(dims: Seq<DimensionView>, shape: Seq<i64>) -> Inferred {
    match inferred_axis(shape) {
        Some(index) => match divisor_of(shape, shape.len() as int) {
            None => Err(deployment_text("reshape product overflow"@)),
            Some(divisor) => if divisor <= 0 {
                Err(deployment_text("ambiguous reshape inferred dimension"@))
            } else {
                match quotient_of(dims, divisor) {
                    Err(e) => Err(e),
                    Ok(d) => Ok(known_dims(shape).update(index, d)),
                }
            },
        },
        None => match product_of(dims) {
            Err(e) => Err(e),
            Ok(have) => match product_of(known_dims(shape)) {
                Err(e) => Err(e),
                Ok(want) => if have != want {
                    Err(deployment_text("reshape element counts cannot be proven"@))
                } else {
                    Ok(known_dims(shape))
                },
            },
        },
    }
}

/// The sum of two dimensions along the axis of a concatenation.
pub open spec fn extended(total: DimensionView, next: DimensionView) -> core::result::Result<DimensionView, ErrorView> {
    match (total, next) {
        (DimensionView::Known(a), DimensionView::Known(b)) => if i64::MIN <= a + b <= i64::MAX {
            Ok(DimensionView::Known((a + b) as i64))
        } else {
            Err(deployment_text("cat size overflow"@))
        },
        (a, b) => if a == DimensionView::Known(0) {
            Ok(b)
        } else if b == DimensionView::Known(0) {
            Ok(a)
        } else {
            Err(deployment_text("cat introduces an unsupported symbolic sum"@))
        },
    }
}

/// The length along `axis` of the first `n` operands of a concatenation.
pub open spec fn concatenated(inputs: Seq<ValueSpecView>, axis: int, n: int) -> core::result::Result<DimensionView, ErrorView>
    decreases n,
{
    if n <= 0 {
        Ok(DimensionView::Known(0))
    } else {
        match concatenated(inputs, axis, n - 1) {
            Err(e) => Err(e),
            Ok(total) => {
                let first = inputs[0].dimensions;
                let dims = inputs[n - 1].dimensions;
                if dims.len() != first.len() {
                    Err(deployment_text("cat rank mismatch"@))
                } else if exists|k: int| 0 <= k < first.len() && k != axis && !alike(#[trigger] first[k], dims[k]) {
                    Err(deployment_text("cat non-axis dimensions cannot be proven"@))
                } else {
                    extended(total, dims[axis])
                }
            },
        }
    }
}

/// The dimensions of a concatenation.
pub open spec fn cat_of(inputs: Seq<ValueSpecView>, dim: i64) -> Inferred {
    let first = inputs[0].dimensions;
    match axis_of(dim, first.len() as int) {
        Err(e) => Err(e),
        Ok(axis) => match concatenated(inputs, axis, inputs.len() as int) {
            Err(e) => Err(e),
            Ok(total) => Ok(first.update(axis, total)),
        },
    }
}

/// The dimensions of the result of an operator.
pub open spec fn result_of(operator: OperatorView, inputs: Seq<ValueSpecView>) -> Inferred {
    let first = inputs[0].dimensions;
    match operator {
        OperatorView::Identity | OperatorView::Relu | OperatorView::Sigmoid | OperatorView::Tanh => Ok(first),
        OperatorView::Add | OperatorView::Subtract | OperatorView::Multiply => broadcast_of(first, inputs[1].dimensions),
        OperatorView::Linear => linear_of(inputs),
        OperatorView::Matmul => matmul_of(first, inputs[1].dimensions),
        OperatorView::Transpose { dim0, dim1 } => transpose_of(first, dim0, dim1),
        OperatorView::Permute(axes) => permute_of(first, axes),
        OperatorView::Flatten { start, end } => flatten_of(first, start, end),
        OperatorView::Reshape(shape) => reshape_of(first, shape),
        OperatorView::Cat(dim) => cat_of(inputs, dim),
        OperatorView::If { .. } => Err(
            deployment_text("conditional export requires an explicit supported control-flow format"@),
        ),
    }
}

/// The spec of the result of an operation.
pub open spec fn inferred_spec(
    name: Seq<char>,
    operator: OperatorView,
    inputs: Seq<ValueSpecView>,
) -> core::result::Result<ValueSpecView, ErrorView> {
    if inputs.len() == 0 {
        Err(deployment_text("operator has no inputs"@))
    } else if exists|k: int| 0 <= k < inputs.len() && (#[trigger] inputs[k]).dtype != inputs[0].dtype {
        Err(deployment_text("export currently requires matching operand dtypes"@))
    } else {
        match result_of(operator, inputs) {
            Err(e) => Err(e),
            Ok(dimensions) => Ok(ValueSpecView { name, dtype: inputs[0].dtype, dimensions }),
        }
    }
}

fn axis(d: i64, rank: usize) -> (r: Result<usize>)
    ensures
        match (r, axis_of(d, rank as int)) {
            (Ok(at), Ok(expected)) => at == expected,
            (Err(e), Err(expected)) => e@ == expected,
            _ => false,
        },
{
    let at: i128 = if d < 0 {
        rank as i128 + d as i128
    } else {
        d as i128
    };
    if at < 0 || at >= rank as i128 {
        Err(deployment_error("axis outside tensor rank"))
    } else {
        Ok(at as usize)
    }
}

/// Whether two dimensions are equal whatever the symbols stand for.
pub fn is_alike(a: &Dimension, b: &Dimension) -> (r: bool)
    ensures
        r == alike(a@, b@),
{
    match (a, b) {
        (Dimension::Known(x), Dimension::Known(y)) => *x == *y,
        (Dimension::Symbol { name: x, .. }, Dimension::Symbol { name: y, .. }) => same(x.as_str(), y.as_str()),
        _ => false,
    }
}

fn is_known(d: &Dimension, n: i64) -> (r: bool)
    ensures
        r == (d@ == DimensionView::Known(n)),
{
    match d {
        Dimension::Known(m) => *m == n,
        _ => false,
    }
}

fn merge(a: &Dimension, b: &Dimension) -> (r: Option<Dimension>)
    ensures
        match (r, merged(Some(a@), Some(b@))) {
            (Some(d), Some(expected)) => d@ == expected,
            (None, None) => true,
            _ => false,
        },
{
    if is_known(a, 1) {
        Some(b.clone())
    } else if is_known(b, 1) {
        Some(a.clone())
    } else if is_alike(a, b) {
        Some(a.clone())
    } else {
        None
    }
}

fn broadcast(a: &[Dimension], b: &[Dimension]) -> (r: Result<Vec<Dimension>>)
    ensures
        match (r, broadcast_of(dimensions_view(a@), dimensions_view(b@))) {
            (Ok(dims), Ok(expected)) => dimensions_view(dims@) == expected,
            (Err(e), Err(expected)) => e@ == expected,
            _ => false,
        },
{
    let ghost x = dimensions_view(a@);
    let ghost y = dimensions_view(b@);
    let n: usize = if a.len() < b.len() {
        b.len()
    } else {
        a.len()
    };
    let mut out: Vec<Dimension> = Vec::new();
    let mut k: usize = 0;
    while k < n
        invariant
            x == dimensions_view(a@),
            y == dimensions_view(b@),
            n == larger(a@.len() as int, b@.len() as int),
            k <= n,
            out@.len() == k,
            forall|j: int|
                0 <= j < k ==> (#[trigger] merged(from_end(x, n - 1 - j), from_end(y, n - 1 - j))) == Some(out@[j]@),
        decreases n - k,
    {
        let i: usize = n - 1 - k;
        let ghost want = merged(from_end(x, i as int), from_end(y, i as int));
        let next: Option<Dimension> = if i >= a.len() {
            assert(y[b@.len() - 1 - i] == b@[b@.len() - 1 - i]@);
            Some(b[b.len() - 1 - i].clone())
        } else if i >= b.len() {
            assert(x[a@.len() - 1 - i] == a@[a@.len() - 1 - i]@);
            Some(a[a.len() - 1 - i].clone())
        } else {
            assert(y[b@.len() - 1 - i] == b@[b@.len() - 1 - i]@);
            assert(x[a@.len() - 1 - i] == a@[a@.len() - 1 - i]@);
            merge(&a[a.len() - 1 - i], &b[b.len() - 1 - i])
        };
        match next {
            None => {
                assert(want is None);
                return Err(deployment_error("cannot prove symbolic broadcasting for export"));
            },
            Some(d) => {
                assert(want == Some(d@));
                out.push(d);
            },
        }
        k += 1;
    }
    proof {
        assert forall|i: int| 0 <= i < n implies (#[trigger] merged(from_end(x, i), from_end(y, i))) is Some by {
            let j = n - 1 - i;
            assert(merged(from_end(x, n - 1 - j), from_end(y, n - 1 - j)) == Some(out@[j]@));
        }
        let expected = Seq::new(n as nat, |k: int| merged(from_end(x, n - 1 - k), from_end(y, n - 1 - k))->0);
        assert(dimensions_view(out@) =~= expected) by {
            assert forall|j: int| 0 <= j < n implies dimensions_view(out@)[j] == expected[j] by {
                assert(merged(from_end(x, n - 1 - j), from_end(y, n - 1 - j)) == Some(out@[j]@));
            }
        }
    }
    Ok(out)
}

proof fn factors_fail(dims: Seq<DimensionView>, k: int, n: int, messages: ProductMessages)
    requires
        0 <= k <= n,
        factors(dims, k, messages) is Err,
    ensures
        factors(dims, n, messages) == factors(dims, k, messages),
    decreases n - k,
{
    if k < n {
        factors_fail(dims, k, n - 1, messages);
    }
}

fn collect_factors(dims: &[Dimension], overflow: &str, symbols: &str) -> (r: Result<(i64, Option<Dimension>)>)
    ensures
        match (
            r,
            factors(
                dimensions_view(dims@),
                dims@.len() as int,
                ProductMessages { overflow: overflow@, symbols: symbols@ },
            ),
        ) {
            (Ok(pair), Ok(expected)) => pair.0 == expected.0 && (match (pair.1, expected.1) {
                (Some(d), Some(want)) => d@ == want,
                (None, None) => true,
                _ => false,
            }),
            (Err(e), Err(expected)) => e@ == expected,
            _ => false,
        },
{
    let ghost view = dimensions_view(dims@);
    let ghost messages = ProductMessages { overflow: overflow@, symbols: symbols@ };
    let mut count: i64 = 1;
    let mut symbol: Option<Dimension> = None;
    let mut k: usize = 0;
    while k < dims.len()
        invariant
            view == dimensions_view(dims@),
            messages == (ProductMessages { overflow: overflow@, symbols: symbols@ }),
            k <= dims@.len(),
            factors(view, k as int, messages) == Ok::<Factors, ErrorView>(
                (
                    count,
                    match symbol {
                        Some(d) => Some(d@),
                        None => None,
                    },
                ),
            ),
        decreases dims@.len() - k,
    {
        assert(view[k as int] == dims@[k as int]@);
        proof {
            if factors(view, k + 1, messages) is Err {
                factors_fail(view, k + 1, dims@.len() as int, messages);
            }
        }
        match &dims[k] {
            Dimension::Known(n) => {
                match count.checked_mul(*n) {
                    None => {
                        return Err(deployment_error(overflow));
                    },
                    Some(product) => {
                        count = product;
                    },
                }
            },
            Dimension::Symbol { .. } => {
                if symbol.is_some() {
                    return Err(deployment_error(symbols));
                }
                symbol = Some(dims[k].clone());
            },
        }
        k += 1;
    }
    Ok((count, symbol))
}

fn has_zero(dims: &[Dimension]) -> (r: bool)
    ensures
        r == dimensions_view(dims@).contains(DimensionView::Known(0)),
{
    let ghost view = dimensions_view(dims@);
    let mut k: usize = 0;
    while k < dims.len()
        invariant
            view == dimensions_view(dims@),
            k <= dims@.len(),
            forall|j: int| 0 <= j < k ==> #[trigger] view[j] != DimensionView::Known(0),
        decreases dims@.len() - k,
    {
        assert(view[k as int] == dims@[k as int]@);
        if is_known(&dims[k], 0) {
            assert(view.contains(view[k as int]));
            return true;
        }
        k += 1;
    }
    false
}

fn product(dims: &[Dimension]) -> (r: Result<Dimension>)
    ensures
        outcome(r) == product_of(dimensions_view(dims@)),
{
    if has_zero(dims) {
        return Ok(Dimension::Known(0));
    }
    match collect_factors(
        dims,
        "symbolic dimension product overflow",
        "products of symbolic dimensions are unsupported for export",
    ) {
        Err(e) => Err(e),
        Ok((count, None)) => Ok(Dimension::Known(count)),
        Ok((count, Some(symbol))) => {
            if count == 1 {
                Ok(symbol)
            } else {
                Err(deployment_error("scaled symbolic dimensions are unsupported for export"))
            }
        },
    }
}

/// The dimensions from `from` up to `end`.
fn part(dims: &Vec<Dimension>, from: usize, end: usize) -> (r: Vec<Dimension>)
    requires
        from <= end <= dims@.len(),
    ensures
        dimensions_view(r@) == dimensions_view(dims@).subrange(from as int, end as int),
{
    let mut out: Vec<Dimension> = Vec::new();
    let mut k: usize = from;
    while k < end
        invariant
            from <= k <= end <= dims@.len(),
            out@.len() == k - from,
            forall|j: int| 0 <= j < out@.len() ==> (#[trigger] out@[j])@ == dims@[from + j]@,
        decreases end - k,
    {
        out.push(dims[k].clone());
        k += 1;
    }
    assert(dimensions_view(out@) =~= dimensions_view(dims@).subrange(from as int, end as int));
    out
}

/// What an inference step returns, as mathematical content.
pub open spec fn told(r: Result<Vec<Dimension>>) -> Inferred {
    match r {
        Ok(dims) => Ok(dimensions_view(dims@)),
        Err(e) => Err(e@),
    }
}

/// The contents of a list of borrowed specs.
pub open spec fn borrowed_view(specs: Seq<&ValueSpec>) -> Seq<ValueSpecView> {
    specs.map_values(|s: &ValueSpec| s@)
}

fn infer_linear(inputs: &Vec<&ValueSpec>) -> (r: Result<Vec<Dimension>>)
    requires
        inputs@.len() == 2 || inputs@.len() == 3,
    ensures
        told(r) == linear_of(borrowed_view(inputs@)),
{
    let ghost views = borrowed_view(inputs@);
    let first = &inputs[0].dimensions;
    let weight = &inputs[1].dimensions;
    proof {
        assert(views[0] == inputs@[0]@ && views[1] == inputs@[1]@);
    }
    if first.len() == 0 || weight.len() != 2 || !is_alike(&first[first.len() - 1], &weight[1]) {
        return Err(deployment_error("linear dimensions cannot be proven during export"));
    }
    if inputs.len() == 3 {
        let head = part(weight, 0, 1);
        assert(views[2] == inputs@[2]@);
        assert(dimensions_view(weight@).subrange(0, 1) =~= dimensions_view(weight@).take(1));
        if !same_dimensions(inputs[2].dimensions.as_slice(), head.as_slice()) {
            return Err(deployment_error("linear bias dimensions differ from weight"));
        }
    }
    let mut shape = part(first, 0, first.len() - 1);
    let ghost head = dimensions_view(shape@);
    shape.push(weight[0].clone());
    assert(dimensions_view(shape@) =~= head.push(dimensions_view(weight@)[0]));
    assert(dimensions_view(shape@) =~= views[0].dimensions.update(first@.len() - 1, views[1].dimensions[0]));
    Ok(shape)
}

fn infer_matmul(a: &Vec<Dimension>, b: &Vec<Dimension>) -> (r: Result<Vec<Dimension>>)
    ensures
        told(r) == matmul_of(dimensions_view(a@), dimensions_view(b@)),
{
    let ghost x = dimensions_view(a@);
    let ghost y = dimensions_view(b@);
    if a.len() == 0 || b.len() == 0 {
        return Err(deployment_error("matmul inner dimensions cannot be proven during export"));
    }
    let inner: usize = if b.len() > 1 {
        b.len() - 2
    } else {
        0
    };
    if !is_alike(&a[a.len() - 1], &b[inner]) {
        return Err(deployment_error("matmul inner dimensions cannot be proven during export"));
    }
    let left = part(
        a,
        0,
        if a.len() > 2 {
            a.len() - 2
        } else {
            0
        },
    );
    let right = part(
        b,
        0,
        if b.len() > 2 {
            b.len() - 2
        } else {
            0
        },
    );
    assert(dimensions_view(left@) =~= batch_of(x));
    assert(dimensions_view(right@) =~= batch_of(y));
    let mut shape = match broadcast(left.as_slice(), right.as_slice()) {
        Ok(shape) => shape,
        Err(e) => {
            return Err(e);
        },
    };
    let ghost batch = dimensions_view(shape@);
    if a.len() > 1 {
        shape.push(a[a.len() - 2].clone());
        assert(dimensions_view(shape@) =~= batch.push(x[a@.len() - 2]));
    }
    let ghost rows = dimensions_view(shape@);
    if b.len() > 1 {
        shape.push(b[b.len() - 1].clone());
        assert(dimensions_view(shape@) =~= rows.push(y[b@.len() - 1]));
    }
    Ok(shape)
}

fn infer_transpose(dims: &Vec<Dimension>, dim0: i64, dim1: i64) -> (r: Result<Vec<Dimension>>)
    ensures
        told(r) == transpose_of(dimensions_view(dims@), dim0, dim1),
{
    let a = match axis(dim0, dims.len()) {
        Ok(a) => a,
        Err(e) => {
            return Err(e);
        },
    };
    let b = match axis(dim1, dims.len()) {
        Ok(b) => b,
        Err(e) => {
            return Err(e);
        },
    };
    let ghost view = dimensions_view(dims@);
    let ghost expected = view.update(a as int, view[b as int]).update(b as int, view[a as int]);
    let mut out: Vec<Dimension> = Vec::new();
    let mut k: usize = 0;
    while k < dims.len()
        invariant
            view == dimensions_view(dims@),
            expected == view.update(a as int, view[b as int]).update(b as int, view[a as int]),
            a < dims@.len(),
            b < dims@.len(),
            k <= dims@.len(),
            out@.len() == k,
            forall|j: int| 0 <= j < k ==> (#[trigger] out@[j])@ == expected[j],
        decreases dims@.len() - k,
    {
        let source: usize = if k == b {
            a
        } else if k == a {
            b
        } else {
            k
        };
        out.push(dims[source].clone());
        k += 1;
    }
    assert(dimensions_view(out@) =~= expected);
    Ok(out)
}

fn infer_permute(dims: &Vec<Dimension>, axes: &Vec<i64>) -> (r: Result<Vec<Dimension>>)
    ensures
        told(r) == permute_of(dimensions_view(dims@), axes@),
{
    let ghost view = dimensions_view(dims@);
    let mut out: Vec<Dimension> = Vec::new();
    let mut k: usize = 0;
    while k < axes.len()
        invariant
            view == dimensions_view(dims@),
            k <= axes@.len(),
            out@.len() == k,
            forall|j: int| 0 <= j < k ==> 0 <= #[trigger] axes@[j] < view.len(),
            forall|j: int| 0 <= j < k ==> (#[trigger] out@[j])@ == view[axes@[j] as int],
        decreases axes@.len() - k,
    {
        if axes[k] < 0 || axes[k] as i128 >= dims.len() as i128 {
            assert(!(0 <= axes@[k as int] < view.len()));
            return Err(deployment_error("permutation rank mismatch"));
        }
        out.push(dims[axes[k] as usize].clone());
        k += 1;
    }
    assert(dimensions_view(out@) =~= axes@.map_values(|a: i64| view[a as int]));
    Ok(out)
}

fn infer_flatten(dims: &Vec<Dimension>, start: i64, end: i64) -> (r: Result<Vec<Dimension>>)
    ensures
        told(r) == flatten_of(dimensions_view(dims@), start, end),
{
    let a = match axis(start, dims.len()) {
        Ok(a) => a,
        Err(e) => {
            return Err(e);
        },
    };
    let b = match axis(end, dims.len()) {
        Ok(b) => b,
        Err(e) => {
            return Err(e);
        },
    };
    if a > b {
        return Err(deployment_error("flatten axes reversed"));
    }
    let ghost view = dimensions_view(dims@);
    let middle = part(dims, a, b + 1);
    let flat = match product(middle.as_slice()) {
        Ok(flat) => flat,
        Err(e) => {
            return Err(e);
        },
    };
    let ghost expected = view.take(a as int).push(flat@) + view.skip(b + 1);
    let mut out = part(dims, 0, a);
    out.push(flat);
    let mut k: usize = b + 1;
    while k < dims.len()
        invariant
            view == dimensions_view(dims@),
            a <= b < dims@.len(),
            expected == view.take(a as int).push(flat@) + view.skip(b + 1),
            b + 1 <= k <= dims@.len(),
            out@.len() == a + 1 + (k - (b + 1)),
            dimensions_view(out@) == expected.take(out@.len() as int),
        decreases dims@.len() - k,
    {
        let ghost earlier = out@;
        out.push(dims[k].clone());
        proof {
            assert(view[k as int] == dims@[k as int]@);
            assert(dimensions_view(out@) =~= dimensions_view(earlier).push(view[k as int]));
            assert(expected[earlier.len() as int] == view[k as int]);
            assert(expected.take(out@.len() as int) =~= expected.take(earlier.len() as int).push(view[k as int]));
        }
        k += 1;
    }
    assert(dimensions_view(out@) =~= expected);
    Ok(out)
}

fn as_known(shape: &Vec<i64>) -> (r: Vec<Dimension>)
    ensures
        dimensions_view(r@) == known_dims(shape@),
{
    let mut out: Vec<Dimension> = Vec::new();
    let mut k: usize = 0;
    while k < shape.len()
        invariant
            k <= shape@.len(),
            out@.len() == k,
            forall|j: int| 0 <= j < k ==> (#[trigger] out@[j])@ == DimensionView::Known(shape@[j]),
        decreases shape@.len() - k,
    {
        out.push(Dimension::Known(shape[k]));
        k += 1;
    }
    assert(dimensions_view(out@) =~= known_dims(shape@));
    out
}

fn find_inferred(shape: &Vec<i64>) -> (r: Option<usize>)
    ensures
        match (r, inferred_axis(shape@)) {
            (Some(at), Some(expected)) => at == expected && at < shape@.len(),
            (None, None) => true,
            _ => false,
        },
{
    let mut k: usize = 0;
    while k < shape.len()
        invariant
            k <= shape@.len(),
            forall|j: int| 0 <= j < k ==> #[trigger] shape@[j] != -1,
        decreases shape@.len() - k,
    {
        if shape[k] == -1 {
            proof {
                assert(shape@[k as int] == -1i64);
                assert(shape@.contains(-1i64));
                shape@.index_of_first_ensures(-1i64);
            }
            return Some(k);
        }
        k += 1;
    }
    None
}

proof fn divisor_fails(shape: Seq<i64>, k: int, n: int)
    requires
        0 <= k <= n,
        divisor_of(shape, k) is None,
    ensures
        divisor_of(shape, n) is None,
    decreases n - k,
{
    if k < n {
        divisor_fails(shape, k, n - 1);
    }
}

fn divisor(shape: &Vec<i64>) -> (r: Option<i64>)
    ensures
        r == divisor_of(shape@, shape@.len() as int),
{
    let mut product: i64 = 1;
    let mut k: usize = 0;
    while k < shape.len()
        invariant
            k <= shape@.len(),
            divisor_of(shape@, k as int) == Some(product),
        decreases shape@.len() - k,
    {
        if shape[k] != -1 {
            match product.checked_mul(shape[k]) {
                None => {
                    proof {
                        divisor_fails(shape@, k + 1, shape@.len() as int);
                    }
                    return None;
                },
                Some(p) => {
                    product = p;
                },
            }
        }
        k += 1;
    }
    Some(product)
}

/// The quotient of two numbers where it is whole.
fn whole_quotient(a: i64, b: i64) -> (r: Option<i64>)
    requires
        b > 0,
    ensures
        r == (if a as int % b as int == 0 {
            Some((a as int / b as int) as i64)
        } else {
            None
        }),
{
    if a >= 0 {
        if a % b == 0 {
            Some(a / b)
        } else {
            None
        }
    } else {
        let size: i128 = -(a as i128);
        let rest: i128 = size % (b as i128);
        let part: i128 = size / (b as i128);
        proof {
            negative_quotient(a as int, b as int);
        }
        if rest == 0 {
            assert(0 < part <= size) by (nonlinear_arith)
                requires
                    part == size / b as i128,
                    size % b as i128 == 0,
                    size > 0,
                    b > 0,
            ;
            Some((-part) as i64)
        } else {
            None
        }
    }
}

proof fn negative_quotient(a: int, b: int)
    requires
        a < 0,
        b > 0,
    ensures
        a % b == 0 <==> (-a) % b == 0,
        a % b == 0 ==> a / b == -((-a) / b),
{
    vstd::arithmetic::div_mod::lemma_fundamental_div_mod(a, b);
    vstd::arithmetic::div_mod::lemma_fundamental_div_mod(-a, b);
    if a % b == 0 {
        let q = a / b;
        assert(-a == (-q) * b) by (nonlinear_arith)
            requires
                a == b * q,
        ;
        vstd::arithmetic::div_mod::lemma_fundamental_div_mod_converse(-a, b, -q, 0);
    }
    if (-a) % b == 0 {
        let q = (-a) / b;
        assert(a == (-q) * b) by (nonlinear_arith)
            requires
                -a == b * q,
        ;
        vstd::arithmetic::div_mod::lemma_fundamental_div_mod_converse(a, b, -q, 0);
    }
}

fn infer_quotient(dims: &Vec<Dimension>, divisor: i64) -> (r: Result<Dimension>)
    requires
        divisor > 0,
    ensures
        outcome(r) == quotient_of(dimensions_view(dims@), divisor),
{
    match collect_factors(dims.as_slice(), "reshape size overflow", "reshape has multiple symbolic dimensions") {
        Err(e) => Err(e),
        Ok((known, None)) => {
            match whole_quotient(known, divisor) {
                Some(q) => Ok(Dimension::Known(q)),
                None => Err(deployment_error("cannot express inferred reshape dimension")),
            }
        },
        Ok((known, Some(symbol))) => {
            if known == divisor {
                Ok(symbol)
            } else {
                Err(deployment_error("cannot express inferred reshape dimension"))
            }
        },
    }
}

fn infer_reshape(dims: &Vec<Dimension>, shape: &Vec<i64>) -> (r: Result<Vec<Dimension>>)
    ensures
        told(r) == reshape_of(dimensions_view(dims@), shape@),
{
    let mut result = as_known(shape);
    if let Some(index) = find_inferred(shape) {
        let divisor = match divisor(shape) {
            Some(divisor) => divisor,
            None => {
                return Err(deployment_error("reshape product overflow"));
            },
        };
        if divisor <= 0 {
            return Err(deployment_error("ambiguous reshape inferred dimension"));
        }
        let d = match infer_quotient(dims, divisor) {
            Ok(d) => d,
            Err(e) => {
                return Err(e);
            },
        };
        assert(dimensions_view(result@).len() == result@.len());
        assert(known_dims(shape@).len() == shape@.len());
        let ghost size = d@;
        result.set(index, d);
        assert(dimensions_view(result@) =~= known_dims(shape@).update(index as int, size));
        return Ok(result);
    }
    let have = match product(dims.as_slice()) {
        Ok(d) => d,
        Err(e) => {
            return Err(e);
        },
    };
    let want = match product(result.as_slice()) {
        Ok(d) => d,
        Err(e) => {
            return Err(e);
        },
    };
    if !have.same_as(&want) {
        return Err(deployment_error("reshape element counts cannot be proven"));
    }
    Ok(result)
}

fn extend_total(total: &Dimension, next: &Dimension) -> (r: Result<Dimension>)
    ensures
        outcome(r) == extended(total@, next@),
{
    match (total, next) {
        (Dimension::Known(a), Dimension::Known(b)) => {
            match a.checked_add(*b) {
                Some(sum) => Ok(Dimension::Known(sum)),
                None => Err(deployment_error("cat size overflow")),
            }
        },
        _ => {
            if is_known(total, 0) {
                Ok(next.clone())
            } else if is_known(next, 0) {
                Ok(total.clone())
            } else {
                Err(deployment_error("cat introduces an unsupported symbolic sum"))
            }
        },
    }
}

proof fn concatenation_fails(inputs: Seq<ValueSpecView>, axis: int, k: int, n: int)
    requires
        0 <= k <= n,
        concatenated(inputs, axis, k) is Err,
    ensures
        concatenated(inputs, axis, n) == concatenated(inputs, axis, k),
    decreases n - k,
{
    if k < n {
        concatenation_fails(inputs, axis, k, n - 1);
    }
}

fn all_alike_but(a: &Vec<Dimension>, b: &Vec<Dimension>, axis: usize) -> (r: bool)
    requires
        a@.len() == b@.len(),
    ensures
        r == !(exists|k: int|
            0 <= k < a@.len() && k != axis && !alike(#[trigger] dimensions_view(a@)[k], dimensions_view(b@)[k])),
{
    let ghost x = dimensions_view(a@);
    let ghost y = dimensions_view(b@);
    let mut k: usize = 0;
    while k < a.len()
        invariant
            x == dimensions_view(a@),
            y == dimensions_view(b@),
            a@.len() == b@.len(),
            k <= a@.len(),
            forall|j: int| 0 <= j < k && j != axis ==> alike(#[trigger] x[j], y[j]),
        decreases a@.len() - k,
    {
        assert(x[k as int] == a@[k as int]@ && y[k as int] == b@[k as int]@);
        if k != axis && !is_alike(&a[k], &b[k]) {
            return false;
        }
        k += 1;
    }
    true
}

#[verifier::loop_isolation(false)]
fn infer_cat(inputs: &Vec<&ValueSpec>, dim: i64) -> (r: Result<Vec<Dimension>>)
    requires
        inputs@.len() > 0,
    ensures
        told(r) == cat_of(borrowed_view(inputs@), dim),
{
    let ghost views = borrowed_view(inputs@);
    let first = &inputs[0].dimensions;
    assert(views[0] == inputs@[0]@);
    let at = match axis(dim, first.len()) {
        Ok(at) => at,
        Err(e) => {
            return Err(e);
        },
    };
    let mut total = Dimension::Known(0);
    let mut i: usize = 0;
    while i < inputs.len()
        invariant
            views == borrowed_view(inputs@),
            views[0].dimensions == dimensions_view(first@),
            at < first@.len(),
            i <= inputs@.len(),
            concatenated(views, at as int, i as int) == Ok::<DimensionView, ErrorView>(total@),
        decreases inputs@.len() - i,
    {
        let dims = &inputs[i].dimensions;
        proof {
            assert(views[i as int] == inputs@[i as int]@);
            assert(views[i as int].dimensions == dimensions_view(dims@));
            if concatenated(views, at as int, i + 1) is Err {
                concatenation_fails(views, at as int, i + 1, inputs@.len() as int);
            }
        }
        if dims.len() != first.len() {
            return Err(deployment_error("cat rank mismatch"));
        }
        if !all_alike_but(first, dims, at) {
            return Err(deployment_error("cat non-axis dimensions cannot be proven"));
        }
        assert(dimensions_view(dims@)[at as int] == dims@[at as int]@);
        total = match extend_total(&total, &dims[at]) {
            Ok(sum) => sum,
            Err(e) => {
                return Err(e);
            },
        };
        i += 1;
    }
    let mut out = copy_dimensions(first.as_slice());
    let ghost size = total@;
    out.set(at, total);
    assert(dimensions_view(out@) =~= views[0].dimensions.update(at as int, size)) by {
        assert forall|j: int| 0 <= j < out@.len() && j != at implies out@[j]@ == dimensions_view(first@)[j] by {}
    }
    Ok(out)
}

fn infer_dimensions(operator: &Operator, inputs: &Vec<&ValueSpec>) -> (r: Result<Vec<Dimension>>)
    requires
        operator_ok(operator@, inputs@.len() as int),
        inputs@.len() > 0,
    ensures
        told(r) == result_of(operator@, borrowed_view(inputs@)),
{
    let ghost views = borrowed_view(inputs@);
    let first = &inputs[0].dimensions;
    proof {
        assert(views[0] == inputs@[0]@);
        if inputs@.len() > 1 {
            assert(views[1] == inputs@[1]@);
        }
    }
    match operator {
        Operator::Identity | Operator::Relu | Operator::Sigmoid | Operator::Tanh => Ok(copy_dimensions(first.as_slice())),
        Operator::Add | Operator::Subtract | Operator::Multiply => broadcast(
            first.as_slice(),
            inputs[1].dimensions.as_slice(),
        ),
        Operator::Linear => infer_linear(inputs),
        Operator::Matmul => infer_matmul(first, &inputs[1].dimensions),
        Operator::Transpose { dim0, dim1 } => infer_transpose(first, *dim0, *dim1),
        Operator::Permute(axes) => infer_permute(first, axes),
        Operator::Flatten { start, end } => infer_flatten(first, *start, *end),
        Operator::Reshape(shape) => infer_reshape(first, shape),
        Operator::Cat(dim) => infer_cat(inputs, *dim),
        Operator::If { .. } => Err(
            deployment_error("conditional export requires an explicit supported control-flow format"),
        ),
    }
}

/// What is known of a state tensor.
#[derive(Debug)]
pub struct StateMeta {
    /// The element type.
    pub kind: Kind,
    /// The size of each axis.
    pub shape: Vec<i64>,
}

/// Specs by name.
pub type SpecMap = Map<Seq<char>, ValueSpecView>;

/// The contents of a map of specs.
pub open spec fn spec_views(specs: Map<Seq<char>, ValueSpec>) -> SpecMap {
    Map::new(|n: Seq<char>| specs.dom().contains(n), |n: Seq<char>| specs[n]@)
}

/// The specs of the first `n` inputs.
pub open spec fn input_specs(inputs: Seq<ValueSpecView>, n: int) -> SpecMap
    decreases n,
{
    if n <= 0 {
        Map::empty()
    } else {
        input_specs(inputs, n - 1).insert(inputs[n - 1].name, inputs[n - 1])
    }
}

/// The specs with those of the first `n` state tensors added, in name order.
pub open spec fn state_specs(
    specs: SpecMap,
    names: Seq<Seq<char>>,
    tensors: Seq<StateMeta>,
    n: int,
) -> core::result::Result<SpecMap, ErrorView>
    decreases n,
{
    if n <= 0 {
        Ok(specs)
    } else {
        match state_specs(specs, names, tensors, n - 1) {
            Err(e) => Err(e),
            Ok(map) => match DType::of(tensors[n - 1].kind) {
                Err(e) => Err(e),
                Ok(dtype) => Ok(
                    map.insert(
                        names[n - 1],
                        ValueSpecView { name: names[n - 1], dtype, dimensions: known_dims(tensors[n - 1].shape@) },
                    ),
                ),
            },
        }
    }
}

/// The specs with those of the first `n` results added.
pub open spec fn operation_specs(specs: SpecMap, operations: Seq<OperationView>, n: int) -> core::result::Result<SpecMap, ErrorView>
    decreases n,
{
    if n <= 0 {
        Ok(specs)
    } else {
        match operation_specs(specs, operations, n - 1) {
            Err(e) => Err(e),
            Ok(map) => {
                let node = operations[n - 1];
                match inferred_spec(node.name, node.operator, node.inputs.map_values(|i: Seq<char>| map[i])) {
                    Err(e) => Err(e),
                    Ok(spec) => Ok(map.insert(node.name, spec)),
                }
            },
        }
    }
}

/// The specs of the inputs, the state and every result of a program.
pub open spec fn all_specs(
    program: ProgramView,
    names: Seq<Seq<char>>,
    tensors: Seq<StateMeta>,
) -> core::result::Result<SpecMap, ErrorView> {
    match state_specs(input_specs(program.inputs, program.inputs.len() as int), names, tensors, names.len() as int) {
        Err(e) => Err(e),
        Ok(map) => operation_specs(map, program.operations, program.operations.len() as int),
    }
}

/// Infers the spec of the result of an operation from the specs of its operands.
pub fn infer_operation(name: &str, operator: &Operator, inputs: &Vec<&ValueSpec>) -> (r: Result<ValueSpec>)
    requires
        operator_ok(operator@, inputs@.len() as int),
    ensures
        outcome(r) == inferred_spec(name@, operator@, borrowed_view(inputs@)),
{
    let ghost views = borrowed_view(inputs@);
    if inputs.len() == 0 {
        return Err(deployment_error("operator has no inputs"));
    }
    let dtype = inputs[0].dtype;
    assert(views[0] == inputs@[0]@);
    let mut k: usize = 0;
    while k < inputs.len()
        invariant
            views == borrowed_view(inputs@),
            dtype == views[0].dtype,
            k <= inputs@.len(),
            forall|j: int| 0 <= j < k ==> (#[trigger] views[j]).dtype == dtype,
        decreases inputs@.len() - k,
    {
        assert(views[k as int] == inputs@[k as int]@);
        if inputs[k].dtype != dtype {
            return Err(deployment_error("export currently requires matching operand dtypes"));
        }
        k += 1;
    }
    match infer_dimensions(operator, inputs) {
        Ok(dimensions) => Ok(ValueSpec::new(name, dtype, dimensions)),
        Err(e) => Err(e),
    }
}

proof fn state_specs_fail(specs: SpecMap, names: Seq<Seq<char>>, tensors: Seq<StateMeta>, k: int, n: int)
    requires
        0 <= k <= n,
        state_specs(specs, names, tensors, k) is Err,
    ensures
        state_specs(specs, names, tensors, n) == state_specs(specs, names, tensors, k),
    decreases n - k,
{
    if k < n {
        state_specs_fail(specs, names, tensors, k, n - 1);
    }
}

proof fn operation_specs_fail(specs: SpecMap, operations: Seq<OperationView>, k: int, n: int)
    requires
        0 <= k <= n,
        operation_specs(specs, operations, k) is Err,
    ensures
        operation_specs(specs, operations, n) == operation_specs(specs, operations, k),
    decreases n - k,
{
    if k < n {
        operation_specs_fail(specs, operations, k, n - 1);
    }
}

/// Every input name has a spec.
proof fn input_specs_have(inputs: Seq<ValueSpecView>, n: int)
    requires
        0 <= n <= inputs.len(),
    ensures
        forall|j: int| 0 <= j < n ==> input_specs(inputs, n).dom().contains((#[trigger] inputs[j]).name),
    decreases n,
{
    if n > 0 {
        input_specs_have(inputs, n - 1);
    }
}

/// Inserting a spec inserts its content.
proof fn spec_views_insert(specs: Map<Seq<char>, ValueSpec>, name: Seq<char>, spec: ValueSpec)
    ensures
        spec_views(specs.insert(name, spec)) == spec_views(specs).insert(name, spec@),
{
    assert(spec_views(specs.insert(name, spec)) =~= spec_views(specs).insert(name, spec@));
}

fn collect_inputs(inputs: &Vec<ValueSpec>) -> (r: NameMap<ValueSpec>)
    ensures
        r.wf(),
        spec_views(r@) == input_specs(value_specs_view(inputs@), inputs@.len() as int),
{
    let ghost view = value_specs_view(inputs@);
    let mut specs: NameMap<ValueSpec> = NameMap::new();
    let mut i: usize = 0;
    assert(spec_views(specs@) =~= input_specs(view, 0));
    while i < inputs.len()
        invariant
            view == value_specs_view(inputs@),
            i <= inputs@.len(),
            specs.wf(),
            spec_views(specs@) == input_specs(view, i as int),
        decreases inputs@.len() - i,
    {
        assert(view[i as int] == inputs@[i as int]@);
        let ghost earlier = specs@;
        let spec = inputs[i].clone();
        proof {
            spec_views_insert(earlier, spec.name@, spec);
        }
        specs.insert(spec.name.clone(), spec);
        i += 1;
    }
    specs
}

fn collect_state(specs: &mut NameMap<ValueSpec>, state: &NameMap<StateMeta>) -> (r: Result<()>)
    requires
        old(specs).wf(),
        state.wf(),
    ensures
        final(specs).wf(),
        match (r, state_specs(spec_views(old(specs)@), state.listing(), state.items(), state.listing().len() as int)) {
            (Ok(_), Ok(map)) => spec_views(final(specs)@) == map,
            (Err(e), Err(expected)) => e@ == expected,
            _ => false,
        },
        r is Ok ==> forall|n: Seq<char>|
            #![trigger final(specs)@.dom().contains(n)]
            final(specs)@.dom().contains(n) <==> (old(specs)@.dom().contains(n) || state@.dom().contains(n)),
{
    let ghost start = specs@;
    let ghost names = state.listing();
    let ghost tensors = state.items();
    let ghost n = names.len() as int;
    let mut i: usize = 0;
    while i < state.len()
        invariant
            state.wf(),
            start == old(specs)@,
            names == state.listing(),
            tensors == state.items(),
            n == names.len(),
            i <= n,
            specs.wf(),
            state_specs(spec_views(start), names, tensors, i as int) == Ok::<SpecMap, ErrorView>(spec_views(specs@)),
            forall|m: Seq<char>|
                #![trigger specs@.dom().contains(m)]
                specs@.dom().contains(m) <==> (start.dom().contains(m) || exists|j: int| 0 <= j < i && #[trigger] names[j] == m),
        decreases n - i,
    {
        proof {
            if state_specs(spec_views(start), names, tensors, i + 1) is Err {
                state_specs_fail(spec_views(start), names, tensors, i + 1, n);
            }
        }
        let tensor = state.item(i);
        let dtype = match DType::from_kind(tensor.kind) {
            Ok(dtype) => dtype,
            Err(e) => {
                return Err(e);
            },
        };
        let name = state.name(i);
        let spec = ValueSpec::new(name.as_str(), dtype, as_known(&tensor.shape));
        let ghost earlier = specs@;
        proof {
            spec_views_insert(earlier, name@, spec);
        }
        specs.insert(name.clone(), spec);
        proof {
            assert forall|m: Seq<char>|
                #![trigger specs@.dom().contains(m)]
                specs@.dom().contains(m) <==> (start.dom().contains(m) || exists|j: int|
                    0 <= j < i + 1 && #[trigger] names[j] == m) by {
                if m == names[i as int] {
                    assert(names[i as int] == m);
                } else {
                    assert(specs@.dom().contains(m) == earlier.dom().contains(m));
                    if exists|j: int| 0 <= j < i + 1 && #[trigger] names[j] == m {
                        let j = choose|j: int| 0 <= j < i + 1 && #[trigger] names[j] == m;
                        assert(j != i);
                    }
                }
            }
        }
        i += 1;
    }
    proof {
        assert forall|m: Seq<char>|
            #![trigger specs@.dom().contains(m)]
            specs@.dom().contains(m) <==> (start.dom().contains(m) || state@.dom().contains(m)) by {
            if state@.dom().contains(m) {
                state.map_is_listed(m);
            }
            if exists|j: int| 0 <= j < n && #[trigger] names[j] == m {
                let j = choose|j: int| 0 <= j < n && #[trigger] names[j] == m;
                state.entry_in_map(j);
            }
        }
    }
    Ok(())
}

/// The specs of a list of names.
fn look_up<'a>(specs: &'a NameMap<ValueSpec>, names: &Vec<String>) -> (r: Vec<&'a ValueSpec>)
    requires
        specs.wf(),
        forall|k: int| 0 <= k < names@.len() ==> specs@.dom().contains(#[trigger] texts(names@)[k]),
    ensures
        borrowed_view(r@) == texts(names@).map_values(|i: Seq<char>| spec_views(specs@)[i]),
        r@.len() == names@.len(),
{
    let ghost view = texts(names@);
    let ghost expected = view.map_values(|i: Seq<char>| spec_views(specs@)[i]);
    let mut out: Vec<&'a ValueSpec> = Vec::new();
    let mut k: usize = 0;
    while k < names.len()
        invariant
            specs.wf(),
            view == texts(names@),
            expected == view.map_values(|i: Seq<char>| spec_views(specs@)[i]),
            forall|k: int| 0 <= k < names@.len() ==> specs@.dom().contains(#[trigger] view[k]),
            k <= names@.len(),
            out@.len() == k,
            forall|j: int| 0 <= j < k ==> (#[trigger] out@[j])@ == expected[j],
        decreases names@.len() - k,
    {
        assert(view[k as int] == names@[k as int]@);
        assert(specs@.dom().contains(view[k as int]));
        match specs.get(names[k].as_str()) {
            Some(spec) => {
                out.push(spec);
            },
            None => {},
        }
        k += 1;
    }
    assert(borrowed_view(out@) =~= expected);
    out
}

/// Infers the specs of the inputs, the state and every result of a program. The state is
/// given by name.
pub fn infer_specs(program: &Program, state: &NameMap<StateMeta>) -> (r: Result<NameMap<ValueSpec>>)
    requires
        state.wf(),
        accepted(program@, state@.dom()),
    ensures
        match (r, all_specs(program@, state.listing(), state.items())) {
            (Ok(specs), Ok(expected)) => specs.wf() && spec_views(specs@) == expected,
            (Err(e), Err(expected)) => e@ == expected,
            _ => false,
        },
{
    let ghost view = program@;
    let ghost known = state@.dom();
    proof {
        program_parts(*program);
        input_specs_have(view.inputs, view.inputs.len() as int);
    }
    let mut specs = collect_inputs(&program.inputs);
    let ghost first = specs@;
    if let Err(e) = collect_state(&mut specs, state) {
        return Err(e);
    }
    let ghost start = spec_views(specs@);
    let ghost n = view.operations.len() as int;
    proof {
        assert forall|name: Seq<char>| #[trigger] known_name(view.inputs, view.operations, known, 0, name) implies specs@.dom().contains(
            name,
        ) by {
            if !known.contains(name) {
                let j = choose|j: int| 0 <= j < view.inputs.len() && (#[trigger] view.inputs[j]).name == name;
                assert(input_specs(view.inputs, view.inputs.len() as int).dom().contains(view.inputs[j].name));
                assert(spec_views(first).dom().contains(name));
                assert(first.dom().contains(name));
            }
        }
    }
    let mut i: usize = 0;
    while i < program.operations.len()
        invariant
            view == program@,
            view.operations == operations_view(program.operations@),
            accepted(view, known),
            n == view.operations.len(),
            i <= n,
            specs.wf(),
            operation_specs(start, view.operations, i as int) == Ok::<SpecMap, ErrorView>(spec_views(specs@)),
            forall|name: Seq<char>| #[trigger]
                known_name(view.inputs, view.operations, known, i as int, name) ==> specs@.dom().contains(name),
            all_specs(view, state.listing(), state.items()) == operation_specs(start, view.operations, n),
        decreases n - i,
    {
        let node = &program.operations[i];
        proof {
            assert(view.operations[i as int] == node@);
            operation_parts(*node);
            operation_is_sound(view, known, i as int);
            if operation_specs(start, view.operations, i + 1) is Err {
                operation_specs_fail(start, view.operations, i + 1, n);
            }
            assert forall|k: int| 0 <= k < node.inputs@.len() implies specs@.dom().contains(#[trigger] texts(node.inputs@)[k]) by {
                assert(known_name(view.inputs, view.operations, known, i as int, node@.inputs[k]));
            }
        }
        let inputs = look_up(&specs, &node.inputs);
        let spec = match infer_operation(node.name.as_str(), &node.operator, &inputs) {
            Ok(spec) => spec,
            Err(e) => {
                return Err(e);
            },
        };
        let ghost earlier = specs@;
        proof {
            spec_views_insert(earlier, node.name@, spec);
        }
        specs.insert(node.name.clone(), spec);
        proof {
            assert forall|name: Seq<char>| #[trigger]
                known_name(view.inputs, view.operations, known, i + 1, name) implies specs@.dom().contains(name) by {
                if name != node@.name {
                    assert(known_name(view.inputs, view.operations, known, i as int, name)) by {
                        if exists|j: int| 0 <= j < i + 1 && (#[trigger] view.operations[j]).name == name {
                            let j = choose|j: int| 0 <= j < i + 1 && (#[trigger] view.operations[j]).name == name;
                            assert(j != i);
                        }
                    }
                }
            }
        }
        i += 1;
    }
    Ok(specs)
}

/// Every name of a program has a spec.
pub(crate) proof fn all_specs_have(program: ProgramView, state: NameMap<StateMeta>)
    requires
        state.wf(),
        all_specs(program, state.listing(), state.items()) is Ok,
    ensures
        forall|name: Seq<char>| #[trigger]
            known_name(program.inputs, program.operations, state@.dom(), program.operations.len() as int, name)
                ==> all_specs(program, state.listing(), state.items())->Ok_0.dom().contains(name),
{
    let inputs = program.inputs;
    let names = state.listing();
    let tensors = state.items();
    let first = input_specs(inputs, inputs.len() as int);
    let second = state_specs(first, names, tensors, names.len() as int)->Ok_0;
    let n = program.operations.len() as int;
    let last = operation_specs(second, program.operations, n)->Ok_0;
    input_specs_have(inputs, inputs.len() as int);
    state_specs_have(first, names, tensors, names.len() as int);
    operation_specs_have(second, program.operations, n);
    assert forall|name: Seq<char>| #[trigger]
        known_name(inputs, program.operations, state@.dom(), n, name) implies last.dom().contains(name) by {
        if state@.dom().contains(name) {
            state.map_is_listed(name);
            let i = choose|i: int| 0 <= i < names.len() && #[trigger] names[i] == name;
            assert(second.dom().contains(names[i]));
        } else if exists|j: int| 0 <= j < inputs.len() && (#[trigger] inputs[j]).name == name {
            let j = choose|j: int| 0 <= j < inputs.len() && (#[trigger] inputs[j]).name == name;
            assert(first.dom().contains(inputs[j].name));
            assert(second.dom().contains(name));
        } else {
            let j = choose|j: int| 0 <= j < n && (#[trigger] program.operations[j]).name == name;
            assert(last.dom().contains(program.operations[j].name));
        }
    }
}

proof fn state_specs_have(specs: SpecMap, names: Seq<Seq<char>>, tensors: Seq<StateMeta>, n: int)
    requires
        0 <= n <= names.len(),
        state_specs(specs, names, tensors, n) is Ok,
    ensures
        forall|name: Seq<char>|
            specs.dom().contains(name) ==> #[trigger] state_specs(specs, names, tensors, n)->Ok_0.dom().contains(name),
        forall|i: int| 0 <= i < n ==> state_specs(specs, names, tensors, n)->Ok_0.dom().contains(#[trigger] names[i]),
    decreases n,
{
    if n > 0 {
        state_specs_have(specs, names, tensors, n - 1);
        let before = state_specs(specs, names, tensors, n - 1)->Ok_0;
        let now = state_specs(specs, names, tensors, n)->Ok_0;
        assert forall|i: int| 0 <= i < n implies now.dom().contains(#[trigger] names[i]) by {
            if i < n - 1 {
                assert(before.dom().contains(names[i]));
            }
        }
        assert forall|name: Seq<char>| specs.dom().contains(name) implies #[trigger] now.dom().contains(name) by {
            assert(before.dom().contains(name));
        }
    }
}

proof fn operation_specs_have(specs: SpecMap, operations: Seq<OperationView>, n: int)
    requires
        0 <= n <= operations.len(),
        operation_specs(specs, operations, n) is Ok,
    ensures
        forall|name: Seq<char>|
            specs.dom().contains(name) ==> #[trigger] operation_specs(specs, operations, n)->Ok_0.dom().contains(name),
        forall|i: int|
            0 <= i < n ==> operation_specs(specs, operations, n)->Ok_0.dom().contains((#[trigger] operations[i]).name),
    decreases n,
{
    if n > 0 {
        operation_specs_have(specs, operations, n - 1);
        let before = operation_specs(specs, operations, n - 1)->Ok_0;
        let now = operation_specs(specs, operations, n)->Ok_0;
        assert forall|i: int| 0 <= i < n implies now.dom().contains((#[trigger] operations[i]).name) by {
            if i < n - 1 {
                assert(before.dom().contains(operations[i].name));
            }
        }
        assert forall|name: Seq<char>| specs.dom().contains(name) implies #[trigger] now.dom().contains(name) by {
            assert(before.dom().contains(name));
        }
    }
}

} // verus!
