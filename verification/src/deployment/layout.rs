//! How tensors lie in raw storage.
use super::program::MAX_RANK;
use super::types::DType;
use crate::error::{deployment_error, deployment_text, refusal, ErrorView, Result};
use vstd::prelude::*;

verus! {

/// The largest tensor, and the largest sum of all storages, in bytes.
pub const MAX_BYTES: usize = 268435456;

/// The number of elements of the first `n` dimensions, or why it cannot be had.
pub open spec fn element_count(shape: Seq<i64>, n: int) -> core::result::Result<int, ErrorView>
    decreases n,
{
    if n <= 0 {
        Ok(1)
    } else {
        match element_count(shape, n - 1) {
            Err(e) => Err(e),
            Ok(count) => if shape[n - 1] < 0 || shape[n - 1] > usize::MAX {
                Err(deployment_text("negative dimension"@))
            } else if count * shape[n - 1] > usize::MAX {
                Err(deployment_text("tensor size overflow"@))
            } else {
                Ok(count * shape[n - 1])
            },
        }
    }
}

/// The size of a contiguous tensor in bytes, or why it is refused.
pub open spec fn byte_size(shape: Seq<i64>, dtype: DType) -> core::result::Result<int, ErrorView> {
    if shape.len() > MAX_RANK {
        Err(deployment_text("rank exceeds 64"@))
    } else {
        match element_count(shape, shape.len() as int) {
            Err(e) => Err(e),
            Ok(count) => if count * dtype.width() > usize::MAX {
                Err(deployment_text("tensor byte size overflow"@))
            } else if count * dtype.width() > MAX_BYTES {
                Err(deployment_text("tensor exceeds size limit"@))
            } else {
                Ok(count * dtype.width())
            },
        }
    }
}

/// A failed count stays failed.
proof fn element_count_fails(shape: Seq<i64>, k: int, n: int)
    requires
        0 <= k <= n,
        element_count(shape, k) is Err,
    ensures
        element_count(shape, n) == element_count(shape, k),
    decreases n - k,
{
    if k < n {
        element_count_fails(shape, k, n - 1);
    }
}

/// The size of a contiguous tensor in bytes.
pub fn byte_count(shape: &[i64], dtype: DType) -> (r: Result<usize>)
    ensures
        match (r, byte_size(shape@, dtype)) {
            (Ok(bytes), Ok(expected)) => bytes == expected,
            (Err(e), Err(expected)) => e@ == expected,
            _ => false,
        },
{
    if shape.len() > MAX_RANK {
        return Err(deployment_error("rank exceeds 64"));
    }
    let mut count: usize = 1;
    let mut i: usize = 0;
    while i < shape.len()
        invariant
            i <= shape@.len(),
            shape@.len() <= MAX_RANK,
            element_count(shape@, i as int) == Ok::<int, ErrorView>(count as int),
        decreases shape@.len() - i,
    {
        let size: i64 = shape[i];
        if size < 0 || size as u128 > usize::MAX as u128 {
            proof {
                element_count_fails(shape@, i + 1, shape@.len() as int);
            }
            return Err(deployment_error("negative dimension"));
        }
        match count.checked_mul(size as usize) {
            Some(product) => {
                count = product;
            },
            None => {
                proof {
                    element_count_fails(shape@, i + 1, shape@.len() as int);
                }
                return Err(deployment_error("tensor size overflow"));
            },
        }
        i += 1;
    }
    match count.checked_mul(dtype.bytes()) {
        None => Err(deployment_error("tensor byte size overflow")),
        Some(bytes) => {
            if bytes > MAX_BYTES {
                Err(deployment_error("tensor exceeds size limit"))
            } else {
                Ok(bytes)
            }
        },
    }
}

/// A size, counting an empty or negative one as one.
pub open spec fn at_least_one(size: i64) -> int {
    if size >= 1 {
        size as int
    } else {
        1
    }
}

/// The number of elements of the dimensions from `i` on, counting empty ones as one.
pub open spec fn extent_from(shape: Seq<i64>, i: int) -> int
    decreases shape.len() - i,
{
    if i >= shape.len() {
        1
    } else {
        at_least_one(shape[i]) * extent_from(shape, i + 1)
    }
}

pub(crate) proof fn extent_grows(shape: Seq<i64>, i: int, j: int)
    requires
        0 <= i <= j,
    ensures
        1 <= extent_from(shape, j) <= extent_from(shape, i),
    decreases shape.len() - i, j - i,
{
    if i < shape.len() {
        extent_grows(shape, i + 1, if j > i { j } else { i + 1 });
        let rest = extent_from(shape, i + 1);
        let size = at_least_one(shape[i]);
        assert(rest <= size * rest) by (nonlinear_arith)
            requires
                rest >= 1,
                size >= 1,
        ;
    }
}

/// The strides of a contiguous tensor: each axis steps over everything behind it.
pub open spec fn strides_of(shape: Seq<i64>) -> core::result::Result<Seq<i64>, ErrorView> {
    if extent_from(shape, 0) > i64::MAX {
        Err(deployment_text("stride overflow"@))
    } else {
        Ok(Seq::new(shape.len(), |i: int| extent_from(shape, i + 1) as i64))
    }
}

/// The strides of a contiguous tensor.
pub fn contiguous_strides(shape: &[i64]) -> (r: Result<Vec<i64>>)
    ensures
        match (r, strides_of(shape@)) {
            (Ok(strides), Ok(expected)) => strides@ == expected,
            (Err(e), Err(expected)) => e@ == expected,
            _ => false,
        },
{
    let ghost n = shape@.len() as int;
    let mut out: Vec<i64> = Vec::new();
    let mut filled: usize = 0;
    while filled < shape.len()
        invariant
            filled <= shape@.len(),
            out@.len() == filled,
        decreases shape@.len() - filled,
    {
        out.push(0);
        filled += 1;
    }
    let mut stride: i64 = 1;
    let mut i: usize = shape.len();
    while i > 0
        invariant
            n == shape@.len(),
            i <= n,
            out@.len() == n,
            stride == extent_from(shape@, i as int),
            forall|j: int| i <= j < n ==> #[trigger] out@[j] == extent_from(shape@, j + 1),
        decreases i,
    {
        i = i - 1;
        out.set(i, stride);
        let size: i64 = if shape[i] >= 1 { shape[i] } else { 1 };
        match stride.checked_mul(size) {
            Some(product) => {
                assert(product == extent_from(shape@, i as int)) by {
                    assert(stride * size == size * stride) by (nonlinear_arith);
                }
                stride = product;
            },
            None => {
                proof {
                    extent_grows(shape@, 0, i as int);
                    extent_grows(shape@, i + 1, i + 1);
                    assert(stride * size == size * stride) by (nonlinear_arith);
                    assert(size * stride >= 0) by (nonlinear_arith)
                        requires
                            size >= 1,
                            stride >= 1,
                    ;
                }
                return Err(deployment_error("stride overflow"));
            },
        }
    }
    proof {
        assert forall|j: int| 0 <= j < n implies #[trigger] out@[j] == strides_of(shape@)->Ok_0[j] by {
            extent_grows(shape@, 0, j + 1);
        }
        assert(out@ =~= strides_of(shape@)->Ok_0);
    }
    Ok(out)
}

/// An axis by its stride and its size.
pub type Axis = (i64, i64);

/// Axes are ordered by stride, then by size.
pub open spec fn axis_order() -> spec_fn(Axis, Axis) -> bool {
    |a: Axis, b: Axis| a.0 < b.0 || (a.0 == b.0 && a.1 <= b.1)
}

/// The axes with more than one element among the first `n`, in axis order.
pub open spec fn long_axes(shape: Seq<i64>, strides: Seq<i64>, n: int) -> Seq<Axis>
    decreases n,
{
    if n <= 0 {
        Seq::empty()
    } else if shape[n - 1] > 1 {
        long_axes(shape, strides, n - 1).push((strides[n - 1], shape[n - 1]))
    } else {
        long_axes(shape, strides, n - 1)
    }
}

/// The axes with more than one element, from the smallest stride up.
pub open spec fn sorted_axes(shape: Seq<i64>, strides: Seq<i64>) -> Seq<Axis> {
    long_axes(shape, strides, shape.len() as int).sort_by(axis_order())
}

/// Walks axes from the smallest stride up: each must step over everything the earlier ones
/// span. `span` is one more than the furthest element reached so far.
pub open spec fn span_refusal(axes: Seq<Axis>, k: int, span: int) -> Option<ErrorView>
    decreases axes.len() - k,
{
    if k >= axes.len() {
        None
    } else {
        let (stride, size) = axes[k];
        if stride < span {
            Some(deployment_text("internally overlapping state views are unsupported"@))
        } else if span + (size - 1) * stride > i64::MAX {
            Some(deployment_text("view stride overflow"@))
        } else {
            span_refusal(axes, k + 1, span + (size - 1) * stride)
        }
    }
}

/// The furthest element that the first `n` axes reach.
pub open spec fn reach(shape: Seq<i64>, strides: Seq<i64>, n: int) -> int
    decreases n,
{
    if n <= 0 {
        0
    } else {
        reach(shape, strides, n - 1) + (shape[n - 1] - 1) * strides[n - 1]
    }
}

/// How many elements of storage a view needs.
pub open spec fn view_end(shape: Seq<i64>, strides: Seq<i64>, offset: int) -> int {
    if shape.contains(0i64) {
        offset
    } else {
        offset + reach(shape, strides, shape.len() as int) + 1
    }
}

/// Why a view of a storage of `count` elements is refused, if it is.
pub open spec fn view_refusal(
    shape: Seq<i64>,
    strides: Seq<i64>,
    offset: i64,
    requires_grad: bool,
    dtype: DType,
    count: int,
) -> Option<ErrorView> {
    if byte_size(shape, dtype) is Err {
        Some(byte_size(shape, dtype)->Err_0)
    } else if strides.len() != shape.len() || offset < 0 || exists|i: int| 0 <= i < strides.len() && #[trigger] strides[i] < 0 {
        Some(deployment_text("invalid tensor strides or offset"@))
    } else if requires_grad && !(dtype is Float || dtype is Double) {
        Some(deployment_text("only floating state supports autograd"@))
    } else if span_refusal(sorted_axes(shape, strides), 0, 1) is Some {
        span_refusal(sorted_axes(shape, strides), 0, 1)
    } else if view_end(shape, strides, offset as int) > usize::MAX {
        Some(deployment_text("view bound overflow"@))
    } else if view_end(shape, strides, offset as int) > count {
        Some(deployment_text("tensor view exceeds raw storage"@))
    } else {
        None
    }
}

pub(crate) proof fn axis_order_is_total()
    ensures
        vstd::relations::total_ordering(axis_order()),
{
    let leq = axis_order();
    assert(vstd::relations::reflexive(leq));
    assert(vstd::relations::antisymmetric(leq)) by {
        assert forall|x: Axis, y: Axis| #[trigger] leq(x, y) && #[trigger] leq(y, x) implies x == y by {}
    }
    assert(vstd::relations::transitive(leq));
    assert(vstd::relations::strongly_connected(leq));
}

fn comes_first(a: Axis, b: Axis) -> (r: bool)
    ensures
        r == axis_order()(a, b),
{
    a.0 < b.0 || (a.0 == b.0 && a.1 <= b.1)
}

/// Inserts an axis into a sorted list.
fn insert_axis(axes: &mut Vec<Axis>, axis: Axis)
    requires
        vstd::relations::sorted_by(old(axes)@, axis_order()),
    ensures
        vstd::relations::sorted_by(final(axes)@, axis_order()),
        final(axes)@.to_multiset() =~= old(axes)@.to_multiset().insert(axis),
        final(axes)@.len() == old(axes)@.len() + 1,
{
    let ghost start = axes@;
    let mut at: usize = 0;
    while at < axes.len() && comes_first(axes[at], axis)
        invariant
            axes@ == start,
            at <= start.len(),
            forall|j: int| 0 <= j < at ==> axis_order()(#[trigger] start[j], axis),
        decreases start.len() - at,
    {
        at += 1;
    }
    axes.insert(at, axis);
    proof {
        let leq = axis_order();
        let end = axes@;
        assert(end =~= start.insert(at as int, axis));
        assert forall|i: int, j: int| 0 <= i < j < end.len() implies #[trigger] leq(end[i], end[j]) by {
            if j < at {
                assert(leq(start[i], start[j]));
            } else if j == at {
                assert(leq(start[i], axis));
            } else if i < at {
                assert(leq(start[i], start[j - 1]));
            } else if i == at {
                if j - 1 > at {
                    assert(leq(start[at as int], start[j - 1]));
                }
                assert(!leq(start[at as int], axis));
            } else {
                assert(leq(start[i - 1], start[j - 1]));
            }
        }
        assert(end.remove(at as int) =~= start);
        end.to_multiset_ensures();
        assert(end[at as int] == axis);
        assert(end.contains(axis));
        assert(end.to_multiset() =~= start.to_multiset().insert(axis));
    }
}

/// A sorted list is determined by its elements.
pub(crate) proof fn sorted_is_unique(a: Seq<Axis>, b: Seq<Axis>)
    requires
        vstd::relations::sorted_by(a, axis_order()),
        vstd::relations::sorted_by(b, axis_order()),
        a.to_multiset() == b.to_multiset(),
    ensures
        a == b,
    decreases a.len(),
{
    let leq = axis_order();
    a.to_multiset_ensures();
    b.to_multiset_ensures();
    assert(a.len() == b.len());
    if a.len() == 0 {
        assert(a =~= b);
    } else {
        let x = a.last();
        let y = b.last();
        assert(a.contains(x));
        assert(b.contains(y));
        assert(b.contains(x)) by {
            assert(b.to_multiset().count(x) > 0);
        }
        assert(a.contains(y)) by {
            assert(a.to_multiset().count(y) > 0);
        }
        let i = a.index_of(y);
        let j = b.index_of(x);
        assert(a[i] == y && b[j] == x);
        assert(leq(y, x)) by {
            if i < a.len() - 1 {
                assert(leq(a[i], a[a.len() - 1]));
            }
        }
        assert(leq(x, y)) by {
            if j < b.len() - 1 {
                assert(leq(b[j], b[b.len() - 1]));
            }
        }
        assert(x == y);
        assert(a.remove(a.len() - 1) =~= a.drop_last());
        assert(b.remove(b.len() - 1) =~= b.drop_last());
        assert(vstd::relations::sorted_by(a.drop_last(), leq)) by {
            assert forall|p: int, q: int| 0 <= p < q < a.drop_last().len() implies #[trigger] leq(a.drop_last()[p], a.drop_last()[q]) by {
                assert(leq(a[p], a[q]));
            }
        }
        assert(vstd::relations::sorted_by(b.drop_last(), leq)) by {
            assert forall|p: int, q: int| 0 <= p < q < b.drop_last().len() implies #[trigger] leq(b.drop_last()[p], b.drop_last()[q]) by {
                assert(leq(b[p], b[q]));
            }
        }
        sorted_is_unique(a.drop_last(), b.drop_last());
        assert(a =~= a.drop_last().push(x));
        assert(b =~= b.drop_last().push(y));
    }
}

/// Collects the axes with more than one element, from the smallest stride up.
fn sort_axes(shape: &[i64], strides: &[i64]) -> (r: Vec<Axis>)
    requires
        shape@.len() == strides@.len(),
    ensures
        r@ == sorted_axes(shape@, strides@),
{
    let mut axes: Vec<Axis> = Vec::new();
    let mut i: usize = 0;
    proof {
        assert(axes@ =~= long_axes(shape@, strides@, 0));
    }
    while i < shape.len()
        invariant
            shape@.len() == strides@.len(),
            i <= shape@.len(),
            vstd::relations::sorted_by(axes@, axis_order()),
            axes@.to_multiset() == long_axes(shape@, strides@, i as int).to_multiset(),
        decreases shape@.len() - i,
    {
        if shape[i] > 1 {
            let axis: Axis = (strides[i], shape[i]);
            insert_axis(&mut axes, axis);
            proof {
                long_axes(shape@, strides@, i as int).to_multiset_ensures();
                assert(axes@.to_multiset() =~= long_axes(shape@, strides@, i + 1).to_multiset());
            }
        }
        i += 1;
    }
    proof {
        let list = long_axes(shape@, strides@, shape@.len() as int);
        axis_order_is_total();
        list.lemma_sort_by_ensures(axis_order());
        sorted_is_unique(axes@, sorted_axes(shape@, strides@));
    }
    axes
}

/// Walks the axes from the smallest stride up.
fn check_span(axes: &Vec<Axis>) -> (r: Result<()>)
    requires
        forall|k: int| 0 <= k < axes@.len() ==> (#[trigger] axes@[k]).1 > 1 && axes@[k].0 >= 0,
    ensures
        refusal(r) == span_refusal(axes@, 0, 1),
{
    let mut span: i64 = 1;
    let mut k: usize = 0;
    while k < axes.len()
        invariant
            forall|k: int| 0 <= k < axes@.len() ==> (#[trigger] axes@[k]).1 > 1 && axes@[k].0 >= 0,
            k <= axes@.len(),
            span >= 1,
            span_refusal(axes@, 0, 1) == span_refusal(axes@, k as int, span as int),
        decreases axes@.len() - k,
    {
        let (stride, size) = axes[k];
        assert(axes@[k as int].1 > 1);
        if stride < span {
            return Err(deployment_error("internally overlapping state views are unsupported"));
        }
        assert((size - 1) * stride >= 0) by (nonlinear_arith)
            requires
                size > 1,
                stride >= 0,
        ;
        let step: Option<i64> = (size - 1).checked_mul(stride);
        match step {
            None => {
                return Err(deployment_error("view stride overflow"));
            },
            Some(step) => match span.checked_add(step) {
                None => {
                    return Err(deployment_error("view stride overflow"));
                },
                Some(total) => {
                    span = total;
                },
            },
        }
        k += 1;
    }
    Ok(())
}

/// Every long axis has more than one element and keeps its stride.
pub(crate) proof fn long_axes_are_long(shape: Seq<i64>, strides: Seq<i64>, n: int)
    requires
        0 <= n <= shape.len(),
        shape.len() == strides.len(),
        forall|i: int| 0 <= i < strides.len() ==> #[trigger] strides[i] >= 0,
    ensures
        forall|k: int|
            0 <= k < long_axes(shape, strides, n).len() ==> (#[trigger] long_axes(shape, strides, n)[k]).1 > 1 && long_axes(
                shape,
                strides,
                n,
            )[k].0 >= 0,
    decreases n,
{
    if n > 0 {
        long_axes_are_long(shape, strides, n - 1);
        let list = long_axes(shape, strides, n);
        let shorter = long_axes(shape, strides, n - 1);
        assert forall|k: int| 0 <= k < list.len() implies (#[trigger] list[k]).1 > 1 && list[k].0 >= 0 by {
            if k < shorter.len() {
                assert(list[k] == shorter[k]);
            } else {
                assert(strides[n - 1] >= 0);
            }
        }
    }
}

/// Sorting keeps the axes.
pub(crate) proof fn sorted_axes_are_long(shape: Seq<i64>, strides: Seq<i64>)
    requires
        shape.len() == strides.len(),
        forall|i: int| 0 <= i < strides.len() ==> #[trigger] strides[i] >= 0,
    ensures
        forall|k: int|
            0 <= k < sorted_axes(shape, strides).len() ==> (#[trigger] sorted_axes(shape, strides)[k]).1 > 1 && sorted_axes(
                shape,
                strides,
            )[k].0 >= 0,
{
    let n = shape.len() as int;
    let list = long_axes(shape, strides, n);
    let sorted = sorted_axes(shape, strides);
    long_axes_are_long(shape, strides, n);
    axis_order_is_total();
    list.lemma_sort_by_ensures(axis_order());
    assert forall|k: int| 0 <= k < sorted.len() implies (#[trigger] sorted[k]).1 > 1 && sorted[k].0 >= 0 by {
        assert(sorted.contains(sorted[k]));
        assert(list.contains(sorted[k]));
        let m = list.index_of(sorted[k]);
        assert(list[m] == sorted[k]);
    }
}

proof fn reach_is_monotone(shape: Seq<i64>, strides: Seq<i64>, k: int, n: int)
    requires
        0 <= k <= n <= shape.len(),
        shape.len() == strides.len(),
        forall|i: int| 0 <= i < shape.len() ==> #[trigger] shape[i] >= 1,
        forall|i: int| 0 <= i < strides.len() ==> #[trigger] strides[i] >= 0,
    ensures
        0 <= reach(shape, strides, k) <= reach(shape, strides, n),
    decreases n,
{
    if n > 0 {
        if k == n {
            reach_is_monotone(shape, strides, n - 1, n - 1);
        } else {
            reach_is_monotone(shape, strides, k, n - 1);
        }
        assert(shape[n - 1] >= 1 && strides[n - 1] >= 0);
        assert((shape[n - 1] - 1) * strides[n - 1] >= 0) by (nonlinear_arith)
            requires
                shape[n - 1] >= 1,
                strides[n - 1] >= 0,
        ;
    }
}

/// How many elements of storage a view needs, if that can be represented.
fn needed_elements(shape: &[i64], strides: &[i64], offset: i64) -> (r: Option<usize>)
    requires
        shape@.len() == strides@.len(),
        offset >= 0,
        forall|i: int| 0 <= i < shape@.len() ==> 0 <= #[trigger] shape@[i] <= usize::MAX,
        forall|i: int| 0 <= i < strides@.len() ==> #[trigger] strides@[i] >= 0,
    ensures
        match r {
            Some(end) => end == view_end(shape@, strides@, offset as int),
            None => view_end(shape@, strides@, offset as int) > usize::MAX,
        },
{
    let mut i: usize = 0;
    let mut empty = false;
    while i < shape.len()
        invariant
            i <= shape@.len(),
            empty == exists|j: int| 0 <= j < i && #[trigger] shape@[j] == 0,
        decreases shape@.len() - i,
    {
        if shape[i] == 0 {
            empty = true;
        }
        i += 1;
    }
    if offset as u64 as u128 > usize::MAX as u128 {
        proof {
            if !empty {
                assert forall|j: int| 0 <= j < shape@.len() implies #[trigger] shape@[j] >= 1 by {}
                reach_is_monotone(shape@, strides@, 0, shape@.len() as int);
            }
        }
        return None;
    }
    if empty {
        assert(shape@.contains(0i64));
        return Some(offset as usize);
    }
    assert forall|j: int| 0 <= j < shape@.len() implies #[trigger] shape@[j] >= 1 by {}
    assert(!shape@.contains(0i64));
    let ghost n = shape@.len() as int;
    let mut end: usize = offset as usize;
    i = 0;
    while i < shape.len()
        invariant
            n == shape@.len(),
            shape@.len() == strides@.len(),
            offset >= 0,
            forall|j: int| 0 <= j < shape@.len() ==> 1 <= #[trigger] shape@[j] <= usize::MAX,
            forall|j: int| 0 <= j < strides@.len() ==> #[trigger] strides@[j] >= 0,
            i <= n,
            end == offset + reach(shape@, strides@, i as int),
            view_end(shape@, strides@, offset as int) == offset + reach(shape@, strides@, n) + 1,
        decreases n - i,
    {
        assert(shape@[i as int] >= 1 && strides@[i as int] >= 0);
        let steps: usize = shape[i] as usize - 1;
        let stride: i64 = strides[i];
        proof {
            reach_is_monotone(shape@, strides@, i + 1, n);
            reach_is_monotone(shape@, strides@, i as int, i + 1);
            assert((shape@[i as int] - 1) * strides@[i as int] >= 0) by (nonlinear_arith)
                requires
                    shape@[i as int] >= 1,
                    strides@[i as int] >= 0,
            ;
        }
        if stride as u64 as u128 > usize::MAX as u128 {
            if steps > 0 {
                assert((shape@[i as int] - 1) * strides@[i as int] >= strides@[i as int]) by (nonlinear_arith)
                    requires
                        shape@[i as int] >= 2,
                        strides@[i as int] >= 0,
                ;
                return None;
            }
            assert((shape@[i as int] - 1) * strides@[i as int] == 0) by (nonlinear_arith)
                requires
                    shape@[i as int] == 1,
            ;
        } else {
            match steps.checked_mul(stride as usize) {
                None => {
                    return None;
                },
                Some(step) => match end.checked_add(step) {
                    None => {
                        return None;
                    },
                    Some(total) => {
                        end = total;
                    },
                },
            }
        }
        i += 1;
    }
    end.checked_add(1)
}

/// Sizes of an accepted shape are neither negative nor too large.
pub(crate) proof fn counted_sizes(shape: Seq<i64>, n: int)
    requires
        0 <= n <= shape.len(),
        element_count(shape, n) is Ok,
    ensures
        forall|i: int| 0 <= i < n ==> 0 <= #[trigger] shape[i] <= usize::MAX,
        element_count(shape, n)->Ok_0 >= 0,
    decreases n,
{
    if n > 0 {
        counted_sizes(shape, n - 1);
        let count = element_count(shape, n - 1)->Ok_0;
        assert(count * shape[n - 1] >= 0) by (nonlinear_arith)
            requires
                count >= 0,
                shape[n - 1] >= 0,
        ;
    }
}

/// Checks a view of a storage that holds `count` elements of type `dtype`.
pub fn check_view(
    shape: &[i64],
    strides: &[i64],
    offset: i64,
    requires_grad: bool,
    dtype: DType,
    count: usize,
) -> (r: Result<()>)
    ensures
        refusal(r) == view_refusal(shape@, strides@, offset, requires_grad, dtype, count as int),
{
    if let Err(e) = byte_count(shape, dtype) {
        return Err(e);
    }
    let mut negative = false;
    let mut i: usize = 0;
    while i < strides.len()
        invariant
            i <= strides@.len(),
            negative == exists|j: int| 0 <= j < i && #[trigger] strides@[j] < 0,
        decreases strides@.len() - i,
    {
        if strides[i] < 0 {
            negative = true;
        }
        i += 1;
    }
    if strides.len() != shape.len() || offset < 0 || negative {
        return Err(deployment_error("invalid tensor strides or offset"));
    }
    if requires_grad {
        match dtype {
            DType::Float | DType::Double => {},
            _ => {
                return Err(deployment_error("only floating state supports autograd"));
            },
        }
    }
    assert forall|j: int| 0 <= j < strides@.len() implies #[trigger] strides@[j] >= 0 by {}
    proof {
        sorted_axes_are_long(shape@, strides@);
        counted_sizes(shape@, shape@.len() as int);
    }
    let axes = sort_axes(shape, strides);
    if let Err(e) = check_span(&axes) {
        return Err(e);
    }
    match needed_elements(shape, strides, offset) {
        None => Err(deployment_error("view bound overflow")),
        Some(end) => {
            if end > count {
                Err(deployment_error("tensor view exceeds raw storage"))
            } else {
                Ok(())
            }
        },
    }
}

} // verus!
