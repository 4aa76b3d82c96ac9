//! What accepted views guarantee: every element lies in the storage, no two elements share a
//! place, and contiguous tensors are always accepted.
use super::layout::{
    at_least_one, axis_order, axis_order_is_total, byte_size, counted_sizes, element_count, extent_from, extent_grows,
    long_axes, reach, sorted_axes, sorted_axes_are_long, sorted_is_unique, span_refusal, strides_of, view_refusal, Axis,
};
use super::types::DType;
use vstd::prelude::*;

verus! {

/// An index of an element: one coordinate below the size of each axis.
pub open spec fn is_index(shape: Seq<i64>, index: Seq<int>) -> bool {
    &&& index.len() == shape.len()
    &&& forall|k: int| 0 <= k < shape.len() ==> 0 <= #[trigger] index[k] < shape[k]
}

/// How far the first `n` coordinates step into the storage.
pub open spec fn displacement(strides: Seq<i64>, index: Seq<int>, n: int) -> int
    decreases n,
{
    if n <= 0 {
        0
    } else {
        displacement(strides, index, n - 1) + index[n - 1] * strides[n - 1]
    }
}

/// The place of an element in the storage.
pub open spec fn place(strides: Seq<i64>, offset: int, index: Seq<int>) -> int {
    offset + displacement(strides, index, strides.len() as int)
}

/// Every element of an accepted view lies in its storage.
pub proof fn view_stays_in_storage(
    shape: Seq<i64>,
    strides: Seq<i64>,
    offset: i64,
    requires_grad: bool,
    dtype: DType,
    count: int,
    index: Seq<int>,
)
    requires
        view_refusal(shape, strides, offset, requires_grad, dtype, count) is None,
        is_index(shape, index),
    ensures
        0 <= place(strides, offset as int, index) < count,
{
    let n = shape.len() as int;
    assert(!shape.contains(0i64)) by {
        if shape.contains(0i64) {
            let k = shape.index_of(0i64);
            assert(index[k] < shape[k]);
        }
    }
    assert forall|i: int| 0 <= i < strides.len() implies #[trigger] strides[i] >= 0 by {}
    displacement_within_reach(shape, strides, index, n);
}

proof fn displacement_within_reach(shape: Seq<i64>, strides: Seq<i64>, index: Seq<int>, n: int)
    requires
        0 <= n <= shape.len(),
        shape.len() == strides.len(),
        is_index(shape, index),
        forall|i: int| 0 <= i < strides.len() ==> #[trigger] strides[i] >= 0,
    ensures
        0 <= displacement(strides, index, n) <= reach(shape, strides, n),
    decreases n,
{
    if n > 0 {
        displacement_within_reach(shape, strides, index, n - 1);
        let i = index[n - 1];
        let s = strides[n - 1] as int;
        let d = shape[n - 1] as int;
        assert(0 <= i * s <= (d - 1) * s) by (nonlinear_arith)
            requires
                0 <= i < d,
                s >= 0,
        ;
    }
}

/// What an axis of smaller stride than `limit` contributes to the span.
spec fn share(axis: Axis, limit: int) -> int {
    if axis.0 < limit {
        (axis.1 - 1) * axis.0
    } else {
        0
    }
}

/// What all axes of smaller stride than `limit` contribute to the span.
spec fn below(axes: Seq<Axis>, limit: int) -> int
    decreases axes.len(),
{
    if axes.len() == 0 {
        0
    } else {
        below(axes.drop_last(), limit) + share(axes.last(), limit)
    }
}

proof fn below_remove(axes: Seq<Axis>, p: int, limit: int)
    requires
        0 <= p < axes.len(),
    ensures
        below(axes, limit) == below(axes.remove(p), limit) + share(axes[p], limit),
    decreases axes.len(),
{
    if p == axes.len() - 1 {
        assert(axes.remove(p) =~= axes.drop_last());
    } else {
        below_remove(axes.drop_last(), p, limit);
        assert(axes.remove(p).drop_last() =~= axes.drop_last().remove(p));
        assert(axes.remove(p).last() == axes.last());
    }
}

proof fn below_ignores_order(a: Seq<Axis>, b: Seq<Axis>, limit: int)
    requires
        a.to_multiset() == b.to_multiset(),
    ensures
        below(a, limit) == below(b, limit),
    decreases a.len(),
{
    a.to_multiset_ensures();
    b.to_multiset_ensures();
    assert(a.len() == b.len());
    if a.len() > 0 {
        let x = a.last();
        assert(a.contains(x));
        assert(b.contains(x)) by {
            assert(b.to_multiset().count(x) > 0);
        }
        let p = b.index_of(x);
        assert(b[p] == x);
        assert(a.remove(a.len() - 1) =~= a.drop_last());
        assert(a.drop_last().to_multiset() =~= b.remove(p).to_multiset());
        below_ignores_order(a.drop_last(), b.remove(p), limit);
        below_remove(b, p, limit);
    }
}

/// The span of the first `k` axes of an accepted walk.
spec fn span_of(axes: Seq<Axis>, k: int) -> int
    decreases k,
{
    if k <= 0 {
        1
    } else {
        span_of(axes, k - 1) + (axes[k - 1].1 - 1) * axes[k - 1].0
    }
}

/// An accepted walk steps over the span of the earlier axes at every axis.
proof fn walk_is_separated(axes: Seq<Axis>, k: int, m: int)
    requires
        0 <= k <= m < axes.len(),
        span_refusal(axes, k, span_of(axes, k)) is None,
    ensures
        axes[m].0 >= span_of(axes, m),
    decreases m - k,
{
    if k < m {
        walk_is_separated(axes, k + 1, m);
    }
}

/// Strides of an accepted walk grow strictly, and each exceeds all that smaller strides span.
proof fn walk_grows(axes: Seq<Axis>, p: int, q: int)
    requires
        0 <= p < q < axes.len(),
        span_refusal(axes, 0, 1) is None,
        forall|k: int| 0 <= k < axes.len() ==> (#[trigger] axes[k]).1 > 1 && axes[k].0 >= 0,
    ensures
        axes[p].0 < axes[q].0,
        1 <= span_of(axes, p) <= span_of(axes, q),
    decreases q - p,
{
    assert(span_of(axes, 0) == 1);
    walk_is_separated(axes, 0, q);
    span_is_positive(axes, p);
    if p + 1 < q {
        walk_grows(axes, p, q - 1);
        walk_grows(axes, q - 1, q);
    } else {
        walk_is_separated(axes, 0, p);
        let a = axes[p];
        assert(a.1 > 1 && a.0 >= 0);
        assert((a.1 - 1) * a.0 >= a.0) by (nonlinear_arith)
            requires
                a.1 > 1,
                a.0 >= 0,
        ;
    }
}

proof fn span_is_positive(axes: Seq<Axis>, k: int)
    requires
        0 <= k <= axes.len(),
        forall|k: int| 0 <= k < axes.len() ==> (#[trigger] axes[k]).1 > 1 && axes[k].0 >= 0,
    ensures
        span_of(axes, k) >= 1,
    decreases k,
{
    if k > 0 {
        span_is_positive(axes, k - 1);
        let a = axes[k - 1];
        assert(a.1 > 1 && a.0 >= 0);
        assert((a.1 - 1) * a.0 >= 0) by (nonlinear_arith)
            requires
                a.1 > 1,
                a.0 >= 0,
        ;
    }
}

/// Of a strictly growing walk, the axes below the stride at `p` are the first `p`.
proof fn below_is_span(axes: Seq<Axis>, p: int, n: int)
    requires
        0 <= p < axes.len(),
        0 <= n <= axes.len(),
        span_refusal(axes, 0, 1) is None,
        forall|k: int| 0 <= k < axes.len() ==> (#[trigger] axes[k]).1 > 1 && axes[k].0 >= 0,
    ensures
        below(axes.take(n), axes[p].0 as int) == span_of(axes, if n < p { n } else { p }) - 1,
    decreases n,
{
    if n > 0 {
        below_is_span(axes, p, n - 1);
        assert(axes.take(n).drop_last() =~= axes.take(n - 1));
        assert(axes.take(n).last() == axes[n - 1]);
        if n - 1 < p {
            walk_grows(axes, n - 1, p);
        } else if n - 1 > p {
            walk_grows(axes, p, n - 1);
        }
    } else {
        assert(axes.take(0) =~= Seq::<Axis>::empty());
    }
}

/// The long axes of an accepted view have different strides, each beyond all that smaller
/// strides span.
proof fn long_axes_are_separated(shape: Seq<i64>, strides: Seq<i64>, a: int, b: int)
    requires
        shape.len() == strides.len(),
        forall|i: int| 0 <= i < strides.len() ==> #[trigger] strides[i] >= 0,
        span_refusal(sorted_axes(shape, strides), 0, 1) is None,
        0 <= a < b < long_axes(shape, strides, shape.len() as int).len(),
    ensures
        ({
            let list = long_axes(shape, strides, shape.len() as int);
            list[a].0 != list[b].0
        }),
{
    let list = long_axes(shape, strides, shape.len() as int);
    let sorted = sorted_axes(shape, strides);
    axis_order_is_total();
    list.lemma_sort_by_ensures(axis_order());
    sorted_axes_are_long(shape, strides);
    list.to_multiset_ensures();
    sorted.to_multiset_ensures();
    let x = list[a];
    let y = list[b];
    if x.0 == y.0 {
        assert(list.contains(x) && list.contains(y));
        assert(sorted.contains(x)) by {
            assert(sorted.to_multiset().count(x) > 0);
        }
        assert(sorted.contains(y)) by {
            assert(sorted.to_multiset().count(y) > 0);
        }
        let p = sorted.index_of(x);
        assert(sorted[p] == x);
        if x != y {
            let q = sorted.index_of(y);
            assert(sorted[q] == y);
            if p < q {
                walk_grows(sorted, p, q);
            } else {
                walk_grows(sorted, q, p);
            }
        } else {
            let rest = sorted.remove(p);
            let others = list.remove(b);
            assert(others[a] == x);
            assert(others.contains(x));
            others.to_multiset_ensures();
            rest.to_multiset_ensures();
            assert(rest.to_multiset() =~= others.to_multiset());
            assert(rest.contains(x)) by {
                assert(rest.to_multiset().count(x) > 0);
            }
            let q = rest.index_of(x);
            assert(rest[q] == x);
            let at = if q < p { q } else { q + 1 };
            assert(sorted[at] == x);
            if p < at {
                walk_grows(sorted, p, at);
            } else {
                walk_grows(sorted, at, p);
            }
        }
    }
}

/// The stride of a long axis exceeds all that axes of smaller stride span.
proof fn long_axis_exceeds(shape: Seq<i64>, strides: Seq<i64>, a: int)
    requires
        shape.len() == strides.len(),
        forall|i: int| 0 <= i < strides.len() ==> #[trigger] strides[i] >= 0,
        span_refusal(sorted_axes(shape, strides), 0, 1) is None,
        0 <= a < long_axes(shape, strides, shape.len() as int).len(),
    ensures
        ({
            let list = long_axes(shape, strides, shape.len() as int);
            list[a].0 >= 1 + below(list, list[a].0 as int)
        }),
{
    let list = long_axes(shape, strides, shape.len() as int);
    let sorted = sorted_axes(shape, strides);
    axis_order_is_total();
    list.lemma_sort_by_ensures(axis_order());
    sorted_axes_are_long(shape, strides);
    list.to_multiset_ensures();
    sorted.to_multiset_ensures();
    let x = list[a];
    assert(list.contains(x));
    assert(sorted.contains(x)) by {
        assert(sorted.to_multiset().count(x) > 0);
    }
    let p = sorted.index_of(x);
    assert(sorted[p] == x);
    assert(span_of(sorted, 0) == 1);
    walk_is_separated(sorted, 0, p);
    below_is_span(sorted, p, sorted.len() as int);
    assert(sorted.take(sorted.len() as int) =~= sorted);
    below_ignores_order(list, sorted, x.0 as int);
}

/// Where a long axis stands in the list of long axes.
spec fn position(shape: Seq<i64>, strides: Seq<i64>, k: int) -> int {
    long_axes(shape, strides, k).len() as int
}

proof fn long_axis_is_listed(shape: Seq<i64>, strides: Seq<i64>, k: int, n: int)
    requires
        0 <= k < n <= shape.len(),
        shape[k] > 1,
    ensures
        position(shape, strides, k) < long_axes(shape, strides, n).len(),
        long_axes(shape, strides, n)[position(shape, strides, k)] == (strides[k], shape[k]),
        position(shape, strides, k) < position(shape, strides, n),
    decreases n,
{
    if n > k + 1 {
        long_axis_is_listed(shape, strides, k, n - 1);
    }
}

/// The difference of two indices over the first `n` axes, leaving out axis `m`, is bounded
/// by what axes of smaller stride than that of `m` span.
proof fn difference_is_bounded(shape: Seq<i64>, strides: Seq<i64>, a: Seq<int>, b: Seq<int>, m: int, n: int)
    requires
        shape.len() == strides.len(),
        forall|i: int| 0 <= i < strides.len() ==> #[trigger] strides[i] >= 0,
        is_index(shape, a),
        is_index(shape, b),
        0 <= n <= shape.len(),
        0 <= m < shape.len(),
        forall|k: int| 0 <= k < shape.len() && k != m && #[trigger] a[k] != b[k] ==> strides[k] < strides[m],
    ensures
        ({
            let own = if m < n {
                (a[m] - b[m]) * strides[m]
            } else {
                0
            };
            let rest = displacement(strides, a, n) - displacement(strides, b, n) - own;
            let bound = below(long_axes(shape, strides, n), strides[m] as int);
            -bound <= rest <= bound
        }),
    decreases n,
{
    if n > 0 {
        difference_is_bounded(shape, strides, a, b, m, n - 1);
        let k = n - 1;
        let list = long_axes(shape, strides, n);
        let shorter = long_axes(shape, strides, k);
        let s = strides[k] as int;
        let d = shape[k] as int;
        let x = a[k];
        let y = b[k];
        assert(0 <= x < d && 0 <= y < d && s >= 0);
        assert(x * s - y * s == (x - y) * s) by (nonlinear_arith);
        assert(-((d - 1) * s) <= (x - y) * s <= (d - 1) * s) by (nonlinear_arith)
            requires
                0 <= x < d,
                0 <= y < d,
                s >= 0,
        ;
        if d > 1 {
            assert(list =~= shorter.push((strides[k], shape[k])));
            assert(list.drop_last() =~= shorter);
            assert(share(list.last(), strides[m] as int) >= 0);
        } else {
            assert(x == y);
            assert((x - y) * s == 0) by (nonlinear_arith)
                requires
                    x == y,
            ;
        }
        if k != m && x == y {
            assert((x - y) * s == 0) by (nonlinear_arith)
                requires
                    x == y,
            ;
        }
    }
}

/// Two different elements of an accepted view never share a place.
pub proof fn view_does_not_overlap(
    shape: Seq<i64>,
    strides: Seq<i64>,
    offset: i64,
    requires_grad: bool,
    dtype: DType,
    count: int,
    a: Seq<int>,
    b: Seq<int>,
)
    requires
        view_refusal(shape, strides, offset, requires_grad, dtype, count) is None,
        is_index(shape, a),
        is_index(shape, b),
        a != b,
    ensures
        place(strides, offset as int, a) != place(strides, offset as int, b),
{
    let n = shape.len() as int;
    assert forall|i: int| 0 <= i < strides.len() implies #[trigger] strides[i] >= 0 by {}
    let some = choose|k: int| 0 <= k < n && a[k] != b[k];
    assert(a[some] != b[some]) by {
        if forall|k: int| 0 <= k < n ==> a[k] == b[k] {
            assert(a =~= b);
        }
    }
    let m = widest_difference(strides, a, b, n, some);
    assert forall|k: int| 0 <= k < shape.len() && k != m && #[trigger] a[k] != b[k] implies strides[k] < strides[m] by {
        assert(strides[k] <= strides[m]);
        assert(0 <= a[k] < shape[k] && 0 <= b[k] < shape[k]);
        assert(0 <= a[m] < shape[m] && 0 <= b[m] < shape[m]);
        long_axis_is_listed(shape, strides, k, n);
        long_axis_is_listed(shape, strides, m, n);
        let p = position(shape, strides, k);
        let q = position(shape, strides, m);
        if k < m {
            long_axis_is_listed(shape, strides, k, m);
            long_axes_are_separated(shape, strides, p, q);
        } else {
            long_axis_is_listed(shape, strides, m, k);
            long_axes_are_separated(shape, strides, q, p);
        }
    }
    difference_is_bounded(shape, strides, a, b, m, n);
    assert(0 <= a[m] < shape[m] && 0 <= b[m] < shape[m]);
    long_axis_is_listed(shape, strides, m, n);
    long_axis_exceeds(shape, strides, position(shape, strides, m));
    let s = strides[m] as int;
    let gap = a[m] - b[m];
    assert(gap * s >= s || gap * s <= -s) by (nonlinear_arith)
        requires
            gap != 0,
            s >= 0,
    ;
}

/// Among the axes in which two indices differ, one of largest stride.
proof fn widest_difference(strides: Seq<i64>, a: Seq<int>, b: Seq<int>, n: int, known: int) -> (m: int)
    requires
        0 <= known < n <= strides.len(),
        a[known] != b[known],
    ensures
        0 <= m < n,
        a[m] != b[m],
        forall|k: int| 0 <= k < n && #[trigger] a[k] != b[k] ==> strides[k] <= strides[m],
    decreases n,
{
    if n == 1 {
        known
    } else if known == n - 1 {
        if exists|k: int| 0 <= k < n - 1 && a[k] != b[k] {
            let other = choose|k: int| 0 <= k < n - 1 && a[k] != b[k];
            let m = widest_difference(strides, a, b, n - 1, other);
            if strides[m] <= strides[known] {
                known
            } else {
                m
            }
        } else {
            known
        }
    } else {
        let m = widest_difference(strides, a, b, n - 1, known);
        if a[n - 1] != b[n - 1] && strides[n - 1] > strides[m] {
            n - 1
        } else {
            m
        }
    }
}

/// The long axes from `i` on, last axis first.
spec fn reversed_from(shape: Seq<i64>, strides: Seq<i64>, i: int) -> Seq<Axis>
    decreases shape.len() - i,
{
    if i >= shape.len() {
        Seq::empty()
    } else if shape[i] > 1 {
        reversed_from(shape, strides, i + 1).push((strides[i], shape[i]))
    } else {
        reversed_from(shape, strides, i + 1)
    }
}

/// The strides are those of a contiguous tensor.
spec fn contiguous(shape: Seq<i64>, strides: Seq<i64>) -> bool {
    &&& strides.len() == shape.len()
    &&& forall|i: int| 0 <= i < shape.len() ==> #[trigger] strides[i] == extent_from(shape, i + 1)
}

/// The reversed long axes of a contiguous tensor are sorted, below the extent, and span it.
proof fn contiguous_walk(shape: Seq<i64>, strides: Seq<i64>, i: int)
    requires
        contiguous(shape, strides),
        0 <= i <= shape.len(),
        extent_from(shape, 0) <= i64::MAX,
    ensures
        ({
            let list = reversed_from(shape, strides, i);
            &&& vstd::relations::sorted_by(list, axis_order())
            &&& span_of(list, list.len() as int) == extent_from(shape, i)
            &&& forall|k: int| 0 <= k < list.len() ==> (#[trigger] list[k]).0 < extent_from(shape, i)
            &&& forall|k: int| 0 <= k < list.len() ==> (#[trigger] list[k]).0 >= span_of(list, k)
        }),
    decreases shape.len() - i,
{
    extent_grows(shape, 0, i);
    let list = reversed_from(shape, strides, i);
    if i < shape.len() {
        contiguous_walk(shape, strides, i + 1);
        extent_grows(shape, 0, i + 1);
        let shorter = reversed_from(shape, strides, i + 1);
        let rest = extent_from(shape, i + 1);
        assert(strides[i] == rest);
        if shape[i] > 1 {
            let size = shape[i] as int;
            assert(list =~= shorter.push((strides[i], shape[i])));
            assert(rest < size * rest) by (nonlinear_arith)
                requires
                    rest >= 1,
                    size > 1,
            ;
            assert(rest + (size - 1) * rest == size * rest) by (nonlinear_arith);
            assert forall|k: int| 0 <= k <= shorter.len() implies span_of(list, k) == span_of(shorter, k) by {
                span_prefix(list, shorter, k);
            }
            assert(span_of(list, list.len() as int) == extent_from(shape, i));
            assert forall|p: int, q: int| 0 <= p < q < list.len() implies #[trigger] axis_order()(list[p], list[q]) by {
                if q < shorter.len() {
                    assert(axis_order()(shorter[p], shorter[q]));
                } else {
                    assert(shorter[p].0 < rest);
                }
            }
            assert forall|k: int| 0 <= k < list.len() implies (#[trigger] list[k]).0 < extent_from(shape, i) by {
                if k < shorter.len() {
                    assert(shorter[k].0 < rest);
                }
            }
            assert forall|k: int| 0 <= k < list.len() implies (#[trigger] list[k]).0 >= span_of(list, k) by {
                if k < shorter.len() {
                    assert(shorter[k].0 >= span_of(shorter, k));
                }
            }
        } else {
            assert(at_least_one(shape[i]) == 1);
            assert(extent_from(shape, i) == rest);
        }
    }
}

proof fn span_prefix(a: Seq<Axis>, b: Seq<Axis>, k: int)
    requires
        0 <= k <= b.len() <= a.len(),
        forall|j: int| 0 <= j < b.len() ==> #[trigger] a[j] == b[j],
    ensures
        span_of(a, k) == span_of(b, k),
    decreases k,
{
    if k > 0 {
        span_prefix(a, b, k - 1);
        assert(a[k - 1] == b[k - 1]);
    }
}

/// A walk whose axes step over the earlier ones and whose span fits is accepted.
proof fn separated_walk_is_accepted(axes: Seq<Axis>, k: int)
    requires
        0 <= k <= axes.len(),
        forall|j: int| 0 <= j < axes.len() ==> (#[trigger] axes[j]).0 >= span_of(axes, j),
        forall|j: int| 0 <= j < axes.len() ==> (#[trigger] axes[j]).1 > 1 && axes[j].0 >= 0,
        span_of(axes, axes.len() as int) <= i64::MAX,
    ensures
        span_refusal(axes, k, span_of(axes, k)) is None,
    decreases axes.len() - k,
{
    if k < axes.len() {
        separated_walk_is_accepted(axes, k + 1);
        span_below_total(axes, k + 1, axes.len() as int);
        assert(axes[k].0 >= span_of(axes, k));
    }
}

proof fn span_below_total(axes: Seq<Axis>, k: int, n: int)
    requires
        0 <= k <= n <= axes.len(),
        forall|j: int| 0 <= j < axes.len() ==> (#[trigger] axes[j]).1 > 1 && axes[j].0 >= 0,
    ensures
        span_of(axes, k) <= span_of(axes, n),
    decreases n - k,
{
    if k < n {
        span_below_total(axes, k, n - 1);
        let a = axes[n - 1];
        assert(a.1 > 1 && a.0 >= 0);
        assert((a.1 - 1) * a.0 >= 0) by (nonlinear_arith)
            requires
                a.1 > 1,
                a.0 >= 0,
        ;
    }
}

/// Reversing the long axes keeps their elements.
proof fn reversed_has_all(shape: Seq<i64>, strides: Seq<i64>, i: int)
    requires
        0 <= i <= shape.len(),
    ensures
        (long_axes(shape, strides, i) + reversed_from(shape, strides, i)).to_multiset() =~= long_axes(
            shape,
            strides,
            shape.len() as int,
        ).to_multiset(),
    decreases shape.len() - i,
{
    let head = long_axes(shape, strides, i);
    let tail = reversed_from(shape, strides, i);
    if i == shape.len() {
        assert(head + tail =~= head);
    } else {
        reversed_has_all(shape, strides, i + 1);
        if shape[i] > 1 {
            let axis: Axis = (strides[i], shape[i]);
            let rest = reversed_from(shape, strides, i + 1);
            let longer = long_axes(shape, strides, i + 1);
            assert(longer + rest =~= head.push(axis) + rest);
            assert(head + tail =~= (head + rest).push(axis));
            (head + rest).to_multiset_ensures();
            let joined = longer + rest;
            joined.to_multiset_ensures();
            assert(joined.remove(head.len() as int) =~= head + rest);
            assert(joined[head.len() as int] == axis);
            assert(joined.contains(axis));
            assert(joined.to_multiset() =~= (head + rest).to_multiset().insert(axis));
        }
    }
}

/// The furthest element of a contiguous tensor without empty axes is its last.
proof fn contiguous_reach(shape: Seq<i64>, strides: Seq<i64>, n: int)
    requires
        contiguous(shape, strides),
        0 <= n <= shape.len(),
        forall|i: int| 0 <= i < shape.len() ==> #[trigger] shape[i] >= 1,
    ensures
        reach(shape, strides, n) == extent_from(shape, 0) - extent_from(shape, n),
    decreases n,
{
    if n > 0 {
        contiguous_reach(shape, strides, n - 1);
        assert(shape[n - 1] >= 1);
        let rest = extent_from(shape, n);
        let size = shape[n - 1] as int;
        assert(strides[n - 1] == rest);
        assert((size - 1) * rest == size * rest - rest) by (nonlinear_arith);
    }
}

/// Sizes that are all positive multiply to the extent.
proof fn counted_extent(shape: Seq<i64>, n: int)
    requires
        0 <= n <= shape.len(),
        forall|i: int| 0 <= i < shape.len() ==> #[trigger] shape[i] >= 1,
        element_count(shape, n) is Ok,
    ensures
        element_count(shape, n)->Ok_0 * extent_from(shape, n) == extent_from(shape, 0),
    decreases n,
{
    if n > 0 {
        counted_extent(shape, n - 1);
        assert(shape[n - 1] >= 1);
        let count = element_count(shape, n - 1)->Ok_0;
        let size = shape[n - 1] as int;
        let rest = extent_from(shape, n);
        assert(count * (size * rest) == (count * size) * rest) by (nonlinear_arith);
    } else {
        assert(1 * extent_from(shape, 0) == extent_from(shape, 0));
    }
}

/// A contiguous tensor is always accepted as a view of a storage that holds its elements.
pub proof fn contiguous_view_is_accepted(shape: Seq<i64>, dtype: DType, requires_grad: bool, count: int)
    requires
        byte_size(shape, dtype) is Ok,
        strides_of(shape) is Ok,
        element_count(shape, shape.len() as int)->Ok_0 <= count <= usize::MAX,
        requires_grad ==> (dtype is Float || dtype is Double),
    ensures
        view_refusal(shape, strides_of(shape)->Ok_0, 0, requires_grad, dtype, count) is None,
{
    let n = shape.len() as int;
    let strides = strides_of(shape)->Ok_0;
    counted_sizes(shape, n);
    assert(contiguous(shape, strides)) by {
        assert forall|i: int| 0 <= i < n implies #[trigger] strides[i] == extent_from(shape, i + 1) by {
            extent_grows(shape, 0, i + 1);
        }
    }
    assert forall|i: int| 0 <= i < strides.len() implies #[trigger] strides[i] >= 0 by {
        extent_grows(shape, i + 1, i + 1);
        assert(strides[i] == extent_from(shape, i + 1));
    }
    contiguous_walk(shape, strides, 0);
    let list = reversed_from(shape, strides, 0);
    reversed_has_all(shape, strides, 0);
    assert(long_axes(shape, strides, 0) + list =~= list);
    let all = long_axes(shape, strides, n);
    axis_order_is_total();
    all.lemma_sort_by_ensures(axis_order());
    sorted_is_unique(list, sorted_axes(shape, strides));
    sorted_axes_are_long(shape, strides);
    separated_walk_is_accepted(list, 0);
    assert(span_of(list, 0) == 1);
    if !shape.contains(0i64) {
        assert forall|i: int| 0 <= i < n implies #[trigger] shape[i] >= 1 by {
            assert(shape.contains(shape[i]));
        }
        contiguous_reach(shape, strides, n);
        counted_extent(shape, n);
        assert(extent_from(shape, n) == 1);
        assert(element_count(shape, n)->Ok_0 * 1 == element_count(shape, n)->Ok_0);
    }
}

} // verus!
