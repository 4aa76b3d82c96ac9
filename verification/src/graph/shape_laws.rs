//! What shapes come out of operations whose operands have known sizes, and what is read of a graph.
use super::check::{edge_checks, name_refusal, node_refusal};
use super::infer::{
    binary_spec, broadcast_at, broadcast_checks, broadcast_dims, broadcast_pair, concat_spec, first_device, first_kind, flat_dim,
    flatten_spec, from_end, join_from, joined_extent, known_product, known_size, larger, merged_device, node_spec, normalized,
    operand_checks, side_checks,
};
use super::ir::{NodeId, NodeView};
use super::op::GraphOp;
use super::passes::{changed_ids, inferred, operand_specs, propagated};
use super::render::{dot_edges, dot_edges_of, escaped, parameter_count};
use super::spec::{dim_checks, spec_refusal, DimView, SpecView};
use crate::error::first_at_none;
use crate::kind::DeviceSpec;
use crate::tensor::{common_size, is_broadcast, size_from_end};
use crate::tensor_laws::{broadcasts_exist_for_matching_sides, volume};
use crate::text::decimal;
use vstd::prelude::*;

verus! {

/// The dimensions of a shape whose sizes are all known.
pub open spec fn known(shape: Seq<i64>) -> Seq<DimView> {
    Seq::new(shape.len(), |i: int| DimView::Known(shape[i]))
}

/// A dimension is named by its position, or from the last one by a negative number; nothing else names
/// one.
pub proof fn dimensions_count_from_either_end(dim: int, rank: int)
    requires
        0 <= rank <= i64::MAX,
    ensures
        0 <= dim < rank ==> normalized(dim, rank) == Ok::<int, crate::error::ErrorView>(dim),
        -rank <= dim < 0 ==> normalized(dim, rank) == Ok::<int, crate::error::ErrorView>(rank + dim),
        dim >= rank || dim < -rank ==> normalized(dim, rank) is Err,
{
}

/// A size of one gives way to any other dimension, equal symbols stay, a dimension without a partner
/// stays, and what else is not known on both sides is left open.
pub proof fn open_dimensions_meet(dim: DimView, symbol: Seq<char>, other: Seq<char>, size: i64)
    requires
        symbol != other,
        size != 1,
    ensures
        broadcast_pair(Some(DimView::Known(1)), Some(dim)) == Ok::<DimView, crate::error::ErrorView>(dim),
        broadcast_pair(Some(dim), Some(DimView::Known(1))) == Ok::<DimView, crate::error::ErrorView>(dim),
        broadcast_pair(None, Some(dim)) == Ok::<DimView, crate::error::ErrorView>(dim),
        broadcast_pair(Some(dim), None) == Ok::<DimView, crate::error::ErrorView>(dim),
        broadcast_pair(Some(DimView::Symbol(symbol)), Some(DimView::Symbol(symbol))) == Ok::<DimView, crate::error::ErrorView>(
            DimView::Symbol(symbol),
        ),
        broadcast_pair(Some(DimView::Symbol(symbol)), Some(DimView::Symbol(other))) == Ok::<DimView, crate::error::ErrorView>(
            DimView::Dynamic,
        ),
        broadcast_pair(Some(DimView::Symbol(symbol)), Some(DimView::Known(size))) == Ok::<DimView, crate::error::ErrorView>(
            DimView::Dynamic,
        ),
        broadcast_pair(Some(DimView::Dynamic), Some(DimView::Known(size))) == Ok::<DimView, crate::error::ErrorView>(
            DimView::Dynamic,
        ),
{
}

proof fn known_pairs_meet(a: Seq<i64>, b: Seq<i64>, i: int)
    requires
        0 <= i < larger(a.len() as int, b.len() as int),
    ensures
        broadcast_pair(from_end(known(a), i), from_end(known(b), i)) is Ok <==> common_size(
            size_from_end(a, i),
            size_from_end(b, i),
        ) is Some,
        common_size(size_from_end(a, i), size_from_end(b, i)) matches Some(size) ==> broadcast_pair(
            from_end(known(a), i),
            from_end(known(b), i),
        ) == Ok::<DimView, crate::error::ErrorView>(DimView::Known(size)),
{
}

/// Known shapes are broadcast exactly where tensors of these shapes can be, to the shape that these
/// tensors then have.
pub proof fn known_shapes_broadcast_as_tensors_do(a: Seq<i64>, b: Seq<i64>, c: Seq<i64>)
    ensures
        is_broadcast(a, b, c) ==> (broadcast_dims(known(a), known(b)) matches Ok(dims) && dims == known(c)),
        broadcast_dims(known(a), known(b)) is Ok ==> exists|r: Seq<i64>| is_broadcast(a, b, r),
{
    let checks = broadcast_checks(known(a), known(b));
    let rank = larger(a.len() as int, b.len() as int);
    first_at_none(0, rank, checks);
    if is_broadcast(a, b, c) {
        assert forall|i: int| 0 <= i < rank implies (#[trigger] checks(i)) is None by {
            known_pairs_meet(a, b, i);
            assert(common_size(size_from_end(a, i), size_from_end(b, i)) == size_from_end(c, i));
        }
        let dims = broadcast_dims(known(a), known(b))->Ok_0;
        assert forall|k: int| 0 <= k < rank implies dims[k] == known(c)[k] by {
            let i = rank - 1 - k;
            known_pairs_meet(a, b, i);
            assert(common_size(size_from_end(a, i), size_from_end(b, i)) == size_from_end(c, i));
            assert(broadcast_at(known(a), known(b), i) == DimView::Known(c[k]));
        }
        assert(dims =~= known(c));
    }
    if broadcast_dims(known(a), known(b)) is Ok {
        assert forall|i: int| 0 <= i < a.len() && i < b.len() implies #[trigger] common_size(
            size_from_end(a, i),
            size_from_end(b, i),
        ) is Some by {
            known_pairs_meet(a, b, i);
            assert(checks(i) is None);
        }
        broadcasts_exist_for_matching_sides(a, b);
    }
}

/// Two declared devices must be equal; one that is declared stands for both.
pub proof fn declared_devices_agree(left: Option<DeviceSpec>, right: Option<DeviceSpec>, context: Seq<char>)
    ensures
        merged_device(left, right, context) is Err <==> left is Some && right is Some && left->0 != right->0,
        merged_device(left, right, context) matches Ok(device) ==> {
            &&& left is Some ==> device == left
            &&& right is Some ==> device == right
            &&& left is None && right is None ==> device is None
        },
{
}

/// Sums, differences and products of operands with known shapes have the broadcast shape, the element
/// type and the device of both; operands that declare different element types or devices are refused.
pub proof fn binary_results_have_the_broadcast_shape(left: SpecView, right: SpecView, a: Seq<i64>, b: Seq<i64>, c: Seq<i64>)
    requires
        left.dimensions == Some(known(a)),
        right.dimensions == Some(known(b)),
        a.len() <= usize::MAX,
        b.len() <= usize::MAX,
        is_broadcast(a, b, c),
    ensures
        binary_spec(left, right) is Ok <==> (left.kind is Some && right.kind is Some ==> left.kind == right.kind) && (left.device is Some
            && right.device is Some ==> left.device == right.device),
        binary_spec(left, right) matches Ok(spec) ==> {
            &&& spec.dimensions == Some(known(c))
            &&& spec.known_rank() == Some(c.len() as usize)
            &&& left.kind is Some ==> spec.kind == left.kind
            &&& right.kind is Some ==> spec.kind == right.kind
            &&& left.kind is None && right.kind is None ==> spec.kind is None
            &&& left.device is Some ==> spec.device == left.device
            &&& right.device is Some ==> spec.device == right.device
        },
{
    known_shapes_broadcast_as_tensors_do(a, b, c);
}

pub(crate) proof fn volume_of_pushed(shape: Seq<i64>, last: i64)
    ensures
        volume(shape.push(last)) == volume(shape) * last,
    decreases shape.len(),
{
    let longer = shape.push(last);
    if shape.len() == 0 {
        assert(longer.skip(1) =~= Seq::<i64>::empty());
        assert(volume(Seq::<i64>::empty()) == 1);
    } else {
        assert(longer.skip(1) =~= shape.skip(1).push(last));
        volume_of_pushed(shape.skip(1), last);
        let first = shape[0] as int;
        let rest = volume(shape.skip(1));
        assert(first * (rest * last) == (first * rest) * last) by (nonlinear_arith);
    }
}

/// The volume of two shapes put together is the product of theirs.
proof fn volume_of_both(a: Seq<i64>, b: Seq<i64>)
    ensures
        volume(a + b) == volume(a) * volume(b),
    decreases a.len(),
{
    if a.len() == 0 {
        assert(a + b =~= b);
        assert(volume(a) == 1);
    } else {
        assert((a + b).skip(1) =~= a.skip(1) + b);
        volume_of_both(a.skip(1), b);
        let first = a[0] as int;
        assert(first * (volume(a.skip(1)) * volume(b)) == (first * volume(a.skip(1))) * volume(b)) by (nonlinear_arith);
    }
}

proof fn volume_of_positive(shape: Seq<i64>)
    requires
        forall|i: int| 0 <= i < shape.len() ==> (#[trigger] shape[i]) >= 1,
    ensures
        volume(shape) >= 1,
    decreases shape.len(),
{
    if shape.len() > 0 {
        volume_of_positive(shape.skip(1));
        let first = shape[0] as int;
        let rest = volume(shape.skip(1));
        assert(first * rest >= 1) by (nonlinear_arith)
            requires
                first >= 1,
                rest >= 1,
        ;
    }
}

proof fn products_are_volumes(shape: Seq<i64>)
    ensures
        known_product(known(shape)) matches Some(product) ==> product == volume(shape),
        (forall|i: int| 0 <= i < shape.len() ==> (#[trigger] shape[i]) >= 1) && volume(shape) <= i64::MAX ==> known_product(
            known(shape),
        ) is Some,
    decreases shape.len(),
{
    if shape.len() > 0 {
        let shorter = shape.drop_last();
        assert(known(shape).drop_last() =~= known(shorter));
        assert(shape =~= shorter.push(shape.last()));
        volume_of_pushed(shorter, shape.last());
        products_are_volumes(shorter);
        if (forall|i: int| 0 <= i < shape.len() ==> (#[trigger] shape[i]) >= 1) && volume(shape) <= i64::MAX {
            assert forall|i: int| 0 <= i < shorter.len() implies (#[trigger] shorter[i]) >= 1 by {
                assert(shape[i] >= 1);
            }
            volume_of_positive(shorter);
            let rest = volume(shorter);
            let last = shape.last() as int;
            assert(last >= 1) by {
                assert(shape[shape.len() - 1] >= 1);
            }
            assert(rest <= rest * last) by (nonlinear_arith)
                requires
                    rest >= 1,
                    last >= 1,
            ;
        }
    } else {
        assert(known(shape) =~= Seq::<DimView>::empty());
    }
}

/// Flattening a known shape joins the sides from the first to the last that are named into one, whose
/// size is their product, so that there are as many elements as before; the other sides stay.
pub proof fn flattening_joins_the_named_sides(input: SpecView, shape: Seq<i64>, start: int, end: int)
    requires
        input.dimensions == Some(known(shape)),
        shape.len() <= i64::MAX,
        shape.len() <= usize::MAX,
        0 <= start <= end < shape.len(),
        forall|i: int| 0 <= i < shape.len() ==> (#[trigger] shape[i]) >= 1,
        volume(shape.subrange(start, end + 1)) <= i64::MAX,
    ensures
        ({
            let joined = volume(shape.subrange(start, end + 1)) as i64;
            let after = shape.take(start) + seq![joined] + shape.skip(end + 1);
            &&& (flatten_spec(input, start, end) matches Ok(spec) && spec.dimensions == Some(known(after)) && spec.kind == input.kind
                && spec.device == input.device && spec.rank == Some(after.len() as usize))
            &&& volume(after) == volume(shape)
            &&& flatten_spec(input, start - shape.len(), end - shape.len()) == flatten_spec(input, start, end)
        }),
{
    let middle = shape.subrange(start, end + 1);
    products_are_volumes(middle);
    assert forall|i: int| 0 <= i < middle.len() implies (#[trigger] middle[i]) >= 1 by {
        assert(shape[start + i] >= 1);
    }
    volume_of_positive(middle);
    let joined = volume(middle) as i64;
    assert(known(shape).subrange(start, end + 1) =~= known(middle));
    let after = shape.take(start) + seq![joined] + shape.skip(end + 1);
    let dims = known(shape);
    assert(dims.take(start).push(flat_dim(dims.subrange(start, end + 1))) + dims.skip(end + 1) =~= known(after));
    assert(seq![joined].skip(1) =~= Seq::<i64>::empty());
    assert(volume(seq![joined]) == joined * volume(Seq::<i64>::empty()));
    assert(volume(Seq::<i64>::empty()) == 1);
    volume_of_both(shape.take(start) + seq![joined], shape.skip(end + 1));
    volume_of_both(shape.take(start), seq![joined]);
    assert(shape =~= shape.take(start) + middle + shape.skip(end + 1));
    volume_of_both(shape.take(start) + middle, shape.skip(end + 1));
    volume_of_both(shape.take(start), middle);
}

/// The sizes of one dimension added up.
pub open spec fn total_size(shapes: Seq<Seq<i64>>, axis: int, n: int) -> int
    decreases n,
{
    if n <= 0 {
        0
    } else {
        total_size(shapes, axis, n - 1) + shapes[n - 1][axis]
    }
}

proof fn sizes_add_up(specs: Seq<SpecView>, shapes: Seq<Seq<i64>>, axis: int, i: int, total: Option<i64>)
    requires
        shapes.len() == specs.len(),
        1 <= i <= specs.len(),
        forall|j: int|
            0 <= j < specs.len() ==> (#[trigger] specs[j]).dimensions == Some(known(shapes[j])) && shapes[j].len() == shapes[0].len(),
        0 <= axis < shapes[0].len(),
        total == Some(total_size(shapes, axis, i) as i64),
        forall|j: int| 0 <= j <= shapes.len() ==> 0 <= #[trigger] total_size(shapes, axis, j) <= i64::MAX,
        forall|j: int, d: int|
            #![trigger shapes[j][d]]
            0 <= j < shapes.len() && 0 <= d < shapes[0].len() && d != axis ==> shapes[j][d] == shapes[0][d],
    ensures
        join_from(specs, known(shapes[0]), axis, i, total) == Ok::<Option<Option<i64>>, crate::error::ErrorView>(
            Some(Some(total_size(shapes, axis, shapes.len() as int) as i64)),
        ),
    decreases specs.len() - i,
{
    if i < specs.len() {
        let first = known(shapes[0]);
        assert(specs[i].dimensions == Some(known(shapes[i])));
        let dims = known(shapes[i]);
        let checks = side_checks(first, dims, axis);
        first_at_none(0, first.len() as int, checks);
        assert forall|d: int| 0 <= d < first.len() implies (#[trigger] checks(d)) is None by {
            if d != axis {
                assert(shapes[i][d] == shapes[0][d]);
            }
        }
        assert(total_size(shapes, axis, i + 1) == total_size(shapes, axis, i) + shapes[i][axis]);
        assert(0 <= total_size(shapes, axis, i) <= i64::MAX);
        assert(0 <= total_size(shapes, axis, i + 1) <= i64::MAX);
        let next = joined_extent(total, dims[axis]);
        assert(next == Some(total_size(shapes, axis, i + 1) as i64));
        sizes_add_up(specs, shapes, axis, i + 1, next);
    }
}

proof fn one_kind_and_device(specs: Seq<SpecView>, n: int)
    requires
        0 < n <= specs.len(),
        forall|j: int| 0 <= j < specs.len() ==> (#[trigger] specs[j]).kind == specs[0].kind && specs[j].device == specs[0].device,
    ensures
        first_kind(specs, n) == specs[0].kind,
        first_device(specs, n) == specs[0].device,
    decreases n,
{
    if n > 1 {
        one_kind_and_device(specs, n - 1);
        assert(specs[n - 1].kind == specs[0].kind);
    } else {
        reveal_with_fuel(first_kind, 2);
        reveal_with_fuel(first_device, 2);
    }
}

/// Concatenating known shapes that agree in every other dimension gives the sum of their sizes along
/// the one that is named, and leaves the others as they are.
pub proof fn concatenation_adds_the_sizes(specs: Seq<SpecView>, shapes: Seq<Seq<i64>>, axis: int)
    requires
        specs.len() > 0,
        shapes.len() == specs.len(),
        forall|j: int|
            0 <= j < specs.len() ==> (#[trigger] specs[j]).dimensions == Some(known(shapes[j])) && shapes[j].len() == shapes[0].len()
                && specs[j].kind == specs[0].kind && specs[j].device == specs[0].device,
        0 <= axis < shapes[0].len(),
        shapes[0].len() <= i64::MAX,
        shapes[0].len() <= usize::MAX,
        forall|j: int| 0 <= j <= shapes.len() ==> 0 <= #[trigger] total_size(shapes, axis, j) <= i64::MAX,
        forall|j: int, d: int|
            #![trigger shapes[j][d]]
            0 <= j < shapes.len() && 0 <= d < shapes[0].len() && d != axis ==> shapes[j][d] == shapes[0][d],
    ensures
        concat_spec(specs, axis) matches Ok(spec) && {
            &&& spec.dimensions == Some(
                known(shapes[0].update(axis, total_size(shapes, axis, shapes.len() as int) as i64)),
            )
            &&& spec.kind == specs[0].kind
            &&& spec.device == specs[0].device
        },
{
    let n = specs.len() as int;
    let checks = operand_checks(specs);
    first_at_none(1, n, checks);
    assert(specs[0].dimensions == Some(known(shapes[0])));
    assert forall|i: int| 1 <= i < n implies (#[trigger] checks(i)) is None by {
        one_kind_and_device(specs, i);
        assert(specs[i].kind == specs[0].kind && specs[i].device == specs[0].device);
        assert(specs[i].dimensions == Some(known(shapes[i])));
    }
    one_kind_and_device(specs, n);
    assert(total_size(shapes, axis, 1) == total_size(shapes, axis, 0) + shapes[0][axis]);
    assert(total_size(shapes, axis, 0) == 0);
    let first = known(shapes[0]);
    assert(known_size(first[axis]) == Some(total_size(shapes, axis, 1) as i64));
    sizes_add_up(specs, shapes, axis, 1, known_size(first[axis]));
    let total = total_size(shapes, axis, n) as i64;
    assert(first.update(axis, DimView::Known(total)) =~= known(shapes[0].update(axis, total)));
}

/// What comes out of a node: a linear one replaces the last size by its number of outputs, elementwise
/// ones pass their operand on, inputs and losses keep what is declared for them, and sums, differences,
/// products and joins follow their own rules.
pub proof fn nodes_shape_their_results(op: GraphOp, current: SpecView, inputs: Seq<SpecView>, shape: Seq<i64>)
    requires
        inputs.len() > 0,
        inputs[0].dimensions == Some(known(shape)),
    ensures
        op is Input || op is MseLoss || op is CrossEntropyLoss ==> node_spec(op, current, inputs) == Ok::<
            SpecView,
            crate::error::ErrorView,
        >(current),
        op is Output || op is Identity || op is ReLU || op is Gelu || op is Dropout ==> node_spec(op, current, inputs) == Ok::<
            SpecView,
            crate::error::ErrorView,
        >(inputs[0]),
        op matches GraphOp::Linear { out_features, .. } ==> (node_spec(op, current, inputs) matches Ok(spec) && spec.kind
            == inputs[0].kind && spec.device == inputs[0].device && (shape.len() > 0 ==> spec.dimensions == Some(
            known(shape.update(shape.len() - 1, out_features)),
        ))),
        op is Add || op is Subtract || op is Multiply ==> node_spec(op, current, inputs) == binary_spec(inputs[0], inputs[1]),
        op matches GraphOp::Flatten { start_dim, end_dim } ==> node_spec(op, current, inputs) == flatten_spec(
            inputs[0],
            start_dim as int,
            end_dim as int,
        ),
        op matches GraphOp::Concatenate { dim } ==> node_spec(op, current, inputs) == concat_spec(inputs, dim as int),
{
    if op is Linear && shape.len() > 0 {
        let last = shape.len() - 1;
        assert(known(shape).update(last, DimView::Known(op->out_features)) =~= known(shape.update(last, op->out_features)));
    }
}

/// What propagation works out for a node comes from the specifications of the values that it takes, in
/// their order.
pub proof fn inference_reads_the_operands(nodes: Seq<NodeView>, i: int, k: int)
    requires
        0 <= i < nodes.len(),
        0 <= k < nodes[i].inputs.len(),
    ensures
        operand_specs(nodes, i).len() == nodes[i].inputs.len(),
        operand_specs(nodes, i)[k] == nodes[nodes[i].inputs[k].0 as int].spec,
        inferred(nodes, i) == node_spec(nodes[i].op, nodes[i].spec, operand_specs(nodes, i)),
{
}

/// One step of propagation writes what was worked out for one node, and stops where nothing can be.
pub proof fn propagation_writes_what_it_infers(nodes: Seq<NodeView>, order: Seq<NodeId>, k: int)
    requires
        0 < k <= order.len(),
        order[k - 1].0 < nodes.len(),
        propagated(nodes, order, k - 1).1 is None,
        propagated(nodes, order, k - 1).0.len() == nodes.len(),
    ensures
        ({
            let before = propagated(nodes, order, k - 1).0;
            let (after, stopped) = propagated(nodes, order, k);
            let i = order[k - 1].0 as int;
            &&& stopped is None <==> inferred(before, i) is Ok
            &&& inferred(before, i) matches Ok(spec) ==> after[i].spec == spec && after[i].op == before[i].op && after[i].inputs
                == before[i].inputs && after[i].name == before[i].name && after[i].active == before[i].active
            &&& forall|j: int| 0 <= j < nodes.len() && j != i ==> #[trigger] after[j] == before[j]
        }),
{
}

/// The nodes that a pass reports are those that it changed.
pub proof fn reported_nodes_are_the_changed_ones(before: Seq<NodeView>, after: Seq<NodeView>, n: int, i: int)
    requires
        0 <= i < n <= before.len(),
        before.len() == after.len(),
        forall|j: int| 0 <= j < before.len() ==> (#[trigger] before[j]).id.0 == j,
    ensures
        changed_ids(before, after, n).contains(before[i].id) <==> before[i] != after[i],
    decreases n,
{
    ids_are_lower(before, after, n - 1);
    let rest = changed_ids(before, after, n - 1);
    let all = changed_ids(before, after, n);
    if i < n - 1 {
        reported_nodes_are_the_changed_ones(before, after, n - 1, i);
        if rest.contains(before[i].id) {
            let k = choose|k: int| 0 <= k < rest.len() && rest[k] == before[i].id;
            assert(all[k] == before[i].id);
        }
        if all.contains(before[i].id) {
            let k = choose|k: int| 0 <= k < all.len() && all[k] == before[i].id;
            if k < rest.len() {
                assert(rest[k] == before[i].id);
            } else {
                assert(all[k] == before[n - 1].id);
                assert(before[n - 1].id.0 == n - 1 && before[i].id.0 == i);
            }
        }
    } else {
        if before[i] != after[i] {
            assert(all[rest.len() as int] == before[i].id);
        } else if all.contains(before[i].id) {
            let k = choose|k: int| 0 <= k < rest.len() && rest[k] == before[i].id;
            assert(rest[k].0 < n - 1);
            assert(before[i].id.0 == i);
        }
    }
}

proof fn ids_are_lower(before: Seq<NodeView>, after: Seq<NodeView>, n: int)
    requires
        0 <= n <= before.len(),
        forall|j: int| 0 <= j < before.len() ==> (#[trigger] before[j]).id.0 == j,
    ensures
        forall|k: int| 0 <= k < changed_ids(before, after, n).len() ==> (#[trigger] changed_ids(before, after, n)[k]).0 < n,
    decreases n,
{
    if n > 0 {
        ids_are_lower(before, after, n - 1);
        assert(before[n - 1].id.0 == n - 1);
        let rest = changed_ids(before, after, n - 1);
        assert forall|k: int| 0 <= k < changed_ids(before, after, n).len() implies (#[trigger] changed_ids(before, after, n)[k]).0
            < n by {
            if k < rest.len() {
                assert(changed_ids(before, after, n)[k] == rest[k]);
            }
        }
    }
}

/// A specification is accepted exactly if its rank, where it declares one, is the number of its
/// dimensions, no known size is negative and no symbol is empty.
pub proof fn specifications_are_sound(spec: SpecView, context: Seq<char>)
    ensures
        spec_refusal(spec, context) is None <==> (spec.dimensions matches Some(dims) ==> {
            &&& spec.rank is Some ==> spec.rank->0 == dims.len()
            &&& forall|i: int|
                0 <= i < dims.len() ==> match #[trigger] dims[i] {
                    DimView::Known(size) => size >= 0,
                    DimView::Symbol(symbol) => symbol.len() > 0,
                    DimView::Dynamic => true,
                }
        }),
{
    if spec.dimensions is Some {
        let dims = spec.dimensions->0;
        let checks = dim_checks(dims, context);
        first_at_none(0, dims.len() as int, checks);
        if forall|i: int| 0 <= i < dims.len() ==> (#[trigger] checks(i)) is None {
            assert forall|i: int| 0 <= i < dims.len() implies match #[trigger] dims[i] {
                DimView::Known(size) => size >= 0,
                DimView::Symbol(symbol) => symbol.len() > 0,
                DimView::Dynamic => true,
            } by {
                assert(checks(i) is None);
            }
        }
    }
}

/// How many values each operation takes: none an input, one what passes or reshapes a value, two what
/// combines or compares values, and any number but none a join.
pub proof fn operations_take_their_operands(op: GraphOp, count: int)
    ensures
        op is Input ==> (op.takes(count) <==> count == 0),
        op is Output || op is Identity || op is Linear || op is ReLU || op is Gelu || op is Dropout || op is Flatten ==> (op.takes(count)
            <==> count == 1),
        op is Add || op is Subtract || op is Multiply || op is MseLoss || op is CrossEntropyLoss ==> (op.takes(count) <==> count == 2),
        op is Concatenate ==> (op.takes(count) <==> count >= 1),
{
}

/// A node is accepted exactly if its name is sound and new, its specification is sound, it has as many
/// operands as its operation takes, all of which exist, and a dropout has a probability it can drop
/// with.
pub proof fn accepted_nodes_are_sound(nodes: Seq<NodeView>, i: int)
    requires
        0 <= i < nodes.len(),
    ensures
        node_refusal(nodes, i) is None <==> {
            let node = nodes[i];
            &&& node.name.len() > 0 && !node.name.contains('.') && !node.name.contains('/')
            &&& forall|j: int| 0 <= j < i ==> (#[trigger] nodes[j]).name != node.name
            &&& spec_refusal(node.spec, super::check::node_form(node.name)) is None
            &&& node.op.takes(node.inputs.len() as int)
            &&& forall|k: int| 0 <= k < node.inputs.len() ==> (#[trigger] node.inputs[k]).0 < nodes.len()
            &&& node.op matches GraphOp::Dropout { probability } ==> crate::nn::functional::dropout_refusal(probability) is None
        },
{
    let node = nodes[i];
    let checks = edge_checks(node, nodes.len() as int);
    first_at_none(0, node.inputs.len() as int, checks);
    assert(name_refusal(node.name) is None <==> node.name.len() > 0 && !node.name.contains('.') && !node.name.contains('/'));
    if forall|k: int| 0 <= k < node.inputs.len() ==> (#[trigger] checks(k)) is None {
        assert forall|k: int| 0 <= k < node.inputs.len() implies (#[trigger] node.inputs[k]).0 < nodes.len() by {
            assert(checks(k) is None);
        }
    }
}

/// A linear node has a weight for each input and output, and one more number for each output where it
/// has a bias; no other node has parameters.
pub proof fn linear_nodes_count_their_parameters(op: GraphOp, in_features: i64, out_features: i64)
    requires
        0 <= in_features * out_features <= i64::MAX,
    ensures
        parameter_count(GraphOp::Linear { in_features, out_features, bias: false }) == in_features * out_features,
        parameter_count(GraphOp::Linear { in_features, out_features, bias: true }) == (in_features * out_features) + out_features,
        !(op is Linear) ==> parameter_count(op) == 0,
{
}

/// A quotation mark, a backslash and a line break are written with a backslash before them, every other
/// character as it is, and texts are written one after the other.
pub proof fn labels_are_escaped(a: Seq<char>, b: Seq<char>, c: char)
    ensures
        escaped(a + b) == escaped(a) + escaped(b),
        escaped(seq!['"']) == seq!['\\', '"'],
        escaped(seq!['\\']) == seq!['\\', '\\'],
        escaped(seq!['\n']) == seq!['\\', 'n'],
        c != '"' && c != '\\' && c != '\n' ==> escaped(seq![c]) == seq![c],
        !escaped(a).contains('\n'),
    decreases b.len(),
{
    labels_of_one();
    single_is_escaped(c);
    no_line_breaks(a);
    if b.len() == 0 {
        assert(a + b =~= a);
        assert(escaped(a) + escaped(b) =~= escaped(a));
    } else {
        labels_are_escaped(a, b.drop_last(), c);
        assert((a + b).drop_last() =~= a + b.drop_last());
        assert((a + b).last() == b.last());
        assert(escaped(a + b) =~= escaped(a) + escaped(b));
    }
}

proof fn single_is_escaped(c: char)
    ensures
        escaped(seq![c]) == (if c == '\\' {
            seq!['\\', '\\']
        } else if c == '"' {
            seq!['\\', '"']
        } else if c == '\n' {
            seq!['\\', 'n']
        } else {
            seq![c]
        }),
{
    assert(seq![c].drop_last() =~= Seq::<char>::empty());
    assert(escaped(Seq::<char>::empty()) =~= Seq::<char>::empty());
    assert(escaped(seq![c]) =~= (if c == '\\' {
        seq!['\\', '\\']
    } else if c == '"' {
        seq!['\\', '"']
    } else if c == '\n' {
        seq!['\\', 'n']
    } else {
        seq![c]
    }));
}

proof fn labels_of_one()
    ensures
        escaped(seq!['"']) == seq!['\\', '"'],
        escaped(seq!['\\']) == seq!['\\', '\\'],
        escaped(seq!['\n']) == seq!['\\', 'n'],
{
    single_is_escaped('"');
    single_is_escaped('\\');
    single_is_escaped('\n');
}

proof fn no_line_breaks(text: Seq<char>)
    ensures
        !escaped(text).contains('\n'),
    decreases text.len(),
{
    if text.len() > 0 {
        no_line_breaks(text.drop_last());
        let before = escaped(text.drop_last());
        let all = escaped(text);
        if all.contains('\n') {
            let k = choose|k: int| 0 <= k < all.len() && all[k] == '\n';
            if k < before.len() {
                assert(before[k] == '\n');
            }
        }
    }
}

/// A text holds another one somewhere.
pub open spec fn holds(text: Seq<char>, part: Seq<char>) -> bool {
    exists|before: Seq<char>, after: Seq<char>| text == #[trigger] ((before + part) + after)
}

proof fn longer_texts_hold(text: Seq<char>, more: Seq<char>, part: Seq<char>)
    requires
        holds(text, part),
    ensures
        holds(text + more, part),
{
    let (before, after) = choose|before: Seq<char>, after: Seq<char>| text == #[trigger] ((before + part) + after);
    assert(text + more =~= (before + part) + (after + more));
}

proof fn text_holds_its_end(text: Seq<char>, part: Seq<char>)
    ensures
        holds(text + part, part),
{
    assert(text + part =~= (text + part) + Seq::<char>::empty());
}

/// The line of an edge in a drawing.
pub open spec fn edge_line(from: int, to: int) -> Seq<char> {
    "  n"@ + decimal(from) + " -> n"@ + decimal(to) + ";\n"@
}

/// A drawing has, for each active node and each of its active operands, an edge from the operand to the
/// node.
pub proof fn drawings_show_every_edge(nodes: Seq<NodeView>, n: int, i: int, k: int)
    requires
        0 <= i < n <= nodes.len(),
        nodes[i].active,
        0 <= k < nodes[i].inputs.len(),
        nodes[i].inputs[k].0 < nodes.len(),
        nodes[nodes[i].inputs[k].0 as int].active,
    ensures
        holds(dot_edges(nodes, n), edge_line(nodes[i].inputs[k].0 as int, nodes[i].id.0 as int)),
    decreases n,
{
    let line = edge_line(nodes[i].inputs[k].0 as int, nodes[i].id.0 as int);
    if i == n - 1 {
        edges_of_node(nodes, i, nodes[i].inputs.len() as int, k);
        let own = dot_edges_of(nodes, i, nodes[i].inputs.len() as int);
        let rest = dot_edges(nodes, n - 1);
        let (before, after) = choose|before: Seq<char>, after: Seq<char>| own == #[trigger] ((before + line) + after);
        assert(rest + own =~= ((rest + before) + line) + after);
    } else {
        drawings_show_every_edge(nodes, n - 1, i, k);
        if nodes[n - 1].active {
            longer_texts_hold(dot_edges(nodes, n - 1), dot_edges_of(nodes, n - 1, nodes[n - 1].inputs.len() as int), line);
        }
    }
}

proof fn edges_of_node(nodes: Seq<NodeView>, i: int, m: int, k: int)
    requires
        0 <= i < nodes.len(),
        0 <= k < m <= nodes[i].inputs.len(),
        nodes[i].inputs[k].0 < nodes.len(),
        nodes[nodes[i].inputs[k].0 as int].active,
    ensures
        holds(dot_edges_of(nodes, i, m), edge_line(nodes[i].inputs[k].0 as int, nodes[i].id.0 as int)),
    decreases m,
{
    let to = nodes[i].id.0 as int;
    let line = edge_line(nodes[i].inputs[k].0 as int, to);
    let rest = dot_edges_of(nodes, i, m - 1);
    let from = nodes[i].inputs[m - 1].0 as int;
    let added = edge_line(from, to);
    assert(rest + "  n"@ + decimal(from) + " -> n"@ + decimal(to) + ";\n"@ =~= rest + added);
    if k == m - 1 {
        text_holds_its_end(rest, line);
    } else {
        edges_of_node(nodes, i, m - 1, k);
        longer_texts_hold(rest, added, line);
    }
}

} // verus!
