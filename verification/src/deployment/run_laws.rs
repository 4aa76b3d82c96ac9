//! The tensors of a run have the shapes that were inferred.
use super::evaluate::{accepted, bound_inputs, entered, operation_is_sound, EvaluationView};
use super::guard::{axis_checks, guard_refusal, guarded_symbols_agree, symbol_at, tensor_checks};
use super::infer::{
    all_specs, axis_of, batch_of, broadcast_of, concatenated, divisor_of, flatten_of, from_end, inferred_axis, inferred_spec,
    input_specs, known_dims, larger, matmul_of, merged, operation_specs, quotient_of, reshape_of, result_of, state_specs,
    SpecMap, StateMeta,
};
use super::infer_laws::{
    elements, input_specs_are_named, operation_specs_are_named, product_is_sound, reshape_keeps_elements, size_of,
    state_specs_are_named, target_elements,
};
use super::program::{input_checks, known_name, operator_ok, program_verdict, reshape_ok};
use super::types::{DimensionView, OperationView, OperatorView, ProgramView, ValueSpecView};
use crate::error::{first_at_none, ErrorView};
use crate::kind::Device;
use crate::tensor::{common_size, is_broadcast, size_from_end, MetaView};
use vstd::prelude::*;

verus! {

/// The sizes in front of the last two.
pub open spec fn leading(shape: Seq<i64>) -> Seq<i64> {
    if shape.len() > 2 {
        shape.take(shape.len() - 2)
    } else {
        Seq::empty()
    }
}

/// The sizes of the matrices of a product: the rows of the first and the columns of the second,
/// where they have them.
pub open spec fn matrix_sizes(a: Seq<i64>, b: Seq<i64>) -> Seq<i64> {
    (if a.len() > 1 {
        seq![a[a.len() - 2]]
    } else {
        Seq::empty()
    }) + (if b.len() > 1 {
        seq![b.last()]
    } else {
        Seq::empty()
    })
}

/// The product of the first `n` sizes.
pub open spec fn volume(shape: Seq<i64>, n: int) -> int
    decreases n,
{
    if n <= 0 {
        1
    } else {
        volume(shape, n - 1) * shape[n - 1]
    }
}

/// The sum of the sizes along an axis of the first `n` shapes.
pub open spec fn total_along(shapes: Seq<Seq<i64>>, axis: int, n: int) -> int
    decreases n,
{
    if n <= 0 {
        0
    } else {
        total_along(shapes, axis, n - 1) + shapes[n - 1][axis]
    }
}

/// A shape of the requested sizes, with any size in place of `-1`, and as many elements as the
/// operand.
pub open spec fn is_reshaped(first: Seq<i64>, shape: Seq<i64>, r: Seq<i64>) -> bool {
    &&& r.len() == shape.len()
    &&& forall|k: int| 0 <= k < shape.len() ==> shape[k] == -1 || #[trigger] r[k] == shape[k]
    &&& volume(r, r.len() as int) == volume(first, first.len() as int)
}

/// An operator that succeeds on tensors of the given shapes gives a tensor of shape `r`.
pub open spec fn gives(operator: OperatorView, shapes: Seq<Seq<i64>>, r: Seq<i64>) -> bool {
    let first = shapes[0];
    let rank = first.len() as int;
    match operator {
        OperatorView::Identity | OperatorView::Relu | OperatorView::Sigmoid | OperatorView::Tanh => r == first,
        OperatorView::Add | OperatorView::Subtract | OperatorView::Multiply => is_broadcast(first, shapes[1], r),
        OperatorView::Linear => rank > 0 && shapes[1].len() == 2 && r == first.update(rank - 1, shapes[1][0]),
        OperatorView::Matmul => {
            let tail = matrix_sizes(first, shapes[1]);
            &&& tail.len() <= r.len()
            &&& r.skip(r.len() - tail.len()) == tail
            &&& is_broadcast(leading(first), leading(shapes[1]), r.take(r.len() - tail.len()))
        },
        OperatorView::Transpose { dim0, dim1 } => match (axis_of(dim0, rank), axis_of(dim1, rank)) {
            (Ok(a), Ok(b)) => r == first.update(a, first[b]).update(b, first[a]),
            _ => false,
        },
        OperatorView::Permute(axes) => r == axes.map_values(|a: i64| first[a as int]),
        OperatorView::Flatten { start, end } => match (axis_of(start, rank), axis_of(end, rank)) {
            (Ok(a), Ok(b)) => {
                &&& a <= b
                &&& r.len() == rank - (b - a)
                &&& r.take(a) == first.take(a)
                &&& r[a] == volume(first.subrange(a, b + 1), b + 1 - a)
                &&& r.skip(a + 1) == first.skip(b + 1)
            },
            _ => false,
        },
        OperatorView::Reshape(shape) => is_reshaped(first, shape, r),
        OperatorView::Cat(dim) => match axis_of(dim, rank) {
            Ok(axis) => {
                &&& r.len() == rank
                &&& r[axis] == total_along(shapes, axis, shapes.len() as int)
                &&& forall|k: int| 0 <= k < rank && k != axis ==> #[trigger] r[k] == first[k]
            },
            Err(_) => false,
        },
        OperatorView::If { .. } => false,
    }
}

/// A shape has the given dimensions when the symbols stand for the given sizes.
pub open spec fn fits(dims: Seq<DimensionView>, shape: Seq<i64>, sizes: spec_fn(Seq<char>) -> int) -> bool {
    dims.len() == shape.len() && forall|k: int| 0 <= k < dims.len() ==> size_of(#[trigger] dims[k], sizes) == shape[k]
}

proof fn volume_fits(dims: Seq<DimensionView>, shape: Seq<i64>, sizes: spec_fn(Seq<char>) -> int, n: int)
    requires
        fits(dims, shape, sizes),
        0 <= n <= dims.len(),
    ensures
        elements(dims, sizes, n) == volume(shape, n),
    decreases n,
{
    if n > 0 {
        volume_fits(dims, shape, sizes, n - 1);
        assert(size_of(dims[n - 1], sizes) == shape[n - 1]);
    }
}

proof fn broadcast_fits(
    a: Seq<DimensionView>,
    b: Seq<DimensionView>,
    x: Seq<i64>,
    y: Seq<i64>,
    r: Seq<i64>,
    sizes: spec_fn(Seq<char>) -> int,
)
    requires
        broadcast_of(a, b) is Ok,
        fits(a, x, sizes),
        fits(b, y, sizes),
        is_broadcast(x, y, r),
    ensures
        fits(broadcast_of(a, b)->Ok_0, r, sizes),
{
    let dims = broadcast_of(a, b)->Ok_0;
    let n = larger(a.len() as int, b.len() as int);
    assert forall|k: int| 0 <= k < dims.len() implies size_of(#[trigger] dims[k], sizes) == r[k] by {
        let i = n - 1 - k;
        assert(merged(from_end(a, i), from_end(b, i)) is Some);
        assert(dims[k] == merged(from_end(a, i), from_end(b, i))->0);
        assert(common_size(size_from_end(x, i), size_from_end(y, i)) == size_from_end(r, i));
        if i < a.len() {
            assert(size_of(a[a.len() - 1 - i], sizes) == x[x.len() - 1 - i]);
        }
        if i < b.len() {
            assert(size_of(b[b.len() - 1 - i], sizes) == y[y.len() - 1 - i]);
        }
        assert(r[k] == r[r.len() - 1 - i]);
    }
}

proof fn matmul_fits(
    a: Seq<DimensionView>,
    b: Seq<DimensionView>,
    x: Seq<i64>,
    y: Seq<i64>,
    r: Seq<i64>,
    sizes: spec_fn(Seq<char>) -> int,
)
    requires
        matmul_of(a, b) is Ok,
        fits(a, x, sizes),
        fits(b, y, sizes),
        gives(OperatorView::Matmul, seq![x, y], r),
    ensures
        fits(matmul_of(a, b)->Ok_0, r, sizes),
{
    let dims = matmul_of(a, b)->Ok_0;
    let tail = matrix_sizes(x, y);
    let front = r.take(r.len() - tail.len());
    assert(fits(batch_of(a), leading(x), sizes)) by {
        assert forall|k: int| 0 <= k < batch_of(a).len() implies size_of(#[trigger] batch_of(a)[k], sizes) == leading(x)[k] by {
            assert(batch_of(a)[k] == a[k]);
        }
    }
    assert(fits(batch_of(b), leading(y), sizes)) by {
        assert forall|k: int| 0 <= k < batch_of(b).len() implies size_of(#[trigger] batch_of(b)[k], sizes) == leading(y)[k] by {
            assert(batch_of(b)[k] == b[k]);
        }
    }
    broadcast_fits(batch_of(a), batch_of(b), leading(x), leading(y), front, sizes);
    let batch = broadcast_of(batch_of(a), batch_of(b))->Ok_0;
    let m = batch.len() as int;
    assert(dims.len() == r.len());
    assert forall|k: int| 0 <= k < dims.len() implies size_of(#[trigger] dims[k], sizes) == r[k] by {
        if k < m {
            assert(dims[k] == batch[k]);
            assert(front[k] == r[k]);
        } else {
            assert(r.skip(r.len() - tail.len())[k - m] == r[k]);
            assert(tail[k - m] == r[k]);
            if a.len() > 1 {
                assert(size_of(a[a.len() - 2], sizes) == x[x.len() - 2]);
            }
            assert(size_of(b[b.len() - 1], sizes) == y[y.len() - 1]);
        }
    }
}

proof fn flatten_fits(
    dims: Seq<DimensionView>,
    start: i64,
    end: i64,
    x: Seq<i64>,
    r: Seq<i64>,
    sizes: spec_fn(Seq<char>) -> int,
)
    requires
        flatten_of(dims, start, end) is Ok,
        fits(dims, x, sizes),
        gives(OperatorView::Flatten { start, end }, seq![x], r),
    ensures
        fits(flatten_of(dims, start, end)->Ok_0, r, sizes),
{
    let result = flatten_of(dims, start, end)->Ok_0;
    let a = axis_of(start, dims.len() as int)->Ok_0;
    let b = axis_of(end, dims.len() as int)->Ok_0;
    let middle = dims.subrange(a, b + 1);
    let sub = x.subrange(a, b + 1);
    assert(fits(middle, sub, sizes)) by {
        assert forall|k: int| 0 <= k < middle.len() implies size_of(#[trigger] middle[k], sizes) == sub[k] by {
            assert(middle[k] == dims[a + k]);
        }
    }
    product_is_sound(middle, sizes);
    volume_fits(middle, sub, sizes, middle.len() as int);
    assert forall|k: int| 0 <= k < result.len() implies size_of(#[trigger] result[k], sizes) == r[k] by {
        if k < a {
            assert(result[k] == dims[k]);
            assert(r.take(a)[k] == x.take(a)[k]);
        } else if k > a {
            assert(result[k] == dims[k - a - 1 + b + 1]);
            assert(r.skip(a + 1)[k - a - 1] == x.skip(b + 1)[k - a - 1]);
        }
    }
}

proof fn reshape_fits(
    dims: Seq<DimensionView>,
    shape: Seq<i64>,
    x: Seq<i64>,
    r: Seq<i64>,
    sizes: spec_fn(Seq<char>) -> int,
)
    requires
        reshape_ok(shape),
        reshape_of(dims, shape) is Ok,
        fits(dims, x, sizes),
        is_reshaped(x, shape, r),
    ensures
        fits(reshape_of(dims, shape)->Ok_0, r, sizes),
{
    let result = reshape_of(dims, shape)->Ok_0;
    let n = shape.len() as int;
    match inferred_axis(shape) {
        Some(index) => {
            shape.index_of_first_ensures(-1i64);
            let divisor = divisor_of(shape, n)->0;
            let d = quotient_of(dims, divisor)->Ok_0;
            reshape_keeps_elements(dims, shape, sizes);
            target_elements(shape, index, d, sizes, n);
            let given = DimensionView::Known(r[index]);
            let chosen = known_dims(shape).update(index, given);
            assert(fits(chosen, r, sizes)) by {
                assert forall|k: int| 0 <= k < chosen.len() implies size_of(#[trigger] chosen[k], sizes) == r[k] by {
                    if k != index {
                        assert(!(shape[k] == -1 && shape[index] == -1)) by {
                            if k < index {
                                assert(!(shape[k] == -1 && shape[index] == -1));
                            } else {
                                assert(!(shape[index] == -1 && shape[k] == -1));
                            }
                        }
                        assert(r[k] == shape[k]);
                    }
                }
            }
            target_elements(shape, index, given, sizes, n);
            volume_fits(chosen, r, sizes, n);
            volume_fits(dims, x, sizes, dims.len() as int);
            let p = divisor as int;
            let s = size_of(d, sizes);
            let t = r[index] as int;
            assert(s == t) by (nonlinear_arith)
                requires
                    p * s == p * t,
                    p > 0,
            ;
            assert forall|k: int| 0 <= k < result.len() implies size_of(#[trigger] result[k], sizes) == r[k] by {
                if k != index {
                    assert(result[k] == chosen[k]);
                }
            }
        },
        None => {
            assert forall|k: int| 0 <= k < result.len() implies size_of(#[trigger] result[k], sizes) == r[k] by {
                assert(shape[k] != -1) by {
                    if shape[k] == -1 {
                        assert(shape.contains(-1i64));
                    }
                }
                assert(r[k] == shape[k]);
            }
        },
    }
}

proof fn concatenation_fits(
    inputs: Seq<ValueSpecView>,
    shapes: Seq<Seq<i64>>,
    axis: int,
    sizes: spec_fn(Seq<char>) -> int,
    n: int,
)
    requires
        0 <= n <= inputs.len(),
        shapes.len() == inputs.len(),
        0 <= axis < inputs[0].dimensions.len(),
        forall|i: int| 0 <= i < inputs.len() ==> fits((#[trigger] inputs[i]).dimensions, shapes[i], sizes),
        concatenated(inputs, axis, n) is Ok,
    ensures
        size_of(concatenated(inputs, axis, n)->Ok_0, sizes) == total_along(shapes, axis, n),
    decreases n,
{
    if n > 0 {
        concatenation_fits(inputs, shapes, axis, sizes, n - 1);
        assert(fits(inputs[n - 1].dimensions, shapes[n - 1], sizes));
        assert(size_of(inputs[n - 1].dimensions[axis], sizes) == shapes[n - 1][axis]);
    }
}

/// The result of an operator has the dimensions that are inferred from those of its operands,
/// whatever sizes the symbols stand for.
pub proof fn results_fit(
    operator: OperatorView,
    inputs: Seq<ValueSpecView>,
    shapes: Seq<Seq<i64>>,
    r: Seq<i64>,
    sizes: spec_fn(Seq<char>) -> int,
)
    requires
        inputs.len() > 0,
        operator_ok(operator, inputs.len() as int),
        shapes.len() == inputs.len(),
        forall|i: int| 0 <= i < inputs.len() ==> fits((#[trigger] inputs[i]).dimensions, shapes[i], sizes),
        result_of(operator, inputs) is Ok,
        gives(operator, shapes, r),
    ensures
        fits(result_of(operator, inputs)->Ok_0, r, sizes),
{
    let first = inputs[0].dimensions;
    let dims = result_of(operator, inputs)->Ok_0;
    assert(fits(inputs[0].dimensions, shapes[0], sizes));
    match operator {
        OperatorView::Add | OperatorView::Subtract | OperatorView::Multiply => {
            assert(fits(inputs[1].dimensions, shapes[1], sizes));
            broadcast_fits(first, inputs[1].dimensions, shapes[0], shapes[1], r, sizes);
        },
        OperatorView::Linear => {
            assert(fits(inputs[1].dimensions, shapes[1], sizes));
            assert(size_of(inputs[1].dimensions[0], sizes) == shapes[1][0]);
            assert forall|k: int| 0 <= k < dims.len() implies size_of(#[trigger] dims[k], sizes) == r[k] by {
                if k < first.len() - 1 {
                    assert(dims[k] == first[k]);
                }
            }
        },
        OperatorView::Matmul => {
            assert(fits(inputs[1].dimensions, shapes[1], sizes));
            assert(gives(operator, seq![shapes[0], shapes[1]], r));
            matmul_fits(first, inputs[1].dimensions, shapes[0], shapes[1], r, sizes);
        },
        OperatorView::Transpose { dim0, dim1 } => {
            let a = axis_of(dim0, first.len() as int)->Ok_0;
            let b = axis_of(dim1, first.len() as int)->Ok_0;
            assert(size_of(first[a], sizes) == shapes[0][a] && size_of(first[b], sizes) == shapes[0][b]);
            assert forall|k: int| 0 <= k < dims.len() implies size_of(#[trigger] dims[k], sizes) == r[k] by {
                assert(size_of(first[k], sizes) == shapes[0][k]);
            }
        },
        OperatorView::Permute(axes) => {
            assert forall|k: int| 0 <= k < dims.len() implies size_of(#[trigger] dims[k], sizes) == r[k] by {
                assert(0 <= axes[k] < first.len());
                assert(size_of(first[axes[k] as int], sizes) == shapes[0][axes[k] as int]);
            }
        },
        OperatorView::Flatten { start, end } => {
            assert(gives(operator, seq![shapes[0]], r));
            flatten_fits(first, start, end, shapes[0], r, sizes);
        },
        OperatorView::Reshape(shape) => {
            reshape_fits(first, shape, shapes[0], r, sizes);
        },
        OperatorView::Cat(dim) => {
            let axis = axis_of(dim, first.len() as int)->Ok_0;
            concatenation_fits(inputs, shapes, axis, sizes, inputs.len() as int);
            assert forall|k: int| 0 <= k < dims.len() implies size_of(#[trigger] dims[k], sizes) == r[k] by {
                if k != axis {
                    assert(dims[k] == first[k]);
                    assert(r[k] == shapes[0][k]);
                }
            }
        },
        _ => {},
    }
}

/// A tensor has the element type and the dimensions of a spec.
pub open spec fn meets(spec: ValueSpecView, meta: MetaView, sizes: spec_fn(Seq<char>) -> int) -> bool {
    meta.kind == spec.dtype.element() && fits(spec.dimensions, meta.shape, sizes)
}

/// Every value that a run knows meets its spec.
pub open spec fn agrees(run: EvaluationView, specs: SpecMap, sizes: spec_fn(Seq<char>) -> int) -> bool {
    &&& run.top().values.dom() == specs.dom()
    &&& forall|name: Seq<char>| #[trigger]
        specs.dom().contains(name) ==> run.top().values[name] < run.metas.len() && meets(
            specs[name],
            run.metas[run.top().values[name] as int],
            sizes,
        )
}

/// The size that a symbol stands for among the inputs of a run.
pub open spec fn run_sizes(inputs: Seq<ValueSpecView>, metas: Seq<MetaView>) -> spec_fn(Seq<char>) -> int {
    |name: Seq<char>|
        {
            let (i, k) = choose|i: int, k: int|
                #![trigger inputs[i].dimensions[k]]
                0 <= i < inputs.len() && 0 <= k < inputs[i].dimensions.len() && symbol_at(inputs[i], k) == Some(name);
            metas[i].shape[k] as int
        }
}

/// The tensors of the state are those that the inference read.
pub open spec fn has_state(run: EvaluationView, names: Seq<Seq<char>>, tensors: Seq<StateMeta>) -> bool {
    &&& run.state.dom() == names.to_set()
    &&& tensors.len() == names.len()
    &&& forall|i: int|
        0 <= i < names.len() ==> run.state[#[trigger] names[i]] < run.metas.len() && run.metas[run.state[names[i]] as int].kind
            == tensors[i].kind && run.metas[run.state[names[i]] as int].shape == tensors[i].shape@
}

/// A run of a program that has just begun on the inputs in the given slots.
pub open spec fn has_begun(run: EvaluationView, program: ProgramView, slots: Seq<usize>) -> bool {
    &&& run.frames == seq![entered(program, run.state, slots)]
    &&& run.waiting is Ready
    &&& forall|i: int| 0 <= i < slots.len() ==> #[trigger] slots[i] < run.metas.len()
    &&& guard_refusal(program.inputs, run.facts(slots), run.device) is None
}

/// What the operator that is being applied gives: a tensor of the shape that it has by the
/// shapes of the operands, and of the element type of the first.
pub open spec fn is_result(run: EvaluationView, meta: MetaView) -> bool {
    let facts = run.facts(run.top().operands());
    &&& gives(run.top().operation().operator, facts.map_values(|m: MetaView| m.shape), meta.shape)
    &&& meta.kind == facts[0].kind
}

/// One run follows another: the next action was asked for, or the operator was applied.
pub open spec fn follows(before: EvaluationView, after: EvaluationView) -> bool {
    ||| before.waiting is Ready && before.next().1 is Ok && after == before.next().0
    ||| before.waiting is Applying && before.metas.len() < usize::MAX && exists|meta: MetaView|
        #[trigger] is_result(before, meta) && after == before.applied(meta)
}

/// The specs of the inputs and of the state.
pub open spec fn first_specs(program: ProgramView, names: Seq<Seq<char>>, tensors: Seq<StateMeta>) -> SpecMap {
    state_specs(input_specs(program.inputs, program.inputs.len() as int), names, tensors, names.len() as int)->Ok_0
}

proof fn earlier_specs(specs: SpecMap, operations: Seq<OperationView>, k: int, n: int)
    requires
        0 <= k <= n,
        operation_specs(specs, operations, n) is Ok,
    ensures
        operation_specs(specs, operations, k) is Ok,
    decreases n - k,
{
    if k < n {
        earlier_specs(specs, operations, k, n - 1);
    }
}

/// The tensors of accepted inputs meet their specs.
proof fn inputs_meet(inputs: Seq<ValueSpecView>, metas: Seq<MetaView>, device: Device, i: int)
    requires
        guard_refusal(inputs, metas, device) is None,
        0 <= i < inputs.len(),
    ensures
        meets(inputs[i], metas[i], run_sizes(inputs, metas)),
{
    let sizes = run_sizes(inputs, metas);
    first_at_none(0, inputs.len() as int, tensor_checks(inputs, metas, device));
    assert(tensor_checks(inputs, metas, device)(i) is None);
    let dims = inputs[i].dimensions;
    first_at_none(0, dims.len() as int, axis_checks(inputs, metas, i));
    assert forall|k: int| 0 <= k < dims.len() implies size_of(#[trigger] dims[k], sizes) == metas[i].shape[k] by {
        assert(axis_checks(inputs, metas, i)(k) is None);
        if let Some(name) = symbol_at(inputs[i], k) {
            assert(inputs[i].dimensions[k] == dims[k]);
            let (j, l) = choose|j: int, l: int|
                #![trigger inputs[j].dimensions[l]]
                0 <= j < inputs.len() && 0 <= l < inputs[j].dimensions.len() && symbol_at(inputs[j], l) == Some(name);
            guarded_symbols_agree(inputs, metas, device, i, k, j, l);
        }
    }
}

/// The values that are known when a run begins: first the state, then the inputs.
proof fn bound_inputs_agree(run: EvaluationView, program: ProgramView, slots: Seq<usize>, n: int)
    requires
        guard_refusal(program.inputs, run.facts(slots), run.device) is None,
        0 <= n <= program.inputs.len(),
        forall|i: int| 0 <= i < slots.len() ==> #[trigger] slots[i] < run.metas.len(),
    ensures
        ({
            let values = bound_inputs(run.state, program.inputs, slots, n);
            let specs = input_specs(program.inputs, n);
            let sizes = run_sizes(program.inputs, run.facts(slots));
            &&& values.dom() == specs.dom().union(run.state.dom())
            &&& forall|name: Seq<char>| #[trigger]
                specs.dom().contains(name) ==> values[name] < run.metas.len() && meets(
                    specs[name],
                    run.metas[values[name] as int],
                    sizes,
                )
            &&& forall|name: Seq<char>|
                run.state.dom().contains(name) && !(#[trigger] specs.dom().contains(name)) ==> values[name] == run.state[name]
            &&& forall|name: Seq<char>| #[trigger] specs.dom().contains(name) ==> exists|j: int|
                0 <= j < n && (#[trigger] program.inputs[j]).name == name
        }),
    decreases n,
{
    let values = bound_inputs(run.state, program.inputs, slots, n);
    let specs = input_specs(program.inputs, n);
    if n > 0 {
        bound_inputs_agree(run, program, slots, n - 1);
        inputs_meet(program.inputs, run.facts(slots), run.device, n - 1);
        assert(run.facts(slots)[n - 1] == run.metas[slots[n - 1] as int]);
        assert(values.dom() =~= specs.dom().union(run.state.dom()));
        assert forall|name: Seq<char>| #[trigger] specs.dom().contains(name) implies exists|j: int|
            0 <= j < n && (#[trigger] program.inputs[j]).name == name by {
            if name == program.inputs[n - 1].name {
                assert(program.inputs[n - 1].name == name);
            } else {
                assert(input_specs(program.inputs, n - 1).dom().contains(name));
                let j = choose|j: int| 0 <= j < n - 1 && (#[trigger] program.inputs[j]).name == name;
                assert(program.inputs[j].name == name);
            }
        }
    } else {
        assert(values.dom() =~= specs.dom().union(run.state.dom()));
    }
}

proof fn state_agrees(
    run: EvaluationView,
    specs: SpecMap,
    names: Seq<Seq<char>>,
    tensors: Seq<StateMeta>,
    sizes: spec_fn(Seq<char>) -> int,
    n: int,
)
    requires
        0 <= n <= names.len(),
        has_state(run, names, tensors),
        state_specs(specs, names, tensors, n) is Ok,
    ensures
        ({
            let map = state_specs(specs, names, tensors, n)->Ok_0;
            &&& map.dom() == specs.dom().union(names.take(n).to_set())
            &&& forall|name: Seq<char>|
                names.take(n).to_set().contains(name) ==> meets(
                    #[trigger] map[name],
                    run.metas[run.state[name] as int],
                    sizes,
                )
            &&& forall|name: Seq<char>| !names.take(n).to_set().contains(name) ==> #[trigger] map[name] == specs[name]
        }),
    decreases n,
{
    let map = state_specs(specs, names, tensors, n)->Ok_0;
    let before = names.take(n - 1);
    let now = names.take(n);
    if n > 0 {
        state_agrees(run, specs, names, tensors, sizes, n - 1);
        assert(now =~= before.push(names[n - 1]));
        assert(now.to_set() =~= before.to_set().insert(names[n - 1])) by {
            assert forall|name: Seq<char>| now.to_set().contains(name) == before.to_set().insert(names[n - 1]).contains(name) by {
                if now.contains(name) {
                    let j = now.index_of(name);
                    if j < n - 1 {
                        assert(before[j] == name);
                    }
                }
                if before.contains(name) {
                    let j = before.index_of(name);
                    assert(now[j] == name);
                }
                assert(now[n - 1] == names[n - 1]);
            }
        }
        let dims = known_dims(tensors[n - 1].shape@);
        let meta = run.metas[run.state[names[n - 1]] as int];
        assert(meta.shape == tensors[n - 1].shape@);
        assert(fits(dims, meta.shape, sizes));
        assert(meets(map[names[n - 1]], meta, sizes));
        assert(map.dom() =~= specs.dom().union(now.to_set()));
    } else {
        assert(now =~= Seq::<Seq<char>>::empty());
        assert(now.to_set() =~= Set::empty());
        assert(map.dom() =~= specs.dom().union(now.to_set()));
    }
}

/// A run that has just begun agrees with the specs of the inputs and of the state.
proof fn start_agrees(
    run: EvaluationView,
    program: ProgramView,
    names: Seq<Seq<char>>,
    tensors: Seq<StateMeta>,
    slots: Seq<usize>,
)
    requires
        accepted(program, names.to_set()),
        all_specs(program, names, tensors) is Ok,
        has_state(run, names, tensors),
        has_begun(run, program, slots),
    ensures
        agrees(run, first_specs(program, names, tensors), run_sizes(program.inputs, run.facts(slots))),
{
    let n = program.inputs.len() as int;
    let sizes = run_sizes(program.inputs, run.facts(slots));
    let inputs = input_specs(program.inputs, n);
    let specs = first_specs(program, names, tensors);
    let values = run.top().values;
    bound_inputs_agree(run, program, slots, n);
    state_agrees(run, inputs, names, tensors, sizes, names.len() as int);
    assert(names.take(names.len() as int) =~= names);
    assert(values.dom() =~= specs.dom());
    let (depth, budget) = choose|depth: int, budget: int|
        (#[trigger] program_verdict(program, names.to_set(), depth, budget)).1 is None;
    assert(program_verdict(program, names.to_set(), depth, budget).1 is None);
    first_at_none(0, n, input_checks(program.inputs, names.to_set()));
    assert forall|name: Seq<char>| #[trigger] specs.dom().contains(name) implies values[name] < run.metas.len() && meets(
        specs[name],
        run.metas[values[name] as int],
        sizes,
    ) by {
        if names.to_set().contains(name) {
            let j = names.index_of(name);
            assert(names[j] == name);
            assert(!inputs.dom().contains(name)) by {
                if inputs.dom().contains(name) {
                    let i = choose|i: int| 0 <= i < n && (#[trigger] program.inputs[i]).name == name;
                    assert(input_checks(program.inputs, names.to_set())(i) is None);
                }
            }
            assert(values[name] == run.state[name]);
            assert(meets(specs[name], run.metas[run.state[name] as int], sizes));
        } else {
            assert(inputs.dom().contains(name));
            assert(specs[name] == inputs[name]);
        }
    }
}

/// The operands of the next operation, as the inference and as the run know them.
proof fn operands_agree(
    run: EvaluationView,
    program: ProgramView,
    names: Seq<Seq<char>>,
    tensors: Seq<StateMeta>,
    at: int,
    sizes: spec_fn(Seq<char>) -> int,
)
    requires
        accepted(program, names.to_set()),
        all_specs(program, names, tensors) is Ok,
        0 <= at < program.operations.len(),
        run.top().program == program,
        run.top().at == at,
        agrees(run, operation_specs(first_specs(program, names, tensors), program.operations, at)->Ok_0, sizes),
    ensures
        ({
            let first = first_specs(program, names, tensors);
            let map = operation_specs(first, program.operations, at)->Ok_0;
            let node = program.operations[at];
            let inputs = node.inputs.map_values(|i: Seq<char>| map[i]);
            let facts = run.facts(run.top().operands());
            &&& operation_specs(first, program.operations, at) is Ok
            &&& operation_specs(first, program.operations, at + 1) is Ok
            &&& operator_ok(node.operator, node.inputs.len() as int)
            &&& facts.len() == inputs.len()
            &&& inputs.len() > 0
            &&& inferred_spec(node.name, node.operator, inputs) is Ok
            &&& forall|k: int| 0 <= k < inputs.len() ==> meets(#[trigger] inputs[k], facts[k], sizes)
            &&& forall|k: int|
                0 <= k < node.inputs.len() ==> run.top().values[#[trigger] node.inputs[k]] < run.metas.len()
        }),
{
    let first = first_specs(program, names, tensors);
    let total = program.operations.len() as int;
    earlier_specs(first, program.operations, at, total);
    earlier_specs(first, program.operations, at + 1, total);
    operation_is_sound(program, names.to_set(), at);
    input_specs_are_named(program.inputs, program.inputs.len() as int);
    state_specs_are_named(
        input_specs(program.inputs, program.inputs.len() as int),
        names,
        tensors,
        names.len() as int,
    );
    operation_specs_are_named(first, program.operations, at);
    let map = operation_specs(first, program.operations, at)->Ok_0;
    let node = program.operations[at];
    let inputs = node.inputs.map_values(|i: Seq<char>| map[i]);
    let facts = run.facts(run.top().operands());
    assert forall|k: int| 0 <= k < inputs.len() implies meets(#[trigger] inputs[k], facts[k], sizes) && run.top().values[node.inputs[k]]
        < run.metas.len() by {
        let name = node.inputs[k];
        assert(known_name(program.inputs, program.operations, names.to_set(), at, name));
        if names.to_set().contains(name) {
            let j = names.index_of(name);
            assert(names[j] == name);
        }
        assert(map.dom().contains(name));
        assert(facts[k] == run.metas[run.top().values[name] as int]);
    }
    assert forall|k: int| 0 <= k < node.inputs.len() implies run.top().values[#[trigger] node.inputs[k]] < run.metas.len() by {
        assert(meets(inputs[k], facts[k], sizes));
    }
}

/// A run that agrees with the specs of what has run agrees with them after its next step.
proof fn step_agrees(
    before: EvaluationView,
    after: EvaluationView,
    program: ProgramView,
    names: Seq<Seq<char>>,
    tensors: Seq<StateMeta>,
    sizes: spec_fn(Seq<char>) -> int,
)
    requires
        accepted(program, names.to_set()),
        all_specs(program, names, tensors) is Ok,
        on_course(before, program, names, tensors, sizes),
        follows(before, after),
    ensures
        on_course(after, program, names, tensors, sizes),
{
    let first = first_specs(program, names, tensors);
    let at = before.top().at;
    let total = program.operations.len() as int;
    earlier_specs(first, program.operations, at, total);
    if at < total {
        let map = operation_specs(first, program.operations, at)->Ok_0;
        let node = program.operations[at];
        let inputs = node.inputs.map_values(|i: Seq<char>| map[i]);
        operands_agree(before, program, names, tensors, at, sizes);
        let spec = inferred_spec(node.name, node.operator, inputs)->Ok_0;
        let next = operation_specs(first, program.operations, at + 1)->Ok_0;
        assert(next == map.insert(node.name, spec));
        let operands = before.top().operands();
        let facts = before.facts(operands);
        assert(meets(inputs[0], facts[0], sizes));
        if before.waiting is Ready {
            if node.operator is Identity {
                assert(spec.dimensions == inputs[0].dimensions);
                assert(after.top().values.dom() =~= next.dom());
                assert(facts[0] == before.metas[operands[0] as int]);
                assert(before.top().values[node.inputs[0]] == operands[0]);
            }
        } else {
            let meta = choose|meta: MetaView| #[trigger] is_result(before, meta) && after == before.applied(meta);
            let shapes = facts.map_values(|m: MetaView| m.shape);
            assert forall|k: int| 0 <= k < inputs.len() implies fits((#[trigger] inputs[k]).dimensions, shapes[k], sizes) by {
                assert(meets(inputs[k], facts[k], sizes));
            }
            results_fit(node.operator, inputs, shapes, meta.shape, sizes);
            assert(after.top().values.dom() =~= next.dom());
            assert(after.metas[before.metas.len() as int] == meta);
            assert forall|name: Seq<char>| #[trigger] next.dom().contains(name) implies after.top().values[name]
                < after.metas.len() && meets(next[name], after.metas[after.top().values[name] as int], sizes) by {
                if name != node.name {
                    assert(map.dom().contains(name));
                    assert(after.metas[before.top().values[name] as int] == before.metas[before.top().values[name] as int]);
                }
            }
        }
    }
}

/// A run of a program agrees with the specs of everything that has run.
pub open spec fn on_course(
    run: EvaluationView,
    program: ProgramView,
    names: Seq<Seq<char>>,
    tensors: Seq<StateMeta>,
    sizes: spec_fn(Seq<char>) -> int,
) -> bool {
    &&& run.frames.len() == 1
    &&& run.top().program == program
    &&& 0 <= run.top().at <= program.operations.len()
    &&& run.waiting is Ready || run.waiting is Applying || run.waiting is Finished
    &&& run.waiting is Applying ==> run.top().at < program.operations.len()
    &&& agrees(run, operation_specs(first_specs(program, names, tensors), program.operations, run.top().at)->Ok_0, sizes)
}

/// Inference is sound: however far a run of an accepted program has come, every value that it
/// knows has the element type and the dimensions that were inferred, with the sizes that the
/// symbols have among its inputs. When all operations have run, this holds of every name of
/// the program.
pub proof fn runs_have_inferred_shapes(
    runs: Seq<EvaluationView>,
    program: ProgramView,
    names: Seq<Seq<char>>,
    tensors: Seq<StateMeta>,
    slots: Seq<usize>,
    n: int,
)
    requires
        accepted(program, names.to_set()),
        all_specs(program, names, tensors) is Ok,
        0 <= n < runs.len(),
        has_state(runs[0], names, tensors),
        has_begun(runs[0], program, slots),
        forall|i: int| 0 <= i < n ==> follows(#[trigger] runs[i], runs[i + 1]),
    ensures
        on_course(runs[n], program, names, tensors, run_sizes(program.inputs, runs[0].facts(slots))),
        runs[n].top().at == program.operations.len() ==> agrees(
            runs[n],
            all_specs(program, names, tensors)->Ok_0,
            run_sizes(program.inputs, runs[0].facts(slots)),
        ),
    decreases n,
{
    let sizes = run_sizes(program.inputs, runs[0].facts(slots));
    if n == 0 {
        start_agrees(runs[0], program, names, tensors, slots);
        assert(operation_specs(first_specs(program, names, tensors), program.operations, 0) == Ok::<SpecMap, ErrorView>(
            first_specs(program, names, tensors),
        ));
    } else {
        runs_have_inferred_shapes(runs, program, names, tensors, slots, n - 1);
        assert(follows(runs[n - 1], runs[n - 1 + 1]));
        step_agrees(runs[n - 1], runs[n], program, names, tensors, sizes);
    }
}

} // verus!
