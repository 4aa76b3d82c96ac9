//! Which programs are accepted, what a graph is lowered to, and which tensors a program takes.
use super::guard::{axis_checks, axis_refusal, conflicts, guard_refusal, reads_before, symbol_at, tensor_checks};
use super::infer::{
    alike, axis_of, broadcast_of, from_end, inferred_spec, known_dims, larger, linear_of, matmul_of, merged, result_of,
};
use super::lower::{
    lowered, lowered_dim, lowered_input, lowered_inputs, lowered_op, lowered_operands, lowered_operations, lowered_outputs,
};
use super::program::{
    charged, dimension_ok, input_names, input_refusal, known_name, operations_verdict, operator_ok, outputs_refusal,
    permutation_ok, program_verdict, reshape_ok, tuple_of, value_name_refusal,
};
use super::tree::{walked, TreeView};
use super::types::{DType, DimensionView, OperationView, OperatorView, ProgramView, ValueSpecView};
use crate::error::first_at_none;
use crate::graph::execute::ModuleView;
use crate::graph::ir::{GraphView, NodeId, NodeView};
use crate::graph::op::GraphOp;
use crate::graph::order::order_of_nodes;
use crate::graph::spec::{DimView, SpecView};
use crate::kind::{Device, Kind};
use crate::tensor::{common_size, is_broadcast, size_from_end, MetaView};
use crate::tensor_laws::broadcasts_exist_for_matching_sides;
use crate::text::is_control;
use vstd::prelude::*;
use vstd::utf8::encode_utf8;

verus! {

/// Four element types can be deployed, each as itself.
pub proof fn deployed_types_are_themselves(kind: Kind)
    ensures
        DType::of(Kind::Float) == Ok::<DType, crate::error::ErrorView>(DType::Float),
        DType::of(Kind::Double) == Ok::<DType, crate::error::ErrorView>(DType::Double),
        DType::of(Kind::Int64) == Ok::<DType, crate::error::ErrorView>(DType::Int64),
        DType::of(Kind::Bool) == Ok::<DType, crate::error::ErrorView>(DType::Bool),
        DType::of(kind) is Ok <==> kind is Float || kind is Double || kind is Int64 || kind is Bool,
        DType::of(kind) matches Ok(dtype) ==> dtype.element() == kind && dtype.width() == kind.width(),
{
}

/// An axis is named by its position, or from the last one by a negative number; nothing else names one.
pub proof fn axes_count_from_either_end(d: i64, rank: int)
    requires
        rank >= 0,
    ensures
        0 <= d < rank ==> axis_of(d, rank) == Ok::<int, crate::error::ErrorView>(d as int),
        -rank <= d < 0 ==> axis_of(d, rank) == Ok::<int, crate::error::ErrorView>(rank + d),
        d >= rank || d < -rank ==> axis_of(d, rank) is Err,
{
}

/// Sizes are alike exactly if they are equal numbers or symbols of one name.
pub proof fn sizes_are_alike(a: i64, b: i64, name: Seq<char>, other: Seq<char>, min: i64, max: Option<i64>, least: i64, most: Option<i64>)
    ensures
        alike(DimensionView::Known(a), DimensionView::Known(b)) <==> a == b,
        alike(DimensionView::Symbol { name, min, max }, DimensionView::Symbol { name: other, min: least, max: most }) <==> name == other,
        !alike(DimensionView::Known(a), DimensionView::Symbol { name, min, max }),
        !alike(DimensionView::Symbol { name, min, max }, DimensionView::Known(a)),
{
}

/// Sums, differences and products of operands whose sizes are all known are exported exactly where the
/// shapes can be broadcast.
pub proof fn known_operands_are_exported(a: Seq<i64>, b: Seq<i64>)
    ensures
        broadcast_of(known_dims(a), known_dims(b)) is Ok <==> exists|r: Seq<i64>| is_broadcast(a, b, r),
{
    let n = larger(a.len() as int, b.len() as int);
    let (x, y) = (known_dims(a), known_dims(b));
    assert forall|i: int| 0 <= i < n implies ((#[trigger] merged(from_end(x, i), from_end(y, i))) is None <==> common_size(
        size_from_end(a, i),
        size_from_end(b, i),
    ) is None) by {}
    broadcasts_exist_for_matching_sides(a, b);
    if forall|i: int|
        0 <= i < a.len() && i < b.len() ==> #[trigger] common_size(size_from_end(a, i), size_from_end(b, i)) is Some {
        assert forall|i: int| 0 <= i < n implies (#[trigger] merged(from_end(x, i), from_end(y, i))) is Some by {
            if i < a.len() && i < b.len() {
                assert(common_size(size_from_end(a, i), size_from_end(b, i)) is Some);
            }
        }
    }
    if broadcast_of(x, y) is Ok {
        assert forall|i: int| 0 <= i < a.len() && i < b.len() implies #[trigger] common_size(
            size_from_end(a, i),
            size_from_end(b, i),
        ) is Some by {
            assert(merged(from_end(x, i), from_end(y, i)) is Some);
        }
    }
}

/// A linear operation is exported exactly if its weight is a matrix whose columns are alike with the last
/// size of its input, and its bias has the size of the rows.
pub proof fn linear_operations_are_exported(inputs: Seq<ValueSpecView>)
    requires
        inputs.len() == 2 || inputs.len() == 3,
    ensures
        linear_of(inputs) is Ok <==> {
            let x = inputs[0].dimensions;
            let w = inputs[1].dimensions;
            &&& x.len() > 0 && w.len() == 2
            &&& alike(x[x.len() - 1], w[1])
            &&& inputs.len() == 3 ==> inputs[2].dimensions.len() == 1 && inputs[2].dimensions[0] == w[0]
        },
        linear_of(inputs) matches Ok(dims) ==> dims.len() == inputs[0].dimensions.len() && dims[dims.len() - 1]
            == inputs[1].dimensions[0],
{
    if inputs.len() == 3 && inputs[1].dimensions.len() == 2 && inputs[2].dimensions.len() == 1 && inputs[2].dimensions[0]
        == inputs[1].dimensions[0] {
        assert(inputs[2].dimensions =~= inputs[1].dimensions.take(1));
    }
    if inputs.len() == 3 && linear_of(inputs) is Ok {
        assert(inputs[2].dimensions =~= inputs[1].dimensions.take(1));
    }
}

/// A product of two matrices is exported exactly if the columns of the first are alike with the rows of
/// the second; it has the rows of the first and the columns of the second.
pub proof fn matrix_products_are_exported(a: Seq<DimensionView>, b: Seq<DimensionView>)
    requires
        a.len() == 2,
        b.len() == 2,
    ensures
        matmul_of(a, b) is Ok <==> alike(a[1], b[0]),
        matmul_of(a, b) matches Ok(dims) ==> dims == seq![a[0], b[1]],
{
    let none = Seq::<DimensionView>::empty();
    assert(broadcast_of(none, none) is Ok);
    assert(broadcast_of(none, none)->Ok_0 =~= none);
    if matmul_of(a, b) is Ok {
        assert(matmul_of(a, b)->Ok_0 =~= seq![a[0], b[1]]);
    }
}

/// What is worked out for an operation keeps its name, has the element type of its operands, which must
/// all be the same, and has the sizes that the operator gives.
pub proof fn inferred_values_keep_their_type(name: Seq<char>, operator: OperatorView, inputs: Seq<ValueSpecView>)
    ensures
        inferred_spec(name, operator, inputs) is Ok <==> {
            &&& inputs.len() > 0
            &&& forall|k: int| 0 <= k < inputs.len() ==> (#[trigger] inputs[k]).dtype == inputs[0].dtype
            &&& result_of(operator, inputs) is Ok
        },
        inferred_spec(name, operator, inputs) matches Ok(spec) ==> spec.name == name && spec.dtype == inputs[0].dtype
            && spec.dimensions == result_of(operator, inputs)->Ok_0,
{
}

/// A name is accepted exactly if it has from one to 1024 bytes and no control character.
pub proof fn value_names_are_printable(name: Seq<char>)
    ensures
        value_name_refusal(name) is None <==> name.len() > 0 && encode_utf8(name).len() <= 1024 && forall|i: int|
            0 <= i < name.len() ==> !is_control(#[trigger] name[i]),
{
}

/// An input is accepted exactly if its name is, and is taken by no state or input before it, and it has at
/// most 64 sizes, none of which is negative, unnamed or without a value in its range.
pub proof fn inputs_are_sound(inputs: Seq<ValueSpecView>, state: Set<Seq<char>>, i: int)
    ensures
        input_refusal(inputs, state, i) is None <==> {
            let input = inputs[i];
            &&& value_name_refusal(input.name) is None
            &&& !state.contains(input.name)
            &&& forall|j: int| 0 <= j < i ==> (#[trigger] inputs[j]).name != input.name
            &&& input.dimensions.len() <= 64
            &&& forall|k: int|
                0 <= k < input.dimensions.len() ==> match #[trigger] input.dimensions[k] {
                    DimensionView::Known(n) => n >= 0,
                    DimensionView::Symbol { name, min, max } => name.len() > 0 && min >= 0 && (max is None || max->0 >= min),
                }
        },
{
    let input = inputs[i];
    if input_refusal(inputs, state, i) is None {
        assert forall|k: int| 0 <= k < input.dimensions.len() implies match #[trigger] input.dimensions[k] {
            DimensionView::Known(n) => n >= 0,
            DimensionView::Symbol { name, min, max } => name.len() > 0 && min >= 0 && (max is None || max->0 >= min),
        } by {
            assert(dimension_ok(input.dimensions[k]));
        }
    }
}

/// How many operands each operator takes, and which attributes it accepts.
pub proof fn operators_take_their_operands(operator: OperatorView, arity: int)
    ensures
        operator is Identity || operator is Relu || operator is Sigmoid || operator is Tanh || operator is Transpose || operator
            is Flatten ==> (operator_ok(operator, arity) <==> arity == 1),
        operator is Add || operator is Subtract || operator is Multiply || operator is Matmul ==> (operator_ok(operator, arity) <==> arity
            == 2),
        operator is Linear ==> (operator_ok(operator, arity) <==> arity == 2 || arity == 3),
        operator is Cat ==> (operator_ok(operator, arity) <==> arity >= 1),
        operator matches OperatorView::Reshape(shape) ==> (operator_ok(operator, arity) <==> arity == 1 && shape.len() <= 64 && (forall|
            i: int,
        |
            0 <= i < shape.len() ==> (#[trigger] shape[i]) >= -1) && forall|i: int, j: int|
            0 <= i < shape.len() && 0 <= j < shape.len() && i != j && #[trigger] shape[i] == -1 ==> #[trigger] shape[j] != -1),
        operator matches OperatorView::Permute(axes) ==> operator_ok(operator, arity) ==> arity == 1 && axes.len() <= 64 && axes.no_duplicates(),
        operator matches OperatorView::If { then_branch, .. } ==> (operator_ok(operator, arity) <==> arity - 1 == then_branch.inputs.len()),
{
    if operator is Reshape {
        let shape = operator->Reshape_0;
        if reshape_ok(shape) {
            assert forall|i: int, j: int|
                0 <= i < shape.len() && 0 <= j < shape.len() && i != j && #[trigger] shape[i] == -1 implies #[trigger] shape[j] != -1 by {
                if i < j {
                    assert(!(shape[i] == -1 && shape[j] == -1));
                } else {
                    assert(!(shape[j] == -1 && shape[i] == -1));
                }
            }
        }
    }
    if operator is Permute {
        let axes = operator->Permute_0;
        if permutation_ok(axes) {
            permutations_are_distinct(axes);
        }
    }
}

proof fn permutations_are_distinct(axes: Seq<i64>)
    requires
        permutation_ok(axes),
    ensures
        axes.no_duplicates(),
{
    let wanted = Set::new(|a: i64| 0 <= a < axes.len());
    assert(axes.to_set() =~= wanted) by {
        assert forall|a: i64| wanted.contains(a) implies axes.to_set().contains(a) by {
            assert(axes.contains(a));
        }
    }
    numbers_are_counted(axes.len() as int, wanted);
    axes.lemma_cardinality_of_set();
    assert(axes.to_set().len() == axes.len());
    axes.lemma_no_dup_set_cardinality();
}

proof fn numbers_are_counted(n: int, numbers: Set<i64>)
    requires
        0 <= n <= 64,
        forall|a: i64| numbers.contains(a) <==> 0 <= a < n,
    ensures
        numbers.finite(),
        numbers.len() == n,
    decreases n,
{
    if n == 0 {
        assert(numbers =~= Set::<i64>::empty());
    } else {
        let last = (n - 1) as i64;
        let rest = numbers.remove(last);
        numbers_are_counted(n - 1, rest);
        assert(numbers =~= rest.insert(last));
    }
}

/// The operations of an accepted program have new names, use only what was there before them, and take
/// the operands that their operators need.
pub proof fn accepted_operations_use_what_is_there(
    inputs: Seq<ValueSpecView>,
    operations: Seq<OperationView>,
    state: Set<Seq<char>>,
    depth: int,
    budget: int,
    n: nat,
    i: int,
)
    requires
        n <= operations.len(),
        0 <= i < n,
        operations_verdict(inputs, operations, state, depth, budget, n).1 is None,
    ensures
        ({
            let node = operations[i];
            &&& value_name_refusal(node.name) is None
            &&& !known_name(inputs, operations, state, i, node.name)
            &&& forall|k: int| 0 <= k < node.inputs.len() ==> known_name(inputs, operations, state, i, #[trigger] node.inputs[k])
            &&& operator_ok(node.operator, node.inputs.len() as int)
        }),
    decreases n,
{
    if i < n - 1 {
        accepted_operations_use_what_is_there(inputs, operations, state, depth, budget, (n - 1) as nat, i);
    }
}

/// A name is known where it names a state, an input or one of the operations before.
pub proof fn known_names_come_before(
    inputs: Seq<ValueSpecView>,
    operations: Seq<OperationView>,
    state: Set<Seq<char>>,
    n: int,
    name: Seq<char>,
    i: int,
)
    requires
        0 <= n <= operations.len(),
    ensures
        state.contains(name) ==> known_name(inputs, operations, state, n, name),
        0 <= i < inputs.len() ==> known_name(inputs, operations, state, n, inputs[i].name),
        0 <= i < n ==> known_name(inputs, operations, state, n, operations[i].name),
        known_name(inputs, operations, state, n, name) && !state.contains(name) ==> (exists|j: int|
            0 <= j < inputs.len() && (#[trigger] inputs[j]).name == name) || (exists|j: int|
            0 <= j < n && (#[trigger] operations[j]).name == name),
{
}

/// A program of accepted versions is within its bounds exactly if it is nested at most 32 deep and it has,
/// with what was counted before it, at most 10,000 inputs and operations.
pub proof fn programs_are_bounded(version: u32, operators: u32, depth: int, budget: int, count: int)
    requires
        0 <= budget,
        0 <= count,
    ensures
        charged(version, operators, depth, budget, count).1 is None <==> version == 1 && operators == 1 && depth <= 32 && budget + count
            <= 10000,
        charged(version, operators, depth, budget, count).1 is None ==> charged(version, operators, depth, budget, count).0 == budget
            + count,
{
}

/// An accepted program names its inputs in the order of its input tree, and every output that its output
/// tree names is known; there is at least one.
pub proof fn accepted_programs_name_their_values(program: ProgramView, state: Set<Seq<char>>, depth: int, budget: int)
    requires
        program_verdict(program, state, depth, budget).1 is None,
    ensures
        program.version == 1 && program.operator_version == 1,
        walked(program.input_tree, 0, Seq::empty()) matches Ok(names) && names.len() == program.inputs.len() && forall|i: int|
            0 <= i < names.len() ==> #[trigger] names[i] == program.inputs[i].name,
        walked(program.output_tree, 0, Seq::empty()) matches Ok(names) && names.len() > 0 && forall|k: int|
            0 <= k < names.len() ==> known_name(
                program.inputs,
                program.operations,
                state,
                program.operations.len() as int,
                #[trigger] names[k],
            ),
{
    assert(outputs_refusal(program, state) is None);
}

/// Tensors that are accepted for a program are as many as its inputs, lie on its device and have the
/// element types, ranks and fixed sizes of their specifications; each size that a symbol stands for lies
/// in the range of the symbol.
pub proof fn guarded_tensors_meet_their_specifications(
    specs: Seq<ValueSpecView>,
    metas: Seq<MetaView>,
    device: Device,
    i: int,
    k: int,
)
    requires
        guard_refusal(specs, metas, device) is None,
        0 <= i < specs.len(),
        0 <= k < specs[i].dimensions.len(),
    ensures
        metas.len() == specs.len(),
        metas[i].device == device,
        metas[i].kind == specs[i].dtype.element(),
        metas[i].shape.len() == specs[i].dimensions.len(),
        match specs[i].dimensions[k] {
            DimensionView::Known(n) => metas[i].shape[k] == n,
            DimensionView::Symbol { min, max, .. } => min <= metas[i].shape[k] && (max is None || metas[i].shape[k] <= max->0),
        },
{
    let checks = tensor_checks(specs, metas, device);
    first_at_none(0, specs.len() as int, checks);
    assert(checks(i) is None);
    first_at_none(0, specs[i].dimensions.len() as int, axis_checks(specs, metas, i));
    assert(axis_checks(specs, metas, i)(k) is None);
}

/// Tensors are accepted where they meet their specifications and some assignment of sizes to symbols
/// gives every size that they have.
pub proof fn fitting_tensors_are_accepted(
    specs: Seq<ValueSpecView>,
    metas: Seq<MetaView>,
    device: Device,
    sizes: spec_fn(Seq<char>) -> i64,
)
    requires
        metas.len() == specs.len(),
        forall|i: int|
            0 <= i < specs.len() ==> (#[trigger] metas[i]).device == device && metas[i].kind == specs[i].dtype.element()
                && metas[i].shape.len() == specs[i].dimensions.len(),
        forall|i: int, k: int|
            #![trigger specs[i].dimensions[k]]
            0 <= i < specs.len() && 0 <= k < specs[i].dimensions.len() ==> match specs[i].dimensions[k] {
                DimensionView::Known(n) => metas[i].shape[k] == n,
                DimensionView::Symbol { name, min, max } => metas[i].shape[k] == sizes(name) && min <= sizes(name) && (max is None
                    || sizes(name) <= max->0),
            },
    ensures
        guard_refusal(specs, metas, device) is None,
{
    let checks = tensor_checks(specs, metas, device);
    first_at_none(0, specs.len() as int, checks);
    assert forall|i: int| 0 <= i < specs.len() implies (#[trigger] checks(i)) is None by {
        let axes = axis_checks(specs, metas, i);
        first_at_none(0, specs[i].dimensions.len() as int, axes);
        assert(metas[i].device == device);
        assert forall|k: int| 0 <= k < specs[i].dimensions.len() implies (#[trigger] axes(k)) is None by {
            let dimension = specs[i].dimensions[k];
            if dimension is Symbol {
                let name = dimension->name;
                assert(!conflicts(specs, metas, i, k, name, metas[i].shape[k])) by {
                    assert forall|j: int, l: int|
                        #![trigger specs[j].dimensions[l]]
                        0 <= j < specs.len() && 0 <= l < specs[j].dimensions.len() && reads_before(j, l, i, k) && symbol_at(specs[j], l)
                            == Some(name) implies metas[j].shape[l] == metas[i].shape[k] by {
                        assert(specs[j].dimensions[l] is Symbol);
                    }
                }
            }
            assert(axis_refusal(specs, metas, i, k) is None);
        }
    }
}

/// What each operation of a graph is lowered to: arithmetic, activations, joins and linear maps to
/// themselves, what changes nothing when a model is used to the identity, and nothing else.
pub proof fn graph_operations_are_lowered_to_themselves(op: GraphOp)
    ensures
        op is Add ==> lowered_op(op) == Ok::<OperatorView, crate::error::ErrorView>(OperatorView::Add),
        op is Subtract ==> lowered_op(op) == Ok::<OperatorView, crate::error::ErrorView>(OperatorView::Subtract),
        op is Multiply ==> lowered_op(op) == Ok::<OperatorView, crate::error::ErrorView>(OperatorView::Multiply),
        op is ReLU ==> lowered_op(op) == Ok::<OperatorView, crate::error::ErrorView>(OperatorView::Relu),
        op is Linear ==> lowered_op(op) == Ok::<OperatorView, crate::error::ErrorView>(OperatorView::Linear),
        op matches GraphOp::Flatten { start_dim, end_dim } ==> lowered_op(op) == Ok::<OperatorView, crate::error::ErrorView>(
            OperatorView::Flatten { start: start_dim, end: end_dim },
        ),
        op matches GraphOp::Concatenate { dim } ==> lowered_op(op) == Ok::<OperatorView, crate::error::ErrorView>(OperatorView::Cat(dim)),
        op is Identity || op is Output || op is Dropout ==> lowered_op(op) == Ok::<OperatorView, crate::error::ErrorView>(
            OperatorView::Identity,
        ),
        op is Gelu || op is MseLoss || op is CrossEntropyLoss || op is Input ==> lowered_op(op) is Err,
{
}

/// A node is lowered with the names of the values it takes, in their order, and a linear node with the
/// names of its weight and of its bias, where it has one, after them.
pub proof fn operands_are_lowered_by_name(nodes: Seq<NodeView>, node: NodeView, k: int)
    requires
        0 <= k < node.inputs.len(),
    ensures
        ({
            let names = lowered_operands(nodes, node);
            let n = node.inputs.len() as int;
            &&& names[k] == nodes[node.inputs[k].0 as int].name
            &&& !(node.op is Linear) ==> names.len() == n
            &&& node.op matches GraphOp::Linear { bias, .. } ==> {
                &&& names[n] == node.name + ".weight"@
                &&& bias ==> names.len() == n + 2 && names[n + 1] == node.name + ".bias"@
                &&& !bias ==> names.len() == n + 1
            }
        }),
{
}

/// Each active node but the inputs is lowered to an operation with its name.
pub proof fn active_nodes_are_lowered(nodes: Seq<NodeView>, order: Seq<NodeId>, n: int, i: int)
    requires
        0 <= i < n <= order.len(),
        lowered_operations(nodes, order, n) is Ok,
        nodes[order[i].0 as int].active,
        !(nodes[order[i].0 as int].op is Input),
    ensures
        ({
            let node = nodes[order[i].0 as int];
            &&& lowered_op(node.op) is Ok
            &&& lowered_operations(nodes, order, n)->Ok_0.contains(
                OperationView { name: node.name, operator: lowered_op(node.op)->Ok_0, inputs: lowered_operands(nodes, node) },
            )
        }),
    decreases n,
{
    let before = lowered_operations(nodes, order, n - 1)->Ok_0;
    let all = lowered_operations(nodes, order, n)->Ok_0;
    let node = nodes[order[i].0 as int];
    let wanted = OperationView { name: node.name, operator: lowered_op(node.op)->Ok_0, inputs: lowered_operands(nodes, node) };
    if i < n - 1 {
        active_nodes_are_lowered(nodes, order, n - 1, i);
        let k = choose|k: int| 0 <= k < before.len() && before[k] == wanted;
        assert(all[k] == wanted);
    } else {
        assert(all[before.len() as int] == wanted);
    }
}

/// A size is lowered to itself, a symbol to one without an upper bound, and an open size to nothing.
pub proof fn sizes_are_lowered_to_themselves(n: i64, name: Seq<char>)
    ensures
        lowered_dim(DimView::Known(n)) == Some(DimensionView::Known(n)),
        lowered_dim(DimView::Symbol(name)) == Some(DimensionView::Symbol { name, min: 0, max: None }),
        lowered_dim(DimView::Dynamic) is None,
{
}

/// An input is lowered exactly if it declares a deployable element type and all its sizes; it keeps its
/// name, its element type and the order of its sizes.
pub proof fn inputs_are_lowered_with_their_sizes(name: Seq<char>, spec: SpecView)
    ensures
        lowered_input(name, spec) is Ok <==> {
            &&& spec.dimensions is Some && spec.kind is Some
            &&& forall|k: int| 0 <= k < spec.dimensions->0.len() ==> !((#[trigger] spec.dimensions->0[k]) is Dynamic)
            &&& DType::of(spec.kind->0) is Ok
        },
        lowered_input(name, spec) matches Ok(input) ==> {
            &&& input.name == name
            &&& input.dtype.element() == spec.kind->0
            &&& input.dimensions.len() == spec.dimensions->0.len()
            &&& forall|k: int| 0 <= k < input.dimensions.len() ==> Some(#[trigger] input.dimensions[k]) == lowered_dim(spec.dimensions->0[k])
        },
{
    if spec.dimensions is Some {
        let dims = spec.dimensions->0;
        if forall|k: int| 0 <= k < dims.len() ==> !((#[trigger] dims[k]) is Dynamic) {
            assert forall|k: int| 0 <= k < dims.len() implies lowered_dim(#[trigger] dims[k]) is Some by {
                assert(!(dims[k] is Dynamic));
            }
        }
        if forall|k: int| 0 <= k < dims.len() ==> lowered_dim(#[trigger] dims[k]) is Some {
            assert forall|k: int| 0 <= k < dims.len() implies !((#[trigger] dims[k]) is Dynamic) by {
                assert(lowered_dim(dims[k]) is Some);
            }
        }
    }
}

proof fn inputs_keep_their_order(graph: GraphView, n: int, i: int)
    requires
        0 <= i < n <= graph.input_names.len(),
        lowered_inputs(graph, n) is Ok,
    ensures
        lowered_inputs(graph, n)->Ok_0.len() == n,
        Ok::<ValueSpecView, crate::error::ErrorView>(lowered_inputs(graph, n)->Ok_0[i]) == lowered_input(
            graph.input_names[i],
            graph.nodes[graph.input_values[i].0 as int].spec,
        ),
    decreases n,
{
    if n > 1 {
        inputs_keep_their_order(graph, n - 1, if i < n - 1 {
            i
        } else {
            0
        });
    } else {
        assert(lowered_inputs(graph, 0)->Ok_0.len() == 0);
    }
}

/// A module that is being used, and not trained, is lowered to a program of the first versions, which
/// takes the inputs of its graph in their order as a tuple, runs its operations and gives out a dictionary
/// with the value of each named output.
pub proof fn modules_are_lowered_to_programs(module: ModuleView, i: int, k: int)
    requires
        lowered(module) is Ok,
        0 <= i < module.graph.input_names.len(),
        0 <= k < module.graph.output_names.len(),
    ensures
        !module.training,
        ({
            let program = lowered(module)->Ok_0;
            let graph = module.graph;
            let order = order_of_nodes(graph.nodes);
            &&& program.version == 1 && program.operator_version == 1
            &&& program.inputs.len() == graph.input_names.len()
            &&& program.inputs[i].name == graph.input_names[i]
            &&& program.input_tree is Tuple && program.input_tree->Tuple_0.len() == graph.input_names.len()
            &&& program.input_tree->Tuple_0[i] == TreeView::Tensor(graph.input_names[i])
            &&& lowered_operations(graph.nodes, order, order.len() as int) == Ok::<Seq<OperationView>, crate::error::ErrorView>(
                program.operations,
            )
            &&& program.output_tree is Dict && program.output_tree->Dict_0.len() == graph.output_names.len()
            &&& program.output_tree->Dict_0[k] == (
                graph.output_names[k],
                TreeView::Tensor(graph.nodes[graph.output_values[k].0 as int].name),
            )
        }),
{
    inputs_keep_their_order(module.graph, module.graph.input_names.len() as int, i);
    let program = lowered(module)->Ok_0;
    inputs_are_lowered_with_their_sizes(
        module.graph.input_names[i],
        module.graph.nodes[module.graph.input_values[i].0 as int].spec,
    );
    assert(input_names(program.inputs)[i] == program.inputs[i].name);
    assert(tuple_of(input_names(program.inputs))->Tuple_0[i] == TreeView::Tensor(program.inputs[i].name));
    assert(lowered_outputs(module.graph)->Dict_0[k].0 == module.graph.output_names[k]);
}

} // verus!
