//! A whole model that was written is read back.
use super::super::artifact::{ArtifactView, StateView, StorageView};
use super::super::evaluate::{accepted, operation_is_sound, outputs_are_sound};
use super::super::infer::{all_specs, StateMeta};
use super::super::infer_laws::known_names_have_specs;
use super::super::layout::{byte_size, strides_of};
use super::super::program::{input_names, known_name, program_verdict};
use super::super::tree::{walked, TreeView};
use super::super::types::{DType, OperationView, OperatorView, ProgramView, StateRole, ValueSpecView};
use super::export::{exported, free_name, state_messages, tensor_message, Properties, Writing};
use super::import::{
    declared_checks, declared_refusal, imported, input_tree_key, inputs_key, output_tree_key, output_tree_refusal, prepared,
    property, specs_of, ImportView, Loading,
};
use super::laws::{linear_parts, lowered, operator_names, shapes_survive, single_attribute};
use super::proto::{EntryView, ModelProtoView, NodeProtoView, TensorProtoView, ValueProtoView};
use super::tensor::{code_of, codes_survive, dimension_message, dimension_of, raw_of, spec_of, value_message, without_range, without_ranges};
use crate::bytes::unsigned_of;
use crate::error::{first_at_none, ErrorView};
use vstd::prelude::*;

verus! {

/// The operations that a program becomes, and the names that are taken after them: a linear
/// transformation becomes its parts, a swap of two axes a permutation, and every other
/// operation stays. The shape of a reshape takes a name too.
pub open spec fn lowered_operations(
    operations: Seq<OperationView>,
    ranks: Map<Seq<char>, usize>,
    reserved: Set<Seq<char>>,
    n: int,
) -> (Seq<OperationView>, Set<Seq<char>>)
    decreases n,
{
    if n <= 0 {
        (Seq::empty(), reserved)
    } else {
        let (list, taken) = lowered_operations(operations, ranks, reserved, n - 1);
        let operation = operations[n - 1];
        let first = free_name(taken);
        let second = free_name(taken.insert(first));
        match operation.operator {
            OperatorView::Linear => if operation.inputs.len() == 3 {
                (list + linear_parts(operation, first, second), taken.insert(first).insert(second))
            } else {
                (list + linear_parts(operation, first, second), taken.insert(first))
            },
            OperatorView::Reshape(_) => (list.push(operation), taken.insert(first)),
            _ => (
                list.push(
                    OperationView { name: operation.name, operator: lowered(operation, ranks), inputs: operation.inputs },
                ),
                taken,
            ),
        }
    }
}

/// The constant that an initializer becomes.
pub open spec fn constant_of(tensor: TensorProtoView, i: int) -> StateView {
    StateView {
        name: tensor.name,
        role: StateRole::Constant,
        storage: i as usize,
        shape: tensor.dims,
        strides: strides_of(tensor.dims)->Ok_0,
        offset: 0,
        requires_grad: false,
    }
}

/// The constants are what the first `n` initializers hold.
spec fn keeps(l: Loading, tensors: Seq<TensorProtoView>, n: int) -> bool {
    &&& l.state.len() == n
    &&& l.storages.len() == n
    &&& forall|i: int|
        0 <= i < n ==> raw_of(#[trigger] tensors[i]) is Ok && strides_of(tensors[i].dims) is Ok && l.state[i] == constant_of(
            tensors[i],
            i,
        ) && l.storages[i] == (StorageView { dtype: raw_of(tensors[i])->Ok_0.0, bytes: raw_of(tensors[i])->Ok_0.1 })
            && l.constants.dom().contains(tensors[i].name) && l.constants[tensors[i].name] == i
    &&& forall|name: Seq<char>| #[trigger]
        l.constants.dom().contains(name) ==> exists|i: int| 0 <= i < n && (#[trigger] tensors[i]).name == name
}

proof fn initializers_are_kept(tensors: Seq<TensorProtoView>, n: int)
    requires
        0 <= n <= tensors.len(),
        tensors.len() <= usize::MAX,
        Loading::start().with_initializers(tensors, n) is Ok,
    ensures
        keeps(Loading::start().with_initializers(tensors, n)->Ok_0, tensors, n),
        Loading::start().with_initializers(tensors, n)->Ok_0.operations == Seq::<OperationView>::empty(),
    decreases n,
{
    if n > 0 {
        initializers_are_kept(tensors, n - 1);
        let before = Loading::start().with_initializers(tensors, n - 1)->Ok_0;
        let l = Loading::start().with_initializers(tensors, n)->Ok_0;
        let tensor = tensors[n - 1];
        assert(before.with_initializer(tensor) is Ok);
        assert(!before.constants.dom().contains(tensor.name));
        assert forall|i: int| 0 <= i < n implies raw_of(#[trigger] tensors[i]) is Ok && strides_of(tensors[i].dims) is Ok
            && l.state[i] == constant_of(tensors[i], i) && l.storages[i] == (StorageView {
            dtype: raw_of(tensors[i])->Ok_0.0,
            bytes: raw_of(tensors[i])->Ok_0.1,
        }) && l.constants.dom().contains(tensors[i].name) && l.constants[tensors[i].name] == i by {
            if i < n - 1 {
                assert(before.constants.dom().contains(tensors[i].name));
                assert(l.state[i] == before.state[i]);
                assert(l.storages[i] == before.storages[i]);
            }
        }
        assert forall|name: Seq<char>| #[trigger] l.constants.dom().contains(name) implies exists|i: int|
            0 <= i < n && (#[trigger] tensors[i]).name == name by {
            if name == tensor.name {
                assert(tensors[n - 1].name == name);
            } else {
                assert(before.constants.dom().contains(name));
                let i = choose|i: int| 0 <= i < n - 1 && (#[trigger] tensors[i]).name == name;
                assert(tensors[i].name == name);
            }
        }
    }
}

/// The message of state tensor `i`.
spec fn state_message(names: Seq<Seq<char>>, tensors: Seq<StateMeta>, raws: Seq<Vec<u8>>, i: int) -> TensorProtoView {
    tensor_message(names[i], code_of(DType::of(tensors[i].kind)->Ok_0), tensors[i].shape@, raws[i]@, Seq::empty())
}

proof fn state_is_listed(names: Seq<Seq<char>>, tensors: Seq<StateMeta>, raws: Seq<Vec<u8>>, n: int)
    requires
        0 <= n <= names.len(),
        state_messages(names, tensors, raws, n) is Ok,
    ensures
        state_messages(names, tensors, raws, n)->Ok_0.len() == n,
        forall|i: int|
            0 <= i < n ==> #[trigger] state_messages(names, tensors, raws, n)->Ok_0[i] == state_message(names, tensors, raws, i)
                && DType::of(tensors[i].kind) is Ok,
    decreases n,
{
    if n > 0 {
        state_is_listed(names, tensors, raws, n - 1);
    }
}

/// What is read of a tensor that was written with raw elements is those elements.
proof fn raw_is_read(name: Seq<char>, dtype: DType, shape: Seq<i64>, raw: Seq<u8>)
    requires
        raw_of(tensor_message(name, code_of(dtype), shape, raw, Seq::empty())) is Ok,
    ensures
        raw_of(tensor_message(name, code_of(dtype), shape, raw, Seq::empty()))->Ok_0 == (dtype, raw),
{
    codes_survive(dtype);
    let message = tensor_message(name, code_of(dtype), shape, raw, Seq::empty());
    if raw.len() == 0 {
        assert(message.floats.map_values(|x: u32| x as int) =~= Seq::<int>::empty());
        assert(message.doubles.map_values(|x: u64| x as int) =~= Seq::<int>::empty());
        assert(message.ints64.map_values(|x: i64| unsigned_of(x)) =~= Seq::<int>::empty());
        assert(message.ints32.map_values(|x: i32| x as u8) =~= Seq::<u8>::empty());
        assert(raw =~= Seq::<u8>::empty());
    }
}

/// One file goes on where another stops.
spec fn extends(w: Writing, before: Writing) -> bool {
    &&& before.nodes.len() <= w.nodes.len()
    &&& w.nodes.take(before.nodes.len() as int) == before.nodes
    &&& before.initializers.len() <= w.initializers.len()
    &&& w.initializers.take(before.initializers.len() as int) == before.initializers
}

proof fn operation_extends(w: Writing, operation: OperationView, ranks: Map<Seq<char>, usize>)
    requires
        w.operation(operation, ranks) is Ok,
    ensures
        extends(w.operation(operation, ranks)->Ok_0, w),
{
    let next = w.operation(operation, ranks)->Ok_0;
    assert(next.nodes.take(w.nodes.len() as int) =~= w.nodes);
    assert(next.initializers.take(w.initializers.len() as int) =~= w.initializers);
}

proof fn operations_extend(w: Writing, operations: Seq<OperationView>, ranks: Map<Seq<char>, usize>, n: int, m: int)
    requires
        0 <= n <= m,
        w.operations(operations, ranks, m) is Ok,
    ensures
        w.operations(operations, ranks, n) is Ok,
        extends(w.operations(operations, ranks, m)->Ok_0, w.operations(operations, ranks, n)->Ok_0),
    decreases m - n,
{
    if n < m {
        assert(w.operations(operations, ranks, m - 1) is Ok);
        operations_extend(w, operations, ranks, n, m - 1);
        let early = w.operations(operations, ranks, n)->Ok_0;
        let middle = w.operations(operations, ranks, m - 1)->Ok_0;
        let late = w.operations(operations, ranks, m)->Ok_0;
        operation_extends(middle, operations[m - 1], ranks);
        assert(late.nodes.take(early.nodes.len() as int) =~= middle.nodes.take(early.nodes.len() as int));
        assert(late.initializers.take(early.initializers.len() as int) =~= middle.initializers.take(
            early.initializers.len() as int,
        ));
    } else {
        let late = w.operations(operations, ranks, m)->Ok_0;
        assert(late.nodes.take(late.nodes.len() as int) =~= late.nodes);
        assert(late.initializers.take(late.initializers.len() as int) =~= late.initializers);
    }
}

/// The constants stay, and the given operations are read behind those before.
spec fn reads_more(l: Loading, before: Loading, more: Seq<OperationView>) -> bool {
    &&& l.state == before.state
    &&& l.storages == before.storages
    &&& l.constants == before.constants
    &&& l.operations == before.operations + more
}

/// The operation that is read of a node that was written for one.
proof fn node_is_read(l: Loading, w: Writing, operation: OperationView, ranks: Map<Seq<char>, usize>)
    requires
        !(operation.operator is Linear || operation.operator is Reshape || operation.operator is If),
        w.operation(operation, ranks) is Ok,
        l.with_node(w.operation(operation, ranks)->Ok_0.nodes.last()) is Ok,
    ensures
        w.operation(operation, ranks)->Ok_0.nodes.len() == w.nodes.len() + 1,
        reads_more(
            l.with_node(w.operation(operation, ranks)->Ok_0.nodes.last())->Ok_0,
            l,
            seq![OperationView { name: operation.name, operator: lowered(operation, ranks), inputs: operation.inputs }],
        ),
{
    operator_names();
    let node = w.operation(operation, ranks)->Ok_0.nodes.last();
    let named = Loading { reserved: l.reserved.insert(operation.name), ..l };
    assert(node.outputs[0] == operation.name);
    single_attribute(node.op, node.attrs);
    assert(l.with_node(node) == named.with_operation(node));
    assert(named.choice(node) is Ok);
    assert(named.choice(node)->Ok_0 == (lowered(operation, ranks), operation.inputs));
    let read = OperationView { name: operation.name, operator: lowered(operation, ranks), inputs: operation.inputs };
    assert(l.operations.push(read) =~= l.operations + seq![read]);
}

/// The reshape that is read of a node that was written for one, if the constant of its shape is
/// that of the file.
proof fn reshape_is_read(l: Loading, w: Writing, operation: OperationView, shape: Seq<i64>, tensors: Seq<TensorProtoView>)
    requires
        operation.operator == OperatorView::Reshape(shape),
        shape.len() <= i64::MAX,
        keeps(l, tensors, tensors.len() as int),
        w.initializers.len() < tensors.len(),
        tensors[w.initializers.len() as int] == tensor_message(
            free_name(w.reserved),
            7,
            seq![shape.len() as i64],
            Seq::empty(),
            shape,
        ),
        tensors.len() <= usize::MAX,
        l.with_node(w.reshape(operation, shape).nodes.last()) is Ok,
    ensures
        reads_more(l.with_node(w.reshape(operation, shape).nodes.last())->Ok_0, l, seq![operation]),
{
    operator_names();
    let node = w.reshape(operation, shape).nodes.last();
    let named = Loading { reserved: l.reserved.insert(operation.name), ..l };
    let spare = free_name(w.reserved);
    let place = w.initializers.len() as int;
    assert(node.outputs[0] == operation.name);
    single_attribute(node.op, node.attrs);
    assert(l.with_node(node) == named.with_operation(node));
    assert(named.choice(node) is Ok);
    assert(node.inputs.len() == 2);
    assert(node.inputs[1] == spare);
    assert(node.inputs.take(1) =~= operation.inputs);
    assert(raw_of(tensors[place]) is Ok);
    assert(l.constants[spare] == place);
    assert(byte_size(seq![shape.len() as i64], DType::Int64) is Ok) by {
        codes_survive(DType::Int64);
    }
    shapes_survive(spare, shape);
    assert(named.choice(node)->Ok_0 == (operation.operator, operation.inputs));
    assert(l.operations.push(operation) =~= l.operations + seq![operation]);
}

proof fn linear_is_read(l: Loading, w: Writing, operation: OperationView, ranks: Map<Seq<char>, usize>, nodes: Seq<NodeProtoView>)
    requires
        operation.operator is Linear,
        w.linear(operation).nodes.len() <= nodes.len(),
        nodes.take(w.linear(operation).nodes.len() as int) == w.linear(operation).nodes,
        l.with_nodes(nodes, w.nodes.len() as int) is Ok,
        l.with_nodes(nodes, w.linear(operation).nodes.len() as int) is Ok,
    ensures
        ({
            let first = free_name(w.reserved);
            let second = free_name(w.reserved.insert(first));
            reads_more(
                l.with_nodes(nodes, w.linear(operation).nodes.len() as int)->Ok_0,
                l.with_nodes(nodes, w.nodes.len() as int)->Ok_0,
                linear_parts(operation, first, second),
            )
        }),
{
    let first = free_name(w.reserved);
    let second = free_name(w.reserved.insert(first));
    let parts = linear_parts(operation, first, second);
    let n = w.nodes.len() as int;
    let all = w.linear(operation).nodes;
    nodes_are_read_before(l, nodes, n + 1, all.len() as int);
    nodes_are_read_before(l, nodes, n + 2, all.len() as int);
    let a = l.with_nodes(nodes, n)->Ok_0;
    let b = l.with_nodes(nodes, n + 1)->Ok_0;
    let c = l.with_nodes(nodes, n + 2)->Ok_0;
    assert(a.with_node(nodes[n]) == Ok::<Loading, ErrorView>(b));
    assert(b.with_node(nodes[n + 1]) == Ok::<Loading, ErrorView>(c));
    let w0 = Writing { nodes: all.take(n), ..w };
    let w1 = Writing { nodes: all.take(n + 1), ..w };
    part_is_read(a, w0, parts[0], ranks, nodes, all);
    part_is_read(b, w1, parts[1], ranks, nodes, all);
    if operation.inputs.len() == 3 {
        let d = l.with_nodes(nodes, n + 3)->Ok_0;
        assert(c.with_node(nodes[n + 2]) == Ok::<Loading, ErrorView>(d));
        part_is_read(c, Writing { nodes: all.take(n + 2), ..w }, parts[2], ranks, nodes, all);
        assert(d.operations =~= a.operations + parts);
    } else {
        assert(c.operations =~= a.operations + parts);
    }
}

proof fn part_is_read(
    l: Loading,
    w: Writing,
    part: OperationView,
    ranks: Map<Seq<char>, usize>,
    nodes: Seq<NodeProtoView>,
    all: Seq<NodeProtoView>,
)
    requires
        part.operator is Permute || part.operator is Matmul || part.operator is Add,
        w.nodes.len() < all.len() <= nodes.len(),
        nodes.take(all.len() as int) == all,
        all[w.nodes.len() as int] == w.operation(part, ranks)->Ok_0.nodes.last(),
        l.with_node(nodes[w.nodes.len() as int]) is Ok,
    ensures
        reads_more(l.with_node(nodes[w.nodes.len() as int])->Ok_0, l, seq![part]),
{
    assert(nodes[w.nodes.len() as int] == all[w.nodes.len() as int]);
    node_is_read(l, w, part, ranks);
}

proof fn nodes_are_read_before(l: Loading, nodes: Seq<NodeProtoView>, n: int, m: int)
    requires
        n <= m,
        l.with_nodes(nodes, m) is Ok,
    ensures
        l.with_nodes(nodes, n) is Ok,
    decreases m - n,
{
    if n < m {
        if m > 0 {
            nodes_are_read_before(l, nodes, n, m - 1);
        } else {
            assert(l.with_nodes(nodes, n) == l.with_nodes(nodes, m));
        }
    }
}

/// Every reshape has a rank that can be counted.
pub open spec fn has_ranks(operations: Seq<OperationView>) -> bool {
    forall|i: int|
        0 <= i < operations.len() ==> ((#[trigger] operations[i]).operator matches OperatorView::Reshape(shape) ==> shape.len()
            <= i64::MAX)
}

proof fn operations_are_read(
    l: Loading,
    w: Writing,
    operations: Seq<OperationView>,
    ranks: Map<Seq<char>, usize>,
    nodes: Seq<NodeProtoView>,
    tensors: Seq<TensorProtoView>,
    n: int,
)
    requires
        0 <= n <= operations.len(),
        w.nodes.len() == 0,
        l.operations.len() == 0,
        has_ranks(operations),
        tensors.len() <= usize::MAX,
        keeps(l, tensors, tensors.len() as int),
        w.operations(operations, ranks, operations.len() as int) is Ok,
        w.operations(operations, ranks, operations.len() as int)->Ok_0.nodes == nodes,
        w.operations(operations, ranks, operations.len() as int)->Ok_0.initializers == tensors,
        l.with_nodes(nodes, nodes.len() as int) is Ok,
    ensures
        ({
            let written = w.operations(operations, ranks, n)->Ok_0;
            let expected = lowered_operations(operations, ranks, w.reserved, n);
            &&& w.operations(operations, ranks, n) is Ok
            &&& written.reserved == expected.1
            &&& l.with_nodes(nodes, written.nodes.len() as int) is Ok
            &&& reads_more(l.with_nodes(nodes, written.nodes.len() as int)->Ok_0, l, expected.0)
        }),
    decreases n,
{
    let total = operations.len() as int;
    operations_extend(w, operations, ranks, n, total);
    let written = w.operations(operations, ranks, n)->Ok_0;
    nodes_are_read_before(l, nodes, written.nodes.len() as int, nodes.len() as int);
    if n <= 0 {
        assert(l.operations + Seq::<OperationView>::empty() =~= l.operations);
    } else {
        operations_are_read(l, w, operations, ranks, nodes, tensors, n - 1);
        let before = w.operations(operations, ranks, n - 1)->Ok_0;
        let operation = operations[n - 1];
        assert(before.operation(operation, ranks) == Ok::<Writing, ErrorView>(written));
        let a = l.with_nodes(nodes, before.nodes.len() as int)->Ok_0;
        let expected = lowered_operations(operations, ranks, w.reserved, n - 1);
        let k = before.nodes.len() as int;
        assert(nodes.take(written.nodes.len() as int) == written.nodes);
        match operation.operator {
            OperatorView::Linear => {
                linear_is_read(l, before, operation, ranks, nodes);
                let first = free_name(before.reserved);
                let second = free_name(before.reserved.insert(first));
                assert(l.operations + expected.0 + linear_parts(operation, first, second) =~= l.operations + (expected.0
                    + linear_parts(operation, first, second)));
            },
            OperatorView::Reshape(shape) => {
                assert(tensors.take(written.initializers.len() as int) == written.initializers);
                assert(written.initializers[before.initializers.len() as int] == tensors[before.initializers.len() as int]);
                assert(nodes[k] == written.nodes[k]);
                assert(written.nodes.last() == written.nodes[k]);
                reshape_is_read(a, before, operation, shape, tensors);
                assert(l.operations + expected.0 + seq![operation] =~= l.operations + expected.0.push(operation));
            },
            _ => {
                node_is_read_at(a, before, operation, ranks, nodes);
                let read = OperationView { name: operation.name, operator: lowered(operation, ranks), inputs: operation.inputs };
                assert(l.operations + expected.0 + seq![read] =~= l.operations + expected.0.push(read));
            },
        }
    }
}

proof fn node_is_read_at(l: Loading, w: Writing, operation: OperationView, ranks: Map<Seq<char>, usize>, nodes: Seq<NodeProtoView>)
    requires
        !(operation.operator is Linear || operation.operator is Reshape || operation.operator is If),
        w.operation(operation, ranks) is Ok,
        w.operation(operation, ranks)->Ok_0.nodes.len() <= nodes.len(),
        nodes.take(w.operation(operation, ranks)->Ok_0.nodes.len() as int) == w.operation(operation, ranks)->Ok_0.nodes,
        l.with_node(nodes[w.nodes.len() as int]) is Ok,
    ensures
        w.operation(operation, ranks)->Ok_0.nodes.len() == w.nodes.len() + 1,
        reads_more(
            l.with_node(nodes[w.nodes.len() as int])->Ok_0,
            l,
            seq![OperationView { name: operation.name, operator: lowered(operation, ranks), inputs: operation.inputs }],
        ),
{
    let next = w.operation(operation, ranks)->Ok_0;
    assert(next.nodes.len() == w.nodes.len() + 1);
    assert(nodes[w.nodes.len() as int] == next.nodes[w.nodes.len() as int]);
    node_is_read(l, w, operation, ranks);
}

/// What is read of a value that was written is that value, but for the ranges of its symbols.
proof fn value_is_read(spec: ValueSpecView)
    requires
        spec_of(value_message(spec)) is Ok,
    ensures
        spec_of(value_message(spec))->Ok_0 == without_ranges(spec),
{
    codes_survive(spec.dtype);
    let dims = value_message(spec).ty->0.tensor->0.shape->0;
    assert forall|k: int| 0 <= k < dims.len() implies dimension_of(#[trigger] dims[k]) == Some(without_range(spec.dimensions[k])) by {
        assert(dims[k] == dimension_message(spec.dimensions[k]));
    }
    assert(spec_of(value_message(spec))->Ok_0.dimensions =~= without_ranges(spec).dimensions);
}

proof fn values_are_read(specs: Seq<ValueSpecView>, values: Seq<ValueProtoView>, n: int)
    requires
        0 <= n <= specs.len(),
        values.len() == specs.len(),
        forall|i: int| 0 <= i < specs.len() ==> #[trigger] values[i] == value_message(specs[i]),
        specs_of(values, n) is Ok,
    ensures
        specs_of(values, n)->Ok_0.len() == n,
        forall|i: int| 0 <= i < n ==> #[trigger] specs_of(values, n)->Ok_0[i] == without_ranges(specs[i]),
    decreases n,
{
    if n > 0 {
        values_are_read(specs, values, n - 1);
        assert(values[n - 1] == value_message(specs[n - 1]));
        value_is_read(specs[n - 1]);
    }
}

/// A property is found among three of different names.
proof fn properties_are_found(metadata: Seq<EntryView>)
    requires
        metadata.len() == 3,
        metadata[0].key == inputs_key(),
        metadata[1].key == input_tree_key(),
        metadata[2].key == output_tree_key(),
    ensures
        property(metadata, inputs_key()) == Some(metadata[0].value),
        property(metadata, input_tree_key()) == Some(metadata[1].value),
        property(metadata, output_tree_key()) == Some(metadata[2].value),
{
    reveal_strlit("rusttorch.inputs.v1");
    reveal_strlit("rusttorch.input_tree.v1");
    reveal_strlit("rusttorch.output_tree.v1");
    assert(inputs_key().len() == 19 && input_tree_key().len() == 23 && output_tree_key().len() == 24);
    assert(metadata[0].key != metadata[1].key);
}

/// What was read, with declared guards and calling structures in place of those of the graph.
pub open spec fn declared(
    import: ImportView,
    inputs: Seq<ValueSpecView>,
    input_tree: TreeView,
    output_tree: TreeView,
) -> ArtifactView {
    ArtifactView {
        program: ProgramView { inputs, input_tree, output_tree, ..import.artifact.program },
        ..import.artifact
    }
}

/// A constant of a model holds a tensor: its name, its shape, its element type and its
/// elements.
pub open spec fn holds_tensor(artifact: ArtifactView, i: int, name: Seq<char>, tensor: StateMeta, raw: Seq<u8>) -> bool {
    let entry = artifact.state[i];
    let storage = artifact.storages[entry.storage as int];
    &&& entry.name == name
    &&& entry.shape == tensor.shape@
    &&& strides_of(tensor.shape@) == Ok::<Seq<i64>, ErrorView>(entry.strides)
    &&& entry.offset == 0
    &&& entry.storage < artifact.storages.len()
    &&& DType::of(tensor.kind) == Ok::<DType, ErrorView>(storage.dtype)
    &&& storage.bytes == raw
}

/// A whole model that was written and is accepted when it is read comes back. The properties
/// of the file are those that were written, and the guards and calling structures of the
/// program are accepted in place of those of the graph. With them, the program has the inputs,
/// the guards and the calling structures that it had, and its operations up to the lowering of
/// linear transformations and swaps. Every state tensor is there with its elements.
pub proof fn written_model_is_read(
    program: ProgramView,
    names: Seq<Seq<char>>,
    tensors: Seq<StateMeta>,
    raws: Seq<Vec<u8>>,
    ranks: Map<Seq<char>, usize>,
    properties: Properties,
    version: Seq<char>,
    model: ModelProtoView,
    import: ImportView,
)
    requires
        accepted(program, names.to_set()),
        tensors.len() == names.len(),
        raws.len() == names.len(),
        exported(program, names, tensors, raws, ranks, properties, version) == Ok::<ModelProtoView, ErrorView>(model),
        imported(model) == Ok::<ImportView, ErrorView>(import),
    ensures
        import.inputs_property == Some(properties.inputs@),
        import.input_tree_property == Some(properties.input_tree@),
        import.output_tree_property == Some(properties.output_tree@),
        declared_refusal(program.inputs, import.artifact.program.inputs) is None,
        output_tree_refusal(program.output_tree, import.outputs) is None,
        declared(import, program.inputs, program.input_tree, program.output_tree).program == (ProgramView {
            operations: lowered_operations(program.operations, ranks, ranks.dom(), program.operations.len() as int).0,
            ..program
        }),
        names.len() <= import.artifact.state.len(),
        forall|i: int|
            0 <= i < names.len() ==> holds_tensor(import.artifact, i, #[trigger] names[i], tensors[i], raws[i]@),
{
    let initial = state_messages(names, tensors, raws, names.len() as int)->Ok_0;
    let start = Writing { nodes: Seq::empty(), initializers: initial, reserved: ranks.dom() };
    let operations = program.operations;
    let total = operations.len() as int;
    let written = start.operations(operations, ranks, total)->Ok_0;
    let specs = all_specs(program, names, tensors)->Ok_0;
    let graph = model.graph->0;
    let (inputs, l) = prepared(graph)->Ok_0;
    let constants = Loading::start().with_initializers(graph.initializers, graph.initializers.len() as int)->Ok_0;
    initializers_are_kept(graph.initializers, graph.initializers.len() as int);
    assert(l.operations == constants.operations);
    assert(keeps(l, graph.initializers, graph.initializers.len() as int));
    assert(has_ranks(operations)) by {
        assert forall|i: int| 0 <= i < operations.len() implies ((#[trigger] operations[i]).operator matches OperatorView::Reshape(
            shape,
        ) ==> shape.len() <= i64::MAX) by {
            operation_is_sound(program, names.to_set(), i);
        }
    }
    operations_are_read(l, start, operations, ranks, graph.nodes, graph.initializers, total);
    let read = l.with_nodes(graph.nodes, graph.nodes.len() as int)->Ok_0;
    assert(read.operations =~= lowered_operations(operations, ranks, ranks.dom(), total).0);
    assert(program.version == 1 && program.operator_version == 1) by {
        let (depth, budget) = choose|depth: int, budget: int|
            (#[trigger] program_verdict(program, names.to_set(), depth, budget)).1 is None;
        assert(program_verdict(program, names.to_set(), depth, budget).1 is None);
    }
    // The inputs and the guards.
    values_are_read(program.inputs, graph.inputs, program.inputs.len() as int);
    first_at_none(0, program.inputs.len() as int, declared_checks(program.inputs, inputs));
    assert forall|i: int| 0 <= i < program.inputs.len() implies (#[trigger] declared_checks(program.inputs, inputs)(i)) is None by {
        assert(inputs[i] == without_ranges(program.inputs[i]));
    }
    // The outputs.
    let leaves = walked(program.output_tree, 0, Seq::empty())->Ok_0;
    outputs_are_sound(program, names.to_set());
    let results = leaves.map_values(|n: Seq<char>| specs[n]);
    let outputs = specs_of(graph.outputs, graph.outputs.len() as int)->Ok_0;
    values_are_read(results, graph.outputs, results.len() as int);
    known_names_have_specs(program, names, tensors);
    assert(input_names(outputs) =~= leaves) by {
        assert forall|k: int| 0 <= k < leaves.len() implies #[trigger] input_names(outputs)[k] == leaves[k] by {
            assert(known_name(program.inputs, operations, names.to_set(), total, leaves[k]));
            assert(outputs[k] == without_ranges(results[k]));
        }
    }
    properties_are_found(model.metadata);
    // The state.
    state_is_listed(names, tensors, raws, names.len() as int);
    operations_extend(start, operations, ranks, 0, total);
    assert forall|i: int| 0 <= i < names.len() implies holds_tensor(
        import.artifact,
        i,
        #[trigger] names[i],
        tensors[i],
        raws[i]@,
    ) by {
        assert(written.initializers.take(initial.len() as int)[i] == initial[i]);
        assert(graph.initializers[i] == state_message(names, tensors, raws, i));
        raw_is_read(names[i], DType::of(tensors[i].kind)->Ok_0, tensors[i].shape@, raws[i]@);
    }
}

} // verus!
