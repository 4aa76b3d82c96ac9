//! How a program and its state are told as messages, and what is read of them.
use super::super::infer::StateMeta;
use super::super::program::input_names;
use super::super::tree::{walked, TreeView};
use super::super::types::{DType, DimensionView, ProgramView, ValueSpecView};
use super::export::{exported, sample_shape, sample_size, state_messages, swapped_axes, Properties};
use super::import::{
    declared_checks, declared_input_refusal, declared_refusal, frame_refusal, imported, matmul_rank, output_tree_refusal,
    prepared, property, specs_of, Loading,
};
use super::proto::{DimProtoView, EntryView, ModelProtoView, NodeProtoView, TensorProtoView, ValueProtoView};
use super::tensor::{dimension_of, element_bytes, packed_numbers, raw_of, spec_of, value_message};
use super::wire::{groups_of_seven, key_of, varint_from, varint_of, Schema};
use crate::bytes::{little_endian, little_endian_length};
use crate::error::{first_at_none, ErrorView};
use vstd::prelude::*;

verus! {

/// A value is told by its name, the code of its element type, and its sizes in their order: a number for a
/// fixed one and the name of its symbol for another.
pub proof fn values_are_told(spec: ValueSpecView, k: int)
    requires
        0 <= k < spec.dimensions.len(),
    ensures
        ({
            let told = value_message(spec);
            let tensor = told.ty->0.tensor->0;
            let dims = tensor.shape->0;
            &&& told.name == spec.name && told.ty is Some && told.ty->0.tensor is Some && tensor.shape is Some
            &&& tensor.dtype == (match spec.dtype {
                DType::Float => 1i32,
                DType::Int64 => 7i32,
                DType::Bool => 9i32,
                DType::Double => 11i32,
            })
            &&& dims.len() == spec.dimensions.len()
            &&& match spec.dimensions[k] {
                DimensionView::Known(n) => dims[k].value == Some(n) && dims[k].symbol is None,
                DimensionView::Symbol { name, .. } => dims[k].value is None && dims[k].symbol == Some(name),
            }
        }),
{
}

/// A value is read only where it tells a dense tensor with a known element type and sizes that are numbers
/// or named symbols; it keeps its name and the order of its sizes.
pub proof fn values_are_read(value: ValueProtoView)
    ensures
        spec_of(value) matches Ok(spec) ==> {
            let tensor = value.ty->0.tensor->0;
            let dims = tensor.shape->0;
            &&& value.ty is Some && !value.ty->0.kinds.present() && value.ty->0.tensor is Some && tensor.shape is Some
            &&& spec.name == value.name
            &&& tensor.dtype == (match spec.dtype {
                DType::Float => 1i32,
                DType::Int64 => 7i32,
                DType::Bool => 9i32,
                DType::Double => 11i32,
            })
            &&& spec.dimensions.len() == dims.len()
            &&& forall|k: int| 0 <= k < dims.len() ==> Some(#[trigger] spec.dimensions[k]) == dimension_of(dims[k])
        },
{
}

/// A size is read as a number where only a number is told, as a symbol where only a name is, and not at
/// all otherwise.
pub proof fn sizes_are_numbers_or_names(n: i64, name: Seq<char>)
    ensures
        dimension_of(DimProtoView { value: Some(n), symbol: None }) == Some(DimensionView::Known(n)),
        name.len() > 0 ==> dimension_of(DimProtoView { value: None, symbol: Some(name) }) == Some(
            DimensionView::Symbol { name, min: 0, max: None },
        ),
        dimension_of(DimProtoView { value: None, symbol: Some(Seq::empty()) }) is None,
        dimension_of(DimProtoView { value: None, symbol: None }) is None,
        dimension_of(DimProtoView { value: Some(n), symbol: Some(name) }) is None,
{
}

/// The size that an example has where a size is open lies in the range of its symbol, and is at least two
/// wherever the range allows it.
pub proof fn examples_lie_in_the_range(name: Seq<char>, min: i64, max: Option<i64>, n: i64, spec: ValueSpecView, k: int)
    requires
        0 <= min,
        max matches Some(m) ==> min <= m,
        0 <= k < spec.dimensions.len(),
    ensures
        sample_size(DimensionView::Known(n)) == n,
        ({
            let size = sample_size(DimensionView::Symbol { name, min, max });
            &&& min <= size
            &&& max matches Some(m) ==> size <= m
            &&& size >= 2 || max == Some(size)
            &&& size <= 2 || size == min
        }),
        sample_shape(spec).len() == spec.dimensions.len() && sample_shape(spec)[k] == sample_size(spec.dimensions[k]),
{
}

/// State is told with its name, the code of its element type, its sides and its bytes, in order.
pub proof fn state_is_told(names: Seq<Seq<char>>, tensors: Seq<StateMeta>, raws: Seq<Vec<u8>>, n: int, i: int)
    requires
        0 <= i < n <= names.len(),
        state_messages(names, tensors, raws, n) is Ok,
    ensures
        ({
            let list = state_messages(names, tensors, raws, n)->Ok_0;
            &&& list.len() == n
            &&& list[i].name == names[i] && list[i].dims == tensors[i].shape@ && list[i].raw == raws[i]@
            &&& list[i].dtype == 1i32 <==> tensors[i].kind is Float
            &&& list[i].dtype == 11i32 <==> tensors[i].kind is Double
            &&& list[i].dtype == 7i32 <==> tensors[i].kind is Int64
            &&& list[i].dtype == 9i32 <==> tensors[i].kind is Bool
        }),
    decreases n,
{
    if n > 1 {
        state_is_told(names, tensors, raws, n - 1, if i < n - 1 {
            i
        } else {
            0
        });
    } else {
        assert(state_messages(names, tensors, raws, 0)->Ok_0.len() == 0);
    }
}

/// A model is told in version 10 of the format and version 18 of its operators, with its inputs, its outputs in
/// the order of its output tree, its state before other constants, and its calling convention under three
/// names.
pub proof fn models_are_told(
    program: ProgramView,
    names: Seq<Seq<char>>,
    tensors: Seq<StateMeta>,
    raws: Seq<Vec<u8>>,
    ranks: Map<Seq<char>, usize>,
    properties: Properties,
    version: Seq<char>,
    i: int,
)
    requires
        exported(program, names, tensors, raws, ranks, properties, version) is Ok,
        0 <= i < program.inputs.len(),
    ensures
        ({
            let model = exported(program, names, tensors, raws, ranks, properties, version)->Ok_0;
            let graph = model.graph->0;
            &&& model.ir_version == 10 && model.opset.len() == 1 && model.opset[0].version == 18 && model.opset[0].domain.len() == 0
            &&& model.producer_name == "RustTorch"@ && model.producer_version == version
            &&& model.graph is Some && graph.name == "RustTorchProgram"@
            &&& graph.inputs.len() == program.inputs.len() && graph.inputs[i] == value_message(program.inputs[i])
            &&& model.metadata.len() == 3
            &&& model.metadata[0] == EntryView { key: "rusttorch.inputs.v1"@, value: properties.inputs@ }
            &&& model.metadata[1] == EntryView { key: "rusttorch.input_tree.v1"@, value: properties.input_tree@ }
            &&& model.metadata[2] == EntryView { key: "rusttorch.output_tree.v1"@, value: properties.output_tree@ }
            &&& !model.training && !model.functions && !model.configuration && !graph.sparse && !graph.quantization
        }),
{
}

/// A model is read exactly if it tells version 10 of the format, one set of standard operators in version
/// 18, and a graph of at most 10,000 nodes and constants without what has no counterpart.
pub proof fn models_are_read_by_version(model: ModelProtoView)
    ensures
        frame_refusal(model) is None <==> {
            &&& model.ir_version == 10
            &&& model.opset.len() == 1 && model.opset[0].domain.len() == 0 && model.opset[0].version == 18
            &&& !model.training && !model.functions && !model.configuration
            &&& model.graph matches Some(graph) && graph.nodes.len() <= 10000 && graph.initializers.len() <= 10000 && !graph.sparse
                && !graph.quantization
        },
{
}

/// A constant is read as state without gradients, with its sides, its bytes and its element type.
pub proof fn constants_are_read_as_state(l: Loading, name: Seq<char>, tensor: TensorProtoView)
    requires
        l.storages.len() < usize::MAX,
        l.state.len() < usize::MAX,
    ensures
        l.with_constant(name, tensor) matches Ok(after) ==> {
            let at = l.state.len() as int;
            let entry = after.state[at];
            &&& after.state.len() == at + 1 && after.storages.len() == l.storages.len() + 1
            &&& entry.name == name && entry.role is Constant && entry.shape == tensor.dims && !entry.requires_grad && entry.offset == 0
            &&& entry.storage == l.storages.len()
            &&& raw_of(tensor) == Ok::<(DType, Seq<u8>), ErrorView>(
                (after.storages[entry.storage as int].dtype, after.storages[entry.storage as int].bytes),
            )
            &&& after.constants.dom().contains(name) && after.constants[name] == at
            &&& after.operations == l.operations
        },
{
}

/// A node becomes an operation with the name of its only output; its operands must be there before it, and
/// its output must be new.
pub proof fn nodes_follow_their_operands(l: Loading, node: NodeProtoView)
    ensures
        l.with_node(node) is Ok ==> {
            &&& node.outputs.len() == 1 && node.domain.len() == 0 && node.overload.len() == 0 && !node.devices
            &&& !l.reserved.contains(node.outputs[0])
            &&& forall|k: int| 0 <= k < node.inputs.len() ==> l.reserved.contains(#[trigger] node.inputs[k])
        },
        l.with_node(node) is Ok && node.op != "Constant"@ ==> {
            let after = l.with_node(node)->Ok_0;
            &&& after.operations.len() == l.operations.len() + 1
            &&& after.operations.last().name == node.outputs[0]
            &&& after.reserved == l.reserved.insert(node.outputs[0])
            &&& after.state == l.state && after.storages == l.storages
        },
{
}

/// The rank of a product of tensors: that of the larger operand, less one for each vector.
pub proof fn products_have_ranks(a: usize, b: usize)
    ensures
        matmul_rank(a, b) is Err <==> a == 0 || b == 0,
        a == 1 && b == 1 ==> matmul_rank(a, b) == Ok::<Option<usize>, ErrorView>(Some(0usize)),
        a == 1 && b > 1 ==> matmul_rank(a, b) == Ok::<Option<usize>, ErrorView>(Some((b - 1) as usize)),
        a > 1 && b == 1 ==> matmul_rank(a, b) == Ok::<Option<usize>, ErrorView>(Some((a - 1) as usize)),
        a > 1 && b > 1 && a >= b ==> matmul_rank(a, b) == Ok::<Option<usize>, ErrorView>(Some(a)),
        a > 1 && b > 1 && a < b ==> matmul_rank(a, b) == Ok::<Option<usize>, ErrorView>(Some(b)),
{
}

/// What a model is read as: a program of the first versions with the inputs, operations and outputs that were
/// read, in their order, beside the state and what is told of the calling convention.
pub proof fn models_are_read_as_programs(model: ModelProtoView, i: int, k: int)
    requires
        imported(model) is Ok,
        0 <= i < model.graph->0.inputs.len(),
        0 <= k < model.graph->0.outputs.len(),
    ensures
        ({
            let read = imported(model)->Ok_0;
            let program = read.artifact.program;
            let graph = model.graph->0;
            &&& program.version == 1 && program.operator_version == 1
            &&& program.inputs.len() == graph.inputs.len()
            &&& Ok::<ValueSpecView, ErrorView>(program.inputs[i]) == spec_of(graph.inputs[i])
            &&& program.input_tree is Tuple && program.input_tree->Tuple_0[i] == TreeView::Tensor(program.inputs[i].name)
            &&& read.outputs.len() == graph.outputs.len() && read.outputs[k] == graph.outputs[k].name
            &&& program.output_tree is Tuple && program.output_tree->Tuple_0[k] == TreeView::Tensor(graph.outputs[k].name)
            &&& read.inputs_property == property(model.metadata, "rusttorch.inputs.v1"@)
            &&& read.input_tree_property == property(model.metadata, "rusttorch.input_tree.v1"@)
            &&& read.output_tree_property == property(model.metadata, "rusttorch.output_tree.v1"@)
        }),
{
    let graph = model.graph->0;
    values_keep_their_order(graph.inputs, graph.inputs.len() as int, i);
    values_keep_their_order(graph.outputs, graph.outputs.len() as int, k);
    let inputs = prepared(graph)->Ok_0.0;
    assert(Ok::<Seq<ValueSpecView>, ErrorView>(inputs) == specs_of(graph.inputs, graph.inputs.len() as int));
    let outputs = specs_of(graph.outputs, graph.outputs.len() as int)->Ok_0;
    values_are_read(graph.outputs[k]);
    assert(input_names(inputs)[i] == inputs[i].name);
    assert(input_names(outputs)[k] == outputs[k].name);
}

proof fn values_keep_their_order(values: Seq<ValueProtoView>, n: int, i: int)
    requires
        0 <= i < n <= values.len(),
        specs_of(values, n) is Ok,
    ensures
        specs_of(values, n)->Ok_0.len() == n,
        Ok::<ValueSpecView, ErrorView>(specs_of(values, n)->Ok_0[i]) == spec_of(values[i]),
    decreases n,
{
    if n > 1 {
        values_keep_their_order(values, n - 1, if i < n - 1 {
            i
        } else {
            0
        });
    } else {
        assert(specs_of(values, 0)->Ok_0.len() == 0);
    }
}

/// What is declared of the inputs beside the graph is accepted exactly if it has their number, names, element
/// types and ranks, and sizes that are alike.
pub proof fn declared_inputs_agree(declared: ValueSpecView, input: ValueSpecView)
    ensures
        declared_input_refusal(declared, input) is None <==> {
            &&& declared.name == input.name && declared.dtype == input.dtype
            &&& declared.dimensions.len() == input.dimensions.len()
            &&& forall|k: int|
                0 <= k < declared.dimensions.len() ==> match (#[trigger] declared.dimensions[k], input.dimensions[k]) {
                    (DimensionView::Known(a), DimensionView::Known(b)) => a == b,
                    (DimensionView::Symbol { name: a, .. }, DimensionView::Symbol { name: b, .. }) => a == b,
                    _ => false,
                }
        },
{
}

/// All that is declared beside the graph agrees exactly if there is as much of it as there are inputs and each
/// part agrees; a declared output tree agrees exactly if it names the outputs in their order.
pub proof fn declarations_agree_with_the_graph(
    declared: Seq<ValueSpecView>,
    inputs: Seq<ValueSpecView>,
    tree: TreeView,
    outputs: Seq<Seq<char>>,
)
    ensures
        declared_refusal(declared, inputs) is None <==> declared.len() == inputs.len() && forall|i: int|
            0 <= i < declared.len() ==> declared_input_refusal(#[trigger] declared[i], inputs[i]) is None,
        output_tree_refusal(tree, outputs) is None <==> walked(tree, 0, Seq::empty()) == Ok::<Seq<Seq<char>>, ErrorView>(outputs),
{
    let checks = declared_checks(declared, inputs);
    first_at_none(0, declared.len() as int, checks);
    if forall|i: int| 0 <= i < declared.len() ==> (#[trigger] checks(i)) is None {
        assert forall|i: int| 0 <= i < declared.len() implies declared_input_refusal(#[trigger] declared[i], inputs[i]) is None by {
            assert(checks(i) is None);
        }
    }
}

/// Axes that are swapped are exchanged, and every other stays where it is.
pub proof fn swapped_axes_are_exchanged(rank: int, a: int, b: int, i: int)
    requires
        0 <= a < rank,
        0 <= b < rank,
        0 <= i < rank,
        rank <= i64::MAX,
    ensures
        swapped_axes(rank, a, b).len() == rank,
        swapped_axes(rank, a, b)[a] == b,
        swapped_axes(rank, a, b)[b] == a,
        i != a && i != b ==> swapped_axes(rank, a, b)[i] == i,
{
}

proof fn numbers_are_laid_out(numbers: Seq<int>, width: nat, i: int, j: int)
    requires
        0 <= i < numbers.len(),
        0 <= j < width,
    ensures
        packed_numbers(numbers, width).len() == numbers.len() * width,
        packed_numbers(numbers, width)[i * width + j] == little_endian(numbers[i], width)[j],
    decreases numbers.len(),
{
    let shorter = numbers.drop_last();
    let n = numbers.len() as int;
    lengths_multiply(shorter, width);
    lengths_multiply(numbers, width);
    little_endian_length(numbers.last(), width);
    let before = packed_numbers(shorter, width);
    assert((n - 1) * width + width == n * width) by (nonlinear_arith);
    if i < n - 1 {
        numbers_are_laid_out(shorter, width, i, j);
        assert(i * width + j < (n - 1) * width && 0 <= i * width) by (nonlinear_arith)
            requires
                0 <= i < n - 1,
                0 <= j < width,
        ;
        assert(packed_numbers(numbers, width)[i * width + j] == before[i * width + j]);
    } else {
        assert(packed_numbers(numbers, width)[(n - 1) * width + j] == little_endian(numbers.last(), width)[j]);
    }
}

proof fn lengths_multiply(numbers: Seq<int>, width: nat)
    ensures
        packed_numbers(numbers, width).len() == numbers.len() * width,
    decreases numbers.len(),
{
    if numbers.len() > 0 {
        lengths_multiply(numbers.drop_last(), width);
        little_endian_length(numbers.last(), width);
        let n = numbers.len() as int;
        assert((n - 1) * width + width == n * width) by (nonlinear_arith);
    } else {
        assert(0 * width == 0) by (nonlinear_arith);
    }
}

/// Numbers that are told one by one become bytes one after the other, each with its least byte first.
pub proof fn told_numbers_become_bytes(t: TensorProtoView, i: int, j: int)
    requires
        t.raw.len() == 0,
        element_bytes(t, DType::Double) is Ok,
        0 <= i < t.doubles.len(),
        0 <= j < 8,
    ensures
        element_bytes(t, DType::Double)->Ok_0.len() == 8 * t.doubles.len(),
        element_bytes(t, DType::Double)->Ok_0[i * 8 + j] == (t.doubles[i] as int / crate::bytes::range_of(j as nat)) % 256,
{
    let numbers = t.doubles.map_values(|x: u64| x as int);
    numbers_are_laid_out(numbers, 8, i, j);
    crate::tensor_laws::bytes_are_least_first(t.doubles[i] as int, 8, j);
}

/// Raw bytes are taken as they are, and numbers only from the list of their own type.
pub proof fn elements_come_from_their_list(t: TensorProtoView)
    ensures
        t.raw.len() > 0 ==> element_bytes(t, DType::Float) == Ok::<Seq<u8>, ErrorView>(t.raw) && element_bytes(t, DType::Int64) == Ok::<
            Seq<u8>,
            ErrorView,
        >(t.raw),
        t.raw.len() == 0 && t.doubles.len() > 0 ==> element_bytes(t, DType::Float) is Err && element_bytes(t, DType::Int64) is Err
            && element_bytes(t, DType::Bool) is Err,
        t.raw.len() == 0 && t.floats.len() > 0 ==> element_bytes(t, DType::Double) is Err && element_bytes(t, DType::Int64) is Err
            && element_bytes(t, DType::Bool) is Err,
        t.raw.len() == 0 && t.ints64.len() > 0 ==> element_bytes(t, DType::Float) is Err && element_bytes(t, DType::Double) is Err
            && element_bytes(t, DType::Bool) is Err,
        t.raw.len() == 0 && t.ints32.len() > 0 ==> element_bytes(t, DType::Float) is Err && element_bytes(t, DType::Double) is Err
            && element_bytes(t, DType::Int64) is Err,
{
}

/// A number in groups of seven bits: one byte below 128 is itself, and each earlier group counts 128 times
/// less than the one after it.
pub proof fn numbers_come_in_groups_of_seven(a: u8, b: u8, rest: Seq<u8>)
    requires
        a < 0x80,
        b >= 0x80,
    ensures
        varint_of(seq![a] + rest) matches Ok(read) && read.0 == a && read.1 == rest.len(),
        varint_of(seq![b, a] + rest) matches Ok(read) && read.0 == (b - 0x80) + 128 * a && read.1 == rest.len(),
{
    reveal_with_fuel(varint_from, 3);
    reveal_with_fuel(groups_of_seven, 3);
    let one = seq![a] + rest;
    assert(one[0] == a);
    assert(varint_from(one, 0) == Some((a as int, 1int)));
    let two = seq![b, a] + rest;
    assert(two[0] == b && two[1] == a);
    assert(groups_of_seven(1) == 128);
    assert(varint_from(two, 1) == Some((a * 128, 2int)));
}

/// A field begins with its number times eight and how it is laid out.
pub proof fn fields_begin_with_their_number(tag: u8, wire: u8, rest: Seq<u8>)
    requires
        1 <= tag <= 15,
        wire <= 5,
    ensures
        key_of(seq![(8 * tag + wire) as u8] + rest) matches Ok(read) && read.0 == tag && read.1 == wire && read.2 == rest.len(),
{
    numbers_come_in_groups_of_seven((8 * tag + wire) as u8, 0x80, rest);
    let key = 8 * tag + wire;
    assert(key / 8 == tag && key % 8 == wire);
}

/// Which fields of a message hold messages, by number.
pub proof fn messages_stand_in_their_fields(tag: int)
    ensures
        Schema::Model.nested(7) == Some(Schema::Graph) && Schema::Model.nested(8) == Some(Schema::Opset) && Schema::Model.nested(14)
            == Some(Schema::Entry),
        Schema::Graph.nested(1) == Some(Schema::Node) && Schema::Graph.nested(5) == Some(Schema::Tensor),
        Schema::Graph.nested(11) == Some(Schema::Value) && Schema::Graph.nested(12) == Some(Schema::Value) && Schema::Graph.nested(13)
            == Some(Schema::Value),
        Schema::Node.nested(5) == Some(Schema::Attribute) && Schema::Attribute.nested(5) == Some(Schema::Tensor),
        Schema::Value.nested(2) == Some(Schema::Type) && Schema::Type.nested(1) == Some(Schema::TensorType),
        Schema::TensorType.nested(2) == Some(Schema::Shape) && Schema::Shape.nested(1) == Some(Schema::Dim),
        Schema::Tensor.nested(tag) is None && Schema::Opset.nested(tag) is None && Schema::Entry.nested(tag) is None && Schema::Dim.nested(
            tag,
        ) is None,
        Schema::Model.nested(tag) is Some ==> Schema::Model.knows(tag),
        Schema::Graph.nested(tag) is Some ==> Schema::Graph.knows(tag),
        Schema::Node.nested(tag) is Some ==> Schema::Node.knows(tag),
        Schema::Attribute.nested(tag) is Some ==> Schema::Attribute.knows(tag),
{
}

} // verus!
