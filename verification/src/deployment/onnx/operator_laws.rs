//! What the operator names of a model file mean: every operator goes by the name that it has in
//! the format, both when it is written and when it is read.
use super::super::types::{DType, OperationView, OperatorView};
use super::export::{free_name, Writing};
use super::import::{Loading, FLOAT_KIND, INTS_KIND, INT_KIND, IR_VERSION, OPSET_VERSION, TENSOR_KIND};
use super::laws::{operator_names, single_attribute};
use super::proto::{AttributeView, NodeProtoView};
use super::tensor::{code_of, dtype_of};
use crate::error::ErrorView;
use vstd::prelude::*;

verus! {

/// A node of the default operator set with one result and the given operands.
pub open spec fn is_node(node: NodeProtoView, op: Seq<char>, inputs: Seq<Seq<char>>, name: Seq<char>) -> bool {
    &&& node.op == op
    &&& node.inputs == inputs
    &&& node.outputs == seq![name]
    &&& node.domain == Seq::<char>::empty()
    &&& node.overload == Seq::<char>::empty()
    &&& !node.devices
}

/// A node has one attribute, which is a list of integers.
pub open spec fn has_integers(node: NodeProtoView, name: Seq<char>, list: Seq<i64>) -> bool {
    &&& node.attrs.len() == 1
    &&& node.attrs[0].name == name
    &&& node.attrs[0].kind == 7
    &&& node.attrs[0].ints == list
    &&& node.attrs[0].int is None
}

/// A node has one attribute, which is an integer.
pub open spec fn has_integer(node: NodeProtoView, name: Seq<char>, n: i64) -> bool {
    &&& node.attrs.len() == 1
    &&& node.attrs[0].name == name
    &&& node.attrs[0].kind == 2
    &&& node.attrs[0].int == Some(n)
    &&& node.attrs[0].ints == Seq::<i64>::empty()
}

/// A list of axes swaps two of them and keeps the others.
pub open spec fn swaps(axes: Seq<i64>, a: int, b: int) -> bool {
    &&& 0 <= a < axes.len() && axes[a] == b as i64
    &&& 0 <= b < axes.len() && axes[b] == a as i64
    &&& forall|i: int| 0 <= i < axes.len() && i != a && i != b ==> #[trigger] axes[i] == i as i64
}

/// A number means an axis: it counts from the front, or from the end where it is negative.
pub open spec fn means_axis(number: i64, rank: int, axis: int) -> bool {
    0 <= axis < rank && (number == axis || number == axis - rank)
}

/// Every operator that is one node is written under its own name, with its operands in their
/// order and its settings under the names that the format has for them.
pub proof fn operators_are_written_under_their_names(w: Writing, operation: OperationView, ranks: Map<Seq<char>, usize>)
    requires
        w.operation(operation, ranks) is Ok,
        !(operation.operator is Linear || operation.operator is Reshape),
    ensures
        ({
            let after = w.operation(operation, ranks)->Ok_0;
            let node = after.nodes.last();
            let written = |op: Seq<char>| is_node(node, op, operation.inputs, operation.name);
            &&& after.nodes == w.nodes.push(node)
            &&& after.initializers == w.initializers
            &&& match operation.operator {
                OperatorView::Identity => written("Identity"@) && node.attrs.len() == 0,
                OperatorView::Relu => written("Relu"@) && node.attrs.len() == 0,
                OperatorView::Sigmoid => written("Sigmoid"@) && node.attrs.len() == 0,
                OperatorView::Tanh => written("Tanh"@) && node.attrs.len() == 0,
                OperatorView::Add => written("Add"@) && node.attrs.len() == 0,
                OperatorView::Subtract => written("Sub"@) && node.attrs.len() == 0,
                OperatorView::Multiply => written("Mul"@) && node.attrs.len() == 0,
                OperatorView::Matmul => written("MatMul"@) && node.attrs.len() == 0,
                OperatorView::Permute(axes) => written("Transpose"@) && has_integers(node, "perm"@, axes),
                OperatorView::Cat(dim) => written("Concat"@) && has_integer(node, "axis"@, dim),
                OperatorView::Flatten { start, end } => start == 1 && end == -1 && written("Flatten"@) && has_integer(
                    node,
                    "axis"@,
                    1,
                ),
                OperatorView::Transpose { dim0, dim1 } => {
                    let rank = ranks[operation.inputs[0]] as int;
                    &&& written("Transpose"@)
                    &&& has_integers(node, "perm"@, node.attrs[0].ints)
                    &&& node.attrs[0].ints.len() == rank
                    &&& exists|a: int, b: int|
                        means_axis(dim0, rank, a) && means_axis(dim1, rank, b) && #[trigger] swaps(node.attrs[0].ints, a, b)
                },
                _ => false,
            }
        }),
{
    let after = w.operation(operation, ranks)->Ok_0;
    let node = after.nodes.last();
    if let OperatorView::Transpose { dim0, dim1 } = operation.operator {
        let rank = ranks[operation.inputs[0]] as int;
        let a = if dim0 < 0 {
            rank + dim0
        } else {
            dim0 as int
        };
        let b = if dim1 < 0 {
            rank + dim1
        } else {
            dim1 as int
        };
        assert(swaps(node.attrs[0].ints, a, b));
    }
}

/// A linear transformation is written as what it means: the product of its input with its
/// weight, whose two axes are swapped, and the sum with its bias, where it has one. The names in
/// between are new.
pub proof fn linear_is_written_as_product_and_sum(w: Writing, operation: OperationView, ranks: Map<Seq<char>, usize>)
    requires
        operation.operator is Linear,
        operation.inputs.len() == 2 || operation.inputs.len() == 3,
    ensures
        ({
            let after = w.operation(operation, ranks)->Ok_0;
            let n = w.nodes.len() as int;
            let swap = after.nodes[n];
            let product = after.nodes[n + 1];
            let weight = swap.outputs[0];
            &&& w.operation(operation, ranks) is Ok
            &&& after.nodes.take(n) == w.nodes
            &&& after.initializers == w.initializers
            &&& is_node(swap, "Transpose"@, seq![operation.inputs[1]], weight)
            &&& has_integers(swap, "perm"@, seq![1i64, 0i64])
            &&& product.attrs.len() == 0
            &&& if operation.inputs.len() == 2 {
                &&& after.nodes.len() == n + 2
                &&& is_node(product, "MatMul"@, seq![operation.inputs[0], weight], operation.name)
            } else {
                let sum = after.nodes[n + 2];
                let partial = product.outputs[0];
                &&& after.nodes.len() == n + 3
                &&& is_node(product, "MatMul"@, seq![operation.inputs[0], weight], partial)
                &&& is_node(sum, "Add"@, seq![partial, operation.inputs[2]], operation.name)
                &&& sum.attrs.len() == 0
            }
        }),
{
    let after = w.operation(operation, ranks)->Ok_0;
    assert(after.nodes.take(w.nodes.len() as int) =~= w.nodes);
}

/// A reshape is written with its shape as a constant vector of 64-bit integers, and with sizes
/// of zero that mean zero.
pub proof fn reshape_is_written_with_its_shape(
    w: Writing,
    operation: OperationView,
    ranks: Map<Seq<char>, usize>,
    shape: Seq<i64>,
)
    requires
        operation.operator == OperatorView::Reshape(shape),
        operation.inputs.len() == 1,
        shape.len() <= i64::MAX,
    ensures
        ({
            let after = w.operation(operation, ranks)->Ok_0;
            let node = after.nodes.last();
            let constant = after.initializers.last();
            &&& w.operation(operation, ranks) is Ok
            &&& after.nodes == w.nodes.push(node)
            &&& after.initializers == w.initializers.push(constant)
            &&& is_node(node, "Reshape"@, seq![operation.inputs[0], constant.name], operation.name)
            &&& has_integer(node, "allowzero"@, 1)
            &&& constant.dtype == 7
            &&& constant.dims == seq![shape.len() as i64]
            &&& constant.ints64 == shape
            &&& constant.raw == Seq::<u8>::empty()
        }),
{
    let name = free_name(w.reserved);
    assert(operation.inputs.push(name) =~= seq![operation.inputs[0], name]);
}

/// Some attribute has a name, and it is a list of integers.
pub open spec fn gives_integers(attrs: Seq<AttributeView>, name: Seq<char>, list: Seq<i64>) -> bool {
    exists|j: int|
        0 <= j < attrs.len() && (#[trigger] attrs[j]).name == name && attrs[j].kind == 7 && attrs[j].ints == list
}

/// Some attribute has a name, and it is an integer.
pub open spec fn gives_integer(attrs: Seq<AttributeView>, name: Seq<char>, n: i64) -> bool {
    exists|j: int|
        0 <= j < attrs.len() && (#[trigger] attrs[j]).name == name && attrs[j].kind == 2 && attrs[j].int == Some(n)
}

/// No attribute has a name.
pub open spec fn lacks(attrs: Seq<AttributeView>, name: Seq<char>) -> bool {
    forall|j: int| 0 <= j < attrs.len() ==> (#[trigger] attrs[j]).name != name
}

/// A node that is accepted, other than a constant, becomes the operation whose operator has the
/// node's name in the format, under the name of the node's result and with its operands.
pub proof fn nodes_are_read_as_their_operators(l: Loading, node: NodeProtoView)
    requires
        l.with_node(node) is Ok,
        node.op != "Constant"@,
    ensures
        ({
            let after = l.with_node(node)->Ok_0;
            let read = after.operations.last();
            &&& node.outputs.len() == 1
            &&& after.operations == l.operations.push(read)
            &&& after.state == l.state
            &&& after.storages == l.storages
            &&& read.name == node.outputs[0]
            &&& {
                ||| node.op == "Identity"@ && read.operator is Identity && read.inputs == node.inputs
                ||| node.op == "Relu"@ && read.operator is Relu && read.inputs == node.inputs
                ||| node.op == "Sigmoid"@ && read.operator is Sigmoid && read.inputs == node.inputs
                ||| node.op == "Tanh"@ && read.operator is Tanh && read.inputs == node.inputs
                ||| node.op == "Add"@ && read.operator is Add && read.inputs == node.inputs
                ||| node.op == "Sub"@ && read.operator is Subtract && read.inputs == node.inputs
                ||| node.op == "Mul"@ && read.operator is Multiply && read.inputs == node.inputs
                ||| node.op == "MatMul"@ && read.operator is Matmul && read.inputs == node.inputs
                ||| node.op == "Concat"@ && read.inputs == node.inputs && read.operator is Cat && gives_integer(
                    node.attrs,
                    "axis"@,
                    read.operator->Cat_0,
                )
                ||| node.op == "Flatten"@ && read.inputs == node.inputs && read.operator == (OperatorView::Flatten {
                    start: 1,
                    end: -1i64,
                })
                ||| node.op == "Transpose"@ && read.inputs == node.inputs && read.operator is Permute && {
                    let axes = read.operator->Permute_0;
                    ||| gives_integers(node.attrs, "perm"@, axes)
                    ||| lacks(node.attrs, "perm"@) && l.ranks.dom().contains(node.inputs[0]) && axes.len()
                        == l.ranks[node.inputs[0]] && forall|i: int|
                        0 <= i < axes.len() ==> #[trigger] axes[i] == (axes.len() - 1 - i) as i64
                }
                ||| node.op == "Reshape"@ && read.operator is Reshape && node.inputs.len() == 2 && read.inputs == seq![
                    node.inputs[0],
                ]
                ||| node.op == "Gemm"@ && read.operator is Linear && read.inputs == node.inputs && 2 <= node.inputs.len() <= 3
                    && gives_integer(node.attrs, "transB"@, 1) && l.has_rank(node.inputs[0], 2) && l.has_rank(node.inputs[1], 2)
            }
        }),
{
    operator_names();
    let named = Loading { reserved: l.reserved.insert(node.outputs[0]), ..l };
    let read = l.with_node(node)->Ok_0.operations.last();
    assert(named.choice(node) == Ok::<(OperatorView, Seq<Seq<char>>), ErrorView>((read.operator, read.inputs)));
    if node.op == "Reshape"@ {
        assert(node.inputs.take(1) =~= seq![node.inputs[0]]);
    }
}

/// A node of an elementwise operator without attributes is accepted, where its name is new and
/// its operands are known, and becomes the operator of that name.
pub proof fn elementwise_nodes_are_accepted(l: Loading, node: NodeProtoView)
    requires
        node.op == "Identity"@ || node.op == "Relu"@ || node.op == "Sigmoid"@ || node.op == "Tanh"@ || node.op == "Add"@ || node.op
            == "Sub"@ || node.op == "Mul"@,
        node.attrs.len() == 0,
        node.domain.len() == 0,
        node.overload.len() == 0,
        !node.devices,
        node.outputs.len() == 1,
        !l.reserved.contains(node.outputs[0]),
        forall|k: int| 0 <= k < node.inputs.len() ==> l.reserved.contains(#[trigger] node.inputs[k]),
    ensures
        ({
            let operator = l.with_node(node)->Ok_0.operations.last().operator;
            &&& l.with_node(node) is Ok
            &&& node.op == "Identity"@ ==> operator is Identity
            &&& node.op == "Relu"@ ==> operator is Relu
            &&& node.op == "Sigmoid"@ ==> operator is Sigmoid
            &&& node.op == "Tanh"@ ==> operator is Tanh
            &&& node.op == "Add"@ ==> operator is Add
            &&& node.op == "Sub"@ ==> operator is Subtract
            &&& node.op == "Mul"@ ==> operator is Multiply
        }),
{
    operator_names();
    single_attribute(node.op, node.attrs);
}

/// The numbers of the format: the codes of the dtypes and of the attribute types, and the
/// versions of the format and of its operators. No other number is a dtype.
pub proof fn codes_are_those_of_the_format(code: i32)
    ensures
        code_of(DType::Float) == 1,
        code_of(DType::Int64) == 7,
        code_of(DType::Bool) == 9,
        code_of(DType::Double) == 11,
        dtype_of(1) == Ok::<DType, ErrorView>(DType::Float),
        dtype_of(7) == Ok::<DType, ErrorView>(DType::Int64),
        dtype_of(9) == Ok::<DType, ErrorView>(DType::Bool),
        dtype_of(11) == Ok::<DType, ErrorView>(DType::Double),
        dtype_of(code) is Ok ==> code == 1 || code == 7 || code == 9 || code == 11,
        FLOAT_KIND == 1,
        INT_KIND == 2,
        TENSOR_KIND == 4,
        INTS_KIND == 7,
        IR_VERSION == 10,
        OPSET_VERSION == 18,
{
}

} // verus!
