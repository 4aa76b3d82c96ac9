//! Reading a model from the messages of a file.
use super::super::artifact::{states_view, storages_view, Artifact, ArtifactView, State, StateView, Storage, StorageView};
use super::super::infer::{alike, is_alike};
use super::super::layout::{contiguous_strides, strides_of};
use super::super::model::{model_of, Model};
use super::super::program::{input_names, tuple_of};
use super::super::tree::{names_view, walked, Tree, TreeView, MAX_NODES};
use super::super::types::{
    copy_texts, dimensions_view, operations_view, program_parts, value_specs_view, DType, Dimension, Operation,
    OperationView, Operator, OperatorView, Program, ProgramView, StateRole, ValueSpec, ValueSpecView,
};
use super::proto::{
    attributes_view, entrys_view, nodes_view, tensors_view, values_view, Attribute, AttributeView, Entry, EntryView,
    GraphProto, GraphProtoView, ModelProto, ModelProtoView, NodeProto, NodeProtoView, TensorProto, TensorProtoView,
    ValueProto, ValueProtoView,
};
use super::tensor::{raw_of, raw_tensor, spec_of, value_spec};
use crate::bytes::{number, read_number, signed_of, to_signed};
use crate::error::{deployment_error, deployment_text, first_at, first_at_step, outcome, refusal, texts, ErrorView, Result};
use crate::graph::render::{quoted, quoted_form};
use crate::kind::Device;
use crate::names::{listing_of, NameMap};
use crate::tensor::copy_shape;
use crate::text::{join, join3, owned, same};
use vstd::prelude::*;

verus! {

/// The version of the format.
pub const IR_VERSION: i64 = 10;

/// The version of the default operator set.
pub const OPSET_VERSION: i64 = 18;

/// The bits of the single-precision number one.
pub const SINGLE_ONE: u32 = 0x3f80_0000;

/// The code of an integer attribute.
pub const INT_KIND: i32 = 2;

/// The code of an attribute that is a list of integers.
pub const INTS_KIND: i32 = 7;

/// The code of a floating-point attribute.
pub const FLOAT_KIND: i32 = 1;

/// The code of a tensor attribute.
pub const TENSOR_KIND: i32 = 4;

/// Why the frame of a file is refused, if it is: versions, extensions, and the size of the
/// graph.
pub open spec fn frame_refusal(model: ModelProtoView) -> Option<ErrorView> {
    if model.ir_version != IR_VERSION || model.opset.len() != 1 || model.opset[0].domain.len() > 0 || model.opset[0].version
        != OPSET_VERSION {
        Some(deployment_text("ONNX requires IR10 and default-domain opset18"@))
    } else if model.training || model.functions || model.configuration {
        Some(deployment_text("ONNX training, functions and device configuration are unsupported"@))
    } else {
        match model.graph {
            None => Some(deployment_text("missing ONNX graph"@)),
            Some(graph) => if graph.nodes.len() > MAX_NODES || graph.initializers.len() > MAX_NODES || graph.sparse
                || graph.quantization {
                Some(deployment_text("unsupported or excessive ONNX graph"@))
            } else {
                None
            },
        }
    }
}

/// A model under construction.
pub struct Loading {
    /// The storages so far.
    pub storages: Seq<StorageView>,
    /// The constants so far.
    pub state: Seq<StateView>,
    /// The place of each constant in the state.
    pub constants: Map<Seq<char>, usize>,
    /// The ranks that are known.
    pub ranks: Map<Seq<char>, usize>,
    /// The names that are taken.
    pub reserved: Set<Seq<char>>,
    /// The operations so far.
    pub operations: Seq<OperationView>,
}

/// A model under construction, or why it was refused.
pub type Step = core::result::Result<Loading, ErrorView>;

impl Loading {
    /// Nothing yet.
    pub open spec fn start() -> Loading {
        Loading {
            storages: Seq::empty(),
            state: Seq::empty(),
            constants: Map::empty(),
            ranks: Map::empty(),
            reserved: Set::empty(),
            operations: Seq::empty(),
        }
    }

    /// A constant tensor under a name becomes state.
    pub open spec fn with_constant(self, name: Seq<char>, tensor: TensorProtoView) -> Step {
        match raw_of(tensor) {
            Err(e) => Err(e),
            Ok((dtype, bytes)) => match strides_of(tensor.dims) {
                Err(e) => Err(e),
                Ok(strides) => Ok(
                    Loading {
                        storages: self.storages.push(StorageView { dtype, bytes }),
                        state: self.state.push(
                            StateView {
                                name,
                                role: StateRole::Constant,
                                storage: self.storages.len() as usize,
                                shape: tensor.dims,
                                strides,
                                offset: 0,
                                requires_grad: false,
                            },
                        ),
                        constants: self.constants.insert(name, self.state.len() as usize),
                        ..self
                    },
                ),
            },
        }
    }

    /// An initializer becomes a constant; its name has to be new.
    pub open spec fn with_initializer(self, tensor: TensorProtoView) -> Step {
        match self.with_constant(tensor.name, tensor) {
            Err(e) => Err(e),
            Ok(next) => if self.constants.dom().contains(tensor.name) {
                Err(deployment_text("duplicate ONNX initializer"@))
            } else {
                Ok(next)
            },
        }
    }

    /// The first `n` initializers.
    pub open spec fn with_initializers(self, tensors: Seq<TensorProtoView>, n: int) -> Step
        decreases n,
    {
        if n <= 0 {
            Ok(self)
        } else {
            match self.with_initializers(tensors, n - 1) {
                Err(e) => Err(e),
                Ok(l) => l.with_initializer(tensors[n - 1]),
            }
        }
    }
}

/// The specs of the first `n` values.
pub open spec fn specs_of(values: Seq<ValueProtoView>, n: int) -> core::result::Result<Seq<ValueSpecView>, ErrorView>
    decreases n,
{
    if n <= 0 {
        Ok(Seq::empty())
    } else {
        match specs_of(values, n - 1) {
            Err(e) => Err(e),
            Ok(list) => match spec_of(values[n - 1]) {
                Err(e) => Err(e),
                Ok(spec) => Ok(list.push(spec)),
            },
        }
    }
}

/// Ranks with those of the first `n` specs added.
pub open spec fn spec_ranks(ranks: Map<Seq<char>, usize>, specs: Seq<ValueSpecView>, n: int) -> Map<Seq<char>, usize>
    decreases n,
{
    if n <= 0 {
        ranks
    } else {
        spec_ranks(ranks, specs, n - 1).insert(specs[n - 1].name, specs[n - 1].dimensions.len() as usize)
    }
}

/// Ranks with those of the first `n` states added.
pub open spec fn state_ranks(ranks: Map<Seq<char>, usize>, state: Seq<StateView>, n: int) -> Map<Seq<char>, usize>
    decreases n,
{
    if n <= 0 {
        ranks
    } else {
        state_ranks(ranks, state, n - 1).insert(state[n - 1].name, state[n - 1].shape.len() as usize)
    }
}

/// The names of inputs and of constants.
pub open spec fn taken_names(inputs: Seq<ValueSpecView>, state: Seq<StateView>) -> Set<Seq<char>> {
    Set::new(
        |name: Seq<char>|
            (exists|j: int| 0 <= j < inputs.len() && (#[trigger] inputs[j]).name == name) || (exists|j: int|
                0 <= j < state.len() && (#[trigger] state[j]).name == name),
    )
}

/// The constants, the known ranks and the taken names before the first node.
pub open spec fn prepared(graph: GraphProtoView) -> core::result::Result<(Seq<ValueSpecView>, Loading), ErrorView> {
    match Loading::start().with_initializers(graph.initializers, graph.initializers.len() as int) {
        Err(e) => Err(e),
        Ok(l) => match specs_of(graph.inputs, graph.inputs.len() as int) {
            Err(e) => Err(e),
            Ok(inputs) => if exists|j: int| 0 <= j < inputs.len() && l.constants.dom().contains((#[trigger] inputs[j]).name) {
                Err(deployment_text("overridable ONNX initializers are unsupported"@))
            } else {
                match specs_of(graph.values, graph.values.len() as int) {
                    Err(e) => Err(e),
                    Ok(values) => {
                        let first = spec_ranks(Map::empty(), inputs, inputs.len() as int);
                        let second = state_ranks(first, l.state, l.state.len() as int);
                        Ok(
                            (
                                inputs,
                                Loading {
                                    ranks: spec_ranks(second, values, values.len() as int),
                                    reserved: taken_names(inputs, l.state),
                                    ..l
                                },
                            ),
                        )
                    },
                }
            },
        },
    }
}

/// Why attribute `i` is refused, if it is.
pub open spec fn attribute_refusal(attrs: Seq<AttributeView>, i: int) -> Option<ErrorView> {
    let a = attrs[i];
    let filled = (if a.int is Some { 1int } else { 0 }) + (if a.float is Some { 1int } else { 0 }) + (if a.tensor is Some {
        1int
    } else {
        0
    }) + (if a.ints.len() > 0 { 1int } else { 0 });
    if a.payloads.present() {
        Some(deployment_text("unsupported ONNX attribute payload"@))
    } else if filled > 1 {
        Some(deployment_text("conflicting ONNX attribute fields"@))
    } else if exists|j: int| 0 <= j < i && (#[trigger] attrs[j]).name == a.name {
        Some(deployment_text("duplicate ONNX attribute"@))
    } else {
        None
    }
}

/// The check of each attribute.
pub open spec fn attribute_checks(attrs: Seq<AttributeView>) -> spec_fn(int) -> Option<ErrorView> {
    |i: int| attribute_refusal(attrs, i)
}

/// The attribute of a name among attributes with different names.
pub open spec fn attribute_named(attrs: Seq<AttributeView>, name: Seq<char>) -> Option<AttributeView> {
    if exists|j: int| 0 <= j < attrs.len() && (#[trigger] attrs[j]).name == name {
        Some(attrs[choose|j: int| 0 <= j < attrs.len() && (#[trigger] attrs[j]).name == name])
    } else {
        None
    }
}

/// An integer attribute.
pub open spec fn int_attribute(attrs: Seq<AttributeView>, name: Seq<char>, default: Option<i64>) -> core::result::Result<i64, ErrorView> {
    match attribute_named(attrs, name) {
        Some(a) => if a.kind == INT_KIND {
            match a.int {
                Some(n) => Ok(n),
                None => Err(deployment_text("missing ONNX integer attribute value"@)),
            }
        } else {
            Err(deployment_text("ONNX attribute type mismatch"@))
        },
        None => match default {
            Some(n) => Ok(n),
            None => Err(deployment_text("missing ONNX attribute "@ + name)),
        },
    }
}

/// The attributes that an operator reads.
pub open spec fn read_by(op: Seq<char>, name: Seq<char>) -> bool {
    if op == "Transpose"@ {
        name == "perm"@
    } else if op == "Concat"@ || op == "Flatten"@ {
        name == "axis"@
    } else if op == "Reshape"@ {
        name == "allowzero"@
    } else if op == "Gemm"@ {
        name == "alpha"@ || name == "beta"@ || name == "transA"@ || name == "transB"@
    } else if op == "Constant"@ {
        name == "value"@
    } else {
        false
    }
}

/// The names of the attributes that an operator does not read.
pub open spec fn unread(op: Seq<char>, attrs: Seq<AttributeView>) -> Map<Seq<char>, ()> {
    Map::new(
        |name: Seq<char>|
            !read_by(op, name) && exists|j: int| 0 <= j < attrs.len() && (#[trigger] attrs[j]).name == name,
        |name: Seq<char>| (),
    )
}

/// Quoted names from place `i` on, with commas between them.
pub open spec fn quoted_list(names: Seq<Seq<char>>, n: int) -> Seq<char>
    decreases n,
{
    if n <= 0 {
        Seq::empty()
    } else if n == 1 {
        quoted_form(names[0])
    } else {
        quoted_list(names, n - 1) + ", "@ + quoted_form(names[n - 1])
    }
}

/// The debug form of a list of names.
pub open spec fn names_form(names: Seq<Seq<char>>) -> Seq<char> {
    "["@ + quoted_list(names, names.len() as int) + "]"@
}

/// The axes of a transposition that reverses them.
pub open spec fn reversed_axes(rank: usize) -> Seq<i64> {
    Seq::new(rank as nat, |i: int| (rank - 1 - i) as i64)
}

/// The integers that bytes stand for, eight bytes each.
pub open spec fn decoded_integers(bytes: Seq<u8>) -> Seq<i64> {
    Seq::new(bytes.len() / 8, |i: int| signed_of(number(bytes.subrange(8 * i, 8 * i + 8))))
}

/// An operator and its operands, or why the node is refused.
pub type Choice = core::result::Result<(OperatorView, Seq<Seq<char>>), ErrorView>;

impl Loading {
    /// A transposition; without axes it reverses them, which takes a known rank.
    pub open spec fn transpose_choice(self, node: NodeProtoView) -> Choice {
        match attribute_named(node.attrs, "perm"@) {
            Some(a) => if a.kind == INTS_KIND {
                Ok((OperatorView::Permute(a.ints), node.inputs))
            } else {
                Err(deployment_text("ONNX permutation attribute type mismatch"@))
            },
            None => if node.inputs.len() == 0 {
                Err(deployment_text("missing transpose operand"@))
            } else if !self.ranks.dom().contains(node.inputs[0]) {
                Err(deployment_text("ONNX default transpose requires known rank"@))
            } else {
                Ok((OperatorView::Permute(reversed_axes(self.ranks[node.inputs[0]])), node.inputs))
            },
        }
    }

    /// A concatenation.
    pub open spec fn concat_choice(self, node: NodeProtoView) -> Choice {
        match int_attribute(node.attrs, "axis"@, None) {
            Err(e) => Err(e),
            Ok(axis) => Ok((OperatorView::Cat(axis), node.inputs)),
        }
    }

    /// A flattening of all axes but the first.
    pub open spec fn flatten_choice(self, node: NodeProtoView) -> Choice {
        if node.inputs.len() == 0 {
            Err(deployment_text("missing flatten operand"@))
        } else if !self.ranks.dom().contains(node.inputs[0]) {
            Err(deployment_text("ONNX Flatten requires known rank"@))
        } else {
            match int_attribute(node.attrs, "axis"@, Some(1)) {
                Err(e) => Err(e),
                Ok(axis) => if (if axis < 0 {
                    self.ranks[node.inputs[0]] + axis
                } else {
                    axis as int
                }) != 1 {
                    Err(deployment_text("ONNX Flatten currently supports axis1 only"@))
                } else {
                    Ok((OperatorView::Flatten { start: 1, end: -1i64 }, node.inputs))
                },
            }
        }
    }

    /// A reshape to a constant shape.
    pub open spec fn reshape_choice(self, node: NodeProtoView) -> Choice {
        if node.inputs.len() != 2 {
            Err(deployment_text("ONNX Reshape requires data and constant shape"@))
        } else if !self.constants.dom().contains(node.inputs[1]) {
            Err(deployment_text("ONNX Reshape requires initializer shape"@))
        } else {
            let entry = self.state[self.constants[node.inputs[1]] as int];
            let storage = self.storages[entry.storage as int];
            let dims = decoded_integers(storage.bytes);
            if storage.dtype != DType::Int64 || entry.shape.len() != 1 {
                Err(deployment_text("ONNX reshape shape requires Int64 vector"@))
            } else {
                match int_attribute(node.attrs, "allowzero"@, Some(0)) {
                    Err(e) => Err(e),
                    Ok(allowzero) => if allowzero != 1 && dims.contains(0i64) {
                        Err(deployment_text("ONNX reshape copy-zero dimensions are unsupported"@))
                    } else if allowzero != 0 && allowzero != 1 {
                        Err(deployment_text("invalid ONNX reshape allowzero"@))
                    } else {
                        Ok((OperatorView::Reshape(dims), node.inputs.take(1)))
                    },
                }
            }
        }
    }

    /// A factor of a general matrix product is one.
    pub open spec fn factor_is_one(attrs: Seq<AttributeView>, name: Seq<char>) -> bool {
        attribute_named(attrs, name) matches Some(a) ==> a.kind == FLOAT_KIND && a.float == Some(SINGLE_ONE)
    }

    /// A general matrix product that is a linear transformation.
    pub open spec fn gemm_choice(self, node: NodeProtoView) -> Choice {
        if node.inputs.len() != 2 && node.inputs.len() != 3 {
            Err(deployment_text("invalid ONNX Gemm arity"@))
        } else if !Self::factor_is_one(node.attrs, "alpha"@) || !Self::factor_is_one(node.attrs, "beta"@) {
            Err(deployment_text("ONNX Gemm alpha/beta must equal one"@))
        } else {
            match int_attribute(node.attrs, "transA"@, Some(0)) {
                Err(e) => Err(e),
                Ok(a) => match int_attribute(node.attrs, "transB"@, Some(0)) {
                    Err(e) => Err(e),
                    Ok(b) => if a != 0 || b != 1 {
                        Err(deployment_text("ONNX Gemm requires transA0/transB1"@))
                    } else if !self.has_rank(node.inputs[0], 2) || !self.has_rank(node.inputs[1], 2) {
                        Err(deployment_text("ONNX Gemm requires rank2 operands"@))
                    } else {
                        Ok((OperatorView::Linear, node.inputs))
                    },
                },
            }
        }
    }

    /// A value is known to have a rank.
    pub open spec fn has_rank(self, name: Seq<char>, rank: usize) -> bool {
        self.ranks.dom().contains(name) && self.ranks[name] == rank
    }

    /// The operator of a node other than a constant, and its operands.
    pub open spec fn choice(self, node: NodeProtoView) -> Choice {
        if node.op == "Identity"@ {
            Ok((OperatorView::Identity, node.inputs))
        } else if node.op == "Relu"@ {
            Ok((OperatorView::Relu, node.inputs))
        } else if node.op == "Sigmoid"@ {
            Ok((OperatorView::Sigmoid, node.inputs))
        } else if node.op == "Tanh"@ {
            Ok((OperatorView::Tanh, node.inputs))
        } else if node.op == "Add"@ {
            Ok((OperatorView::Add, node.inputs))
        } else if node.op == "Sub"@ {
            Ok((OperatorView::Subtract, node.inputs))
        } else if node.op == "Mul"@ {
            Ok((OperatorView::Multiply, node.inputs))
        } else if node.op == "MatMul"@ {
            Ok((OperatorView::Matmul, node.inputs))
        } else if node.op == "Transpose"@ {
            self.transpose_choice(node)
        } else if node.op == "Concat"@ {
            self.concat_choice(node)
        } else if node.op == "Flatten"@ {
            self.flatten_choice(node)
        } else if node.op == "Reshape"@ {
            self.reshape_choice(node)
        } else if node.op == "Gemm"@ {
            self.gemm_choice(node)
        } else {
            Err(deployment_text("unsupported ONNX operator "@ + node.op))
        }
    }

    /// A node that is a constant.
    pub open spec fn with_constant_node(self, node: NodeProtoView) -> Step {
        let name = node.outputs[0];
        if node.inputs.len() > 0 {
            Err(deployment_text("ONNX Constant has operands"@))
        } else {
            match attribute_named(node.attrs, "value"@) {
                None => Err(deployment_text("ONNX Constant requires tensor value"@)),
                Some(a) => if a.kind != TENSOR_KIND {
                    Err(deployment_text("ONNX Constant attribute must be a tensor"@))
                } else {
                    match a.tensor {
                        None => Err(deployment_text("missing ONNX Constant tensor"@)),
                        Some(tensor) => match self.with_constant(name, tensor) {
                            Err(e) => Err(e),
                            Ok(next) => if unread(node.op, node.attrs).dom() != Set::<Seq<char>>::empty() {
                                Err(deployment_text("unsupported ONNX Constant attributes"@))
                            } else {
                                Ok(
                                    Loading {
                                        ranks: self.ranks.insert(name, tensor.dims.len() as usize),
                                        ..next
                                    },
                                )
                            },
                        },
                    }
                },
            }
        }
    }

    /// What is known of the rank of a result.
    pub open spec fn rank_after(
        self,
        operator: OperatorView,
        operands: Seq<Seq<char>>,
    ) -> core::result::Result<Option<usize>, ErrorView> {
        match operator {
            OperatorView::Linear => Ok(Some(2)),
            OperatorView::Flatten { .. } => Ok(Some(2)),
            OperatorView::Reshape(shape) => Ok(Some(shape.len() as usize)),
            OperatorView::Permute(axes) => Ok(Some(axes.len() as usize)),
            _ => if operator is Matmul && operands.len() == 2 {
                if self.ranks.dom().contains(operands[0]) && self.ranks.dom().contains(operands[1]) {
                    matmul_rank(self.ranks[operands[0]], self.ranks[operands[1]])
                } else {
                    Ok(None)
                }
            } else if operands.len() > 0 && self.ranks.dom().contains(operands[0]) {
                Ok(Some(self.ranks[operands[0]]))
            } else {
                Ok(None)
            },
        }
    }

    /// A node that is an operation.
    pub open spec fn with_operation(self, node: NodeProtoView) -> Step {
        let name = node.outputs[0];
        let left = unread(node.op, node.attrs);
        match self.choice(node) {
            Err(e) => Err(e),
            Ok((operator, operands)) => if left.dom() != Set::<Seq<char>>::empty() {
                Err(
                    deployment_text(
                        "unsupported ONNX "@ + node.op + " attributes "@ + names_form(listing_of(left)),
                    ),
                )
            } else {
                match self.rank_after(operator, operands) {
                    Err(e) => Err(e),
                    Ok(rank) => Ok(
                        Loading {
                            ranks: match rank {
                                Some(n) => self.ranks.insert(name, n),
                                None => self.ranks,
                            },
                            operations: self.operations.push(OperationView { name, operator, inputs: operands }),
                            ..self
                        },
                    ),
                }
            },
        }
    }

    /// A node of the graph.
    pub open spec fn with_node(self, node: NodeProtoView) -> Step {
        if node.domain.len() > 0 || node.overload.len() > 0 || node.devices || node.outputs.len() != 1 {
            Err(
                deployment_text(
                    "ONNX custom operators, overloads, devices or multiple outputs are unsupported"@,
                ),
            )
        } else if self.reserved.contains(node.outputs[0]) || exists|k: int|
            0 <= k < node.inputs.len() && !self.reserved.contains(#[trigger] node.inputs[k]) {
            Err(deployment_text("ONNX duplicate result or non-topological operand"@))
        } else {
            let checked = first_at(0, node.attrs.len() as int, attribute_checks(node.attrs));
            let named = Loading { reserved: self.reserved.insert(node.outputs[0]), ..self };
            if checked is Some {
                Err(checked->0)
            } else if node.op == "Constant"@ {
                named.with_constant_node(node)
            } else {
                named.with_operation(node)
            }
        }
    }

    /// The first `n` nodes of the graph.
    pub open spec fn with_nodes(self, nodes: Seq<NodeProtoView>, n: int) -> Step
        decreases n,
    {
        if n <= 0 {
            Ok(self)
        } else {
            match self.with_nodes(nodes, n - 1) {
                Err(e) => Err(e),
                Ok(l) => l.with_node(nodes[n - 1]),
            }
        }
    }
}

/// The rank of a matrix product.
pub open spec fn matmul_rank(a: usize, b: usize) -> core::result::Result<Option<usize>, ErrorView> {
    if a == 0 || b == 0 {
        Err(deployment_text("ONNX MatMul requires nonscalar operands"@))
    } else if a == 1 && b == 1 {
        Ok(Some(0))
    } else if a == 1 {
        Ok(Some((b - 1) as usize))
    } else if b == 1 {
        Ok(Some((a - 1) as usize))
    } else if a < b {
        Ok(Some(b))
    } else {
        Ok(Some(a))
    }
}

/// A metadata property occurs twice.
pub open spec fn repeats(metadata: Seq<EntryView>) -> bool {
    exists|i: int, j: int| 0 <= i < j < metadata.len() && (#[trigger] metadata[i]).key == (#[trigger] metadata[j]).key
}

/// The content of a metadata property among properties with different names.
pub open spec fn property(metadata: Seq<EntryView>, key: Seq<char>) -> Option<Seq<char>> {
    if exists|j: int| 0 <= j < metadata.len() && (#[trigger] metadata[j]).key == key {
        Some(metadata[choose|j: int| 0 <= j < metadata.len() && (#[trigger] metadata[j]).key == key].value)
    } else {
        None
    }
}

/// What a file holds: an artifact, the names of its outputs, and the properties that refine
/// its calling structure.
pub struct ImportView {
    pub artifact: ArtifactView,
    pub outputs: Seq<Seq<char>>,
    pub inputs_property: Option<Seq<char>>,
    pub input_tree_property: Option<Seq<char>>,
    pub output_tree_property: Option<Seq<char>>,
}

/// The property with the guards of the inputs.
pub open spec fn inputs_key() -> Seq<char> {
    "rusttorch.inputs.v1"@
}

/// The property with the calling structure of the inputs.
pub open spec fn input_tree_key() -> Seq<char> {
    "rusttorch.input_tree.v1"@
}

/// The property with the calling structure of the outputs.
pub open spec fn output_tree_key() -> Seq<char> {
    "rusttorch.output_tree.v1"@
}

/// What a file holds, or why it is refused.
pub open spec fn imported(model: ModelProtoView) -> core::result::Result<ImportView, ErrorView> {
    if frame_refusal(model) is Some {
        Err(frame_refusal(model)->0)
    } else {
        let graph = model.graph->0;
        match prepared(graph) {
            Err(e) => Err(e),
            Ok((inputs, start)) => match start.with_nodes(graph.nodes, graph.nodes.len() as int) {
                Err(e) => Err(e),
                Ok(l) => match specs_of(graph.outputs, graph.outputs.len() as int) {
                    Err(e) => Err(e),
                    Ok(outputs) => if repeats(model.metadata) {
                        Err(deployment_text("duplicate ONNX metadata property"@))
                    } else {
                        Ok(import_of(inputs, l, input_names(outputs), model.metadata))
                    },
                },
            },
        }
    }
}

/// The pieces of a file put together.
pub open spec fn import_of(
    inputs: Seq<ValueSpecView>,
    l: Loading,
    outputs: Seq<Seq<char>>,
    metadata: Seq<EntryView>,
) -> ImportView {
    ImportView {
        artifact: ArtifactView {
            program: ProgramView {
                version: 1,
                operator_version: 1,
                inputs,
                input_tree: tuple_of(input_names(inputs)),
                operations: l.operations,
                output_tree: tuple_of(outputs),
            },
            storages: l.storages,
            state: l.state,
        },
        outputs,
        inputs_property: property(metadata, inputs_key()),
        input_tree_property: property(metadata, input_tree_key()),
        output_tree_property: property(metadata, output_tree_key()),
    }
}

fn check_frame(model: &ModelProto) -> (r: Result<()>)
    ensures
        refusal(r) == frame_refusal(model@),
{
    proof {
        if model.opset@.len() == 1 {
            assert(model@.opset[0] == model.opset@[0]@);
        }
    }
    if model.ir_version != IR_VERSION || model.opset.len() != 1 || !model.opset[0].domain.as_str().is_empty()
        || model.opset[0].version != OPSET_VERSION {
        return Err(deployment_error("ONNX requires IR10 and default-domain opset18"));
    }
    if model.training || model.functions || model.configuration {
        return Err(deployment_error("ONNX training, functions and device configuration are unsupported"));
    }
    match &model.graph {
        None => Err(deployment_error("missing ONNX graph")),
        Some(graph) => {
            if graph.nodes.len() > MAX_NODES || graph.initializers.len() > MAX_NODES || graph.sparse || graph.quantization {
                Err(deployment_error("unsupported or excessive ONNX graph"))
            } else {
                Ok(())
            }
        },
    }
}

/// The names in a map with those of the first `n` attributes.
proof fn attribute_is_unique(attrs: Seq<AttributeView>, i: int)
    requires
        first_at(0, attrs.len() as int, attribute_checks(attrs)) is None,
        0 <= i < attrs.len(),
    ensures
        attribute_named(attrs, attrs[i].name) == Some(attrs[i]),
{
    let checks = attribute_checks(attrs);
    crate::error::first_at_none(0, attrs.len() as int, checks);
    let name = attrs[i].name;
    let j = choose|j: int| 0 <= j < attrs.len() && (#[trigger] attrs[j]).name == name;
    assert(attrs[i].name == name);
    assert(checks(i) is None && checks(j) is None);
    assert(attrs[j].name == name);
    assert(i == j);
}

fn check_attributes(attrs: &Vec<Attribute>) -> (r: Result<()>)
    ensures
        refusal(r) == first_at(0, attrs@.len() as int, attribute_checks(attributes_view(attrs@))),
{
    let ghost view = attributes_view(attrs@);
    let ghost n = attrs@.len() as int;
    let ghost checks = attribute_checks(view);
    let mut i: usize = 0;
    while i < attrs.len()
        invariant
            view == attributes_view(attrs@),
            n == attrs@.len(),
            checks == attribute_checks(view),
            i <= n,
            first_at(0, n, checks) == first_at(i as int, n, checks),
        decreases n - i,
    {
        let a = &attrs[i];
        proof {
            first_at_step(i as int, n, checks);
            assert(view[i as int] == a@);
            assert(checks(i as int) == attribute_refusal(view, i as int));
        }
        if a.payloads.any() {
            return Err(deployment_error("unsupported ONNX attribute payload"));
        }
        let mut filled: u8 = 0;
        if a.int.is_some() {
            filled = filled + 1;
        }
        if a.float.is_some() {
            filled = filled + 1;
        }
        if a.tensor.is_some() {
            filled = filled + 1;
        }
        if a.ints.len() > 0 {
            filled = filled + 1;
        }
        if filled > 1 {
            return Err(deployment_error("conflicting ONNX attribute fields"));
        }
        let mut j: usize = 0;
        while j < i
            invariant
                view == attributes_view(attrs@),
                i < n,
                n == attrs@.len(),
                j <= i,
                a@ == view[i as int],
                forall|k: int| 0 <= k < j ==> (#[trigger] view[k]).name != a@.name,
                checks(i as int) == attribute_refusal(view, i as int),
                first_at(0, n, checks) == first_at(i as int, n, checks),
                checks == attribute_checks(view),
                !a@.payloads.present(),
                filled <= 1,
                filled == (if a@.int is Some { 1int } else { 0 }) + (if a@.float is Some { 1int } else { 0 }) + (if a@.tensor is Some {
                    1int
                } else {
                    0
                }) + (if a@.ints.len() > 0 { 1int } else { 0 }),
            decreases i - j,
        {
            assert(view[j as int] == attrs@[j as int]@);
            if same(attrs[j].name.as_str(), a.name.as_str()) {
                proof {
                    first_at_step(i as int, n, checks);
                    assert(view[j as int].name == a@.name);
                }
                return Err(deployment_error("duplicate ONNX attribute"));
            }
            j += 1;
        }
        i += 1;
    }
    Ok(())
}

fn find_attribute<'a>(attrs: &'a Vec<Attribute>, name: &str) -> (r: Option<&'a Attribute>)
    requires
        first_at(0, attrs@.len() as int, attribute_checks(attributes_view(attrs@))) is None,
    ensures
        match (r, attribute_named(attributes_view(attrs@), name@)) {
            (Some(a), Some(expected)) => a@ == expected,
            (None, None) => true,
            _ => false,
        },
{
    let ghost view = attributes_view(attrs@);
    let mut i: usize = 0;
    while i < attrs.len()
        invariant
            view == attributes_view(attrs@),
            first_at(0, attrs@.len() as int, attribute_checks(view)) is None,
            i <= attrs@.len(),
            forall|k: int| 0 <= k < i ==> (#[trigger] view[k]).name != name@,
        decreases attrs@.len() - i,
    {
        assert(view[i as int] == attrs@[i as int]@);
        if same(attrs[i].name.as_str(), name) {
            proof {
                attribute_is_unique(view, i as int);
            }
            return Some(&attrs[i]);
        }
        i += 1;
    }
    None
}

fn read_int(attrs: &Vec<Attribute>, name: &str, default: Option<i64>) -> (r: Result<i64>)
    requires
        first_at(0, attrs@.len() as int, attribute_checks(attributes_view(attrs@))) is None,
    ensures
        match (r, int_attribute(attributes_view(attrs@), name@, default)) {
            (Ok(n), Ok(expected)) => n == expected,
            (Err(e), Err(expected)) => e@ == expected,
            _ => false,
        },
{
    match find_attribute(attrs, name) {
        Some(a) => {
            if a.kind == INT_KIND {
                match a.int {
                    Some(n) => Ok(n),
                    None => Err(deployment_error("missing ONNX integer attribute value")),
                }
            } else {
                Err(deployment_error("ONNX attribute type mismatch"))
            }
        },
        None => {
            match default {
                Some(n) => Ok(n),
                None => {
                    let message = join("missing ONNX attribute ", name);
                    Err(deployment_error(message.as_str()))
                },
            }
        },
    }
}

fn is_read_by(op: &str, name: &str) -> (r: bool)
    ensures
        r == read_by(op@, name@),
{
    if same(op, "Transpose") {
        same(name, "perm")
    } else if same(op, "Concat") || same(op, "Flatten") {
        same(name, "axis")
    } else if same(op, "Reshape") {
        same(name, "allowzero")
    } else if same(op, "Gemm") {
        same(name, "alpha") || same(name, "beta") || same(name, "transA") || same(name, "transB")
    } else if same(op, "Constant") {
        same(name, "value")
    } else {
        false
    }
}

fn collect_unread(op: &str, attrs: &Vec<Attribute>) -> (r: NameMap<()>)
    ensures
        r.wf(),
        r@ == unread(op@, attributes_view(attrs@)),
        r.listing().len() == 0 <==> unread(op@, attributes_view(attrs@)).dom() == Set::<Seq<char>>::empty(),
{
    let ghost view = attributes_view(attrs@);
    let ghost expected = unread(op@, view);
    let mut names: NameMap<()> = NameMap::new();
    let mut i: usize = 0;
    while i < attrs.len()
        invariant
            view == attributes_view(attrs@),
            i <= attrs@.len(),
            names.wf(),
            forall|name: Seq<char>| #[trigger]
                names@.dom().contains(name) <==> (!read_by(op@, name) && exists|j: int|
                    0 <= j < i && (#[trigger] view[j]).name == name),
        decreases attrs@.len() - i,
    {
        let ghost earlier = names@;
        assert(view[i as int] == attrs@[i as int]@);
        if !is_read_by(op, attrs[i].name.as_str()) {
            names.insert(attrs[i].name.clone(), ());
        }
        proof {
            assert forall|name: Seq<char>| #[trigger]
                names@.dom().contains(name) <==> (!read_by(op@, name) && exists|j: int|
                    0 <= j < i + 1 && (#[trigger] view[j]).name == name) by {
                if name == view[i as int].name {
                    assert(view[i as int].name == name);
                    if !read_by(op@, name) {
                        assert(names@.dom().contains(name));
                    } else {
                        assert(names@ == earlier);
                        assert(!earlier.dom().contains(name));
                    }
                } else {
                    assert(names@.dom().contains(name) == earlier.dom().contains(name));
                    if exists|j: int| 0 <= j < i + 1 && (#[trigger] view[j]).name == name {
                        let j = choose|j: int| 0 <= j < i + 1 && (#[trigger] view[j]).name == name;
                        assert(j != i);
                    }
                }
            }
        }
        i += 1;
    }
    proof {
        assert(names@ =~= expected);
        if names.listing().len() == 0 {
            assert(names@.dom() =~= Set::<Seq<char>>::empty());
        } else {
            names.entry_in_map(0);
        }
    }
    names
}

pub(crate) fn names_text(names: &NameMap<()>) -> (r: String)
    requires
        names.wf(),
    ensures
        r@ == names_form(listing_of(names@)),
{
    proof {
        names.listing_is_determined();
    }
    let ghost list = names.listing();
    let mut out = owned("");
    proof {
        reveal_strlit("");
    }
    assert(out@ =~= quoted_list(list, 0));
    let mut i: usize = 0;
    while i < names.len()
        invariant
            names.wf(),
            list == names.listing(),
            i <= list.len(),
            out@ == quoted_list(list, i as int),
        decreases list.len() - i,
    {
        let item = quoted(names.name(i).as_str());
        if i > 0 {
            out.append(", ");
            out.append(item.as_str());
        } else {
            out = item;
        }
        i += 1;
    }
    join3("[", out.as_str(), "]")
}

/// A model under construction.
struct Loader {
    storages: Vec<Storage>,
    state: Vec<State>,
    constants: NameMap<usize>,
    ranks: NameMap<usize>,
    reserved: NameMap<()>,
    operations: Vec<Operation>,
}

impl View for Loader {
    type V = Loading;

    closed spec fn view(&self) -> Loading {
        Loading {
            storages: storages_view(self.storages@),
            state: states_view(self.state@),
            constants: self.constants@,
            ranks: self.ranks@,
            reserved: self.reserved@.dom(),
            operations: operations_view(self.operations@),
        }
    }
}

/// What became of a model under construction.
spec fn stepped(r: Result<()>, after: Loading) -> Step {
    match r {
        Ok(_) => Ok(after),
        Err(e) => Err(e@),
    }
}

fn decode_integers(bytes: &Vec<u8>) -> (r: Vec<i64>)
    ensures
        r@ == decoded_integers(bytes@),
{
    let count: usize = bytes.len() / 8;
    let mut out: Vec<i64> = Vec::new();
    let mut i: usize = 0;
    while i < count
        invariant
            count == bytes@.len() / 8,
            bytes@.len() <= usize::MAX,
            i <= count,
            out@.len() == i,
            forall|j: int| 0 <= j < i ==> #[trigger] out@[j] == decoded_integers(bytes@)[j],
        decreases count - i,
    {
        let value = read_number(bytes.as_slice(), 8 * i, 8);
        out.push(to_signed(value));
        i += 1;
    }
    assert(out@ =~= decoded_integers(bytes@));
    out
}

fn has_zero(values: &Vec<i64>) -> (r: bool)
    ensures
        r == values@.contains(0i64),
{
    let mut i: usize = 0;
    while i < values.len()
        invariant
            i <= values@.len(),
            forall|j: int| 0 <= j < i ==> #[trigger] values@[j] != 0,
        decreases values@.len() - i,
    {
        if values[i] == 0 {
            assert(values@[i as int] == 0i64);
            return true;
        }
        i += 1;
    }
    false
}

/// What choosing an operator returns, as mathematical content.
spec fn chose(r: Result<(Operator, Vec<String>)>) -> Choice {
    match r {
        Ok(pair) => Ok((pair.0@, texts(pair.1@))),
        Err(e) => Err(e@),
    }
}

impl Loader {
    /// The maps are in order and every constant lies in the state.
    spec fn wf(self) -> bool {
        &&& self.constants.wf()
        &&& self.ranks.wf()
        &&& self.reserved.wf()
        &&& forall|name: Seq<char>| #[trigger] self.constants@.dom().contains(name) ==> self.constants@[name] < self.state@.len()
        &&& forall|i: int| 0 <= i < self.state@.len() ==> (#[trigger] self.state@[i]).storage < self.storages@.len()
    }

    fn start() -> (r: Self)
        ensures
            r.wf(),
            r@ == Loading::start(),
    {
        let r = Loader {
            storages: Vec::new(),
            state: Vec::new(),
            constants: NameMap::new(),
            ranks: NameMap::new(),
            reserved: NameMap::new(),
            operations: Vec::new(),
        };
        proof {
            assert(r@.storages =~= Seq::empty());
            assert(r@.state =~= Seq::empty());
            assert(r@.operations =~= Seq::empty());
            assert(r@.reserved =~= Set::empty());
        }
        r
    }

    fn add_constant(&mut self, name: &str, tensor: &TensorProto) -> (r: Result<()>)
        requires
            old(self).wf(),
        ensures
            r is Ok ==> final(self).wf(),
            stepped(r, final(self)@) == old(self)@.with_constant(name@, tensor@),
    {
        let ghost start = *self;
        let (dtype, bytes) = match raw_tensor(tensor) {
            Ok(found) => found,
            Err(e) => {
                return Err(e);
            },
        };
        let strides = match contiguous_strides(tensor.dims.as_slice()) {
            Ok(strides) => strides,
            Err(e) => {
                return Err(e);
            },
        };
        let storage: usize = self.storages.len();
        let at: usize = self.state.len();
        self.storages.push(Storage { dtype, bytes });
        self.state.push(
            State {
                name: owned(name),
                role: StateRole::Constant,
                storage,
                shape: copy_shape(tensor.dims.as_slice()),
                strides,
                offset: 0,
                requires_grad: false,
            },
        );
        self.constants.insert(owned(name), at);
        proof {
            let expected = start@.with_constant(name@, tensor@)->Ok_0;
            assert(self@.storages =~= expected.storages);
            assert(self@.state =~= expected.state);
            assert forall|other: Seq<char>| #[trigger] self.constants@.dom().contains(other) implies self.constants@[other]
                < self.state@.len() by {
                if other != name@ {
                    assert(start.constants@.dom().contains(other));
                }
            }
        }
        Ok(())
    }

    fn add_initializers(&mut self, tensors: &Vec<TensorProto>) -> (r: Result<()>)
        requires
            old(self).wf(),
        ensures
            r is Ok ==> final(self).wf(),
            stepped(r, final(self)@) == old(self)@.with_initializers(tensors_view(tensors@), tensors@.len() as int),
    {
        let ghost view = tensors_view(tensors@);
        let ghost n = tensors@.len() as int;
        let ghost start = self@;
        let mut i: usize = 0;
        while i < tensors.len()
            invariant
                view == tensors_view(tensors@),
                n == tensors@.len(),
                start == old(self)@,
                i <= n,
                self.wf(),
                start.with_initializers(view, i as int) == Ok::<Loading, ErrorView>(self@),
            decreases n - i,
        {
            let ghost before = self@;
            proof {
                assert(view[i as int] == tensors@[i as int]@);
                if start.with_initializers(view, i + 1) is Err {
                    initializers_fail(start, view, i + 1, n);
                }
            }
            let known = self.constants.contains(tensors[i].name.as_str());
            if let Err(e) = self.add_constant(tensors[i].name.as_str(), &tensors[i]) {
                return Err(e);
            }
            if known {
                return Err(deployment_error("duplicate ONNX initializer"));
            }
            i += 1;
        }
        Ok(())
    }
}

proof fn initializers_fail(l: Loading, tensors: Seq<TensorProtoView>, k: int, n: int)
    requires
        0 <= k <= n,
        l.with_initializers(tensors, k) is Err,
    ensures
        l.with_initializers(tensors, n) == l.with_initializers(tensors, k),
    decreases n - k,
{
    if k < n {
        initializers_fail(l, tensors, k, n - 1);
    }
}

proof fn nodes_fail(l: Loading, nodes: Seq<NodeProtoView>, k: int, n: int)
    requires
        0 <= k <= n,
        l.with_nodes(nodes, k) is Err,
    ensures
        l.with_nodes(nodes, n) == l.with_nodes(nodes, k),
    decreases n - k,
{
    if k < n {
        nodes_fail(l, nodes, k, n - 1);
    }
}

proof fn specs_fail(values: Seq<ValueProtoView>, k: int, n: int)
    requires
        0 <= k <= n,
        specs_of(values, k) is Err,
    ensures
        specs_of(values, n) == specs_of(values, k),
    decreases n - k,
{
    if k < n {
        specs_fail(values, k, n - 1);
    }
}

fn read_specs(values: &Vec<ValueProto>) -> (r: Result<Vec<ValueSpec>>)
    ensures
        match (r, specs_of(values_view(values@), values@.len() as int)) {
            (Ok(specs), Ok(expected)) => value_specs_view(specs@) == expected,
            (Err(e), Err(expected)) => e@ == expected,
            _ => false,
        },
{
    let ghost view = values_view(values@);
    let ghost n = values@.len() as int;
    let mut out: Vec<ValueSpec> = Vec::new();
    assert(value_specs_view(out@) =~= Seq::empty());
    let mut i: usize = 0;
    while i < values.len()
        invariant
            view == values_view(values@),
            n == values@.len(),
            i <= n,
            specs_of(view, i as int) == Ok::<Seq<ValueSpecView>, ErrorView>(value_specs_view(out@)),
        decreases n - i,
    {
        proof {
            assert(view[i as int] == values@[i as int]@);
            if specs_of(view, i + 1) is Err {
                specs_fail(view, i + 1, n);
            }
        }
        match value_spec(&values[i]) {
            Ok(spec) => {
                let ghost before = value_specs_view(out@);
                out.push(spec);
                assert(value_specs_view(out@) =~= before.push(spec@));
            },
            Err(e) => {
                return Err(e);
            },
        }
        i += 1;
    }
    Ok(out)
}

fn add_spec_ranks(ranks: &mut NameMap<usize>, specs: &Vec<ValueSpec>)
    requires
        old(ranks).wf(),
    ensures
        final(ranks).wf(),
        final(ranks)@ == spec_ranks(old(ranks)@, value_specs_view(specs@), specs@.len() as int),
{
    let ghost view = value_specs_view(specs@);
    let ghost start = ranks@;
    let mut i: usize = 0;
    while i < specs.len()
        invariant
            view == value_specs_view(specs@),
            start == old(ranks)@,
            i <= specs@.len(),
            ranks.wf(),
            ranks@ == spec_ranks(start, view, i as int),
        decreases specs@.len() - i,
    {
        assert(view[i as int] == specs@[i as int]@);
        assert(view[i as int].dimensions.len() == specs@[i as int].dimensions@.len());
        ranks.insert(specs[i].name.clone(), specs[i].dimensions.len());
        i += 1;
    }
}

impl Loader {
    fn add_state_ranks(&mut self)
        requires
            old(self).wf(),
        ensures
            final(self).wf(),
            final(self)@ == (Loading {
                ranks: state_ranks(old(self)@.ranks, old(self)@.state, old(self)@.state.len() as int),
                ..old(self)@
            }),
    {
        let ghost start = *self;
        let ghost view = states_view(self.state@);
        let mut i: usize = 0;
        while i < self.state.len()
            invariant
                start.wf(),
                self.storages == start.storages,
                self.state == start.state,
                self.constants == start.constants,
                self.reserved == start.reserved,
                self.operations == start.operations,
                view == states_view(self.state@),
                i <= self.state@.len(),
                self.ranks.wf(),
                self.ranks@ == state_ranks(start.ranks@, view, i as int),
            decreases self.state@.len() - i,
        {
            assert(view[i as int] == self.state@[i as int]@);
            self.ranks.insert(self.state[i].name.clone(), self.state[i].shape.len());
            i += 1;
        }
    }

    fn reserve(&mut self, inputs: &Vec<ValueSpec>)
        requires
            old(self).wf(),
            old(self)@.reserved == Set::<Seq<char>>::empty(),
        ensures
            final(self).wf(),
            final(self)@ == (Loading { reserved: taken_names(value_specs_view(inputs@), old(self)@.state), ..old(self)@ }),
    {
        let ghost start = *self;
        let ghost specs = value_specs_view(inputs@);
        let ghost states = states_view(self.state@);
        let mut i: usize = 0;
        while i < inputs.len()
            invariant
                start.wf(),
                self.storages == start.storages,
                self.state == start.state,
                self.constants == start.constants,
                self.ranks == start.ranks,
                self.operations == start.operations,
                start@.reserved == Set::<Seq<char>>::empty(),
                specs == value_specs_view(inputs@),
                i <= inputs@.len(),
                self.reserved.wf(),
                forall|name: Seq<char>| #[trigger]
                    self.reserved@.dom().contains(name) <==> exists|j: int| 0 <= j < i && (#[trigger] specs[j]).name == name,
            decreases inputs@.len() - i,
        {
            let ghost earlier = self.reserved@;
            assert(specs[i as int] == inputs@[i as int]@);
            self.reserved.insert(inputs[i].name.clone(), ());
            proof {
                assert forall|name: Seq<char>| #[trigger]
                    self.reserved@.dom().contains(name) <==> exists|j: int|
                        0 <= j < i + 1 && (#[trigger] specs[j]).name == name by {
                    if name == specs[i as int].name {
                        assert(specs[i as int].name == name);
                    } else {
                        assert(self.reserved@.dom().contains(name) == earlier.dom().contains(name));
                        if exists|j: int| 0 <= j < i + 1 && (#[trigger] specs[j]).name == name {
                            let j = choose|j: int| 0 <= j < i + 1 && (#[trigger] specs[j]).name == name;
                            assert(j != i);
                        }
                    }
                }
            }
            i += 1;
        }
        let mut k: usize = 0;
        while k < self.state.len()
            invariant
                start.wf(),
                self.storages == start.storages,
                self.state == start.state,
                self.constants == start.constants,
                self.ranks == start.ranks,
                self.operations == start.operations,
                states == states_view(self.state@),
                k <= self.state@.len(),
                self.reserved.wf(),
                forall|name: Seq<char>| #[trigger]
                    self.reserved@.dom().contains(name) <==> ((exists|j: int|
                        0 <= j < specs.len() && (#[trigger] specs[j]).name == name) || (exists|j: int|
                        0 <= j < k && (#[trigger] states[j]).name == name)),
            decreases self.state@.len() - k,
        {
            let ghost earlier = self.reserved@;
            assert(states[k as int] == self.state@[k as int]@);
            self.reserved.insert(self.state[k].name.clone(), ());
            proof {
                assert forall|name: Seq<char>| #[trigger]
                    self.reserved@.dom().contains(name) <==> ((exists|j: int|
                        0 <= j < specs.len() && (#[trigger] specs[j]).name == name) || (exists|j: int|
                        0 <= j < k + 1 && (#[trigger] states[j]).name == name)) by {
                    if name == states[k as int].name {
                        assert(states[k as int].name == name);
                    } else {
                        assert(self.reserved@.dom().contains(name) == earlier.dom().contains(name));
                        if exists|j: int| 0 <= j < k + 1 && (#[trigger] states[j]).name == name {
                            let j = choose|j: int| 0 <= j < k + 1 && (#[trigger] states[j]).name == name;
                            assert(j != k);
                        }
                    }
                }
            }
            k += 1;
        }
        assert(self@.reserved =~= taken_names(specs, states));
    }

    fn choose_transpose(&self, node: &NodeProto) -> (r: Result<(Operator, Vec<String>)>)
        requires
            self.wf(),
            first_at(0, node@.attrs.len() as int, attribute_checks(node@.attrs)) is None,
        ensures
            chose(r) == self@.transpose_choice(node@),
    {
        match find_attribute(&node.attrs, "perm") {
            Some(a) => {
                if a.kind == INTS_KIND {
                    Ok((Operator::Permute(copy_shape(a.ints.as_slice())), copy_texts(&node.inputs)))
                } else {
                    Err(deployment_error("ONNX permutation attribute type mismatch"))
                }
            },
            None => {
                if node.inputs.len() == 0 {
                    return Err(deployment_error("missing transpose operand"));
                }
                assert(node@.inputs[0] == node.inputs@[0]@);
                match self.ranks.get(node.inputs[0].as_str()) {
                    None => Err(deployment_error("ONNX default transpose requires known rank")),
                    Some(rank) => {
                        let rank: usize = *rank;
                        let mut axes: Vec<i64> = Vec::new();
                        let mut k: usize = rank;
                        while k > 0
                            invariant
                                k <= rank,
                                axes@.len() == rank - k,
                                forall|j: int| 0 <= j < axes@.len() ==> #[trigger] axes@[j] == (rank - 1 - j) as i64,
                            decreases k,
                        {
                            k -= 1;
                            axes.push(k as i64);
                        }
                        assert(axes@ =~= reversed_axes(rank));
                        Ok((Operator::Permute(axes), copy_texts(&node.inputs)))
                    },
                }
            },
        }
    }

    fn choose_flatten(&self, node: &NodeProto) -> (r: Result<(Operator, Vec<String>)>)
        requires
            self.wf(),
            first_at(0, node@.attrs.len() as int, attribute_checks(node@.attrs)) is None,
        ensures
            chose(r) == self@.flatten_choice(node@),
    {
        if node.inputs.len() == 0 {
            return Err(deployment_error("missing flatten operand"));
        }
        assert(node@.inputs[0] == node.inputs@[0]@);
        let rank: usize = match self.ranks.get(node.inputs[0].as_str()) {
            Some(rank) => *rank,
            None => {
                return Err(deployment_error("ONNX Flatten requires known rank"));
            },
        };
        let axis = match read_int(&node.attrs, "axis", Some(1)) {
            Ok(axis) => axis,
            Err(e) => {
                return Err(e);
            },
        };
        let at: i128 = if axis < 0 {
            rank as i128 + axis as i128
        } else {
            axis as i128
        };
        if at != 1 {
            return Err(deployment_error("ONNX Flatten currently supports axis1 only"));
        }
        Ok((Operator::Flatten { start: 1, end: -1 }, copy_texts(&node.inputs)))
    }

    fn choose_reshape(&self, node: &NodeProto) -> (r: Result<(Operator, Vec<String>)>)
        requires
            self.wf(),
            first_at(0, node@.attrs.len() as int, attribute_checks(node@.attrs)) is None,
        ensures
            chose(r) == self@.reshape_choice(node@),
    {
        if node.inputs.len() != 2 {
            return Err(deployment_error("ONNX Reshape requires data and constant shape"));
        }
        assert(node@.inputs[1] == node.inputs@[1]@ && node@.inputs[0] == node.inputs@[0]@);
        let at: usize = match self.constants.get(node.inputs[1].as_str()) {
            Some(at) => *at,
            None => {
                return Err(deployment_error("ONNX Reshape requires initializer shape"));
            },
        };
        let entry = &self.state[at];
        assert(self@.state[at as int] == entry@);
        let storage = &self.storages[entry.storage];
        assert(self@.storages[entry.storage as int] == storage@);
        if storage.dtype != DType::Int64 || entry.shape.len() != 1 {
            return Err(deployment_error("ONNX reshape shape requires Int64 vector"));
        }
        let dims = decode_integers(&storage.bytes);
        let allowzero = match read_int(&node.attrs, "allowzero", Some(0)) {
            Ok(allowzero) => allowzero,
            Err(e) => {
                return Err(e);
            },
        };
        if allowzero != 1 && has_zero(&dims) {
            return Err(deployment_error("ONNX reshape copy-zero dimensions are unsupported"));
        }
        if allowzero != 0 && allowzero != 1 {
            return Err(deployment_error("invalid ONNX reshape allowzero"));
        }
        let operands: Vec<String> = vec![node.inputs[0].clone()];
        assert(texts(operands@) =~= node@.inputs.take(1));
        Ok((Operator::Reshape(dims), operands))
    }

    fn is_one(attrs: &Vec<Attribute>, name: &str) -> (r: bool)
        requires
            first_at(0, attrs@.len() as int, attribute_checks(attributes_view(attrs@))) is None,
        ensures
            r == Loading::factor_is_one(attributes_view(attrs@), name@),
    {
        match find_attribute(attrs, name) {
            Some(a) => {
                let float = match a.float {
                    Some(bits) => bits == SINGLE_ONE,
                    None => false,
                };
                a.kind == FLOAT_KIND && float
            },
            None => true,
        }
    }

    fn rank_is(&self, name: &str, rank: usize) -> (r: bool)
        requires
            self.wf(),
        ensures
            r == self@.has_rank(name@, rank),
    {
        match self.ranks.get(name) {
            Some(found) => *found == rank,
            None => false,
        }
    }

    fn choose_gemm(&self, node: &NodeProto) -> (r: Result<(Operator, Vec<String>)>)
        requires
            self.wf(),
            first_at(0, node@.attrs.len() as int, attribute_checks(node@.attrs)) is None,
        ensures
            chose(r) == self@.gemm_choice(node@),
    {
        if node.inputs.len() != 2 && node.inputs.len() != 3 {
            return Err(deployment_error("invalid ONNX Gemm arity"));
        }
        if !Self::is_one(&node.attrs, "alpha") || !Self::is_one(&node.attrs, "beta") {
            return Err(deployment_error("ONNX Gemm alpha/beta must equal one"));
        }
        let a = match read_int(&node.attrs, "transA", Some(0)) {
            Ok(a) => a,
            Err(e) => {
                return Err(e);
            },
        };
        let b = match read_int(&node.attrs, "transB", Some(0)) {
            Ok(b) => b,
            Err(e) => {
                return Err(e);
            },
        };
        if a != 0 || b != 1 {
            return Err(deployment_error("ONNX Gemm requires transA0/transB1"));
        }
        assert(node@.inputs[0] == node.inputs@[0]@ && node@.inputs[1] == node.inputs@[1]@);
        if !self.rank_is(node.inputs[0].as_str(), 2) || !self.rank_is(node.inputs[1].as_str(), 2) {
            return Err(deployment_error("ONNX Gemm requires rank2 operands"));
        }
        Ok((Operator::Linear, copy_texts(&node.inputs)))
    }

    fn choose_operator(&self, node: &NodeProto) -> (r: Result<(Operator, Vec<String>)>)
        requires
            self.wf(),
            first_at(0, node@.attrs.len() as int, attribute_checks(node@.attrs)) is None,
        ensures
            chose(r) == self@.choice(node@),
    {
        let op = node.op.as_str();
        if same(op, "Identity") {
            Ok((Operator::Identity, copy_texts(&node.inputs)))
        } else if same(op, "Relu") {
            Ok((Operator::Relu, copy_texts(&node.inputs)))
        } else if same(op, "Sigmoid") {
            Ok((Operator::Sigmoid, copy_texts(&node.inputs)))
        } else if same(op, "Tanh") {
            Ok((Operator::Tanh, copy_texts(&node.inputs)))
        } else if same(op, "Add") {
            Ok((Operator::Add, copy_texts(&node.inputs)))
        } else if same(op, "Sub") {
            Ok((Operator::Subtract, copy_texts(&node.inputs)))
        } else if same(op, "Mul") {
            Ok((Operator::Multiply, copy_texts(&node.inputs)))
        } else if same(op, "MatMul") {
            Ok((Operator::Matmul, copy_texts(&node.inputs)))
        } else if same(op, "Transpose") {
            self.choose_transpose(node)
        } else if same(op, "Concat") {
            match read_int(&node.attrs, "axis", None) {
                Ok(axis) => Ok((Operator::Cat(axis), copy_texts(&node.inputs))),
                Err(e) => Err(e),
            }
        } else if same(op, "Flatten") {
            self.choose_flatten(node)
        } else if same(op, "Reshape") {
            self.choose_reshape(node)
        } else if same(op, "Gemm") {
            self.choose_gemm(node)
        } else {
            let message = join("unsupported ONNX operator ", op);
            Err(deployment_error(message.as_str()))
        }
    }

    fn add_constant_node(&mut self, node: &NodeProto) -> (r: Result<()>)
        requires
            old(self).wf(),
            node@.outputs.len() == 1,
            first_at(0, node@.attrs.len() as int, attribute_checks(node@.attrs)) is None,
        ensures
            r is Ok ==> final(self).wf(),
            stepped(r, final(self)@) == old(self)@.with_constant_node(node@),
    {
        let ghost start = self@;
        assert(node@.outputs[0] == node.outputs@[0]@);
        if node.inputs.len() > 0 {
            return Err(deployment_error("ONNX Constant has operands"));
        }
        let a = match find_attribute(&node.attrs, "value") {
            Some(a) => a,
            None => {
                return Err(deployment_error("ONNX Constant requires tensor value"));
            },
        };
        if a.kind != TENSOR_KIND {
            return Err(deployment_error("ONNX Constant attribute must be a tensor"));
        }
        let tensor = match &a.tensor {
            Some(tensor) => tensor,
            None => {
                return Err(deployment_error("missing ONNX Constant tensor"));
            },
        };
        let name = node.outputs[0].as_str();
        if let Err(e) = self.add_constant(name, tensor) {
            return Err(e);
        }
        let left = collect_unread(node.op.as_str(), &node.attrs);
        if left.len() > 0 {
            return Err(deployment_error("unsupported ONNX Constant attributes"));
        }
        self.ranks.insert(owned(name), tensor.dims.len());
        Ok(())
    }

    fn rank_of_result(&self, operator: &Operator, operands: &Vec<String>) -> (r: Result<Option<usize>>)
        requires
            self.wf(),
        ensures
            match (r, self@.rank_after(operator@, texts(operands@))) {
                (Ok(rank), Ok(expected)) => rank == expected,
                (Err(e), Err(expected)) => e@ == expected,
                _ => false,
            },
    {
        let matmul = match operator {
            Operator::Linear => {
                return Ok(Some(2));
            },
            Operator::Flatten { .. } => {
                return Ok(Some(2));
            },
            Operator::Reshape(shape) => {
                return Ok(Some(shape.len()));
            },
            Operator::Permute(axes) => {
                return Ok(Some(axes.len()));
            },
            Operator::Matmul => true,
            _ => false,
        };
        proof {
            if operands@.len() > 0 {
                assert(texts(operands@)[0] == operands@[0]@);
            }
            if operands@.len() > 1 {
                assert(texts(operands@)[1] == operands@[1]@);
            }
        }
        if matmul && operands.len() == 2 {
            match (self.ranks.get(operands[0].as_str()), self.ranks.get(operands[1].as_str())) {
                (Some(a), Some(b)) => {
                    let a: usize = *a;
                    let b: usize = *b;
                    if a == 0 || b == 0 {
                        Err(deployment_error("ONNX MatMul requires nonscalar operands"))
                    } else if a == 1 && b == 1 {
                        Ok(Some(0))
                    } else if a == 1 {
                        Ok(Some(b - 1))
                    } else if b == 1 {
                        Ok(Some(a - 1))
                    } else if a < b {
                        Ok(Some(b))
                    } else {
                        Ok(Some(a))
                    }
                },
                _ => Ok(None),
            }
        } else if operands.len() > 0 {
            match self.ranks.get(operands[0].as_str()) {
                Some(rank) => Ok(Some(*rank)),
                None => Ok(None),
            }
        } else {
            Ok(None)
        }
    }

    fn add_operation(&mut self, node: &NodeProto) -> (r: Result<()>)
        requires
            old(self).wf(),
            node@.outputs.len() == 1,
            first_at(0, node@.attrs.len() as int, attribute_checks(node@.attrs)) is None,
        ensures
            r is Ok ==> final(self).wf(),
            stepped(r, final(self)@) == old(self)@.with_operation(node@),
    {
        let ghost start = *self;
        assert(node@.outputs[0] == node.outputs@[0]@);
        let (operator, operands) = match self.choose_operator(node) {
            Ok(pair) => pair,
            Err(e) => {
                return Err(e);
            },
        };
        let left = collect_unread(node.op.as_str(), &node.attrs);
        if left.len() > 0 {
            let names = names_text(&left);
            let mut message = join3("unsupported ONNX ", node.op.as_str(), " attributes ");
            message.append(names.as_str());
            return Err(deployment_error(message.as_str()));
        }
        let rank = match self.rank_of_result(&operator, &operands) {
            Ok(rank) => rank,
            Err(e) => {
                return Err(e);
            },
        };
        let name = node.outputs[0].as_str();
        if let Some(rank) = rank {
            self.ranks.insert(owned(name), rank);
        }
        let operation = Operation::new(name, operator, operands);
        self.operations.push(operation);
        proof {
            assert(self@.operations =~= start@.operations.push(operation@));
            assert(self@.storages == start@.storages && self@.state == start@.state);
            let expected = start@.with_operation(node@)->Ok_0;
            assert(self@.ranks == expected.ranks);
        }
        Ok(())
    }

    fn operands_taken(&self, inputs: &Vec<String>) -> (r: bool)
        requires
            self.wf(),
        ensures
            r == !(exists|k: int| 0 <= k < inputs@.len() && !self@.reserved.contains(#[trigger] texts(inputs@)[k])),
    {
        let ghost view = texts(inputs@);
        let mut k: usize = 0;
        while k < inputs.len()
            invariant
                self.wf(),
                view == texts(inputs@),
                k <= inputs@.len(),
                forall|j: int| 0 <= j < k ==> self@.reserved.contains(#[trigger] view[j]),
            decreases inputs@.len() - k,
        {
            assert(view[k as int] == inputs@[k as int]@);
            if !self.reserved.contains(inputs[k].as_str()) {
                return false;
            }
            k += 1;
        }
        true
    }

    fn add_node(&mut self, node: &NodeProto) -> (r: Result<()>)
        requires
            old(self).wf(),
        ensures
            r is Ok ==> final(self).wf(),
            stepped(r, final(self)@) == old(self)@.with_node(node@),
    {
        let ghost start = *self;
        if !node.domain.as_str().is_empty() || !node.overload.as_str().is_empty() || node.devices || node.outputs.len() != 1 {
            return Err(
                deployment_error("ONNX custom operators, overloads, devices or multiple outputs are unsupported"),
            );
        }
        assert(node@.outputs[0] == node.outputs@[0]@);
        if self.reserved.contains(node.outputs[0].as_str()) || !self.operands_taken(&node.inputs) {
            return Err(deployment_error("ONNX duplicate result or non-topological operand"));
        }
        self.reserved.insert(node.outputs[0].clone(), ());
        proof {
            assert(self@.reserved =~= start@.reserved.insert(node@.outputs[0]));
            assert(self@ == (Loading { reserved: start@.reserved.insert(node@.outputs[0]), ..start@ }));
        }
        if let Err(e) = check_attributes(&node.attrs) {
            return Err(e);
        }
        if same(node.op.as_str(), "Constant") {
            self.add_constant_node(node)
        } else {
            self.add_operation(node)
        }
    }

    fn add_nodes(&mut self, nodes: &Vec<NodeProto>) -> (r: Result<()>)
        requires
            old(self).wf(),
        ensures
            r is Ok ==> final(self).wf(),
            stepped(r, final(self)@) == old(self)@.with_nodes(nodes_view(nodes@), nodes@.len() as int),
    {
        let ghost view = nodes_view(nodes@);
        let ghost n = nodes@.len() as int;
        let ghost start = self@;
        let mut i: usize = 0;
        while i < nodes.len()
            invariant
                view == nodes_view(nodes@),
                n == nodes@.len(),
                start == old(self)@,
                i <= n,
                self.wf(),
                start.with_nodes(view, i as int) == Ok::<Loading, ErrorView>(self@),
            decreases n - i,
        {
            proof {
                assert(view[i as int] == nodes@[i as int]@);
                if start.with_nodes(view, i + 1) is Err {
                    nodes_fail(start, view, i + 1, n);
                }
            }
            if let Err(e) = self.add_node(&nodes[i]) {
                return Err(e);
            }
            i += 1;
        }
        Ok(())
    }
}

fn overrides(inputs: &Vec<ValueSpec>, constants: &NameMap<usize>) -> (r: bool)
    requires
        constants.wf(),
    ensures
        r == exists|j: int|
            0 <= j < inputs@.len() && constants@.dom().contains((#[trigger] value_specs_view(inputs@)[j]).name),
{
    let ghost view = value_specs_view(inputs@);
    let mut j: usize = 0;
    while j < inputs.len()
        invariant
            constants.wf(),
            view == value_specs_view(inputs@),
            j <= inputs@.len(),
            forall|k: int| 0 <= k < j ==> !constants@.dom().contains((#[trigger] view[k]).name),
        decreases inputs@.len() - j,
    {
        assert(view[j as int] == inputs@[j as int]@);
        if constants.contains(inputs[j].name.as_str()) {
            assert(constants@.dom().contains(view[j as int].name));
            return true;
        }
        j += 1;
    }
    false
}

fn prepare(graph: &GraphProto) -> (r: Result<(Vec<ValueSpec>, Loader)>)
    ensures
        match (r, prepared(graph@)) {
            (Ok(found), Ok(expected)) => value_specs_view(found.0@) == expected.0 && found.1@ == expected.1 && found.1.wf(),
            (Err(e), Err(expected)) => e@ == expected,
            _ => false,
        },
{
    let mut loader = Loader::start();
    if let Err(e) = loader.add_initializers(&graph.initializers) {
        return Err(e);
    }
    let ghost l = loader@;
    let inputs = match read_specs(&graph.inputs) {
        Ok(inputs) => inputs,
        Err(e) => {
            return Err(e);
        },
    };
    if overrides(&inputs, &loader.constants) {
        return Err(deployment_error("overridable ONNX initializers are unsupported"));
    }
    let values = match read_specs(&graph.values) {
        Ok(values) => values,
        Err(e) => {
            return Err(e);
        },
    };
    proof {
        initializers_keep(Loading::start(), tensors_view(graph.initializers@), graph.initializers@.len() as int);
    }
    add_spec_ranks(&mut loader.ranks, &inputs);
    loader.add_state_ranks();
    add_spec_ranks(&mut loader.ranks, &values);
    loader.reserve(&inputs);
    Ok((inputs, loader))
}

/// Initializers leave ranks, names and operations alone.
proof fn initializers_keep(l: Loading, tensors: Seq<TensorProtoView>, n: int)
    requires
        0 <= n,
        l.with_initializers(tensors, n) is Ok,
    ensures
        ({
            let next = l.with_initializers(tensors, n)->Ok_0;
            next.ranks == l.ranks && next.reserved == l.reserved && next.operations == l.operations
        }),
    decreases n,
{
    if n > 0 {
        initializers_keep(l, tensors, n - 1);
    }
}

/// A model that was read from a file, before its properties have been taken into account.
pub struct Import {
    artifact: Artifact,
    outputs: Vec<String>,
    inputs_property: Option<String>,
    input_tree_property: Option<String>,
    output_tree_property: Option<String>,
}

spec fn text_of(text: Option<String>) -> Option<Seq<char>> {
    match text {
        Some(t) => Some(t@),
        None => None,
    }
}

impl View for Import {
    type V = ImportView;

    closed spec fn view(&self) -> ImportView {
        ImportView {
            artifact: self.artifact@,
            outputs: texts(self.outputs@),
            inputs_property: text_of(self.inputs_property),
            input_tree_property: text_of(self.input_tree_property),
            output_tree_property: text_of(self.output_tree_property),
        }
    }
}

fn metadata_repeats(metadata: &Vec<Entry>) -> (r: bool)
    ensures
        r == repeats(entrys_view(metadata@)),
{
    let ghost view = entrys_view(metadata@);
    let mut names: NameMap<()> = NameMap::new();
    let mut i: usize = 0;
    while i < metadata.len()
        invariant
            view == entrys_view(metadata@),
            i <= metadata@.len(),
            names.wf(),
            forall|name: Seq<char>| #[trigger]
                names@.dom().contains(name) <==> exists|j: int| 0 <= j < i && (#[trigger] view[j]).key == name,
            forall|a: int, b: int| 0 <= a < b < i ==> (#[trigger] view[a]).key != (#[trigger] view[b]).key,
        decreases metadata@.len() - i,
    {
        let ghost earlier = names@;
        assert(view[i as int] == metadata@[i as int]@);
        if names.insert(metadata[i].key.clone(), ()).is_some() {
            assert(earlier.dom().contains(view[i as int].key));
            return true;
        }
        proof {
            assert(!earlier.dom().contains(view[i as int].key));
            assert forall|name: Seq<char>| #[trigger]
                names@.dom().contains(name) <==> exists|j: int| 0 <= j < i + 1 && (#[trigger] view[j]).key == name by {
                if name == view[i as int].key {
                    assert(view[i as int].key == name);
                } else {
                    assert(names@.dom().contains(name) == earlier.dom().contains(name));
                    if exists|j: int| 0 <= j < i + 1 && (#[trigger] view[j]).key == name {
                        let j = choose|j: int| 0 <= j < i + 1 && (#[trigger] view[j]).key == name;
                        assert(j != i);
                    }
                }
            }
        }
        i += 1;
    }
    false
}

fn find_property(metadata: &Vec<Entry>, key: &str) -> (r: Option<String>)
    requires
        !repeats(entrys_view(metadata@)),
    ensures
        text_of(r) == property(entrys_view(metadata@), key@),
{
    let ghost view = entrys_view(metadata@);
    let mut i: usize = 0;
    while i < metadata.len()
        invariant
            view == entrys_view(metadata@),
            !repeats(view),
            i <= metadata@.len(),
            forall|j: int| 0 <= j < i ==> (#[trigger] view[j]).key != key@,
        decreases metadata@.len() - i,
    {
        assert(view[i as int] == metadata@[i as int]@);
        if same(metadata[i].key.as_str(), key) {
            proof {
                let j = choose|j: int| 0 <= j < view.len() && (#[trigger] view[j]).key == key@;
                assert(view[i as int].key == key@);
                assert(view[j].key == key@);
                assert(i == j);
            }
            return Some(metadata[i].value.clone());
        }
        i += 1;
    }
    None
}

fn tuple_of_names(names: &Vec<String>) -> (r: Tree)
    ensures
        r@ == tuple_of(texts(names@)),
{
    let mut leaves: Vec<Tree> = Vec::new();
    let mut i: usize = 0;
    while i < names.len()
        invariant
            i <= names@.len(),
            leaves@.len() == i,
            forall|j: int| 0 <= j < i ==> (#[trigger] leaves@[j])@ == TreeView::Tensor(names@[j]@),
        decreases names@.len() - i,
    {
        leaves.push(Tree::Tensor(names[i].clone()));
        i += 1;
    }
    proof {
        Tree::tuple_view(leaves);
        assert(leaves@.map_values(|t: Tree| t@) =~= texts(names@).map_values(|n: Seq<char>| TreeView::Tensor(n)));
    }
    Tree::Tuple(leaves)
}

fn spec_names(specs: &Vec<ValueSpec>) -> (r: Vec<String>)
    ensures
        texts(r@) == input_names(value_specs_view(specs@)),
{
    let mut out: Vec<String> = Vec::new();
    let mut i: usize = 0;
    while i < specs.len()
        invariant
            i <= specs@.len(),
            out@.len() == i,
            forall|j: int| 0 <= j < i ==> (#[trigger] out@[j])@ == specs@[j].name@,
        decreases specs@.len() - i,
    {
        out.push(specs[i].name.clone());
        i += 1;
    }
    assert(texts(out@) =~= input_names(value_specs_view(specs@)));
    out
}

/// Reads a model from the messages of a file.
pub fn load(model: &ModelProto) -> (r: Result<Import>)
    ensures
        outcome(r) == imported(model@),
{
    if let Err(e) = check_frame(model) {
        return Err(e);
    }
    let graph = match &model.graph {
        Some(graph) => graph,
        None => {
            return Err(deployment_error("missing ONNX graph"));
        },
    };
    let (inputs, loader) = match prepare(graph) {
        Ok(found) => found,
        Err(e) => {
            return Err(e);
        },
    };
    let mut loader = loader;
    if let Err(e) = loader.add_nodes(&graph.nodes) {
        return Err(e);
    }
    let outputs = match read_specs(&graph.outputs) {
        Ok(outputs) => outputs,
        Err(e) => {
            return Err(e);
        },
    };
    if metadata_repeats(&model.metadata) {
        return Err(deployment_error("duplicate ONNX metadata property"));
    }
    let names = spec_names(&outputs);
    let tree = tuple_of_names(&names);
    let Loader { storages, state, operations, .. } = loader;
    let program = Program::new(inputs, operations, tree);
    Ok(
        Import {
            artifact: Artifact { program, storages, state },
            outputs: names,
            inputs_property: find_property(&model.metadata, "rusttorch.inputs.v1"),
            input_tree_property: find_property(&model.metadata, "rusttorch.input_tree.v1"),
            output_tree_property: find_property(&model.metadata, "rusttorch.output_tree.v1"),
        },
    )
}

/// Why declared guard `i` is refused, if it is: it has to describe the input that the graph
/// declares, but may bound its symbols.
pub open spec fn declared_input_refusal(declared: ValueSpecView, input: ValueSpecView) -> Option<ErrorView> {
    if declared.name != input.name || declared.dtype != input.dtype || declared.dimensions.len() != input.dimensions.len() {
        Some(deployment_text("ONNX guard metadata disagrees with tensor type"@))
    } else if exists|k: int|
        0 <= k < declared.dimensions.len() && !alike(#[trigger] declared.dimensions[k], input.dimensions[k]) {
        Some(deployment_text("ONNX dimension guard mismatch"@))
    } else {
        None
    }
}

/// The check of each declared guard.
pub open spec fn declared_checks(declared: Seq<ValueSpecView>, inputs: Seq<ValueSpecView>) -> spec_fn(int) -> Option<ErrorView> {
    |i: int| declared_input_refusal(declared[i], inputs[i])
}

/// Why declared guards are refused, if they are.
pub open spec fn declared_refusal(declared: Seq<ValueSpecView>, inputs: Seq<ValueSpecView>) -> Option<ErrorView> {
    if declared.len() != inputs.len() {
        Some(deployment_text("ONNX guard metadata count mismatch"@))
    } else {
        first_at(0, declared.len() as int, declared_checks(declared, inputs))
    }
}

/// Why a declared output structure is refused, if it is: its leaves have to be the outputs.
pub open spec fn output_tree_refusal(tree: TreeView, outputs: Seq<Seq<char>>) -> Option<ErrorView> {
    match walked(tree, 0, Seq::empty()) {
        Err(e) => Some(e),
        Ok(names) => if names != outputs {
            Some(deployment_text("ONNX output tree mismatch"@))
        } else {
            None
        },
    }
}

fn dimensions_agree(a: &Vec<Dimension>, b: &Vec<Dimension>) -> (r: bool)
    requires
        a@.len() == b@.len(),
    ensures
        r == !(exists|k: int|
            0 <= k < a@.len() && !alike(#[trigger] dimensions_view(a@)[k], dimensions_view(b@)[k])),
{
    let ghost x = dimensions_view(a@);
    let ghost y = dimensions_view(b@);
    let mut k: usize = 0;
    while k < a.len()
        invariant
            x == dimensions_view(a@),
            y == dimensions_view(b@),
            a@.len() == b@.len(),
            k <= a@.len(),
            forall|j: int| 0 <= j < k ==> alike(#[trigger] x[j], y[j]),
        decreases a@.len() - k,
    {
        assert(x[k as int] == a@[k as int]@ && y[k as int] == b@[k as int]@);
        if !is_alike(&a[k], &b[k]) {
            return false;
        }
        k += 1;
    }
    true
}

impl Import {
    /// The property with the guards of the inputs, if the file has it.
    pub fn inputs_property(&self) -> (r: Option<&String>)
        ensures
            match (r, self@.inputs_property) {
                (Some(text), Some(expected)) => text@ == expected,
                (None, None) => true,
                _ => false,
            },
    {
        self.inputs_property.as_ref()
    }

    /// The property with the calling structure of the inputs, if the file has it.
    pub fn input_tree_property(&self) -> (r: Option<&String>)
        ensures
            match (r, self@.input_tree_property) {
                (Some(text), Some(expected)) => text@ == expected,
                (None, None) => true,
                _ => false,
            },
    {
        self.input_tree_property.as_ref()
    }

    /// The property with the calling structure of the outputs, if the file has it.
    pub fn output_tree_property(&self) -> (r: Option<&String>)
        ensures
            match (r, self@.output_tree_property) {
                (Some(text), Some(expected)) => text@ == expected,
                (None, None) => true,
                _ => false,
            },
    {
        self.output_tree_property.as_ref()
    }

    /// Replaces the inputs by declared guards that describe them.
    pub fn declare_inputs(self, declared: Vec<ValueSpec>) -> (r: Result<Self>)
        ensures
            refusal(r) == declared_refusal(value_specs_view(declared@), self@.artifact.program.inputs),
            r matches Ok(import) ==> import@ == (ImportView {
                artifact: ArtifactView {
                    program: ProgramView { inputs: value_specs_view(declared@), ..self@.artifact.program },
                    ..self@.artifact
                },
                ..self@
            }),
    {
        let ghost want = value_specs_view(declared@);
        let ghost start = self@;
        let program = self.artifact.program;
        proof {
            program_parts(program);
        }
        let ghost inputs = program@.inputs;
        if declared.len() != program.inputs.len() {
            return Err(deployment_error("ONNX guard metadata count mismatch"));
        }
        let ghost n = declared@.len() as int;
        let ghost checks = declared_checks(want, inputs);
        let mut i: usize = 0;
        while i < declared.len()
            invariant
                want == value_specs_view(declared@),
                inputs == value_specs_view(program.inputs@),
                n == declared@.len() == program.inputs@.len(),
                checks == declared_checks(want, inputs),
                i <= n,
                declared_refusal(want, inputs) == first_at(0, n, checks),
                first_at(0, n, checks) == first_at(i as int, n, checks),
                inputs == start.artifact.program.inputs,
                start == self@,
            decreases n - i,
        {
            let a = &declared[i];
            let b = &program.inputs[i];
            proof {
                first_at_step(i as int, n, checks);
                assert(want[i as int] == a@ && inputs[i as int] == b@);
                assert(checks(i as int) == declared_input_refusal(a@, b@));
            }
            if !same(a.name.as_str(), b.name.as_str()) || a.dtype != b.dtype || a.dimensions.len() != b.dimensions.len() {
                return Err(deployment_error("ONNX guard metadata disagrees with tensor type"));
            }
            if !dimensions_agree(&a.dimensions, &b.dimensions) {
                return Err(deployment_error("ONNX dimension guard mismatch"));
            }
            i += 1;
        }
        let Program { version, operator_version, inputs: _, input_tree, operations, output_tree } = program;
        let changed = Program { version, operator_version, inputs: declared, input_tree, operations, output_tree };
        proof {
            program_parts(changed);
        }
        Ok(
            Import {
                artifact: Artifact {
                    program: changed,
                    storages: self.artifact.storages,
                    state: self.artifact.state,
                },
                outputs: self.outputs,
                inputs_property: self.inputs_property,
                input_tree_property: self.input_tree_property,
                output_tree_property: self.output_tree_property,
            },
        )
    }

    /// Replaces the calling structure of the inputs.
    pub fn declare_input_tree(self, tree: Tree) -> (r: Self)
        ensures
            r@ == (ImportView {
                artifact: ArtifactView {
                    program: ProgramView { input_tree: tree@, ..self@.artifact.program },
                    ..self@.artifact
                },
                ..self@
            }),
    {
        let program = self.artifact.program;
        proof {
            program_parts(program);
        }
        let Program { version, operator_version, inputs, input_tree: _, operations, output_tree } = program;
        let changed = Program { version, operator_version, inputs, input_tree: tree, operations, output_tree };
        proof {
            program_parts(changed);
        }
        Import {
            artifact: Artifact { program: changed, storages: self.artifact.storages, state: self.artifact.state },
            outputs: self.outputs,
            inputs_property: self.inputs_property,
            input_tree_property: self.input_tree_property,
            output_tree_property: self.output_tree_property,
        }
    }

    /// Replaces the calling structure of the outputs by one with the same leaves.
    pub fn declare_output_tree(self, tree: Tree) -> (r: Result<Self>)
        ensures
            refusal(r) == output_tree_refusal(tree@, self@.outputs),
            r matches Ok(import) ==> import@ == (ImportView {
                artifact: ArtifactView {
                    program: ProgramView { output_tree: tree@, ..self@.artifact.program },
                    ..self@.artifact
                },
                ..self@
            }),
    {
        match tree.leaves() {
            Err(e) => {
                return Err(e);
            },
            Ok(names) => {
                if !same_texts(&names, &self.outputs) {
                    return Err(deployment_error("ONNX output tree mismatch"));
                }
            },
        }
        let program = self.artifact.program;
        proof {
            program_parts(program);
        }
        let Program { version, operator_version, inputs, input_tree, operations, output_tree: _ } = program;
        let changed = Program { version, operator_version, inputs, input_tree, operations, output_tree: tree };
        proof {
            program_parts(changed);
        }
        Ok(
            Import {
                artifact: Artifact {
                    program: changed,
                    storages: self.artifact.storages,
                    state: self.artifact.state,
                },
                outputs: self.outputs,
                inputs_property: self.inputs_property,
                input_tree_property: self.input_tree_property,
                output_tree_property: self.output_tree_property,
            },
        )
    }

    /// Validates what was read as a processor model.
    pub fn finish(self) -> (r: Result<Model>)
        ensures
            outcome(r) == model_of(self@.artifact, Device::Cpu),
            r matches Ok(model) ==> model.wf(),
    {
        Model::from_artifact(self.artifact, Device::Cpu)
    }
}

fn same_texts(a: &Vec<&str>, b: &Vec<String>) -> (r: bool)
    ensures
        r == (names_view(a@) == texts(b@)),
{
    let ghost x = names_view(a@);
    let ghost y = texts(b@);
    if a.len() != b.len() {
        assert(x.len() != y.len());
        return false;
    }
    let mut i: usize = 0;
    while i < a.len()
        invariant
            x == names_view(a@),
            y == texts(b@),
            a@.len() == b@.len(),
            i <= a@.len(),
            forall|j: int| 0 <= j < i ==> #[trigger] x[j] == y[j],
        decreases a@.len() - i,
    {
        assert(x[i as int] == a@[i as int]@ && y[i as int] == b@[i as int]@);
        if !same(a[i], b[i].as_str()) {
            return false;
        }
        i += 1;
    }
    assert(x =~= y);
    true
}

} // verus!
