//! Writing a model as the messages of a file.
use super::super::artifact::{copy_bytes, states_view, Artifact, StateView};
use super::super::evaluate::{accepted, operation_is_sound};
use super::super::infer::{all_specs, infer_specs, spec_views, StateMeta};
use super::super::layout::{byte_count, byte_size};
use super::super::program::{known_name, operator_ok};
use super::super::tree::{names_view, walked};
use super::super::types::{
    copy_texts, operation_parts, operations_view, program_parts, value_specs_view, DType, Dimension, DimensionView,
    Operation, OperationView, Operator, OperatorView, Program, ProgramView, ValueSpec, ValueSpecView,
};
use super::import::{INTS_KIND, INT_KIND, IR_VERSION, OPSET_VERSION};
use super::proto::{
    attributes_view, entrys_view, nodes_view, opsets_view, tensors_view, values_view, Attribute, AttributeView, Entry,
    EntryView, GraphProto, GraphProtoView, ModelProto, ModelProtoView, NodeProto, NodeProtoView, Opset, OpsetView,
    Payloads, TensorProto, TensorProtoView, ValueProto,
};
use super::tensor::{code, code_of, value_message, value_proto};
use crate::error::{deployment_error, deployment_text, first_at, first_at_step, outcome, refusal, texts, ErrorView, Result};
use crate::kind::Device;
use crate::names::NameMap;
use crate::tensor::copy_shape;
use crate::text::{decimal, digits_are_distinct, join, natural_text, owned};
use vstd::prelude::*;

verus! {

/// Two states are views of one storage.
pub open spec fn shares_storage(state: Seq<StateView>) -> bool {
    exists|i: int, j: int| 0 <= i < j < state.len() && (#[trigger] state[i]).storage == (#[trigger] state[j]).storage
}

/// Checks that a model lies on the processor.
pub fn check_device(device: Device) -> (r: Result<()>)
    ensures
        refusal(r) == (if device == Device::Cpu {
            None
        } else {
            Some(deployment_text("ONNX export requires CPU state"@))
        }),
{
    if device == Device::Cpu {
        Ok(())
    } else {
        Err(deployment_error("ONNX export requires CPU state"))
    }
}

/// Checks that no two states are views of one storage.
pub fn check_sharing(artifact: &Artifact) -> (r: Result<()>)
    ensures
        refusal(r) == (if shares_storage(artifact@.state) {
            Some(deployment_text("ONNX cannot preserve shared state storage"@))
        } else {
            None
        }),
{
    let ghost view = artifact@.state;
    let mut i: usize = 0;
    while i < artifact.state.len()
        invariant
            view == artifact@.state,
            view == states_view(artifact.state@),
            i <= artifact.state@.len(),
            forall|a: int, b: int| 0 <= a < b < i ==> (#[trigger] view[a]).storage != (#[trigger] view[b]).storage,
        decreases artifact.state@.len() - i,
    {
        let mut j: usize = 0;
        while j < i
            invariant
                view == artifact@.state,
                view == states_view(artifact.state@),
                j <= i < artifact.state@.len(),
                forall|a: int, b: int| 0 <= a < b < i ==> (#[trigger] view[a]).storage != (#[trigger] view[b]).storage,
                forall|a: int| 0 <= a < j ==> (#[trigger] view[a]).storage != view[i as int].storage,
            decreases i - j,
        {
            assert(view[j as int] == artifact.state@[j as int]@ && view[i as int] == artifact.state@[i as int]@);
            if artifact.state[j].storage == artifact.state[i].storage {
                assert(shares_storage(view));
                return Err(deployment_error("ONNX cannot preserve shared state storage"));
            }
            j += 1;
        }
        i += 1;
    }
    Ok(())
}

/// A size to try a program with: a fixed size itself, else the smallest that is at least two
/// and within the range, or the largest of the range.
pub open spec fn sample_size(dimension: DimensionView) -> i64 {
    match dimension {
        DimensionView::Known(n) => n,
        DimensionView::Symbol { min, max, .. } => {
            let wanted = if min < 2 {
                2i64
            } else {
                min
            };
            match max {
                Some(m) => if m < wanted {
                    m
                } else {
                    wanted
                },
                None => wanted,
            }
        },
    }
}

/// The sizes to try an input with.
pub open spec fn sample_shape(spec: ValueSpecView) -> Seq<i64> {
    spec.dimensions.map_values(|d: DimensionView| sample_size(d))
}

/// The check of each sample: it may not be too large.
pub open spec fn sample_checks(inputs: Seq<ValueSpecView>) -> spec_fn(int) -> Option<ErrorView> {
    |i: int|
        match byte_size(sample_shape(inputs[i]), inputs[i].dtype) {
            Err(e) => Some(e),
            Ok(_) => None,
        }
}

/// The shapes of lists of sizes.
pub open spec fn shapes_view(shapes: Seq<Vec<i64>>) -> Seq<Seq<i64>> {
    shapes.map_values(|s: Vec<i64>| s@)
}

fn sample(spec: &ValueSpec) -> (r: Vec<i64>)
    ensures
        r@ == sample_shape(spec@),
{
    let mut out: Vec<i64> = Vec::new();
    let mut k: usize = 0;
    while k < spec.dimensions.len()
        invariant
            k <= spec.dimensions@.len(),
            out@.len() == k,
            forall|j: int| 0 <= j < k ==> #[trigger] out@[j] == sample_size(spec.dimensions@[j]@),
        decreases spec.dimensions@.len() - k,
    {
        let size: i64 = match &spec.dimensions[k] {
            Dimension::Known(n) => *n,
            Dimension::Symbol { min, max, .. } => {
                let wanted: i64 = if *min < 2 {
                    2
                } else {
                    *min
                };
                match max {
                    Some(m) => {
                        if *m < wanted {
                            *m
                        } else {
                            wanted
                        }
                    },
                    None => wanted,
                }
            },
        };
        out.push(size);
        k += 1;
    }
    assert(out@ =~= sample_shape(spec@));
    out
}

/// The shapes of the tensors with which a program is tried before it is written.
pub fn sample_shapes(inputs: &[ValueSpec]) -> (r: Result<Vec<Vec<i64>>>)
    ensures
        refusal(r) == first_at(0, inputs@.len() as int, sample_checks(value_specs_view(inputs@))),
        r matches Ok(shapes) ==> shapes_view(shapes@) == value_specs_view(inputs@).map_values(
            |s: ValueSpecView| sample_shape(s),
        ),
{
    let ghost view = value_specs_view(inputs@);
    let ghost n = inputs@.len() as int;
    let ghost checks = sample_checks(view);
    let mut out: Vec<Vec<i64>> = Vec::new();
    let mut i: usize = 0;
    while i < inputs.len()
        invariant
            view == value_specs_view(inputs@),
            n == inputs@.len(),
            checks == sample_checks(view),
            i <= n,
            out@.len() == i,
            first_at(0, n, checks) == first_at(i as int, n, checks),
            forall|j: int| 0 <= j < i ==> (#[trigger] out@[j])@ == sample_shape(view[j]),
        decreases n - i,
    {
        proof {
            first_at_step(i as int, n, checks);
            assert(view[i as int] == inputs@[i as int]@);
        }
        let shape = sample(&inputs[i]);
        if let Err(e) = byte_count(shape.as_slice(), inputs[i].dtype) {
            return Err(e);
        }
        out.push(shape);
        i += 1;
    }
    assert(shapes_view(out@) =~= view.map_values(|s: ValueSpecView| sample_shape(s)));
    Ok(out)
}

/// Name `k` of those for values that the format needs in between.
pub open spec fn spare_name(k: int) -> Seq<char> {
    "rusttorch_lowered_"@ + decimal(k)
}

/// The first spare name that is not taken.
pub open spec fn is_free(reserved: Set<Seq<char>>, k: int) -> bool {
    &&& 0 <= k
    &&& !reserved.contains(spare_name(k))
    &&& forall|j: int| 0 <= j < k ==> reserved.contains(#[trigger] spare_name(j))
}

/// The first spare name that is not taken.
pub open spec fn free_name(reserved: Set<Seq<char>>) -> Seq<char> {
    spare_name(choose|k: int| is_free(reserved, k))
}

proof fn spare_names_are_distinct(a: int, b: int)
    requires
        0 <= a,
        0 <= b,
        spare_name(a) == spare_name(b),
    ensures
        a == b,
{
    let prefix = "rusttorch_lowered_"@;
    assert((prefix + decimal(a)).skip(prefix.len() as int) =~= decimal(a));
    assert((prefix + decimal(b)).skip(prefix.len() as int) =~= decimal(b));
    digits_are_distinct(a as nat, b as nat);
}

/// A list that holds the first `n` spare names is at least as long.
proof fn spare_names_fill(list: Seq<Seq<char>>, n: nat)
    requires
        forall|j: int| 0 <= j < n ==> list.contains(#[trigger] spare_name(j)),
    ensures
        n <= list.len(),
{
    let spare = Seq::new(n, |j: int| spare_name(j));
    assert forall|i: int, j: int| 0 <= i < n && 0 <= j < n && i != j implies spare[i] != spare[j] by {
        if spare[i] == spare[j] {
            spare_names_are_distinct(i, j);
        }
    }
    assert(spare.no_duplicates());
    spare.unique_seq_to_set();
    list.lemma_cardinality_of_set();
    vstd::seq_lib::seq_to_set_is_finite(list);
    vstd::seq_lib::seq_to_set_is_finite(spare);
    assert(spare.to_set().subset_of(list.to_set())) by {
        assert forall|x: Seq<char>| spare.to_set().contains(x) implies list.to_set().contains(x) by {
            let j = spare.index_of(x);
            assert(spare[j] == x);
            assert(list.contains(spare_name(j)));
        }
    }
    vstd::set_lib::lemma_len_subset(spare.to_set(), list.to_set());
}

/// A file under construction.
pub struct Writing {
    pub nodes: Seq<NodeProtoView>,
    pub initializers: Seq<TensorProtoView>,
    pub reserved: Set<Seq<char>>,
}

/// The message of an integer attribute.
pub open spec fn int_message(name: Seq<char>, n: i64) -> AttributeView {
    AttributeView {
        name,
        kind: INT_KIND,
        int: Some(n),
        float: None,
        tensor: None,
        ints: Seq::empty(),
        payloads: Payloads::nothing(),
    }
}

/// The message of an attribute that is a list of integers.
pub open spec fn ints_message(name: Seq<char>, ints: Seq<i64>) -> AttributeView {
    AttributeView { name, kind: INTS_KIND, int: None, float: None, tensor: None, ints, payloads: Payloads::nothing() }
}

/// The message of an operation.
pub open spec fn node_message(
    name: Seq<char>,
    op: Seq<char>,
    inputs: Seq<Seq<char>>,
    attrs: Seq<AttributeView>,
) -> NodeProtoView {
    NodeProtoView {
        inputs,
        outputs: seq![name],
        name,
        op,
        attrs,
        domain: Seq::empty(),
        overload: Seq::empty(),
        devices: false,
    }
}

/// The message of a tensor with raw elements or with integer elements.
pub open spec fn tensor_message(
    name: Seq<char>,
    dtype: i32,
    dims: Seq<i64>,
    raw: Seq<u8>,
    ints64: Seq<i64>,
) -> TensorProtoView {
    TensorProtoView {
        name,
        dims,
        dtype,
        segment: false,
        external: false,
        location: 0,
        strings: false,
        uints64: false,
        floats: Seq::empty(),
        doubles: Seq::empty(),
        ints64,
        ints32: Seq::empty(),
        raw,
    }
}

/// The axes of a transposition of two of them.
pub open spec fn swapped_axes(rank: int, a: int, b: int) -> Seq<i64> {
    Seq::new(
        rank as nat,
        |i: int|
            if i == a {
                b as i64
            } else if i == b {
                a as i64
            } else {
                i as i64
            },
    )
}

/// The axis that a possibly negative number means.
pub open spec fn from_front(d: i64, rank: int) -> int {
    if d < 0 {
        rank + d
    } else {
        d as int
    }
}

/// A file under construction, or why the model cannot be written.
pub type Draft = core::result::Result<Writing, ErrorView>;

impl Writing {
    /// One more operation.
    pub open spec fn node(self, name: Seq<char>, op: Seq<char>, inputs: Seq<Seq<char>>, attrs: Seq<AttributeView>) -> Writing {
        Writing { nodes: self.nodes.push(node_message(name, op, inputs, attrs)), ..self }
    }

    /// One more taken name.
    pub open spec fn taking(self, name: Seq<char>) -> Writing {
        Writing { reserved: self.reserved.insert(name), ..self }
    }

    /// A linear transformation: the transposed weight, the product, and the sum with the bias.
    pub open spec fn linear(self, operation: OperationView) -> Writing {
        let inputs = operation.inputs;
        let transposed = free_name(self.reserved);
        let first = self.taking(transposed).node(
            transposed,
            "Transpose"@,
            seq![inputs[1]],
            seq![ints_message("perm"@, seq![1i64, 0i64])],
        );
        if inputs.len() == 3 {
            let product = free_name(first.reserved);
            first.taking(product).node(product, "MatMul"@, seq![inputs[0], transposed], Seq::empty()).node(
                operation.name,
                "Add"@,
                seq![product, inputs[2]],
                Seq::empty(),
            )
        } else {
            first.node(operation.name, "MatMul"@, seq![inputs[0], transposed], Seq::empty())
        }
    }

    /// A reshape: its shape becomes a constant.
    pub open spec fn reshape(self, operation: OperationView, shape: Seq<i64>) -> Writing {
        let name = free_name(self.reserved);
        let next = self.taking(name).node(
            operation.name,
            "Reshape"@,
            operation.inputs.push(name),
            seq![int_message("allowzero"@, 1)],
        );
        Writing {
            initializers: self.initializers.push(
                tensor_message(name, 7, seq![shape.len() as i64], Seq::empty(), shape),
            ),
            ..next
        }
    }

    /// An operation of the program.
    pub open spec fn operation(self, operation: OperationView, ranks: Map<Seq<char>, usize>) -> Draft {
        let name = operation.name;
        let inputs = operation.inputs;
        let none = Seq::<AttributeView>::empty();
        match operation.operator {
            OperatorView::Identity => Ok(self.node(name, "Identity"@, inputs, none)),
            OperatorView::Relu => Ok(self.node(name, "Relu"@, inputs, none)),
            OperatorView::Sigmoid => Ok(self.node(name, "Sigmoid"@, inputs, none)),
            OperatorView::Tanh => Ok(self.node(name, "Tanh"@, inputs, none)),
            OperatorView::Add => Ok(self.node(name, "Add"@, inputs, none)),
            OperatorView::Subtract => Ok(self.node(name, "Sub"@, inputs, none)),
            OperatorView::Multiply => Ok(self.node(name, "Mul"@, inputs, none)),
            OperatorView::Matmul => Ok(self.node(name, "MatMul"@, inputs, none)),
            OperatorView::Linear => Ok(self.linear(operation)),
            OperatorView::Reshape(shape) => Ok(self.reshape(operation, shape)),
            OperatorView::Flatten { start, end } => if start == 1 && end == -1 {
                Ok(self.node(name, "Flatten"@, inputs, seq![int_message("axis"@, 1)]))
            } else {
                Err(deployment_text("ONNX export supports flatten start1/end-1 only"@))
            },
            OperatorView::Permute(axes) => Ok(
                self.node(name, "Transpose"@, inputs, seq![ints_message("perm"@, axes)]),
            ),
            OperatorView::Transpose { dim0, dim1 } => {
                let rank = ranks[inputs[0]] as int;
                let a = from_front(dim0, rank);
                let b = from_front(dim1, rank);
                if a < 0 || b < 0 || a >= rank || b >= rank {
                    Err(deployment_text("invalid transpose axes"@))
                } else {
                    Ok(
                        self.node(
                            name,
                            "Transpose"@,
                            inputs,
                            seq![ints_message("perm"@, swapped_axes(rank, a, b))],
                        ),
                    )
                }
            },
            OperatorView::Cat(dim) => Ok(self.node(name, "Concat"@, inputs, seq![int_message("axis"@, dim)])),
            OperatorView::If { .. } => Err(deployment_text("ONNX conditional export is unsupported"@)),
        }
    }

    /// The first `n` operations of the program.
    pub open spec fn operations(self, operations: Seq<OperationView>, ranks: Map<Seq<char>, usize>, n: int) -> Draft
        decreases n,
    {
        if n <= 0 {
            Ok(self)
        } else {
            match self.operations(operations, ranks, n - 1) {
                Err(e) => Err(e),
                Ok(w) => w.operation(operations[n - 1], ranks),
            }
        }
    }
}

/// The constants of the first `n` state tensors, in name order.
pub open spec fn state_messages(
    names: Seq<Seq<char>>,
    tensors: Seq<StateMeta>,
    raws: Seq<Vec<u8>>,
    n: int,
) -> core::result::Result<Seq<TensorProtoView>, ErrorView>
    decreases n,
{
    if n <= 0 {
        Ok(Seq::empty())
    } else {
        match state_messages(names, tensors, raws, n - 1) {
            Err(e) => Err(e),
            Ok(list) => match DType::of(tensors[n - 1].kind) {
                Err(e) => Err(e),
                Ok(dtype) => match byte_size(tensors[n - 1].shape@, dtype) {
                    Err(e) => Err(e),
                    Ok(_) => Ok(
                        list.push(
                            tensor_message(
                                names[n - 1],
                                code_of(dtype),
                                tensors[n - 1].shape@,
                                raws[n - 1]@,
                                Seq::empty(),
                            ),
                        ),
                    ),
                },
            },
        }
    }
}

/// The properties of a file: the guards of its inputs and its calling structures.
pub struct Properties {
    /// The guards of the inputs, as JSON.
    pub inputs: String,
    /// The calling structure of the inputs, as JSON.
    pub input_tree: String,
    /// The calling structure of the outputs, as JSON.
    pub output_tree: String,
}

/// The metadata of a file.
pub open spec fn metadata_of(properties: Properties) -> Seq<EntryView> {
    seq![
        EntryView { key: super::import::inputs_key(), value: properties.inputs@ },
        EntryView { key: super::import::input_tree_key(), value: properties.input_tree@ },
        EntryView { key: super::import::output_tree_key(), value: properties.output_tree@ },
    ]
}

/// The messages of a model file.
pub open spec fn exported(
    program: ProgramView,
    names: Seq<Seq<char>>,
    tensors: Seq<StateMeta>,
    raws: Seq<Vec<u8>>,
    ranks: Map<Seq<char>, usize>,
    properties: Properties,
    version: Seq<char>,
) -> core::result::Result<ModelProtoView, ErrorView> {
    match state_messages(names, tensors, raws, names.len() as int) {
        Err(e) => Err(e),
        Ok(initializers) => {
            let start = Writing { nodes: Seq::empty(), initializers, reserved: ranks.dom() };
            match start.operations(program.operations, ranks, program.operations.len() as int) {
                Err(e) => Err(e),
                Ok(w) => match all_specs(program, names, tensors) {
                    Err(e) => Err(e),
                    Ok(specs) => Ok(
                        ModelProtoView {
                            ir_version: IR_VERSION,
                            producer_name: "RustTorch"@,
                            producer_version: version,
                            graph: Some(
                                GraphProtoView {
                                    nodes: w.nodes,
                                    name: "RustTorchProgram"@,
                                    initializers: w.initializers,
                                    inputs: program.inputs.map_values(|s: ValueSpecView| value_message(s)),
                                    outputs: walked(program.output_tree, 0, Seq::empty())->Ok_0.map_values(
                                        |n: Seq<char>| value_message(specs[n]),
                                    ),
                                    values: Seq::empty(),
                                    quantization: false,
                                    sparse: false,
                                },
                            ),
                            opset: seq![OpsetView { domain: Seq::empty(), version: OPSET_VERSION }],
                            metadata: metadata_of(properties),
                            training: false,
                            functions: false,
                            configuration: false,
                        },
                    ),
                },
            }
        },
    }
}

fn int_attribute(name: &str, n: i64) -> (r: Attribute)
    ensures
        r@ == int_message(name@, n),
{
    let ints: Vec<i64> = Vec::new();
    assert(ints@ =~= Seq::empty());
    Attribute { name: owned(name), kind: INT_KIND, int: Some(n), float: None, tensor: None, ints, payloads: Payloads::absent() }
}

fn ints_attribute(name: &str, ints: Vec<i64>) -> (r: Attribute)
    ensures
        r@ == ints_message(name@, ints@),
{
    Attribute { name: owned(name), kind: INTS_KIND, int: None, float: None, tensor: None, ints, payloads: Payloads::absent() }
}

fn empty_text() -> (r: String)
    ensures
        r@ == Seq::<char>::empty(),
{
    let r = String::new();
    assert(r@ =~= Seq::<char>::empty());
    r
}

fn write_node(name: &str, op: &str, inputs: Vec<String>, attrs: Vec<Attribute>) -> (r: NodeProto)
    ensures
        r@ == node_message(name@, op@, texts(inputs@), attributes_view(attrs@)),
{
    let outputs: Vec<String> = vec![owned(name)];
    assert(texts(outputs@) =~= seq![name@]);
    NodeProto {
        inputs,
        outputs,
        name: owned(name),
        op: owned(op),
        attrs,
        domain: empty_text(),
        overload: empty_text(),
        devices: false,
    }
}

fn write_tensor(name: &str, dtype: i32, dims: Vec<i64>, raw: Vec<u8>, ints64: Vec<i64>) -> (r: TensorProto)
    ensures
        r@ == tensor_message(name@, dtype, dims@, raw@, ints64@),
{
    let floats: Vec<u32> = Vec::new();
    let doubles: Vec<u64> = Vec::new();
    let ints32: Vec<i32> = Vec::new();
    assert(floats@ =~= Seq::empty() && doubles@ =~= Seq::empty() && ints32@ =~= Seq::empty());
    TensorProto {
        name: owned(name),
        dims,
        dtype,
        segment: false,
        external: false,
        location: 0,
        strings: false,
        uints64: false,
        floats,
        doubles,
        ints64,
        ints32,
        raw,
    }
}

/// A file under construction.
struct Writer {
    nodes: Vec<NodeProto>,
    initializers: Vec<TensorProto>,
    reserved: NameMap<()>,
    serial: u64,
}

impl View for Writer {
    type V = Writing;

    closed spec fn view(&self) -> Writing {
        Writing {
            nodes: nodes_view(self.nodes@),
            initializers: tensors_view(self.initializers@),
            reserved: self.reserved@.dom(),
        }
    }
}

impl Writer {
    /// All spare names in front of the next one are taken.
    spec fn wf(self) -> bool {
        &&& self.reserved.wf()
        &&& forall|j: int| 0 <= j < self.serial ==> self@.reserved.contains(#[trigger] spare_name(j))
    }

    /// Takes the first spare name that is not taken.
    fn fresh(&mut self) -> (r: String)
        requires
            old(self).wf(),
        ensures
            final(self).wf(),
            r@ == free_name(old(self)@.reserved),
            final(self)@ == old(self)@.taking(r@),
    {
        let ghost start = *self;
        let mut serial: u64 = self.serial;
        let number = natural_text(serial);
        let mut name = join("rusttorch_lowered_", number.as_str());
        proof {
            let list = self.reserved.listing();
            assert forall|j: int| 0 <= j < serial implies list.contains(#[trigger] spare_name(j)) by {
                assert(self@.reserved.contains(spare_name(j)));
            }
            spare_names_fill(list, serial as nat);
        }
        while self.reserved.contains(name.as_str())
            invariant
                *self == start,
                self.reserved.wf(),
                name@ == spare_name(serial as int),
                forall|j: int| 0 <= j < serial ==> self.reserved@.dom().contains(#[trigger] spare_name(j)),
                serial <= self.reserved.listing().len(),
            decreases self.reserved.listing().len() - serial,
        {
            proof {
                let list = self.reserved.listing();
                assert forall|j: int| 0 <= j < serial + 1 implies list.contains(#[trigger] spare_name(j)) by {
                    assert(self.reserved@.dom().contains(spare_name(j)));
                }
                spare_names_fill(list, (serial + 1) as nat);
            }
            assert(self.reserved.listing().len() <= usize::MAX) by {
                self.reserved.length_fits();
            }
            serial = serial + 1;
            let number = natural_text(serial);
            name = join("rusttorch_lowered_", number.as_str());
        }
        proof {
            let reserved = start@.reserved;
            assert(is_free(reserved, serial as int));
            let k = choose|k: int| is_free(reserved, k);
            if k < serial {
                assert(reserved.contains(spare_name(k)));
            }
            if serial < k {
                assert(reserved.contains(spare_name(serial as int)));
            }
            assert(k == serial);
        }
        self.reserved.insert(name.clone(), ());
        self.serial = serial;
        proof {
            assert(self@.reserved =~= start@.reserved.insert(name@));
            assert(self@.nodes == start@.nodes && self@.initializers == start@.initializers);
        }
        name
    }

    fn push_node(&mut self, name: &str, op: &str, inputs: Vec<String>, attrs: Vec<Attribute>)
        requires
            old(self).wf(),
        ensures
            final(self).wf(),
            final(self)@ == old(self)@.node(name@, op@, texts(inputs@), attributes_view(attrs@)),
    {
        let ghost start = self@;
        let node = write_node(name, op, inputs, attrs);
        self.nodes.push(node);
        assert(self@.nodes =~= start.nodes.push(node@));
    }

    fn write_linear(&mut self, operation: &Operation)
        requires
            old(self).wf(),
            operation@.inputs.len() == 2 || operation@.inputs.len() == 3,
        ensures
            final(self).wf(),
            final(self)@ == old(self)@.linear(operation@),
    {
        proof {
            operation_parts(*operation);
        }
        let ghost view = operation@.inputs;
        let inputs = &operation.inputs;
        proof {
            assert(view[0] == inputs@[0]@ && view[1] == inputs@[1]@);
        }
        let transposed = self.fresh();
        let weight: Vec<String> = vec![inputs[1].clone()];
        let axes: Vec<i64> = vec![1, 0];
        let attrs: Vec<Attribute> = vec![ints_attribute("perm", axes)];
        proof {
            assert(texts(weight@) =~= seq![view[1]]);
            assert(axes@ =~= seq![1i64, 0i64]);
            assert(attributes_view(attrs@) =~= seq![ints_message("perm"@, seq![1i64, 0i64])]);
        }
        self.push_node(transposed.as_str(), "Transpose", weight, attrs);
        if inputs.len() == 3 {
            assert(view[2] == inputs@[2]@);
            let product = self.fresh();
            let factors: Vec<String> = vec![inputs[0].clone(), transposed.clone()];
            let terms: Vec<String> = vec![product.clone(), inputs[2].clone()];
            let none: Vec<Attribute> = Vec::new();
            let nothing: Vec<Attribute> = Vec::new();
            proof {
                assert(texts(factors@) =~= seq![view[0], transposed@]);
                assert(texts(terms@) =~= seq![product@, view[2]]);
                assert(attributes_view(none@) =~= Seq::empty());
                assert(attributes_view(nothing@) =~= Seq::empty());
            }
            self.push_node(product.as_str(), "MatMul", factors, none);
            self.push_node(operation.name.as_str(), "Add", terms, nothing);
        } else {
            let factors: Vec<String> = vec![inputs[0].clone(), transposed.clone()];
            let none: Vec<Attribute> = Vec::new();
            proof {
                assert(texts(factors@) =~= seq![view[0], transposed@]);
                assert(attributes_view(none@) =~= Seq::empty());
            }
            self.push_node(operation.name.as_str(), "MatMul", factors, none);
        }
    }

    fn write_reshape(&mut self, operation: &Operation, shape: &Vec<i64>)
        requires
            old(self).wf(),
        ensures
            final(self).wf(),
            final(self)@ == old(self)@.reshape(operation@, shape@),
    {
        proof {
            operation_parts(*operation);
        }
        let ghost start = self@;
        let name = self.fresh();
        let dims: Vec<i64> = vec![shape.len() as i64];
        let raw: Vec<u8> = Vec::new();
        proof {
            assert(dims@ =~= seq![shape@.len() as i64]);
            assert(raw@ =~= Seq::empty());
        }
        let tensor = write_tensor(name.as_str(), 7, dims, raw, copy_shape(shape.as_slice()));
        let mut inputs = copy_texts(&operation.inputs);
        inputs.push(name.clone());
        let attrs: Vec<Attribute> = vec![int_attribute("allowzero", 1)];
        proof {
            assert(texts(inputs@) =~= operation@.inputs.push(name@));
            assert(attributes_view(attrs@) =~= seq![int_message("allowzero"@, 1)]);
        }
        self.push_node(operation.name.as_str(), "Reshape", inputs, attrs);
        let ghost before = *self;
        self.initializers.push(tensor);
        proof {
            assert(self@.initializers =~= start.initializers.push(tensor@));
            assert(self@.nodes == before@.nodes && self@.reserved == before@.reserved);
        }
    }

    fn write_transpose(&mut self, operation: &Operation, rank: usize, dim0: i64, dim1: i64) -> (r: Result<()>)
        requires
            old(self).wf(),
        ensures
            r is Ok ==> final(self).wf(),
            ({
                let a = from_front(dim0, rank as int);
                let b = from_front(dim1, rank as int);
                if a < 0 || b < 0 || a >= rank || b >= rank {
                    refusal(r) == Some(deployment_text("invalid transpose axes"@))
                } else {
                    r is Ok && final(self)@ == old(self)@.node(
                        operation@.name,
                        "Transpose"@,
                        operation@.inputs,
                        seq![ints_message("perm"@, swapped_axes(rank as int, a, b))],
                    )
                }
            }),
    {
        proof {
            operation_parts(*operation);
        }
        let a: i128 = if dim0 < 0 {
            rank as i128 + dim0 as i128
        } else {
            dim0 as i128
        };
        let b: i128 = if dim1 < 0 {
            rank as i128 + dim1 as i128
        } else {
            dim1 as i128
        };
        if a < 0 || b < 0 || a >= rank as i128 || b >= rank as i128 {
            return Err(deployment_error("invalid transpose axes"));
        }
        let a: usize = a as usize;
        let b: usize = b as usize;
        let mut axes: Vec<i64> = Vec::new();
        let mut i: usize = 0;
        while i < rank
            invariant
                i <= rank,
                a < rank,
                b < rank,
                axes@.len() == i,
                forall|j: int| 0 <= j < i ==> #[trigger] axes@[j] == swapped_axes(rank as int, a as int, b as int)[j],
            decreases rank - i,
        {
            let source: usize = if i == a {
                b
            } else if i == b {
                a
            } else {
                i
            };
            axes.push(source as i64);
            i += 1;
        }
        assert(axes@ =~= swapped_axes(rank as int, a as int, b as int));
        let attrs: Vec<Attribute> = vec![ints_attribute("perm", axes)];
        assert(attributes_view(attrs@) =~= seq![ints_message("perm"@, swapped_axes(rank as int, a as int, b as int))]);
        self.push_node(operation.name.as_str(), "Transpose", copy_texts(&operation.inputs), attrs);
        Ok(())
    }

    fn write_plain(&mut self, operation: &Operation, op: &str)
        requires
            old(self).wf(),
        ensures
            final(self).wf(),
            final(self)@ == old(self)@.node(operation@.name, op@, operation@.inputs, Seq::empty()),
    {
        proof {
            operation_parts(*operation);
        }
        let none: Vec<Attribute> = Vec::new();
        assert(attributes_view(none@) =~= Seq::empty());
        self.push_node(operation.name.as_str(), op, copy_texts(&operation.inputs), none);
    }

    fn write_with(&mut self, operation: &Operation, op: &str, attribute: Attribute)
        requires
            old(self).wf(),
        ensures
            final(self).wf(),
            final(self)@ == old(self)@.node(operation@.name, op@, operation@.inputs, seq![attribute@]),
    {
        proof {
            operation_parts(*operation);
        }
        let attrs: Vec<Attribute> = vec![attribute];
        assert(attributes_view(attrs@) =~= seq![attribute@]);
        self.push_node(operation.name.as_str(), op, copy_texts(&operation.inputs), attrs);
    }

    fn write_operation(&mut self, operation: &Operation, ranks: &NameMap<usize>) -> (r: Result<()>)
        requires
            old(self).wf(),
            ranks.wf(),
            operator_ok(operation@.operator, operation@.inputs.len() as int),
            forall|k: int| 0 <= k < operation@.inputs.len() ==> ranks@.dom().contains(#[trigger] operation@.inputs[k]),
        ensures
            r is Ok ==> final(self).wf(),
            match (r, old(self)@.operation(operation@, ranks@)) {
                (Ok(_), Ok(next)) => final(self)@ == next,
                (Err(e), Err(expected)) => e@ == expected,
                _ => false,
            },
    {
        proof {
            operation_parts(*operation);
        }
        match &operation.operator {
            Operator::Identity => {
                self.write_plain(operation, "Identity");
            },
            Operator::Relu => {
                self.write_plain(operation, "Relu");
            },
            Operator::Sigmoid => {
                self.write_plain(operation, "Sigmoid");
            },
            Operator::Tanh => {
                self.write_plain(operation, "Tanh");
            },
            Operator::Add => {
                self.write_plain(operation, "Add");
            },
            Operator::Subtract => {
                self.write_plain(operation, "Sub");
            },
            Operator::Multiply => {
                self.write_plain(operation, "Mul");
            },
            Operator::Matmul => {
                self.write_plain(operation, "MatMul");
            },
            Operator::Linear => {
                self.write_linear(operation);
            },
            Operator::Reshape(shape) => {
                self.write_reshape(operation, shape);
            },
            Operator::Flatten { start, end } => {
                if *start != 1 || *end != -1 {
                    return Err(deployment_error("ONNX export supports flatten start1/end-1 only"));
                }
                self.write_with(operation, "Flatten", int_attribute("axis", 1));
            },
            Operator::Permute(axes) => {
                self.write_with(operation, "Transpose", ints_attribute("perm", copy_shape(axes.as_slice())));
            },
            Operator::Transpose { dim0, dim1 } => {
                let ghost first = operation@.inputs[0];
                assert(first == operation.inputs@[0]@);
                assert(ranks@.dom().contains(first));
                let rank: usize = match ranks.get(operation.inputs[0].as_str()) {
                    Some(rank) => *rank,
                    None => 0,
                };
                return self.write_transpose(operation, rank, *dim0, *dim1);
            },
            Operator::Cat(dim) => {
                self.write_with(operation, "Concat", int_attribute("axis", *dim));
            },
            Operator::If { then_branch, else_branch, result } => {
                proof {
                    super::super::types::conditional_parts(*then_branch, *else_branch, *result);
                }
                return Err(deployment_error("ONNX conditional export is unsupported"));
            },
        }
        Ok(())
    }
}

proof fn operations_fail(w: Writing, operations: Seq<OperationView>, ranks: Map<Seq<char>, usize>, k: int, n: int)
    requires
        0 <= k <= n,
        w.operations(operations, ranks, k) is Err,
    ensures
        w.operations(operations, ranks, n) == w.operations(operations, ranks, k),
    decreases n - k,
{
    if k < n {
        operations_fail(w, operations, ranks, k, n - 1);
    }
}

proof fn state_messages_fail(names: Seq<Seq<char>>, tensors: Seq<StateMeta>, raws: Seq<Vec<u8>>, k: int, n: int)
    requires
        0 <= k <= n,
        state_messages(names, tensors, raws, k) is Err,
    ensures
        state_messages(names, tensors, raws, n) == state_messages(names, tensors, raws, k),
    decreases n - k,
{
    if k < n {
        state_messages_fail(names, tensors, raws, k, n - 1);
    }
}

fn write_state(state: &NameMap<StateMeta>, raws: &Vec<Vec<u8>>) -> (r: Result<Vec<TensorProto>>)
    requires
        state.wf(),
        raws@.len() == state.listing().len(),
    ensures
        match (r, state_messages(state.listing(), state.items(), raws@, raws@.len() as int)) {
            (Ok(list), Ok(expected)) => tensors_view(list@) == expected,
            (Err(e), Err(expected)) => e@ == expected,
            _ => false,
        },
{
    let ghost names = state.listing();
    let ghost tensors = state.items();
    let ghost n = raws@.len() as int;
    let mut out: Vec<TensorProto> = Vec::new();
    assert(tensors_view(out@) =~= Seq::empty());
    let mut i: usize = 0;
    while i < raws.len()
        invariant
            state.wf(),
            names == state.listing(),
            tensors == state.items(),
            n == raws@.len() == names.len(),
            i <= n,
            state_messages(names, tensors, raws@, i as int) == Ok::<Seq<TensorProtoView>, ErrorView>(tensors_view(out@)),
        decreases n - i,
    {
        proof {
            if state_messages(names, tensors, raws@, i + 1) is Err {
                state_messages_fail(names, tensors, raws@, i + 1, n);
            }
        }
        let tensor = state.item(i);
        let dtype = match DType::from_kind(tensor.kind) {
            Ok(dtype) => dtype,
            Err(e) => {
                return Err(e);
            },
        };
        if let Err(e) = byte_count(tensor.shape.as_slice(), dtype) {
            return Err(e);
        }
        let none: Vec<i64> = Vec::new();
        assert(none@ =~= Seq::empty());
        let message = write_tensor(
            state.name(i).as_str(),
            code(dtype),
            copy_shape(tensor.shape.as_slice()),
            copy_bytes(raws[i].as_slice()),
            none,
        );
        let ghost before = tensors_view(out@);
        out.push(message);
        assert(tensors_view(out@) =~= before.push(message@));
        i += 1;
    }
    Ok(out)
}

fn write_inputs(specs: &Vec<ValueSpec>) -> (r: Vec<ValueProto>)
    ensures
        values_view(r@) == value_specs_view(specs@).map_values(|s: ValueSpecView| value_message(s)),
{
    let mut out: Vec<ValueProto> = Vec::new();
    let mut i: usize = 0;
    while i < specs.len()
        invariant
            i <= specs@.len(),
            out@.len() == i,
            forall|j: int| 0 <= j < i ==> (#[trigger] out@[j])@ == value_message(specs@[j]@),
        decreases specs@.len() - i,
    {
        out.push(value_proto(&specs[i]));
        i += 1;
    }
    assert(values_view(out@) =~= value_specs_view(specs@).map_values(|s: ValueSpecView| value_message(s)));
    out
}

fn write_outputs(names: &Vec<&str>, specs: &NameMap<ValueSpec>) -> (r: Vec<ValueProto>)
    requires
        specs.wf(),
        forall|k: int| 0 <= k < names@.len() ==> specs@.dom().contains(#[trigger] names_view(names@)[k]),
    ensures
        values_view(r@) == names_view(names@).map_values(|n: Seq<char>| value_message(spec_views(specs@)[n])),
{
    let ghost view = names_view(names@);
    let ghost expected = view.map_values(|n: Seq<char>| value_message(spec_views(specs@)[n]));
    let mut out: Vec<ValueProto> = Vec::new();
    let mut i: usize = 0;
    while i < names.len()
        invariant
            specs.wf(),
            view == names_view(names@),
            expected == view.map_values(|n: Seq<char>| value_message(spec_views(specs@)[n])),
            forall|k: int| 0 <= k < names@.len() ==> specs@.dom().contains(#[trigger] view[k]),
            i <= names@.len(),
            out@.len() == i,
            forall|j: int| 0 <= j < i ==> (#[trigger] out@[j])@ == expected[j],
        decreases names@.len() - i,
    {
        assert(view[i as int] == names@[i as int]@);
        assert(specs@.dom().contains(view[i as int]));
        match specs.get(names[i]) {
            Some(spec) => {
                out.push(value_proto(spec));
            },
            None => {},
        }
        i += 1;
    }
    assert(values_view(out@) =~= expected);
    out
}

/// Writes a model as the messages of a file. `raws` are the elements of the state tensors in
/// name order; `ranks` tells the rank of every value of the program; `version` is that of the
/// writing program.
pub fn save(
    program: &Program,
    state: &NameMap<StateMeta>,
    raws: &Vec<Vec<u8>>,
    ranks: &NameMap<usize>,
    properties: Properties,
    version: &str,
) -> (r: Result<ModelProto>)
    requires
        state.wf(),
        ranks.wf(),
        accepted(program@, state@.dom()),
        raws@.len() == state.listing().len(),
        forall|name: Seq<char>| #[trigger]
            known_name(
                program@.inputs,
                program@.operations,
                state@.dom(),
                program@.operations.len() as int,
                name,
            ) ==> ranks@.dom().contains(name),
    ensures
        outcome(r) == exported(program@, state.listing(), state.items(), raws@, ranks@, properties, version@),
{
    let ghost view = program@;
    let ghost known = state@.dom();
    proof {
        program_parts(*program);
    }
    let initializers = match write_state(state, raws) {
        Ok(initializers) => initializers,
        Err(e) => {
            return Err(e);
        },
    };
    let reserved = names_only(ranks);
    let nodes: Vec<NodeProto> = Vec::new();
    let mut writer = Writer { nodes, initializers, reserved, serial: 0 };
    assert(writer@.nodes =~= Seq::empty());
    let ghost start = writer@;
    let ghost n = view.operations.len() as int;
    let mut i: usize = 0;
    while i < program.operations.len()
        invariant
            ranks.wf(),
            view == program@,
            view.operations == operations_view(program.operations@),
            accepted(view, known),
            n == view.operations.len(),
            i <= n,
            writer.wf(),
            start.operations(view.operations, ranks@, i as int) == Ok::<Writing, ErrorView>(writer@),
            forall|name: Seq<char>| #[trigger]
                known_name(view.inputs, view.operations, known, n, name) ==> ranks@.dom().contains(name),
            ({
                let initial = state_messages(state.listing(), state.items(), raws@, raws@.len() as int);
                initial is Ok && start == (Writing { nodes: Seq::empty(), initializers: initial->Ok_0, reserved: ranks@.dom() })
            }),
            raws@.len() == state.listing().len(),
        decreases n - i,
    {
        let operation = &program.operations[i];
        proof {
            assert(view.operations[i as int] == operation@);
            operation_is_sound(view, known, i as int);
            if start.operations(view.operations, ranks@, i + 1) is Err {
                operations_fail(start, view.operations, ranks@, i + 1, n);
            }
            assert forall|k: int| 0 <= k < operation@.inputs.len() implies ranks@.dom().contains(
                #[trigger] operation@.inputs[k],
            ) by {
                let name = operation@.inputs[k];
                assert(known_name(view.inputs, view.operations, known, i as int, name));
                known_later(view.inputs, view.operations, known, i as int, n, name);
            }
        }
        if let Err(e) = writer.write_operation(operation, ranks) {
            return Err(e);
        }
        i += 1;
    }
    let specs = match infer_specs(program, state) {
        Ok(specs) => specs,
        Err(e) => {
            return Err(e);
        },
    };
    proof {
        super::super::evaluate::outputs_are_sound(view, known);
        super::super::infer::all_specs_have(view, *state);
    }
    let outputs = match program.output_tree.leaves() {
        Ok(names) => {
            proof {
                let list = names_view(names@);
                assert forall|k: int| 0 <= k < names@.len() implies specs@.dom().contains(#[trigger] list[k]) by {
                    let name = walked(view.output_tree, 0, Seq::empty())->Ok_0[k];
                    assert(known_name(view.inputs, view.operations, known, n, name));
                    assert(spec_views(specs@).dom().contains(name));
                }
            }
            write_outputs(&names, &specs)
        },
        Err(e) => {
            return Err(e);
        },
    };
    let inputs = write_inputs(&program.inputs);
    let Writer { nodes, initializers, .. } = writer;
    let values: Vec<ValueProto> = Vec::new();
    let opset: Vec<Opset> = vec![Opset { domain: empty_text(), version: OPSET_VERSION }];
    let metadata: Vec<Entry> = vec![
        Entry { key: owned("rusttorch.inputs.v1"), value: properties.inputs },
        Entry { key: owned("rusttorch.input_tree.v1"), value: properties.input_tree },
        Entry { key: owned("rusttorch.output_tree.v1"), value: properties.output_tree },
    ];
    proof {
        assert(values_view(values@) =~= Seq::empty());
        assert(opsets_view(opset@) =~= seq![OpsetView { domain: Seq::empty(), version: OPSET_VERSION }]);
        assert(entrys_view(metadata@) =~= metadata_of(properties));
    }
    Ok(
        ModelProto {
            ir_version: IR_VERSION,
            producer_name: owned("RustTorch"),
            producer_version: owned(version),
            graph: Some(
                GraphProto {
                    nodes,
                    name: owned("RustTorchProgram"),
                    initializers,
                    inputs,
                    outputs,
                    values,
                    quantization: false,
                    sparse: false,
                },
            ),
            opset,
            metadata,
            training: false,
            functions: false,
            configuration: false,
        },
    )
}

/// What is known early is known later.
proof fn known_later(
    inputs: Seq<ValueSpecView>,
    operations: Seq<OperationView>,
    state: Set<Seq<char>>,
    i: int,
    n: int,
    name: Seq<char>,
)
    requires
        known_name(inputs, operations, state, i, name),
        i <= n,
    ensures
        known_name(inputs, operations, state, n, name),
{
    if exists|j: int| 0 <= j < i && (#[trigger] operations[j]).name == name {
        let j = choose|j: int| 0 <= j < i && (#[trigger] operations[j]).name == name;
        assert(0 <= j < n && operations[j].name == name);
    }
}

/// The names of a map.
fn names_only(map: &NameMap<usize>) -> (r: NameMap<()>)
    requires
        map.wf(),
    ensures
        r.wf(),
        r@.dom() == map@.dom(),
{
    let ghost list = map.listing();
    let mut names: NameMap<()> = NameMap::new();
    let mut i: usize = 0;
    while i < map.len()
        invariant
            map.wf(),
            list == map.listing(),
            i <= list.len(),
            names.wf(),
            forall|name: Seq<char>| #[trigger]
                names@.dom().contains(name) <==> exists|j: int| 0 <= j < i && #[trigger] list[j] == name,
        decreases list.len() - i,
    {
        let ghost earlier = names@;
        names.insert(map.name(i).clone(), ());
        proof {
            assert forall|name: Seq<char>| #[trigger]
                names@.dom().contains(name) <==> exists|j: int| 0 <= j < i + 1 && #[trigger] list[j] == name by {
                if name == list[i as int] {
                    assert(list[i as int] == name);
                } else {
                    assert(names@.dom().contains(name) == earlier.dom().contains(name));
                    if exists|j: int| 0 <= j < i + 1 && #[trigger] list[j] == name {
                        let j = choose|j: int| 0 <= j < i + 1 && #[trigger] list[j] == name;
                        assert(j != i);
                    }
                }
            }
        }
        i += 1;
    }
    proof {
        assert forall|name: Seq<char>| names@.dom().contains(name) <==> map@.dom().contains(name) by {
            if map@.dom().contains(name) {
                map.map_is_listed(name);
            }
            if names@.dom().contains(name) {
                let j = choose|j: int| 0 <= j < list.len() && #[trigger] list[j] == name;
                map.entry_in_map(j);
            }
        }
        assert(names@.dom() =~= map@.dom());
    }
    names
}

/// Checks the length of a file.
pub fn check_length(length: usize) -> (r: Result<()>)
    ensures
        refusal(r) == (if length > super::super::layout::MAX_BYTES {
            Some(deployment_text("ONNX output exceeds size limit"@))
        } else {
            None
        }),
{
    if length > super::super::layout::MAX_BYTES {
        Err(deployment_error("ONNX output exceeds size limit"))
    } else {
        Ok(())
    }
}

} // verus!
