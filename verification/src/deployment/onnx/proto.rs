//! The messages of the format that the library reads and writes.
//!
//! Fields that only have to be absent are told by a flag. Floating-point numbers are held as
//! the bits that encode them.
use crate::error::texts;
use crate::tensor::copy_shape;
use vstd::prelude::*;

verus! {

/// Attribute payloads that the library does not read. Each flag tells that one is present.
#[derive(Debug, Clone, Copy, PartialEq, Eq, Structural)]
pub struct Payloads {
    /// A reference to an attribute of an enclosing function.
    pub reference: bool,
    /// A subgraph.
    pub graph: bool,
    /// A type.
    pub type_proto: bool,
    /// A sparse tensor.
    pub sparse: bool,
    /// A list of subgraphs.
    pub graphs: bool,
    /// A list of types.
    pub type_protos: bool,
    /// A list of sparse tensors.
    pub sparse_tensors: bool,
    /// A list of tensors.
    pub tensors: bool,
    /// A list of strings.
    pub strings: bool,
    /// A string.
    pub string: bool,
    /// A list of floating-point numbers.
    pub floats: bool,
}

impl Payloads {
    /// Some payload is present.
    pub open spec fn present(self) -> bool {
        self.reference || self.graph || self.type_proto || self.sparse || self.graphs || self.type_protos || self.sparse_tensors
            || self.tensors || self.strings || self.string || self.floats
    }

    /// Whether some payload is present.
    pub fn any(self) -> (r: bool)
        ensures
            r == self.present(),
    {
        self.reference || self.graph || self.type_proto || self.sparse || self.graphs || self.type_protos || self.sparse_tensors
            || self.tensors || self.strings || self.string || self.floats
    }

    /// No payload is present.
    pub open spec fn nothing() -> Payloads {
        Payloads {
            reference: false,
            graph: false,
            type_proto: false,
            sparse: false,
            graphs: false,
            type_protos: false,
            sparse_tensors: false,
            tensors: false,
            strings: false,
            string: false,
            floats: false,
        }
    }

    /// No payload.
    pub fn absent() -> (r: Payloads)
        ensures
            r == Payloads::nothing(),
    {
        Payloads {
            reference: false,
            graph: false,
            type_proto: false,
            sparse: false,
            graphs: false,
            type_protos: false,
            sparse_tensors: false,
            tensors: false,
            strings: false,
            string: false,
            floats: false,
        }
    }
}

/// Value types other than dense tensors. Each flag tells that one is present.
#[derive(Debug, Clone, Copy, PartialEq, Eq, Structural)]
pub struct Kinds {
    /// A sequence.
    pub sequence: bool,
    /// A map.
    pub map: bool,
    /// An opaque type.
    pub opaque: bool,
    /// A sparse tensor.
    pub sparse: bool,
    /// An optional value.
    pub optional: bool,
}

impl Kinds {
    /// Some other type is present.
    pub open spec fn present(self) -> bool {
        self.sequence || self.map || self.opaque || self.sparse || self.optional
    }

    /// Whether some other type is present.
    pub fn any(self) -> (r: bool)
        ensures
            r == self.present(),
    {
        self.sequence || self.map || self.opaque || self.sparse || self.optional
    }
}

/// A tensor with its elements.
#[derive(Debug)]
pub struct TensorProto {
    /// Its name.
    pub name: String,
    /// The size of each axis.
    pub dims: Vec<i64>,
    /// The code of the element type.
    pub dtype: i32,
    /// Whether this is a segment of a larger tensor.
    pub segment: bool,
    /// Whether the elements are stored elsewhere.
    pub external: bool,
    /// Where the elements are stored; `0` is here.
    pub location: i32,
    /// Whether there are string elements.
    pub strings: bool,
    /// Whether there are unsigned elements.
    pub uints64: bool,
    /// Single-precision elements, as bits.
    pub floats: Vec<u32>,
    /// Double-precision elements, as bits.
    pub doubles: Vec<u64>,
    /// Integer elements.
    pub ints64: Vec<i64>,
    /// Small integer or Boolean elements.
    pub ints32: Vec<i32>,
    /// The elements as little-endian bytes.
    pub raw: Vec<u8>,
}

/// The content of a [`TensorProto`].
#[verifier::ext_equal]
pub struct TensorProtoView {
    pub name: Seq<char>,
    pub dims: Seq<i64>,
    pub dtype: i32,
    pub segment: bool,
    pub external: bool,
    pub location: i32,
    pub strings: bool,
    pub uints64: bool,
    pub floats: Seq<u32>,
    pub doubles: Seq<u64>,
    pub ints64: Seq<i64>,
    pub ints32: Seq<i32>,
    pub raw: Seq<u8>,
}

impl View for TensorProto {
    type V = TensorProtoView;

    open spec fn view(&self) -> TensorProtoView {
        TensorProtoView {
            name: self.name@,
            dims: self.dims@,
            dtype: self.dtype,
            segment: self.segment,
            external: self.external,
            location: self.location,
            strings: self.strings,
            uints64: self.uints64,
            floats: self.floats@,
            doubles: self.doubles@,
            ints64: self.ints64@,
            ints32: self.ints32@,
            raw: self.raw@,
        }
    }
}

/// A named constant of an operation.
#[derive(Debug)]
pub struct Attribute {
    /// Its name.
    pub name: String,
    /// The code of its type.
    pub kind: i32,
    /// An integer.
    pub int: Option<i64>,
    /// A single-precision number, as bits.
    pub float: Option<u32>,
    /// A tensor.
    pub tensor: Option<TensorProto>,
    /// A list of integers.
    pub ints: Vec<i64>,
    /// Payloads of other types.
    pub payloads: Payloads,
}

/// The content of a [`Attribute`].
#[verifier::ext_equal]
pub struct AttributeView {
    pub name: Seq<char>,
    pub kind: i32,
    pub int: Option<i64>,
    pub float: Option<u32>,
    pub tensor: Option<TensorProtoView>,
    pub ints: Seq<i64>,
    pub payloads: Payloads,
}

impl View for Attribute {
    type V = AttributeView;

    open spec fn view(&self) -> AttributeView {
        AttributeView {
            name: self.name@,
            kind: self.kind,
            int: self.int,
            float: self.float,
            tensor: match self.tensor {
                Some(part) => Some(part@),
                None => None,
            },
            ints: self.ints@,
            payloads: self.payloads,
        }
    }
}

/// An operation.
#[derive(Debug)]
pub struct NodeProto {
    /// The names of its operands.
    pub inputs: Vec<String>,
    /// The names of its results.
    pub outputs: Vec<String>,
    /// Its own name.
    pub name: String,
    /// The name of its operator.
    pub op: String,
    /// Its constants.
    pub attrs: Vec<Attribute>,
    /// The operator set; empty for the default one.
    pub domain: String,
    /// The variant of the operator.
    pub overload: String,
    /// Whether it is bound to devices.
    pub devices: bool,
}

/// The content of a [`NodeProto`].
#[verifier::ext_equal]
pub struct NodeProtoView {
    pub inputs: Seq<Seq<char>>,
    pub outputs: Seq<Seq<char>>,
    pub name: Seq<char>,
    pub op: Seq<char>,
    pub attrs: Seq<AttributeView>,
    pub domain: Seq<char>,
    pub overload: Seq<char>,
    pub devices: bool,
}

impl View for NodeProto {
    type V = NodeProtoView;

    open spec fn view(&self) -> NodeProtoView {
        NodeProtoView {
            inputs: texts(self.inputs@),
            outputs: texts(self.outputs@),
            name: self.name@,
            op: self.op@,
            attrs: attributes_view(self.attrs@),
            domain: self.domain@,
            overload: self.overload@,
            devices: self.devices,
        }
    }
}

/// One dimension of a value.
#[derive(Debug)]
pub struct DimProto {
    /// A fixed size.
    pub value: Option<i64>,
    /// A named size.
    pub symbol: Option<String>,
}

/// The content of a [`DimProto`].
#[verifier::ext_equal]
pub struct DimProtoView {
    pub value: Option<i64>,
    pub symbol: Option<Seq<char>>,
}

impl View for DimProto {
    type V = DimProtoView;

    open spec fn view(&self) -> DimProtoView {
        DimProtoView {
            value: self.value,
            symbol: match self.symbol {
                Some(text) => Some(text@),
                None => None,
            },
        }
    }
}

/// The type of a dense tensor.
#[derive(Debug)]
pub struct TensorType {
    /// The code of the element type.
    pub dtype: i32,
    /// The dimensions, if the rank is known.
    pub shape: Option<Vec<DimProto>>,
}

/// The content of a [`TensorType`].
#[verifier::ext_equal]
pub struct TensorTypeView {
    pub dtype: i32,
    pub shape: Option<Seq<DimProtoView>>,
}

impl View for TensorType {
    type V = TensorTypeView;

    open spec fn view(&self) -> TensorTypeView {
        TensorTypeView {
            dtype: self.dtype,
            shape: match self.shape {
                Some(list) => Some(dims_view(list@)),
                None => None,
            },
        }
    }
}

/// The type of a value.
#[derive(Debug)]
pub struct TypeProto {
    /// A dense tensor.
    pub tensor: Option<TensorType>,
    /// Other types.
    pub kinds: Kinds,
}

/// The content of a [`TypeProto`].
#[verifier::ext_equal]
pub struct TypeProtoView {
    pub tensor: Option<TensorTypeView>,
    pub kinds: Kinds,
}

impl View for TypeProto {
    type V = TypeProtoView;

    open spec fn view(&self) -> TypeProtoView {
        TypeProtoView {
            tensor: match self.tensor {
                Some(part) => Some(part@),
                None => None,
            },
            kinds: self.kinds,
        }
    }
}

/// A named value.
#[derive(Debug)]
pub struct ValueProto {
    /// Its name.
    pub name: String,
    /// Its type.
    pub ty: Option<TypeProto>,
}

/// The content of a [`ValueProto`].
#[verifier::ext_equal]
pub struct ValueProtoView {
    pub name: Seq<char>,
    pub ty: Option<TypeProtoView>,
}

impl View for ValueProto {
    type V = ValueProtoView;

    open spec fn view(&self) -> ValueProtoView {
        ValueProtoView {
            name: self.name@,
            ty: match self.ty {
                Some(part) => Some(part@),
                None => None,
            },
        }
    }
}

/// A graph.
#[derive(Debug)]
pub struct GraphProto {
    /// The operations in execution order.
    pub nodes: Vec<NodeProto>,
    /// Its name.
    pub name: String,
    /// Named constant tensors.
    pub initializers: Vec<TensorProto>,
    /// The inputs.
    pub inputs: Vec<ValueProto>,
    /// The outputs.
    pub outputs: Vec<ValueProto>,
    /// Types of intermediate values.
    pub values: Vec<ValueProto>,
    /// Whether values are quantized.
    pub quantization: bool,
    /// Whether there are sparse constants.
    pub sparse: bool,
}

/// The content of a [`GraphProto`].
#[verifier::ext_equal]
pub struct GraphProtoView {
    pub nodes: Seq<NodeProtoView>,
    pub name: Seq<char>,
    pub initializers: Seq<TensorProtoView>,
    pub inputs: Seq<ValueProtoView>,
    pub outputs: Seq<ValueProtoView>,
    pub values: Seq<ValueProtoView>,
    pub quantization: bool,
    pub sparse: bool,
}

impl View for GraphProto {
    type V = GraphProtoView;

    open spec fn view(&self) -> GraphProtoView {
        GraphProtoView {
            nodes: nodes_view(self.nodes@),
            name: self.name@,
            initializers: tensors_view(self.initializers@),
            inputs: values_view(self.inputs@),
            outputs: values_view(self.outputs@),
            values: values_view(self.values@),
            quantization: self.quantization,
            sparse: self.sparse,
        }
    }
}

/// An operator set.
#[derive(Debug)]
pub struct Opset {
    /// Its domain; empty for the default one.
    pub domain: String,
    /// Its version.
    pub version: i64,
}

/// The content of a [`Opset`].
#[verifier::ext_equal]
pub struct OpsetView {
    pub domain: Seq<char>,
    pub version: i64,
}

impl View for Opset {
    type V = OpsetView;

    open spec fn view(&self) -> OpsetView {
        OpsetView {
            domain: self.domain@,
            version: self.version,
        }
    }
}

/// A metadata property.
#[derive(Debug)]
pub struct Entry {
    /// Its name.
    pub key: String,
    /// Its content.
    pub value: String,
}

/// The content of a [`Entry`].
#[verifier::ext_equal]
pub struct EntryView {
    pub key: Seq<char>,
    pub value: Seq<char>,
}

impl View for Entry {
    type V = EntryView;

    open spec fn view(&self) -> EntryView {
        EntryView {
            key: self.key@,
            value: self.value@,
        }
    }
}

/// A model file.
#[derive(Debug)]
pub struct ModelProto {
    /// The version of the format.
    pub ir_version: i64,
    /// The program that wrote it.
    pub producer_name: String,
    /// The version of that program.
    pub producer_version: String,
    /// The graph.
    pub graph: Option<GraphProto>,
    /// The operator sets it uses.
    pub opset: Vec<Opset>,
    /// Metadata properties.
    pub metadata: Vec<Entry>,
    /// Whether there is training information.
    pub training: bool,
    /// Whether there are functions.
    pub functions: bool,
    /// Whether there are device configurations.
    pub configuration: bool,
}

/// The content of a [`ModelProto`].
#[verifier::ext_equal]
pub struct ModelProtoView {
    pub ir_version: i64,
    pub producer_name: Seq<char>,
    pub producer_version: Seq<char>,
    pub graph: Option<GraphProtoView>,
    pub opset: Seq<OpsetView>,
    pub metadata: Seq<EntryView>,
    pub training: bool,
    pub functions: bool,
    pub configuration: bool,
}

impl View for ModelProto {
    type V = ModelProtoView;

    open spec fn view(&self) -> ModelProtoView {
        ModelProtoView {
            ir_version: self.ir_version,
            producer_name: self.producer_name@,
            producer_version: self.producer_version@,
            graph: match self.graph {
                Some(part) => Some(part@),
                None => None,
            },
            opset: opsets_view(self.opset@),
            metadata: entrys_view(self.metadata@),
            training: self.training,
            functions: self.functions,
            configuration: self.configuration,
        }
    }
}

/// The contents of a list of messages.
pub open spec fn attributes_view(list: Seq<Attribute>) -> Seq<AttributeView> {
    list.map_values(|m: Attribute| m@)
}

/// The contents of a list of messages.
pub open spec fn dims_view(list: Seq<DimProto>) -> Seq<DimProtoView> {
    list.map_values(|m: DimProto| m@)
}

/// The contents of a list of messages.
pub open spec fn entrys_view(list: Seq<Entry>) -> Seq<EntryView> {
    list.map_values(|m: Entry| m@)
}

/// The contents of a list of messages.
pub open spec fn nodes_view(list: Seq<NodeProto>) -> Seq<NodeProtoView> {
    list.map_values(|m: NodeProto| m@)
}

/// The contents of a list of messages.
pub open spec fn opsets_view(list: Seq<Opset>) -> Seq<OpsetView> {
    list.map_values(|m: Opset| m@)
}

/// The contents of a list of messages.
pub open spec fn tensors_view(list: Seq<TensorProto>) -> Seq<TensorProtoView> {
    list.map_values(|m: TensorProto| m@)
}

/// The contents of a list of messages.
pub open spec fn values_view(list: Seq<ValueProto>) -> Seq<ValueProtoView> {
    list.map_values(|m: ValueProto| m@)
}

fn copy_bits32(bits: &Vec<u32>) -> (r: Vec<u32>)
    ensures
        r@ == bits@,
{
    let mut out: Vec<u32> = Vec::new();
    let mut i: usize = 0;
    while i < bits.len()
        invariant
            i <= bits@.len(),
            out@ == bits@.take(i as int),
        decreases bits@.len() - i,
    {
        out.push(bits[i]);
        assert(out@ =~= bits@.take(i as int + 1));
        i += 1;
    }
    assert(out@ =~= bits@);
    out
}

fn copy_bits64(bits: &Vec<u64>) -> (r: Vec<u64>)
    ensures
        r@ == bits@,
{
    let mut out: Vec<u64> = Vec::new();
    let mut i: usize = 0;
    while i < bits.len()
        invariant
            i <= bits@.len(),
            out@ == bits@.take(i as int),
        decreases bits@.len() - i,
    {
        out.push(bits[i]);
        assert(out@ =~= bits@.take(i as int + 1));
        i += 1;
    }
    assert(out@ =~= bits@);
    out
}

fn copy_small(list: &Vec<i32>) -> (r: Vec<i32>)
    ensures
        r@ == list@,
{
    let mut out: Vec<i32> = Vec::new();
    let mut i: usize = 0;
    while i < list.len()
        invariant
            i <= list@.len(),
            out@ == list@.take(i as int),
        decreases list@.len() - i,
    {
        out.push(list[i]);
        assert(out@ =~= list@.take(i as int + 1));
        i += 1;
    }
    assert(out@ =~= list@);
    out
}

impl TensorProto {
    /// Copies a tensor under a name.
    pub fn named(&self, name: &str) -> (r: TensorProto)
        ensures
            r@ == (TensorProtoView { name: name@, ..self@ }),
    {
        TensorProto {
            name: name.to_owned(),
            dims: copy_shape(self.dims.as_slice()),
            dtype: self.dtype,
            segment: self.segment,
            external: self.external,
            location: self.location,
            strings: self.strings,
            uints64: self.uints64,
            floats: copy_bits32(&self.floats),
            doubles: copy_bits64(&self.doubles),
            ints64: copy_shape(self.ints64.as_slice()),
            ints32: copy_small(&self.ints32),
            raw: super::super::artifact::copy_bytes(self.raw.as_slice()),
        }
    }
}

} // verus!
