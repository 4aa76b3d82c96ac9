//! Models in the ONNX format.
use rusttorch::deployment::infer::StateMeta;
use rusttorch::deployment::onnx::export::{check_device, check_length, sample_shapes, save, Properties};
use rusttorch::deployment::onnx::import::load;
use rusttorch::deployment::onnx::proto::{ModelProto, TensorProto};
use rusttorch::deployment::onnx::tensor::{code, dtype, raw_tensor, value_proto, value_spec};
use rusttorch::deployment::onnx::wire::{preflight, Schema, MAX_FIELDS};
use rusttorch::deployment::{DType, Dimension, Operation, Operator, Program, StateRole, Tree, ValueSpec};
use rusttorch::error::RustTorchError;
use rusttorch::kind::{Device, Kind};
use rusttorch::names::NameMap;

fn text(error: RustTorchError) -> String {
    match error {
        RustTorchError::GraphValidation(text) => text,
        other => panic!("{other:?}"),
    }
}

fn named(names: &[&str]) -> Vec<String> {
    names.iter().map(|name| name.to_string()).collect()
}

fn properties() -> Properties {
    Properties { inputs: "i".to_string(), input_tree: "t".to_string(), output_tree: "o".to_string() }
}

fn written(operations: Vec<Operation>, output: &str, ranks: &[(&str, usize)]) -> Result<ModelProto, RustTorchError> {
    let inputs = vec![ValueSpec::new(
        "x",
        DType::Float,
        vec![Dimension::Symbol { name: "n".to_string(), min: 1, max: None }, Dimension::Known(3)],
    )];
    let program = Program::new(inputs, operations, Tree::Tensor(output.to_string()));
    let mut state = NameMap::new();
    state.insert("bias".to_string(), StateMeta { kind: Kind::Float, shape: vec![2] });
    state.insert("weight".to_string(), StateMeta { kind: Kind::Float, shape: vec![2, 3] });
    let mut all = NameMap::new();
    for (name, rank) in [("x", 2), ("bias", 1), ("weight", 2)].iter().chain(ranks) {
        all.insert(name.to_string(), *rank);
    }
    save(&program, &state, &vec![vec![2; 8], vec![1; 24]], &all, properties(), "1.0")
}

#[test]
fn a_written_model_is_read_back() {
    let operations = vec![
        Operation::new("a", Operator::Relu, named(&["x"])),
        Operation::new("b", Operator::Transpose { dim0: 0, dim1: -1 }, named(&["a"])),
        Operation::new("c", Operator::Reshape(vec![3, -1]), named(&["b"])),
        Operation::new("d", Operator::Cat(0), named(&["c", "c"])),
        Operation::new("e", Operator::Flatten { start: 1, end: -1 }, named(&["d"])),
    ];
    let model = written(operations, "e", &[("a", 2), ("b", 2), ("c", 2), ("d", 2), ("e", 2)]).unwrap();
    let import = load(&model).unwrap();
    assert_eq!(import.inputs_property().unwrap(), "i");
    assert_eq!(import.input_tree_property().unwrap(), "t");
    assert_eq!(import.output_tree_property().unwrap(), "o");
    let read = import.finish().unwrap();
    assert_eq!(
        read.program().operations,
        vec![
            Operation::new("a", Operator::Relu, named(&["x"])),
            Operation::new("b", Operator::Permute(vec![1, 0]), named(&["a"])),
            Operation::new("c", Operator::Reshape(vec![3, -1]), named(&["b"])),
            Operation::new("d", Operator::Cat(0), named(&["c", "c"])),
            Operation::new("e", Operator::Flatten { start: 1, end: -1 }, named(&["d"])),
        ]
    );
    let state = &read.artifact().state;
    assert_eq!(state[0].name, "bias");
    assert_eq!(state[1].name, "weight");
    assert_eq!(state[1].role, StateRole::Constant);
    assert_eq!(state[1].strides, vec![3, 1]);
    assert_eq!(read.artifact().storages[1].bytes, vec![1; 24]);
    assert_eq!(state[2].name, "rusttorch_lowered_0");
    assert_eq!(read.artifact().storages[2].dtype, DType::Int64);
}

#[test]
fn linear_transformations_are_written_in_parts() {
    let operations = vec![Operation::new("y", Operator::Linear, named(&["x", "weight", "bias"]))];
    let model = written(operations, "y", &[("y", 2)]).unwrap();
    let read = load(&model).unwrap().finish().unwrap();
    assert_eq!(
        read.program().operations,
        vec![
            Operation::new("rusttorch_lowered_0", Operator::Permute(vec![1, 0]), named(&["weight"])),
            Operation::new("rusttorch_lowered_1", Operator::Matmul, named(&["x", "rusttorch_lowered_0"])),
            Operation::new("y", Operator::Add, named(&["rusttorch_lowered_1", "bias"])),
        ]
    );
}

#[test]
fn unsupported_exports_are_refused() {
    let flat = vec![Operation::new("y", Operator::Flatten { start: 0, end: -1 }, named(&["x"]))];
    let error = written(flat, "y", &[("y", 1)]).err().unwrap();
    assert!(text(error).contains("ONNX export supports flatten start1/end-1 only"));
    assert!(text(check_device(Device::Mps).unwrap_err()).contains("ONNX export requires CPU state"));
    assert!(check_length(usize::MAX).is_err());
    let spec = ValueSpec::new(
        "x",
        DType::Float,
        vec![Dimension::Symbol { name: "n".to_string(), min: 0, max: Some(1) }, Dimension::Known(4)],
    );
    assert_eq!(sample_shapes(&[spec]).unwrap(), vec![vec![1, 4]]);
}

#[test]
fn frames_and_nodes_are_checked() {
    let operations = || vec![Operation::new("y", Operator::Relu, named(&["x"]))];
    let mut model = written(operations(), "y", &[("y", 2)]).unwrap();
    model.ir_version = 9;
    assert!(text(load(&model).err().unwrap()).contains("ONNX requires IR10 and default-domain opset18"));
    let mut model = written(operations(), "y", &[("y", 2)]).unwrap();
    model.graph.as_mut().unwrap().nodes[0].op = "Erf".to_string();
    assert!(text(load(&model).err().unwrap()).contains("unsupported ONNX operator Erf"));
    let mut model = written(operations(), "y", &[("y", 2)]).unwrap();
    model.graph.as_mut().unwrap().nodes[0].inputs = named(&["nowhere"]);
    assert!(text(load(&model).err().unwrap()).contains("ONNX duplicate result or non-topological operand"));
    let mut model = written(operations(), "y", &[("y", 2)]).unwrap();
    model.graph = None;
    assert!(text(load(&model).err().unwrap()).contains("missing ONNX graph"));
}

#[test]
fn values_keep_all_but_the_ranges_of_symbols() {
    for kind in [DType::Float, DType::Double, DType::Int64, DType::Bool] {
        assert_eq!(dtype(code(kind)).unwrap(), kind);
    }
    assert!(text(dtype(2).unwrap_err()).contains("unsupported ONNX dtype 2"));
    let spec = ValueSpec::new(
        "v",
        DType::Bool,
        vec![Dimension::Known(4), Dimension::Symbol { name: "n".to_string(), min: 3, max: Some(5) }],
    );
    let read = value_spec(&value_proto(&spec)).unwrap();
    assert_eq!(read.name, "v");
    assert_eq!(read.dtype, DType::Bool);
    assert_eq!(
        read.dimensions,
        vec![Dimension::Known(4), Dimension::Symbol { name: "n".to_string(), min: 0, max: None }]
    );
}

fn constant(dtype: i32, dims: Vec<i64>) -> TensorProto {
    TensorProto {
        name: "c".to_string(),
        dims,
        dtype,
        segment: false,
        external: false,
        location: 0,
        strings: false,
        uints64: false,
        floats: vec![],
        doubles: vec![],
        ints64: vec![],
        ints32: vec![],
        raw: vec![],
    }
}

#[test]
fn tensor_elements_are_little_endian() {
    let mut integers = constant(7, vec![2]);
    integers.ints64 = vec![-2, 258];
    let (kind, bytes) = raw_tensor(&integers).unwrap();
    assert_eq!(kind, DType::Int64);
    assert_eq!(bytes, [(-2i64).to_le_bytes(), 258i64.to_le_bytes()].concat());
    let mut floats = constant(1, vec![1]);
    floats.floats = vec![1.5f32.to_bits()];
    assert_eq!(raw_tensor(&floats).unwrap().1, 1.5f32.to_le_bytes().to_vec());
    floats.raw = vec![0; 4];
    assert!(text(raw_tensor(&floats).unwrap_err()).contains("ONNX tensor has conflicting data fields"));
    let mut flags = constant(9, vec![2]);
    flags.ints32 = vec![1, 2];
    assert!(text(raw_tensor(&flags).unwrap_err()).contains("invalid ONNX Boolean"));
    integers.external = true;
    assert!(text(raw_tensor(&integers).unwrap_err()).contains("ONNX external, segmented or unsupported tensor data"));
}

#[test]
fn messages_are_counted_before_they_are_decoded() {
    // Field 1 is the varint 300, field 2 is the text "ab".
    let bytes = [0x08, 0xac, 0x02, 0x12, 0x02, b'a', b'b'];
    let mut count = 10;
    preflight(&bytes, Schema::Model, 0, &mut count).unwrap();
    assert_eq!(count, 12);
    let mut count = MAX_FIELDS - 1;
    assert!(preflight(&bytes, Schema::Model, 0, &mut count).is_err());
    let mut count = 10;
    assert!(preflight(&bytes[..2], Schema::Model, 0, &mut count).is_err());
    let mut count = 10;
    let error = preflight(&[0x80; 11], Schema::Model, 0, &mut count).unwrap_err();
    assert!(text(error).contains("failed to decode Protobuf message: invalid varint"));
    let mut count = 10;
    assert!(preflight(&bytes, Schema::Model, usize::MAX, &mut count).is_err());
}

#[test]
fn fields_of_every_wire_type_are_stepped_over() {
    let refused = |bytes: &[u8]| {
        let mut count = 0;
        preflight(bytes, Schema::Model, 0, &mut count).map_err(text)
    };
    let failed = |cause: &str| Err(format!("deployment: failed to decode Protobuf message: {cause}"));
    assert_eq!(refused(&[0x09, 1, 2, 3, 4, 5, 6, 7, 8, 0x0d, 1, 2, 3, 4, 0x0a, 1, 9, 0x08, 7]), Ok(()));
    assert_eq!(refused(&[0x09, 1, 2, 3, 4, 5, 6, 7]), failed("buffer underflow"));
    assert_eq!(refused(&[0x0d, 1, 2, 3]), failed("buffer underflow"));
    assert_eq!(refused(&[0x0a, 2, 9]), failed("buffer underflow"));
    assert_eq!(refused(&[0x0c]), failed("unexpected end group tag"));
    assert_eq!(refused(&[0x0b, 0x10, 5, 0x0c]), Ok(()));
    assert_eq!(refused(&[0x0b, 0x14]), failed("unexpected end group tag"));
    assert_eq!(refused(&[0x0b]), failed("invalid varint"));
    let nested = |depth: usize| [vec![0x0b; depth], vec![0x0c; depth]].concat();
    assert_eq!(refused(&nested(100)), Ok(()));
    assert_eq!(refused(&nested(101)), failed("recursion limit reached"));
}
