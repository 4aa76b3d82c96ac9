//! Exported programs: what is written is read back.
use rusttorch::deployment::artifact::{Artifact, State, Storage};
use rusttorch::deployment::infer::StateMeta;
use rusttorch::archive::{Entry, Packing};
use rusttorch::deployment::pt2::archive::{entry_path, read_archive, ArchiveReader, Files};
use rusttorch::deployment::pt2::calling::{parse_tree, tree_json};
use rusttorch::deployment::pt2::json::{get, insert_entry, integer, item, string, Json};
use rusttorch::deployment::pt2::load::{constants_config, weights_config, Exported};
use rusttorch::deployment::pt2::operator::parse_operator;
use rusttorch::deployment::pt2::pack::pack;
use rusttorch::deployment::pt2::save::{
    check_export, check_length, input_call, package, save, write_config, write_storages, Plan, Sample,
};
use rusttorch::deployment::pt2::values::symbol;
use rusttorch::deployment::{DType, Dimension, Operation, Operator, Program, StateRole, Tree, ValueSpec};
use rusttorch::error::RustTorchError;
use rusttorch::kind::{Device, Kind};
use rusttorch::names::NameMap;

fn text(error: RustTorchError) -> String {
    match error {
        RustTorchError::GraphValidation(text) => text,
        other => panic!("{other:?}"),
    }
}

fn named(names: &[&str]) -> Vec<String> {
    names.iter().map(|name| name.to_string()).collect()
}

fn tensor(name: &str) -> Tree {
    Tree::Tensor(name.to_string())
}

fn state(name: &str, role: StateRole, storage: usize, shape: &[i64], strides: &[i64], requires_grad: bool) -> State {
    State {
        name: name.to_string(),
        role,
        storage,
        shape: shape.to_vec(),
        strides: strides.to_vec(),
        offset: 0,
        requires_grad,
    }
}

fn batch() -> Dimension {
    Dimension::Symbol { name: "batch".to_string(), min: 1, max: Some(8) }
}

fn artifact() -> Artifact {
    let inputs = vec![ValueSpec::new("x", DType::Float, vec![batch(), Dimension::Known(3)])];
    let operations = vec![
        Operation::new("hidden", Operator::Linear, named(&["x", "weight", "bias"])),
        Operation::new("active", Operator::Relu, named(&["hidden"])),
        Operation::new("scaled", Operator::Multiply, named(&["active", "scale"])),
        Operation::new("turned", Operator::Permute(vec![1, 0]), named(&["scaled"])),
        Operation::new("both", Operator::Cat(0), named(&["turned", "turned"])),
    ];
    let output = Tree::Dict(vec![("both".to_string(), tensor("both")), ("bias".to_string(), tensor("bias"))]);
    Artifact {
        program: Program::new(inputs, operations, output),
        storages: vec![
            Storage { dtype: DType::Float, bytes: vec![1; 24] },
            Storage { dtype: DType::Float, bytes: vec![2; 8] },
            Storage { dtype: DType::Float, bytes: vec![3; 8] },
        ],
        state: vec![
            state("weight", StateRole::Parameter, 0, &[2, 3], &[3, 1], true),
            state("bias", StateRole::Buffer, 1, &[2], &[1], false),
            state("scale", StateRole::Constant, 2, &[2], &[1], false),
        ],
    }
}

fn metas(artifact: &Artifact) -> NameMap<StateMeta> {
    let mut out = NameMap::new();
    for state in &artifact.state {
        out.insert(state.name.clone(), StateMeta { kind: Kind::Float, shape: state.shape.clone() });
    }
    out
}

fn samples(artifact: &Artifact) -> NameMap<Sample> {
    let mut out = NameMap::new();
    let inputs = artifact.program.inputs.iter().map(|input| input.name.clone());
    let results = artifact.program.operations.iter().map(|operation| operation.name.clone());
    for name in inputs.chain(results) {
        out.insert(name, Sample { dtype: DType::Float, requires_grad: false, strides: vec![1, 1] });
    }
    out
}

fn files(members: NameMap<Vec<u8>>) -> Files {
    read_archive(pack(&members).unwrap()).unwrap()
}

#[test]
fn a_written_program_is_read_back() {
    let artifact = artifact();
    artifact.validate().unwrap();
    check_export(&artifact.program, Device::Cpu).unwrap();
    let plan = Plan::new(&artifact).unwrap();
    assert_eq!(plan.shapes(), &vec![vec![2, 3]]);
    let ep = save(&artifact, &plan, &metas(&artifact), &samples(&artifact), "the inputs", "the outputs").unwrap();

    let node = item(get(get(get(Some(&ep), "graph_module"), "graph"), "nodes"), 0);
    assert_eq!(string(get(node, "target")).unwrap(), "torch.ops.aten.linear.default");
    let argument = item(get(node, "inputs"), 1);
    assert_eq!(string(get(argument, "name")).unwrap(), "weight");
    assert_eq!(
        string(get(get(get(argument, "arg"), "as_tensor"), "name")).unwrap(),
        "state_0"
    );
    let range = get(get(Some(&ep), "range_constraints"), "s0");
    assert_eq!(integer(get(range, "min_val")).unwrap(), 1);
    assert_eq!(integer(get(range, "max_val")).unwrap(), 8);

    let weights = write_config(&artifact, false);
    let constants = write_config(&artifact, true);
    let archive = files(package(write_storages(&artifact), vec![b'{'], vec![b'{'], vec![b'{']));
    assert_eq!(archive.get("data/constants/tensor_2").unwrap(), &vec![3; 8]);

    let mut exported = Exported::begin(ep).unwrap();
    exported.add_weights(&archive, &weights).unwrap();
    exported.add_constants(&archive, &constants).unwrap();
    let resolved = exported.resolve().unwrap();
    assert_eq!(resolved.in_spec().unwrap(), "the inputs");
    assert_eq!(resolved.out_spec().unwrap(), "the outputs");
    let inputs = resolved.input_tree(&tree_json(&Tree::Tuple(vec![tensor("x")]))).unwrap();
    let output_tree = Tree::Tuple(vec![tensor("both"), tensor("bias")]);
    let outputs = resolved.output_tree(&tree_json(&output_tree)).unwrap();
    assert_eq!(outputs, output_tree);
    let model = resolved.finish(inputs, outputs).unwrap();

    assert_eq!(model.program().operations, artifact.program.operations);
    assert_eq!(
        model.program().inputs[0].dimensions,
        vec![Dimension::Symbol { name: "s0".to_string(), min: 1, max: Some(8) }, Dimension::Known(3)]
    );
    let read = &model.artifact().state;
    assert_eq!(read.len(), 3);
    for expected in &artifact.state {
        let found = read.iter().find(|state| state.name == expected.name).unwrap();
        assert_eq!(found.role, expected.role);
        assert_eq!(found.shape, expected.shape);
        assert_eq!(found.strides, expected.strides);
        assert_eq!(found.requires_grad, expected.requires_grad);
        assert_eq!(
            model.artifact().storages[found.storage].bytes,
            artifact.storages[expected.storage].bytes
        );
    }
}

#[test]
fn exports_refuse_what_the_format_cannot_hold() {
    let mut artifact = artifact();
    assert!(text(check_export(&artifact.program, Device::Mps).unwrap_err()).contains("PT2 export requires CPU model state"));
    artifact.state[2].storage = 1;
    let error = Plan::new(&artifact).err().unwrap();
    assert!(text(error).contains("PT2 cannot preserve storage shared across weights and constants"));
    artifact.state[2].storage = 2;
    artifact.program.inputs.push(ValueSpec::new(
        "y",
        DType::Float,
        vec![Dimension::Symbol { name: "batch".to_string(), min: 2, max: None }],
    ));
    let error = Plan::new(&artifact).err().unwrap();
    assert!(text(error).contains("symbol bounds must agree for PT2 export"));
    check_length(0).unwrap();
    assert!(text(check_length(usize::MAX).unwrap_err()).contains("PT2 output exceeds limit"));
}

#[test]
fn inputs_are_called_with_positional_and_keyword_arguments() {
    let tree = Tree::Tuple(vec![tensor("x")]);
    assert_eq!(input_call(&tree), Tree::Tuple(vec![tree, Tree::Dict(vec![])]));
    let called = Tree::Tuple(vec![Tree::Tuple(vec![tensor("x")]), Tree::Dict(vec![])]);
    assert_eq!(input_call(&called), called);
}

#[test]
fn dictionary_keys_survive_as_json() {
    let tree = Tree::Dict(vec![
        ("a \"quoted\" key".to_string(), tensor("x")),
        ("b".to_string(), Tree::List(vec![tensor("y"), Tree::Tuple(vec![])])),
    ]);
    let json = tree_json(&tree);
    let context = string(get(item(Some(&json), 1), "context")).unwrap();
    assert_eq!(context, "[\"a \\\"quoted\\\" key\",\"b\"]");
    assert_eq!(parse_tree(&json, &named(&["x", "y"])).unwrap(), tree);
    assert!(parse_tree(&json, &named(&["x"])).is_err());
    assert!(parse_tree(&json, &named(&["x", "y", "z"])).is_err());
    assert!(parse_tree(&Json::Null, &named(&[])).is_err());
}

fn object(entries: Vec<(&str, Json)>) -> Json {
    Json::Object(entries.into_iter().map(|(key, value)| (key.to_string(), value)).collect())
}

fn argument(name: &str, value: Json) -> Json {
    object(vec![("arg", value), ("kind", Json::Int(1)), ("name", Json::Text(name.to_string()))])
}

fn operand(name: &str) -> Json {
    object(vec![("as_tensor", object(vec![("name", Json::Text(name.to_string()))]))])
}

#[test]
fn operators_are_parsed_with_their_arguments() {
    let mut map = NameMap::new();
    map.insert("p".to_string(), "weight".to_string());
    let two = vec![argument("self", operand("x")), argument("mat2", operand("p"))];
    let (operator, inputs) = parse_operator("torch.ops.aten.mm.default", &two, &map).unwrap();
    assert_eq!(operator, Operator::Matmul);
    assert_eq!(inputs, named(&["x", "weight"]));

    let mut scaled = vec![argument("self", operand("x")), argument("other", operand("p"))];
    scaled.push(argument("alpha", object(vec![("as_int", Json::Int(2))])));
    assert!(parse_operator("torch.ops.aten.add.Tensor", &scaled, &map).is_err());

    let shape = object(vec![("as_ints", Json::List(vec![Json::Int(2), Json::Int(-1)]))]);
    let items = vec![argument("self", operand("x")), argument("size", shape)];
    let (operator, _) = parse_operator("torch.ops.aten.view.default", &items, &map).unwrap();
    assert_eq!(operator, Operator::Reshape(vec![2, -1]));
    assert!(parse_operator("torch.ops.aten.softmax.int", &two, &map).is_err());
    let more = vec![argument("self", operand("x")), argument("surplus", operand("x"))];
    assert!(parse_operator("torch.ops.aten.relu.default", &more, &map).is_err());
}

#[test]
fn symbols_are_single_names() {
    let sized = |expression: &str| object(vec![("as_expr", object(vec![("expr_str", Json::Text(expression.to_string()))]))]);
    let read = |expression: &str| symbol(Some(&sized(expression)));
    assert_eq!(read("Symbol('s0', positive=True, integer=True)").unwrap(), "s0");
    assert_eq!(read("Symbol('s77', integer=True)").unwrap(), "s77");
    assert!(text(read("2*s0").unwrap_err()).contains("unsupported symbolic expression 2*s0"));
    assert!(text(read("Symbol('', integer=True)").unwrap_err()).contains("invalid symbolic dimension name"));
}

#[test]
fn archive_members_are_bounded() {
    entry_path("model/data/weights/tensor_0").unwrap();
    for path in ["", "/a", "a//b", "a/../b", "a/.", "a\\b", "c:d"] {
        assert!(text(entry_path(path).unwrap_err()).contains("invalid PT2 ZIP path"), "{path}");
    }
    let header = |name: &str, size: u64| Entry {
        name: name.to_string(),
        packing: Packing::Deflated,
        directory: false,
        mode: None,
        size,
    };
    let mut reader = ArchiveReader::begin(2).unwrap();
    assert!(text(reader.member(&header("alone", 1)).unwrap_err()).contains("PT2 ZIP requires one root directory"));
    let foreign = Entry { packing: Packing::Other, ..header("root/a", 1) };
    assert!(text(reader.member(&foreign).unwrap_err()).contains("unsupported PT2 ZIP entry"));
    let directory = Entry { directory: true, ..header("root/a", 1) };
    assert!(text(reader.member(&directory).unwrap_err()).contains("unsupported PT2 ZIP entry"));
    reader.member(&header("root/a", 1)).unwrap();
    reader.content(vec![7]).unwrap();
    assert!(text(reader.member(&header("other/a", 1)).unwrap_err()).contains("PT2 ZIP has multiple roots"));
    assert!(text(reader.member(&header("root/b", u64::MAX)).unwrap_err()).contains("archive length overflow"));
    assert_eq!(weights_config("model"), "data/weights/model_weights_config.json");
    assert_eq!(constants_config("model"), "data/constants/model_constants_config.json");
}

#[test]
fn repeated_json_keys_are_refused() {
    let mut entries = Vec::new();
    insert_entry(&mut entries, "b".to_string(), Json::Int(1)).unwrap();
    insert_entry(&mut entries, "a".to_string(), Json::Int(2)).unwrap();
    assert!(insert_entry(&mut entries, "b".to_string(), Json::Int(3)).is_err());
    assert_eq!(entries.len(), 2);
    let json = Json::Object(entries);
    assert_eq!(integer(get(Some(&json), "a")).unwrap(), 2);
    assert!(text(integer(get(Some(&json), "c")).unwrap_err()).contains("expected PT2 JSON integer"));
}
