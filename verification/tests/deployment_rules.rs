//! Programs, their state, their shapes and their runs.
use rusttorch::deployment::artifact::{Artifact, State, StateTensor, Storage};
use rusttorch::deployment::evaluate::Action;
use rusttorch::deployment::guard::check_inputs;
use rusttorch::deployment::infer::{infer_specs, StateMeta};
use rusttorch::deployment::layout::{byte_count, check_view, contiguous_strides, MAX_BYTES};
use rusttorch::deployment::model::{check_file_length, check_host, check_json_length, Model, TracedModel};
use rusttorch::deployment::program::valid_name;
use rusttorch::deployment::{DType, Dimension, Operation, Operator, Program, StateRole, Tree, ValueSpec};
use rusttorch::error::RustTorchError;
use rusttorch::kind::{Device, Kind};
use rusttorch::names::NameMap;
use rusttorch::tensor::TensorMeta;

fn text(error: RustTorchError) -> String {
    match error {
        RustTorchError::GraphValidation(text) => text,
        other => panic!("{other:?}"),
    }
}

fn named(names: &[&str]) -> Vec<String> {
    names.iter().map(|name| name.to_string()).collect()
}

fn symbol(name: &str, min: i64, max: Option<i64>) -> Dimension {
    Dimension::Symbol { name: name.to_string(), min, max }
}

fn leaf(name: &str) -> Tree {
    Tree::Tensor(name.to_string())
}

fn floats(shape: &[i64]) -> TensorMeta {
    TensorMeta::new(shape.to_vec(), Kind::Float, Device::Cpu)
}

fn network() -> Program {
    Program::new(
        vec![ValueSpec::new("x", DType::Float, vec![symbol("n", 1, None), Dimension::Known(3)])],
        vec![
            Operation::new("y", Operator::Linear, named(&["x", "w"])),
            Operation::new("z", Operator::Flatten { start: 0, end: -1 }, named(&["y"])),
        ],
        Tree::Tuple(vec![leaf("y"), leaf("z")]),
    )
}

fn weight(name: &str, address: usize) -> StateTensor {
    StateTensor {
        name: name.to_string(),
        role: StateRole::Parameter,
        kind: Kind::Float,
        shape: vec![2, 3],
        strides: vec![3, 1],
        address,
        requires_grad: true,
        bytes: vec![0; 24],
    }
}

#[test]
fn shapes_are_inferred_with_their_symbols() {
    let weights = |rows: i64| {
        let mut state = NameMap::new();
        state.insert("w".to_string(), StateMeta { kind: Kind::Float, shape: vec![rows, 3] });
        state
    };
    let specs = infer_specs(&network(), &weights(1)).unwrap();
    assert_eq!(specs.get("y").unwrap().dimensions, vec![symbol("n", 1, None), Dimension::Known(1)]);
    assert_eq!(specs.get("z").unwrap().dimensions, vec![symbol("n", 1, None)]);
    assert_eq!(specs.get("z").unwrap().dtype, DType::Float);
    let scaled = infer_specs(&network(), &weights(2)).unwrap_err();
    assert_eq!(text(scaled), "deployment: scaled symbolic dimensions are unsupported for export");
}

#[test]
fn runs_have_the_inferred_shapes() {
    let mut state = NameMap::new();
    state.insert("w".to_string(), StateMeta { kind: Kind::Float, shape: vec![1, 3] });
    let specs = infer_specs(&network(), &state).unwrap();
    let sized = |name: &str| -> Vec<i64> {
        let dimensions = &specs.get(name).unwrap().dimensions;
        dimensions.iter().map(|d| if let Dimension::Known(size) = d { *size } else { 5 }).collect()
    };
    let row = StateTensor { shape: vec![1, 3], bytes: vec![0; 12], ..weight("w", 64) };
    let model = Model::new(network(), &[row]).unwrap();
    let mut run = model.run(vec![floats(&[1, 3]), floats(&[5, 3])]).unwrap();
    assert_eq!(run.next().unwrap(), Action::Apply(vec![1, 0]));
    assert_eq!(sized("y"), vec![5, 1]);
    run.applied(floats(&[5, 1]));
    assert_eq!(run.next().unwrap(), Action::Apply(vec![2]));
    assert_eq!(sized("z"), vec![5]);
    run.applied(floats(&[5]));
    assert_eq!(run.next().unwrap(), Action::Done(vec![2, 3]));
}

#[test]
fn models_run_slot_by_slot() {
    let model = Model::new(network(), &[weight("w", 64)]).unwrap();
    assert_eq!(model.device(), Device::Cpu);
    let mut run = model.run(vec![floats(&[2, 3]), floats(&[5, 3])]).unwrap();
    assert_eq!(run.next().unwrap(), Action::Apply(vec![1, 0]));
    assert_eq!(run.operator(), &Operator::Linear);
    run.applied(floats(&[5, 2]));
    assert_eq!(run.next().unwrap(), Action::Apply(vec![2]));
    run.applied(floats(&[10]));
    assert_eq!(run.next().unwrap(), Action::Done(vec![2, 3]));
    let wrong = model.run(vec![floats(&[2, 3]), floats(&[5, 4])]);
    assert!(wrong.is_err());
}

#[test]
fn conditionals_run_one_branch() {
    let branch = |operator: Operator| {
        Box::new(Program::new(
            vec![ValueSpec::new("a", DType::Float, vec![Dimension::Known(2)])],
            vec![Operation::new("b", operator, named(&["a"]))],
            leaf("b"),
        ))
    };
    let result = ValueSpec::new("r", DType::Float, vec![Dimension::Known(2)]);
    let choice = Operator::If { then_branch: branch(Operator::Relu), else_branch: branch(Operator::Tanh), result };
    let program = Program::new(
        vec![
            ValueSpec::new("p", DType::Bool, vec![]),
            ValueSpec::new("x", DType::Float, vec![Dimension::Known(2)]),
        ],
        vec![Operation::new("y", choice, named(&["p", "x"]))],
        leaf("y"),
    );
    let model = Model::new(program, &[]).unwrap();
    assert!(model.check_trace().is_err());
    let flag = TensorMeta::new(vec![], Kind::Bool, Device::Cpu);
    let mut run = model.run(vec![flag, floats(&[2])]).unwrap();
    let mut applied = Vec::new();
    loop {
        match run.next().unwrap() {
            Action::Proceed => {},
            Action::Decide(slot) => {
                assert_eq!(slot, 0);
                run.decided(false).unwrap();
            },
            Action::Apply(operands) => {
                applied.push((format!("{:?}", run.operator()), operands));
                run.applied(floats(&[2]));
            },
            Action::Done(results) => {
                assert_eq!(results, vec![2]);
                break;
            },
        }
    }
    assert_eq!(applied, vec![("Tanh".to_string(), vec![1])]);
}

#[test]
fn identical_tensors_share_their_storage() {
    let model = Model::new(network(), &[weight("w", 64), weight("v", 64), weight("u", 128)]).unwrap();
    let artifact = model.artifact();
    assert_eq!(artifact.storages.len(), 2);
    assert_eq!(artifact.state[1].storage, artifact.state[0].storage);
    assert_eq!(artifact.shared_views(), vec![0, 0, 2]);
    assert_eq!(artifact.views_of(0), vec![0, 1]);
    let twice = Model::new(network(), &[weight("w", 64), weight("w", 128)]);
    assert!(text(twice.unwrap_err()).contains("duplicate state name"));
}

#[test]
fn artifacts_are_validated() {
    let artifact = |storage: usize, bytes: usize| Artifact {
        program: network(),
        storages: vec![Storage { dtype: DType::Float, bytes: vec![0; bytes] }],
        state: vec![State {
            name: "w".to_string(),
            role: StateRole::Buffer,
            storage,
            shape: vec![2, 3],
            strides: vec![3, 1],
            offset: 0,
            requires_grad: false,
        }],
    };
    artifact(0, 24).validate().unwrap();
    assert!(text(artifact(1, 24).validate().unwrap_err()).contains("state references missing storage"));
    assert!(artifact(0, 20).validate().is_err());
    assert!(text(artifact(0, 23).validate().unwrap_err()).contains("invalid or excessive storage size"));
    let mut version = artifact(0, 24);
    version.program.version = 2;
    assert!(version.validate().is_err());
}

#[test]
fn programs_know_every_name_that_they_use() {
    let state = NameMap::new();
    let check = |program: Program| program.validate(&state, 0, &mut 0);
    let x = || vec![ValueSpec::new("x", DType::Float, vec![])];
    check(Program::new(x(), vec![Operation::new("y", Operator::Relu, named(&["x"]))], leaf("y"))).unwrap();
    assert!(check(Program::new(x(), vec![Operation::new("y", Operator::Relu, named(&["z"]))], leaf("y"))).is_err());
    assert!(check(Program::new(x(), vec![Operation::new("x", Operator::Relu, named(&["x"]))], leaf("x"))).is_err());
    assert!(check(Program::new(x(), vec![Operation::new("y", Operator::Add, named(&["x"]))], leaf("y"))).is_err());
    assert!(check(Program::new(x(), vec![], leaf("nowhere"))).is_err());
    valid_name("layer.0").unwrap();
    assert!(valid_name("").is_err());
    assert!(valid_name("a\u{7}").is_err());
    assert!(valid_name(&"a".repeat(1025)).is_err());
}

#[test]
fn trees_list_their_leaves() {
    let tree = Tree::Dict(vec![
        ("a".to_string(), Tree::List(vec![leaf("x"), leaf("y")])),
        ("b".to_string(), leaf("z")),
    ]);
    assert_eq!(tree.leaves().unwrap(), vec!["x", "y", "z"]);
    let repeated = Tree::Dict(vec![("a".to_string(), leaf("x")), ("a".to_string(), leaf("y"))]);
    assert!(text(repeated.leaves().unwrap_err()).contains("duplicate dictionary key"));
}

#[test]
fn layouts_stay_inside_their_storage() {
    assert_eq!(byte_count(&[2, 3], DType::Double).unwrap(), 48);
    assert!(text(byte_count(&[-1], DType::Bool).unwrap_err()).contains("negative dimension"));
    assert!(text(byte_count(&[1; 65], DType::Bool).unwrap_err()).contains("rank exceeds 64"));
    assert!(text(byte_count(&[MAX_BYTES as i64 + 1], DType::Bool).unwrap_err()).contains("tensor exceeds size limit"));
    assert_eq!(contiguous_strides(&[2, 3, 4]).unwrap(), vec![12, 4, 1]);
    check_view(&[2, 3], &[3, 1], 0, true, DType::Float, 6).unwrap();
    check_view(&[2, 2], &[1, 2], 2, false, DType::Float, 6).unwrap();
    assert!(check_view(&[2, 3], &[3, 1], 1, false, DType::Float, 6).is_err());
    assert!(check_view(&[2, 2], &[1, 1], 0, false, DType::Float, 6).is_err());
    assert!(text(check_view(&[1], &[1], 0, true, DType::Int64, 1).unwrap_err()).contains("only floating state supports autograd"));
    check_view(&[0, 3], &[3, 1], 0, false, DType::Float, 0).unwrap();
}

#[test]
fn symbols_agree_across_inputs() {
    let specs = [
        ValueSpec::new("a", DType::Float, vec![symbol("n", 2, Some(4))]),
        ValueSpec::new("b", DType::Float, vec![symbol("n", 2, Some(4))]),
    ];
    check_inputs(&specs, &[floats(&[3]), floats(&[3])], Device::Cpu).unwrap();
    assert!(check_inputs(&specs, &[floats(&[3]), floats(&[4])], Device::Cpu).is_err());
    assert!(check_inputs(&specs, &[floats(&[5]), floats(&[5])], Device::Cpu).is_err());
    assert!(check_inputs(&specs, &[floats(&[3])], Device::Cpu).is_err());
    assert!(check_inputs(&specs, &[floats(&[3]), floats(&[3])], Device::Mps).is_err());
    let guards = TracedModel::load(1, vec![ValueSpec::new("a", DType::Float, vec![symbol("n", 2, Some(4))])], Device::Cpu);
    let guards = guards.unwrap();
    guards.run(&[floats(&[2])]).unwrap();
    assert!(guards.run(&[floats(&[1])]).is_err());
    assert_eq!(guards.save().0, 1);
    assert!(TracedModel::load(2, vec![], Device::Cpu).is_err());
}

#[test]
fn hosts_and_files_are_bounded() {
    check_host(true).unwrap();
    assert!(check_host(false).is_err());
    check_json_length(MAX_BYTES).unwrap();
    assert!(check_json_length(MAX_BYTES + 1).is_err());
    assert!(check_file_length(MAX_BYTES + 1).is_err());
}
