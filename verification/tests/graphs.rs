//! Typed graphs: building, checking, rewriting and running.
use rusttorch::deployment::lower::lower;
use rusttorch::deployment::{Operator, Tree};
use rusttorch::error::RustTorchError;
use rusttorch::float::Binary64;
use rusttorch::graph::infer::{broadcast_dimensions, infer_flatten_spec, normalize_dim};
use rusttorch::graph::render::escape_dot;
use rusttorch::graph::{
    Action, DeadNodeElimination, Dim, Graph, GraphBuilder, GraphInputs, GraphModule, GraphPass, NodeId, ShapePropagation,
    TensorSpec, Validation,
};
use rusttorch::kind::{Device, Kind};
use rusttorch::tensor::TensorMeta;

fn rows(features: i64) -> TensorSpec {
    TensorSpec::new().dimensions(vec![Dim::Symbol("batch".to_string()), Dim::Known(features)]).kind(Kind::Float)
}

fn classifier() -> Graph {
    let mut builder = GraphBuilder::new();
    let x = builder.input("x", rows(4)).unwrap();
    let hidden = builder.linear("fc1", x, 4, 8).unwrap();
    let active = builder.relu("act", hidden).unwrap();
    builder.identity("unused", hidden).unwrap();
    let logits = builder.linear_config("fc2", active, 8, 3, false).unwrap();
    builder.add_output("logits", logits).unwrap();
    builder.finish().unwrap()
}

fn meta(shape: &[i64]) -> TensorMeta {
    TensorMeta::new(shape.to_vec(), Kind::Float, Device::Cpu)
}

#[test]
fn built_graphs_are_valid_and_ordered() {
    let graph = classifier();
    graph.validate().unwrap();
    let order = graph.topological_order().unwrap();
    assert_eq!(order, vec![NodeId(0), NodeId(1), NodeId(2), NodeId(4), NodeId(5)]);
    let reachable = graph.reachable_nodes().unwrap();
    assert!(!reachable.contains(&NodeId(3)));
    assert_eq!(graph.nodes()[4].spec.dims().unwrap(), &[Dim::Symbol("batch".to_string()), Dim::Known(3)]);
}

#[test]
fn builders_refuse_what_cannot_fit() {
    let mut builder = GraphBuilder::new();
    let x = builder.input("x", rows(4)).unwrap();
    assert!(builder.linear("fc", x, 5, 8).is_err());
    assert!(matches!(builder.input("x", rows(4)), Err(RustTorchError::DuplicateName(name)) if name == "x"));
    assert!(builder.dropout("drop", x, Binary64::from_bits(2.0f64.to_bits())).is_err());
    assert!(builder.concatenate("cat", vec![], 0).is_err());
    assert!(builder.input("", rows(4)).is_err());
    assert!(GraphBuilder::new().finish().is_err());
}

#[test]
fn dead_nodes_are_removed_when_a_graph_is_finished() {
    let mut graph = classifier();
    let report = DeadNodeElimination.run(&mut graph).unwrap();
    assert!(report.changed_nodes.is_empty());
    assert!(!graph.nodes()[3].active);
    let again = DeadNodeElimination.run(&mut graph).unwrap();
    assert!(again.changed_nodes.is_empty());
    assert_eq!(Validation.run(&mut graph).unwrap().pass, "validation");
    assert!(ShapePropagation.run(&mut graph).unwrap().changed_nodes.is_empty());
}

#[test]
fn summaries_and_drawings_are_exact() {
    let mut builder = GraphBuilder::new();
    let x = builder.input("x", rows(4)).unwrap();
    let y = builder.linear("fc", x, 4, 2).unwrap();
    builder.add_output("out", y).unwrap();
    let graph = builder.finish().unwrap();
    let module = GraphModule::from_graph(graph, Device::Cpu).unwrap();
    let summary = module.summary();
    let lines: Vec<&str> = summary.lines().collect();
    assert_eq!(lines[0], "id  name  op  inputs  shape  kind  parameters");
    assert!(lines[1].contains("Symbol(\"batch\")"));
    assert!(lines[2].ends_with("10"));
    let drawing = module.to_dot();
    assert!(drawing.starts_with("digraph rusttorch {\n"));
    assert!(drawing.contains("n0 -> n1"));
    assert_eq!(escape_dot("a\"b\\c\nd"), "a\\\"b\\\\c\\nd");
}

#[test]
fn modules_run_node_by_node() {
    let module = GraphModule::from_graph(classifier(), Device::Cpu).unwrap();
    let inputs = GraphInputs::new().with("x", meta(&[5, 4])).unwrap();
    let mut run = module.forward(inputs).unwrap();
    let mut computed = Vec::new();
    loop {
        match run.next().unwrap() {
            Action::Bind(_) => {},
            Action::Compute(id, _) => {
                computed.push(id);
                run.computed(Device::Cpu).unwrap();
            },
            Action::Resolve(_) => {
                run.resolved(Device::Cpu).unwrap();
            },
            Action::Done => break,
        }
    }
    assert_eq!(computed, vec![NodeId(1), NodeId(2), NodeId(4), NodeId(5)]);
    let outputs = run.outputs();
    assert_eq!(outputs.len(), 1);
    assert!(outputs.get("logits").is_ok());
    assert!(matches!(outputs.get("none"), Err(RustTorchError::MissingGraphOutput(name)) if name == "none"));
}

#[test]
fn runs_check_their_inputs() {
    let module = GraphModule::from_graph(classifier(), Device::Cpu).unwrap();
    let missing = module.forward(GraphInputs::new()).err().unwrap();
    assert!(matches!(missing, RustTorchError::MissingGraphInput(name) if name == "x"));
    let inputs = GraphInputs::new().with("x", meta(&[5, 4])).unwrap().with("y", meta(&[1])).unwrap();
    assert!(matches!(module.forward(inputs).err().unwrap(), RustTorchError::UnexpectedGraphInput(name) if name == "y"));
    let twice = GraphInputs::new().with("x", meta(&[5, 4])).unwrap().with("x", meta(&[5, 4]));
    assert!(matches!(twice, Err(RustTorchError::DuplicateName(_))));
    let mut kept = GraphInputs::new();
    kept.insert("x", meta(&[5, 4])).unwrap();
    assert!(matches!(kept.insert("x", meta(&[5, 3])), Err(RustTorchError::DuplicateName(name)) if name == "x"));
    let mut run = module.forward(kept).unwrap();
    assert!(matches!(run.next(), Ok(Action::Bind(_))), "the first tensor is still there");
    let wrong = GraphInputs::new().with("x", meta(&[5, 3])).unwrap();
    let mut run = module.forward(wrong).unwrap();
    let mut refused = false;
    for _ in 0..4 {
        match run.next() {
            Err(_) => {
                refused = true;
                break;
            },
            Ok(Action::Compute(_, _)) => run.computed(Device::Cpu).unwrap(),
            Ok(_) => {},
        }
    }
    assert!(refused);
}

#[test]
fn shapes_follow_broadcasting() {
    let left = [Dim::Known(3), Dim::Known(1)];
    let right = [Dim::Known(4)];
    assert_eq!(broadcast_dimensions(&left, &right).unwrap(), vec![Dim::Known(3), Dim::Known(4)]);
    assert!(broadcast_dimensions(&[Dim::Known(3)], &[Dim::Known(4)]).is_err());
    assert_eq!(normalize_dim(-1, 3).unwrap(), 2);
    assert!(normalize_dim(3, 3).is_err());
    assert!(normalize_dim(-4, 3).is_err());
    let cube = TensorSpec::new().dimensions(vec![Dim::Known(2), Dim::Known(3), Dim::Known(4)]).kind(Kind::Float);
    let flat = infer_flatten_spec(&cube, 1, -1).unwrap();
    assert_eq!(flat.dims().unwrap(), &[Dim::Known(2), Dim::Known(12)]);
}

#[test]
fn graphs_become_programs() {
    let mut module = GraphModule::from_graph(classifier(), Device::Cpu).unwrap();
    assert!(lower(&module).is_err());
    module.eval();
    let program = lower(&module).unwrap();
    let linear = program.operations.iter().filter(|o| o.operator == Operator::Linear).count();
    assert_eq!(linear, 2);
    assert!(matches!(&program.output_tree, Tree::Dict(items) if items[0].0 == "logits"));
    assert_eq!(program.output_tree.leaves().unwrap().len(), 1);
}
