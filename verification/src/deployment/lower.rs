//! Lowering of graphs to portable programs.
use super::program::tuple_of;
use super::tree::{Tree, TreeView};
use super::types::{
    dimensions_view, operations_view, value_specs_view, DType, Dimension, DimensionView, Operation, OperationView, Operator,
    OperatorView, Program, ProgramView, ValueSpec, ValueSpecView,
};
use crate::error::{deployment_error, deployment_text, outcome, texts, ErrorView, Result};
use crate::graph::check::{graph_refusal, node_is_sound, valid_graph_is_sound};
use crate::graph::execute::{GraphModule, ModuleView};
use crate::graph::ir::{nodes_view, Graph, GraphView, Node, NodeId, NodeView, ValueId};
use crate::graph::op::GraphOp;
use crate::graph::order::{is_active, is_reachable, order_of_nodes, run_is_distinct};
use crate::graph::spec::{dims_view, Dim, DimView, SpecView, TensorSpec};
use crate::nn::GeluApproximation;
use crate::text::join;
use vstd::prelude::*;

verus! {

/// A declared dimension as a portable one; an unnamed dynamic size has none.
pub open spec fn lowered_dim(dim: DimView) -> Option<DimensionView> {
    match dim {
        DimView::Known(n) => Some(DimensionView::Known(n)),
        DimView::Symbol(name) => Some(DimensionView::Symbol { name, min: 0, max: None }),
        DimView::Dynamic => None,
    }
}

/// The portable spec of an input: its dimensions and its dtype have to be declared.
pub open spec fn lowered_input(name: Seq<char>, spec: SpecView) -> core::result::Result<ValueSpecView, ErrorView> {
    match spec.dimensions {
        None => Err(deployment_text("graph deployment requires explicit input dimensions"@)),
        Some(dims) => if exists|k: int| 0 <= k < dims.len() && lowered_dim(#[trigger] dims[k]) is None {
            Err(deployment_text("unnamed dynamic graph dimensions are unsupported"@))
        } else {
            match spec.kind {
                None => Err(deployment_text("graph deployment requires explicit input dtype"@)),
                Some(kind) => match DType::of(kind) {
                    Err(e) => Err(e),
                    Ok(dtype) => Ok(
                        ValueSpecView { name, dtype, dimensions: dims.map_values(|d: DimView| lowered_dim(d)->0) },
                    ),
                },
            }
        },
    }
}

/// The portable specs of the first `n` inputs.
pub open spec fn lowered_inputs(graph: GraphView, n: int) -> core::result::Result<Seq<ValueSpecView>, ErrorView>
    decreases n,
{
    if n <= 0 {
        Ok(Seq::empty())
    } else {
        match lowered_inputs(graph, n - 1) {
            Err(e) => Err(e),
            Ok(list) => match lowered_input(
                graph.input_names[n - 1],
                graph.nodes[graph.input_values[n - 1].0 as int].spec,
            ) {
                Err(e) => Err(e),
                Ok(spec) => Ok(list.push(spec)),
            },
        }
    }
}

/// The debug form of an operation outside the portable subset.
pub open spec fn foreign_form(op: GraphOp) -> Seq<char> {
    match op {
        GraphOp::Gelu { approximation: GeluApproximation::Exact } => "Gelu { approximation: None }"@,
        GraphOp::Gelu { approximation: GeluApproximation::Tanh } => "Gelu { approximation: Tanh }"@,
        GraphOp::MseLoss => "MseLoss"@,
        GraphOp::CrossEntropyLoss => "CrossEntropyLoss"@,
        _ => op.title(),
    }
}

/// The portable operator of a graph operation. Dropout has no effect in evaluation.
pub open spec fn lowered_op(op: GraphOp) -> core::result::Result<OperatorView, ErrorView> {
    match op {
        GraphOp::Identity | GraphOp::Output | GraphOp::Dropout { .. } => Ok(OperatorView::Identity),
        GraphOp::ReLU => Ok(OperatorView::Relu),
        GraphOp::Add => Ok(OperatorView::Add),
        GraphOp::Subtract => Ok(OperatorView::Subtract),
        GraphOp::Multiply => Ok(OperatorView::Multiply),
        GraphOp::Flatten { start_dim, end_dim } => Ok(OperatorView::Flatten { start: start_dim, end: end_dim }),
        GraphOp::Concatenate { dim } => Ok(OperatorView::Cat(dim)),
        GraphOp::Linear { .. } => Ok(OperatorView::Linear),
        _ => Err(deployment_text("unsupported graph operation "@ + foreign_form(op))),
    }
}

/// The names of the operands: those of the producing nodes, then the parameters.
pub open spec fn lowered_operands(nodes: Seq<NodeView>, node: NodeView) -> Seq<Seq<char>> {
    let values = node.inputs.map_values(|v: ValueId| nodes[v.0 as int].name);
    match node.op {
        GraphOp::Linear { bias, .. } => if bias {
            values.push(node.name + ".weight"@).push(node.name + ".bias"@)
        } else {
            values.push(node.name + ".weight"@)
        },
        _ => values,
    }
}

/// The portable operations of the first `n` nodes in execution order.
pub open spec fn lowered_operations(
    nodes: Seq<NodeView>,
    order: Seq<NodeId>,
    n: int,
) -> core::result::Result<Seq<OperationView>, ErrorView>
    decreases n,
{
    if n <= 0 {
        Ok(Seq::empty())
    } else {
        match lowered_operations(nodes, order, n - 1) {
            Err(e) => Err(e),
            Ok(list) => {
                let node = nodes[order[n - 1].0 as int];
                if !node.active || node.op is Input {
                    Ok(list)
                } else {
                    match lowered_op(node.op) {
                        Err(e) => Err(e),
                        Ok(operator) => Ok(
                            list.push(
                                OperationView { name: node.name, operator, inputs: lowered_operands(nodes, node) },
                            ),
                        ),
                    }
                }
            },
        }
    }
}

/// The dictionary of the graph's outputs.
pub open spec fn lowered_outputs(graph: GraphView) -> TreeView {
    TreeView::Dict(
        Seq::new(
            graph.output_names.len(),
            |k: int|
                (graph.output_names[k], TreeView::Tensor(graph.nodes[graph.output_values[k].0 as int].name)),
        ),
    )
}

/// The portable program of a graph module.
pub open spec fn lowered(module: ModuleView) -> core::result::Result<ProgramView, ErrorView> {
    let graph = module.graph;
    let order = order_of_nodes(graph.nodes);
    if module.training {
        Err(deployment_text("set graph to evaluation mode before deployment lowering"@))
    } else {
        match lowered_inputs(graph, graph.input_names.len() as int) {
            Err(e) => Err(e),
            Ok(inputs) => match lowered_operations(graph.nodes, order, order.len() as int) {
                Err(e) => Err(e),
                Ok(operations) => Ok(
                    ProgramView {
                        version: 1,
                        operator_version: 1,
                        inputs,
                        input_tree: tuple_of(super::program::input_names(inputs)),
                        operations,
                        output_tree: lowered_outputs(graph),
                    },
                ),
            },
        }
    }
}

fn lower_dim(dim: &Dim) -> (r: Option<Dimension>)
    ensures
        match (r, lowered_dim(dim@)) {
            (Some(d), Some(expected)) => d@ == expected,
            (None, None) => true,
            _ => false,
        },
{
    match dim {
        Dim::Known(n) => Some(Dimension::Known(*n)),
        Dim::Symbol(name) => Some(Dimension::Symbol { name: name.clone(), min: 0, max: None }),
        Dim::Dynamic => None,
    }
}

fn lower_input(name: &str, spec: &TensorSpec) -> (r: Result<ValueSpec>)
    ensures
        outcome(r) == lowered_input(name@, spec@),
{
    let dims = match spec.dims() {
        Some(dims) => dims,
        None => {
            return Err(deployment_error("graph deployment requires explicit input dimensions"));
        },
    };
    let ghost view = dims_view(dims@);
    let mut dimensions: Vec<Dimension> = Vec::new();
    let mut k: usize = 0;
    while k < dims.len()
        invariant
            view == dims_view(dims@),
            spec@.dimensions == Some(view),
            k <= dims@.len(),
            dimensions@.len() == k,
            forall|j: int| 0 <= j < k ==> lowered_dim(#[trigger] view[j]) == Some(dimensions@[j]@),
        decreases dims@.len() - k,
    {
        assert(view[k as int] == dims@[k as int]@);
        match lower_dim(&dims[k]) {
            Some(d) => {
                dimensions.push(d);
            },
            None => {
                assert(lowered_dim(view[k as int]) is None);
                return Err(deployment_error("unnamed dynamic graph dimensions are unsupported"));
            },
        }
        k += 1;
    }
    proof {
        assert forall|j: int| 0 <= j < view.len() implies lowered_dim(#[trigger] view[j]) is Some by {}
        assert(dimensions_view(dimensions@) =~= view.map_values(|d: DimView| lowered_dim(d)->0)) by {
            assert forall|j: int| 0 <= j < view.len() implies dimensions_view(dimensions@)[j] == lowered_dim(view[j])->0 by {
                assert(lowered_dim(view[j]) == Some(dimensions@[j]@));
            }
        }
    }
    let kind = match spec.kind_value() {
        Some(kind) => kind,
        None => {
            return Err(deployment_error("graph deployment requires explicit input dtype"));
        },
    };
    match DType::from_kind(kind) {
        Ok(dtype) => Ok(ValueSpec::new(name, dtype, dimensions)),
        Err(e) => Err(e),
    }
}

proof fn lowered_inputs_fail(graph: GraphView, k: int, n: int)
    requires
        0 <= k <= n,
        lowered_inputs(graph, k) is Err,
    ensures
        lowered_inputs(graph, n) == lowered_inputs(graph, k),
    decreases n - k,
{
    if k < n {
        lowered_inputs_fail(graph, k, n - 1);
    }
}

#[verifier::loop_isolation(false)]
fn lower_inputs(graph: &Graph) -> (r: Result<Vec<ValueSpec>>)
    requires
        graph@.wf(),
    ensures
        match (r, lowered_inputs(graph@, graph@.input_names.len() as int)) {
            (Ok(list), Ok(expected)) => value_specs_view(list@) == expected,
            (Err(e), Err(expected)) => e@ == expected,
            _ => false,
        },
{
    let ghost view = graph@;
    let named = graph.inputs();
    let nodes = graph.nodes();
    let ghost n = view.input_names.len() as int;
    let mut list: Vec<ValueSpec> = Vec::new();
    let mut k: usize = 0;
    assert(value_specs_view(list@) =~= Seq::empty());
    while k < named.len()
        invariant
            k <= n,
            lowered_inputs(view, k as int) == Ok::<Seq<ValueSpecView>, ErrorView>(value_specs_view(list@)),
        decreases n - k,
    {
        proof {
            if lowered_inputs(view, k + 1) is Err {
                lowered_inputs_fail(view, k + 1, n);
            }
            assert(view.input_values[k as int].0 < view.nodes.len());
        }
        let value = *named.item(k);
        assert(view.nodes[value.0 as int] == nodes@[value.0 as int]@);
        match lower_input(named.name(k).as_str(), &nodes[value.0].spec) {
            Ok(spec) => {
                let ghost earlier = value_specs_view(list@);
                list.push(spec);
                assert(value_specs_view(list@) =~= earlier.push(spec@));
            },
            Err(e) => {
                return Err(e);
            },
        }
        k += 1;
    }
    Ok(list)
}

fn lower_op(op: &GraphOp) -> (r: Result<Operator>)
    requires
        !(op is Input),
    ensures
        outcome(r) == lowered_op(*op),
{
    match op {
        GraphOp::Identity | GraphOp::Output | GraphOp::Dropout { .. } => Ok(Operator::Identity),
        GraphOp::ReLU => Ok(Operator::Relu),
        GraphOp::Add => Ok(Operator::Add),
        GraphOp::Subtract => Ok(Operator::Subtract),
        GraphOp::Multiply => Ok(Operator::Multiply),
        GraphOp::Flatten { start_dim, end_dim } => Ok(Operator::Flatten { start: *start_dim, end: *end_dim }),
        GraphOp::Concatenate { dim } => Ok(Operator::Cat(*dim)),
        GraphOp::Linear { .. } => Ok(Operator::Linear),
        _ => {
            let form = match op {
                GraphOp::Gelu { approximation: GeluApproximation::Exact } => "Gelu { approximation: None }",
                GraphOp::Gelu { approximation: GeluApproximation::Tanh } => "Gelu { approximation: Tanh }",
                GraphOp::MseLoss => "MseLoss",
                GraphOp::CrossEntropyLoss => "CrossEntropyLoss",
                _ => op.label(),
            };
            let message = join("unsupported graph operation ", form);
            Err(deployment_error(message.as_str()))
        },
    }
}

fn lower_operands(nodes: &[Node], node: &Node) -> (r: Vec<String>)
    requires
        node_is_sound(nodes_view(nodes@), node@),
    ensures
        texts(r@) == lowered_operands(nodes_view(nodes@), node@),
{
    let ghost view = nodes_view(nodes@);
    let ghost values = node@.inputs.map_values(|v: ValueId| view[v.0 as int].name);
    let mut out: Vec<String> = Vec::new();
    let mut k: usize = 0;
    while k < node.inputs.len()
        invariant
            view == nodes_view(nodes@),
            node_is_sound(view, node@),
            values == node@.inputs.map_values(|v: ValueId| view[v.0 as int].name),
            k <= node.inputs@.len(),
            out@.len() == k,
            forall|j: int| 0 <= j < k ==> (#[trigger] out@[j])@ == values[j],
        decreases node.inputs@.len() - k,
    {
        let value = node.inputs[k];
        assert(node@.inputs[k as int].0 < view.len());
        assert(view[value.0 as int] == nodes@[value.0 as int]@);
        out.push(nodes[value.0].name.clone());
        k += 1;
    }
    assert(texts(out@) =~= values);
    if let GraphOp::Linear { bias, .. } = &node.op {
        let weight = join(node.name.as_str(), ".weight");
        out.push(weight);
        assert(texts(out@) =~= values.push(node@.name + ".weight"@));
        if *bias {
            let ghost earlier = texts(out@);
            let name = join(node.name.as_str(), ".bias");
            out.push(name);
            assert(texts(out@) =~= earlier.push(node@.name + ".bias"@));
        }
    }
    out
}

proof fn lowered_operations_fail(nodes: Seq<NodeView>, order: Seq<NodeId>, k: int, n: int)
    requires
        0 <= k <= n,
        lowered_operations(nodes, order, k) is Err,
    ensures
        lowered_operations(nodes, order, n) == lowered_operations(nodes, order, k),
    decreases n - k,
{
    if k < n {
        lowered_operations_fail(nodes, order, k, n - 1);
    }
}

#[verifier::loop_isolation(false)]
fn lower_operations(graph: &Graph) -> (r: Result<Vec<Operation>>)
    requires
        graph@.wf(),
        graph_refusal(graph@) is None,
    ensures
        match (
            r,
            lowered_operations(
                graph@.nodes,
                order_of_nodes(graph@.nodes),
                order_of_nodes(graph@.nodes).len() as int,
            ),
        ) {
            (Ok(list), Ok(expected)) => operations_view(list@) == expected,
            (Err(e), Err(expected)) => e@ == expected,
            _ => false,
        },
{
    let ghost view = graph@.nodes;
    proof {
        valid_graph_is_sound(graph@);
    }
    let nodes = graph.nodes();
    let order = match graph.topological_order() {
        Ok(order) => order,
        Err(e) => {
            return Err(e);
        },
    };
    let ghost n = order@.len() as int;
    proof {
        run_is_distinct(view, order@);
    }
    let mut list: Vec<Operation> = Vec::new();
    let mut k: usize = 0;
    assert(operations_view(list@) =~= Seq::empty());
    while k < order.len()
        invariant
            k <= n,
            lowered_operations(view, order@, k as int) == Ok::<Seq<OperationView>, ErrorView>(operations_view(list@)),
        decreases n - k,
    {
        proof {
            if lowered_operations(view, order@, k + 1) is Err {
                lowered_operations_fail(view, order@, k + 1, n);
            }
            assert(is_active(view, order@[k as int].0 as int));
        }
        let node = &nodes[order[k].0];
        assert(view[order@[k as int].0 as int] == node@);
        let skipped = match node.op {
            GraphOp::Input => true,
            _ => !node.active,
        };
        if !skipped {
            let operator = match lower_op(&node.op) {
                Ok(operator) => operator,
                Err(e) => {
                    return Err(e);
                },
            };
            let operands = lower_operands(nodes, node);
            let ghost earlier = operations_view(list@);
            let operation = Operation::new(node.name.as_str(), operator, operands);
            list.push(operation);
            assert(operations_view(list@) =~= earlier.push(operation@));
        }
        k += 1;
    }
    Ok(list)
}

fn lower_outputs(graph: &Graph) -> (r: Tree)
    requires
        graph@.wf(),
        graph_refusal(graph@) is None,
    ensures
        r@ == lowered_outputs(graph@),
{
    let ghost view = graph@;
    proof {
        valid_graph_is_sound(view);
    }
    let named = graph.outputs();
    let nodes = graph.nodes();
    let mut entries: Vec<(String, Tree)> = Vec::new();
    let mut k: usize = 0;
    while k < named.len()
        invariant
            view.wf(),
            named.listing() == view.output_names,
            named.items() == view.output_values,
            view.nodes == nodes_view(nodes@),
            forall|k: int|
                0 <= k < view.output_names.len() ==> is_reachable(view.nodes, (#[trigger] view.output_values[k]).0 as int),
            k <= view.output_names.len(),
            entries@.len() == k,
            forall|j: int|
                #![trigger entries@[j]]
                0 <= j < k ==> entries@[j].0@ == view.output_names[j] && entries@[j].1@ == TreeView::Tensor(
                    view.nodes[view.output_values[j].0 as int].name,
                ),
        decreases view.output_names.len() - k,
    {
        let value = *named.item(k);
        assert(is_reachable(view.nodes, view.output_values[k as int].0 as int));
        assert(view.nodes[value.0 as int] == nodes@[value.0 as int]@);
        let leaf = nodes[value.0].name.clone();
        proof {
            Tree::tensor_view(leaf);
        }
        entries.push((named.name(k).clone(), Tree::Tensor(leaf)));
        k += 1;
    }
    proof {
        Tree::dict_view(entries);
        assert(entries@.map_values(|e: (String, Tree)| (e.0@, e.1@)) =~= lowered_outputs(view)->Dict_0);
    }
    Tree::Dict(entries)
}

/// Lowers a graph module to a portable program. The module has to be in evaluation mode.
pub fn lower(module: &GraphModule) -> (r: Result<Program>)
    requires
        module.wf(),
    ensures
        outcome(r) == lowered(module@),
{
    if module.is_training() {
        return Err(deployment_error("set graph to evaluation mode before deployment lowering"));
    }
    let graph = module.graph();
    let inputs = match lower_inputs(graph) {
        Ok(inputs) => inputs,
        Err(e) => {
            return Err(e);
        },
    };
    let operations = match lower_operations(graph) {
        Ok(operations) => operations,
        Err(e) => {
            return Err(e);
        },
    };
    let outputs = lower_outputs(graph);
    Ok(Program::new(inputs, operations, outputs))
}

} // verus!
