//! What makes a graph valid.
use super::ir::{nodes_view, Graph, GraphView, Node, NodeView, ValueId};
use super::op::GraphOp;
use super::order::{has_cycle, is_reachable, reachable_flags};
use super::spec::spec_refusal;
use crate::error::{first_at, first_at_none, first_at_step, graph_error, refusal, ErrorView, Result, RustTorchError};
use crate::names::NameMap;
use crate::nn::functional::{dropout_refusal, validate_dropout};
use crate::text::{decimal, has_char, join3, natural_text};
use vstd::prelude::*;
use vstd::string::*;

verus! {

/// Why a name is refused, if it is.
pub open spec fn name_refusal(name: Seq<char>) -> Option<ErrorView> {
    if name.len() == 0 {
        Some(ErrorView::GraphValidation("names must not be empty"@))
    } else if name.contains('.') || name.contains('/') {
        Some(ErrorView::GraphValidation("name `"@ + name + "` must not contain '.' or '/'"@))
    } else {
        None
    }
}

/// Checks that a name is not empty and holds neither `.` nor `/`.
pub fn validate_name(name: &str) -> (r: Result<()>)
    ensures
        refusal(r) == name_refusal(name@),
{
    if name.is_empty() {
        Err(graph_error("names must not be empty"))
    } else if has_char(name, '.') || has_char(name, '/') {
        let message = join3("name `", name, "` must not contain '.' or '/'");
        Err(graph_error(message.as_str()))
    } else {
        Ok(())
    }
}

/// The debug form of a value identifier.
pub open spec fn value_form(value: ValueId) -> Seq<char> {
    "ValueId("@ + decimal(value.0 as int) + ")"@
}

pub(crate) fn value_text(value: ValueId) -> (r: String)
    ensures
        r@ == value_form(value),
{
    let number = natural_text(value.0 as u64);
    join3("ValueId(", number.as_str(), ")")
}

/// A node's name as it opens an error text.
pub open spec fn node_form(name: Seq<char>) -> Seq<char> {
    "node `"@ + name + "`"@
}

/// A node with the wrong number of operands.
pub open spec fn arity_error(node: NodeView, expected: usize) -> ErrorView {
    ErrorView::GraphValidation(
        "node `"@ + node.name + "` ("@ + node.op.title() + ") expects "@ + decimal(expected as int) + " input(s), got "@
            + decimal(node.inputs.len() as int),
    )
}

/// The check of each operand of a node: its value exists.
pub open spec fn edge_checks(node: NodeView, total: int) -> spec_fn(int) -> Option<ErrorView> {
    |k: int|
        if node.inputs[k].0 >= total {
            Some(
                ErrorView::GraphValidation(
                    "node `"@ + node.name + "` references missing value "@ + value_form(node.inputs[k]),
                ),
            )
        } else {
            None
        }
}

/// Why node `i` is refused, if it is: its name, a name used before, its spec, the number of
/// its operands, an operand that does not exist, or its dropout probability.
pub open spec fn node_refusal(nodes: Seq<NodeView>, i: int) -> Option<ErrorView> {
    let node = nodes[i];
    if name_refusal(node.name) is Some {
        name_refusal(node.name)
    } else if exists|j: int| 0 <= j < i && (#[trigger] nodes[j]).name == node.name {
        Some(ErrorView::DuplicateName(node.name))
    } else if spec_refusal(node.spec, node_form(node.name)) is Some {
        spec_refusal(node.spec, node_form(node.name))
    } else if node.op.arity() is Some && node.inputs.len() != node.op.arity()->0 {
        Some(arity_error(node, node.op.arity()->0))
    } else if node.op is Concatenate && node.inputs.len() == 0 {
        Some(ErrorView::GraphValidation("concatenate node `"@ + node.name + "` requires at least one input"@))
    } else if first_at(0, node.inputs.len() as int, edge_checks(node, nodes.len() as int)) is Some {
        first_at(0, node.inputs.len() as int, edge_checks(node, nodes.len() as int))
    } else {
        match node.op {
            GraphOp::Dropout { probability } => dropout_refusal(probability),
            _ => None,
        }
    }
}

/// The check of each node in turn.
pub open spec fn node_checks(nodes: Seq<NodeView>) -> spec_fn(int) -> Option<ErrorView> {
    |i: int| node_refusal(nodes, i)
}

/// The check of each output: its value exists.
pub open spec fn output_checks(graph: GraphView) -> spec_fn(int) -> Option<ErrorView> {
    |k: int|
        if graph.output_values[k].0 >= graph.nodes.len() {
            Some(
                ErrorView::GraphValidation(
                    "output `"@ + graph.output_names[k] + "` references missing value "@ + value_form(
                        graph.output_values[k],
                    ),
                ),
            )
        } else {
            None
        }
}

/// The check of each output: its value can be computed from inputs.
pub open spec fn reach_checks(graph: GraphView) -> spec_fn(int) -> Option<ErrorView> {
    |k: int|
        if !is_reachable(graph.nodes, graph.output_values[k].0 as int) {
            Some(
                ErrorView::GraphValidation(
                    "output `"@ + graph.output_names[k] + "` is not reachable from graph inputs"@,
                ),
            )
        } else {
            None
        }
}

/// Why a graph is refused, if it is.
pub open spec fn graph_refusal(graph: GraphView) -> Option<ErrorView> {
    let outputs = graph.output_names.len() as int;
    if outputs == 0 {
        Some(ErrorView::GraphValidation("at least one graph output is required"@))
    } else if first_at(0, graph.nodes.len() as int, node_checks(graph.nodes)) is Some {
        first_at(0, graph.nodes.len() as int, node_checks(graph.nodes))
    } else if first_at(0, outputs, output_checks(graph)) is Some {
        first_at(0, outputs, output_checks(graph))
    } else if has_cycle(graph.nodes) {
        Some(ErrorView::GraphValidation("graph contains a cycle"@))
    } else {
        first_at(0, outputs, reach_checks(graph))
    }
}

/// Every operand of every node exists, and every node has as many operands as it takes.
pub open spec fn is_sound(nodes: Seq<NodeView>) -> bool {
    forall|i: int| 0 <= i < nodes.len() ==> node_is_sound(nodes, #[trigger] nodes[i])
}

/// The operands of a node exist and are as many as its operation takes.
pub open spec fn node_is_sound(nodes: Seq<NodeView>, node: NodeView) -> bool {
    &&& node.op.takes(node.inputs.len() as int)
    &&& forall|k: int| 0 <= k < node.inputs.len() ==> (#[trigger] node.inputs[k]).0 < nodes.len()
}

/// A valid graph is sound, acyclic, and its outputs are computed from its inputs.
pub proof fn valid_graph_is_sound(graph: GraphView)
    requires
        graph_refusal(graph) is None,
    ensures
        is_sound(graph.nodes),
        !has_cycle(graph.nodes),
        graph.output_names.len() > 0,
        forall|k: int|
            0 <= k < graph.output_names.len() ==> is_reachable(graph.nodes, (#[trigger] graph.output_values[k]).0 as int),
        forall|i: int, j: int|
            0 <= i < j < graph.nodes.len() ==> (#[trigger] graph.nodes[i]).name != (#[trigger] graph.nodes[j]).name,
{
    let n = graph.nodes.len() as int;
    let outputs = graph.output_names.len() as int;
    first_at_none(0, n, node_checks(graph.nodes));
    first_at_none(0, outputs, reach_checks(graph));
    assert forall|i: int| 0 <= i < n implies node_is_sound(graph.nodes, #[trigger] graph.nodes[i]) by {
        let node = graph.nodes[i];
        assert(node_checks(graph.nodes)(i) is None);
        first_at_none(0, node.inputs.len() as int, edge_checks(node, n));
        assert forall|k: int| 0 <= k < node.inputs.len() implies (#[trigger] node.inputs[k]).0 < n by {
            assert(edge_checks(node, n)(k) is None);
        }
    }
    assert forall|i: int, j: int| 0 <= i < j < n implies (#[trigger] graph.nodes[i]).name != (
    #[trigger] graph.nodes[j]).name by {
        assert(node_checks(graph.nodes)(j) is None);
    }
    assert forall|k: int| 0 <= k < outputs implies is_reachable(graph.nodes, (#[trigger] graph.output_values[k]).0 as int) by {
        assert(reach_checks(graph)(k) is None);
    }
}

fn check_edges(node: &Node, total: usize) -> (r: Result<()>)
    ensures
        refusal(r) == first_at(0, node@.inputs.len() as int, edge_checks(node@, total as int)),
{
    let ghost checks = edge_checks(node@, total as int);
    let ghost n = node@.inputs.len() as int;
    let mut k: usize = 0;
    while k < node.inputs.len()
        invariant
            n == node@.inputs.len(),
            k <= n,
            checks == edge_checks(node@, total as int),
            first_at(0, n, checks) == first_at(k as int, n, checks),
        decreases n - k,
    {
        proof {
            first_at_step(k as int, n, checks);
        }
        let value = node.inputs[k];
        if value.0 >= total {
            let mut message = join3("node `", node.name.as_str(), "` references missing value ");
            let form = value_text(value);
            message.append(form.as_str());
            return Err(graph_error(message.as_str()));
        }
        k += 1;
    }
    Ok(())
}

/// The rules for one node apart from the uniqueness of its name.
fn check_node(node: &Node, total: usize) -> (r: Result<()>)
    requires
        name_refusal(node@.name) is None,
    ensures
        forall|nodes: Seq<NodeView>, i: int|
            0 <= i < nodes.len() && nodes[i] == node@ && nodes.len() == total && !(exists|j: int|
                0 <= j < i && (#[trigger] nodes[j]).name == node@.name) ==> refusal(r) == #[trigger] node_refusal(nodes, i),
{
    let context = join3("node `", node.name.as_str(), "`");
    if let Err(e) = node.spec.validate(context.as_str()) {
        return Err(e);
    }
    if let Some(expected) = node.op.expected_arity() {
        if node.inputs.len() != expected {
            let mut message = join3("node `", node.name.as_str(), "` (");
            message.append(node.op.label());
            message.append(") expects ");
            let wanted = natural_text(expected as u64);
            message.append(wanted.as_str());
            message.append(" input(s), got ");
            let found = natural_text(node.inputs.len() as u64);
            message.append(found.as_str());
            return Err(graph_error(message.as_str()));
        }
    }
    if let GraphOp::Concatenate { .. } = node.op {
        if node.inputs.len() == 0 {
            let message = join3("concatenate node `", node.name.as_str(), "` requires at least one input");
            return Err(graph_error(message.as_str()));
        }
    }
    if let Err(e) = check_edges(node, total) {
        return Err(e);
    }
    if let GraphOp::Dropout { probability } = node.op {
        return validate_dropout(probability);
    }
    Ok(())
}

fn check_nodes(nodes: &[Node]) -> (r: Result<()>)
    ensures
        refusal(r) == first_at(0, nodes@.len() as int, node_checks(nodes_view(nodes@))),
{
    let ghost view = nodes_view(nodes@);
    let ghost n = nodes@.len() as int;
    let ghost checks = node_checks(view);
    let mut names: NameMap<()> = NameMap::new();
    let mut i: usize = 0;
    while i < nodes.len()
        invariant
            view == nodes_view(nodes@),
            n == nodes@.len(),
            i <= n,
            checks == node_checks(view),
            names.wf(),
            forall|name: Seq<char>| #[trigger]
                names@.dom().contains(name) <==> exists|j: int| 0 <= j < i && (#[trigger] view[j]).name == name,
            first_at(0, n, checks) == first_at(i as int, n, checks),
        decreases n - i,
    {
        let node = &nodes[i];
        proof {
            first_at_step(i as int, n, checks);
            assert(view[i as int] == node@);
        }
        if let Err(e) = validate_name(node.name.as_str()) {
            return Err(e);
        }
        let ghost earlier = names@;
        if names.insert(node.name.clone(), ()).is_some() {
            return Err(RustTorchError::DuplicateName(node.name.clone()));
        }
        assert(!(exists|j: int| 0 <= j < i && (#[trigger] view[j]).name == node@.name)) by {
            assert(!earlier.dom().contains(node@.name));
        }
        if let Err(e) = check_node(node, nodes.len()) {
            assert(refusal::<()>(Err(e)) == node_refusal(view, i as int));
            return Err(e);
        }
        assert(node_refusal(view, i as int) is None);
        proof {
            assert forall|name: Seq<char>| #[trigger]
                names@.dom().contains(name) <==> exists|j: int| 0 <= j < i + 1 && (#[trigger] view[j]).name == name by {
                if name == node@.name {
                    assert(view[i as int].name == name);
                } else {
                    assert(names@.dom().contains(name) == earlier.dom().contains(name));
                    if exists|j: int| 0 <= j < i + 1 && (#[trigger] view[j]).name == name {
                        let j = choose|j: int| 0 <= j < i + 1 && (#[trigger] view[j]).name == name;
                        assert(j != i);
                    }
                }
            }
        }
        i += 1;
    }
    Ok(())
}

impl Graph {
    /// Validates names, edges, arity, tensor specs, acyclicity, and outputs.
    #[verifier::loop_isolation(false)]
    pub fn validate(&self) -> (r: Result<()>)
        requires
            self@.wf(),
        ensures
            refusal(r) == graph_refusal(self@),
    {
        let ghost view = self@;
        let outputs = self.outputs();
        let ghost total = outputs.listing().len() as int;
        if outputs.len() == 0 {
            return Err(graph_error("at least one graph output is required"));
        }
        let nodes = self.nodes();
        if let Err(e) = check_nodes(nodes) {
            return Err(e);
        }
        let ghost exist = output_checks(view);
        let mut k: usize = 0;
        while k < outputs.len()
            invariant
                k <= total,
                first_at(0, total, exist) == first_at(k as int, total, exist),
            decreases total - k,
        {
            proof {
                first_at_step(k as int, total, exist);
            }
            let value = *outputs.item(k);
            if value.0 >= nodes.len() {
                let mut message = join3("output `", outputs.name(k).as_str(), "` references missing value ");
                let form = value_text(value);
                message.append(form.as_str());
                return Err(graph_error(message.as_str()));
            }
            k += 1;
        }
        proof {
            first_at_none(0, total, exist);
        }
        let order = match self.topological_order() {
            Ok(order) => order,
            Err(e) => {
                return Err(e);
            },
        };
        let flags = reachable_flags(self, &order);
        let ghost reach = reach_checks(view);
        k = 0;
        while k < outputs.len()
            invariant
                k <= total,
                first_at(0, total, reach) == first_at(k as int, total, reach),
            decreases total - k,
        {
            proof {
                first_at_step(k as int, total, reach);
                assert(exist(k as int) is None);
            }
            let value = *outputs.item(k);
            if !flags[value.0] {
                let message = join3("output `", outputs.name(k).as_str(), "` is not reachable from graph inputs");
                return Err(graph_error(message.as_str()));
            }
            k += 1;
        }
        Ok(())
    }
}

} // verus!
