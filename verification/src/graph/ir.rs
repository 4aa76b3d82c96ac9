//! Nodes and graphs.
use super::op::GraphOp;
use super::spec::{SpecView, TensorSpec};
use crate::names::{ascending, NameMap};
use vstd::prelude::*;

verus! {

/// Stable identifier for a node within one [`Graph`].
#[derive(Debug, Clone, Copy, PartialEq, Eq, PartialOrd, Ord, Hash, Structural)]
pub struct NodeId(
    /// Zero-based node index.
    pub usize,
);

/// Stable identifier for a value produced within one [`Graph`].
#[derive(Debug, Clone, Copy, PartialEq, Eq, PartialOrd, Ord, Hash, Structural)]
pub struct ValueId(
    /// Zero-based producing-node index.
    pub usize,
);

/// One operation and its value edges in a [`Graph`].
#[derive(Debug)]
#[non_exhaustive]
pub struct Node {
    /// Stable node identifier.
    pub id: NodeId,
    /// Unique user-visible name and parameter path.
    pub name: String,
    /// Operation performed by this node.
    pub op: GraphOp,
    /// Values consumed by this node, in operation argument order.
    pub inputs: Vec<ValueId>,
    /// Value produced by this node.
    pub output: ValueId,
    /// Static facts known about the produced value.
    pub spec: TensorSpec,
    /// Whether graph execution and inspection take this node in.
    pub active: bool,
}

/// The content of a [`Node`].
#[verifier::ext_equal]
pub struct NodeView {
    pub id: NodeId,
    pub name: Seq<char>,
    pub op: GraphOp,
    pub inputs: Seq<ValueId>,
    pub output: ValueId,
    pub spec: SpecView,
    pub active: bool,
}

impl View for Node {
    type V = NodeView;

    open spec fn view(&self) -> NodeView {
        NodeView {
            id: self.id,
            name: self.name@,
            op: self.op,
            inputs: self.inputs@,
            output: self.output,
            spec: self.spec@,
            active: self.active,
        }
    }
}

/// Copies a list of value identifiers.
pub fn copy_values(values: &[ValueId]) -> (r: Vec<ValueId>)
    ensures
        r@ == values@,
{
    let mut out: Vec<ValueId> = Vec::new();
    let mut i: usize = 0;
    while i < values.len()
        invariant
            i <= values@.len(),
            out@ == values@.take(i as int),
        decreases values@.len() - i,
    {
        out.push(values[i]);
        assert(out@ =~= values@.take(i as int + 1));
        i += 1;
    }
    assert(out@ =~= values@);
    out
}

impl Clone for Node {
    fn clone(&self) -> (r: Self)
        ensures
            r@ == self@,
    {
        Node {
            id: self.id,
            name: self.name.clone(),
            op: self.op,
            inputs: copy_values(self.inputs.as_slice()),
            output: self.output,
            spec: self.spec.clone(),
            active: self.active,
        }
    }
}

/// The contents of a list of nodes.
pub open spec fn nodes_view(nodes: Seq<Node>) -> Seq<NodeView> {
    nodes.map_values(|n: Node| n@)
}

/// Training state supplied to the graph executor.
#[derive(Debug, Clone, Copy, PartialEq, Eq, Structural)]
#[non_exhaustive]
pub enum ExecutionMode {
    /// Enables training-only behavior such as dropout.
    Training,
    /// Disables training-only behavior.
    Evaluation,
}

/// Device-independent graph definition.
#[derive(Debug, Clone)]
pub struct Graph {
    nodes: Vec<Node>,
    inputs: NameMap<ValueId>,
    outputs: NameMap<ValueId>,
}

/// The content of a [`Graph`]: its nodes, and its named inputs and outputs in name order.
#[verifier::ext_equal]
pub struct GraphView {
    pub nodes: Seq<NodeView>,
    pub input_names: Seq<Seq<char>>,
    pub input_values: Seq<ValueId>,
    pub output_names: Seq<Seq<char>>,
    pub output_values: Seq<ValueId>,
}

/// Every node is identified by its position and produces the value of that position.
pub open spec fn numbered(nodes: Seq<NodeView>) -> bool {
    forall|i: int| 0 <= i < nodes.len() ==> (#[trigger] nodes[i]).id.0 == i && nodes[i].output.0 == i
}

impl GraphView {
    /// Nodes are numbered by position, inputs and outputs are listed in name order, and every
    /// input is the value of a node.
    pub open spec fn wf(self) -> bool {
        &&& numbered(self.nodes)
        &&& self.nodes.len() <= usize::MAX
        &&& self.input_names.len() == self.input_values.len()
        &&& ascending(self.input_names)
        &&& self.output_names.len() == self.output_values.len()
        &&& ascending(self.output_names)
        &&& forall|k: int| 0 <= k < self.input_values.len() ==> (#[trigger] self.input_values[k]).0 < self.nodes.len()
    }
}

impl View for Graph {
    type V = GraphView;

    closed spec fn view(&self) -> GraphView {
        GraphView {
            nodes: nodes_view(self.nodes@),
            input_names: self.inputs.listing(),
            input_values: self.inputs.items(),
            output_names: self.outputs.listing(),
            output_values: self.outputs.items(),
        }
    }
}

impl Graph {
    /// A graph made of its parts.
    pub(crate) fn from_parts(nodes: Vec<Node>, inputs: NameMap<ValueId>, outputs: NameMap<ValueId>) -> (r: Self)
        ensures
            r@.nodes == nodes_view(nodes@),
            r@.input_names == inputs.listing(),
            r@.input_values == inputs.items(),
            r@.output_names == outputs.listing(),
            r@.output_values == outputs.items(),
    {
        Graph { nodes, inputs, outputs }
    }

    /// Returns all nodes, also those made inactive by graph passes.
    pub fn nodes(&self) -> (r: &[Node])
        ensures
            nodes_view(r@) == self@.nodes,
            r@.len() == self@.nodes.len(),
    {
        self.nodes.as_slice()
    }

    /// Returns named graph inputs and their values.
    pub fn inputs(&self) -> (r: &NameMap<ValueId>)
        ensures
            r.listing() == self@.input_names,
            r.items() == self@.input_values,
    {
        &self.inputs
    }

    /// Returns named graph outputs and their values.
    pub fn outputs(&self) -> (r: &NameMap<ValueId>)
        ensures
            r.listing() == self@.output_names,
            r.items() == self@.output_values,
    {
        &self.outputs
    }

    /// Makes a node active or inactive.
    pub(crate) fn set_active(&mut self, i: usize, active: bool)
        requires
            i < old(self)@.nodes.len(),
        ensures
            final(self)@ == (GraphView {
                nodes: old(self)@.nodes.update(i as int, (NodeView { active, ..old(self)@.nodes[i as int] })),
                ..old(self)@
            }),
    {
        let ghost before = self@.nodes;
        let node = &self.nodes[i];
        let changed = Node {
            id: node.id,
            name: node.name.clone(),
            op: node.op,
            inputs: copy_values(node.inputs.as_slice()),
            output: node.output,
            spec: node.spec.clone(),
            active,
        };
        let ghost view = changed@;
        self.nodes.set(i, changed);
        proof {
            assert(nodes_view(self.nodes@) =~= before.update(i as int, view));
        }
    }

    /// Replaces the spec of a node.
    pub(crate) fn set_spec(&mut self, i: usize, spec: TensorSpec)
        requires
            i < old(self)@.nodes.len(),
        ensures
            final(self)@ == (GraphView {
                nodes: old(self)@.nodes.update(i as int, (NodeView { spec: spec@, ..old(self)@.nodes[i as int] })),
                ..old(self)@
            }),
    {
        let ghost before = self@.nodes;
        let node = &self.nodes[i];
        let changed = Node {
            id: node.id,
            name: node.name.clone(),
            op: node.op,
            inputs: copy_values(node.inputs.as_slice()),
            output: node.output,
            spec,
            active: node.active,
        };
        let ghost view = changed@;
        self.nodes.set(i, changed);
        proof {
            assert(nodes_view(self.nodes@) =~= before.update(i as int, view));
        }
    }
}

} // verus!
