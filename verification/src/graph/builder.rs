//! Step-by-step construction of graphs.
use super::check::{
    graph_refusal, is_sound, name_refusal, node_is_sound, validate_name, valid_graph_is_sound, value_form, value_text,
};
use super::infer::{
    binary_spec, concat_spec, flatten_spec, infer_binary_spec, infer_concat_spec, infer_flatten_spec, project_spec,
    projected, specs_view,
};
use super::ir::{nodes_view, numbered, Graph, GraphView, Node, NodeId, NodeView, ValueId};
use super::op::GraphOp;
use super::order::{has_cycle, is_knot, depends_on_knot, order_of_nodes};
use super::passes::{live_nodes, propagated, DeadNodeElimination, GraphPass, ShapePropagation};
use super::spec::{spec_refusal, Dim, DimView, SpecView, TensorSpec};
use crate::error::{graph_error, refusal, ErrorView, Result, RustTorchError};
use crate::float::Binary64;
use crate::kind::Kind;
use crate::names::{items_of, listing_of, NameMap};
use crate::nn::functional::{dropout_refusal, validate_dropout};
use crate::nn::GeluApproximation;
use crate::text::{decimal, integer_text, join, join3, owned};
use vstd::prelude::*;
use vstd::string::*;

verus! {

/// Incremental graph construction with stable node and value identifiers.
#[derive(Debug)]
pub struct GraphBuilder {
    nodes: Vec<Node>,
    names: NameMap<()>,
    inputs: NameMap<ValueId>,
    outputs: NameMap<ValueId>,
}

/// The content of a [`GraphBuilder`].
#[verifier::ext_equal]
pub struct BuilderView {
    /// The nodes added so far.
    pub nodes: Seq<NodeView>,
    /// The names that are taken.
    pub names: Set<Seq<char>>,
    /// The named inputs.
    pub inputs: Map<Seq<char>, ValueId>,
    /// The named outputs.
    pub outputs: Map<Seq<char>, ValueId>,
}

impl BuilderView {
    /// A builder that holds nothing.
    pub open spec fn empty() -> BuilderView {
        BuilderView { nodes: Seq::empty(), names: Set::empty(), inputs: Map::empty(), outputs: Map::empty() }
    }

    /// Every node follows the nodes it depends on, has as many operands as it takes, a valid
    /// name that is taken, and is active.
    pub open spec fn wf(self) -> bool {
        &&& numbered(self.nodes)
        &&& self.nodes.len() <= usize::MAX
        &&& forall|i: int| 0 <= i < self.nodes.len() ==> self.node_wf(i, #[trigger] self.nodes[i])
        &&& forall|i: int, j: int|
            0 <= i < j < self.nodes.len() ==> (#[trigger] self.nodes[i]).name != (#[trigger] self.nodes[j]).name
        &&& forall|name: Seq<char>| #[trigger] self.inputs.dom().contains(name) ==> self.inputs[name].0 < self.nodes.len()
    }

    /// What holds of each node.
    pub open spec fn node_wf(self, i: int, node: NodeView) -> bool {
        &&& node.active
        &&& node.op.takes(node.inputs.len() as int)
        &&& forall|k: int| 0 <= k < node.inputs.len() ==> (#[trigger] node.inputs[k]).0 < i
        &&& name_refusal(node.name) is None
        &&& self.names.contains(node.name)
    }

    /// The graph that the builder describes.
    pub open spec fn graph(self) -> GraphView {
        GraphView {
            nodes: self.nodes,
            input_names: listing_of(self.inputs),
            input_values: items_of(self.inputs),
            output_names: listing_of(self.outputs),
            output_values: items_of(self.outputs),
        }
    }
}

/// What a step of construction leaves behind and returns.
#[verifier::ext_equal]
pub struct Step {
    /// The builder after the step.
    pub builder: BuilderView,
    /// The value of the new node, or why there is none.
    pub result: core::result::Result<ValueId, ErrorView>,
}

/// A step that changes nothing and returns an error.
pub open spec fn refused(builder: BuilderView, e: ErrorView) -> Step {
    Step { builder, result: Err(e) }
}

/// A value that no node produces.
pub open spec fn missing(value: ValueId) -> ErrorView {
    ErrorView::GraphValidation("value "@ + value_form(value) + " does not exist"@)
}

/// The first operand that no node produces.
pub open spec fn first_missing(nodes: Seq<NodeView>, inputs: Seq<ValueId>, from: int) -> Option<ErrorView>
    decreases inputs.len() - from,
{
    if from >= inputs.len() {
        None
    } else if inputs[from].0 >= nodes.len() {
        Some(missing(inputs[from]))
    } else {
        first_missing(nodes, inputs, from + 1)
    }
}

/// Adds a node. Its name is taken even when an operand turns out to be missing.
pub open spec fn pushed(builder: BuilderView, name: Seq<char>, op: GraphOp, inputs: Seq<ValueId>, spec: SpecView) -> Step {
    let n = builder.nodes.len();
    let named = BuilderView { names: builder.names.insert(name), ..builder };
    if name_refusal(name) is Some {
        refused(builder, name_refusal(name)->0)
    } else if builder.names.contains(name) {
        refused(builder, ErrorView::DuplicateName(name))
    } else if first_missing(builder.nodes, inputs, 0) is Some {
        refused(named, first_missing(builder.nodes, inputs, 0)->0)
    } else {
        let node = NodeView {
            id: NodeId(n as usize),
            name,
            op,
            inputs,
            output: ValueId(n as usize),
            spec,
            active: true,
        };
        Step { builder: BuilderView { nodes: builder.nodes.push(node), ..named }, result: Ok(ValueId(n as usize)) }
    }
}

/// Adds a node with one operand, whose spec it takes over.
pub open spec fn unary_step(builder: BuilderView, name: Seq<char>, op: GraphOp, input: ValueId) -> Step {
    if input.0 >= builder.nodes.len() {
        refused(builder, missing(input))
    } else {
        pushed(builder, name, op, seq![input], builder.nodes[input.0 as int].spec)
    }
}

/// Adds an element-wise node with two operands.
pub open spec fn binary_step(builder: BuilderView, name: Seq<char>, op: GraphOp, left: ValueId, right: ValueId) -> Step {
    if left.0 >= builder.nodes.len() {
        refused(builder, missing(left))
    } else if right.0 >= builder.nodes.len() {
        refused(builder, missing(right))
    } else {
        match binary_spec(builder.nodes[left.0 as int].spec, builder.nodes[right.0 as int].spec) {
            Err(e) => refused(builder, e),
            Ok(spec) => pushed(builder, name, op, seq![left, right], spec),
        }
    }
}

/// The spec of a scalar loss.
pub open spec fn loss_spec(kind: Option<Kind>) -> SpecView {
    SpecView {
        dimensions: Some(Seq::empty()),
        rank: Some(0),
        kind: Some(
            match kind {
                Some(kind) => kind,
                None => Kind::Float,
            },
        ),
        device: None,
    }
}

/// Adds a scalar loss over two operands.
pub open spec fn loss_step(builder: BuilderView, name: Seq<char>, op: GraphOp, input: ValueId, target: ValueId) -> Step {
    if input.0 >= builder.nodes.len() {
        refused(builder, missing(input))
    } else if target.0 >= builder.nodes.len() {
        refused(builder, missing(target))
    } else {
        let left = builder.nodes[input.0 as int].spec.kind;
        let right = builder.nodes[target.0 as int].spec.kind;
        match (left, right) {
            (Some(l), Some(r)) if op is MseLoss && l != r => refused(
                builder,
                super::infer::dtype_conflict("MSE"@, l, r),
            ),
            _ => pushed(builder, name, op, seq![input, target], loss_spec(left)),
        }
    }
}

/// Adds a runtime input.
pub open spec fn input_step(builder: BuilderView, name: Seq<char>, spec: SpecView) -> Step {
    match spec_refusal(spec, "input `"@ + name + "`"@) {
        Some(e) => refused(builder, e),
        None => {
            let step = pushed(builder, name, GraphOp::Input, Seq::empty(), spec);
            match step.result {
                Err(_) => step,
                Ok(value) => Step {
                    builder: BuilderView { inputs: step.builder.inputs.insert(name, value), ..step.builder },
                    ..step
                },
            }
        },
    }
}

/// Adds a named output.
pub open spec fn output_step(builder: BuilderView, name: Seq<char>, value: ValueId) -> Step {
    let step = unary_step(builder, name, GraphOp::Output, value);
    match step.result {
        Err(_) => step,
        Ok(output) => Step {
            builder: BuilderView { outputs: step.builder.outputs.insert(name, output), ..step.builder },
            ..step
        },
    }
}

/// The last dimension, when it is known.
pub open spec fn last_known(spec: SpecView) -> Option<i64> {
    match spec.dimensions {
        Some(dims) => if dims.len() > 0 {
            match dims.last() {
                DimView::Known(value) => Some(value),
                _ => None,
            }
        } else {
            None
        },
        None => None,
    }
}

/// Adds a linear transformation.
pub open spec fn linear_step(
    builder: BuilderView,
    name: Seq<char>,
    input: ValueId,
    in_features: i64,
    out_features: i64,
    bias: bool,
) -> Step {
    if in_features < 0 || out_features < 0 {
        refused(
            builder,
            ErrorView::InvalidConfiguration {
                field: "graph linear dimensions"@,
                reason: "in_features and out_features must be non-negative, got "@ + decimal(in_features as int) + " and "@
                    + decimal(out_features as int),
                value: None,
            },
        )
    } else if input.0 >= builder.nodes.len() {
        refused(builder, missing(input))
    } else {
        let spec = builder.nodes[input.0 as int].spec;
        match last_known(spec) {
            Some(actual) if actual != in_features => refused(
                builder,
                ErrorView::InvalidDimensions {
                    context: "graph linear input"@,
                    expected: "last dimension "@ + decimal(in_features as int),
                    actual: decimal(actual as int),
                },
            ),
            _ => pushed(
                builder,
                name,
                GraphOp::Linear { in_features, out_features, bias },
                seq![input],
                projected(spec, out_features),
            ),
        }
    }
}

/// Adds a flattening.
pub open spec fn flatten_step(builder: BuilderView, name: Seq<char>, input: ValueId, start_dim: i64, end_dim: i64) -> Step {
    if input.0 >= builder.nodes.len() {
        refused(builder, missing(input))
    } else {
        match flatten_spec(builder.nodes[input.0 as int].spec, start_dim as int, end_dim as int) {
            Err(e) => refused(builder, e),
            Ok(spec) => pushed(builder, name, GraphOp::Flatten { start_dim, end_dim }, seq![input], spec),
        }
    }
}

/// Adds a concatenation.
pub open spec fn concatenate_step(builder: BuilderView, name: Seq<char>, inputs: Seq<ValueId>, dim: i64) -> Step {
    if inputs.len() == 0 {
        refused(builder, ErrorView::GraphValidation("concatenate requires at least one input"@))
    } else if first_missing(builder.nodes, inputs, 0) is Some {
        refused(builder, first_missing(builder.nodes, inputs, 0)->0)
    } else {
        match concat_spec(inputs.map_values(|v: ValueId| builder.nodes[v.0 as int].spec), dim as int) {
            Err(e) => refused(builder, e),
            Ok(spec) => pushed(builder, name, GraphOp::Concatenate { dim }, inputs, spec),
        }
    }
}

/// Adds a cross-entropy loss.
pub open spec fn cross_entropy_step(builder: BuilderView, name: Seq<char>, logits: ValueId, target: ValueId) -> Step {
    if target.0 >= builder.nodes.len() {
        refused(builder, missing(target))
    } else {
        match builder.nodes[target.0 as int].spec.kind {
            Some(kind) if kind != Kind::Int64 => refused(
                builder,
                ErrorView::GraphValidation("cross-entropy target must be Int64, got "@ + kind.form()),
            ),
            _ => loss_step(builder, name, GraphOp::CrossEntropyLoss, logits, target),
        }
    }
}

/// Adds dropout.
pub open spec fn dropout_step(builder: BuilderView, name: Seq<char>, input: ValueId, probability: Binary64) -> Step {
    match dropout_refusal(probability) {
        Some(e) => refused(builder, e),
        None => unary_step(builder, name, GraphOp::Dropout { probability }, input),
    }
}

/// What a step returns, as an executable result.
pub open spec fn stepped(r: Result<ValueId>) -> core::result::Result<ValueId, ErrorView> {
    match r {
        Ok(value) => Ok(value),
        Err(e) => Err(e@),
    }
}

/// The graph once dead nodes are inactive.
pub open spec fn pruned(graph: GraphView) -> GraphView {
    GraphView { nodes: live_nodes(graph), ..graph }
}

/// The finished graph, or why there is none: the graph is validated, its dead nodes are made
/// inactive, its specs are propagated, and it is validated again.
pub open spec fn finished(builder: BuilderView) -> core::result::Result<GraphView, ErrorView> {
    let start = builder.graph();
    if graph_refusal(start) is Some {
        Err(graph_refusal(start)->0)
    } else {
        let live = pruned(start);
        let order = order_of_nodes(live.nodes);
        let (nodes, stopped) = propagated(live.nodes, order, order.len() as int);
        let end = GraphView { nodes, ..live };
        if has_cycle(live.nodes) {
            Err(ErrorView::GraphValidation("graph contains a cycle"@))
        } else if stopped is Some {
            Err(stopped->0)
        } else if graph_refusal(end) is Some {
            Err(graph_refusal(end)->0)
        } else {
            Ok(end)
        }
    }
}

/// No graph made by a builder has a cycle: every operand comes before its node.
pub proof fn built_is_acyclic(builder: BuilderView, nodes: Seq<NodeView>)
    requires
        builder.wf(),
        nodes.len() == builder.nodes.len(),
        forall|i: int| 0 <= i < nodes.len() ==> (#[trigger] nodes[i]).inputs == builder.nodes[i].inputs,
    ensures
        !has_cycle(nodes),
{
    if has_cycle(nodes) {
        let knot = choose|knot: Set<int>| is_knot(nodes, knot);
        let start = choose|i: int| knot.contains(i);
        assert(depends_on_knot(nodes, knot, start));
        no_descent(builder, nodes, knot, start);
    }
}

proof fn no_descent(builder: BuilderView, nodes: Seq<NodeView>, knot: Set<int>, i: int)
    requires
        builder.wf(),
        nodes.len() == builder.nodes.len(),
        forall|i: int| 0 <= i < nodes.len() ==> (#[trigger] nodes[i]).inputs == builder.nodes[i].inputs,
        is_knot(nodes, knot),
        0 <= i < nodes.len(),
    ensures
        !knot.contains(i),
    decreases i,
{
    if knot.contains(i) {
        assert(depends_on_knot(nodes, knot, i));
        let k = choose|k: int| 0 <= k < nodes[i].inputs.len() && knot.contains((#[trigger] nodes[i].inputs[k]).0 as int);
        assert(builder.node_wf(i, builder.nodes[i]));
        assert(builder.nodes[i].inputs[k].0 < i);
        no_descent(builder, nodes, knot, nodes[i].inputs[k].0 as int);
    }
}

impl View for GraphBuilder {
    type V = BuilderView;

    closed spec fn view(&self) -> BuilderView {
        BuilderView {
            nodes: nodes_view(self.nodes@),
            names: self.names@.dom(),
            inputs: self.inputs@,
            outputs: self.outputs@,
        }
    }
}

impl Default for GraphBuilder {
    fn default() -> (r: Self)
        ensures
            r.wf(),
            r@ == BuilderView::empty(),
    {
        GraphBuilder::new()
    }
}

impl GraphBuilder {
    /// The name tables are in order and the nodes are sound.
    pub closed spec fn wf(self) -> bool {
        &&& self.names.wf()
        &&& self.inputs.wf()
        &&& self.outputs.wf()
        &&& self@.wf()
    }

    /// Every builder's content is well formed.
    pub proof fn wf_view(self)
        requires
            self.wf(),
        ensures
            self@.wf(),
    {
    }

    /// Creates an empty graph builder.
    pub fn new() -> (r: Self)
        ensures
            r.wf(),
            r@ == BuilderView::empty(),
    {
        let r = GraphBuilder {
            nodes: Vec::new(),
            names: NameMap::new(),
            inputs: NameMap::new(),
            outputs: NameMap::new(),
        };
        proof {
            assert(r@.nodes =~= Seq::<NodeView>::empty());
            assert(r@.names =~= Set::<Seq<char>>::empty());
        }
        r
    }

    fn spec(&self, value: ValueId) -> (r: Result<&TensorSpec>)
        ensures
            match r {
                Ok(spec) => value.0 < self@.nodes.len() && spec@ == self@.nodes[value.0 as int].spec,
                Err(e) => value.0 >= self@.nodes.len() && e@ == missing(value),
            },
    {
        if value.0 < self.nodes.len() {
            assert(nodes_view(self.nodes@)[value.0 as int] == self.nodes@[value.0 as int]@);
            Ok(&self.nodes[value.0].spec)
        } else {
            let form = value_text(value);
            let message = join3("value ", form.as_str(), " does not exist");
            Err(graph_error(message.as_str()))
        }
    }

    fn check_operands(&self, inputs: &Vec<ValueId>) -> (r: Result<()>)
        ensures
            refusal(r) == first_missing(self@.nodes, inputs@, 0),
    {
        let mut k: usize = 0;
        while k < inputs.len()
            invariant
                k <= inputs@.len(),
                first_missing(self@.nodes, inputs@, 0) == first_missing(self@.nodes, inputs@, k as int),
            decreases inputs@.len() - k,
        {
            match self.spec(inputs[k]) {
                Ok(_) => {},
                Err(e) => {
                    return Err(e);
                },
            }
            k += 1;
        }
        Ok(())
    }

    fn push_node(&mut self, name: &str, op: GraphOp, inputs: Vec<ValueId>, spec: TensorSpec) -> (r: Result<ValueId>)
        requires
            old(self).wf(),
            op.takes(inputs@.len() as int),
            old(self)@.nodes.len() < usize::MAX,
        ensures
            final(self).wf(),
            final(self)@ == pushed(old(self)@, name@, op, inputs@, spec@).builder,
            stepped(r) == pushed(old(self)@, name@, op, inputs@, spec@).result,
    {
        let ghost start = self@;
        if let Err(e) = validate_name(name) {
            return Err(e);
        }
        let owned_name = owned(name);
        if self.names.contains(name) {
            return Err(RustTorchError::DuplicateName(owned_name));
        }
        self.names.insert(owned_name.clone(), ());
        assert(self@.names =~= start.names.insert(name@));
        proof {
            assert forall|i: int| 0 <= i < self@.nodes.len() implies self@.node_wf(i, #[trigger] self@.nodes[i]) by {
                assert(start.node_wf(i, start.nodes[i]));
            }
        }
        if let Err(e) = self.check_operands(&inputs) {
            return Err(e);
        }
        let at: usize = self.nodes.len();
        let node = Node { id: NodeId(at), name: owned_name, op, inputs, output: ValueId(at), spec, active: true };
        let ghost view = node@;
        proof {
            operands_exist(start.nodes, view.inputs, 0);
        }
        self.nodes.push(node);
        proof {
            assert(self@.nodes =~= start.nodes.push(view));
            assert forall|i: int| 0 <= i < self@.nodes.len() implies self@.node_wf(i, #[trigger] self@.nodes[i]) by {
                if i < start.nodes.len() {
                    assert(start.node_wf(i, start.nodes[i]));
                    assert(self@.nodes[i] == start.nodes[i]);
                }
            }
            assert forall|i: int, j: int| 0 <= i < j < self@.nodes.len() implies (#[trigger] self@.nodes[i]).name != (
            #[trigger] self@.nodes[j]).name by {
                assert(start.node_wf(i, start.nodes[i]));
                if j < start.nodes.len() {
                    assert(start.nodes[i].name != start.nodes[j].name);
                }
            }
            assert(numbered(self@.nodes)) by {
                assert forall|i: int| 0 <= i < self@.nodes.len() implies (#[trigger] self@.nodes[i]).id.0 == i && self@.nodes[i].output.0 == i by {
                    if i < start.nodes.len() {
                        assert(self@.nodes[i] == start.nodes[i]);
                    }
                }
            }
        }
        Ok(ValueId(at))
    }

    fn unary(&mut self, name: &str, op: GraphOp, input: ValueId) -> (r: Result<ValueId>)
        requires
            old(self).wf(),
            op.takes(1),
            old(self)@.nodes.len() < usize::MAX,
        ensures
            final(self).wf(),
            final(self)@ == unary_step(old(self)@, name@, op, input).builder,
            stepped(r) == unary_step(old(self)@, name@, op, input).result,
    {
        let spec = match self.spec(input) {
            Ok(spec) => spec.clone(),
            Err(e) => {
                return Err(e);
            },
        };
        let inputs: Vec<ValueId> = vec![input];
        assert(inputs@ =~= seq![input]);
        self.push_node(name, op, inputs, spec)
    }

    fn binary(&mut self, name: &str, op: GraphOp, left: ValueId, right: ValueId) -> (r: Result<ValueId>)
        requires
            old(self).wf(),
            op.takes(2),
            old(self)@.nodes.len() < usize::MAX,
        ensures
            final(self).wf(),
            final(self)@ == binary_step(old(self)@, name@, op, left, right).builder,
            stepped(r) == binary_step(old(self)@, name@, op, left, right).result,
    {
        let spec = match (self.spec(left), self.spec(right)) {
            (Err(e), _) => {
                return Err(e);
            },
            (_, Err(e)) => {
                return Err(e);
            },
            (Ok(l), Ok(r)) => match infer_binary_spec(l, r) {
                Ok(spec) => spec,
                Err(e) => {
                    return Err(e);
                },
            },
        };
        let inputs: Vec<ValueId> = vec![left, right];
        assert(inputs@ =~= seq![left, right]);
        self.push_node(name, op, inputs, spec)
    }

    fn loss(&mut self, name: &str, op: GraphOp, input: ValueId, target: ValueId) -> (r: Result<ValueId>)
        requires
            old(self).wf(),
            op.takes(2),
            old(self)@.nodes.len() < usize::MAX,
        ensures
            final(self).wf(),
            final(self)@ == loss_step(old(self)@, name@, op, input, target).builder,
            stepped(r) == loss_step(old(self)@, name@, op, input, target).result,
    {
        let left = match self.spec(input) {
            Ok(spec) => spec.kind_value(),
            Err(e) => {
                return Err(e);
            },
        };
        let right = match self.spec(target) {
            Ok(spec) => spec.kind_value(),
            Err(e) => {
                return Err(e);
            },
        };
        if let GraphOp::MseLoss = op {
            if let (Some(l), Some(r)) = (left, right) {
                if l != r {
                    return Err(super::infer::dtype_error("MSE", l, r));
                }
            }
        }
        let kind = match left {
            Some(kind) => kind,
            None => Kind::Float,
        };
        let scalar: Vec<Dim> = Vec::new();
        let spec = TensorSpec::new().dimensions(scalar).kind(kind);
        assert(spec@.dimensions->0 =~= Seq::<DimView>::empty());
        let inputs: Vec<ValueId> = vec![input, target];
        assert(inputs@ =~= seq![input, target]);
        self.push_node(name, op, inputs, spec)
    }

    /// Adds a named runtime input with optional tensor constraints.
    pub fn input(&mut self, name: &str, spec: TensorSpec) -> (r: Result<ValueId>)
        requires
            old(self).wf(),
            old(self)@.nodes.len() < usize::MAX,
        ensures
            final(self).wf(),
            final(self)@ == input_step(old(self)@, name@, spec@).builder,
            stepped(r) == input_step(old(self)@, name@, spec@).result,
    {
        let context = join3("input `", name, "`");
        if let Err(e) = spec.validate(context.as_str()) {
            return Err(e);
        }
        let none: Vec<ValueId> = Vec::new();
        match self.push_node(name, GraphOp::Input, none, spec) {
            Err(e) => Err(e),
            Ok(value) => {
                let ghost middle = self@;
                self.inputs.insert(owned(name), value);
                proof {
                    assert forall|i: int| 0 <= i < self@.nodes.len() implies self@.node_wf(i, #[trigger] self@.nodes[i]) by {
                        assert(middle.node_wf(i, middle.nodes[i]));
                    }
                }
                Ok(value)
            },
        }
    }

    /// Adds a pass-through operation.
    pub fn identity(&mut self, name: &str, input: ValueId) -> (r: Result<ValueId>)
        requires
            old(self).wf(),
            old(self)@.nodes.len() < usize::MAX,
        ensures
            final(self).wf(),
            final(self)@ == unary_step(old(self)@, name@, GraphOp::Identity, input).builder,
            stepped(r) == unary_step(old(self)@, name@, GraphOp::Identity, input).result,
    {
        self.unary(name, GraphOp::Identity, input)
    }

    /// Adds a biased linear transformation.
    pub fn linear(&mut self, name: &str, input: ValueId, in_features: i64, out_features: i64) -> (r: Result<ValueId>)
        requires
            old(self).wf(),
            old(self)@.nodes.len() < usize::MAX,
        ensures
            final(self).wf(),
            final(self)@ == linear_step(old(self)@, name@, input, in_features, out_features, true).builder,
            stepped(r) == linear_step(old(self)@, name@, input, in_features, out_features, true).result,
    {
        self.linear_config(name, input, in_features, out_features, true)
    }

    /// Adds a linear transformation with explicit bias configuration.
    pub fn linear_config(
        &mut self,
        name: &str,
        input: ValueId,
        in_features: i64,
        out_features: i64,
        bias: bool,
    ) -> (r: Result<ValueId>)
        requires
            old(self).wf(),
            old(self)@.nodes.len() < usize::MAX,
        ensures
            final(self).wf(),
            final(self)@ == linear_step(old(self)@, name@, input, in_features, out_features, bias).builder,
            stepped(r) == linear_step(old(self)@, name@, input, in_features, out_features, bias).result,
    {
        if in_features < 0 || out_features < 0 {
            let mut reason = owned("in_features and out_features must be non-negative, got ");
            let first = integer_text(in_features);
            reason.append(first.as_str());
            reason.append(" and ");
            let second = integer_text(out_features);
            reason.append(second.as_str());
            return Err(RustTorchError::InvalidConfiguration { field: "graph linear dimensions", reason, value: None });
        }
        let spec = match self.spec(input) {
            Ok(spec) => spec,
            Err(e) => {
                return Err(e);
            },
        };
        if let Some(dims) = spec.dims() {
            if dims.len() > 0 {
                assert(super::spec::dims_view(dims@).last() == dims@.last()@);
                if let Dim::Known(actual) = &dims[dims.len() - 1] {
                    if *actual != in_features {
                        let wanted = integer_text(in_features);
                        let expected = join("last dimension ", wanted.as_str());
                        return Err(
                            RustTorchError::InvalidDimensions {
                                context: owned("graph linear input"),
                                expected,
                                actual: integer_text(*actual),
                            },
                        );
                    }
                }
            }
        }
        let projected_spec = project_spec(spec, out_features);
        let inputs: Vec<ValueId> = vec![input];
        assert(inputs@ =~= seq![input]);
        self.push_node(name, GraphOp::Linear { in_features, out_features, bias }, inputs, projected_spec)
    }

    /// Adds an element-wise ReLU operation.
    pub fn relu(&mut self, name: &str, input: ValueId) -> (r: Result<ValueId>)
        requires
            old(self).wf(),
            old(self)@.nodes.len() < usize::MAX,
        ensures
            final(self).wf(),
            final(self)@ == unary_step(old(self)@, name@, GraphOp::ReLU, input).builder,
            stepped(r) == unary_step(old(self)@, name@, GraphOp::ReLU, input).result,
    {
        self.unary(name, GraphOp::ReLU, input)
    }

    /// Adds an exact element-wise GELU operation.
    pub fn gelu(&mut self, name: &str, input: ValueId) -> (r: Result<ValueId>)
        requires
            old(self).wf(),
            old(self)@.nodes.len() < usize::MAX,
        ensures
            final(self).wf(),
            final(self)@ == unary_step(
                old(self)@,
                name@,
                (GraphOp::Gelu { approximation: GeluApproximation::Exact }),
                input,
            ).builder,
            stepped(r) == unary_step(
                old(self)@,
                name@,
                (GraphOp::Gelu { approximation: GeluApproximation::Exact }),
                input,
            ).result,
    {
        self.unary(name, GraphOp::Gelu { approximation: GeluApproximation::Exact }, input)
    }

    /// Adds dropout with a probability in the inclusive range `[0, 1]`.
    pub fn dropout(&mut self, name: &str, input: ValueId, probability: Binary64) -> (r: Result<ValueId>)
        requires
            old(self).wf(),
            old(self)@.nodes.len() < usize::MAX,
        ensures
            final(self).wf(),
            final(self)@ == dropout_step(old(self)@, name@, input, probability).builder,
            stepped(r) == dropout_step(old(self)@, name@, input, probability).result,
    {
        if let Err(e) = validate_dropout(probability) {
            return Err(e);
        }
        self.unary(name, GraphOp::Dropout { probability }, input)
    }

    /// Adds flattening over the inclusive dimension range.
    pub fn flatten(&mut self, name: &str, input: ValueId, start_dim: i64, end_dim: i64) -> (r: Result<ValueId>)
        requires
            old(self).wf(),
            old(self)@.nodes.len() < usize::MAX,
        ensures
            final(self).wf(),
            final(self)@ == flatten_step(old(self)@, name@, input, start_dim, end_dim).builder,
            stepped(r) == flatten_step(old(self)@, name@, input, start_dim, end_dim).result,
    {
        let spec = match self.spec(input) {
            Ok(spec) => match infer_flatten_spec(spec, start_dim, end_dim) {
                Ok(spec) => spec,
                Err(e) => {
                    return Err(e);
                },
            },
            Err(e) => {
                return Err(e);
            },
        };
        let inputs: Vec<ValueId> = vec![input];
        assert(inputs@ =~= seq![input]);
        self.push_node(name, GraphOp::Flatten { start_dim, end_dim }, inputs, spec)
    }

    /// Adds element-wise addition with broadcasting.
    pub fn add(&mut self, name: &str, left: ValueId, right: ValueId) -> (r: Result<ValueId>)
        requires
            old(self).wf(),
            old(self)@.nodes.len() < usize::MAX,
        ensures
            final(self).wf(),
            final(self)@ == binary_step(old(self)@, name@, GraphOp::Add, left, right).builder,
            stepped(r) == binary_step(old(self)@, name@, GraphOp::Add, left, right).result,
    {
        self.binary(name, GraphOp::Add, left, right)
    }

    /// Adds element-wise subtraction with broadcasting.
    pub fn subtract(&mut self, name: &str, left: ValueId, right: ValueId) -> (r: Result<ValueId>)
        requires
            old(self).wf(),
            old(self)@.nodes.len() < usize::MAX,
        ensures
            final(self).wf(),
            final(self)@ == binary_step(old(self)@, name@, GraphOp::Subtract, left, right).builder,
            stepped(r) == binary_step(old(self)@, name@, GraphOp::Subtract, left, right).result,
    {
        self.binary(name, GraphOp::Subtract, left, right)
    }

    /// Adds element-wise multiplication with broadcasting.
    pub fn multiply(&mut self, name: &str, left: ValueId, right: ValueId) -> (r: Result<ValueId>)
        requires
            old(self).wf(),
            old(self)@.nodes.len() < usize::MAX,
        ensures
            final(self).wf(),
            final(self)@ == binary_step(old(self)@, name@, GraphOp::Multiply, left, right).builder,
            stepped(r) == binary_step(old(self)@, name@, GraphOp::Multiply, left, right).result,
    {
        self.binary(name, GraphOp::Multiply, left, right)
    }

    /// Adds concatenation of one or more values along `dim`.
    pub fn concatenate(&mut self, name: &str, inputs: Vec<ValueId>, dim: i64) -> (r: Result<ValueId>)
        requires
            old(self).wf(),
            old(self)@.nodes.len() < usize::MAX,
        ensures
            final(self).wf(),
            final(self)@ == concatenate_step(old(self)@, name@, inputs@, dim).builder,
            stepped(r) == concatenate_step(old(self)@, name@, inputs@, dim).result,
    {
        if inputs.len() == 0 {
            return Err(graph_error("concatenate requires at least one input"));
        }
        let ghost view = self@;
        let mut specs: Vec<TensorSpec> = Vec::new();
        let mut k: usize = 0;
        while k < inputs.len()
            invariant
                view == self@,
                k <= inputs@.len(),
                specs@.len() == k,
                forall|j: int| 0 <= j < k ==> (#[trigger] specs@[j])@ == view.nodes[inputs@[j].0 as int].spec,
                first_missing(view.nodes, inputs@, 0) == first_missing(view.nodes, inputs@, k as int),
                self == old(self),
                self.wf(),
                inputs@.len() > 0,
            decreases inputs@.len() - k,
        {
            match self.spec(inputs[k]) {
                Ok(spec) => {
                    specs.push(spec.clone());
                },
                Err(e) => {
                    return Err(e);
                },
            }
            k += 1;
        }
        assert(specs_view(specs@) =~= inputs@.map_values(|v: ValueId| view.nodes[v.0 as int].spec));
        let spec = match infer_concat_spec(specs.as_slice(), dim) {
            Ok(spec) => spec,
            Err(e) => {
                return Err(e);
            },
        };
        self.push_node(name, GraphOp::Concatenate { dim }, inputs, spec)
    }

    /// Adds a scalar mean-squared-error loss.
    pub fn mse_loss(&mut self, name: &str, input: ValueId, target: ValueId) -> (r: Result<ValueId>)
        requires
            old(self).wf(),
            old(self)@.nodes.len() < usize::MAX,
        ensures
            final(self).wf(),
            final(self)@ == loss_step(old(self)@, name@, GraphOp::MseLoss, input, target).builder,
            stepped(r) == loss_step(old(self)@, name@, GraphOp::MseLoss, input, target).result,
    {
        self.loss(name, GraphOp::MseLoss, input, target)
    }

    /// Adds a scalar cross-entropy loss whose target is an `Int64` tensor.
    pub fn cross_entropy_loss(&mut self, name: &str, logits: ValueId, target: ValueId) -> (r: Result<ValueId>)
        requires
            old(self).wf(),
            old(self)@.nodes.len() < usize::MAX,
        ensures
            final(self).wf(),
            final(self)@ == cross_entropy_step(old(self)@, name@, logits, target).builder,
            stepped(r) == cross_entropy_step(old(self)@, name@, logits, target).result,
    {
        match self.spec(target) {
            Ok(spec) => {
                if let Some(kind) = spec.kind_value() {
                    if kind != Kind::Int64 {
                        let message = join("cross-entropy target must be Int64, got ", kind.text());
                        return Err(graph_error(message.as_str()));
                    }
                }
            },
            Err(e) => {
                return Err(e);
            },
        }
        self.loss(name, GraphOp::CrossEntropyLoss, logits, target)
    }

    /// Adds a named graph output and returns its output-node value.
    pub fn add_output(&mut self, name: &str, value: ValueId) -> (r: Result<ValueId>)
        requires
            old(self).wf(),
            old(self)@.nodes.len() < usize::MAX,
        ensures
            final(self).wf(),
            final(self)@ == output_step(old(self)@, name@, value).builder,
            stepped(r) == output_step(old(self)@, name@, value).result,
    {
        match self.unary(name, GraphOp::Output, value) {
            Err(e) => Err(e),
            Ok(output) => {
                let ghost middle = self@;
                self.outputs.insert(owned(name), output);
                proof {
                    assert forall|i: int| 0 <= i < self@.nodes.len() implies self@.node_wf(i, #[trigger] self@.nodes[i]) by {
                        assert(middle.node_wf(i, middle.nodes[i]));
                    }
                }
                Ok(output)
            },
        }
    }

    /// Adds a named output using builder chaining.
    pub fn output(self, name: &str, value: ValueId) -> (r: Result<Self>)
        requires
            self.wf(),
            self@.nodes.len() < usize::MAX,
        ensures
            match (r, output_step(self@, name@, value).result) {
                (Ok(builder), Ok(_)) => builder.wf() && builder@ == output_step(self@, name@, value).builder,
                (Err(e), Err(expected)) => e@ == expected,
                _ => false,
            },
    {
        let mut builder = self;
        match builder.add_output(name, value) {
            Ok(_) => Ok(builder),
            Err(e) => Err(e),
        }
    }

    /// Validates and finalizes the device-independent graph.
    ///
    /// Dead-node elimination and shape propagation run before the final validation.
    pub fn finish(self) -> (r: Result<Graph>)
        requires
            self.wf(),
        ensures
            match (r, finished(self@)) {
                (Ok(graph), Ok(expected)) => graph@ == expected && graph@.wf() && is_sound(graph@.nodes)
                    && graph_refusal(graph@) is None,
                (Err(e), Err(expected)) => e@ == expected,
                _ => false,
            },
    {
        let ghost view = self@;
        proof {
            self.inputs.listing_is_determined();
            self.outputs.listing_is_determined();
        }
        let mut graph = Graph::from_parts(self.nodes, self.inputs, self.outputs);
        assert(graph@ == view.graph());
        if let Err(e) = graph.validate() {
            return Err(e);
        }
        proof {
            valid_graph_is_sound(graph@);
        }
        if let Err(e) = DeadNodeElimination.run(&mut graph) {
            return Err(e);
        }
        let ghost live = graph@;
        proof {
            assert(live == pruned(view.graph()));
            assert forall|i: int| 0 <= i < live.nodes.len() implies node_is_sound(live.nodes, #[trigger] live.nodes[i]) by {
                assert(node_is_sound(view.nodes, view.nodes[i]));
            }
            assert(numbered(live.nodes)) by {
                assert forall|i: int| 0 <= i < live.nodes.len() implies (#[trigger] live.nodes[i]).id.0 == i && live.nodes[i].output.0 == i by {
                    assert(view.nodes[i].id.0 == i);
                }
            }
        }
        if let Err(e) = ShapePropagation.run(&mut graph) {
            return Err(e);
        }
        proof {
            built_is_acyclic(view, live.nodes);
            super::passes::propagation_keeps_rest(live.nodes);
            assert forall|i: int| 0 <= i < graph@.nodes.len() implies (#[trigger] graph@.nodes[i]).id.0 == i
                && graph@.nodes[i].output.0 == i by {
                assert(live.nodes[i].id.0 == i);
            }
        }
        if let Err(e) = graph.validate() {
            return Err(e);
        }
        proof {
            valid_graph_is_sound(graph@);
        }
        Ok(graph)
    }
}

/// When nothing is missing, every operand exists.
proof fn operands_exist(nodes: Seq<NodeView>, inputs: Seq<ValueId>, from: int)
    requires
        first_missing(nodes, inputs, from) is None,
        0 <= from,
    ensures
        forall|k: int| from <= k < inputs.len() ==> (#[trigger] inputs[k]).0 < nodes.len(),
    decreases inputs.len() - from,
{
    if from < inputs.len() {
        operands_exist(nodes, inputs, from + 1);
    }
}

} // verus!
