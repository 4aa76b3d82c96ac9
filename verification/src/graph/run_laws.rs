//! What building and running a graph mean.
use super::builder::{
    binary_step, concatenate_step, cross_entropy_step, dropout_step, flatten_step, input_step, linear_step, loss_step,
    output_step, unary_step, BuilderView, Step,
};
use super::execute::{linear_nodes, Action, RunView};
use super::ir::{NodeId, NodeView, ValueId};
use super::op::GraphOp;
use super::passes::{is_live, live_nodes, liveness_is_closed};
use super::ir::GraphView;
use super::spec::SpecView;
use crate::error::{first_at_none, ErrorView};
use crate::float::Binary64;
use crate::kind::Device;
use vstd::prelude::*;

verus! {

/// One step of a run: the next action is asked for, or the answer to the last one is reported.
pub open spec fn steps_to(before: RunView, after: RunView) -> bool {
    ||| before.phase is Ready && after == before.next().0
    ||| before.phase is Resolving && exists|device: Device| after == (#[trigger] before.accept(Some(device))).0
    ||| before.phase is Computing && exists|device: Device| after == (#[trigger] before.computed(device)).0
}

/// A run, step by step.
pub open spec fn is_run(states: Seq<RunView>) -> bool {
    &&& states.len() > 0
    &&& forall|i: int| 0 <= i < states.len() - 1 ==> #[trigger] steps_to(states[i], states[i + 1])
}

proof fn step_keeps_settings(before: RunView, after: RunView)
    requires
        steps_to(before, after),
    ensures
        after.graph == before.graph,
        after.training == before.training,
        after.device == before.device,
        after.order == before.order,
        after.inputs == before.inputs,
        after.linears == before.linears,
{
    if before.phase is Resolving {
        let device = choose|device: Device| after == (#[trigger] before.accept(Some(device))).0;
        assert(after == before.accept(Some(device)).0);
    }
    if before.phase is Computing {
        let device = choose|device: Device| after == (#[trigger] before.computed(device)).0;
        assert(after == before.computed(device).0);
    }
}

/// Training-only behavior follows the mode in which a run was begun: every computation that the
/// run asks for, however far it has come, is told to train exactly if the run was begun in
/// training mode. It is a computation of the node whose turn it is, which is no input, and every
/// operand of that node has been produced.
pub proof fn computations_follow_the_mode(states: Seq<RunView>, i: int, training: bool)
    requires
        is_run(states),
        0 <= i < states.len(),
        states[0].training == training,
        states[i].phase is Ready,
    ensures
        states[i].next().1 matches Ok(Action::Compute(id, flag)) ==> {
            let run = states[i];
            let node = run.graph.nodes[run.order[run.at].0 as int];
            &&& flag == training
            &&& run.at < run.order.len()
            &&& id == node.id
            &&& node.op != GraphOp::Input
            &&& forall|k: int|
                0 <= k < node.inputs.len() ==> (#[trigger] node.inputs[k]).0 < run.produced.len()
                    && run.produced[node.inputs[k].0 as int]
            &&& node.op is Linear ==> run.linears.contains(node.id)
        },
    decreases i,
{
    settings_stay(states, i);
    let run = states[i];
    let node = run.current();
    if let Ok(Action::Compute(id, flag)) = run.next().1 {
        first_at_none(0, node.inputs.len() as int, super::execute::operand_checks(node, run.produced));
        assert forall|k: int| 0 <= k < node.inputs.len() implies (#[trigger] node.inputs[k]).0 < run.produced.len()
            && run.produced[node.inputs[k].0 as int] by {
            assert(super::execute::operand_checks(node, run.produced)(k) is None);
        }
    }
}

proof fn settings_stay(states: Seq<RunView>, i: int)
    requires
        is_run(states),
        0 <= i < states.len(),
    ensures
        states[i].training == states[0].training,
        states[i].graph == states[0].graph,
        states[i].device == states[0].device,
        states[i].order == states[0].order,
        states[i].inputs == states[0].inputs,
        states[i].linears == states[0].linears,
    decreases i,
{
    if i > 0 {
        settings_stay(states, i - 1);
        let j = i - 1;
        assert(steps_to(states[j], states[j + 1]));
        step_keeps_settings(states[i - 1], states[i]);
    }
}

/// The values that a run has produced are those of the nodes that have had their turn, in the
/// order of the run: it skips no node and computes nothing ahead of its turn. A run that is done
/// has had every node, and the value of every output exists.
pub proof fn runs_go_through_the_order(states: Seq<RunView>, i: int)
    requires
        is_run(states),
        0 <= i < states.len(),
        states[0].at == 0,
        forall|v: int| 0 <= v < states[0].produced.len() ==> !#[trigger] states[0].produced[v],
        forall|k: int| 0 <= k < states[0].order.len() ==> (#[trigger] states[0].order[k]).0 < states[0].produced.len(),
        forall|j: int| 0 <= j <= i && !((#[trigger] states[j]).phase is Ready) ==> states[j].at < states[j].order.len(),
    ensures
        0 <= states[i].at <= states[i].order.len(),
        states[i].produced.len() == states[0].produced.len(),
        forall|v: int|
            0 <= v < states[i].produced.len() ==> (#[trigger] states[i].produced[v] <==> exists|k: int|
                0 <= k < states[i].at && (#[trigger] states[i].order[k]).0 == v),
        states[i].phase is Ready && states[i].next().1 == Ok::<Action, ErrorView>(Action::Done) ==> states[i].at
            == states[i].order.len() && forall|k: int|
            0 <= k < states[i].graph.output_names.len() ==> (#[trigger] states[i].graph.output_values[k]).0
                < states[i].produced.len() && states[i].produced[states[i].graph.output_values[k].0 as int],
    decreases i,
{
    settings_stay(states, i);
    if i > 0 {
        runs_go_through_the_order(states, i - 1);
        let before = states[i - 1];
        let after = states[i];
        let j = i - 1;
        assert(steps_to(states[j], states[j + 1]));
        settings_stay(states, i - 1);
        if before.phase is Resolving {
            let device = choose|device: Device| after == (#[trigger] before.accept(Some(device))).0;
            assert(after == before.accept(Some(device)).0);
        }
        if before.phase is Computing {
            let device = choose|device: Device| after == (#[trigger] before.computed(device)).0;
            assert(after == before.computed(device).0);
        }
        if after.at != before.at {
            let v0 = before.order[before.at].0 as int;
            assert(after.at == before.at + 1);
            assert(after.produced == before.produced.update(v0, true));
            assert forall|v: int| 0 <= v < after.produced.len() implies (#[trigger] after.produced[v] <==> exists|k: int|
                0 <= k < after.at && (#[trigger] after.order[k]).0 == v) by {
                assert(after.produced[v] == (v == v0 || before.produced[v]));
                if v == v0 {
                    assert(after.order[before.at].0 == v);
                }
                if before.produced[v] {
                    let k = choose|k: int| 0 <= k < before.at && (#[trigger] before.order[k]).0 == v;
                    assert(after.order[k].0 == v);
                }
                if exists|k: int| 0 <= k < after.at && (#[trigger] after.order[k]).0 == v {
                    let k = choose|k: int| 0 <= k < after.at && (#[trigger] after.order[k]).0 == v;
                    if k < before.at {
                        assert(before.order[k].0 == v);
                    }
                }
            }
        } else {
            assert(after.produced == before.produced);
        }
    }
    let run = states[i];
    if run.phase is Ready && run.next().1 == Ok::<Action, ErrorView>(Action::Done) {
        let outputs = run.graph.output_names.len() as int;
        let checks = super::execute::product_checks(run.graph, run.produced);
        first_at_none(0, outputs, checks);
        assert forall|k: int| 0 <= k < outputs implies (#[trigger] run.graph.output_values[k]).0 < run.produced.len()
            && run.produced[run.graph.output_values[k].0 as int] by {
            assert(checks(k) is None);
        }
    }
}

/// An input is bound only where a tensor was supplied under its name, on the device of the run;
/// a result is taken only from that device.
pub proof fn tensors_lie_on_the_device(run: RunView, actual: Device)
    requires
        run.phase is Ready,
        run.at < run.order.len(),
    ensures
        ({
            let node = run.graph.nodes[run.order[run.at].0 as int];
            &&& run.next().1 matches Ok(Action::Bind(id)) ==> node.op == GraphOp::Input && id == node.id && run.inputs.dom().contains(
                node.name,
            ) && run.inputs[node.name].device == run.device
            &&& run.next().1 matches Ok(Action::Resolve(request)) ==> node.op == GraphOp::Input && node.spec.device == Some(request)
                && run.inputs[node.name].device == run.device
            &&& run.computed(actual).1 is None <==> actual == run.device
        }),
{
}

/// Parameters belong to exactly the active linear nodes.
pub proof fn parameters_belong_to_linear_nodes(nodes: Seq<NodeView>, n: int, id: NodeId)
    requires
        0 <= n <= nodes.len(),
        forall|i: int| 0 <= i < nodes.len() ==> (#[trigger] nodes[i]).id.0 == i,
    ensures
        linear_nodes(nodes, n).contains(id) <==> id.0 < n && nodes[id.0 as int].active && nodes[id.0 as int].op is Linear,
    decreases n,
{
    if n > 0 {
        parameters_belong_to_linear_nodes(nodes, n - 1, id);
        let rest = linear_nodes(nodes, n - 1);
        if nodes[n - 1].active && nodes[n - 1].op is Linear {
            let last = nodes[n - 1].id;
            assert(rest.push(last).contains(id) <==> rest.contains(id) || id == last) by {
                if rest.contains(id) {
                    let k = rest.index_of(id);
                    assert(rest.push(last)[k] == id);
                }
                assert(rest.push(last)[rest.len() as int] == last);
                if rest.push(last).contains(id) && id != last {
                    let k = rest.push(last).index_of(id);
                    assert(rest[k] == id);
                }
            }
        }
    }
}

/// A step of construction that succeeds adds one node at the end, which computes the operation
/// from the operands, and changes nothing else; its value is numbered like the node.
pub open spec fn adds(before: BuilderView, step: Step, name: Seq<char>, op: GraphOp, inputs: Seq<ValueId>) -> bool {
    step.result matches Ok(value) ==> {
        let node = step.builder.nodes.last();
        &&& step.builder.nodes == before.nodes.push(node)
        &&& node.name == name
        &&& node.op == op
        &&& node.inputs == inputs
        &&& node.active
        &&& value.0 == before.nodes.len()
        &&& node.output == value
        &&& node.id.0 == value.0
        &&& !before.names.contains(name)
        &&& step.builder.names == before.names.insert(name)
        &&& forall|k: int| 0 <= k < inputs.len() ==> (#[trigger] inputs[k]).0 < before.nodes.len()
    }
}

proof fn operands_are_there(nodes: Seq<NodeView>, inputs: Seq<ValueId>, from: int)
    requires
        0 <= from <= inputs.len(),
        super::builder::first_missing(nodes, inputs, from) is None,
    ensures
        forall|k: int| from <= k < inputs.len() ==> (#[trigger] inputs[k]).0 < nodes.len(),
    decreases inputs.len() - from,
{
    if from < inputs.len() {
        operands_are_there(nodes, inputs, from + 1);
    }
}

/// Every operation that is built has the operands it was given, in their order. A refused step
/// adds no node.
pub proof fn built_operations_have_their_operands(
    b: BuilderView,
    name: Seq<char>,
    left: ValueId,
    right: ValueId,
    list: Seq<ValueId>,
    op: GraphOp,
    m: i64,
    n: i64,
    bias: bool,
    probability: Binary64,
)
    requires
        b.nodes.len() <= usize::MAX,
    ensures
        adds(b, unary_step(b, name, op, left), name, op, seq![left]),
        adds(b, binary_step(b, name, op, left, right), name, op, seq![left, right]),
        adds(b, loss_step(b, name, op, left, right), name, op, seq![left, right]),
        adds(b, cross_entropy_step(b, name, left, right), name, GraphOp::CrossEntropyLoss, seq![left, right]),
        adds(b, concatenate_step(b, name, list, m), name, GraphOp::Concatenate { dim: m }, list),
        adds(
            b,
            linear_step(b, name, left, m, n, bias),
            name,
            GraphOp::Linear { in_features: m, out_features: n, bias },
            seq![left],
        ),
        adds(b, flatten_step(b, name, left, m, n), name, GraphOp::Flatten { start_dim: m, end_dim: n }, seq![left]),
        adds(b, dropout_step(b, name, left, probability), name, GraphOp::Dropout { probability }, seq![left]),
        unary_step(b, name, op, left).result is Err ==> unary_step(b, name, op, left).builder.nodes == b.nodes,
        binary_step(b, name, op, left, right).result is Err ==> binary_step(b, name, op, left, right).builder.nodes == b.nodes,
        binary_step(b, name, op, left, right).builder.inputs == b.inputs,
        binary_step(b, name, op, left, right).builder.outputs == b.outputs,
        unary_step(b, name, op, left).builder.inputs == b.inputs,
        unary_step(b, name, op, left).builder.outputs == b.outputs,
{
    let one = seq![left];
    let two = seq![left, right];
    if super::builder::first_missing(b.nodes, one, 0) is None {
        operands_are_there(b.nodes, one, 0);
    }
    if super::builder::first_missing(b.nodes, two, 0) is None {
        operands_are_there(b.nodes, two, 0);
    }
    if super::builder::first_missing(b.nodes, list, 0) is None {
        operands_are_there(b.nodes, list, 0);
    }
}

/// A named input is a node without operands that stands for the tensor of that name, and a
/// named output passes on the value it was given.
pub proof fn built_inputs_and_outputs_are_named(b: BuilderView, name: Seq<char>, spec: SpecView, value: ValueId)
    requires
        b.nodes.len() <= usize::MAX,
    ensures
        adds(b, input_step(b, name, spec), name, GraphOp::Input, Seq::empty()),
        adds(b, output_step(b, name, value), name, GraphOp::Output, seq![value]),
        input_step(b, name, spec).result matches Ok(v) ==> {
            let after = input_step(b, name, spec).builder;
            after.inputs == b.inputs.insert(name, v) && after.outputs == b.outputs && after.nodes.last().spec == spec
        },
        output_step(b, name, value).result matches Ok(v) ==> {
            let after = output_step(b, name, value).builder;
            after.outputs == b.outputs.insert(name, v) && after.inputs == b.inputs && after.nodes.last().spec
                == b.nodes[value.0 as int].spec
        },
{
    if super::builder::first_missing(b.nodes, seq![value], 0) is None {
        operands_are_there(b.nodes, seq![value], 0);
    }
}

/// A node stays active exactly if an output needs it: it is the value of an output, or an
/// operand of another node that stays. Nothing else about the nodes changes.
pub proof fn elimination_keeps_what_outputs_need(graph: GraphView, i: int)
    requires
        0 <= i < graph.nodes.len(),
    ensures
        ({
            let after = live_nodes(graph);
            &&& after.len() == graph.nodes.len()
            &&& after[i] == (NodeView { active: after[i].active, ..graph.nodes[i] })
            &&& (exists|k: int| 0 <= k < graph.output_values.len() && (#[trigger] graph.output_values[k]).0 == i) ==> after[i].active
            &&& (exists|j: int, k: int|
                0 <= j < after.len() && after[j].active && 0 <= k < graph.nodes[j].inputs.len() && (#[trigger] graph.nodes[j].inputs[k]).0
                    == i) ==> after[i].active
            &&& after[i].active ==> (exists|k: int|
                0 <= k < graph.output_values.len() && (#[trigger] graph.output_values[k]).0 == i) || (exists|j: int, k: int|
                0 <= j < after.len() && after[j].active && 0 <= k < graph.nodes[j].inputs.len() && (#[trigger] graph.nodes[j].inputs[k]).0
                    == i)
        }),
{
    liveness_is_closed(graph);
    let after = live_nodes(graph);
    let live = Set::new(|v: int| is_live(graph, v));
    if exists|k: int| 0 <= k < graph.output_values.len() && (#[trigger] graph.output_values[k]).0 == i {
        let k = choose|k: int| 0 <= k < graph.output_values.len() && (#[trigger] graph.output_values[k]).0 == i;
        assert(live.contains(graph.output_values[k].0 as int));
    }
    if exists|j: int, k: int|
        0 <= j < after.len() && after[j].active && 0 <= k < graph.nodes[j].inputs.len() && (#[trigger] graph.nodes[j].inputs[k]).0 == i {
        let (j, k) = choose|j: int, k: int|
            0 <= j < after.len() && after[j].active && 0 <= k < graph.nodes[j].inputs.len() && (#[trigger] graph.nodes[j].inputs[k]).0
                == i;
        assert(live.contains(j));
        assert(live.contains(graph.nodes[j].inputs[k].0 as int));
    }
    if after[i].active {
        let needed = (exists|k: int| 0 <= k < graph.output_values.len() && (#[trigger] graph.output_values[k]).0 == i) || (exists|
            j: int,
            k: int,
        |
            0 <= j < after.len() && after[j].active && 0 <= k < graph.nodes[j].inputs.len() && (#[trigger] graph.nodes[j].inputs[k]).0
                == i);
        if !needed {
            let without = live.remove(i);
            assert(super::passes::feeds_outputs(graph, without)) by {
                assert forall|j: int, k: int|
                    0 <= j < graph.nodes.len() && without.contains(j) && 0 <= k < graph.nodes[j].inputs.len()
                        implies without.contains((#[trigger] graph.nodes[j].inputs[k]).0 as int) by {
                    assert(live.contains(graph.nodes[j].inputs[k].0 as int));
                    assert(after[j].active);
                }
            }
            assert(without.contains(i));
        }
    }
}

} // verus!
