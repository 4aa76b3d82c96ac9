//! Passes over graphs.
use super::check::{graph_refusal, is_sound, node_is_sound};
use super::infer::{infer_node_spec, node_spec, specs_view};
use super::ir::{nodes_view, numbered, Graph, GraphView, NodeId, NodeView};
use super::order::{dependency_order, has_cycle, is_active, is_next, order_of_nodes, run_is_distinct, runs};
use super::spec::{SpecView, TensorSpec};
use crate::error::{refusal, ErrorView, Result};
use vstd::prelude::*;

verus! {

/// Result of applying a [`GraphPass`].
#[derive(Debug, Clone, PartialEq, Eq)]
#[non_exhaustive]
pub struct PassReport {
    /// Stable pass name.
    pub pass: &'static str,
    /// Nodes whose state or tensor spec changed.
    pub changed_nodes: Vec<NodeId>,
}

/// A deterministic transformation or validation over a graph.
pub trait GraphPass {
    /// Applies the pass and reports changed nodes.
    fn run(&self, graph: &mut Graph) -> (r: Result<PassReport>)
        requires
            old(graph)@.wf(),
            is_sound(old(graph)@.nodes),
    ;
}

/// Pass that checks graph structure without modifying it.
#[derive(Debug)]
pub struct Validation;

impl Default for Validation {
    fn default() -> (r: Self)
        ensures
            r == Validation,
    {
        Validation
    }
}

impl GraphPass for Validation {
    fn run(&self, graph: &mut Graph) -> (r: Result<PassReport>)
        ensures
            final(graph)@ == old(graph)@,
            refusal(r) == graph_refusal(old(graph)@),
            r matches Ok(report) ==> report.pass@ == "validation"@ && report.changed_nodes@.len() == 0,
    {
        match graph.validate() {
            Ok(()) => Ok(PassReport { pass: "validation", changed_nodes: Vec::new() }),
            Err(e) => Err(e),
        }
    }
}

/// Pass that marks nodes not contributing to outputs as inactive.
#[derive(Debug)]
pub struct DeadNodeElimination;

impl Default for DeadNodeElimination {
    fn default() -> (r: Self)
        ensures
            r == DeadNodeElimination,
    {
        DeadNodeElimination
    }
}

/// A set of values that holds every output and, with each value, the operands of its node.
pub open spec fn feeds_outputs(graph: GraphView, values: Set<int>) -> bool {
    &&& forall|k: int| 0 <= k < graph.output_values.len() ==> values.contains((#[trigger] graph.output_values[k]).0 as int)
    &&& forall|i: int, k: int|
        0 <= i < graph.nodes.len() && values.contains(i) && 0 <= k < graph.nodes[i].inputs.len() ==> values.contains(
            (#[trigger] graph.nodes[i].inputs[k]).0 as int,
        )
}

/// A value is live when every such set holds it: some output needs it.
pub open spec fn is_live(graph: GraphView, value: int) -> bool {
    forall|values: Set<int>| #[trigger] feeds_outputs(graph, values) ==> values.contains(value)
}

/// The nodes of a graph with exactly the live ones active.
pub open spec fn live_nodes(graph: GraphView) -> Seq<NodeView> {
    Seq::new(
        graph.nodes.len(),
        |i: int| NodeView { active: is_live(graph, i), ..graph.nodes[i] },
    )
}

/// The identifiers of the first `n` nodes that differ, in ascending order.
pub open spec fn changed_ids(before: Seq<NodeView>, after: Seq<NodeView>, n: int) -> Seq<NodeId>
    decreases n,
{
    if n <= 0 {
        Seq::empty()
    } else if before[n - 1] != after[n - 1] {
        changed_ids(before, after, n - 1).push(before[n - 1].id)
    } else {
        changed_ids(before, after, n - 1)
    }
}

/// How many flags are not set.
spec fn unset(flags: Seq<bool>) -> nat
    decreases flags.len(),
{
    if flags.len() == 0 {
        0
    } else {
        unset(flags.drop_last()) + if flags.last() {
            0nat
        } else {
            1nat
        }
    }
}

proof fn setting_lowers_unset(flags: Seq<bool>, i: int)
    requires
        0 <= i < flags.len(),
        !flags[i],
    ensures
        unset(flags.update(i, true)) == unset(flags) - 1,
    decreases flags.len(),
{
    let after = flags.update(i, true);
    if i == flags.len() - 1 {
        assert(after.drop_last() =~= flags.drop_last());
    } else {
        setting_lowers_unset(flags.drop_last(), i);
        assert(after.drop_last() =~= flags.drop_last().update(i, true));
    }
}

/// Every flagged value is live, and every flagged value that is not waiting has all its
/// operands flagged.
spec fn flags_grow(graph: GraphView, flags: Seq<bool>, waiting: Seq<usize>) -> bool {
    &&& flags.len() == graph.nodes.len()
    &&& forall|i: int| 0 <= i < flags.len() && #[trigger] flags[i] ==> is_live(graph, i)
    &&& forall|w: int| 0 <= w < waiting.len() ==> (#[trigger] waiting[w]) < flags.len() && flags[waiting[w] as int]
    &&& forall|i: int, k: int|
        0 <= i < flags.len() && flags[i] && 0 <= k < graph.nodes[i].inputs.len() && !waiting.contains(i as usize)
            ==> is_flagged(flags, (#[trigger] graph.nodes[i].inputs[k]).0 as int)
}

spec fn is_flagged(flags: Seq<bool>, value: int) -> bool {
    0 <= value < flags.len() ==> flags[value]
}

impl DeadNodeElimination {
    #[verifier::loop_isolation(false)]
    fn live_flags(&self, graph: &Graph) -> (flags: Vec<bool>)
        requires
            graph@.wf(),
        ensures
            flags@.len() == graph@.nodes.len(),
            forall|i: int| 0 <= i < flags@.len() ==> #[trigger] flags@[i] == is_live(graph@, i),
    {
        let nodes = graph.nodes();
        let outputs = graph.outputs();
        let ghost view = graph@;
        let n: usize = nodes.len();
        let mut flags: Vec<bool> = Vec::new();
        while flags.len() < n
            invariant
                flags@.len() <= n,
                forall|i: int| 0 <= i < flags@.len() ==> !#[trigger] flags@[i],
            decreases n - flags@.len(),
        {
            flags.push(false);
        }
        let mut waiting: Vec<usize> = Vec::new();
        let mut k: usize = 0;
        while k < outputs.len()
            invariant
                k <= view.output_values.len(),
                flags_grow(view, flags@, waiting@),
                forall|j: int| 0 <= j < k ==> is_flagged(flags@, (#[trigger] view.output_values[j]).0 as int),
            decreases view.output_values.len() - k,
        {
            let value: usize = outputs.item(k).0;
            if value < n && !flags[value] {
                let ghost earlier = flags@;
                let ghost earlier_waiting = waiting@;
                flags.set(value, true);
                waiting.push(value);
                proof {
                    assert(view.output_values[k as int].0 == value);
                    assert(is_live(view, value as int));
                    assert forall|i: int, p: int|
                        0 <= i < flags@.len() && flags@[i] && 0 <= p < view.nodes[i].inputs.len() && !waiting@.contains(
                            i as usize,
                        ) implies is_flagged(flags@, (#[trigger] view.nodes[i].inputs[p]).0 as int) by {
                        assert(waiting@[waiting@.len() - 1] == value);
                        assert(i != value);
                        if earlier_waiting.contains(i as usize) {
                            let w = earlier_waiting.index_of(i as usize);
                            assert(waiting@[w] == i as usize);
                        }
                        assert(is_flagged(earlier, view.nodes[i].inputs[p].0 as int));
                    }
                    assert forall|j: int| 0 <= j < k implies is_flagged(flags@, (#[trigger] view.output_values[j]).0 as int) by {
                        assert(is_flagged(earlier, view.output_values[j].0 as int));
                    }
                }
            }
            k += 1;
        }
        while waiting.len() > 0
            invariant
                flags_grow(view, flags@, waiting@),
                forall|j: int| 0 <= j < view.output_values.len() ==> is_flagged(flags@, (#[trigger] view.output_values[j]).0 as int),
            decreases unset(flags@), waiting@.len(),
        {
            let ghost before_pop = waiting@;
            let ghost unset_before = unset(flags@);
            let at: usize = match waiting.pop() {
                Some(at) => at,
                None => 0,
            };
            proof {
                assert(at == before_pop.last());
                assert(waiting@ =~= before_pop.drop_last());
                assert(flags@[before_pop[before_pop.len() - 1] as int]);
                assert forall|i: int, p: int|
                    0 <= i < flags@.len() && flags@[i] && i != at && 0 <= p < view.nodes[i].inputs.len() && !waiting@.contains(
                        i as usize,
                    ) implies is_flagged(flags@, (#[trigger] view.nodes[i].inputs[p]).0 as int) by {
                    if before_pop.contains(i as usize) {
                        let w = before_pop.index_of(i as usize);
                        assert(w < before_pop.len() - 1);
                        assert(waiting@[w] == i as usize);
                    }
                }
                assert forall|w: int| 0 <= w < waiting@.len() implies (#[trigger] waiting@[w]) < flags@.len() && flags@[waiting@[w] as int] by {
                    assert(before_pop[w] == waiting@[w]);
                }
            }
            let node = &nodes[at];
            assert(view.nodes[at as int] == node@);
            let mut p: usize = 0;
            while p < node.inputs.len()
                invariant
                    p <= node.inputs@.len(),
                    flags@.len() == n,
                    flags@[at as int],
                    unset(flags@) <= unset_before,
                    unset(flags@) == unset_before ==> waiting@.len() < before_pop.len(),
                    forall|i: int| 0 <= i < flags@.len() && #[trigger] flags@[i] ==> is_live(view, i),
                    forall|w: int| 0 <= w < waiting@.len() ==> (#[trigger] waiting@[w]) < flags@.len() && flags@[waiting@[w] as int],
                    forall|i: int, q: int|
                        0 <= i < flags@.len() && flags@[i] && i != at && 0 <= q < view.nodes[i].inputs.len()
                            && !waiting@.contains(i as usize) ==> is_flagged(
                            flags@,
                            (#[trigger] view.nodes[i].inputs[q]).0 as int,
                        ),
                    forall|q: int| 0 <= q < p ==> is_flagged(flags@, (#[trigger] view.nodes[at as int].inputs[q]).0 as int),
                    forall|j: int| 0 <= j < view.output_values.len() ==> is_flagged(flags@, (#[trigger] view.output_values[j]).0 as int),
                decreases node.inputs@.len() - p,
            {
                let value: usize = node.inputs[p].0;
                assert(view.nodes[at as int].inputs[p as int].0 == value);
                if value < n && !flags[value] {
                    let ghost earlier = flags@;
                    let ghost earlier_waiting = waiting@;
                    proof {
                        setting_lowers_unset(flags@, value as int);
                    }
                    flags.set(value, true);
                    waiting.push(value);
                    proof {
                        assert(is_live(view, at as int));
                        assert(is_live(view, value as int)) by {
                            assert forall|values: Set<int>| #[trigger] feeds_outputs(view, values) implies values.contains(value as int) by {
                                assert(values.contains(at as int));
                                assert(values.contains(view.nodes[at as int].inputs[p as int].0 as int));
                            }
                        }
                        assert(waiting@[waiting@.len() - 1] == value);
                        assert forall|i: int, q: int|
                            0 <= i < flags@.len() && flags@[i] && i != at && 0 <= q < view.nodes[i].inputs.len()
                                && !waiting@.contains(i as usize) implies is_flagged(
                            flags@,
                            (#[trigger] view.nodes[i].inputs[q]).0 as int,
                        ) by {
                            assert(i != value);
                            if earlier_waiting.contains(i as usize) {
                                let w = earlier_waiting.index_of(i as usize);
                                assert(waiting@[w] == i as usize);
                            }
                            assert(is_flagged(earlier, view.nodes[i].inputs[q].0 as int));
                        }
                        assert forall|q: int| 0 <= q < p implies is_flagged(flags@, (#[trigger] view.nodes[at as int].inputs[q]).0 as int) by {
                            assert(is_flagged(earlier, view.nodes[at as int].inputs[q].0 as int));
                        }
                        assert forall|j: int| 0 <= j < view.output_values.len() implies is_flagged(flags@, (#[trigger] view.output_values[j]).0 as int) by {
                            assert(is_flagged(earlier, view.output_values[j].0 as int));
                        }
                    }
                }
                p += 1;
            }
        }
        proof {
            let found = Set::new(|i: int| i >= n || i < 0 || flags@[i]);
            assert(feeds_outputs(view, found)) by {
                assert forall|j: int| 0 <= j < view.output_values.len() implies found.contains((#[trigger] view.output_values[j]).0 as int) by {
                    assert(is_flagged(flags@, view.output_values[j].0 as int));
                }
                assert forall|i: int, q: int|
                    0 <= i < view.nodes.len() && found.contains(i) && 0 <= q < view.nodes[i].inputs.len() implies found.contains(
                    (#[trigger] view.nodes[i].inputs[q]).0 as int,
                ) by {
                    assert(!waiting@.contains(i as usize));
                    assert(is_flagged(flags@, view.nodes[i].inputs[q].0 as int));
                }
            }
            assert forall|i: int| 0 <= i < flags@.len() implies #[trigger] flags@[i] == is_live(view, i) by {
                if is_live(view, i) {
                    assert(found.contains(i));
                }
            }
        }
        flags
    }
}

impl GraphPass for DeadNodeElimination {
    #[verifier::loop_isolation(false)]
    fn run(&self, graph: &mut Graph) -> (r: Result<PassReport>)
        ensures
            final(graph)@ == (GraphView { nodes: live_nodes(old(graph)@), ..old(graph)@ }),
            match r {
                Ok(report) => report.pass@ == "dead-node-elimination"@ && report.changed_nodes@ == changed_ids(
                    old(graph)@.nodes,
                    live_nodes(old(graph)@),
                    old(graph)@.nodes.len() as int,
                ),
                Err(_) => false,
            },
    {
        let ghost start = graph@;
        let ghost target = live_nodes(start);
        let flags = self.live_flags(&*graph);
        let mut changed_nodes: Vec<NodeId> = Vec::new();
        let mut i: usize = 0;
        while i < flags.len()
            invariant
                i <= flags@.len(),
                flags@.len() == start.nodes.len(),
                graph@ == (GraphView { nodes: target.take(i as int) + start.nodes.skip(i as int), ..start }),
                changed_nodes@ == changed_ids(start.nodes, target, i as int),
            decreases flags@.len() - i,
        {
            let ghost mixed = target.take(i as int) + start.nodes.skip(i as int);
            let active = flags[i];
            let nodes = graph.nodes();
            assert(mixed[i as int] == start.nodes[i as int]);
            assert(nodes_view(nodes@)[i as int] == nodes@[i as int]@);
            let was = nodes[i].active;
            let id = nodes[i].id;
            assert(target[i as int] == (NodeView { active, ..start.nodes[i as int] }));
            if was != active {
                graph.set_active(i, active);
                changed_nodes.push(id);
                assert(target[i as int] != start.nodes[i as int]);
            } else {
                assert(target[i as int] == start.nodes[i as int]);
            }
            proof {
                let next = target.take(i as int + 1) + start.nodes.skip(i as int + 1);
                assert(graph@.nodes =~= next);
            }
            i += 1;
        }
        proof {
            assert(target.take(i as int) + start.nodes.skip(i as int) =~= target);
        }
        Ok(PassReport { pass: "dead-node-elimination", changed_nodes })
    }
}

/// Which sets feed the outputs does not depend on which nodes are active.
proof fn feeding_ignores_activity(a: GraphView, b: GraphView, values: Set<int>)
    requires
        feeds_outputs(a, values),
        a.output_values == b.output_values,
        a.nodes.len() == b.nodes.len(),
        forall|i: int| 0 <= i < a.nodes.len() ==> (#[trigger] a.nodes[i]).inputs == b.nodes[i].inputs,
    ensures
        feeds_outputs(b, values),
{
    assert forall|i: int, k: int|
        0 <= i < b.nodes.len() && values.contains(i) && 0 <= k < b.nodes[i].inputs.len() implies values.contains(
        (#[trigger] b.nodes[i].inputs[k]).0 as int,
    ) by {
        assert(a.nodes[i].inputs[k] == b.nodes[i].inputs[k]);
    }
}

/// Running the elimination again changes nothing: liveness does not depend on which nodes
/// are active.
pub proof fn elimination_is_idempotent(graph: GraphView)
    ensures
        live_nodes(GraphView { nodes: live_nodes(graph), ..graph }) == live_nodes(graph),
{
    let after = GraphView { nodes: live_nodes(graph), ..graph };
    assert forall|i: int| is_live(graph, i) == is_live(after, i) by {
        if is_live(graph, i) {
            assert forall|values: Set<int>| #[trigger] feeds_outputs(after, values) implies values.contains(i) by {
                feeding_ignores_activity(after, graph, values);
            }
        }
        if is_live(after, i) {
            assert forall|values: Set<int>| #[trigger] feeds_outputs(graph, values) implies values.contains(i) by {
                feeding_ignores_activity(graph, after, values);
            }
        }
    }
    assert(live_nodes(after) =~= live_nodes(graph));
}

/// Every output is live, and so is every operand of a live node.
pub proof fn liveness_is_closed(graph: GraphView)
    ensures
        feeds_outputs(graph, Set::new(|i: int| is_live(graph, i))),
{
    let live = Set::new(|i: int| is_live(graph, i));
    assert forall|k: int| 0 <= k < graph.output_values.len() implies live.contains((#[trigger] graph.output_values[k]).0 as int) by {
        assert(is_live(graph, graph.output_values[k].0 as int));
    }
    assert forall|i: int, k: int|
        0 <= i < graph.nodes.len() && live.contains(i) && 0 <= k < graph.nodes[i].inputs.len() implies live.contains(
        (#[trigger] graph.nodes[i].inputs[k]).0 as int,
    ) by {
        assert forall|values: Set<int>| #[trigger] feeds_outputs(graph, values) implies values.contains(
            graph.nodes[i].inputs[k].0 as int,
        ) by {
            assert(values.contains(i));
        }
        assert(is_live(graph, graph.nodes[i].inputs[k].0 as int));
    }
}

/// Pass that derives output tensor specs from operation inputs.
#[derive(Debug)]
pub struct ShapePropagation;

impl Default for ShapePropagation {
    fn default() -> (r: Self)
        ensures
            r == ShapePropagation,
    {
        ShapePropagation
    }
}

/// The specs of a node's operands.
pub open spec fn operand_specs(nodes: Seq<NodeView>, i: int) -> Seq<SpecView> {
    Seq::new(nodes[i].inputs.len(), |k: int| nodes[nodes[i].inputs[k].0 as int].spec)
}

/// The spec that node `i` gets from its operation and its operands.
pub open spec fn inferred(nodes: Seq<NodeView>, i: int) -> core::result::Result<SpecView, ErrorView> {
    node_spec(nodes[i].op, nodes[i].spec, operand_specs(nodes, i))
}

/// The nodes once the first `k` nodes of an order have been given their inferred specs, and
/// the error that stopped the pass, if one did.
pub open spec fn propagated(nodes: Seq<NodeView>, order: Seq<NodeId>, k: int) -> (Seq<NodeView>, Option<ErrorView>)
    decreases k,
{
    if k <= 0 {
        (nodes, None)
    } else {
        let (prior, stopped) = propagated(nodes, order, k - 1);
        let i = order[k - 1].0 as int;
        if stopped is Some {
            (prior, stopped)
        } else {
            match inferred(prior, i) {
                Ok(spec) => (prior.update(i, NodeView { spec, ..prior[i] }), None),
                Err(e) => (prior, Some(e)),
            }
        }
    }
}

/// Of the first `k` nodes of an order, those whose spec differs between two node lists, in
/// the order.
pub open spec fn respecified(before: Seq<NodeView>, after: Seq<NodeView>, order: Seq<NodeId>, k: int) -> Seq<NodeId>
    decreases k,
{
    if k <= 0 {
        Seq::empty()
    } else {
        let i = order[k - 1].0 as int;
        let rest = respecified(before, after, order, k - 1);
        if before[i].spec != after[i].spec {
            rest.push(order[k - 1])
        } else {
            rest
        }
    }
}

/// Only specs of nodes that were listed change.
proof fn propagation_keeps_others(nodes: Seq<NodeView>, order: Seq<NodeId>, k: int)
    requires
        runs(nodes, order),
        0 <= k <= order.len(),
    ensures
        propagated(nodes, order, k).0.len() == nodes.len(),
        forall|i: int|
            0 <= i < nodes.len() ==> ({
                let after = #[trigger] propagated(nodes, order, k).0[i];
                after == (NodeView { spec: after.spec, ..nodes[i] })
            }),
        forall|i: int|
            0 <= i < nodes.len() && !order.take(k).contains(NodeId(i as usize)) ==> #[trigger] propagated(nodes, order, k).0[i]
                == nodes[i],
    decreases k,
{
    if k > 0 {
        propagation_keeps_others(nodes, order, k - 1);
        assert(is_next(nodes, order.take(k - 1), order[k - 1]));
        let shorter = order.take(k - 1);
        let longer = order.take(k);
        assert(longer =~= shorter.push(order[k - 1]));
        assert forall|i: int|
            0 <= i < nodes.len() && !longer.contains(NodeId(i as usize)) implies #[trigger] propagated(nodes, order, k).0[i]
            == nodes[i] by {
            if shorter.contains(NodeId(i as usize)) {
                let m = shorter.index_of(NodeId(i as usize));
                assert(longer[m] == NodeId(i as usize));
            }
            assert(longer[k - 1] == order[k - 1]);
            assert(propagated(nodes, order, k - 1).0[i] == nodes[i]);
        }
    }
}

/// A propagation along the order of a graph changes nothing but specs.
pub proof fn propagation_keeps_rest(nodes: Seq<NodeView>)
    requires
        !has_cycle(nodes),
        numbered(nodes),
        nodes.len() <= usize::MAX,
    ensures
        ({
            let order = order_of_nodes(nodes);
            let after = propagated(nodes, order, order.len() as int).0;
            &&& after.len() == nodes.len()
            &&& forall|i: int| 0 <= i < nodes.len() ==> #[trigger] after[i] == (NodeView { spec: after[i].spec, ..nodes[i] })
        }),
{
    let order = order_of_nodes(nodes);
    super::order::acyclic_has_order(nodes);
    propagation_keeps_others(nodes, order, order.len() as int);
}

/// A step that is not the node's own leaves its spec alone.
proof fn later_steps_keep(nodes: Seq<NodeView>, order: Seq<NodeId>, k: int, m: int, i: int)
    requires
        runs(nodes, order),
        0 <= k <= m <= order.len(),
        0 <= i < nodes.len(),
        forall|j: int| k <= j < m ==> (#[trigger] order[j]).0 != i,
    ensures
        propagated(nodes, order, m).0[i] == propagated(nodes, order, k).0[i],
    decreases m - k,
{
    if k < m {
        later_steps_keep(nodes, order, k, m - 1, i);
        propagation_keeps_others(nodes, order, m - 1);
        assert(order[m - 1].0 != i);
    }
}

/// Once stopped, propagation stays stopped.
proof fn stopped_stays(nodes: Seq<NodeView>, order: Seq<NodeId>, k: int, m: int)
    requires
        0 <= k <= m,
        propagated(nodes, order, k).1 is Some,
    ensures
        propagated(nodes, order, m) == propagated(nodes, order, k),
    decreases m - k,
{
    if k < m {
        stopped_stays(nodes, order, k, m - 1);
    }
}

/// After a completed propagation every active node has the spec that its operation and its
/// operands give it; running the pass again changes nothing.
pub proof fn propagation_is_stable(nodes: Seq<NodeView>, order: Seq<NodeId>, i: int)
    requires
        dependency_order(nodes, order),
        is_sound(nodes),
        nodes.len() <= usize::MAX,
        propagated(nodes, order, order.len() as int).1 is None,
        is_active(nodes, i),
    ensures
        inferred(propagated(nodes, order, order.len() as int).0, i) == Ok::<SpecView, ErrorView>(
            propagated(nodes, order, order.len() as int).0[i].spec,
        ),
{
    let n = order.len() as int;
    let last = propagated(nodes, order, n).0;
    run_is_distinct(nodes, order);
    propagation_keeps_others(nodes, order, n);
    let k = order.index_of(NodeId(i as usize));
    assert(order[k] == NodeId(i as usize));
    assert(is_next(nodes, order.take(k), order[k]));
    if propagated(nodes, order, k + 1).1 is Some {
        stopped_stays(nodes, order, k + 1, n);
    }
    let prior = propagated(nodes, order, k).0;
    propagation_keeps_others(nodes, order, k);
    later_steps_keep(nodes, order, k + 1, n, i);
    assert(prior[i] == nodes[i]) by {
        if order.take(k).contains(NodeId(i as usize)) {
            let m = order.take(k).index_of(NodeId(i as usize));
            assert(order.take(k)[m] == order[m]);
        }
    }
    assert(inferred(prior, i) == Ok::<SpecView, ErrorView>(last[i].spec));
    assert(operand_specs(prior, i) =~= operand_specs(last, i)) by {
        assert forall|p: int| 0 <= p < nodes[i].inputs.len() implies operand_specs(prior, i)[p] == operand_specs(last, i)[p] by {
            assert(node_is_sound(nodes, nodes[i]));
            let v = nodes[i].inputs[p].0 as int;
            if is_active(nodes, v) {
                assert(order.take(k).contains(NodeId(nodes[i].inputs[p].0)));
                let m = order.take(k).index_of(NodeId(nodes[i].inputs[p].0));
                assert(order.take(k)[m] == order[m]);
                assert forall|j: int| k <= j < n implies (#[trigger] order[j]).0 != v by {
                    if order[j].0 == v {
                        assert(order[j] == order[m]);
                    }
                }
                later_steps_keep(nodes, order, k, n, v);
            } else {
                assert forall|j: int| k <= j < n implies (#[trigger] order[j]).0 != v by {
                    assert(is_active(nodes, order[j].0 as int));
                }
                later_steps_keep(nodes, order, k, n, v);
            }
        }
    }
}

impl GraphPass for ShapePropagation {
    #[verifier::loop_isolation(false)]
    fn run(&self, graph: &mut Graph) -> (r: Result<PassReport>)
        ensures
            has_cycle(old(graph)@.nodes) ==> final(graph)@ == old(graph)@ && refusal(r) == Some(
                ErrorView::GraphValidation("graph contains a cycle"@),
            ),
            !has_cycle(old(graph)@.nodes) ==> ({
                let order = order_of_nodes(old(graph)@.nodes);
                let (nodes, stopped) = propagated(old(graph)@.nodes, order, order.len() as int);
                &&& final(graph)@ == (GraphView { nodes, ..old(graph)@ })
                &&& refusal(r) == stopped
                &&& r matches Ok(report) ==> report.pass@ == "shape-propagation"@ && report.changed_nodes@ == respecified(
                    old(graph)@.nodes,
                    nodes,
                    order,
                    order.len() as int,
                )
            }),
    {
        let ghost start = graph@;
        let order = match graph.topological_order() {
            Ok(order) => order,
            Err(e) => {
                return Err(e);
            },
        };
        let ghost n = order@.len() as int;
        proof {
            run_is_distinct(start.nodes, order@);
        }
        let mut changed_nodes: Vec<NodeId> = Vec::new();
        let mut k: usize = 0;
        while k < order.len()
            invariant
                k <= n,
                graph@ == (GraphView { nodes: propagated(start.nodes, order@, k as int).0, ..start }),
                propagated(start.nodes, order@, k as int).1 is None,
                changed_nodes@ == respecified(start.nodes, graph@.nodes, order@, k as int),
            decreases n - k,
        {
            let id = order[k];
            let ghost i = id.0 as int;
            let ghost prior = graph@.nodes;
            proof {
                propagation_keeps_others(start.nodes, order@, k as int);
                assert(is_active(start.nodes, order@[k as int].0 as int));
                assert(node_is_sound(start.nodes, start.nodes[i]));
                assert(prior[i] == (NodeView { spec: prior[i].spec, ..start.nodes[i] }));
            }
            let nodes = graph.nodes();
            let node = &nodes[id.0];
            assert(prior[i] == node@);
            let mut specs: Vec<TensorSpec> = Vec::new();
            let mut p: usize = 0;
            while p < node.inputs.len()
                invariant
                    p <= node.inputs@.len(),
                    specs@.len() == p,
                    forall|q: int| 0 <= q < p ==> (#[trigger] specs@[q])@ == prior[prior[i].inputs[q].0 as int].spec,
                decreases node.inputs@.len() - p,
            {
                let value = node.inputs[p];
                assert(start.nodes[i].inputs[p as int].0 < start.nodes.len());
                assert(prior[value.0 as int] == nodes@[value.0 as int]@);
                specs.push(nodes[value.0].spec.clone());
                p += 1;
            }
            assert(specs_view(specs@) =~= operand_specs(prior, i));
            let found = match infer_node_spec(&node.op, &node.spec, specs.as_slice()) {
                Ok(found) => found,
                Err(e) => {
                    proof {
                        assert(propagated(start.nodes, order@, k + 1).1 == Some(e@));
                        assert(propagated(start.nodes, order@, k + 1).0 == prior);
                        stopped_stays(start.nodes, order@, k + 1, n);
                    }
                    return Err(e);
                },
            };
            let ghost next = propagated(start.nodes, order@, k + 1).0;
            assert(next == prior.update(i, NodeView { spec: found@, ..prior[i] }));
            proof {
                assert(prior[i] == start.nodes[i]) by {
                    assert(!order@.take(k as int).contains(NodeId(i as usize))) by {
                        if order@.take(k as int).contains(NodeId(i as usize)) {
                            let m = order@.take(k as int).index_of(NodeId(i as usize));
                            assert(order@.take(k as int)[m] == order@[m]);
                        }
                    }
                }
                assert forall|j: int| 0 <= j < n implies (#[trigger] order@[j]).0 < prior.len() by {
                    assert(is_active(start.nodes, order@[j].0 as int));
                }
                respecified_ignores(start.nodes, prior, next, order@, k as int, i);
            }
            if !found.same_as(&node.spec) {
                graph.set_spec(id.0, found);
                changed_nodes.push(id);
            } else {
                assert(next =~= prior);
            }
            k += 1;
        }
        Ok(PassReport { pass: "shape-propagation", changed_nodes })
    }
}

/// A change at a node that is not listed among the first `k` leaves the earlier listing alone.
proof fn respecified_ignores(
    before: Seq<NodeView>,
    a: Seq<NodeView>,
    b: Seq<NodeView>,
    order: Seq<NodeId>,
    k: int,
    i: int,
)
    requires
        0 <= k < order.len(),
        order.no_duplicates(),
        order[k].0 == i,
        forall|j: int| 0 <= j < order.len() ==> (#[trigger] order[j]).0 < a.len(),
        forall|j: int| 0 <= j < a.len() && j != i ==> #[trigger] a[j] == b[j],
    ensures
        respecified(before, a, order, k) == respecified(before, b, order, k),
{
    respecified_same(before, a, b, order, k, k);
}

proof fn respecified_same(
    before: Seq<NodeView>,
    a: Seq<NodeView>,
    b: Seq<NodeView>,
    order: Seq<NodeId>,
    m: int,
    k: int,
)
    requires
        0 <= m <= k < order.len(),
        order.no_duplicates(),
        forall|j: int| 0 <= j < order.len() ==> (#[trigger] order[j]).0 < a.len(),
        forall|j: int| 0 <= j < a.len() && j != order[k].0 ==> #[trigger] a[j] == b[j],
    ensures
        respecified(before, a, order, m) == respecified(before, b, order, m),
    decreases m,
{
    if m > 0 {
        respecified_same(before, a, b, order, m - 1, k);
        assert(order[m - 1] != order[k]);
        assert(order[m - 1].0 < a.len());
        assert(a[order[m - 1].0 as int] == b[order[m - 1].0 as int]);
    }
}

} // verus!
