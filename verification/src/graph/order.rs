//! Dependency order and reachability.
use super::ir::{nodes_view, numbered, Graph, Node, NodeId, NodeView};
use super::op::GraphOp;
use crate::error::{graph_error, ErrorView, Result};
use vstd::prelude::*;

verus! {

/// Node `i` exists and takes part in execution.
pub open spec fn is_active(nodes: Seq<NodeView>, i: int) -> bool {
    0 <= i < nodes.len() && nodes[i].active
}

/// Node `i` can run once the nodes of `done` have run: it is active, has not run, and every
/// active node it depends on has.
pub open spec fn is_ready(nodes: Seq<NodeView>, done: Seq<NodeId>, i: int) -> bool {
    &&& is_active(nodes, i)
    &&& !done.contains(NodeId(i as usize))
    &&& forall|k: int|
        0 <= k < nodes[i].inputs.len() ==> (is_active(nodes, (#[trigger] nodes[i].inputs[k]).0 as int)
            ==> done.contains(NodeId(nodes[i].inputs[k].0)))
}

/// `id` is the smallest node that can run next.
pub open spec fn is_next(nodes: Seq<NodeView>, done: Seq<NodeId>, id: NodeId) -> bool {
    &&& is_ready(nodes, done, id.0 as int)
    &&& forall|j: int| 0 <= j < id.0 ==> !#[trigger] is_ready(nodes, done, j)
}

/// `order` runs nodes one after the other, always the smallest that can run.
pub open spec fn runs(nodes: Seq<NodeView>, order: Seq<NodeId>) -> bool {
    forall|k: int| 0 <= k < order.len() ==> is_next(nodes, order.take(k), #[trigger] order[k])
}

/// `order` runs every active node.
pub open spec fn dependency_order(nodes: Seq<NodeView>, order: Seq<NodeId>) -> bool {
    &&& runs(nodes, order)
    &&& forall|i: int| #[trigger] is_active(nodes, i) ==> order.contains(NodeId(i as usize))
}

/// A set of active nodes each of which depends on another node of the set.
pub open spec fn is_knot(nodes: Seq<NodeView>, knot: Set<int>) -> bool {
    &&& exists|i: int| knot.contains(i)
    &&& forall|i: int| knot.contains(i) ==> is_active(nodes, i) && #[trigger] depends_on_knot(nodes, knot, i)
}

/// Node `i` consumes a value of a node in `knot`.
pub open spec fn depends_on_knot(nodes: Seq<NodeView>, knot: Set<int>, i: int) -> bool {
    exists|k: int| 0 <= k < nodes[i].inputs.len() && knot.contains((#[trigger] nodes[i].inputs[k]).0 as int)
}

/// The active nodes depend on each other in a circle.
pub open spec fn has_cycle(nodes: Seq<NodeView>) -> bool {
    exists|knot: Set<int>| is_knot(nodes, knot)
}

/// The dependency order of an acyclic graph.
pub open spec fn order_of_nodes(nodes: Seq<NodeView>) -> Seq<NodeId> {
    choose|order: Seq<NodeId>| dependency_order(nodes, order)
}

/// A run lists no node twice and only active nodes.
pub proof fn run_is_distinct(nodes: Seq<NodeView>, order: Seq<NodeId>)
    requires
        runs(nodes, order),
    ensures
        order.no_duplicates(),
        forall|k: int| 0 <= k < order.len() ==> is_active(nodes, (#[trigger] order[k]).0 as int),
{
    assert forall|a: int, b: int| 0 <= a < b < order.len() implies order[a] != order[b] by {
        assert(is_next(nodes, order.take(b), order[b]));
        assert(order.take(b)[a] == order[a]);
        assert(order.take(b).contains(order[a]));
    }
    assert forall|k: int| 0 <= k < order.len() implies is_active(nodes, (#[trigger] order[k]).0 as int) by {
        assert(is_next(nodes, order.take(k), order[k]));
    }
}

/// Two runs agree as far as both go: the order of execution is determined by the graph.
pub proof fn runs_agree(nodes: Seq<NodeView>, a: Seq<NodeId>, b: Seq<NodeId>, n: int)
    requires
        runs(nodes, a),
        runs(nodes, b),
        0 <= n <= a.len(),
        n <= b.len(),
    ensures
        a.take(n) == b.take(n),
    decreases n,
{
    if n > 0 {
        runs_agree(nodes, a, b, n - 1);
        let x = a[n - 1];
        let y = b[n - 1];
        assert(is_next(nodes, a.take(n - 1), x));
        assert(is_next(nodes, b.take(n - 1), y));
        if x.0 < y.0 {
            assert(!is_ready(nodes, b.take(n - 1), x.0 as int));
        }
        if y.0 < x.0 {
            assert(!is_ready(nodes, a.take(n - 1), y.0 as int));
        }
        assert(a.take(n) =~= a.take(n - 1).push(x));
        assert(b.take(n) =~= b.take(n - 1).push(y));
    } else {
        assert(a.take(0) =~= b.take(0));
    }
}

/// A graph has at most one dependency order.
pub proof fn dependency_order_is_unique(nodes: Seq<NodeView>, a: Seq<NodeId>, b: Seq<NodeId>)
    requires
        dependency_order(nodes, a),
        dependency_order(nodes, b),
    ensures
        a == b,
{
    run_is_distinct(nodes, a);
    run_is_distinct(nodes, b);
    if a.len() < b.len() {
        runs_agree(nodes, a, b, a.len() as int);
        let extra = b[a.len() as int];
        assert(is_active(nodes, extra.0 as int));
        assert(a.contains(extra));
        let k = a.index_of(extra);
        assert(a.take(a.len() as int)[k] == b.take(a.len() as int)[k]);
        assert(b[k] == extra);
    } else if b.len() < a.len() {
        runs_agree(nodes, a, b, b.len() as int);
        let extra = a[b.len() as int];
        assert(is_active(nodes, extra.0 as int));
        assert(b.contains(extra));
        let k = b.index_of(extra);
        assert(a.take(b.len() as int)[k] == b.take(b.len() as int)[k]);
        assert(a[k] == extra);
    } else {
        runs_agree(nodes, a, b, a.len() as int);
        assert(a.take(a.len() as int) =~= a);
        assert(b.take(b.len() as int) =~= b);
    }
}

/// A graph with a dependency order has no cycle.
pub proof fn ordered_is_acyclic(nodes: Seq<NodeView>, order: Seq<NodeId>)
    requires
        dependency_order(nodes, order),
        nodes.len() <= usize::MAX,
    ensures
        !has_cycle(nodes),
{
    if has_cycle(nodes) {
        let knot = choose|knot: Set<int>| is_knot(nodes, knot);
        let start = choose|i: int| knot.contains(i);
        assert(depends_on_knot(nodes, knot, start));
        assert(is_active(nodes, start));
        let k = order.index_of(NodeId(start as usize));
        assert(order[k] == NodeId(start as usize));
        knot_is_never_run(nodes, order, knot, k);
    }
}

/// No node of a knot can be reached in a run.
proof fn knot_is_never_run(nodes: Seq<NodeView>, order: Seq<NodeId>, knot: Set<int>, k: int)
    requires
        runs(nodes, order),
        is_knot(nodes, knot),
        0 <= k < order.len(),
    ensures
        !knot.contains(order[k].0 as int),
    decreases k,
{
    let i = order[k].0 as int;
    if knot.contains(i) {
        assert(is_next(nodes, order.take(k), order[k]));
        assert(depends_on_knot(nodes, knot, i));
        let p = choose|p: int|
            0 <= p < nodes[i].inputs.len() && knot.contains((#[trigger] nodes[i].inputs[p]).0 as int);
        let producer = nodes[i].inputs[p].0 as int;
        assert(depends_on_knot(nodes, knot, producer));
        assert(is_active(nodes, producer));
        assert(order.take(k).contains(NodeId(nodes[i].inputs[p].0)));
        let m = order.take(k).index_of(NodeId(nodes[i].inputs[p].0));
        assert(order.take(k)[m] == order[m]);
        knot_is_never_run(nodes, order, knot, m);
    }
}

/// When nothing can run and an active node has not run, the remaining nodes are a knot.
proof fn stuck_is_cyclic(nodes: Seq<NodeView>, order: Seq<NodeId>, left: int)
    requires
        numbered(nodes),
        nodes.len() <= usize::MAX,
        forall|j: int| !#[trigger] is_ready(nodes, order, j),
        is_active(nodes, left),
        !order.contains(NodeId(left as usize)),
    ensures
        has_cycle(nodes),
{
    let knot = Set::new(|i: int| is_active(nodes, i) && !order.contains(NodeId(i as usize)));
    assert(knot.contains(left));
    assert forall|i: int| knot.contains(i) implies is_active(nodes, i) && #[trigger] depends_on_knot(nodes, knot, i) by {
        assert(!is_ready(nodes, order, i));
        let k = choose|k: int|
            0 <= k < nodes[i].inputs.len() && is_active(nodes, (#[trigger] nodes[i].inputs[k]).0 as int)
                && !order.contains(NodeId(nodes[i].inputs[k].0));
        assert(knot.contains(nodes[i].inputs[k].0 as int));
    }
    assert(is_knot(nodes, knot));
}

/// The smallest node at or above `from` that can run next, when one can.
proof fn smallest_ready(nodes: Seq<NodeView>, done: Seq<NodeId>, from: int, known: int) -> (next: int)
    requires
        0 <= from <= known,
        is_ready(nodes, done, known),
        forall|j: int| 0 <= j < from ==> !#[trigger] is_ready(nodes, done, j),
    ensures
        is_ready(nodes, done, next),
        forall|j: int| 0 <= j < next ==> !#[trigger] is_ready(nodes, done, j),
    decreases known - from,
{
    if is_ready(nodes, done, from) {
        from
    } else {
        smallest_ready(nodes, done, from + 1, known)
    }
}

/// A run of an acyclic graph can be continued until every active node has run.
proof fn run_can_be_completed(nodes: Seq<NodeView>, done: Seq<NodeId>) -> (order: Seq<NodeId>)
    requires
        numbered(nodes),
        nodes.len() <= usize::MAX,
        !has_cycle(nodes),
        runs(nodes, done),
    ensures
        dependency_order(nodes, order),
    decreases nodes.len() - done.len(),
{
    if forall|i: int| #[trigger] is_active(nodes, i) ==> done.contains(NodeId(i as usize)) {
        done
    } else {
        let left = choose|i: int| #[trigger] is_active(nodes, i) && !done.contains(NodeId(i as usize));
        run_length(nodes, done, left);
        if forall|j: int| !#[trigger] is_ready(nodes, done, j) {
            stuck_is_cyclic(nodes, done, left);
        }
        let known = choose|j: int| #[trigger] is_ready(nodes, done, j);
        let next = smallest_ready(nodes, done, 0, known);
        let longer = done.push(NodeId(next as usize));
        assert forall|k: int| 0 <= k < longer.len() implies is_next(nodes, longer.take(k), #[trigger] longer[k]) by {
            if k < done.len() {
                assert(longer.take(k) =~= done.take(k));
                assert(longer[k] == done[k]);
            } else {
                assert(longer.take(k) =~= done);
            }
        }
        run_can_be_completed(nodes, longer)
    }
}

/// A graph has a dependency order exactly when it has no cycle.
pub proof fn acyclic_has_order(nodes: Seq<NodeView>)
    requires
        numbered(nodes),
        nodes.len() <= usize::MAX,
    ensures
        !has_cycle(nodes) <==> exists|order: Seq<NodeId>| dependency_order(nodes, order),
        !has_cycle(nodes) ==> dependency_order(nodes, order_of_nodes(nodes)),
{
    if !has_cycle(nodes) {
        let empty = Seq::<NodeId>::empty();
        assert(runs(nodes, empty));
        let order = run_can_be_completed(nodes, empty);
        assert(dependency_order(nodes, order));
    }
    if exists|order: Seq<NodeId>| dependency_order(nodes, order) {
        let order = choose|order: Seq<NodeId>| dependency_order(nodes, order);
        ordered_is_acyclic(nodes, order);
    }
}

/// The flags in `done` mark the nodes of `order`.
spec fn marks(done: Seq<bool>, order: Seq<NodeId>) -> bool {
    forall|i: int| 0 <= i < done.len() ==> #[trigger] done[i] == order.contains(NodeId(i as usize))
}

fn can_run(nodes: &[Node], done: &Vec<bool>, i: usize, order: Ghost<Seq<NodeId>>) -> (r: bool)
    requires
        i < nodes@.len(),
        done@.len() == nodes@.len(),
        marks(done@, order@),
    ensures
        r == is_ready(nodes_view(nodes@), order@, i as int),
{
    let ghost view = nodes_view(nodes@);
    let node = &nodes[i];
    assert(view[i as int] == node@);
    if !node.active || done[i] {
        return false;
    }
    let mut k: usize = 0;
    while k < node.inputs.len()
        invariant
            i < nodes@.len(),
            view == nodes_view(nodes@),
            view[i as int] == node@,
            done@.len() == nodes@.len(),
            marks(done@, order@),
            k <= node.inputs@.len(),
            forall|j: int|
                0 <= j < k ==> (is_active(view, (#[trigger] view[i as int].inputs[j]).0 as int) ==> order@.contains(
                    NodeId(view[i as int].inputs[j].0),
                )),
        decreases node.inputs@.len() - k,
    {
        let producer: usize = node.inputs[k].0;
        assert(view[i as int].inputs[k as int].0 == producer);
        if producer < nodes.len() {
            assert(view[producer as int] == nodes@[producer as int]@);
            if nodes[producer].active && !done[producer] {
                assert(is_active(view, view[i as int].inputs[k as int].0 as int));
                assert(!order@.contains(NodeId(view[i as int].inputs[k as int].0)));
                return false;
            }
        }
        k += 1;
    }
    true
}

impl Graph {
    /// Returns active nodes in deterministic dependency order.
    ///
    /// Among the nodes whose active producers have all been listed, the one with the smallest
    /// identifier comes next. A graph whose active nodes depend on each other in a circle is
    /// refused.
    #[verifier::loop_isolation(false)]
    pub fn topological_order(&self) -> (r: Result<Vec<NodeId>>)
        requires
            self@.wf(),
        ensures
            match r {
                Ok(order) => dependency_order(self@.nodes, order@) && order@ == order_of_nodes(self@.nodes) && !has_cycle(
                    self@.nodes,
                ),
                Err(e) => e@ == ErrorView::GraphValidation("graph contains a cycle"@) && has_cycle(self@.nodes),
            },
    {
        let nodes = self.nodes();
        let ghost view = self@.nodes;
        let n: usize = nodes.len();
        let mut done: Vec<bool> = Vec::new();
        let mut filled: usize = 0;
        while filled < n
            invariant
                filled <= n,
                done@.len() == filled,
                forall|i: int| 0 <= i < filled ==> !#[trigger] done@[i],
            decreases n - filled,
        {
            done.push(false);
            filled += 1;
        }
        let mut order: Vec<NodeId> = Vec::new();
        let mut low: usize = 0;
        let mut at: usize = 0;
        while at < n
            invariant
                at <= n,
                low <= at,
                done@.len() == n,
                marks(done@, order@),
                runs(view, order@),
                order@.len() <= n,
                forall|j: int| 0 <= j < at ==> !#[trigger] is_ready(view, order@, j),
                forall|j: int| 0 <= j < low ==> (is_active(view, j) ==> #[trigger] done@[j]),
            decreases n - order@.len(), n - at,
        {
            if can_run(nodes, &done, at, Ghost(order@)) {
                let ghost earlier = order@;
                proof {
                    run_is_distinct(view, earlier);
                    run_length(view, earlier, at as int);
                }
                order.push(NodeId(at));
                done.set(at, true);
                proof {
                    assert(order@ =~= earlier.push(NodeId(at)));
                    assert forall|k: int| 0 <= k < order@.len() implies is_next(view, order@.take(k), #[trigger] order@[k]) by {
                        if k < earlier.len() {
                            assert(order@.take(k) =~= earlier.take(k));
                            assert(order@[k] == earlier[k]);
                        } else {
                            assert(order@.take(k) =~= earlier);
                        }
                    }
                    assert forall|i: int| 0 <= i < n implies #[trigger] done@[i] == order@.contains(NodeId(i as usize)) by {
                        if i == at {
                            assert(order@[order@.len() - 1] == NodeId(at));
                        } else {
                            if order@.contains(NodeId(i as usize)) {
                                let m = order@.index_of(NodeId(i as usize));
                                assert(order@[m] == NodeId(i as usize));
                                assert(earlier[m] == order@[m]);
                            }
                            if earlier.contains(NodeId(i as usize)) {
                                let m = earlier.index_of(NodeId(i as usize));
                                assert(order@[m] == earlier[m]);
                            }
                        }
                    }
                }
                proof {
                    assert forall|j: int| 0 <= j < low implies !#[trigger] is_ready(view, order@, j) by {
                        assert(done@[j] == order@.contains(NodeId(j as usize)));
                    }
                }
                at = low;
            } else {
                if at == low && (!nodes[at].active || done[at]) {
                    assert(view[at as int] == nodes@[at as int]@);
                    low = low + 1;
                }
                at = at + 1;
            }
        }
        proof {
            assert forall|j: int| !#[trigger] is_ready(view, order@, j) by {}
        }
        let mut i: usize = 0;
        while i < n
            invariant
                i <= n,
                forall|j: int| 0 <= j < i ==> (#[trigger] is_active(view, j) ==> order@.contains(NodeId(j as usize))),
            decreases n - i,
        {
            assert(view[i as int] == nodes@[i as int]@);
            if nodes[i].active && !done[i] {
                proof {
                    stuck_is_cyclic(view, order@, i as int);
                }
                return Err(graph_error("graph contains a cycle"));
            }
            i += 1;
        }
        proof {
            assert(dependency_order(view, order@));
            ordered_is_acyclic(view, order@);
            dependency_order_is_unique(view, order@, order_of_nodes(view));
        }
        Ok(order)
    }
}

/// A run of fewer nodes than the graph has leaves room for one more.
proof fn run_length(nodes: Seq<NodeView>, order: Seq<NodeId>, fresh: int)
    requires
        runs(nodes, order),
        0 <= fresh < nodes.len(),
        nodes.len() <= usize::MAX,
        !order.contains(NodeId(fresh as usize)),
    ensures
        order.len() < nodes.len(),
{
    run_is_distinct(nodes, order);
    let ids = order.push(NodeId(fresh as usize));
    let positions = ids.map_values(|id: NodeId| id.0 as int);
    assert(positions.no_duplicates()) by {
        assert forall|a: int, b: int| 0 <= a < positions.len() && 0 <= b < positions.len() && a != b implies positions[a]
            != positions[b] by {
            if a == order.len() as int {
                assert(order.contains(order[b]));
            }
            if b == order.len() as int {
                assert(order.contains(order[a]));
            }
            assert(ids[a] != ids[b]);
        }
    }
    positions.unique_seq_to_set();
    let all = vstd::set_lib::set_int_range(0, nodes.len() as int);
    vstd::set_lib::lemma_int_range(0, nodes.len() as int);
    assert(positions.to_set().subset_of(all)) by {
        assert forall|p: int| positions.to_set().contains(p) implies all.contains(p) by {
            let k = positions.index_of(p);
            assert(positions[k] == p);
            if k < order.len() {
                assert(is_active(nodes, order[k].0 as int));
            }
        }
    }
    vstd::set_lib::lemma_len_subset(positions.to_set(), all);
}

/// Node `i` can be computed from graph inputs in at most `depth` steps.
pub open spec fn reachable_in(nodes: Seq<NodeView>, i: int, depth: nat) -> bool
    decreases depth,
{
    &&& is_active(nodes, i)
    &&& (nodes[i].op is Input || (depth > 0 && forall|k: int|
        0 <= k < nodes[i].inputs.len() ==> reachable_in(
            nodes,
            (#[trigger] nodes[i].inputs[k]).0 as int,
            (depth - 1) as nat,
        )))
}

/// Node `i` can be computed from graph inputs. No chain of dependencies is longer than the
/// number of nodes.
pub open spec fn is_reachable(nodes: Seq<NodeView>, i: int) -> bool {
    reachable_in(nodes, i, nodes.len())
}

/// What can be computed in few steps can be computed in more.
pub proof fn reachable_in_more(nodes: Seq<NodeView>, i: int, depth: nat, more: nat)
    requires
        reachable_in(nodes, i, depth),
        depth <= more,
    ensures
        reachable_in(nodes, i, more),
    decreases depth,
{
    if !(nodes[i].op is Input) {
        assert forall|k: int| 0 <= k < nodes[i].inputs.len() implies reachable_in(
            nodes,
            (#[trigger] nodes[i].inputs[k]).0 as int,
            (more - 1) as nat,
        ) by {
            reachable_in_more(nodes, nodes[i].inputs[k].0 as int, (depth - 1) as nat, (more - 1) as nat);
        }
    }
}

/// The flags mark, among the nodes of `order`, those that can be computed from inputs.
pub open spec fn flags_follow(nodes: Seq<NodeView>, order: Seq<NodeId>, flags: Seq<bool>) -> bool {
    &&& flags.len() == nodes.len()
    &&& forall|i: int| 0 <= i < flags.len() && #[trigger] flags[i] ==> order.contains(NodeId(i as usize))
    &&& forall|k: int| 0 <= k < order.len() ==> flag_follows(nodes, flags, (#[trigger] order[k]).0 as int)
}

/// The flag of node `i` is set exactly when it is an input or all its operands are flagged.
pub open spec fn flag_follows(nodes: Seq<NodeView>, flags: Seq<bool>, i: int) -> bool {
    flags[i] == (nodes[i].op is Input || forall|k: int|
        0 <= k < nodes[i].inputs.len() ==> (#[trigger] nodes[i].inputs[k]).0 < flags.len() && flags[nodes[i].inputs[k].0 as int])
}

/// A flagged node is reachable within its position in the order.
proof fn flagged_is_reachable(nodes: Seq<NodeView>, order: Seq<NodeId>, flags: Seq<bool>, k: int)
    requires
        runs(nodes, order),
        flags_follow(nodes, order, flags),
        0 <= k < order.len(),
        flags[order[k].0 as int],
    ensures
        reachable_in(nodes, order[k].0 as int, (k + 1) as nat),
    decreases k,
{
    let i = order[k].0 as int;
    assert(is_next(nodes, order.take(k), order[k]));
    assert(flag_follows(nodes, flags, order[k].0 as int));
    if !(nodes[i].op is Input) {
        assert forall|p: int| 0 <= p < nodes[i].inputs.len() implies reachable_in(
            nodes,
            (#[trigger] nodes[i].inputs[p]).0 as int,
            k as nat,
        ) by {
            let producer = nodes[i].inputs[p].0 as int;
            assert(flags[producer]);
            assert(order.contains(NodeId(producer as usize)));
            let at = order.index_of(NodeId(producer as usize));
            assert(order[at] == NodeId(producer as usize));
            assert(is_next(nodes, order.take(at), order[at]));
            assert(is_active(nodes, producer));
            assert(order.take(k).contains(NodeId(nodes[i].inputs[p].0)));
            let m = order.take(k).index_of(NodeId(nodes[i].inputs[p].0));
            assert(order.take(k)[m] == order[m]);
            flagged_is_reachable(nodes, order, flags, m);
            reachable_in_more(nodes, producer, (m + 1) as nat, k as nat);
        }
    }
}

/// A reachable node is flagged.
proof fn reachable_is_flagged(nodes: Seq<NodeView>, order: Seq<NodeId>, flags: Seq<bool>, i: int, depth: nat)
    requires
        dependency_order(nodes, order),
        flags_follow(nodes, order, flags),
        nodes.len() <= usize::MAX,
        reachable_in(nodes, i, depth),
    ensures
        0 <= i < nodes.len(),
        flags[i],
    decreases depth,
{
    assert(is_active(nodes, i));
    let k = order.index_of(NodeId(i as usize));
    assert(order[k] == NodeId(i as usize));
    assert(flag_follows(nodes, flags, order[k].0 as int));
    if !(nodes[i].op is Input) {
        assert forall|p: int| 0 <= p < nodes[i].inputs.len() implies (#[trigger] nodes[i].inputs[p]).0 < flags.len()
            && flags[nodes[i].inputs[p].0 as int] by {
            reachable_is_flagged(nodes, order, flags, nodes[i].inputs[p].0 as int, (depth - 1) as nat);
        }
    }
}

/// The flags of a whole order mark exactly the reachable nodes.
proof fn flags_are_reachability(nodes: Seq<NodeView>, order: Seq<NodeId>, flags: Seq<bool>)
    requires
        dependency_order(nodes, order),
        flags_follow(nodes, order, flags),
        nodes.len() <= usize::MAX,
    ensures
        forall|i: int| 0 <= i < nodes.len() ==> #[trigger] flags[i] == is_reachable(nodes, i),
{
    assert forall|i: int| 0 <= i < nodes.len() implies #[trigger] flags[i] == is_reachable(nodes, i) by {
        if flags[i] {
            let k = order.index_of(NodeId(i as usize));
            assert(order[k] == NodeId(i as usize));
            flagged_is_reachable(nodes, order, flags, k);
            if k > 0 {
                let earlier = order.take(k);
                assert(is_next(nodes, order.take(k), order[k]));
                assert(runs(nodes, earlier)) by {
                    assert forall|m: int| 0 <= m < earlier.len() implies is_next(nodes, earlier.take(m), #[trigger] earlier[m]) by {
                        assert(earlier.take(m) =~= order.take(m));
                        assert(order[m] == earlier[m]);
                    }
                }
                run_length(nodes, earlier, i);
            }
            reachable_in_more(nodes, i, (k + 1) as nat, nodes.len());
        }
        if is_reachable(nodes, i) {
            reachable_is_flagged(nodes, order, flags, i, nodes.len());
        }
    }
}

fn operands_flagged(node: &Node, flags: &Vec<bool>) -> (r: bool)
    ensures
        r == forall|k: int|
            0 <= k < node@.inputs.len() ==> (#[trigger] node@.inputs[k]).0 < flags@.len() && flags@[node@.inputs[k].0 as int],
{
    let mut k: usize = 0;
    while k < node.inputs.len()
        invariant
            k <= node.inputs@.len(),
            forall|j: int|
                0 <= j < k ==> (#[trigger] node@.inputs[j]).0 < flags@.len() && flags@[node@.inputs[j].0 as int],
        decreases node.inputs@.len() - k,
    {
        let producer: usize = node.inputs[k].0;
        assert(node@.inputs[k as int].0 == producer);
        if producer >= flags.len() || !flags[producer] {
            return false;
        }
        k += 1;
    }
    true
}

/// Marks the nodes that can be computed from graph inputs.
#[verifier::loop_isolation(false)]
pub(crate) fn reachable_flags(graph: &Graph, order: &Vec<NodeId>) -> (flags: Vec<bool>)
    requires
        graph@.wf(),
        dependency_order(graph@.nodes, order@),
    ensures
        flags@.len() == graph@.nodes.len(),
        forall|i: int| 0 <= i < graph@.nodes.len() ==> #[trigger] flags@[i] == is_reachable(graph@.nodes, i),
{
    let nodes = graph.nodes();
    let ghost view = graph@.nodes;
    let mut flags: Vec<bool> = Vec::new();
    let mut filled: usize = 0;
    while filled < nodes.len()
        invariant
            filled <= nodes@.len(),
            flags@.len() == filled,
            forall|i: int| 0 <= i < filled ==> !#[trigger] flags@[i],
        decreases nodes@.len() - filled,
    {
        flags.push(false);
        filled += 1;
    }
    proof {
        run_is_distinct(view, order@);
    }
    let mut k: usize = 0;
    while k < order.len()
        invariant
            k <= order@.len(),
            flags@.len() == view.len(),
            forall|i: int| 0 <= i < flags@.len() && #[trigger] flags@[i] ==> order@.take(k as int).contains(NodeId(i as usize)),
            forall|m: int| 0 <= m < k ==> flag_follows(view, flags@, (#[trigger] order@[m]).0 as int),
        decreases order@.len() - k,
    {
        let id = order[k];
        assert(is_active(view, id.0 as int));
        assert(view[id.0 as int] == nodes@[id.0 as int]@);
        let node = &nodes[id.0];
        let ghost earlier = flags@;
        let is_input = match node.op {
            GraphOp::Input => true,
            _ => false,
        };
        let flagged = is_input || operands_flagged(node, &flags);
        flags.set(id.0, flagged);
        proof {
            let done = order@.take(k as int);
            let longer = order@.take(k as int + 1);
            assert(longer =~= done.push(id));
            assert(is_next(view, done, order@[k as int]));
            assert(!done.contains(id));
            assert(!earlier[id.0 as int]);
            assert forall|i: int| 0 <= i < flags@.len() && #[trigger] flags@[i] implies longer.contains(NodeId(i as usize)) by {
                if i == id.0 {
                    assert(longer[k as int] == id);
                } else {
                    assert(earlier[i]);
                    let m = done.index_of(NodeId(i as usize));
                    assert(longer[m] == done[m]);
                }
            }
            assert forall|m: int| 0 <= m < k + 1 implies flag_follows(view, flags@, (#[trigger] order@[m]).0 as int) by {
                let i = order@[m].0 as int;
                assert(is_next(view, order@.take(m), order@[m]));
                assert forall|p: int| 0 <= p < view[i].inputs.len() implies ({
                    let v = (#[trigger] view[i].inputs[p]).0 as int;
                    v == id.0 ==> !earlier[v] && (m < k ==> !flags@[v])
                }) by {
                    let v = view[i].inputs[p].0 as int;
                    if v == id.0 {
                        assert(is_active(view, view[i].inputs[p].0 as int));
                        assert(order@.take(m).contains(NodeId(view[i].inputs[p].0)));
                        let q = order@.take(m).index_of(NodeId(view[i].inputs[p].0));
                        assert(order@[q] == order@.take(m)[q]);
                        assert(order@[q] == id);
                        assert(q == k);
                    }
                }
                if m < k {
                    assert(order@[m] != order@[k as int]);
                    assert(flag_follows(view, earlier, i));
                } else {
                    assert(i == id.0);
                }
            }
        }
        k += 1;
    }
    proof {
        assert(order@.take(k as int) =~= order@);
        assert(flags_follow(view, order@, flags@));
        flags_are_reachability(view, order@, flags@);
    }
    flags
}

impl Graph {
    /// Returns active nodes whose values can be produced from graph inputs.
    #[verifier::loop_isolation(false)]
    pub fn reachable_nodes(&self) -> (r: Result<Vec<NodeId>>)
        requires
            self@.wf(),
        ensures
            match r {
                Ok(found) => !has_cycle(self@.nodes) && found@ == order_of_nodes(self@.nodes).filter(
                    |id: NodeId| is_reachable(self@.nodes, id.0 as int),
                ),
                Err(e) => e@ == ErrorView::GraphValidation("graph contains a cycle"@) && has_cycle(self@.nodes),
            },
    {
        let order = match self.topological_order() {
            Ok(order) => order,
            Err(e) => {
                return Err(e);
            },
        };
        let ghost view = self@.nodes;
        let ghost keep = |id: NodeId| is_reachable(view, id.0 as int);
        let flags = reachable_flags(self, &order);
        proof {
            run_is_distinct(view, order@);
            reveal(Seq::filter);
        }
        let mut found: Vec<NodeId> = Vec::new();
        let mut k: usize = 0;
        assert(order@.take(0) =~= Seq::<NodeId>::empty());
        while k < order.len()
            invariant
                k <= order@.len(),
                found@ == order@.take(k as int).filter(keep),
            decreases order@.len() - k,
        {
            let id = order[k];
            assert(is_active(view, id.0 as int));
            proof {
                let longer = order@.take(k as int + 1);
                assert(longer.drop_last() =~= order@.take(k as int));
                assert(longer.last() == id);
                assert(keep(id) == flags@[id.0 as int]);
                assert(longer.filter(keep) == (if keep(id) {
                    order@.take(k as int).filter(keep).push(id)
                } else {
                    order@.take(k as int).filter(keep)
                })) by {
                    reveal(Seq::filter);
                }
            }
            if flags[id.0] {
                found.push(id);
            }
            k += 1;
        }
        assert(order@.take(k as int) =~= order@);
        Ok(found)
    }
}

} // verus!
