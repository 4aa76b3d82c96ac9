//! Which tensors a graph takes, and when an operation can be added to one.
use super::builder::{
    binary_step, concatenate_step, cross_entropy_step, dropout_step, finished, first_missing, flatten_step, linear_step,
    loss_spec, loss_step, pushed, unary_step, BuilderView,
};
use super::check::{graph_refusal, name_refusal};
use super::execute::{bound, form_refusal, needed_checks, runtime_check, start_refusal, supplied_checks, GraphInputs};
use super::infer::{binary_spec, concat_spec, flatten_spec};
use super::ir::{GraphView, NodeView, ValueId};
use super::op::GraphOp;
use super::spec::{DimView, SpecView};
use crate::error::first_at_none;
use crate::float::Binary64;
use crate::kind::{Device, Kind};
use crate::number_laws::{one, value_of};
use crate::tensor::MetaView;
use vstd::prelude::*;

verus! {

proof fn sizes_are_bound(name: Seq<char>, dims: Seq<DimView>, shape: Seq<i64>, from: int, symbols: Map<Seq<char>, i64>)
    requires
        0 <= from <= dims.len(),
        dims.len() == shape.len(),
    ensures
        ({
            let (after, stopped) = bound(name, dims, shape, from, symbols);
            stopped is None ==> {
                &&& forall|s: Seq<char>| #[trigger] symbols.dom().contains(s) ==> after.dom().contains(s) && after[s] == symbols[s]
                &&& forall|k: int|
                    from <= k < dims.len() ==> match #[trigger] dims[k] {
                        DimView::Known(n) => shape[k] == n,
                        DimView::Symbol(s) => after.dom().contains(s) && after[s] == shape[k],
                        DimView::Dynamic => true,
                    }
            }
        }),
    decreases dims.len() - from,
{
    if from < dims.len() {
        match dims[from] {
            DimView::Symbol(s) => {
                if symbols.dom().contains(s) {
                    sizes_are_bound(name, dims, shape, from + 1, symbols);
                } else {
                    let next = symbols.insert(s, shape[from]);
                    sizes_are_bound(name, dims, shape, from + 1, next);
                    let after = bound(name, dims, shape, from + 1, next).0;
                    assert(next.dom().contains(s));
                    assert forall|t: Seq<char>| #[trigger] symbols.dom().contains(t) implies next.dom().contains(t) && next[t] == symbols[t] by {}
                }
            },
            _ => {
                sizes_are_bound(name, dims, shape, from + 1, symbols);
            },
        }
    }
}

/// An input that is accepted lies on the device its specification asks for and has its element type, its
/// rank and its known sizes; every symbol then stands for the size that the input has there, and symbols
/// that stood for a size before still do.
pub proof fn accepted_inputs_meet_their_specification(
    name: Seq<char>,
    tensor: MetaView,
    spec: SpecView,
    resolved: Option<Device>,
    symbols: Map<Seq<char>, i64>,
)
    requires
        spec.dimensions matches Some(dims) ==> dims.len() <= usize::MAX,
    ensures
        ({
            let (after, stopped) = runtime_check(name, tensor, spec, resolved, symbols);
            stopped is None ==> {
                &&& resolved matches Some(device) ==> tensor.device == device
                &&& spec.kind matches Some(kind) ==> tensor.kind == kind
                &&& spec.dimensions is None ==> (spec.rank matches Some(rank) ==> tensor.shape.len() == rank)
                &&& forall|s: Seq<char>| #[trigger] symbols.dom().contains(s) ==> after.dom().contains(s) && after[s] == symbols[s]
                &&& spec.dimensions matches Some(dims) ==> {
                    &&& tensor.shape.len() == dims.len()
                    &&& forall|k: int|
                        0 <= k < dims.len() ==> match #[trigger] dims[k] {
                            DimView::Known(n) => tensor.shape[k] == n,
                            DimView::Symbol(s) => after.dom().contains(s) && after[s] == tensor.shape[k],
                            DimView::Dynamic => true,
                        }
                }
            }
        }),
{
    let (after, stopped) = runtime_check(name, tensor, spec, resolved, symbols);
    if stopped is None {
        assert(form_refusal(name, tensor, spec) is None);
        if spec.dimensions is Some {
            sizes_are_bound(name, spec.dimensions->0, tensor.shape, 0, symbols);
        }
    }
}

/// Sizes that agree with an assignment of the symbols, and with what the symbols stand for already, are
/// accepted.
pub proof fn agreeing_sizes_are_accepted(
    name: Seq<char>,
    dims: Seq<DimView>,
    shape: Seq<i64>,
    from: int,
    symbols: Map<Seq<char>, i64>,
    sizes: spec_fn(Seq<char>) -> i64,
)
    requires
        0 <= from <= dims.len(),
        dims.len() == shape.len(),
        forall|s: Seq<char>| #[trigger] symbols.dom().contains(s) ==> symbols[s] == sizes(s),
        forall|k: int|
            0 <= k < dims.len() ==> match #[trigger] dims[k] {
                DimView::Known(n) => shape[k] == n,
                DimView::Symbol(s) => shape[k] == sizes(s),
                DimView::Dynamic => true,
            },
    ensures
        bound(name, dims, shape, from, symbols).1 is None,
    decreases dims.len() - from,
{
    if from < dims.len() {
        match dims[from] {
            DimView::Symbol(s) => {
                if symbols.dom().contains(s) {
                    agreeing_sizes_are_accepted(name, dims, shape, from + 1, symbols, sizes);
                } else {
                    agreeing_sizes_are_accepted(name, dims, shape, from + 1, symbols.insert(s, shape[from]), sizes);
                }
            },
            _ => {
                agreeing_sizes_are_accepted(name, dims, shape, from + 1, symbols, sizes);
            },
        }
    }
}

/// A run starts exactly if the graph is valid and it is given a tensor for each of its inputs and for
/// nothing else.
pub proof fn runs_start_with_every_input(graph: GraphView, inputs: GraphInputs)
    ensures
        start_refusal(graph, inputs) is None <==> {
            &&& graph_refusal(graph) is None
            &&& forall|k: int| 0 <= k < inputs.listing().len() ==> graph.input_names.contains(#[trigger] inputs.listing()[k])
            &&& forall|k: int| 0 <= k < graph.input_names.len() ==> inputs@.dom().contains(#[trigger] graph.input_names[k])
        },
{
    let names = inputs.listing();
    let given = supplied_checks(names, graph);
    let wanted = needed_checks(graph, inputs@);
    first_at_none(0, names.len() as int, given);
    first_at_none(0, graph.input_names.len() as int, wanted);
    if forall|k: int| 0 <= k < names.len() ==> (#[trigger] given(k)) is None {
        assert forall|k: int| 0 <= k < names.len() implies graph.input_names.contains(#[trigger] names[k]) by {
            assert(given(k) is None);
        }
    }
    if forall|k: int| 0 <= k < graph.input_names.len() ==> (#[trigger] wanted(k)) is None {
        assert forall|k: int| 0 <= k < graph.input_names.len() implies inputs@.dom().contains(#[trigger] graph.input_names[k]) by {
            assert(wanted(k) is None);
        }
    }
}

proof fn missing_values_are_found(nodes: Seq<NodeView>, inputs: Seq<ValueId>, from: int)
    requires
        0 <= from <= inputs.len(),
    ensures
        first_missing(nodes, inputs, from) is None <==> forall|k: int| from <= k < inputs.len() ==> (#[trigger] inputs[k]).0 < nodes.len(),
    decreases inputs.len() - from,
{
    if from < inputs.len() {
        missing_values_are_found(nodes, inputs, from + 1);
    }
}

/// A name can be added, and is new.
pub open spec fn is_new(b: BuilderView, name: Seq<char>) -> bool {
    name_refusal(name) is None && !b.names.contains(name)
}

/// A node is added exactly if its name is sound and new and every value that it takes exists.
pub proof fn nodes_are_added_with_existing_operands(b: BuilderView, name: Seq<char>, op: GraphOp, inputs: Seq<ValueId>, spec: SpecView)
    ensures
        pushed(b, name, op, inputs, spec).result is Ok <==> is_new(b, name) && forall|k: int|
            0 <= k < inputs.len() ==> (#[trigger] inputs[k]).0 < b.nodes.len(),
        pushed(b, name, op, inputs, spec).result is Ok ==> pushed(b, name, op, inputs, spec).builder.nodes.last().spec == spec,
{
    missing_values_are_found(b.nodes, inputs, 0);
}

/// Operations on one and on two values are added exactly if the values exist and, for two, their
/// specifications can be combined; the result has the combined specification.
pub proof fn arithmetic_is_added_for_fitting_operands(b: BuilderView, name: Seq<char>, op: GraphOp, left: ValueId, right: ValueId)
    ensures
        unary_step(b, name, op, left).result is Ok <==> is_new(b, name) && left.0 < b.nodes.len(),
        unary_step(b, name, op, left).result is Ok ==> unary_step(b, name, op, left).builder.nodes.last().spec == b.nodes[left.0 as int].spec,
        binary_step(b, name, op, left, right).result is Ok <==> is_new(b, name) && left.0 < b.nodes.len() && right.0 < b.nodes.len()
            && binary_spec(b.nodes[left.0 as int].spec, b.nodes[right.0 as int].spec) is Ok,
        binary_step(b, name, op, left, right).result is Ok ==> binary_step(b, name, op, left, right).builder.nodes.last().spec == binary_spec(
            b.nodes[left.0 as int].spec,
            b.nodes[right.0 as int].spec,
        )->Ok_0,
{
    missing_values_are_found(b.nodes, seq![left], 0);
    missing_values_are_found(b.nodes, seq![left, right], 0);
}

/// A linear map is added exactly if its sizes are not negative and its input ends, as far as is known, in as
/// many features as it takes.
pub proof fn linear_maps_are_added_for_fitting_inputs(
    b: BuilderView,
    name: Seq<char>,
    input: ValueId,
    in_features: i64,
    out_features: i64,
    bias: bool,
)
    ensures
        linear_step(b, name, input, in_features, out_features, bias).result is Ok <==> {
            &&& in_features >= 0 && out_features >= 0
            &&& input.0 < b.nodes.len() && is_new(b, name)
            &&& b.nodes[input.0 as int].spec.dimensions matches Some(dims) ==> (dims.len() > 0 && dims[dims.len() - 1] is Known
                ==> dims[dims.len() - 1] == DimView::Known(in_features))
        },
{
    missing_values_are_found(b.nodes, seq![input], 0);
}

/// A flattening and a join are added exactly if their operands exist and the result can be shaped.
pub proof fn reshaping_is_added_where_it_can_be_done(b: BuilderView, name: Seq<char>, input: ValueId, start: i64, end: i64, list: Seq<ValueId>, dim: i64)
    ensures
        flatten_step(b, name, input, start, end).result is Ok <==> input.0 < b.nodes.len() && is_new(b, name) && flatten_spec(
            b.nodes[input.0 as int].spec,
            start as int,
            end as int,
        ) is Ok,
        concatenate_step(b, name, list, dim).result is Ok <==> {
            &&& list.len() > 0 && is_new(b, name)
            &&& forall|k: int| 0 <= k < list.len() ==> (#[trigger] list[k]).0 < b.nodes.len()
            &&& concat_spec(Seq::new(list.len(), |k: int| b.nodes[list[k].0 as int].spec), dim as int) is Ok
        },
{
    missing_values_are_found(b.nodes, seq![input], 0);
    missing_values_are_found(b.nodes, list, 0);
    assert(list.map_values(|v: ValueId| b.nodes[v.0 as int].spec) =~= Seq::new(list.len(), |k: int| b.nodes[list[k].0 as int].spec));
}

/// A loss is a scalar in the element type of its input, or single precision where none is declared. A
/// squared error needs operands of one element type, and a cross entropy a target of whole numbers.
pub proof fn losses_are_scalars(b: BuilderView, name: Seq<char>, input: ValueId, target: ValueId, kind: Kind)
    ensures
        loss_spec(Some(kind)).kind == Some(kind) && loss_spec(None).kind == Some(Kind::Float),
        loss_spec(Some(kind)).dimensions == Some(Seq::<DimView>::empty()) && loss_spec(None).dimensions == Some(Seq::<DimView>::empty()),
        loss_step(b, name, GraphOp::MseLoss, input, target).result is Ok <==> {
            let (l, r) = (b.nodes[input.0 as int].spec.kind, b.nodes[target.0 as int].spec.kind);
            &&& input.0 < b.nodes.len() && target.0 < b.nodes.len() && is_new(b, name)
            &&& l is Some && r is Some ==> l == r
        },
        cross_entropy_step(b, name, input, target).result is Ok <==> {
            &&& input.0 < b.nodes.len() && target.0 < b.nodes.len() && is_new(b, name)
            &&& b.nodes[target.0 as int].spec.kind matches Some(k) ==> k is Int64
        },
{
    missing_values_are_found(b.nodes, seq![input, target], 0);
}

/// A dropout is added exactly with a probability from zero to one.
pub proof fn dropouts_are_added_with_probabilities(b: BuilderView, name: Seq<char>, input: ValueId, probability: Binary64)
    ensures
        dropout_step(b, name, input, probability).result is Ok <==> {
            &&& probability.finite() && 0 <= value_of(probability) <= one()
            &&& input.0 < b.nodes.len() && is_new(b, name)
        },
{
    crate::nn::laws::dropout_probabilities_are_fractions(probability);
    missing_values_are_found(b.nodes, seq![input], 0);
}

/// A finished graph is valid and has the inputs, outputs and operations that were added.
pub proof fn finished_graphs_are_valid(b: BuilderView)
    ensures
        finished(b) matches Ok(graph) ==> {
            &&& graph_refusal(graph) is None && graph_refusal(b.graph()) is None
            &&& graph.input_names == b.graph().input_names && graph.input_values == b.graph().input_values
            &&& graph.output_names == b.graph().output_names && graph.output_values == b.graph().output_values
        },
{
}

} // verus!
