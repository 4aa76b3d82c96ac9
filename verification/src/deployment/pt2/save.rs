//! Writing an exported program.
use super::super::artifact::{
    copy_bytes, states_view, storages_view, Artifact, ArtifactView, State, StateView, Storage, StorageView,
};
use super::super::evaluate::accepted;
use super::super::infer::{all_specs, all_specs_have, infer_specs, spec_views, StateMeta};
use super::super::layout::MAX_BYTES;
use super::super::onnx::export::{sample_checks, sample_shape, sample_shapes, shapes_view};
use super::super::program::known_name;
use super::super::tree::{copy_tree, names_view, walked, Tree, TreeView};
use super::super::types::{
    operation_parts, operations_view, program_parts, value_specs_view, DType, Dimension, DimensionView, Operation, OperationView,
    Operator, Program, ProgramView, StateRole, ValueSpec, ValueSpecView,
};
use super::archive::{contents, format_bytes, order_bytes, version_bytes};
use super::json::{items_view, Json, JsonView};
use super::operator::{rename, renamed, renames};
use super::write::{
    all_renamed, integer_args, int_unions, jsons, list, meta, node, node_union, nothing, object_of, object_of_map,
    object_with, object_with_map, single, size_args, size_unions, tensor_arg, tensor_meta, tensor_union, text_value,
};
use crate::error::{deployment_error, deployment_text, first_at, outcome, refusal, texts, ErrorView, Result};
use crate::kind::Device;
use crate::names::NameMap;
use crate::text::{decimal, join, natural_text, owned, same};
use vstd::prelude::*;

verus! {

/// Why a model cannot be written at all, if it cannot.
pub open spec fn export_refusal(program: ProgramView, device: Device) -> Option<ErrorView> {
    if device != Device::Cpu {
        Some(deployment_text("PT2 export requires CPU model state"@))
    } else if has_conditional(program) {
        Some(deployment_text("PT2 conditional export is unsupported"@))
    } else {
        None
    }
}

/// A program has a conditional.
pub open spec fn has_conditional(program: ProgramView) -> bool {
    exists|i: int| 0 <= i < program.operations.len() && (#[trigger] program.operations[i]).operator is If
}

/// A storage holds both weights and constants.
pub open spec fn has_mixed_storage(state: Seq<StateView>) -> bool {
    exists|i: int, j: int|
        #![trigger state[i], state[j]]
        0 <= j < i < state.len() && state[j].storage == state[i].storage && (state[j].role is Constant) != (state[i].role is Constant)
}

/// The symbols of the inputs: a new name for each, and its bounds.
pub struct SymbolsView {
    pub names: Map<Seq<char>, Seq<char>>,
    pub ranges: Map<Seq<char>, (i64, Option<i64>)>,
}

/// The symbols after a step, or why the step is refused.
pub type SymbolStep = core::result::Result<SymbolsView, ErrorView>;

impl SymbolsView {
    /// No symbol.
    pub open spec fn start() -> SymbolsView {
        SymbolsView { names: Map::empty(), ranges: Map::empty() }
    }

    /// The new name of a symbol: the one it has, or the next.
    pub open spec fn symbol(self, name: Seq<char>) -> Seq<char> {
        if self.names.dom().contains(name) {
            self.names[name]
        } else {
            "s"@ + decimal(self.names.dom().len() as int)
        }
    }

    /// With a dimension. The bounds of a symbol are the same wherever it stands.
    pub open spec fn with_dimension(self, dimension: DimensionView) -> SymbolStep {
        match dimension {
            DimensionView::Known(_) => Ok(self),
            DimensionView::Symbol { name, min, max } => {
                let symbol = self.symbol(name);
                if self.ranges.dom().contains(symbol) && self.ranges[symbol] != (min, max) {
                    Err(deployment_text("symbol bounds must agree for PT2 export"@))
                } else {
                    Ok(
                        SymbolsView {
                            names: self.names.insert(name, symbol),
                            ranges: self.ranges.insert(symbol, (min, max)),
                        },
                    )
                }
            },
        }
    }

    /// With the first `n` dimensions.
    pub open spec fn with_dimensions(self, dimensions: Seq<DimensionView>, n: int) -> SymbolStep
        decreases n,
    {
        if n <= 0 {
            Ok(self)
        } else {
            match self.with_dimensions(dimensions, n - 1) {
                Err(e) => Err(e),
                Ok(next) => next.with_dimension(dimensions[n - 1]),
            }
        }
    }

    /// With the dimensions of the first `n` inputs.
    pub open spec fn with_inputs(self, inputs: Seq<ValueSpecView>, n: int) -> SymbolStep
        decreases n,
    {
        if n <= 0 {
            Ok(self)
        } else {
            match self.with_inputs(inputs, n - 1) {
                Err(e) => Err(e),
                Ok(next) => next.with_dimensions(inputs[n - 1].dimensions, inputs[n - 1].dimensions.len() as int),
            }
        }
    }
}

/// The symbols of a program that is to be written and the shapes with which it is tried.
pub struct PlanView {
    pub symbols: SymbolsView,
    pub shapes: Seq<Seq<i64>>,
}

/// How a program is to be written, or why it is not.
pub open spec fn planned(artifact: ArtifactView) -> core::result::Result<PlanView, ErrorView> {
    let inputs = artifact.program.inputs;
    if has_mixed_storage(artifact.state) {
        Err(deployment_text("PT2 cannot preserve storage shared across weights and constants"@))
    } else {
        match SymbolsView::start().with_inputs(inputs, inputs.len() as int) {
            Err(e) => Err(e),
            Ok(symbols) => match first_at(0, inputs.len() as int, sample_checks(inputs)) {
                Some(e) => Err(e),
                None => Ok(PlanView { symbols, shapes: inputs.map_values(|s: ValueSpecView| sample_shape(s)) }),
            },
        }
    }
}

/// What a trial run has shown of a value.
#[derive(Debug)]
pub struct Sample {
    /// Its dtype.
    pub dtype: DType,
    /// Whether it tracks gradients.
    pub requires_grad: bool,
    /// Its strides.
    pub strides: Vec<i64>,
}

/// The placeholder of a state tensor.
pub open spec fn placeholder(i: int) -> Seq<char> {
    "state_"@ + decimal(i)
}

/// The placeholders of the first `n` state tensors.
pub open spec fn placeholders(state: Seq<StateView>, n: int) -> Map<Seq<char>, Seq<char>>
    decreases n,
{
    if n <= 0 {
        Map::empty()
    } else {
        placeholders(state, n - 1).insert(state[n - 1].name, placeholder(n - 1))
    }
}

/// The signature of a state tensor.
pub open spec fn state_signature(state: StateView, i: int) -> JsonView {
    let arg = object_of(seq!["name"@], seq![JsonView::Text(placeholder(i))]);
    match state.role {
        StateRole::Parameter => object_of(
            seq!["parameter"@],
            seq![object_of(seq!["arg"@, "parameter_name"@], seq![arg, JsonView::Text(state.name)])],
        ),
        StateRole::Buffer => object_of(
            seq!["buffer"@],
            seq![
                object_of(
                    seq!["arg"@, "buffer_name"@, "persistent"@],
                    seq![arg, JsonView::Text(state.name), JsonView::Bool(true)],
                ),
            ],
        ),
        StateRole::Constant => object_of(
            seq!["tensor_constant"@],
            seq![object_of(seq!["arg"@, "tensor_constant_name"@], seq![arg, JsonView::Text(state.name)])],
        ),
    }
}

/// The signature of an input.
pub open spec fn input_signature(name: Seq<char>) -> JsonView {
    object_of(seq!["user_input"@], seq![object_of(seq!["arg"@], seq![tensor_union(name)])])
}

/// The signature of an output.
pub open spec fn output_signature(name: Seq<char>) -> JsonView {
    object_of(seq!["user_output"@], seq![object_of(seq!["arg"@], seq![tensor_union(name)])])
}

/// The metadata of a state tensor.
pub open spec fn state_meta(storages: Seq<StorageView>, state: StateView, offset: i64) -> JsonView {
    tensor_meta(
        storages[state.storage as int].dtype,
        int_unions(state.shape),
        state.requires_grad,
        state.strides,
        offset,
    )
}

/// The metadata of a value that was tried.
pub open spec fn sample_meta(sample: Sample, dimensions: Seq<DimensionView>, symbols: Map<Seq<char>, Seq<char>>) -> JsonView {
    tensor_meta(sample.dtype, size_unions(dimensions, symbols), sample.requires_grad, sample.strides@, 0)
}

/// The graph that has been written so far.
pub struct GraphOut {
    pub inputs: Seq<JsonView>,
    pub signature: Seq<JsonView>,
    pub values: Map<Seq<char>, JsonView>,
    pub nodes: Seq<JsonView>,
}

/// The graph after a step, or why the step is refused.
pub type GraphStep = core::result::Result<GraphOut, ErrorView>;

/// What a trial run has shown of every value.
pub type Samples = Map<Seq<char>, Sample>;

impl GraphOut {
    /// Nothing is written.
    pub open spec fn start() -> GraphOut {
        GraphOut { inputs: Seq::empty(), signature: Seq::empty(), values: Map::empty(), nodes: Seq::empty() }
    }

    /// With the first `n` state tensors.
    pub open spec fn with_states(self, storages: Seq<StorageView>, state: Seq<StateView>, n: int) -> GraphOut
        decreases n,
    {
        if n <= 0 {
            self
        } else {
            let before = self.with_states(storages, state, n - 1);
            GraphOut {
                inputs: before.inputs.push(tensor_union(placeholder(n - 1))),
                signature: before.signature.push(state_signature(state[n - 1], n - 1)),
                values: before.values.insert(placeholder(n - 1), state_meta(storages, state[n - 1], 0)),
                nodes: before.nodes,
            }
        }
    }

    /// With the first `n` inputs; none has the name of a placeholder.
    pub open spec fn with_inputs(
        self,
        inputs: Seq<ValueSpecView>,
        states: nat,
        samples: Samples,
        symbols: Map<Seq<char>, Seq<char>>,
        n: int,
    ) -> GraphStep
        decreases n,
    {
        if n <= 0 {
            Ok(self)
        } else {
            match self.with_inputs(inputs, states, samples, symbols, n - 1) {
                Err(e) => Err(e),
                Ok(before) => {
                    let input = inputs[n - 1];
                    if is_placeholder(input.name, states) {
                        Err(deployment_text("input name conflicts with exported state placeholder"@))
                    } else {
                        Ok(
                            GraphOut {
                                inputs: before.inputs.push(tensor_union(input.name)),
                                signature: before.signature.push(input_signature(input.name)),
                                values: before.values.insert(
                                    input.name,
                                    sample_meta(samples[input.name], input.dimensions, symbols),
                                ),
                                nodes: before.nodes,
                            },
                        )
                    }
                },
            }
        }
    }

    /// With the first `n` operations.
    pub open spec fn with_nodes(
        self,
        operations: Seq<OperationView>,
        specs: Map<Seq<char>, ValueSpecView>,
        samples: Samples,
        symbols: Map<Seq<char>, Seq<char>>,
        map: Map<Seq<char>, Seq<char>>,
        n: int,
    ) -> GraphOut
        decreases n,
    {
        if n <= 0 {
            self
        } else {
            let before = self.with_nodes(operations, specs, samples, symbols, map, n - 1);
            let operation = operations[n - 1];
            GraphOut {
                nodes: before.nodes.push(node_union(operation, map)),
                values: before.values.insert(
                    operation.name,
                    sample_meta(samples[operation.name], specs[operation.name].dimensions, symbols),
                ),
                ..before
            }
        }
    }
}

/// A name is one of the first placeholders.
pub open spec fn is_placeholder(name: Seq<char>, states: nat) -> bool {
    exists|i: int| 0 <= i < states && name == #[trigger] placeholder(i)
}

/// A bound that may be left open.
pub open spec fn bound_union(bound: Option<i64>) -> JsonView {
    match bound {
        Some(n) => JsonView::Int(n),
        None => JsonView::Null,
    }
}

/// The bounds of a symbol.
pub open spec fn range_union(range: (i64, Option<i64>)) -> JsonView {
    object_of(seq!["max_val"@, "min_val"@], seq![bound_union(range.1), JsonView::Int(range.0)])
}

/// The bounds of all symbols.
pub open spec fn range_unions(ranges: Map<Seq<char>, (i64, Option<i64>)>) -> JsonView {
    object_of_map(ranges.map_values(|r: (i64, Option<i64>)| range_union(r)))
}

/// The written description of a program.
pub open spec fn description(
    graph: GraphOut,
    outputs: Seq<Seq<char>>,
    ranges: Map<Seq<char>, (i64, Option<i64>)>,
    in_spec: Seq<char>,
    out_spec: Seq<char>,
) -> JsonView {
    let empty = object_of(Seq::empty(), Seq::empty());
    let none = JsonView::List(Seq::empty());
    object_of(
        seq![
            "graph_module"@,
            "guards_code"@,
            "opset_version"@,
            "range_constraints"@,
            "schema_version"@,
            "torch_version"@,
            "verifiers"@,
        ],
        seq![
            object_of(
                seq!["graph"@, "metadata"@, "module_call_graph"@, "signature"@, "treespec_namedtuple_fields"@],
                seq![
                    object_of(
                        seq![
                            "custom_obj_values"@,
                            "inputs"@,
                            "is_single_tensor_return"@,
                            "nodes"@,
                            "outputs"@,
                            "sym_bool_values"@,
                            "sym_float_values"@,
                            "sym_int_values"@,
                            "tensor_values"@,
                        ],
                        seq![
                            empty,
                            JsonView::List(graph.inputs),
                            JsonView::Bool(false),
                            JsonView::List(graph.nodes),
                            JsonView::List(outputs.map_values(|n: Seq<char>| tensor_union(n))),
                            empty,
                            empty,
                            empty,
                            object_of_map(graph.values),
                        ],
                    ),
                    empty,
                    JsonView::List(
                        seq![
                            object_of(
                                seq!["fqn"@, "signature"@],
                                seq![
                                    JsonView::Text(""@),
                                    object_of(
                                        seq!["forward_arg_names"@, "in_spec"@, "inputs"@, "out_spec"@, "outputs"@],
                                        seq![JsonView::Null, JsonView::Text(in_spec), none, JsonView::Text(out_spec), none],
                                    ),
                                ],
                            ),
                        ],
                    ),
                    object_of(
                        seq!["input_specs"@, "output_specs"@],
                        seq![
                            JsonView::List(graph.signature),
                            JsonView::List(outputs.map_values(|n: Seq<char>| output_signature(n))),
                        ],
                    ),
                    empty,
                ],
            ),
            none,
            object_of(seq!["aten"@], seq![JsonView::Int(10)]),
            range_unions(ranges),
            object_of(seq!["major"@, "minor"@], seq![JsonView::Int(8), JsonView::Int(20)]),
            JsonView::Text("2.13.0"@),
            JsonView::List(seq![JsonView::Text("TRAINING"@)]),
        ],
    )
}

/// The written graph of an artifact.
pub open spec fn graph_out(
    artifact: ArtifactView,
    specs: Map<Seq<char>, ValueSpecView>,
    samples: Samples,
    symbols: Map<Seq<char>, Seq<char>>,
) -> GraphStep {
    let program = artifact.program;
    let start = GraphOut::start().with_states(artifact.storages, artifact.state, artifact.state.len() as int);
    match start.with_inputs(program.inputs, artifact.state.len(), samples, symbols, program.inputs.len() as int) {
        Err(e) => Err(e),
        Ok(graph) => Ok(
            graph.with_nodes(
                program.operations,
                specs,
                samples,
                symbols,
                placeholders(artifact.state, artifact.state.len() as int),
                program.operations.len() as int,
            ),
        ),
    }
}

/// The written description of an artifact, or why there is none. The specs of all values may
/// be refused after the names of the inputs have been accepted.
pub open spec fn saved(
    artifact: ArtifactView,
    plan: PlanView,
    specs: core::result::Result<Map<Seq<char>, ValueSpecView>, ErrorView>,
    samples: Samples,
    in_spec: Seq<char>,
    out_spec: Seq<char>,
) -> core::result::Result<JsonView, ErrorView> {
    let program = artifact.program;
    let start = GraphOut::start().with_states(artifact.storages, artifact.state, artifact.state.len() as int);
    match start.with_inputs(
        program.inputs,
        artifact.state.len(),
        samples,
        plan.symbols.names,
        program.inputs.len() as int,
    ) {
        Err(e) => Err(e),
        Ok(_) => match specs {
            Err(e) => Err(e),
            Ok(specs) => match walked(program.output_tree, 0, Seq::empty()) {
                Err(e) => Err(e),
                Ok(outputs) => Ok(
                    description(
                        graph_out(artifact, specs, samples, plan.symbols.names)->Ok_0,
                        all_renamed(placeholders(artifact.state, artifact.state.len() as int), outputs),
                        plan.symbols.ranges,
                        in_spec,
                        out_spec,
                    ),
                ),
            },
        },
    }
}

/// The calling structure of the inputs as positional and keyword arguments.
pub open spec fn call_tree(tree: TreeView) -> TreeView {
    if tree is Tuple && tree->Tuple_0.len() == 2 && tree->Tuple_0[0] is Tuple && tree->Tuple_0[1] is Dict {
        tree
    } else {
        TreeView::Tuple(seq![tree, TreeView::Dict(Seq::empty())])
    }
}

/// The path of a storage below its directory.
pub open spec fn storage_name(storage: usize) -> Seq<char> {
    "tensor_"@ + decimal(storage as int)
}

/// The description of a state tensor in a configuration.
pub open spec fn payload_of(storages: Seq<StorageView>, state: StateView) -> JsonView {
    object_of(
        seq!["is_param"@, "path_name"@, "tensor_meta"@, "use_pickle"@],
        seq![
            JsonView::Bool(state.role is Parameter),
            JsonView::Text(storage_name(state.storage)),
            state_meta(storages, state, state.offset),
            JsonView::Bool(false),
        ],
    )
}

/// The configuration of those of the first `n` state tensors that are constants, or of those
/// that are not.
pub open spec fn config_map(storages: Seq<StorageView>, state: Seq<StateView>, constant: bool, n: int) -> Map<Seq<char>, JsonView>
    decreases n,
{
    if n <= 0 {
        Map::empty()
    } else if (state[n - 1].role is Constant) == constant {
        config_map(storages, state, constant, n - 1).insert(state[n - 1].name, payload_of(storages, state[n - 1]))
    } else {
        config_map(storages, state, constant, n - 1)
    }
}

/// A written configuration.
pub open spec fn config_of(artifact: ArtifactView, constant: bool) -> JsonView {
    object_of(
        seq!["config"@],
        seq![object_of_map(config_map(artifact.storages, artifact.state, constant, artifact.state.len() as int))],
    )
}

/// The directory of a state tensor.
pub open spec fn directory_of(role: StateRole) -> Seq<char> {
    if role is Constant {
        "data/constants/"@
    } else {
        "data/weights/"@
    }
}

/// The members that hold the storages of the first `n` state tensors.
pub open spec fn raw_members(storages: Seq<StorageView>, state: Seq<StateView>, n: int) -> Map<Seq<char>, Seq<u8>>
    decreases n,
{
    if n <= 0 {
        Map::empty()
    } else {
        raw_members(storages, state, n - 1).insert(
            directory_of(state[n - 1].role) + storage_name(state[n - 1].storage),
            storages[state[n - 1].storage as int].bytes,
        )
    }
}

/// Checks that a model can be written at all.
pub fn check_export(program: &Program, device: Device) -> (r: Result<()>)
    ensures
        refusal(r) == export_refusal(program@, device),
{
    if device != Device::Cpu {
        return Err(deployment_error("PT2 export requires CPU model state"));
    }
    let ghost view = program@;
    proof {
        program_parts(*program);
    }
    let mut i: usize = 0;
    while i < program.operations.len()
        invariant
            device == Device::Cpu,
            view == program@,
            view.operations == operations_view(program.operations@),
            i <= program.operations@.len(),
            forall|j: int| 0 <= j < i ==> !((#[trigger] view.operations[j]).operator is If),
        decreases program.operations@.len() - i,
    {
        proof {
            assert(view.operations[i as int] == program.operations@[i as int]@);
            operation_parts(program.operations@[i as int]);
        }
        if let Operator::If { .. } = &program.operations[i].operator {
            assert(view.operations[i as int].operator is If);
            return Err(deployment_error("PT2 conditional export is unsupported"));
        }
        i += 1;
    }
    Ok(())
}

fn mixes(state: &Vec<State>) -> (r: bool)
    ensures
        r == has_mixed_storage(states_view(state@)),
{
    let ghost view = states_view(state@);
    let mut i: usize = 0;
    while i < state.len()
        invariant
            view == states_view(state@),
            i <= state@.len(),
            forall|a: int, b: int|
                #![trigger view[a], view[b]]
                0 <= b < a < i ==> !(view[b].storage == view[a].storage && (view[b].role is Constant) != (view[a].role is Constant)),
        decreases state@.len() - i,
    {
        let mut j: usize = 0;
        assert(view[i as int] == state@[i as int]@);
        while j < i
            invariant
                view == states_view(state@),
                i < state@.len(),
                j <= i,
                view[i as int] == state@[i as int]@,
                forall|b: int|
                    0 <= b < j ==> !((#[trigger] view[b]).storage == view[i as int].storage && (view[b].role is Constant) != (
                    view[i as int].role is Constant)),
            decreases i - j,
        {
            assert(view[j as int] == state@[j as int]@);
            let a = match state[i].role {
                StateRole::Constant => true,
                _ => false,
            };
            let b = match state[j].role {
                StateRole::Constant => true,
                _ => false,
            };
            if state[i].storage == state[j].storage && a != b {
                return true;
            }
            j += 1;
        }
        i += 1;
    }
    false
}

/// The symbols of the inputs.
pub struct Symbols {
    names: NameMap<String>,
    ranges: NameMap<(i64, Option<i64>)>,
}

impl View for Symbols {
    type V = SymbolsView;

    closed spec fn view(&self) -> SymbolsView {
        SymbolsView { names: renames(self.names@), ranges: self.ranges@ }
    }
}

spec fn symbolized(r: Result<()>, after: SymbolsView) -> SymbolStep {
    match r {
        Ok(_) => Ok(after),
        Err(e) => Err(e@),
    }
}

proof fn dimensions_fail(s: SymbolsView, dimensions: Seq<DimensionView>, k: int, n: int)
    requires
        0 <= k <= n,
        s.with_dimensions(dimensions, k) is Err,
    ensures
        s.with_dimensions(dimensions, n) == s.with_dimensions(dimensions, k),
    decreases n - k,
{
    if k < n {
        dimensions_fail(s, dimensions, k, n - 1);
    }
}

proof fn symbol_inputs_fail(s: SymbolsView, inputs: Seq<ValueSpecView>, k: int, n: int)
    requires
        0 <= k <= n,
        s.with_inputs(inputs, k) is Err,
    ensures
        s.with_inputs(inputs, n) == s.with_inputs(inputs, k),
    decreases n - k,
{
    if k < n {
        symbol_inputs_fail(s, inputs, k, n - 1);
    }
}

impl Symbols {
    /// The maps are in order.
    pub closed spec fn wf(self) -> bool {
        self.names.wf() && self.ranges.wf()
    }

    fn start() -> (r: Self)
        ensures
            r.wf(),
            r@ == SymbolsView::start(),
    {
        let r = Symbols { names: NameMap::new(), ranges: NameMap::new() };
        assert(r@.names =~= Map::empty());
        r
    }

    fn add_dimension(&mut self, dimension: &Dimension) -> (r: Result<()>)
        requires
            old(self).wf(),
        ensures
            final(self).wf(),
            symbolized(r, final(self)@) == old(self)@.with_dimension(dimension@),
    {
        let ghost start = *self;
        match dimension {
            Dimension::Known(_) => Ok(()),
            Dimension::Symbol { name, min, max } => {
                let symbol = match self.names.get(name.as_str()) {
                    Some(symbol) => symbol.clone(),
                    None => {
                        proof {
                            self.names.length_is_count();
                            assert(renames(self.names@).dom() =~= self.names@.dom());
                        }
                        let number = natural_text(self.names.len() as u64);
                        join("s", number.as_str())
                    },
                };
                assert(symbol@ == start@.symbol(name@));
                match self.ranges.get(symbol.as_str()) {
                    Some((low, high)) => {
                        let alike = *low == *min && match (high, max) {
                            (Some(a), Some(b)) => *a == *b,
                            (None, None) => true,
                            _ => false,
                        };
                        if !alike {
                            return Err(deployment_error("symbol bounds must agree for PT2 export"));
                        }
                    },
                    None => {},
                }
                let ghost text = symbol@;
                self.ranges.insert(symbol.clone(), (*min, *max));
                self.names.insert(name.clone(), symbol);
                proof {
                    let expected = start@.with_dimension(dimension@)->Ok_0;
                    assert(self@.names =~= expected.names);
                    assert(self@.ranges =~= expected.ranges);
                }
                Ok(())
            },
        }
    }

    fn add_dimensions(&mut self, dimensions: &Vec<Dimension>) -> (r: Result<()>)
        requires
            old(self).wf(),
        ensures
            final(self).wf(),
            symbolized(r, final(self)@) == old(self)@.with_dimensions(
                super::super::types::dimensions_view(dimensions@),
                dimensions@.len() as int,
            ),
    {
        let ghost view = super::super::types::dimensions_view(dimensions@);
        let ghost n = dimensions@.len() as int;
        let ghost start = self@;
        let mut i: usize = 0;
        while i < dimensions.len()
            invariant
                view == super::super::types::dimensions_view(dimensions@),
                n == dimensions@.len(),
                start == old(self)@,
                i <= n,
                self.wf(),
                start.with_dimensions(view, i as int) == Ok::<SymbolsView, ErrorView>(self@),
            decreases n - i,
        {
            proof {
                assert(view[i as int] == dimensions@[i as int]@);
                if start.with_dimensions(view, i + 1) is Err {
                    dimensions_fail(start, view, i + 1, n);
                }
            }
            if let Err(e) = self.add_dimension(&dimensions[i]) {
                return Err(e);
            }
            i += 1;
        }
        Ok(())
    }

    fn add_inputs(&mut self, inputs: &Vec<ValueSpec>) -> (r: Result<()>)
        requires
            old(self).wf(),
        ensures
            final(self).wf(),
            symbolized(r, final(self)@) == old(self)@.with_inputs(value_specs_view(inputs@), inputs@.len() as int),
    {
        let ghost view = value_specs_view(inputs@);
        let ghost n = inputs@.len() as int;
        let ghost start = self@;
        let mut i: usize = 0;
        while i < inputs.len()
            invariant
                view == value_specs_view(inputs@),
                n == inputs@.len(),
                start == old(self)@,
                i <= n,
                self.wf(),
                start.with_inputs(view, i as int) == Ok::<SymbolsView, ErrorView>(self@),
            decreases n - i,
        {
            proof {
                assert(view[i as int] == inputs@[i as int]@);
                if start.with_inputs(view, i + 1) is Err {
                    symbol_inputs_fail(start, view, i + 1, n);
                }
            }
            if let Err(e) = self.add_dimensions(&inputs[i].dimensions) {
                return Err(e);
            }
            i += 1;
        }
        Ok(())
    }
}

/// How a program is to be written.
pub struct Plan {
    symbols: Symbols,
    shapes: Vec<Vec<i64>>,
}

impl View for Plan {
    type V = PlanView;

    closed spec fn view(&self) -> PlanView {
        PlanView { symbols: self.symbols@, shapes: shapes_view(self.shapes@) }
    }
}

impl Plan {
    /// The symbols are in order.
    pub closed spec fn wf(self) -> bool {
        self.symbols.wf()
    }

    /// Decides how an artifact is to be written.
    pub fn new(artifact: &Artifact) -> (r: Result<Self>)
        ensures
            outcome(r) == planned(artifact@),
            r matches Ok(plan) ==> plan.wf(),
    {
        proof {
            program_parts(artifact.program);
        }
        if mixes(&artifact.state) {
            return Err(deployment_error("PT2 cannot preserve storage shared across weights and constants"));
        }
        let mut symbols = Symbols::start();
        if let Err(e) = symbols.add_inputs(&artifact.program.inputs) {
            return Err(e);
        }
        match sample_shapes(artifact.program.inputs.as_slice()) {
            Ok(shapes) => Ok(Plan { symbols, shapes }),
            Err(e) => Err(e),
        }
    }

    /// Returns the shapes with which the program is tried.
    pub fn shapes(&self) -> (r: &Vec<Vec<i64>>)
        ensures
            shapes_view(r@) == self@.shapes,
    {
        &self.shapes
    }
}

struct GraphWriter {
    inputs: Vec<Json>,
    signature: Vec<Json>,
    values: NameMap<Json>,
    nodes: Vec<Json>,
}

impl View for GraphWriter {
    type V = GraphOut;

    closed spec fn view(&self) -> GraphOut {
        GraphOut {
            inputs: items_view(self.inputs@),
            signature: items_view(self.signature@),
            values: jsons(self.values@),
            nodes: items_view(self.nodes@),
        }
    }
}

fn write_placeholder(i: usize) -> (r: String)
    ensures
        r@ == placeholder(i as int),
{
    let number = natural_text(i as u64);
    join("state_", number.as_str())
}

fn write_state_signature(state: &State, i: usize) -> (r: Json)
    ensures
        r@ == state_signature(state@, i as int),
{
    let name = write_placeholder(i);
    let arg = single("name", Json::Text(name));
    match state.role {
        StateRole::Parameter => {
            let keys: Vec<&str> = vec!["arg", "parameter_name"];
            let values: Vec<Json> = vec![arg, text_value(state.name.as_str())];
            assert(keys@.map_values(|k: &str| k@) =~= seq!["arg"@, "parameter_name"@]);
            assert(items_view(values@) =~= seq![arg@, JsonView::Text(state.name@)]);
            single("parameter", object_with(keys, values))
        },
        StateRole::Buffer => {
            let keys: Vec<&str> = vec!["arg", "buffer_name", "persistent"];
            let values: Vec<Json> = vec![arg, text_value(state.name.as_str()), Json::Bool(true)];
            assert(keys@.map_values(|k: &str| k@) =~= seq!["arg"@, "buffer_name"@, "persistent"@]);
            assert(items_view(values@) =~= seq![arg@, JsonView::Text(state.name@), JsonView::Bool(true)]);
            single("buffer", object_with(keys, values))
        },
        StateRole::Constant => {
            let keys: Vec<&str> = vec!["arg", "tensor_constant_name"];
            let values: Vec<Json> = vec![arg, text_value(state.name.as_str())];
            assert(keys@.map_values(|k: &str| k@) =~= seq!["arg"@, "tensor_constant_name"@]);
            assert(items_view(values@) =~= seq![arg@, JsonView::Text(state.name@)]);
            single("tensor_constant", object_with(keys, values))
        },
    }
}

fn write_state_meta(storages: &Vec<Storage>, state: &State, offset: i64) -> (r: Json)
    requires
        state.storage < storages@.len(),
    ensures
        r@ == state_meta(storages_view(storages@), state@, offset),
{
    meta(
        storages[state.storage].dtype,
        integer_args(state.shape.as_slice()),
        state.requires_grad,
        state.strides.as_slice(),
        offset,
    )
}

/// Every state tensor lies in a storage.
pub open spec fn storages_exist(artifact: ArtifactView) -> bool {
    forall|i: int| 0 <= i < artifact.state.len() ==> (#[trigger] artifact.state[i]).storage < artifact.storages.len()
}

impl GraphWriter {
    spec fn wf(self) -> bool {
        self.values.wf()
    }

    fn start() -> (r: Self)
        ensures
            r.wf(),
            r@ == GraphOut::start(),
    {
        let r = GraphWriter { inputs: Vec::new(), signature: Vec::new(), values: NameMap::new(), nodes: Vec::new() };
        proof {
            assert(r@.inputs =~= Seq::empty());
            assert(r@.signature =~= Seq::empty());
            assert(r@.values =~= Map::empty());
            assert(r@.nodes =~= Seq::empty());
        }
        r
    }

    fn add_value(&mut self, name: String, value: Json)
        requires
            old(self).wf(),
        ensures
            final(self).wf(),
            final(self)@ == (GraphOut { values: old(self)@.values.insert(name@, value@), ..old(self)@ }),
    {
        let ghost before = self@;
        self.values.insert(name, value);
        assert(self@.values =~= before.values.insert(name@, value@));
    }

    fn add_input(&mut self, argument: Json, signature: Json)
        requires
            old(self).wf(),
        ensures
            final(self).wf(),
            final(self)@ == (GraphOut {
                inputs: old(self)@.inputs.push(argument@),
                signature: old(self)@.signature.push(signature@),
                ..old(self)@
            }),
    {
        let ghost before = self@;
        self.inputs.push(argument);
        self.signature.push(signature);
        assert(self@.inputs =~= before.inputs.push(argument@));
        assert(self@.signature =~= before.signature.push(signature@));
    }

    fn add_states(&mut self, storages: &Vec<Storage>, state: &Vec<State>)
        requires
            old(self).wf(),
            forall|i: int| 0 <= i < state@.len() ==> (#[trigger] state@[i]).storage < storages@.len(),
        ensures
            final(self).wf(),
            final(self)@ == old(self)@.with_states(storages_view(storages@), states_view(state@), state@.len() as int),
    {
        let ghost view = states_view(state@);
        let ghost held = storages_view(storages@);
        let ghost start = self@;
        let mut i: usize = 0;
        while i < state.len()
            invariant
                view == states_view(state@),
                held == storages_view(storages@),
                start == old(self)@,
                i <= state@.len(),
                forall|k: int| 0 <= k < state@.len() ==> (#[trigger] state@[k]).storage < storages@.len(),
                self.wf(),
                self@ == start.with_states(held, view, i as int),
            decreases state@.len() - i,
        {
            assert(view[i as int] == state@[i as int]@);
            let name = write_placeholder(i);
            self.add_input(tensor_arg(name.as_str()), write_state_signature(&state[i], i));
            self.add_value(name, write_state_meta(storages, &state[i], 0));
            i += 1;
        }
    }
}

fn conflicts(name: &str, states: usize) -> (r: bool)
    ensures
        r == is_placeholder(name@, states as nat),
{
    let mut i: usize = 0;
    while i < states
        invariant
            i <= states,
            forall|j: int| 0 <= j < i ==> name@ != #[trigger] placeholder(j),
        decreases states - i,
    {
        let other = write_placeholder(i);
        if same(name, other.as_str()) {
            assert(name@ == placeholder(i as int));
            return true;
        }
        i += 1;
    }
    false
}

fn write_sample(sample: &Sample, dimensions: &Vec<Dimension>, symbols: &NameMap<String>) -> (r: Json)
    requires
        symbols.wf(),
    ensures
        r@ == sample_meta(*sample, super::super::types::dimensions_view(dimensions@), renames(symbols@)),
{
    meta(
        sample.dtype,
        size_args(dimensions.as_slice(), symbols),
        sample.requires_grad,
        sample.strides.as_slice(),
        0,
    )
}

fn write_user_signature(key: &str, name: &str) -> (r: Json)
    ensures
        r@ == object_of(seq![key@], seq![object_of(seq!["arg"@], seq![tensor_union(name@)])]),
{
    single(key, single("arg", tensor_arg(name)))
}

spec fn graphed(r: Result<()>, after: GraphOut) -> GraphStep {
    match r {
        Ok(_) => Ok(after),
        Err(e) => Err(e@),
    }
}

proof fn graph_inputs_fail(
    g: GraphOut,
    inputs: Seq<ValueSpecView>,
    states: nat,
    samples: Samples,
    symbols: Map<Seq<char>, Seq<char>>,
    k: int,
    n: int,
)
    requires
        0 <= k <= n,
        g.with_inputs(inputs, states, samples, symbols, k) is Err,
    ensures
        g.with_inputs(inputs, states, samples, symbols, n) == g.with_inputs(inputs, states, samples, symbols, k),
    decreases n - k,
{
    if k < n {
        graph_inputs_fail(g, inputs, states, samples, symbols, k, n - 1);
    }
}

impl GraphWriter {
    fn add_inputs(&mut self, inputs: &Vec<ValueSpec>, states: usize, samples: &NameMap<Sample>, symbols: &NameMap<String>) -> (r: Result<()>)
        requires
            old(self).wf(),
            samples.wf(),
            symbols.wf(),
            forall|i: int| 0 <= i < inputs@.len() ==> samples@.dom().contains((#[trigger] inputs@[i]).name@),
        ensures
            final(self).wf(),
            graphed(r, final(self)@) == old(self)@.with_inputs(
                value_specs_view(inputs@),
                states as nat,
                samples@,
                renames(symbols@),
                inputs@.len() as int,
            ),
    {
        let ghost view = value_specs_view(inputs@);
        let ghost names = renames(symbols@);
        let ghost n = inputs@.len() as int;
        let ghost start = self@;
        let mut i: usize = 0;
        while i < inputs.len()
            invariant
                samples.wf(),
                symbols.wf(),
                forall|k: int| 0 <= k < inputs@.len() ==> samples@.dom().contains((#[trigger] inputs@[k]).name@),
                view == value_specs_view(inputs@),
                names == renames(symbols@),
                n == inputs@.len(),
                start == old(self)@,
                i <= n,
                self.wf(),
                start.with_inputs(view, states as nat, samples@, names, i as int) == Ok::<GraphOut, ErrorView>(self@),
            decreases n - i,
        {
            let input = &inputs[i];
            proof {
                assert(view[i as int] == input@);
                assert(samples@.dom().contains(inputs@[i as int].name@));
                if start.with_inputs(view, states as nat, samples@, names, i + 1) is Err {
                    graph_inputs_fail(start, view, states as nat, samples@, names, i + 1, n);
                }
            }
            if conflicts(input.name.as_str(), states) {
                return Err(deployment_error("input name conflicts with exported state placeholder"));
            }
            self.add_input(
                tensor_arg(input.name.as_str()),
                write_user_signature("user_input", input.name.as_str()),
            );
            if let Some(sample) = samples.get(input.name.as_str()) {
                self.add_value(input.name.clone(), write_sample(sample, &input.dimensions, symbols));
            }
            i += 1;
        }
        Ok(())
    }

    fn add_nodes(
        &mut self,
        operations: &Vec<Operation>,
        specs: &NameMap<ValueSpec>,
        samples: &NameMap<Sample>,
        symbols: &NameMap<String>,
        map: &NameMap<String>,
    )
        requires
            old(self).wf(),
            specs.wf(),
            samples.wf(),
            symbols.wf(),
            map.wf(),
            forall|i: int| 0 <= i < operations@.len() ==> !((#[trigger] operations@[i]).operator is If),
            forall|i: int| 0 <= i < operations@.len() ==> samples@.dom().contains((#[trigger] operations@[i]).name@),
            forall|i: int| 0 <= i < operations@.len() ==> specs@.dom().contains((#[trigger] operations@[i]).name@),
        ensures
            final(self).wf(),
            final(self)@ == old(self)@.with_nodes(
                operations_view(operations@),
                spec_views(specs@),
                samples@,
                renames(symbols@),
                renames(map@),
                operations@.len() as int,
            ),
    {
        let ghost view = operations_view(operations@);
        let ghost inferred = spec_views(specs@);
        let ghost names = renames(symbols@);
        let ghost known = renames(map@);
        let ghost start = self@;
        let mut i: usize = 0;
        while i < operations.len()
            invariant
                specs.wf(),
                samples.wf(),
                symbols.wf(),
                map.wf(),
                forall|k: int| 0 <= k < operations@.len() ==> !((#[trigger] operations@[k]).operator is If),
                forall|k: int| 0 <= k < operations@.len() ==> samples@.dom().contains((#[trigger] operations@[k]).name@),
                forall|k: int| 0 <= k < operations@.len() ==> specs@.dom().contains((#[trigger] operations@[k]).name@),
                view == operations_view(operations@),
                inferred == spec_views(specs@),
                names == renames(symbols@),
                known == renames(map@),
                start == old(self)@,
                i <= operations@.len(),
                self.wf(),
                self@ == start.with_nodes(view, inferred, samples@, names, known, i as int),
            decreases operations@.len() - i,
        {
            let operation = &operations[i];
            proof {
                assert(view[i as int] == operation@);
                operation_parts(*operation);
                assert(!(operations@[i as int].operator is If));
            }
            let written = node(operation, map);
            let ghost before = self@;
            self.nodes.push(written);
            assert(self@.nodes =~= before.nodes.push(written@));
            if let Some(sample) = samples.get(operation.name.as_str()) {
                if let Some(spec) = specs.get(operation.name.as_str()) {
                    assert(inferred[operation.name@] == spec@);
                    self.add_value(operation.name.clone(), write_sample(sample, &spec.dimensions, symbols));
                }
            }
            i += 1;
        }
    }
}

fn write_placeholders(state: &Vec<State>) -> (r: NameMap<String>)
    ensures
        r.wf(),
        renames(r@) == placeholders(states_view(state@), state@.len() as int),
{
    let ghost view = states_view(state@);
    let mut out: NameMap<String> = NameMap::new();
    let mut i: usize = 0;
    assert(renames(out@) =~= Map::empty());
    while i < state.len()
        invariant
            view == states_view(state@),
            i <= state@.len(),
            out.wf(),
            renames(out@) == placeholders(view, i as int),
        decreases state@.len() - i,
    {
        assert(view[i as int] == state@[i as int]@);
        let name = write_placeholder(i);
        let ghost before = renames(out@);
        let ghost text = name@;
        out.insert(state[i].name.clone(), name);
        assert(renames(out@) =~= before.insert(state@[i as int].name@, text));
        i += 1;
    }
    out
}

fn write_range(range: &(i64, Option<i64>)) -> (r: Json)
    ensures
        r@ == range_union(*range),
{
    let high = match range.1 {
        Some(n) => Json::Int(n),
        None => Json::Null,
    };
    let keys: Vec<&str> = vec!["max_val", "min_val"];
    let values: Vec<Json> = vec![high, Json::Int(range.0)];
    assert(keys@.map_values(|k: &str| k@) =~= seq!["max_val"@, "min_val"@]);
    assert(items_view(values@) =~= seq![bound_union(range.1), JsonView::Int(range.0)]);
    object_with(keys, values)
}

fn write_ranges(ranges: &NameMap<(i64, Option<i64>)>) -> (r: Json)
    requires
        ranges.wf(),
    ensures
        r@ == range_unions(ranges@),
{
    let mut out: NameMap<Json> = NameMap::new();
    let mut i: usize = 0;
    while i < ranges.len()
        invariant
            ranges.wf(),
            i <= ranges.listing().len(),
            out.wf(),
            forall|name: Seq<char>| #[trigger] out@.dom().contains(name) ==> ranges@.dom().contains(name) && out@[name]@
                == range_union(ranges@[name]),
            forall|j: int| 0 <= j < i ==> out@.dom().contains(#[trigger] ranges.listing()[j]),
        decreases ranges.listing().len() - i,
    {
        let ghost before = out@;
        proof {
            ranges.entry_in_map(i as int);
        }
        out.insert(ranges.name(i).clone(), write_range(ranges.item(i)));
        proof {
            assert forall|j: int| 0 <= j < i + 1 implies out@.dom().contains(#[trigger] ranges.listing()[j]) by {
                if j < i {
                    assert(before.dom().contains(ranges.listing()[j]));
                }
            }
            assert forall|name: Seq<char>| #[trigger] out@.dom().contains(name) implies ranges@.dom().contains(name)
                && out@[name]@ == range_union(ranges@[name]) by {
                if name != ranges.listing()[i as int] {
                    assert(before.dom().contains(name));
                }
            }
        }
        i += 1;
    }
    proof {
        assert forall|name: Seq<char>| ranges@.dom().contains(name) implies #[trigger] out@.dom().contains(name) by {
            ranges.map_is_listed(name);
        }
        assert(jsons(out@) =~= ranges@.map_values(|r: (i64, Option<i64>)| range_union(r)));
    }
    object_with_map(out)
}

fn write_arguments(names: &Vec<String>) -> (r: Json)
    ensures
        r@ == JsonView::List(texts(names@).map_values(|n: Seq<char>| tensor_union(n))),
{
    let mut out: Vec<Json> = Vec::new();
    let mut i: usize = 0;
    while i < names.len()
        invariant
            i <= names@.len(),
            out@.len() == i,
            forall|j: int| 0 <= j < i ==> (#[trigger] out@[j])@ == tensor_union(names@[j]@),
        decreases names@.len() - i,
    {
        out.push(tensor_arg(names[i].as_str()));
        i += 1;
    }
    assert(items_view(out@) =~= texts(names@).map_values(|n: Seq<char>| tensor_union(n)));
    list(out)
}

fn write_output_specs(names: &Vec<String>) -> (r: Json)
    ensures
        r@ == JsonView::List(texts(names@).map_values(|n: Seq<char>| output_signature(n))),
{
    let mut out: Vec<Json> = Vec::new();
    let mut i: usize = 0;
    while i < names.len()
        invariant
            i <= names@.len(),
            out@.len() == i,
            forall|j: int| 0 <= j < i ==> (#[trigger] out@[j])@ == output_signature(names@[j]@),
        decreases names@.len() - i,
    {
        out.push(write_user_signature("user_output", names[i].as_str()));
        i += 1;
    }
    assert(items_view(out@) =~= texts(names@).map_values(|n: Seq<char>| output_signature(n)));
    list(out)
}

/// The graph of a description.
spec fn graph_part(graph: GraphOut, outputs: Seq<Seq<char>>) -> JsonView {
    let empty = object_of(Seq::empty(), Seq::empty());
    object_of(
        seq![
            "custom_obj_values"@,
            "inputs"@,
            "is_single_tensor_return"@,
            "nodes"@,
            "outputs"@,
            "sym_bool_values"@,
            "sym_float_values"@,
            "sym_int_values"@,
            "tensor_values"@,
        ],
        seq![
            empty,
            JsonView::List(graph.inputs),
            JsonView::Bool(false),
            JsonView::List(graph.nodes),
            JsonView::List(outputs.map_values(|n: Seq<char>| tensor_union(n))),
            empty,
            empty,
            empty,
            object_of_map(graph.values),
        ],
    )
}

/// The root call of a description.
spec fn call_part(in_spec: Seq<char>, out_spec: Seq<char>) -> JsonView {
    let none = JsonView::List(Seq::empty());
    object_of(
        seq!["fqn"@, "signature"@],
        seq![
            JsonView::Text(""@),
            object_of(
                seq!["forward_arg_names"@, "in_spec"@, "inputs"@, "out_spec"@, "outputs"@],
                seq![JsonView::Null, JsonView::Text(in_spec), none, JsonView::Text(out_spec), none],
            ),
        ],
    )
}

fn no_items() -> (r: Json)
    ensures
        r@ == JsonView::List(Seq::empty()),
{
    let none: Vec<Json> = Vec::new();
    assert(items_view(none@) =~= Seq::empty());
    list(none)
}

fn one_item(item: Json) -> (r: Json)
    ensures
        r@ == JsonView::List(seq![item@]),
{
    let mut items: Vec<Json> = Vec::new();
    items.push(item);
    assert(items_view(items@) =~= seq![item@]);
    list(items)
}

fn write_graph(inputs: Json, nodes: Json, values: Json, outputs: &Vec<String>, Ghost(graph): Ghost<GraphOut>) -> (r: Json)
    requires
        inputs@ == JsonView::List(graph.inputs),
        nodes@ == JsonView::List(graph.nodes),
        values@ == object_of_map(graph.values),
    ensures
        r@ == graph_part(graph, texts(outputs@)),
{
    let keys: Vec<&str> = vec![
        "custom_obj_values",
        "inputs",
        "is_single_tensor_return",
        "nodes",
        "outputs",
        "sym_bool_values",
        "sym_float_values",
        "sym_int_values",
        "tensor_values",
    ];
    let parts: Vec<Json> = vec![
        nothing(),
        inputs,
        Json::Bool(false),
        nodes,
        write_arguments(outputs),
        nothing(),
        nothing(),
        nothing(),
        values,
    ];
    proof {
        let empty = object_of(Seq::empty(), Seq::empty());
        assert(keys@.map_values(|k: &str| k@) =~= seq![
            "custom_obj_values"@,
            "inputs"@,
            "is_single_tensor_return"@,
            "nodes"@,
            "outputs"@,
            "sym_bool_values"@,
            "sym_float_values"@,
            "sym_int_values"@,
            "tensor_values"@,
        ]);
        assert(items_view(parts@) =~= seq![
            empty,
            JsonView::List(graph.inputs),
            JsonView::Bool(false),
            JsonView::List(graph.nodes),
            JsonView::List(texts(outputs@).map_values(|n: Seq<char>| tensor_union(n))),
            empty,
            empty,
            empty,
            object_of_map(graph.values),
        ]);
    }
    object_with(keys, parts)
}

fn write_root_call(in_spec: &str, out_spec: &str) -> (r: Json)
    ensures
        r@ == call_part(in_spec@, out_spec@),
{
    let keys: Vec<&str> = vec!["forward_arg_names", "in_spec", "inputs", "out_spec", "outputs"];
    let parts: Vec<Json> = vec![Json::Null, text_value(in_spec), no_items(), text_value(out_spec), no_items()];
    let ghost none = JsonView::List(Seq::empty());
    assert(keys@.map_values(|k: &str| k@) =~= seq!["forward_arg_names"@, "in_spec"@, "inputs"@, "out_spec"@, "outputs"@]);
    assert(items_view(parts@) =~= seq![JsonView::Null, JsonView::Text(in_spec@), none, JsonView::Text(out_spec@), none]);
    let signature = object_with(keys, parts);
    let outer: Vec<&str> = vec!["fqn", "signature"];
    let halves: Vec<Json> = vec![text_value(""), signature];
    assert(outer@.map_values(|k: &str| k@) =~= seq!["fqn"@, "signature"@]);
    assert(items_view(halves@) =~= seq![JsonView::Text(""@), signature@]);
    object_with(outer, halves)
}

fn write_signature(inputs: Json, outputs: &Vec<String>) -> (r: Json)
    ensures
        r@ == object_of(
            seq!["input_specs"@, "output_specs"@],
            seq![inputs@, JsonView::List(texts(outputs@).map_values(|n: Seq<char>| output_signature(n)))],
        ),
{
    let keys: Vec<&str> = vec!["input_specs", "output_specs"];
    let parts: Vec<Json> = vec![inputs, write_output_specs(outputs)];
    assert(keys@.map_values(|k: &str| k@) =~= seq!["input_specs"@, "output_specs"@]);
    assert(items_view(parts@) =~= seq![
        inputs@,
        JsonView::List(texts(outputs@).map_values(|n: Seq<char>| output_signature(n))),
    ]);
    object_with(keys, parts)
}

fn write_schema() -> (r: Json)
    ensures
        r@ == object_of(seq!["major"@, "minor"@], seq![JsonView::Int(8), JsonView::Int(20)]),
{
    let keys: Vec<&str> = vec!["major", "minor"];
    let parts: Vec<Json> = vec![Json::Int(8), Json::Int(20)];
    assert(keys@.map_values(|k: &str| k@) =~= seq!["major"@, "minor"@]);
    assert(items_view(parts@) =~= seq![JsonView::Int(8), JsonView::Int(20)]);
    object_with(keys, parts)
}

fn write_description(graph: GraphWriter, outputs: &Vec<String>, ranges: Json, in_spec: &str, out_spec: &str, Ghost(bounds): Ghost<Map<Seq<char>, (i64, Option<i64>)>>) -> (r: Json)
    requires
        graph.wf(),
        ranges@ == range_unions(bounds),
    ensures
        r@ == description(graph@, texts(outputs@), bounds, in_spec@, out_spec@),
{
    let ghost view = graph@;
    let inputs = list(graph.inputs);
    let nodes = list(graph.nodes);
    let values = object_with_map(graph.values);
    let body = write_graph(inputs, nodes, values, outputs, Ghost(view));
    let calls = one_item(write_root_call(in_spec, out_spec));
    let signature = write_signature(list(graph.signature), outputs);
    let keys: Vec<&str> = vec!["graph", "metadata", "module_call_graph", "signature", "treespec_namedtuple_fields"];
    let parts: Vec<Json> = vec![body, nothing(), calls, signature, nothing()];
    let ghost empty = object_of(Seq::empty(), Seq::empty());
    assert(keys@.map_values(|k: &str| k@) =~= seq![
        "graph"@, "metadata"@, "module_call_graph"@, "signature"@, "treespec_namedtuple_fields"@,
    ]);
    assert(items_view(parts@) =~= seq![body@, empty, calls@, signature@, empty]);
    let module = object_with(keys, parts);
    let outer: Vec<&str> = vec![
        "graph_module",
        "guards_code",
        "opset_version",
        "range_constraints",
        "schema_version",
        "torch_version",
        "verifiers",
    ];
    let opset = single("aten", Json::Int(10));
    let schema = write_schema();
    let verifiers = one_item(text_value("TRAINING"));
    let all: Vec<Json> = vec![module, no_items(), opset, ranges, schema, text_value("2.13.0"), verifiers];
    assert(outer@.map_values(|k: &str| k@) =~= seq![
        "graph_module"@,
        "guards_code"@,
        "opset_version"@,
        "range_constraints"@,
        "schema_version"@,
        "torch_version"@,
        "verifiers"@,
    ]);
    assert(items_view(all@) =~= seq![
        module@,
        JsonView::List(Seq::empty()),
        opset@,
        ranges@,
        schema@,
        JsonView::Text("2.13.0"@),
        verifiers@,
    ]);
    object_with(outer, all)
}

/// Every value of a program has been tried.
pub open spec fn all_sampled(program: ProgramView, samples: Samples) -> bool {
    &&& forall|i: int| 0 <= i < program.inputs.len() ==> samples.dom().contains((#[trigger] program.inputs[i]).name)
    &&& forall|i: int| 0 <= i < program.operations.len() ==> samples.dom().contains((#[trigger] program.operations[i]).name)
}

/// Describes a program. `state` gives what is known of the live state, `samples` what a trial
/// run has shown, and the texts describe the calling structures.
pub fn save(
    artifact: &Artifact,
    plan: &Plan,
    state: &NameMap<StateMeta>,
    samples: &NameMap<Sample>,
    in_spec: &str,
    out_spec: &str,
) -> (r: Result<Json>)
    requires
        plan.wf(),
        state.wf(),
        samples.wf(),
        accepted(artifact@.program, state@.dom()),
        storages_exist(artifact@),
        !has_conditional(artifact@.program),
        all_sampled(artifact@.program, samples@),
    ensures
        outcome(r) == saved(
            artifact@,
            plan@,
            all_specs(artifact@.program, state.listing(), state.items()),
            samples@,
            in_spec@,
            out_spec@,
        ),
{
    let program = &artifact.program;
    let ghost view = program@;
    proof {
        program_parts(*program);
        assert forall|i: int| 0 <= i < program.inputs@.len() implies samples@.dom().contains((#[trigger] program.inputs@[i]).name@) by {
            assert(view.inputs[i] == program.inputs@[i]@);
        }
        assert forall|i: int| 0 <= i < artifact.state@.len() implies (#[trigger] artifact.state@[i]).storage
            < artifact.storages@.len() by {
            assert(artifact@.state[i] == artifact.state@[i]@);
        }
    }
    let mut graph = GraphWriter::start();
    graph.add_states(&artifact.storages, &artifact.state);
    if let Err(e) = graph.add_inputs(&program.inputs, artifact.state.len(), samples, &plan.symbols.names) {
        return Err(e);
    }
    let specs = match infer_specs(program, state) {
        Ok(specs) => specs,
        Err(e) => {
            return Err(e);
        },
    };
    let names = match program.output_tree.leaves() {
        Ok(names) => names,
        Err(e) => {
            return Err(e);
        },
    };
    let map = write_placeholders(&artifact.state);
    proof {
        all_specs_have(view, *state);
        assert forall|i: int| 0 <= i < program.operations@.len() implies !((#[trigger] program.operations@[i]).operator is If)
            && samples@.dom().contains(program.operations@[i].name@) && specs@.dom().contains(program.operations@[i].name@) by {
            operation_parts(program.operations@[i]);
            assert(view.operations[i] == program.operations@[i]@);
            assert(known_name(view.inputs, view.operations, state@.dom(), view.operations.len() as int, view.operations[i].name));
            assert(spec_views(specs@).dom().contains(view.operations[i].name));
        }
    }
    graph.add_nodes(&program.operations, &specs, samples, &plan.symbols.names, &map);
    let mut outputs: Vec<String> = Vec::new();
    let mut i: usize = 0;
    while i < names.len()
        invariant
            map.wf(),
            i <= names@.len(),
            outputs@.len() == i,
            forall|j: int| 0 <= j < i ==> (#[trigger] outputs@[j])@ == renamed(renames(map@), names@[j]@),
        decreases names@.len() - i,
    {
        outputs.push(rename(&map, names[i]));
        i += 1;
    }
    assert(texts(outputs@) =~= all_renamed(renames(map@), names_view(names@)));
    let ranges = write_ranges(&plan.symbols.ranges);
    Ok(write_description(graph, &outputs, ranges, in_spec, out_spec, Ghost(plan.symbols.ranges@)))
}

/// Returns the calling structure of the inputs as positional and keyword arguments.
pub fn input_call(tree: &Tree) -> (r: Tree)
    ensures
        r@ == call_tree(tree@),
{
    let copy = copy_tree(tree);
    let called = match tree {
        Tree::Tuple(items) => {
            proof {
                Tree::tuple_view(*items);
                if items@.len() == 2 {
                    assert(tree@->Tuple_0[0] == items@[0]@);
                    assert(tree@->Tuple_0[1] == items@[1]@);
                }
            }
            if items.len() == 2 {
                let first = match &items[0] {
                    Tree::Tuple(_) => true,
                    _ => false,
                };
                let second = match &items[1] {
                    Tree::Dict(_) => true,
                    _ => false,
                };
                first && second
            } else {
                false
            }
        },
        _ => false,
    };
    if called {
        copy
    } else {
        let none: Vec<(String, Tree)> = Vec::new();
        let mut items: Vec<Tree> = Vec::new();
        items.push(copy);
        items.push(Tree::Dict(none));
        proof {
            Tree::dict_view(none);
            Tree::tuple_view(items);
            assert(none@.map_values(|e: (String, Tree)| (e.0@, e.1@)) =~= Seq::<(Seq<char>, TreeView)>::empty());
            assert(items@.map_values(|t: Tree| t@) =~= seq![copy@, TreeView::Dict(Seq::empty())]);
        }
        Tree::Tuple(items)
    }
}

fn write_storage_name(storage: usize) -> (r: String)
    ensures
        r@ == storage_name(storage),
{
    let number = natural_text(storage as u64);
    join("tensor_", number.as_str())
}

fn is_constant(role: StateRole) -> (r: bool)
    ensures
        r == (role is Constant),
{
    match role {
        StateRole::Constant => true,
        _ => false,
    }
}

fn write_payload(storages: &Vec<Storage>, state: &State) -> (r: Json)
    requires
        state.storage < storages@.len(),
    ensures
        r@ == payload_of(storages_view(storages@), state@),
{
    let parameter = match state.role {
        StateRole::Parameter => true,
        _ => false,
    };
    let path = write_storage_name(state.storage);
    let described = write_state_meta(storages, state, state.offset);
    let keys: Vec<&str> = vec!["is_param", "path_name", "tensor_meta", "use_pickle"];
    let values: Vec<Json> = vec![Json::Bool(parameter), Json::Text(path), described, Json::Bool(false)];
    assert(keys@.map_values(|k: &str| k@) =~= seq!["is_param"@, "path_name"@, "tensor_meta"@, "use_pickle"@]);
    assert(items_view(values@) =~= seq![
        JsonView::Bool(parameter),
        JsonView::Text(path@),
        described@,
        JsonView::Bool(false),
    ]);
    object_with(keys, values)
}

/// Writes the configuration of the constants, or of the other state.
pub fn write_config(artifact: &Artifact, constant: bool) -> (r: Json)
    requires
        storages_exist(artifact@),
    ensures
        r@ == config_of(artifact@, constant),
{
    let state = &artifact.state;
    let storages = &artifact.storages;
    let ghost view = states_view(state@);
    let ghost held = storages_view(storages@);
    let mut out: NameMap<Json> = NameMap::new();
    let mut i: usize = 0;
    assert(jsons(out@) =~= Map::empty());
    while i < state.len()
        invariant
            storages_exist(artifact@),
            state == artifact.state,
            storages == artifact.storages,
            view == states_view(state@),
            held == storages_view(storages@),
            i <= state@.len(),
            out.wf(),
            jsons(out@) == config_map(held, view, constant, i as int),
        decreases state@.len() - i,
    {
        assert(view[i as int] == state@[i as int]@);
        assert(artifact@.state[i as int].storage < artifact@.storages.len());
        if is_constant(state[i].role) == constant {
            let payload = write_payload(storages, &state[i]);
            let ghost before = jsons(out@);
            let ghost content = payload@;
            out.insert(state[i].name.clone(), payload);
            assert(jsons(out@) =~= before.insert(view[i as int].name, content));
        }
        i += 1;
    }
    single("config", object_with_map(out))
}

/// The members that hold the state.
pub fn write_storages(artifact: &Artifact) -> (r: NameMap<Vec<u8>>)
    requires
        storages_exist(artifact@),
    ensures
        r.wf(),
        contents(r@) == raw_members(artifact@.storages, artifact@.state, artifact@.state.len() as int),
{
    let state = &artifact.state;
    let storages = &artifact.storages;
    let ghost view = states_view(state@);
    let ghost held = storages_view(storages@);
    let mut out: NameMap<Vec<u8>> = NameMap::new();
    let mut i: usize = 0;
    assert(contents(out@) =~= Map::empty());
    while i < state.len()
        invariant
            storages_exist(artifact@),
            state == artifact.state,
            storages == artifact.storages,
            view == states_view(state@),
            held == storages_view(storages@),
            i <= state@.len(),
            out.wf(),
            contents(out@) == raw_members(held, view, i as int),
        decreases state@.len() - i,
    {
        assert(view[i as int] == state@[i as int]@);
        assert(artifact@.state[i as int].storage < artifact@.storages.len());
        let name = write_storage_name(state[i].storage);
        let path = if is_constant(state[i].role) {
            join("data/constants/", name.as_str())
        } else {
            join("data/weights/", name.as_str())
        };
        let bytes = copy_bytes(storages[state[i].storage].bytes.as_slice());
        let ghost before = contents(out@);
        let ghost key = path@;
        let ghost content = bytes@;
        out.insert(path, bytes);
        assert(contents(out@) =~= before.insert(key, content));
        i += 1;
    }
    out
}

/// The members of a written archive: the description, the configurations, the storages and
/// what describes the archive.
pub open spec fn packaged(
    storages: Map<Seq<char>, Seq<u8>>,
    model: Seq<u8>,
    weights: Seq<u8>,
    constants: Seq<u8>,
) -> Map<Seq<char>, Seq<u8>> {
    storages.insert("models/model.json"@, model).insert("data/weights/model_weights_config.json"@, weights).insert(
        "data/constants/model_constants_config.json"@,
        constants,
    ).insert("archive_format"@, format_bytes()).insert("archive_version"@, version_bytes()).insert("byteorder"@, order_bytes()).insert(
        ".data/version"@,
        seq![0x36u8, 0x0au8],
    ).insert(".data/serialization_id"@, Seq::new(40, |i: int| 0x30u8)).insert("data/sample_inputs/model.pt"@, Seq::empty())
}

fn put(files: &mut NameMap<Vec<u8>>, name: &str, bytes: Vec<u8>)
    requires
        old(files).wf(),
    ensures
        final(files).wf(),
        contents(final(files)@) == contents(old(files)@).insert(name@, bytes@),
{
    let ghost before = contents(files@);
    let ghost content = bytes@;
    files.insert(owned(name), bytes);
    assert(contents(files@) =~= before.insert(name@, content));
}

/// Puts the members of an archive together.
pub fn package(storages: NameMap<Vec<u8>>, model: Vec<u8>, weights: Vec<u8>, constants: Vec<u8>) -> (r: NameMap<Vec<u8>>)
    requires
        storages.wf(),
    ensures
        r.wf(),
        contents(r@) == packaged(contents(storages@), model@, weights@, constants@),
{
    let mut files = storages;
    put(&mut files, "models/model.json", model);
    put(&mut files, "data/weights/model_weights_config.json", weights);
    put(&mut files, "data/constants/model_constants_config.json", constants);
    let format: Vec<u8> = vec![0x70, 0x74, 0x32];
    let version: Vec<u8> = vec![0x30];
    let order: Vec<u8> = vec![0x6c, 0x69, 0x74, 0x74, 0x6c, 0x65];
    let serialization: Vec<u8> = vec![0x36, 0x0a];
    let mut identifier: Vec<u8> = Vec::new();
    while identifier.len() < 40
        invariant
            identifier@.len() <= 40,
            forall|i: int| 0 <= i < identifier@.len() ==> #[trigger] identifier@[i] == 0x30,
        decreases 40 - identifier@.len(),
    {
        identifier.push(0x30);
    }
    proof {
        assert(format@ =~= format_bytes());
        assert(version@ =~= version_bytes());
        assert(order@ =~= order_bytes());
        assert(serialization@ =~= seq![0x36u8, 0x0au8]);
        assert(identifier@ =~= Seq::new(40, |i: int| 0x30u8));
    }
    put(&mut files, "archive_format", format);
    put(&mut files, "archive_version", version);
    put(&mut files, "byteorder", order);
    put(&mut files, ".data/version", serialization);
    put(&mut files, ".data/serialization_id", identifier);
    let none: Vec<u8> = Vec::new();
    assert(none@ =~= Seq::empty());
    put(&mut files, "data/sample_inputs/model.pt", none);
    files
}

/// Checks the length of a written archive.
pub fn check_length(length: usize) -> (r: Result<()>)
    ensures
        refusal(r) == (if length > MAX_BYTES {
            Some(deployment_text("PT2 output exceeds limit"@))
        } else {
            None
        }),
{
    if length > MAX_BYTES {
        Err(deployment_error("PT2 output exceeds limit"))
    } else {
        Ok(())
    }
}

} // verus!
