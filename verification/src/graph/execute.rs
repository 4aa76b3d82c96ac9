//! Execution of graphs, one decision at a time.
//!
//! The library decides what happens next and checks what came back; the caller holds the
//! tensors and computes with them.
use super::check::{graph_refusal, valid_graph_is_sound, value_form, value_text};
use super::ir::{nodes_view, ExecutionMode, Graph, GraphView, Node, NodeId, NodeView, ValueId};
use super::op::GraphOp;
use super::order::{dependency_order, is_active, order_of_nodes, run_is_distinct};
use super::spec::{dims_view, Dim, DimView, SpecView, TensorSpec};
use crate::error::{first_at, first_at_step, graph_error, refusal, ErrorView, Result, RustTorchError};
use crate::kind::{Device, DeviceSpec};
use crate::names::NameMap;
use crate::tensor::{device_refusal, ensure_device, MetaView, TensorMeta};
use crate::text::{decimal, integer_text, join, join3, natural_text, owned};
use vstd::prelude::*;
use vstd::string::*;

verus! {

/// Named tensor inputs. Duplicate insertion is rejected.
#[derive(Debug)]
pub struct GraphInputs {
    values: NameMap<TensorMeta>,
}

impl View for GraphInputs {
    type V = Map<Seq<char>, TensorMeta>;

    closed spec fn view(&self) -> Map<Seq<char>, TensorMeta> {
        self.values@
    }
}

impl Default for GraphInputs {
    fn default() -> (r: Self)
        ensures
            r.wf(),
            r@ == Map::<Seq<char>, TensorMeta>::empty(),
    {
        GraphInputs::new()
    }
}

impl GraphInputs {
    /// The names are listed in order.
    pub closed spec fn wf(self) -> bool {
        self.values.wf()
    }

    /// The names of the inputs in ascending order.
    pub closed spec fn listing(self) -> Seq<Seq<char>> {
        self.values.listing()
    }

    /// Creates an empty named input collection.
    pub fn new() -> (r: Self)
        ensures
            r.wf(),
            r@ == Map::<Seq<char>, TensorMeta>::empty(),
    {
        GraphInputs { values: NameMap::new() }
    }

    /// Inserts an input using builder chaining.
    pub fn with(self, name: &str, tensor: TensorMeta) -> (r: Result<Self>)
        requires
            self.wf(),
        ensures
            match r {
                Ok(inputs) => !self@.dom().contains(name@) && inputs.wf() && inputs@ == self@.insert(name@, tensor),
                Err(e) => self@.dom().contains(name@) && e@ == ErrorView::DuplicateName(name@),
            },
    {
        let mut inputs = self;
        match inputs.insert(name, tensor) {
            Ok(()) => Ok(inputs),
            Err(e) => Err(e),
        }
    }

    /// Inserts one named tensor. A duplicate name is rejected and changes nothing.
    pub fn insert(&mut self, name: &str, tensor: TensorMeta) -> (r: Result<()>)
        requires
            old(self).wf(),
        ensures
            final(self).wf(),
            refusal(r) == (if old(self)@.dom().contains(name@) {
                Some(ErrorView::DuplicateName(name@))
            } else {
                None
            }),
            r is Ok ==> final(self)@ == old(self)@.insert(name@, tensor),
            r is Err ==> final(self)@ == old(self)@,
    {
        if self.values.contains(name) {
            return Err(RustTorchError::DuplicateName(owned(name)));
        }
        let _ = self.values.insert(owned(name), tensor);
        Ok(())
    }
}

/// Named graph results, in name order. Each is a value that the execution produced.
#[derive(Debug)]
pub struct GraphOutputs {
    values: NameMap<ValueId>,
}

impl View for GraphOutputs {
    type V = Map<Seq<char>, ValueId>;

    closed spec fn view(&self) -> Map<Seq<char>, ValueId> {
        self.values@
    }
}

impl Default for GraphOutputs {
    /// No result.
    fn default() -> (r: Self)
        ensures
            r.wf(),
            r@ == Map::<Seq<char>, ValueId>::empty(),
    {
        GraphOutputs { values: NameMap::new() }
    }
}

impl GraphOutputs {
    /// The names are listed in order.
    pub closed spec fn wf(self) -> bool {
        self.values.wf()
    }

    /// The names of the outputs in ascending order.
    pub closed spec fn listing(self) -> Seq<Seq<char>> {
        self.values.listing()
    }

    /// Returns a named output or [`RustTorchError::MissingGraphOutput`].
    pub fn get(&self, name: &str) -> (r: Result<ValueId>)
        requires
            self.wf(),
        ensures
            match r {
                Ok(value) => self@.dom().contains(name@) && value == self@[name@],
                Err(e) => !self@.dom().contains(name@) && e@ == ErrorView::MissingGraphOutput(name@),
            },
    {
        match self.values.get(name) {
            Some(value) => Ok(*value),
            None => Err(RustTorchError::MissingGraphOutput(owned(name))),
        }
    }

    /// The number of outputs.
    pub fn len(&self) -> (r: usize)
        ensures
            r == self.listing().len(),
    {
        self.values.len()
    }

    /// Output `i` in name order.
    pub fn entry(&self, i: usize) -> (r: (&String, ValueId))
        requires
            self.wf(),
            i < self.listing().len(),
        ensures
            r.0@ == self.listing()[i as int],
            self@.dom().contains(r.0@),
            r.1 == self@[r.0@],
    {
        proof {
            self.values.entry_in_map(i as int);
        }
        (self.values.name(i), *self.values.item(i))
    }
}

/// The text that opens an error about a named input.
pub open spec fn input_form(name: Seq<char>) -> Seq<char> {
    "graph input `"@ + name + "`"@
}

/// Binds the symbols of `dims` to the sizes of `shape` from place `from` on: the bindings
/// afterwards, and the first size that disagrees.
pub open spec fn bound(
    name: Seq<char>,
    dims: Seq<DimView>,
    shape: Seq<i64>,
    from: int,
    symbols: Map<Seq<char>, i64>,
) -> (Map<Seq<char>, i64>, Option<ErrorView>)
    decreases dims.len() - from,
{
    if from >= dims.len() {
        (symbols, None)
    } else {
        let actual = shape[from];
        let place = input_form(name) + " dimension "@ + decimal(from);
        match dims[from] {
            DimView::Known(expected) => if expected != actual {
                (
                    symbols,
                    Some(
                        ErrorView::InvalidDimensions {
                            context: place,
                            expected: decimal(expected as int),
                            actual: decimal(actual as int),
                        },
                    ),
                )
            } else {
                bound(name, dims, shape, from + 1, symbols)
            },
            DimView::Dynamic => bound(name, dims, shape, from + 1, symbols),
            DimView::Symbol(symbol) => if !symbols.dom().contains(symbol) {
                bound(name, dims, shape, from + 1, symbols.insert(symbol, actual))
            } else if symbols[symbol] != actual {
                (
                    symbols,
                    Some(
                        ErrorView::InvalidDimensions {
                            context: place + " symbol `"@ + symbol + "`"@,
                            expected: decimal(symbols[symbol] as int),
                            actual: decimal(actual as int),
                        },
                    ),
                )
            } else {
                bound(name, dims, shape, from + 1, symbols)
            },
        }
    }
}

/// The dtype and the rank of a tensor against its spec.
pub open spec fn form_refusal(name: Seq<char>, tensor: MetaView, spec: SpecView) -> Option<ErrorView> {
    match spec.kind {
        Some(kind) if kind != tensor.kind => Some(
            ErrorView::DtypeMismatch { name, expected: kind, actual: tensor.kind },
        ),
        _ => match spec.known_rank() {
            Some(rank) if rank != tensor.shape.len() => Some(
                ErrorView::InvalidDimensions {
                    context: input_form(name),
                    expected: "rank "@ + decimal(rank as int),
                    actual: decimal(tensor.shape.len() as int),
                },
            ),
            _ => None,
        },
    }
}

/// What becomes of the symbol bindings when a tensor is held against its spec, and why it is
/// refused, if it is. `resolved` is the device that the spec's request resolved to.
pub open spec fn runtime_check(
    name: Seq<char>,
    tensor: MetaView,
    spec: SpecView,
    resolved: Option<Device>,
    symbols: Map<Seq<char>, i64>,
) -> (Map<Seq<char>, i64>, Option<ErrorView>) {
    let wrong_device = match resolved {
        Some(expected) => device_refusal(input_form(name) + " tensor spec"@, tensor.device, expected),
        None => None,
    };
    if wrong_device is Some {
        (symbols, wrong_device)
    } else if form_refusal(name, tensor, spec) is Some {
        (symbols, form_refusal(name, tensor, spec))
    } else {
        match spec.dimensions {
            None => (symbols, None),
            Some(dims) => bound(name, dims, tensor.shape, 0, symbols),
        }
    }
}

/// Bindings are never changed, and when all sizes agree every symbol is bound to the size of
/// each dimension that it names.
pub proof fn symbols_agree(name: Seq<char>, dims: Seq<DimView>, shape: Seq<i64>, from: int, symbols: Map<Seq<char>, i64>)
    requires
        0 <= from,
    ensures
        ({
            let (after, stopped) = bound(name, dims, shape, from, symbols);
            &&& forall|s: Seq<char>| #[trigger] symbols.dom().contains(s) ==> after.dom().contains(s) && after[s] == symbols[s]
            &&& stopped is None ==> forall|k: int|
                from <= k < dims.len() ==> (match #[trigger] dims[k] {
                    DimView::Known(expected) => expected == shape[k],
                    DimView::Dynamic => true,
                    DimView::Symbol(s) => after.dom().contains(s) && after[s] == shape[k],
                })
        }),
    decreases dims.len() - from,
{
    if from < dims.len() {
        let actual = shape[from];
        match dims[from] {
            DimView::Known(expected) => {
                if expected == actual {
                    symbols_agree(name, dims, shape, from + 1, symbols);
                }
            },
            DimView::Dynamic => {
                symbols_agree(name, dims, shape, from + 1, symbols);
            },
            DimView::Symbol(symbol) => {
                if !symbols.dom().contains(symbol) {
                    let longer = symbols.insert(symbol, actual);
                    symbols_agree(name, dims, shape, from + 1, longer);
                    assert(longer.dom().contains(symbol));
                    assert forall|s: Seq<char>| #[trigger] symbols.dom().contains(s) implies bound(
                        name,
                        dims,
                        shape,
                        from,
                        symbols,
                    ).0.dom().contains(s) && bound(name, dims, shape, from, symbols).0[s] == symbols[s] by {
                        assert(longer.dom().contains(s));
                        assert(longer[s] == symbols[s]);
                    }
                } else if symbols[symbol] == actual {
                    symbols_agree(name, dims, shape, from + 1, symbols);
                }
            },
        }
    }
}

fn bind_symbols(name: &str, dims: &[Dim], shape: &[i64], symbols: &mut NameMap<i64>) -> (r: Result<()>)
    requires
        old(symbols).wf(),
        dims@.len() == shape@.len(),
    ensures
        final(symbols).wf(),
        (final(symbols)@, refusal(r)) == bound(name@, dims_view(dims@), shape@, 0, old(symbols)@),
{
    let ghost view = dims_view(dims@);
    let ghost start = symbols@;
    let mut k: usize = 0;
    while k < dims.len()
        invariant
            view == dims_view(dims@),
            dims@.len() == shape@.len(),
            symbols.wf(),
            k <= dims@.len(),
            bound(name@, view, shape@, 0, start) == bound(name@, view, shape@, k as int, symbols@),
            start == old(symbols)@,
        decreases dims@.len() - k,
    {
        let actual: i64 = shape[k];
        assert(view[k as int] == dims@[k as int]@);
        match &dims[k] {
            Dim::Known(expected) => {
                if *expected != actual {
                    let mut context = join3("graph input `", name, "`");
                    context.append(" dimension ");
                    let place = natural_text(k as u64);
                    context.append(place.as_str());
                    return Err(
                        RustTorchError::InvalidDimensions {
                            context,
                            expected: integer_text(*expected),
                            actual: integer_text(actual),
                        },
                    );
                }
            },
            Dim::Dynamic => {},
            Dim::Symbol(symbol) => {
                let known: Option<i64> = match symbols.get(symbol.as_str()) {
                    Some(size) => Some(*size),
                    None => None,
                };
                match known {
                    None => {
                        symbols.insert(symbol.clone(), actual);
                    },
                    Some(expected) => {
                        if expected != actual {
                            let mut context = join3("graph input `", name, "`");
                            context.append(" dimension ");
                            let place = natural_text(k as u64);
                            context.append(place.as_str());
                            context.append(" symbol `");
                            context.append(symbol.as_str());
                            context.append("`");
                            return Err(
                                RustTorchError::InvalidDimensions {
                                    context,
                                    expected: integer_text(expected),
                                    actual: integer_text(actual),
                                },
                            );
                        }
                    },
                }
            },
        }
        k += 1;
    }
    Ok(())
}

/// Holds a runtime tensor against the spec of its input.
///
/// `resolved` is the device that the spec's request resolved to, where it makes one.
pub fn validate_runtime_spec(
    name: &str,
    tensor: &TensorMeta,
    spec: &TensorSpec,
    resolved: Option<Device>,
    symbols: &mut NameMap<i64>,
) -> (r: Result<()>)
    requires
        old(symbols).wf(),
    ensures
        final(symbols).wf(),
        (final(symbols)@, refusal(r)) == runtime_check(name@, tensor@, spec@, resolved, old(symbols)@),
{
    if let Some(expected) = resolved {
        let mut context = join3("graph input `", name, "`");
        context.append(" tensor spec");
        if let Err(e) = ensure_device(context.as_str(), tensor.device, expected) {
            return Err(e);
        }
    }
    if let Some(kind) = spec.kind_value() {
        if tensor.kind != kind {
            return Err(RustTorchError::DtypeMismatch { name: owned(name), expected: kind, actual: tensor.kind });
        }
    }
    if let Some(rank) = spec.rank_value() {
        if tensor.shape.len() != rank {
            let number = natural_text(rank as u64);
            return Err(
                RustTorchError::InvalidDimensions {
                    context: join3("graph input `", name, "`"),
                    expected: join("rank ", number.as_str()),
                    actual: natural_text(tensor.shape.len() as u64),
                },
            );
        }
    }
    match spec.dims() {
        None => Ok(()),
        Some(dims) => {
            assert(dims.len() == dims@.len());
            bind_symbols(name, dims, tensor.shape.as_slice(), symbols)
        },
    }
}

/// What the caller has to do next.
#[derive(Debug, Clone, Copy, PartialEq, Eq, Structural)]
pub enum Action {
    /// Resolve a device request and report the device with [`Execution::resolved`].
    Resolve(DeviceSpec),
    /// Take the supplied tensor as the value of this input node.
    Bind(NodeId),
    /// Run the operation of this node on the values of its operands and report the result
    /// with [`Execution::computed`]. Training-only behavior is enabled when the flag is set.
    Compute(NodeId, bool),
    /// Nothing: every output has been produced.
    Done,
}

/// What an execution waits for.
#[derive(Debug, Clone, Copy, PartialEq, Eq, Structural)]
pub enum Phase {
    /// The next action may be asked for.
    Ready,
    /// A device request is being resolved.
    Resolving,
    /// An operation is being computed.
    Computing,
}

/// An execution under way.
#[derive(Debug)]
pub struct Execution<'g> {
    graph: &'g Graph,
    linears: Vec<NodeId>,
    inputs: GraphInputs,
    training: bool,
    device: Device,
    order: Vec<NodeId>,
    at: usize,
    symbols: NameMap<i64>,
    produced: Vec<bool>,
    phase: Phase,
}

/// The content of an [`Execution`].
#[verifier::ext_equal]
pub struct RunView {
    /// The graph that is executed.
    pub graph: GraphView,
    /// The linear nodes whose parameters exist.
    pub linears: Seq<NodeId>,
    /// The supplied tensors.
    pub inputs: Map<Seq<char>, TensorMeta>,
    /// Whether training-only behavior is enabled.
    pub training: bool,
    /// The device that every value has to lie on.
    pub device: Device,
    /// The nodes in the order in which they run.
    pub order: Seq<NodeId>,
    /// How many nodes have run.
    pub at: int,
    /// The sizes bound to symbols.
    pub symbols: Map<Seq<char>, i64>,
    /// The values that exist, one flag for each node.
    pub produced: Seq<bool>,
    /// What the execution waits for.
    pub phase: Phase,
}

/// A value exists.
pub open spec fn exists_value(produced: Seq<bool>, value: ValueId) -> bool {
    value.0 < produced.len() && produced[value.0 as int]
}

/// The check of each operand of a node: its value has been produced.
pub open spec fn operand_checks(node: NodeView, produced: Seq<bool>) -> spec_fn(int) -> Option<ErrorView> {
    |k: int|
        if exists_value(produced, node.inputs[k]) {
            None
        } else {
            Some(
                ErrorView::GraphValidation(
                    "node `"@ + node.name + "` is missing input value "@ + value_form(node.inputs[k]),
                ),
            )
        }
}

/// The check of each output: its value has been produced.
pub open spec fn product_checks(graph: GraphView, produced: Seq<bool>) -> spec_fn(int) -> Option<ErrorView> {
    |k: int|
        if exists_value(produced, graph.output_values[k]) {
            None
        } else {
            Some(
                ErrorView::GraphValidation(
                    "graph output `"@ + graph.output_names[k] + "` value "@ + value_form(graph.output_values[k])
                        + " was not produced"@,
                ),
            )
        }
}

impl RunView {
    /// The node that runs next.
    pub open spec fn current(self) -> NodeView {
        self.graph.nodes[self.order[self.at].0 as int]
    }

    /// The execution once the current node has run.
    pub open spec fn advanced(self) -> RunView {
        RunView {
            at: self.at + 1,
            produced: self.produced.update(self.order[self.at].0 as int, true),
            phase: Phase::Ready,
            ..self
        }
    }

    /// Takes the supplied tensor as the value of the current input node.
    pub open spec fn accept(self, resolved: Option<Device>) -> (RunView, core::result::Result<Action, ErrorView>) {
        let node = self.current();
        let (symbols, stopped) = runtime_check(
            node.name,
            self.inputs[node.name]@,
            node.spec,
            resolved,
            self.symbols,
        );
        let bound_run = RunView { symbols, phase: Phase::Ready, ..self };
        match stopped {
            Some(e) => (bound_run, Err(e)),
            None => (bound_run.advanced(), Ok(Action::Bind(node.id))),
        }
    }

    /// The next action.
    pub open spec fn next(self) -> (RunView, core::result::Result<Action, ErrorView>) {
        let node = self.current();
        let outputs = self.graph.output_names.len() as int;
        if self.at >= self.order.len() {
            match first_at(0, outputs, product_checks(self.graph, self.produced)) {
                Some(e) => (self, Err(e)),
                None => (self, Ok(Action::Done)),
            }
        } else if node.op is Input {
            if !self.inputs.dom().contains(node.name) {
                (self, Err(ErrorView::MissingGraphInput(node.name)))
            } else {
                match device_refusal(input_form(node.name), self.inputs[node.name].device, self.device) {
                    Some(e) => (self, Err(e)),
                    None => match node.spec.device {
                        Some(request) => (RunView { phase: Phase::Resolving, ..self }, Ok(Action::Resolve(request))),
                        None => self.accept(None),
                    },
                }
            }
        } else if node.op is Linear && !self.linears.contains(node.id) {
            (
                self,
                Err(ErrorView::GraphValidation("linear parameters for `"@ + node.name + "` are missing"@)),
            )
        } else {
            match first_at(0, node.inputs.len() as int, operand_checks(node, self.produced)) {
                Some(e) => (self, Err(e)),
                None => (RunView { phase: Phase::Computing, ..self }, Ok(Action::Compute(node.id, self.training))),
            }
        }
    }

    /// What follows when the current node's result lies on `actual`.
    pub open spec fn computed(self, actual: Device) -> (RunView, Option<ErrorView>) {
        match device_refusal("graph node `"@ + self.current().name + "` output"@, actual, self.device) {
            Some(e) => (self, Some(e)),
            None => (self.advanced(), None),
        }
    }
}

/// The check of each supplied name: the graph has such an input.
pub open spec fn supplied_checks(names: Seq<Seq<char>>, graph: GraphView) -> spec_fn(int) -> Option<ErrorView> {
    |k: int|
        if graph.input_names.contains(names[k]) {
            None
        } else {
            Some(ErrorView::UnexpectedGraphInput(names[k]))
        }
}

/// The check of each graph input: a tensor was supplied for it.
pub open spec fn needed_checks(graph: GraphView, supplied: Map<Seq<char>, TensorMeta>) -> spec_fn(int) -> Option<ErrorView> {
    |k: int|
        if supplied.dom().contains(graph.input_names[k]) {
            None
        } else {
            Some(ErrorView::MissingGraphInput(graph.input_names[k]))
        }
}

/// Why an execution does not begin, if it does not: the graph is not valid, or the supplied
/// names are not exactly its inputs.
pub open spec fn start_refusal(graph: GraphView, inputs: GraphInputs) -> Option<ErrorView> {
    let unexpected = first_at(0, inputs.listing().len() as int, supplied_checks(inputs.listing(), graph));
    if graph_refusal(graph) is Some {
        graph_refusal(graph)
    } else if unexpected is Some {
        unexpected
    } else {
        first_at(0, graph.input_names.len() as int, needed_checks(graph, inputs@))
    }
}

/// Eager graph executor.
#[derive(Debug)]
pub struct EagerExecutor;

impl Default for EagerExecutor {
    fn default() -> (r: Self)
        ensures
            r == EagerExecutor,
    {
        EagerExecutor
    }
}

impl EagerExecutor {
    /// Begins an execution: validates the graph and holds the supplied names against its
    /// inputs. `linears` are the linear nodes whose parameters exist.
    #[verifier::loop_isolation(false)]
    pub fn execute<'g>(
        &self,
        graph: &'g Graph,
        linears: Vec<NodeId>,
        inputs: GraphInputs,
        mode: ExecutionMode,
        device: Device,
    ) -> (r: Result<Execution<'g>>)
        requires
            graph@.wf(),
            inputs.wf(),
        ensures
            refusal(r) == start_refusal(graph@, inputs),
            r matches Ok(run) ==> run.wf() && run@ == (RunView {
                graph: graph@,
                linears: linears@,
                inputs: inputs@,
                training: mode is Training,
                device,
                order: order_of_nodes(graph@.nodes),
                at: 0,
                symbols: Map::empty(),
                produced: Seq::new(graph@.nodes.len(), |i: int| false),
                phase: Phase::Ready,
            }),
    {
        if let Err(e) = graph.validate() {
            return Err(e);
        }
        let ghost view = graph@;
        let needed = graph.inputs();
        let ghost names = inputs.listing();
        let ghost known = supplied_checks(names, view);
        let mut k: usize = 0;
        while k < inputs.values.len()
            invariant
                k <= names.len(),
                first_at(0, names.len() as int, known) == first_at(k as int, names.len() as int, known),
            decreases names.len() - k,
        {
            proof {
                first_at_step(k as int, names.len() as int, known);
            }
            let name = inputs.values.name(k);
            if !needed.contains(name.as_str()) {
                return Err(RustTorchError::UnexpectedGraphInput(name.clone()));
            }
            k += 1;
        }
        let ghost supplied = needed_checks(view, inputs@);
        let ghost count = view.input_names.len() as int;
        k = 0;
        while k < needed.len()
            invariant
                k <= count,
                first_at(0, count, supplied) == first_at(k as int, count, supplied),
            decreases count - k,
        {
            proof {
                first_at_step(k as int, count, supplied);
            }
            let name = needed.name(k);
            if !inputs.values.contains(name.as_str()) {
                return Err(RustTorchError::MissingGraphInput(name.clone()));
            }
            k += 1;
        }
        let order = match graph.topological_order() {
            Ok(order) => order,
            Err(e) => {
                proof {
                    valid_graph_is_sound(view);
                }
                return Err(e);
            },
        };
        let mut produced: Vec<bool> = Vec::new();
        while produced.len() < graph.nodes().len()
            invariant
                produced@.len() <= view.nodes.len(),
                forall|i: int| 0 <= i < produced@.len() ==> !#[trigger] produced@[i],
            decreases view.nodes.len() - produced@.len(),
        {
            produced.push(false);
        }
        assert(produced@ =~= Seq::new(view.nodes.len(), |i: int| false));
        let training = match mode {
            ExecutionMode::Training => true,
            ExecutionMode::Evaluation => false,
        };
        Ok(
            Execution {
                graph,
                linears,
                inputs,
                training,
                device,
                order,
                at: 0,
                symbols: NameMap::new(),
                produced,
                phase: Phase::Ready,
            },
        )
    }
}

impl<'g> View for Execution<'g> {
    type V = RunView;

    closed spec fn view(&self) -> RunView {
        RunView {
            graph: self.graph@,
            linears: self.linears@,
            inputs: self.inputs@,
            training: self.training,
            device: self.device,
            order: self.order@,
            at: self.at as int,
            symbols: self.symbols@,
            produced: self.produced@,
            phase: self.phase,
        }
    }
}

impl<'g> Execution<'g> {
    /// The order is that of the graph, there is one flag for each node, and whatever is waited
    /// for belongs to a node that has yet to run.
    pub closed spec fn wf(self) -> bool {
        &&& self.graph@.wf()
        &&& self.inputs.wf()
        &&& self.symbols.wf()
        &&& dependency_order(self.graph@.nodes, self.order@)
        &&& self.produced@.len() == self.graph@.nodes.len()
        &&& self.at <= self.order@.len()
        &&& !(self.phase is Ready) ==> self.at < self.order@.len()
        &&& self.phase is Resolving ==> self@.inputs.dom().contains(self@.current().name)
    }

    fn missing_operand(&self, node: &Node) -> (r: Result<()>)
        ensures
            refusal(r) == first_at(0, node@.inputs.len() as int, operand_checks(node@, self@.produced)),
    {
        let ghost n = node@.inputs.len() as int;
        let ghost checks = operand_checks(node@, self@.produced);
        let mut k: usize = 0;
        while k < node.inputs.len()
            invariant
                n == node@.inputs.len(),
                checks == operand_checks(node@, self@.produced),
                k <= n,
                first_at(0, n, checks) == first_at(k as int, n, checks),
            decreases n - k,
        {
            proof {
                first_at_step(k as int, n, checks);
            }
            let value = node.inputs[k];
            if value.0 >= self.produced.len() || !self.produced[value.0] {
                let mut message = join3("node `", node.name.as_str(), "` is missing input value ");
                let form = value_text(value);
                message.append(form.as_str());
                return Err(graph_error(message.as_str()));
            }
            k += 1;
        }
        Ok(())
    }

    fn has_parameters(&self, id: NodeId) -> (r: bool)
        ensures
            r == self@.linears.contains(id),
    {
        let mut k: usize = 0;
        while k < self.linears.len()
            invariant
                k <= self.linears@.len(),
                forall|j: int| 0 <= j < k ==> self.linears@[j] != id,
            decreases self.linears@.len() - k,
        {
            if self.linears[k] == id {
                return true;
            }
            k += 1;
        }
        false
    }

    fn missing_output(&self) -> (r: Result<()>)
        requires
            self.wf(),
        ensures
            refusal(r) == first_at(0, self@.graph.output_names.len() as int, product_checks(self@.graph, self@.produced)),
    {
        let outputs = self.graph.outputs();
        let ghost n = self@.graph.output_names.len() as int;
        let ghost checks = product_checks(self@.graph, self@.produced);
        let mut k: usize = 0;
        while k < outputs.len()
            invariant
                self.wf(),
                outputs.listing() == self@.graph.output_names,
                outputs.items() == self@.graph.output_values,
                n == self@.graph.output_names.len(),
                checks == product_checks(self@.graph, self@.produced),
                k <= n,
                first_at(0, n, checks) == first_at(k as int, n, checks),
            decreases n - k,
        {
            proof {
                first_at_step(k as int, n, checks);
            }
            let value = *outputs.item(k);
            if value.0 >= self.produced.len() || !self.produced[value.0] {
                let mut message = join3("graph output `", outputs.name(k).as_str(), "` value ");
                let form = value_text(value);
                message.append(form.as_str());
                message.append(" was not produced");
                return Err(graph_error(message.as_str()));
            }
            k += 1;
        }
        Ok(())
    }

    fn advance(&mut self)
        requires
            old(self).wf(),
            old(self)@.at < old(self)@.order.len(),
        ensures
            final(self).wf(),
            final(self)@ == old(self)@.advanced(),
    {
        proof {
            run_is_distinct(self.graph@.nodes, self.order@);
            assert(is_active(self.graph@.nodes, self.order@[self.at as int].0 as int));
        }
        assert(self.order.len() == self.order@.len());
        let id = self.order[self.at];
        self.produced.set(id.0, true);
        self.at = self.at + 1;
        self.phase = Phase::Ready;
    }

    fn accept(&mut self, resolved: Option<Device>) -> (r: Result<Action>)
        requires
            old(self).wf(),
            old(self)@.at < old(self)@.order.len(),
            old(self)@.inputs.dom().contains(old(self)@.current().name),
        ensures
            final(self).wf(),
            final(self)@ == old(self)@.accept(resolved).0,
            acted(r) == old(self)@.accept(resolved).1,
    {
        proof {
            run_is_distinct(self.graph@.nodes, self.order@);
            assert(is_active(self.graph@.nodes, self.order@[self.at as int].0 as int));
        }
        let id = self.order[self.at];
        let node = &self.graph.nodes()[id.0];
        assert(self.graph@.nodes[id.0 as int] == node@);
        self.phase = Phase::Ready;
        let tensor = match self.inputs.values.get(node.name.as_str()) {
            Some(tensor) => tensor,
            None => {
                return Err(RustTorchError::MissingGraphInput(node.name.clone()));
            },
        };
        if let Err(e) = validate_runtime_spec(node.name.as_str(), tensor, &node.spec, resolved, &mut self.symbols) {
            return Err(e);
        }
        self.advance();
        Ok(Action::Bind(node.id))
    }

    /// Decides what happens next.
    pub fn next(&mut self) -> (r: Result<Action>)
        requires
            old(self).wf(),
            old(self)@.phase is Ready,
        ensures
            final(self).wf(),
            final(self)@ == old(self)@.next().0,
            acted(r) == old(self)@.next().1,
    {
        if self.at >= self.order.len() {
            return match self.missing_output() {
                Ok(()) => Ok(Action::Done),
                Err(e) => Err(e),
            };
        }
        proof {
            run_is_distinct(self.graph@.nodes, self.order@);
            assert(is_active(self.graph@.nodes, self.order@[self.at as int].0 as int));
        }
        let id = self.order[self.at];
        let node = &self.graph.nodes()[id.0];
        assert(self.graph@.nodes[id.0 as int] == node@);
        if let GraphOp::Input = node.op {
            let actual = match self.inputs.values.get(node.name.as_str()) {
                Some(tensor) => tensor.device,
                None => {
                    return Err(RustTorchError::MissingGraphInput(node.name.clone()));
                },
            };
            let context = join3("graph input `", node.name.as_str(), "`");
            if let Err(e) = ensure_device(context.as_str(), actual, self.device) {
                return Err(e);
            }
            return match node.spec.device_value() {
                Some(request) => {
                    self.phase = Phase::Resolving;
                    Ok(Action::Resolve(request))
                },
                None => self.accept(None),
            };
        }
        if let GraphOp::Linear { .. } = node.op {
            if !self.has_parameters(node.id) {
                let message = join3("linear parameters for `", node.name.as_str(), "` are missing");
                return Err(graph_error(message.as_str()));
            }
        }
        if let Err(e) = self.missing_operand(node) {
            return Err(e);
        }
        let action = Action::Compute(node.id, self.training);
        self.phase = Phase::Computing;
        Ok(action)
    }

    /// Reports the device that a request resolved to.
    pub fn resolved(&mut self, device: Device) -> (r: Result<Action>)
        requires
            old(self).wf(),
            old(self)@.phase is Resolving,
        ensures
            final(self).wf(),
            final(self)@ == old(self)@.accept(Some(device)).0,
            acted(r) == old(self)@.accept(Some(device)).1,
    {
        self.accept(Some(device))
    }

    /// Reports the device on which the computed value lies.
    pub fn computed(&mut self, device: Device) -> (r: Result<()>)
        requires
            old(self).wf(),
            old(self)@.phase is Computing,
        ensures
            final(self).wf(),
            (final(self)@, refusal(r)) == old(self)@.computed(device),
    {
        proof {
            run_is_distinct(self.graph@.nodes, self.order@);
            assert(is_active(self.graph@.nodes, self.order@[self.at as int].0 as int));
        }
        let id = self.order[self.at];
        let node = &self.graph.nodes()[id.0];
        assert(self.graph@.nodes[id.0 as int] == node@);
        let context = join3("graph node `", node.name.as_str(), "` output");
        if let Err(e) = ensure_device(context.as_str(), device, self.device) {
            return Err(e);
        }
        self.advance();
        Ok(())
    }

    /// What the execution waits for.
    pub fn phase(&self) -> (r: Phase)
        ensures
            r == self@.phase,
    {
        self.phase
    }

    /// The named results of the graph.
    pub fn outputs(&self) -> (r: GraphOutputs)
        requires
            self.wf(),
        ensures
            r.wf(),
            r.listing() == self@.graph.output_names,
            forall|k: int|
                0 <= k < self@.graph.output_names.len() ==> r@.dom().contains(#[trigger] self@.graph.output_names[k])
                    && r@[self@.graph.output_names[k]] == self@.graph.output_values[k],
    {
        let outputs = self.graph.outputs();
        let values = copy_outputs(outputs);
        proof {
            assert forall|k: int|
                0 <= k < self@.graph.output_names.len() implies values@.dom().contains(#[trigger] self@.graph.output_names[k])
                && values@[self@.graph.output_names[k]] == self@.graph.output_values[k] by {
                values.entry_in_map(k);
            }
        }
        GraphOutputs { values }
    }
}

/// What an execution step returns, as mathematical content.
pub open spec fn acted(r: Result<Action>) -> core::result::Result<Action, ErrorView> {
    match r {
        Ok(action) => Ok(action),
        Err(e) => Err(e@),
    }
}

fn copy_outputs(outputs: &NameMap<ValueId>) -> (r: NameMap<ValueId>)
    requires
        outputs.wf(),
    ensures
        r.wf(),
        r.listing() == outputs.listing(),
        r.items() == outputs.items(),
{
    let mut copy: NameMap<ValueId> = NameMap::new();
    let mut k: usize = 0;
    while k < outputs.len()
        invariant
            outputs.wf(),
            copy.wf(),
            k <= outputs.listing().len(),
            forall|name: Seq<char>| #[trigger]
                copy@.dom().contains(name) <==> outputs.listing().take(k as int).contains(name),
            forall|j: int| 0 <= j < k ==> copy@[#[trigger] outputs.listing()[j]] == outputs.items()[j],
        decreases outputs.listing().len() - k,
    {
        let ghost list = outputs.listing();
        let ghost earlier = copy@;
        copy.insert(outputs.name(k).clone(), *outputs.item(k));
        proof {
            crate::names::ascending_is_distinct(list);
            let longer = list.take(k as int + 1);
            assert(longer =~= list.take(k as int).push(list[k as int]));
            assert forall|name: Seq<char>| #[trigger] copy@.dom().contains(name) <==> longer.contains(name) by {
                if longer.contains(name) && name != list[k as int] {
                    let m = longer.index_of(name);
                    assert(list.take(k as int)[m] == name);
                }
                if list.take(k as int).contains(name) {
                    let m = list.take(k as int).index_of(name);
                    assert(longer[m] == name);
                }
                assert(longer[k as int] == list[k as int]);
                assert(earlier.dom().contains(name) <==> list.take(k as int).contains(name));
            }
            assert forall|j: int| 0 <= j < k + 1 implies copy@[#[trigger] list[j]] == outputs.items()[j] by {
                if j < k {
                    assert(list[j] != list[k as int]);
                }
            }
        }
        k += 1;
    }
    proof {
        let list = outputs.listing();
        assert(list.take(k as int) =~= list);
        assert forall|name: Seq<char>| copy.listing().contains(name) <==> list.contains(name) by {
            assert(copy@.dom().contains(name) <==> copy.listing().contains(name));
        }
        crate::names::ascending_is_unique(copy.listing(), list);
        assert forall|j: int| 0 <= j < list.len() implies copy.items()[j] == outputs.items()[j] by {
            copy.entry_in_map(j);
            assert(copy@[list[j]] == outputs.items()[j]);
        }
        assert(copy.items() =~= outputs.items());
    }
    copy
}

/// An executable graph: its linear nodes own parameters, and it runs in training or in
/// evaluation mode.
#[derive(Debug)]
pub struct GraphModule {
    graph: Graph,
    linears: Vec<NodeId>,
    executor: EagerExecutor,
    device: Device,
    training: bool,
}

/// The active linear nodes among the first `n`, in ascending order.
pub open spec fn linear_nodes(nodes: Seq<NodeView>, n: int) -> Seq<NodeId>
    decreases n,
{
    if n <= 0 {
        Seq::empty()
    } else if nodes[n - 1].active && nodes[n - 1].op is Linear {
        linear_nodes(nodes, n - 1).push(nodes[n - 1].id)
    } else {
        linear_nodes(nodes, n - 1)
    }
}

/// The content of a [`GraphModule`].
#[verifier::ext_equal]
pub struct ModuleView {
    pub graph: GraphView,
    pub device: Device,
    pub training: bool,
}

impl View for GraphModule {
    type V = ModuleView;

    closed spec fn view(&self) -> ModuleView {
        ModuleView { graph: self.graph@, device: self.device, training: self.training }
    }
}

impl GraphModule {
    /// The graph is numbered and valid, and every active linear node owns parameters.
    pub closed spec fn wf(self) -> bool {
        &&& self.graph@.wf()
        &&& graph_refusal(self.graph@) is None
        &&& self.linears@ == linear_nodes(self.graph@.nodes, self.graph@.nodes.len() as int)
    }

    /// Validates `graph` and lists the nodes that need parameters on `device`. A new module
    /// starts in training mode.
    pub fn from_graph(graph: Graph, device: Device) -> (r: Result<Self>)
        requires
            graph@.wf(),
        ensures
            refusal(r) == graph_refusal(graph@),
            r matches Ok(module) ==> module.wf() && module@ == (ModuleView { graph: graph@, device, training: true }),
    {
        if let Err(e) = graph.validate() {
            return Err(e);
        }
        let mut linears: Vec<NodeId> = Vec::new();
        let nodes = graph.nodes();
        let ghost view = graph@.nodes;
        let mut i: usize = 0;
        while i < nodes.len()
            invariant
                view == nodes_view(nodes@),
                i <= nodes@.len(),
                linears@ == linear_nodes(view, i as int),
            decreases nodes@.len() - i,
        {
            assert(view[i as int] == nodes@[i as int]@);
            let node = &nodes[i];
            if node.active {
                if let GraphOp::Linear { .. } = node.op {
                    linears.push(node.id);
                }
            }
            i += 1;
        }
        Ok(GraphModule { graph, linears, executor: EagerExecutor, device, training: true })
    }

    /// The nodes that own parameters.
    pub fn linears(&self) -> (r: &Vec<NodeId>)
        requires
            self.wf(),
        ensures
            r@ == linear_nodes(self@.graph.nodes, self@.graph.nodes.len() as int),
    {
        &self.linears
    }

    /// Begins an execution in the module's current mode.
    pub fn forward(&self, inputs: GraphInputs) -> (r: Result<Execution<'_>>)
        requires
            self.wf(),
            inputs.wf(),
        ensures
            refusal(r) == start_refusal(self@.graph, inputs),
            r matches Ok(run) ==> run.wf() && run@ == (RunView {
                graph: self@.graph,
                linears: linear_nodes(self@.graph.nodes, self@.graph.nodes.len() as int),
                inputs: inputs@,
                training: self@.training,
                device: self@.device,
                order: order_of_nodes(self@.graph.nodes),
                at: 0,
                symbols: Map::empty(),
                produced: Seq::new(self@.graph.nodes.len(), |i: int| false),
                phase: Phase::Ready,
            }),
    {
        self.forward_t(inputs, self.training)
    }

    /// Begins an execution with an explicit training flag without changing module state.
    pub fn forward_t(&self, inputs: GraphInputs, training: bool) -> (r: Result<Execution<'_>>)
        requires
            self.wf(),
            inputs.wf(),
        ensures
            refusal(r) == start_refusal(self@.graph, inputs),
            r matches Ok(run) ==> run.wf() && run@ == (RunView {
                graph: self@.graph,
                linears: linear_nodes(self@.graph.nodes, self@.graph.nodes.len() as int),
                inputs: inputs@,
                training,
                device: self@.device,
                order: order_of_nodes(self@.graph.nodes),
                at: 0,
                symbols: Map::empty(),
                produced: Seq::new(self@.graph.nodes.len(), |i: int| false),
                phase: Phase::Ready,
            }),
    {
        let mode = if training { ExecutionMode::Training } else { ExecutionMode::Evaluation };
        let mut linears: Vec<NodeId> = Vec::new();
        let mut i: usize = 0;
        while i < self.linears.len()
            invariant
                i <= self.linears@.len(),
                linears@ == self.linears@.take(i as int),
            decreases self.linears@.len() - i,
        {
            linears.push(self.linears[i]);
            assert(linears@ =~= self.linears@.take(i as int + 1));
            i += 1;
        }
        assert(linears@ =~= self.linears@);
        self.executor.execute(&self.graph, linears, inputs, mode, self.device)
    }

    /// Enables training behavior for subsequent executions.
    pub fn train(&mut self)
        requires
            old(self).wf(),
        ensures
            final(self).wf(),
            final(self)@ == (ModuleView { training: true, ..old(self)@ }),
    {
        self.training = true;
    }

    /// Enables evaluation behavior for subsequent executions.
    pub fn eval(&mut self)
        requires
            old(self).wf(),
        ensures
            final(self).wf(),
            final(self)@ == (ModuleView { training: false, ..old(self)@ }),
    {
        self.training = false;
    }

    /// Returns whether default executions use training behavior.
    pub fn is_training(&self) -> (r: bool)
        ensures
            r == self@.training,
    {
        self.training
    }

    /// Returns the device-independent graph definition.
    pub fn graph(&self) -> (r: &Graph)
        requires
            self.wf(),
        ensures
            r@ == self@.graph,
            r@.wf(),
            graph_refusal(r@) is None,
    {
        &self.graph
    }

    /// Returns a deterministic human-readable graph summary.
    pub fn summary(&self) -> (r: String)
        requires
            super::render::parameters_fit(self@.graph.nodes),
        ensures
            r@ == super::render::summary_form(self@.graph.nodes, self@.graph.nodes.len() as int),
    {
        self.graph.summary()
    }

    /// Renders the graph as Graphviz DOT.
    pub fn to_dot(&self) -> (r: String)
        ensures
            r@ == super::render::dot_nodes(self@.graph.nodes, self@.graph.nodes.len() as int)
                + super::render::dot_edges(self@.graph.nodes, self@.graph.nodes.len() as int) + "}\n"@,
    {
        self.graph.to_dot()
    }

    /// Returns the device holding this module's parameters.
    pub fn device(&self) -> (r: Device)
        ensures
            r == self@.device,
    {
        self.device
    }

    /// Records that all graph parameters were moved to `device`.
    pub fn to_device(&mut self, device: Device)
        requires
            old(self).wf(),
        ensures
            final(self).wf(),
            final(self)@ == (ModuleView { device, ..old(self)@ }),
    {
        self.device = device;
    }
}

} // verus!
