//! Validated portable models.
use super::artifact::{
    artifact_refusal, names_of, pack, packed, states_view, tensors_view, Artifact, ArtifactView, StateTensor, StateTensorView, StateView,
};
use super::evaluate::{accepted, entered, Evaluation, EvaluationView, Waiting};
use super::guard::{check_inputs, guard_refusal, metas_view};
use super::layout::MAX_BYTES;
use super::lower::{lower, lowered};
use super::program::{
    accepted_is_small, input_checks, input_names, input_tuple, inputs_refusal, known_name, program_verdict, tuple_of,
};
use super::tree::{names_view, walked, walked_items, TreeView, MAX_NODES};
use super::types::{
    copy_value_specs, operation_parts, operations_view, program_parts, value_specs_view, Operator, Program, ProgramView,
    StateRole, ValueSpec, ValueSpecView,
};
use crate::error::{deployment_error, deployment_text, first_at_none, outcome, refusal, ErrorView, Result};
use crate::graph::execute::GraphModule;
use crate::kind::Device;
use crate::names::NameMap;
use crate::tensor::TensorMeta;
use vstd::prelude::*;

verus! {

/// A validated portable program and its named state on one device.
#[derive(Debug)]
pub struct Model {
    artifact: Artifact,
    device: Device,
}

/// The content of a [`Model`].
pub struct ModelView {
    pub artifact: ArtifactView,
    pub device: Device,
}

impl View for Model {
    type V = ModelView;

    closed spec fn view(&self) -> ModelView {
        ModelView { artifact: self.artifact@, device: self.device }
    }
}

/// The artifact of a program with live tensors as its state.
pub open spec fn assembled(program: ProgramView, tensors: Seq<StateTensorView>) -> core::result::Result<ArtifactView, ErrorView> {
    match packed(tensors, tensors.len() as int) {
        Err(e) => Err(e),
        Ok((storages, state)) => Ok(ArtifactView { program, storages, state }),
    }
}

/// A model of an artifact, if the artifact is accepted.
pub open spec fn model_of(artifact: ArtifactView, device: Device) -> core::result::Result<ModelView, ErrorView> {
    match artifact_refusal(artifact) {
        Some(e) => Err(e),
        None => Ok(ModelView { artifact, device }),
    }
}

/// The slot of each of the first `n` states: its place in the list of states.
pub open spec fn state_slots(state: Seq<StateView>, n: int) -> Map<Seq<char>, usize>
    decreases n,
{
    if n <= 0 {
        Map::empty()
    } else {
        state_slots(state, n - 1).insert(state[n - 1].name, (n - 1) as usize)
    }
}

proof fn state_slots_are_named(state: Seq<StateView>, n: int)
    requires
        0 <= n <= state.len(),
        state.len() <= usize::MAX,
    ensures
        state_slots(state, n).dom() == names_of(state, n),
        forall|name: Seq<char>| #[trigger] state_slots(state, n).dom().contains(name) ==> state_slots(state, n)[name] < n,
    decreases n,
{
    if n > 0 {
        state_slots_are_named(state, n - 1);
        let before = state_slots(state, n - 1);
        let now = state_slots(state, n);
        assert forall|name: Seq<char>| now.dom().contains(name) <==> names_of(state, n).contains(name) by {
            if name == state[n - 1].name {
                assert(state[n - 1].name == name);
            } else {
                assert(now.dom().contains(name) == names_of(state, n - 1).contains(name));
                if exists|j: int| 0 <= j < n && (#[trigger] state[j]).name == name {
                    let j = choose|j: int| 0 <= j < n && (#[trigger] state[j]).name == name;
                    assert(j < n - 1);
                }
            }
        }
        assert(now.dom() =~= names_of(state, n));
        assert forall|name: Seq<char>| #[trigger] now.dom().contains(name) implies now[name] < n by {
            if name != state[n - 1].name {
                assert(before.dom().contains(name));
            }
        }
    } else {
        assert(state_slots(state, 0).dom() =~= names_of(state, 0));
    }
}

/// The numbers from `from` up to `end`.
pub open spec fn slots_from(from: int, end: int) -> Seq<usize> {
    Seq::new((end - from) as nat, |i: int| (from + i) as usize)
}

/// Why a model cannot be traced, if it cannot: it has not exactly one output, or it branches.
pub open spec fn trace_refusal(program: ProgramView) -> Option<ErrorView> {
    match walked(program.output_tree, 0, Seq::empty()) {
        Err(e) => Some(e),
        Ok(names) => if names.len() != 1 {
            Some(deployment_text("native tracing supports exactly one tensor output"@))
        } else if exists|i: int| 0 <= i < program.operations.len() && (#[trigger] program.operations[i]).operator is If {
            Some(deployment_text("conditional-to-TorchScript tracing is unsupported"@))
        } else {
            None
        },
    }
}

/// The role of a graph variable.
pub open spec fn variable_role(requires_grad: bool) -> StateRole {
    if requires_grad {
        StateRole::Parameter
    } else {
        StateRole::Buffer
    }
}

/// Graph variables with the roles that follow from whether they track gradients.
pub open spec fn with_roles(tensors: Seq<StateTensorView>) -> Seq<StateTensorView> {
    tensors.map_values(|t: StateTensorView| StateTensorView { role: variable_role(t.requires_grad), ..t })
}

/// Checks that a host can read portable artifacts.
pub fn check_host(little_endian: bool) -> (r: Result<()>)
    ensures
        refusal(r) == (if little_endian {
            None
        } else {
            Some(deployment_text("portable artifacts currently require a little-endian host"@))
        }),
{
    if little_endian {
        Ok(())
    } else {
        Err(deployment_error("portable artifacts currently require a little-endian host"))
    }
}

/// Checks the length of a JSON artifact.
pub fn check_json_length(length: usize) -> (r: Result<()>)
    ensures
        refusal(r) == (if length > MAX_BYTES {
            Some(deployment_text("JSON artifact exceeds limit"@))
        } else {
            None
        }),
{
    if length > MAX_BYTES {
        Err(deployment_error("JSON artifact exceeds limit"))
    } else {
        Ok(())
    }
}

/// Checks the length of an artifact file.
pub fn check_file_length(length: usize) -> (r: Result<()>)
    ensures
        refusal(r) == (if length > MAX_BYTES {
            Some(deployment_text("artifact exceeds 256 MiB limit"@))
        } else {
            None
        }),
{
    if length > MAX_BYTES {
        Err(deployment_error("artifact exceeds 256 MiB limit"))
    } else {
        Ok(())
    }
}

impl Model {
    /// The artifact is valid.
    pub closed spec fn wf(self) -> bool {
        artifact_refusal(self.artifact@) is None
    }

    /// Every model's artifact is valid.
    pub proof fn wf_is_valid(self)
        requires
            self.wf(),
        ensures
            artifact_refusal(self@.artifact) is None,
    {
    }

    /// Validates an artifact for a device.
    pub fn from_artifact(artifact: Artifact, device: Device) -> (r: Result<Self>)
        ensures
            outcome(r) == model_of(artifact@, device),
            r matches Ok(model) ==> model.wf(),
    {
        match artifact.validate() {
            Ok(()) => Ok(Model { artifact, device }),
            Err(e) => Err(e),
        }
    }

    /// Builds a processor model from an explicit program and live tensors. Identical tensors
    /// keep their identity: they share a storage.
    pub fn new(program: Program, state: &[StateTensor]) -> (r: Result<Self>)
        ensures
            outcome(r) == (match assembled(program@, tensors_view(state@)) {
                Err(e) => Err(e),
                Ok(artifact) => model_of(artifact, Device::Cpu),
            }),
            r matches Ok(model) ==> model.wf(),
    {
        match pack(state) {
            Ok((storages, states)) => Model::from_artifact(Artifact { program, storages, state: states }, Device::Cpu),
            Err(e) => Err(e),
        }
    }

    /// Lowers a graph module to portable operators. `variables` are its parameters and
    /// buffers; their roles follow from whether they track gradients.
    pub fn from_graph(module: &GraphModule, variables: Vec<StateTensor>) -> (r: Result<Self>)
        requires
            module.wf(),
        ensures
            outcome(r) == (match lowered(module@) {
                Err(e) => Err(e),
                Ok(program) => match assembled(program, with_roles(tensors_view(variables@))) {
                    Err(e) => Err(e),
                    Ok(artifact) => model_of(artifact, Device::Cpu),
                },
            }),
            r matches Ok(model) ==> model.wf(),
    {
        let program = match lower(module) {
            Ok(program) => program,
            Err(e) => {
                return Err(e);
            },
        };
        let ghost start = variables@;
        let mut tensors = variables;
        let mut i: usize = 0;
        while i < tensors.len()
            invariant
                i <= tensors@.len(),
                tensors@.len() == start.len(),
                forall|j: int| i <= j < start.len() ==> #[trigger] tensors@[j] == start[j],
                forall|j: int|
                    0 <= j < i ==> (#[trigger] tensors@[j])@ == (StateTensorView {
                        role: variable_role(start[j].requires_grad),
                        ..start[j]@
                    }),
            decreases tensors@.len() - i,
        {
            let role = if tensors[i].requires_grad {
                StateRole::Parameter
            } else {
                StateRole::Buffer
            };
            tensors[i].role = role;
            i += 1;
        }
        assert(tensors_view(tensors@) =~= with_roles(tensors_view(start)));
        Model::new(program, tensors.as_slice())
    }

    /// Returns the program and its calling trees.
    pub fn program(&self) -> (r: &Program)
        ensures
            r@ == self@.artifact.program,
    {
        &self.artifact.program
    }

    /// Returns the storages and the named state.
    pub fn artifact(&self) -> (r: &Artifact)
        ensures
            r@ == self@.artifact,
    {
        &self.artifact
    }

    /// Returns the execution device required for all inputs.
    pub fn device(&self) -> (r: Device)
        ensures
            r == self@.device,
    {
        self.device
    }

    /// Begins a run. `metas` tells what is known of the live state tensors, in the order of
    /// the state, and then of the inputs; these places are the slots of the evaluation.
    pub fn run<'m>(&'m self, metas: Vec<TensorMeta>) -> (r: Result<Evaluation<'m>>)
        requires
            self.wf(),
            metas@.len() >= self@.artifact.state.len(),
        ensures
            ({
                let count = self@.artifact.state.len() as int;
                let slots = slots_from(count, metas@.len() as int);
                &&& refusal(r) == guard_refusal(
                    self@.artifact.program.inputs,
                    slots.map_values(|s: usize| metas_view(metas@)[s as int]),
                    self@.device,
                )
                &&& r matches Ok(run) ==> run.wf() && run@ == (EvaluationView {
                    device: self@.device,
                    state: state_slots(self@.artifact.state, count),
                    metas: metas_view(metas@),
                    frames: seq![entered(self@.artifact.program, state_slots(self@.artifact.state, count), slots)],
                    waiting: Waiting::Ready,
                })
            }),
    {
        let ghost state = self@.artifact.state;
        let ghost count = state.len() as int;
        let mut slots: NameMap<usize> = NameMap::new();
        let mut i: usize = 0;
        while i < self.artifact.state.len()
            invariant
                state == states_view(self.artifact.state@),
                count == state.len(),
                i <= count,
                slots.wf(),
                slots@ == state_slots(state, i as int),
            decreases count - i,
        {
            assert(state[i as int] == self.artifact.state@[i as int]@);
            slots.insert(self.artifact.state[i].name.clone(), i);
            i += 1;
        }
        let ghost first = i;
        let mut inputs: Vec<usize> = Vec::new();
        while i < metas.len()
            invariant
                first <= i <= metas@.len(),
                inputs@.len() == i - first,
                forall|j: int| 0 <= j < inputs@.len() ==> #[trigger] inputs@[j] == first + j,
            decreases metas@.len() - i,
        {
            inputs.push(i);
            i += 1;
        }
        proof {
            assert(inputs@ =~= slots_from(count, metas@.len() as int));
            state_slots_are_named(state, count);
            assert(program_verdict(self@.artifact.program, names_of(state, count), 0, 0).1 is None);
            assert(accepted(self@.artifact.program, slots@.dom()));
            assert forall|name: Seq<char>| #[trigger] slots@.dom().contains(name) implies slots@[name] < metas@.len() by {
                assert(state_slots(state, count).dom().contains(name));
            }
        }
        Evaluation::begin(&self.artifact.program, slots, metas, inputs, self.device)
    }

    /// Checks that the program can be traced into one native function.
    pub fn check_trace(&self) -> (r: Result<()>)
        ensures
            refusal(r) == trace_refusal(self@.artifact.program),
    {
        let program = &self.artifact.program;
        proof {
            program_parts(*program);
        }
        match program.output_tree.leaves() {
            Err(e) => {
                return Err(e);
            },
            Ok(names) => {
                assert(names_view(names@).len() == names@.len());
                if names.len() != 1 {
                    return Err(deployment_error("native tracing supports exactly one tensor output"));
                }
            },
        }
        let ghost view = program@.operations;
        let mut i: usize = 0;
        while i < program.operations.len()
            invariant
                view == program@.operations,
                view == operations_view(program.operations@),
                self@.artifact.program == program@,
                walked(program@.output_tree, 0, Seq::empty()) is Ok,
                walked(program@.output_tree, 0, Seq::empty())->Ok_0.len() == 1,
                i <= program.operations@.len(),
                forall|j: int| 0 <= j < i ==> !((#[trigger] view[j]).operator is If),
            decreases program.operations@.len() - i,
        {
            proof {
                assert(view[i as int] == program.operations@[i as int]@);
                operation_parts(program.operations@[i as int]);
            }
            let branches = match &program.operations[i].operator {
                Operator::If { then_branch, else_branch, result } => {
                    proof {
                        super::types::conditional_parts(*then_branch, *else_branch, *result);
                    }
                    true
                },
                _ => false,
            };
            if branches {
                assert(view[i as int].operator is If);
                return Err(deployment_error("conditional-to-TorchScript tracing is unsupported"));
            }
            i += 1;
        }
        Ok(())
    }

    /// Retains the input guards of this model for a traced module.
    pub fn traced(&self) -> (r: TracedModel)
        ensures
            r@ == (TracedView { inputs: self@.artifact.program.inputs, device: self@.device }),
    {
        proof {
            program_parts(self.artifact.program);
        }
        TracedModel { inputs: copy_value_specs(self.artifact.program.inputs.as_slice()), device: self.device }
    }
}

/// Checks that there is an input to trace with.
pub fn check_examples(count: usize) -> (r: Result<()>)
    ensures
        refusal(r) == (if count == 0 {
            Some(deployment_text("tracing requires at least one input"@))
        } else {
            None
        }),
{
    if count == 0 {
        Err(deployment_error("tracing requires at least one input"))
    } else {
        Ok(())
    }
}

/// The input guards of a native traced module.
#[derive(Debug)]
pub struct TracedModel {
    inputs: Vec<ValueSpec>,
    device: Device,
}

/// The content of a [`TracedModel`].
pub struct TracedView {
    pub inputs: Seq<ValueSpecView>,
    pub device: Device,
}

impl View for TracedModel {
    type V = TracedView;

    closed spec fn view(&self) -> TracedView {
        TracedView { inputs: value_specs_view(self.inputs@), device: self.device }
    }
}

/// The version of stored guards.
pub const GUARD_VERSION: u32 = 1;

/// A program that returns its inputs.
pub open spec fn pass_through(inputs: Seq<ValueSpecView>) -> ProgramView {
    ProgramView {
        version: 1,
        operator_version: 1,
        inputs,
        input_tree: tuple_of(input_names(inputs)),
        operations: Seq::empty(),
        output_tree: tuple_of(input_names(inputs)),
    }
}

/// Why stored guards are refused, if they are.
pub open spec fn stored_guard_refusal(version: u32, inputs: Seq<ValueSpecView>) -> Option<ErrorView> {
    if version != GUARD_VERSION {
        Some(deployment_text("unsupported tracing guard version"@))
    } else {
        program_verdict(pass_through(inputs), Set::empty(), 0, 0).1
    }
}

impl TracedModel {
    /// Takes guards that were stored beside a native module.
    pub fn load(version: u32, inputs: Vec<ValueSpec>, device: Device) -> (r: Result<Self>)
        ensures
            refusal(r) == stored_guard_refusal(version, value_specs_view(inputs@)),
            r matches Ok(model) ==> model@ == (TracedView { inputs: value_specs_view(inputs@), device }),
    {
        if version != GUARD_VERSION {
            return Err(deployment_error("unsupported tracing guard version"));
        }
        let outputs = input_tuple(inputs.as_slice());
        let none: Vec<super::types::Operation> = Vec::new();
        assert(operations_view(none@) =~= Seq::empty());
        let definition = Program::new(copy_value_specs(inputs.as_slice()), none, outputs);
        let names: NameMap<()> = NameMap::new();
        assert(names@.dom() =~= Set::<Seq<char>>::empty());
        let mut budget: usize = 0;
        assert(definition@ == pass_through(value_specs_view(inputs@)));
        match definition.validate(&names, 0, &mut budget) {
            Ok(()) => Ok(TracedModel { inputs, device }),
            Err(e) => Err(e),
        }
    }

    /// The guards to store beside the native module, with their version.
    pub fn save(&self) -> (r: (u32, &[ValueSpec]))
        ensures
            r.0 == GUARD_VERSION,
            value_specs_view(r.1@) == self@.inputs,
    {
        (GUARD_VERSION, self.inputs.as_slice())
    }

    /// Checks inputs against the retained guards.
    pub fn run(&self, metas: &[TensorMeta]) -> (r: Result<()>)
        ensures
            refusal(r) == guard_refusal(self@.inputs, metas_view(metas@), self@.device),
    {
        check_inputs(self.inputs.as_slice(), metas, self.device)
    }
}

/// A tuple of leaves is walked in order.
proof fn tuple_walks(names: Seq<Seq<char>>, n: nat)
    requires
        n <= names.len() <= MAX_NODES,
    ensures
        walked_items(
            names.map_values(|m: Seq<char>| TreeView::Tensor(m)),
            n,
            0,
            Seq::empty(),
        ) == Ok::<Seq<Seq<char>>, ErrorView>(names.take(n as int)),
    decreases n,
{
    let leaves = names.map_values(|m: Seq<char>| TreeView::Tensor(m));
    if n > 0 {
        tuple_walks(names, (n - 1) as nat);
        assert(leaves[n - 1] == TreeView::Tensor(names[n - 1]));
        assert(names.take(n - 1).push(names[n - 1]) =~= names.take(n as int));
        assert(walked(leaves[n - 1], 1, names.take(n - 1)) == Ok::<Seq<Seq<char>>, ErrorView>(names.take(n as int)));
    } else {
        assert(names.take(0) =~= Seq::empty());
    }
}

/// The guards of a valid model with inputs can be stored and taken back.
pub proof fn guards_survive(model: ModelView)
    requires
        artifact_refusal(model.artifact) is None,
        model.artifact.program.inputs.len() > 0,
    ensures
        stored_guard_refusal(GUARD_VERSION, model.artifact.program.inputs) is None,
{
    let inputs = model.artifact.program.inputs;
    let none = Set::<Seq<char>>::empty();
    let all = names_of(model.artifact.state, model.artifact.state.len() as int);
    let n = inputs.len() as int;
    let names = input_names(inputs);
    accepted_is_small(model.artifact.program, all, 0, 0);
    first_at_none(0, n, input_checks(inputs, all));
    assert(inputs_refusal(inputs, none) is None) by {
        first_at_none(0, n, input_checks(inputs, none));
        assert forall|i: int| 0 <= i < n implies (#[trigger] input_checks(inputs, none)(i)) is None by {
            assert(input_checks(inputs, all)(i) is None);
        }
    }
    tuple_walks(names, names.len());
    assert(names.take(names.len() as int) =~= names);
    let program = pass_through(inputs);
    assert(walked(program.input_tree, 0, Seq::empty()) == Ok::<Seq<Seq<char>>, ErrorView>(names));
    assert forall|k: int| 0 <= k < names.len() implies known_name(inputs, Seq::empty(), none, 0, #[trigger] names[k]) by {
        assert(inputs[k].name == names[k]);
    }
}

} // verus!
