//! Reading an exported program.
use super::super::artifact::{Artifact, ArtifactView, StateView};
use super::super::model::{model_of, Model};
use super::super::tree::{Tree, TreeView, MAX_NODES};
use super::super::types::{
    operation_parts, operations_view, program_parts, value_specs_view, Operation, OperationView, Program, ProgramView, StateRole, ValueSpec, ValueSpecView,
};
use super::archive::Files;
use super::calling::{parse_tree, parsed_tree};
use super::json::{
    array, as_array, as_boolean, as_dtype, as_fixed_list, as_object, as_string, as_tensor_name, boolean, dtype, entry, field, fixed_list,
    get, is_int_object, items_view, object, only_int, present, read_text, string, tensor_name, Json, JsonView,
};
use super::operator::{parse_operator, parsed_operator, rename, renamed, renames};
use super::state::{advanced, States, StatesView};
use super::values::{input_spec, input_spec_of, layout_refusal, meta_layout};
use crate::error::{deployment_error, deployment_text, first_at, outcome, refusal, texts, ErrorView, Result};
use crate::names::NameMap;
use crate::kind::Device;
use crate::tensor::same_shape;
use crate::text::{begins, join, owned, same, starts_with};
use vstd::prelude::*;

verus! {

/// The version of the schema.
pub open spec fn is_schema(v: JsonView) -> bool {
    as_object(v) is Ok && as_object(v)->Ok_0.len() == 2 && entry(v, "major"@) == Some(JsonView::Int(8)) && entry(v, "minor"@) == Some(
        JsonView::Int(20),
    )
}

/// Why a table of the graph is refused, if it is: it has to be empty.
pub open spec fn table_refusal(graph: JsonView, key: Seq<char>) -> Option<ErrorView> {
    match as_object(field(graph, key)) {
        Err(e) => Some(e),
        Ok(entries) => if entries.len() > 0 {
            Some(deployment_text("unsupported PT2 "@ + key))
        } else {
            None
        },
    }
}

/// Why the versions of a program are refused, if they are.
pub open spec fn version_refusal(ep: JsonView) -> Option<ErrorView> {
    if !is_schema(field(ep, "schema_version"@)) || !is_int_object(field(ep, "opset_version"@), "aten"@, 10) {
        Some(deployment_text("PT2 requires PyTorch2.13.0/schema8.20/ATen10"@))
    } else {
        match as_string(field(ep, "torch_version"@)) {
            Err(e) => Some(e),
            Ok(version) => if !begins(version, "2.13.0"@) {
                Some(deployment_text("PT2 requires PyTorch2.13.0/schema8.20/ATen10"@))
            } else {
                None
            },
        }
    }
}

/// The graph of a program.
pub open spec fn graph_of(ep: JsonView) -> JsonView {
    field(field(ep, "graph_module"@), "graph"@)
}

/// Why a program is refused before its state is read, if it is.
pub open spec fn header_refusal(ep: JsonView) -> Option<ErrorView> {
    if version_refusal(ep) is Some {
        version_refusal(ep)
    } else {
        match as_array(field(ep, "guards_code"@)) {
            Err(e) => Some(e),
            Ok(guards) => if guards.len() > 0 {
                Some(deployment_text("PT2 executable guard code is unsupported"@))
            } else if table_refusal(graph_of(ep), "custom_obj_values"@) is Some {
                table_refusal(graph_of(ep), "custom_obj_values"@)
            } else if table_refusal(graph_of(ep), "sym_bool_values"@) is Some {
                table_refusal(graph_of(ep), "sym_bool_values"@)
            } else if table_refusal(graph_of(ep), "sym_float_values"@) is Some {
                table_refusal(graph_of(ep), "sym_float_values"@)
            } else {
                table_refusal(graph_of(ep), "sym_int_values"@)
            },
        }
    }
}

/// What the signature has declared so far.
pub struct SignatureView {
    /// The state that each placeholder stands for.
    pub rename: Map<Seq<char>, Seq<char>>,
    pub inputs: Seq<ValueSpecView>,
    pub declared: Seq<Seq<char>>,
    pub used: Set<Seq<char>>,
}

/// The signature after a step, or why the step is refused.
pub type SignatureStep = core::result::Result<SignatureView, ErrorView>;

/// A kind of input that stands for state: where it is described, and its role.
pub struct Slot {
    pub variant: Seq<char>,
    pub key: Seq<char>,
    pub role: StateRole,
}

/// The slot of an input that is not given by the caller.
pub open spec fn slot_of(spec: JsonView) -> core::result::Result<Slot, ErrorView> {
    if entry(spec, "parameter"@) is Some {
        Ok(Slot { variant: "parameter"@, key: "parameter_name"@, role: StateRole::Parameter })
    } else if entry(spec, "buffer"@) is Some {
        match as_boolean(field(field(spec, "buffer"@), "persistent"@)) {
            Err(e) => Err(e),
            Ok(persistent) => Ok(
                Slot {
                    variant: "buffer"@,
                    key: "buffer_name"@,
                    role: if persistent {
                        StateRole::Buffer
                    } else {
                        StateRole::Constant
                    },
                },
            ),
        }
    } else if entry(spec, "tensor_constant"@) is Some {
        Ok(Slot { variant: "tensor_constant"@, key: "tensor_constant_name"@, role: StateRole::Constant })
    } else {
        Err(deployment_text("unsupported PT2 input kind"@))
    }
}

/// Why metadata of a placeholder disagrees with its state, if it does.
pub open spec fn disagreement(meta: JsonView, states: StatesView, state: StateView) -> Option<ErrorView> {
    let mismatch = deployment_text("PT2 state metadata disagrees with raw payload"@);
    if layout_refusal(meta) is Some {
        layout_refusal(meta)
    } else {
        match as_fixed_list(field(meta, "sizes"@)) {
            Err(e) => Some(e),
            Ok(sizes) => if sizes != state.shape {
                Some(mismatch)
            } else {
                match as_dtype(field(meta, "dtype"@)) {
                    Err(e) => Some(e),
                    Ok(dtype) => if dtype != states.storages[state.storage as int].dtype {
                        Some(mismatch)
                    } else {
                        match as_boolean(field(meta, "requires_grad"@)) {
                            Err(e) => Some(e),
                            Ok(requires_grad) => if requires_grad != state.requires_grad {
                                Some(mismatch)
                            } else {
                                None
                            },
                        }
                    },
                }
            },
        }
    }
}

impl SignatureView {
    /// Nothing is declared.
    pub open spec fn start() -> SignatureView {
        SignatureView { rename: Map::empty(), inputs: Seq::empty(), declared: Seq::empty(), used: Set::empty() }
    }

    /// With an input that the caller gives.
    pub open spec fn with_user_input(self, ep: JsonView, user: JsonView) -> SignatureStep {
        match as_tensor_name(field(user, "arg"@)) {
            Err(e) => Err(e),
            Ok(name) => match input_spec_of(
                name,
                field(field(graph_of(ep), "tensor_values"@), name),
                field(ep, "range_constraints"@),
            ) {
                Err(e) => Err(e),
                Ok(input) => Ok(
                    SignatureView { inputs: self.inputs.push(input), declared: self.declared.push(name), ..self },
                ),
            },
        }
    }

    /// With a placeholder for state.
    pub open spec fn with_placeholder(self, ep: JsonView, states: StatesView, spec: JsonView, slot: Slot) -> SignatureStep {
        match as_string(field(field(field(spec, slot.variant), "arg"@), "name"@)) {
            Err(e) => Err(e),
            Ok(arg) => match as_string(field(field(spec, slot.variant), slot.key)) {
                Err(e) => Err(e),
                Ok(name) => if !states.names.dom().contains(name) {
                    Err(deployment_text("PT2 signature state is missing"@))
                } else {
                    let state = states.state[states.names[name] as int];
                    let meta = field(field(graph_of(ep), "tensor_values"@), arg);
                    if state.role != slot.role {
                        Err(deployment_text("PT2 state role disagrees with signature"@))
                    } else if disagreement(meta, states, state) is Some {
                        Err(disagreement(meta, states, state)->0)
                    } else if self.rename.dom().contains(arg) {
                        Err(deployment_text("duplicate PT2 placeholder"@))
                    } else {
                        Ok(
                            SignatureView {
                                rename: self.rename.insert(arg, name),
                                declared: self.declared.push(arg),
                                used: self.used.insert(name),
                                ..self
                            },
                        )
                    }
                },
            },
        }
    }

    /// With an input of the signature.
    pub open spec fn with_input(self, ep: JsonView, states: StatesView, spec: JsonView) -> SignatureStep {
        match as_object(spec) {
            Err(e) => Err(e),
            Ok(entries) => if entries.len() != 1 {
                Err(deployment_text("invalid PT2 input signature"@))
            } else {
                match entry(spec, "user_input"@) {
                    Some(user) => self.with_user_input(ep, user),
                    None => match slot_of(spec) {
                        Err(e) => Err(e),
                        Ok(slot) => self.with_placeholder(ep, states, spec, slot),
                    },
                }
            },
        }
    }

    /// With the first `n` inputs of the signature.
    pub open spec fn with_inputs(self, ep: JsonView, states: StatesView, specs: Seq<JsonView>, n: int) -> SignatureStep
        decreases n,
    {
        if n <= 0 {
            Ok(self)
        } else {
            match self.with_inputs(ep, states, specs, n - 1) {
                Err(e) => Err(e),
                Ok(next) => next.with_input(ep, states, specs[n - 1]),
            }
        }
    }
}

/// The first `n` names of a list of tensor arguments.
pub open spec fn tensor_names(items: Seq<JsonView>, map: Map<Seq<char>, Seq<char>>, n: int) -> core::result::Result<
    Seq<Seq<char>>,
    ErrorView,
>
    decreases n,
{
    if n <= 0 {
        Ok(Seq::empty())
    } else {
        match tensor_names(items, map, n - 1) {
            Err(e) => Err(e),
            Ok(list) => match as_tensor_name(items[n - 1]) {
                Err(e) => Err(e),
                Ok(name) => Ok(list.push(renamed(map, name))),
            },
        }
    }
}

/// The signature of a program: all state is used, and the graph declares the same inputs.
pub open spec fn signature_of(ep: JsonView, states: StatesView) -> SignatureStep {
    match as_array(field(field(field(ep, "graph_module"@), "signature"@), "input_specs"@)) {
        Err(e) => Err(e),
        Ok(specs) => match SignatureView::start().with_inputs(ep, states, specs, specs.len() as int) {
            Err(e) => Err(e),
            Ok(signature) => if exists|i: int|
                0 <= i < states.state.len() && !signature.used.contains((#[trigger] states.state[i]).name) {
                Err(deployment_text("PT2 contains undeclared state"@))
            } else {
                match as_array(field(graph_of(ep), "inputs"@)) {
                    Err(e) => Err(e),
                    Ok(items) => match tensor_names(items, Map::empty(), items.len() as int) {
                        Err(e) => Err(e),
                        Ok(names) => if signature.declared != names {
                            Err(deployment_text("PT2 graph inputs disagree with signature"@))
                        } else {
                            Ok(signature)
                        },
                    },
                }
            },
        },
    }
}

/// Why an argument of a node is refused, if it is: its name is text and no earlier argument
/// has it.
pub open spec fn argument_refusal(items: Seq<JsonView>, i: int) -> Option<ErrorView> {
    match as_string(field(items[i], "name"@)) {
        Err(e) => Some(e),
        Ok(name) => if exists|j: int| 0 <= j < i && field(#[trigger] items[j], "name"@) == JsonView::Text(name) {
            Some(deployment_text("duplicate PT2 operator argument"@))
        } else {
            None
        },
    }
}

/// The checks of the arguments of a node.
pub open spec fn argument_checks(items: Seq<JsonView>) -> spec_fn(int) -> Option<ErrorView> {
    |i: int| argument_refusal(items, i)
}

/// The operation of a node.
pub open spec fn operation_of(node: JsonView, map: Map<Seq<char>, Seq<char>>) -> core::result::Result<OperationView, ErrorView> {
    match as_array(field(node, "outputs"@)) {
        Err(e) => Err(e),
        Ok(outputs) => if outputs.len() != 1 {
            Err(deployment_text("PT2 operator must return one tensor"@))
        } else {
            match as_tensor_name(outputs[0]) {
                Err(e) => Err(e),
                Ok(name) => match as_array(field(node, "inputs"@)) {
                    Err(e) => Err(e),
                    Ok(items) => match first_at(0, items.len() as int, argument_checks(items)) {
                        Some(e) => Err(e),
                        None => match as_string(field(node, "target"@)) {
                            Err(e) => Err(e),
                            Ok(target) => match parsed_operator(target, items, map) {
                                Err(e) => Err(e),
                                Ok((operator, inputs)) => Ok(
                                    OperationView { name: renamed(map, name), operator, inputs },
                                ),
                            },
                        },
                    },
                },
            }
        },
    }
}

/// The operations of the first `n` nodes.
pub open spec fn operations_of(nodes: Seq<JsonView>, map: Map<Seq<char>, Seq<char>>, n: int) -> core::result::Result<
    Seq<OperationView>,
    ErrorView,
>
    decreases n,
{
    if n <= 0 {
        Ok(Seq::empty())
    } else {
        match operations_of(nodes, map, n - 1) {
            Err(e) => Err(e),
            Ok(list) => match operation_of(nodes[n - 1], map) {
                Err(e) => Err(e),
                Ok(operation) => Ok(list.push(operation)),
            },
        }
    }
}

/// Why an output of the signature is refused, if it is: it is the output of the graph.
pub open spec fn output_refusal(specs: Seq<JsonView>, names: Seq<Seq<char>>, map: Map<Seq<char>, Seq<char>>, i: int) -> Option<ErrorView> {
    let mismatch = deployment_text("PT2 mutations, gradients or non-user outputs are unsupported"@);
    match as_object(specs[i]) {
        Err(e) => Some(e),
        Ok(entries) => if entries.len() != 1 {
            Some(mismatch)
        } else {
            match as_tensor_name(field(field(specs[i], "user_output"@), "arg"@)) {
                Err(e) => Some(e),
                Ok(name) => if renamed(map, name) != names[i] {
                    Some(mismatch)
                } else {
                    None
                },
            }
        },
    }
}

/// The checks of the outputs of the signature.
pub open spec fn output_checks(
    specs: Seq<JsonView>,
    names: Seq<Seq<char>>,
    map: Map<Seq<char>, Seq<char>>,
) -> spec_fn(int) -> Option<ErrorView> {
    |i: int| output_refusal(specs, names, map, i)
}

/// The first call of the root module, from place `i` on.
pub open spec fn root_call(calls: Seq<JsonView>, i: int) -> Option<JsonView>
    decreases calls.len() - i,
{
    if i < 0 || i >= calls.len() {
        None
    } else if field(calls[i], "fqn"@) == JsonView::Text(""@) {
        Some(calls[i])
    } else {
        root_call(calls, i + 1)
    }
}

/// What a program holds apart from its calling structure.
pub struct BodyView {
    pub inputs: Seq<ValueSpecView>,
    pub operations: Seq<OperationView>,
    pub outputs: Seq<Seq<char>>,
    /// The description of the root call.
    pub call: JsonView,
}

/// The outputs of a program: those of the graph and of the signature are the same.
pub open spec fn outputs_of(ep: JsonView, map: Map<Seq<char>, Seq<char>>) -> core::result::Result<Seq<Seq<char>>, ErrorView> {
    match as_array(field(graph_of(ep), "outputs"@)) {
        Err(e) => Err(e),
        Ok(items) => match tensor_names(items, map, items.len() as int) {
            Err(e) => Err(e),
            Ok(names) => match as_array(field(field(field(ep, "graph_module"@), "signature"@), "output_specs"@)) {
                Err(e) => Err(e),
                Ok(specs) => if specs.len() != names.len() {
                    Err(deployment_text("PT2 output count mismatch"@))
                } else {
                    match first_at(0, specs.len() as int, output_checks(specs, names, map)) {
                        Some(e) => Err(e),
                        None => Ok(names),
                    }
                },
            },
        },
    }
}

/// What a program holds, or why it is refused.
pub open spec fn body_of(ep: JsonView, states: StatesView) -> core::result::Result<BodyView, ErrorView> {
    match signature_of(ep, states) {
        Err(e) => Err(e),
        Ok(signature) => match as_array(field(graph_of(ep), "nodes"@)) {
            Err(e) => Err(e),
            Ok(nodes) => if nodes.len() > MAX_NODES {
                Err(deployment_text("PT2 node count exceeds limit"@))
            } else {
                match operations_of(nodes, signature.rename, nodes.len() as int) {
                    Err(e) => Err(e),
                    Ok(operations) => match outputs_of(ep, signature.rename) {
                        Err(e) => Err(e),
                        Ok(outputs) => match as_array(field(field(ep, "graph_module"@), "module_call_graph"@)) {
                            Err(e) => Err(e),
                            Ok(calls) => match root_call(calls, 0) {
                                None => Err(deployment_text("missing PT2 root call signature"@)),
                                Some(call) => Ok(BodyView { inputs: signature.inputs, operations, outputs, call }),
                            },
                        },
                    },
                }
            },
        },
    }
}

fn check_table(graph: Option<&Json>, key: &str) -> (r: Result<()>)
    ensures
        refusal(r) == table_refusal(present(graph), key@),
{
    match object(get(graph, key)) {
        Err(e) => Err(e),
        Ok(entries) => {
            if entries.len() > 0 {
                let message = join("unsupported PT2 ", key);
                Err(deployment_error(message.as_str()))
            } else {
                Ok(())
            }
        },
    }
}

fn is_int(v: Option<&Json>, n: i64) -> (r: bool)
    ensures
        r == (v is Some && present(v) == JsonView::Int(n)),
{
    match v {
        Some(Json::Int(m)) => *m == n,
        _ => false,
    }
}

fn check_version(ep: &Json) -> (r: Result<()>)
    ensures
        refusal(r) == version_refusal(ep@),
{
    let schema = get(Some(ep), "schema_version");
    let known = match object(schema) {
        Ok(entries) => entries.len() == 2 && is_int(get(schema, "major"), 8) && is_int(get(schema, "minor"), 20),
        Err(_) => false,
    };
    if !known || !only_int(get(Some(ep), "opset_version"), "aten", 10) {
        return Err(deployment_error("PT2 requires PyTorch2.13.0/schema8.20/ATen10"));
    }
    match string(get(Some(ep), "torch_version")) {
        Err(e) => Err(e),
        Ok(version) => {
            if starts_with(version, "2.13.0") {
                Ok(())
            } else {
                Err(deployment_error("PT2 requires PyTorch2.13.0/schema8.20/ATen10"))
            }
        },
    }
}

fn graph(ep: &Json) -> (r: Option<&Json>)
    ensures
        present(r) == graph_of(ep@),
{
    get(get(Some(ep), "graph_module"), "graph")
}

fn check_header(ep: &Json) -> (r: Result<()>)
    ensures
        refusal(r) == header_refusal(ep@),
{
    if let Err(e) = check_version(ep) {
        return Err(e);
    }
    match array(get(Some(ep), "guards_code")) {
        Err(e) => {
            return Err(e);
        },
        Ok(guards) => {
            assert(items_view(guards@).len() == guards@.len());
            if guards.len() > 0 {
                return Err(deployment_error("PT2 executable guard code is unsupported"));
            }
        },
    }
    let graph = graph(ep);
    if let Err(e) = check_table(graph, "custom_obj_values") {
        return Err(e);
    }
    if let Err(e) = check_table(graph, "sym_bool_values") {
        return Err(e);
    }
    if let Err(e) = check_table(graph, "sym_float_values") {
        return Err(e);
    }
    check_table(graph, "sym_int_values")
}

struct Signature {
    rename: NameMap<String>,
    inputs: Vec<ValueSpec>,
    declared: Vec<String>,
    used: NameMap<()>,
}

impl View for Signature {
    type V = SignatureView;

    closed spec fn view(&self) -> SignatureView {
        SignatureView {
            rename: renames(self.rename@),
            inputs: value_specs_view(self.inputs@),
            declared: texts(self.declared@),
            used: self.used@.dom(),
        }
    }
}

spec fn signed(r: Result<()>, after: SignatureView) -> SignatureStep {
    match r {
        Ok(_) => Ok(after),
        Err(e) => Err(e@),
    }
}

/// A slot that was read.
spec fn slotted(r: Result<(&str, &str, StateRole)>) -> core::result::Result<Slot, ErrorView> {
    match r {
        Ok(found) => Ok(Slot { variant: found.0@, key: found.1@, role: found.2 }),
        Err(e) => Err(e@),
    }
}

fn read_slot(spec: Option<&Json>) -> (r: Result<(&'static str, &'static str, StateRole)>)
    ensures
        slotted(r) == slot_of(present(spec)),
{
    if get(spec, "parameter").is_some() {
        Ok(("parameter", "parameter_name", StateRole::Parameter))
    } else if get(spec, "buffer").is_some() {
        match boolean(get(get(spec, "buffer"), "persistent")) {
            Err(e) => Err(e),
            Ok(true) => Ok(("buffer", "buffer_name", StateRole::Buffer)),
            Ok(false) => Ok(("buffer", "buffer_name", StateRole::Constant)),
        }
    } else if get(spec, "tensor_constant").is_some() {
        Ok(("tensor_constant", "tensor_constant_name", StateRole::Constant))
    } else {
        Err(deployment_error("unsupported PT2 input kind"))
    }
}

fn check_agreement(meta: Option<&Json>, states: &States, at: usize) -> (r: Result<()>)
    requires
        states.wf(),
        at < states@.state.len(),
    ensures
        refusal(r) == disagreement(present(meta), states@, states@.state[at as int]),
{
    if let Err(e) = meta_layout(meta) {
        return Err(e);
    }
    let entry = states.entry(at);
    match fixed_list(get(meta, "sizes")) {
        Err(e) => {
            return Err(e);
        },
        Ok(sizes) => {
            if !same_shape(sizes.as_slice(), entry.shape.as_slice()) {
                return Err(deployment_error("PT2 state metadata disagrees with raw payload"));
            }
        },
    }
    match dtype(get(meta, "dtype")) {
        Err(e) => {
            return Err(e);
        },
        Ok(dtype) => {
            if dtype != states.dtype(entry.storage) {
                return Err(deployment_error("PT2 state metadata disagrees with raw payload"));
            }
        },
    }
    match boolean(get(meta, "requires_grad")) {
        Err(e) => Err(e),
        Ok(requires_grad) => {
            if requires_grad != entry.requires_grad {
                Err(deployment_error("PT2 state metadata disagrees with raw payload"))
            } else {
                Ok(())
            }
        },
    }
}

impl Signature {
    spec fn wf(self) -> bool {
        self.rename.wf() && self.used.wf()
    }

    fn start() -> (r: Self)
        ensures
            r.wf(),
            r@ == SignatureView::start(),
    {
        let r = Signature { rename: NameMap::new(), inputs: Vec::new(), declared: Vec::new(), used: NameMap::new() };
        proof {
            assert(r@.rename =~= Map::empty());
            assert(r@.inputs =~= Seq::empty());
            assert(r@.declared =~= Seq::empty());
            assert(r@.used =~= Set::empty());
        }
        r
    }

    fn add_user_input(&mut self, ep: &Json, user: Option<&Json>) -> (r: Result<()>)
        requires
            old(self).wf(),
        ensures
            r is Ok ==> final(self).wf(),
            signed(r, final(self)@) == old(self)@.with_user_input(ep@, present(user)),
    {
        let ghost start = *self;
        let name = match tensor_name(get(user, "arg")) {
            Ok(name) => name,
            Err(e) => {
                return Err(e);
            },
        };
        let meta = get(get(graph(ep), "tensor_values"), name);
        match input_spec(name, meta, get(Some(ep), "range_constraints")) {
            Err(e) => Err(e),
            Ok(input) => {
                self.inputs.push(input);
                self.declared.push(owned(name));
                proof {
                    let expected = start@.with_user_input(ep@, present(user))->Ok_0;
                    assert(self@.inputs =~= expected.inputs);
                    assert(self@.declared =~= expected.declared);
                }
                Ok(())
            },
        }
    }

    fn add_placeholder(&mut self, ep: &Json, states: &States, spec: Option<&Json>, variant: &str, key: &str, role: StateRole) -> (r: Result<()>)
        requires
            old(self).wf(),
            states.wf(),
        ensures
            r is Ok ==> final(self).wf(),
            signed(r, final(self)@) == old(self)@.with_placeholder(
                ep@,
                states@,
                present(spec),
                (Slot { variant: variant@, key: key@, role }),
            ),
    {
        let ghost start = *self;
        let ghost slot = Slot { variant: variant@, key: key@, role };
        let arg = match string(get(get(get(spec, variant), "arg"), "name")) {
            Ok(arg) => arg,
            Err(e) => {
                return Err(e);
            },
        };
        let name = match string(get(get(spec, variant), key)) {
            Ok(name) => name,
            Err(e) => {
                return Err(e);
            },
        };
        let at: usize = match states.find(name) {
            Some(at) => at,
            None => {
                return Err(deployment_error("PT2 signature state is missing"));
            },
        };
        if states.entry(at).role != role {
            return Err(deployment_error("PT2 state role disagrees with signature"));
        }
        let meta = get(get(graph(ep), "tensor_values"), arg);
        if let Err(e) = check_agreement(meta, states, at) {
            return Err(e);
        }
        if self.rename.contains(arg) {
            return Err(deployment_error("duplicate PT2 placeholder"));
        }
        self.rename.insert(owned(arg), owned(name));
        self.declared.push(owned(arg));
        self.used.insert(owned(name), ());
        proof {
            let expected = start@.with_placeholder(ep@, states@, present(spec), slot)->Ok_0;
            assert(self@.rename =~= expected.rename);
            assert(self@.declared =~= expected.declared);
            assert(self@.used =~= expected.used);
        }
        Ok(())
    }

    fn add_input(&mut self, ep: &Json, states: &States, spec: &Json) -> (r: Result<()>)
        requires
            old(self).wf(),
            states.wf(),
        ensures
            r is Ok ==> final(self).wf(),
            signed(r, final(self)@) == old(self)@.with_input(ep@, states@, spec@),
    {
        match object(Some(spec)) {
            Err(e) => {
                return Err(e);
            },
            Ok(entries) => {
                if entries.len() != 1 {
                    return Err(deployment_error("invalid PT2 input signature"));
                }
            },
        }
        let user = get(Some(spec), "user_input");
        if user.is_some() {
            return self.add_user_input(ep, user);
        }
        match read_slot(Some(spec)) {
            Err(e) => Err(e),
            Ok((variant, key, role)) => self.add_placeholder(ep, states, Some(spec), variant, key, role),
        }
    }
}

proof fn inputs_fail(s: SignatureView, ep: JsonView, states: StatesView, specs: Seq<JsonView>, k: int, n: int)
    requires
        0 <= k <= n,
        s.with_inputs(ep, states, specs, k) is Err,
    ensures
        s.with_inputs(ep, states, specs, n) == s.with_inputs(ep, states, specs, k),
    decreases n - k,
{
    if k < n {
        inputs_fail(s, ep, states, specs, k, n - 1);
    }
}

proof fn names_fail(items: Seq<JsonView>, map: Map<Seq<char>, Seq<char>>, k: int, n: int)
    requires
        0 <= k <= n,
        tensor_names(items, map, k) is Err,
    ensures
        tensor_names(items, map, n) == tensor_names(items, map, k),
    decreases n - k,
{
    if k < n {
        names_fail(items, map, k, n - 1);
    }
}

/// Names that were read.
spec fn named(r: Result<Vec<String>>) -> core::result::Result<Seq<Seq<char>>, ErrorView> {
    match r {
        Ok(list) => Ok(texts(list@)),
        Err(e) => Err(e@),
    }
}

fn read_names(items: &Vec<Json>, map: &NameMap<String>) -> (r: Result<Vec<String>>)
    requires
        map.wf(),
    ensures
        named(r) == tensor_names(items_view(items@), renames(map@), items@.len() as int),
{
    let ghost view = items_view(items@);
    let ghost names = renames(map@);
    let ghost n = items@.len() as int;
    let mut out: Vec<String> = Vec::new();
    let mut i: usize = 0;
    assert(texts(out@) =~= Seq::empty());
    while i < items.len()
        invariant
            map.wf(),
            view == items_view(items@),
            names == renames(map@),
            n == items@.len(),
            i <= n,
            tensor_names(view, names, i as int) == Ok::<Seq<Seq<char>>, ErrorView>(texts(out@)),
        decreases n - i,
    {
        proof {
            assert(view[i as int] == items@[i as int]@);
            if tensor_names(view, names, i + 1) is Err {
                names_fail(view, names, i + 1, n);
            }
        }
        match tensor_name(Some(&items[i])) {
            Ok(name) => {
                let ghost before = texts(out@);
                let name = rename(map, name);
                out.push(name);
                assert(texts(out@) =~= before.push(name@));
            },
            Err(e) => {
                return Err(e);
            },
        }
        i += 1;
    }
    Ok(out)
}

fn same_names(a: &Vec<String>, b: &Vec<String>) -> (r: bool)
    ensures
        r == (texts(a@) == texts(b@)),
{
    assert(texts(a@).len() == a@.len() && texts(b@).len() == b@.len());
    if a.len() != b.len() {
        return false;
    }
    let mut i: usize = 0;
    while i < a.len()
        invariant
            a@.len() == b@.len(),
            i <= a@.len(),
            forall|j: int| 0 <= j < i ==> (#[trigger] a@[j])@ == b@[j]@,
        decreases a@.len() - i,
    {
        if !same(a[i].as_str(), b[i].as_str()) {
            assert(texts(a@)[i as int] != texts(b@)[i as int]);
            return false;
        }
        i += 1;
    }
    assert(texts(a@) =~= texts(b@));
    true
}

#[verifier::loop_isolation(false)]
fn read_signature(ep: &Json, states: &States) -> (r: Result<Signature>)
    requires
        states.wf(),
    ensures
        outcome(r) == signature_of(ep@, states@),
        r matches Ok(signature) ==> signature.wf(),
{
    let specs = match array(get(get(get(Some(ep), "graph_module"), "signature"), "input_specs")) {
        Ok(specs) => specs,
        Err(e) => {
            return Err(e);
        },
    };
    let ghost view = items_view(specs@);
    let ghost n = specs@.len() as int;
    let ghost start = SignatureView::start();
    let mut signature = Signature::start();
    let mut i: usize = 0;
    while i < specs.len()
        invariant
            i <= n,
            signature.wf(),
            start.with_inputs(ep@, states@, view, i as int) == Ok::<SignatureView, ErrorView>(signature@),
        decreases n - i,
    {
        proof {
            assert(view[i as int] == specs@[i as int]@);
            if start.with_inputs(ep@, states@, view, i + 1) is Err {
                inputs_fail(start, ep@, states@, view, i + 1, n);
            }
        }
        if let Err(e) = signature.add_input(ep, states, &specs[i]) {
            return Err(e);
        }
        i += 1;
    }
    let ghost whole = signature@;
    let mut k: usize = 0;
    while k < states.len()
        invariant
            k <= states@.state.len(),
            forall|j: int| 0 <= j < k ==> whole.used.contains((#[trigger] states@.state[j]).name),
        decreases states@.state.len() - k,
    {
        let entry = states.entry(k);
        if !signature.used.contains(entry.name.as_str()) {
            assert(!whole.used.contains(states@.state[k as int].name));
            return Err(deployment_error("PT2 contains undeclared state"));
        }
        k += 1;
    }
    let items = match array(get(graph(ep), "inputs")) {
        Ok(items) => items,
        Err(e) => {
            return Err(e);
        },
    };
    let plain: NameMap<String> = NameMap::new();
    assert(renames(plain@) =~= Map::<Seq<char>, Seq<char>>::empty());
    let names = match read_names(items, &plain) {
        Ok(names) => names,
        Err(e) => {
            return Err(e);
        },
    };
    if !same_names(&signature.declared, &names) {
        return Err(deployment_error("PT2 graph inputs disagree with signature"));
    }
    Ok(signature)
}

fn check_arguments(items: &Vec<Json>) -> (r: Result<()>)
    ensures
        refusal(r) == first_at(0, items@.len() as int, argument_checks(items_view(items@))),
{
    let ghost view = items_view(items@);
    let ghost check = argument_checks(view);
    let ghost n = items@.len() as int;
    let mut names: NameMap<()> = NameMap::new();
    let mut i: usize = 0;
    while i < items.len()
        invariant
            view == items_view(items@),
            check == argument_checks(view),
            n == items@.len(),
            i <= n,
            names.wf(),
            forall|name: Seq<char>| #[trigger] names@.dom().contains(name) <==> exists|j: int|
                0 <= j < i && field(#[trigger] view[j], "name"@) == JsonView::Text(name),
            first_at(0, n, check) == first_at(i as int, n, check),
        decreases n - i,
    {
        let ghost earlier = names@;
        assert(view[i as int] == items@[i as int]@);
        assert(check(i as int) == argument_refusal(view, i as int));
        match string(get(Some(&items[i]), "name")) {
            Err(e) => {
                return Err(e);
            },
            Ok(name) => {
                if names.contains(name) {
                    assert(earlier.dom().contains(name@));
                    return Err(deployment_error("duplicate PT2 operator argument"));
                }
                assert(!earlier.dom().contains(name@));
                names.insert(owned(name), ());
                proof {
                    assert forall|other: Seq<char>| #[trigger] names@.dom().contains(other) <==> exists|j: int|
                        0 <= j < i + 1 && field(#[trigger] view[j], "name"@) == JsonView::Text(other) by {
                        if other == name@ {
                            assert(field(view[i as int], "name"@) == JsonView::Text(other));
                        } else {
                            assert(names@.dom().contains(other) == earlier.dom().contains(other));
                            if exists|j: int| 0 <= j < i + 1 && field(#[trigger] view[j], "name"@) == JsonView::Text(other) {
                                let j = choose|j: int|
                                    0 <= j < i + 1 && field(#[trigger] view[j], "name"@) == JsonView::Text(other);
                                assert(j != i);
                            }
                        }
                    }
                }
            },
        }
        i += 1;
    }
    Ok(())
}

fn read_operation(node: &Json, map: &NameMap<String>) -> (r: Result<Operation>)
    requires
        map.wf(),
    ensures
        outcome(r) == operation_of(node@, renames(map@)),
{
    let outputs = match array(get(Some(node), "outputs")) {
        Ok(outputs) => outputs,
        Err(e) => {
            return Err(e);
        },
    };
    assert(items_view(outputs@).len() == outputs@.len());
    if outputs.len() != 1 {
        return Err(deployment_error("PT2 operator must return one tensor"));
    }
    assert(items_view(outputs@)[0] == outputs@[0]@);
    let name = match tensor_name(Some(&outputs[0])) {
        Ok(name) => rename(map, name),
        Err(e) => {
            return Err(e);
        },
    };
    let items = match array(get(Some(node), "inputs")) {
        Ok(items) => items,
        Err(e) => {
            return Err(e);
        },
    };
    if let Err(e) = check_arguments(items) {
        return Err(e);
    }
    let target = match string(get(Some(node), "target")) {
        Ok(target) => target,
        Err(e) => {
            return Err(e);
        },
    };
    match parse_operator(target, items, map) {
        Err(e) => Err(e),
        Ok((operator, inputs)) => {
            let operation = Operation { name, operator, inputs };
            proof {
                operation_parts(operation);
            }
            Ok(operation)
        },
    }
}

proof fn operations_fail(nodes: Seq<JsonView>, map: Map<Seq<char>, Seq<char>>, k: int, n: int)
    requires
        0 <= k <= n,
        operations_of(nodes, map, k) is Err,
    ensures
        operations_of(nodes, map, n) == operations_of(nodes, map, k),
    decreases n - k,
{
    if k < n {
        operations_fail(nodes, map, k, n - 1);
    }
}

/// Operations that were read.
spec fn operated(r: Result<Vec<Operation>>) -> core::result::Result<Seq<OperationView>, ErrorView> {
    match r {
        Ok(list) => Ok(operations_view(list@)),
        Err(e) => Err(e@),
    }
}

fn read_operations(nodes: &Vec<Json>, map: &NameMap<String>) -> (r: Result<Vec<Operation>>)
    requires
        map.wf(),
    ensures
        operated(r) == operations_of(items_view(nodes@), renames(map@), nodes@.len() as int),
{
    let ghost view = items_view(nodes@);
    let ghost names = renames(map@);
    let ghost n = nodes@.len() as int;
    let mut out: Vec<Operation> = Vec::new();
    let mut i: usize = 0;
    assert(operations_view(out@) =~= Seq::empty());
    while i < nodes.len()
        invariant
            map.wf(),
            view == items_view(nodes@),
            names == renames(map@),
            n == nodes@.len(),
            i <= n,
            operations_of(view, names, i as int) == Ok::<Seq<OperationView>, ErrorView>(operations_view(out@)),
        decreases n - i,
    {
        proof {
            assert(view[i as int] == nodes@[i as int]@);
            if operations_of(view, names, i + 1) is Err {
                operations_fail(view, names, i + 1, n);
            }
        }
        match read_operation(&nodes[i], map) {
            Ok(operation) => {
                let ghost before = operations_view(out@);
                out.push(operation);
                assert(operations_view(out@) =~= before.push(operation@));
            },
            Err(e) => {
                return Err(e);
            },
        }
        i += 1;
    }
    Ok(out)
}

fn check_outputs(specs: &Vec<Json>, names: &Vec<String>, map: &NameMap<String>) -> (r: Result<()>)
    requires
        map.wf(),
        specs@.len() == names@.len(),
    ensures
        refusal(r) == first_at(
            0,
            specs@.len() as int,
            output_checks(items_view(specs@), texts(names@), renames(map@)),
        ),
{
    let ghost view = items_view(specs@);
    let ghost list = texts(names@);
    let ghost check = output_checks(view, list, renames(map@));
    let ghost n = specs@.len() as int;
    let mut i: usize = 0;
    while i < specs.len()
        invariant
            map.wf(),
            specs@.len() == names@.len(),
            view == items_view(specs@),
            list == texts(names@),
            check == output_checks(view, list, renames(map@)),
            n == specs@.len(),
            i <= n,
            first_at(0, n, check) == first_at(i as int, n, check),
        decreases n - i,
    {
        assert(view[i as int] == specs@[i as int]@);
        assert(list[i as int] == names@[i as int]@);
        assert(check(i as int) == output_refusal(view, list, renames(map@), i as int));
        let spec = Some(&specs[i]);
        match object(spec) {
            Err(e) => {
                return Err(e);
            },
            Ok(entries) => {
                if entries.len() != 1 {
                    return Err(deployment_error("PT2 mutations, gradients or non-user outputs are unsupported"));
                }
            },
        }
        match tensor_name(get(get(spec, "user_output"), "arg")) {
            Err(e) => {
                return Err(e);
            },
            Ok(name) => {
                let name = rename(map, name);
                if !same(name.as_str(), names[i].as_str()) {
                    return Err(deployment_error("PT2 mutations, gradients or non-user outputs are unsupported"));
                }
            },
        }
        i += 1;
    }
    Ok(())
}

fn read_outputs(ep: &Json, map: &NameMap<String>) -> (r: Result<Vec<String>>)
    requires
        map.wf(),
    ensures
        named(r) == outputs_of(ep@, renames(map@)),
{
    let items = match array(get(graph(ep), "outputs")) {
        Ok(items) => items,
        Err(e) => {
            return Err(e);
        },
    };
    let names = match read_names(items, map) {
        Ok(names) => names,
        Err(e) => {
            return Err(e);
        },
    };
    let specs = match array(get(get(get(Some(ep), "graph_module"), "signature"), "output_specs")) {
        Ok(specs) => specs,
        Err(e) => {
            return Err(e);
        },
    };
    assert(items_view(specs@).len() == specs@.len() && texts(names@).len() == names@.len());
    if specs.len() != names.len() {
        return Err(deployment_error("PT2 output count mismatch"));
    }
    match check_outputs(specs, &names, map) {
        Ok(()) => Ok(names),
        Err(e) => Err(e),
    }
}

fn find_call(calls: &Vec<Json>) -> (r: Option<usize>)
    ensures
        match (r, root_call(items_view(calls@), 0)) {
            (Some(at), Some(expected)) => at < calls@.len() && calls@[at as int]@ == expected,
            (None, None) => true,
            _ => false,
        },
{
    let ghost view = items_view(calls@);
    let mut i: usize = 0;
    while i < calls.len()
        invariant
            view == items_view(calls@),
            i <= calls@.len(),
            root_call(view, 0) == root_call(view, i as int),
        decreases calls@.len() - i,
    {
        assert(view[i as int] == calls@[i as int]@);
        let root = match get(Some(&calls[i]), "fqn") {
            Some(Json::Text(name)) => same(name.as_str(), ""),
            _ => false,
        };
        if root {
            return Some(i);
        }
        i += 1;
    }
    None
}

/// A program that is being read: its description and its state.
pub struct Exported {
    ep: Json,
    states: States,
}

/// The content of an [`Exported`].
pub struct ExportedView {
    pub ep: JsonView,
    pub states: StatesView,
}

impl View for Exported {
    type V = ExportedView;

    closed spec fn view(&self) -> ExportedView {
        ExportedView { ep: self.ep@, states: self.states@ }
    }
}

/// The path of the configuration of a model's weights.
pub open spec fn weights_path(name: Seq<char>) -> Seq<char> {
    "data/weights/"@ + name + "_weights_config.json"@
}

/// The path of the configuration of a model's constants.
pub open spec fn constants_path(name: Seq<char>) -> Seq<char> {
    "data/constants/"@ + name + "_constants_config.json"@
}

/// Returns the path of the configuration of a model's weights.
pub fn weights_config(name: &str) -> (r: String)
    ensures
        r@ == weights_path(name@),
{
    crate::text::join3("data/weights/", name, "_weights_config.json")
}

/// Returns the path of the configuration of a model's constants.
pub fn constants_config(name: &str) -> (r: String)
    ensures
        r@ == constants_path(name@),
{
    crate::text::join3("data/constants/", name, "_constants_config.json")
}

impl Exported {
    /// The state is in order.
    pub closed spec fn wf(self) -> bool {
        self.states.wf()
    }

    /// Starts to read a program.
    pub fn begin(ep: Json) -> (r: Result<Self>)
        ensures
            refusal(r) == header_refusal(ep@),
            r matches Ok(exported) ==> exported.wf() && exported@ == (ExportedView {
                ep: ep@,
                states: StatesView::start(),
            }),
    {
        match check_header(&ep) {
            Ok(()) => Ok(Exported { ep, states: States::start() }),
            Err(e) => Err(e),
        }
    }

    /// Reads the parameters and buffers.
    pub fn add_weights(&mut self, files: &Files, config: &Json) -> (r: Result<()>)
        requires
            old(self).wf(),
            files.wf(),
        ensures
            r is Ok ==> final(self).wf(),
            final(self)@.ep == old(self)@.ep,
            advanced(r, final(self)@.states) == old(self)@.states.with_config(files@, "data/weights/"@, false, config@),
    {
        self.states.add_config(files, "data/weights/", false, config)
    }

    /// Reads the constants.
    pub fn add_constants(&mut self, files: &Files, config: &Json) -> (r: Result<()>)
        requires
            old(self).wf(),
            files.wf(),
        ensures
            r is Ok ==> final(self).wf(),
            final(self)@.ep == old(self)@.ep,
            advanced(r, final(self)@.states) == old(self)@.states.with_config(files@, "data/constants/"@, true, config@),
    {
        self.states.add_config(files, "data/constants/", true, config)
    }

    /// Reads the signature, the operations and the outputs.
    pub fn resolve(self) -> (r: Result<Resolved>)
        requires
            self.wf(),
        ensures
            match (r, body_of(self@.ep, self@.states)) {
                (Ok(resolved), Ok(body)) => resolved.wf() && resolved@.body == body && resolved@.states == self@.states,
                (Err(e), Err(expected)) => e@ == expected,
                _ => false,
            },
    {
        let signature = match read_signature(&self.ep, &self.states) {
            Ok(signature) => signature,
            Err(e) => {
                return Err(e);
            },
        };
        let nodes = match array(get(graph(&self.ep), "nodes")) {
            Ok(nodes) => nodes,
            Err(e) => {
                return Err(e);
            },
        };
        assert(items_view(nodes@).len() == nodes@.len());
        if nodes.len() > MAX_NODES {
            return Err(deployment_error("PT2 node count exceeds limit"));
        }
        let operations = match read_operations(nodes, &signature.rename) {
            Ok(operations) => operations,
            Err(e) => {
                return Err(e);
            },
        };
        let outputs = match read_outputs(&self.ep, &signature.rename) {
            Ok(outputs) => outputs,
            Err(e) => {
                return Err(e);
            },
        };
        let calls = match array(get(get(Some(&self.ep), "graph_module"), "module_call_graph")) {
            Ok(calls) => calls,
            Err(e) => {
                return Err(e);
            },
        };
        let call: usize = match find_call(calls) {
            Some(call) => call,
            None => {
                return Err(deployment_error("missing PT2 root call signature"));
            },
        };
        let inputs = signature.inputs;
        let resolved = Resolved { ep: self.ep, states: self.states, inputs, operations, outputs, call };
        assert(as_array(field(field(resolved.ep@, "graph_module"@), "module_call_graph"@))->Ok_0[call as int] == calls@[call as int]@);
        Ok(resolved)
    }
}

/// A program that has been read but for its calling structure.
pub struct Resolved {
    ep: Json,
    states: States,
    inputs: Vec<ValueSpec>,
    operations: Vec<Operation>,
    outputs: Vec<String>,
    call: usize,
}

/// The content of a [`Resolved`].
pub struct ResolvedView {
    pub body: BodyView,
    pub states: StatesView,
}

/// The calls that a program describes.
pub open spec fn calls_of(ep: JsonView) -> core::result::Result<Seq<JsonView>, ErrorView> {
    as_array(field(field(ep, "graph_module"@), "module_call_graph"@))
}

/// The artifact of a program with its calling structure.
pub open spec fn artifact_of(body: BodyView, states: StatesView, input_tree: TreeView, output_tree: TreeView) -> ArtifactView {
    ArtifactView {
        program: ProgramView {
            version: 1,
            operator_version: 1,
            inputs: body.inputs,
            input_tree,
            operations: body.operations,
            output_tree,
        },
        storages: states.storages,
        state: states.state,
    }
}

/// The names of inputs.
pub open spec fn spec_names(inputs: Seq<ValueSpecView>) -> Seq<Seq<char>> {
    inputs.map_values(|s: ValueSpecView| s.name)
}

impl View for Resolved {
    type V = ResolvedView;

    closed spec fn view(&self) -> ResolvedView {
        ResolvedView {
            body: BodyView {
                inputs: value_specs_view(self.inputs@),
                operations: operations_view(self.operations@),
                outputs: texts(self.outputs@),
                call: calls_of(self.ep@)->Ok_0[self.call as int],
            },
            states: self.states@,
        }
    }
}

impl Resolved {
    /// The call exists.
    pub closed spec fn wf(self) -> bool {
        calls_of(self.ep@) is Ok && self.call < calls_of(self.ep@)->Ok_0.len()
    }

    fn root(&self) -> (r: Option<&Json>)
        requires
            self.wf(),
        ensures
            present(r) == self@.body.call,
    {
        super::json::item(get(get(Some(&self.ep), "graph_module"), "module_call_graph"), self.call)
    }

    /// Returns the text that describes the calling structure of the inputs.
    pub fn in_spec(&self) -> (r: Result<&str>)
        requires
            self.wf(),
        ensures
            read_text(r) == as_string(field(field(self@.body.call, "signature"@), "in_spec"@)),
    {
        string(get(get(self.root(), "signature"), "in_spec"))
    }

    /// Returns the text that describes the calling structure of the outputs.
    pub fn out_spec(&self) -> (r: Result<&str>)
        requires
            self.wf(),
        ensures
            read_text(r) == as_string(field(field(self@.body.call, "signature"@), "out_spec"@)),
    {
        string(get(get(self.root(), "signature"), "out_spec"))
    }

    /// Reads the calling structure of the inputs.
    pub fn input_tree(&self, root: &Json) -> (r: Result<Tree>)
        ensures
            outcome(r) == parsed_tree(root@, spec_names(self@.body.inputs)),
    {
        let mut names: Vec<String> = Vec::new();
        let mut i: usize = 0;
        while i < self.inputs.len()
            invariant
                i <= self.inputs@.len(),
                names@.len() == i,
                forall|j: int| 0 <= j < i ==> (#[trigger] names@[j])@ == self.inputs@[j]@.name,
            decreases self.inputs@.len() - i,
        {
            names.push(self.inputs[i].name.clone());
            i += 1;
        }
        assert(texts(names@) =~= spec_names(self@.body.inputs));
        parse_tree(root, &names)
    }

    /// Reads the calling structure of the outputs.
    pub fn output_tree(&self, root: &Json) -> (r: Result<Tree>)
        ensures
            outcome(r) == parsed_tree(root@, self@.body.outputs),
    {
        parse_tree(root, &self.outputs)
    }

    /// Makes the model.
    pub fn finish(self, input_tree: Tree, output_tree: Tree) -> (r: Result<Model>)
        ensures
            outcome(r) == model_of(artifact_of(self@.body, self@.states, input_tree@, output_tree@), Device::Cpu),
            r matches Ok(model) ==> model.wf(),
    {
        let program = Program {
            version: 1,
            operator_version: 1,
            inputs: self.inputs,
            input_tree,
            operations: self.operations,
            output_tree,
        };
        proof {
            program_parts(program);
        }
        let (storages, state) = self.states.into_parts();
        Model::from_artifact(Artifact { program, storages, state }, Device::Cpu)
    }
}

} // verus!
