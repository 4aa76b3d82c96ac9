//! How a program, its state and its files are told in the format: which entry means what, both when it
//! is written and when it is read.
use super::super::artifact::{StateView, StorageView};
use super::super::tree::TreeView;
use super::super::types::{DType, DimensionView, OperationView, StateRole};
use super::calling::{container_of, describes};
use super::json::{as_fixed, as_fixed_list, entry, field, JsonView};
use super::load::{header_refusal, slot_of, version_refusal};
use super::save::{
    call_tree, config_map, description, export_refusal, input_signature, output_signature, packaged, payload_of, placeholders,
    range_union, raw_members, state_signature, GraphOut, SymbolsView,
};
use super::state::{described, role_of};
use super::values::{dimension_of, layout_refusal, symbol_inside};
use super::write::{call_of, int_unions, node_union, size_union, tensor_meta, tensor_union};
use crate::error::ErrorView;
use crate::kind::Device;
use crate::text::decimal;
use vstd::prelude::*;

verus! {

/// Entry `i` of an object has the given name and value.
pub open spec fn has_entry(v: JsonView, i: int, key: Seq<char>, value: JsonView) -> bool {
    v is Object && 0 <= i < v->Object_0.len() && v->Object_0[i] == (key, value)
}

/// An object has one entry, with the given name and value.
pub open spec fn is_entry(v: JsonView, key: Seq<char>, value: JsonView) -> bool {
    v is Object && v->Object_0.len() == 1 && v->Object_0[0] == (key, value)
}

/// An object has one entry, whose value is an object too.
pub open spec fn inner(v: JsonView, key: Seq<char>) -> JsonView {
    if v is Object && v->Object_0.len() == 1 && v->Object_0[0].0 == key {
        v->Object_0[0].1
    } else {
        JsonView::Null
    }
}

/// State stands in the signature by its role: a parameter under `parameter`, a buffer, which persists,
/// under `buffer`, and a constant under `tensor_constant`, each with its placeholder and its name.
pub proof fn state_is_signed_by_its_role(state: StateView, i: int)
    ensures
        ({
            let signature = state_signature(state, i);
            match state.role {
                StateRole::Parameter => {
                    let spec = inner(signature, "parameter"@);
                    &&& spec is Object && spec->Object_0.len() == 2
                    &&& spec->Object_0[0].0 == "arg"@ && is_entry(spec->Object_0[0].1, "name"@, JsonView::Text("state_"@ + decimal(i)))
                    &&& has_entry(spec, 1, "parameter_name"@, JsonView::Text(state.name))
                },
                StateRole::Buffer => {
                    let spec = inner(signature, "buffer"@);
                    &&& spec is Object && spec->Object_0.len() == 3
                    &&& spec->Object_0[0].0 == "arg"@ && is_entry(spec->Object_0[0].1, "name"@, JsonView::Text("state_"@ + decimal(i)))
                    &&& has_entry(spec, 1, "buffer_name"@, JsonView::Text(state.name))
                    &&& has_entry(spec, 2, "persistent"@, JsonView::Bool(true))
                },
                StateRole::Constant => {
                    let spec = inner(signature, "tensor_constant"@);
                    &&& spec is Object && spec->Object_0.len() == 2
                    &&& spec->Object_0[0].0 == "arg"@ && is_entry(spec->Object_0[0].1, "name"@, JsonView::Text("state_"@ + decimal(i)))
                    &&& has_entry(spec, 1, "tensor_constant_name"@, JsonView::Text(state.name))
                },
            }
        }),
{
}

/// A signature that holds a parameter, a buffer or a constant is read as state of that role; a buffer that
/// does not persist is a constant.
pub proof fn signatures_are_read_by_their_role(spec: JsonView)
    ensures
        slot_of(spec) is Ok ==> {
            let slot = slot_of(spec)->Ok_0;
            ||| slot.variant == "parameter"@ && slot.key == "parameter_name"@ && slot.role is Parameter && entry(spec, "parameter"@) is Some
            ||| {
                &&& slot.variant == "buffer"@ && slot.key == "buffer_name"@ && entry(spec, "buffer"@) is Some
                &&& slot.role is Buffer <==> field(field(spec, "buffer"@), "persistent"@) == JsonView::Bool(true)
                &&& slot.role is Constant <==> field(field(spec, "buffer"@), "persistent"@) == JsonView::Bool(false)
            }
            ||| slot.variant == "tensor_constant"@ && slot.key == "tensor_constant_name"@ && slot.role is Constant && entry(
                spec,
                "tensor_constant"@,
            ) is Some
        },
        entry(spec, "parameter"@) is Some ==> slot_of(spec) is Ok && slot_of(spec)->Ok_0.role is Parameter,
        entry(spec, "parameter"@) is None && entry(spec, "buffer"@) is None && entry(spec, "tensor_constant"@) is Some ==> slot_of(spec) is Ok
            && slot_of(spec)->Ok_0.role is Constant,
        entry(spec, "parameter"@) is None && entry(spec, "buffer"@) is None && entry(spec, "tensor_constant"@) is None ==> slot_of(spec) is Err,
{
}

/// Tensors are referred to by name, as inputs and as outputs of the caller.
pub proof fn callers_values_are_signed_by_name(name: Seq<char>)
    ensures
        is_entry(inner(tensor_union(name), "as_tensor"@), "name"@, JsonView::Text(name)),
        is_entry(inner(input_signature(name), "user_input"@), "arg"@, tensor_union(name)),
        is_entry(inner(output_signature(name), "user_output"@), "arg"@, tensor_union(name)),
{
}

/// What is told of a tensor: that it is strided and lies on the processor, the code of its element type,
/// whether it takes gradients, its sizes, its offset and its strides.
pub proof fn tensors_are_described(dtype: DType, sizes: JsonView, requires_grad: bool, strides: Seq<i64>, offset: i64)
    ensures
        ({
            let meta = tensor_meta(dtype, sizes, requires_grad, strides, offset);
            &&& meta is Object && meta->Object_0.len() == 7
            &&& meta->Object_0[0].0 == "device"@ && has_entry(meta->Object_0[0].1, 0, "index"@, JsonView::Null) && has_entry(
                meta->Object_0[0].1,
                1,
                "type"@,
                JsonView::Text("cpu"@),
            )
            &&& meta->Object_0[1].0 == "dtype"@ && meta->Object_0[1].1 == JsonView::Int(
                match dtype {
                    DType::Int64 => 5i64,
                    DType::Float => 7i64,
                    DType::Double => 8i64,
                    DType::Bool => 12i64,
                },
            )
            &&& has_entry(meta, 2, "layout"@, JsonView::Int(7))
            &&& has_entry(meta, 3, "requires_grad"@, JsonView::Bool(requires_grad))
            &&& has_entry(meta, 4, "sizes"@, sizes)
            &&& meta->Object_0[5].0 == "storage_offset"@ && is_entry(meta->Object_0[5].1, "as_int"@, JsonView::Int(offset))
            &&& meta->Object_0[6].0 == "strides"@ && meta->Object_0[6].1 is List && meta->Object_0[6].1->List_0.len() == strides.len()
            &&& forall|k: int|
                0 <= k < strides.len() ==> is_entry(#[trigger] meta->Object_0[6].1->List_0[k], "as_int"@, JsonView::Int(strides[k]))
        }),
{
}

/// A fixed size is told as an integer, and a symbol by an expression with its name.
pub proof fn sizes_are_told(n: i64, name: Seq<char>, min: i64, max: Option<i64>, symbols: Map<Seq<char>, Seq<char>>)
    requires
        symbols.dom().contains(name),
    ensures
        is_entry(size_union(DimensionView::Known(n), symbols), "as_int"@, JsonView::Int(n)),
        ({
            let told = inner(size_union(DimensionView::Symbol { name, min, max }, symbols), "as_expr"@);
            &&& has_entry(
                told,
                0,
                "expr_str"@,
                JsonView::Text("Symbol('"@ + symbols[name] + "', positive=True, integer=True)"@),
            )
            &&& told->Object_0[1].0 == "hint"@
        }),
{
}

/// The range of a symbol is told by its least size and its greatest one, if there is one.
pub proof fn ranges_are_told(min: i64, most: i64, max: Option<i64>)
    ensures
        has_entry(range_union((min, Some(most))), 0, "max_val"@, JsonView::Int(most)),
        has_entry(range_union((min, None)), 0, "max_val"@, JsonView::Null),
        has_entry(range_union((min, max)), 1, "min_val"@, JsonView::Int(min)),
{
}

/// A size is read as an integer where it is one, and otherwise as a symbol with the bounds that are told
/// for it, the least of which is zero where none is.
pub proof fn sizes_are_read(v: JsonView, ranges: JsonView)
    ensures
        dimension_of(v, ranges) matches Ok(d) ==> match d {
            DimensionView::Known(n) => entry(v, "as_int"@) == Some(JsonView::Int(n)),
            DimensionView::Symbol { name, min, max } => {
                &&& entry(v, "as_int"@) is None
                &&& field(field(ranges, name), "min_val"@) == JsonView::Int(min) || (field(field(ranges, name), "min_val"@) is Null && min == 0)
                &&& match max {
                    Some(most) => field(field(ranges, name), "max_val"@) == JsonView::Int(most),
                    None => field(field(ranges, name), "max_val"@) is Null,
                }
                &&& field(field(v, "as_expr"@), "expr_str"@) is Text
                &&& symbol_inside(field(field(v, "as_expr"@), "expr_str"@)->Text_0) == Some(name)
            },
        },
{
}

/// Only strided tensors on the processor are read.
pub proof fn read_tensors_are_strided(meta: JsonView)
    ensures
        layout_refusal(meta) is None <==> field(meta, "layout"@) == JsonView::Int(7) && field(field(meta, "device"@), "type"@) == JsonView::Text(
            "cpu"@,
        ),
{
}

/// State is read with the sizes, strides, offset and training flag that are told for it.
pub proof fn state_is_read_as_described(name: Seq<char>, role: StateRole, storage: usize, meta: JsonView)
    ensures
        described(name, role, storage, meta) matches Ok(state) ==> {
            &&& state.name == name && state.role == role && state.storage == storage
            &&& as_fixed_list(field(meta, "sizes"@)) == Ok::<Seq<i64>, ErrorView>(state.shape)
            &&& as_fixed_list(field(meta, "strides"@)) == Ok::<Seq<i64>, ErrorView>(state.strides)
            &&& as_fixed(field(meta, "storage_offset"@)) == Ok::<i64, ErrorView>(state.offset)
            &&& field(meta, "requires_grad"@) == JsonView::Bool(state.requires_grad)
        },
{
}

/// Among the weights a parameter is told from a buffer by its flag; what stands among the constants is a
/// constant.
pub proof fn roles_are_told_by_the_flag(payload: JsonView)
    ensures
        role_of(true, payload) == Ok::<StateRole, ErrorView>(StateRole::Constant),
        field(payload, "is_param"@) == JsonView::Bool(true) ==> role_of(false, payload) == Ok::<StateRole, ErrorView>(StateRole::Parameter),
        field(payload, "is_param"@) == JsonView::Bool(false) ==> role_of(false, payload) == Ok::<StateRole, ErrorView>(StateRole::Buffer),
        !(field(payload, "is_param"@) is Bool) ==> role_of(false, payload) is Err,
{
}

/// What is told of state: whether it is a parameter, in which file its storage lies, what its tensor is,
/// and that it is not pickled.
pub proof fn state_is_told_with_its_storage(storages: Seq<StorageView>, state: StateView)
    ensures
        ({
            let told = payload_of(storages, state);
            &&& told is Object && told->Object_0.len() == 4
            &&& has_entry(told, 0, "is_param"@, JsonView::Bool(state.role is Parameter))
            &&& has_entry(told, 1, "path_name"@, JsonView::Text("tensor_"@ + decimal(state.storage as int)))
            &&& has_entry(
                told,
                2,
                "tensor_meta"@,
                tensor_meta(
                    storages[state.storage as int].dtype,
                    int_unions(state.shape),
                    state.requires_grad,
                    state.strides,
                    state.offset,
                ),
            )
            &&& has_entry(told, 3, "use_pickle"@, JsonView::Bool(false))
        }),
{
}

/// Constants are listed among the constants, and everything else among the weights.
pub proof fn state_is_listed_by_its_role(storages: Seq<StorageView>, state: Seq<StateView>, n: int, i: int, constant: bool)
    requires
        0 <= i < n <= state.len(),
        forall|j: int, k: int| 0 <= j < k < state.len() ==> (#[trigger] state[j]).name != (#[trigger] state[k]).name,
    ensures
        config_map(storages, state, true, n).dom().contains(state[i].name) <==> state[i].role is Constant,
        config_map(storages, state, false, n).dom().contains(state[i].name) <==> !(state[i].role is Constant),
        config_map(storages, state, constant, n).dom().contains(state[i].name) ==> config_map(storages, state, constant, n)[state[i].name]
            == payload_of(storages, state[i]),
    decreases n,
{
    if i < n - 1 {
        state_is_listed_by_its_role(storages, state, n - 1, i, constant);
        assert(state[i].name != state[n - 1].name);
    } else {
        unlisted_before(storages, state, n - 1, i, true);
        unlisted_before(storages, state, n - 1, i, false);
    }
}

proof fn unlisted_before(storages: Seq<StorageView>, state: Seq<StateView>, n: int, i: int, constant: bool)
    requires
        0 <= n <= i < state.len(),
        forall|j: int, k: int| 0 <= j < k < state.len() ==> (#[trigger] state[j]).name != (#[trigger] state[k]).name,
    ensures
        !config_map(storages, state, constant, n).dom().contains(state[i].name),
    decreases n,
{
    if n > 0 {
        unlisted_before(storages, state, n - 1, i, constant);
        assert(state[n - 1].name != state[i].name);
    }
}

/// The bytes of each storage lie in a file that is named by its number, beside the constants or beside the
/// weights.
pub proof fn storages_lie_in_their_files(storages: Seq<StorageView>, state: Seq<StateView>, n: int)
    requires
        0 < n <= state.len(),
    ensures
        ({
            let last = state[n - 1];
            let path = (if last.role is Constant {
                "data/constants/"@
            } else {
                "data/weights/"@
            }) + ("tensor_"@ + decimal(last.storage as int));
            &&& raw_members(storages, state, n).dom().contains(path)
            &&& raw_members(storages, state, n)[path] == storages[last.storage as int].bytes
        }),
        raw_members(storages, state, 0).dom() == Set::<Seq<char>>::empty(),
{
}

/// Each state entry has a placeholder with its number.
pub proof fn state_has_placeholders(state: Seq<StateView>, n: int, i: int)
    requires
        0 <= i < n <= state.len(),
        forall|j: int, k: int| 0 <= j < k < state.len() ==> (#[trigger] state[j]).name != (#[trigger] state[k]).name,
    ensures
        placeholders(state, n).dom().contains(state[i].name),
        placeholders(state, n)[state[i].name] == "state_"@ + decimal(i),
    decreases n,
{
    if i < n - 1 {
        state_has_placeholders(state, n - 1, i);
        assert(state[i].name != state[n - 1].name);
    }
}

/// A node is told by its target, its arguments and the tensor it gives, which has the name of the
/// operation.
pub proof fn nodes_are_told(operation: OperationView, map: Map<Seq<char>, Seq<char>>)
    ensures
        ({
            let node = node_union(operation, map);
            let names = Seq::new(
                operation.inputs.len(),
                |k: int|
                    if map.dom().contains(operation.inputs[k]) {
                        map[operation.inputs[k]]
                    } else {
                        operation.inputs[k]
                    },
            );
            let call = call_of(operation.operator, names);
            &&& node is Object && node->Object_0.len() == 6
            &&& has_entry(node, 0, "inputs"@, JsonView::List(call.1))
            &&& has_entry(node, 3, "name"@, JsonView::Text(operation.name))
            &&& has_entry(node, 4, "outputs"@, JsonView::List(seq![tensor_union(operation.name)]))
            &&& has_entry(node, 5, "target"@, JsonView::Text(call.0))
        }),
{
    let names = Seq::new(
        operation.inputs.len(),
        |k: int|
            if map.dom().contains(operation.inputs[k]) {
                map[operation.inputs[k]]
            } else {
                operation.inputs[k]
            },
    );
    assert(super::write::all_renamed(map, operation.inputs) =~= names);
}

/// A new symbol is numbered by how many there were, a symbol that was met before keeps its name, and a
/// symbol has one range throughout.
pub proof fn symbols_are_numbered(s: SymbolsView, name: Seq<char>, min: i64, max: Option<i64>)
    ensures
        !s.names.dom().contains(name) ==> s.symbol(name) == "s"@ + decimal(s.names.dom().len() as int),
        s.names.dom().contains(name) ==> s.symbol(name) == s.names[name],
        s.with_dimension(DimensionView::Known(min)) == Ok::<SymbolsView, ErrorView>(s),
        s.with_dimension(DimensionView::Symbol { name, min, max }) matches Ok(after) ==> {
            &&& after.names.dom().contains(name) && after.names[name] == s.symbol(name)
            &&& after.ranges.dom().contains(s.symbol(name)) && after.ranges[s.symbol(name)] == (min, max)
        },
        s.ranges.dom().contains(s.symbol(name)) && s.ranges[s.symbol(name)] != (min, max) ==> s.with_dimension(
            DimensionView::Symbol { name, min, max },
        ) is Err,
{
}

/// A program is told in schema 8.20 for version 2.13.0 and operator set 10, with its inputs, nodes, values
/// and outputs in its graph, the calling convention of its root, and what each input and output is.
pub proof fn programs_are_told(
    graph: GraphOut,
    outputs: Seq<Seq<char>>,
    ranges: Map<Seq<char>, (i64, Option<i64>)>,
    in_spec: Seq<char>,
    out_spec: Seq<char>,
)
    ensures
        ({
            let told = description(graph, outputs, ranges, in_spec, out_spec);
            let module = told->Object_0[0].1;
            let body = module->Object_0[0].1;
            let call = module->Object_0[2].1->List_0[0];
            let convention = call->Object_0[1].1;
            let signature = module->Object_0[3].1;
            &&& told is Object && told->Object_0.len() == 7
            &&& told->Object_0[0].0 == "graph_module"@ && module is Object && module->Object_0.len() == 5
            &&& has_entry(told, 1, "guards_code"@, JsonView::List(Seq::empty()))
            &&& told->Object_0[2].0 == "opset_version"@ && is_entry(told->Object_0[2].1, "aten"@, JsonView::Int(10))
            &&& told->Object_0[3].0 == "range_constraints"@
            &&& told->Object_0[4].0 == "schema_version"@ && has_entry(told->Object_0[4].1, 0, "major"@, JsonView::Int(8)) && has_entry(
                told->Object_0[4].1,
                1,
                "minor"@,
                JsonView::Int(20),
            )
            &&& has_entry(told, 5, "torch_version"@, JsonView::Text("2.13.0"@))
            &&& module->Object_0[0].0 == "graph"@
            &&& has_entry(body, 1, "inputs"@, JsonView::List(graph.inputs))
            &&& has_entry(body, 3, "nodes"@, JsonView::List(graph.nodes))
            &&& body->Object_0[4].0 == "outputs"@ && body->Object_0[4].1 is List && body->Object_0[4].1->List_0.len() == outputs.len()
            &&& forall|k: int| 0 <= k < outputs.len() ==> (#[trigger] body->Object_0[4].1->List_0[k]) == tensor_union(outputs[k])
            &&& body->Object_0[8].0 == "tensor_values"@
            &&& module->Object_0[2].0 == "module_call_graph"@
            &&& has_entry(call, 0, "fqn"@, JsonView::Text(""@))
            &&& call->Object_0[1].0 == "signature"@
            &&& has_entry(convention, 1, "in_spec"@, JsonView::Text(in_spec))
            &&& has_entry(convention, 3, "out_spec"@, JsonView::Text(out_spec))
            &&& module->Object_0[3].0 == "signature"@
            &&& has_entry(signature, 0, "input_specs"@, JsonView::List(graph.signature))
            &&& signature->Object_0[1].0 == "output_specs"@ && signature->Object_0[1].1->List_0.len() == outputs.len()
            &&& forall|k: int| 0 <= k < outputs.len() ==> (#[trigger] signature->Object_0[1].1->List_0[k]) == output_signature(outputs[k])
        }),
{
}

/// A document is read exactly if it tells schema 8.20, operator set 10 and a version that begins with
/// 2.13.0.
pub proof fn documents_are_read_by_version(ep: JsonView)
    ensures
        version_refusal(ep) is None ==> {
            &&& entry(field(ep, "schema_version"@), "major"@) == Some(JsonView::Int(8))
            &&& entry(field(ep, "schema_version"@), "minor"@) == Some(JsonView::Int(20))
            &&& entry(field(ep, "opset_version"@), "aten"@) == Some(JsonView::Int(10))
            &&& field(ep, "torch_version"@) is Text
            &&& crate::text::begins(field(ep, "torch_version"@)->Text_0, "2.13.0"@)
        },
        header_refusal(ep) is None ==> version_refusal(ep) is None && field(ep, "guards_code"@) == JsonView::List(Seq::empty()),
{
    if header_refusal(ep) is None {
        assert(field(ep, "guards_code"@)->List_0 =~= Seq::<JsonView>::empty());
    }
}

/// A model is exported exactly from the processor and without conditionals.
pub proof fn processor_models_are_exported(program: super::super::types::ProgramView, device: Device)
    ensures
        export_refusal(program, device) is None <==> device is Cpu && forall|i: int|
            0 <= i < program.operations.len() ==> !((#[trigger] program.operations[i]).operator is If),
{
}

/// A call takes positional and named arguments: a tree that is no such pair becomes the positional part of
/// one without named arguments.
pub proof fn calls_take_two_parts(tree: TreeView)
    ensures
        ({
            let call = call_tree(tree);
            &&& call is Tuple && call->Tuple_0.len() == 2
            &&& call == tree || (call->Tuple_0[0] == tree && call->Tuple_0[1] == TreeView::Dict(Seq::empty()))
            &&& !(tree is Tuple) ==> call->Tuple_0[0] == tree
        }),
{
}

/// Tuples, lists and dictionaries are told by the names of their types, and are read back by them.
pub proof fn containers_are_told_by_type(v: JsonView, items: Seq<TreeView>, context: JsonView)
    ensures
        describes(v, TreeView::Tuple(items)) ==> v is Object && has_entry(v, 2, "type"@, JsonView::Text("builtins.tuple"@)),
        describes(v, TreeView::List(items)) ==> v is Object && has_entry(v, 2, "type"@, JsonView::Text("builtins.list"@)),
        container_of("builtins.tuple"@, context, items) == Ok::<TreeView, ErrorView>(TreeView::Tuple(items)),
        container_of("builtins.list"@, context, items) == Ok::<TreeView, ErrorView>(TreeView::List(items)),
        container_of("builtins.dict"@, context, items) matches Ok(tree) ==> tree is Dict && tree->Dict_0.len() == items.len() && forall|
            k: int,
        |
            0 <= k < items.len() ==> (#[trigger] tree->Dict_0[k]).1 == items[k],
{
    reveal_strlit("builtins.tuple");
    reveal_strlit("builtins.list");
    reveal_strlit("builtins.dict");
    assert("builtins.tuple"@.len() == 14);
    assert("builtins.list"@.len() == 13 && "builtins.list"@[9] == 'l');
    assert("builtins.dict"@.len() == 13 && "builtins.dict"@[9] == 'd');
}

/// The files of a package, by path.
pub proof fn packages_hold_their_files(storages: Map<Seq<char>, Seq<u8>>, model: Seq<u8>, weights: Seq<u8>, constants: Seq<u8>)
    ensures
        ({
            let files = packaged(storages, model, weights, constants);
            &&& files.dom().contains("models/model.json"@) && files["models/model.json"@] == model
            &&& files.dom().contains("data/weights/model_weights_config.json"@) && files["data/weights/model_weights_config.json"@] == weights
            &&& files.dom().contains("data/constants/model_constants_config.json"@)
                && files["data/constants/model_constants_config.json"@] == constants
            &&& files["archive_format"@] == seq![0x70u8, 0x74u8, 0x32u8]
            &&& files["archive_version"@] == seq![0x30u8]
            &&& files["byteorder"@] == seq![0x6cu8, 0x69u8, 0x74u8, 0x74u8, 0x6cu8, 0x65u8]
        }),
{
    reveal_strlit("models/model.json");
    reveal_strlit("data/weights/model_weights_config.json");
    reveal_strlit("data/constants/model_constants_config.json");
    reveal_strlit("archive_format");
    reveal_strlit("archive_version");
    reveal_strlit("byteorder");
    reveal_strlit(".data/version");
    reveal_strlit(".data/serialization_id");
    reveal_strlit("data/sample_inputs/model.pt");
    assert("models/model.json"@.len() == 17);
    assert("data/weights/model_weights_config.json"@.len() == 38);
    assert("data/constants/model_constants_config.json"@.len() == 42);
    assert("archive_format"@.len() == 14);
    assert("archive_version"@.len() == 15);
    assert("byteorder"@.len() == 9);
    assert(".data/version"@.len() == 13);
    assert(".data/serialization_id"@.len() == 22);
    assert("data/sample_inputs/model.pt"@.len() == 27);
}

} // verus!
