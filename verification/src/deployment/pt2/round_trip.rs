//! A description that was written is read back.
use super::super::artifact::{ArtifactView, StateView, StorageView};
use super::super::tree::MAX_NODES;
use super::super::types::{DType, DimensionView, OperationView, StateRole, ValueSpecView};
use super::json::{
    as_dtype, as_fixed, as_fixed_list, as_string, as_tensor_name, entry, field, fixed_items, lookup, scalar_code_of,
    scalar_codes_survive, JsonView,
};
use super::laws::{fits, operators_survive};
use super::load::{
    body_of, graph_of, header_refusal, operation_of, operations_of, output_checks, outputs_of, signature_of, table_refusal,
    tensor_names, version_refusal, BodyView, SignatureView,
};
use super::operator::renamed;
use super::save::{
    bound_union, description, graph_out, input_signature, is_placeholder, output_signature, placeholder, placeholders, range_union,
    range_unions, sample_meta, state_meta, state_signature, GraphOut, GraphStep, Samples, SymbolsView,
};
use super::state::StatesView;
use super::values::{bound_of, dimension_items, dimension_of, is_symbol_char, layout_refusal, symbol_inside, symbol_of};
use super::write::{
    all_renamed, call_of, cpu_device, int_union, int_unions, larger, node_union, object_of, object_of_map, size_union,
    size_unions, symbol_text, tensor_meta, tensor_union,
};
use crate::error::{first_at_none, ErrorView};
use crate::names::{ascending_is_distinct, listing_exists, listing_of};
use crate::text::{decimal, digit, digits, digits_are_distinct};
use vstd::prelude::*;

verus! {

/// An entry of an object is found under its name, which no earlier entry has.
pub(super) proof fn found(keys: Seq<Seq<char>>, values: Seq<JsonView>, i: int, from: int)
    requires
        0 <= from <= i < keys.len(),
        forall|j: int| from <= j < i ==> #[trigger] keys[j] != keys[i],
    ensures
        lookup(object_of(keys, values)->Object_0, keys[i], from) == Some(values[i]),
        from == 0 ==> entry(object_of(keys, values), keys[i]) == Some(values[i]),
        from == 0 ==> field(object_of(keys, values), keys[i]) == values[i],
    decreases i - from,
{
    let entries = object_of(keys, values)->Object_0;
    assert(entries.len() == keys.len());
    assert(entries[from] == (keys[from], values[from]));
    if from < i {
        found(keys, values, i, from + 1);
    }
}

/// A name that no entry has is not found.
proof fn missing(keys: Seq<Seq<char>>, values: Seq<JsonView>, key: Seq<char>, from: int)
    requires
        0 <= from <= keys.len(),
        forall|j: int| 0 <= j < keys.len() ==> #[trigger] keys[j] != key,
    ensures
        lookup(object_of(keys, values)->Object_0, key, from) is None,
        from == 0 ==> entry(object_of(keys, values), key) is None,
    decreases keys.len() - from,
{
    let entries = object_of(keys, values)->Object_0;
    assert(entries.len() == keys.len());
    if from < keys.len() {
        assert(entries[from] == (keys[from], values[from]));
        missing(keys, values, key, from + 1);
    }
}

/// An object with the entries of a map has the value of each name.
proof fn mapped(map: Map<Seq<char>, JsonView>, key: Seq<char>)
    requires
        map.dom().finite(),
        map.dom().contains(key),
    ensures
        field(object_of_map(map), key) == map[key],
{
    listing_exists(map.dom());
    let keys = listing_of(map);
    ascending_is_distinct(keys);
    assert(keys.contains(key));
    let i = keys.index_of(key);
    found(keys, keys.map_values(|name: Seq<char>| map[name]), i, 0);
}

pub(super) proof fn only(key: Seq<char>, value: JsonView)
    ensures
        entry(object_of(seq![key], seq![value]), key) == Some(value),
        field(object_of(seq![key], seq![value]), key) == value,
        object_of(seq![key], seq![value])->Object_0.len() == 1,
{
    found(seq![key], seq![value], 0, 0);
    assert(seq![key][0] == key);
}

/// A tensor argument names its tensor.
proof fn tensor_is_named(name: Seq<char>)
    ensures
        as_tensor_name(tensor_union(name)) == Ok::<Seq<char>, ErrorView>(name),
{
    only("name"@, JsonView::Text(name));
    only("as_tensor"@, object_of(seq!["name"@], seq![JsonView::Text(name)]));
}

proof fn size_is_fixed(n: i64)
    ensures
        as_fixed(int_union(n)) == Ok::<i64, ErrorView>(n),
        entry(int_union(n), "as_int"@) is Some,
{
    only("as_int"@, JsonView::Int(n));
}

proof fn sizes_are_fixed(list: Seq<i64>, n: int)
    requires
        0 <= n <= list.len(),
    ensures
        fixed_items(list.map_values(|v: i64| int_union(v)), n) == Ok::<Seq<i64>, ErrorView>(list.take(n)),
    decreases n,
{
    if n > 0 {
        sizes_are_fixed(list, n - 1);
        size_is_fixed(list[n - 1]);
        assert(list.take(n) =~= list.take(n - 1).push(list[n - 1]));
    } else {
        assert(list.take(0) =~= Seq::empty());
    }
}

/// A list of sizes is read back.
pub(super) proof fn size_list_survives(list: Seq<i64>)
    ensures
        as_fixed_list(int_unions(list)) == Ok::<Seq<i64>, ErrorView>(list),
{
    sizes_are_fixed(list, list.len() as int);
    assert(list.take(list.len() as int) =~= list);
}

/// The metadata of a tensor is read back.
pub proof fn metadata_survives(dtype: DType, sizes: JsonView, requires_grad: bool, strides: Seq<i64>, offset: i64)
    ensures
        ({
            let meta = tensor_meta(dtype, sizes, requires_grad, strides, offset);
            &&& layout_refusal(meta) is None
            &&& as_dtype(field(meta, "dtype"@)) == Ok::<DType, ErrorView>(dtype)
            &&& field(meta, "requires_grad"@) == JsonView::Bool(requires_grad)
            &&& field(meta, "sizes"@) == sizes
            &&& as_fixed(field(meta, "storage_offset"@)) == Ok::<i64, ErrorView>(offset)
            &&& as_fixed_list(field(meta, "strides"@)) == Ok::<Seq<i64>, ErrorView>(strides)
        }),
{
    reveal_strlit("device");
    reveal_strlit("dtype");
    reveal_strlit("layout");
    reveal_strlit("requires_grad");
    reveal_strlit("sizes");
    reveal_strlit("storage_offset");
    reveal_strlit("strides");
    reveal_strlit("index");
    reveal_strlit("type");
    assert("device"@.len() == 6 && "dtype"@.len() == 5 && "layout"@.len() == 6 && "requires_grad"@.len() == 13);
    assert("sizes"@.len() == 5 && "storage_offset"@.len() == 14 && "strides"@.len() == 7);
    assert("index"@.len() == 5 && "type"@.len() == 4);
    assert("device"@[0] == 'd' && "layout"@[0] == 'l' && "dtype"@[0] == 'd' && "sizes"@[0] == 's');
    let keys = seq!["device"@, "dtype"@, "layout"@, "requires_grad"@, "sizes"@, "storage_offset"@, "strides"@];
    let values = seq![
        cpu_device(),
        JsonView::Int(scalar_code_of(dtype)),
        JsonView::Int(7),
        JsonView::Bool(requires_grad),
        sizes,
        int_union(offset),
        int_unions(strides),
    ];
    found(keys, values, 0, 0);
    found(keys, values, 1, 0);
    found(keys, values, 2, 0);
    found(keys, values, 3, 0);
    found(keys, values, 4, 0);
    found(keys, values, 5, 0);
    found(keys, values, 6, 0);
    found(seq!["index"@, "type"@], seq![JsonView::Null, JsonView::Text("cpu"@)], 1, 0);
    scalar_codes_survive(dtype);
    size_is_fixed(offset);
    size_list_survives(strides);
}

proof fn digits_are_plain(value: nat)
    ensures
        digits(value).len() > 0,
        forall|i: int| 0 <= i < digits(value).len() ==> '0' <= #[trigger] digits(value)[i] && digits(value)[i] <= '9',
    decreases value,
{
    if value >= 10 {
        digits_are_plain(value / 10);
        let rest = digits(value / 10);
        assert forall|i: int| 0 <= i < digits(value).len() implies '0' <= #[trigger] digits(value)[i] && digits(value)[i]
            <= '9' by {
            if i < rest.len() {
                assert(digits(value)[i] == rest[i]);
            } else {
                assert(digits(value)[i] == digit(value % 10));
            }
        }
    }
}

/// A name made of the characters that symbols have.
spec fn is_plain(name: Seq<char>) -> bool {
    name.len() > 0 && forall|i: int| 0 <= i < name.len() ==> is_symbol_char(#[trigger] name[i])
}

/// The text of a symbol holds its name.
proof fn symbol_survives(name: Seq<char>)
    ensures
        symbol_inside(symbol_text(name)) == Some(name),
{
    let prefix = "Symbol('"@;
    let positive = "', positive=True, integer=True)"@;
    let text = symbol_text(name);
    assert(text.take(prefix.len() as int) =~= prefix);
    let rest = text.skip(prefix.len() as int);
    assert(rest =~= name + positive);
    assert(rest.skip(rest.len() - positive.len()) =~= positive);
    assert(rest.take(rest.len() - positive.len()) =~= name);
}

/// A dimension under the new name of its symbol.
pub open spec fn resymboled(dimension: DimensionView, symbols: Map<Seq<char>, Seq<char>>) -> DimensionView {
    match dimension {
        DimensionView::Known(n) => DimensionView::Known(n),
        DimensionView::Symbol { name, min, max } => DimensionView::Symbol { name: renamed(symbols, name), min, max },
    }
}

/// A symbol of a dimension has a new name of its own kind, and its bounds are kept.
spec fn is_covered(symbols: SymbolsView, dimension: DimensionView) -> bool {
    match dimension {
        DimensionView::Known(_) => true,
        DimensionView::Symbol { name, min, max } => {
            &&& symbols.names.dom().contains(name)
            &&& symbols.ranges.dom().contains(symbols.names[name])
            &&& symbols.ranges[symbols.names[name]] == (min, max)
        },
    }
}

/// Every new name is made of the characters that symbols have.
spec fn are_plain(symbols: SymbolsView) -> bool {
    &&& symbols.names.dom().finite()
    &&& symbols.ranges.dom().finite()
    &&& forall|name: Seq<char>| #[trigger] symbols.names.dom().contains(name) ==> is_plain(symbols.names[name])
}

/// Names and bounds that are kept.
spec fn is_kept(before: SymbolsView, after: SymbolsView) -> bool {
    &&& forall|name: Seq<char>| #[trigger]
        before.names.dom().contains(name) ==> after.names.dom().contains(name) && after.names[name] == before.names[name]
    &&& forall|name: Seq<char>| #[trigger]
        before.ranges.dom().contains(name) ==> after.ranges.dom().contains(name) && after.ranges[name] == before.ranges[name]
}

proof fn dimension_is_covered(symbols: SymbolsView, dimension: DimensionView)
    requires
        are_plain(symbols),
        symbols.with_dimension(dimension) is Ok,
    ensures
        are_plain(symbols.with_dimension(dimension)->Ok_0),
        is_kept(symbols, symbols.with_dimension(dimension)->Ok_0),
        is_covered(symbols.with_dimension(dimension)->Ok_0, dimension),
{
    if let DimensionView::Symbol { name, min, max } = dimension {
        let n = symbols.names.dom().len();
        let new = "s"@ + decimal(n as int);
        digits_are_plain(n);
        reveal_strlit("s");
        assert("s"@[0] == 's');
        assert forall|i: int| 0 <= i < new.len() implies is_symbol_char(#[trigger] new[i]) by {
            if i > 0 {
                assert(new[i] == digits(n)[i - 1]);
            }
        }
        assert(is_plain(new));
    }
}

proof fn dimensions_are_covered(symbols: SymbolsView, dimensions: Seq<DimensionView>, n: int)
    requires
        are_plain(symbols),
        0 <= n <= dimensions.len(),
        symbols.with_dimensions(dimensions, n) is Ok,
    ensures
        are_plain(symbols.with_dimensions(dimensions, n)->Ok_0),
        is_kept(symbols, symbols.with_dimensions(dimensions, n)->Ok_0),
        forall|i: int| 0 <= i < n ==> is_covered(symbols.with_dimensions(dimensions, n)->Ok_0, #[trigger] dimensions[i]),
    decreases n,
{
    if n > 0 {
        dimensions_are_covered(symbols, dimensions, n - 1);
        dimension_is_covered(symbols.with_dimensions(dimensions, n - 1)->Ok_0, dimensions[n - 1]);
    }
}

proof fn inputs_are_covered(symbols: SymbolsView, inputs: Seq<ValueSpecView>, n: int)
    requires
        are_plain(symbols),
        0 <= n <= inputs.len(),
        symbols.with_inputs(inputs, n) is Ok,
    ensures
        are_plain(symbols.with_inputs(inputs, n)->Ok_0),
        is_kept(symbols, symbols.with_inputs(inputs, n)->Ok_0),
        forall|i: int, j: int|
            0 <= i < n && 0 <= j < inputs[i].dimensions.len() ==> is_covered(
                symbols.with_inputs(inputs, n)->Ok_0,
                #[trigger] inputs[i].dimensions[j],
            ),
    decreases n,
{
    if n > 0 {
        inputs_are_covered(symbols, inputs, n - 1);
        let before = symbols.with_inputs(inputs, n - 1)->Ok_0;
        dimensions_are_covered(before, inputs[n - 1].dimensions, inputs[n - 1].dimensions.len() as int);
    }
}

/// A size that was written is the dimension that was meant, under the new name of its symbol.
proof fn dimension_survives(symbols: SymbolsView, dimension: DimensionView)
    requires
        are_plain(symbols),
        is_covered(symbols, dimension),
    ensures
        dimension_of(size_union(dimension, symbols.names), range_unions(symbols.ranges)) == Ok::<DimensionView, ErrorView>(
            resymboled(dimension, symbols.names),
        ),
{
    match dimension {
        DimensionView::Known(n) => {
            size_is_fixed(n);
        },
        DimensionView::Symbol { name, min, max } => {
            reveal_strlit("as_int");
            reveal_strlit("as_expr");
            reveal_strlit("expr_str");
            reveal_strlit("hint");
            reveal_strlit("min_val");
            reveal_strlit("max_val");
            assert("as_int"@.len() == 6 && "as_expr"@.len() == 7 && "expr_str"@.len() == 8 && "hint"@.len() == 4);
            assert("min_val"@[1] == 'i' && "max_val"@[1] == 'a');
            let new = symbols.names[name];
            let keys = seq!["expr_str"@, "hint"@];
            let values = seq![JsonView::Text(symbol_text(new)), int_union(larger(min, 2))];
            let inner = object_of(keys, values);
            only("as_expr"@, inner);
            missing(seq!["as_expr"@], seq![inner], "as_int"@, 0);
            found(keys, values, 0, 0);
            symbol_survives(new);
            assert(is_plain(new));
            let sized = size_union(dimension, symbols.names);
            assert(symbol_of(sized) == Ok::<Seq<char>, ErrorView>(new));
            let ranges = symbols.ranges.map_values(|r: (i64, Option<i64>)| range_union(r));
            assert(ranges.dom() =~= symbols.ranges.dom());
            mapped(ranges, new);
            let bounds = seq!["max_val"@, "min_val"@];
            let limits = seq![bound_union(max), JsonView::Int(min)];
            found(bounds, limits, 0, 0);
            found(bounds, limits, 1, 0);
            let range = field(range_unions(symbols.ranges), new);
            assert(range == range_union((min, max)));
            assert(bound_of(range, "min_val"@) == Ok::<Option<i64>, ErrorView>(Some(min)));
            assert(bound_of(range, "max_val"@) == Ok::<Option<i64>, ErrorView>(max));
        },
    }
}

proof fn dimensions_survive(symbols: SymbolsView, dimensions: Seq<DimensionView>, n: int)
    requires
        are_plain(symbols),
        0 <= n <= dimensions.len(),
        forall|i: int| 0 <= i < n ==> is_covered(symbols, #[trigger] dimensions[i]),
    ensures
        dimension_items(
            dimensions.map_values(|d: DimensionView| size_union(d, symbols.names)),
            range_unions(symbols.ranges),
            n,
        ) == Ok::<Seq<DimensionView>, ErrorView>(
            dimensions.map_values(|d: DimensionView| resymboled(d, symbols.names)).take(n),
        ),
    decreases n,
{
    let new = dimensions.map_values(|d: DimensionView| resymboled(d, symbols.names));
    if n > 0 {
        dimensions_survive(symbols, dimensions, n - 1);
        assert(is_covered(symbols, dimensions[n - 1]));
        dimension_survives(symbols, dimensions[n - 1]);
        assert(new.take(n) =~= new.take(n - 1).push(new[n - 1]));
    } else {
        assert(new.take(0) =~= Seq::empty());
    }
}

proof fn node_names()
    ensures
        "inputs"@.len() == 6,
        "inputs"@[0] == 'i',
        "is_hop_single_tensor_return"@.len() == 27,
        "metadata"@.len() == 8,
        "name"@.len() == 4,
        "outputs"@.len() == 7,
        "target"@.len() == 6,
        "target"@[0] == 't',
{
    reveal_strlit("inputs");
    reveal_strlit("is_hop_single_tensor_return");
    reveal_strlit("metadata");
    reveal_strlit("name");
    reveal_strlit("outputs");
    reveal_strlit("target");
}

/// A name goes by another and is led back.
pub open spec fn leads_back(to: Map<Seq<char>, Seq<char>>, from: Map<Seq<char>, Seq<char>>, name: Seq<char>) -> bool {
    renamed(from, renamed(to, name)) == name
}

proof fn names_return(to: Map<Seq<char>, Seq<char>>, from: Map<Seq<char>, Seq<char>>, names: Seq<Seq<char>>)
    requires
        forall|i: int| 0 <= i < names.len() ==> leads_back(to, from, #[trigger] names[i]),
    ensures
        all_renamed(from, all_renamed(to, names)) == names,
{
    assert(all_renamed(from, all_renamed(to, names)) =~= names) by {
        assert forall|i: int| 0 <= i < names.len() implies #[trigger] all_renamed(from, all_renamed(to, names))[i] == names[i] by {
            assert(leads_back(to, from, names[i]));
        }
    }
}

/// An operation that was written as a node is read back, where the names of its operands are
/// led back and its own name stands for itself.
pub proof fn operation_survives(
    operation: OperationView,
    to: Map<Seq<char>, Seq<char>>,
    from: Map<Seq<char>, Seq<char>>,
)
    requires
        fits(operation.operator, operation.inputs.len()),
        renamed(from, operation.name) == operation.name,
        forall|i: int| 0 <= i < operation.inputs.len() ==> leads_back(to, from, #[trigger] operation.inputs[i]),
    ensures
        operation_of(node_union(operation, to), from) == Ok::<OperationView, ErrorView>(operation),
{
    node_names();
    let names = all_renamed(to, operation.inputs);
    let (target, arguments) = call_of(operation.operator, names);
    let keys = seq!["inputs"@, "is_hop_single_tensor_return"@, "metadata"@, "name"@, "outputs"@, "target"@];
    let values = seq![
        JsonView::List(arguments),
        JsonView::Null,
        object_of(Seq::empty(), Seq::empty()),
        JsonView::Text(operation.name),
        JsonView::List(seq![tensor_union(operation.name)]),
        JsonView::Text(target),
    ];
    found(keys, values, 0, 0);
    found(keys, values, 4, 0);
    found(keys, values, 5, 0);
    tensor_is_named(operation.name);
    operators_survive(operation.operator, names, from);
    names_return(to, from, operation.inputs);
}

proof fn operations_survive(
    operations: Seq<OperationView>,
    nodes: Seq<JsonView>,
    to: Map<Seq<char>, Seq<char>>,
    from: Map<Seq<char>, Seq<char>>,
    n: int,
)
    requires
        0 <= n <= operations.len(),
        nodes.len() == operations.len(),
        forall|k: int| 0 <= k < n ==> #[trigger] nodes[k] == node_union(operations[k], to),
        forall|k: int| 0 <= k < n ==> fits((#[trigger] operations[k]).operator, operations[k].inputs.len()),
        forall|k: int| 0 <= k < n ==> renamed(from, (#[trigger] operations[k]).name) == operations[k].name,
        forall|k: int, i: int|
            0 <= k < n && 0 <= i < operations[k].inputs.len() ==> leads_back(to, from, #[trigger] operations[k].inputs[i]),
    ensures
        operations_of(nodes, from, n) == Ok::<Seq<OperationView>, ErrorView>(operations.take(n)),
    decreases n,
{
    if n > 0 {
        operations_survive(operations, nodes, to, from, n - 1);
        assert(nodes[n - 1] == node_union(operations[n - 1], to));
        operation_survives(operations[n - 1], to, from);
        assert(operations.take(n) =~= operations.take(n - 1).push(operations[n - 1]));
    } else {
        assert(operations.take(0) =~= Seq::empty());
    }
}

/// The call that a written description holds.
pub open spec fn root_of(in_spec: Seq<char>, out_spec: Seq<char>) -> JsonView {
    object_of(
        seq!["fqn"@, "signature"@],
        seq![
            JsonView::Text(""@),
            object_of(
                seq!["forward_arg_names"@, "in_spec"@, "inputs"@, "out_spec"@, "outputs"@],
                seq![
                    JsonView::Null,
                    JsonView::Text(in_spec),
                    JsonView::List(Seq::empty()),
                    JsonView::Text(out_spec),
                    JsonView::List(Seq::empty()),
                ],
            ),
        ],
    )
}

proof fn graph_parts(graph: GraphOut, outputs: Seq<Seq<char>>, ranges: Map<Seq<char>, (i64, Option<i64>)>)
    ensures
        ({
            let part = graph_part(graph, outputs);
            &&& field(part, "inputs"@) == JsonView::List(graph.inputs)
            &&& field(part, "nodes"@) == JsonView::List(graph.nodes)
            &&& field(part, "outputs"@) == JsonView::List(outputs.map_values(|n: Seq<char>| tensor_union(n)))
            &&& field(part, "tensor_values"@) == object_of_map(graph.values)
            &&& table_refusal(part, "custom_obj_values"@) is None
            &&& table_refusal(part, "sym_bool_values"@) is None
            &&& table_refusal(part, "sym_float_values"@) is None
            &&& table_refusal(part, "sym_int_values"@) is None
        }),
{
    reveal_strlit("custom_obj_values");
    reveal_strlit("inputs");
    reveal_strlit("is_single_tensor_return");
    reveal_strlit("nodes");
    reveal_strlit("outputs");
    reveal_strlit("sym_bool_values");
    reveal_strlit("sym_float_values");
    reveal_strlit("sym_int_values");
    reveal_strlit("tensor_values");
    assert("custom_obj_values"@.len() == 17 && "inputs"@.len() == 6 && "is_single_tensor_return"@.len() == 23);
    assert("nodes"@.len() == 5 && "outputs"@.len() == 7 && "sym_bool_values"@.len() == 15);
    assert("sym_float_values"@.len() == 16 && "sym_int_values"@.len() == 14 && "tensor_values"@.len() == 13);
    let empty = object_of(Seq::empty(), Seq::empty());
    assert(empty->Object_0.len() == 0);
    let keys = seq![
        "custom_obj_values"@,
        "inputs"@,
        "is_single_tensor_return"@,
        "nodes"@,
        "outputs"@,
        "sym_bool_values"@,
        "sym_float_values"@,
        "sym_int_values"@,
        "tensor_values"@,
    ];
    let values = seq![
        empty,
        JsonView::List(graph.inputs),
        JsonView::Bool(false),
        JsonView::List(graph.nodes),
        JsonView::List(outputs.map_values(|n: Seq<char>| tensor_union(n))),
        empty,
        empty,
        empty,
        object_of_map(graph.values),
    ];
    found(keys, values, 0, 0);
    found(keys, values, 1, 0);
    found(keys, values, 3, 0);
    found(keys, values, 4, 0);
    found(keys, values, 5, 0);
    found(keys, values, 6, 0);
    found(keys, values, 7, 0);
    found(keys, values, 8, 0);
}

/// The graph of a written description.
spec fn graph_part(graph: GraphOut, outputs: Seq<Seq<char>>) -> JsonView {
    let empty = object_of(Seq::empty(), Seq::empty());
    object_of(
        seq![
            "custom_obj_values"@,
            "inputs"@,
            "is_single_tensor_return"@,
            "nodes"@,
            "outputs"@,
            "sym_bool_values"@,
            "sym_float_values"@,
            "sym_int_values"@,
            "tensor_values"@,
        ],
        seq![
            empty,
            JsonView::List(graph.inputs),
            JsonView::Bool(false),
            JsonView::List(graph.nodes),
            JsonView::List(outputs.map_values(|n: Seq<char>| tensor_union(n))),
            empty,
            empty,
            empty,
            object_of_map(graph.values),
        ],
    )
}

/// The signature of a written description.
spec fn signature_part(graph: GraphOut, outputs: Seq<Seq<char>>) -> JsonView {
    object_of(
        seq!["input_specs"@, "output_specs"@],
        seq![
            JsonView::List(graph.signature),
            JsonView::List(outputs.map_values(|n: Seq<char>| output_signature(n))),
        ],
    )
}

/// What a written description holds.
proof fn description_parts(
    graph: GraphOut,
    outputs: Seq<Seq<char>>,
    ranges: Map<Seq<char>, (i64, Option<i64>)>,
    in_spec: Seq<char>,
    out_spec: Seq<char>,
)
    ensures
        ({
            let ep = description(graph, outputs, ranges, in_spec, out_spec);
            &&& graph_of(ep) == graph_part(graph, outputs)
            &&& field(field(ep, "graph_module"@), "signature"@) == signature_part(graph, outputs)
            &&& field(field(ep, "graph_module"@), "module_call_graph"@) == JsonView::List(seq![root_of(in_spec, out_spec)])
            &&& field(ep, "range_constraints"@) == range_unions(ranges)
            &&& field(ep, "guards_code"@) == JsonView::List(Seq::empty())
            &&& version_refusal(ep) is None
        }),
{
    reveal_strlit("graph_module");
    reveal_strlit("guards_code");
    reveal_strlit("opset_version");
    reveal_strlit("range_constraints");
    reveal_strlit("schema_version");
    reveal_strlit("torch_version");
    reveal_strlit("verifiers");
    reveal_strlit("graph");
    reveal_strlit("metadata");
    reveal_strlit("module_call_graph");
    reveal_strlit("signature");
    reveal_strlit("treespec_namedtuple_fields");
    reveal_strlit("major");
    reveal_strlit("minor");
    reveal_strlit("2.13.0");
    assert("graph_module"@.len() == 12 && "guards_code"@.len() == 11 && "opset_version"@.len() == 13);
    assert("range_constraints"@.len() == 17 && "schema_version"@.len() == 14 && "torch_version"@.len() == 13);
    assert("opset_version"@[0] == 'o' && "torch_version"@[0] == 't');
    assert("graph"@.len() == 5 && "metadata"@.len() == 8 && "module_call_graph"@.len() == 17 && "signature"@.len() == 9);
    assert("major"@[1] == 'a' && "minor"@[1] == 'i');
    let empty = object_of(Seq::empty(), Seq::empty());
    let none = JsonView::List(Seq::empty());
    let inner_keys = seq!["graph"@, "metadata"@, "module_call_graph"@, "signature"@, "treespec_namedtuple_fields"@];
    let inner = seq![
        graph_part(graph, outputs),
        empty,
        JsonView::List(seq![root_of(in_spec, out_spec)]),
        signature_part(graph, outputs),
        empty,
    ];
    let keys = seq![
        "graph_module"@,
        "guards_code"@,
        "opset_version"@,
        "range_constraints"@,
        "schema_version"@,
        "torch_version"@,
        "verifiers"@,
    ];
    let schema = seq!["major"@, "minor"@];
    let numbers = seq![JsonView::Int(8), JsonView::Int(20)];
    let values = seq![
        object_of(inner_keys, inner),
        none,
        object_of(seq!["aten"@], seq![JsonView::Int(10)]),
        range_unions(ranges),
        object_of(schema, numbers),
        JsonView::Text("2.13.0"@),
        JsonView::List(seq![JsonView::Text("TRAINING"@)]),
    ];
    let ep = description(graph, outputs, ranges, in_spec, out_spec);
    assert(ep == object_of(keys, values));
    found(keys, values, 0, 0);
    found(keys, values, 1, 0);
    found(keys, values, 2, 0);
    found(keys, values, 3, 0);
    found(keys, values, 4, 0);
    found(keys, values, 5, 0);
    found(inner_keys, inner, 0, 0);
    found(inner_keys, inner, 2, 0);
    found(inner_keys, inner, 3, 0);
    only("aten"@, JsonView::Int(10));
    found(schema, numbers, 0, 0);
    found(schema, numbers, 1, 0);
    assert("2.13.0"@.take("2.13.0"@.len() as int) =~= "2.13.0"@);
}

/// A description that was written is not refused before its state is read.
pub proof fn written_header_is_accepted(
    graph: GraphOut,
    outputs: Seq<Seq<char>>,
    ranges: Map<Seq<char>, (i64, Option<i64>)>,
    in_spec: Seq<char>,
    out_spec: Seq<char>,
)
    ensures
        header_refusal(description(graph, outputs, ranges, in_spec, out_spec)) is None,
{
    description_parts(graph, outputs, ranges, in_spec, out_spec);
    graph_parts(graph, outputs, ranges);
}

proof fn outputs_survive(
    outputs: Seq<Seq<char>>,
    to: Map<Seq<char>, Seq<char>>,
    from: Map<Seq<char>, Seq<char>>,
    n: int,
)
    requires
        0 <= n <= outputs.len(),
        forall|i: int| 0 <= i < n ==> leads_back(to, from, #[trigger] outputs[i]),
    ensures
        tensor_names(all_renamed(to, outputs).map_values(|name: Seq<char>| tensor_union(name)), from, n) == Ok::<
            Seq<Seq<char>>,
            ErrorView,
        >(outputs.take(n)),
    decreases n,
{
    if n > 0 {
        outputs_survive(outputs, to, from, n - 1);
        assert(leads_back(to, from, outputs[n - 1]));
        tensor_is_named(renamed(to, outputs[n - 1]));
        assert(outputs.take(n) =~= outputs.take(n - 1).push(outputs[n - 1]));
    } else {
        assert(outputs.take(0) =~= Seq::empty());
    }
}

/// The outputs that were written are read back, where their names are led back.
proof fn signed_outputs_survive(
    graph: GraphOut,
    outputs: Seq<Seq<char>>,
    to: Map<Seq<char>, Seq<char>>,
    from: Map<Seq<char>, Seq<char>>,
    ranges: Map<Seq<char>, (i64, Option<i64>)>,
    in_spec: Seq<char>,
    out_spec: Seq<char>,
)
    requires
        forall|i: int| 0 <= i < outputs.len() ==> leads_back(to, from, #[trigger] outputs[i]),
    ensures
        outputs_of(description(graph, all_renamed(to, outputs), ranges, in_spec, out_spec), from) == Ok::<
            Seq<Seq<char>>,
            ErrorView,
        >(outputs),
{
    let written = all_renamed(to, outputs);
    let ep = description(graph, written, ranges, in_spec, out_spec);
    description_parts(graph, written, ranges, in_spec, out_spec);
    graph_parts(graph, written, ranges);
    outputs_survive(outputs, to, from, outputs.len() as int);
    assert(outputs.take(outputs.len() as int) =~= outputs);
    reveal_strlit("input_specs");
    reveal_strlit("output_specs");
    assert("input_specs"@.len() == 11 && "output_specs"@.len() == 12);
    let specs = written.map_values(|n: Seq<char>| output_signature(n));
    found(
        seq!["input_specs"@, "output_specs"@],
        seq![JsonView::List(graph.signature), JsonView::List(specs)],
        1,
        0,
    );
    let checks = output_checks(specs, outputs, from);
    assert forall|i: int| 0 <= i < outputs.len() implies (#[trigger] checks(i)) is None by {
        let name = written[i];
        only("arg"@, tensor_union(name));
        only("user_output"@, object_of(seq!["arg"@], seq![tensor_union(name)]));
        tensor_is_named(name);
        assert(leads_back(to, from, outputs[i]));
        assert(specs[i] == output_signature(name));
    }
    first_at_none(0, outputs.len() as int, checks);
}

/// Different state tensors have different placeholders.
proof fn placeholders_differ(i: int, j: int)
    requires
        0 <= i,
        0 <= j,
        placeholder(i) == placeholder(j),
    ensures
        i == j,
{
    let prefix = "state_"@;
    assert(placeholder(i).skip(prefix.len() as int) =~= decimal(i));
    assert(placeholder(j).skip(prefix.len() as int) =~= decimal(j));
    digits_are_distinct(i as nat, j as nat);
}

/// The state tensors that the placeholders stand for.
pub open spec fn replaced(state: Seq<StateView>, n: int) -> Map<Seq<char>, Seq<char>>
    decreases n,
{
    if n <= 0 {
        Map::empty()
    } else {
        replaced(state, n - 1).insert(placeholder(n - 1), state[n - 1].name)
    }
}

/// The state tensors have different names.
pub open spec fn are_named_apart(state: Seq<StateView>) -> bool {
    forall|i: int, j: int| 0 <= i < j < state.len() ==> (#[trigger] state[i]).name != (#[trigger] state[j]).name
}

proof fn replaced_holds(state: Seq<StateView>, n: int)
    requires
        0 <= n <= state.len(),
    ensures
        forall|i: int|
            0 <= i < n ==> replaced(state, n).dom().contains(#[trigger] placeholder(i)) && replaced(state, n)[placeholder(i)]
                == state[i].name,
        forall|name: Seq<char>| #[trigger] replaced(state, n).dom().contains(name) ==> is_placeholder(name, n as nat),
    decreases n,
{
    if n > 0 {
        replaced_holds(state, n - 1);
        assert forall|i: int| 0 <= i < n implies replaced(state, n).dom().contains(#[trigger] placeholder(i)) && replaced(
            state,
            n,
        )[placeholder(i)] == state[i].name by {
            if i < n - 1 && placeholder(i) == placeholder(n - 1) {
                placeholders_differ(i, n - 1);
            }
        }
        assert forall|name: Seq<char>| #[trigger] replaced(state, n).dom().contains(name) implies is_placeholder(
            name,
            n as nat,
        ) by {
            if name == placeholder(n - 1) {
            } else {
                assert(replaced(state, n - 1).dom().contains(name));
                let i = choose|i: int| 0 <= i < n - 1 && name == #[trigger] placeholder(i);
                assert(0 <= i < n && name == placeholder(i));
            }
        }
    }
}

proof fn placeholders_hold(state: Seq<StateView>, n: int)
    requires
        0 <= n <= state.len(),
        are_named_apart(state),
    ensures
        forall|i: int|
            0 <= i < n ==> placeholders(state, n).dom().contains((#[trigger] state[i]).name) && placeholders(
                state,
                n,
            )[state[i].name] == placeholder(i),
        forall|name: Seq<char>| #[trigger] placeholders(state, n).dom().contains(name) ==> is_state(state, name),
    decreases n,
{
    if n > 0 {
        placeholders_hold(state, n - 1);
        assert forall|name: Seq<char>| #[trigger] placeholders(state, n).dom().contains(name) implies is_state(state, name) by {
            if name == state[n - 1].name {
            } else {
                assert(placeholders(state, n - 1).dom().contains(name));
            }
        }
    }
}

/// A name is that of a state tensor.
pub open spec fn is_state(state: Seq<StateView>, name: Seq<char>) -> bool {
    exists|i: int| 0 <= i < state.len() && (#[trigger] state[i]).name == name
}

/// A name of a program can be told from the placeholders.
pub open spec fn is_apart(state: Seq<StateView>, name: Seq<char>) -> bool {
    is_state(state, name) || !is_placeholder(name, state.len())
}

proof fn apart_leads_back(state: Seq<StateView>, name: Seq<char>)
    requires
        are_named_apart(state),
        is_apart(state, name),
    ensures
        leads_back(placeholders(state, state.len() as int), replaced(state, state.len() as int), name),
        !is_placeholder(name, state.len()) ==> renamed(replaced(state, state.len() as int), name) == name,
{
    let n = state.len() as int;
    replaced_holds(state, n);
    placeholders_hold(state, n);
    if is_state(state, name) {
        let i = choose|i: int| 0 <= i < state.len() && (#[trigger] state[i]).name == name;
        assert(placeholders(state, n)[state[i].name] == placeholder(i));
    }
}

/// The state that was read is the state of an artifact: every tensor has its role, shape,
/// dtype and gradient flag, and there is no other.
pub open spec fn holds_state(states: StatesView, artifact: ArtifactView) -> bool {
    &&& forall|i: int|
        0 <= i < artifact.state.len() ==> {
            let state = #[trigger] artifact.state[i];
            let read = states.state[states.names[state.name] as int];
            &&& states.names.dom().contains(state.name)
            &&& read.role == state.role
            &&& read.shape == state.shape
            &&& read.requires_grad == state.requires_grad
            &&& states.storages[read.storage as int].dtype == artifact.storages[state.storage as int].dtype
        }
    &&& forall|i: int| 0 <= i < states.state.len() ==> is_state(artifact.state, (#[trigger] states.state[i]).name)
}

/// What is written of the state tensors.
proof fn states_are_written(storages: Seq<StorageView>, state: Seq<StateView>, n: int)
    requires
        0 <= n <= state.len(),
    ensures
        ({
            let graph = GraphOut::start().with_states(storages, state, n);
            &&& graph.inputs == Seq::new(n as nat, |i: int| tensor_union(placeholder(i)))
            &&& graph.signature == Seq::new(n as nat, |i: int| state_signature(state[i], i))
            &&& graph.nodes.len() == 0
            &&& graph.values.dom().finite()
            &&& forall|i: int|
                0 <= i < n ==> graph.values.dom().contains(#[trigger] placeholder(i)) && graph.values[placeholder(i)]
                    == state_meta(storages, state[i], 0)
        }),
    decreases n,
{
    let graph = GraphOut::start().with_states(storages, state, n);
    if n > 0 {
        states_are_written(storages, state, n - 1);
        assert(graph.inputs =~= Seq::new(n as nat, |i: int| tensor_union(placeholder(i))));
        assert(graph.signature =~= Seq::new(n as nat, |i: int| state_signature(state[i], i)));
        assert forall|i: int| 0 <= i < n implies graph.values.dom().contains(#[trigger] placeholder(i)) && graph.values[placeholder(
            i,
        )] == state_meta(storages, state[i], 0) by {
            if i < n - 1 && placeholder(i) == placeholder(n - 1) {
                placeholders_differ(i, n - 1);
            }
        }
    } else {
        assert(graph.inputs =~= Seq::new(0, |i: int| tensor_union(placeholder(i))));
        assert(graph.signature =~= Seq::new(0, |i: int| state_signature(state[i], i)));
    }
}

/// The inputs have different names.
pub open spec fn are_inputs_apart(inputs: Seq<ValueSpecView>) -> bool {
    forall|i: int, j: int| 0 <= i < j < inputs.len() ==> (#[trigger] inputs[i]).name != (#[trigger] inputs[j]).name
}

/// What is written of the inputs.
proof fn inputs_are_written(
    start: GraphOut,
    inputs: Seq<ValueSpecView>,
    states: nat,
    samples: Samples,
    symbols: Map<Seq<char>, Seq<char>>,
    n: int,
)
    requires
        0 <= n <= inputs.len(),
        are_inputs_apart(inputs),
        start.values.dom().finite(),
        start.with_inputs(inputs, states, samples, symbols, n) is Ok,
    ensures
        ({
            let graph = start.with_inputs(inputs, states, samples, symbols, n)->Ok_0;
            &&& graph.inputs == start.inputs + Seq::new(n as nat, |i: int| tensor_union(inputs[i].name))
            &&& graph.signature == start.signature + Seq::new(n as nat, |i: int| input_signature(inputs[i].name))
            &&& graph.nodes == start.nodes
            &&& graph.values.dom().finite()
            &&& forall|i: int| 0 <= i < n ==> !is_placeholder((#[trigger] inputs[i]).name, states)
            &&& forall|i: int|
                0 <= i < n ==> graph.values.dom().contains((#[trigger] inputs[i]).name) && graph.values[inputs[i].name]
                    == sample_meta(samples[inputs[i].name], inputs[i].dimensions, symbols)
            &&& forall|i: int|
                0 <= i < states && start.values.dom().contains(placeholder(i)) ==> graph.values.dom().contains(
                    #[trigger] placeholder(i),
                ) && graph.values[placeholder(i)] == start.values[placeholder(i)]
        }),
    decreases n,
{
    let graph = start.with_inputs(inputs, states, samples, symbols, n)->Ok_0;
    if n > 0 {
        inputs_are_written(start, inputs, states, samples, symbols, n - 1);
        assert(graph.inputs =~= start.inputs + Seq::new(n as nat, |i: int| tensor_union(inputs[i].name)));
        assert(graph.signature =~= start.signature + Seq::new(n as nat, |i: int| input_signature(inputs[i].name)));
    } else {
        assert(graph.inputs =~= start.inputs + Seq::new(0, |i: int| tensor_union(inputs[i].name)));
        assert(graph.signature =~= start.signature + Seq::new(0, |i: int| input_signature(inputs[i].name)));
    }
}

/// What is written of the operations.
proof fn nodes_are_written(
    start: GraphOut,
    operations: Seq<OperationView>,
    specs: Map<Seq<char>, ValueSpecView>,
    samples: Samples,
    symbols: Map<Seq<char>, Seq<char>>,
    map: Map<Seq<char>, Seq<char>>,
    n: int,
)
    requires
        0 <= n <= operations.len(),
        start.nodes.len() == 0,
        start.values.dom().finite(),
    ensures
        ({
            let graph = start.with_nodes(operations, specs, samples, symbols, map, n);
            &&& graph.inputs == start.inputs
            &&& graph.signature == start.signature
            &&& graph.nodes == Seq::new(n as nat, |i: int| node_union(operations[i], map))
            &&& graph.values.dom().finite()
            &&& forall|name: Seq<char>|
                start.values.dom().contains(name) && !(exists|i: int| 0 <= i < n && (#[trigger] operations[i]).name == name)
                    ==> #[trigger] graph.values.dom().contains(name) && graph.values[name] == start.values[name]
        }),
    decreases n,
{
    let graph = start.with_nodes(operations, specs, samples, symbols, map, n);
    if n > 0 {
        nodes_are_written(start, operations, specs, samples, symbols, map, n - 1);
        let before = start.with_nodes(operations, specs, samples, symbols, map, n - 1);
        assert(graph.nodes =~= Seq::new(n as nat, |i: int| node_union(operations[i], map)));
        assert forall|name: Seq<char>|
            start.values.dom().contains(name) && !(exists|i: int| 0 <= i < n && (#[trigger] operations[i]).name == name)
            implies #[trigger] graph.values.dom().contains(name) && graph.values[name] == start.values[name] by {
            assert(operations[n - 1].name != name);
            assert(before.values.dom().contains(name) && before.values[name] == start.values[name]);
        }
    } else {
        assert(graph.nodes =~= Seq::new(0, |i: int| node_union(operations[i], map)));
    }
}

proof fn signature_names()
    ensures
        "user_input"@.len() == 10,
        "parameter"@.len() == 9,
        "buffer"@.len() == 6,
        "tensor_constant"@.len() == 15,
        "arg"@.len() == 3,
        "parameter_name"@.len() == 14,
        "buffer_name"@.len() == 11,
        "persistent"@.len() == 10,
        "tensor_constant_name"@.len() == 20,
{
    reveal_strlit("user_input");
    reveal_strlit("parameter");
    reveal_strlit("buffer");
    reveal_strlit("tensor_constant");
    reveal_strlit("arg");
    reveal_strlit("parameter_name");
    reveal_strlit("buffer_name");
    reveal_strlit("persistent");
    reveal_strlit("tensor_constant_name");
}

/// The signature of a state tensor is read back.
proof fn placeholder_survives(
    before: SignatureView,
    ep: JsonView,
    states: StatesView,
    storages: Seq<StorageView>,
    state: StateView,
    i: int,
)
    requires
        states.names.dom().contains(state.name),
        ({
            let read = states.state[states.names[state.name] as int];
            &&& read.role == state.role
            &&& read.shape == state.shape
            &&& read.requires_grad == state.requires_grad
            &&& states.storages[read.storage as int].dtype == storages[state.storage as int].dtype
        }),
        field(field(graph_of(ep), "tensor_values"@), placeholder(i)) == state_meta(storages, state, 0),
        !before.rename.dom().contains(placeholder(i)),
    ensures
        before.with_input(ep, states, state_signature(state, i)) == Ok::<SignatureView, ErrorView>(
            SignatureView {
                rename: before.rename.insert(placeholder(i), state.name),
                declared: before.declared.push(placeholder(i)),
                used: before.used.insert(state.name),
                ..before
            },
        ),
{
    signature_names();
    let arg = object_of(seq!["name"@], seq![JsonView::Text(placeholder(i))]);
    only("name"@, JsonView::Text(placeholder(i)));
    metadata_survives(
        storages[state.storage as int].dtype,
        int_unions(state.shape),
        state.requires_grad,
        state.strides,
        0,
    );
    size_list_survives(state.shape);
    let name = JsonView::Text(state.name);
    match state.role {
        StateRole::Parameter => {
            let keys = seq!["arg"@, "parameter_name"@];
            let values = seq![arg, name];
            found(keys, values, 0, 0);
            found(keys, values, 1, 0);
            only("parameter"@, object_of(keys, values));
            missing(seq!["parameter"@], seq![object_of(keys, values)], "user_input"@, 0);
        },
        StateRole::Buffer => {
            let keys = seq!["arg"@, "buffer_name"@, "persistent"@];
            let values = seq![arg, name, JsonView::Bool(true)];
            found(keys, values, 0, 0);
            found(keys, values, 1, 0);
            found(keys, values, 2, 0);
            only("buffer"@, object_of(keys, values));
            missing(seq!["buffer"@], seq![object_of(keys, values)], "user_input"@, 0);
            missing(seq!["buffer"@], seq![object_of(keys, values)], "parameter"@, 0);
        },
        StateRole::Constant => {
            let keys = seq!["arg"@, "tensor_constant_name"@];
            let values = seq![arg, name];
            found(keys, values, 0, 0);
            found(keys, values, 1, 0);
            only("tensor_constant"@, object_of(keys, values));
            missing(seq!["tensor_constant"@], seq![object_of(keys, values)], "user_input"@, 0);
            missing(seq!["tensor_constant"@], seq![object_of(keys, values)], "parameter"@, 0);
            missing(seq!["tensor_constant"@], seq![object_of(keys, values)], "buffer"@, 0);
        },
    }
}

/// An input as it is read back: with the dtype of its trial and the new names of its symbols.
pub open spec fn read_back(input: ValueSpecView, samples: Samples, symbols: Map<Seq<char>, Seq<char>>) -> ValueSpecView {
    ValueSpecView {
        name: input.name,
        dtype: samples[input.name].dtype,
        dimensions: input.dimensions.map_values(|d: DimensionView| resymboled(d, symbols)),
    }
}

/// The signature of an input is read back.
proof fn input_survives(
    before: SignatureView,
    ep: JsonView,
    states: StatesView,
    input: ValueSpecView,
    samples: Samples,
    symbols: SymbolsView,
)
    requires
        are_plain(symbols),
        forall|j: int| 0 <= j < input.dimensions.len() ==> is_covered(symbols, #[trigger] input.dimensions[j]),
        field(field(graph_of(ep), "tensor_values"@), input.name) == sample_meta(
            samples[input.name],
            input.dimensions,
            symbols.names,
        ),
        field(ep, "range_constraints"@) == range_unions(symbols.ranges),
    ensures
        before.with_input(ep, states, input_signature(input.name)) == Ok::<SignatureView, ErrorView>(
            SignatureView {
                inputs: before.inputs.push(read_back(input, samples, symbols.names)),
                declared: before.declared.push(input.name),
                ..before
            },
        ),
{
    only("arg"@, tensor_union(input.name));
    only("user_input"@, object_of(seq!["arg"@], seq![tensor_union(input.name)]));
    tensor_is_named(input.name);
    let sample = samples[input.name];
    metadata_survives(
        sample.dtype,
        size_unions(input.dimensions, symbols.names),
        sample.requires_grad,
        sample.strides@,
        0,
    );
    let n = input.dimensions.len() as int;
    dimensions_survive(symbols, input.dimensions, n);
    let new = input.dimensions.map_values(|d: DimensionView| resymboled(d, symbols.names));
    assert(new.take(n) =~= new);
}

/// The written graph of an artifact and what it was written with.
pub struct Written {
    pub artifact: ArtifactView,
    pub symbols: SymbolsView,
    pub specs: Map<Seq<char>, ValueSpecView>,
    pub samples: Samples,
    pub outputs: Seq<Seq<char>>,
    pub in_spec: Seq<char>,
    pub out_spec: Seq<char>,
}

impl Written {
    /// The names that state tensors go by.
    pub open spec fn to(self) -> Map<Seq<char>, Seq<char>> {
        placeholders(self.artifact.state, self.artifact.state.len() as int)
    }

    /// The graph.
    pub open spec fn graph(self) -> GraphStep {
        graph_out(self.artifact, self.specs, self.samples, self.symbols.names)
    }

    /// The description.
    pub open spec fn ep(self) -> JsonView {
        description(
            self.graph()->Ok_0,
            all_renamed(self.to(), self.outputs),
            self.symbols.ranges,
            self.in_spec,
            self.out_spec,
        )
    }

    /// The artifact can be written and its names are apart: no two state tensors and no two
    /// inputs have the same name, no operation has the name of an input or of a placeholder, and
    /// an operand or an output with the name of a placeholder is a state tensor. Every operator
    /// has as many operands as it takes.
    pub open spec fn is_written(self) -> bool {
        let state = self.artifact.state;
        let inputs = self.artifact.program.inputs;
        let operations = self.artifact.program.operations;
        &&& self.graph() is Ok
        &&& SymbolsView::start().with_inputs(inputs, inputs.len() as int) == Ok::<SymbolsView, ErrorView>(self.symbols)
        &&& are_named_apart(state)
        &&& are_inputs_apart(inputs)
        &&& operations.len() <= MAX_NODES
        &&& forall|k: int|
            0 <= k < operations.len() ==> fits((#[trigger] operations[k]).operator, operations[k].inputs.len())
                && !is_placeholder(operations[k].name, state.len())
        &&& forall|k: int, i: int|
            0 <= k < operations.len() && 0 <= i < inputs.len() ==> (#[trigger] operations[k]).name != (
            #[trigger] inputs[i]).name
        &&& forall|k: int, i: int|
            0 <= k < operations.len() && 0 <= i < operations[k].inputs.len() ==> is_apart(
                state,
                #[trigger] operations[k].inputs[i],
            )
        &&& forall|i: int| 0 <= i < self.outputs.len() ==> is_apart(state, #[trigger] self.outputs[i])
    }

    /// The signature after the first `n` state tensors have been read.
    spec fn signed_states(self, n: int) -> SignatureView {
        SignatureView {
            rename: replaced(self.artifact.state, n),
            inputs: Seq::empty(),
            declared: Seq::new(n as nat, |i: int| placeholder(i)),
            used: Set::new(|name: Seq<char>| exists|i: int| 0 <= i < n && (#[trigger] self.artifact.state[i]).name == name),
        }
    }

    /// The signature after all state tensors and the first `n` inputs have been read.
    spec fn signed(self, n: int) -> SignatureView {
        let inputs = self.artifact.program.inputs;
        let states = self.signed_states(self.artifact.state.len() as int);
        SignatureView {
            inputs: Seq::new(n as nat, |i: int| read_back(inputs[i], self.samples, self.symbols.names)),
            declared: states.declared + Seq::new(n as nat, |i: int| inputs[i].name),
            ..states
        }
    }

    /// What the graph holds.
    proof fn parts(self)
        requires
            self.is_written(),
        ensures
            ({
                let graph = self.graph()->Ok_0;
                let state = self.artifact.state;
                let inputs = self.artifact.program.inputs;
                let operations = self.artifact.program.operations;
                &&& graph.inputs == Seq::new(state.len(), |i: int| tensor_union(placeholder(i))) + Seq::new(
                    inputs.len(),
                    |i: int| tensor_union(inputs[i].name),
                )
                &&& graph.signature == Seq::new(state.len(), |i: int| state_signature(state[i], i)) + Seq::new(
                    inputs.len(),
                    |i: int| input_signature(inputs[i].name),
                )
                &&& graph.nodes == Seq::new(operations.len(), |i: int| node_union(operations[i], self.to()))
                &&& forall|i: int|
                    0 <= i < state.len() ==> field(field(graph_of(self.ep()), "tensor_values"@), #[trigger] placeholder(i))
                        == state_meta(self.artifact.storages, state[i], 0)
                &&& forall|i: int|
                    0 <= i < inputs.len() ==> field(
                        field(graph_of(self.ep()), "tensor_values"@),
                        (#[trigger] inputs[i]).name,
                    ) == sample_meta(self.samples[inputs[i].name], inputs[i].dimensions, self.symbols.names)
            }),
    {
        let state = self.artifact.state;
        let inputs = self.artifact.program.inputs;
        let operations = self.artifact.program.operations;
        let n = state.len() as int;
        let m = inputs.len() as int;
        let names = self.symbols.names;
        let first = GraphOut::start().with_states(self.artifact.storages, state, n);
        states_are_written(self.artifact.storages, state, n);
        let second = first.with_inputs(inputs, state.len(), self.samples, names, m)->Ok_0;
        inputs_are_written(first, inputs, state.len(), self.samples, names, m);
        nodes_are_written(second, operations, self.specs, self.samples, names, self.to(), operations.len() as int);
        let graph = self.graph()->Ok_0;
        let written = all_renamed(self.to(), self.outputs);
        description_parts(graph, written, self.symbols.ranges, self.in_spec, self.out_spec);
        graph_parts(graph, written, self.symbols.ranges);
        assert forall|i: int| 0 <= i < n implies field(field(graph_of(self.ep()), "tensor_values"@), #[trigger] placeholder(i))
            == state_meta(self.artifact.storages, state[i], 0) by {
            assert(second.values.dom().contains(placeholder(i)));
            assert forall|k: int| 0 <= k < operations.len() implies (#[trigger] operations[k]).name != placeholder(i) by {
                assert(!is_placeholder(operations[k].name, state.len()));
            }
            assert(graph.values.dom().contains(placeholder(i)));
            mapped(graph.values, placeholder(i));
        }
        assert forall|i: int| 0 <= i < m implies field(
            field(graph_of(self.ep()), "tensor_values"@),
            (#[trigger] inputs[i]).name,
        ) == sample_meta(self.samples[inputs[i].name], inputs[i].dimensions, names) by {
            assert(second.values.dom().contains(inputs[i].name));
            assert(graph.values.dom().contains(inputs[i].name));
            mapped(graph.values, inputs[i].name);
        }
    }

    proof fn states_are_signed(self, states: StatesView, n: int)
        requires
            self.is_written(),
            holds_state(states, self.artifact),
            0 <= n <= self.artifact.state.len(),
        ensures
            SignatureView::start().with_inputs(self.ep(), states, self.graph()->Ok_0.signature, n) == Ok::<
                SignatureView,
                ErrorView,
            >(self.signed_states(n)),
        decreases n,
    {
        let state = self.artifact.state;
        let after = self.signed_states(n);
        self.parts();
        if n > 0 {
            self.states_are_signed(states, n - 1);
            let before = self.signed_states(n - 1);
            let tensor = state[n - 1];
            assert(self.graph()->Ok_0.signature[n - 1] == state_signature(tensor, n - 1));
            replaced_holds(state, n - 1);
            if before.rename.dom().contains(placeholder(n - 1)) {
                let i = choose|i: int| 0 <= i < n - 1 && placeholder(n - 1) == #[trigger] placeholder(i);
                placeholders_differ(i, n - 1);
            }
            placeholder_survives(before, self.ep(), states, self.artifact.storages, tensor, n - 1);
            assert(after.declared =~= before.declared.push(placeholder(n - 1)));
            assert(after.used =~= before.used.insert(tensor.name));
        } else {
            assert(after.declared =~= Seq::empty());
            assert(after.used =~= Set::empty());
        }
    }

    proof fn inputs_are_signed(self, states: StatesView, n: int)
        requires
            self.is_written(),
            holds_state(states, self.artifact),
            0 <= n <= self.artifact.program.inputs.len(),
        ensures
            SignatureView::start().with_inputs(
                self.ep(),
                states,
                self.graph()->Ok_0.signature,
                self.artifact.state.len() + n,
            ) == Ok::<SignatureView, ErrorView>(self.signed(n)),
        decreases n,
    {
        let inputs = self.artifact.program.inputs;
        let states_len = self.artifact.state.len() as int;
        let after = self.signed(n);
        self.parts();
        if n > 0 {
            self.inputs_are_signed(states, n - 1);
            let before = self.signed(n - 1);
            let input = inputs[n - 1];
            assert(self.graph()->Ok_0.signature[states_len + n - 1] == input_signature(input.name));
            inputs_are_covered(SymbolsView::start(), inputs, inputs.len() as int);
            assert forall|j: int| 0 <= j < input.dimensions.len() implies is_covered(
                self.symbols,
                #[trigger] input.dimensions[j],
            ) by {
                assert(is_covered(self.symbols, inputs[n - 1].dimensions[j]));
            }
            description_parts(
                self.graph()->Ok_0,
                all_renamed(self.to(), self.outputs),
                self.symbols.ranges,
                self.in_spec,
                self.out_spec,
            );
            input_survives(before, self.ep(), states, input, self.samples, self.symbols);
            assert(after.inputs =~= before.inputs.push(read_back(input, self.samples, self.symbols.names)));
            assert(after.declared =~= before.declared.push(input.name));
        } else {
            self.states_are_signed(states, states_len);
            let before = self.signed_states(states_len);
            assert(after.inputs =~= before.inputs);
            assert(after.declared =~= before.declared);
        }
    }

    proof fn declared_inputs(self, names: Seq<Seq<char>>, n: int)
        requires
            0 <= n <= names.len(),
        ensures
            tensor_names(names.map_values(|name: Seq<char>| tensor_union(name)), Map::empty(), n) == Ok::<
                Seq<Seq<char>>,
                ErrorView,
            >(names.take(n)),
        decreases n,
    {
        if n > 0 {
            self.declared_inputs(names, n - 1);
            tensor_is_named(names[n - 1]);
            assert(names.take(n) =~= names.take(n - 1).push(names[n - 1]));
        } else {
            assert(names.take(0) =~= Seq::empty());
        }
    }

    proof fn signature_survives(self, states: StatesView)
        requires
            self.is_written(),
            holds_state(states, self.artifact),
        ensures
            signature_of(self.ep(), states) == Ok::<SignatureView, ErrorView>(
                self.signed(self.artifact.program.inputs.len() as int),
            ),
    {
        let graph = self.graph()->Ok_0;
        let n = self.artifact.state.len() as int;
        let m = self.artifact.program.inputs.len() as int;
        let written = all_renamed(self.to(), self.outputs);
        self.parts();
        self.inputs_are_signed(states, m);
        description_parts(graph, written, self.symbols.ranges, self.in_spec, self.out_spec);
        graph_parts(graph, written, self.symbols.ranges);
        found(
            seq!["input_specs"@, "output_specs"@],
            seq![
                JsonView::List(graph.signature),
                JsonView::List(written.map_values(|n: Seq<char>| output_signature(n))),
            ],
            0,
            0,
        );
        let signature = self.signed(m);
        assert forall|i: int| 0 <= i < states.state.len() implies signature.used.contains((#[trigger] states.state[i]).name) by {
            assert(is_state(self.artifact.state, states.state[i].name));
        }
        let names = signature.declared;
        self.declared_inputs(names, names.len() as int);
        assert(names.take(names.len() as int) =~= names);
        assert(graph.inputs =~= names.map_values(|name: Seq<char>| tensor_union(name)));
    }
}

/// A program that was written is read back from its description and its state: its inputs, with
/// the dtypes of their trials and new names for their symbols, its operations, its outputs and
/// its calling structure.
pub proof fn written_program_is_read(written: Written, states: StatesView)
    requires
        written.is_written(),
        holds_state(states, written.artifact),
    ensures
        header_refusal(written.ep()) is None,
        body_of(written.ep(), states) == Ok::<BodyView, ErrorView>(
            BodyView {
                inputs: written.artifact.program.inputs.map_values(
                    |input: ValueSpecView| read_back(input, written.samples, written.symbols.names),
                ),
                operations: written.artifact.program.operations,
                outputs: written.outputs,
                call: root_of(written.in_spec, written.out_spec),
            },
        ),
{
    let graph = written.graph()->Ok_0;
    let state = written.artifact.state;
    let operations = written.artifact.program.operations;
    let inputs = written.artifact.program.inputs;
    let renamed_outputs = all_renamed(written.to(), written.outputs);
    let from = replaced(state, state.len() as int);
    let ranges = written.symbols.ranges;
    written_header_is_accepted(graph, renamed_outputs, ranges, written.in_spec, written.out_spec);
    description_parts(graph, renamed_outputs, ranges, written.in_spec, written.out_spec);
    graph_parts(graph, renamed_outputs, ranges);
    written.parts();
    written.signature_survives(states);
    assert(written.signed(inputs.len() as int).inputs =~= inputs.map_values(
        |input: ValueSpecView| read_back(input, written.samples, written.symbols.names),
    ));
    assert forall|k: int| 0 <= k < operations.len() implies renamed(from, (#[trigger] operations[k]).name) == operations[k].name by {
        apart_leads_back(state, operations[k].name);
    }
    assert forall|k: int, i: int| 0 <= k < operations.len() && 0 <= i < operations[k].inputs.len() implies leads_back(
        written.to(),
        from,
        #[trigger] operations[k].inputs[i],
    ) by {
        apart_leads_back(state, operations[k].inputs[i]);
    }
    assert forall|i: int| 0 <= i < written.outputs.len() implies leads_back(
        written.to(),
        from,
        #[trigger] written.outputs[i],
    ) by {
        apart_leads_back(state, written.outputs[i]);
    }
    operations_survive(operations, graph.nodes, written.to(), from, operations.len() as int);
    assert(operations.take(operations.len() as int) =~= operations);
    signed_outputs_survive(
        graph,
        written.outputs,
        written.to(),
        from,
        ranges,
        written.in_spec,
        written.out_spec,
    );
    let root = root_of(written.in_spec, written.out_spec);
    found(root_keys(), root_values(written.in_spec, written.out_spec), 0, 0);
    assert(seq![root][0] == root);
}

/// The texts of the calling structure are those that were written.
pub proof fn calling_texts_survive(in_spec: Seq<char>, out_spec: Seq<char>)
    ensures
        as_string(field(field(root_of(in_spec, out_spec), "signature"@), "in_spec"@)) == Ok::<Seq<char>, ErrorView>(in_spec),
        as_string(field(field(root_of(in_spec, out_spec), "signature"@), "out_spec"@)) == Ok::<Seq<char>, ErrorView>(
            out_spec,
        ),
{
    reveal_strlit("fqn");
    reveal_strlit("signature");
    reveal_strlit("forward_arg_names");
    reveal_strlit("in_spec");
    reveal_strlit("inputs");
    reveal_strlit("out_spec");
    assert("fqn"@.len() == 3 && "signature"@.len() == 9);
    assert("forward_arg_names"@.len() == 17 && "in_spec"@.len() == 7 && "inputs"@.len() == 6 && "out_spec"@.len() == 8);
    found(root_keys(), root_values(in_spec, out_spec), 1, 0);
    let keys = seq!["forward_arg_names"@, "in_spec"@, "inputs"@, "out_spec"@, "outputs"@];
    let none = JsonView::List(Seq::empty());
    let values = seq![JsonView::Null, JsonView::Text(in_spec), none, JsonView::Text(out_spec), none];
    found(keys, values, 1, 0);
    found(keys, values, 3, 0);
}

spec fn root_keys() -> Seq<Seq<char>> {
    seq!["fqn"@, "signature"@]
}

spec fn root_values(in_spec: Seq<char>, out_spec: Seq<char>) -> Seq<JsonView> {
    seq![
        JsonView::Text(""@),
        object_of(
            seq!["forward_arg_names"@, "in_spec"@, "inputs"@, "out_spec"@, "outputs"@],
            seq![
                JsonView::Null,
                JsonView::Text(in_spec),
                JsonView::List(Seq::empty()),
                JsonView::Text(out_spec),
                JsonView::List(Seq::empty()),
            ],
        ),
    ]
}

} // verus!
