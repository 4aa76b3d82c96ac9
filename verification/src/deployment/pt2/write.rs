//! The pieces of a written program.
use super::super::types::{dimensions_view, DType, Dimension, DimensionView, Operation, OperationView, Operator, OperatorView};
use super::json::{entries_view, items_view, list_parts, object_parts, scalar_code, scalar_code_of, Json, JsonView};
use super::operator::{rename, renamed, renames};
use crate::error::texts;
use crate::names::{listing_of, NameMap};
use crate::text::{join3, owned};
use vstd::prelude::*;

verus! {

/// An object with the given names and values.
pub open spec fn object_of(keys: Seq<Seq<char>>, values: Seq<JsonView>) -> JsonView {
    JsonView::Object(Seq::new(keys.len(), |i: int| (keys[i], values[i])))
}

/// An object with the entries of a map, in name order.
pub open spec fn object_of_map(map: Map<Seq<char>, JsonView>) -> JsonView {
    object_of(listing_of(map), listing_of(map).map_values(|name: Seq<char>| map[name]))
}

/// The contents of a map of values.
pub open spec fn jsons(map: Map<Seq<char>, Json>) -> Map<Seq<char>, JsonView> {
    map.map_values(|j: Json| j@)
}

/// An integer.
pub open spec fn int_union(n: i64) -> JsonView {
    object_of(seq!["as_int"@], seq![JsonView::Int(n)])
}

/// Integers.
pub open spec fn int_unions(list: Seq<i64>) -> JsonView {
    JsonView::List(list.map_values(|n: i64| int_union(n)))
}

/// A tensor argument.
pub open spec fn tensor_union(name: Seq<char>) -> JsonView {
    object_of(seq!["as_tensor"@], seq![object_of(seq!["name"@], seq![JsonView::Text(name)])])
}

/// A named argument.
pub open spec fn named_union(name: Seq<char>, value: JsonView) -> JsonView {
    object_of(seq!["arg"@, "kind"@, "name"@], seq![value, JsonView::Int(1), JsonView::Text(name)])
}

/// The larger of two integers.
pub open spec fn larger(a: i64, b: i64) -> i64 {
    if a >= b {
        a
    } else {
        b
    }
}

/// The text of a symbol.
pub open spec fn symbol_text(name: Seq<char>) -> Seq<char> {
    "Symbol('"@ + name + "', positive=True, integer=True)"@
}

/// A size: a number, or a symbol by its new name with an example.
pub open spec fn size_union(dimension: DimensionView, symbols: Map<Seq<char>, Seq<char>>) -> JsonView {
    match dimension {
        DimensionView::Known(n) => int_union(n),
        DimensionView::Symbol { name, min, max } => object_of(
            seq!["as_expr"@],
            seq![
                object_of(
                    seq!["expr_str"@, "hint"@],
                    seq![JsonView::Text(symbol_text(renamed(symbols, name))), int_union(larger(min, 2))],
                ),
            ],
        ),
    }
}

/// Sizes.
pub open spec fn size_unions(dimensions: Seq<DimensionView>, symbols: Map<Seq<char>, Seq<char>>) -> JsonView {
    JsonView::List(dimensions.map_values(|d: DimensionView| size_union(d, symbols)))
}

/// The processor.
pub open spec fn cpu_device() -> JsonView {
    object_of(seq!["index"@, "type"@], seq![JsonView::Null, JsonView::Text("cpu"@)])
}

/// Metadata of a strided tensor on the processor.
pub open spec fn tensor_meta(dtype: DType, sizes: JsonView, requires_grad: bool, strides: Seq<i64>, offset: i64) -> JsonView {
    object_of(
        seq!["device"@, "dtype"@, "layout"@, "requires_grad"@, "sizes"@, "storage_offset"@, "strides"@],
        seq![
            cpu_device(),
            JsonView::Int(scalar_code_of(dtype)),
            JsonView::Int(7),
            JsonView::Bool(requires_grad),
            sizes,
            int_union(offset),
            int_unions(strides),
        ],
    )
}

/// The target and the arguments of an operation. The operands are `names`.
pub open spec fn call_of(operator: OperatorView, names: Seq<Seq<char>>) -> (Seq<char>, Seq<JsonView>) {
    match operator {
        OperatorView::Identity => ("torch.ops.aten.alias.default"@, operands(seq!["self"@], names)),
        OperatorView::Relu => ("torch.ops.aten.relu.default"@, operands(seq!["self"@], names)),
        OperatorView::Sigmoid => ("torch.ops.aten.sigmoid.default"@, operands(seq!["self"@], names)),
        OperatorView::Tanh => ("torch.ops.aten.tanh.default"@, operands(seq!["self"@], names)),
        OperatorView::Add => ("torch.ops.aten.add.Tensor"@, operands(seq!["self"@, "other"@], names)),
        OperatorView::Subtract => ("torch.ops.aten.sub.Tensor"@, operands(seq!["self"@, "other"@], names)),
        OperatorView::Multiply => ("torch.ops.aten.mul.Tensor"@, operands(seq!["self"@, "other"@], names)),
        OperatorView::Matmul => ("torch.ops.aten.matmul.default"@, operands(seq!["self"@, "other"@], names)),
        OperatorView::Linear => (
            "torch.ops.aten.linear.default"@,
            operands(seq!["input"@, "weight"@, "bias"@], names),
        ),
        OperatorView::Reshape(shape) => (
            "torch.ops.aten.reshape.default"@,
            operands(seq!["self"@], names).push(
                named_union("shape"@, object_of(seq!["as_sym_ints"@], seq![int_unions(shape)])),
            ),
        ),
        OperatorView::Flatten { start, end } => (
            "torch.ops.aten.flatten.using_ints"@,
            operands(seq!["self"@], names).push(named_union("start_dim"@, int_union(start))).push(
                named_union("end_dim"@, int_union(end)),
            ),
        ),
        OperatorView::Transpose { dim0, dim1 } => (
            "torch.ops.aten.transpose.int"@,
            operands(seq!["self"@], names).push(named_union("dim0"@, int_union(dim0))).push(
                named_union("dim1"@, int_union(dim1)),
            ),
        ),
        OperatorView::Permute(axes) => (
            "torch.ops.aten.permute.default"@,
            operands(seq!["self"@], names).push(
                named_union(
                    "dims"@,
                    object_of(seq!["as_ints"@], seq![JsonView::List(axes.map_values(|n: i64| JsonView::Int(n)))]),
                ),
            ),
        ),
        OperatorView::Cat(dim) => (
            "torch.ops.aten.cat.default"@,
            seq![
                named_union(
                    "tensors"@,
                    object_of(
                        seq!["as_tensors"@],
                        seq![JsonView::List(names.map_values(|n: Seq<char>| object_of(seq!["name"@], seq![JsonView::Text(n)])))],
                    ),
                ),
                named_union("dim"@, int_union(dim)),
            ],
        ),
        OperatorView::If { .. } => (Seq::empty(), Seq::empty()),
    }
}

/// Operands under the names of their arguments, as far as both lists reach.
pub open spec fn operands(keys: Seq<Seq<char>>, names: Seq<Seq<char>>) -> Seq<JsonView> {
    Seq::new(
        if keys.len() < names.len() {
            keys.len()
        } else {
            names.len()
        },
        |i: int| named_union(keys[i], tensor_union(names[i])),
    )
}

/// The names that values go by.
pub open spec fn all_renamed(map: Map<Seq<char>, Seq<char>>, names: Seq<Seq<char>>) -> Seq<Seq<char>> {
    names.map_values(|n: Seq<char>| renamed(map, n))
}

/// A node of the graph.
pub open spec fn node_union(operation: OperationView, map: Map<Seq<char>, Seq<char>>) -> JsonView {
    let (target, arguments) = call_of(operation.operator, all_renamed(map, operation.inputs));
    object_of(
        seq!["inputs"@, "is_hop_single_tensor_return"@, "metadata"@, "name"@, "outputs"@, "target"@],
        seq![
            JsonView::List(arguments),
            JsonView::Null,
            object_of(Seq::empty(), Seq::empty()),
            JsonView::Text(operation.name),
            JsonView::List(seq![tensor_union(operation.name)]),
            JsonView::Text(target),
        ],
    )
}

/// Writes an object. Every name has a value.
pub(crate) fn object_with(keys: Vec<&str>, values: Vec<Json>) -> (r: Json)
    requires
        keys@.len() == values@.len(),
    ensures
        r@ == object_of(keys@.map_values(|k: &str| k@), items_view(values@)),
{
    let ghost list = keys@;
    let ghost views = items_view(values@);
    let ghost all = values@;
    let mut values = values;
    let mut entries: Vec<(String, Json)> = Vec::new();
    let mut i: usize = 0;
    while i < keys.len()
        invariant
            list == keys@,
            all.len() == keys@.len(),
            i <= keys@.len(),
            values@ == all.skip(i as int),
            entries@.len() == i,
            forall|j: int| #![trigger entries@[j]] 0 <= j < i ==> entries@[j].0@ == list[j]@ && entries@[j].1 == all[j],
        decreases keys@.len() - i,
    {
        let value = values.remove(0);
        assert(value == all[i as int]);
        entries.push((owned(keys[i]), value));
        i += 1;
        assert(values@ =~= all.skip(i as int));
    }
    proof {
        object_parts(entries);
        assert(entries_view(entries@) =~= Seq::new(list.len(), |j: int| (list.map_values(|k: &str| k@)[j], views[j])));
    }
    Json::Object(entries)
}

/// Writes an object with the entries of a map.
pub(crate) fn object_with_map(map: NameMap<Json>) -> (r: Json)
    requires
        map.wf(),
    ensures
        r@ == object_of_map(jsons(map@)),
{
    proof {
        map.listing_is_determined();
    }
    let ghost names = map.listing();
    let ghost values = map.items();
    let ghost content = map@;
    let ghost m = map;
    let entries = map.into_entries();
    proof {
        object_parts(entries);
        assert(jsons(content).dom() =~= content.dom());
        assert(listing_of(jsons(content)) == names) by {
            assert(crate::names::ascending(names));
            crate::names::listing_of_domain(content, jsons(content));
        }
        assert forall|i: int| 0 <= i < names.len() implies #[trigger] jsons(content)[names[i]] == values[i]@ by {
            m.entry_in_map(i);
        }
        assert(entries_view(entries@) =~= Seq::new(
            names.len(),
            |i: int| (names[i], names.map_values(|name: Seq<char>| jsons(content)[name])[i]),
        ));
    }
    Json::Object(entries)
}

/// Writes a text.
pub(crate) fn text_value(value: &str) -> (r: Json)
    ensures
        r@ == JsonView::Text(value@),
{
    Json::Text(owned(value))
}

/// Writes a list.
pub(crate) fn list(items: Vec<Json>) -> (r: Json)
    ensures
        r@ == JsonView::List(items_view(items@)),
{
    proof {
        list_parts(items);
    }
    Json::List(items)
}

/// Writes an object with one entry.
pub(crate) fn single(key: &str, value: Json) -> (r: Json)
    ensures
        r@ == object_of(seq![key@], seq![value@]),
{
    let mut keys: Vec<&str> = Vec::new();
    keys.push(key);
    let mut values: Vec<Json> = Vec::new();
    values.push(value);
    assert(keys@.map_values(|k: &str| k@) =~= seq![key@]);
    assert(items_view(values@) =~= seq![value@]);
    object_with(keys, values)
}

/// Writes an empty object.
pub(crate) fn nothing() -> (r: Json)
    ensures
        r@ == object_of(Seq::empty(), Seq::empty()),
{
    let keys: Vec<&str> = Vec::new();
    let values: Vec<Json> = Vec::new();
    assert(keys@.map_values(|k: &str| k@) =~= Seq::<Seq<char>>::empty());
    assert(items_view(values@) =~= Seq::<JsonView>::empty());
    object_with(keys, values)
}

pub(crate) fn integer_arg(n: i64) -> (r: Json)
    ensures
        r@ == int_union(n),
{
    single("as_int", Json::Int(n))
}

pub(crate) fn integer_args(numbers: &[i64]) -> (r: Json)
    ensures
        r@ == int_unions(numbers@),
{
    let mut out: Vec<Json> = Vec::new();
    let mut i: usize = 0;
    while i < numbers.len()
        invariant
            i <= numbers@.len(),
            out@.len() == i,
            forall|j: int| 0 <= j < i ==> (#[trigger] out@[j])@ == int_union(numbers@[j]),
        decreases numbers@.len() - i,
    {
        out.push(integer_arg(numbers[i]));
        i += 1;
    }
    assert(items_view(out@) =~= numbers@.map_values(|n: i64| int_union(n)));
    list(out)
}

pub(crate) fn plain_integers(numbers: &[i64]) -> (r: Json)
    ensures
        r@ == JsonView::List(numbers@.map_values(|n: i64| JsonView::Int(n))),
{
    let mut out: Vec<Json> = Vec::new();
    let mut i: usize = 0;
    while i < numbers.len()
        invariant
            i <= numbers@.len(),
            out@.len() == i,
            forall|j: int| 0 <= j < i ==> (#[trigger] out@[j])@ == JsonView::Int(numbers@[j]),
        decreases numbers@.len() - i,
    {
        out.push(Json::Int(numbers[i]));
        i += 1;
    }
    assert(items_view(out@) =~= numbers@.map_values(|n: i64| JsonView::Int(n)));
    list(out)
}

pub(crate) fn tensor_arg(name: &str) -> (r: Json)
    ensures
        r@ == tensor_union(name@),
{
    single("as_tensor", single("name", text_value(name)))
}

pub(crate) fn named_arg(name: &str, value: Json) -> (r: Json)
    ensures
        r@ == named_union(name@, value@),
{
    let keys: Vec<&str> = vec!["arg", "kind", "name"];
    let values: Vec<Json> = vec![value, Json::Int(1), text_value(name)];
    assert(keys@.map_values(|k: &str| k@) =~= seq!["arg"@, "kind"@, "name"@]);
    assert(items_view(values@) =~= seq![value@, JsonView::Int(1), JsonView::Text(name@)]);
    object_with(keys, values)
}

pub(crate) fn size_arg(dimension: &Dimension, symbols: &NameMap<String>) -> (r: Json)
    requires
        symbols.wf(),
    ensures
        r@ == size_union(dimension@, renames(symbols@)),
{
    match dimension {
        Dimension::Known(n) => integer_arg(*n),
        Dimension::Symbol { name, min, max: _ } => {
            let symbol = rename(symbols, name.as_str());
            let expression = join3("Symbol('", symbol.as_str(), "', positive=True, integer=True)");
            let hint: i64 = if *min >= 2 {
                *min
            } else {
                2
            };
            let keys: Vec<&str> = vec!["expr_str", "hint"];
            let values: Vec<Json> = vec![Json::Text(expression), integer_arg(hint)];
            assert(keys@.map_values(|k: &str| k@) =~= seq!["expr_str"@, "hint"@]);
            assert(items_view(values@) =~= seq![JsonView::Text(expression@), int_union(hint)]);
            single("as_expr", object_with(keys, values))
        },
    }
}

pub(crate) fn size_args(dimensions: &[Dimension], symbols: &NameMap<String>) -> (r: Json)
    requires
        symbols.wf(),
    ensures
        r@ == size_unions(dimensions_view(dimensions@), renames(symbols@)),
{
    let ghost names = renames(symbols@);
    let mut out: Vec<Json> = Vec::new();
    let mut i: usize = 0;
    while i < dimensions.len()
        invariant
            symbols.wf(),
            names == renames(symbols@),
            i <= dimensions@.len(),
            out@.len() == i,
            forall|j: int| 0 <= j < i ==> (#[trigger] out@[j])@ == size_union(dimensions@[j]@, names),
        decreases dimensions@.len() - i,
    {
        out.push(size_arg(&dimensions[i], symbols));
        i += 1;
    }
    assert(items_view(out@) =~= dimensions_view(dimensions@).map_values(|d: DimensionView| size_union(d, names)));
    list(out)
}

fn cpu() -> (r: Json)
    ensures
        r@ == cpu_device(),
{
    let keys: Vec<&str> = vec!["index", "type"];
    let values: Vec<Json> = vec![Json::Null, text_value("cpu")];
    assert(keys@.map_values(|k: &str| k@) =~= seq!["index"@, "type"@]);
    assert(items_view(values@) =~= seq![JsonView::Null, JsonView::Text("cpu"@)]);
    object_with(keys, values)
}

pub(crate) fn meta(dtype: DType, sizes: Json, requires_grad: bool, strides: &[i64], offset: i64) -> (r: Json)
    ensures
        r@ == tensor_meta(dtype, sizes@, requires_grad, strides@, offset),
{
    let keys: Vec<&str> = vec!["device", "dtype", "layout", "requires_grad", "sizes", "storage_offset", "strides"];
    let values: Vec<Json> = vec![
        cpu(),
        Json::Int(scalar_code(dtype)),
        Json::Int(7),
        Json::Bool(requires_grad),
        sizes,
        integer_arg(offset),
        integer_args(strides),
    ];
    assert(keys@.map_values(|k: &str| k@) =~= seq![
        "device"@, "dtype"@, "layout"@, "requires_grad"@, "sizes"@, "storage_offset"@, "strides"@,
    ]);
    assert(items_view(values@) =~= seq![
        cpu_device(),
        JsonView::Int(scalar_code_of(dtype)),
        JsonView::Int(7),
        JsonView::Bool(requires_grad),
        sizes@,
        int_union(offset),
        int_unions(strides@),
    ]);
    object_with(keys, values)
}

fn write_operands(keys: Vec<&str>, names: &Vec<String>) -> (r: Vec<Json>)
    ensures
        items_view(r@) == operands(keys@.map_values(|k: &str| k@), texts(names@)),
{
    let ghost labels = keys@.map_values(|k: &str| k@);
    let ghost list = texts(names@);
    let mut out: Vec<Json> = Vec::new();
    let mut i: usize = 0;
    while i < keys.len() && i < names.len()
        invariant
            labels == keys@.map_values(|k: &str| k@),
            list == texts(names@),
            i <= keys@.len(),
            i <= names@.len(),
            out@.len() == i,
            forall|j: int| 0 <= j < i ==> (#[trigger] out@[j])@ == named_union(labels[j], tensor_union(list[j])),
        decreases keys@.len() - i,
    {
        assert(list[i as int] == names@[i as int]@);
        out.push(named_arg(keys[i], tensor_arg(names[i].as_str())));
        i += 1;
    }
    assert(items_view(out@) =~= operands(labels, list));
    out
}

fn own_operand(names: &Vec<String>) -> (r: Vec<Json>)
    ensures
        items_view(r@) == operands(seq!["self"@], texts(names@)),
{
    let keys: Vec<&str> = vec!["self"];
    assert(keys@.map_values(|k: &str| k@) =~= seq!["self"@]);
    write_operands(keys, names)
}

fn two_operands(names: &Vec<String>) -> (r: Vec<Json>)
    ensures
        items_view(r@) == operands(seq!["self"@, "other"@], texts(names@)),
{
    let keys: Vec<&str> = vec!["self", "other"];
    assert(keys@.map_values(|k: &str| k@) =~= seq!["self"@, "other"@]);
    write_operands(keys, names)
}

fn linear_operands(names: &Vec<String>) -> (r: Vec<Json>)
    ensures
        items_view(r@) == operands(seq!["input"@, "weight"@, "bias"@], texts(names@)),
{
    let keys: Vec<&str> = vec!["input", "weight", "bias"];
    assert(keys@.map_values(|k: &str| k@) =~= seq!["input"@, "weight"@, "bias"@]);
    write_operands(keys, names)
}

fn add_argument(arguments: &mut Vec<Json>, name: &str, value: Json)
    ensures
        items_view(final(arguments)@) == items_view(old(arguments)@).push(named_union(name@, value@)),
{
    let argument = named_arg(name, value);
    let ghost before = items_view(arguments@);
    arguments.push(argument);
    assert(items_view(arguments@) =~= before.push(argument@));
}

fn name_list(names: &Vec<String>) -> (r: Json)
    ensures
        r@ == JsonView::List(
            texts(names@).map_values(|n: Seq<char>| object_of(seq!["name"@], seq![JsonView::Text(n)])),
        ),
{
    let mut out: Vec<Json> = Vec::new();
    let mut i: usize = 0;
    while i < names.len()
        invariant
            i <= names@.len(),
            out@.len() == i,
            forall|j: int| 0 <= j < i ==> (#[trigger] out@[j])@ == object_of(seq!["name"@], seq![JsonView::Text(names@[j]@)]),
        decreases names@.len() - i,
    {
        out.push(single("name", text_value(names[i].as_str())));
        i += 1;
    }
    assert(items_view(out@) =~= texts(names@).map_values(
        |n: Seq<char>| object_of(seq!["name"@], seq![JsonView::Text(n)]),
    ));
    list(out)
}

fn write_call(operator: &Operator, names: &Vec<String>) -> (r: (&'static str, Vec<Json>))
    requires
        !(operator is If),
    ensures
        call_of(operator@, texts(names@)) == (r.0@, items_view(r.1@)),
{
    match operator {
        Operator::Identity => ("torch.ops.aten.alias.default", own_operand(names)),
        Operator::Relu => ("torch.ops.aten.relu.default", own_operand(names)),
        Operator::Sigmoid => ("torch.ops.aten.sigmoid.default", own_operand(names)),
        Operator::Tanh => ("torch.ops.aten.tanh.default", own_operand(names)),
        Operator::Add => ("torch.ops.aten.add.Tensor", two_operands(names)),
        Operator::Subtract => ("torch.ops.aten.sub.Tensor", two_operands(names)),
        Operator::Multiply => ("torch.ops.aten.mul.Tensor", two_operands(names)),
        Operator::Matmul => ("torch.ops.aten.matmul.default", two_operands(names)),
        Operator::Linear => ("torch.ops.aten.linear.default", linear_operands(names)),
        Operator::Reshape(shape) => {
            let mut arguments = own_operand(names);
            add_argument(&mut arguments, "shape", single("as_sym_ints", integer_args(shape.as_slice())));
            ("torch.ops.aten.reshape.default", arguments)
        },
        Operator::Flatten { start, end } => {
            let mut arguments = own_operand(names);
            add_argument(&mut arguments, "start_dim", integer_arg(*start));
            add_argument(&mut arguments, "end_dim", integer_arg(*end));
            ("torch.ops.aten.flatten.using_ints", arguments)
        },
        Operator::Transpose { dim0, dim1 } => {
            let mut arguments = own_operand(names);
            add_argument(&mut arguments, "dim0", integer_arg(*dim0));
            add_argument(&mut arguments, "dim1", integer_arg(*dim1));
            ("torch.ops.aten.transpose.int", arguments)
        },
        Operator::Permute(axes) => {
            let mut arguments = own_operand(names);
            add_argument(&mut arguments, "dims", single("as_ints", plain_integers(axes.as_slice())));
            ("torch.ops.aten.permute.default", arguments)
        },
        Operator::Cat(dim) => {
            let mut arguments: Vec<Json> = Vec::new();
            let tensors = single("as_tensors", name_list(names));
            let ghost first = tensors@;
            add_argument(&mut arguments, "tensors", tensors);
            add_argument(&mut arguments, "dim", integer_arg(*dim));
            assert(items_view(arguments@) =~= seq![named_union("tensors"@, first), named_union("dim"@, int_union(*dim))]);
            ("torch.ops.aten.cat.default", arguments)
        },
        Operator::If { .. } => ("", Vec::new()),
    }
}

/// Writes the names that values go by.
pub(crate) fn rename_all(map: &NameMap<String>, names: &Vec<String>) -> (r: Vec<String>)
    requires
        map.wf(),
    ensures
        texts(r@) == all_renamed(renames(map@), texts(names@)),
{
    let ghost known = renames(map@);
    let mut out: Vec<String> = Vec::new();
    let mut i: usize = 0;
    while i < names.len()
        invariant
            map.wf(),
            known == renames(map@),
            i <= names@.len(),
            out@.len() == i,
            forall|j: int| 0 <= j < i ==> (#[trigger] out@[j])@ == renamed(known, names@[j]@),
        decreases names@.len() - i,
    {
        out.push(rename(map, names[i].as_str()));
        i += 1;
    }
    assert(texts(out@) =~= all_renamed(known, texts(names@)));
    out
}

/// Writes a node of the graph.
pub(crate) fn node(operation: &Operation, map: &NameMap<String>) -> (r: Json)
    requires
        map.wf(),
        !(operation.operator is If),
    ensures
        r@ == node_union(operation@, renames(map@)),
{
    proof {
        super::super::types::operation_parts(*operation);
    }
    let names = rename_all(map, &operation.inputs);
    let (target, arguments) = write_call(&operation.operator, &names);
    let mut outputs: Vec<Json> = Vec::new();
    outputs.push(tensor_arg(operation.name.as_str()));
    assert(items_view(outputs@) =~= seq![tensor_union(operation.name@)]);
    let ghost written = items_view(arguments@);
    let keys: Vec<&str> = vec!["inputs", "is_hop_single_tensor_return", "metadata", "name", "outputs", "target"];
    let values: Vec<Json> = vec![
        list(arguments),
        Json::Null,
        nothing(),
        text_value(operation.name.as_str()),
        list(outputs),
        text_value(target),
    ];
    assert(keys@.map_values(|k: &str| k@) =~= seq![
        "inputs"@, "is_hop_single_tensor_return"@, "metadata"@, "name"@, "outputs"@, "target"@,
    ]);
    assert(items_view(values@) =~= seq![
        JsonView::List(written),
        JsonView::Null,
        object_of(Seq::empty(), Seq::empty()),
        JsonView::Text(operation.name@),
        JsonView::List(seq![tensor_union(operation.name@)]),
        JsonView::Text(target@),
    ]);
    object_with(keys, values)
}

} // verus!
