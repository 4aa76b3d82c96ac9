//! What a program that was written means when it is read.
use super::super::types::OperatorView;
use super::json::{as_array, as_integer, as_tensor_name, entry, field, integer_items, lookup, JsonView};
use super::operator::{
    argument, cat_choice, left_over, listed_names, parsed_operator, renamed, shape_of, takes, union_items,
};
use super::write::{all_renamed, call_of, int_union, int_unions, named_union, object_of, operands, tensor_union};
use super::load::argument_checks;
use crate::error::{first_at, first_at_none, ErrorView};
use vstd::prelude::*;

verus! {

/// An operator and the number of operands that it takes.
pub open spec fn fits(operator: OperatorView, operands: nat) -> bool {
    match operator {
        OperatorView::Add | OperatorView::Subtract | OperatorView::Multiply | OperatorView::Matmul => operands == 2,
        OperatorView::Linear => operands == 2 || operands == 3,
        OperatorView::Cat(_) => true,
        OperatorView::If { .. } => false,
        _ => operands == 1,
    }
}

/// No two arguments have the same name.
pub open spec fn are_distinct(items: Seq<JsonView>) -> bool {
    first_at(0, items.len() as int, argument_checks(items)) is None
}

pub(super) proof fn short_names()
    ensures
        "arg"@.len() == 3,
        "kind"@.len() == 4,
        "kind"@[0] == 'k',
        "name"@.len() == 4,
        "name"@[0] == 'n',
        "as_int"@.len() == 6,
        "as_ints"@.len() == 7,
        "as_sym_ints"@.len() == 11,
        "as_float"@.len() == 8,
        "as_none"@.len() == 7,
        "as_none"@[3] == 'n',
        "as_ints"@[3] == 'i',
        "as_tensor"@.len() == 9,
        "as_tensors"@.len() == 10,
{
    reveal_strlit("arg");
    reveal_strlit("kind");
    reveal_strlit("name");
    reveal_strlit("as_int");
    reveal_strlit("as_ints");
    reveal_strlit("as_sym_ints");
    reveal_strlit("as_float");
    reveal_strlit("as_none");
    reveal_strlit("as_tensor");
    reveal_strlit("as_tensors");
}

pub(super) proof fn argument_names()
    ensures
        "self"@.len() == 4,
        "self"@[0] == 's',
        "other"@.len() == 5,
        "other"@[0] == 'o',
        "alpha"@.len() == 5,
        "alpha"@[0] == 'a',
        "input"@.len() == 5,
        "input"@[0] == 'i',
        "weight"@.len() == 6,
        "bias"@.len() == 4,
        "bias"@[0] == 'b',
        "shape"@.len() == 5,
        "shape"@[0] == 's',
        "start_dim"@.len() == 9,
        "end_dim"@.len() == 7,
        "end_dim"@[0] == 'e',
        "dim0"@.len() == 4,
        "dim0"@[0] == 'd',
        "dim0"@[3] == '0',
        "dim1"@.len() == 4,
        "dim1"@[0] == 'd',
        "dim1"@[3] == '1',
        "dims"@.len() == 4,
        "dims"@[0] == 'd',
        "dims"@[3] == 's',
        "tensors"@.len() == 7,
        "tensors"@[0] == 't',
        "dim"@.len() == 3,
{
    reveal_strlit("self");
    reveal_strlit("other");
    reveal_strlit("alpha");
    reveal_strlit("input");
    reveal_strlit("weight");
    reveal_strlit("bias");
    reveal_strlit("shape");
    reveal_strlit("start_dim");
    reveal_strlit("end_dim");
    reveal_strlit("dim0");
    reveal_strlit("dim1");
    reveal_strlit("dims");
    reveal_strlit("tensors");
    reveal_strlit("dim");
}

/// A target by its length and the first two characters of the operator.
pub(super) open spec fn is_target(target: Seq<char>, length: int, first: char, second: char) -> bool {
    target.len() == length && target[15] == first && target[16] == second
}

pub(super) proof fn targets()
    ensures
        is_target("torch.ops.aten.relu.default"@, 27, 'r', 'e'),
        is_target("torch.ops.aten.sigmoid.default"@, 30, 's', 'i'),
        is_target("torch.ops.aten.tanh.default"@, 27, 't', 'a'),
        is_target("torch.ops.aten.alias.default"@, 28, 'a', 'l'),
        is_target("torch.ops.aten.add.Tensor"@, 25, 'a', 'd'),
        is_target("torch.ops.aten.sub.Tensor"@, 25, 's', 'u'),
        is_target("torch.ops.aten.mul.Tensor"@, 25, 'm', 'u'),
        is_target("torch.ops.aten.matmul.default"@, 29, 'm', 'a'),
        is_target("torch.ops.aten.mm.default"@, 25, 'm', 'm'),
        is_target("torch.ops.aten.linear.default"@, 29, 'l', 'i'),
        is_target("torch.ops.aten.reshape.default"@, 30, 'r', 'e'),
        is_target("torch.ops.aten.view.default"@, 27, 'v', 'i'),
        is_target("torch.ops.aten.flatten.using_ints"@, 33, 'f', 'l'),
        is_target("torch.ops.aten.transpose.int"@, 28, 't', 'r'),
        is_target("torch.ops.aten.permute.default"@, 30, 'p', 'e'),
        is_target("torch.ops.aten.cat.default"@, 26, 'c', 'a'),
{
    reveal_strlit("torch.ops.aten.relu.default");
    reveal_strlit("torch.ops.aten.sigmoid.default");
    reveal_strlit("torch.ops.aten.tanh.default");
    reveal_strlit("torch.ops.aten.alias.default");
    reveal_strlit("torch.ops.aten.add.Tensor");
    reveal_strlit("torch.ops.aten.sub.Tensor");
    reveal_strlit("torch.ops.aten.mul.Tensor");
    reveal_strlit("torch.ops.aten.matmul.default");
    reveal_strlit("torch.ops.aten.mm.default");
    reveal_strlit("torch.ops.aten.linear.default");
    reveal_strlit("torch.ops.aten.reshape.default");
    reveal_strlit("torch.ops.aten.view.default");
    reveal_strlit("torch.ops.aten.flatten.using_ints");
    reveal_strlit("torch.ops.aten.transpose.int");
    reveal_strlit("torch.ops.aten.permute.default");
    reveal_strlit("torch.ops.aten.cat.default");
}

/// The only entry of an object.
pub(super) proof fn only_entry(key: Seq<char>, value: JsonView, other: Seq<char>)
    ensures
        entry(object_of(seq![key], seq![value]), key) == Some(value),
        other != key ==> entry(object_of(seq![key], seq![value]), other) is None,
        object_of(seq![key], seq![value])->Object_0.len() == 1,
{
    reveal_with_fuel(lookup, 3);
    let entries = object_of(seq![key], seq![value])->Object_0;
    assert(entries.len() == 1);
    assert(entries[0] == (key, value));
}

proof fn argument_fields(name: Seq<char>, value: JsonView)
    ensures
        field(named_union(name, value), "name"@) == JsonView::Text(name),
        field(named_union(name, value), "arg"@) == value,
{
    short_names();
    reveal_with_fuel(lookup, 5);
    let entries = named_union(name, value)->Object_0;
    assert(entries.len() == 3);
    assert(entries[0] == ("arg"@, value));
    assert(entries[1] == ("kind"@, JsonView::Int(1)));
    assert(entries[2] == ("name"@, JsonView::Text(name)));
}

/// Arguments under given names.
pub(super) open spec fn is_call(items: Seq<JsonView>, keys: Seq<Seq<char>>, values: Seq<JsonView>) -> bool {
    &&& items.len() == keys.len()
    &&& values.len() == keys.len()
    &&& forall|j: int| 0 <= j < keys.len() ==> #[trigger] items[j] == named_union(keys[j], values[j])
}

pub(super) proof fn argument_found(items: Seq<JsonView>, keys: Seq<Seq<char>>, values: Seq<JsonView>, i: int, from: int)
    requires
        is_call(items, keys, values),
        0 <= from <= i < keys.len(),
        forall|j: int| from <= j < i ==> #[trigger] keys[j] != keys[i],
    ensures
        argument(items, keys[i], from) == Some(values[i]),
    decreases i - from,
{
    assert(items[from] == named_union(keys[from], values[from]));
    argument_fields(keys[from], values[from]);
    if from < i {
        argument_found(items, keys, values, i, from + 1);
    }
}

pub(super) proof fn argument_missing(items: Seq<JsonView>, keys: Seq<Seq<char>>, values: Seq<JsonView>, key: Seq<char>, from: int)
    requires
        is_call(items, keys, values),
        0 <= from <= keys.len(),
        forall|j: int| 0 <= j < keys.len() ==> #[trigger] keys[j] != key,
    ensures
        argument(items, key, from) is None,
    decreases keys.len() - from,
{
    if from < keys.len() {
        assert(items[from] == named_union(keys[from], values[from]));
        argument_fields(keys[from], values[from]);
        argument_missing(items, keys, values, key, from + 1);
    }
}

pub(super) proof fn nothing_left(target: Seq<char>, items: Seq<JsonView>, keys: Seq<Seq<char>>, values: Seq<JsonView>)
    requires
        is_call(items, keys, values),
        forall|j: int| 0 <= j < keys.len() ==> takes(target, #[trigger] keys[j]),
    ensures
        left_over(target, items).dom() == Set::<Seq<char>>::empty(),
{
    assert forall|name: Seq<char>| !left_over(target, items).dom().contains(name) by {
        if left_over(target, items).dom().contains(name) {
            let j = choose|j: int| 0 <= j < items.len() && field(#[trigger] items[j], "name"@) == JsonView::Text(name);
            assert(items[j] == named_union(keys[j], values[j]));
            argument_fields(keys[j], values[j]);
            assert(takes(target, keys[j]));
        }
    }
    assert(left_over(target, items).dom() =~= Set::<Seq<char>>::empty());
}

/// Arguments with different names are accepted.
proof fn distinct_call(items: Seq<JsonView>, keys: Seq<Seq<char>>, values: Seq<JsonView>)
    requires
        is_call(items, keys, values),
        keys.no_duplicates(),
    ensures
        are_distinct(items),
{
    assert forall|i: int| 0 <= i < items.len() implies (#[trigger] argument_checks(items)(i)) is None by {
        assert forall|j: int| 0 <= j < items.len() implies field(#[trigger] items[j], "name"@) == JsonView::Text(keys[j]) by {
            assert(items[j] == named_union(keys[j], values[j]));
            argument_fields(keys[j], values[j]);
        }
    }
    first_at_none(0, items.len() as int, argument_checks(items));
}

pub(super) proof fn tensor_survives(name: Seq<char>)
    ensures
        as_tensor_name(tensor_union(name)) == Ok::<Seq<char>, ErrorView>(name),
{
    only_entry("name"@, JsonView::Text(name), "name"@);
    only_entry("as_tensor"@, object_of(seq!["name"@], seq![JsonView::Text(name)]), "as_tensor"@);
}

proof fn integer_survives(n: i64)
    ensures
        as_integer(field(int_union(n), "as_int"@)) == Ok::<i64, ErrorView>(n),
{
    only_entry("as_int"@, JsonView::Int(n), "as_int"@);
}

pub(super) proof fn integers_survive(list: Seq<i64>, n: int)
    requires
        0 <= n <= list.len(),
    ensures
        integer_items(list.map_values(|v: i64| JsonView::Int(v)), n) == Ok::<Seq<i64>, ErrorView>(list.take(n)),
        union_items(list.map_values(|v: i64| int_union(v)), n) == Ok::<Seq<i64>, ErrorView>(list.take(n)),
    decreases n,
{
    if n > 0 {
        integers_survive(list, n - 1);
        integer_survives(list[n - 1]);
        assert(list.take(n) =~= list.take(n - 1).push(list[n - 1]));
    } else {
        assert(list.take(0) =~= Seq::empty());
    }
}

pub(super) proof fn names_survive(names: Seq<Seq<char>>, map: Map<Seq<char>, Seq<char>>, n: int)
    requires
        0 <= n <= names.len(),
    ensures
        listed_names(
            names.map_values(|name: Seq<char>| object_of(seq!["name"@], seq![JsonView::Text(name)])),
            map,
            n,
        ) == Ok::<Seq<Seq<char>>, ErrorView>(all_renamed(map, names).take(n)),
    decreases n,
{
    if n > 0 {
        names_survive(names, map, n - 1);
        only_entry("name"@, JsonView::Text(names[n - 1]), "name"@);
        assert(all_renamed(map, names).take(n) =~= all_renamed(map, names).take(n - 1).push(renamed(map, names[n - 1])));
    } else {
        assert(all_renamed(map, names).take(0) =~= Seq::empty());
    }
}

proof fn unary_survives(operator: OperatorView, names: Seq<Seq<char>>, map: Map<Seq<char>, Seq<char>>)
    requires
        names.len() == 1,
        operator is Identity || operator is Relu || operator is Sigmoid || operator is Tanh,
    ensures
        parsed_operator(call_of(operator, names).0, call_of(operator, names).1, map) == Ok::<
            (OperatorView, Seq<Seq<char>>),
            ErrorView,
        >((operator, all_renamed(map, names))),
        are_distinct(call_of(operator, names).1),
{
    targets();
    let (target, items) = call_of(operator, names);
    let keys = seq!["self"@];
    let values = seq![tensor_union(names[0])];
    assert(is_call(items, keys, values));
    argument_found(items, keys, values, 0, 0);
    tensor_survives(names[0]);
    nothing_left(target, items, keys, values);
    distinct_call(items, keys, values);
    assert(all_renamed(map, names) =~= seq![renamed(map, names[0])]);
}

proof fn binary_survives(operator: OperatorView, names: Seq<Seq<char>>, map: Map<Seq<char>, Seq<char>>)
    requires
        names.len() == 2,
        operator is Add || operator is Subtract || operator is Multiply || operator is Matmul,
    ensures
        parsed_operator(call_of(operator, names).0, call_of(operator, names).1, map) == Ok::<
            (OperatorView, Seq<Seq<char>>),
            ErrorView,
        >((operator, all_renamed(map, names))),
        are_distinct(call_of(operator, names).1),
{
    targets();
    argument_names();
    let (target, items) = call_of(operator, names);
    let keys = seq!["self"@, "other"@];
    let values = seq![tensor_union(names[0]), tensor_union(names[1])];
    assert(is_call(items, keys, values));
    argument_found(items, keys, values, 0, 0);
    argument_found(items, keys, values, 1, 0);
    argument_missing(items, keys, values, "alpha"@, 0);
    tensor_survives(names[0]);
    tensor_survives(names[1]);
    nothing_left(target, items, keys, values);
    distinct_call(items, keys, values);
    assert(all_renamed(map, names) =~= seq![renamed(map, names[0]), renamed(map, names[1])]);
}

proof fn linear_survives(names: Seq<Seq<char>>, map: Map<Seq<char>, Seq<char>>)
    requires
        names.len() == 2 || names.len() == 3,
    ensures
        parsed_operator(call_of(OperatorView::Linear, names).0, call_of(OperatorView::Linear, names).1, map) == Ok::<
            (OperatorView, Seq<Seq<char>>),
            ErrorView,
        >((OperatorView::Linear, all_renamed(map, names))),
        are_distinct(call_of(OperatorView::Linear, names).1),
{
    targets();
    short_names();
    argument_names();
    let (target, items) = call_of(OperatorView::Linear, names);
    tensor_survives(names[0]);
    tensor_survives(names[1]);
    if names.len() == 2 {
        let keys = seq!["input"@, "weight"@];
        let values = seq![tensor_union(names[0]), tensor_union(names[1])];
        assert(is_call(items, keys, values));
        argument_found(items, keys, values, 0, 0);
        argument_found(items, keys, values, 1, 0);
        argument_missing(items, keys, values, "bias"@, 0);
        nothing_left(target, items, keys, values);
        distinct_call(items, keys, values);
        assert(all_renamed(map, names) =~= seq![renamed(map, names[0]), renamed(map, names[1])]);
    } else {
        let keys = seq!["input"@, "weight"@, "bias"@];
        let values = seq![tensor_union(names[0]), tensor_union(names[1]), tensor_union(names[2])];
        assert(is_call(items, keys, values));
        argument_found(items, keys, values, 0, 0);
        argument_found(items, keys, values, 1, 0);
        argument_found(items, keys, values, 2, 0);
        tensor_survives(names[2]);
        only_entry("as_tensor"@, object_of(seq!["name"@], seq![JsonView::Text(names[2])]), "as_none"@);
        nothing_left(target, items, keys, values);
        distinct_call(items, keys, values);
        assert(all_renamed(map, names) =~= seq![renamed(map, names[0]), renamed(map, names[1]), renamed(map, names[2])]);
    }
}

proof fn shape_survives(operator: OperatorView, names: Seq<Seq<char>>, map: Map<Seq<char>, Seq<char>>)
    requires
        names.len() == 1,
        operator is Reshape || operator is Permute,
    ensures
        parsed_operator(call_of(operator, names).0, call_of(operator, names).1, map) == Ok::<
            (OperatorView, Seq<Seq<char>>),
            ErrorView,
        >((operator, all_renamed(map, names))),
        are_distinct(call_of(operator, names).1),
{
    targets();
    short_names();
    argument_names();
    let (target, items) = call_of(operator, names);
    tensor_survives(names[0]);
    assert(all_renamed(map, names) =~= seq![renamed(map, names[0])]);
    match operator {
        OperatorView::Reshape(shape) => {
            let union = object_of(seq!["as_sym_ints"@], seq![int_unions(shape)]);
            let keys = seq!["self"@, "shape"@];
            let values = seq![tensor_union(names[0]), union];
            assert(is_call(items, keys, values));
            argument_found(items, keys, values, 0, 0);
            argument_found(items, keys, values, 1, 0);
            only_entry("as_sym_ints"@, int_unions(shape), "as_ints"@);
            only_entry("as_sym_ints"@, int_unions(shape), "as_sym_ints"@);
            integers_survive(shape, shape.len() as int);
            assert(shape.take(shape.len() as int) =~= shape);
            assert(shape_of(union) == Ok::<Seq<i64>, ErrorView>(shape));
            nothing_left(target, items, keys, values);
            distinct_call(items, keys, values);
        },
        OperatorView::Permute(axes) => {
            let list = JsonView::List(axes.map_values(|n: i64| JsonView::Int(n)));
            let union = object_of(seq!["as_ints"@], seq![list]);
            let keys = seq!["self"@, "dims"@];
            let values = seq![tensor_union(names[0]), union];
            assert(is_call(items, keys, values));
            argument_found(items, keys, values, 0, 0);
            argument_found(items, keys, values, 1, 0);
            only_entry("as_ints"@, list, "as_ints"@);
            integers_survive(axes, axes.len() as int);
            assert(axes.take(axes.len() as int) =~= axes);
            assert(as_array(field(union, "as_ints"@)) == Ok::<Seq<JsonView>, ErrorView>(
                axes.map_values(|n: i64| JsonView::Int(n)),
            ));
            nothing_left(target, items, keys, values);
            distinct_call(items, keys, values);
        },
        _ => {},
    }
}

proof fn axes_survive(operator: OperatorView, names: Seq<Seq<char>>, map: Map<Seq<char>, Seq<char>>)
    requires
        names.len() == 1,
        operator is Flatten || operator is Transpose,
    ensures
        parsed_operator(call_of(operator, names).0, call_of(operator, names).1, map) == Ok::<
            (OperatorView, Seq<Seq<char>>),
            ErrorView,
        >((operator, all_renamed(map, names))),
        are_distinct(call_of(operator, names).1),
{
    targets();
    argument_names();
    let (target, items) = call_of(operator, names);
    tensor_survives(names[0]);
    assert(all_renamed(map, names) =~= seq![renamed(map, names[0])]);
    match operator {
        OperatorView::Flatten { start, end } => {
            let keys = seq!["self"@, "start_dim"@, "end_dim"@];
            let values = seq![tensor_union(names[0]), int_union(start), int_union(end)];
            assert(is_call(items, keys, values));
            argument_found(items, keys, values, 0, 0);
            argument_found(items, keys, values, 1, 0);
            argument_found(items, keys, values, 2, 0);
            integer_survives(start);
            integer_survives(end);
            nothing_left(target, items, keys, values);
            distinct_call(items, keys, values);
        },
        OperatorView::Transpose { dim0, dim1 } => {
            let keys = seq!["self"@, "dim0"@, "dim1"@];
            let values = seq![tensor_union(names[0]), int_union(dim0), int_union(dim1)];
            assert(is_call(items, keys, values));
            argument_found(items, keys, values, 0, 0);
            argument_found(items, keys, values, 1, 0);
            argument_found(items, keys, values, 2, 0);
            integer_survives(dim0);
            integer_survives(dim1);
            nothing_left(target, items, keys, values);
            distinct_call(items, keys, values);
        },
        _ => {},
    }
}

proof fn cat_survives(dim: i64, names: Seq<Seq<char>>, map: Map<Seq<char>, Seq<char>>)
    ensures
        parsed_operator(call_of(OperatorView::Cat(dim), names).0, call_of(OperatorView::Cat(dim), names).1, map) == Ok::<
            (OperatorView, Seq<Seq<char>>),
            ErrorView,
        >((OperatorView::Cat(dim), all_renamed(map, names))),
        are_distinct(call_of(OperatorView::Cat(dim), names).1),
{
    targets();
    argument_names();
    let (target, items) = call_of(OperatorView::Cat(dim), names);
    let tensors = names.map_values(|n: Seq<char>| object_of(seq!["name"@], seq![JsonView::Text(n)]));
    let union = object_of(seq!["as_tensors"@], seq![JsonView::List(tensors)]);
    let keys = seq!["tensors"@, "dim"@];
    let values = seq![union, int_union(dim)];
    assert(is_call(items, keys, values));
    argument_found(items, keys, values, 0, 0);
    argument_found(items, keys, values, 1, 0);
    only_entry("as_tensors"@, JsonView::List(tensors), "as_tensors"@);
    names_survive(names, map, names.len() as int);
    assert(all_renamed(map, names).take(names.len() as int) =~= all_renamed(map, names));
    integer_survives(dim);
    nothing_left(target, items, keys, values);
    distinct_call(items, keys, values);
    assert(cat_choice(items, map) == Ok::<(OperatorView, Seq<Seq<char>>), ErrorView>(
        (OperatorView::Cat(dim), all_renamed(map, names)),
    ));
}

/// An operator that was written is read back: every operator but a conditional one, with as
/// many operands as it takes, becomes a target and arguments that mean that operator with those
/// operands, each under the name that it goes by. No two arguments have the same name.
pub proof fn operators_survive(operator: OperatorView, names: Seq<Seq<char>>, map: Map<Seq<char>, Seq<char>>)
    requires
        fits(operator, names.len()),
    ensures
        parsed_operator(call_of(operator, names).0, call_of(operator, names).1, map) == Ok::<
            (OperatorView, Seq<Seq<char>>),
            ErrorView,
        >((operator, all_renamed(map, names))),
        are_distinct(call_of(operator, names).1),
{
    match operator {
        OperatorView::Identity | OperatorView::Relu | OperatorView::Sigmoid | OperatorView::Tanh => {
            unary_survives(operator, names, map);
        },
        OperatorView::Add | OperatorView::Subtract | OperatorView::Multiply | OperatorView::Matmul => {
            binary_survives(operator, names, map);
        },
        OperatorView::Linear => {
            linear_survives(names, map);
        },
        OperatorView::Reshape(_) | OperatorView::Permute(_) => {
            shape_survives(operator, names, map);
        },
        OperatorView::Flatten { .. } | OperatorView::Transpose { .. } => {
            axes_survive(operator, names, map);
        },
        OperatorView::Cat(dim) => {
            cat_survives(dim, names, map);
        },
        OperatorView::If { .. } => {},
    }
}

} // verus!
