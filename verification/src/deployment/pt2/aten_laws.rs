//! What the targets of a graph mean: every operator goes by the name that it has in the `aten`
//! library, both when it is written and when it is read.
use super::super::types::{DType, OperatorView};
use super::json::{as_dtype, as_tensor_name, field, scalar_code_of, JsonView};
use super::laws::{
    argument_found, argument_missing, argument_names, fits, integers_survive, is_call, names_survive, nothing_left, only_entry,
    operators_survive, short_names, targets, tensor_survives,
};
use super::operator::{argument, parsed_operator, shape_of, tensor_argument};
use super::write::{call_of, int_union, int_unions, named_union, object_of, tensor_union};
use crate::error::ErrorView;
use vstd::prelude::*;

verus! {

/// The argument of a call under a name.
pub open spec fn argument_json(key: Seq<char>, value: JsonView) -> JsonView {
    JsonView::Object(seq![("arg"@, value), ("kind"@, JsonView::Int(1)), ("name"@, JsonView::Text(key))])
}

/// A tensor that is given by its name.
pub open spec fn tensor_json(name: Seq<char>) -> JsonView {
    JsonView::Object(seq![("as_tensor"@, JsonView::Object(seq![("name"@, JsonView::Text(name))]))])
}

/// An integer that is given by its value.
pub open spec fn integer_json(n: i64) -> JsonView {
    JsonView::Object(seq![("as_int"@, JsonView::Int(n))])
}

/// A list of sizes, each of which could be symbolic.
pub open spec fn sizes_json(list: Seq<i64>) -> JsonView {
    JsonView::Object(seq![("as_sym_ints"@, JsonView::List(Seq::new(list.len(), |i: int| integer_json(list[i]))))])
}

/// A list of integers.
pub open spec fn integers_json(list: Seq<i64>) -> JsonView {
    JsonView::Object(seq![("as_ints"@, JsonView::List(Seq::new(list.len(), |i: int| JsonView::Int(list[i]))))])
}

/// A list of tensors that are given by their names.
pub open spec fn tensors_json(names: Seq<Seq<char>>) -> JsonView {
    JsonView::Object(
        seq![
            (
                "as_tensors"@,
                JsonView::List(Seq::new(names.len(), |i: int| JsonView::Object(seq![("name"@, JsonView::Text(names[i]))]))),
            ),
        ],
    )
}

/// What an operator makes of single numbers, where it is arithmetic on each element.
pub open spec fn on_numbers(operator: OperatorView, x: int, y: int) -> Option<int> {
    match operator {
        OperatorView::Identity => Some(x),
        OperatorView::Relu => Some(
            if x < 0 {
                0
            } else {
                x
            },
        ),
        OperatorView::Add => Some(x + y),
        OperatorView::Subtract => Some(x - y),
        OperatorView::Multiply => Some(x * y),
        _ => None,
    }
}

/// Some argument of a call has the given name and is the given tensor.
pub open spec fn gives_tensor(items: Seq<JsonView>, key: Seq<char>, name: Seq<char>) -> bool {
    exists|i: int|
        0 <= i < items.len() && field(#[trigger] items[i], "name"@) == JsonView::Text(key) && field(
            field(field(items[i], "arg"@), "as_tensor"@),
            "name"@,
        ) == JsonView::Text(name)
}

/// An operand is the tensor of an argument, by the name that it goes by.
pub open spec fn is_operand(
    items: Seq<JsonView>,
    map: Map<Seq<char>, Seq<char>>,
    key: Seq<char>,
    operand: Seq<char>,
) -> bool {
    exists|name: Seq<char>| #[trigger]
        gives_tensor(items, key, name) && operand == (if map.dom().contains(name) {
            map[name]
        } else {
            name
        })
}

proof fn same_json()
    ensures
        forall|key: Seq<char>, value: JsonView| #[trigger] named_union(key, value) == argument_json(key, value),
        forall|name: Seq<char>| #[trigger] tensor_union(name) == tensor_json(name),
        forall|n: i64| #[trigger] int_union(n) == integer_json(n),
{
    assert forall|key: Seq<char>, value: JsonView| #[trigger] named_union(key, value) == argument_json(key, value) by {
        assert(named_union(key, value)->Object_0 =~= argument_json(key, value)->Object_0);
    }
    assert forall|name: Seq<char>| #[trigger] tensor_union(name) == tensor_json(name) by {
        let inner = object_of(seq!["name"@], seq![JsonView::Text(name)]);
        assert(inner->Object_0 =~= seq![("name"@, JsonView::Text(name))]);
        assert(tensor_union(name)->Object_0 =~= seq![("as_tensor"@, inner)]);
    }
    assert forall|n: i64| #[trigger] int_union(n) == integer_json(n) by {
        assert(int_union(n)->Object_0 =~= integer_json(n)->Object_0);
    }
}

/// Every operator is written as a call of the function of that name in the `aten` library, with
/// its operands and settings under the names of that function's arguments.
pub proof fn operators_are_written_as_aten_calls(operator: OperatorView, names: Seq<Seq<char>>)
    requires
        fits(operator, names.len()),
    ensures
        ({
            let (target, items) = call_of(operator, names);
            let x = argument_json("self"@, tensor_json(names[0]));
            let y = argument_json("other"@, tensor_json(names[1]));
            match operator {
                OperatorView::Identity => target == "torch.ops.aten.alias.default"@ && items == seq![x],
                OperatorView::Relu => target == "torch.ops.aten.relu.default"@ && items == seq![x],
                OperatorView::Sigmoid => target == "torch.ops.aten.sigmoid.default"@ && items == seq![x],
                OperatorView::Tanh => target == "torch.ops.aten.tanh.default"@ && items == seq![x],
                OperatorView::Add => target == "torch.ops.aten.add.Tensor"@ && items == seq![x, y],
                OperatorView::Subtract => target == "torch.ops.aten.sub.Tensor"@ && items == seq![x, y],
                OperatorView::Multiply => target == "torch.ops.aten.mul.Tensor"@ && items == seq![x, y],
                OperatorView::Matmul => target == "torch.ops.aten.matmul.default"@ && items == seq![x, y],
                OperatorView::Linear => {
                    let input = argument_json("input"@, tensor_json(names[0]));
                    let weight = argument_json("weight"@, tensor_json(names[1]));
                    let bias = argument_json("bias"@, tensor_json(names[2]));
                    target == "torch.ops.aten.linear.default"@ && items == (if names.len() == 2 {
                        seq![input, weight]
                    } else {
                        seq![input, weight, bias]
                    })
                },
                OperatorView::Reshape(shape) => target == "torch.ops.aten.reshape.default"@ && items == seq![
                    x,
                    argument_json("shape"@, sizes_json(shape)),
                ],
                OperatorView::Flatten { start, end } => target == "torch.ops.aten.flatten.using_ints"@ && items == seq![
                    x,
                    argument_json("start_dim"@, integer_json(start)),
                    argument_json("end_dim"@, integer_json(end)),
                ],
                OperatorView::Transpose { dim0, dim1 } => target == "torch.ops.aten.transpose.int"@ && items == seq![
                    x,
                    argument_json("dim0"@, integer_json(dim0)),
                    argument_json("dim1"@, integer_json(dim1)),
                ],
                OperatorView::Permute(axes) => target == "torch.ops.aten.permute.default"@ && items == seq![
                    x,
                    argument_json("dims"@, integers_json(axes)),
                ],
                OperatorView::Cat(dim) => target == "torch.ops.aten.cat.default"@ && items == seq![
                    argument_json("tensors"@, tensors_json(names)),
                    argument_json("dim"@, integer_json(dim)),
                ],
                OperatorView::If { .. } => false,
            }
        }),
{
    same_json();
    let (target, items) = call_of(operator, names);
    let x = argument_json("self"@, tensor_json(names[0]));
    let y = argument_json("other"@, tensor_json(names[1]));
    match operator {
        OperatorView::Identity | OperatorView::Relu | OperatorView::Sigmoid | OperatorView::Tanh => {
            assert(items =~= seq![x]);
        },
        OperatorView::Add | OperatorView::Subtract | OperatorView::Multiply | OperatorView::Matmul => {
            assert(items =~= seq![x, y]);
        },
        OperatorView::Linear => {
            let input = argument_json("input"@, tensor_json(names[0]));
            let weight = argument_json("weight"@, tensor_json(names[1]));
            let bias = argument_json("bias"@, tensor_json(names[2]));
            if names.len() == 2 {
                assert(items =~= seq![input, weight]);
            } else {
                assert(items =~= seq![input, weight, bias]);
            }
        },
        OperatorView::Reshape(shape) => {
            let sizes = object_of(seq!["as_sym_ints"@], seq![int_unions(shape)]);
            assert(int_unions(shape)->List_0 =~= Seq::new(shape.len(), |i: int| integer_json(shape[i])));
            assert(sizes->Object_0 =~= sizes_json(shape)->Object_0);
            assert(items =~= seq![x, argument_json("shape"@, sizes_json(shape))]);
        },
        OperatorView::Flatten { start, end } => {
            assert(items =~= seq![
                x,
                argument_json("start_dim"@, integer_json(start)),
                argument_json("end_dim"@, integer_json(end)),
            ]);
        },
        OperatorView::Transpose { dim0, dim1 } => {
            assert(items =~= seq![
                x,
                argument_json("dim0"@, integer_json(dim0)),
                argument_json("dim1"@, integer_json(dim1)),
            ]);
        },
        OperatorView::Permute(axes) => {
            let list = axes.map_values(|n: i64| JsonView::Int(n));
            assert(list =~= Seq::new(axes.len(), |i: int| JsonView::Int(axes[i])));
            let dims = object_of(seq!["as_ints"@], seq![JsonView::List(list)]);
            assert(dims->Object_0 =~= integers_json(axes)->Object_0);
            assert(items =~= seq![x, argument_json("dims"@, integers_json(axes))]);
        },
        OperatorView::Cat(dim) => {
            let list = names.map_values(|n: Seq<char>| object_of(seq!["name"@], seq![JsonView::Text(n)]));
            let right = Seq::new(names.len(), |i: int| JsonView::Object(seq![("name"@, JsonView::Text(names[i]))]));
            assert forall|i: int| 0 <= i < names.len() implies #[trigger] list[i] == right[i] by {
                assert(list[i]->Object_0 =~= right[i]->Object_0);
            }
            assert(list =~= right);
            let tensors = object_of(seq!["as_tensors"@], seq![JsonView::List(list)]);
            assert(tensors->Object_0 =~= tensors_json(names)->Object_0);
            assert(items =~= seq![argument_json("tensors"@, tensors_json(names)), argument_json("dim"@, integer_json(dim))]);
        },
        OperatorView::If { .. } => {},
    }
}

proof fn argument_is_given(items: Seq<JsonView>, key: Seq<char>, from: int)
    requires
        0 <= from <= items.len(),
        argument(items, key, from) is Some,
    ensures
        exists|i: int|
            0 <= i < items.len() && field(#[trigger] items[i], "name"@) == JsonView::Text(key) && field(items[i], "arg"@)
                == argument(items, key, from)->0,
    decreases items.len() - from,
{
    if from < items.len() {
        if field(items[from], "name"@) != JsonView::Text(key) {
            argument_is_given(items, key, from + 1);
        }
    }
}

proof fn operand_is_given(items: Seq<JsonView>, map: Map<Seq<char>, Seq<char>>, key: Seq<char>)
    requires
        tensor_argument(items, map, key) is Ok,
    ensures
        is_operand(items, map, key, tensor_argument(items, map, key)->Ok_0),
{
    argument_is_given(items, key, 0);
    let v = argument(items, key, 0)->0;
    let name = as_tensor_name(v)->Ok_0;
    assert(field(field(v, "as_tensor"@), "name"@) == JsonView::Text(name));
    assert(gives_tensor(items, key, name));
}

/// A call that is accepted is read as the operator whose name its target has in the `aten`
/// library: its operands are the tensors of that function's arguments, and where the operator is
/// arithmetic on each element it computes what the function does.
pub proof fn targets_are_read_as_their_operators(target: Seq<char>, items: Seq<JsonView>, map: Map<Seq<char>, Seq<char>>)
    requires
        parsed_operator(target, items, map) is Ok,
    ensures
        ({
            let (operator, names) = parsed_operator(target, items, map)->Ok_0;
            let unary = names.len() == 1 && is_operand(items, map, "self"@, names[0]);
            let binary = names.len() == 2 && is_operand(items, map, "self"@, names[0]) && is_operand(
                items,
                map,
                "other"@,
                names[1],
            );
            ||| target == "torch.ops.aten.relu.default"@ && operator is Relu && unary
            ||| target == "torch.ops.aten.sigmoid.default"@ && operator is Sigmoid && unary
            ||| target == "torch.ops.aten.tanh.default"@ && operator is Tanh && unary
            ||| target == "torch.ops.aten.alias.default"@ && operator is Identity && unary
            ||| target == "torch.ops.aten.add.Tensor"@ && operator is Add && binary
            ||| target == "torch.ops.aten.sub.Tensor"@ && operator is Subtract && binary
            ||| target == "torch.ops.aten.mul.Tensor"@ && operator is Multiply && binary
            ||| target == "torch.ops.aten.matmul.default"@ && operator is Matmul && binary
            ||| target == "torch.ops.aten.mm.default"@ && operator is Matmul && names.len() == 2 && is_operand(
                items,
                map,
                "self"@,
                names[0],
            ) && is_operand(items, map, "mat2"@, names[1])
            ||| target == "torch.ops.aten.linear.default"@ && operator is Linear && 2 <= names.len() <= 3 && is_operand(
                items,
                map,
                "input"@,
                names[0],
            ) && is_operand(items, map, "weight"@, names[1])
            ||| target == "torch.ops.aten.reshape.default"@ && operator is Reshape && unary
            ||| target == "torch.ops.aten.view.default"@ && operator is Reshape && unary
            ||| target == "torch.ops.aten.flatten.using_ints"@ && operator is Flatten && unary
            ||| target == "torch.ops.aten.transpose.int"@ && operator is Transpose && unary
            ||| target == "torch.ops.aten.permute.default"@ && operator is Permute && unary
            ||| target == "torch.ops.aten.cat.default"@ && operator is Cat
        }),
        ({
            let operator = parsed_operator(target, items, map)->Ok_0.0;
            &&& target == "torch.ops.aten.alias.default"@ ==> forall|x: int, y: int|
                on_numbers(operator, x, y) == Some(x)
            &&& target == "torch.ops.aten.relu.default"@ ==> forall|x: int, y: int|
                (#[trigger] on_numbers(operator, x, y)) is Some && on_numbers(operator, x, y)->0 >= 0 && on_numbers(operator, x, y)->0
                    >= x && (on_numbers(operator, x, y)->0 == 0 || on_numbers(operator, x, y)->0 == x)
            &&& target == "torch.ops.aten.add.Tensor"@ ==> forall|x: int, y: int|
                on_numbers(operator, x, y) == Some(x + y)
            &&& target == "torch.ops.aten.sub.Tensor"@ ==> forall|x: int, y: int|
                on_numbers(operator, x, y) == Some(x - y)
            &&& target == "torch.ops.aten.mul.Tensor"@ ==> forall|x: int, y: int|
                on_numbers(operator, x, y) == Some(x * y)
        }),
{
    targets();
    let keys = seq!["self"@, "other"@, "mat2"@, "input"@, "weight"@];
    assert forall|i: int| 0 <= i < 5 && tensor_argument(items, map, #[trigger] keys[i]) is Ok implies is_operand(
        items,
        map,
        keys[i],
        tensor_argument(items, map, keys[i])->Ok_0,
    ) by {
        operand_is_given(items, map, keys[i]);
    }
    assert(keys[0] == "self"@ && keys[1] == "other"@ && keys[2] == "mat2"@ && keys[3] == "input"@ && keys[4] == "weight"@);
}

/// The name that a tensor goes by.
pub open spec fn known_as(map: Map<Seq<char>, Seq<char>>, name: Seq<char>) -> Seq<char> {
    if map.dom().contains(name) {
        map[name]
    } else {
        name
    }
}

/// A call is read as an operator with operands.
pub open spec fn reads_as(
    target: Seq<char>,
    items: Seq<JsonView>,
    map: Map<Seq<char>, Seq<char>>,
    operator: OperatorView,
    names: Seq<Seq<char>>,
) -> bool {
    parsed_operator(target, items, map) matches Ok(pair) && pair.0 == operator && pair.1.len() == names.len() && forall|i: int|
        0 <= i < names.len() ==> #[trigger] pair.1[i] == known_as(map, names[i])
}

proof fn written_call_is_read(operator: OperatorView, names: Seq<Seq<char>>, map: Map<Seq<char>, Seq<char>>)
    requires
        fits(operator, names.len()),
    ensures
        reads_as(call_of(operator, names).0, call_of(operator, names).1, map, operator, names),
{
    operators_survive(operator, names, map);
}

/// A call of a function of one or two tensors is read as the operator of that name, on the
/// tensors in the order of the function's arguments.
pub proof fn elementwise_calls_are_read(x: Seq<char>, y: Seq<char>, map: Map<Seq<char>, Seq<char>>)
    ensures
        ({
            let a = argument_json("self"@, tensor_json(x));
            let b = argument_json("other"@, tensor_json(y));
            let c = argument_json("mat2"@, tensor_json(y));
            &&& reads_as("torch.ops.aten.relu.default"@, seq![a], map, OperatorView::Relu, seq![x])
            &&& reads_as("torch.ops.aten.sigmoid.default"@, seq![a], map, OperatorView::Sigmoid, seq![x])
            &&& reads_as("torch.ops.aten.tanh.default"@, seq![a], map, OperatorView::Tanh, seq![x])
            &&& reads_as("torch.ops.aten.alias.default"@, seq![a], map, OperatorView::Identity, seq![x])
            &&& reads_as("torch.ops.aten.add.Tensor"@, seq![a, b], map, OperatorView::Add, seq![x, y])
            &&& reads_as("torch.ops.aten.sub.Tensor"@, seq![a, b], map, OperatorView::Subtract, seq![x, y])
            &&& reads_as("torch.ops.aten.mul.Tensor"@, seq![a, b], map, OperatorView::Multiply, seq![x, y])
            &&& reads_as("torch.ops.aten.matmul.default"@, seq![a, b], map, OperatorView::Matmul, seq![x, y])
            &&& reads_as("torch.ops.aten.mm.default"@, seq![a, c], map, OperatorView::Matmul, seq![x, y])
        }),
{
    let one = seq![x];
    let two = seq![x, y];
    let unary = seq![OperatorView::Relu, OperatorView::Sigmoid, OperatorView::Tanh, OperatorView::Identity];
    let binary = seq![OperatorView::Add, OperatorView::Subtract, OperatorView::Multiply, OperatorView::Matmul];
    assert forall|i: int| 0 <= i < 4 implies reads_as(
        call_of(#[trigger] unary[i], one).0,
        call_of(unary[i], one).1,
        map,
        unary[i],
        one,
    ) by {
        written_call_is_read(unary[i], one, map);
    }
    assert forall|i: int| 0 <= i < 4 implies reads_as(
        call_of(#[trigger] binary[i], two).0,
        call_of(binary[i], two).1,
        map,
        binary[i],
        two,
    ) by {
        written_call_is_read(binary[i], two, map);
    }
    assert(unary[0] is Relu && unary[1] is Sigmoid && unary[2] is Tanh && unary[3] is Identity);
    assert(binary[0] is Add && binary[1] is Subtract && binary[2] is Multiply && binary[3] is Matmul);
    operators_are_written_as_aten_calls(OperatorView::Relu, one);
    operators_are_written_as_aten_calls(OperatorView::Sigmoid, one);
    operators_are_written_as_aten_calls(OperatorView::Tanh, one);
    operators_are_written_as_aten_calls(OperatorView::Identity, one);
    operators_are_written_as_aten_calls(OperatorView::Add, two);
    operators_are_written_as_aten_calls(OperatorView::Subtract, two);
    operators_are_written_as_aten_calls(OperatorView::Multiply, two);
    operators_are_written_as_aten_calls(OperatorView::Matmul, two);
    product_is_read(x, y, map);
}

proof fn product_is_read(x: Seq<char>, y: Seq<char>, map: Map<Seq<char>, Seq<char>>)
    ensures
        reads_as(
            "torch.ops.aten.mm.default"@,
            seq![argument_json("self"@, tensor_json(x)), argument_json("mat2"@, tensor_json(y))],
            map,
            OperatorView::Matmul,
            seq![x, y],
        ),
{
    same_json();
    targets();
    argument_names();
    reveal_strlit("mat2");
    let keys = seq!["self"@, "mat2"@];
    assert(keys[1].len() == 4 && keys[1][0] == 'm');
    let values = seq![tensor_union(x), tensor_union(y)];
    let items = seq![argument_json("self"@, tensor_json(x)), argument_json("mat2"@, tensor_json(y))];
    assert(is_call(items, keys, values));
    argument_found(items, keys, values, 0, 0);
    argument_found(items, keys, values, 1, 0);
    argument_missing(items, keys, values, "alpha"@, 0);
    tensor_survives(x);
    tensor_survives(y);
    nothing_left("torch.ops.aten.mm.default"@, items, keys, values);
}

/// A call of a linear transformation or of a function that rearranges elements is read with its
/// settings: sizes, axes and the dimension of a concatenation stand under their own names.
#[verifier::rlimit(40)]
pub proof fn shaping_calls_are_read(
    names: Seq<Seq<char>>,
    list: Seq<i64>,
    m: i64,
    n: i64,
    map: Map<Seq<char>, Seq<char>>,
)
    requires
        names.len() == 3,
    ensures
        ({
            let x = names[0];
            let a = argument_json("self"@, tensor_json(x));
            let input = argument_json("input"@, tensor_json(x));
            let weight = argument_json("weight"@, tensor_json(names[1]));
            let bias = argument_json("bias"@, tensor_json(names[2]));
            let tensors = argument_json("tensors"@, tensors_json(names));
            &&& reads_as("torch.ops.aten.linear.default"@, seq![input, weight], map, OperatorView::Linear, seq![x, names[1]])
            &&& reads_as("torch.ops.aten.linear.default"@, seq![input, weight, bias], map, OperatorView::Linear, names)
            &&& reads_as(
                "torch.ops.aten.reshape.default"@,
                seq![a, argument_json("shape"@, sizes_json(list))],
                map,
                OperatorView::Reshape(list),
                seq![x],
            )
            &&& reads_as(
                "torch.ops.aten.view.default"@,
                seq![a, argument_json("size"@, sizes_json(list))],
                map,
                OperatorView::Reshape(list),
                seq![x],
            )
            &&& reads_as(
                "torch.ops.aten.flatten.using_ints"@,
                seq![a, argument_json("start_dim"@, integer_json(m)), argument_json("end_dim"@, integer_json(n))],
                map,
                OperatorView::Flatten { start: m, end: n },
                seq![x],
            )
            &&& reads_as("torch.ops.aten.flatten.using_ints"@, seq![a], map, OperatorView::Flatten { start: 0, end: -1i64 }, seq![x])
            &&& reads_as(
                "torch.ops.aten.transpose.int"@,
                seq![a, argument_json("dim0"@, integer_json(m)), argument_json("dim1"@, integer_json(n))],
                map,
                OperatorView::Transpose { dim0: m, dim1: n },
                seq![x],
            )
            &&& reads_as(
                "torch.ops.aten.permute.default"@,
                seq![a, argument_json("dims"@, integers_json(list))],
                map,
                OperatorView::Permute(list),
                seq![x],
            )
            &&& reads_as(
                "torch.ops.aten.cat.default"@,
                seq![tensors, argument_json("dim"@, integer_json(m))],
                map,
                OperatorView::Cat(m),
                names,
            )
            &&& reads_as("torch.ops.aten.cat.default"@, seq![tensors], map, OperatorView::Cat(0), names)
        }),
{
    let x = names[0];
    let one = seq![x];
    let two = seq![x, names[1]];
    let a = argument_json("self"@, tensor_json(x));
    let input = argument_json("input"@, tensor_json(x));
    let weight = argument_json("weight"@, tensor_json(names[1]));
    let bias = argument_json("bias"@, tensor_json(names[2]));
    let tensors = argument_json("tensors"@, tensors_json(names));
    assert(reads_as("torch.ops.aten.linear.default"@, seq![input, weight], map, OperatorView::Linear, two)) by {
        operators_are_written_as_aten_calls(OperatorView::Linear, two);
        written_call_is_read(OperatorView::Linear, two, map);
    }
    assert(reads_as("torch.ops.aten.linear.default"@, seq![input, weight, bias], map, OperatorView::Linear, names)) by {
        operators_are_written_as_aten_calls(OperatorView::Linear, names);
        written_call_is_read(OperatorView::Linear, names, map);
    }
    assert(reads_as(
        "torch.ops.aten.reshape.default"@,
        seq![a, argument_json("shape"@, sizes_json(list))],
        map,
        OperatorView::Reshape(list),
        one,
    )) by {
        operators_are_written_as_aten_calls(OperatorView::Reshape(list), one);
        written_call_is_read(OperatorView::Reshape(list), one, map);
    }
    let flatten = OperatorView::Flatten { start: m, end: n };
    assert(reads_as(
        "torch.ops.aten.flatten.using_ints"@,
        seq![a, argument_json("start_dim"@, integer_json(m)), argument_json("end_dim"@, integer_json(n))],
        map,
        flatten,
        one,
    )) by {
        operators_are_written_as_aten_calls(flatten, one);
        written_call_is_read(flatten, one, map);
    }
    let transpose = OperatorView::Transpose { dim0: m, dim1: n };
    assert(reads_as(
        "torch.ops.aten.transpose.int"@,
        seq![a, argument_json("dim0"@, integer_json(m)), argument_json("dim1"@, integer_json(n))],
        map,
        transpose,
        one,
    )) by {
        operators_are_written_as_aten_calls(transpose, one);
        written_call_is_read(transpose, one, map);
    }
    assert(reads_as(
        "torch.ops.aten.permute.default"@,
        seq![a, argument_json("dims"@, integers_json(list))],
        map,
        OperatorView::Permute(list),
        one,
    )) by {
        operators_are_written_as_aten_calls(OperatorView::Permute(list), one);
        written_call_is_read(OperatorView::Permute(list), one, map);
    }
    assert(reads_as(
        "torch.ops.aten.cat.default"@,
        seq![tensors, argument_json("dim"@, integer_json(m))],
        map,
        OperatorView::Cat(m),
        names,
    )) by {
        operators_are_written_as_aten_calls(OperatorView::Cat(m), names);
        written_call_is_read(OperatorView::Cat(m), names, map);
    }
    view_is_read(x, list, map);
    defaults_are_read(names, map);
}

proof fn view_is_read(x: Seq<char>, list: Seq<i64>, map: Map<Seq<char>, Seq<char>>)
    ensures
        reads_as(
            "torch.ops.aten.view.default"@,
            seq![argument_json("self"@, tensor_json(x)), argument_json("size"@, sizes_json(list))],
            map,
            OperatorView::Reshape(list),
            seq![x],
        ),
{
    same_json();
    targets();
    short_names();
    argument_names();
    reveal_strlit("size");
    let union = object_of(seq!["as_sym_ints"@], seq![int_unions(list)]);
    assert(int_unions(list)->List_0 =~= Seq::new(list.len(), |i: int| integer_json(list[i])));
    assert(union->Object_0 =~= sizes_json(list)->Object_0);
    let keys = seq!["self"@, "size"@];
    assert(keys[1].len() == 4 && keys[1][1] == 'i');
    assert(keys[0] != keys[1]) by {
        reveal_strlit("self");
        assert("self"@[1] == 'e');
    }
    let values = seq![tensor_union(x), union];
    let items = seq![argument_json("self"@, tensor_json(x)), argument_json("size"@, sizes_json(list))];
    assert(is_call(items, keys, values));
    argument_found(items, keys, values, 0, 0);
    argument_found(items, keys, values, 1, 0);
    tensor_survives(x);
    only_entry("as_sym_ints"@, int_unions(list), "as_ints"@);
    only_entry("as_sym_ints"@, int_unions(list), "as_sym_ints"@);
    integers_survive(list, list.len() as int);
    assert(list.take(list.len() as int) =~= list);
    assert(shape_of(union) == Ok::<Seq<i64>, ErrorView>(list));
    nothing_left("torch.ops.aten.view.default"@, items, keys, values);
}

proof fn defaults_are_read(names: Seq<Seq<char>>, map: Map<Seq<char>, Seq<char>>)
    requires
        names.len() > 0,
    ensures
        reads_as(
            "torch.ops.aten.flatten.using_ints"@,
            seq![argument_json("self"@, tensor_json(names[0]))],
            map,
            OperatorView::Flatten { start: 0, end: -1i64 },
            seq![names[0]],
        ),
        reads_as(
            "torch.ops.aten.cat.default"@,
            seq![argument_json("tensors"@, tensors_json(names))],
            map,
            OperatorView::Cat(0),
            names,
        ),
{
    same_json();
    targets();
    argument_names();
    let keys = seq!["self"@];
    let values = seq![tensor_union(names[0])];
    let items = seq![argument_json("self"@, tensor_json(names[0]))];
    assert(is_call(items, keys, values));
    argument_found(items, keys, values, 0, 0);
    argument_missing(items, keys, values, "start_dim"@, 0);
    argument_missing(items, keys, values, "end_dim"@, 0);
    tensor_survives(names[0]);
    nothing_left("torch.ops.aten.flatten.using_ints"@, items, keys, values);
    let list = names.map_values(|n: Seq<char>| object_of(seq!["name"@], seq![JsonView::Text(n)]));
    let right = Seq::new(names.len(), |i: int| JsonView::Object(seq![("name"@, JsonView::Text(names[i]))]));
    assert forall|i: int| 0 <= i < names.len() implies #[trigger] list[i] == right[i] by {
        assert(list[i]->Object_0 =~= right[i]->Object_0);
    }
    assert(list =~= right);
    let union = object_of(seq!["as_tensors"@], seq![JsonView::List(list)]);
    assert(union->Object_0 =~= tensors_json(names)->Object_0);
    let keys2 = seq!["tensors"@];
    let values2 = seq![union];
    let items2 = seq![argument_json("tensors"@, tensors_json(names))];
    assert(is_call(items2, keys2, values2));
    argument_found(items2, keys2, values2, 0, 0);
    argument_missing(items2, keys2, values2, "dim"@, 0);
    only_entry("as_tensors"@, JsonView::List(list), "as_tensors"@);
    names_survive(names, map, names.len() as int);
    nothing_left("torch.ops.aten.cat.default"@, items2, keys2, values2);
}

/// The dtypes go by their numbers in the format: 5 for 64-bit integers, 7 for single and 8 for
/// double precision, 12 for Booleans. No other number is a dtype.
pub proof fn scalar_codes_are_those_of_the_format(code: i64)
    ensures
        scalar_code_of(DType::Int64) == 5,
        scalar_code_of(DType::Float) == 7,
        scalar_code_of(DType::Double) == 8,
        scalar_code_of(DType::Bool) == 12,
        as_dtype(JsonView::Int(5)) == Ok::<DType, ErrorView>(DType::Int64),
        as_dtype(JsonView::Int(7)) == Ok::<DType, ErrorView>(DType::Float),
        as_dtype(JsonView::Int(8)) == Ok::<DType, ErrorView>(DType::Double),
        as_dtype(JsonView::Int(12)) == Ok::<DType, ErrorView>(DType::Bool),
        as_dtype(JsonView::Int(code)) is Ok ==> code == 5 || code == 7 || code == 8 || code == 12,
{
}

} // verus!
