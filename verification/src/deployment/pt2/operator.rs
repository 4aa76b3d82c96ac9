//! Operators and their arguments.
use super::super::onnx::import::{names_form, names_text, Choice};
use super::super::types::{Operator, OperatorView};
use super::json::{
    array, as_array, as_integer, as_string, as_tensor_name, entry, field, get, integer, integer_items, integers, is_int_object,
    items_view, object, only_int, present, read_numbers, read_plain, string, tensor_name, as_object, Json, JsonView,
};
use crate::error::{deployment_error, deployment_text, texts, ErrorView, Result};
use crate::names::{listing_of, NameMap};
use crate::text::{join, owned, same};
use vstd::prelude::*;

verus! {

/// The bits of the double-precision number one.
pub const DOUBLE_ONE: u64 = 0x3ff0_0000_0000_0000;

/// The value of the first argument with a name, from place `i` on.
pub open spec fn argument(items: Seq<JsonView>, key: Seq<char>, i: int) -> Option<JsonView>
    decreases items.len() - i,
{
    if i < 0 || i >= items.len() {
        None
    } else if field(items[i], "name"@) == JsonView::Text(key) {
        Some(field(items[i], "arg"@))
    } else {
        argument(items, key, i + 1)
    }
}

/// The new names of values that go by another name.
pub open spec fn renames(map: Map<Seq<char>, String>) -> Map<Seq<char>, Seq<char>> {
    map.map_values(|s: String| s@)
}

/// The name that a value goes by.
pub open spec fn renamed(map: Map<Seq<char>, Seq<char>>, name: Seq<char>) -> Seq<char> {
    if map.dom().contains(name) {
        map[name]
    } else {
        name
    }
}

/// A tensor argument.
pub open spec fn tensor_argument(
    items: Seq<JsonView>,
    map: Map<Seq<char>, Seq<char>>,
    key: Seq<char>,
) -> core::result::Result<Seq<char>, ErrorView> {
    match argument(items, key, 0) {
        None => Err(deployment_text("missing PT2 argument "@ + key)),
        Some(v) => match as_tensor_name(v) {
            Err(e) => Err(e),
            Ok(name) => Ok(renamed(map, name)),
        },
    }
}

/// An integer argument, which may have a default.
pub open spec fn int_argument(items: Seq<JsonView>, key: Seq<char>, default: Option<i64>) -> core::result::Result<i64, ErrorView> {
    match argument(items, key, 0) {
        Some(v) => as_integer(field(v, "as_int"@)),
        None => match default {
            Some(n) => Ok(n),
            None => Err(deployment_text("missing PT2 argument "@ + key)),
        },
    }
}

/// An operator of one tensor.
pub open spec fn unary_choice(items: Seq<JsonView>, map: Map<Seq<char>, Seq<char>>, operator: OperatorView) -> Choice {
    match tensor_argument(items, map, "self"@) {
        Err(e) => Err(e),
        Ok(x) => Ok((operator, seq![x])),
    }
}

/// The factor of a sum is one.
pub open spec fn factor_is_one(v: JsonView) -> bool {
    is_int_object(v, "as_int"@, 1) || (as_object(v) is Ok && as_object(v)->Ok_0.len() == 1 && entry(v, "as_float"@)
        == Some(JsonView::Float(DOUBLE_ONE)))
}

/// An operator of two tensors.
pub open spec fn binary_choice(
    items: Seq<JsonView>,
    map: Map<Seq<char>, Seq<char>>,
    operator: OperatorView,
    second: Seq<char>,
) -> Choice {
    match tensor_argument(items, map, "self"@) {
        Err(e) => Err(e),
        Ok(a) => match tensor_argument(items, map, second) {
            Err(e) => Err(e),
            Ok(b) => if argument(items, "alpha"@, 0) is Some && !factor_is_one(argument(items, "alpha"@, 0)->0) {
                Err(deployment_text("PT2 add/sub alpha other than one is unsupported"@))
            } else {
                Ok((operator, seq![a, b]))
            },
        },
    }
}

/// A bias that is not there.
pub open spec fn is_none_object(v: JsonView) -> bool {
    as_object(v) is Ok && as_object(v)->Ok_0.len() == 1 && entry(v, "as_none"@) == Some(JsonView::Bool(true))
}

/// A linear transformation.
pub open spec fn linear_choice(items: Seq<JsonView>, map: Map<Seq<char>, Seq<char>>) -> Choice {
    match tensor_argument(items, map, "input"@) {
        Err(e) => Err(e),
        Ok(x) => match tensor_argument(items, map, "weight"@) {
            Err(e) => Err(e),
            Ok(w) => match argument(items, "bias"@, 0) {
                None => Ok((OperatorView::Linear, seq![x, w])),
                Some(v) => if is_none_object(v) {
                    Ok((OperatorView::Linear, seq![x, w]))
                } else {
                    match as_tensor_name(v) {
                        Err(e) => Err(e),
                        Ok(b) => Ok((OperatorView::Linear, seq![x, w, renamed(map, b)])),
                    }
                },
            },
        },
    }
}

/// The first `n` integers of a list of unions.
pub open spec fn union_items(items: Seq<JsonView>, n: int) -> core::result::Result<Seq<i64>, ErrorView>
    decreases n,
{
    if n <= 0 {
        Ok(Seq::empty())
    } else {
        match union_items(items, n - 1) {
            Err(e) => Err(e),
            Ok(list) => match as_integer(field(items[n - 1], "as_int"@)) {
                Err(e) => Err(e),
                Ok(value) => Ok(list.push(value)),
            },
        }
    }
}

/// The shape of a reshape: integers, or unions that are all integers.
pub open spec fn shape_of(v: JsonView) -> core::result::Result<Seq<i64>, ErrorView> {
    match entry(v, "as_ints"@) {
        Some(list) => match as_array(list) {
            Err(e) => Err(e),
            Ok(items) => integer_items(items, items.len() as int),
        },
        None => match as_array(field(v, "as_sym_ints"@)) {
            Err(e) => Err(e),
            Ok(items) => union_items(items, items.len() as int),
        },
    }
}

/// A reshape.
pub open spec fn reshape_choice(items: Seq<JsonView>, map: Map<Seq<char>, Seq<char>>, key: Seq<char>) -> Choice {
    match tensor_argument(items, map, "self"@) {
        Err(e) => Err(e),
        Ok(x) => match argument(items, key, 0) {
            None => Err(deployment_text("missing reshape shape"@)),
            Some(v) => match shape_of(v) {
                Err(e) => Err(e),
                Ok(shape) => Ok((OperatorView::Reshape(shape), seq![x])),
            },
        },
    }
}

/// A flattening.
pub open spec fn flatten_choice(items: Seq<JsonView>, map: Map<Seq<char>, Seq<char>>) -> Choice {
    match tensor_argument(items, map, "self"@) {
        Err(e) => Err(e),
        Ok(x) => match int_argument(items, "start_dim"@, Some(0)) {
            Err(e) => Err(e),
            Ok(start) => match int_argument(items, "end_dim"@, Some(-1i64)) {
                Err(e) => Err(e),
                Ok(end) => Ok((OperatorView::Flatten { start, end }, seq![x])),
            },
        },
    }
}

/// A swap of two axes.
pub open spec fn transpose_choice(items: Seq<JsonView>, map: Map<Seq<char>, Seq<char>>) -> Choice {
    match tensor_argument(items, map, "self"@) {
        Err(e) => Err(e),
        Ok(x) => match int_argument(items, "dim0"@, None) {
            Err(e) => Err(e),
            Ok(dim0) => match int_argument(items, "dim1"@, None) {
                Err(e) => Err(e),
                Ok(dim1) => Ok((OperatorView::Transpose { dim0, dim1 }, seq![x])),
            },
        },
    }
}

/// A permutation of the axes.
pub open spec fn permute_choice(items: Seq<JsonView>, map: Map<Seq<char>, Seq<char>>) -> Choice {
    match tensor_argument(items, map, "self"@) {
        Err(e) => Err(e),
        Ok(x) => match argument(items, "dims"@, 0) {
            None => Err(deployment_text("missing permutation"@)),
            Some(v) => match as_array(field(v, "as_ints"@)) {
                Err(e) => Err(e),
                Ok(list) => match integer_items(list, list.len() as int) {
                    Err(e) => Err(e),
                    Ok(axes) => Ok((OperatorView::Permute(axes), seq![x])),
                },
            },
        },
    }
}

/// The first `n` names of a list of tensors.
pub open spec fn listed_names(
    items: Seq<JsonView>,
    map: Map<Seq<char>, Seq<char>>,
    n: int,
) -> core::result::Result<Seq<Seq<char>>, ErrorView>
    decreases n,
{
    if n <= 0 {
        Ok(Seq::empty())
    } else {
        match listed_names(items, map, n - 1) {
            Err(e) => Err(e),
            Ok(list) => match as_string(field(items[n - 1], "name"@)) {
                Err(e) => Err(e),
                Ok(name) => Ok(list.push(renamed(map, name))),
            },
        }
    }
}

/// A concatenation.
pub open spec fn cat_choice(items: Seq<JsonView>, map: Map<Seq<char>, Seq<char>>) -> Choice {
    match argument(items, "tensors"@, 0) {
        None => Err(deployment_text("missing cat tensors"@)),
        Some(v) => match as_array(field(v, "as_tensors"@)) {
            Err(e) => Err(e),
            Ok(list) => match listed_names(list, map, list.len() as int) {
                Err(e) => Err(e),
                Ok(names) => match int_argument(items, "dim"@, Some(0)) {
                    Err(e) => Err(e),
                    Ok(dim) => Ok((OperatorView::Cat(dim), names)),
                },
            },
        },
    }
}

/// The operator that a target stands for, and its operands.
pub open spec fn operator_choice(target: Seq<char>, items: Seq<JsonView>, map: Map<Seq<char>, Seq<char>>) -> Choice {
    if target == "torch.ops.aten.relu.default"@ {
        unary_choice(items, map, OperatorView::Relu)
    } else if target == "torch.ops.aten.sigmoid.default"@ {
        unary_choice(items, map, OperatorView::Sigmoid)
    } else if target == "torch.ops.aten.tanh.default"@ {
        unary_choice(items, map, OperatorView::Tanh)
    } else if target == "torch.ops.aten.alias.default"@ {
        unary_choice(items, map, OperatorView::Identity)
    } else if target == "torch.ops.aten.add.Tensor"@ {
        binary_choice(items, map, OperatorView::Add, "other"@)
    } else if target == "torch.ops.aten.sub.Tensor"@ {
        binary_choice(items, map, OperatorView::Subtract, "other"@)
    } else if target == "torch.ops.aten.mul.Tensor"@ {
        binary_choice(items, map, OperatorView::Multiply, "other"@)
    } else if target == "torch.ops.aten.matmul.default"@ {
        binary_choice(items, map, OperatorView::Matmul, "other"@)
    } else if target == "torch.ops.aten.mm.default"@ {
        binary_choice(items, map, OperatorView::Matmul, "mat2"@)
    } else if target == "torch.ops.aten.linear.default"@ {
        linear_choice(items, map)
    } else if target == "torch.ops.aten.reshape.default"@ {
        reshape_choice(items, map, "shape"@)
    } else if target == "torch.ops.aten.view.default"@ {
        reshape_choice(items, map, "size"@)
    } else if target == "torch.ops.aten.flatten.using_ints"@ {
        flatten_choice(items, map)
    } else if target == "torch.ops.aten.transpose.int"@ {
        transpose_choice(items, map)
    } else if target == "torch.ops.aten.permute.default"@ {
        permute_choice(items, map)
    } else if target == "torch.ops.aten.cat.default"@ {
        cat_choice(items, map)
    } else {
        Err(deployment_text("unsupported PT2 operator "@ + target))
    }
}

/// An operator of one tensor.
pub open spec fn is_unary(target: Seq<char>) -> bool {
    target == "torch.ops.aten.relu.default"@ || target == "torch.ops.aten.sigmoid.default"@ || target
        == "torch.ops.aten.tanh.default"@ || target == "torch.ops.aten.alias.default"@
}

/// A sum, difference or product.
pub open spec fn is_binary(target: Seq<char>) -> bool {
    target == "torch.ops.aten.add.Tensor"@ || target == "torch.ops.aten.sub.Tensor"@ || target
        == "torch.ops.aten.mul.Tensor"@ || target == "torch.ops.aten.matmul.default"@
}

/// An operator takes an argument of a name.
pub open spec fn takes(target: Seq<char>, key: Seq<char>) -> bool {
    if is_unary(target) {
        key == "self"@
    } else if is_binary(target) {
        key == "self"@ || key == "other"@ || key == "alpha"@
    } else if target == "torch.ops.aten.mm.default"@ {
        key == "self"@ || key == "mat2"@ || key == "alpha"@
    } else if target == "torch.ops.aten.linear.default"@ {
        key == "input"@ || key == "weight"@ || key == "bias"@
    } else if target == "torch.ops.aten.reshape.default"@ {
        key == "self"@ || key == "shape"@
    } else if target == "torch.ops.aten.view.default"@ {
        key == "self"@ || key == "size"@
    } else if target == "torch.ops.aten.flatten.using_ints"@ {
        key == "self"@ || key == "start_dim"@ || key == "end_dim"@
    } else if target == "torch.ops.aten.transpose.int"@ {
        key == "self"@ || key == "dim0"@ || key == "dim1"@
    } else if target == "torch.ops.aten.permute.default"@ {
        key == "self"@ || key == "dims"@
    } else if target == "torch.ops.aten.cat.default"@ {
        key == "tensors"@ || key == "dim"@
    } else {
        false
    }
}

/// The names of the arguments that an operator does not take.
pub open spec fn left_over(target: Seq<char>, items: Seq<JsonView>) -> Map<Seq<char>, ()> {
    Map::new(
        |name: Seq<char>|
            !takes(target, name) && exists|j: int|
                0 <= j < items.len() && field(#[trigger] items[j], "name"@) == JsonView::Text(name),
        |name: Seq<char>| (),
    )
}

/// The operator of a node and its operands; every argument has to be taken.
pub open spec fn parsed_operator(target: Seq<char>, items: Seq<JsonView>, map: Map<Seq<char>, Seq<char>>) -> Choice {
    match operator_choice(target, items, map) {
        Err(e) => Err(e),
        Ok(pair) => if left_over(target, items).dom() != Set::<Seq<char>>::empty() {
            Err(
                deployment_text(
                    "unsupported arguments for "@ + target + ": "@ + names_form(listing_of(left_over(target, items))),
                ),
            )
        } else {
            Ok(pair)
        },
    }
}

/// What choosing an operator returns, as mathematical content.
pub open spec fn chosen(r: Result<(Operator, Vec<String>)>) -> Choice {
    match r {
        Ok(pair) => Ok((pair.0@, texts(pair.1@))),
        Err(e) => Err(e@),
    }
}

/// Returns the name that a value goes by.
pub fn rename(map: &NameMap<String>, name: &str) -> (r: String)
    requires
        map.wf(),
    ensures
        r@ == renamed(renames(map@), name@),
{
    match map.get(name) {
        Some(other) => other.clone(),
        None => owned(name),
    }
}

/// An argument that may be there.
pub open spec fn offered(r: Option<Option<&Json>>) -> Option<JsonView> {
    match r {
        Some(v) => Some(present(v)),
        None => None,
    }
}

fn is_text(v: Option<&Json>, text: &str) -> (r: bool)
    ensures
        r == (present(v) == JsonView::Text(text@)),
{
    match v {
        Some(Json::Text(found)) => same(found.as_str(), text),
        _ => false,
    }
}

fn find<'a>(items: &'a Vec<Json>, key: &str) -> (r: Option<Option<&'a Json>>)
    ensures
        offered(r) == argument(items_view(items@), key@, 0),
{
    let ghost view = items_view(items@);
    let mut i: usize = 0;
    while i < items.len()
        invariant
            view == items_view(items@),
            i <= items@.len(),
            argument(view, key@, 0) == argument(view, key@, i as int),
        decreases items@.len() - i,
    {
        assert(view[i as int] == items@[i as int]@);
        let item = Some(&items[i]);
        if is_text(get(item, "name"), key) {
            return Some(get(item, "arg"));
        }
        i += 1;
    }
    None
}

fn missing(key: &str) -> (r: crate::error::RustTorchError)
    ensures
        r@ == deployment_text("missing PT2 argument "@ + key@),
{
    let message = join("missing PT2 argument ", key);
    deployment_error(message.as_str())
}

fn tensor(items: &Vec<Json>, map: &NameMap<String>, key: &str) -> (r: Result<String>)
    requires
        map.wf(),
    ensures
        crate::error::outcome(r) == tensor_argument(items_view(items@), renames(map@), key@),
{
    match find(items, key) {
        None => Err(missing(key)),
        Some(v) => {
            match tensor_name(v) {
                Ok(name) => Ok(rename(map, name)),
                Err(e) => Err(e),
            }
        },
    }
}

fn int_of(items: &Vec<Json>, key: &str, default: Option<i64>) -> (r: Result<i64>)
    ensures
        read_plain(r) == int_argument(items_view(items@), key@, default),
{
    match find(items, key) {
        Some(v) => integer(get(v, "as_int")),
        None => {
            match default {
                Some(n) => Ok(n),
                None => Err(missing(key)),
            }
        },
    }
}

fn one(x: String) -> (r: Vec<String>)
    ensures
        texts(r@) == seq![x@],
{
    let mut list: Vec<String> = Vec::new();
    list.push(x);
    assert(texts(list@) =~= seq![x@]);
    list
}

fn unary(items: &Vec<Json>, map: &NameMap<String>, operator: Operator) -> (r: Result<(Operator, Vec<String>)>)
    requires
        map.wf(),
    ensures
        chosen(r) == unary_choice(items_view(items@), renames(map@), operator@),
{
    match tensor(items, map, "self") {
        Ok(x) => Ok((operator, one(x))),
        Err(e) => Err(e),
    }
}

fn is_one(v: Option<&Json>) -> (r: bool)
    ensures
        r == factor_is_one(present(v)),
{
    if only_int(v, "as_int", 1) {
        return true;
    }
    match object(v) {
        Ok(entries) => {
            let found = match get(v, "as_float") {
                Some(Json::Float(bits)) => *bits == DOUBLE_ONE,
                _ => false,
            };
            entries.len() == 1 && found
        },
        Err(_) => false,
    }
}

fn is_none(v: Option<&Json>) -> (r: bool)
    ensures
        r == is_none_object(present(v)),
{
    match object(v) {
        Ok(entries) => {
            let found = match get(v, "as_none") {
                Some(Json::Bool(b)) => *b,
                _ => false,
            };
            entries.len() == 1 && found
        },
        Err(_) => false,
    }
}

fn binary(items: &Vec<Json>, map: &NameMap<String>, operator: Operator, second: &str) -> (r: Result<(Operator, Vec<String>)>)
    requires
        map.wf(),
    ensures
        chosen(r) == binary_choice(items_view(items@), renames(map@), operator@, second@),
{
    let a = match tensor(items, map, "self") {
        Ok(a) => a,
        Err(e) => {
            return Err(e);
        },
    };
    let b = match tensor(items, map, second) {
        Ok(b) => b,
        Err(e) => {
            return Err(e);
        },
    };
    if let Some(alpha) = find(items, "alpha") {
        if !is_one(alpha) {
            return Err(deployment_error("PT2 add/sub alpha other than one is unsupported"));
        }
    }
    let mut list = one(a);
    let ghost first = texts(list@);
    list.push(b);
    assert(texts(list@) =~= first.push(b@));
    assert(texts(list@) =~= seq![a@, b@]);
    Ok((operator, list))
}

fn linear(items: &Vec<Json>, map: &NameMap<String>) -> (r: Result<(Operator, Vec<String>)>)
    requires
        map.wf(),
    ensures
        chosen(r) == linear_choice(items_view(items@), renames(map@)),
{
    let x = match tensor(items, map, "input") {
        Ok(x) => x,
        Err(e) => {
            return Err(e);
        },
    };
    let w = match tensor(items, map, "weight") {
        Ok(w) => w,
        Err(e) => {
            return Err(e);
        },
    };
    let mut list = one(x);
    let ghost first = texts(list@);
    list.push(w);
    assert(texts(list@) =~= first.push(w@));
    assert(texts(list@) =~= seq![x@, w@]);
    if let Some(bias) = find(items, "bias") {
        if !is_none(bias) {
            match tensor_name(bias) {
                Ok(b) => {
                    let b = rename(map, b);
                    let ghost two = texts(list@);
                    list.push(b);
                    assert(texts(list@) =~= two.push(b@));
                    assert(texts(list@) =~= seq![x@, w@, b@]);
                },
                Err(e) => {
                    return Err(e);
                },
            }
        }
    }
    Ok((Operator::Linear, list))
}

proof fn union_items_fail(items: Seq<JsonView>, k: int, n: int)
    requires
        0 <= k <= n,
        union_items(items, k) is Err,
    ensures
        union_items(items, n) == union_items(items, k),
    decreases n - k,
{
    if k < n {
        union_items_fail(items, k, n - 1);
    }
}

fn unions(items: &Vec<Json>) -> (r: Result<Vec<i64>>)
    ensures
        read_numbers(r) == union_items(items_view(items@), items@.len() as int),
{
    let ghost view = items_view(items@);
    let ghost n = items@.len() as int;
    let mut out: Vec<i64> = Vec::new();
    let mut i: usize = 0;
    while i < items.len()
        invariant
            view == items_view(items@),
            n == items@.len(),
            i <= n,
            union_items(view, i as int) == Ok::<Seq<i64>, ErrorView>(out@),
        decreases n - i,
    {
        proof {
            assert(view[i as int] == items@[i as int]@);
            if union_items(view, i + 1) is Err {
                union_items_fail(view, i + 1, n);
            }
        }
        match integer(get(Some(&items[i]), "as_int")) {
            Ok(value) => {
                out.push(value);
            },
            Err(e) => {
                return Err(e);
            },
        }
        i += 1;
    }
    Ok(out)
}

fn shape(v: Option<&Json>) -> (r: Result<Vec<i64>>)
    ensures
        read_numbers(r) == shape_of(present(v)),
{
    let plain = get(v, "as_ints");
    if plain.is_some() {
        match array(plain) {
            Ok(items) => integers(items),
            Err(e) => Err(e),
        }
    } else {
        match array(get(v, "as_sym_ints")) {
            Ok(items) => unions(items),
            Err(e) => Err(e),
        }
    }
}

fn reshape(items: &Vec<Json>, map: &NameMap<String>, key: &str) -> (r: Result<(Operator, Vec<String>)>)
    requires
        map.wf(),
    ensures
        chosen(r) == reshape_choice(items_view(items@), renames(map@), key@),
{
    let x = match tensor(items, map, "self") {
        Ok(x) => x,
        Err(e) => {
            return Err(e);
        },
    };
    match find(items, key) {
        None => Err(deployment_error("missing reshape shape")),
        Some(v) => {
            match shape(v) {
                Ok(dims) => Ok((Operator::Reshape(dims), one(x))),
                Err(e) => Err(e),
            }
        },
    }
}

fn flatten(items: &Vec<Json>, map: &NameMap<String>) -> (r: Result<(Operator, Vec<String>)>)
    requires
        map.wf(),
    ensures
        chosen(r) == flatten_choice(items_view(items@), renames(map@)),
{
    let x = match tensor(items, map, "self") {
        Ok(x) => x,
        Err(e) => {
            return Err(e);
        },
    };
    let start: i64 = match int_of(items, "start_dim", Some(0)) {
        Ok(n) => n,
        Err(e) => {
            return Err(e);
        },
    };
    match int_of(items, "end_dim", Some(-1)) {
        Ok(end) => Ok((Operator::Flatten { start, end }, one(x))),
        Err(e) => Err(e),
    }
}

fn transpose(items: &Vec<Json>, map: &NameMap<String>) -> (r: Result<(Operator, Vec<String>)>)
    requires
        map.wf(),
    ensures
        chosen(r) == transpose_choice(items_view(items@), renames(map@)),
{
    let x = match tensor(items, map, "self") {
        Ok(x) => x,
        Err(e) => {
            return Err(e);
        },
    };
    let dim0: i64 = match int_of(items, "dim0", None) {
        Ok(n) => n,
        Err(e) => {
            return Err(e);
        },
    };
    match int_of(items, "dim1", None) {
        Ok(dim1) => Ok((Operator::Transpose { dim0, dim1 }, one(x))),
        Err(e) => Err(e),
    }
}

fn permute(items: &Vec<Json>, map: &NameMap<String>) -> (r: Result<(Operator, Vec<String>)>)
    requires
        map.wf(),
    ensures
        chosen(r) == permute_choice(items_view(items@), renames(map@)),
{
    let x = match tensor(items, map, "self") {
        Ok(x) => x,
        Err(e) => {
            return Err(e);
        },
    };
    match find(items, "dims") {
        None => Err(deployment_error("missing permutation")),
        Some(v) => {
            match array(get(v, "as_ints")) {
                Err(e) => Err(e),
                Ok(list) => {
                    match integers(list) {
                        Ok(axes) => Ok((Operator::Permute(axes), one(x))),
                        Err(e) => Err(e),
                    }
                },
            }
        },
    }
}

proof fn listed_names_fail(items: Seq<JsonView>, map: Map<Seq<char>, Seq<char>>, k: int, n: int)
    requires
        0 <= k <= n,
        listed_names(items, map, k) is Err,
    ensures
        listed_names(items, map, n) == listed_names(items, map, k),
    decreases n - k,
{
    if k < n {
        listed_names_fail(items, map, k, n - 1);
    }
}

#[verifier::loop_isolation(false)]
fn cat(items: &Vec<Json>, map: &NameMap<String>) -> (r: Result<(Operator, Vec<String>)>)
    requires
        map.wf(),
    ensures
        chosen(r) == cat_choice(items_view(items@), renames(map@)),
{
    let ghost names = renames(map@);
    let list = match find(items, "tensors") {
        None => {
            return Err(deployment_error("missing cat tensors"));
        },
        Some(v) => {
            match array(get(v, "as_tensors")) {
                Ok(list) => list,
                Err(e) => {
                    return Err(e);
                },
            }
        },
    };
    let ghost view = items_view(list@);
    let ghost n = list@.len() as int;
    let mut out: Vec<String> = Vec::new();
    let mut i: usize = 0;
    assert(texts(out@) =~= Seq::empty());
    while i < list.len()
        invariant
            i <= n,
            listed_names(view, names, i as int) == Ok::<Seq<Seq<char>>, ErrorView>(texts(out@)),
        decreases n - i,
    {
        proof {
            assert(view[i as int] == list@[i as int]@);
            if listed_names(view, names, i + 1) is Err {
                listed_names_fail(view, names, i + 1, n);
            }
        }
        match string(get(Some(&list[i]), "name")) {
            Ok(name) => {
                let ghost before = texts(out@);
                let name = rename(map, name);
                out.push(name);
                assert(texts(out@) =~= before.push(name@));
            },
            Err(e) => {
                return Err(e);
            },
        }
        i += 1;
    }
    match int_of(items, "dim", Some(0)) {
        Ok(dim) => Ok((Operator::Cat(dim), out)),
        Err(e) => Err(e),
    }
}

fn choose_operator(target: &str, items: &Vec<Json>, map: &NameMap<String>) -> (r: Result<(Operator, Vec<String>)>)
    requires
        map.wf(),
    ensures
        chosen(r) == operator_choice(target@, items_view(items@), renames(map@)),
{
    if same(target, "torch.ops.aten.relu.default") {
        unary(items, map, Operator::Relu)
    } else if same(target, "torch.ops.aten.sigmoid.default") {
        unary(items, map, Operator::Sigmoid)
    } else if same(target, "torch.ops.aten.tanh.default") {
        unary(items, map, Operator::Tanh)
    } else if same(target, "torch.ops.aten.alias.default") {
        unary(items, map, Operator::Identity)
    } else if same(target, "torch.ops.aten.add.Tensor") {
        binary(items, map, Operator::Add, "other")
    } else if same(target, "torch.ops.aten.sub.Tensor") {
        binary(items, map, Operator::Subtract, "other")
    } else if same(target, "torch.ops.aten.mul.Tensor") {
        binary(items, map, Operator::Multiply, "other")
    } else if same(target, "torch.ops.aten.matmul.default") {
        binary(items, map, Operator::Matmul, "other")
    } else if same(target, "torch.ops.aten.mm.default") {
        binary(items, map, Operator::Matmul, "mat2")
    } else if same(target, "torch.ops.aten.linear.default") {
        linear(items, map)
    } else if same(target, "torch.ops.aten.reshape.default") {
        reshape(items, map, "shape")
    } else if same(target, "torch.ops.aten.view.default") {
        reshape(items, map, "size")
    } else if same(target, "torch.ops.aten.flatten.using_ints") {
        flatten(items, map)
    } else if same(target, "torch.ops.aten.transpose.int") {
        transpose(items, map)
    } else if same(target, "torch.ops.aten.permute.default") {
        permute(items, map)
    } else if same(target, "torch.ops.aten.cat.default") {
        cat(items, map)
    } else {
        let message = join("unsupported PT2 operator ", target);
        Err(deployment_error(message.as_str()))
    }
}

fn is_taken(target: &str, key: &str) -> (r: bool)
    ensures
        r == takes(target@, key@),
{
    if same(target, "torch.ops.aten.relu.default") || same(target, "torch.ops.aten.sigmoid.default") || same(
        target,
        "torch.ops.aten.tanh.default",
    ) || same(target, "torch.ops.aten.alias.default") {
        same(key, "self")
    } else if same(target, "torch.ops.aten.add.Tensor") || same(target, "torch.ops.aten.sub.Tensor") || same(
        target,
        "torch.ops.aten.mul.Tensor",
    ) || same(target, "torch.ops.aten.matmul.default") {
        same(key, "self") || same(key, "other") || same(key, "alpha")
    } else if same(target, "torch.ops.aten.mm.default") {
        same(key, "self") || same(key, "mat2") || same(key, "alpha")
    } else if same(target, "torch.ops.aten.linear.default") {
        same(key, "input") || same(key, "weight") || same(key, "bias")
    } else if same(target, "torch.ops.aten.reshape.default") {
        same(key, "self") || same(key, "shape")
    } else if same(target, "torch.ops.aten.view.default") {
        same(key, "self") || same(key, "size")
    } else if same(target, "torch.ops.aten.flatten.using_ints") {
        same(key, "self") || same(key, "start_dim") || same(key, "end_dim")
    } else if same(target, "torch.ops.aten.transpose.int") {
        same(key, "self") || same(key, "dim0") || same(key, "dim1")
    } else if same(target, "torch.ops.aten.permute.default") {
        same(key, "self") || same(key, "dims")
    } else if same(target, "torch.ops.aten.cat.default") {
        same(key, "tensors") || same(key, "dim")
    } else {
        false
    }
}

/// An argument of a name stands among the first `n`.
spec fn named_before(items: Seq<JsonView>, name: Seq<char>, n: int) -> bool {
    exists|j: int| 0 <= j < n && field(#[trigger] items[j], "name"@) == JsonView::Text(name)
}

fn leftovers(target: &str, items: &Vec<Json>) -> (r: NameMap<()>)
    ensures
        r.wf(),
        r@ == left_over(target@, items_view(items@)),
        r.listing().len() == 0 <==> left_over(target@, items_view(items@)).dom() == Set::<Seq<char>>::empty(),
{
    let ghost view = items_view(items@);
    let mut names: NameMap<()> = NameMap::new();
    let mut i: usize = 0;
    while i < items.len()
        invariant
            view == items_view(items@),
            i <= items@.len(),
            names.wf(),
            forall|name: Seq<char>| #[trigger]
                names@.dom().contains(name) <==> (!takes(target@, name) && named_before(view, name, i as int)),
        decreases items@.len() - i,
    {
        let ghost earlier = names@;
        assert(view[i as int] == items@[i as int]@);
        let ghost found = field(view[i as int], "name"@);
        if let Some(Json::Text(key)) = get(Some(&items[i]), "name") {
            assert(found == JsonView::Text(key@));
            if !is_taken(target, key.as_str()) {
                names.insert(key.clone(), ());
            }
        }
        proof {
            assert forall|name: Seq<char>| #[trigger]
                names@.dom().contains(name) <==> (!takes(target@, name) && named_before(view, name, i + 1)) by {
                if found == JsonView::Text(name) {
                    assert(field(view[i as int], "name"@) == JsonView::Text(name));
                    assert(named_before(view, name, i + 1));
                } else {
                    assert(names@.dom().contains(name) == earlier.dom().contains(name));
                    assert(named_before(view, name, i as int) == named_before(view, name, i + 1)) by {
                        if named_before(view, name, i + 1) {
                            let j = choose|j: int|
                                0 <= j < i + 1 && field(#[trigger] view[j], "name"@) == JsonView::Text(name);
                            assert(j != i);
                        }
                        if named_before(view, name, i as int) {
                            let j = choose|j: int|
                                0 <= j < i && field(#[trigger] view[j], "name"@) == JsonView::Text(name);
                            assert(field(view[j], "name"@) == JsonView::Text(name));
                        }
                    }
                }
            }
        }
        i += 1;
    }
    proof {
        assert forall|name: Seq<char>| #[trigger] names@.dom().contains(name) <==> left_over(target@, view).dom().contains(name) by {
            assert(names@.dom().contains(name) == (!takes(target@, name) && named_before(view, name, view.len() as int)));
        }
        assert(names@ =~= left_over(target@, view));
        if names.listing().len() == 0 {
            assert(names@.dom() =~= Set::<Seq<char>>::empty());
        } else {
            names.entry_in_map(0);
        }
    }
    names
}

/// Reads the operator of a node with its operands.
pub fn parse_operator(target: &str, items: &Vec<Json>, map: &NameMap<String>) -> (r: Result<(Operator, Vec<String>)>)
    requires
        map.wf(),
    ensures
        chosen(r) == parsed_operator(target@, items_view(items@), renames(map@)),
{
    let pair = match choose_operator(target, items, map) {
        Ok(pair) => pair,
        Err(e) => {
            return Err(e);
        },
    };
    let left = leftovers(target, items);
    if left.len() > 0 {
        let list = names_text(&left);
        let mut message = join("unsupported arguments for ", target);
        message.append(": ");
        message.append(list.as_str());
        return Err(deployment_error(message.as_str()));
    }
    Ok(pair)
}

} // verus!
