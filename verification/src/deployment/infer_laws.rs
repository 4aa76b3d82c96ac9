//! What is inferred holds for every size that the symbols may stand for.
use super::infer::{
    alike, all_specs, axis_of, divisor_of, factors, flatten_of, inferred_axis, input_specs, known_dims, operation_specs,
    product_messages, product_of, quotient_of, reshape_messages, reshape_of, state_specs, Factors, ProductMessages, SpecMap,
    StateMeta,
};
use super::program::{known_name, reshape_ok};
use super::types::{DimensionView, OperationView, ProgramView, ValueSpecView};
use vstd::prelude::*;

verus! {

/// What a dimension is when the symbols stand for the given sizes.
pub open spec fn size_of(d: DimensionView, sizes: spec_fn(Seq<char>) -> int) -> int {
    match d {
        DimensionView::Known(n) => n as int,
        DimensionView::Symbol { name, .. } => sizes(name),
    }
}

/// The product of the first `n` dimensions.
pub open spec fn elements(dims: Seq<DimensionView>, sizes: spec_fn(Seq<char>) -> int, n: int) -> int
    decreases n,
{
    if n <= 0 {
        1
    } else {
        elements(dims, sizes, n - 1) * size_of(dims[n - 1], sizes)
    }
}

/// What collected factors amount to.
spec fn amount(parts: Factors, sizes: spec_fn(Seq<char>) -> int) -> int {
    match parts.1 {
        None => parts.0 as int,
        Some(d) => parts.0 * size_of(d, sizes),
    }
}

proof fn factors_amount(dims: Seq<DimensionView>, n: int, messages: ProductMessages, sizes: spec_fn(Seq<char>) -> int)
    requires
        0 <= n <= dims.len(),
        factors(dims, n, messages) is Ok,
    ensures
        amount(factors(dims, n, messages)->Ok_0, sizes) == elements(dims, sizes, n),
    decreases n,
{
    if n > 0 {
        factors_amount(dims, n - 1, messages, sizes);
        let (count, symbol) = factors(dims, n - 1, messages)->Ok_0;
        let next = size_of(dims[n - 1], sizes);
        let c = count as int;
        match symbol {
            None => {},
            Some(d) => {
                let s = size_of(d, sizes);
                assert((c * next) * s == (c * s) * next) by (nonlinear_arith);
            },
        }
    }
}

proof fn zero_factor(dims: Seq<DimensionView>, sizes: spec_fn(Seq<char>) -> int, k: int, n: int)
    requires
        0 <= k < n <= dims.len(),
        dims[k] == DimensionView::Known(0),
    ensures
        elements(dims, sizes, n) == 0,
    decreases n,
{
    let before = elements(dims, sizes, n - 1);
    let next = size_of(dims[n - 1], sizes);
    if k < n - 1 {
        zero_factor(dims, sizes, k, n - 1);
    }
    assert(before * next == 0) by (nonlinear_arith)
        requires
            before == 0 || next == 0,
    ;
}

/// The product of dimensions is their product, whatever the symbols stand for.
pub proof fn product_is_sound(dims: Seq<DimensionView>, sizes: spec_fn(Seq<char>) -> int)
    requires
        product_of(dims) is Ok,
    ensures
        size_of(product_of(dims)->Ok_0, sizes) == elements(dims, sizes, dims.len() as int),
{
    let n = dims.len() as int;
    if dims.contains(DimensionView::Known(0)) {
        let k = dims.index_of(DimensionView::Known(0));
        assert(dims[k] == DimensionView::Known(0));
        zero_factor(dims, sizes, k, n);
    } else {
        factors_amount(dims, n, product_messages(), sizes);
        let (count, symbol) = factors(dims, n, product_messages())->Ok_0;
        if let Some(d) = symbol {
            assert(1 * size_of(d, sizes) == size_of(d, sizes));
        }
    }
}

/// The product of the sizes of a target, with `d` in the place of `-1`.
pub(crate) proof fn target_elements(shape: Seq<i64>, index: int, d: DimensionView, sizes: spec_fn(Seq<char>) -> int, n: int)
    requires
        0 <= n <= shape.len(),
        0 <= index < shape.len(),
        shape[index] == -1,
        reshape_ok(shape),
        divisor_of(shape, n) is Some,
    ensures
        elements(known_dims(shape).update(index, d), sizes, n) == divisor_of(shape, n)->0 * (if index < n {
            size_of(d, sizes)
        } else {
            1
        }),
    decreases n,
{
    let dims = known_dims(shape).update(index, d);
    if n > 0 {
        target_elements(shape, index, d, sizes, n - 1);
        let p = divisor_of(shape, n - 1)->0 as int;
        let s = size_of(d, sizes);
        let next = shape[n - 1] as int;
        if n - 1 == index {
            assert((p * 1) * s == p * s) by (nonlinear_arith);
        } else {
            if index < n - 1 {
                assert(!(shape[index] == -1 && shape[n - 1] == -1));
                assert((p * s) * next == (p * next) * s) by (nonlinear_arith);
            } else {
                assert(!(shape[n - 1] == -1 && shape[index] == -1));
                assert((p * 1) * next == (p * next) * 1) by (nonlinear_arith);
            }
            assert(dims[n - 1] == DimensionView::Known(shape[n - 1]));
        }
    }
}

/// A reshape keeps the number of elements, whatever the symbols stand for.
pub proof fn reshape_keeps_elements(dims: Seq<DimensionView>, shape: Seq<i64>, sizes: spec_fn(Seq<char>) -> int)
    requires
        reshape_ok(shape),
        reshape_of(dims, shape) is Ok,
    ensures
        ({
            let result = reshape_of(dims, shape)->Ok_0;
            elements(result, sizes, result.len() as int) == elements(dims, sizes, dims.len() as int)
        }),
{
    match inferred_axis(shape) {
        Some(index) => {
            shape.index_of_first_ensures(-1i64);
            let n = shape.len() as int;
            let divisor = divisor_of(shape, n)->0;
            let d = quotient_of(dims, divisor)->Ok_0;
            target_elements(shape, index, d, sizes, n);
            factors_amount(dims, dims.len() as int, reshape_messages(), sizes);
            let (known, symbol) = factors(dims, dims.len() as int, reshape_messages())->Ok_0;
            if symbol is None {
                let a = known as int;
                let b = divisor as int;
                vstd::arithmetic::div_mod::lemma_fundamental_div_mod(a, b);
                assert(-(0x8000_0000_0000_0000int) <= a / b <= 0x7fff_ffff_ffff_ffff) by (nonlinear_arith)
                    requires
                        b > 0,
                        -(0x8000_0000_0000_0000int) <= a <= 0x7fff_ffff_ffff_ffff,
                        a == b * (a / b) + a % b,
                        a % b == 0,
                ;
                assert(size_of(d, sizes) == a / b);
                assert(b * (a / b) == a);
            }
        },
        None => {
            product_is_sound(dims, sizes);
            product_is_sound(known_dims(shape), sizes);
        },
    }
}

/// The product of two joined lists is the product of their products.
proof fn joined_elements(a: Seq<DimensionView>, b: Seq<DimensionView>, sizes: spec_fn(Seq<char>) -> int, n: int)
    requires
        0 <= n <= b.len(),
    ensures
        elements(a + b, sizes, a.len() + n) == elements(a, sizes, a.len() as int) * elements(b, sizes, n),
    decreases n,
{
    if n > 0 {
        joined_elements(a, b, sizes, n - 1);
        let x = elements(a, sizes, a.len() as int);
        let y = elements(b, sizes, n - 1);
        let z = size_of(b[n - 1], sizes);
        assert((a + b)[a.len() + n - 1] == b[n - 1]);
        assert((x * y) * z == x * (y * z)) by (nonlinear_arith);
    } else {
        same_prefix(a + b, a, sizes, a.len() as int);
    }
}

proof fn same_prefix(a: Seq<DimensionView>, b: Seq<DimensionView>, sizes: spec_fn(Seq<char>) -> int, n: int)
    requires
        0 <= n <= a.len(),
        n <= b.len(),
        forall|i: int| 0 <= i < n ==> #[trigger] a[i] == b[i],
    ensures
        elements(a, sizes, n) == elements(b, sizes, n),
    decreases n,
{
    if n > 0 {
        same_prefix(a, b, sizes, n - 1);
        assert(a[n - 1] == b[n - 1]);
    }
}

/// Flattening keeps the number of elements, whatever the symbols stand for.
pub proof fn flatten_keeps_elements(dims: Seq<DimensionView>, start: i64, end: i64, sizes: spec_fn(Seq<char>) -> int)
    requires
        flatten_of(dims, start, end) is Ok,
    ensures
        ({
            let result = flatten_of(dims, start, end)->Ok_0;
            elements(result, sizes, result.len() as int) == elements(dims, sizes, dims.len() as int)
        }),
{
    let a = axis_of(start, dims.len() as int)->Ok_0;
    let b = axis_of(end, dims.len() as int)->Ok_0;
    let head = dims.take(a);
    let middle = dims.subrange(a, b + 1);
    let tail = dims.skip(b + 1);
    let flat = product_of(middle)->Ok_0;
    product_is_sound(middle, sizes);
    let one = seq![flat];
    assert(head.push(flat) =~= head + one);
    assert(dims =~= (head + middle) + tail);
    joined_elements(head + middle, tail, sizes, tail.len() as int);
    joined_elements(head, middle, sizes, middle.len() as int);
    joined_elements(head + one, tail, sizes, tail.len() as int);
    joined_elements(head, one, sizes, 1);
    reveal_with_fuel(elements, 2);
    assert(elements(one, sizes, 1) == 1 * size_of(flat, sizes));
}

/// Dimensions that are alike are equal, whatever the symbols stand for.
pub proof fn alike_is_sound(a: DimensionView, b: DimensionView, sizes: spec_fn(Seq<char>) -> int)
    requires
        alike(a, b),
    ensures
        size_of(a, sizes) == size_of(b, sizes),
{
}

/// Every spec stands under its own name.
pub(crate) open spec fn are_named(specs: SpecMap) -> bool {
    forall|name: Seq<char>| #[trigger] specs.dom().contains(name) ==> specs[name].name == name
}

pub(crate) proof fn input_specs_are_named(inputs: Seq<ValueSpecView>, n: int)
    requires
        0 <= n <= inputs.len(),
    ensures
        are_named(input_specs(inputs, n)),
        forall|j: int| 0 <= j < n ==> input_specs(inputs, n).dom().contains((#[trigger] inputs[j]).name),
    decreases n,
{
    if n > 0 {
        input_specs_are_named(inputs, n - 1);
    }
}

pub(crate) proof fn state_specs_are_named(specs: SpecMap, names: Seq<Seq<char>>, tensors: Seq<StateMeta>, n: int)
    requires
        0 <= n <= names.len(),
        are_named(specs),
        state_specs(specs, names, tensors, n) is Ok,
    ensures
        are_named(state_specs(specs, names, tensors, n)->Ok_0),
        specs.dom().subset_of(state_specs(specs, names, tensors, n)->Ok_0.dom()),
        forall|j: int| 0 <= j < n ==> state_specs(specs, names, tensors, n)->Ok_0.dom().contains(#[trigger] names[j]),
    decreases n,
{
    if n > 0 {
        state_specs_are_named(specs, names, tensors, n - 1);
    }
}

pub(crate) proof fn operation_specs_are_named(specs: SpecMap, operations: Seq<OperationView>, n: int)
    requires
        0 <= n <= operations.len(),
        are_named(specs),
        operation_specs(specs, operations, n) is Ok,
    ensures
        are_named(operation_specs(specs, operations, n)->Ok_0),
        specs.dom().subset_of(operation_specs(specs, operations, n)->Ok_0.dom()),
        forall|j: int|
            0 <= j < n ==> operation_specs(specs, operations, n)->Ok_0.dom().contains((#[trigger] operations[j]).name),
    decreases n,
{
    if n > 0 {
        operation_specs_are_named(specs, operations, n - 1);
    }
}

/// Every value of a program has a spec, which bears its name.
pub proof fn known_names_have_specs(program: ProgramView, names: Seq<Seq<char>>, tensors: Seq<StateMeta>)
    requires
        all_specs(program, names, tensors) is Ok,
    ensures
        forall|name: Seq<char>| #[trigger]
            known_name(program.inputs, program.operations, names.to_set(), program.operations.len() as int, name)
                ==> all_specs(program, names, tensors)->Ok_0.dom().contains(name) && all_specs(
                program,
                names,
                tensors,
            )->Ok_0[name].name == name,
{
    let first = input_specs(program.inputs, program.inputs.len() as int);
    input_specs_are_named(program.inputs, program.inputs.len() as int);
    state_specs_are_named(first, names, tensors, names.len() as int);
    let second = state_specs(first, names, tensors, names.len() as int)->Ok_0;
    operation_specs_are_named(second, program.operations, program.operations.len() as int);
    assert forall|name: Seq<char>| #[trigger]
        known_name(program.inputs, program.operations, names.to_set(), program.operations.len() as int, name) implies all_specs(
        program,
        names,
        tensors,
    )->Ok_0.dom().contains(name) && all_specs(program, names, tensors)->Ok_0[name].name == name by {
        if names.to_set().contains(name) {
            let j = names.index_of(name);
            assert(names[j] == name);
        }
    }
}

} // verus!
