//! What a model that was written means when it is read.
use super::super::types::{DType, OperationView, OperatorView};
use super::super::layout::{byte_size, element_count};
use super::export::{free_name, from_front, int_message, swapped_axes, tensor_message, Writing};
use super::import::{attribute_checks, attribute_named, decoded_integers, read_by, unread, Loading};
use super::proto::AttributeView;
use super::tensor::{code_of, codes_survive, dtype_of, element_bytes, packed_numbers, raw_of};
use crate::bytes::{little_endian, little_endian_length, signed_survives, unsigned_of};
use crate::error::{first_at, first_at_none, ErrorView};
use vstd::prelude::*;

verus! {

/// The operator that an operation becomes: a swap of two axes is a permutation, every other
/// operator stays.
pub open spec fn lowered(operation: OperationView, ranks: Map<Seq<char>, usize>) -> OperatorView {
    match operation.operator {
        OperatorView::Transpose { dim0, dim1 } => {
            let rank = ranks[operation.inputs[0]] as int;
            OperatorView::Permute(swapped_axes(rank, from_front(dim0, rank), from_front(dim1, rank)))
        },
        operator => operator,
    }
}

pub(crate) proof fn operator_names()
    ensures
        "Identity"@.len() == 8,
        "Identity"@[0] == 'I',
        "Relu"@.len() == 4,
        "Relu"@[0] == 'R',
        "Sigmoid"@.len() == 7,
        "Sigmoid"@[0] == 'S',
        "Tanh"@.len() == 4,
        "Tanh"@[0] == 'T',
        "Add"@.len() == 3,
        "Add"@[0] == 'A',
        "Sub"@.len() == 3,
        "Sub"@[0] == 'S',
        "Mul"@.len() == 3,
        "Mul"@[0] == 'M',
        "MatMul"@.len() == 6,
        "MatMul"@[0] == 'M',
        "Transpose"@.len() == 9,
        "Concat"@.len() == 6,
        "Concat"@[0] == 'C',
        "Flatten"@.len() == 7,
        "Flatten"@[0] == 'F',
        "Reshape"@.len() == 7,
        "Reshape"@[0] == 'R',
        "Gemm"@.len() == 4,
        "Gemm"@[0] == 'G',
        "Constant"@.len() == 8,
        "Constant"@[0] == 'C',
{
    reveal_strlit("Identity");
    reveal_strlit("Relu");
    reveal_strlit("Sigmoid");
    reveal_strlit("Tanh");
    reveal_strlit("Add");
    reveal_strlit("Sub");
    reveal_strlit("Mul");
    reveal_strlit("MatMul");
    reveal_strlit("Transpose");
    reveal_strlit("Concat");
    reveal_strlit("Flatten");
    reveal_strlit("Reshape");
    reveal_strlit("Gemm");
    reveal_strlit("Constant");
}

/// Attributes of which there is at most one are accepted, and the one is found under its name.
pub(crate) proof fn single_attribute(op: Seq<char>, attrs: Seq<AttributeView>)
    requires
        attrs.len() <= 1,
        attrs.len() == 1 ==> read_by(op, attrs[0].name) && !attrs[0].payloads.present() && attrs[0].float is None
            && attrs[0].tensor is None && (attrs[0].int is None || attrs[0].ints.len() == 0),
    ensures
        first_at(0, attrs.len() as int, attribute_checks(attrs)) is None,
        unread(op, attrs).dom() == Set::<Seq<char>>::empty(),
        attrs.len() == 1 ==> attribute_named(attrs, attrs[0].name) == Some(attrs[0]),
{
    first_at_none(0, attrs.len() as int, attribute_checks(attrs));
    assert(unread(op, attrs).dom() =~= Set::<Seq<char>>::empty());
    if attrs.len() == 1 {
        let name = attrs[0].name;
        assert(exists|j: int| 0 <= j < attrs.len() && (#[trigger] attrs[j]).name == name);
    }
}

/// What is read of a node that was written for an operation.
pub open spec fn with_lowered(l: Loading, operation: OperationView, ranks: Map<Seq<char>, usize>) -> Loading {
    let operator = lowered(operation, ranks);
    Loading {
        ranks: match l.rank_after(operator, operation.inputs)->Ok_0 {
            Some(n) => l.ranks.insert(operation.name, n),
            None => l.ranks,
        },
        reserved: l.reserved.insert(operation.name),
        operations: l.operations.push(OperationView { name: operation.name, operator, inputs: operation.inputs }),
        ..l
    }
}

/// An operation that was written as one node is read back, with a swap of two axes as the
/// permutation that it is: its name is new, its operands are known, the rank of what is
/// flattened is known, and the ranks do not rule the operator out.
pub proof fn nodes_survive(l: Loading, w: Writing, operation: OperationView, ranks: Map<Seq<char>, usize>)
    requires
        !(operation.operator is Linear || operation.operator is Reshape || operation.operator is If),
        w.operation(operation, ranks) is Ok,
        !l.reserved.contains(operation.name),
        forall|k: int| 0 <= k < operation.inputs.len() ==> l.reserved.contains(#[trigger] operation.inputs[k]),
        operation.operator is Flatten ==> operation.inputs.len() > 0 && l.ranks.dom().contains(operation.inputs[0]),
        l.rank_after(lowered(operation, ranks), operation.inputs) is Ok,
    ensures
        w.operation(operation, ranks)->Ok_0.nodes.len() == w.nodes.len() + 1,
        l.with_node(w.operation(operation, ranks)->Ok_0.nodes.last()) == Ok::<Loading, ErrorView>(
            with_lowered(l, operation, ranks),
        ),
{
    operator_names();
    let node = w.operation(operation, ranks)->Ok_0.nodes.last();
    let named = Loading { reserved: l.reserved.insert(operation.name), ..l };
    assert(node.outputs[0] == operation.name);
    single_attribute(node.op, node.attrs);
    assert(named.choice(node) == Ok::<(OperatorView, Seq<Seq<char>>), ErrorView>(
        (lowered(operation, ranks), operation.inputs),
    ));
    assert(named.rank_after(lowered(operation, ranks), operation.inputs) == l.rank_after(
        lowered(operation, ranks),
        operation.inputs,
    ));
}

proof fn packed_length(numbers: Seq<int>)
    ensures
        packed_numbers(numbers, 8).len() == 8 * numbers.len(),
    decreases numbers.len(),
{
    if numbers.len() > 0 {
        packed_length(numbers.drop_last());
        little_endian_length(numbers.last(), 8);
    }
}

/// Integers that were packed are read back.
pub proof fn integers_survive(list: Seq<i64>)
    ensures
        decoded_integers(packed_numbers(list.map_values(|x: i64| unsigned_of(x)), 8)) == list,
    decreases list.len(),
{
    let numbers = list.map_values(|x: i64| unsigned_of(x));
    let bytes = packed_numbers(numbers, 8);
    packed_length(numbers);
    if list.len() > 0 {
        let rest = list.drop_last();
        integers_survive(rest);
        assert(numbers.drop_last() =~= rest.map_values(|x: i64| unsigned_of(x)));
        let before = packed_numbers(numbers.drop_last(), 8);
        packed_length(numbers.drop_last());
        let last = little_endian(unsigned_of(list.last()), 8);
        little_endian_length(unsigned_of(list.last()), 8);
        signed_survives(list.last());
        assert(bytes =~= before + last);
        assert forall|i: int| 0 <= i < list.len() implies #[trigger] decoded_integers(bytes)[i] == list[i] by {
            let part = bytes.subrange(8 * i, 8 * i + 8);
            if i < rest.len() {
                assert(part =~= before.subrange(8 * i, 8 * i + 8));
                assert(decoded_integers(before)[i] == rest[i]);
            } else {
                assert(part =~= last);
            }
        }
    }
    assert(decoded_integers(bytes) =~= list);
}

/// The shape of a reshape is written as a constant that means that shape.
pub proof fn shapes_survive(name: Seq<char>, shape: Seq<i64>)
    requires
        shape.len() <= i64::MAX,
        byte_size(seq![shape.len() as i64], DType::Int64) is Ok,
    ensures
        ({
            let message = tensor_message(name, 7, seq![shape.len() as i64], Seq::empty(), shape);
            &&& raw_of(message) is Ok
            &&& raw_of(message)->Ok_0.0 == DType::Int64
            &&& decoded_integers(raw_of(message)->Ok_0.1) == shape
        }),
{
    integers_survive(shape);
    packed_length(shape.map_values(|x: i64| unsigned_of(x)));
    let dims = seq![shape.len() as i64];
    reveal_with_fuel(element_count, 3);
    assert(dims[0] == shape.len());
    assert(1 * dims[0] == dims[0]);
    assert(element_count(dims, 0) == Ok::<int, ErrorView>(1));
    assert(element_count(dims, 1) == Ok::<int, ErrorView>(shape.len() as int));
    assert(DType::Int64.width() == 8);
    let message = tensor_message(name, 7, dims, Seq::empty(), shape);
    assert(dtype_of(message.dtype) == Ok::<DType, ErrorView>(DType::Int64));
    assert(byte_size(dims, DType::Int64) == Ok::<int, ErrorView>((shape.len() * 8) as int));
    assert(element_bytes(message, DType::Int64) == Ok::<Seq<u8>, ErrorView>(
        packed_numbers(shape.map_values(|x: i64| unsigned_of(x)), 8),
    ));
}

/// A reshape that was written is read back, where the constant of its shape has been read.
pub proof fn reshapes_survive(l: Loading, w: Writing, operation: OperationView, shape: Seq<i64>)
    requires
        operation.operator == OperatorView::Reshape(shape),
        operation.inputs.len() == 1,
        !l.reserved.contains(operation.name),
        l.reserved.contains(operation.inputs[0]),
        l.reserved.contains(free_name(w.reserved)),
        l.constants.dom().contains(free_name(w.reserved)),
        ({
            let entry = l.state[l.constants[free_name(w.reserved)] as int];
            let storage = l.storages[entry.storage as int];
            &&& entry.shape.len() == 1
            &&& storage.dtype == DType::Int64
            &&& decoded_integers(storage.bytes) == shape
        }),
    ensures
        w.reshape(operation, shape).nodes.len() == w.nodes.len() + 1,
        l.with_node(w.reshape(operation, shape).nodes.last()) == Ok::<Loading, ErrorView>(
            Loading {
                ranks: l.ranks.insert(operation.name, shape.len() as usize),
                reserved: l.reserved.insert(operation.name),
                operations: l.operations.push(operation),
                ..l
            },
        ),
{
    operator_names();
    let node = w.reshape(operation, shape).nodes.last();
    let named = Loading { reserved: l.reserved.insert(operation.name), ..l };
    assert(node.outputs[0] == operation.name);
    single_attribute(node.op, node.attrs);
    assert(node.inputs.take(1) =~= operation.inputs);
    assert(node.attrs[0] == int_message("allowzero"@, 1));
    assert(named.choice(node) == Ok::<(OperatorView, Seq<Seq<char>>), ErrorView>((operation.operator, operation.inputs)));
}

/// The operations that a linear transformation becomes: the transposition of its weight, the
/// product and, where there is a bias, the sum.
pub open spec fn linear_parts(operation: OperationView, transposed: Seq<char>, product: Seq<char>) -> Seq<OperationView> {
    let inputs = operation.inputs;
    let transposition = OperationView {
        name: transposed,
        operator: OperatorView::Permute(seq![1i64, 0i64]),
        inputs: seq![inputs[1]],
    };
    if inputs.len() == 3 {
        seq![
            transposition,
            OperationView { name: product, operator: OperatorView::Matmul, inputs: seq![inputs[0], transposed] },
            OperationView { name: operation.name, operator: OperatorView::Add, inputs: seq![product, inputs[2]] },
        ]
    } else {
        seq![
            transposition,
            OperationView { name: operation.name, operator: OperatorView::Matmul, inputs: seq![inputs[0], transposed] },
        ]
    }
}

/// A linear transformation is written as its parts are, under names that no value has.
pub proof fn linear_is_written_in_parts(w: Writing, operation: OperationView, ranks: Map<Seq<char>, usize>)
    requires
        operation.inputs.len() == 2 || operation.inputs.len() == 3,
    ensures
        ({
            let transposed = free_name(w.reserved);
            let product = free_name(w.reserved.insert(transposed));
            let parts = linear_parts(operation, transposed, product);
            let start = if operation.inputs.len() == 3 {
                w.taking(transposed).taking(product)
            } else {
                w.taking(transposed)
            };
            start.operations(parts, ranks, parts.len() as int) == Ok::<Writing, ErrorView>(w.linear(operation))
        }),
{
    reveal_with_fuel(Writing::operations, 5);
}

/// A state tensor that was written is read back as a constant with the same elements.
pub proof fn tensors_survive(name: Seq<char>, dtype: DType, shape: Seq<i64>, raw: Seq<u8>)
    requires
        byte_size(shape, dtype) == Ok::<int, ErrorView>(raw.len() as int),
        dtype is Bool ==> forall|k: int| 0 <= k < raw.len() ==> #[trigger] raw[k] <= 1,
    ensures
        raw_of(tensor_message(name, code_of(dtype), shape, raw, Seq::empty())) == Ok::<(DType, Seq<u8>), ErrorView>(
            (dtype, raw),
        ),
{
    codes_survive(dtype);
    let message = tensor_message(name, code_of(dtype), shape, raw, Seq::empty());
    if raw.len() == 0 {
        assert(message.floats.map_values(|x: u32| x as int) =~= Seq::<int>::empty());
        assert(message.doubles.map_values(|x: u64| x as int) =~= Seq::<int>::empty());
        assert(message.ints64.map_values(|x: i64| unsigned_of(x)) =~= Seq::<int>::empty());
        assert(message.ints32.map_values(|x: i32| x as u8) =~= Seq::<u8>::empty());
        assert(raw =~= Seq::<u8>::empty());
    }
    assert(element_bytes(message, dtype) == Ok::<Seq<u8>, ErrorView>(raw));
}

} // verus!
