//! In which order trees name their tensors, and how state lies in storage.
use super::artifact::{
    live_refusal, names_of, pack_one, refreshed, rewritten, state_refusal, storage_refusal, total_bytes, LiveTensor,
    StateTensorView, StateView, StorageView, is_first_identical, first_identical, Packed,
};
use super::layout::{at_least_one, byte_size, element_count, extent_from, strides_of, view_refusal};
use super::model::{pass_through, slots_from, state_slots, trace_refusal, variable_role, with_roles};
use super::program::value_name_refusal;
use super::tree::{walked, walked_entries, walked_items, TreeView};
use super::types::{DType, ProgramView, StateRole, ValueSpecView};
use crate::tensor_laws::volume;
use vstd::prelude::*;

verus! {

/// The names of the tensors of a tree, from left to right.
pub open spec fn leaves_of(tree: TreeView) -> Seq<Seq<char>>
    decreases tree, 0nat,
{
    match tree {
        TreeView::Tensor(name) => seq![name],
        TreeView::Tuple(items) => leaves_of_items(items, items.len()),
        TreeView::List(items) => leaves_of_items(items, items.len()),
        TreeView::Dict(items) => leaves_of_entries(items, items.len()),
    }
}

/// The names in the first `n` trees of a list.
pub open spec fn leaves_of_items(items: Seq<TreeView>, n: nat) -> Seq<Seq<char>>
    decreases items, n,
{
    if n == 0 || n > items.len() {
        Seq::empty()
    } else {
        leaves_of_items(items, (n - 1) as nat) + leaves_of(items[n - 1])
    }
}

/// The names in the first `n` entries of a dictionary.
pub open spec fn leaves_of_entries(items: Seq<(Seq<char>, TreeView)>, n: nat) -> Seq<Seq<char>>
    decreases items, n,
{
    if n == 0 || n > items.len() {
        Seq::empty()
    } else {
        leaves_of_entries(items, (n - 1) as nat) + leaves_of(items[n - 1].1)
    }
}

/// A tree that can be called with gives out its tensors from left to right, after what was there before.
pub proof fn trees_are_walked_from_left_to_right(tree: TreeView, depth: int, out: Seq<Seq<char>>)
    ensures
        walked(tree, depth, out) matches Ok(names) ==> names == out + leaves_of(tree),
    decreases tree, 0nat,
{
    match tree {
        TreeView::Tensor(name) => {
            assert(out.push(name) =~= out + seq![name]);
        },
        TreeView::Tuple(items) => {
            items_are_walked(items, items.len(), depth, out);
        },
        TreeView::List(items) => {
            items_are_walked(items, items.len(), depth, out);
        },
        TreeView::Dict(items) => {
            entries_are_walked(items, items.len(), depth, out);
        },
    }
}

proof fn items_are_walked(items: Seq<TreeView>, n: nat, depth: int, out: Seq<Seq<char>>)
    requires
        n <= items.len(),
    ensures
        walked_items(items, n, depth, out) matches Ok(names) ==> names == out + leaves_of_items(items, n),
    decreases items, n,
{
    if n > 0 {
        items_are_walked(items, (n - 1) as nat, depth, out);
        if walked_items(items, n, depth, out) is Ok {
            let list = walked_items(items, (n - 1) as nat, depth, out)->Ok_0;
            trees_are_walked_from_left_to_right(items[n - 1], depth + 1, list);
            assert(list + leaves_of(items[n - 1]) =~= out + leaves_of_items(items, n));
        }
    } else {
        assert(out + leaves_of_items(items, 0) =~= out);
    }
}

proof fn entries_are_walked(items: Seq<(Seq<char>, TreeView)>, n: nat, depth: int, out: Seq<Seq<char>>)
    requires
        n <= items.len(),
    ensures
        walked_entries(items, n, depth, out) matches Ok(names) ==> names == out + leaves_of_entries(items, n),
    decreases items, n,
{
    if n > 0 {
        entries_are_walked(items, (n - 1) as nat, depth, out);
        if walked_entries(items, n, depth, out) is Ok {
            let list = walked_entries(items, (n - 1) as nat, depth, out)->Ok_0;
            trees_are_walked_from_left_to_right(items[n - 1].1, depth + 1, list);
            assert(list + leaves_of(items[n - 1].1) =~= out + leaves_of_entries(items, n));
        }
    } else {
        assert(out + leaves_of_entries(items, 0) =~= out);
    }
}

/// A dictionary that can be called with has no key twice.
pub proof fn called_dictionaries_have_distinct_keys(items: Seq<(Seq<char>, TreeView)>, n: nat, depth: int, out: Seq<Seq<char>>, i: int, j: int)
    requires
        0 <= j < i < n <= items.len(),
        walked_entries(items, n, depth, out) is Ok,
    ensures
        items[j].0 != items[i].0,
    decreases n,
{
    if i < n - 1 {
        called_dictionaries_have_distinct_keys(items, (n - 1) as nat, depth, out, i, j);
    }
}

/// Trees that are nested more than 32 deep, or that follow more than 10,000 names, are refused.
pub proof fn walked_trees_are_bounded(tree: TreeView, depth: int, out: Seq<Seq<char>>, name: Seq<char>)
    ensures
        depth > 32 || out.len() > 10000 ==> walked(tree, depth, out) is Err,
        depth <= 32 && out.len() <= 10000 ==> walked(TreeView::Tensor(name), depth, out) is Ok,
{
}

proof fn counts_are_volumes(shape: Seq<i64>, n: int)
    requires
        0 <= n <= shape.len(),
    ensures
        element_count(shape, n) matches Ok(count) ==> count == volume(shape.take(n)) && 0 <= count <= usize::MAX,
    decreases n,
{
    if n == 0 {
        assert(shape.take(0) =~= Seq::<i64>::empty());
    } else {
        counts_are_volumes(shape, n - 1);
        let before = shape.take(n - 1);
        assert(shape.take(n) =~= before.push(shape[n - 1]));
        crate::graph::shape_laws::volume_of_pushed(before, shape[n - 1]);
        if element_count(shape, n) is Ok {
            let count = element_count(shape, n - 1)->Ok_0;
            let side = shape[n - 1] as int;
            assert(count * side >= 0) by (nonlinear_arith)
                requires
                    count >= 0,
                    side >= 0,
            ;
        }
    }
}

/// A tensor takes as many bytes as its sides multiplied with the width of its elements, if it has at most
/// 64 sides and these bytes are within the limit.
pub proof fn tensors_take_the_bytes_of_their_elements(shape: Seq<i64>, dtype: DType)
    ensures
        byte_size(shape, dtype) matches Ok(size) ==> size == volume(shape) * dtype.element().width() && shape.len() <= 64 && size
            <= 268435456,
{
    counts_are_volumes(shape, shape.len() as int);
    assert(shape.take(shape.len() as int) =~= shape);
}

/// The steps of a tensor without gaps: the last axis steps by one element, and every other by what the
/// axis after it covers, where an empty axis counts as one element.
pub proof fn strides_cover_the_axes_after_them(shape: Seq<i64>, i: int)
    requires
        strides_of(shape) is Ok,
        0 <= i < shape.len(),
    ensures
        ({
            let strides = strides_of(shape)->Ok_0;
            &&& strides.len() == shape.len()
            &&& strides[shape.len() - 1] == 1
            &&& i + 1 < shape.len() ==> strides[i] == strides[i + 1] * (if shape[i + 1] > 1 {
                shape[i + 1] as int
            } else {
                1
            })
        }),
{
    extents_shrink(shape, 0, i + 1);
    extents_shrink(shape, 0, shape.len() as int);
    if i + 1 < shape.len() {
        extents_shrink(shape, 0, i + 2);
        let rest = extent_from(shape, i + 2);
        let size = at_least_one(shape[i + 1]);
        assert(extent_from(shape, i + 1) == size * rest);
        assert(size * rest == rest * size) by (nonlinear_arith);
    }
}

proof fn extents_shrink(shape: Seq<i64>, i: int, j: int)
    requires
        0 <= i <= j <= shape.len(),
    ensures
        1 <= extent_from(shape, j) <= extent_from(shape, i),
    decreases shape.len() - i,
{
    if i < j {
        extents_shrink(shape, i + 1, j);
        let rest = extent_from(shape, i + 1);
        let size = at_least_one(shape[i]);
        assert(rest <= size * rest) by (nonlinear_arith)
            requires
                rest >= 1,
                size >= 1,
        ;
    } else {
        extent_is_positive(shape, i);
    }
}

proof fn extent_is_positive(shape: Seq<i64>, i: int)
    requires
        0 <= i <= shape.len(),
    ensures
        extent_from(shape, i) >= 1,
    decreases shape.len() - i,
{
    if i < shape.len() {
        extent_is_positive(shape, i + 1);
        let rest = extent_from(shape, i + 1);
        let size = at_least_one(shape[i]);
        assert(size * rest >= 1) by (nonlinear_arith)
            requires
                rest >= 1,
                size >= 1,
        ;
    }
}

/// Storages are counted with all their bytes.
pub proof fn storages_are_counted(storages: Seq<StorageView>, n: int)
    requires
        0 <= n < storages.len(),
    ensures
        total_bytes(storages, 0) == 0,
        total_bytes(storages, n + 1) - total_bytes(storages, n) == storages[n].bytes.len(),
{
}

/// A storage is accepted exactly if it, with those before it, is within the limit, it holds whole
/// elements, and truth values are zero or one.
pub proof fn storages_hold_whole_elements(storages: Seq<StorageView>, i: int)
    ensures
        storage_refusal(storages, i) is None <==> {
            let storage = storages[i];
            &&& total_bytes(storages, i + 1) <= 268435456
            &&& storage.bytes.len() as int % storage.dtype.element().width() == 0
            &&& storage.dtype is Bool ==> forall|k: int|
                0 <= k < storage.bytes.len() ==> (#[trigger] storage.bytes[k]) == 0 || storage.bytes[k] == 1
        },
        storages[i].count() == storages[i].bytes.len() as int / storages[i].dtype.element().width(),
{
}

/// A state entry is accepted exactly if its name is accepted and new, its storage exists, and its view of
/// the storage is accepted.
pub proof fn state_entries_view_their_storage(storages: Seq<StorageView>, state: Seq<StateView>, i: int)
    ensures
        state_refusal(storages, state, i) is None <==> {
            let entry = state[i];
            let storage = storages[entry.storage as int];
            &&& value_name_refusal(entry.name) is None
            &&& forall|j: int| 0 <= j < i ==> (#[trigger] state[j]).name != entry.name
            &&& entry.storage < storages.len()
            &&& view_refusal(
                entry.shape,
                entry.strides,
                entry.offset,
                entry.requires_grad,
                storage.dtype,
                storage.bytes.len() as int / storage.dtype.width(),
            ) is None
        },
{
}

/// Two state tensors are one exactly if they have an element and the same address, shape and strides.
pub proof fn tied_tensors_are_one(a: StateTensorView, b: StateTensorView)
    ensures
        a.identical(b) <==> !a.shape.contains(0i64) && a.address == b.address && a.shape == b.shape && a.strides == b.strides,
{
}

/// Packing a tensor adds one entry with its name, role, shape and training flag. It views the storage of
/// the first tensor that it is one with, or, where there is none, a new one with its bytes and element
/// type.
pub proof fn packed_tensors_share_storage(tensors: Seq<StateTensorView>, i: int, before: Packed, j: int)
    requires
        0 <= i < tensors.len(),
        before.1.len() == i,
        before.0.len() < usize::MAX,
        pack_one(tensors, i, before) is Ok,
    ensures
        ({
            let tensor = tensors[i];
            let after = pack_one(tensors, i, before)->Ok_0;
            let entry = after.1[i];
            &&& after.1.len() == i + 1
            &&& forall|k: int| 0 <= k < i ==> after.1[k] == #[trigger] before.1[k]
            &&& entry.name == tensor.name && entry.role == tensor.role && entry.shape == tensor.shape
            &&& entry.requires_grad == tensor.requires_grad && entry.offset == 0
            &&& is_first_identical(tensors, i, j) ==> after.0 == before.0 && entry.storage == before.1[j].storage
            &&& (forall|k: int| 0 <= k < i ==> !tensor.identical(#[trigger] tensors[k])) ==> {
                &&& after.0.len() == before.0.len() + 1
                &&& entry.storage == before.0.len()
                &&& after.0[entry.storage as int].bytes == tensor.bytes
                &&& after.0[entry.storage as int].dtype.element() == tensor.kind
            }
        }),
{
    if is_first_identical(tensors, i, j) {
        assert(tensors[i].identical(tensors[j]));
        let found = choose|k: int| #[trigger] is_first_identical(tensors, i, k);
        assert(is_first_identical(tensors, i, found));
        assert(found == j) by {
            if found < j {
                assert(!tensors[i].identical(tensors[found]));
            } else if j < found {
                assert(!tensors[i].identical(tensors[j]));
            }
        }
        assert(first_identical(tensors, i) == Some(j));
    }
}

/// A live tensor stands for a state entry exactly if it has its shape and the element type of its storage.
pub proof fn live_tensors_match_their_entry(storages: Seq<StorageView>, entry: StateView, live: LiveTensor)
    ensures
        live_refusal(storages, entry, live) is None <==> live.shape@ == entry.shape && live.kind == storages[entry.storage as int].dtype.element(),
{
}

/// Bringing state up to date takes over the training flag of each live tensor and the bytes of each
/// storage, in their order, and nothing else.
pub proof fn live_state_is_taken_over(state: Seq<StateView>, live: Seq<LiveTensor>, storages: Seq<StorageView>, bytes: Seq<Vec<u8>>, i: int, s: int)
    requires
        0 <= i < state.len(),
        0 <= s < storages.len(),
    ensures
        refreshed(state, live).len() == state.len(),
        refreshed(state, live)[i].requires_grad == live[i].requires_grad,
        refreshed(state, live)[i].name == state[i].name && refreshed(state, live)[i].storage == state[i].storage && refreshed(
            state,
            live,
        )[i].shape == state[i].shape && refreshed(state, live)[i].strides == state[i].strides && refreshed(state, live)[i].offset
            == state[i].offset && refreshed(state, live)[i].role == state[i].role,
        rewritten(storages, bytes).len() == storages.len(),
        rewritten(storages, bytes)[s].bytes == bytes[s]@ && rewritten(storages, bytes)[s].dtype == storages[s].dtype,
{
}

/// The names of the state are those of its entries.
pub proof fn state_names_are_those_of_the_entries(state: Seq<StateView>, n: int, i: int)
    requires
        0 <= i < n <= state.len(),
    ensures
        names_of(state, n).contains(state[i].name),
        names_of(state, 0) == Set::<Seq<char>>::empty(),
{
    assert(names_of(state, 0) =~= Set::<Seq<char>>::empty());
}

/// Each state entry is found in the slot with its number.
pub proof fn state_stands_in_its_slots(state: Seq<StateView>, n: int, i: int, from: int, end: int, k: int)
    requires
        0 <= i < n <= state.len(),
        n <= usize::MAX,
        forall|j: int, l: int| 0 <= j < l < state.len() ==> (#[trigger] state[j]).name != (#[trigger] state[l]).name,
        0 <= from <= end <= usize::MAX,
        0 <= k < end - from,
    ensures
        state_slots(state, n).dom().contains(state[i].name),
        state_slots(state, n)[state[i].name] == i,
        slots_from(from, end).len() == end - from,
        slots_from(from, end)[k] == from + k,
    decreases n,
{
    if i < n - 1 {
        state_stands_in_its_slots(state, n - 1, i, from, end, k);
    }
}

/// What takes gradients is a parameter and what does not is a buffer.
pub proof fn trained_state_is_a_parameter(tensors: Seq<StateTensorView>, i: int)
    requires
        0 <= i < tensors.len(),
    ensures
        variable_role(true) == StateRole::Parameter,
        variable_role(false) == StateRole::Buffer,
        with_roles(tensors)[i].role is Parameter <==> tensors[i].requires_grad,
        with_roles(tensors)[i].name == tensors[i].name && with_roles(tensors)[i].bytes == tensors[i].bytes && with_roles(tensors)[i].shape
            == tensors[i].shape && with_roles(tensors)[i].requires_grad == tensors[i].requires_grad,
{
}

/// A program can be traced exactly if its output tree names one tensor and it has no conditional.
pub proof fn traced_programs_have_one_output(program: ProgramView)
    ensures
        trace_refusal(program) is None <==> {
            &&& walked(program.output_tree, 0, Seq::empty()) is Ok
            &&& walked(program.output_tree, 0, Seq::empty())->Ok_0.len() == 1
            &&& forall|i: int| 0 <= i < program.operations.len() ==> !((#[trigger] program.operations[i]).operator is If)
        },
{
}

/// The program that guards inputs alone has no operations and gives its inputs out again.
pub proof fn guards_pass_their_inputs_through(inputs: Seq<ValueSpecView>, i: int)
    requires
        0 <= i < inputs.len(),
    ensures
        ({
            let program = pass_through(inputs);
            &&& program.inputs == inputs && program.operations.len() == 0
            &&& program.input_tree is Tuple && program.input_tree->Tuple_0.len() == inputs.len()
            &&& program.input_tree->Tuple_0[i] == TreeView::Tensor(inputs[i].name)
            &&& program.output_tree == program.input_tree
        }),
{
    assert(super::program::input_names(inputs)[i] == inputs[i].name);
}

} // verus!
