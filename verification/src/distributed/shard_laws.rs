//! Which bytes of a parameter each rank holds, and which parts belong together.
use super::payload::PayloadView;
use super::record::{
    cut_out, holder, is_foreign, part_checks, part_length, part_refusal, set_refusal, shard_checks, value_checks, value_refusal,
    whole, whole_length, whole_weights, ConsolidatedView, ShardView,
};
use super::replica::{change_refusal, selected, CurrentView, Registered, RegisteredView};
use super::shard::{
    chunk_of, elements_of, is_scalar, joined, name_refusal, shard_of, spec_checks, spec_names, spec_refusal,
    specs_refusal, Loss, SpecView,
};
use super::trainer::{local_refusal, stored_elements, LocalView};
use crate::error::first_at_none;
use crate::names::ascending;
use crate::tensor::{counted, TensorSpecView};
use crate::tensor_laws::{elements_are_the_product_of_the_sides, volume};
use vstd::prelude::*;

verus! {

/// Each rank holds the least number of elements with which all ranks together hold every element.
pub proof fn chunks_are_the_least_that_suffice(count: int, world: int, size: int)
    requires
        count >= 0,
        world > 0,
    ensures
        chunk_of(count, world) * world >= count,
        size >= 0 && size * world >= count ==> chunk_of(count, world) <= size,
{
    let chunk = chunk_of(count, world);
    let rest = (count + world - 1) % world;
    vstd::arithmetic::div_mod::lemma_fundamental_div_mod(count + world - 1, world);
    vstd::arithmetic::div_mod::lemma_mod_bound(count + world - 1, world);
    vstd::arithmetic::mul::lemma_mul_is_commutative(world, chunk);
    assert(chunk * world == count + world - 1 - rest);
    if size >= 0 && size * world >= count && chunk > size {
        assert(chunk * world >= (size + 1) * world && (size + 1) * world == size * world + world) by (nonlinear_arith)
            requires
                chunk >= size + 1,
                world > 0,
        ;
    }
}

/// Byte `i` of the shard of a rank is byte `rank * size + i` of the whole, and zero past its end.
pub proof fn shards_hold_consecutive_bytes(bytes: Seq<u8>, size: int, rank: int, i: int)
    requires
        0 <= i < size,
        0 <= rank,
    ensures
        shard_of(bytes, size, rank).len() == size,
        rank * size + i < bytes.len() ==> shard_of(bytes, size, rank)[i] == bytes[rank * size + i],
        rank * size + i >= bytes.len() ==> shard_of(bytes, size, rank)[i] == 0,
{
}

/// Joined parts hold the bytes of the first part, then those of the second, and so on.
pub proof fn joined_parts_stand_in_order(parts: Seq<Seq<u8>>, size: int, length: int, rank: int, i: int)
    requires
        0 <= i < size,
        0 <= rank,
        rank * size + i < length,
    ensures
        joined(parts, size, length).len() == length,
        joined(parts, size, length)[rank * size + i] == parts[rank][i],
{
    assert(0 <= rank * size) by (nonlinear_arith)
        requires
            0 <= rank,
            0 < size,
    ;
    vstd::arithmetic::div_mod::lemma_fundamental_div_mod_converse(rank * size + i, size, rank, i);
}

/// A parameter can be divided exactly if its name has sound components, it holds floating-point
/// numbers, and it has at most 64 sides and at least one element, but no more than can be counted.
pub proof fn divided_parameters_are_sound(spec: SpecView)
    ensures
        spec_refusal(spec) is None <==> {
            &&& name_refusal(spec.name) is None
            &&& spec.dtype is Float || spec.dtype is Double
            &&& spec.shape.len() <= 64
            &&& counted(spec.shape, spec.shape.len() as int) is Some
            &&& 0 != volume(spec.shape) && volume(spec.shape) <= i64::MAX
        },
        spec_refusal(spec) is None ==> elements_of(spec.shape) == Ok::<int, crate::error::ErrorView>(volume(spec.shape)),
{
    elements_are_the_product_of_the_sides(spec.shape);
}

/// A name is refused exactly if it is longer than 4096 bytes, is empty, begins or ends with a dot, holds
/// two dots in a row or holds a zero character.
pub proof fn parameter_names_have_components(name: Seq<char>)
    ensures
        name_refusal(name) is None <==> {
            &&& vstd::utf8::encode_utf8(name).len() <= 4096
            &&& name.len() > 0 && name.first() != '.' && name.last() != '.'
            &&& forall|i: int| 1 <= i < name.len() && #[trigger] name[i] == '.' ==> name[i - 1] != '.'
            &&& !name.contains('\0')
        },
{
    if name_refusal(name) is None {
        assert forall|i: int| 1 <= i < name.len() && #[trigger] name[i] == '.' implies name[i - 1] != '.' by {
            let j = i - 1;
            assert(!(name[j] == '.' && name[j + 1] == '.'));
        }
    }
}

/// A list of parameters is accepted exactly if it is not empty, its names ascend strictly and each
/// parameter can be divided.
pub proof fn divided_lists_are_sound(list: Seq<SpecView>)
    ensures
        specs_refusal(list) is None <==> {
            &&& list.len() > 0
            &&& ascending(spec_names(list))
            &&& forall|i: int| 0 <= i < list.len() ==> spec_refusal(#[trigger] list[i]) is None
        },
{
    let checks = spec_checks(list);
    first_at_none(0, list.len() as int, checks);
    if forall|i: int| 0 <= i < list.len() ==> spec_refusal(#[trigger] list[i]) is None {
        assert forall|i: int| 0 <= i < list.len() implies (#[trigger] checks(i)) is None by {
            assert(spec_refusal(list[i]) is None);
        }
    }
    if forall|i: int| 0 <= i < list.len() ==> (#[trigger] checks(i)) is None {
        assert forall|i: int| 0 <= i < list.len() implies spec_refusal(#[trigger] list[i]) is None by {
            assert(checks(i) is None);
        }
    }
}

/// A local part is accepted exactly if it is there, lies on the processor, has the element type of its
/// parameter and takes gradients, and is a row of as many elements as each rank holds.
pub proof fn local_parts_hold_one_chunk(spec: SpecView, world: int, local: Map<Seq<char>, LocalView>)
    requires
        world > 0,
        spec_refusal(spec) is None,
    ensures
        local_refusal(spec, world, local) is None <==> {
            let part = local[spec.name];
            &&& local.dom().contains(spec.name)
            &&& part.on_cpu && part.requires_grad
            &&& part.kind == spec.dtype.as_kind()
            &&& part.shape.len() == 1
            &&& part.shape[0] >= 0 && part.shape[0] == chunk_of(volume(spec.shape), world)
        },
{
    divided_parameters_are_sound(spec);
    elements_are_the_product_of_the_sides(spec.shape);
    let count = volume(spec.shape);
    let chunk = chunk_of(count, world);
    chunks_are_the_least_that_suffice(count, world, count);
    assert(count * world >= count) by (nonlinear_arith)
        requires
            count >= 0,
            world > 0,
    ;
    assert(chunk <= i64::MAX);
    chunk_is_not_negative(count, world);
    if local.dom().contains(spec.name) && local[spec.name].shape.len() == 1 && local[spec.name].shape[0] == chunk {
        assert(local[spec.name].shape =~= seq![chunk as i64]);
    }
}

proof fn chunk_is_not_negative(count: int, world: int)
    requires
        count >= 0,
        world > 0,
    ensures
        chunk_of(count, world) >= 0,
{
    vstd::arithmetic::div_mod::lemma_div_pos_is_pos(count + world - 1, world);
}

/// A rank holds of several parameters at least its share of their elements, and less than one element
/// more of each.
pub proof fn stored_elements_are_a_share(parameters: Seq<SpecView>, world: int, n: int)
    requires
        world > 0,
        0 <= n <= parameters.len(),
        forall|i: int| 0 <= i < parameters.len() ==> spec_refusal(#[trigger] parameters[i]) is None,
    ensures
        stored_elements(parameters, world, n) * world >= total(parameters, n),
        stored_elements(parameters, world, n) * world <= total(parameters, n) + n * (world - 1),
    decreases n,
{
    if n > 0 {
        stored_elements_are_a_share(parameters, world, n - 1);
        let spec = parameters[n - 1];
        divided_parameters_are_sound(spec);
        elements_are_the_product_of_the_sides(spec.shape);
        let count = volume(spec.shape);
        let chunk = chunk_of(count, world);
        vstd::arithmetic::div_mod::lemma_fundamental_div_mod(count + world - 1, world);
        vstd::arithmetic::div_mod::lemma_mod_bound(count + world - 1, world);
        let before = stored_elements(parameters, world, n - 1);
        assert((before + chunk) * world == before * world + world * chunk) by (nonlinear_arith);
        assert(n * (world - 1) == (n - 1) * (world - 1) + (world - 1)) by (nonlinear_arith);
    }
}

/// The elements of the first `n` parameters together.
pub open spec fn total(parameters: Seq<SpecView>, n: int) -> int
    decreases n,
{
    if n <= 0 {
        0
    } else {
        total(parameters, n - 1) + volume(parameters[n - 1].shape)
    }
}

/// A loss can be trained on exactly if it is one floating-point number on the processor that gradients
/// flow from.
pub proof fn losses_are_tracked_scalars(loss: Loss)
    ensures
        is_scalar(loss) <==> loss.defined && loss.device is Cpu && loss.elements == 1 && loss.requires_grad && (loss.kind is Float
            || loss.kind is Double),
{
}

/// A name is one of the first `n` and its tensor takes gradients, or takes none.
pub open spec fn is_chosen(names: Seq<Seq<char>>, items: Seq<Registered>, trained: bool, n: int, name: Seq<char>) -> bool {
    exists|i: int| #![trigger items[i]] 0 <= i < n && items[i].requires_grad == trained && names[i] == name
}

/// The names that are selected are those whose tensors take gradients, or those whose tensors take
/// none, in the order in which they are listed.
pub proof fn selection_goes_by_gradients(names: Seq<Seq<char>>, items: Seq<Registered>, trained: bool, n: int)
    requires
        0 <= n <= names.len(),
        names.len() == items.len(),
    ensures
        selected(names, items, true, n).len() + selected(names, items, false, n).len() == n,
        forall|i: int|
            0 <= i < n ==> selected(names, items, (#[trigger] items[i]).requires_grad, n).contains(names[i]),
        forall|k: int|
            0 <= k < selected(names, items, trained, n).len() ==> is_chosen(
                names,
                items,
                trained,
                n,
                #[trigger] selected(names, items, trained, n)[k],
            ),
    decreases n,
{
    if n > 0 {
        selection_goes_by_gradients(names, items, trained, n - 1);
        assert forall|i: int| 0 <= i < n implies selected(names, items, (#[trigger] items[i]).requires_grad, n).contains(names[i]) by {
            let flag = items[i].requires_grad;
            let before = selected(names, items, flag, n - 1);
            let after = selected(names, items, flag, n);
            if i == n - 1 {
                assert(after[before.len() as int] == names[i]);
            } else {
                let k = choose|k: int| 0 <= k < before.len() && before[k] == names[i];
                assert(after[k] == names[i]);
            }
        }
        let before = selected(names, items, trained, n - 1);
        let after = selected(names, items, trained, n);
        assert forall|k: int| 0 <= k < after.len() implies is_chosen(names, items, trained, n, #[trigger] after[k]) by {
            if k < before.len() {
                assert(is_chosen(names, items, trained, n - 1, before[k]));
                let i = choose|i: int|
                    #![trigger items[i]]
                    0 <= i < n - 1 && items[i].requires_grad == trained && names[i] == before[k];
                assert(items[i].requires_grad == trained && names[i] == after[k]);
            } else {
                assert(items[n - 1].requires_grad == trained && names[n - 1] == after[k]);
            }
        }
    }
}

/// A replicated tensor is unchanged exactly if it is still there, on the processor, the same tensor,
/// and has the shape, element type and training flag it was registered with.
pub proof fn replicas_stay_as_registered(
    name: Seq<char>,
    specifications: Map<Seq<char>, RegisteredView>,
    current: Map<Seq<char>, CurrentView>,
)
    ensures
        change_refusal(name, specifications, current) is None <==> {
            let now = current[name];
            &&& current.dom().contains(name)
            &&& now.on_cpu && now.identical
            &&& now.registered.shape == specifications[name].shape
            &&& now.registered.kind == specifications[name].kind
            &&& now.registered.requires_grad == specifications[name].requires_grad
        },
{
}

/// A shard that is cut out of a whole checkpoint is that of its rank: it lists the same parameters, and
/// byte `i` of each part is byte `rank * size + i` of the whole, or zero past its end.
pub proof fn cut_out_shards_hold_their_part(full: ConsolidatedView, rank: usize, world: usize, name: Seq<char>, i: int)
    requires
        world > 0,
        full.weights.dom().contains(name),
        full.weights[name].refusal(usize::MAX) is None,
        0 <= i < chunk_of(volume(full.weights[name].shape), world as int) * full.weights[name].dtype.size(),
    ensures
        ({
            let shard = cut_out(full, rank, world);
            let all = full.weights[name];
            let part = shard.weights[name];
            let size = chunk_of(volume(all.shape), world as int) * all.dtype.size();
            &&& shard.rank == rank && shard.world_size == world && shard.parameters == full.parameters
            &&& shard.weights.dom() == full.weights.dom()
            &&& part.dtype == all.dtype
            &&& part.bytes.len() == size
            &&& rank * size + i < all.bytes.len() ==> part.bytes[i] == all.bytes[rank * size + i]
            &&& rank * size + i >= all.bytes.len() ==> part.bytes[i] == 0
        }),
{
    let all = full.weights[name];
    elements_are_the_product_of_the_sides(all.shape);
    assert(cut_out(full, rank, world).weights.dom() =~= full.weights.dom());
}

/// A whole parameter that is put together out of shards has the shape and element type that is listed
/// for it, and byte `rank * size + i` of it is byte `i` of the part that the shard of that rank holds.
pub proof fn whole_parameters_join_the_parts(shards: Seq<ShardView>, world: int, spec: SpecView, at: int, i: int)
    requires
        0 <= at < shards.len(),
        shards[at].rank < world,
        forall|j: int, k: int| 0 <= j < k < shards.len() ==> (#[trigger] shards[j]).rank != (#[trigger] shards[k]).rank,
        0 <= i < part_length(spec, world),
        shards[at].rank * part_length(spec, world) + i < whole_length(spec),
    ensures
        ({
            let all = whole(shards, world, spec);
            let size = part_length(spec, world);
            &&& all.shape == spec.shape && all.dtype == spec.dtype
            &&& all.bytes.len() == whole_length(spec)
            &&& all.bytes[shards[at].rank * size + i] == shards[at].weights[spec.name].bytes[i]
        }),
{
    let rank = shards[at].rank as int;
    assert(holder(shards, rank) == at) by {
        assert(shards[at].rank == rank);
        let found = holder(shards, rank);
        assert(shards[found].rank == rank);
    }
    let size = part_length(spec, world);
    joined_parts_stand_in_order(super::record::parts_of(shards, world, spec.name), size, whole_length(spec), rank, i);
    assert(0 <= rank * size) by (nonlinear_arith)
        requires
            0 <= rank,
            0 < size,
    ;
}

/// Of each listed parameter the whole weights hold the joined one.
pub proof fn whole_weights_hold_every_parameter(shards: Seq<ShardView>, world: int, parameters: Seq<SpecView>, n: int, i: int)
    requires
        0 <= i < n <= parameters.len(),
        forall|j: int, k: int| 0 <= j < k < parameters.len() ==> (#[trigger] parameters[j]).name != (#[trigger] parameters[k]).name,
    ensures
        whole_weights(shards, world, parameters, n).dom().contains(parameters[i].name),
        whole_weights(shards, world, parameters, n)[parameters[i].name] == whole(shards, world, parameters[i]),
    decreases n,
{
    if i < n - 1 {
        whole_weights_hold_every_parameter(shards, world, parameters, n - 1, i);
    }
}

/// Shards belong together exactly if there are as many as the world has ranks, each is sound, all name
/// the same checkpoint, world and parameters, no rank occurs twice, and no parameter is too long to be
/// held.
pub proof fn shards_of_one_checkpoint_belong_together(shards: Seq<ShardView>, kept: Seq<Map<Seq<char>, TensorSpecView>>)
    requires
        shards.len() > 0,
    ensures
        set_refusal(shards, kept) is None <==> {
            &&& shards.len() <= 1024
            &&& forall|i: int|
                0 <= i < shards.len() ==> {
                    &&& (#[trigger] shards[i]).refusal(kept[i]) is None
                    &&& shards[i].world_size == shards.len()
                    &&& shards[i].checkpoint_id == shards[0].checkpoint_id
                    &&& shards[i].parameters == shards[0].parameters
                }
            &&& forall|i: int, j: int| 0 <= j < i < shards.len() ==> (#[trigger] shards[j]).rank != (#[trigger] shards[i]).rank
            &&& forall|p: int| 0 <= p < shards[0].parameters.len() ==> whole_length(#[trigger] shards[0].parameters[p]) <= usize::MAX
        },
{
    let checks = shard_checks(shards, kept);
    let lengths = super::record::length_checks(shards[0].parameters);
    let n = shards.len() as int;
    let m = shards[0].parameters.len() as int;
    first_at_none(0, n, checks);
    first_at_none(0, m, lengths);
    if set_refusal(shards, kept) is None {
        assert forall|i: int| 0 <= i < n implies (#[trigger] shards[i]).refusal(kept[i]) is None && !is_foreign(shards, i) by {
            assert(checks(i) is None);
        }
        assert forall|i: int, j: int| 0 <= j < i < n implies (#[trigger] shards[j]).rank != (#[trigger] shards[i]).rank by {
            assert(!is_foreign(shards, i));
        }
        assert forall|p: int| 0 <= p < m implies whole_length(#[trigger] shards[0].parameters[p]) <= usize::MAX by {
            assert(lengths(p) is None);
        }
    }
    if shards.len() <= 1024 && (forall|i: int|
        0 <= i < shards.len() ==> {
            &&& (#[trigger] shards[i]).refusal(kept[i]) is None
            &&& shards[i].world_size == shards.len()
            &&& shards[i].checkpoint_id == shards[0].checkpoint_id
            &&& shards[i].parameters == shards[0].parameters
        }) && (forall|i: int, j: int|
        0 <= j < i < shards.len() ==> (#[trigger] shards[j]).rank != (#[trigger] shards[i]).rank) && (forall|p: int|
        0 <= p < shards[0].parameters.len() ==> whole_length(#[trigger] shards[0].parameters[p]) <= usize::MAX) {
        assert forall|i: int| 0 <= i < n implies (#[trigger] checks(i)) is None by {
            assert(shards[i].refusal(kept[i]) is None);
            assert(shards[0].world_size == shards.len());
        }
        assert forall|p: int| 0 <= p < m implies (#[trigger] lengths(p)) is None by {
            assert(whole_length(shards[0].parameters[p]) <= usize::MAX);
        }
        assert(shards[0].world_size == shards.len());
    }
}

/// A part is accepted exactly if it is there, is sound, agrees with what the optimizer keeps for it,
/// and is a row of one chunk in the element type of its parameter.
pub proof fn parts_agree_with_their_parameters(
    spec: SpecView,
    world: int,
    weights: Map<Seq<char>, PayloadView>,
    kept: Map<Seq<char>, TensorSpecView>,
)
    ensures
        part_refusal(spec, world, weights, kept) is None <==> {
            let part = weights[spec.name];
            &&& weights.dom().contains(spec.name) && kept.dom().contains(spec.name)
            &&& part.refusal(1073741824) is None
            &&& kept[spec.name].shape == part.shape && kept[spec.name].kind == part.dtype.as_kind()
            &&& part.dtype == spec.dtype
            &&& part.shape == seq![chunk_of(elements_of(spec.shape)->Ok_0, world) as i64]
        },
{
}

/// A shard is accepted exactly if its schema is the first, its identity is sound, and it holds one
/// accepted part for each of its parameters and no other.
pub proof fn accepted_shards_hold_their_parts(s: ShardView, kept: Map<Seq<char>, TensorSpecView>)
    ensures
        s.refusal(kept) is None <==> {
            &&& s.schema_version == 1
            &&& 0 < s.checkpoint_id.len() && vstd::utf8::encode_utf8(s.checkpoint_id).len() <= 300
            &&& 0 < s.world_size && s.world_size <= 1024 && s.rank < s.world_size
            &&& specs_refusal(s.parameters) is None
            &&& s.weights.dom().len() == s.parameters.len() && kept.dom().len() == s.parameters.len()
            &&& forall|i: int|
                0 <= i < s.parameters.len() ==> part_refusal(#[trigger] s.parameters[i], s.world_size as int, s.weights, kept) is None
        },
{
    let checks = part_checks(s.parameters, s.world_size as int, s.weights, kept);
    first_at_none(0, s.parameters.len() as int, checks);
    if forall|i: int|
        0 <= i < s.parameters.len() ==> part_refusal(#[trigger] s.parameters[i], s.world_size as int, s.weights, kept) is None {
        assert forall|i: int| 0 <= i < s.parameters.len() implies (#[trigger] checks(i)) is None by {
            assert(part_refusal(s.parameters[i], s.world_size as int, s.weights, kept) is None);
        }
    }
    if forall|i: int| 0 <= i < s.parameters.len() ==> (#[trigger] checks(i)) is None {
        assert forall|i: int| 0 <= i < s.parameters.len() implies part_refusal(
            #[trigger] s.parameters[i],
            s.world_size as int,
            s.weights,
            kept,
        ) is None by {
            assert(checks(i) is None);
        }
    }
}

/// A whole checkpoint is accepted exactly if its schema is the first and it holds, of each of its
/// parameters and of nothing else, a sound tensor with its shape and element type.
pub proof fn accepted_wholes_hold_their_parameters(full: ConsolidatedView)
    ensures
        full.refusal() is None <==> {
            &&& full.schema_version == 1
            &&& specs_refusal(full.parameters) is None
            &&& full.weights.dom().len() == full.parameters.len()
            &&& forall|i: int|
                0 <= i < full.parameters.len() ==> {
                    let spec = #[trigger] full.parameters[i];
                    &&& full.weights.dom().contains(spec.name)
                    &&& full.weights[spec.name].refusal(1073741824) is None
                    &&& full.weights[spec.name].shape == spec.shape
                    &&& full.weights[spec.name].dtype == spec.dtype
                }
        },
{
    let checks = value_checks(full.parameters, full.weights);
    first_at_none(0, full.parameters.len() as int, checks);
    assert forall|i: int| 0 <= i < full.parameters.len() implies ((#[trigger] checks(i)) is None <==> {
        let spec = full.parameters[i];
        &&& full.weights.dom().contains(spec.name)
        &&& full.weights[spec.name].refusal(1073741824) is None
        &&& full.weights[spec.name].shape == spec.shape
        &&& full.weights[spec.name].dtype == spec.dtype
    }) by {
        assert(checks(i) == value_refusal(full.parameters[i], full.weights));
    }
    if forall|i: int| 0 <= i < full.parameters.len() ==> (#[trigger] checks(i)) is None {
        assert forall|i: int| 0 <= i < full.parameters.len() implies ({
            let spec = #[trigger] full.parameters[i];
            &&& full.weights.dom().contains(spec.name)
            &&& full.weights[spec.name].refusal(1073741824) is None
            &&& full.weights[spec.name].shape == spec.shape
            &&& full.weights[spec.name].dtype == spec.dtype
        }) by {
            assert(checks(i) is None);
        }
    }
}

} // verus!
