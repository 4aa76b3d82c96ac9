//! What a checkpoint holds, and which values it can be restored to.
use super::archive::{member_of, Member, MembersView};
use super::restore::{
    conflict, first_target_fault, has_conflict, is_pairing, previous_twin, restore_fault, target_fault, Target,
};
use super::save::{dtype_of, WritingView};
use super::weights::{
    elements, first_fault, kind_of, list_fault, stored_fault, weight_of, weights_of, StoredView, WeightView,
};
use super::CheckpointLimits;
use crate::archive::EntryView;
use crate::kind::Kind;
use vstd::prelude::*;
use vstd::utf8::encode_utf8;

verus! {

/// The names that element types are written under.
pub proof fn element_types_are_written_by_name()
    ensures
        dtype_of(Kind::Bool) == Some("BOOL"@),
        dtype_of(Kind::Uint8) == Some("U8"@),
        dtype_of(Kind::Int8) == Some("I8"@),
        dtype_of(Kind::Int16) == Some("I16"@),
        dtype_of(Kind::Int) == Some("I32"@),
        dtype_of(Kind::Int64) == Some("I64"@),
        dtype_of(Kind::Half) == Some("F16"@),
        dtype_of(Kind::BFloat16) == Some("BF16"@),
        dtype_of(Kind::Float) == Some("F32"@),
        dtype_of(Kind::Double) == Some("F64"@),
        dtype_of(Kind::ComplexHalf) is None && dtype_of(Kind::ComplexFloat) is None && dtype_of(Kind::ComplexDouble) is None,
        dtype_of(Kind::QInt8) is None && dtype_of(Kind::QUInt8) is None && dtype_of(Kind::QInt32) is None,
{
}

/// A name is read as the element type that it names, and every other text as none.
pub proof fn element_types_are_read_by_name(dtype: Seq<char>)
    ensures
        kind_of("BOOL"@) == Some(Kind::Bool) && kind_of("U8"@) == Some(Kind::Uint8) && kind_of("I8"@) == Some(Kind::Int8),
        kind_of("I16"@) == Some(Kind::Int16) && kind_of("I32"@) == Some(Kind::Int) && kind_of("I64"@) == Some(Kind::Int64),
        kind_of("F16"@) == Some(Kind::Half) && kind_of("BF16"@) == Some(Kind::BFloat16),
        kind_of("F32"@) == Some(Kind::Float) && kind_of("F64"@) == Some(Kind::Double),
        kind_of(dtype) is Some ==> dtype == "BOOL"@ || dtype == "U8"@ || dtype == "I8"@ || dtype == "I16"@ || dtype == "I32"@ || dtype
            == "I64"@ || dtype == "F16"@ || dtype == "BF16"@ || dtype == "F32"@ || dtype == "F64"@,
{
    super::save::kinds_survive(Kind::Bool);
    super::save::kinds_survive(Kind::Uint8);
    super::save::kinds_survive(Kind::Int8);
    super::save::kinds_survive(Kind::Int16);
    super::save::kinds_survive(Kind::Int);
    super::save::kinds_survive(Kind::Int64);
    super::save::kinds_survive(Kind::Half);
    super::save::kinds_survive(Kind::BFloat16);
    super::save::kinds_survive(Kind::Float);
    super::save::kinds_survive(Kind::Double);
}

/// The number of places in a box with sides `shape`.
pub open spec fn places(shape: Seq<usize>) -> int
    decreases shape.len(),
{
    if shape.len() == 0 {
        1
    } else {
        shape[0] * places(shape.skip(1))
    }
}

proof fn places_grow(shape: Seq<usize>, n: int)
    requires
        0 <= n < shape.len(),
    ensures
        places(shape.take(n + 1)) == places(shape.take(n)) * shape[n],
    decreases n,
{
    let longer = shape.take(n + 1);
    let shorter = shape.take(n);
    if n == 0 {
        assert(longer.skip(1) =~= Seq::<usize>::empty());
        assert(shorter =~= Seq::<usize>::empty());
        assert(places(Seq::<usize>::empty()) == 1);
        assert(longer[0] == shape[0]);
    } else {
        assert(longer.skip(1) =~= shape.skip(1).take(n));
        assert(shorter.skip(1) =~= shape.skip(1).take(n - 1));
        places_grow(shape.skip(1), n - 1);
        let rest = places(shape.skip(1).take(n - 1));
        let first = shape[0] as int;
        let last = shape[n] as int;
        assert(first * (rest * last) == (first * rest) * last) by (nonlinear_arith);
    }
}

proof fn elements_are_places(shape: Seq<usize>, n: int)
    requires
        0 <= n <= shape.len(),
    ensures
        elements(shape, n) matches Some(count) ==> count == places(shape.take(n)),
    decreases n,
{
    if n == 0 {
        assert(shape.take(0) =~= Seq::<usize>::empty());
    } else {
        elements_are_places(shape, n - 1);
        places_grow(shape, n - 1);
    }
}

/// A stored tensor is accepted exactly if its name has from one to 4096 bytes, it has at most 64 sides
/// that can be counted, its element type is known, it holds as many bytes as its elements take, and truth
/// values are zero or one.
pub proof fn stored_tensors_are_sound(tensor: StoredView)
    ensures
        stored_fault(tensor) is None <==> {
            &&& tensor.name.len() > 0 && encode_utf8(tensor.name).len() <= 4096
            &&& tensor.shape.len() <= 64
            &&& forall|i: int| 0 <= i < tensor.shape.len() ==> (#[trigger] tensor.shape[i]) <= i64::MAX
            &&& kind_of(tensor.dtype) is Some
            &&& elements(tensor.shape, tensor.shape.len() as int) is Some
            &&& places(tensor.shape) * kind_of(tensor.dtype)->0.width() == tensor.bytes.len()
            &&& kind_of(tensor.dtype)->0 is Bool ==> forall|i: int|
                0 <= i < tensor.bytes.len() ==> (#[trigger] tensor.bytes[i]) == 0 || tensor.bytes[i] == 1
        },
{
    elements_are_places(tensor.shape, tensor.shape.len() as int);
    assert(tensor.shape.take(tensor.shape.len() as int) =~= tensor.shape);
}

/// A list of stored tensors is accepted exactly if it is not longer than allowed and each of them is
/// accepted; of each the weights then hold the element type, the sides and the bytes.
pub proof fn stored_lists_give_the_weights(list: Seq<StoredView>, limits: CheckpointLimits, i: int)
    requires
        0 <= i < list.len(),
        forall|j: int, k: int| 0 <= j < k < list.len() ==> (#[trigger] list[j]).name != (#[trigger] list[k]).name,
    ensures
        list_fault(list, limits) is None <==> list.len() <= limits.tensors && forall|j: int|
            0 <= j < list.len() ==> stored_fault(#[trigger] list[j]) is None,
        ({
            let weights = weights_of(list, list.len() as int);
            let weight = weights[list[i].name];
            &&& weights.dom().contains(list[i].name)
            &&& Some(weight.kind) == kind_of(list[i].dtype) || kind_of(list[i].dtype) is None
            &&& weight.bytes == list[i].bytes
            &&& weight.shape.len() == list[i].shape.len()
            &&& forall|d: int| 0 <= d < list[i].shape.len() && list[i].shape[d] <= i64::MAX ==> (#[trigger] weight.shape[d]) == list[i].shape[d]
        }),
{
    faults_are_found(list, 0);
    weights_are_kept(list, list.len() as int, i);
}

proof fn faults_are_found(list: Seq<StoredView>, from: int)
    requires
        0 <= from <= list.len(),
    ensures
        first_fault(list, from) is None <==> forall|j: int| from <= j < list.len() ==> stored_fault(#[trigger] list[j]) is None,
    decreases list.len() - from,
{
    if from < list.len() {
        faults_are_found(list, from + 1);
    }
}

proof fn weights_are_kept(list: Seq<StoredView>, n: int, i: int)
    requires
        0 <= i < n <= list.len(),
        forall|j: int, k: int| 0 <= j < k < list.len() ==> (#[trigger] list[j]).name != (#[trigger] list[k]).name,
    ensures
        weights_of(list, n).dom().contains(list[i].name),
        weights_of(list, n)[list[i].name] == weight_of(list[i]),
    decreases n,
{
    if i < n - 1 {
        weights_are_kept(list, n - 1, i);
    }
}

/// A tensor is announced exactly if its name and its number of sides are accepted and its bytes, added to
/// those before it, stay within the limit; the writer then counts them.
pub proof fn announced_tensors_are_counted(
    w: WritingView,
    limits: CheckpointLimits,
    name: Seq<char>,
    rank: usize,
    count: usize,
    kind: Kind,
)
    requires
        w.size >= 0,
    ensures
        w.announce(limits, name, rank, count, kind) is Ok <==> {
            &&& name.len() > 0 && encode_utf8(name).len() <= 4096 && rank <= 64
            &&& w.size + count * kind.width() <= limits.weight_bytes
        },
        w.announce(limits, name, rank, count, kind) matches Ok(after) ==> after.size - w.size == count * kind.width() && after.tensors
            == w.tensors,
{
}

/// A tensor that is added is there afterwards under its name, with its shape and bytes and the name of
/// its element type, and no other tensor changes.
pub proof fn added_tensors_are_kept(w: WritingView, name: Seq<char>, other: Seq<char>, kind: Kind, shape: Seq<usize>, bytes: Seq<u8>)
    requires
        other != name,
    ensures
        w.add_tensor(name, kind, shape, bytes) is Ok <==> dtype_of(kind) is Some && (kind is Bool ==> forall|i: int|
            0 <= i < bytes.len() ==> (#[trigger] bytes[i]) == 0 || bytes[i] == 1),
        w.add_tensor(name, kind, shape, bytes) matches Ok(after) ==> {
            &&& after.size == w.size
            &&& after.tensors.dom().contains(name)
            &&& after.tensors[name].name == name && after.tensors[name].shape == shape && after.tensors[name].bytes == bytes
            &&& Some(after.tensors[name].dtype) == dtype_of(kind)
            &&& after.tensors.dom().contains(other) <==> w.tensors.dom().contains(other)
            &&& after.tensors[other] == w.tensors[other]
        },
{
    let bad = exists|i: int| 0 <= i < bytes.len() && #[trigger] bytes[i] > 1;
    if forall|i: int| 0 <= i < bytes.len() ==> (#[trigger] bytes[i]) == 0 || bytes[i] == 1 {
        assert(!bad);
    }
    if !bad {
        assert forall|i: int| 0 <= i < bytes.len() implies (#[trigger] bytes[i]) == 0 || bytes[i] == 1 by {
            assert(!(bytes[i] > 1));
        }
    }
}

/// The files of a checkpoint, by name.
pub proof fn members_are_told_by_name(name: Seq<char>)
    ensures
        member_of("model.safetensors"@) == Some(Member::Weights),
        member_of("optimizer.json"@) == Some(Member::Optimizer),
        member_of("metadata.json"@) == Some(Member::Metadata),
        member_of(name) is Some ==> name == "model.safetensors"@ || name == "optimizer.json"@ || name == "metadata.json"@,
{
    reveal_strlit("model.safetensors");
    reveal_strlit("optimizer.json");
    reveal_strlit("metadata.json");
    assert("model.safetensors"@.len() == 17);
    assert("optimizer.json"@.len() == 14);
    assert("metadata.json"@.len() == 13);
}

/// A file of the archive is taken exactly if it is an ordinary file with one of the three names that was
/// not taken before, within the limit of its kind and with the files before it within that of the
/// archive.
pub proof fn members_are_taken_once(m: MembersView, limits: CheckpointLimits, entry: EntryView)
    ensures
        m.member(limits, entry) is Ok <==> {
            &&& member_of(entry.name) is Some
            &&& !entry.directory && !super::archive::is_special(entry.mode)
            &&& member_of(entry.name)->0 is Weights ==> m.weights is None && entry.size <= limits.weight_bytes
            &&& member_of(entry.name)->0 is Optimizer ==> m.optimizer is None && entry.size <= limits.json_bytes
            &&& member_of(entry.name)->0 is Metadata ==> m.metadata is None && entry.size <= limits.json_bytes
            &&& m.total + entry.size <= limits.archive_bytes
        },
        m.member(limits, entry) matches Ok(after) ==> after.total == m.total + entry.size && after.weights == m.weights
            && after.optimizer == m.optimizer && after.metadata == m.metadata && after.current == Some(
            (member_of(entry.name)->0, entry.size),
        ),
{
}

/// A file is special exactly if the four bits of its mode that tell its type are set, and do not tell an
/// ordinary file.
pub proof fn special_files_are_told_by_their_mode(mode: u32)
    ensures
        !super::archive::is_special(None),
        super::archive::is_special(Some(mode)) <==> (mode / 4096) % 16 != 0 && (mode / 4096) % 16 != 8,
{
    assert((mode & 0o170000u32) == ((mode / 4096) % 16) * 4096) by (bit_vector);
}

/// The content of a file is kept for the file it was read for, if it is as long as was listed.
pub proof fn contents_are_kept_for_their_member(m: MembersView, limits: CheckpointLimits, size: u64, data: Seq<u8>)
    requires
        size <= limits.weight_bytes && size <= limits.json_bytes,
    ensures
        ({
            let after = (MembersView { current: Some((Member::Weights, size)), ..m }).content(limits, data);
            &&& after is Ok <==> data.len() == size
            &&& after is Ok ==> after->Ok_0.weights == Some(data) && after->Ok_0.optimizer == m.optimizer && after->Ok_0.metadata == m.metadata
        }),
        ({
            let after = (MembersView { current: Some((Member::Optimizer, size)), ..m }).content(limits, data);
            &&& after is Ok <==> data.len() == size
            &&& after is Ok ==> after->Ok_0.optimizer == Some(data) && after->Ok_0.weights == m.weights && after->Ok_0.metadata == m.metadata
        }),
        ({
            let after = (MembersView { current: Some((Member::Metadata, size)), ..m }).content(limits, data);
            &&& after is Ok <==> data.len() == size
            &&& after is Ok ==> after->Ok_0.metadata == Some(data) && after->Ok_0.weights == m.weights && after->Ok_0.optimizer == m.optimizer
        }),
{
}

/// A place in a model can take a saved value exactly if it has its shape and element type, is contiguous
/// and can be addressed.
pub proof fn targets_take_values_of_their_shape(name: Seq<char>, target: Target, saved: WeightView)
    ensures
        target_fault(name, target, saved) is None <==> {
            let bytes = target.count * target.kind.width();
            &&& target.shape@ == saved.shape && target.kind == saved.kind && target.contiguous
            &&& bytes <= usize::MAX
            &&& bytes != 0 ==> target.start + bytes <= usize::MAX
        },
{
}

/// Two places overlap exactly if they lie on one device and some address belongs to both.
pub proof fn overlapping_targets_share_an_address(a: Target, b: Target)
    requires
        a.count * a.kind.width() >= 0,
        b.count * b.kind.width() >= 0,
    ensures
        a.overlaps(b) <==> a.device == b.device && exists|address: int|
            #![trigger is_within(a, address)]
            is_within(a, address) && is_within(b, address),
        a.coincides(b) <==> a.device == b.device && a.count * a.kind.width() > 0 && forall|address: int|
            #![trigger is_within(a, address)]
            is_within(a, address) <==> is_within(b, address),
{
    if a.overlaps(b) {
        let address = if a.start >= b.start {
            a.start as int
        } else {
            b.start as int
        };
        assert(is_within(a, address) && is_within(b, address));
    }
    if a.device == b.device && a.count * a.kind.width() > 0 && (forall|address: int|
        #![trigger is_within(a, address)]
        is_within(a, address) <==> is_within(b, address)) {
        assert(is_within(a, a.start as int));
        assert(is_within(a, a.end() - 1));
        assert(is_within(a, a.start - 1) <==> is_within(b, a.start - 1));
        assert(is_within(a, a.end()) <==> is_within(b, a.end()));
    }
}

/// An address belongs to a place.
pub open spec fn is_within(target: Target, address: int) -> bool {
    target.start <= address && address < target.start + target.count * target.kind.width()
}

/// A checkpoint can be restored exactly if the model has its names and no others, the optimizer belongs
/// to the model, each place can take its value, and places that overlap are one place with one shape and
/// element type.
pub proof fn checkpoints_are_restored_to_matching_models(
    names: Seq<Seq<char>>,
    targets: Seq<Target>,
    saved: Map<Seq<char>, WeightView>,
    same_store: bool,
)
    requires
        names.len() == targets.len(),
    ensures
        restore_fault(names, targets, saved, same_store) is None <==> {
            &&& forall|name: Seq<char>| names.contains(name) <==> #[trigger] saved.dom().contains(name)
            &&& same_store
            &&& forall|i: int| 0 <= i < targets.len() ==> target_fault(names[i], #[trigger] targets[i], saved[names[i]]) is None
            &&& forall|i: int, j: int|
                #![trigger targets[i], targets[j]]
                0 <= i < j < targets.len() && targets[i].overlaps(targets[j]) ==> targets[i].coincides(targets[j]) && targets[i].kind
                    == targets[j].kind && targets[i].shape@ == targets[j].shape@
        },
{
    target_faults_are_found(names, targets, saved, 0);
    if forall|name: Seq<char>| names.contains(name) <==> #[trigger] saved.dom().contains(name) {
        assert(names.to_set() =~= saved.dom());
    }
    if names.to_set() == saved.dom() {
        assert forall|name: Seq<char>| names.contains(name) <==> #[trigger] saved.dom().contains(name) by {
            assert(names.to_set().contains(name) <==> names.contains(name));
        }
    }
    if !has_conflict(targets) {
        assert forall|i: int, j: int|
            #![trigger targets[i], targets[j]]
            0 <= i < j < targets.len() && targets[i].overlaps(targets[j]) implies targets[i].coincides(targets[j]) && targets[i].kind
            == targets[j].kind && targets[i].shape@ == targets[j].shape@ by {
            assert(!conflict(targets, i, j));
        }
    }
}

proof fn target_faults_are_found(names: Seq<Seq<char>>, targets: Seq<Target>, saved: Map<Seq<char>, WeightView>, from: int)
    requires
        0 <= from <= targets.len(),
        names.len() == targets.len(),
    ensures
        first_target_fault(names, targets, saved, from) is None <==> forall|i: int|
            from <= i < targets.len() ==> target_fault(names[i], #[trigger] targets[i], saved[names[i]]) is None,
    decreases targets.len() - from,
{
    if from < targets.len() {
        target_faults_are_found(names, targets, saved, from + 1);
    }
}

/// Each place that is named again is compared with the last place before it that is the same one.
pub proof fn twins_are_compared(targets: Seq<Target>, n: int, pairs: Seq<(usize, usize)>, i: int, j: int)
    requires
        is_pairing(targets, n, pairs),
        0 <= j < i < n <= targets.len(),
        targets[j].coincides(targets[i]),
        forall|k: int| j < k < i ==> !(#[trigger] targets[k]).coincides(targets[i]),
        targets.len() <= usize::MAX,
    ensures
        pairs.contains((j as usize, i as usize)),
{
    assert(previous_twin(targets, i, j));
    let (a, b) = (targets[i], targets[j]);
    let p = choose|p: int| 0 <= p < pairs.len() && (#[trigger] pairs[p]).0 == j && pairs[p].1 == i;
    assert(pairs[p] == (j as usize, i as usize));
}

} // verus!
