//! Restoring the weights of a checkpoint into a model.
use super::weights::{WeightView, Weights};
use super::{fault, invalid, invalid_fault, CheckpointError, CheckpointResult, Fault};
use crate::kind::{Device, Kind};
use crate::names::NameMap;
use crate::tensor::same_shape;
use crate::text::join;
use vstd::prelude::*;

verus! {

/// A tensor of the model that is to be overwritten.
#[derive(Debug)]
pub struct Target {
    /// The element type.
    pub kind: Kind,
    /// The size of each axis.
    pub shape: Vec<i64>,
    /// Whether the elements lie in row-major order without gaps.
    pub contiguous: bool,
    /// The number of elements.
    pub count: usize,
    /// Where the elements start.
    pub start: usize,
    /// The device that holds them.
    pub device: Device,
}

impl Target {
    /// The number of bytes.
    pub open spec fn bytes(self) -> int {
        self.count * self.kind.width()
    }

    /// Where the elements end.
    pub open spec fn end(self) -> int {
        self.start + self.bytes()
    }

    /// Two targets share bytes.
    pub open spec fn overlaps(self, other: Target) -> bool {
        &&& self.device == other.device
        &&& self.bytes() != 0
        &&& other.bytes() != 0
        &&& self.start < other.end()
        &&& other.start < self.end()
    }

    /// Two targets cover the same bytes.
    pub open spec fn coincides(self, other: Target) -> bool {
        &&& self.device == other.device
        &&& self.bytes() != 0
        &&& self.start == other.start
        &&& self.end() == other.end()
    }
}

/// Why a target is refused, if it is.
pub open spec fn target_fault(name: Seq<char>, target: Target, saved: WeightView) -> Option<Fault> {
    if target.shape@ != saved.shape || target.kind != saved.kind || !target.contiguous {
        Some(invalid_fault("model tensor metadata differs for "@ + name))
    } else if target.bytes() > usize::MAX {
        Some(invalid_fault("model byte count overflow"@))
    } else if target.bytes() != 0 && target.end() > usize::MAX {
        Some(invalid_fault("model storage range overflow"@))
    } else {
        None
    }
}

/// The targets in the order of their names, each with its saved value.
pub open spec fn first_target_fault(
    names: Seq<Seq<char>>,
    targets: Seq<Target>,
    saved: Map<Seq<char>, WeightView>,
    i: int,
) -> Option<Fault>
    decreases targets.len() - i,
{
    if i < 0 || i >= targets.len() {
        None
    } else if target_fault(names[i], targets[i], saved[names[i]]) is Some {
        target_fault(names[i], targets[i], saved[names[i]])
    } else {
        first_target_fault(names, targets, saved, i + 1)
    }
}

/// Two targets share bytes, but not all of them.
pub open spec fn conflict(targets: Seq<Target>, i: int, j: int) -> bool {
    targets[i].overlaps(targets[j]) && (!targets[i].coincides(targets[j]) || targets[i].kind != targets[j].kind
        || targets[i].shape@ != targets[j].shape@)
}

/// Some two targets conflict.
pub open spec fn has_conflict(targets: Seq<Target>) -> bool {
    exists|i: int, j: int| #![trigger targets[i], targets[j]] 0 <= i < j < targets.len() && conflict(targets, i, j)
}

/// The last target before `i` that covers the same bytes.
pub open spec fn previous_twin(targets: Seq<Target>, i: int, j: int) -> bool {
    &&& 0 <= j < i
    &&& targets[j].coincides(targets[i])
    &&& forall|k: int| j < k < i ==> !(#[trigger] targets[k]).coincides(targets[i])
}

/// The pairs of targets among the first `n` whose saved values have to be equal: each target
/// that covers the same bytes as an earlier one, with the last such.
pub open spec fn is_pairing(targets: Seq<Target>, n: int, pairs: Seq<(usize, usize)>) -> bool {
    &&& forall|p: int|
        0 <= p < pairs.len() ==> (#[trigger] pairs[p]).1 < n && previous_twin(targets, pairs[p].1 as int, pairs[p].0 as int)
    &&& forall|i: int, j: int|
        #![trigger targets[i], targets[j]]
        0 <= i < n && previous_twin(targets, i, j) ==> exists|p: int|
            0 <= p < pairs.len() && (#[trigger] pairs[p]).0 == j && pairs[p].1 == i
}

/// Why an optimizer is refused for a model store, if it is: it has to belong to that store.
pub open spec fn store_fault(same_store: bool) -> Option<Fault> {
    if same_store {
        None
    } else {
        Some(invalid_fault("optimizer belongs to a different model store"@))
    }
}

/// Why a checkpoint cannot be restored into a model, if it cannot, apart from the values of
/// tensors that share their bytes.
pub open spec fn restore_fault(
    names: Seq<Seq<char>>,
    targets: Seq<Target>,
    saved: Map<Seq<char>, WeightView>,
    same_store: bool,
) -> Option<Fault> {
    if names.to_set() != saved.dom() {
        Some(invalid_fault("model parameter/buffer names differ"@))
    } else if store_fault(same_store) is Some {
        store_fault(same_store)
    } else if first_target_fault(names, targets, saved, 0) is Some {
        first_target_fault(names, targets, saved, 0)
    } else if has_conflict(targets) {
        Some(invalid_fault("overlapping model tensors have incompatible checkpoint values"@))
    } else {
        None
    }
}

/// Checks that an optimizer belongs to the store that is saved or restored.
pub fn ensure_optimizer_store(same_store: bool) -> (r: CheckpointResult<()>)
    ensures
        fault(r) == store_fault(same_store),
{
    if same_store {
        Ok(())
    } else {
        Err(invalid("optimizer belongs to a different model store"))
    }
}

fn check_target(name: &str, target: &Target, weights: &Weights) -> (r: CheckpointResult<()>)
    requires
        weights.wf(),
        weights@.dom().contains(name@),
    ensures
        fault(r) == target_fault(name@, *target, weights@[name@]),
{
    let alike = match weights.get(name) {
        Some(saved) => same_shape(target.shape.as_slice(), saved.shape.as_slice()) && target.kind == saved.kind,
        None => false,
    };
    if !alike || !target.contiguous {
        return Err(CheckpointError::Invalid(join("model tensor metadata differs for ", name)));
    }
    let bytes: usize = match target.count.checked_mul(target.kind.bytes()) {
        Some(bytes) => bytes,
        None => {
            return Err(invalid("model byte count overflow"));
        },
    };
    if bytes != 0 && target.start.checked_add(bytes).is_none() {
        return Err(invalid("model storage range overflow"));
    }
    Ok(())
}

/// Every range of a list ends within the address space.
pub open spec fn ranges_fit(targets: Seq<Target>) -> bool {
    forall|i: int| 0 <= i < targets.len() ==> (#[trigger] targets[i]).bytes() <= usize::MAX && (targets[i].bytes() != 0
        ==> targets[i].end() <= usize::MAX)
}

fn extent(target: &Target) -> (r: (usize, usize))
    requires
        target.bytes() <= usize::MAX,
        target.bytes() != 0 ==> target.end() <= usize::MAX,
    ensures
        r.0 == target.bytes(),
        r.0 != 0 ==> r.1 == target.end(),
{
    let bytes: usize = match target.count.checked_mul(target.kind.bytes()) {
        Some(bytes) => bytes,
        None => 0,
    };
    if bytes == 0 {
        (0, 0)
    } else {
        (bytes, target.start + bytes)
    }
}

/// Two targets overlap, or cover the same bytes, or conflict.
fn compare(a: &Target, b: &Target) -> (r: (bool, bool))
    requires
        a.bytes() <= usize::MAX,
        a.bytes() != 0 ==> a.end() <= usize::MAX,
        b.bytes() <= usize::MAX,
        b.bytes() != 0 ==> b.end() <= usize::MAX,
    ensures
        r.0 == a.coincides(*b),
        r.1 == (a.overlaps(*b) && (!a.coincides(*b) || a.kind != b.kind || a.shape@ != b.shape@)),
{
    if a.device != b.device {
        return (false, false);
    }
    let (first, first_end) = extent(a);
    let (second, second_end) = extent(b);
    if first == 0 || second == 0 {
        return (false, false);
    }
    let twin = a.start == b.start && first_end == second_end;
    let overlap = a.start < second_end && b.start < first_end;
    let alike = twin && a.kind == b.kind && same_shape(a.shape.as_slice(), b.shape.as_slice());
    (twin, overlap && !alike)
}

/// Finds the pairs of targets whose saved values have to be equal, or a conflict.
fn pair_up(targets: &NameMap<Target>) -> (r: Option<Vec<(usize, usize)>>)
    requires
        targets.wf(),
        ranges_fit(targets.items()),
    ensures
        match r {
            Some(pairs) => !has_conflict(targets.items()) && is_pairing(
                targets.items(),
                targets.items().len() as int,
                pairs@,
            ),
            None => has_conflict(targets.items()),
        },
{
    let ghost list = targets.items();
    let mut pairs: Vec<(usize, usize)> = Vec::new();
    let mut i: usize = 0;
    while i < targets.len()
        invariant
            targets.wf(),
            list == targets.items(),
            ranges_fit(list),
            i <= list.len(),
            list.len() == targets.listing().len(),
            forall|a: int, b: int| #![trigger list[a], list[b]] 0 <= a < b < i ==> !conflict(list, a, b),
            is_pairing(list, i as int, pairs@),
        decreases list.len() - i,
    {
        let current = targets.item(i);
        let mut twin: Option<usize> = None;
        let mut j: usize = 0;
        while j < i
            invariant
                targets.wf(),
                list == targets.items(),
                ranges_fit(list),
                i < list.len(),
                list.len() == targets.listing().len(),
                j <= i,
                *current == list[i as int],
                forall|a: int| 0 <= a < j ==> !conflict(list, #[trigger] (a + 0), i as int),
                match twin {
                    Some(t) => t < j && list[t as int].coincides(list[i as int]) && forall|k: int|
                        t < k < j ==> !(#[trigger] list[k]).coincides(list[i as int]),
                    None => forall|k: int| 0 <= k < j ==> !(#[trigger] list[k]).coincides(list[i as int]),
                },
            decreases i - j,
        {
            assert(list[j as int] == list[j as int]);
            let (same, bad) = compare(targets.item(j), current);
            if bad {
                assert(conflict(list, j as int, i as int));
                assert(list[j as int] == list[j as int] && list[i as int] == list[i as int]);
                return None;
            }
            if same {
                twin = Some(j);
            }
            assert(!conflict(list, j + 0, i as int));
            j += 1;
        }
        let ghost before = pairs@;
        if let Some(t) = twin {
            pairs.push((t, i));
        }
        proof {
            assert forall|a: int, b: int| #![trigger list[a], list[b]] 0 <= a < b < i + 1 implies !conflict(list, a, b) by {
                if b == i {
                    assert(!conflict(list, a + 0, i as int));
                }
            }
            assert forall|p: int| 0 <= p < pairs@.len() implies (#[trigger] pairs@[p]).1 < i + 1 && previous_twin(
                list,
                pairs@[p].1 as int,
                pairs@[p].0 as int,
            ) by {
                if p < before.len() {
                    assert(pairs@[p] == before[p]);
                }
            }
            assert forall|a: int, b: int|
                #![trigger list[a], list[b]]
                0 <= a < i + 1 && previous_twin(list, a, b) implies exists|p: int|
                0 <= p < pairs@.len() && (#[trigger] pairs@[p]).0 == b && pairs@[p].1 == a by {
                if a < i {
                    let p = choose|p: int| 0 <= p < before.len() && (#[trigger] before[p]).0 == b && before[p].1 == a;
                    assert(pairs@[p] == before[p]);
                } else {
                    match twin {
                        Some(t) => {
                            assert(b == t) by {
                                if b < t {
                                    assert(list[t as int].coincides(list[a]));
                                } else if b > t {
                                    assert(list[b].coincides(list[a]));
                                }
                            }
                            assert(pairs@[before.len() as int] == (t, i));
                        },
                        None => {
                            assert(list[b].coincides(list[a]));
                        },
                    }
                }
            }
        }
        i += 1;
    }
    proof {
        assert(!has_conflict(list));
    }
    Some(pairs)
}

proof fn faults_end(names: Seq<Seq<char>>, targets: Seq<Target>, saved: Map<Seq<char>, WeightView>, i: int)
    requires
        0 <= i,
        names.len() == targets.len(),
        first_target_fault(names, targets, saved, i) is None,
    ensures
        forall|j: int| i <= j < targets.len() ==> target_fault(names[j], #[trigger] targets[j], saved[names[j]]) is None,
    decreases targets.len() - i,
{
    if i < targets.len() {
        faults_end(names, targets, saved, i + 1);
    }
}

/// Checks that a checkpoint can be restored into a model, and returns the pairs of targets
/// whose saved values have to be equal because they cover the same bytes.
pub fn plan_restore(weights: &Weights, targets: &NameMap<Target>, same_store: bool) -> (r: CheckpointResult<Vec<(usize, usize)>>)
    requires
        weights.wf(),
        targets.wf(),
    ensures
        fault(r) == restore_fault(targets.listing(), targets.items(), weights@, same_store),
        r matches Ok(pairs) ==> is_pairing(targets.items(), targets.items().len() as int, pairs@),
{
    let ghost names = targets.listing();
    let ghost list = targets.items();
    let mut i: usize = 0;
    while i < targets.len()
        invariant
            weights.wf(),
            targets.wf(),
            names == targets.listing(),
            i <= names.len(),
            forall|j: int| 0 <= j < i ==> weights@.dom().contains(#[trigger] names[j]),
        decreases names.len() - i,
    {
        if weights.get(targets.name(i).as_str()).is_none() {
            proof {
                assert(names.to_set().contains(names[i as int]));
                assert(!weights@.dom().contains(names[i as int]));
            }
            return Err(invalid("model parameter/buffer names differ"));
        }
        i += 1;
    }
    let mut k: usize = 0;
    while k < weights.len()
        invariant
            weights.wf(),
            targets.wf(),
            names == targets.listing(),
            k <= weights.listing().len(),
            forall|j: int| 0 <= j < k ==> names.contains(#[trigger] weights.listing()[j]),
        decreases weights.listing().len() - k,
    {
        if !targets.contains(weights.name(k).as_str()) {
            proof {
                weights.names_are_listed();
                let name = weights.listing()[k as int];
                assert(weights.listing().contains(name));
                assert(weights@.dom().contains(name));
                assert(!names.to_set().contains(name));
            }
            return Err(invalid("model parameter/buffer names differ"));
        }
        k += 1;
    }
    proof {
        weights.names_are_listed();
        assert forall|name: Seq<char>| names.to_set().contains(name) <==> #[trigger] weights@.dom().contains(name) by {
            if weights@.dom().contains(name) {
                assert(weights.listing().contains(name));
                let j = weights.listing().index_of(name);
                assert(weights.listing()[j] == name);
            }
            if names.to_set().contains(name) {
                let j = names.index_of(name);
                assert(names[j] == name);
            }
        }
        assert(names.to_set() =~= weights@.dom());
    }
    if let Err(e) = ensure_optimizer_store(same_store) {
        return Err(e);
    }
    let mut t: usize = 0;
    while t < targets.len()
        invariant
            weights.wf(),
            targets.wf(),
            names == targets.listing(),
            list == targets.items(),
            names.to_set() == weights@.dom(),
            same_store,
            t <= names.len(),
            names.len() == list.len(),
            first_target_fault(names, list, weights@, 0) == first_target_fault(names, list, weights@, t as int),
        decreases names.len() - t,
    {
        proof {
            assert(names.contains(names[t as int]));
            assert(names.to_set().contains(names[t as int]));
        }
        if let Err(e) = check_target(targets.name(t).as_str(), targets.item(t), weights) {
            return Err(e);
        }
        t += 1;
    }
    proof {
        faults_end(names, list, weights@, 0);
        assert forall|j: int| 0 <= j < list.len() implies (#[trigger] list[j]).bytes() <= usize::MAX && (list[j].bytes() != 0
            ==> list[j].end() <= usize::MAX) by {
            assert(target_fault(names[j], list[j], weights@[names[j]]) is None);
        }
    }
    match pair_up(targets) {
        Some(pairs) => Ok(pairs),
        None => Err(invalid("overlapping model tensors have incompatible checkpoint values")),
    }
}

/// Checks the outcome of comparing the saved values of a pair.
pub fn check_pair(equal: bool) -> (r: CheckpointResult<()>)
    ensures
        fault(r) == (if equal {
            None
        } else {
            Some(invalid_fault("overlapping model tensors have incompatible checkpoint values"@))
        }),
{
    if equal {
        Ok(())
    } else {
        Err(invalid("overlapping model tensors have incompatible checkpoint values"))
    }
}

/// Once a checkpoint can be restored, any two targets either share no byte or cover the same
/// bytes with the same element type and shape.
pub proof fn restored_targets_are_apart_or_alike(
    names: Seq<Seq<char>>,
    targets: Seq<Target>,
    saved: Map<Seq<char>, WeightView>,
    i: int,
    j: int,
)
    requires
        restore_fault(names, targets, saved, true) is None,
        0 <= i < j < targets.len(),
    ensures
        !targets[i].overlaps(targets[j]) || (targets[i].coincides(targets[j]) && targets[i].kind == targets[j].kind
            && targets[i].shape@ == targets[j].shape@),
{
    assert(!conflict(targets, i, j));
}

/// Once a checkpoint can be restored, every target has the element type and the shape of its
/// saved value.
pub proof fn restored_targets_fit(
    names: Seq<Seq<char>>,
    targets: Seq<Target>,
    saved: Map<Seq<char>, WeightView>,
    i: int,
)
    requires
        names.len() == targets.len(),
        restore_fault(names, targets, saved, true) is None,
        0 <= i < targets.len(),
    ensures
        saved.dom().contains(names[i]),
        targets[i].kind == saved[names[i]].kind,
        targets[i].shape@ == saved[names[i]].shape,
{
    faults_end(names, targets, saved, 0);
    assert(names.to_set().contains(names[i]));
    assert(target_fault(names[i], targets[i], saved[names[i]]) is None);
}

} // verus!
