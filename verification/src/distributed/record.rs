//! Checkpoints of divided training: one record for each rank, or one for all.
use super::group::LARGEST_PAYLOAD;
use super::payload::{Payload, PayloadView};
use super::shard::{
    chunk_of, chunk_size, chunks_cover, copy_specs, cut, elements, elements_of, joined, parts_join_again, same_specs, shard_of, spec_checks,
    spec_names, spec_refusal, spec_views, specs_refusal, validate_specs, ParameterSpec, SpecView,
};
use super::{invalid, refused};
use crate::error::{first_at, first_at_none, refusal, ErrorView, Result};
use crate::names::{ascending_is_distinct, NameMap};
use crate::tensor::{copy_shape, counted, same_shape, TensorSpec, TensorSpecView};
use crate::text::{byte_length, owned, same};
use vstd::prelude::*;

verus! {

/// The contents of the weights of a record.
pub open spec fn weight_views(map: Map<Seq<char>, Payload>) -> Map<Seq<char>, PayloadView> {
    map.map_values(|p: Payload| p@)
}

/// The contents of what an optimizer keeps.
pub open spec fn kept_views(map: Map<Seq<char>, TensorSpec>) -> Map<Seq<char>, TensorSpecView> {
    map.map_values(|t: TensorSpec| t@)
}

/// What one rank saves: its part of every parameter, and its optimizer.
#[derive(Debug, Clone, PartialEq)]
pub struct ShardedCheckpoint<O> {
    /// The version of the record.
    pub schema_version: u32,
    /// What marks the records that belong together.
    pub checkpoint_id: String,
    /// The rank.
    pub rank: usize,
    /// The number of ranks.
    pub world_size: usize,
    /// The whole parameters, in name order.
    pub parameters: Vec<ParameterSpec>,
    /// The part of each.
    pub weights: NameMap<Payload>,
    /// The optimizer of the rank.
    pub optimizer: O,
}

/// The content of a [`ShardedCheckpoint`], without the optimizer.
pub struct ShardView {
    pub schema_version: u32,
    pub checkpoint_id: Seq<char>,
    pub rank: usize,
    pub world_size: usize,
    pub parameters: Seq<SpecView>,
    pub weights: Map<Seq<char>, PayloadView>,
}

impl<O> View for ShardedCheckpoint<O> {
    type V = ShardView;

    open spec fn view(&self) -> ShardView {
        ShardView {
            schema_version: self.schema_version,
            checkpoint_id: self.checkpoint_id@,
            rank: self.rank,
            world_size: self.world_size,
            parameters: spec_views(self.parameters@),
            weights: weight_views(self.weights@),
        }
    }
}

/// Why the part of one parameter is refused, if it is.
pub open spec fn part_refusal(
    spec: SpecView,
    world: int,
    weights: Map<Seq<char>, PayloadView>,
    kept: Map<Seq<char>, TensorSpecView>,
) -> Option<ErrorView> {
    if !weights.dom().contains(spec.name) {
        Some(refused("checkpoint weight name missing"@))
    } else {
        let part = weights[spec.name];
        match part.refusal(LARGEST_PAYLOAD) {
            Some(e) => Some(e),
            None => if !kept.dom().contains(spec.name) || kept[spec.name] != (TensorSpecView {
                shape: part.shape,
                kind: part.dtype.as_kind(),
            }) {
                Some(refused("optimizer and model shard metadata differ"@))
            } else if part.dtype != spec.dtype || part.shape != seq![chunk_of(elements_of(spec.shape)->Ok_0, world) as i64] {
                Some(refused("checkpoint weight shard shape or dtype differs"@))
            } else {
                None
            },
        }
    }
}

/// The checks of parts.
pub open spec fn part_checks(
    parameters: Seq<SpecView>,
    world: int,
    weights: Map<Seq<char>, PayloadView>,
    kept: Map<Seq<char>, TensorSpecView>,
) -> spec_fn(int) -> Option<ErrorView> {
    |i: int| part_refusal(parameters[i], world, weights, kept)
}

impl ShardView {
    /// Why the record is refused, if it is. `kept` is what its optimizer keeps.
    pub open spec fn refusal(self, kept: Map<Seq<char>, TensorSpecView>) -> Option<ErrorView> {
        if self.schema_version != 1 || self.checkpoint_id.len() == 0 || vstd::utf8::encode_utf8(self.checkpoint_id).len() > 300
            || self.world_size == 0 || self.world_size > 1024 || self.rank >= self.world_size {
            Some(refused("invalid checkpoint schema, rank or world size"@))
        } else {
            match specs_refusal(self.parameters) {
                Some(e) => Some(e),
                None => if self.weights.dom().len() != self.parameters.len() {
                    Some(refused("checkpoint weight count differs"@))
                } else if kept.dom().len() != self.parameters.len() {
                    Some(refused("optimizer and model shard counts differ"@))
                } else {
                    first_at(
                        0,
                        self.parameters.len() as int,
                        part_checks(self.parameters, self.world_size as int, self.weights, kept),
                    )
                },
            }
        }
    }
}

impl<O> ShardedCheckpoint<O> {
    /// What marks the records that belong together.
    pub fn checkpoint_id(&self) -> (r: &str)
        ensures
            r@ == self@.checkpoint_id,
    {
        self.checkpoint_id.as_str()
    }

    /// The rank that saved the record.
    pub fn rank(&self) -> (r: usize)
        ensures
            r == self@.rank,
    {
        self.rank
    }

    /// The number of ranks that saved records.
    pub fn world_size(&self) -> (r: usize)
        ensures
            r == self@.world_size,
    {
        self.world_size
    }

    /// Checks the record against what its optimizer keeps.
    pub fn validate(&self, kept: &NameMap<TensorSpec>) -> (r: Result<()>)
        requires
            self.weights.wf(),
            kept.wf(),
        ensures
            refusal(r) == self@.refusal(kept_views(kept@)),
    {
        proof {
            reveal_strlit("");
            if self.checkpoint_id@.len() == 0 {
                assert(self.checkpoint_id@ =~= ""@);
            }
        }
        if self.schema_version != 1 || same(self.checkpoint_id.as_str(), "") || byte_length(self.checkpoint_id.as_str()) > 300
            || self.world_size == 0 || self.world_size > 1024 || self.rank >= self.world_size {
            return Err(invalid("invalid checkpoint schema, rank or world size"));
        }
        if let Err(e) = validate_specs(&self.parameters) {
            return Err(e);
        }
        proof {
            self.weights.length_is_count();
            kept.length_is_count();
            assert(weight_views(self.weights@).dom() =~= self.weights@.dom());
            assert(kept_views(kept@).dom() =~= kept@.dom());
        }
        if self.weights.len() != self.parameters.len() {
            return Err(invalid("checkpoint weight count differs"));
        }
        if kept.len() != self.parameters.len() {
            return Err(invalid("optimizer and model shard counts differ"));
        }
        self.check_parts(kept)
    }

    fn check_parts(&self, kept: &NameMap<TensorSpec>) -> (r: Result<()>)
        requires
            self.weights.wf(),
            kept.wf(),
            self.world_size > 0,
            specs_refusal(spec_views(self.parameters@)) is None,
        ensures
            refusal(r) == first_at(
                0,
                self.parameters@.len() as int,
                part_checks(self@.parameters, self.world_size as int, self@.weights, kept_views(kept@)),
            ),
    {
        let ghost views = spec_views(self.parameters@);
        let ghost check = part_checks(views, self.world_size as int, self@.weights, kept_views(kept@));
        let ghost n = views.len() as int;
        proof {
            first_at_none(0, n, spec_checks(views));
        }
        let mut i: usize = 0;
        while i < self.parameters.len()
            invariant
                self.weights.wf(),
                kept.wf(),
                self.world_size > 0,
                views == spec_views(self.parameters@),
                check == part_checks(views, self.world_size as int, self@.weights, kept_views(kept@)),
                n == self.parameters@.len(),
                forall|k: int| 0 <= k < n ==> (#[trigger] spec_checks(views)(k)) is None,
                i <= n,
                first_at(0, n, check) == first_at(i as int, n, check),
            decreases n - i,
        {
            let spec = &self.parameters[i];
            proof {
                assert(views[i as int] == spec@);
                assert(spec_checks(views)(i as int) is None);
                assert(spec_refusal(spec@) is None);
                assert(check(i as int) == part_refusal(spec@, self.world_size as int, self@.weights, kept_views(kept@)));
                assert(weight_views(self.weights@).dom() =~= self.weights@.dom());
                assert(kept_views(kept@).dom() =~= kept@.dom());
            }
            let part = match self.weights.get(spec.name.as_str()) {
                Some(part) => part,
                None => {
                    return Err(invalid("checkpoint weight name missing"));
                },
            };
            assert(part@ == self@.weights[spec.name@]);
            if let Err(e) = part.validate(LARGEST_PAYLOAD) {
                return Err(e);
            }
            let agrees = match kept.get(spec.name.as_str()) {
                Some(t) => {
                    assert(t@ == kept_views(kept@)[spec.name@]);
                    same_shape(t.shape.as_slice(), part.shape.as_slice()) && t.kind == part.dtype.kind()
                },
                None => false,
            };
            if !agrees {
                return Err(invalid("optimizer and model shard metadata differ"));
            }
            let count: usize = match elements(spec.shape.as_slice()) {
                Ok(count) => count,
                Err(e) => {
                    return Err(e);
                },
            };
            let chunk: usize = chunk_size(count, self.world_size);
            proof {
                chunks_cover(count as int, self.world_size as int);
                if part.shape@.len() == 1 && part.shape@[0] == chunk as i64 {
                    assert(part.shape@ =~= seq![chunk as i64]);
                }
            }
            if part.dtype != spec.dtype || part.shape.len() != 1 || part.shape[0] != chunk as i64 {
                return Err(invalid("checkpoint weight shard shape or dtype differs"));
            }
            i += 1;
        }
        Ok(())
    }
}

/// The contents of records.
pub open spec fn shard_views<O>(list: Seq<ShardedCheckpoint<O>>) -> Seq<ShardView> {
    Seq::new(list.len(), |i: int| list[i]@)
}

/// The contents of what the optimizers of records keep.
pub open spec fn all_kept(list: Seq<NameMap<TensorSpec>>) -> Seq<Map<Seq<char>, TensorSpecView>> {
    Seq::new(list.len(), |i: int| kept_views(list[i]@))
}

/// A record does not belong to those before it.
pub open spec fn is_foreign(shards: Seq<ShardView>, i: int) -> bool {
    ||| shards[i].world_size != shards[0].world_size
    ||| shards[i].checkpoint_id != shards[0].checkpoint_id
    ||| shards[i].parameters != shards[0].parameters
    ||| exists|j: int| 0 <= j < i && (#[trigger] shards[j]).rank == shards[i].rank
}

/// The checks of records.
pub open spec fn shard_checks(shards: Seq<ShardView>, kept: Seq<Map<Seq<char>, TensorSpecView>>) -> spec_fn(int) -> Option<ErrorView> {
    |i: int|
        match shards[i].refusal(kept[i]) {
            Some(e) => Some(e),
            None => if is_foreign(shards, i) {
                Some(refused("checkpoint shard identities differ or ranks repeat"@))
            } else {
                None
            },
        }
}

/// The record of a rank.
pub open spec fn holder(shards: Seq<ShardView>, rank: int) -> int {
    choose|i: int| 0 <= i < shards.len() && (#[trigger] shards[i]).rank == rank
}

/// The length of a whole parameter in bytes.
pub open spec fn whole_length(spec: SpecView) -> int {
    elements_of(spec.shape)->Ok_0 * spec.dtype.size()
}

/// The length of each part in bytes.
pub open spec fn part_length(spec: SpecView, world: int) -> int {
    chunk_of(elements_of(spec.shape)->Ok_0, world) * spec.dtype.size()
}

/// The parts of a parameter in rank order.
pub open spec fn parts_of(shards: Seq<ShardView>, world: int, name: Seq<char>) -> Seq<Seq<u8>> {
    Seq::new(world as nat, |r: int| shards[holder(shards, r)].weights[name].bytes)
}

/// A whole parameter, put together.
pub open spec fn whole(shards: Seq<ShardView>, world: int, spec: SpecView) -> PayloadView {
    PayloadView {
        shape: spec.shape,
        dtype: spec.dtype,
        bytes: joined(parts_of(shards, world, spec.name), part_length(spec, world), whole_length(spec)),
    }
}

/// The first `n` parameters, put together.
pub open spec fn whole_weights(shards: Seq<ShardView>, world: int, parameters: Seq<SpecView>, n: int) -> Map<
    Seq<char>,
    PayloadView,
>
    decreases n,
{
    if n <= 0 {
        Map::empty()
    } else {
        whole_weights(shards, world, parameters, n - 1).insert(
            parameters[n - 1].name,
            whole(shards, world, parameters[n - 1]),
        )
    }
}

/// The checks of whole lengths.
pub open spec fn length_checks(parameters: Seq<SpecView>) -> spec_fn(int) -> Option<ErrorView> {
    |i: int|
        if whole_length(parameters[i]) > usize::MAX {
            Some(refused("checkpoint byte count overflow"@))
        } else {
            None
        }
}

/// Why records do not make up a whole, if they do not.
pub open spec fn set_refusal(shards: Seq<ShardView>, kept: Seq<Map<Seq<char>, TensorSpecView>>) -> Option<ErrorView> {
    if shards.len() == 0 {
        Some(refused("empty checkpoint shard set"@))
    } else if shards[0].world_size == 0 || shards[0].world_size > 1024 || shards.len() != shards[0].world_size {
        Some(refused("checkpoint shard set is incomplete"@))
    } else {
        match first_at(0, shards.len() as int, shard_checks(shards, kept)) {
            Some(e) => Some(e),
            None => first_at(0, shards[0].parameters.len() as int, length_checks(shards[0].parameters)),
        }
    }
}

/// What records make up: the whole parameters, and which record comes from which rank.
#[derive(Debug)]
pub struct Consolidation {
    /// The parameters.
    pub parameters: Vec<ParameterSpec>,
    /// Their values.
    pub weights: NameMap<Payload>,
    /// For each rank, where its record stands in the list.
    pub order: Vec<usize>,
}

/// The ranks below `n` whose record was found.
pub open spec fn found(places: Seq<Option<usize>>, n: int) -> int
    decreases n,
{
    if n <= 0 {
        0
    } else {
        found(places, n - 1) + (if places[n - 1] is Some {
            1int
        } else {
            0
        })
    }
}

proof fn found_bound(places: Seq<Option<usize>>, n: int)
    requires
        0 <= n,
    ensures
        0 <= found(places, n) <= n,
        found(places, n) == n ==> forall|r: int| 0 <= r < n ==> (#[trigger] places[r]) is Some,
    decreases n,
{
    if n > 0 {
        found_bound(places, n - 1);
    }
}

proof fn found_update(places: Seq<Option<usize>>, at: int, value: usize, n: int)
    requires
        0 <= at < places.len(),
        n <= places.len(),
        places[at] is None,
    ensures
        found(places.update(at, Some(value)), n) == found(places, n) + (if at < n {
            1int
        } else {
            0
        }),
    decreases n,
{
    if n > 0 {
        found_update(places, at, value, n - 1);
    }
}

proof fn found_none(places: Seq<Option<usize>>, n: int)
    requires
        n <= places.len(),
        forall|r: int| 0 <= r < places.len() ==> (#[trigger] places[r]) is None,
    ensures
        found(places, n) == 0,
    decreases n,
{
    if n > 0 {
        found_none(places, n - 1);
    }
}

/// Every record stands at the place of its rank.
pub open spec fn is_placed(shards: Seq<ShardView>, places: Seq<Option<usize>>, n: int) -> bool {
    &&& forall|j: int|
        0 <= j < n ==> (#[trigger] shards[j]).rank < places.len() && places[shards[j].rank as int] == Some(j as usize)
    &&& forall|r: int| 0 <= r < places.len() ==> ((#[trigger] places[r]) matches Some(j) ==> j < n && shards[j as int].rank == r)
}

impl<O> ShardedCheckpoint<O> {
    fn place(shards: &Vec<Self>, kept: &Vec<NameMap<TensorSpec>>) -> (r: Result<Vec<usize>>)
        requires
            shards@.len() > 0,
            shards@.len() == shards@[0].world_size,
            kept@.len() == shards@.len(),
            forall|i: int| 0 <= i < shards@.len() ==> (#[trigger] shards@[i]).weights.wf(),
            forall|i: int| 0 <= i < kept@.len() ==> (#[trigger] kept@[i]).wf(),
        ensures
            refusal(r) == first_at(0, shards@.len() as int, shard_checks(shard_views(shards@), all_kept(kept@))),
            r matches Ok(order) ==> {
                &&& order@.len() == shards@.len()
                &&& forall|k: int|
                    0 <= k < order@.len() ==> #[trigger] order@[k] < shards@.len() && shards@[order@[k] as int].rank == k
                        && order@[k] == holder(shard_views(shards@), k)
            },
    {
        let ghost views = shard_views(shards@);
        let ghost keeps = all_kept(kept@);
        let ghost check = shard_checks(views, keeps);
        let ghost n = views.len() as int;
        let world: usize = shards.len();
        let mut places: Vec<Option<usize>> = Vec::new();
        while places.len() < world
            invariant
                places@.len() <= world,
                forall|k: int| 0 <= k < places@.len() ==> (#[trigger] places@[k]) is None,
            decreases world - places@.len(),
        {
            places.push(None);
        }
        proof {
            found_none(places@, world as int);
        }
        let mut i: usize = 0;
        while i < shards.len()
            invariant
                n == shards@.len(),
                n > 0,
                world == n,
                world == shards@[0].world_size,
                kept@.len() == n,
                forall|k: int| 0 <= k < n ==> (#[trigger] shards@[k]).weights.wf(),
                forall|k: int| 0 <= k < n ==> (#[trigger] kept@[k]).wf(),
                views == shard_views(shards@),
                keeps == all_kept(kept@),
                check == shard_checks(views, keeps),
                i <= n,
                places@.len() == world,
                is_placed(views, places@, i as int),
                found(places@, world as int) == i,
                first_at(0, n, check) == first_at(i as int, n, check),
            decreases n - i,
        {
            let shard = &shards[i];
            let first = &shards[0];
            proof {
                assert(views[i as int] == shard@);
                assert(views[0] == first@);
                assert(keeps[i as int] == kept_views(kept@[i as int]@));
            }
            if let Err(e) = shard.validate(&kept[i]) {
                assert(check(i as int) == Some(e@));
                return Err(e);
            }
            if shard.world_size != first.world_size || !same(shard.checkpoint_id.as_str(), first.checkpoint_id.as_str())
                || !same_specs(&shard.parameters, &first.parameters) {
                assert(is_foreign(views, i as int));
                return Err(invalid("checkpoint shard identities differ or ranks repeat"));
            }
            let taken = places[shard.rank].is_some();
            if taken {
                proof {
                    let j = places@[shard.rank as int]->0;
                    assert(views[j as int].rank == views[i as int].rank);
                    assert(is_foreign(views, i as int));
                }
                return Err(invalid("checkpoint shard identities differ or ranks repeat"));
            }
            proof {
                assert(!is_foreign(views, i as int)) by {
                    assert forall|j: int| 0 <= j < i implies (#[trigger] views[j]).rank != views[i as int].rank by {}
                }
                assert(check(i as int) is None);
                found_update(places@, shard.rank as int, i, world as int);
            }
            let ghost before = places@;
            places.set(shard.rank, Some(i));
            proof {
                assert(places@ =~= before.update(shard.rank as int, Some(i)));
                assert(is_placed(views, places@, i + 1)) by {
                    assert forall|j: int| 0 <= j < i + 1 implies (#[trigger] views[j]).rank < places@.len()
                        && places@[views[j].rank as int] == Some(j as usize) by {
                        if j < i {
                            assert(before[views[j].rank as int] == Some(j as usize));
                            assert(views[j].rank != shard.rank);
                        }
                    }
                }
            }
            i += 1;
        }
        proof {
            found_bound(places@, world as int);
        }
        let mut order: Vec<usize> = Vec::new();
        while order.len() < world
            invariant
                n == shards@.len(),
                world == n,
                views == shard_views(shards@),
                places@.len() == world,
                is_placed(views, places@, n),
                forall|k: int| 0 <= k < world ==> (#[trigger] places@[k]) is Some,
                order@.len() <= world,
                forall|k: int|
                    0 <= k < order@.len() ==> #[trigger] order@[k] < n && shards@[order@[k] as int].rank == k && order@[k]
                        == holder(views, k),
            decreases world - order@.len(),
        {
            let ghost k = order@.len() as int;
            assert(places@[k] is Some);
            if let Some(at) = places[order.len()] {
                proof {
                    assert(views[at as int].rank == k);
                    let h = holder(views, k);
                    assert(0 <= h < n && views[h].rank == k);
                    assert(places@[k] == Some(h as usize));
                    assert(views[at as int] == shards@[at as int]@);
                }
                order.push(at);
            }
        }
        Ok(order)
    }

    fn join_parts(shards: &Vec<Self>, order: &Vec<usize>, name: &str, size: usize, length: usize) -> (r: Vec<u8>)
        requires
            size > 0,
            size * order@.len() >= length,
            forall|i: int| 0 <= i < shards@.len() ==> (#[trigger] shards@[i]).weights.wf(),
            forall|k: int|
                0 <= k < order@.len() ==> #[trigger] order@[k] < shards@.len() && order@[k] == holder(shard_views(shards@), k),
            forall|k: int|
                0 <= k < order@.len() ==> shards@[#[trigger] order@[k] as int]@.weights.dom().contains(name@)
                    && shards@[order@[k] as int]@.weights[name@].bytes.len() == size,
        ensures
            r@ == joined(parts_of(shard_views(shards@), order@.len() as int, name@), size as int, length as int),
    {
        let ghost world = order@.len() as int;
        let ghost parts = parts_of(shard_views(shards@), world, name@);
        let ghost all = joined(parts, size as int, length as int);
        let mut out: Vec<u8> = Vec::new();
        let mut k: usize = 0;
        assert(0int * size == 0) by (nonlinear_arith);
        while k < order.len()
            invariant
                size > 0,
                world == order@.len(),
                parts == parts_of(shard_views(shards@), world, name@),
                all == joined(parts, size as int, length as int),
                forall|i: int| 0 <= i < shards@.len() ==> (#[trigger] shards@[i]).weights.wf(),
                forall|j: int|
                    0 <= j < world ==> #[trigger] order@[j] < shards@.len() && order@[j] == holder(shard_views(shards@), j),
                forall|j: int|
                    0 <= j < world ==> shards@[#[trigger] order@[j] as int]@.weights.dom().contains(name@)
                        && shards@[order@[j] as int]@.weights[name@].bytes.len() == size,
                k <= world,
                out@.len() == (if k * size < length {
                    k * size
                } else {
                    length as int
                }),
                forall|i: int| 0 <= i < out@.len() ==> #[trigger] out@[i] == all[i],
            decreases world - k,
        {
            let shard = &shards[order[k]];
            proof {
                assert(shard_views(shards@)[order@[k as int] as int] == shard@);
                assert(parts[k as int] == shard@.weights[name@].bytes);
                assert(weight_views(shard.weights@).dom() =~= shard.weights@.dom());
                assert(k * size >= 0) by (nonlinear_arith)
                    requires
                        k >= 0,
                        size >= 0,
                ;
                assert((k + 1) * size == k * size + size) by (nonlinear_arith);
            }
            if let Some(part) = shard.weights.get(name) {
                assert(part@ == shard@.weights[name@]);
                let mut b: usize = 0;
                while b < part.bytes.len()
                    invariant
                        size > 0,
                        k < world,
                        parts.len() == world,
                        all == joined(parts, size as int, length as int),
                        parts[k as int] == part.bytes@,
                        part.bytes@.len() == size,
                        k * size >= 0,
                        b <= size,
                        out@.len() == (if k * size + b < length {
                            k * size + b
                        } else {
                            length as int
                        }),
                        forall|i: int| 0 <= i < out@.len() ==> #[trigger] out@[i] == all[i],
                    decreases size - b,
                {
                    if out.len() < length {
                        proof {
                            let at = k * size + b;
                            vstd::arithmetic::div_mod::lemma_fundamental_div_mod_converse(at, size as int, k as int, b as int);
                            assert(all[at] == parts[k as int][b as int]);
                        }
                        out.push(part.bytes[b]);
                    }
                    b += 1;
                }
            }
            k += 1;
        }
        assert(world * size >= length) by (nonlinear_arith)
            requires
                size * world >= length,
        ;
        assert(out@ =~= all);
        out
    }

    /// Puts a complete set of records together. They may come in any order. `kept` is what the
    /// optimizer of each record keeps.
    pub fn consolidate(shards: &Vec<Self>, kept: &Vec<NameMap<TensorSpec>>) -> (r: Result<Consolidation>)
        requires
            kept@.len() == shards@.len(),
            forall|i: int| 0 <= i < shards@.len() ==> (#[trigger] shards@[i]).weights.wf(),
            forall|i: int| 0 <= i < kept@.len() ==> (#[trigger] kept@[i]).wf(),
        ensures
            refusal(r) == set_refusal(shard_views(shards@), all_kept(kept@)),
            r matches Ok(c) ==> {
                let views = shard_views(shards@);
                &&& c.weights.wf()
                &&& spec_views(c.parameters@) == views[0].parameters
                &&& weight_views(c.weights@) == whole_weights(
                    views,
                    shards@.len() as int,
                    views[0].parameters,
                    views[0].parameters.len() as int,
                )
                &&& c.order@.len() == shards@.len()
                &&& forall|k: int|
                    0 <= k < c.order@.len() ==> #[trigger] c.order@[k] < shards@.len() && shards@[c.order@[k] as int].rank == k
            },
    {
        let ghost views = shard_views(shards@);
        let ghost keeps = all_kept(kept@);
        if shards.len() == 0 {
            return Err(invalid("empty checkpoint shard set"));
        }
        let first = &shards[0];
        assert(views[0] == first@);
        if first.world_size == 0 || first.world_size > 1024 || shards.len() != first.world_size {
            return Err(invalid("checkpoint shard set is incomplete"));
        }
        let order = match Self::place(shards, kept) {
            Ok(order) => order,
            Err(e) => {
                return Err(e);
            },
        };
        let ghost n = first.parameters@.len() as int;
        let ghost specs = views[0].parameters;
        let ghost world = shards@.len() as int;
        let ghost check = length_checks(specs);
        proof {
            first_at_none(0, world, shard_checks(views, keeps));
            assert(shard_checks(views, keeps)(0) is None);
            first_at_none(0, n, spec_checks(specs));
        }
        let mut weights: NameMap<Payload> = NameMap::new();
        assert(weight_views(weights@) =~= Map::empty());
        let mut i: usize = 0;
        while i < first.parameters.len()
            invariant
                shards@.len() > 0,
                first == shards@[0],
                views[0] == first@,
                shards@.len() == first.world_size,
                first_at(0, world, shard_checks(views, keeps)) is None,
                0 < world <= 1024,
                world == shards@.len(),
                views == shard_views(shards@),
                keeps == all_kept(kept@),
                specs == views[0].parameters,
                specs == spec_views(first.parameters@),
                n == first.parameters@.len(),
                check == length_checks(specs),
                forall|k: int| 0 <= k < shards@.len() ==> (#[trigger] shards@[k]).weights.wf(),
                order@.len() == world,
                forall|k: int|
                    0 <= k < world ==> #[trigger] order@[k] < shards@.len() && shards@[order@[k] as int].rank == k && order@[k]
                        == holder(views, k),
                forall|k: int| 0 <= k < world ==> (#[trigger] shard_checks(views, keeps)(k)) is None,
                forall|k: int| 0 <= k < n ==> (#[trigger] spec_checks(specs)(k)) is None,
                i <= n,
                weights.wf(),
                weight_views(weights@) == whole_weights(views, world, specs, i as int),
                first_at(0, n, check) == first_at(i as int, n, check),
            decreases n - i,
        {
            let spec = &first.parameters[i];
            proof {
                assert(specs[i as int] == spec@);
                assert(spec_checks(specs)(i as int) is None);
                assert(spec_refusal(spec@) is None);
            }
            let count: usize = match elements(spec.shape.as_slice()) {
                Ok(count) => count,
                Err(e) => {
                    return Err(e);
                },
            };
            let width: usize = spec.dtype.kind().bytes();
            let length: usize = match count.checked_mul(width) {
                Some(length) => length,
                None => {
                    assert(check(i as int) == Some(refused("checkpoint byte count overflow"@)));
                    return Err(invalid("checkpoint byte count overflow"));
                },
            };
            assert(check(i as int) is None);
            let chunk: usize = chunk_size(count, shards.len());
            proof {
                chunks_cover(count as int, world);
                assert(chunk * width <= count * width) by (nonlinear_arith)
                    requires
                        chunk <= count,
                        0 <= width,
                ;
                assert(chunk * width > 0) by (nonlinear_arith)
                    requires
                        chunk > 0,
                        width > 0,
                ;
                assert(chunk * width * world >= count * width) by (nonlinear_arith)
                    requires
                        chunk * world >= count,
                        width > 0,
                ;
                assert forall|k: int| 0 <= k < world implies shards@[#[trigger] order@[k] as int]@.weights.dom().contains(
                    spec.name@,
                ) && shards@[order@[k] as int]@.weights[spec.name@].bytes.len() == chunk * width by {
                    let at = order@[k] as int;
                    part_is_sized(views, keeps, at, i as int);
                    assert(views[at] == shards@[at]@);
                }
            }
            let size: usize = chunk * width;
            let bytes = Self::join_parts(shards, &order, spec.name.as_str(), size, length);
            let value = Payload { shape: copy_shape(spec.shape.as_slice()), dtype: spec.dtype, bytes };
            let ghost view = value@;
            assert(view == whole(views, world, spec@));
            let ghost before = weights@;
            let _ = weights.insert(owned(spec.name.as_str()), value);
            assert(weight_views(weights@) =~= weight_views(before).insert(spec.name@, view));
            i += 1;
        }
        Ok(Consolidation { parameters: copy_specs(&first.parameters), weights, order })
    }
}

proof fn part_is_sized(shards: Seq<ShardView>, kept: Seq<Map<Seq<char>, TensorSpecView>>, at: int, i: int)
    requires
        0 <= at < shards.len(),
        shards[0].world_size == shards.len(),
        shard_checks(shards, kept)(at) is None,
        0 <= i < shards[0].parameters.len(),
        spec_refusal(shards[0].parameters[i]) is None,
    ensures
        ({
            let spec = shards[0].parameters[i];
            &&& shards[at].weights.dom().contains(spec.name)
            &&& shards[at].weights[spec.name].bytes.len() == chunk_of(elements_of(spec.shape)->Ok_0, shards.len() as int) * spec.dtype.size()
        }),
{
    let shard = shards[at];
    let spec = shards[0].parameters[i];
    let count = elements_of(spec.shape)->Ok_0;
    let chunk = chunk_of(count, shards.len() as int);
    assert(!is_foreign(shards, at));
    let checks = part_checks(shard.parameters, shard.world_size as int, shard.weights, kept[at]);
    first_at_none(0, shard.parameters.len() as int, checks);
    assert(checks(i) is None);
    let part = shard.weights[spec.name];
    assert(part.shape == seq![chunk as i64]);
    counted_in_range(spec.shape, spec.shape.len() as int);
    chunks_cover(count, shards.len() as int);
    assert(part.shape.len() == 1 && part.shape[0] == chunk);
    assert(counted(part.shape, 0) == Some(1int));
    assert(1 * part.shape[0] == chunk);
    assert(counted(part.shape, 1) == Some(chunk));
}

pub(crate) proof fn counted_in_range(shape: Seq<i64>, n: int)
    ensures
        counted(shape, n) matches Some(count) ==> 0 <= count <= usize::MAX,
    decreases n,
{
    if n > 0 {
        counted_in_range(shape, n - 1);
        if let Some(count) = counted(shape, n - 1) {
            assert(shape[n - 1] >= 0 ==> count * shape[n - 1] >= 0) by (nonlinear_arith)
                requires
                    count >= 0,
            ;
        }
    }
}

/// Whole parameters with an optimizer, independent of how many ranks there were.
#[derive(Debug, Clone, PartialEq)]
pub struct ConsolidatedCheckpoint<O> {
    /// The version of the record.
    pub schema_version: u32,
    /// The parameters, in name order.
    pub parameters: Vec<ParameterSpec>,
    /// Their values.
    pub weights: NameMap<Payload>,
    /// The optimizer.
    pub optimizer: O,
}

/// The content of a [`ConsolidatedCheckpoint`], without the optimizer.
pub struct ConsolidatedView {
    pub schema_version: u32,
    pub parameters: Seq<SpecView>,
    pub weights: Map<Seq<char>, PayloadView>,
}

impl<O> View for ConsolidatedCheckpoint<O> {
    type V = ConsolidatedView;

    open spec fn view(&self) -> ConsolidatedView {
        ConsolidatedView {
            schema_version: self.schema_version,
            parameters: spec_views(self.parameters@),
            weights: weight_views(self.weights@),
        }
    }
}

/// Why a whole parameter is refused, if it is.
pub open spec fn value_refusal(spec: SpecView, weights: Map<Seq<char>, PayloadView>) -> Option<ErrorView> {
    if !weights.dom().contains(spec.name) {
        Some(refused("consolidated weight name missing"@))
    } else {
        match weights[spec.name].refusal(LARGEST_PAYLOAD) {
            Some(e) => Some(e),
            None => if weights[spec.name].shape != spec.shape || weights[spec.name].dtype != spec.dtype {
                Some(refused("consolidated weight shape or dtype differs"@))
            } else {
                None
            },
        }
    }
}

/// The checks of whole parameters.
pub open spec fn value_checks(parameters: Seq<SpecView>, weights: Map<Seq<char>, PayloadView>) -> spec_fn(int) -> Option<ErrorView> {
    |i: int| value_refusal(parameters[i], weights)
}

impl ConsolidatedView {
    /// Why the record is refused, if it is.
    pub open spec fn refusal(self) -> Option<ErrorView> {
        if self.schema_version != 1 {
            Some(refused("unsupported consolidated checkpoint schema"@))
        } else {
            match specs_refusal(self.parameters) {
                Some(e) => Some(e),
                None => if self.weights.dom().len() != self.parameters.len() {
                    Some(refused("consolidated weight count differs"@))
                } else {
                    first_at(0, self.parameters.len() as int, value_checks(self.parameters, self.weights))
                },
            }
        }
    }
}

/// The part of a whole parameter for a rank.
pub open spec fn part_for(value: PayloadView, rank: int, world: int) -> PayloadView {
    let chunk = chunk_of(counted(value.shape, value.shape.len() as int)->0, world);
    PayloadView {
        shape: seq![chunk as i64],
        dtype: value.dtype,
        bytes: shard_of(value.bytes, chunk * value.dtype.size(), rank),
    }
}

/// The parts of all parameters for a rank.
pub open spec fn parts_for(weights: Map<Seq<char>, PayloadView>, rank: int, world: int) -> Map<Seq<char>, PayloadView> {
    Map::new(|name: Seq<char>| weights.dom().contains(name), |name: Seq<char>| part_for(weights[name], rank, world))
}

/// The record of a rank, cut out of a whole.
pub open spec fn cut_out(full: ConsolidatedView, rank: usize, world: usize) -> ShardView {
    ShardView {
        schema_version: 1,
        checkpoint_id: "consolidated"@,
        rank,
        world_size: world,
        parameters: full.parameters,
        weights: parts_for(full.weights, rank as int, world as int),
    }
}

/// The parameters name exactly the values of a valid whole.
proof fn names_cover(full: ConsolidatedView)
    requires
        full.refusal() is None,
        full.weights.dom().finite(),
    ensures
        full.weights.dom() == spec_names(full.parameters).to_set(),
        forall|i: int| 0 <= i < full.parameters.len() ==> (#[trigger] value_checks(full.parameters, full.weights)(i)) is None,
        forall|i: int| 0 <= i < full.parameters.len() ==> (#[trigger] spec_checks(full.parameters)(i)) is None,
{
    let names = spec_names(full.parameters);
    let n = full.parameters.len() as int;
    first_at_none(0, n, value_checks(full.parameters, full.weights));
    first_at_none(0, n, spec_checks(full.parameters));
    ascending_is_distinct(names);
    names.unique_seq_to_set();
    assert(names.to_set().subset_of(full.weights.dom())) by {
        assert forall|name: Seq<char>| names.to_set().contains(name) implies full.weights.dom().contains(name) by {
            let i = names.index_of(name);
            assert(names[i] == name);
            assert(value_checks(full.parameters, full.weights)(i) is None);
        }
    }
    vstd::set_lib::lemma_subset_equality(names.to_set(), full.weights.dom());
}

impl<O> ConsolidatedCheckpoint<O> {
    /// Joins what records make up with the optimizer that was put together from theirs.
    pub fn new(consolidation: Consolidation, optimizer: O) -> (r: Self)
        ensures
            r.schema_version == 1,
            r.parameters == consolidation.parameters,
            r.weights == consolidation.weights,
            r.optimizer == optimizer,
    {
        ConsolidatedCheckpoint {
            schema_version: 1,
            parameters: consolidation.parameters,
            weights: consolidation.weights,
            optimizer,
        }
    }

    /// Checks the record.
    pub fn validate(&self) -> (r: Result<()>)
        requires
            self.weights.wf(),
        ensures
            refusal(r) == self@.refusal(),
    {
        if self.schema_version != 1 {
            return Err(invalid("unsupported consolidated checkpoint schema"));
        }
        if let Err(e) = validate_specs(&self.parameters) {
            return Err(e);
        }
        proof {
            self.weights.length_is_count();
            assert(weight_views(self.weights@).dom() =~= self.weights@.dom());
        }
        if self.weights.len() != self.parameters.len() {
            return Err(invalid("consolidated weight count differs"));
        }
        let ghost views = spec_views(self.parameters@);
        let ghost check = value_checks(views, self@.weights);
        let ghost n = views.len() as int;
        let mut i: usize = 0;
        while i < self.parameters.len()
            invariant
                self.weights.wf(),
                self.schema_version == 1,
                specs_refusal(views) is None,
                self@.weights.dom().len() == views.len(),
                views == spec_views(self.parameters@),
                check == value_checks(views, self@.weights),
                n == self.parameters@.len(),
                i <= n,
                first_at(0, n, check) == first_at(i as int, n, check),
            decreases n - i,
        {
            let spec = &self.parameters[i];
            proof {
                assert(views[i as int] == spec@);
                assert(check(i as int) == value_refusal(spec@, self@.weights));
                assert(weight_views(self.weights@).dom() =~= self.weights@.dom());
            }
            let value = match self.weights.get(spec.name.as_str()) {
                Some(value) => value,
                None => {
                    return Err(invalid("consolidated weight name missing"));
                },
            };
            assert(value@ == self@.weights[spec.name@]);
            if let Err(e) = value.validate(LARGEST_PAYLOAD) {
                return Err(e);
            }
            if !same_shape(value.shape.as_slice(), spec.shape.as_slice()) || value.dtype != spec.dtype {
                return Err(invalid("consolidated weight shape or dtype differs"));
            }
            i += 1;
        }
        Ok(())
    }

    /// Cuts out the record of a rank. `optimizer` is the part of the optimizer that the rank
    /// gets.
    pub fn shard<P>(&self, rank: usize, world: usize, optimizer: P) -> (r: Result<ShardedCheckpoint<P>>)
        requires
            self.weights.wf(),
        ensures
            refusal(r) == (match self@.refusal() {
                Some(e) => Some(e),
                None => if world == 0 || world > 1024 || rank >= world {
                    Some(refused("invalid target checkpoint rank/world"@))
                } else {
                    None
                },
            }),
            r matches Ok(s) ==> s.weights.wf() && s@.schema_version == 1 && s@.checkpoint_id == "consolidated"@ && s@.rank == rank
                && s@.world_size == world && s@.parameters == self@.parameters && s@.weights == parts_for(
                self@.weights,
                rank as int,
                world as int,
            ) && s.optimizer == optimizer,
    {
        if let Err(e) = self.validate() {
            return Err(e);
        }
        if world == 0 || world > 1024 || rank >= world {
            return Err(invalid("invalid target checkpoint rank/world"));
        }
        let ghost full = self@;
        let ghost parts = parts_for(full.weights, rank as int, world as int);
        proof {
            self.weights.length_is_count();
            assert(weight_views(self.weights@).dom() =~= self.weights@.dom());
            names_cover(full);
        }
        let mut weights: NameMap<Payload> = NameMap::new();
        let mut i: usize = 0;
        while i < self.parameters.len()
            invariant
                self.weights.wf(),
                full == self@,
                0 < world <= 1024,
                rank < world,
                parts == parts_for(full.weights, rank as int, world as int),
                full.weights.dom() == spec_names(full.parameters).to_set(),
                forall|k: int| 0 <= k < full.parameters.len() ==> (#[trigger] value_checks(full.parameters, full.weights)(k)) is None,
                forall|k: int| 0 <= k < full.parameters.len() ==> (#[trigger] spec_checks(full.parameters)(k)) is None,
                i <= self.parameters@.len(),
                weights.wf(),
                forall|name: Seq<char>| #[trigger]
                    weights@.dom().contains(name) <==> exists|k: int| 0 <= k < i && #[trigger] spec_names(full.parameters)[k] == name,
                forall|name: Seq<char>| #[trigger]
                    weights@.dom().contains(name) ==> full.weights.dom().contains(name) && weights@[name]@ == parts[name],
            decreases self.parameters@.len() - i,
        {
            let spec = &self.parameters[i];
            proof {
                assert(full.parameters[i as int] == spec@);
                assert(value_checks(full.parameters, full.weights)(i as int) is None);
                assert(spec_checks(full.parameters)(i as int) is None);
                assert(spec_refusal(spec@) is None);
                assert(weight_views(self.weights@).dom() =~= self.weights@.dom());
                assert(full.weights.dom().contains(spec.name@));
                assert(spec_names(full.parameters)[i as int] == spec.name@);
            }
            if let Some(value) = self.weights.get(spec.name.as_str()) {
                assert(value@ == full.weights[spec.name@]);
                let count: usize = match elements(spec.shape.as_slice()) {
                    Ok(count) => count,
                    Err(e) => {
                        return Err(e);
                    },
                };
                let chunk: usize = chunk_size(count, world);
                let width: usize = value.dtype.kind().bytes();
                proof {
                    chunks_cover(count as int, world as int);
                    assert(value.bytes.len() == value.bytes@.len());
                    assert(count * width == value.bytes@.len());
                    assert(chunk * width <= count * width) by (nonlinear_arith)
                        requires
                            chunk <= count,
                            0 <= width,
                    ;
                }
                let bytes = cut(&value.bytes, chunk * width, rank);
                let mut shape: Vec<i64> = Vec::new();
                shape.push(chunk as i64);
                assert(shape@ =~= seq![chunk as i64]);
                let part = Payload { shape, dtype: value.dtype, bytes };
                assert(part@ == part_for(value@, rank as int, world as int));
                assert(part@ == parts[spec.name@]);
                let ghost before = weights@;
                let _ = weights.insert(owned(spec.name.as_str()), part);
                assert forall|name: Seq<char>| #[trigger] weights@.dom().contains(name) implies exists|k: int|
                    0 <= k < i + 1 && #[trigger] spec_names(full.parameters)[k] == name by {
                    if name != spec.name@ {
                        assert(before.dom().contains(name));
                    }
                }
                assert forall|name: Seq<char>|
                    (exists|k: int| 0 <= k < i + 1 && #[trigger] spec_names(full.parameters)[k] == name) implies #[trigger] weights@.dom().contains(
                    name,
                ) by {
                    let k = choose|k: int| 0 <= k < i + 1 && #[trigger] spec_names(full.parameters)[k] == name;
                    if k < i {
                        assert(before.dom().contains(name));
                    }
                }
            }
            i += 1;
        }
        proof {
            let names = spec_names(full.parameters);
            assert forall|name: Seq<char>| full.weights.dom().contains(name) implies weights@.dom().contains(name) by {
                assert(names.to_set().contains(name));
                let k = names.index_of(name);
                assert(names[k] == name);
            }
            assert(weight_views(weights@).dom() =~= weights@.dom());
            assert(weight_views(weights@) =~= parts);
        }
        Ok(
            ShardedCheckpoint {
                schema_version: 1,
                checkpoint_id: owned("consolidated"),
                rank,
                world_size: world,
                parameters: copy_specs(&self.parameters),
                weights,
                optimizer,
            },
        )
    }
}

/// What the optimizer of a record keeps, where it keeps what the record holds.
pub open spec fn kept_for(shard: ShardView) -> Map<Seq<char>, TensorSpecView> {
    Map::new(
        |name: Seq<char>| shard.weights.dom().contains(name),
        |name: Seq<char>| TensorSpecView { shape: shard.weights[name].shape, kind: shard.weights[name].dtype.as_kind() },
    )
}

/// The records of all ranks, cut out of a whole in rank order.
pub open spec fn all_cut_out(full: ConsolidatedView, world: usize) -> Seq<ShardView> {
    Seq::new(world as nat, |r: int| cut_out(full, r as usize, world))
}

/// What the optimizers of those records keep.
pub open spec fn all_kept_for(full: ConsolidatedView, world: usize) -> Seq<Map<Seq<char>, TensorSpecView>> {
    Seq::new(world as nat, |r: int| kept_for(cut_out(full, r as usize, world)))
}

proof fn cut_out_holder(full: ConsolidatedView, world: usize, rank: int)
    requires
        0 <= rank < world,
    ensures
        holder(all_cut_out(full, world), rank) == rank,
{
    let shards = all_cut_out(full, world);
    assert(shards[rank].rank == rank);
    let h = holder(shards, rank);
    assert(0 <= h < shards.len() && shards[h].rank == rank);
    assert(shards[h].rank == h);
}

proof fn value_is_sized(full: ConsolidatedView, i: int)
    requires
        full.refusal() is None,
        0 <= i < full.parameters.len(),
    ensures
        ({
            let spec = full.parameters[i];
            let value = full.weights[spec.name];
            &&& full.weights.dom().contains(spec.name)
            &&& spec_refusal(spec) is None
            &&& value.shape == spec.shape
            &&& value.dtype == spec.dtype
            &&& counted(value.shape, value.shape.len() as int) == Some(elements_of(spec.shape)->Ok_0)
            &&& value.bytes.len() == whole_length(spec)
            &&& 0 < elements_of(spec.shape)->Ok_0 <= i64::MAX
            &&& whole_length(spec) <= LARGEST_PAYLOAD
        }),
{
    let n = full.parameters.len() as int;
    first_at_none(0, n, value_checks(full.parameters, full.weights));
    first_at_none(0, n, spec_checks(full.parameters));
    assert(value_checks(full.parameters, full.weights)(i) is None);
    assert(spec_checks(full.parameters)(i) is None);
    counted_in_range(full.parameters[i].shape, full.parameters[i].shape.len() as int);
}

proof fn cut_out_is_whole(full: ConsolidatedView, world: usize, i: int)
    requires
        full.refusal() is None,
        0 < world <= 1024,
        0 <= i < full.parameters.len(),
    ensures
        whole(all_cut_out(full, world), world as int, full.parameters[i]) == full.weights[full.parameters[i].name],
{
    let shards = all_cut_out(full, world);
    let spec = full.parameters[i];
    let value = full.weights[spec.name];
    let count = elements_of(spec.shape)->Ok_0;
    let size = part_length(spec, world as int);
    value_is_sized(full, i);
    chunks_cover(count, world as int);
    let chunk = chunk_of(count, world as int);
    let width = spec.dtype.size();
    assert(chunk * width > 0) by (nonlinear_arith)
        requires
            chunk > 0,
            width > 0,
    ;
    assert(chunk * width * world >= count * width) by (nonlinear_arith)
        requires
            chunk * world >= count,
            width > 0,
    ;
    parts_join_again(value.bytes, size, world as int);
    let parts = Seq::new(world as nat, |r: int| shard_of(value.bytes, size, r));
    assert forall|r: int| 0 <= r < world implies #[trigger] parts_of(shards, world as int, spec.name)[r] == parts[r] by {
        cut_out_holder(full, world, r);
        assert(shards[r].weights[spec.name] == part_for(value, r, world as int));
    }
    assert(parts_of(shards, world as int, spec.name) =~= parts);
}

proof fn wholes_are_named(full: ConsolidatedView, world: usize, n: int)
    requires
        full.refusal() is None,
        0 < world <= 1024,
        0 <= n <= full.parameters.len(),
    ensures
        ({
            let made = whole_weights(all_cut_out(full, world), world as int, full.parameters, n);
            &&& forall|name: Seq<char>| #[trigger]
                made.dom().contains(name) <==> exists|k: int| 0 <= k < n && #[trigger] spec_names(full.parameters)[k] == name
            &&& forall|name: Seq<char>| #[trigger] made.dom().contains(name) ==> made[name] == full.weights[name]
        }),
    decreases n,
{
    if n > 0 {
        wholes_are_named(full, world, n - 1);
        cut_out_is_whole(full, world, n - 1);
        let names = spec_names(full.parameters);
        let before = whole_weights(all_cut_out(full, world), world as int, full.parameters, n - 1);
        let made = whole_weights(all_cut_out(full, world), world as int, full.parameters, n);
        assert(names[n - 1] == full.parameters[n - 1].name);
        assert forall|name: Seq<char>| #[trigger] made.dom().contains(name) implies exists|k: int|
            0 <= k < n && #[trigger] names[k] == name by {
            if name != names[n - 1] {
                assert(before.dom().contains(name));
            }
        }
        assert forall|name: Seq<char>| (exists|k: int| 0 <= k < n && #[trigger] names[k] == name) implies #[trigger] made.dom().contains(
            name,
        ) by {
            let k = choose|k: int| 0 <= k < n && #[trigger] names[k] == name;
            if k < n - 1 {
                assert(before.dom().contains(name));
            }
        }
    }
}

/// A whole that is cut into records for any number of ranks and put together again is the same
/// whole: the records are accepted, and they make up exactly the parameters that were cut.
pub proof fn resharding_restores_the_whole(full: ConsolidatedView, world: usize)
    requires
        full.refusal() is None,
        full.weights.dom().finite(),
        0 < world <= 1024,
    ensures
        set_refusal(all_cut_out(full, world), all_kept_for(full, world)) is None,
        all_cut_out(full, world)[0].parameters == full.parameters,
        whole_weights(all_cut_out(full, world), world as int, full.parameters, full.parameters.len() as int) == full.weights,
{
    let shards = all_cut_out(full, world);
    let kept = all_kept_for(full, world);
    let names = spec_names(full.parameters);
    let n = full.parameters.len() as int;
    names_cover(full);
    wholes_are_named(full, world, n);
    let made = whole_weights(shards, world as int, full.parameters, n);
    assert forall|name: Seq<char>| full.weights.dom().contains(name) implies made.dom().contains(name) by {
        assert(names.to_set().contains(name));
        let k = names.index_of(name);
        assert(names[k] == name);
    }
    assert forall|name: Seq<char>| made.dom().contains(name) implies full.weights.dom().contains(name) by {
        let k = choose|k: int| 0 <= k < n && #[trigger] names[k] == name;
        assert(names.contains(name));
    }
    assert(made =~= full.weights);
    assert forall|r: int| 0 <= r < world implies (#[trigger] shard_checks(shards, kept)(r)) is None by {
        cut_out_is_accepted(full, r as usize, world);
        assert(shards[r] == cut_out(full, r as usize, world));
        assert(kept[r] == kept_for(shards[r]));
        assert(!is_foreign(shards, r));
    }
    first_at_none(0, world as int, shard_checks(shards, kept));
    assert forall|i: int| 0 <= i < n implies (#[trigger] length_checks(full.parameters)(i)) is None by {
        value_is_sized(full, i);
    }
    first_at_none(0, n, length_checks(full.parameters));
}

proof fn cut_out_is_accepted(full: ConsolidatedView, rank: usize, world: usize)
    requires
        full.refusal() is None,
        full.weights.dom().finite(),
        rank < world <= 1024,
    ensures
        cut_out(full, rank, world).refusal(kept_for(cut_out(full, rank, world))) is None,
{
    let shard = cut_out(full, rank, world);
    let kept = kept_for(shard);
    let n = full.parameters.len() as int;
    reveal_strlit("consolidated");
    vstd::utf8::is_ascii_chars_encode_utf8("consolidated"@);
    assert(shard.weights.dom() =~= full.weights.dom());
    assert(kept.dom() =~= full.weights.dom());
    let checks = part_checks(shard.parameters, world as int, shard.weights, kept);
    assert forall|i: int| 0 <= i < n implies (#[trigger] checks(i)) is None by {
        value_is_sized(full, i);
        let spec = full.parameters[i];
        let value = full.weights[spec.name];
        let count = elements_of(spec.shape)->Ok_0;
        let chunk = chunk_of(count, world as int);
        let width = spec.dtype.size();
        chunks_cover(count, world as int);
        counted_in_range(spec.shape, spec.shape.len() as int);
        let part = shard.weights[spec.name];
        assert(part == part_for(value, rank as int, world as int));
        assert(chunk * width <= count * width) by (nonlinear_arith)
            requires
                chunk <= count,
                0 < width,
        ;
        assert(0 <= chunk * width) by (nonlinear_arith)
            requires
                0 <= chunk,
                0 < width,
        ;
        assert(part.shape.len() == 1 && part.shape[0] == chunk);
        assert(counted(part.shape, 0) == Some(1int));
        assert(1 * part.shape[0] == chunk);
        assert(counted(part.shape, 1) == Some(chunk));
        assert(part.bytes.len() == chunk * width);
        assert(part.refusal(LARGEST_PAYLOAD) is None);
    }
    first_at_none(0, n, checks);
}

} // verus!
