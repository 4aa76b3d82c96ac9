//! What has to hold of a trainer whose parameters are divided among ranks.
use super::replica::{GroupIdentity, IdentityView};
use super::shard::{
    chunk_of, chunk_size, elements, elements_of, name_refusal, spec_checks, spec_refusal, spec_views, specs_refusal, valid_name,
    validate_specs, ParameterSpec, SpecView,
};
use super::{invalid, refused};
use crate::error::{first_at, first_at_none, refusal, ErrorView, Result};
use crate::kind::Kind;
use crate::names::NameMap;
use crate::text::owned;
use vstd::prelude::*;

verus! {

/// The part of a parameter that a rank stores now.
#[derive(Debug, PartialEq, Eq)]
pub struct LocalPart {
    /// Whether it is stored where the processor reads it.
    pub on_cpu: bool,
    /// The element type.
    pub kind: Kind,
    /// The size of each dimension.
    pub shape: Vec<i64>,
    /// Whether it is trained.
    pub requires_grad: bool,
}

/// The content of a [`LocalPart`].
pub struct LocalView {
    pub on_cpu: bool,
    pub kind: Kind,
    pub shape: Seq<i64>,
    pub requires_grad: bool,
}

impl View for LocalPart {
    type V = LocalView;

    open spec fn view(&self) -> LocalView {
        LocalView { on_cpu: self.on_cpu, kind: self.kind, shape: self.shape@, requires_grad: self.requires_grad }
    }
}

/// The contents of local parts.
pub open spec fn local_views(map: Map<Seq<char>, LocalPart>) -> Map<Seq<char>, LocalView> {
    map.map_values(|t: LocalPart| t@)
}

/// Why a rank no longer stores the part that it should, if it does not.
pub open spec fn local_refusal(spec: SpecView, world: int, local: Map<Seq<char>, LocalView>) -> Option<ErrorView> {
    if !local.dom().contains(spec.name) {
        Some(refused("sharded parameter name changed"@))
    } else if !local[spec.name].on_cpu || local[spec.name].kind != spec.dtype.as_kind() || local[spec.name].shape != seq![
        chunk_of(elements_of(spec.shape)->Ok_0, world) as i64,
    ] || !local[spec.name].requires_grad {
        Some(refused("local parameter shard shape, dtype, device or training flags changed"@))
    } else {
        None
    }
}

/// The checks of local parts.
pub open spec fn local_checks(parameters: Seq<SpecView>, world: int, local: Map<Seq<char>, LocalView>) -> spec_fn(int) -> Option<
    ErrorView,
> {
    |i: int| local_refusal(parameters[i], world, local)
}

/// The elements that a rank stores of the first `n` parameters.
pub open spec fn stored_elements(parameters: Seq<SpecView>, world: int, n: int) -> int
    decreases n,
{
    if n <= 0 {
        0
    } else {
        stored_elements(parameters, world, n - 1) + chunk_of(elements_of(parameters[n - 1].shape)->Ok_0, world)
    }
}

/// A trainer of divided parameters, as one rank sees it.
#[derive(Debug)]
pub struct ShardedTrainer {
    identity: GroupIdentity,
    parameters: Vec<ParameterSpec>,
}

/// Why a name among those before it is refused, if it is.
pub open spec fn entry_refusal(names: Seq<Seq<char>>, i: int) -> Option<ErrorView> {
    match name_refusal(names[i]) {
        Some(e) => Some(e),
        None => if exists|j: int| 0 <= j < i && #[trigger] names[j] == names[i] {
            Some(refused("duplicate sharded parameter name"@))
        } else {
            None
        },
    }
}

/// The checks of names.
pub open spec fn entry_checks(names: Seq<Seq<char>>) -> spec_fn(int) -> Option<ErrorView> {
    |i: int| entry_refusal(names, i)
}

/// Checks the names of initial parameters: each has to be valid and to occur once. Gives them
/// in order, each with its place in the list.
pub fn order_names(names: &Vec<String>) -> (r: Result<NameMap<usize>>)
    ensures
        refusal(r) == first_at(0, names@.len() as int, entry_checks(crate::error::texts(names@))),
        r matches Ok(map) ==> map.wf() && forall|i: int|
            0 <= i < names@.len() ==> map@.dom().contains((#[trigger] names@[i])@) && map@[names@[i]@] == i,
        r matches Ok(map) ==> forall|name: Seq<char>| #[trigger]
            map@.dom().contains(name) ==> crate::error::texts(names@).contains(name),
{
    let ghost list = crate::error::texts(names@);
    let ghost check = entry_checks(list);
    let ghost n = names@.len() as int;
    let mut map: NameMap<usize> = NameMap::new();
    let mut i: usize = 0;
    while i < names.len()
        invariant
            list == crate::error::texts(names@),
            check == entry_checks(list),
            n == names@.len(),
            i <= n,
            map.wf(),
            forall|k: int| 0 <= k < i ==> map@.dom().contains((#[trigger] names@[k])@) && map@[names@[k]@] == k,
            forall|name: Seq<char>| #[trigger] map@.dom().contains(name) ==> exists|k: int| 0 <= k < i && #[trigger] list[k] == name,
            first_at(0, n, check) == first_at(i as int, n, check),
        decreases n - i,
    {
        assert(list[i as int] == names@[i as int]@);
        assert(check(i as int) == entry_refusal(list, i as int));
        if let Err(e) = valid_name(names[i].as_str()) {
            return Err(e);
        }
        if map.contains(names[i].as_str()) {
            return Err(invalid("duplicate sharded parameter name"));
        }
        proof {
            if exists|j: int| 0 <= j < i && #[trigger] list[j] == list[i as int] {
                let j = choose|j: int| 0 <= j < i && #[trigger] list[j] == list[i as int];
                assert(map@.dom().contains(names@[j]@));
            }
        }
        let ghost before = map@;
        let _ = map.insert(owned(names[i].as_str()), i);
        proof {
            assert forall|name: Seq<char>| #[trigger] map@.dom().contains(name) implies exists|k: int|
                0 <= k < i + 1 && #[trigger] list[k] == name by {
                if name == list[i as int] {
                    assert(list[i as int] == name);
                } else {
                    assert(before.dom().contains(name));
                }
            }
        }
        i += 1;
    }
    proof {
        assert forall|name: Seq<char>| #[trigger] map@.dom().contains(name) implies list.contains(name) by {
            let k = choose|k: int| 0 <= k < n && #[trigger] list[k] == name;
            assert(list[k] == name);
        }
    }
    Ok(map)
}

impl ShardedTrainer {
    /// The place in the group.
    pub closed spec fn place(self) -> IdentityView {
        self.identity@
    }

    /// The whole parameters.
    pub closed spec fn specs(self) -> Seq<SpecView> {
        spec_views(self.parameters@)
    }

    /// The parameters are valid, and there is a rank to hold them.
    pub open spec fn wf(self) -> bool {
        specs_refusal(self.specs()) is None && self.place().world > 0
    }

    /// A trainer of whole parameters, which come in name order.
    pub fn new(identity: GroupIdentity, parameters: Vec<ParameterSpec>) -> (r: Result<Self>)
        requires
            identity@.world > 0,
        ensures
            refusal(r) == specs_refusal(spec_views(parameters@)),
            r matches Ok(t) ==> t.wf() && t.place() == identity@ && t.specs() == spec_views(parameters@),
    {
        if let Err(e) = validate_specs(&parameters) {
            return Err(e);
        }
        Ok(ShardedTrainer { identity, parameters })
    }

    /// The place in the group.
    pub fn identity(&self) -> (r: &GroupIdentity)
        ensures
            r@ == self.place(),
    {
        &self.identity
    }

    /// The whole parameters.
    pub fn parameters(&self) -> (r: &Vec<ParameterSpec>)
        ensures
            spec_views(r@) == self.specs(),
    {
        &self.parameters
    }

    /// Checks that the rank still stores its part of every parameter.
    pub fn check_local(&self, local: &NameMap<LocalPart>) -> (r: Result<()>)
        requires
            self.wf(),
            local.wf(),
        ensures
            refusal(r) == (if local@.dom().len() != self.specs().len() {
                Some(refused("sharded parameter registration changed"@))
            } else {
                first_at(
                    0,
                    self.specs().len() as int,
                    local_checks(self.specs(), self.place().world as int, local_views(local@)),
                )
            }),
    {
        proof {
            local.length_is_count();
        }
        if local.len() != self.parameters.len() {
            return Err(invalid("sharded parameter registration changed"));
        }
        let world: usize = self.identity.world;
        let ghost views = self.specs();
        let ghost check = local_checks(views, world as int, local_views(local@));
        let ghost n = views.len() as int;
        proof {
            first_at_none(0, n, spec_checks(views));
        }
        let mut i: usize = 0;
        while i < self.parameters.len()
            invariant
                world > 0,
                world == self.place().world,
                local.wf(),
                local@.dom().len() == n,
                views == self.specs(),
                check == local_checks(views, world as int, local_views(local@)),
                n == self.parameters@.len(),
                forall|k: int| 0 <= k < n ==> (#[trigger] spec_checks(views)(k)) is None,
                i <= n,
                first_at(0, n, check) == first_at(i as int, n, check),
            decreases n - i,
        {
            let spec = &self.parameters[i];
            proof {
                assert(views[i as int] == spec@);
                assert(spec_checks(views)(i as int) is None);
                assert(spec_refusal(spec@) is None);
                assert(check(i as int) == local_refusal(spec@, world as int, local_views(local@)));
                assert(local_views(local@).dom() =~= local@.dom());
            }
            let part = match local.get(spec.name.as_str()) {
                Some(part) => part,
                None => {
                    return Err(invalid("sharded parameter name changed"));
                },
            };
            assert(part@ == local_views(local@)[spec.name@]);
            let count: usize = match elements(spec.shape.as_slice()) {
                Ok(count) => count,
                Err(e) => {
                    return Err(e);
                },
            };
            let chunk: usize = chunk_size(count, world);
            proof {
                super::shard::chunks_cover(count as int, world as int);
                if part.shape@.len() == 1 && part.shape@[0] == chunk as i64 {
                    assert(part.shape@ =~= seq![chunk as i64]);
                }
            }
            if !part.on_cpu || part.kind != spec.dtype.kind() || part.shape.len() != 1 || part.shape[0] != chunk as i64
                || !part.requires_grad {
                return Err(invalid("local parameter shard shape, dtype, device or training flags changed"));
            }
            i += 1;
        }
        Ok(())
    }

    /// Checks that an optimizer holds exactly the parts that the rank stores. `attached` names
    /// what it holds and tells of each whether it is the stored tensor.
    pub fn check_optimizer(attached: &NameMap<bool>, local: &NameMap<LocalPart>) -> (r: Result<()>)
        requires
            attached.wf(),
            local.wf(),
        ensures
            refusal(r) == (if attached@.dom().len() != local@.dom().len() {
                Some(refused("sharded optimizer is attached to another parameter store"@))
            } else {
                first_at(0, attached.listing().len() as int, attached_checks(attached.listing(), attached.items(), local@))
            }),
    {
        proof {
            attached.length_is_count();
            local.length_is_count();
        }
        if attached.len() != local.len() {
            return Err(invalid("sharded optimizer is attached to another parameter store"));
        }
        let ghost check = attached_checks(attached.listing(), attached.items(), local@);
        let ghost n = attached.listing().len() as int;
        let mut i: usize = 0;
        while i < attached.len()
            invariant
                attached.wf(),
                local.wf(),
                attached@.dom().len() == local@.dom().len(),
                check == attached_checks(attached.listing(), attached.items(), local@),
                n == attached.listing().len(),
                i <= n,
                first_at(0, n, check) == first_at(i as int, n, check),
            decreases n - i,
        {
            let name = attached.name(i);
            assert(name@ == attached.listing()[i as int]);
            assert(check(i as int) == attached_refusal(name@, attached.items()[i as int], local@));
            if !local.contains(name.as_str()) {
                return Err(invalid("sharded optimizer parameter name differs"));
            }
            if !*attached.item(i) {
                return Err(invalid("sharded optimizer parameter identity differs"));
            }
            i += 1;
        }
        Ok(())
    }

    /// The number of elements that the rank stores, padding counted. `None` if there are more
    /// than can be counted.
    pub fn local_parameter_elements(&self) -> (r: Option<usize>)
        requires
            self.wf(),
        ensures
            match r {
                Some(total) => total == stored_elements(self.specs(), self.place().world as int, self.specs().len() as int),
                None => stored_elements(self.specs(), self.place().world as int, self.specs().len() as int) > usize::MAX,
            },
    {
        let world: usize = self.identity.world;
        let ghost views = self.specs();
        let ghost n = views.len() as int;
        proof {
            first_at_none(0, n, spec_checks(views));
        }
        let mut total: usize = 0;
        let mut i: usize = 0;
        while i < self.parameters.len()
            invariant
                world > 0,
                world == self.place().world,
                views == self.specs(),
                n == self.parameters@.len(),
                forall|k: int| 0 <= k < n ==> (#[trigger] spec_checks(views)(k)) is None,
                i <= n,
                total == stored_elements(views, world as int, i as int),
            decreases n - i,
        {
            let spec = &self.parameters[i];
            proof {
                assert(views[i as int] == spec@);
                assert(spec_checks(views)(i as int) is None);
                assert(spec_refusal(spec@) is None);
            }
            let count: usize = match elements(spec.shape.as_slice()) {
                Ok(count) => count,
                Err(_) => 0,
            };
            let chunk: usize = chunk_size(count, world);
            proof {
                stored_grows(views, world as int, i + 1, n);
            }
            total = match total.checked_add(chunk) {
                Some(total) => total,
                None => {
                    return None;
                },
            };
            i += 1;
        }
        Some(total)
    }

    /// Checks that a record belongs to the place in the group.
    pub fn check_place(rank: usize, world: usize, group_rank: usize, group_world: usize) -> (r: Result<()>)
        ensures
            refusal(r) == (if rank == group_rank && world == group_world {
                None
            } else {
                Some(refused("checkpoint rank/world differs from process group"@))
            }),
    {
        if rank == group_rank && world == group_world {
            Ok(())
        } else {
            Err(invalid("checkpoint rank/world differs from process group"))
        }
    }
}

proof fn stored_grows(parameters: Seq<SpecView>, world: int, a: int, b: int)
    requires
        0 < world,
        0 <= a <= b <= parameters.len(),
        forall|k: int| 0 <= k < parameters.len() ==> (#[trigger] spec_checks(parameters)(k)) is None,
    ensures
        stored_elements(parameters, world, a) <= stored_elements(parameters, world, b),
    decreases b,
{
    if a < b {
        stored_grows(parameters, world, a, b - 1);
        assert(spec_checks(parameters)(b - 1) is None);
        let shape = parameters[b - 1].shape;
        super::record::counted_in_range(shape, shape.len() as int);
        super::shard::chunks_cover(elements_of(shape)->Ok_0, world);
    }
}

/// Why something that an optimizer holds is refused, if it is.
pub open spec fn attached_refusal(name: Seq<char>, identical: bool, local: Map<Seq<char>, LocalPart>) -> Option<ErrorView> {
    if !local.dom().contains(name) {
        Some(refused("sharded optimizer parameter name differs"@))
    } else if !identical {
        Some(refused("sharded optimizer parameter identity differs"@))
    } else {
        None
    }
}

/// The checks of what an optimizer holds.
pub open spec fn attached_checks(names: Seq<Seq<char>>, identical: Seq<bool>, local: Map<Seq<char>, LocalPart>) -> spec_fn(int) -> Option<
    ErrorView,
> {
    |i: int| attached_refusal(names[i], identical[i], local)
}

} // verus!
