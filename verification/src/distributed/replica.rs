//! What has to hold of a replicated model each time that its replicas are synchronized.
use super::{invalid, refused};
use crate::error::{first_at, refusal, texts, ErrorView, Result};
use crate::kind::Kind;
use crate::names::NameMap;
use crate::tensor::same_shape;
use crate::text::{owned, same};
use vstd::prelude::*;

verus! {

/// Which place in which group something belongs to.
#[derive(Debug, PartialEq, Eq)]
pub struct GroupIdentity {
    /// The rank.
    pub rank: usize,
    /// The number of ranks.
    pub world: usize,
    /// The name of the run.
    pub session: String,
}

/// The content of a [`GroupIdentity`].
pub struct IdentityView {
    pub rank: usize,
    pub world: usize,
    pub session: Seq<char>,
}

impl View for GroupIdentity {
    type V = IdentityView;

    open spec fn view(&self) -> IdentityView {
        IdentityView { rank: self.rank, world: self.world, session: self.session@ }
    }
}

impl GroupIdentity {
    /// The identity of a place in a group.
    pub fn new(rank: usize, world: usize, session: &str) -> (r: Self)
        ensures
            r@ == (IdentityView { rank, world, session: session@ }),
    {
        GroupIdentity { rank, world, session: owned(session) }
    }

    /// Checks that another identity is the same.
    pub fn check(&self, other: &GroupIdentity) -> (r: Result<()>)
        ensures
            refusal(r) == (if self@ == other@ {
                None
            } else {
                Some(refused("trainer belongs to another process group"@))
            }),
    {
        if self.rank == other.rank && self.world == other.world && same(self.session.as_str(), other.session.as_str()) {
            Ok(())
        } else {
            Err(invalid("trainer belongs to another process group"))
        }
    }
}

/// What is fixed of a registered tensor.
#[derive(Debug, PartialEq, Eq)]
pub struct Registered {
    /// The size of each dimension.
    pub shape: Vec<i64>,
    /// The element type.
    pub kind: Kind,
    /// Whether it is trained.
    pub requires_grad: bool,
}

/// The content of a [`Registered`] tensor.
pub struct RegisteredView {
    pub shape: Seq<i64>,
    pub kind: Kind,
    pub requires_grad: bool,
}

impl View for Registered {
    type V = RegisteredView;

    open spec fn view(&self) -> RegisteredView {
        RegisteredView { shape: self.shape@, kind: self.kind, requires_grad: self.requires_grad }
    }
}

/// What is read of a tensor that is registered now.
#[derive(Debug, PartialEq, Eq)]
pub struct Current {
    /// Its shape, element type and training flag.
    pub registered: Registered,
    /// Whether it is stored where the processor reads it.
    pub on_cpu: bool,
    /// Whether it is the tensor that was registered first.
    pub identical: bool,
}

/// The content of a [`Current`] tensor.
pub struct CurrentView {
    pub registered: RegisteredView,
    pub on_cpu: bool,
    pub identical: bool,
}

impl View for Current {
    type V = CurrentView;

    open spec fn view(&self) -> CurrentView {
        CurrentView { registered: self.registered@, on_cpu: self.on_cpu, identical: self.identical }
    }
}

/// The contents of registered tensors.
pub open spec fn registered_views(map: Map<Seq<char>, Registered>) -> Map<Seq<char>, RegisteredView> {
    map.map_values(|t: Registered| t@)
}

/// The contents of tensors that are registered now.
pub open spec fn current_views(map: Map<Seq<char>, Current>) -> Map<Seq<char>, CurrentView> {
    map.map_values(|t: Current| t@)
}

/// Why a tensor is no longer what was registered, if it is not.
pub open spec fn change_refusal(
    name: Seq<char>,
    specifications: Map<Seq<char>, RegisteredView>,
    current: Map<Seq<char>, CurrentView>,
) -> Option<ErrorView> {
    if !current.dom().contains(name) {
        Some(refused("replicated model parameter was removed"@))
    } else if !current[name].on_cpu || !current[name].identical || current[name].registered != specifications[name] {
        Some(refused("replicated model shape, dtype, identity or training flags changed"@))
    } else {
        None
    }
}

/// The checks of registered tensors, in the order of names.
pub open spec fn change_checks(
    names: Seq<Seq<char>>,
    specifications: Map<Seq<char>, RegisteredView>,
    current: Map<Seq<char>, CurrentView>,
) -> spec_fn(int) -> Option<ErrorView> {
    |i: int| change_refusal(names[i], specifications, current)
}

/// The first `n` names of tensors that are trained, or of those that are not.
pub open spec fn selected(names: Seq<Seq<char>>, items: Seq<Registered>, trained: bool, n: int) -> Seq<Seq<char>>
    decreases n,
{
    if n <= 0 {
        Seq::empty()
    } else if items[n - 1].requires_grad == trained {
        selected(names, items, trained, n - 1).push(names[n - 1])
    } else {
        selected(names, items, trained, n - 1)
    }
}

/// A replicated model: what was registered when the replicas were made.
#[derive(Debug)]
pub struct DistributedDataParallel {
    identity: GroupIdentity,
    specifications: NameMap<Registered>,
    parameters: Vec<String>,
    buffers: Vec<String>,
}

impl DistributedDataParallel {
    /// The place in the group.
    pub closed spec fn place(self) -> IdentityView {
        self.identity@
    }

    /// What was registered.
    pub closed spec fn registered(self) -> Map<Seq<char>, RegisteredView> {
        registered_views(self.specifications@)
    }

    /// The names of the parameters.
    pub closed spec fn parameter_names(self) -> Seq<Seq<char>> {
        texts(self.parameters@)
    }

    /// The names of the buffers.
    pub closed spec fn buffer_names(self) -> Seq<Seq<char>> {
        texts(self.buffers@)
    }

    /// Every name belongs to something registered.
    pub closed spec fn wf(self) -> bool {
        &&& self.specifications.wf()
        &&& forall|i: int|
            0 <= i < self.parameters@.len() ==> self.specifications@.dom().contains((#[trigger] self.parameters@[i])@)
        &&& forall|i: int| 0 <= i < self.buffers@.len() ==> self.specifications@.dom().contains((#[trigger] self.buffers@[i])@)
    }

    /// Fixes what is registered. Trained tensors are parameters, the others buffers, both in
    /// name order.
    pub fn new(identity: GroupIdentity, specifications: NameMap<Registered>) -> (r: Self)
        requires
            specifications.wf(),
        ensures
            r.wf(),
            r.place() == identity@,
            r.registered() == registered_views(specifications@),
            r.parameter_names() == selected(
                specifications.listing(),
                specifications.items(),
                true,
                specifications.listing().len() as int,
            ),
            r.buffer_names() == selected(
                specifications.listing(),
                specifications.items(),
                false,
                specifications.listing().len() as int,
            ),
    {
        let ghost names = specifications.listing();
        let ghost items = specifications.items();
        let mut parameters: Vec<String> = Vec::new();
        let mut buffers: Vec<String> = Vec::new();
        assert(texts(parameters@) =~= Seq::empty());
        assert(texts(buffers@) =~= Seq::empty());
        let mut i: usize = 0;
        while i < specifications.len()
            invariant
                specifications.wf(),
                names == specifications.listing(),
                items == specifications.items(),
                i <= names.len(),
                texts(parameters@) == selected(names, items, true, i as int),
                texts(buffers@) == selected(names, items, false, i as int),
                forall|k: int| 0 <= k < parameters@.len() ==> specifications@.dom().contains((#[trigger] parameters@[k])@),
                forall|k: int| 0 <= k < buffers@.len() ==> specifications@.dom().contains((#[trigger] buffers@[k])@),
            decreases names.len() - i,
        {
            proof {
                specifications.entry_in_map(i as int);
            }
            let name = owned(specifications.name(i).as_str());
            let ghost text = name@;
            if specifications.item(i).requires_grad {
                let ghost before = parameters@;
                parameters.push(name);
                assert(texts(parameters@) =~= texts(before).push(text));
            } else {
                let ghost before = buffers@;
                buffers.push(name);
                assert(texts(buffers@) =~= texts(before).push(text));
            }
            i += 1;
        }
        DistributedDataParallel { identity, specifications, parameters, buffers }
    }

    fn check_names(&self, names: &Vec<String>, current: &NameMap<Current>) -> (r: Result<()>)
        requires
            self.specifications.wf(),
            current.wf(),
            forall|i: int| 0 <= i < names@.len() ==> self.specifications@.dom().contains((#[trigger] names@[i])@),
        ensures
            refusal(r) == first_at(
                0,
                names@.len() as int,
                change_checks(texts(names@), self.registered(), current_views(current@)),
            ),
    {
        let ghost list = texts(names@);
        let ghost check = change_checks(list, self.registered(), current_views(current@));
        let ghost n = names@.len() as int;
        let mut i: usize = 0;
        while i < names.len()
            invariant
                self.specifications.wf(),
                current.wf(),
                forall|k: int| 0 <= k < names@.len() ==> self.specifications@.dom().contains((#[trigger] names@[k])@),
                list == texts(names@),
                check == change_checks(list, self.registered(), current_views(current@)),
                n == names@.len(),
                i <= n,
                first_at(0, n, check) == first_at(i as int, n, check),
            decreases n - i,
        {
            let name = names[i].as_str();
            proof {
                assert(list[i as int] == name@);
                assert(check(i as int) == change_refusal(name@, self.registered(), current_views(current@)));
                assert(current_views(current@).dom() =~= current@.dom());
                assert(self.registered().dom() =~= self.specifications@.dom());
            }
            let now = match current.get(name) {
                Some(now) => now,
                None => {
                    return Err(invalid("replicated model parameter was removed"));
                },
            };
            assert(now@ == current_views(current@)[name@]);
            let kept = match self.specifications.get(name) {
                Some(first) => {
                    assert(first@ == self.registered()[name@]);
                    same_shape(now.registered.shape.as_slice(), first.shape.as_slice()) && now.registered.kind == first.kind
                        && now.registered.requires_grad == first.requires_grad
                },
                None => false,
            };
            if !now.on_cpu || !now.identical || !kept {
                return Err(invalid("replicated model shape, dtype, identity or training flags changed"));
            }
            i += 1;
        }
        Ok(())
    }

    /// Checks that nothing registered has changed: parameters first, then buffers.
    pub fn validate(&self, current: &NameMap<Current>) -> (r: Result<()>)
        requires
            self.wf(),
            current.wf(),
        ensures
            refusal(r) == (if current@.dom().len() != self.registered().dom().len() {
                Some(refused("replicated model registration changed"@))
            } else {
                match first_at(
                    0,
                    self.parameter_names().len() as int,
                    change_checks(self.parameter_names(), self.registered(), current_views(current@)),
                ) {
                    Some(e) => Some(e),
                    None => first_at(
                        0,
                        self.buffer_names().len() as int,
                        change_checks(self.buffer_names(), self.registered(), current_views(current@)),
                    ),
                }
            }),
    {
        proof {
            current.length_is_count();
            self.specifications.length_is_count();
            assert(self.registered().dom() =~= self.specifications@.dom());
        }
        if current.len() != self.specifications.len() {
            return Err(invalid("replicated model registration changed"));
        }
        if let Err(e) = self.check_names(&self.parameters, current) {
            return Err(e);
        }
        self.check_names(&self.buffers, current)
    }

    /// The names of the parameters.
    pub fn parameters(&self) -> (r: &Vec<String>)
        ensures
            texts(r@) == self.parameter_names(),
    {
        &self.parameters
    }

    /// The names of the buffers.
    pub fn buffers(&self) -> (r: &Vec<String>)
        ensures
            texts(r@) == self.buffer_names(),
    {
        &self.buffers
    }

    /// The place in the group.
    pub fn identity(&self) -> (r: &GroupIdentity)
        ensures
            r@ == self.place(),
    {
        &self.identity
    }

    /// Checks a gradient against its parameter.
    pub fn check_gradient(shape: &[i64], kind: Kind, parameter_shape: &[i64], parameter_kind: Kind) -> (r: Result<()>)
        ensures
            refusal(r) == (if shape@ != parameter_shape@ || kind != parameter_kind {
                Some(refused("gradient differs from parameter shape or dtype"@))
            } else {
                None
            }),
    {
        if !same_shape(shape, parameter_shape) || kind != parameter_kind {
            return Err(invalid("gradient differs from parameter shape or dtype"));
        }
        Ok(())
    }

    /// Checks that an optimizer holds exactly the parameters. `attached` names what it holds in
    /// name order, and `identical` tells of each whether it is the tensor of the parameter at
    /// that place.
    pub fn check_optimizer(&self, attached: &Vec<String>, identical: &Vec<bool>) -> (r: Result<()>)
        requires
            identical@.len() == attached@.len(),
        ensures
            refusal(r) == (if attached@.len() != self.parameter_names().len() {
                Some(refused("DDP optimizer parameter count differs"@))
            } else if exists|i: int| 0 <= i < attached@.len() && (#[trigger] texts(attached@)[i] != self.parameter_names()[i]
                || !identical@[i]) {
                Some(refused("DDP optimizer is attached to a different model"@))
            } else {
                None
            }),
    {
        if attached.len() != self.parameters.len() {
            return Err(invalid("DDP optimizer parameter count differs"));
        }
        let ghost list = texts(attached@);
        let ghost names = self.parameter_names();
        let mut i: usize = 0;
        while i < attached.len()
            invariant
                list == texts(attached@),
                names == self.parameter_names(),
                identical@.len() == attached@.len(),
                attached@.len() == self.parameters@.len(),
                i <= attached@.len(),
                forall|k: int| 0 <= k < i ==> #[trigger] identical@[k],
                forall|k: int| 0 <= k < i ==> #[trigger] list[k] == names[k],
            decreases attached@.len() - i,
        {
            assert(list[i as int] == attached@[i as int]@);
            assert(names[i as int] == self.parameters@[i as int]@);
            if !same(attached[i].as_str(), self.parameters[i].as_str()) || !identical[i] {
                return Err(invalid("DDP optimizer is attached to a different model"));
            }
            i += 1;
        }
        Ok(())
    }
}

/// What is registered splits into parameters and buffers: every name is one or the other, and
/// the first `n` names make up as many of both together.
pub proof fn registration_is_divided(names: Seq<Seq<char>>, items: Seq<Registered>, n: int)
    requires
        0 <= n <= names.len(),
        items.len() == names.len(),
    ensures
        selected(names, items, true, n).len() + selected(names, items, false, n).len() == n,
        forall|i: int|
            0 <= i < n ==> selected(names, items, items[i].requires_grad, n).contains(#[trigger] names[i]),
    decreases n,
{
    if n > 0 {
        registration_is_divided(names, items, n - 1);
        assert forall|i: int| 0 <= i < n implies selected(names, items, items[i].requires_grad, n).contains(#[trigger] names[i]) by {
            let flag = items[i].requires_grad;
            let before = selected(names, items, flag, n - 1);
            let after = selected(names, items, flag, n);
            if i < n - 1 {
                let k = before.index_of(names[i]);
                assert(before.contains(names[i]));
                assert(after[k] == names[i]);
            } else {
                assert(after[after.len() - 1] == names[i]);
            }
        }
    }
}

} // verus!
