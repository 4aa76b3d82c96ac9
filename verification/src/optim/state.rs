//! The state of an optimizer between steps.
use super::{decay_refusal, non_negative_refusal, validate_beta, validate_non_negative, Settings};
use crate::error::{either, first_at, refusal, setting_error, setting_text, texts, ErrorView, Result, RustTorchError};
use crate::float::{in_unit_interval, is_fraction, Binary64};
use crate::kind::Kind;
use crate::names::{ascending, ascending_is_unique, listing_in, NameMap};
use crate::tensor::{copy_shape, counted, element_count, MetaView, same_shape, TensorMeta};
use crate::text::same;
use vstd::prelude::*;

verus! {

/// The version of saved optimizer state.
pub const SCHEMA: u32 = 1;

/// An optimization rule with its settings.
#[derive(Debug, Clone, Copy, PartialEq, Eq, Structural)]
#[allow(inconsistent_fields)]
pub enum Algorithm {
    /// Adaptive moments.
    Adam { beta1: Binary64, beta2: Binary64, eps: Binary64, amsgrad: bool, decoupled: bool },
    /// Gradient descent.
    Sgd { momentum: Binary64, dampening: Binary64, nesterov: bool },
    /// Scaling by squared gradients.
    RmsProp { alpha: Binary64, eps: Binary64, momentum: Binary64, centered: bool },
    /// Scaling by accumulated squared gradients.
    Adagrad { lr_decay: Binary64, initial_accumulator: Binary64, eps: Binary64 },
    /// Scaling by accumulated updates.
    Adadelta { rho: Binary64, eps: Binary64 },
    /// Adaptive moments with the infinity norm.
    Adamax { beta1: Binary64, beta2: Binary64, eps: Binary64 },
}

/// An invalid state of an optimizer.
pub open spec fn state_text(reason: Seq<char>) -> ErrorView {
    setting_text("optimizer state"@, reason)
}

pub(crate) fn invalid(reason: &str) -> (r: RustTorchError)
    ensures
        r@ == state_text(reason@),
{
    setting_error("optimizer state", reason)
}

/// Why a rule is refused, if it is.
pub open spec fn algorithm_refusal(algorithm: Algorithm) -> Option<ErrorView> {
    match algorithm {
        Algorithm::Adam { beta1, beta2, eps, .. } => either(
            decay_refusal("beta1"@, beta1),
            either(decay_refusal("beta2"@, beta2), non_negative_refusal("eps"@, eps)),
        ),
        Algorithm::Adamax { beta1, beta2, eps } => either(
            decay_refusal("beta1"@, beta1),
            either(decay_refusal("beta2"@, beta2), non_negative_refusal("eps"@, eps)),
        ),
        Algorithm::Sgd { momentum, dampening, nesterov } => either(
            non_negative_refusal("momentum"@, momentum),
            either(
                non_negative_refusal("dampening"@, dampening),
                if nesterov && (momentum.place() <= 0 || dampening.place() != 0) {
                    Some(state_text("nesterov requires positive momentum and zero dampening"@))
                } else {
                    None
                },
            ),
        ),
        Algorithm::RmsProp { alpha, eps, momentum, .. } => either(
            non_negative_refusal("alpha"@, alpha),
            either(non_negative_refusal("eps"@, eps), non_negative_refusal("momentum"@, momentum)),
        ),
        Algorithm::Adagrad { lr_decay, initial_accumulator, eps } => either(
            non_negative_refusal("lr_decay"@, lr_decay),
            either(non_negative_refusal("initial_accumulator"@, initial_accumulator), non_negative_refusal("eps"@, eps)),
        ),
        Algorithm::Adadelta { rho, eps } => if !is_fraction(rho) {
            Some(state_text("rho must be finite and in [0, 1]"@))
        } else {
            non_negative_refusal("eps"@, eps)
        },
    }
}

/// A number other than zero, or no number.
pub open spec fn is_nonzero(value: Binary64) -> bool {
    value.place() != 0
}

/// The names of the moments that a rule keeps, in the order of their names.
pub open spec fn slot_names(algorithm: Algorithm) -> Seq<Seq<char>> {
    match algorithm {
        Algorithm::Adam { amsgrad, .. } => if amsgrad {
            seq!["exp_avg"@, "exp_avg_sq"@, "max_exp_avg_sq"@]
        } else {
            seq!["exp_avg"@, "exp_avg_sq"@]
        },
        Algorithm::Sgd { momentum, .. } => if is_nonzero(momentum) {
            seq!["momentum_buffer"@]
        } else {
            seq![]
        },
        Algorithm::RmsProp { momentum, centered, .. } => if centered && is_nonzero(momentum) {
            seq!["square_avg"@, "grad_avg"@, "momentum_buffer"@]
        } else if centered {
            seq!["square_avg"@, "grad_avg"@]
        } else if is_nonzero(momentum) {
            seq!["square_avg"@, "momentum_buffer"@]
        } else {
            seq!["square_avg"@]
        },
        Algorithm::Adagrad { .. } => seq!["sum"@],
        Algorithm::Adadelta { .. } => seq!["square_avg"@, "acc_delta"@],
        Algorithm::Adamax { .. } => seq!["exp_avg"@, "exp_inf"@],
    }
}

/// Two rules are of one family; settings may differ.
pub open spec fn one_family(a: Algorithm, b: Algorithm) -> bool {
    match (a, b) {
        (Algorithm::Adam { decoupled: x, .. }, Algorithm::Adam { decoupled: y, .. }) => x == y,
        (Algorithm::Sgd { .. }, Algorithm::Sgd { .. }) => true,
        (Algorithm::RmsProp { .. }, Algorithm::RmsProp { .. }) => true,
        (Algorithm::Adagrad { .. }, Algorithm::Adagrad { .. }) => true,
        (Algorithm::Adadelta { .. }, Algorithm::Adadelta { .. }) => true,
        (Algorithm::Adamax { .. }, Algorithm::Adamax { .. }) => true,
        _ => false,
    }
}

fn differs_from_zero(value: Binary64) -> (r: bool)
    ensures
        r == is_nonzero(value),
{
    value.bits != 0 && value.bits != crate::float::SIGN
}

fn check_moments(beta1: Binary64, beta2: Binary64, eps: Binary64) -> (r: Result<()>)
    ensures
        refusal(r) == either(
            decay_refusal("beta1"@, beta1),
            either(decay_refusal("beta2"@, beta2), non_negative_refusal("eps"@, eps)),
        ),
{
    if let Err(e) = validate_beta("beta1", beta1) {
        return Err(e);
    }
    if let Err(e) = validate_beta("beta2", beta2) {
        return Err(e);
    }
    validate_non_negative("eps", eps)
}

fn check_three(a: &'static str, x: Binary64, b: &'static str, y: Binary64, c: &'static str, z: Binary64) -> (r: Result<()>)
    ensures
        refusal(r) == either(
            non_negative_refusal(a@, x),
            either(non_negative_refusal(b@, y), non_negative_refusal(c@, z)),
        ),
{
    if let Err(e) = validate_non_negative(a, x) {
        return Err(e);
    }
    if let Err(e) = validate_non_negative(b, y) {
        return Err(e);
    }
    validate_non_negative(c, z)
}

impl Algorithm {
    /// Checks the settings of a rule.
    pub fn validate(&self) -> (r: Result<()>)
        ensures
            refusal(r) == algorithm_refusal(*self),
    {
        match *self {
            Algorithm::Adam { beta1, beta2, eps, .. } => check_moments(beta1, beta2, eps),
            Algorithm::Adamax { beta1, beta2, eps } => check_moments(beta1, beta2, eps),
            Algorithm::Sgd { momentum, dampening, nesterov } => {
                if let Err(e) = validate_non_negative("momentum", momentum) {
                    return Err(e);
                }
                if let Err(e) = validate_non_negative("dampening", dampening) {
                    return Err(e);
                }
                if nesterov && (momentum.is_at_most(Binary64::zero()) || differs_from_zero(dampening)) {
                    return Err(invalid("nesterov requires positive momentum and zero dampening"));
                }
                Ok(())
            },
            Algorithm::RmsProp { alpha, eps, momentum, .. } => check_three("alpha", alpha, "eps", eps, "momentum", momentum),
            Algorithm::Adagrad { lr_decay, initial_accumulator, eps } => check_three(
                "lr_decay",
                lr_decay,
                "initial_accumulator",
                initial_accumulator,
                "eps",
                eps,
            ),
            Algorithm::Adadelta { rho, eps } => {
                if !in_unit_interval(rho) {
                    return Err(invalid("rho must be finite and in [0, 1]"));
                }
                validate_non_negative("eps", eps)
            },
        }
    }

    /// Returns the names of the moments that a rule keeps.
    pub fn slots(&self) -> (r: Vec<&'static str>)
        ensures
            r@.map_values(|s: &str| s@) == slot_names(*self),
    {
        let list: Vec<&'static str> = match *self {
            Algorithm::Adam { amsgrad, .. } => {
                if amsgrad {
                    vec!["exp_avg", "exp_avg_sq", "max_exp_avg_sq"]
                } else {
                    vec!["exp_avg", "exp_avg_sq"]
                }
            },
            Algorithm::Sgd { momentum, .. } => {
                if differs_from_zero(momentum) {
                    vec!["momentum_buffer"]
                } else {
                    Vec::new()
                }
            },
            Algorithm::RmsProp { momentum, centered, .. } => {
                if centered && differs_from_zero(momentum) {
                    vec!["square_avg", "grad_avg", "momentum_buffer"]
                } else if centered {
                    vec!["square_avg", "grad_avg"]
                } else if differs_from_zero(momentum) {
                    vec!["square_avg", "momentum_buffer"]
                } else {
                    vec!["square_avg"]
                }
            },
            Algorithm::Adagrad { .. } => vec!["sum"],
            Algorithm::Adadelta { .. } => vec!["square_avg", "acc_delta"],
            Algorithm::Adamax { .. } => vec!["exp_avg", "exp_inf"],
        };
        assert(list@.map_values(|s: &str| s@) =~= slot_names(*self));
        list
    }

    /// Whether two rules are of one family.
    pub fn same_family(&self, other: &Algorithm) -> (r: bool)
        ensures
            r == one_family(*self, *other),
    {
        match (*self, *other) {
            (Algorithm::Adam { decoupled: x, .. }, Algorithm::Adam { decoupled: y, .. }) => x == y,
            (Algorithm::Sgd { .. }, Algorithm::Sgd { .. }) => true,
            (Algorithm::RmsProp { .. }, Algorithm::RmsProp { .. }) => true,
            (Algorithm::Adagrad { .. }, Algorithm::Adagrad { .. }) => true,
            (Algorithm::Adadelta { .. }, Algorithm::Adadelta { .. }) => true,
            (Algorithm::Adamax { .. }, Algorithm::Adamax { .. }) => true,
            _ => false,
        }
    }
}

/// The settings of a parameter group.
#[derive(Debug, Clone, Copy, PartialEq, Eq, Structural)]
pub struct Group {
    /// The identifier.
    pub id: usize,
    /// The learning rate.
    pub learning_rate: Binary64,
    /// The weight decay.
    pub weight_decay: Binary64,
}

/// A parameter group with its parameters.
#[derive(Debug, Clone, PartialEq, Eq)]
pub struct ParameterGroup {
    /// The identifier.
    pub id: usize,
    /// The learning rate.
    pub learning_rate: Binary64,
    /// The weight decay.
    pub weight_decay: Binary64,
    /// The names of its parameters, sorted.
    pub parameters: Vec<String>,
}

/// The content of a [`ParameterGroup`].
pub struct GroupView {
    pub id: usize,
    pub learning_rate: Binary64,
    pub weight_decay: Binary64,
    pub parameters: Seq<Seq<char>>,
}

impl View for ParameterGroup {
    type V = GroupView;

    open spec fn view(&self) -> GroupView {
        GroupView {
            id: self.id,
            learning_rate: self.learning_rate,
            weight_decay: self.weight_decay,
            parameters: texts(self.parameters@),
        }
    }
}

/// A tracked parameter.
#[derive(Debug)]
pub struct Parameter {
    /// What tells its tensor from others.
    pub identity: u64,
    /// Its group.
    pub group: usize,
    /// How many updates it has had.
    pub step: u64,
    /// What is known of its moments, once it has some.
    pub moments: Option<TensorMeta>,
}

/// The content of a [`Parameter`].
pub struct ParameterView {
    pub identity: u64,
    pub group: usize,
    pub step: u64,
    pub moments: Option<MetaView>,
}

impl View for Parameter {
    type V = ParameterView;

    open spec fn view(&self) -> ParameterView {
        ParameterView {
            identity: self.identity,
            group: self.group,
            step: self.step,
            moments: match self.moments {
                Some(meta) => Some(meta@),
                None => None,
            },
        }
    }
}

/// A trainable tensor of the parameter store.
#[derive(Debug)]
pub struct Variable {
    /// What is known of the tensor.
    pub meta: TensorMeta,
    /// Whether its layout is sparse.
    pub sparse: bool,
    /// Its group.
    pub group: usize,
    /// What tells the tensor from others.
    pub identity: u64,
    /// The names under which the tensor is registered.
    pub names: Vec<String>,
}

/// The content of a [`Variable`].
pub struct VariableView {
    pub meta: MetaView,
    pub sparse: bool,
    pub group: usize,
    pub identity: u64,
    pub names: Seq<Seq<char>>,
}

impl View for Variable {
    type V = VariableView;

    open spec fn view(&self) -> VariableView {
        VariableView {
            meta: self.meta@,
            sparse: self.sparse,
            group: self.group,
            identity: self.identity,
            names: texts(self.names@),
        }
    }
}

/// The contents of variables.
pub open spec fn variables_view(list: Seq<Variable>) -> Seq<VariableView> {
    list.map_values(|v: Variable| v@)
}

/// An optimizer between steps.
pub struct OptimizerView {
    pub settings: Settings,
    pub completed: u64,
    pub parameters: Map<Seq<char>, ParameterView>,
    pub groups: Seq<Group>,
}

/// The place of the first group whose identifier is not smaller, from place `i` on.
pub open spec fn slot_for(groups: Seq<Group>, id: usize, i: int) -> int
    decreases groups.len() - i,
{
    if i < 0 || i >= groups.len() {
        groups.len() as int
    } else if groups[i].id >= id {
        i
    } else {
        slot_for(groups, id, i + 1)
    }
}

/// A group is known.
pub open spec fn has_group(groups: Seq<Group>, id: usize) -> bool {
    slot_for(groups, id, 0) < groups.len() && groups[slot_for(groups, id, 0)].id == id
}

/// With a group, which keeps its settings if it is known.
pub open spec fn with_group(groups: Seq<Group>, new: Group) -> Seq<Group> {
    if has_group(groups, new.id) {
        groups
    } else {
        groups.insert(slot_for(groups, new.id, 0), new)
    }
}

/// Groups are listed by ascending identifiers.
pub open spec fn sorted_groups(groups: Seq<Group>) -> bool {
    forall|i: int, j: int| 0 <= i < j < groups.len() ==> (#[trigger] groups[i]).id < (#[trigger] groups[j]).id
}

/// The names of the parameters of a group, in ascending order.
pub open spec fn members(parameters: Map<Seq<char>, ParameterView>, id: usize) -> Seq<Seq<char>> {
    listing_in(Set::new(|name: Seq<char>| parameters.dom().contains(name) && parameters[name].group == id))
}

/// Why a variable is refused, if it is. `added` are the parameters that are new.
pub open spec fn variable_refusal(
    parameters: Map<Seq<char>, ParameterView>,
    added: Map<Seq<char>, ParameterView>,
    variable: VariableView,
) -> Option<ErrorView> {
    if !variable.meta.defined || variable.sparse {
        Some(state_text("parameters must be defined dense tensors"@))
    } else if !variable.meta.kind.real_valued() {
        Some(state_text("optimizer parameters must use Float, Double, Half or BFloat16"@))
    } else if variable.names.len() == 0 {
        Some(state_text("trainable parameter has no registered name"@))
    } else if variable.names.len() != 1 {
        Some(state_text("aliased parameter registrations require one canonical name"@))
    } else if parameters.dom().contains(variable.names[0]) {
        if parameters[variable.names[0]].group != variable.group || parameters[variable.names[0]].identity != variable.identity {
            Some(state_text("parameter identity or group changed after registration"@))
        } else {
            None
        }
    } else if added.dom().contains(variable.names[0]) {
        Some(state_text("duplicate trainable parameter registration"@))
    } else {
        None
    }
}

/// A parameter before its first update.
pub open spec fn fresh(variable: VariableView) -> ParameterView {
    ParameterView { identity: variable.identity, group: variable.group, step: 0, moments: None }
}

/// What a synchronization adds: the new parameters and the groups that they bring.
pub struct Additions {
    pub parameters: Map<Seq<char>, ParameterView>,
    pub groups: Seq<Group>,
}

impl OptimizerView {
    /// An optimizer without parameters.
    pub open spec fn start(settings: Settings) -> OptimizerView {
        OptimizerView { settings, completed: 0, parameters: Map::empty(), groups: Seq::empty() }
    }

    /// What the first `n` variables add.
    pub open spec fn additions(self, variables: Seq<VariableView>, n: int) -> core::result::Result<Additions, ErrorView>
        decreases n,
    {
        if n <= 0 {
            Ok(Additions { parameters: Map::empty(), groups: self.groups })
        } else {
            match self.additions(variables, n - 1) {
                Err(e) => Err(e),
                Ok(before) => {
                    let variable = variables[n - 1];
                    if variable_refusal(self.parameters, before.parameters, variable) is Some {
                        Err(variable_refusal(self.parameters, before.parameters, variable)->0)
                    } else if self.parameters.dom().contains(variable.names[0]) {
                        Ok(before)
                    } else {
                        Ok(
                            Additions {
                                parameters: before.parameters.insert(variable.names[0], fresh(variable)),
                                groups: with_group(
                                    before.groups,
                                    Group {
                                        id: variable.group,
                                        learning_rate: self.settings.learning_rate,
                                        weight_decay: self.settings.weight_decay,
                                    },
                                ),
                            },
                        )
                    }
                },
            }
        }
    }

    /// With the variables of the parameter store.
    pub open spec fn synchronized(self, variables: Seq<VariableView>) -> core::result::Result<OptimizerView, ErrorView> {
        if variables.len() == self.parameters.dom().len() {
            Ok(self)
        } else if variables.len() < self.parameters.dom().len() {
            Err(state_text("registered parameters were removed"@))
        } else {
            match self.additions(variables, variables.len() as int) {
                Err(e) => Err(e),
                Ok(new) => Ok(
                    OptimizerView {
                        parameters: self.parameters.union_prefer_right(new.parameters),
                        groups: new.groups,
                        ..self
                    },
                ),
            }
        }
    }
}

/// Updates named parameters while keeping what is needed to resume.
#[derive(Debug)]
pub struct Optimizer {
    settings: Settings,
    completed: u64,
    parameters: NameMap<Parameter>,
    groups: Vec<Group>,
}

/// The contents of parameters.
pub open spec fn parameters_view(map: Map<Seq<char>, Parameter>) -> Map<Seq<char>, ParameterView> {
    map.map_values(|p: Parameter| p@)
}

impl View for Optimizer {
    type V = OptimizerView;

    closed spec fn view(&self) -> OptimizerView {
        OptimizerView {
            settings: self.settings,
            completed: self.completed,
            parameters: parameters_view(self.parameters@),
            groups: self.groups@,
        }
    }
}

proof fn slot_bounds(groups: Seq<Group>, id: usize, i: int)
    requires
        0 <= i <= groups.len(),
    ensures
        i <= slot_for(groups, id, i) <= groups.len(),
        forall|j: int| i <= j < slot_for(groups, id, i) ==> (#[trigger] groups[j]).id < id,
        slot_for(groups, id, i) < groups.len() ==> groups[slot_for(groups, id, i)].id >= id,
    decreases groups.len() - i,
{
    if i < groups.len() && groups[i].id < id {
        slot_bounds(groups, id, i + 1);
    }
}

/// Adding a group keeps the groups sorted.
pub proof fn groups_stay_sorted(groups: Seq<Group>, new: Group)
    requires
        sorted_groups(groups),
    ensures
        sorted_groups(with_group(groups, new)),
        has_group(with_group(groups, new), new.id),
{
    slot_bounds(groups, new.id, 0);
    let at = slot_for(groups, new.id, 0);
    if !has_group(groups, new.id) {
        let next = groups.insert(at, new);
        assert forall|i: int, j: int| 0 <= i < j < next.len() implies (#[trigger] next[i]).id < (#[trigger] next[j]).id by {
            if j < at {
                assert(next[i] == groups[i] && next[j] == groups[j]);
            } else if j == at {
                assert(next[i] == groups[i]);
            } else if i < at {
                assert(next[i] == groups[i] && next[j] == groups[j - 1]);
            } else if i == at {
                assert(next[j] == groups[j - 1]);
                if j - 1 > at {
                    assert(groups[at].id < groups[j - 1].id);
                }
            } else {
                assert(next[i] == groups[i - 1] && next[j] == groups[j - 1]);
            }
        }
        slot_bounds(next, new.id, 0);
        let there = slot_for(next, new.id, 0);
        assert(next[at] == new);
        if there < at {
            assert(next[there] == groups[there]);
        } else if there > at {
            assert(next[at].id < new.id);
        }
    }
}

fn find_slot(groups: &Vec<Group>, id: usize) -> (r: usize)
    ensures
        r == slot_for(groups@, id, 0),
        r <= groups@.len(),
{
    let mut i: usize = 0;
    while i < groups.len()
        invariant
            i <= groups@.len(),
            slot_for(groups@, id, 0) == slot_for(groups@, id, i as int),
        decreases groups@.len() - i,
    {
        if groups[i].id >= id {
            return i;
        }
        i += 1;
    }
    groups.len()
}

fn add_group(groups: &mut Vec<Group>, new: Group)
    ensures
        final(groups)@ == with_group(old(groups)@, new),
{
    let at = find_slot(groups, new.id);
    if at < groups.len() && groups[at].id == new.id {
        return;
    }
    groups.insert(at, new);
}

fn copy_groups(groups: &Vec<Group>) -> (r: Vec<Group>)
    ensures
        r@ == groups@,
{
    let mut out: Vec<Group> = Vec::new();
    let mut i: usize = 0;
    while i < groups.len()
        invariant
            i <= groups@.len(),
            out@ == groups@.take(i as int),
        decreases groups@.len() - i,
    {
        out.push(groups[i]);
        i += 1;
        assert(out@ =~= groups@.take(i as int));
    }
    assert(out@ =~= groups@);
    out
}

proof fn additions_fail(o: OptimizerView, variables: Seq<VariableView>, k: int, n: int)
    requires
        0 <= k <= n,
        o.additions(variables, k) is Err,
    ensures
        o.additions(variables, n) == o.additions(variables, k),
    decreases n - k,
{
    if k < n {
        additions_fail(o, variables, k, n - 1);
    }
}

proof fn additions_are_new(o: OptimizerView, variables: Seq<VariableView>, n: int)
    requires
        o.additions(variables, n) is Ok,
        sorted_groups(o.groups),
    ensures
        sorted_groups(o.additions(variables, n)->Ok_0.groups),
        forall|name: Seq<char>| #[trigger]
            o.additions(variables, n)->Ok_0.parameters.dom().contains(name) ==> !o.parameters.dom().contains(name),
    decreases n,
{
    if n > 0 {
        additions_are_new(o, variables, n - 1);
        let before = o.additions(variables, n - 1)->Ok_0;
        let variable = variables[n - 1];
        groups_stay_sorted(
            before.groups,
            Group {
                id: variable.group,
                learning_rate: o.settings.learning_rate,
                weight_decay: o.settings.weight_decay,
            },
        );
    }
}

impl Optimizer {
    /// The maps are in order.
    pub closed spec fn wf(self) -> bool {
        self.parameters.wf() && sorted_groups(self.groups@)
    }

    /// Creates an optimizer without parameters.
    pub fn new(settings: Settings) -> (r: Result<Self>)
        ensures
            refusal(r) == super::settings_refusal(settings),
            r matches Ok(optimizer) ==> optimizer.wf() && optimizer@ == OptimizerView::start(settings),
    {
        if let Err(e) = settings.algorithm.validate() {
            return Err(e);
        }
        if let Err(e) = validate_non_negative("learning_rate", settings.learning_rate) {
            return Err(e);
        }
        if let Err(e) = validate_non_negative("weight_decay", settings.weight_decay) {
            return Err(e);
        }
        let optimizer = Optimizer { settings, completed: 0, parameters: NameMap::new(), groups: Vec::new() };
        assert(optimizer@.parameters =~= Map::empty());
        Ok(optimizer)
    }

    fn check_variable(&self, added: &NameMap<Parameter>, variable: &Variable) -> (r: Result<bool>)
        requires
            self.wf(),
            added.wf(),
        ensures
            refusal(r) == variable_refusal(self@.parameters, parameters_view(added@), variable@),
            r matches Ok(new) ==> variable.names@.len() == 1 && new == !self@.parameters.dom().contains(variable@.names[0]),
    {
        if !variable.meta.defined || variable.sparse {
            return Err(invalid("parameters must be defined dense tensors"));
        }
        if !variable.meta.kind.is_real() {
            return Err(invalid("optimizer parameters must use Float, Double, Half or BFloat16"));
        }
        if variable.names.len() == 0 {
            return Err(invalid("trainable parameter has no registered name"));
        }
        if variable.names.len() != 1 {
            return Err(invalid("aliased parameter registrations require one canonical name"));
        }
        let name = variable.names[0].as_str();
        assert(variable@.names[0] == name@);
        match self.parameters.get(name) {
            Some(current) => {
                if current.group != variable.group || current.identity != variable.identity {
                    return Err(invalid("parameter identity or group changed after registration"));
                }
                Ok(false)
            },
            None => {
                if added.contains(name) {
                    return Err(invalid("duplicate trainable parameter registration"));
                }
                Ok(true)
            },
        }
    }

    /// Takes newly registered variables up. A refusal changes nothing.
    #[verifier::loop_isolation(false)]
    pub fn sync_parameters(&mut self, variables: &Vec<Variable>) -> (r: Result<()>)
        requires
            old(self).wf(),
        ensures
            final(self).wf(),
            match (r, old(self)@.synchronized(variables_view(variables@))) {
                (Ok(_), Ok(next)) => final(self)@ == next,
                (Err(e), Err(expected)) => e@ == expected && final(self)@ == old(self)@,
                _ => false,
            },
    {
        let ghost start = *self;
        let ghost view = variables_view(variables@);
        let ghost n = variables@.len() as int;
        proof {
            self.parameters.length_is_count();
            assert(self@.parameters.dom() =~= self.parameters@.dom());
        }
        if variables.len() == self.parameters.len() {
            return Ok(());
        }
        if variables.len() < self.parameters.len() {
            return Err(invalid("registered parameters were removed"));
        }
        let mut added: NameMap<Parameter> = NameMap::new();
        let mut groups = copy_groups(&self.groups);
        let mut i: usize = 0;
        assert(parameters_view(added@) =~= Map::empty());
        while i < variables.len()
            invariant
                i <= n,
                *self == start,
                added.wf(),
                start@.additions(view, i as int) == Ok::<Additions, ErrorView>(
                    Additions { parameters: parameters_view(added@), groups: groups@ },
                ),
            decreases n - i,
        {
            let variable = &variables[i];
            proof {
                assert(view[i as int] == variable@);
                if start@.additions(view, i + 1) is Err {
                    additions_fail(start@, view, i + 1, n);
                }
            }
            match self.check_variable(&added, variable) {
                Err(e) => {
                    return Err(e);
                },
                Ok(new) => {
                    if new {
                        assert(variable@.names[0] == variable.names@[0]@);
                        let ghost before = parameters_view(added@);
                        let parameter = Parameter {
                            identity: variable.identity,
                            group: variable.group,
                            step: 0,
                            moments: None,
                        };
                        let ghost content = parameter@;
                        added.insert(variable.names[0].clone(), parameter);
                        assert(parameters_view(added@) =~= before.insert(variable@.names[0], content));
                        add_group(
                            &mut groups,
                            Group {
                                id: variable.group,
                                learning_rate: self.settings.learning_rate,
                                weight_decay: self.settings.weight_decay,
                            },
                        );
                    }
                },
            }
            i += 1;
        }
        proof {
            additions_are_new(start@, view, n);
        }
        let ghost new = added@;
        let ghost names = added.listing();
        let ghost values = added.items();
        proof {
            added.listing_is_determined();
        }
        let ghost whole = added;
        let mut entries = added.into_entries();
        let ghost all = entries@;
        while entries.len() > 0
            invariant
                self.settings == start.settings,
                self.completed == start.completed,
                self.groups == start.groups,
                self.parameters.wf(),
                entries@ == all.take(entries@.len() as int),
                entries@.len() <= all.len(),
                forall|name: Seq<char>| #[trigger]
                    self.parameters@.dom().contains(name) <==> start.parameters@.dom().contains(name) || exists|j: int|
                        entries@.len() <= j < all.len() && (#[trigger] all[j]).0@ == name,
                forall|name: Seq<char>| start.parameters@.dom().contains(name) ==> #[trigger] self.parameters@[name]
                    == start.parameters@[name],
                forall|j: int| entries@.len() <= j < all.len() ==> self.parameters@[(#[trigger] all[j]).0@] == all[j].1,
            decreases entries@.len(),
        {
            let ghost k = entries@.len() - 1;
            let ghost before = self.parameters@;
            if let Some((name, parameter)) = entries.pop() {
                proof {
                    assert(all[k] == (name, parameter));
                    assert(all[k].0@ == names[k]);
                    whole.entry_in_map(k);
                    assert(new.dom().contains(name@));
                    assert(parameters_view(new).dom().contains(name@));
                    assert(!start.parameters@.dom().contains(name@));
                    crate::names::ascending_is_distinct(names);
                }
                self.parameters.insert(name, parameter);
                proof {
                    assert forall|other: Seq<char>| #[trigger]
                        self.parameters@.dom().contains(other) <==> start.parameters@.dom().contains(other) || exists|j: int|
                            k <= j < all.len() && (#[trigger] all[j]).0@ == other by {
                        if other == name@ {
                            assert(all[k].0@ == other);
                        } else {
                            assert(self.parameters@.dom().contains(other) == before.dom().contains(other));
                            if exists|j: int| k <= j < all.len() && (#[trigger] all[j]).0@ == other {
                                let j = choose|j: int| k <= j < all.len() && (#[trigger] all[j]).0@ == other;
                                assert(j != k);
                            }
                        }
                    }
                    assert forall|j: int| k <= j < all.len() implies self.parameters@[(#[trigger] all[j]).0@] == all[j].1 by {
                        if j > k {
                            assert(all[j].0@ == names[j]);
                            assert(names[j] != names[k]);
                        }
                    }
                }
            }
            assert(entries@ =~= all.take(entries@.len() as int));
        }
        self.groups = groups;
        proof {
            let expected = start@.parameters.union_prefer_right(parameters_view(new));
            assert forall|name: Seq<char>| self@.parameters.dom().contains(name) <==> #[trigger] expected.dom().contains(name) by {
                assert(self.parameters@.dom().contains(name) <==> start.parameters@.dom().contains(name) || exists|j: int|
                    0 <= j < all.len() && (#[trigger] all[j]).0@ == name);
                if new.dom().contains(name) {
                    whole.map_is_listed(name);
                    let j = choose|j: int| 0 <= j < names.len() && #[trigger] names[j] == name;
                    assert(all[j].0@ == name);
                }
                if exists|j: int| 0 <= j < all.len() && (#[trigger] all[j]).0@ == name {
                    let j = choose|j: int| 0 <= j < all.len() && (#[trigger] all[j]).0@ == name;
                    assert(all[j].0@ == names[j]);
                    whole.entry_in_map(j);
                }
            }
            assert(self@.parameters.dom() =~= expected.dom());
            assert forall|name: Seq<char>| #[trigger] self@.parameters.dom().contains(name) implies self@.parameters[name]
                == expected[name] by {
                if new.dom().contains(name) {
                    whole.map_is_listed(name);
                    let j = choose|j: int| 0 <= j < names.len() && #[trigger] names[j] == name && values[j] == new[name];
                    assert(all[j].0@ == name);
                    assert(self.parameters@[all[j].0@] == all[j].1);
                } else {
                    assert(expected.dom().contains(name));
                    assert(start.parameters@.dom().contains(name));
                    assert(self.parameters@[name] == start.parameters@[name]);
                }
            }
            assert(self@.parameters =~= expected);
        }
        Ok(())
    }
}

/// The groups with their parameters.
pub open spec fn group_views(o: OptimizerView) -> Seq<GroupView> {
    o.groups.map_values(
        |g: Group|
            GroupView {
                id: g.id,
                learning_rate: g.learning_rate,
                weight_decay: g.weight_decay,
                parameters: members(o.parameters, g.id),
            },
    )
}

/// The contents of groups.
pub open spec fn groups_view(list: Seq<ParameterGroup>) -> Seq<GroupView> {
    list.map_values(|g: ParameterGroup| g@)
}

/// The refusal of the first rate that is refused.
pub open spec fn rate_checks(rates: Seq<(usize, Binary64)>) -> spec_fn(int) -> Option<ErrorView> {
    |i: int| non_negative_refusal("learning_rate"@, rates[i].1)
}

/// Why rates for the groups are refused, if they are.
pub open spec fn rates_refusal(groups: Seq<Group>, rates: Seq<(usize, Binary64)>) -> Option<ErrorView> {
    if rates.map_values(|r: (usize, Binary64)| r.0) != groups.map_values(|g: Group| g.id) {
        Some(state_text("scheduler parameter groups changed"@))
    } else {
        first_at(0, rates.len() as int, rate_checks(rates))
    }
}

/// Groups with new rates.
pub open spec fn with_rates(groups: Seq<Group>, rates: Seq<(usize, Binary64)>) -> Seq<Group> {
    Seq::new(groups.len(), |i: int| Group { learning_rate: rates[i].1, ..groups[i] })
}

/// What is known of a gradient.
#[derive(Debug)]
pub struct Gradient {
    /// The tensor.
    pub meta: TensorMeta,
    /// Whether its layout is sparse.
    pub sparse: bool,
}

/// A parameter as it is when a step is due.
#[derive(Debug)]
pub struct Live {
    /// The tensor.
    pub meta: TensorMeta,
    /// Its gradient, if there is one.
    pub gradient: Option<Gradient>,
}

/// Two tensors agree in shape, element type and device.
pub open spec fn agree(a: MetaView, b: MetaView) -> bool {
    a.shape == b.shape && a.kind == b.kind && a.device == b.device
}

/// Why the moments of a parameter are refused, if they are.
pub open spec fn moments_refusal(parameter: ParameterView, live: MetaView) -> Option<ErrorView> {
    if !live.defined {
        Some(state_text("parameter is undefined"@))
    } else if !live.kind.real_valued() {
        Some(state_text("optimizer parameters must use Float, Double, Half or BFloat16"@))
    } else if parameter.moments matches Some(moments) && !agree(moments, live) {
        Some(state_text("parameter was moved or reshaped without matching optimizer state"@))
    } else {
        None
    }
}

/// A rule takes sparse gradients: gradient descent without momentum or weight decay.
pub open spec fn takes_sparse(algorithm: Algorithm, weight_decay: Binary64) -> bool {
    algorithm matches Algorithm::Sgd { momentum, .. } && !is_nonzero(momentum) && !is_nonzero(weight_decay)
}

/// Why a gradient is refused, if it is.
pub open spec fn gradient_refusal(
    parameter: ParameterView,
    live: MetaView,
    gradient: MetaView,
    sparse: bool,
    algorithm: Algorithm,
    weight_decay: Binary64,
) -> Option<ErrorView> {
    if !live.kind.real_valued() {
        Some(state_text("optimizer parameters must use Float, Double, Half or BFloat16"@))
    } else if !agree(gradient, live) {
        Some(state_text("gradient shape, dtype or device differs from its parameter"@))
    } else if sparse && !takes_sparse(algorithm, weight_decay) {
        Some(state_text("sparse gradients require SGD without momentum or weight decay"@))
    } else {
        moments_refusal(parameter, live)
    }
}

/// The weight decay of a group.
pub open spec fn decay_of(groups: Seq<Group>, id: usize) -> Binary64 {
    groups[slot_for(groups, id, 0)].weight_decay
}

/// Every parameter belongs to a known group.
pub open spec fn grouped(o: OptimizerView) -> bool {
    forall|name: Seq<char>| #[trigger] o.parameters.dom().contains(name) ==> has_group(o.groups, o.parameters[name].group)
}

/// Why the gradient of the parameter at place `i` is refused, if it is.
pub open spec fn step_check(o: OptimizerView, names: Seq<Seq<char>>, live: Map<Seq<char>, Live>, i: int) -> Option<ErrorView> {
    let parameter = o.parameters[names[i]];
    match live[names[i]].gradient {
        None => None,
        Some(gradient) => gradient_refusal(
            parameter,
            live[names[i]].meta@,
            gradient.meta@,
            gradient.sparse,
            o.settings.algorithm,
            decay_of(o.groups, parameter.group),
        ),
    }
}

/// The checks of all gradients.
pub open spec fn step_checks(o: OptimizerView, names: Seq<Seq<char>>, live: Map<Seq<char>, Live>) -> spec_fn(int) -> Option<ErrorView> {
    |i: int| step_check(o, names, live, i)
}

/// Why the counter of the parameter at place `i` is refused, if it is.
pub open spec fn counter_check(o: OptimizerView, names: Seq<Seq<char>>, live: Map<Seq<char>, Live>, i: int) -> Option<ErrorView> {
    if live[names[i]].gradient is Some && o.parameters[names[i]].step + 1 >= u64::MAX {
        Some(state_text("parameter step counter overflow"@))
    } else {
        None
    }
}

/// The checks of all counters.
pub open spec fn counter_checks(
    o: OptimizerView,
    names: Seq<Seq<char>>,
    live: Map<Seq<char>, Live>,
) -> spec_fn(int) -> Option<ErrorView> {
    |i: int| counter_check(o, names, live, i)
}

/// Why a step is refused, if it is.
pub open spec fn step_refusal(o: OptimizerView, names: Seq<Seq<char>>, live: Map<Seq<char>, Live>) -> Option<ErrorView> {
    let n = names.len() as int;
    if o.completed + 1 >= u64::MAX {
        Some(state_text("optimizer step counter overflow"@))
    } else if first_at(0, n, step_checks(o, names, live)) is Some {
        first_at(0, n, step_checks(o, names, live))
    } else {
        first_at(0, n, counter_checks(o, names, live))
    }
}

/// A parameter after an update.
pub open spec fn stepped(o: OptimizerView, parameter: ParameterView, live: Live) -> ParameterView {
    if live.gradient is Some {
        ParameterView {
            step: (parameter.step + 1) as u64,
            moments: if slot_names(o.settings.algorithm).len() > 0 {
                Some(live.meta@)
            } else {
                None
            },
            ..parameter
        }
    } else {
        parameter
    }
}

/// The optimizer after a step.
pub open spec fn after_step(o: OptimizerView, live: Map<Seq<char>, Live>) -> OptimizerView {
    OptimizerView {
        completed: (o.completed + 1) as u64,
        parameters: Map::new(
            |name: Seq<char>| o.parameters.dom().contains(name),
            |name: Seq<char>| stepped(o, o.parameters[name], live[name]),
        ),
        ..o
    }
}

/// Every tracked parameter is given.
pub open spec fn covers(o: OptimizerView, live: Map<Seq<char>, Live>) -> bool {
    forall|name: Seq<char>| #[trigger] o.parameters.dom().contains(name) ==> live.dom().contains(name)
}

fn metas_agree(a: &TensorMeta, b: &TensorMeta) -> (r: bool)
    ensures
        r == agree(a@, b@),
{
    same_shape(a.shape.as_slice(), b.shape.as_slice()) && a.kind == b.kind && a.device == b.device
}

fn copy_meta(meta: &TensorMeta) -> (r: TensorMeta)
    ensures
        r@ == meta@,
{
    TensorMeta { defined: meta.defined, shape: copy_shape(meta.shape.as_slice()), kind: meta.kind, device: meta.device }
}

fn check_moments_of(parameter: &Parameter, live: &TensorMeta) -> (r: Result<()>)
    ensures
        refusal(r) == moments_refusal(parameter@, live@),
{
    if !live.defined {
        return Err(invalid("parameter is undefined"));
    }
    if !live.kind.is_real() {
        return Err(invalid("optimizer parameters must use Float, Double, Half or BFloat16"));
    }
    if let Some(moments) = &parameter.moments {
        if !metas_agree(moments, live) {
            return Err(invalid("parameter was moved or reshaped without matching optimizer state"));
        }
    }
    Ok(())
}

fn check_gradient(parameter: &Parameter, live: &TensorMeta, gradient: &Gradient, algorithm: Algorithm, weight_decay: Binary64) -> (r: Result<()>)
    ensures
        refusal(r) == gradient_refusal(parameter@, live@, gradient.meta@, gradient.sparse, algorithm, weight_decay),
{
    if !live.kind.is_real() {
        return Err(invalid("optimizer parameters must use Float, Double, Half or BFloat16"));
    }
    if !metas_agree(&gradient.meta, live) {
        return Err(invalid("gradient shape, dtype or device differs from its parameter"));
    }
    let sparse_taken = match algorithm {
        Algorithm::Sgd { momentum, .. } => !differs_from_zero(momentum) && !differs_from_zero(weight_decay),
        _ => false,
    };
    if gradient.sparse && !sparse_taken {
        return Err(invalid("sparse gradients require SGD without momentum or weight decay"));
    }
    check_moments_of(parameter, live)
}

/// A wanted name stands among the first `n`.
spec fn stands_before(names: Seq<Seq<char>>, wanted: Set<Seq<char>>, name: Seq<char>, n: int) -> bool {
    exists|j: int| 0 <= j < n && #[trigger] names[j] == name && wanted.contains(names[j])
}

impl Optimizer {
    /// The names of the parameters, in ascending order.
    pub closed spec fn listing(self) -> Seq<Seq<char>> {
        self.parameters.listing()
    }

    /// The listing holds the names of all parameters.
    pub proof fn names_are_listed(self)
        requires
            self.wf(),
        ensures
            ascending(self.listing()),
            forall|name: Seq<char>| self.listing().contains(name) <==> #[trigger] self@.parameters.dom().contains(name),
            self.listing() == listing_in(self@.parameters.dom()),
    {
        self.parameters.listing_is_determined();
        assert(self@.parameters.dom() =~= self.parameters@.dom());
    }

    /// The rule with its defaults.
    pub fn settings(&self) -> (r: Settings)
        ensures
            r == self@.settings,
    {
        self.settings
    }

    /// The settings of the groups, by ascending identifiers.
    pub fn groups(&self) -> (r: &Vec<Group>)
        ensures
            r@ == self@.groups,
    {
        &self.groups
    }

    /// How many steps have been completed.
    pub fn completed_steps(&self) -> (r: u64)
        ensures
            r == self@.completed,
    {
        self.completed
    }

    fn members_of(&self, id: usize) -> (r: Vec<String>)
        requires
            self.wf(),
        ensures
            texts(r@) == members(self@.parameters, id),
    {
        let ghost names = self.parameters.listing();
        let ghost wanted = Set::new(
            |name: Seq<char>| self@.parameters.dom().contains(name) && self@.parameters[name].group == id,
        );
        let mut out: Vec<String> = Vec::new();
        let mut i: usize = 0;
        while i < self.parameters.len()
            invariant
                self.wf(),
                names == self.parameters.listing(),
                wanted == Set::new(
                    |name: Seq<char>| self@.parameters.dom().contains(name) && self@.parameters[name].group == id,
                ),
                i <= names.len(),
                forall|k: int| 0 <= k < out@.len() ==> stands_before(names, wanted, (#[trigger] out@[k])@, i as int),
                forall|j: int| 0 <= j < i && wanted.contains(#[trigger] names[j]) ==> texts(out@).contains(names[j]),
                ascending(texts(out@)),
            decreases names.len() - i,
        {
            let ghost before = out@;
            proof {
                self.parameters.entry_in_map(i as int);
            }
            if self.parameters.item(i).group == id {
                let name = self.parameters.name(i).clone();
                proof {
                    assert(wanted.contains(names[i as int]));
                    assert forall|a: int, b: int| 0 <= a < b < before.len() + 1 implies crate::text::before(
                        #[trigger] texts(before.push(name))[a],
                        #[trigger] texts(before.push(name))[b],
                    ) by {
                        if b < before.len() {
                            assert(texts(before)[a] == texts(before.push(name))[a]);
                            assert(texts(before)[b] == texts(before.push(name))[b]);
                        } else {
                            assert(stands_before(names, wanted, before[a]@, i as int));
                            let j = choose|j: int|
                                0 <= j < i && #[trigger] names[j] == before[a]@ && wanted.contains(names[j]);
                            assert(crate::text::before(names[j], names[i as int]));
                        }
                    }
                }
                out.push(name);
            }
            proof {
                assert forall|k: int| 0 <= k < out@.len() implies stands_before(names, wanted, (#[trigger] out@[k])@, i + 1) by {
                    if k < before.len() {
                        assert(out@[k] == before[k]);
                        assert(stands_before(names, wanted, before[k]@, i as int));
                        let j = choose|j: int|
                            0 <= j < i && #[trigger] names[j] == before[k]@ && wanted.contains(names[j]);
                        assert(names[j] == out@[k]@);
                    } else {
                        assert(names[i as int] == out@[k]@);
                    }
                }
                assert forall|j: int| 0 <= j < i + 1 && wanted.contains(#[trigger] names[j]) implies texts(out@).contains(
                    names[j],
                ) by {
                    if j < i {
                        assert(texts(before).contains(names[j]));
                        let k = choose|k: int| 0 <= k < before.len() && #[trigger] texts(before)[k] == names[j];
                        assert(texts(out@)[k] == names[j]);
                    } else {
                        assert(texts(out@)[before.len() as int] == names[j]);
                    }
                }
            }
            i += 1;
        }
        proof {
            let list = texts(out@);
            assert forall|name: Seq<char>| list.contains(name) <==> wanted.contains(name) by {
                if list.contains(name) {
                    let k = choose|k: int| 0 <= k < list.len() && #[trigger] list[k] == name;
                    assert(out@[k]@ == name);
                    assert(stands_before(names, wanted, out@[k]@, names.len() as int));
                }
                if wanted.contains(name) {
                    self.parameters.map_is_listed(name);
                    let j = choose|j: int| 0 <= j < names.len() && #[trigger] names[j] == name;
                    assert(list.contains(names[j]));
                }
            }
            assert(ascending(list));
            assert(listing_in(wanted) == list) by {
                let other = listing_in(wanted);
                assert(ascending(other) && forall|name: Seq<char>| other.contains(name) <==> wanted.contains(name));
                ascending_is_unique(list, other);
            }
        }
        out
    }

    /// Returns the groups with their parameters, by ascending identifiers.
    pub fn parameter_groups(&self) -> (r: Vec<ParameterGroup>)
        requires
            self.wf(),
        ensures
            groups_view(r@) == group_views(self@),
    {
        let mut out: Vec<ParameterGroup> = Vec::new();
        let mut i: usize = 0;
        while i < self.groups.len()
            invariant
                self.wf(),
                i <= self.groups@.len(),
                out@.len() == i,
                forall|j: int| 0 <= j < i ==> (#[trigger] out@[j])@ == group_views(self@)[j],
            decreases self.groups@.len() - i,
        {
            let group = self.groups[i];
            out.push(
                ParameterGroup {
                    id: group.id,
                    learning_rate: group.learning_rate,
                    weight_decay: group.weight_decay,
                    parameters: self.members_of(group.id),
                },
            );
            i += 1;
        }
        assert(groups_view(out@) =~= group_views(self@));
        out
    }

    /// Sets the rate of every group. A refusal changes nothing.
    #[verifier::loop_isolation(false)]
    pub fn apply_group_rates(&mut self, rates: &Vec<(usize, Binary64)>) -> (r: Result<()>)
        requires
            old(self).wf(),
        ensures
            final(self).wf(),
            refusal(r) == rates_refusal(old(self)@.groups, rates@),
            r is Ok ==> final(self)@ == (OptimizerView { groups: with_rates(old(self)@.groups, rates@), ..old(self)@ }),
            r is Err ==> final(self)@ == old(self)@,
    {
        let ghost start = *self;
        let ghost groups = self.groups@;
        let ghost n = rates@.len() as int;
        let ghost left = rates@.map_values(|r: (usize, Binary64)| r.0);
        let ghost right = groups.map_values(|g: Group| g.id);
        if rates.len() != self.groups.len() {
            assert(left.len() != right.len());
            return Err(invalid("scheduler parameter groups changed"));
        }
        let mut i: usize = 0;
        while i < rates.len()
            invariant
                *self == start,
                groups == self.groups@,
                rates@.len() == groups.len(),
                left == rates@.map_values(|r: (usize, Binary64)| r.0),
                right == groups.map_values(|g: Group| g.id),
                i <= rates@.len(),
                forall|j: int| 0 <= j < i ==> #[trigger] left[j] == right[j],
            decreases rates@.len() - i,
        {
            if rates[i].0 != self.groups[i].id {
                assert(left[i as int] != right[i as int]);
                return Err(invalid("scheduler parameter groups changed"));
            }
            i += 1;
        }
        assert(left =~= right);
        let ghost check = rate_checks(rates@);
        let mut k: usize = 0;
        while k < rates.len()
            invariant
                *self == start,
                n == rates@.len(),
                check == rate_checks(rates@),
                k <= n,
                first_at(0, n, check) == first_at(k as int, n, check),
            decreases n - k,
        {
            assert(check(k as int) == non_negative_refusal("learning_rate"@, rates@[k as int].1));
            if let Err(e) = validate_non_negative("learning_rate", rates[k].1) {
                return Err(e);
            }
            k += 1;
        }
        let mut next: Vec<Group> = Vec::new();
        let mut m: usize = 0;
        while m < rates.len()
            invariant
                *self == start,
                groups == self.groups@,
                rates@.len() == groups.len(),
                m <= rates@.len(),
                next@.len() == m,
                forall|j: int| 0 <= j < m ==> #[trigger] next@[j] == (Group { learning_rate: rates@[j].1, ..groups[j] }),
            decreases rates@.len() - m,
        {
            let group = self.groups[m];
            next.push(Group { id: group.id, learning_rate: rates[m].1, weight_decay: group.weight_decay });
            m += 1;
        }
        proof {
            assert(next@ =~= with_rates(groups, rates@));
            assert forall|a: int, b: int| 0 <= a < b < next@.len() implies (#[trigger] next@[a]).id < (#[trigger] next@[b]).id by {
                assert(groups[a].id < groups[b].id);
            }
        }
        self.groups = next;
        Ok(())
    }

    /// Sets the rate of every group, and that of groups to come.
    pub fn set_learning_rate(&mut self, value: Binary64) -> (r: Result<()>)
        requires
            old(self).wf(),
        ensures
            final(self).wf(),
            refusal(r) == non_negative_refusal("learning_rate"@, value),
            r is Ok ==> final(self)@ == (OptimizerView {
                settings: Settings { learning_rate: value, ..old(self)@.settings },
                groups: old(self)@.groups.map_values(|g: Group| Group { learning_rate: value, ..g }),
                ..old(self)@
            }),
            r is Err ==> final(self)@ == old(self)@,
    {
        if let Err(e) = validate_non_negative("learning_rate", value) {
            return Err(e);
        }
        let ghost groups = self.groups@;
        let mut next: Vec<Group> = Vec::new();
        let mut i: usize = 0;
        while i < self.groups.len()
            invariant
                groups == self.groups@,
                i <= groups.len(),
                next@.len() == i,
                forall|j: int| 0 <= j < i ==> #[trigger] next@[j] == (Group { learning_rate: value, ..groups[j] }),
            decreases groups.len() - i,
        {
            let group = self.groups[i];
            next.push(Group { id: group.id, learning_rate: value, weight_decay: group.weight_decay });
            i += 1;
        }
        proof {
            assert(next@ =~= groups.map_values(|g: Group| Group { learning_rate: value, ..g }));
            assert forall|a: int, b: int| 0 <= a < b < next@.len() implies (#[trigger] next@[a]).id < (#[trigger] next@[b]).id by {
                assert(groups[a].id < groups[b].id);
            }
        }
        self.groups = next;
        self.settings = Settings {
            algorithm: self.settings.algorithm,
            learning_rate: value,
            weight_decay: self.settings.weight_decay,
        };
        Ok(())
    }

    fn replace_group(&mut self, at: usize, group: Group)
        requires
            old(self).wf(),
            at < old(self)@.groups.len(),
            group.id == old(self)@.groups[at as int].id,
        ensures
            final(self).wf(),
            final(self)@ == (OptimizerView { groups: old(self)@.groups.update(at as int, group), ..old(self)@ }),
    {
        let ghost groups = self.groups@;
        self.groups.set(at, group);
        proof {
            let next = self.groups@;
            assert forall|a: int, b: int| 0 <= a < b < next.len() implies (#[trigger] next[a]).id < (#[trigger] next[b]).id by {
                assert(groups[a].id < groups[b].id);
            }
        }
    }

    /// Sets the rate of one group.
    pub fn set_group_learning_rate(&mut self, id: usize, value: Binary64) -> (r: Result<()>)
        requires
            old(self).wf(),
        ensures
            final(self).wf(),
            refusal(r) == either(
                non_negative_refusal("learning_rate"@, value),
                if has_group(old(self)@.groups, id) {
                    None
                } else {
                    Some(state_text("unknown parameter group"@))
                },
            ),
            r is Ok ==> final(self)@ == ({
                let at = slot_for(old(self)@.groups, id, 0);
                OptimizerView {
                    groups: old(self)@.groups.update(at, Group { learning_rate: value, ..old(self)@.groups[at] }),
                    ..old(self)@
                }
            }),
            r is Err ==> final(self)@ == old(self)@,
    {
        if let Err(e) = validate_non_negative("learning_rate", value) {
            return Err(e);
        }
        let at = find_slot(&self.groups, id);
        if at < self.groups.len() && self.groups[at].id == id {
            let group = self.groups[at];
            self.replace_group(at, Group { id: group.id, learning_rate: value, weight_decay: group.weight_decay });
            Ok(())
        } else {
            Err(invalid("unknown parameter group"))
        }
    }

    /// Sets the weight decay of one group.
    pub fn set_group_weight_decay(&mut self, id: usize, value: Binary64) -> (r: Result<()>)
        requires
            old(self).wf(),
        ensures
            final(self).wf(),
            refusal(r) == either(
                non_negative_refusal("weight_decay"@, value),
                if has_group(old(self)@.groups, id) {
                    None
                } else {
                    Some(state_text("unknown parameter group"@))
                },
            ),
            r is Ok ==> final(self)@ == ({
                let at = slot_for(old(self)@.groups, id, 0);
                OptimizerView {
                    groups: old(self)@.groups.update(at, Group { weight_decay: value, ..old(self)@.groups[at] }),
                    ..old(self)@
                }
            }),
            r is Err ==> final(self)@ == old(self)@,
    {
        if let Err(e) = validate_non_negative("weight_decay", value) {
            return Err(e);
        }
        let at = find_slot(&self.groups, id);
        if at < self.groups.len() && self.groups[at].id == id {
            let group = self.groups[at];
            self.replace_group(at, Group { id: group.id, learning_rate: group.learning_rate, weight_decay: value });
            Ok(())
        } else {
            Err(invalid("unknown parameter group"))
        }
    }

    fn decay_for(&self, id: usize) -> (r: Binary64)
        requires
            has_group(self@.groups, id),
        ensures
            r == decay_of(self@.groups, id),
    {
        let at = find_slot(&self.groups, id);
        self.groups[at].weight_decay
    }

    /// Checks everything that a step needs before anything changes. The parameters that have a
    /// gradient are to be updated.
    pub fn check_step(&self, live: &NameMap<Live>) -> (r: Result<()>)
        requires
            self.wf(),
            grouped(self@),
            live.wf(),
            covers(self@, live@),
        ensures
            refusal(r) == step_refusal(self@, self.listing(), live@),
    {
        let ghost names = self.listing();
        let ghost n = names.len() as int;
        let ghost o = self@;
        let ghost checks = step_checks(o, names, live@);
        let ghost counters = counter_checks(o, names, live@);
        proof {
            self.names_are_listed();
        }
        if self.completed >= u64::MAX - 1 {
            return Err(invalid("optimizer step counter overflow"));
        }
        let mut i: usize = 0;
        while i < self.parameters.len()
            invariant
                self.wf(),
                grouped(self@),
                live.wf(),
                covers(self@, live@),
                o == self@,
                o.completed + 1 < u64::MAX,
                names == self.parameters.listing(),
                n == names.len(),
                checks == step_checks(o, names, live@),
                i <= n,
                first_at(0, n, checks) == first_at(i as int, n, checks),
            decreases n - i,
        {
            proof {
                self.parameters.entry_in_map(i as int);
                assert(o.parameters.dom().contains(names[i as int]));
                assert(o.parameters[names[i as int]] == self.parameters.items()[i as int]@);
                assert(live@.dom().contains(names[i as int]));
                assert(checks(i as int) == step_check(o, names, live@, i as int));
            }
            let parameter = self.parameters.item(i);
            if let Some(current) = live.get(self.parameters.name(i).as_str()) {
                if let Some(gradient) = &current.gradient {
                    let decay = self.decay_for(parameter.group);
                    if let Err(e) = check_gradient(parameter, &current.meta, gradient, self.settings.algorithm, decay) {
                        return Err(e);
                    }
                }
            }
            i += 1;
        }
        let mut k: usize = 0;
        while k < self.parameters.len()
            invariant
                self.wf(),
                live.wf(),
                covers(self@, live@),
                o == self@,
                o.completed + 1 < u64::MAX,
                names == self.parameters.listing(),
                n == names.len(),
                first_at(0, n, checks) is None,
                checks == step_checks(o, names, live@),
                counters == counter_checks(o, names, live@),
                k <= n,
                first_at(0, n, counters) == first_at(k as int, n, counters),
            decreases n - k,
        {
            proof {
                self.parameters.entry_in_map(k as int);
                assert(o.parameters.dom().contains(names[k as int]));
                assert(o.parameters[names[k as int]] == self.parameters.items()[k as int]@);
                assert(live@.dom().contains(names[k as int]));
                assert(counters(k as int) == counter_check(o, names, live@, k as int));
            }
            let parameter = self.parameters.item(k);
            if let Some(current) = live.get(self.parameters.name(k).as_str()) {
                if current.gradient.is_some() && parameter.step >= u64::MAX - 1 {
                    return Err(invalid("parameter step counter overflow"));
                }
            }
            k += 1;
        }
        Ok(())
    }
}

/// A saved tensor.
#[derive(Debug, Clone, PartialEq, Eq)]
pub struct TensorState {
    /// The size of each axis.
    pub shape: Vec<i64>,
    /// The element type.
    pub kind: Kind,
    /// The elements in row-major order, the lowest byte of each first.
    pub bytes: Vec<u8>,
}

/// The content of a [`TensorState`].
pub struct TensorStateView {
    pub shape: Seq<i64>,
    pub kind: Kind,
    pub bytes: Seq<u8>,
}

impl View for TensorState {
    type V = TensorStateView;

    open spec fn view(&self) -> TensorStateView {
        TensorStateView { shape: self.shape@, kind: self.kind, bytes: self.bytes@ }
    }
}

/// Why a saved tensor is refused, if it is.
pub open spec fn tensor_refusal(tensor: TensorStateView, shape: Seq<i64>, kind: Kind) -> Option<ErrorView> {
    if tensor.shape != shape || tensor.kind != kind {
        Some(state_text("moment shape or dtype differs from its parameter"@))
    } else {
        match counted(shape, shape.len() as int) {
            None => Some(state_text("invalid checkpoint dimensions"@)),
            Some(count) => if count * kind.width() != tensor.bytes.len() {
                Some(state_text("checkpoint byte count does not match shape and dtype"@))
            } else {
                None
            },
        }
    }
}

impl TensorState {
    /// Checks a saved tensor against its parameter.
    pub fn validate(&self, shape: &[i64], kind: Kind) -> (r: Result<()>)
        ensures
            refusal(r) == tensor_refusal(self@, shape@, kind),
    {
        if !same_shape(self.shape.as_slice(), shape) || self.kind != kind {
            return Err(invalid("moment shape or dtype differs from its parameter"));
        }
        let count: usize = match element_count(shape) {
            Some(count) => count,
            None => {
                return Err(invalid("invalid checkpoint dimensions"));
            },
        };
        assert(self.bytes.len() == self.bytes@.len());
        let fits = match count.checked_mul(kind.bytes()) {
            Some(length) => length == self.bytes.len(),
            None => false,
        };
        if fits {
            Ok(())
        } else {
            Err(invalid("checkpoint byte count does not match shape and dtype"))
        }
    }
}

/// A saved parameter.
#[derive(Debug, Clone, PartialEq)]
pub struct ParameterState {
    /// The size of each axis.
    pub shape: Vec<i64>,
    /// The element type.
    pub kind: Kind,
    /// The group.
    pub group: usize,
    /// How many updates it had.
    pub step: u64,
    /// Its moments.
    pub slots: NameMap<TensorState>,
}

/// The content of a [`ParameterState`].
pub struct ParameterStateView {
    pub shape: Seq<i64>,
    pub kind: Kind,
    pub group: usize,
    pub step: u64,
    pub slots: Map<Seq<char>, TensorStateView>,
}

impl View for ParameterState {
    type V = ParameterStateView;

    open spec fn view(&self) -> ParameterStateView {
        ParameterStateView {
            shape: self.shape@,
            kind: self.kind,
            group: self.group,
            step: self.step,
            slots: self.slots@.map_values(|t: TensorState| t@),
        }
    }
}

/// The configuration, group settings and moments of an optimizer.
#[derive(Debug, Clone, PartialEq)]
pub struct OptimizerState {
    /// The version of the format.
    pub schema_version: u32,
    /// The rule.
    pub algorithm: Algorithm,
    /// The learning rate of groups to come.
    pub default_learning_rate: Binary64,
    /// The weight decay of groups to come.
    pub default_weight_decay: Binary64,
    /// How many steps were completed.
    pub completed_steps: u64,
    /// The groups.
    pub groups: Vec<ParameterGroup>,
    /// The parameters.
    pub parameters: NameMap<ParameterState>,
}

/// The content of an [`OptimizerState`].
pub struct SavedView {
    pub schema_version: u32,
    pub settings: Settings,
    pub completed: u64,
    pub groups: Seq<GroupView>,
    pub parameters: Map<Seq<char>, ParameterStateView>,
}

impl View for OptimizerState {
    type V = SavedView;

    open spec fn view(&self) -> SavedView {
        SavedView {
            schema_version: self.schema_version,
            settings: Settings {
                algorithm: self.algorithm,
                learning_rate: self.default_learning_rate,
                weight_decay: self.default_weight_decay,
            },
            completed: self.completed_steps,
            groups: groups_view(self.groups@),
            parameters: self.parameters@.map_values(|p: ParameterState| p@),
        }
    }
}

impl OptimizerState {
    /// The maps are in order.
    pub open spec fn wf(self) -> bool {
        &&& self.parameters.wf()
        &&& forall|i: int| 0 <= i < self.parameters.items().len() ==> (#[trigger] self.parameters.items()[i]).slots.wf()
    }
}

/// Why a saved group is refused, if it is.
pub open spec fn group_check(o: OptimizerView, groups: Seq<GroupView>, i: int) -> Option<ErrorView> {
    either(
        non_negative_refusal("learning_rate"@, groups[i].learning_rate),
        either(
            non_negative_refusal("weight_decay"@, groups[i].weight_decay),
            if !has_group(o.groups, groups[i].id) {
                Some(state_text("checkpoint has unknown parameter group"@))
            } else if groups[i].parameters != members(o.parameters, groups[i].id) || exists|j: int|
                0 <= j < i && (#[trigger] groups[j]).id == groups[i].id {
                Some(state_text("checkpoint group membership differs or has duplicates"@))
            } else {
                None
            },
        ),
    )
}

/// The checks of the saved groups.
pub open spec fn group_checks(o: OptimizerView, groups: Seq<GroupView>) -> spec_fn(int) -> Option<ErrorView> {
    |i: int| group_check(o, groups, i)
}

/// The moments that a saved parameter has to have.
pub open spec fn expected_slots(algorithm: Algorithm, step: u64) -> Set<Seq<char>> {
    if step == 0 {
        Set::empty()
    } else {
        slot_names(algorithm).to_set()
    }
}

/// The checks of the moments of a saved parameter, in name order.
pub open spec fn slot_checks(saved: ParameterStateView, kind: Kind) -> spec_fn(int) -> Option<ErrorView> {
    |i: int| tensor_refusal(saved.slots[listing_in(saved.slots.dom())[i]], saved.shape, kind)
}

/// Why the saved state of a parameter is refused, if it is.
pub open spec fn parameter_check(parameter: ParameterView, live: MetaView, state: SavedView, name: Seq<char>) -> Option<ErrorView> {
    if !state.parameters.dom().contains(name) {
        Some(state_text("checkpoint parameter name mismatch"@))
    } else {
        let saved = state.parameters[name];
        if !live.kind.real_valued() {
            Some(state_text("optimizer parameters must use Float, Double, Half or BFloat16"@))
        } else if saved.shape != live.shape || saved.kind != live.kind || saved.group != parameter.group {
            Some(state_text("checkpoint parameter shape, dtype or group mismatch"@))
        } else if saved.step > state.completed || saved.step == u64::MAX {
            Some(state_text("invalid parameter step counter"@))
        } else if saved.slots.dom() != expected_slots(state.settings.algorithm, saved.step) {
            Some(state_text("checkpoint moment names or cardinality mismatch"@))
        } else {
            first_at(0, listing_in(saved.slots.dom()).len() as int, slot_checks(saved, live.kind))
        }
    }
}

/// The checks of all saved parameters.
pub open spec fn parameter_checks(
    o: OptimizerView,
    names: Seq<Seq<char>>,
    live: Map<Seq<char>, Live>,
    state: SavedView,
) -> spec_fn(int) -> Option<ErrorView> {
    |i: int| parameter_check(o.parameters[names[i]], live[names[i]].meta@, state, names[i])
}

/// Why saved state cannot be loaded, if it cannot.
pub open spec fn load_refusal(
    o: OptimizerView,
    names: Seq<Seq<char>>,
    live: Map<Seq<char>, Live>,
    state: SavedView,
) -> Option<ErrorView> {
    if state.schema_version != SCHEMA || !one_family(o.settings.algorithm, state.settings.algorithm) {
        Some(state_text("optimizer checkpoint schema or algorithm mismatch"@))
    } else if super::settings_refusal(state.settings) is Some {
        super::settings_refusal(state.settings)
    } else if state.completed == u64::MAX {
        Some(state_text("optimizer step counter cannot advance"@))
    } else if first_at(0, state.groups.len() as int, group_checks(o, state.groups)) is Some {
        first_at(0, state.groups.len() as int, group_checks(o, state.groups))
    } else if state.groups.len() != o.groups.len() || state.parameters.dom().len() != o.parameters.dom().len() {
        Some(state_text("checkpoint parameter/group count mismatch"@))
    } else {
        first_at(0, names.len() as int, parameter_checks(o, names, live, state))
    }
}

/// The first saved group with an identifier, from place `i` on.
pub open spec fn saved_group(groups: Seq<GroupView>, id: usize, i: int) -> Option<GroupView>
    decreases groups.len() - i,
{
    if i < 0 || i >= groups.len() {
        None
    } else if groups[i].id == id {
        Some(groups[i])
    } else {
        saved_group(groups, id, i + 1)
    }
}

/// A group with its saved settings.
pub open spec fn loaded_group(group: Group, groups: Seq<GroupView>) -> Group {
    match saved_group(groups, group.id, 0) {
        Some(saved) => Group { id: group.id, learning_rate: saved.learning_rate, weight_decay: saved.weight_decay },
        None => group,
    }
}

/// A parameter with its saved counter and moments.
pub open spec fn loaded_parameter(parameter: ParameterView, live: MetaView, saved: ParameterStateView) -> ParameterView {
    ParameterView {
        step: saved.step,
        moments: if saved.slots.dom() == Set::<Seq<char>>::empty() {
            None
        } else {
            Some(live)
        },
        ..parameter
    }
}

/// The optimizer after saved state has been loaded.
pub open spec fn after_load(o: OptimizerView, live: Map<Seq<char>, Live>, state: SavedView) -> OptimizerView {
    OptimizerView {
        settings: state.settings,
        completed: state.completed,
        groups: o.groups.map_values(|g: Group| loaded_group(g, state.groups)),
        parameters: Map::new(
            |name: Seq<char>| o.parameters.dom().contains(name),
            |name: Seq<char>| loaded_parameter(o.parameters[name], live[name].meta@, state.parameters[name]),
        ),
    }
}

fn same_list(a: &Vec<String>, b: &Vec<String>) -> (r: bool)
    ensures
        r == (texts(a@) == texts(b@)),
{
    assert(texts(a@).len() == a@.len() && texts(b@).len() == b@.len());
    if a.len() != b.len() {
        return false;
    }
    let mut i: usize = 0;
    while i < a.len()
        invariant
            a@.len() == b@.len(),
            i <= a@.len(),
            forall|j: int| 0 <= j < i ==> (#[trigger] a@[j])@ == b@[j]@,
        decreases a@.len() - i,
    {
        if !same(a[i].as_str(), b[i].as_str()) {
            assert(texts(a@)[i as int] != texts(b@)[i as int]);
            return false;
        }
        i += 1;
    }
    assert(texts(a@) =~= texts(b@));
    true
}

fn find_saved(groups: &Vec<ParameterGroup>, id: usize) -> (r: Option<usize>)
    ensures
        match (r, saved_group(groups_view(groups@), id, 0)) {
            (Some(at), Some(expected)) => at < groups@.len() && groups@[at as int]@ == expected,
            (None, None) => true,
            _ => false,
        },
{
    let ghost view = groups_view(groups@);
    let mut i: usize = 0;
    while i < groups.len()
        invariant
            view == groups_view(groups@),
            i <= groups@.len(),
            saved_group(view, id, 0) == saved_group(view, id, i as int),
        decreases groups@.len() - i,
    {
        assert(view[i as int] == groups@[i as int]@);
        if groups[i].id == id {
            return Some(i);
        }
        i += 1;
    }
    None
}

fn repeats(groups: &Vec<ParameterGroup>, i: usize) -> (r: bool)
    requires
        i < groups@.len(),
    ensures
        r == exists|j: int| 0 <= j < i && (#[trigger] groups_view(groups@)[j]).id == groups_view(groups@)[i as int].id,
{
    let ghost view = groups_view(groups@);
    let mut j: usize = 0;
    while j < i
        invariant
            view == groups_view(groups@),
            i < groups@.len(),
            j <= i,
            forall|k: int| 0 <= k < j ==> (#[trigger] view[k]).id != view[i as int].id,
        decreases i - j,
    {
        if groups[j].id == groups[i].id {
            assert(view[j as int].id == view[i as int].id);
            return true;
        }
        j += 1;
    }
    false
}

fn check_slot_names(saved: &ParameterState, algorithm: Algorithm) -> (r: bool)
    requires
        saved.slots.wf(),
    ensures
        r == (saved@.slots.dom() == expected_slots(algorithm, saved.step)),
{
    let ghost expected = expected_slots(algorithm, saved.step);
    let ghost held = saved@.slots.dom();
    assert(held =~= saved.slots@.dom());
    if saved.step == 0 {
        if saved.slots.len() > 0 {
            proof {
                saved.slots.entry_in_map(0);
                assert(held.contains(saved.slots.listing()[0]));
            }
            return false;
        }
        assert(held =~= expected);
        return true;
    }
    let names = algorithm.slots();
    let ghost list = slot_names(algorithm);
    assert(names@.map_values(|s: &str| s@) == list);
    let mut i: usize = 0;
    while i < names.len()
        invariant
            saved.slots.wf(),
            held == saved@.slots.dom(),
            held == saved.slots@.dom(),
            expected == expected_slots(algorithm, saved.step),
            list == names@.map_values(|s: &str| s@),
            expected == list.to_set(),
            i <= names@.len(),
            forall|j: int| 0 <= j < i ==> held.contains(#[trigger] list[j]),
        decreases names@.len() - i,
    {
        assert(list[i as int] == names@[i as int]@);
        if !saved.slots.contains(names[i]) {
            assert(expected.contains(list[i as int]));
            return false;
        }
        i += 1;
    }
    let mut k: usize = 0;
    while k < saved.slots.len()
        invariant
            saved.slots.wf(),
            held == saved@.slots.dom(),
            held == saved.slots@.dom(),
            expected == expected_slots(algorithm, saved.step),
            list == names@.map_values(|s: &str| s@),
            expected == list.to_set(),
            k <= saved.slots.listing().len(),
            forall|j: int| 0 <= j < k ==> expected.contains(#[trigger] saved.slots.listing()[j]),
        decreases saved.slots.listing().len() - k,
    {
        let name = saved.slots.name(k).as_str();
        let mut found = false;
        let mut m: usize = 0;
        while m < names.len()
            invariant
                list == names@.map_values(|s: &str| s@),
                m <= names@.len(),
                found == exists|j: int| 0 <= j < m && #[trigger] list[j] == name@,
            decreases names@.len() - m,
        {
            assert(list[m as int] == names@[m as int]@);
            if same(names[m], name) {
                found = true;
            }
            m += 1;
        }
        if !found {
            proof {
                saved.slots.entry_in_map(k as int);
                assert(held.contains(name@));
                assert(!expected.contains(name@)) by {
                    if expected.contains(name@) {
                        let j = choose|j: int| 0 <= j < list.len() && #[trigger] list[j] == name@;
                        assert(list[j] == name@);
                    }
                }
            }
            return false;
        }
        proof {
            let j = choose|j: int| 0 <= j < list.len() && #[trigger] list[j] == name@;
            assert(expected.contains(list[j]));
        }
        k += 1;
    }
    proof {
        assert forall|name: Seq<char>| held.contains(name) <==> expected.contains(name) by {
            if held.contains(name) {
                saved.slots.map_is_listed(name);
                let j = choose|j: int| 0 <= j < saved.slots.listing().len() && #[trigger] saved.slots.listing()[j] == name;
                assert(expected.contains(saved.slots.listing()[j]));
            }
            if expected.contains(name) {
                let j = choose|j: int| 0 <= j < list.len() && #[trigger] list[j] == name;
                assert(held.contains(list[j]));
            }
        }
        assert(held =~= expected);
    }
    true
}

#[verifier::loop_isolation(false)]
fn check_saved(parameter: &Parameter, live: &TensorMeta, state: &OptimizerState, name: &str) -> (r: Result<()>)
    requires
        state.wf(),
    ensures
        refusal(r) == parameter_check(parameter@, live@, state@, name@),
{
    let at: usize = match state.parameters.find(name) {
        Some(at) => at,
        None => {
            return Err(invalid("checkpoint parameter name mismatch"));
        },
    };
    let saved = state.parameters.item(at);
    assert(state.parameters.items()[at as int].slots.wf());
    assert(state@.parameters[name@] == saved@);
    if !live.kind.is_real() {
        return Err(invalid("optimizer parameters must use Float, Double, Half or BFloat16"));
    }
    if !same_shape(saved.shape.as_slice(), live.shape.as_slice()) || saved.kind != live.kind || saved.group != parameter.group {
        return Err(invalid("checkpoint parameter shape, dtype or group mismatch"));
    }
    if saved.step > state.completed_steps || saved.step == u64::MAX {
        return Err(invalid("invalid parameter step counter"));
    }
    if !check_slot_names(saved, state.algorithm) {
        return Err(invalid("checkpoint moment names or cardinality mismatch"));
    }
    let ghost check = slot_checks(saved@, live.kind);
    let ghost names = listing_in(saved@.slots.dom());
    proof {
        saved.slots.listing_is_determined();
        assert(saved@.slots.dom() =~= saved.slots@.dom());
        assert(names == saved.slots.listing());
    }
    let ghost n = names.len() as int;
    let mut i: usize = 0;
    while i < saved.slots.len()
        invariant
            i <= n,
            first_at(0, n, check) == first_at(i as int, n, check),
        decreases n - i,
    {
        proof {
            saved.slots.entry_in_map(i as int);
            assert(saved@.slots[names[i as int]] == saved.slots.items()[i as int]@);
            assert(check(i as int) == tensor_refusal(saved@.slots[names[i as int]], saved@.shape, live.kind));
        }
        if let Err(e) = saved.slots.item(i).validate(saved.shape.as_slice(), live.kind) {
            return Err(e);
        }
        i += 1;
    }
    Ok(())
}

impl Optimizer {
    /// Records a step whose updates have been made.
    pub fn finish_step(&mut self, live: &NameMap<Live>)
        requires
            old(self).wf(),
            live.wf(),
            covers(old(self)@, live@),
            step_refusal(old(self)@, old(self).listing(), live@) is None,
        ensures
            final(self).wf(),
            final(self).listing() == old(self).listing(),
            final(self)@ == after_step(old(self)@, live@),
    {
        let ghost start = *self;
        let ghost o = self@;
        let ghost names = self.listing();
        let ghost n = names.len() as int;
        proof {
            self.names_are_listed();
            crate::error::first_at_none(0, n, counter_checks(o, names, live@));
        }
        let slots = self.settings.algorithm.slots();
        assert(slots@.map_values(|s: &str| s@).len() == slots@.len());
        let keeps = slots.len() > 0;
        let mut i: usize = 0;
        while i < self.parameters.len()
            invariant
                live.wf(),
                covers(o, live@),
                start.wf(),
                o == start@,
                names == start.parameters.listing(),
                n == names.len(),
                keeps == (slot_names(o.settings.algorithm).len() > 0),
                forall|j: int| 0 <= j < n ==> (#[trigger] counter_checks(o, names, live@)(j)) is None,
                self.settings == start.settings,
                self.completed == start.completed,
                self.groups == start.groups,
                self.parameters.wf(),
                self.parameters.listing() == names,
                i <= n,
                forall|j: int| 0 <= j < i ==> (#[trigger] self.parameters.items()[j])@ == stepped(
                    o,
                    start.parameters.items()[j]@,
                    live@[names[j]],
                ),
                forall|j: int| i <= j < n ==> #[trigger] self.parameters.items()[j] == start.parameters.items()[j],
            decreases n - i,
        {
            let parameter = self.parameters.item(i);
            proof {
                start.parameters.entry_in_map(i as int);
                assert(o.parameters.dom().contains(names[i as int]));
                assert(o.parameters[names[i as int]] == start.parameters.items()[i as int]@);
                assert(live@.dom().contains(names[i as int]));
                assert(counter_checks(o, names, live@)(i as int) is None);
                assert(self.parameters.items()[i as int] == start.parameters.items()[i as int]);
            }
            if let Some(current) = live.get(self.parameters.name(i).as_str()) {
                if current.gradient.is_some() {
                    let moments = if keeps {
                        Some(copy_meta(&current.meta))
                    } else {
                        None
                    };
                    let next = Parameter {
                        identity: parameter.identity,
                        group: parameter.group,
                        step: parameter.step + 1,
                        moments,
                    };
                    self.parameters.set(i, next);
                }
            }
            i += 1;
        }
        self.completed = self.completed + 1;
        proof {
            let expected = after_step(o, live@);
            assert(self@.parameters.dom() =~= expected.parameters.dom()) by {
                assert forall|name: Seq<char>| self@.parameters.dom().contains(name) <==> #[trigger] expected.parameters.dom().contains(
                    name,
                ) by {
                    assert(self.parameters@.dom().contains(name) <==> names.contains(name));
                    assert(start.parameters@.dom().contains(name) <==> names.contains(name));
                }
            }
            assert forall|name: Seq<char>| #[trigger] self@.parameters.dom().contains(name) implies self@.parameters[name]
                == expected.parameters[name] by {
                self.parameters.map_is_listed(name);
                let j = choose|j: int|
                    0 <= j < names.len() && #[trigger] names[j] == name && self.parameters.items()[j] == self.parameters@[name];
                start.parameters.entry_in_map(j);
                assert(o.parameters[name] == start.parameters.items()[j]@);
            }
            assert(self@.parameters =~= expected.parameters);
        }
    }

    /// Checks saved state against the optimizer and its model.
    #[verifier::loop_isolation(false)]
    pub fn check_state(&self, state: &OptimizerState, live: &NameMap<Live>) -> (r: Result<()>)
        requires
            self.wf(),
            state.wf(),
            live.wf(),
            covers(self@, live@),
        ensures
            refusal(r) == load_refusal(self@, self.listing(), live@, state@),
    {
        let ghost o = self@;
        let ghost names = self.listing();
        let ghost n = names.len() as int;
        proof {
            self.names_are_listed();
        }
        if state.schema_version != SCHEMA || !self.settings.algorithm.same_family(&state.algorithm) {
            return Err(invalid("optimizer checkpoint schema or algorithm mismatch"));
        }
        if let Err(e) = state.algorithm.validate() {
            return Err(e);
        }
        if let Err(e) = validate_non_negative("learning_rate", state.default_learning_rate) {
            return Err(e);
        }
        if let Err(e) = validate_non_negative("weight_decay", state.default_weight_decay) {
            return Err(e);
        }
        if state.completed_steps == u64::MAX {
            return Err(invalid("optimizer step counter cannot advance"));
        }
        let ghost groups = state@.groups;
        let ghost g = groups.len() as int;
        let ghost checks = group_checks(o, groups);
        let mut i: usize = 0;
        while i < state.groups.len()
            invariant
                i <= g,
                first_at(0, g, checks) == first_at(i as int, g, checks),
            decreases g - i,
        {
            let group = &state.groups[i];
            assert(groups[i as int] == group@);
            assert(checks(i as int) == group_check(o, groups, i as int));
            if let Err(e) = validate_non_negative("learning_rate", group.learning_rate) {
                return Err(e);
            }
            if let Err(e) = validate_non_negative("weight_decay", group.weight_decay) {
                return Err(e);
            }
            let at = find_slot(&self.groups, group.id);
            if !(at < self.groups.len() && self.groups[at].id == group.id) {
                return Err(invalid("checkpoint has unknown parameter group"));
            }
            let members = self.members_of(group.id);
            if !same_list(&group.parameters, &members) || repeats(&state.groups, i) {
                return Err(invalid("checkpoint group membership differs or has duplicates"));
            }
            i += 1;
        }
        proof {
            self.parameters.length_is_count();
            state.parameters.length_is_count();
            assert(o.parameters.dom() =~= self.parameters@.dom());
            assert(state@.parameters.dom() =~= state.parameters@.dom());
        }
        if state.groups.len() != self.groups.len() || state.parameters.len() != self.parameters.len() {
            return Err(invalid("checkpoint parameter/group count mismatch"));
        }
        let ghost saved = parameter_checks(o, names, live@, state@);
        let mut k: usize = 0;
        while k < self.parameters.len()
            invariant
                k <= n,
                first_at(0, n, saved) == first_at(k as int, n, saved),
            decreases n - k,
        {
            proof {
                self.parameters.entry_in_map(k as int);
                assert(o.parameters.dom().contains(names[k as int]));
                assert(o.parameters[names[k as int]] == self.parameters.items()[k as int]@);
                assert(live@.dom().contains(names[k as int]));
                assert(saved(k as int) == parameter_check(
                    o.parameters[names[k as int]],
                    live@[names[k as int]].meta@,
                    state@,
                    names[k as int],
                ));
            }
            let name = self.parameters.name(k).as_str();
            if let Some(current) = live.get(name) {
                if let Err(e) = check_saved(self.parameters.item(k), &current.meta, state, name) {
                    return Err(e);
                }
            }
            k += 1;
        }
        Ok(())
    }
}

/// Loaded groups keep their identifiers.
proof fn loaded_groups_stay_sorted(groups: Seq<Group>, saved: Seq<GroupView>)
    requires
        sorted_groups(groups),
    ensures
        sorted_groups(groups.map_values(|g: Group| loaded_group(g, saved))),
{
    let next = groups.map_values(|g: Group| loaded_group(g, saved));
    assert forall|i: int, j: int| 0 <= i < j < next.len() implies (#[trigger] next[i]).id < (#[trigger] next[j]).id by {
        assert(groups[i].id < groups[j].id);
    }
}

/// The saved state of an optimizer. `moments` holds the bytes of the moments by parameter.
pub open spec fn saved_state(
    o: OptimizerView,
    live: Map<Seq<char>, Live>,
    moments: Map<Seq<char>, Map<Seq<char>, TensorStateView>>,
) -> SavedView {
    SavedView {
        schema_version: SCHEMA,
        settings: o.settings,
        completed: o.completed,
        groups: group_views(o),
        parameters: Map::new(
            |name: Seq<char>| o.parameters.dom().contains(name),
            |name: Seq<char>|
                ParameterStateView {
                    shape: live[name].meta@.shape,
                    kind: live[name].meta@.kind,
                    group: o.parameters[name].group,
                    step: o.parameters[name].step,
                    slots: moments[name],
                },
        ),
    }
}

/// The moments of every parameter.
pub type Moments = Map<Seq<char>, NameMap<TensorState>>;

/// The contents of moments.
pub open spec fn moments_view(moments: Moments) -> Map<Seq<char>, Map<Seq<char>, TensorStateView>> {
    moments.map_values(|slots: NameMap<TensorState>| slots@.map_values(|t: TensorState| t@))
}

/// Why state cannot be saved, if it cannot: the moments have to fit their parameters.
pub open spec fn save_checks(o: OptimizerView, names: Seq<Seq<char>>, live: Map<Seq<char>, Live>) -> spec_fn(int) -> Option<ErrorView> {
    |i: int| moments_refusal(o.parameters[names[i]], live[names[i]].meta@)
}

fn copy_tensor(tensor: &TensorState) -> (r: TensorState)
    ensures
        r@ == tensor@,
{
    TensorState {
        shape: copy_shape(tensor.shape.as_slice()),
        kind: tensor.kind,
        bytes: crate::deployment::artifact::copy_bytes(tensor.bytes.as_slice()),
    }
}

fn copy_slots(slots: &NameMap<TensorState>) -> (r: NameMap<TensorState>)
    requires
        slots.wf(),
    ensures
        r.wf(),
        r@.map_values(|t: TensorState| t@) == slots@.map_values(|t: TensorState| t@),
{
    let mut out: NameMap<TensorState> = NameMap::new();
    let mut i: usize = 0;
    while i < slots.len()
        invariant
            slots.wf(),
            out.wf(),
            i <= slots.listing().len(),
            forall|name: Seq<char>| #[trigger] out@.dom().contains(name) ==> slots@.dom().contains(name) && out@[name]@
                == slots@[name]@,
            forall|j: int| 0 <= j < i ==> out@.dom().contains(#[trigger] slots.listing()[j]),
        decreases slots.listing().len() - i,
    {
        let ghost before = out@;
        proof {
            slots.entry_in_map(i as int);
        }
        out.insert(slots.name(i).clone(), copy_tensor(slots.item(i)));
        proof {
            assert forall|j: int| 0 <= j < i + 1 implies out@.dom().contains(#[trigger] slots.listing()[j]) by {
                if j < i {
                    assert(before.dom().contains(slots.listing()[j]));
                }
            }
            assert forall|name: Seq<char>| #[trigger] out@.dom().contains(name) implies slots@.dom().contains(name)
                && out@[name]@ == slots@[name]@ by {
                if name != slots.listing()[i as int] {
                    assert(before.dom().contains(name));
                }
            }
        }
        i += 1;
    }
    proof {
        assert forall|name: Seq<char>| slots@.dom().contains(name) implies #[trigger] out@.dom().contains(name) by {
            slots.map_is_listed(name);
        }
        assert(out@.map_values(|t: TensorState| t@) =~= slots@.map_values(|t: TensorState| t@));
    }
    out
}

impl Optimizer {
    /// Loads saved state. A refusal changes nothing.
    pub fn load_state_dict(&mut self, state: &OptimizerState, live: &NameMap<Live>) -> (r: Result<()>)
        requires
            old(self).wf(),
            state.wf(),
            live.wf(),
            covers(old(self)@, live@),
        ensures
            final(self).wf(),
            refusal(r) == load_refusal(old(self)@, old(self).listing(), live@, state@),
            r is Ok ==> final(self)@ == after_load(old(self)@, live@, state@),
            r is Err ==> final(self)@ == old(self)@,
    {
        if let Err(e) = self.check_state(state, live) {
            return Err(e);
        }
        let ghost start = *self;
        let ghost o = self@;
        let ghost names = self.listing();
        let ghost n = names.len() as int;
        proof {
            self.names_are_listed();
            crate::error::first_at_none(0, n, parameter_checks(o, names, live@, state@));
            loaded_groups_stay_sorted(self.groups@, state@.groups);
        }
        let mut groups: Vec<Group> = Vec::new();
        let mut g: usize = 0;
        while g < self.groups.len()
            invariant
                *self == start,
                g <= self.groups@.len(),
                groups@.len() == g,
                forall|j: int| 0 <= j < g ==> #[trigger] groups@[j] == loaded_group(self.groups@[j], state@.groups),
            decreases self.groups@.len() - g,
        {
            let group = self.groups[g];
            match find_saved(&state.groups, group.id) {
                Some(at) => {
                    let saved = &state.groups[at];
                    groups.push(
                        Group { id: group.id, learning_rate: saved.learning_rate, weight_decay: saved.weight_decay },
                    );
                },
                None => {
                    groups.push(group);
                },
            }
            g += 1;
        }
        assert(groups@ =~= self.groups@.map_values(|x: Group| loaded_group(x, state@.groups)));
        let mut i: usize = 0;
        while i < self.parameters.len()
            invariant
                live.wf(),
                state.wf(),
                covers(o, live@),
                start.wf(),
                o == start@,
                names == start.parameters.listing(),
                n == names.len(),
                forall|j: int| 0 <= j < n ==> (#[trigger] parameter_checks(o, names, live@, state@)(j)) is None,
                self.settings == start.settings,
                self.completed == start.completed,
                self.groups == start.groups,
                self.parameters.wf(),
                self.parameters.listing() == names,
                i <= n,
                forall|j: int| 0 <= j < i ==> (#[trigger] self.parameters.items()[j])@ == loaded_parameter(
                    start.parameters.items()[j]@,
                    live@[names[j]].meta@,
                    state@.parameters[names[j]],
                ),
                forall|j: int| i <= j < n ==> #[trigger] self.parameters.items()[j] == start.parameters.items()[j],
            decreases n - i,
        {
            let parameter = self.parameters.item(i);
            let name = self.parameters.name(i).as_str();
            proof {
                start.parameters.entry_in_map(i as int);
                assert(o.parameters.dom().contains(names[i as int]));
                assert(live@.dom().contains(names[i as int]));
                assert(parameter_checks(o, names, live@, state@)(i as int) is None);
                assert(parameter_check(
                    o.parameters[names[i as int]],
                    live@[names[i as int]].meta@,
                    state@,
                    names[i as int],
                ) is None);
                assert(state@.parameters.dom().contains(names[i as int]));
                assert(self.parameters.items()[i as int] == start.parameters.items()[i as int]);
            }
            if let Some(current) = live.get(name) {
                if let Some(saved) = state.parameters.get(name) {
                    assert(state@.parameters[names[i as int]] == saved@);
                    let none = saved.slots.len() == 0;
                    proof {
                        assert(saved@.slots.dom() =~= saved.slots@.dom());
                        let at = state.parameters.listing().index_of(name@);
                        assert(state.parameters.items()[at] == *saved);
                        if saved.slots.listing().len() == 0 {
                            assert(saved@.slots.dom() =~= Set::<Seq<char>>::empty());
                        } else {
                            saved.slots.entry_in_map(0);
                            assert(saved@.slots.dom().contains(saved.slots.listing()[0]));
                        }
                    }
                    let moments = if none {
                        None
                    } else {
                        Some(copy_meta(&current.meta))
                    };
                    let next = Parameter {
                        identity: parameter.identity,
                        group: parameter.group,
                        step: saved.step,
                        moments,
                    };
                    self.parameters.set(i, next);
                }
            }
            i += 1;
        }
        self.groups = groups;
        self.settings = Settings {
            algorithm: state.algorithm,
            learning_rate: state.default_learning_rate,
            weight_decay: state.default_weight_decay,
        };
        self.completed = state.completed_steps;
        proof {
            let expected = after_load(o, live@, state@);
            assert(self@.parameters.dom() =~= expected.parameters.dom()) by {
                assert forall|name: Seq<char>| self@.parameters.dom().contains(name) <==> #[trigger] expected.parameters.dom().contains(
                    name,
                ) by {
                    assert(self.parameters@.dom().contains(name) <==> names.contains(name));
                    assert(start.parameters@.dom().contains(name) <==> names.contains(name));
                }
            }
            assert forall|name: Seq<char>| #[trigger] self@.parameters.dom().contains(name) implies self@.parameters[name]
                == expected.parameters[name] by {
                self.parameters.map_is_listed(name);
                let j = choose|j: int|
                    0 <= j < names.len() && #[trigger] names[j] == name && self.parameters.items()[j] == self.parameters@[name];
                start.parameters.entry_in_map(j);
                assert(o.parameters[name] == start.parameters.items()[j]@);
            }
            assert(self@.parameters =~= expected.parameters);
        }
        Ok(())
    }

    /// Captures the configuration and the moments.
    #[verifier::loop_isolation(false)]
    pub fn state_dict(&self, live: &NameMap<Live>, moments: &NameMap<NameMap<TensorState>>) -> (r: Result<OptimizerState>)
        requires
            self.wf(),
            live.wf(),
            covers(self@, live@),
            moments.wf(),
            forall|i: int| 0 <= i < moments.items().len() ==> (#[trigger] moments.items()[i]).wf(),
            forall|name: Seq<char>| #[trigger] self@.parameters.dom().contains(name) ==> moments@.dom().contains(name),
        ensures
            refusal(r) == first_at(0, self.listing().len() as int, save_checks(self@, self.listing(), live@)),
            r matches Ok(state) ==> state.wf() && state@ == saved_state(self@, live@, moments_view(moments@)),
    {
        let ghost o = self@;
        let ghost names = self.listing();
        let ghost n = names.len() as int;
        let ghost checks = save_checks(o, names, live@);
        proof {
            self.names_are_listed();
        }
        let mut i: usize = 0;
        while i < self.parameters.len()
            invariant
                i <= n,
                first_at(0, n, checks) == first_at(i as int, n, checks),
            decreases n - i,
        {
            proof {
                self.parameters.entry_in_map(i as int);
                assert(o.parameters.dom().contains(names[i as int]));
                assert(o.parameters[names[i as int]] == self.parameters.items()[i as int]@);
                assert(live@.dom().contains(names[i as int]));
                assert(checks(i as int) == moments_refusal(o.parameters[names[i as int]], live@[names[i as int]].meta@));
            }
            if let Some(current) = live.get(self.parameters.name(i).as_str()) {
                if let Err(e) = check_moments_of(self.parameters.item(i), &current.meta) {
                    return Err(e);
                }
            }
            i += 1;
        }
        let ghost expected = saved_state(o, live@, moments_view(moments@)).parameters;
        let mut parameters: NameMap<ParameterState> = NameMap::new();
        let mut k: usize = 0;
        while k < self.parameters.len()
            invariant
                k <= n,
                parameters.wf(),
                forall|name: Seq<char>| #[trigger] parameters@.dom().contains(name) ==> expected.dom().contains(name)
                    && parameters@[name]@ == expected[name] && parameters@[name].slots.wf(),
                forall|j: int| 0 <= j < k ==> parameters@.dom().contains(#[trigger] names[j]),
            decreases n - k,
        {
            let ghost before = parameters@;
            let name = self.parameters.name(k);
            let parameter = self.parameters.item(k);
            proof {
                self.parameters.entry_in_map(k as int);
                assert(o.parameters.dom().contains(names[k as int]));
                assert(o.parameters[names[k as int]] == self.parameters.items()[k as int]@);
                assert(live@.dom().contains(names[k as int]));
                assert(moments@.dom().contains(names[k as int]));
            }
            if let Some(current) = live.get(name.as_str()) {
                if let Some(slots) = moments.get(name.as_str()) {
                    proof {
                        let at = moments.listing().index_of(name@);
                        assert(moments.items()[at] == *slots);
                    }
                    let state = ParameterState {
                        shape: copy_shape(current.meta.shape.as_slice()),
                        kind: current.meta.kind,
                        group: parameter.group,
                        step: parameter.step,
                        slots: copy_slots(slots),
                    };
                    assert(state@ == expected[names[k as int]]);
                    parameters.insert(name.clone(), state);
                }
            }
            proof {
                assert(parameters@.dom().contains(names[k as int]));
                assert forall|j: int| 0 <= j < k + 1 implies parameters@.dom().contains(#[trigger] names[j]) by {
                    if j < k {
                        assert(before.dom().contains(names[j]));
                    }
                }
                assert forall|other: Seq<char>| #[trigger] parameters@.dom().contains(other) implies expected.dom().contains(other)
                    && parameters@[other]@ == expected[other] && parameters@[other].slots.wf() by {
                    if other != names[k as int] {
                        assert(before.dom().contains(other));
                    }
                }
            }
            k += 1;
        }
        proof {
            assert forall|name: Seq<char>| expected.dom().contains(name) implies #[trigger] parameters@.dom().contains(name) by {
                assert(names.contains(name));
                let j = names.index_of(name);
                assert(names[j] == name);
            }
            assert(parameters@.map_values(|p: ParameterState| p@) =~= expected);
            assert forall|j: int| 0 <= j < parameters.items().len() implies (#[trigger] parameters.items()[j]).slots.wf() by {
                parameters.entry_in_map(j);
            }
        }
        Ok(
            OptimizerState {
                schema_version: SCHEMA,
                algorithm: self.settings.algorithm,
                default_learning_rate: self.settings.learning_rate,
                default_weight_decay: self.settings.weight_decay,
                completed_steps: self.completed,
                groups: self.parameter_groups(),
                parameters,
            },
        )
    }
}

/// An optimizer whose settings are valid and whose counters can advance.
pub open spec fn is_sound(o: OptimizerView) -> bool {
    &&& super::settings_refusal(o.settings) is None
    &&& o.completed < u64::MAX
    &&& sorted_groups(o.groups)
    &&& forall|i: int|
        0 <= i < o.groups.len() ==> non_negative_refusal("learning_rate"@, (#[trigger] o.groups[i]).learning_rate) is None
            && non_negative_refusal("weight_decay"@, o.groups[i].weight_decay) is None
    &&& forall|name: Seq<char>| #[trigger]
        o.parameters.dom().contains(name) ==> o.parameters[name].step <= o.completed && o.parameters[name].step < u64::MAX
}

/// The moments of an optimizer are those that its rule keeps, with the right sizes.
pub open spec fn moments_fit(
    o: OptimizerView,
    live: Map<Seq<char>, Live>,
    moments: Map<Seq<char>, Map<Seq<char>, TensorStateView>>,
) -> bool {
    forall|name: Seq<char>| #[trigger]
        o.parameters.dom().contains(name) ==> {
            &&& live[name].meta@.kind.real_valued()
            &&& moments[name].dom() == expected_slots(o.settings.algorithm, o.parameters[name].step)
            &&& forall|slot: Seq<char>| #[trigger]
                moments[name].dom().contains(slot) ==> tensor_refusal(
                    moments[name][slot],
                    live[name].meta@.shape,
                    live[name].meta@.kind,
                ) is None
            &&& o.parameters[name].moments == (if moments[name].dom() == Set::<Seq<char>>::empty() {
                None
            } else {
                Some(live[name].meta@)
            })
        }
}

proof fn slot_of_member(groups: Seq<Group>, i: int)
    requires
        sorted_groups(groups),
        0 <= i < groups.len(),
    ensures
        slot_for(groups, groups[i].id, 0) == i,
{
    slot_bounds(groups, groups[i].id, 0);
    let at = slot_for(groups, groups[i].id, 0);
    if at < i {
        assert(groups[at].id < groups[i].id);
    } else if at > i {
        assert(groups[i].id < groups[i].id);
    }
}

proof fn saved_group_of_member(o: OptimizerView, i: int, from: int)
    requires
        sorted_groups(o.groups),
        0 <= from <= i < o.groups.len(),
    ensures
        saved_group(group_views(o), o.groups[i].id, from) == Some(group_views(o)[i]),
    decreases i - from,
{
    if from < i {
        assert(o.groups[from].id < o.groups[i].id);
        assert(group_views(o)[from].id == o.groups[from].id);
        saved_group_of_member(o, i, from + 1);
    }
}

/// What an optimizer saves, it can load again, and it is then what it was.
pub proof fn saved_state_is_loaded(
    o: OptimizerView,
    names: Seq<Seq<char>>,
    live: Map<Seq<char>, Live>,
    moments: Map<Seq<char>, Map<Seq<char>, TensorStateView>>,
)
    requires
        is_sound(o),
        moments_fit(o, live, moments),
        forall|i: int| 0 <= i < names.len() ==> o.parameters.dom().contains(#[trigger] names[i]),
    ensures
        load_refusal(o, names, live, saved_state(o, live, moments)) is None,
        after_load(o, live, saved_state(o, live, moments)) == o,
{
    let state = saved_state(o, live, moments);
    let groups = state.groups;
    assert(one_family(o.settings.algorithm, o.settings.algorithm));
    crate::error::first_at_none(0, groups.len() as int, group_checks(o, groups));
    assert forall|i: int| 0 <= i < groups.len() implies (#[trigger] group_checks(o, groups)(i)) is None by {
        assert(groups[i].id == o.groups[i].id);
        slot_of_member(o.groups, i);
        assert forall|j: int| 0 <= j < i implies (#[trigger] groups[j]).id != groups[i].id by {
            assert(o.groups[j].id < o.groups[i].id);
        }
        assert(group_check(o, groups, i) is None);
    }
    assert(state.parameters.dom() =~= o.parameters.dom());
    let n = names.len() as int;
    crate::error::first_at_none(0, n, parameter_checks(o, names, live, state));
    assert forall|i: int| 0 <= i < n implies (#[trigger] parameter_checks(o, names, live, state)(i)) is None by {
        let name = names[i];
        assert(o.parameters.dom().contains(name));
        let saved = state.parameters[name];
        let slots = listing_in(saved.slots.dom());
        crate::error::first_at_none(0, slots.len() as int, slot_checks(saved, live[name].meta@.kind));
        assert forall|k: int| 0 <= k < slots.len() implies (#[trigger] slot_checks(saved, live[name].meta@.kind)(k)) is None by {
            slots_are_listed(o.settings.algorithm, saved.step);
            assert(slots.contains(slots[k]));
            assert(moments[name].dom().contains(slots[k]));
        }
        assert(parameter_check(o.parameters[name], live[name].meta@, state, name) is None);
    }
    let loaded = after_load(o, live, state);
    assert(loaded.groups =~= o.groups) by {
        assert forall|i: int| 0 <= i < o.groups.len() implies loaded.groups[i] == o.groups[i] by {
            saved_group_of_member(o, i, 0);
        }
    }
    assert(loaded.parameters =~= o.parameters) by {
        assert forall|name: Seq<char>| #[trigger] o.parameters.dom().contains(name) implies loaded.parameters[name]
            == o.parameters[name] by {
        }
    }
}

/// The moments that a rule keeps can be listed in name order.
proof fn slots_are_listed(algorithm: Algorithm, step: u64)
    ensures
        forall|name: Seq<char>| listing_in(expected_slots(algorithm, step)).contains(name) <==> expected_slots(
            algorithm,
            step,
        ).contains(name),
{
    vstd::seq_lib::seq_to_set_is_finite(slot_names(algorithm));
    crate::names::listing_exists(expected_slots(algorithm, step));
}

} // verus!
