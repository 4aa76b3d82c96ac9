//! What settings are accepted, what a step counts, and when a schedule moves its rates.
use super::schedule::{
    count_of, paired_rates, rated, rates_of, started, CosineAnnealingLr, PlateauView, StepLr,
};
use super::state::{
    after_step, decay_of, fresh, gradient_refusal, has_group, members, rate_checks, rates_refusal, slot_for, slot_names, sorted_groups, with_group,
    Algorithm, Group, Live, OptimizerView, VariableView,
};
use super::{decay_refusal, loss_refusal, non_negative_refusal, settings_refusal, AdamView, RmsPropView, Settings, SgdView};
use crate::error::{first_at_none, number_text};
use crate::float::Binary64;
use crate::names::{ascending_is_distinct, listing_exists, listing_in};
use crate::number_laws::{
    fractions_lie_between_zero_and_one, numbers_are_ordered_by_value, one, one_separates_numbers, value_of,
};
use crate::tensor::MetaView;
use vstd::prelude::*;

verus! {

/// A number that is finite and at least zero.
pub open spec fn is_at_least_zero(number: Binary64) -> bool {
    number.finite() && value_of(number) >= 0
}

/// A number that is finite, at least zero and below one.
pub open spec fn is_below_one(number: Binary64) -> bool {
    number.finite() && 0 <= value_of(number) < one()
}

/// A setting that may not be negative is accepted exactly if it is finite and at least zero, and one
/// that decays exactly if it is also below one; a refusal names the setting and its number.
pub proof fn numbers_are_bounded(field: Seq<char>, number: Binary64)
    ensures
        non_negative_refusal(field, number) is None <==> is_at_least_zero(number),
        decay_refusal(field, number) is None <==> is_below_one(number),
        non_negative_refusal(field, number) matches Some(e) ==> e == number_text(
            field,
            "must be finite and non-negative"@,
            number,
        ),
        decay_refusal(field, number) matches Some(e) ==> e == number_text(field, "must be finite and in [0, 1)"@, number),
{
    if number.finite() {
        numbers_are_ordered_by_value(number, number);
        one_separates_numbers(number);
    }
}

/// The settings of an optimizer are accepted exactly if its rates are at least zero and the numbers of
/// its algorithm lie in their ranges; Nesterov momentum needs momentum and no dampening.
pub proof fn settings_are_bounded(settings: Settings)
    ensures
        settings_refusal(settings) is None <==> {
            &&& is_at_least_zero(settings.learning_rate)
            &&& is_at_least_zero(settings.weight_decay)
            &&& match settings.algorithm {
                Algorithm::Adam { beta1, beta2, eps, .. } => is_below_one(beta1) && is_below_one(beta2) && is_at_least_zero(eps),
                Algorithm::Adamax { beta1, beta2, eps } => is_below_one(beta1) && is_below_one(beta2) && is_at_least_zero(eps),
                Algorithm::Sgd { momentum, dampening, nesterov } => {
                    &&& is_at_least_zero(momentum)
                    &&& is_at_least_zero(dampening)
                    &&& nesterov ==> value_of(momentum) > 0 && value_of(dampening) == 0
                },
                Algorithm::RmsProp { alpha, eps, momentum, .. } => {
                    is_at_least_zero(alpha) && is_at_least_zero(eps) && is_at_least_zero(momentum)
                },
                Algorithm::Adagrad { lr_decay, initial_accumulator, eps } => {
                    is_at_least_zero(lr_decay) && is_at_least_zero(initial_accumulator) && is_at_least_zero(eps)
                },
                Algorithm::Adadelta { rho, eps } => rho.finite() && 0 <= value_of(rho) <= one() && is_at_least_zero(eps),
            }
        },
{
    let any = ""@;
    numbers_are_bounded(any, settings.learning_rate);
    numbers_are_bounded(any, settings.weight_decay);
    match settings.algorithm {
        Algorithm::Adam { beta1, beta2, eps, .. } => {
            numbers_are_bounded(any, beta1);
            numbers_are_bounded(any, beta2);
            numbers_are_bounded(any, eps);
        },
        Algorithm::Adamax { beta1, beta2, eps } => {
            numbers_are_bounded(any, beta1);
            numbers_are_bounded(any, beta2);
            numbers_are_bounded(any, eps);
        },
        Algorithm::Sgd { momentum, dampening, .. } => {
            numbers_are_bounded(any, momentum);
            numbers_are_bounded(any, dampening);
            if is_at_least_zero(momentum) && is_at_least_zero(dampening) {
                numbers_are_ordered_by_value(momentum, dampening);
                numbers_are_ordered_by_value(dampening, dampening);
            }
        },
        Algorithm::RmsProp { alpha, eps, momentum, .. } => {
            numbers_are_bounded(any, alpha);
            numbers_are_bounded(any, eps);
            numbers_are_bounded(any, momentum);
        },
        Algorithm::Adagrad { lr_decay, initial_accumulator, eps } => {
            numbers_are_bounded(any, lr_decay);
            numbers_are_bounded(any, initial_accumulator);
            numbers_are_bounded(any, eps);
        },
        Algorithm::Adadelta { rho, eps } => {
            fractions_lie_between_zero_and_one(rho);
            numbers_are_bounded(any, eps);
        },
    }
}

/// A configuration of Adam is accepted exactly if its numbers lie in their ranges and no option that
/// has no counterpart is asked for; its settings then carry its numbers and are accepted.
pub proof fn adam_is_configured_soundly(config: AdamView, decoupled: bool)
    ensures
        config.refusal() is None <==> {
            &&& is_at_least_zero(config.learning_rate) && is_at_least_zero(config.eps) && is_at_least_zero(config.weight_decay)
            &&& is_below_one(config.beta1) && is_below_one(config.beta2)
            &&& !config.maximize && config.foreach != Some(true) && !config.capturable
            &&& !config.differentiable && config.fused != Some(true) && !config.decoupled_weight_decay
        },
        config.refusal() is None ==> settings_refusal(config.settings(decoupled)) is None,
        config.settings(decoupled).learning_rate == config.learning_rate,
        config.settings(decoupled).weight_decay == config.weight_decay,
        config.settings(decoupled).algorithm matches Algorithm::Adam { beta1, beta2, eps, amsgrad, decoupled: d } && beta1
            == config.beta1 && beta2 == config.beta2 && eps == config.eps && amsgrad == config.amsgrad && d == decoupled,
{
    let any = ""@;
    numbers_are_bounded(any, config.learning_rate);
    numbers_are_bounded(any, config.eps);
    numbers_are_bounded(any, config.weight_decay);
    numbers_are_bounded(any, config.beta1);
    numbers_are_bounded(any, config.beta2);
}

/// A configuration of SGD is accepted exactly if its numbers are at least zero, Nesterov momentum has
/// momentum and no dampening, and no option that has no counterpart is asked for.
pub proof fn sgd_is_configured_soundly(config: SgdView)
    ensures
        config.refusal() is None <==> {
            &&& is_at_least_zero(config.learning_rate) && is_at_least_zero(config.weight_decay)
            &&& is_at_least_zero(config.momentum) && is_at_least_zero(config.dampening)
            &&& config.nesterov ==> value_of(config.momentum) > 0 && value_of(config.dampening) == 0
            &&& !config.maximize && config.foreach != Some(true) && !config.differentiable && config.fused != Some(true)
        },
        config.refusal() is None ==> settings_refusal(config.settings()) is None,
        config.settings().learning_rate == config.learning_rate,
        config.settings().weight_decay == config.weight_decay,
        config.settings().algorithm matches Algorithm::Sgd { momentum, dampening, nesterov } && momentum == config.momentum
            && dampening == config.dampening && nesterov == config.nesterov,
{
    let any = ""@;
    numbers_are_bounded(any, config.learning_rate);
    numbers_are_bounded(any, config.weight_decay);
    numbers_are_bounded(any, config.momentum);
    numbers_are_bounded(any, config.dampening);
    if is_at_least_zero(config.momentum) && is_at_least_zero(config.dampening) {
        numbers_are_ordered_by_value(config.momentum, config.dampening);
        numbers_are_ordered_by_value(config.dampening, config.dampening);
    }
}

/// A configuration of RMSprop is accepted exactly if its numbers are at least zero.
pub proof fn rms_prop_is_configured_soundly(config: RmsPropView)
    ensures
        config.refusal() is None <==> {
            &&& is_at_least_zero(config.learning_rate) && is_at_least_zero(config.weight_decay) && is_at_least_zero(config.alpha)
            &&& is_at_least_zero(config.eps) && is_at_least_zero(config.momentum)
        },
        config.refusal() is None ==> settings_refusal(config.settings()) is None,
        config.settings().learning_rate == config.learning_rate,
        config.settings().weight_decay == config.weight_decay,
        config.settings().algorithm matches Algorithm::RmsProp { alpha, eps, momentum, centered } && alpha == config.alpha && eps
            == config.eps && momentum == config.momentum && centered == config.centered,
{
    let any = ""@;
    numbers_are_bounded(any, config.learning_rate);
    numbers_are_bounded(any, config.weight_decay);
    numbers_are_bounded(any, config.alpha);
    numbers_are_bounded(any, config.eps);
    numbers_are_bounded(any, config.momentum);
}

/// A loss is accepted exactly if it is defined and has no dimension.
pub proof fn losses_are_scalars(loss: MetaView)
    ensures
        loss_refusal(loss) is None <==> loss.defined && loss.shape == Seq::<i64>::empty(),
{
    if loss.shape.len() == 0 {
        assert(loss.shape =~= Seq::<i64>::empty());
    }
}

/// The tensors that an algorithm keeps for a parameter, by name.
pub proof fn moments_are_those_of_the_algorithm(algorithm: Algorithm)
    requires
        settings_refusal(Settings { algorithm, learning_rate: Binary64 { bits: 0 }, weight_decay: Binary64 { bits: 0 } }) is None,
    ensures
        match algorithm {
            Algorithm::Adam { amsgrad, .. } => slot_names(algorithm) == (if amsgrad {
                seq!["exp_avg"@, "exp_avg_sq"@, "max_exp_avg_sq"@]
            } else {
                seq!["exp_avg"@, "exp_avg_sq"@]
            }),
            Algorithm::Adamax { .. } => slot_names(algorithm) == seq!["exp_avg"@, "exp_inf"@],
            Algorithm::Adagrad { .. } => slot_names(algorithm) == seq!["sum"@],
            Algorithm::Adadelta { .. } => slot_names(algorithm) == seq!["square_avg"@, "acc_delta"@],
            Algorithm::Sgd { momentum, .. } => slot_names(algorithm) == (if value_of(momentum) > 0 {
                seq!["momentum_buffer"@]
            } else {
                seq![]
            }),
            Algorithm::RmsProp { momentum, centered, .. } => slot_names(algorithm) == seq!["square_avg"@] + (if centered {
                seq!["grad_avg"@]
            } else {
                seq![]
            }) + (if value_of(momentum) > 0 {
                seq!["momentum_buffer"@]
            } else {
                seq![]
            }),
        },
{
    settings_are_bounded(Settings { algorithm, learning_rate: Binary64 { bits: 0 }, weight_decay: Binary64 { bits: 0 } });
    match algorithm {
        Algorithm::Sgd { momentum, .. } => {
            numbers_are_ordered_by_value(momentum, momentum);
            assert(slot_names(algorithm) =~= (if value_of(momentum) > 0 {
                seq!["momentum_buffer"@]
            } else {
                seq![]
            }));
        },
        Algorithm::RmsProp { momentum, centered, .. } => {
            numbers_are_ordered_by_value(momentum, momentum);
            assert(slot_names(algorithm) =~= seq!["square_avg"@] + (if centered {
                seq!["grad_avg"@]
            } else {
                seq![]
            }) + (if value_of(momentum) > 0 {
                seq!["momentum_buffer"@]
            } else {
                seq![]
            }));
        },
        _ => {},
    }
}

/// A step counts itself once, counts once more each parameter that has a gradient, and leaves every
/// other parameter, the groups and the settings alone.
pub proof fn steps_count_the_parameters_with_gradients(o: OptimizerView, live: Map<Seq<char>, Live>, name: Seq<char>)
    requires
        o.completed < u64::MAX - 1,
        o.parameters.dom().contains(name),
        o.parameters[name].step < u64::MAX - 1,
    ensures
        after_step(o, live).completed == o.completed + 1,
        after_step(o, live).settings == o.settings,
        after_step(o, live).groups == o.groups,
        after_step(o, live).parameters.dom() == o.parameters.dom(),
        after_step(o, live).parameters[name].identity == o.parameters[name].identity,
        after_step(o, live).parameters[name].group == o.parameters[name].group,
        live[name].gradient is None ==> after_step(o, live).parameters[name] == o.parameters[name],
        live[name].gradient is Some ==> {
            let after = after_step(o, live).parameters[name];
            &&& after.step == o.parameters[name].step + 1
            &&& after.moments is Some <==> slot_names(o.settings.algorithm).len() > 0
            &&& after.moments matches Some(moments) ==> moments == live[name].meta@
        },
{
    assert(after_step(o, live).parameters.dom() =~= o.parameters.dom());
}

/// A gradient is accepted exactly if its parameter holds real numbers, is defined and still fits its
/// moments, the gradient has the parameter's shape, element type and device, and it is dense or meets
/// plain descent without momentum and weight decay.
pub proof fn gradients_fit_their_parameters(
    parameter: super::state::ParameterView,
    live: MetaView,
    gradient: MetaView,
    sparse: bool,
    algorithm: Algorithm,
    weight_decay: Binary64,
)
    requires
        weight_decay.finite(),
        algorithm matches Algorithm::Sgd { momentum, .. } ==> momentum.finite(),
    ensures
        gradient_refusal(parameter, live, gradient, sparse, algorithm, weight_decay) is None <==> {
            &&& live.defined
            &&& live.kind is Float || live.kind is Double || live.kind is Half || live.kind is BFloat16
            &&& gradient.shape == live.shape && gradient.kind == live.kind && gradient.device == live.device
            &&& parameter.moments matches Some(m) ==> m.shape == live.shape && m.kind == live.kind && m.device == live.device
            &&& sparse ==> algorithm is Sgd && value_of(algorithm->Sgd_momentum) == 0 && value_of(weight_decay) == 0
        },
{
    numbers_are_ordered_by_value(weight_decay, weight_decay);
    if algorithm is Sgd {
        numbers_are_ordered_by_value(algorithm->Sgd_momentum, algorithm->Sgd_momentum);
    }
}

proof fn slot_is_first(groups: Seq<Group>, id: usize, i: int)
    requires
        0 <= i <= groups.len(),
    ensures
        i <= slot_for(groups, id, i) <= groups.len(),
        slot_for(groups, id, i) < groups.len() ==> groups[slot_for(groups, id, i)].id >= id,
        forall|j: int| i <= j < slot_for(groups, id, i) ==> (#[trigger] groups[j]).id < id,
    decreases groups.len() - i,
{
    if i < groups.len() && groups[i].id < id {
        slot_is_first(groups, id, i + 1);
    }
}

/// Among sorted groups, a group is found exactly if one has its number, and its decay is that of the
/// group with that number.
pub proof fn groups_are_found_by_number(groups: Seq<Group>, id: usize, i: int)
    requires
        sorted_groups(groups),
        0 <= i < groups.len(),
    ensures
        has_group(groups, groups[i].id),
        decay_of(groups, groups[i].id) == groups[i].weight_decay,
        has_group(groups, id) <==> exists|j: int| 0 <= j < groups.len() && (#[trigger] groups[j]).id == id,
{
    slot_is_first(groups, groups[i].id, 0);
    slot_is_first(groups, id, 0);
    let at = slot_for(groups, groups[i].id, 0);
    assert(at == i);
    if exists|j: int| 0 <= j < groups.len() && (#[trigger] groups[j]).id == id {
        let j = choose|j: int| 0 <= j < groups.len() && (#[trigger] groups[j]).id == id;
        assert(slot_for(groups, id, 0) == j);
    }
}

/// A new group is there after it was added, together with all groups before it; a group whose number
/// was taken changes nothing.
pub proof fn adding_a_group_keeps_the_others(groups: Seq<Group>, new: Group, i: int)
    requires
        sorted_groups(groups),
        0 <= i < groups.len(),
    ensures
        with_group(groups, new).contains(groups[i]),
        has_group(groups, new.id) ==> with_group(groups, new) == groups,
        !has_group(groups, new.id) ==> with_group(groups, new).contains(new) && with_group(groups, new).len() == groups.len() + 1,
{
    let at = slot_for(groups, new.id, 0);
    slot_is_first(groups, new.id, 0);
    let after = with_group(groups, new);
    if has_group(groups, new.id) {
        assert(after[i] == groups[i]);
    } else {
        assert(after[at] == new);
        if i < at {
            assert(after[i] == groups[i]);
        } else {
            assert(after[i + 1] == groups[i]);
        }
    }
}

/// Registration, as far as one list of variables goes: each variable is either the parameter that was
/// there before, with its group and identity, or a new one without steps in a group that exists.
proof fn additions_register(o: OptimizerView, variables: Seq<VariableView>, n: int)
    requires
        0 <= n <= variables.len(),
        o.additions(variables, n) is Ok,
        sorted_groups(o.groups),
    ensures
        sorted_groups(o.additions(variables, n)->Ok_0.groups),
        forall|i: int| 0 <= i < o.groups.len() ==> o.additions(variables, n)->Ok_0.groups.contains(#[trigger] o.groups[i]),
        forall|name: Seq<char>|
            o.additions(variables, n)->Ok_0.parameters.dom().contains(name) ==> !(#[trigger] o.parameters.dom().contains(name)),
        forall|i: int|
            0 <= i < n ==> {
                let variable = #[trigger] variables[i];
                let added = o.additions(variables, n)->Ok_0;
                &&& variable.names.len() == 1
                &&& o.parameters.dom().contains(variable.names[0]) ==> o.parameters[variable.names[0]].group == variable.group
                    && o.parameters[variable.names[0]].identity == variable.identity
                &&& !o.parameters.dom().contains(variable.names[0]) ==> added.parameters.dom().contains(variable.names[0])
                    && added.parameters[variable.names[0]] == fresh(variable) && has_group(added.groups, variable.group)
            },
    decreases n,
{
    if n > 0 {
        additions_register(o, variables, n - 1);
        let before = o.additions(variables, n - 1)->Ok_0;
        let variable = variables[n - 1];
        if !o.parameters.dom().contains(variable.names[0]) {
            let new = Group {
                id: variable.group,
                learning_rate: o.settings.learning_rate,
                weight_decay: o.settings.weight_decay,
            };
            let after = with_group(before.groups, new);
            super::state::groups_stay_sorted(before.groups, new);
            let at = slot_for(before.groups, new.id, 0);
            slot_is_first(before.groups, new.id, 0);
            slot_is_first(after, new.id, 0);
            assert(has_group(after, new.id)) by {
                if !has_group(before.groups, new.id) {
                    assert(after[at] == new);
                    groups_are_found_by_number(after, new.id, at);
                }
            }
            assert forall|i: int| 0 <= i < o.groups.len() implies after.contains(#[trigger] o.groups[i]) by {
                let j = choose|j: int| 0 <= j < before.groups.len() && before.groups[j] == o.groups[i];
                adding_a_group_keeps_the_others(before.groups, new, j);
            }
            assert forall|i: int| 0 <= i < n - 1 && !o.parameters.dom().contains((#[trigger] variables[i]).names[0]) implies has_group(
                after,
                variables[i].group,
            ) by {
                let j = slot_for(before.groups, variables[i].group, 0);
                slot_is_first(before.groups, variables[i].group, 0);
                adding_a_group_keeps_the_others(before.groups, new, j);
                let k = choose|k: int| 0 <= k < after.len() && after[k] == before.groups[j];
                groups_are_found_by_number(after, variables[i].group, k);
            }
        }
    }
}

/// Where more variables than parameters are registered, every parameter keeps what it had, every
/// variable is then a parameter of its group with its identity, new ones start without steps and
/// moments, and every earlier group is still there.
pub proof fn registration_adds_the_new_variables(o: OptimizerView, variables: Seq<VariableView>, i: int)
    requires
        variables.len() > o.parameters.dom().len(),
        o.synchronized(variables) is Ok,
        sorted_groups(o.groups),
        0 <= i < variables.len(),
    ensures
        ({
            let after = o.synchronized(variables)->Ok_0;
            let name = variables[i].names[0];
            &&& after.settings == o.settings && after.completed == o.completed
            &&& forall|old_name: Seq<char>| #[trigger]
                o.parameters.dom().contains(old_name) ==> after.parameters.dom().contains(old_name) && after.parameters[old_name]
                    == o.parameters[old_name]
            &&& variables[i].names == seq![name]
            &&& after.parameters.dom().contains(name)
            &&& after.parameters[name].group == variables[i].group
            &&& after.parameters[name].identity == variables[i].identity
            &&& !o.parameters.dom().contains(name) ==> after.parameters[name].step == 0 && after.parameters[name].moments is None
                && has_group(after.groups, variables[i].group)
            &&& forall|g: int| 0 <= g < o.groups.len() ==> after.groups.contains(#[trigger] o.groups[g])
        }),
{
    additions_register(o, variables, variables.len() as int);
    let added = o.additions(variables, variables.len() as int)->Ok_0;
    let after = o.synchronized(variables)->Ok_0;
    assert(variables[i].names =~= seq![variables[i].names[0]]);
    assert forall|old_name: Seq<char>| #[trigger] o.parameters.dom().contains(old_name) implies after.parameters.dom().contains(old_name)
        && after.parameters[old_name] == o.parameters[old_name] by {
        assert(!added.parameters.dom().contains(old_name));
    }
}

/// The names listed for a group are those of the parameters that belong to it.
pub proof fn members_are_the_parameters_of_the_group(o: OptimizerView, id: usize, name: Seq<char>)
    requires
        o.parameters.dom().finite(),
    ensures
        members(o.parameters, id).contains(name) <==> o.parameters.dom().contains(name) && o.parameters[name].group == id,
        members(o.parameters, id).no_duplicates(),
{
    let chosen = Set::new(|name: Seq<char>| o.parameters.dom().contains(name) && o.parameters[name].group == id);
    assert(chosen.subset_of(o.parameters.dom()));
    assert(chosen.finite()) by {
        assert(chosen =~= o.parameters.dom().intersect(chosen));
    }
    listing_exists(chosen);
    ascending_is_distinct(listing_in(chosen));
}

/// A schedule begins at epoch zero with the numbers and rates of the groups, and needs a group.
pub proof fn schedules_begin_with_the_rates_of_the_groups(groups: Seq<Group>, i: int)
    requires
        0 <= i < groups.len(),
    ensures
        started(Seq::<Group>::empty()) is Err,
        started(groups) matches Ok(s) && {
            &&& s.epoch == 0
            &&& s.group_ids.len() == groups.len() && s.base_rates.len() == groups.len() && s.last_rates.len() == groups.len()
            &&& s.group_ids[i] == groups[i].id
            &&& s.base_rates[i] == groups[i].learning_rate
            &&& s.last_rates[i] == groups[i].learning_rate
        },
{
}

/// New rates are accepted exactly if there is one for each group, in the order of the groups, and none
/// is negative or infinite. Each group then has its new rate and keeps its number and decay; nothing
/// else of the optimizer changes.
pub proof fn rates_are_applied_to_their_groups(o: OptimizerView, ids: Seq<usize>, rates: Seq<Binary64>)
    requires
        ids.len() == rates.len(),
    ensures
        rates_refusal(o.groups, paired_rates(ids, rates)) is None <==> {
            &&& rates.len() == o.groups.len()
            &&& forall|i: int| 0 <= i < rates.len() ==> ids[i] == (#[trigger] o.groups[i]).id && is_at_least_zero(rates[i])
        },
        rates_refusal(o.groups, paired_rates(ids, rates)) is None ==> {
            let after = rated(o, ids, rates);
            &&& after.settings == o.settings && after.completed == o.completed && after.parameters == o.parameters
            &&& after.groups.len() == o.groups.len()
            &&& forall|i: int|
                0 <= i < rates.len() ==> (#[trigger] after.groups[i]).learning_rate == rates[i] && after.groups[i].id
                    == o.groups[i].id && after.groups[i].weight_decay == o.groups[i].weight_decay
        },
{
    let pairs = paired_rates(ids, rates);
    let wanted = o.groups.map_values(|g: Group| g.id);
    let given = pairs.map_values(|r: (usize, Binary64)| r.0);
    assert forall|i: int| 0 <= i < rates.len() implies (rate_checks(pairs)(i) is None <==> is_at_least_zero(#[trigger] rates[i])) by {
        numbers_are_bounded("learning_rate"@, rates[i]);
    }
    first_at_none(0, pairs.len() as int, rate_checks(pairs));
    if rates_refusal(o.groups, pairs) is None {
        assert(given == wanted);
        assert forall|i: int| 0 <= i < rates.len() implies ids[i] == (#[trigger] o.groups[i]).id && is_at_least_zero(rates[i]) by {
            assert(given[i] == wanted[i]);
            assert(rate_checks(pairs)(i) is None);
        }
    }
    if rates.len() == o.groups.len() && (forall|i: int|
        0 <= i < rates.len() ==> ids[i] == (#[trigger] o.groups[i]).id && is_at_least_zero(rates[i])) {
        assert forall|i: int| 0 <= i < given.len() implies given[i] == wanted[i] by {
            assert(ids[i] == o.groups[i].id);
        }
        assert(given =~= wanted);
        assert forall|i: int| 0 <= i < pairs.len() implies (#[trigger] rate_checks(pairs)(i)) is None by {
            assert(ids[i] == o.groups[i].id);
            assert(is_at_least_zero(rates[i]));
        }
    }
}

/// A schedule by steps gives out scaled rates exactly at the epochs that are multiples of its interval;
/// at every other epoch the groups keep their rates.
pub proof fn stepped_rates_change_at_multiples(s: StepLr, o: OptimizerView, scaled: Seq<Binary64>, times: int, past: int)
    requires
        s.interval() > 0,
        0 <= past < s.interval(),
        s.schedule().epoch + 1 == times * s.interval() + past,
    ensures
        past == 0 ==> s.next_rates(o, scaled) == scaled,
        past > 0 ==> s.next_rates(o, scaled).len() == o.groups.len() && forall|i: int|
            0 <= i < o.groups.len() ==> s.next_rates(o, scaled)[i] == (#[trigger] o.groups[i]).learning_rate,
{
    vstd::arithmetic::div_mod::lemma_fundamental_div_mod_converse(
        s.schedule().epoch + 1,
        s.interval() as int,
        times,
        past,
    );
}

/// A cosine schedule turns one epoch after each odd multiple of its half cycle, and nowhere else.
pub proof fn cosine_turns_after_odd_half_cycles(t_max: u64, epoch: int, halves: int, past: int)
    requires
        t_max > 0,
        0 <= past < t_max,
        epoch == halves * t_max + past + 1,
    ensures
        CosineAnnealingLr::turns_at(t_max, epoch) <==> past == 0 && halves % 2 == 1 && halves >= 0,
{
    let t = t_max as int;
    let cycle = 2 * t;
    let gone = epoch - 1 - t;
    assert(gone == (halves - 1) * t + past) by (nonlinear_arith)
        requires
            gone == halves * t + past + 1 - 1 - t,
    ;
    if halves >= 1 {
        let odd = (halves - 1) % 2;
        let turns = (halves - 1) / 2;
        assert(halves - 1 == 2 * turns + odd);
        let rest = odd * t + past;
        assert(gone == turns * cycle + rest) by (nonlinear_arith)
            requires
                gone == (halves - 1) * t + past,
                halves - 1 == 2 * turns + odd,
                cycle == 2 * t,
                rest == odd * t + past,
        ;
        if odd == 0 {
            assert(rest == past) by (nonlinear_arith)
                requires
                    odd == 0,
                    rest == odd * t + past,
            ;
        } else {
            assert(rest == t + past) by (nonlinear_arith)
                requires
                    odd == 1,
                    rest == odd * t + past,
            ;
        }
        vstd::arithmetic::div_mod::lemma_fundamental_div_mod_converse(gone, cycle, turns, rest);
        assert(halves * t >= t) by (nonlinear_arith)
            requires
                halves >= 1,
                t > 0,
        ;
    } else {
        assert(halves * t <= 0) by (nonlinear_arith)
            requires
                halves <= 0,
                t > 0,
        ;
    }
}

/// A cosine schedule gives out the turned rates exactly where it turns, and the curved ones elsewhere.
pub proof fn cosine_rates_turn_at_the_minimum(
    s: CosineAnnealingLr,
    turned: Seq<Binary64>,
    curved: Seq<Binary64>,
    halves: int,
    past: int,
)
    requires
        s.half_cycle() > 0,
        0 <= past < s.half_cycle(),
        s.schedule().epoch == halves * s.half_cycle() + past,
    ensures
        past == 0 && halves % 2 == 1 ==> s.next_rates(turned, curved) == turned,
        past > 0 || halves % 2 == 0 ==> s.next_rates(turned, curved) == curved,
{
    cosine_turns_after_odd_half_cycles(s.half_cycle(), s.schedule().epoch + 1, halves, past);
    let t = s.half_cycle() as int;
    if halves < 0 {
        assert(halves * t + past < 0) by (nonlinear_arith)
            requires
                halves < 0,
                0 <= past < t,
        ;
    }
}

proof fn counts_are_multiplicities(list: Seq<u64>, value: u64, n: int)
    requires
        0 <= n <= list.len(),
    ensures
        count_of(list, value, n) == list.take(n).to_multiset().count(value),
    decreases n,
{
    broadcast use vstd::seq_lib::group_to_multiset_ensures;
    if n == 0 {
        assert(list.take(0) =~= Seq::<u64>::empty());
    } else {
        counts_are_multiplicities(list, value, n - 1);
        assert(list.take(n) =~= list.take(n - 1).push(list[n - 1]));
    }
}

/// The rates decay at an epoch as often as the epoch stands among the milestones, in whatever order
/// they are listed.
pub proof fn decays_count_the_milestones(milestones: Seq<u64>, sorted: Seq<u64>, epoch: u64)
    requires
        sorted.to_multiset() == milestones.to_multiset(),
    ensures
        count_of(sorted, epoch, sorted.len() as int) == milestones.to_multiset().count(epoch),
        count_of(milestones, epoch, milestones.len() as int) == milestones.to_multiset().count(epoch),
{
    counts_are_multiplicities(sorted, epoch, sorted.len() as int);
    counts_are_multiplicities(milestones, epoch, milestones.len() as int);
    assert(sorted.take(sorted.len() as int) =~= sorted);
    assert(milestones.take(milestones.len() as int) =~= milestones);
}

/// The first metric is an improvement; later ones are where they are below the bound, or above it
/// where larger is better.
pub proof fn improvements_pass_the_bound(p: PlateauView, metric: Binary64, bound: Binary64)
    requires
        metric.finite(),
        bound.finite(),
    ensures
        p.best is None ==> p.improved(metric, bound),
        p.best is Some && p.mode is Min ==> (p.improved(metric, bound) <==> value_of(metric) < value_of(bound)),
        p.best is Some && p.mode is Max ==> (p.improved(metric, bound) <==> value_of(metric) > value_of(bound)),
        p.advanced(Seq::empty(), metric, bound).best == (if p.improved(metric, bound) {
            Some(metric)
        } else {
            p.best
        }),
{
    numbers_are_ordered_by_value(metric, bound);
    numbers_are_ordered_by_value(bound, metric);
}

/// After a metric that is no improvement, outside a cooldown, the rates are reduced exactly if more
/// epochs than the patience allows went by without one; the count and the cooldown then start anew.
/// Each epoch of a cooldown takes one from it and counts nothing.
pub proof fn rates_are_reduced_when_patience_ends(p: PlateauView, o: OptimizerView, metric: Binary64, bound: Binary64, reduced: Seq<Binary64>)
    requires
        p.bad_epochs < u64::MAX,
        p.schedule.epoch < u64::MAX,
    ensures
        ({
            let rates = p.next_rates(o, metric, bound, reduced);
            let after = p.advanced(rates, metric, bound);
            let worse = !p.improved(metric, bound);
            &&& after.schedule.epoch == p.schedule.epoch + 1
            &&& after.schedule.last_rates == rates
            &&& after.schedule.base_rates == p.schedule.base_rates && after.schedule.group_ids == p.schedule.group_ids
            &&& p.cooldown_remaining > 0 ==> rates == rates_of(o.groups) && after.bad_epochs == 0 && after.cooldown_remaining
                == p.cooldown_remaining - 1
            &&& p.cooldown_remaining == 0 && !worse ==> rates == rates_of(o.groups) && after.bad_epochs == 0
                && after.cooldown_remaining == 0
            &&& p.cooldown_remaining == 0 && worse && p.bad_epochs >= p.patience ==> rates == reduced && after.bad_epochs == 0
                && after.cooldown_remaining == p.cooldown
            &&& p.cooldown_remaining == 0 && worse && p.bad_epochs < p.patience ==> rates == rates_of(o.groups)
                && after.bad_epochs == p.bad_epochs + 1 && after.cooldown_remaining == 0
        }),
{
}

} // verus!
