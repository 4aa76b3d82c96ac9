//! When a scaled step is applied, and which states of a scaler are accepted.
use crate::amp::{is_grown, is_nearest, is_reduced, is_updated, needed, GradScalerState, Gradient, Phase, ScalerView, StepAction};
use crate::float::Binary64;
use crate::kind::{Device, DeviceSpec};
use crate::number_laws::{one, scales_are_single_magnitudes, units_of_one, value_of};
use crate::product::{is_product, product_is_unique, units, units_are_increasing};
use vstd::arithmetic::power2::pow2;
use vstd::prelude::*;

verus! {

/// A step first unscales the gradients; it is then applied exactly if they were found finite, and
/// skipped exactly if they were not. An optimizer whose gradients were not unscaled is refused, and so
/// is a second step before the scale was updated.
pub proof fn steps_follow_the_gradients(s: ScalerView, optimizer: u64, other: u64)
    ensures
        s.action(optimizer) == Ok::<StepAction, crate::error::ErrorView>(StepAction::Unscale) <==> s.phase is Ready,
        s.action(optimizer) == Ok::<StepAction, crate::error::ErrorView>(StepAction::Apply) <==> s.phase == (Phase::Unscaled {
            optimizer,
            finite: true,
        }),
        s.action(optimizer) == Ok::<StepAction, crate::error::ErrorView>(StepAction::Skip) <==> s.phase == (Phase::Unscaled {
            optimizer,
            finite: false,
        }),
        s.phase is Stepped ==> s.action(optimizer) is Err,
        s.phase is Unscaled && optimizer != other && s.action(optimizer) is Ok ==> s.action(other) is Err,
        s.ready_refusal() is None <==> s.phase is Ready,
{
}

/// Gradients are taken exactly in a new cycle, where at least one is defined and every defined one is
/// dense.
pub proof fn unscaling_needs_dense_gradients(s: ScalerView, gradients: Seq<Gradient>)
    ensures
        s.gradients_refusal(gradients) is None <==> {
            &&& s.phase is Ready
            &&& exists|i: int| 0 <= i < gradients.len() && (#[trigger] gradients[i]).defined
            &&& forall|i: int| 0 <= i < gradients.len() && (#[trigger] gradients[i]).defined ==> !gradients[i].sparse
        },
{
}

/// A saved state is accepted exactly if its schema is the first, its settings and scale are accepted,
/// and its counter is below the growth interval; where scaling is off the scale is one and the counter
/// zero.
pub proof fn saved_scales_are_sound(state: GradScalerState)
    ensures
        state.refusal() is None <==> {
            &&& state.schema_version == 1
            &&& state.config.refusal() is None
            &&& state.scale.finite()
            &&& pow2(948) <= value_of(state.scale) <= 0xff_ffff * pow2(1178)
            &&& state.growth_tracker < state.config.growth_interval
            &&& !state.config.enabled ==> value_of(state.scale) == one() && state.growth_tracker == 0
        },
{
    scales_are_single_magnitudes(state.scale);
    units_of_one();
    let bits = state.scale.bits as int;
    let one_bits: int = 0x3ff0_0000_0000_0000;
    if bits < one_bits {
        units_are_increasing(bits, one_bits);
    } else if bits < 0x8000_0000_0000_0000 {
        units_are_increasing(one_bits, bits);
    }
}

/// After an update a new cycle begins. The counter of steps in a row grows by one with each applied
/// step, and starts anew after a skipped one and after the scale has grown.
pub proof fn updates_count_the_applied_steps(s: ScalerView)
    requires
        s.config.enabled,
        s.growth_tracker < s.config.growth_interval,
    ensures
        s.phase == (Phase::Stepped { applied: false }) ==> s.backs_off() && !s.grows() && s.next_tracker() == 0,
        s.phase == (Phase::Stepped { applied: true }) ==> {
            &&& !s.backs_off()
            &&& s.growth_tracker == s.config.growth_interval - 1 ==> s.grows() && s.next_tracker() == 0
            &&& s.growth_tracker < s.config.growth_interval - 1 ==> !s.grows() && s.next_tracker() == s.growth_tracker + 1
        },
{
}

/// A product that can be held exactly is exact, and one that lies midway between two numbers is the one
/// whose last bit is zero.
pub proof fn products_are_exact_where_they_can_be(a: Binary64, b: Binary64, r: Binary64, x: Binary64)
    requires
        is_product(a, b, r),
        x.bits < 0x7ff0_0000_0000_0000,
        r.bits < 0x7ff0_0000_0000_0000,
    ensures
        units(a.bits as int) * units(b.bits as int) == units(x.bits as int) * one() ==> r == x,
        2 * (units(a.bits as int) * units(b.bits as int)) == (units(r.bits as int) + units(r.bits + 1)) * one() ==> r.bits % 2 == 0,
        r.bits > 0 && 2 * (units(a.bits as int) * units(b.bits as int)) == (units(r.bits - 1) + units(r.bits as int)) * one()
            ==> r.bits % 2 == 0,
{
    units_of_one();
    if units(a.bits as int) * units(b.bits as int) == units(x.bits as int) * one() {
        let unit = one();
        let at = units(x.bits as int);
        let next = units(x.bits + 1);
        units_are_increasing(0, 0x3ff0_0000_0000_0000);
        units_are_increasing(x.bits as int, x.bits + 1);
        assert(units(0) == 0);
        assert(2 * (at * unit) < (at + next) * unit) by (nonlinear_arith)
            requires
                at < next,
                unit > 0,
        ;
        if x.bits > 0 {
            let last = units(x.bits - 1);
            units_are_increasing(x.bits - 1, x.bits as int);
            assert((last + at) * unit < 2 * (at * unit)) by (nonlinear_arith)
                requires
                    last < at,
                    unit > 0,
            ;
        }
        assert(is_product(a, b, x));
        product_is_unique(a, b, r, x);
    }
}

/// After an update the scale is its product with the growth or backoff factor, in single precision, where
/// that is a normal number; a scale that would grow too large stays, and one that would become too small is
/// the smallest.
pub proof fn updated_scales_are_products(before: ScalerView, after: ScalerView, product: Binary64)
    requires
        is_updated(before, after),
    ensures
        after.phase is Ready && after.config == before.config,
        before.grows() && is_product(before.scale, before.config.growth_factor, product) ==> after.scale == before.scale || is_nearest(
            product,
            after.scale,
        ),
        before.grows() && is_product(before.scale, before.config.growth_factor, product) && product.bits >= 0x7ff0_0000_0000_0000
            ==> after.scale == before.scale,
        before.backs_off() && is_product(before.scale, before.config.backoff_factor, product) && 0x3810_0000_0000_0000 <= product.bits
            <= 0x47ef_ffff_e000_0000 ==> is_nearest(product, after.scale),
        before.backs_off() && is_product(before.scale, before.config.backoff_factor, product) && product.bits < 0x3810_0000_0000_0000
            ==> after.scale.bits == 0x3810_0000_0000_0000,
        !before.grows() && !before.backs_off() ==> after.scale == before.scale,
{
    if before.grows() && is_product(before.scale, before.config.growth_factor, product) {
        let p = choose|p: Binary64| #[trigger]
            is_product(before.scale, before.config.growth_factor, p) && is_grown(before.scale, p, after.scale);
        product_is_unique(before.scale, before.config.growth_factor, product, p);
    }
    if before.backs_off() && is_product(before.scale, before.config.backoff_factor, product) {
        let p = choose|p: Binary64| #[trigger]
            is_product(before.scale, before.config.backoff_factor, p) && is_reduced(before.scale, p, after.scale);
        product_is_unique(before.scale, before.config.backoff_factor, product, p);
    }
}

/// A scaler that is off neither grows nor backs off.
pub proof fn disabled_scales_stay(s: ScalerView)
    requires
        !s.config.enabled,
    ensures
        !s.grows() && !s.backs_off() && s.next_tracker() == s.growth_tracker,
{
}

/// Autocasting needs nothing where it is off, and where it is on the CUDA device it is for; no other
/// device has it.
pub proof fn autocasting_needs_its_device(device: Device, enabled: bool)
    ensures
        !enabled ==> needed(device, enabled) == Ok::<Option<DeviceSpec>, crate::error::ErrorView>(None),
        enabled && needed(device, enabled) is Ok ==> device is Cuda && needed(device, enabled)->Ok_0 == Some(
            DeviceSpec::Cuda(device->Cuda_0),
        ),
        enabled && device is Cuda ==> needed(device, enabled) is Ok,
{
}

} // verus!
