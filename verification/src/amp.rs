//! The protocol of scaled-gradient updates: which calls are accepted when, and how the scale
//! grows and backs off.
use crate::error::{either, refusal, setting_error, setting_text, ErrorView, Result};
use crate::float::{Binary64, ONE};
use crate::kind::{Device, DeviceSpec};
use crate::product::{is_product, multiply, product_is_unique, product_moves_with_factor};
use crate::tensor::TensorMeta;
use vstd::prelude::*;

verus! {

/// The bits of the smallest positive normal single-precision number.
pub const SMALLEST: u64 = 0x3810_0000_0000_0000;

/// The bits of the largest finite single-precision number.
pub const LARGEST: u64 = 0x47ef_ffff_e000_0000;

/// How far apart the bits of two neighbouring single-precision numbers lie.
pub const SPACING: u64 = 0x2000_0000;

/// A number within the positive finite normal magnitudes of single precision.
pub open spec fn is_scale(value: Binary64) -> bool {
    SMALLEST <= value.bits <= LARGEST
}

/// A number of single precision, among the scales.
pub open spec fn is_single(value: Binary64) -> bool {
    is_scale(value) && value.bits % SPACING == 0
}

/// `r` is the number of single precision that is nearest to `value`: of two that are equally
/// near, the even one.
pub open spec fn is_nearest(value: Binary64, r: Binary64) -> bool {
    &&& r.bits % SPACING == 0
    &&& -(SPACING / 2) <= r.bits - value.bits <= SPACING / 2
    &&& (r.bits - value.bits == SPACING / 2 || value.bits - r.bits == SPACING / 2) ==> (r.bits / SPACING) % 2 == 0
}

/// Only one number is nearest.
pub proof fn nearest_is_unique(value: Binary64, a: Binary64, b: Binary64)
    requires
        is_nearest(value, a),
        is_nearest(value, b),
    ensures
        a == b,
{
    let m = a.bits / SPACING;
    let n = b.bits / SPACING;
    assert(a.bits == m * SPACING);
    assert(b.bits == n * SPACING);
    assert(m == n || m == n + 1 || n == m + 1);
}

/// A number of single precision is nearest to itself.
pub proof fn single_is_nearest(value: Binary64)
    requires
        is_single(value),
    ensures
        is_nearest(value, value),
{
}

/// Rounds a number to single precision.
pub fn nearest(value: Binary64) -> (r: Binary64)
    requires
        SMALLEST <= value.bits < 0x7ff0_0000_0000_0000,
    ensures
        is_nearest(value, r),
        value.bits <= LARGEST ==> is_single(r),
{
    let below: u64 = value.bits - value.bits % SPACING;
    let rest: u64 = value.bits % SPACING;
    let odd = (below / SPACING) % 2 == 1;
    if rest > SPACING / 2 || (rest == SPACING / 2 && odd) {
        Binary64 { bits: below + SPACING }
    } else {
        Binary64 { bits: below }
    }
}

/// The device that has to be available before autocast is enabled.
pub open spec fn needed(device: Device, enabled: bool) -> core::result::Result<Option<DeviceSpec>, ErrorView> {
    if !enabled {
        Ok(None)
    } else {
        match device {
            Device::Cuda(index) => Ok(Some(DeviceSpec::Cuda(index))),
            _ => Err(setting_text("autocast device"@, "the linked safe API supports CUDA autocast only"@)),
        }
    }
}

/// Decides whether autocast may run on a device, and which device it needs. Disabled
/// execution runs on any device.
pub fn autocast_for(device: Device, enabled: bool) -> (r: Result<Option<DeviceSpec>>)
    ensures
        match (r, needed(device, enabled)) {
            (Ok(a), Ok(b)) => a == b,
            (Err(a), Err(b)) => a@ == b,
            _ => false,
        },
{
    if enabled {
        match device {
            Device::Cuda(index) => Ok(Some(DeviceSpec::Cuda(index))),
            _ => Err(setting_error("autocast device", "the linked safe API supports CUDA autocast only")),
        }
    } else {
        Ok(None)
    }
}

/// How the scale of a [`GradScaler`] changes.
#[derive(Debug, Clone, Copy, PartialEq, Eq, Structural)]
pub struct GradScalerConfig {
    /// The first scale.
    pub initial_scale: Binary64,
    /// The factor of growth, greater than one.
    pub growth_factor: Binary64,
    /// The factor of a backoff, strictly between zero and one.
    pub backoff_factor: Binary64,
    /// How many updates in a row lead to growth.
    pub growth_interval: u64,
    /// Whether losses are scaled at all.
    pub enabled: bool,
}

/// Why a scale is refused, if it is.
pub open spec fn scale_refusal(value: Binary64) -> Option<ErrorView> {
    if is_scale(value) {
        None
    } else {
        Some(setting_text("scale"@, "must be within positive finite normal f32 magnitudes"@))
    }
}

fn validate_scale(value: Binary64) -> (r: Result<()>)
    ensures
        refusal(r) == scale_refusal(value),
{
    if value.bits < SMALLEST || value.bits > LARGEST {
        return Err(setting_error("scale", "must be within positive finite normal f32 magnitudes"));
    }
    Ok(())
}

impl Default for GradScalerConfig {
    /// A scale of 65536 that doubles after 2000 updates and is halved by a skipped one.
    fn default() -> (r: Self)
        ensures
            r == (GradScalerConfig {
                initial_scale: Binary64 { bits: 0x40f0_0000_0000_0000 },
                growth_factor: Binary64 { bits: 0x4000_0000_0000_0000 },
                backoff_factor: Binary64 { bits: 0x3fe0_0000_0000_0000 },
                growth_interval: 2000,
                enabled: true,
            }),
    {
        GradScalerConfig {
            initial_scale: Binary64 { bits: 0x40f0_0000_0000_0000 },
            growth_factor: Binary64 { bits: 0x4000_0000_0000_0000 },
            backoff_factor: Binary64 { bits: 0x3fe0_0000_0000_0000 },
            growth_interval: 2000,
            enabled: true,
        }
    }
}

impl GradScalerConfig {
    /// Why the policy is refused, if it is.
    pub open spec fn refusal(self) -> Option<ErrorView> {
        if !is_scale(self.initial_scale) {
            scale_refusal(self.initial_scale)
        } else if !self.growth_factor.finite() || self.growth_factor.place() <= ONE {
            Some(setting_text("growth_factor"@, "must be finite and greater than one"@))
        } else if !(self.backoff_factor.finite() && 0 < self.backoff_factor.place() < ONE) {
            Some(setting_text("backoff_factor"@, "must be finite and strictly between zero and one"@))
        } else if self.growth_interval == 0 {
            Some(setting_text("growth_interval"@, "must be positive"@))
        } else {
            None
        }
    }

    fn validate(self) -> (r: Result<()>)
        ensures
            refusal(r) == self.refusal(),
    {
        if let Err(e) = validate_scale(self.initial_scale) {
            return Err(e);
        }
        if !self.growth_factor.is_finite() || self.growth_factor.is_at_most(Binary64::one()) {
            return Err(setting_error("growth_factor", "must be finite and greater than one"));
        }
        if !self.backoff_factor.is_finite() || !Binary64::zero().is_less(self.backoff_factor) || !self.backoff_factor.is_less(
            Binary64::one(),
        ) {
            return Err(setting_error("backoff_factor", "must be finite and strictly between zero and one"));
        }
        if self.growth_interval == 0 {
            return Err(setting_error("growth_interval", "must be positive"));
        }
        Ok(())
    }

    /// Checks the policy and creates a scaler that is ready for its first update.
    pub fn build(self) -> (r: Result<GradScaler>)
        ensures
            refusal(r) == self.refusal(),
            r matches Ok(s) ==> s.wf() && s@.config == self && s@.growth_tracker == 0 && s@.phase is Ready && if self.enabled {
                is_nearest(self.initial_scale, s@.scale)
            } else {
                s@.scale.bits == ONE
            },
    {
        if let Err(e) = self.validate() {
            return Err(e);
        }
        let scale = if self.enabled {
            nearest(self.initial_scale)
        } else {
            Binary64::one()
        };
        Ok(GradScaler { config: self, scale, growth_tracker: 0, phase: Phase::Ready })
    }
}

/// What a scaler keeps between updates.
#[derive(Debug, Clone, Copy, PartialEq, Eq, Structural)]
pub struct GradScalerState {
    /// The format of the state; only 1 is accepted.
    pub schema_version: u32,
    /// The policy.
    pub config: GradScalerConfig,
    /// The scale.
    pub scale: Binary64,
    /// How many updates in a row have succeeded since the scale last changed.
    pub growth_tracker: u64,
}

impl GradScalerState {
    /// Why the state is refused, if it is.
    pub open spec fn refusal(self) -> Option<ErrorView> {
        if self.schema_version != 1 {
            Some(setting_text("scaler state"@, "unsupported schema version"@))
        } else {
            either(
                self.config.refusal(),
                either(
                    scale_refusal(self.scale),
                    if self.growth_tracker >= self.config.growth_interval || (!self.config.enabled && (self.scale.bits != ONE
                        || self.growth_tracker != 0)) {
                        Some(setting_text("scaler state"@, "invalid growth tracker or disabled scale"@))
                    } else {
                        None
                    },
                ),
            )
        }
    }
}

/// How far an update has come.
#[derive(Debug, Clone, Copy, PartialEq, Eq, Structural)]
pub enum Phase {
    /// Losses are scaled and gradients accumulate.
    Ready,
    /// The gradients of an optimizer are unscaled.
    Unscaled {
        /// The optimizer.
        optimizer: u64,
        /// Whether all of them are finite.
        finite: bool,
    },
    /// The optimizer has taken the step or skipped it.
    Stepped {
        /// Whether it took it.
        applied: bool,
    },
}

/// What the library reads of a gradient.
#[derive(Debug, Clone, Copy, PartialEq, Eq, Structural)]
pub struct Gradient {
    /// Whether the parameter has a gradient.
    pub defined: bool,
    /// Whether the gradient is sparse.
    pub sparse: bool,
}

/// What has to be done for a step.
#[derive(Debug, Clone, Copy, PartialEq, Eq, Structural)]
pub enum StepAction {
    /// Unscale the gradients and ask again.
    Unscale,
    /// Let the optimizer take the step.
    Apply,
    /// Skip the step.
    Skip,
}

/// The content of a [`GradScaler`].
pub struct ScalerView {
    pub config: GradScalerConfig,
    pub scale: Binary64,
    pub growth_tracker: u64,
    pub phase: Phase,
}

/// Coordinates one optimizer update at a time with scaled dense gradients: losses are scaled,
/// gradients unscaled, the step is taken or skipped, and the scale is updated.
#[derive(Debug, PartialEq, Eq)]
pub struct GradScaler {
    config: GradScalerConfig,
    scale: Binary64,
    growth_tracker: u64,
    phase: Phase,
}

impl View for GradScaler {
    type V = ScalerView;

    closed spec fn view(&self) -> ScalerView {
        ScalerView { config: self.config, scale: self.scale, growth_tracker: self.growth_tracker, phase: self.phase }
    }
}

impl ScalerView {
    /// The policy is valid, the scale is of single precision, the count of updates stays below
    /// the interval, and a disabled scaler multiplies by one.
    pub open spec fn wf(self) -> bool {
        &&& self.config.refusal() is None
        &&& is_single(self.scale)
        &&& self.growth_tracker < self.config.growth_interval
        &&& !self.config.enabled ==> self.scale.bits == ONE && self.growth_tracker == 0
    }

    /// Why a call that needs a fresh cycle is refused, if it is.
    pub open spec fn ready_refusal(self) -> Option<ErrorView> {
        if self.phase is Ready {
            None
        } else {
            Some(setting_text("scaler phase"@, "finish step and update before starting another cycle"@))
        }
    }

    /// Why gradients are refused, if they are.
    pub open spec fn gradients_refusal(self, gradients: Seq<Gradient>) -> Option<ErrorView> {
        if !(self.phase is Ready) {
            self.ready_refusal()
        } else if forall|i: int| 0 <= i < gradients.len() ==> !(#[trigger] gradients[i]).defined {
            Some(setting_text("gradients"@, "no gradients were produced for this optimizer"@))
        } else if exists|i: int| 0 <= i < gradients.len() && (#[trigger] gradients[i]).defined && gradients[i].sparse {
            Some(setting_text("gradients"@, "gradient scaling currently requires dense gradients"@))
        } else {
            None
        }
    }

    /// What a step asks for.
    pub open spec fn action(self, optimizer: u64) -> core::result::Result<StepAction, ErrorView> {
        match self.phase {
            Phase::Ready => Ok(StepAction::Unscale),
            Phase::Stepped { .. } => Err(
                setting_text("scaler phase"@, "step already completed; call update before the next step"@),
            ),
            Phase::Unscaled { optimizer: identity, finite } => if identity != optimizer {
                Err(setting_text("optimizer"@, "must match the optimizer whose gradients were unscaled"@))
            } else if finite {
                Ok(StepAction::Apply)
            } else {
                Ok(StepAction::Skip)
            },
        }
    }

    /// The interval of growth is complete with this update.
    pub open spec fn grows(self) -> bool {
        &&& self.config.enabled
        &&& self.phase == Phase::Stepped { applied: true }
        &&& self.growth_tracker + 1 == self.config.growth_interval
    }

    /// The step of this update was skipped.
    pub open spec fn backs_off(self) -> bool {
        self.config.enabled && self.phase == Phase::Stepped { applied: false }
    }

    /// The count of updates after this one.
    pub open spec fn next_tracker(self) -> u64 {
        if !self.config.enabled {
            self.growth_tracker
        } else if self.grows() || self.backs_off() {
            0
        } else {
            (self.growth_tracker + 1) as u64
        }
    }
}

/// The scale after growth to a product: the nearest number of single precision, or the scale
/// as it was if there is none in range.
pub open spec fn is_grown(scale: Binary64, product: Binary64, r: Binary64) -> bool {
    if !(SMALLEST <= product.bits < 0x7ff0_0000_0000_0000) {
        r == scale
    } else {
        exists|n: Binary64| #[trigger] is_nearest(product, n) && r == (if n.bits <= LARGEST {
            n
        } else {
            scale
        })
    }
}

/// The scale after a backoff to a product: the nearest number of single precision, but never
/// below the smallest normal one, or the scale as it was if the product is out of range.
pub open spec fn is_reduced(scale: Binary64, product: Binary64, r: Binary64) -> bool {
    if product.bits < SMALLEST {
        r.bits == SMALLEST
    } else if product.bits > LARGEST {
        r == scale
    } else {
        is_nearest(product, r)
    }
}

/// A scaler after an update: the scale grows or backs off to its product with a factor of the
/// policy.
pub open spec fn is_updated(before: ScalerView, after: ScalerView) -> bool {
    &&& after == (ScalerView {
        scale: after.scale,
        growth_tracker: before.next_tracker(),
        phase: Phase::Ready,
        ..before
    })
    &&& if before.grows() {
        exists|product: Binary64| #[trigger]
            is_product(before.scale, before.config.growth_factor, product) && is_grown(before.scale, product, after.scale)
    } else if before.backs_off() {
        exists|product: Binary64| #[trigger]
            is_product(before.scale, before.config.backoff_factor, product) && is_reduced(before.scale, product, after.scale)
    } else {
        after.scale == before.scale
    }
}

impl GradScaler {
    /// The scaler is valid.
    pub open spec fn wf(self) -> bool {
        self@.wf()
    }

    /// The current factor of losses, one when scaling is disabled.
    pub fn get_scale(&self) -> (r: Binary64)
        ensures
            r == self@.scale,
    {
        self.scale
    }

    /// Whether losses are scaled and nonfinite updates skipped.
    pub fn is_enabled(&self) -> (r: bool)
        ensures
            r == self@.config.enabled,
    {
        self.config.enabled
    }

    /// Checks a loss and gives the factor by which it is to be multiplied.
    pub fn scale(&self, loss: &TensorMeta) -> (r: Result<Binary64>)
        ensures
            refusal(r) == either(
                self@.ready_refusal(),
                if !loss@.defined || loss@.shape.len() > 0 {
                    Some(setting_text("loss"@, "scaling requires a defined scalar loss"@))
                } else {
                    None
                },
            ),
            r matches Ok(factor) ==> factor == self@.scale,
    {
        if let Err(e) = self.require_ready() {
            return Err(e);
        }
        if !loss.defined || loss.shape.len() > 0 {
            return Err(setting_error("loss", "scaling requires a defined scalar loss"));
        }
        Ok(self.scale)
    }

    /// Checks the gradients before any of them is changed: there has to be one, and all have
    /// to be dense.
    pub fn check_gradients(&self, gradients: &Vec<Gradient>) -> (r: Result<()>)
        ensures
            refusal(r) == self@.gradients_refusal(gradients@),
    {
        if let Err(e) = self.require_ready() {
            return Err(e);
        }
        let mut any = false;
        let mut sparse = false;
        let mut i: usize = 0;
        while i < gradients.len()
            invariant
                i <= gradients@.len(),
                any == (exists|j: int| 0 <= j < i && (#[trigger] gradients@[j]).defined),
                sparse == (exists|j: int| 0 <= j < i && (#[trigger] gradients@[j]).defined && gradients@[j].sparse),
            decreases gradients@.len() - i,
        {
            if gradients[i].defined {
                any = true;
                if gradients[i].sparse {
                    sparse = true;
                }
                assert(gradients@[i as int].defined);
            }
            i += 1;
        }
        if !any {
            return Err(setting_error("gradients", "no gradients were produced for this optimizer"));
        }
        if sparse {
            return Err(setting_error("gradients", "gradient scaling currently requires dense gradients"));
        }
        Ok(())
    }

    /// Records that the gradients of an optimizer are unscaled. `finite` tells of each whether
    /// all its elements are finite; a disabled scaler does not ask.
    pub fn unscale(&mut self, optimizer: u64, finite: &Vec<bool>) -> (r: Result<()>)
        requires
            old(self).wf(),
        ensures
            final(self).wf(),
            refusal(r) == old(self)@.ready_refusal(),
            r is Ok ==> final(self)@ == (ScalerView {
                phase: Phase::Unscaled {
                    optimizer,
                    finite: !old(self)@.config.enabled || forall|i: int| 0 <= i < finite@.len() ==> #[trigger] finite@[i],
                },
                ..old(self)@
            }),
            r is Err ==> final(self)@ == old(self)@,
    {
        if let Err(e) = self.require_ready() {
            return Err(e);
        }
        let mut all = true;
        let mut i: usize = 0;
        while i < finite.len()
            invariant
                i <= finite@.len(),
                all == (forall|j: int| 0 <= j < i ==> #[trigger] finite@[j]),
            decreases finite@.len() - i,
        {
            if !finite[i] {
                all = false;
            }
            i += 1;
        }
        let finite = !self.config.enabled || all;
        self.phase = Phase::Unscaled { optimizer, finite };
        Ok(())
    }

    /// Decides what has to be done for a step of an optimizer.
    pub fn step(&self, optimizer: u64) -> (r: Result<StepAction>)
        ensures
            match (r, self@.action(optimizer)) {
                (Ok(a), Ok(b)) => a == b,
                (Err(a), Err(b)) => a@ == b,
                _ => false,
            },
    {
        match self.phase {
            Phase::Ready => Ok(StepAction::Unscale),
            Phase::Stepped { .. } => Err(
                setting_error("scaler phase", "step already completed; call update before the next step"),
            ),
            Phase::Unscaled { optimizer: identity, finite } => if identity != optimizer {
                Err(setting_error("optimizer", "must match the optimizer whose gradients were unscaled"))
            } else if finite {
                Ok(StepAction::Apply)
            } else {
                Ok(StepAction::Skip)
            },
        }
    }

    /// Records that the step was taken or skipped, as [`GradScaler::step`] had decided, and
    /// tells which. In any other phase nothing changes and there is nothing to tell.
    pub fn finish_step(&mut self) -> (r: Option<bool>)
        requires
            old(self).wf(),
        ensures
            final(self).wf(),
            match old(self)@.phase {
                Phase::Unscaled { finite, .. } => r == Some(finite) && final(self)@ == (ScalerView {
                    phase: Phase::Stepped { applied: finite },
                    ..old(self)@
                }),
                _ => r is None && final(self)@ == old(self)@,
            },
    {
        match self.phase {
            Phase::Unscaled { finite, .. } => {
                self.phase = Phase::Stepped { applied: finite };
                Some(finite)
            },
            _ => None,
        }
    }

    /// Lets the scale grow or back off and begins the next cycle.
    pub fn update(&mut self) -> (r: Result<()>)
        requires
            old(self).wf(),
        ensures
            final(self).wf(),
            refusal(r) == (if old(self)@.phase is Stepped {
                None
            } else {
                Some(setting_text("scaler phase"@, "update requires a completed step"@))
            }),
            r is Err ==> final(self)@ == old(self)@,
            r is Ok ==> is_updated(old(self)@, final(self)@),
    {
        let applied = match self.phase {
            Phase::Stepped { applied } => applied,
            _ => {
                return Err(setting_error("scaler phase", "update requires a completed step"));
            },
        };
        if self.config.enabled {
            if applied {
                self.growth_tracker = self.growth_tracker + 1;
                if self.growth_tracker == self.config.growth_interval {
                    let grown = multiply(self.scale, self.config.growth_factor);
                    assert(is_product(old(self)@.scale, old(self)@.config.growth_factor, grown));
                    if grown.bits >= SMALLEST && grown.bits < 0x7ff0_0000_0000_0000 {
                        let next = nearest(grown);
                        assert(is_nearest(grown, next));
                        if next.bits <= LARGEST {
                            self.scale = next;
                        }
                    }
                    self.growth_tracker = 0;
                }
            } else {
                let reduced = multiply(self.scale, self.config.backoff_factor);
                assert(is_product(old(self)@.scale, old(self)@.config.backoff_factor, reduced));
                if reduced.bits < SMALLEST {
                    self.scale = Binary64 { bits: SMALLEST };
                } else if reduced.bits <= LARGEST {
                    self.scale = nearest(reduced);
                }
                self.growth_tracker = 0;
            }
        }
        self.phase = Phase::Ready;
        Ok(())
    }

    /// What the scaler keeps between updates.
    pub fn state_dict(&self) -> (r: Result<GradScalerState>)
        ensures
            refusal(r) == self@.ready_refusal(),
            r matches Ok(s) ==> s == saved(self@),
    {
        if let Err(e) = self.require_ready() {
            return Err(e);
        }
        Ok(
            GradScalerState {
                schema_version: 1,
                config: self.config,
                scale: self.scale,
                growth_tracker: self.growth_tracker,
            },
        )
    }

    /// Restores a state as a whole, or changes nothing.
    pub fn load_state_dict(&mut self, state: &GradScalerState) -> (r: Result<()>)
        requires
            old(self).wf(),
        ensures
            final(self).wf(),
            refusal(r) == either(old(self)@.ready_refusal(), state.refusal()),
            r is Ok ==> is_loaded(*state, final(self)@),
            r is Err ==> final(self)@ == old(self)@,
    {
        if let Err(e) = self.require_ready() {
            return Err(e);
        }
        if state.schema_version != 1 {
            return Err(setting_error("scaler state", "unsupported schema version"));
        }
        if let Err(e) = state.config.validate() {
            return Err(e);
        }
        if let Err(e) = validate_scale(state.scale) {
            return Err(e);
        }
        if state.growth_tracker >= state.config.growth_interval || (!state.config.enabled && (state.scale.bits != ONE
            || state.growth_tracker != 0)) {
            return Err(setting_error("scaler state", "invalid growth tracker or disabled scale"));
        }
        self.config = state.config;
        self.scale = nearest(state.scale);
        self.growth_tracker = state.growth_tracker;
        proof {
            if state.scale.bits == ONE {
                nearest_is_unique(state.scale, state.scale, self.scale);
            }
        }
        Ok(())
    }

    fn require_ready(&self) -> (r: Result<()>)
        ensures
            refusal(r) == self@.ready_refusal(),
    {
        match self.phase {
            Phase::Ready => Ok(()),
            _ => Err(setting_error("scaler phase", "finish step and update before starting another cycle")),
        }
    }
}

impl Default for GradScaler {
    /// A scaler with the default policy.
    fn default() -> (r: Self)
        ensures
            r.wf(),
            r@.config.initial_scale.bits == 0x40f0_0000_0000_0000,
            r@.config.growth_factor.bits == 0x4000_0000_0000_0000,
            r@.config.backoff_factor.bits == 0x3fe0_0000_0000_0000,
            r@.config.growth_interval == 2000,
            r@.config.enabled,
            r@.scale.bits == 0x40f0_0000_0000_0000,
            r@.growth_tracker == 0,
            r@.phase is Ready,
    {
        let config = GradScalerConfig::default();
        GradScaler { config, scale: config.initial_scale, growth_tracker: 0, phase: Phase::Ready }
    }
}

/// The state that a scaler saves.
pub open spec fn saved(s: ScalerView) -> GradScalerState {
    GradScalerState { schema_version: 1, config: s.config, scale: s.scale, growth_tracker: s.growth_tracker }
}

/// A scaler holds a loaded state: the scale is rounded to single precision.
pub open spec fn is_loaded(state: GradScalerState, s: ScalerView) -> bool {
    &&& s.config == state.config
    &&& is_nearest(state.scale, s.scale)
    &&& s.growth_tracker == state.growth_tracker
    &&& s.phase is Ready
}

/// A state that a scaler saves is accepted by any scaler at the start of a cycle, and restores
/// the scaler that saved it.
pub proof fn saved_scaler_is_restored(s: ScalerView, loaded: ScalerView)
    requires
        s.wf(),
        s.phase is Ready,
    ensures
        saved(s).refusal() is None,
        is_loaded(saved(s), loaded) ==> loaded == s,
{
    if is_loaded(saved(s), loaded) {
        single_is_nearest(s.scale);
        nearest_is_unique(s.scale, s.scale, loaded.scale);
    }
}

/// Rounding keeps the order of numbers.
proof fn nearest_is_monotonic(a: Binary64, b: Binary64, x: Binary64, y: Binary64)
    requires
        a.bits <= b.bits,
        is_nearest(a, x),
        is_nearest(b, y),
    ensures
        x.bits <= y.bits,
{
    let m = x.bits / SPACING;
    let n = y.bits / SPACING;
    assert(x.bits == m * SPACING);
    assert(y.bits == n * SPACING);
    if n < m {
        assert(m == n + 1);
    }
}

/// An update keeps the scale a normal number of single precision and the count of updates
/// below the interval. The scale falls only when the step was skipped, and the count starts
/// again; it rises only when the interval of growth is complete.
pub proof fn scale_moves_by_policy(before: ScalerView, after: ScalerView)
    requires
        before.wf(),
        before.phase is Stepped,
        is_updated(before, after),
    ensures
        after.wf(),
        SMALLEST <= after.scale.bits <= LARGEST,
        after.growth_tracker < after.config.growth_interval,
        after.scale.bits < before.scale.bits ==> before.backs_off() && after.growth_tracker == 0,
        after.scale.bits > before.scale.bits ==> before.grows() && after.growth_tracker == 0,
{
    single_is_nearest(before.scale);
    if before.grows() {
        let grown = choose|product: Binary64| #[trigger]
            is_product(before.scale, before.config.growth_factor, product) && is_grown(before.scale, product, after.scale);
        product_moves_with_factor(before.scale, before.config.growth_factor, grown);
        if grown.bits < 0x7ff0_0000_0000_0000 {
            let n = choose|n: Binary64|
                #[trigger] is_nearest(grown, n) && after.scale == (if n.bits <= LARGEST {
                    n
                } else {
                    before.scale
                });
            nearest_is_monotonic(before.scale, grown, before.scale, n);
        }
    } else if before.backs_off() {
        let reduced = choose|product: Binary64| #[trigger]
            is_product(before.scale, before.config.backoff_factor, product) && is_reduced(before.scale, product, after.scale);
        product_moves_with_factor(before.scale, before.config.backoff_factor, reduced);
        if reduced.bits >= SMALLEST {
            nearest_is_monotonic(reduced, before.scale, after.scale, before.scale);
            let least = Binary64 { bits: SMALLEST };
            single_is_nearest(least);
            nearest_is_monotonic(least, reduced, least, after.scale);
        }
    }
}

/// An update has one outcome.
pub proof fn update_is_determined(before: ScalerView, a: ScalerView, b: ScalerView)
    requires
        is_updated(before, a),
        is_updated(before, b),
    ensures
        a == b,
{
    if before.grows() {
        let factor = before.config.growth_factor;
        let p = choose|product: Binary64| #[trigger]
            is_product(before.scale, factor, product) && is_grown(before.scale, product, a.scale);
        let q = choose|product: Binary64| #[trigger]
            is_product(before.scale, factor, product) && is_grown(before.scale, product, b.scale);
        product_is_unique(before.scale, factor, p, q);
        if SMALLEST <= p.bits < 0x7ff0_0000_0000_0000 {
            let m = choose|n: Binary64|
                #[trigger] is_nearest(p, n) && a.scale == (if n.bits <= LARGEST {
                    n
                } else {
                    before.scale
                });
            let n = choose|n: Binary64|
                #[trigger] is_nearest(p, n) && b.scale == (if n.bits <= LARGEST {
                    n
                } else {
                    before.scale
                });
            nearest_is_unique(p, m, n);
        }
    } else if before.backs_off() {
        let factor = before.config.backoff_factor;
        let p = choose|product: Binary64| #[trigger]
            is_product(before.scale, factor, product) && is_reduced(before.scale, product, a.scale);
        let q = choose|product: Binary64| #[trigger]
            is_product(before.scale, factor, product) && is_reduced(before.scale, product, b.scale);
        product_is_unique(before.scale, factor, p, q);
        if SMALLEST <= p.bits <= LARGEST {
            nearest_is_unique(p, a.scale, b.scale);
        }
    }
}

/// How many steps were taken in a row at the end of the first `n`, where `first` were taken in
/// a row before them.
pub open spec fn streak(first: int, applied: Seq<bool>, n: int) -> int
    decreases n,
{
    if n <= 0 {
        first
    } else if !applied[n - 1] {
        0
    } else {
        streak(first, applied, n - 1) + 1
    }
}

/// The scaler when the step of a cycle is taken or skipped.
pub open spec fn stepped(s: ScalerView, applied: bool) -> ScalerView {
    ScalerView { phase: Phase::Stepped { applied }, ..s }
}

/// From cycle to cycle, the count of an enabled scaler is that of the steps taken in a row
/// since the last one was skipped or the scale last grew. So the scale rises only with a step
/// that completes an interval of steps taken in a row, and falls only with a skipped one. The
/// scaler may be new, or restored in the midst of an interval.
pub proof fn scale_follows_the_steps(scalers: Seq<ScalerView>, applied: Seq<bool>, n: int)
    requires
        0 <= n < applied.len(),
        scalers.len() == applied.len() + 1,
        scalers[0].wf(),
        scalers[0].config.enabled,
        forall|i: int| 0 <= i < applied.len() ==> is_updated(stepped(#[trigger] scalers[i], applied[i]), scalers[i + 1]),
    ensures
        scalers[n].wf(),
        scalers[n].config == scalers[0].config,
        ({
            let interval = scalers[0].config.growth_interval as int;
            let first = scalers[0].growth_tracker as int;
            &&& scalers[n].growth_tracker == streak(first, applied, n) % interval
            &&& scalers[n + 1].scale.bits > scalers[n].scale.bits ==> applied[n] && streak(first, applied, n + 1) > 0 && streak(
                first,
                applied,
                n + 1,
            ) % interval == 0
        }),
        scalers[n + 1].scale.bits < scalers[n].scale.bits ==> !applied[n] && scalers[n + 1].growth_tracker == 0,
    decreases n,
{
    let interval = scalers[0].config.growth_interval as int;
    let first = scalers[0].growth_tracker as int;
    if n > 0 {
        scale_follows_the_steps(scalers, applied, n - 1);
        assert(is_updated(stepped(scalers[n - 1], applied[n - 1]), scalers[n - 1 + 1]));
        scale_moves_by_policy(stepped(scalers[n - 1], applied[n - 1]), scalers[n]);
        streak_step(first, applied, n - 1, interval);
    } else {
        vstd::arithmetic::div_mod::lemma_small_mod(first as nat, interval as nat);
    }
    assert(is_updated(stepped(scalers[n], applied[n]), scalers[n + 1]));
    scale_moves_by_policy(stepped(scalers[n], applied[n]), scalers[n + 1]);
    streak_step(first, applied, n, interval);
}

proof fn streak_step(first: int, applied: Seq<bool>, n: int, interval: int)
    requires
        0 <= first,
        0 <= n < applied.len(),
        interval > 0,
    ensures
        streak(first, applied, n) >= 0,
        !applied[n] ==> streak(first, applied, n + 1) % interval == 0,
        applied[n] ==> streak(first, applied, n + 1) > 0 && streak(first, applied, n + 1) % interval == (if streak(
            first,
            applied,
            n,
        ) % interval + 1 == interval {
            0
        } else {
            streak(first, applied, n) % interval + 1
        }),
    decreases n,
{
    if n > 0 {
        streak_step(first, applied, n - 1, interval);
    }
    let k = streak(first, applied, n);
    vstd::arithmetic::div_mod::lemma_small_mod(0, interval as nat);
    vstd::arithmetic::div_mod::lemma_fundamental_div_mod(k, interval);
    vstd::arithmetic::div_mod::lemma_mod_bound(k, interval);
    let q = k / interval;
    let m = k % interval;
    if applied[n] {
        if m + 1 == interval {
            assert(k + 1 == (q + 1) * interval + 0) by (nonlinear_arith)
                requires
                    k == interval * q + m,
                    m + 1 == interval,
            ;
            vstd::arithmetic::div_mod::lemma_fundamental_div_mod_converse(k + 1, interval, q + 1, 0);
        } else {
            assert(k + 1 == q * interval + (m + 1)) by (nonlinear_arith)
                requires
                    k == interval * q + m,
            ;
            vstd::arithmetic::div_mod::lemma_fundamental_div_mod_converse(k + 1, interval, q, m + 1);
        }
    }
}

} // verus!
