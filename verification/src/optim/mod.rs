//! Optimization rules and their settings.
pub mod laws;
pub mod schedule;
pub mod state;

use crate::error::{either, number_error, number_text, refusal, setting_error, setting_text, ErrorView, Result, RustTorchError};
use crate::float::Binary64;
use crate::tensor::{MetaView, TensorMeta};
use crate::text::{owned, shape_form, shape_text, join};
use state::{algorithm_refusal, Algorithm};
use vstd::prelude::*;

verus! {

/// The bits of the default learning rate.
pub const DEFAULT_LEARNING_RATE: u64 = 0x3f50_624d_d2f1_a9fc;

/// A finite number that is not negative.
pub open spec fn is_non_negative(value: Binary64) -> bool {
    value.finite() && value.place() >= 0
}

/// A finite number from zero up to, but not including, one.
pub open spec fn is_decay(value: Binary64) -> bool {
    value.finite() && 0 <= value.place() < crate::float::ONE
}

/// Why a setting that may not be negative is refused, if it is.
pub open spec fn non_negative_refusal(field: Seq<char>, value: Binary64) -> Option<ErrorView> {
    if is_non_negative(value) {
        None
    } else {
        Some(number_text(field, "must be finite and non-negative"@, value))
    }
}

/// Why a decay rate is refused, if it is.
pub open spec fn decay_refusal(field: Seq<char>, value: Binary64) -> Option<ErrorView> {
    if is_decay(value) {
        None
    } else {
        Some(number_text(field, "must be finite and in [0, 1)"@, value))
    }
}

/// Why an option is refused, if it is.
pub open spec fn option_refusal(component: Seq<char>, option: Seq<char>, enabled: bool) -> Option<ErrorView> {
    if enabled {
        Some(ErrorView::UnsupportedOption { component, option })
    } else {
        None
    }
}

/// Checks a setting that may not be negative.
pub fn validate_non_negative(field: &'static str, value: Binary64) -> (r: Result<()>)
    ensures
        refusal(r) == non_negative_refusal(field@, value),
{
    if value.is_finite() && Binary64::zero().is_at_most(value) {
        Ok(())
    } else {
        Err(number_error(field, "must be finite and non-negative", value))
    }
}

/// Checks a decay rate.
pub fn validate_beta(field: &'static str, value: Binary64) -> (r: Result<()>)
    ensures
        refusal(r) == decay_refusal(field@, value),
{
    if value.is_finite() && Binary64::zero().is_at_most(value) && value.is_less(Binary64::one()) {
        Ok(())
    } else {
        Err(number_error(field, "must be finite and in [0, 1)", value))
    }
}

/// Refuses an option that is not offered.
pub fn reject_unsupported(component: &'static str, option: &'static str, enabled: bool) -> (r: Result<()>)
    ensures
        refusal(r) == option_refusal(component@, option@, enabled),
{
    if enabled {
        Err(RustTorchError::UnsupportedOption { component, option })
    } else {
        Ok(())
    }
}

/// Why a loss is refused, if it is: it has to be a defined scalar.
pub open spec fn loss_refusal(loss: MetaView) -> Option<ErrorView> {
    if !loss.defined {
        Some(setting_text("loss"@, "must be a defined scalar tensor"@))
    } else if loss.shape.len() > 0 {
        Some(
            ErrorView::InvalidDimensions {
                context: "optimizer loss"@,
                expected: "scalar tensor with shape []"@,
                actual: "shape "@ + shape_form(loss.shape),
            },
        )
    } else {
        None
    }
}

/// Checks that a loss is a defined scalar.
pub fn validate_loss(loss: &TensorMeta) -> (r: Result<()>)
    ensures
        refusal(r) == loss_refusal(loss@),
{
    if !loss.defined {
        return Err(setting_error("loss", "must be a defined scalar tensor"));
    }
    if loss.shape.len() > 0 {
        let shape = shape_text(loss.shape.as_slice());
        return Err(
            RustTorchError::InvalidDimensions {
                context: owned("optimizer loss"),
                expected: owned("scalar tensor with shape []"),
                actual: join("shape ", shape.as_str()),
            },
        );
    }
    Ok(())
}

/// A validated rule with its learning rate and weight decay, ready for a parameter store.
#[derive(Debug, Clone, Copy, PartialEq, Eq, Structural)]
pub struct Settings {
    /// The rule.
    pub algorithm: Algorithm,
    /// The learning rate.
    pub learning_rate: Binary64,
    /// The weight decay.
    pub weight_decay: Binary64,
}

/// Why settings are refused, if they are.
pub open spec fn settings_refusal(settings: Settings) -> Option<ErrorView> {
    either(
        algorithm_refusal(settings.algorithm),
        either(
            non_negative_refusal("learning_rate"@, settings.learning_rate),
            non_negative_refusal("weight_decay"@, settings.weight_decay),
        ),
    )
}

/// Adaptive moment estimation.
#[derive(Debug, Clone, Copy, PartialEq, Eq, Structural)]
pub struct Adam {
    pub(crate) learning_rate: Binary64,
    pub(crate) beta1: Binary64,
    pub(crate) beta2: Binary64,
    pub(crate) eps: Binary64,
    pub(crate) weight_decay: Binary64,
    pub(crate) amsgrad: bool,
    pub(crate) maximize: bool,
    pub(crate) foreach: Option<bool>,
    pub(crate) capturable: bool,
    pub(crate) differentiable: bool,
    pub(crate) fused: Option<bool>,
    pub(crate) decoupled_weight_decay: bool,
}

/// The settings of [`Adam`].
pub struct AdamView {
    pub learning_rate: Binary64,
    pub beta1: Binary64,
    pub beta2: Binary64,
    pub eps: Binary64,
    pub weight_decay: Binary64,
    pub amsgrad: bool,
    pub maximize: bool,
    pub foreach: Option<bool>,
    pub capturable: bool,
    pub differentiable: bool,
    pub fused: Option<bool>,
    pub decoupled_weight_decay: bool,
}

impl View for Adam {
    type V = AdamView;

    closed spec fn view(&self) -> AdamView {
        AdamView {
            learning_rate: self.learning_rate,
            beta1: self.beta1,
            beta2: self.beta2,
            eps: self.eps,
            weight_decay: self.weight_decay,
            amsgrad: self.amsgrad,
            maximize: self.maximize,
            foreach: self.foreach,
            capturable: self.capturable,
            differentiable: self.differentiable,
            fused: self.fused,
            decoupled_weight_decay: self.decoupled_weight_decay,
        }
    }
}

impl AdamView {
    /// The defaults.
    pub open spec fn defaults() -> AdamView {
        AdamView {
            learning_rate: Binary64 { bits: DEFAULT_LEARNING_RATE },
            beta1: Binary64 { bits: 0x3fec_cccc_cccc_cccd },
            beta2: Binary64 { bits: 0x3fef_f7ce_d916_872b },
            eps: Binary64 { bits: 0x3e45_798e_e230_8c3a },
            weight_decay: Binary64 { bits: 0 },
            amsgrad: false,
            maximize: false,
            foreach: None,
            capturable: false,
            differentiable: false,
            fused: None,
            decoupled_weight_decay: false,
        }
    }
}

impl Default for Adam {
    fn default() -> (r: Self)
        ensures
            r@ == AdamView::defaults(),
    {
        Adam {
            learning_rate: Binary64 { bits: DEFAULT_LEARNING_RATE },
            beta1: Binary64 { bits: 0x3fec_cccc_cccc_cccd },
            beta2: Binary64 { bits: 0x3fef_f7ce_d916_872b },
            eps: Binary64 { bits: 0x3e45_798e_e230_8c3a },
            weight_decay: Binary64 { bits: 0 },
            amsgrad: false,
            maximize: false,
            foreach: None,
            capturable: false,
            differentiable: false,
            fused: None,
            decoupled_weight_decay: false,
        }
    }
}

impl Adam {
    /// Creates a builder with the defaults.
    #[must_use]
    pub fn builder() -> (r: Self)
        ensures
            r@ == AdamView::defaults(),
    {
        Adam::default()
    }

    /// Sets the learning rate.
    #[must_use]
    pub fn learning_rate(self, learning_rate: Binary64) -> (r: Self)
        ensures
            r@ == (AdamView { learning_rate: learning_rate, ..self@ }),
    {
        Adam { learning_rate: learning_rate, ..self }
    }

    /// Sets both moment decay rates.
    #[must_use]
    pub fn betas(self, beta1: Binary64, beta2: Binary64) -> (r: Self)
        ensures
            r@ == (AdamView { beta1: beta1, beta2: beta2, ..self@ }),
    {
        Adam { beta1: beta1, beta2: beta2, ..self }
    }

    /// Sets the first-moment decay rate.
    #[must_use]
    pub fn beta1(self, beta1: Binary64) -> (r: Self)
        ensures
            r@ == (AdamView { beta1: beta1, ..self@ }),
    {
        Adam { beta1: beta1, ..self }
    }

    /// Sets the second-moment decay rate.
    #[must_use]
    pub fn beta2(self, beta2: Binary64) -> (r: Self)
        ensures
            r@ == (AdamView { beta2: beta2, ..self@ }),
    {
        Adam { beta2: beta2, ..self }
    }

    /// Sets the denominator stability term.
    #[must_use]
    pub fn eps(self, eps: Binary64) -> (r: Self)
        ensures
            r@ == (AdamView { eps: eps, ..self@ }),
    {
        Adam { eps: eps, ..self }
    }

    /// Sets coupled weight decay.
    #[must_use]
    pub fn weight_decay(self, weight_decay: Binary64) -> (r: Self)
        ensures
            r@ == (AdamView { weight_decay: weight_decay, ..self@ }),
    {
        Adam { weight_decay: weight_decay, ..self }
    }

    /// Selects the AMSGrad variant.
    #[must_use]
    pub fn amsgrad(self, amsgrad: bool) -> (r: Self)
        ensures
            r@ == (AdamView { amsgrad: amsgrad, ..self@ }),
    {
        Adam { amsgrad: amsgrad, ..self }
    }

    /// Requests loss maximization, which is not offered.
    #[must_use]
    pub fn maximize(self, maximize: bool) -> (r: Self)
        ensures
            r@ == (AdamView { maximize: maximize, ..self@ }),
    {
        Adam { maximize: maximize, ..self }
    }

    /// Requests batched updates, which are not offered.
    #[must_use]
    pub fn foreach(self, foreach: bool) -> (r: Self)
        ensures
            r@ == (AdamView { foreach: Some(foreach), ..self@ }),
    {
        Adam { foreach: Some(foreach), ..self }
    }

    /// Requests graph-capturable updates, which are not offered.
    #[must_use]
    pub fn capturable(self, capturable: bool) -> (r: Self)
        ensures
            r@ == (AdamView { capturable: capturable, ..self@ }),
    {
        Adam { capturable: capturable, ..self }
    }

    /// Requests gradients through updates, which are not offered.
    #[must_use]
    pub fn differentiable(self, differentiable: bool) -> (r: Self)
        ensures
            r@ == (AdamView { differentiable: differentiable, ..self@ }),
    {
        Adam { differentiable: differentiable, ..self }
    }

    /// Requests fused updates, which are not offered.
    #[must_use]
    pub fn fused(self, fused: bool) -> (r: Self)
        ensures
            r@ == (AdamView { fused: Some(fused), ..self@ }),
    {
        Adam { fused: Some(fused), ..self }
    }

    /// Requests decoupled weight decay, which is not offered.
    #[must_use]
    pub fn decoupled_weight_decay(self, decoupled: bool) -> (r: Self)
        ensures
            r@ == (AdamView { decoupled_weight_decay: decoupled, ..self@ }),
    {
        Adam { decoupled_weight_decay: decoupled, ..self }
    }

}

/// Stochastic gradient descent with optional momentum.
#[derive(Debug, Clone, Copy, PartialEq, Eq, Structural)]
pub struct Sgd {
    pub(crate) learning_rate: Binary64,
    pub(crate) momentum: Binary64,
    pub(crate) dampening: Binary64,
    pub(crate) weight_decay: Binary64,
    pub(crate) nesterov: bool,
    pub(crate) maximize: bool,
    pub(crate) foreach: Option<bool>,
    pub(crate) differentiable: bool,
    pub(crate) fused: Option<bool>,
}

/// The settings of [`Sgd`].
pub struct SgdView {
    pub learning_rate: Binary64,
    pub momentum: Binary64,
    pub dampening: Binary64,
    pub weight_decay: Binary64,
    pub nesterov: bool,
    pub maximize: bool,
    pub foreach: Option<bool>,
    pub differentiable: bool,
    pub fused: Option<bool>,
}

impl View for Sgd {
    type V = SgdView;

    closed spec fn view(&self) -> SgdView {
        SgdView {
            learning_rate: self.learning_rate,
            momentum: self.momentum,
            dampening: self.dampening,
            weight_decay: self.weight_decay,
            nesterov: self.nesterov,
            maximize: self.maximize,
            foreach: self.foreach,
            differentiable: self.differentiable,
            fused: self.fused,
        }
    }
}

impl SgdView {
    /// The defaults.
    pub open spec fn defaults() -> SgdView {
        SgdView {
            learning_rate: Binary64 { bits: DEFAULT_LEARNING_RATE },
            momentum: Binary64 { bits: 0 },
            dampening: Binary64 { bits: 0 },
            weight_decay: Binary64 { bits: 0 },
            nesterov: false,
            maximize: false,
            foreach: None,
            differentiable: false,
            fused: None,
        }
    }
}

impl Default for Sgd {
    fn default() -> (r: Self)
        ensures
            r@ == SgdView::defaults(),
    {
        Sgd {
            learning_rate: Binary64 { bits: DEFAULT_LEARNING_RATE },
            momentum: Binary64 { bits: 0 },
            dampening: Binary64 { bits: 0 },
            weight_decay: Binary64 { bits: 0 },
            nesterov: false,
            maximize: false,
            foreach: None,
            differentiable: false,
            fused: None,
        }
    }
}

impl Sgd {
    /// Creates a builder with the defaults.
    #[must_use]
    pub fn builder() -> (r: Self)
        ensures
            r@ == SgdView::defaults(),
    {
        Sgd::default()
    }

    /// Sets the learning rate.
    #[must_use]
    pub fn learning_rate(self, learning_rate: Binary64) -> (r: Self)
        ensures
            r@ == (SgdView { learning_rate: learning_rate, ..self@ }),
    {
        Sgd { learning_rate: learning_rate, ..self }
    }

    /// Sets the momentum factor.
    #[must_use]
    pub fn momentum(self, momentum: Binary64) -> (r: Self)
        ensures
            r@ == (SgdView { momentum: momentum, ..self@ }),
    {
        Sgd { momentum: momentum, ..self }
    }

    /// Sets momentum dampening.
    #[must_use]
    pub fn dampening(self, dampening: Binary64) -> (r: Self)
        ensures
            r@ == (SgdView { dampening: dampening, ..self@ }),
    {
        Sgd { dampening: dampening, ..self }
    }

    /// Sets weight decay.
    #[must_use]
    pub fn weight_decay(self, weight_decay: Binary64) -> (r: Self)
        ensures
            r@ == (SgdView { weight_decay: weight_decay, ..self@ }),
    {
        Sgd { weight_decay: weight_decay, ..self }
    }

    /// Selects Nesterov momentum, which needs positive momentum and no dampening.
    #[must_use]
    pub fn nesterov(self, nesterov: bool) -> (r: Self)
        ensures
            r@ == (SgdView { nesterov: nesterov, ..self@ }),
    {
        Sgd { nesterov: nesterov, ..self }
    }

    /// Requests loss maximization, which is not offered.
    #[must_use]
    pub fn maximize(self, maximize: bool) -> (r: Self)
        ensures
            r@ == (SgdView { maximize: maximize, ..self@ }),
    {
        Sgd { maximize: maximize, ..self }
    }

    /// Requests batched updates, which are not offered.
    #[must_use]
    pub fn foreach(self, foreach: bool) -> (r: Self)
        ensures
            r@ == (SgdView { foreach: Some(foreach), ..self@ }),
    {
        Sgd { foreach: Some(foreach), ..self }
    }

    /// Requests gradients through updates, which are not offered.
    #[must_use]
    pub fn differentiable(self, differentiable: bool) -> (r: Self)
        ensures
            r@ == (SgdView { differentiable: differentiable, ..self@ }),
    {
        Sgd { differentiable: differentiable, ..self }
    }

    /// Requests fused updates, which are not offered.
    #[must_use]
    pub fn fused(self, fused: bool) -> (r: Self)
        ensures
            r@ == (SgdView { fused: Some(fused), ..self@ }),
    {
        Sgd { fused: Some(fused), ..self }
    }

}

/// Scaling of updates by a moving average of squared gradients.
#[derive(Debug, Clone, Copy, PartialEq, Eq, Structural)]
pub struct RmsProp {
    pub(crate) learning_rate: Binary64,
    pub(crate) alpha: Binary64,
    pub(crate) eps: Binary64,
    pub(crate) weight_decay: Binary64,
    pub(crate) momentum: Binary64,
    pub(crate) centered: bool,
}

/// The settings of [`RmsProp`].
pub struct RmsPropView {
    pub learning_rate: Binary64,
    pub alpha: Binary64,
    pub eps: Binary64,
    pub weight_decay: Binary64,
    pub momentum: Binary64,
    pub centered: bool,
}

impl View for RmsProp {
    type V = RmsPropView;

    closed spec fn view(&self) -> RmsPropView {
        RmsPropView {
            learning_rate: self.learning_rate,
            alpha: self.alpha,
            eps: self.eps,
            weight_decay: self.weight_decay,
            momentum: self.momentum,
            centered: self.centered,
        }
    }
}

impl RmsPropView {
    /// The defaults.
    pub open spec fn defaults() -> RmsPropView {
        RmsPropView {
            learning_rate: Binary64 { bits: 0x3f84_7ae1_47ae_147b },
            alpha: Binary64 { bits: 0x3fef_ae14_7ae1_47ae },
            eps: Binary64 { bits: 0x3e45_798e_e230_8c3a },
            weight_decay: Binary64 { bits: 0 },
            momentum: Binary64 { bits: 0 },
            centered: false,
        }
    }
}

impl Default for RmsProp {
    fn default() -> (r: Self)
        ensures
            r@ == RmsPropView::defaults(),
    {
        RmsProp {
            learning_rate: Binary64 { bits: 0x3f84_7ae1_47ae_147b },
            alpha: Binary64 { bits: 0x3fef_ae14_7ae1_47ae },
            eps: Binary64 { bits: 0x3e45_798e_e230_8c3a },
            weight_decay: Binary64 { bits: 0 },
            momentum: Binary64 { bits: 0 },
            centered: false,
        }
    }
}

impl RmsProp {
    /// Creates a builder with the defaults.
    #[must_use]
    pub fn builder() -> (r: Self)
        ensures
            r@ == RmsPropView::defaults(),
    {
        RmsProp::default()
    }

    /// Sets the learning rate.
    #[must_use]
    pub fn learning_rate(self, learning_rate: Binary64) -> (r: Self)
        ensures
            r@ == (RmsPropView { learning_rate: learning_rate, ..self@ }),
    {
        RmsProp { learning_rate: learning_rate, ..self }
    }

    /// Sets the smoothing coefficient.
    #[must_use]
    pub fn alpha(self, alpha: Binary64) -> (r: Self)
        ensures
            r@ == (RmsPropView { alpha: alpha, ..self@ }),
    {
        RmsProp { alpha: alpha, ..self }
    }

    /// Sets the denominator stability term.
    #[must_use]
    pub fn eps(self, eps: Binary64) -> (r: Self)
        ensures
            r@ == (RmsPropView { eps: eps, ..self@ }),
    {
        RmsProp { eps: eps, ..self }
    }

    /// Sets weight decay.
    #[must_use]
    pub fn weight_decay(self, weight_decay: Binary64) -> (r: Self)
        ensures
            r@ == (RmsPropView { weight_decay: weight_decay, ..self@ }),
    {
        RmsProp { weight_decay: weight_decay, ..self }
    }

    /// Sets the momentum factor; zero disables momentum.
    #[must_use]
    pub fn momentum(self, momentum: Binary64) -> (r: Self)
        ensures
            r@ == (RmsPropView { momentum: momentum, ..self@ }),
    {
        RmsProp { momentum: momentum, ..self }
    }

    /// Centers the squared-gradient average.
    #[must_use]
    pub fn centered(self, centered: bool) -> (r: Self)
        ensures
            r@ == (RmsPropView { centered: centered, ..self@ }),
    {
        RmsProp { centered: centered, ..self }
    }

}

impl AdamView {
    /// Why the settings are refused, if they are.
    pub open spec fn refusal(self) -> Option<ErrorView> {
        either(
            non_negative_refusal("learning_rate"@, self.learning_rate),
            either(
            decay_refusal("beta1"@, self.beta1),
            either(
            decay_refusal("beta2"@, self.beta2),
            either(
            non_negative_refusal("eps"@, self.eps),
            either(
            non_negative_refusal("weight_decay"@, self.weight_decay),
            either(
            option_refusal("Adam"@, "maximize"@, self.maximize),
            either(
            option_refusal("Adam"@, "foreach"@, self.foreach == Some(true)),
            either(
            option_refusal("Adam"@, "capturable"@, self.capturable),
            either(
            option_refusal("Adam"@, "differentiable"@, self.differentiable),
            either(
            option_refusal("Adam"@, "fused"@, self.fused == Some(true)),
            option_refusal("Adam"@, "decoupled_weight_decay"@, self.decoupled_weight_decay),
        ),
        ),
        ),
        ),
        ),
        ),
        ),
        ),
        ),
        )
    }
}

impl SgdView {
    /// Why Nesterov momentum is refused, if it is.
    pub open spec fn nesterov_refusal(self) -> Option<ErrorView> {
        if self.nesterov && (self.momentum.place() <= 0 || self.dampening.place() != 0) {
            Some(setting_text("nesterov"@, "requires momentum > 0 and dampening == 0"@))
        } else {
            None
        }
    }

    /// Why the settings are refused, if they are.
    pub open spec fn refusal(self) -> Option<ErrorView> {
        either(
            non_negative_refusal("learning_rate"@, self.learning_rate),
            either(
            non_negative_refusal("momentum"@, self.momentum),
            either(
            non_negative_refusal("dampening"@, self.dampening),
            either(
            non_negative_refusal("weight_decay"@, self.weight_decay),
            either(
            self.nesterov_refusal(),
            either(
            option_refusal("SGD"@, "maximize"@, self.maximize),
            either(
            option_refusal("SGD"@, "foreach"@, self.foreach == Some(true)),
            either(
            option_refusal("SGD"@, "differentiable"@, self.differentiable),
            option_refusal("SGD"@, "fused"@, self.fused == Some(true)),
        ),
        ),
        ),
        ),
        ),
        ),
        ),
        )
    }
}

impl RmsPropView {
    /// Why the settings are refused, if they are.
    pub open spec fn refusal(self) -> Option<ErrorView> {
        either(
            non_negative_refusal("learning_rate"@, self.learning_rate),
            either(
            non_negative_refusal("alpha"@, self.alpha),
            either(
            non_negative_refusal("eps"@, self.eps),
            either(
            non_negative_refusal("weight_decay"@, self.weight_decay),
            non_negative_refusal("momentum"@, self.momentum),
        ),
        ),
        ),
        )
    }
}

fn is_on(option: Option<bool>) -> (r: bool)
    ensures
        r == (option == Some(true)),
{
    match option {
        Some(on) => on,
        None => false,
    }
}

impl Adam {
    /// Checks the settings.
    pub fn validate(self) -> (r: Result<()>)
        ensures
            refusal(r) == self@.refusal(),
    {
        if let Err(e) = validate_non_negative("learning_rate", self.learning_rate) {
            return Err(e);
        }
        if let Err(e) = validate_beta("beta1", self.beta1) {
            return Err(e);
        }
        if let Err(e) = validate_beta("beta2", self.beta2) {
            return Err(e);
        }
        if let Err(e) = validate_non_negative("eps", self.eps) {
            return Err(e);
        }
        if let Err(e) = validate_non_negative("weight_decay", self.weight_decay) {
            return Err(e);
        }
        if let Err(e) = reject_unsupported("Adam", "maximize", self.maximize) {
            return Err(e);
        }
        if let Err(e) = reject_unsupported("Adam", "foreach", is_on(self.foreach)) {
            return Err(e);
        }
        if let Err(e) = reject_unsupported("Adam", "capturable", self.capturable) {
            return Err(e);
        }
        if let Err(e) = reject_unsupported("Adam", "differentiable", self.differentiable) {
            return Err(e);
        }
        if let Err(e) = reject_unsupported("Adam", "fused", is_on(self.fused)) {
            return Err(e);
        }
        reject_unsupported("Adam", "decoupled_weight_decay", self.decoupled_weight_decay)
    }

    /// Checks the settings and returns the rule.
    pub fn build(self) -> (r: Result<Settings>)
        ensures
            refusal(r) == self@.refusal(),
            r matches Ok(settings) ==> settings == self@.settings(false) && settings_refusal(settings) is None,
    {
        match self.validate() {
            Ok(()) => Ok(self.settings(false)),
            Err(e) => Err(e),
        }
    }

    fn settings(self, decoupled: bool) -> (r: Settings)
        ensures
            r == self@.settings(decoupled),
    {
        Settings {
            algorithm: Algorithm::Adam {
                beta1: self.beta1,
                beta2: self.beta2,
                eps: self.eps,
                amsgrad: self.amsgrad,
                decoupled,
            },
            learning_rate: self.learning_rate,
            weight_decay: self.weight_decay,
        }
    }
}

impl AdamView {
    /// The rule with these settings.
    pub open spec fn settings(self, decoupled: bool) -> Settings {
        Settings {
            algorithm: Algorithm::Adam {
                beta1: self.beta1,
                beta2: self.beta2,
                eps: self.eps,
                amsgrad: self.amsgrad,
                decoupled,
            },
            learning_rate: self.learning_rate,
            weight_decay: self.weight_decay,
        }
    }
}

impl Sgd {
    fn check_nesterov(self) -> (r: Result<()>)
        requires
            self@.momentum.finite(),
            self@.dampening.finite(),
        ensures
            refusal(r) == self@.nesterov_refusal(),
    {
        let zero = Binary64::zero();
        if self.nesterov && (self.momentum.is_at_most(zero) || self.dampening.is_less(zero) || zero.is_less(self.dampening)) {
            Err(setting_error("nesterov", "requires momentum > 0 and dampening == 0"))
        } else {
            Ok(())
        }
    }

    /// Checks the settings.
    pub fn validate(self) -> (r: Result<()>)
        ensures
            refusal(r) == self@.refusal(),
    {
        if let Err(e) = validate_non_negative("learning_rate", self.learning_rate) {
            return Err(e);
        }
        if let Err(e) = validate_non_negative("momentum", self.momentum) {
            return Err(e);
        }
        if let Err(e) = validate_non_negative("dampening", self.dampening) {
            return Err(e);
        }
        if let Err(e) = validate_non_negative("weight_decay", self.weight_decay) {
            return Err(e);
        }
        if let Err(e) = self.check_nesterov() {
            return Err(e);
        }
        if let Err(e) = reject_unsupported("SGD", "maximize", self.maximize) {
            return Err(e);
        }
        if let Err(e) = reject_unsupported("SGD", "foreach", is_on(self.foreach)) {
            return Err(e);
        }
        if let Err(e) = reject_unsupported("SGD", "differentiable", self.differentiable) {
            return Err(e);
        }
        reject_unsupported("SGD", "fused", is_on(self.fused))
    }

    /// Checks the settings and returns the rule.
    pub fn build(self) -> (r: Result<Settings>)
        ensures
            refusal(r) == self@.refusal(),
            r matches Ok(settings) ==> settings == self@.settings() && settings_refusal(settings) is None,
    {
        match self.validate() {
            Ok(()) => Ok(
                Settings {
                    algorithm: Algorithm::Sgd {
                        momentum: self.momentum,
                        dampening: self.dampening,
                        nesterov: self.nesterov,
                    },
                    learning_rate: self.learning_rate,
                    weight_decay: self.weight_decay,
                },
            ),
            Err(e) => Err(e),
        }
    }
}

impl SgdView {
    /// The rule with these settings.
    pub open spec fn settings(self) -> Settings {
        Settings {
            algorithm: Algorithm::Sgd { momentum: self.momentum, dampening: self.dampening, nesterov: self.nesterov },
            learning_rate: self.learning_rate,
            weight_decay: self.weight_decay,
        }
    }
}

impl RmsProp {
    /// Checks the settings and returns the rule.
    pub fn build(self) -> (r: Result<Settings>)
        ensures
            refusal(r) == self@.refusal(),
            r matches Ok(settings) ==> settings == self@.settings() && settings_refusal(settings) is None,
    {
        if let Err(e) = validate_non_negative("learning_rate", self.learning_rate) {
            return Err(e);
        }
        if let Err(e) = validate_non_negative("alpha", self.alpha) {
            return Err(e);
        }
        if let Err(e) = validate_non_negative("eps", self.eps) {
            return Err(e);
        }
        if let Err(e) = validate_non_negative("weight_decay", self.weight_decay) {
            return Err(e);
        }
        if let Err(e) = validate_non_negative("momentum", self.momentum) {
            return Err(e);
        }
        Ok(
            Settings {
                algorithm: Algorithm::RmsProp {
                    alpha: self.alpha,
                    eps: self.eps,
                    momentum: self.momentum,
                    centered: self.centered,
                },
                learning_rate: self.learning_rate,
                weight_decay: self.weight_decay,
            },
        )
    }
}

impl RmsPropView {
    /// The rule with these settings.
    pub open spec fn settings(self) -> Settings {
        Settings {
            algorithm: Algorithm::RmsProp { alpha: self.alpha, eps: self.eps, momentum: self.momentum, centered: self.centered },
            learning_rate: self.learning_rate,
            weight_decay: self.weight_decay,
        }
    }
}

/// Adam with decoupled weight decay.
#[derive(Debug, Clone, Copy, PartialEq, Eq, Structural)]
pub struct AdamW {
    pub(crate) config: Adam,
}

impl View for AdamW {
    type V = AdamView;

    closed spec fn view(&self) -> AdamView {
        self.config@
    }
}

/// The default settings of [`AdamW`]: those of [`Adam`] with some weight decay.
pub open spec fn decoupled_defaults() -> AdamView {
    AdamView { weight_decay: Binary64 { bits: 0x3f84_7ae1_47ae_147b }, ..AdamView::defaults() }
}

impl Default for AdamW {
    fn default() -> (r: Self)
        ensures
            r@ == decoupled_defaults(),
    {
        AdamW { config: Adam::default().weight_decay(Binary64 { bits: 0x3f84_7ae1_47ae_147b }) }
    }
}

impl AdamW {
    /// Creates a builder with the defaults.
    #[must_use]
    pub fn builder() -> (r: Self)
        ensures
            r@ == decoupled_defaults(),
    {
        AdamW::default()
    }

    /// Sets the learning rate.
    #[must_use]
    pub fn learning_rate(self, value: Binary64) -> (r: Self)
        ensures
            r@ == (AdamView { learning_rate: value, ..self@ }),
    {
        AdamW { config: self.config.learning_rate(value) }
    }

    /// Sets both moment decay rates.
    #[must_use]
    pub fn betas(self, beta1: Binary64, beta2: Binary64) -> (r: Self)
        ensures
            r@ == (AdamView { beta1, beta2, ..self@ }),
    {
        AdamW { config: self.config.betas(beta1, beta2) }
    }

    /// Sets the denominator stability term.
    #[must_use]
    pub fn eps(self, value: Binary64) -> (r: Self)
        ensures
            r@ == (AdamView { eps: value, ..self@ }),
    {
        AdamW { config: self.config.eps(value) }
    }

    /// Sets decoupled weight decay; zero disables it.
    #[must_use]
    pub fn weight_decay(self, value: Binary64) -> (r: Self)
        ensures
            r@ == (AdamView { weight_decay: value, ..self@ }),
    {
        AdamW { config: self.config.weight_decay(value) }
    }

    /// Selects the AMSGrad variant.
    #[must_use]
    pub fn amsgrad(self, enabled: bool) -> (r: Self)
        ensures
            r@ == (AdamView { amsgrad: enabled, ..self@ }),
    {
        AdamW { config: self.config.amsgrad(enabled) }
    }

    /// Checks the settings and returns the rule.
    pub fn build(self) -> (r: Result<Settings>)
        ensures
            refusal(r) == self@.refusal(),
            r matches Ok(settings) ==> settings == self@.settings(true) && settings_refusal(settings) is None,
    {
        match self.config.validate() {
            Ok(()) => Ok(self.config.settings(true)),
            Err(e) => Err(e),
        }
    }
}

} // verus!
