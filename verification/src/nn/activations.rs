//! Elementwise nonlinearities and their settings.
use crate::error::{either, refusal, setting_error, setting_text, ErrorView, Result};
use crate::float::Binary64;
use crate::tensor::{MetaView, TensorMeta};
use vstd::prelude::*;

verus! {

/// Why an input is refused for having no value, if it is.
pub open spec fn defined_refusal(input: MetaView) -> Option<ErrorView> {
    if input.defined {
        None
    } else {
        Some(setting_text("activation input"@, "must be a defined tensor"@))
    }
}

/// Checks that an input has a value.
pub fn defined(input: &TensorMeta) -> (r: Result<()>)
    ensures
        refusal(r) == defined_refusal(input@),
{
    if input.defined {
        Ok(())
    } else {
        Err(setting_error("activation input", "must be a defined tensor"))
    }
}

/// Why an input is refused for not holding fractions, if it is.
pub open spec fn floating_refusal(input: MetaView, floating: bool) -> Option<ErrorView> {
    either(
        defined_refusal(input),
        if floating {
            None
        } else {
            Some(setting_text("activation dtype"@, "requires a real floating-point tensor"@))
        },
    )
}

/// Checks that an input holds fractions. `fractional` is what the tensor tells of its elements.
pub fn floating(input: &TensorMeta, fractional: bool) -> (r: Result<()>)
    ensures
        refusal(r) == floating_refusal(input@, fractional),
{
    if let Err(e) = defined(input) {
        return Err(e);
    }
    if fractional {
        Ok(())
    } else {
        Err(setting_error("activation dtype", "requires a real floating-point tensor"))
    }
}

/// Probabilities along an axis.
#[derive(Debug, Clone, Copy, PartialEq, Eq, Structural)]
pub struct Softmax {
    /// The axis.
    pub dim: i64,
}

impl Softmax {
    /// Probabilities along an axis.
    pub fn new(dim: i64) -> (r: Self)
        ensures
            r == (Softmax { dim }),
    {
        Softmax { dim }
    }
}

/// Logarithms of probabilities along an axis.
#[derive(Debug, Clone, Copy, PartialEq, Eq, Structural)]
pub struct LogSoftmax {
    /// The axis.
    pub dim: i64,
}

impl LogSoftmax {
    /// Logarithms of probabilities along an axis.
    pub fn new(dim: i64) -> (r: Self)
        ensures
            r == (LogSoftmax { dim }),
    {
        LogSoftmax { dim }
    }
}

/// Scales negative elements.
#[derive(Debug, Clone, Copy, PartialEq, Eq, Structural)]
pub struct LeakyReLU {
    /// The factor.
    pub negative_slope: Binary64,
}

impl Default for LeakyReLU {
    /// A factor of one hundredth.
    fn default() -> (r: Self)
        ensures
            r.negative_slope.bits == 0x3f84_7ae1_47ae_147b,
    {
        LeakyReLU { negative_slope: Binary64 { bits: 0x3f84_7ae1_47ae_147b } }
    }
}

impl LeakyReLU {
    /// Scales negative elements by a factor.
    pub fn new(negative_slope: Binary64) -> (r: Result<Self>)
        ensures
            refusal(r) == (if negative_slope.finite() {
                None
            } else {
                Some(setting_text("negative_slope"@, "must be finite"@))
            }),
            r matches Ok(a) ==> a.negative_slope == negative_slope,
    {
        if !negative_slope.is_finite() {
            return Err(setting_error("negative_slope", "must be finite"));
        }
        Ok(LeakyReLU { negative_slope })
    }
}

/// Bends negative elements.
#[derive(Debug, Clone, Copy, PartialEq, Eq, Structural)]
pub struct ELU {
    /// How far.
    pub alpha: Binary64,
}

impl Default for ELU {
    /// Down to minus one.
    fn default() -> (r: Self)
        ensures
            r.alpha.bits == crate::float::ONE,
    {
        ELU { alpha: Binary64::one() }
    }
}

impl ELU {
    /// Bends negative elements by a factor.
    pub fn new(alpha: Binary64) -> (r: Result<Self>)
        ensures
            refusal(r) == (if alpha.finite() {
                None
            } else {
                Some(setting_text("alpha"@, "must be finite"@))
            }),
            r matches Ok(a) ==> a.alpha == alpha,
    {
        if !alpha.is_finite() {
            return Err(setting_error("alpha", "must be finite"));
        }
        Ok(ELU { alpha })
    }
}

} // verus!
