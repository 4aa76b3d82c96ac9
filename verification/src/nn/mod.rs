//! Configuration of layers and the shape rules they follow.
pub mod activations;
pub mod functional;
pub mod laws;
pub mod layers;
pub mod loss;
pub mod normalization;
pub mod sequence;
pub mod sequence_laws;
pub mod sequential;
pub mod spatial;

use crate::error::{refusal, Result};
use crate::float::Binary64;
use functional::{dropout_refusal, validate_dropout};
use vstd::prelude::*;

verus! {

/// Passes its input on.
#[derive(Debug, Clone, Copy, PartialEq, Eq, Structural)]
pub struct Identity;

impl Default for Identity {
    fn default() -> (r: Self)
        ensures
            r == Identity,
    {
        Identity
    }
}

/// Cuts negative elements off.
#[derive(Debug, Clone, Copy, PartialEq, Eq, Structural)]
pub struct ReLU;

impl Default for ReLU {
    fn default() -> (r: Self)
        ensures
            r == ReLU,
    {
        ReLU
    }
}

/// Approximation mode for Gaussian error linear units.
#[derive(Debug, Clone, Copy, PartialEq, Eq, Structural)]
#[non_exhaustive]
pub enum GeluApproximation {
    /// Uses the exact formulation.
    Exact,
    /// Uses the tanh approximation.
    Tanh,
}

impl Default for GeluApproximation {
    fn default() -> (r: Self)
        ensures
            r == GeluApproximation::Exact,
    {
        GeluApproximation::Exact
    }
}

impl GeluApproximation {
    /// The name of the mode in tensor operations.
    pub fn as_str(self) -> (r: &'static str)
        ensures
            r@ == (match self {
                GeluApproximation::Exact => "none"@,
                GeluApproximation::Tanh => "tanh"@,
            }),
    {
        match self {
            GeluApproximation::Exact => "none",
            GeluApproximation::Tanh => "tanh",
        }
    }
}

/// A Gaussian error linear unit.
#[derive(Debug, Clone, Copy, PartialEq, Eq, Structural)]
pub struct Gelu {
    /// How it is computed.
    pub approximation: GeluApproximation,
}

impl Gelu {
    /// A unit with an approximation mode.
    pub fn new(approximation: GeluApproximation) -> (r: Self)
        ensures
            r == (Gelu { approximation }),
    {
        Gelu { approximation }
    }
}

impl Default for Gelu {
    /// The exact unit.
    fn default() -> (r: Self)
        ensures
            r == (Gelu { approximation: GeluApproximation::Exact }),
    {
        Gelu { approximation: GeluApproximation::Exact }
    }
}

/// Clears elements at random while training.
#[derive(Debug, Clone, Copy, PartialEq, Eq, Structural)]
pub struct Dropout {
    probability: Binary64,
}

impl Dropout {
    /// The probability by which an element is cleared.
    pub closed spec fn chance(self) -> Binary64 {
        self.probability
    }

    /// Clears elements with a probability.
    pub fn new(probability: Binary64) -> (r: Result<Self>)
        ensures
            refusal(r) == dropout_refusal(probability),
            r matches Ok(d) ==> d.chance() == probability,
    {
        if let Err(e) = validate_dropout(probability) {
            return Err(e);
        }
        Ok(Dropout { probability })
    }

    /// The probability by which an element is cleared.
    pub fn probability(&self) -> (r: Binary64)
        ensures
            r == self.chance(),
    {
        self.probability
    }
}

/// Merges neighbouring axes.
#[derive(Debug, Clone, Copy, PartialEq, Eq, Structural)]
pub struct Flatten {
    /// The first axis.
    pub start_dim: i64,
    /// The last axis; a negative one counts from the end.
    pub end_dim: i64,
}

impl Flatten {
    /// Merges the axes from the first to the last.
    pub fn new(start_dim: i64, end_dim: i64) -> (r: Self)
        ensures
            r == (Flatten { start_dim, end_dim }),
    {
        Flatten { start_dim, end_dim }
    }
}

impl Default for Flatten {
    /// Merges all axes but the first.
    fn default() -> (r: Self)
        ensures
            r.start_dim == 1,
            r.end_dim == -1,
    {
        Flatten { start_dim: 1, end_dim: -1 }
    }
}

} // verus!
