//! The operations of graph nodes.
use crate::float::Binary64;
use crate::nn::GeluApproximation;
use vstd::prelude::*;

verus! {

/// Operation represented by a graph node.
#[derive(Debug, Clone, Copy, PartialEq, Eq, Structural)]
#[non_exhaustive]
pub enum GraphOp {
    /// Named runtime tensor input.
    Input,
    /// Named graph result.
    Output,
    /// Pass-through operation.
    Identity,
    /// Fully connected transformation.
    Linear {
        /// Size of the last input dimension.
        in_features: i64,
        /// Size of the last output dimension.
        out_features: i64,
        /// Whether the operation owns an additive bias.
        bias: bool,
    },
    /// Element-wise rectified linear unit.
    ReLU,
    /// Element-wise Gaussian error linear unit.
    Gelu {
        /// Approximation used by the GELU kernel.
        approximation: GeluApproximation,
    },
    /// Randomly masks elements during training.
    Dropout {
        /// Probability that an element is zeroed.
        probability: Binary64,
    },
    /// Flattens an inclusive dimension range.
    Flatten {
        /// First dimension to flatten.
        start_dim: i64,
        /// Last dimension to flatten.
        end_dim: i64,
    },
    /// Element-wise addition with broadcasting.
    Add,
    /// Element-wise subtraction with broadcasting.
    Subtract,
    /// Element-wise multiplication with broadcasting.
    Multiply,
    /// Concatenates tensors along one dimension.
    Concatenate {
        /// Dimension along which tensors are concatenated.
        dim: i64,
    },
    /// Mean-reduced mean squared error.
    MseLoss,
    /// Mean-reduced cross-entropy loss.
    CrossEntropyLoss,
}

impl GraphOp {
    /// How many operands the operation takes; concatenation takes any positive number.
    pub open spec fn arity(self) -> Option<usize> {
        match self {
            GraphOp::Input => Some(0),
            GraphOp::Output | GraphOp::Identity | GraphOp::Linear { .. } | GraphOp::ReLU | GraphOp::Gelu { .. }
            | GraphOp::Dropout { .. } | GraphOp::Flatten { .. } => Some(1),
            GraphOp::Add | GraphOp::Subtract | GraphOp::Multiply | GraphOp::MseLoss | GraphOp::CrossEntropyLoss => Some(2),
            GraphOp::Concatenate { .. } => None,
        }
    }

    /// The operation takes `count` operands.
    pub open spec fn takes(self, count: int) -> bool {
        match self.arity() {
            Some(expected) => count == expected,
            None => count > 0,
        }
    }

    /// The name of the operation.
    pub open spec fn title(self) -> Seq<char> {
        match self {
            GraphOp::Input => "Input"@,
            GraphOp::Output => "Output"@,
            GraphOp::Identity => "Identity"@,
            GraphOp::Linear { .. } => "Linear"@,
            GraphOp::ReLU => "ReLU"@,
            GraphOp::Gelu { .. } => "GELU"@,
            GraphOp::Dropout { .. } => "Dropout"@,
            GraphOp::Flatten { .. } => "Flatten"@,
            GraphOp::Add => "Add"@,
            GraphOp::Subtract => "Subtract"@,
            GraphOp::Multiply => "Multiply"@,
            GraphOp::Concatenate { .. } => "Concatenate"@,
            GraphOp::MseLoss => "MSELoss"@,
            GraphOp::CrossEntropyLoss => "CrossEntropyLoss"@,
        }
    }

    /// Returns the number of operands, or `None` where any positive number is taken.
    pub fn expected_arity(&self) -> (r: Option<usize>)
        ensures
            r == self.arity(),
    {
        match self {
            GraphOp::Input => Some(0),
            GraphOp::Output | GraphOp::Identity | GraphOp::Linear { .. } | GraphOp::ReLU | GraphOp::Gelu { .. }
            | GraphOp::Dropout { .. } | GraphOp::Flatten { .. } => Some(1),
            GraphOp::Add | GraphOp::Subtract | GraphOp::Multiply | GraphOp::MseLoss | GraphOp::CrossEntropyLoss => Some(2),
            GraphOp::Concatenate { .. } => None,
        }
    }

    /// Returns the name of the operation.
    pub fn label(&self) -> (r: &'static str)
        ensures
            r@ == self.title(),
    {
        match self {
            GraphOp::Input => "Input",
            GraphOp::Output => "Output",
            GraphOp::Identity => "Identity",
            GraphOp::Linear { .. } => "Linear",
            GraphOp::ReLU => "ReLU",
            GraphOp::Gelu { .. } => "GELU",
            GraphOp::Dropout { .. } => "Dropout",
            GraphOp::Flatten { .. } => "Flatten",
            GraphOp::Add => "Add",
            GraphOp::Subtract => "Subtract",
            GraphOp::Multiply => "Multiply",
            GraphOp::Concatenate { .. } => "Concatenate",
            GraphOp::MseLoss => "MSELoss",
            GraphOp::CrossEntropyLoss => "CrossEntropyLoss",
        }
    }
}

} // verus!
