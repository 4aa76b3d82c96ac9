//! Losses: which operands and settings they accept.
use super::functional::{check_operand, check_optional, eps_refusal, check_eps, operand_refusal, optional_refusal, optional_view};
use crate::error::{either, refusal, setting_error, setting_text, ErrorView, Result, RustTorchError};
use crate::float::{in_unit_interval, is_fraction, Binary64};
use crate::tensor::{copy_shape, same_shape, MetaView, TensorMeta};
use crate::text::owned;
use vstd::prelude::*;

verus! {

/// How the losses of elements become one.
#[derive(Debug, Clone, Copy, PartialEq, Eq, Structural)]
pub enum Reduction {
    /// They are kept.
    Keep,
    /// Their mean is taken.
    Mean,
    /// Their sum is taken.
    Sum,
    /// A code that stands for none of these.
    Other(i64),
}

/// Why the operands of a loss are refused, if they are.
pub open spec fn loss_refusal(input: MetaView, target: MetaView, reduction: Reduction) -> Option<ErrorView> {
    either(
        operand_refusal("loss target"@, input, target),
        if reduction is Other {
            Some(setting_text("reduction"@, "must be None, Mean or Sum"@))
        } else {
            None
        },
    )
}

fn validate(input: &TensorMeta, target: &TensorMeta, reduction: Reduction) -> (r: Result<()>)
    ensures
        refusal(r) == loss_refusal(input@, target@, reduction),
{
    if let Err(e) = check_operand("loss target", input, target) {
        return Err(e);
    }
    match reduction {
        Reduction::Other(_) => Err(setting_error("reduction", "must be None, Mean or Sum")),
        _ => Ok(()),
    }
}

/// Why the operands of a binary loss are refused, if they are.
pub open spec fn binary_refusal(
    input: MetaView,
    target: MetaView,
    weight: Option<MetaView>,
    reduction: Reduction,
) -> Option<ErrorView> {
    either(
        loss_refusal(input, target, reduction),
        either(
            if input.shape != target.shape {
                Some(
                    ErrorView::ShapeMismatch {
                        name: "binary loss target"@,
                        expected: input.shape,
                        actual: target.shape,
                    },
                )
            } else {
                None
            },
            optional_refusal("loss weight"@, input, weight),
        ),
    )
}

fn validate_binary(
    input: &TensorMeta,
    target: &TensorMeta,
    weight: Option<&TensorMeta>,
    reduction: Reduction,
) -> (r: Result<()>)
    ensures
        refusal(r) == binary_refusal(input@, target@, optional_view(weight), reduction),
{
    if let Err(e) = validate(input, target, reduction) {
        return Err(e);
    }
    if !same_shape(input.shape.as_slice(), target.shape.as_slice()) {
        return Err(
            RustTorchError::ShapeMismatch {
                name: owned("binary loss target"),
                expected: copy_shape(input.shape.as_slice()),
                actual: copy_shape(target.shape.as_slice()),
            },
        );
    }
    check_optional("loss weight", input, weight)
}

/// The settings of a cross-entropy loss.
#[derive(Debug, Clone, Copy, PartialEq, Eq, Structural)]
pub struct CrossEntropyOptions {
    /// How the losses of elements become one.
    pub reduction: Reduction,
    /// The class that is left out.
    pub ignore_index: i64,
    /// How much is given to the other classes.
    pub label_smoothing: Binary64,
}

impl Default for CrossEntropyOptions {
    /// The mean over all classes but -100, without smoothing.
    fn default() -> (r: Self)
        ensures
            r.reduction == Reduction::Mean,
            r.ignore_index == -100,
            r.label_smoothing.bits == 0,
    {
        CrossEntropyOptions { reduction: Reduction::Mean, ignore_index: -100, label_smoothing: Binary64::zero() }
    }
}

/// Checks the operands and settings of a cross-entropy loss. `weight` holds a factor for each
/// class.
pub fn cross_entropy_with_options(
    input: &TensorMeta,
    target: &TensorMeta,
    weight: Option<&TensorMeta>,
    options: CrossEntropyOptions,
) -> (r: Result<()>)
    ensures
        refusal(r) == either(
            loss_refusal(input@, target@, options.reduction),
            either(
                if is_fraction(options.label_smoothing) {
                    None
                } else {
                    Some(setting_text("label_smoothing"@, "must be finite and in [0, 1]"@))
                },
                optional_refusal("class weights"@, input@, optional_view(weight)),
            ),
        ),
{
    if let Err(e) = validate(input, target, options.reduction) {
        return Err(e);
    }
    if !in_unit_interval(options.label_smoothing) {
        return Err(setting_error("label_smoothing", "must be finite and in [0, 1]"));
    }
    check_optional("class weights", input, weight)
}

/// Checks the operands of a squared-error loss.
pub fn mse_loss_with_reduction(input: &TensorMeta, target: &TensorMeta, reduction: Reduction) -> (r: Result<()>)
    ensures
        refusal(r) == loss_refusal(input@, target@, reduction),
{
    validate(input, target, reduction)
}

/// Checks the operands of an absolute-error loss.
pub fn l1_loss(input: &TensorMeta, target: &TensorMeta, reduction: Reduction) -> (r: Result<()>)
    ensures
        refusal(r) == loss_refusal(input@, target@, reduction),
{
    validate(input, target, reduction)
}

/// Checks the operands of an absolute-error loss that is quadratic below `beta`.
pub fn smooth_l1_loss(input: &TensorMeta, target: &TensorMeta, beta: Binary64, reduction: Reduction) -> (r: Result<()>)
    ensures
        refusal(r) == either(loss_refusal(input@, target@, reduction), eps_refusal("beta"@, beta)),
{
    if let Err(e) = validate(input, target, reduction) {
        return Err(e);
    }
    check_eps("beta", beta)
}

/// Checks the operands of a squared-error loss that is linear above `delta`.
pub fn huber_loss(input: &TensorMeta, target: &TensorMeta, delta: Binary64, reduction: Reduction) -> (r: Result<()>)
    ensures
        refusal(r) == either(
            loss_refusal(input@, target@, reduction),
            if !delta.finite() || delta.place() <= 0 {
                Some(setting_text("delta"@, "must be finite and positive"@))
            } else {
                None
            },
        ),
{
    if let Err(e) = validate(input, target, reduction) {
        return Err(e);
    }
    if !delta.is_finite() || delta.is_at_most(Binary64::zero()) {
        return Err(setting_error("delta", "must be finite and positive"));
    }
    Ok(())
}

/// Checks the operands of a cross-entropy loss of probabilities.
pub fn binary_cross_entropy(
    input: &TensorMeta,
    target: &TensorMeta,
    weight: Option<&TensorMeta>,
    reduction: Reduction,
) -> (r: Result<()>)
    ensures
        refusal(r) == binary_refusal(input@, target@, optional_view(weight), reduction),
{
    validate_binary(input, target, weight, reduction)
}

/// Checks the operands of a cross-entropy loss of logits. `pos_weight` holds a factor for
/// positive targets.
pub fn binary_cross_entropy_with_logits(
    input: &TensorMeta,
    target: &TensorMeta,
    weight: Option<&TensorMeta>,
    pos_weight: Option<&TensorMeta>,
    reduction: Reduction,
) -> (r: Result<()>)
    ensures
        refusal(r) == either(
            binary_refusal(input@, target@, optional_view(weight), reduction),
            optional_refusal("positive weights"@, input@, optional_view(pos_weight)),
        ),
{
    if let Err(e) = validate_binary(input, target, weight, reduction) {
        return Err(e);
    }
    check_optional("positive weights", input, pos_weight)
}

/// Checks the operands of a negative log-likelihood loss. `weight` holds a factor for each
/// class.
pub fn nll_loss(input: &TensorMeta, target: &TensorMeta, weight: Option<&TensorMeta>, reduction: Reduction) -> (r: Result<()>)
    ensures
        refusal(r) == either(
            loss_refusal(input@, target@, reduction),
            optional_refusal("class weights"@, input@, optional_view(weight)),
        ),
{
    if let Err(e) = validate(input, target, reduction) {
        return Err(e);
    }
    check_optional("class weights", input, weight)
}

} // verus!
