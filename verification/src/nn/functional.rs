//! The conditions that tensor operations put on their operands and settings.
use crate::error::{either, number_error, number_text, refusal, setting_error, setting_text, ErrorView, Result, RustTorchError};
use crate::float::{in_unit_interval, is_fraction, Binary64};
use crate::kind::Device;
use crate::tensor::{copy_shape, device_refusal, ensure_device, same_shape, MetaView, TensorMeta};
use crate::text::{decimal, integer_text, join, join3, natural_text, owned, shape_form, shape_text};
use vstd::prelude::*;

verus! {

/// Why a dropout probability is refused, if it is.
pub open spec fn dropout_refusal(probability: Binary64) -> Option<ErrorView> {
    if is_fraction(probability) {
        None
    } else {
        Some(number_text("dropout probability"@, "must be finite and in [0, 1]"@, probability))
    }
}

/// Checks that a dropout probability is finite and in the closed unit interval.
pub fn validate_dropout(probability: Binary64) -> (r: Result<()>)
    ensures
        refusal(r) == dropout_refusal(probability),
{
    if in_unit_interval(probability) {
        Ok(())
    } else {
        Err(number_error("dropout probability", "must be finite and in [0, 1]", probability))
    }
}

/// Why an operand is refused for having no value, if it is.
pub open spec fn input_refusal(input: MetaView) -> Option<ErrorView> {
    if input.defined {
        None
    } else {
        Some(
            ErrorView::InvalidDimensions {
                context: "functional input"@,
                expected: "a defined tensor"@,
                actual: "undefined tensor"@,
            },
        )
    }
}

/// Where an operand is stored.
pub fn input_device(input: &TensorMeta) -> (r: Result<Device>)
    ensures
        refusal(r) == input_refusal(input@),
        r matches Ok(device) ==> device == input@.device,
{
    if input.defined {
        Ok(input.device)
    } else {
        Err(
            RustTorchError::InvalidDimensions {
                context: owned("functional input"),
                expected: owned("a defined tensor"),
                actual: owned("undefined tensor"),
            },
        )
    }
}

/// Why a second operand is refused beside the first, if it is: both have to lie on one device.
pub open spec fn operand_refusal(context: Seq<char>, input: MetaView, operand: MetaView) -> Option<ErrorView> {
    either(input_refusal(input), device_refusal(context, operand.device, input.device))
}

/// Checks that a second operand lies on the device of the first.
pub fn check_operand(context: &str, input: &TensorMeta, operand: &TensorMeta) -> (r: Result<()>)
    ensures
        refusal(r) == operand_refusal(context@, input@, operand@),
{
    match input_device(input) {
        Ok(device) => ensure_device(context, operand.device, device),
        Err(e) => Err(e),
    }
}

/// The content of an optional operand.
pub open spec fn optional_view(tensor: Option<&TensorMeta>) -> Option<MetaView> {
    match tensor {
        Some(t) => Some(t@),
        None => None,
    }
}

/// Why an optional operand is refused beside the first, if it is.
pub open spec fn optional_refusal(context: Seq<char>, input: MetaView, operand: Option<MetaView>) -> Option<ErrorView> {
    match operand {
        Some(operand) => operand_refusal(context, input, operand),
        None => None,
    }
}

/// Checks that an optional operand lies on the device of the first.
pub fn check_optional(context: &str, input: &TensorMeta, operand: Option<&TensorMeta>) -> (r: Result<()>)
    ensures
        refusal(r) == optional_refusal(context@, input@, optional_view(operand)),
{
    match operand {
        Some(operand) => check_operand(context, input, operand),
        None => Ok(()),
    }
}

/// Why a bias is refused, if it is: it has to hold one value for each output.
pub open spec fn bias_refusal(context: Seq<char>, input: MetaView, bias: Option<MetaView>, outputs: i64) -> Option<ErrorView> {
    match bias {
        None => None,
        Some(bias) => either(
            operand_refusal(context, input, bias),
            if bias.shape != seq![outputs] {
                Some(ErrorView::ShapeMismatch { name: context, expected: seq![outputs], actual: bias.shape })
            } else {
                None
            },
        ),
    }
}

fn check_bias(context: &str, input: &TensorMeta, bias: Option<&TensorMeta>, outputs: i64) -> (r: Result<()>)
    ensures
        refusal(r) == bias_refusal(context@, input@, optional_view(bias), outputs),
{
    let bias = match bias {
        Some(bias) => bias,
        None => {
            return Ok(());
        },
    };
    if let Err(e) = check_operand(context, input, bias) {
        return Err(e);
    }
    let mut expected: Vec<i64> = Vec::new();
    expected.push(outputs);
    assert(expected@ =~= seq![outputs]);
    if !same_shape(bias.shape.as_slice(), expected.as_slice()) {
        return Err(
            RustTorchError::ShapeMismatch { name: owned(context), expected, actual: copy_shape(bias.shape.as_slice()) },
        );
    }
    Ok(())
}

/// Why the operands of a linear map are refused, if they are.
pub open spec fn linear_refusal(input: MetaView, weight: MetaView, bias: Option<MetaView>) -> Option<ErrorView> {
    if operand_refusal("linear weight"@, input, weight) is Some {
        operand_refusal("linear weight"@, input, weight)
    } else if weight.shape.len() != 2 {
        Some(
            ErrorView::InvalidDimensions {
                context: "linear weight"@,
                expected: "rank 2 [out_features, in_features]"@,
                actual: "shape "@ + shape_form(weight.shape),
            },
        )
    } else if input.shape.len() == 0 {
        Some(
            ErrorView::InvalidDimensions {
                context: "linear input"@,
                expected: "rank at least 1"@,
                actual: "scalar"@,
            },
        )
    } else if input.shape.last() != weight.shape[1] {
        Some(
            ErrorView::InvalidDimensions {
                context: "linear input"@,
                expected: "last dimension "@ + decimal(weight.shape[1] as int),
                actual: decimal(input.shape.last() as int),
            },
        )
    } else {
        bias_refusal("linear bias"@, input, bias, weight.shape[0])
    }
}

/// Checks the operands of a linear map.
pub fn linear(input: &TensorMeta, weight: &TensorMeta, bias: Option<&TensorMeta>) -> (r: Result<()>)
    ensures
        refusal(r) == linear_refusal(input@, weight@, optional_view(bias)),
{
    if let Err(e) = check_operand("linear weight", input, weight) {
        return Err(e);
    }
    if weight.shape.len() != 2 {
        let shape = shape_text(weight.shape.as_slice());
        return Err(
            RustTorchError::InvalidDimensions {
                context: owned("linear weight"),
                expected: owned("rank 2 [out_features, in_features]"),
                actual: join("shape ", shape.as_str()),
            },
        );
    }
    if input.shape.len() == 0 {
        return Err(
            RustTorchError::InvalidDimensions {
                context: owned("linear input"),
                expected: owned("rank at least 1"),
                actual: owned("scalar"),
            },
        );
    }
    let features: i64 = input.shape[input.shape.len() - 1];
    if features != weight.shape[1] {
        let wanted = integer_text(weight.shape[1]);
        return Err(
            RustTorchError::InvalidDimensions {
                context: owned("linear input"),
                expected: join("last dimension ", wanted.as_str()),
                actual: integer_text(features),
            },
        );
    }
    check_bias("linear bias", input, bias, weight.shape[0])
}

/// Checks the operands of a squared-error loss.
pub fn mse_loss(input: &TensorMeta, target: &TensorMeta) -> (r: Result<()>)
    ensures
        refusal(r) == operand_refusal("MSE target"@, input@, target@),
{
    check_operand("MSE target", input, target)
}

/// Checks the operands of a cross-entropy loss.
pub fn cross_entropy(input: &TensorMeta, target: &TensorMeta) -> (r: Result<()>)
    ensures
        refusal(r) == operand_refusal("cross-entropy target"@, input@, target@),
{
    check_operand("cross-entropy target", input, target)
}

/// There is one value for each of `n` axes, and each is at least `least`.
pub open spec fn one_for_each(values: Seq<i64>, n: nat, least: i64) -> bool {
    values.len() == n && forall|i: int| 0 <= i < values.len() ==> #[trigger] values[i] >= least
}

pub(crate) fn each_at_least(values: &[i64], least: i64) -> (r: bool)
    ensures
        r == one_for_each(values@, values@.len(), least),
{
    let mut i: usize = 0;
    while i < values.len()
        invariant
            i <= values@.len(),
            forall|j: int| 0 <= j < i ==> #[trigger] values@[j] >= least,
        decreases values@.len() - i,
    {
        if values[i] < least {
            assert(values@[i as int] < least);
            return false;
        }
        i += 1;
    }
    true
}

/// Why one value for each axis is refused, if it is.
pub open spec fn axes_refusal(field: Seq<char>, values: Seq<i64>, n: nat) -> Option<ErrorView> {
    if one_for_each(values, n, 1) {
        None
    } else {
        Some(setting_text(field, "must have one positive value per spatial dimension"@))
    }
}

fn check_axes(field: &'static str, values: &[i64], n: usize) -> (r: Result<()>)
    ensures
        refusal(r) == axes_refusal(field@, values@, n as nat),
{
    if values.len() != n || !each_at_least(values, 1) {
        return Err(setting_error(field, "must have one positive value per spatial dimension"));
    }
    Ok(())
}

/// Why the settings of a convolution are refused, if they are.
pub open spec fn conv_refusal(
    in_channels: i64,
    out_channels: i64,
    kernel: Seq<i64>,
    stride: Seq<i64>,
    padding: Seq<i64>,
    dilation: Seq<i64>,
    groups: i64,
) -> Option<ErrorView> {
    if !(1 <= kernel.len() <= 3) {
        Some(setting_text("convolution dimensions"@, "must be one, two, or three"@))
    } else if in_channels <= 0 || out_channels <= 0 {
        Some(setting_text("channels"@, "input and output channels must be positive"@))
    } else if groups <= 0 || in_channels % groups != 0 || out_channels % groups != 0 {
        Some(setting_text("groups"@, "must be positive and divide both channel counts"@))
    } else {
        either(
            axes_refusal("kernel_size"@, kernel, kernel.len()),
            either(
                axes_refusal("stride"@, stride, kernel.len()),
                either(
                    axes_refusal("dilation"@, dilation, kernel.len()),
                    if one_for_each(padding, kernel.len(), 0) {
                        None
                    } else {
                        Some(setting_text("padding"@, "must have one nonnegative value per spatial dimension"@))
                    },
                ),
            ),
        )
    }
}

/// Checks the settings of a convolution.
pub fn validate_conv_config(
    in_channels: i64,
    out_channels: i64,
    kernel: &[i64],
    stride: &[i64],
    padding: &[i64],
    dilation: &[i64],
    groups: i64,
) -> (r: Result<()>)
    ensures
        refusal(r) == conv_refusal(in_channels, out_channels, kernel@, stride@, padding@, dilation@, groups),
{
    let dimensions: usize = kernel.len();
    if dimensions < 1 || dimensions > 3 {
        return Err(setting_error("convolution dimensions", "must be one, two, or three"));
    }
    if in_channels <= 0 || out_channels <= 0 {
        return Err(setting_error("channels", "input and output channels must be positive"));
    }
    if groups <= 0 || in_channels % groups != 0 || out_channels % groups != 0 {
        return Err(setting_error("groups", "must be positive and divide both channel counts"));
    }
    if let Err(e) = check_axes("kernel_size", kernel, dimensions) {
        return Err(e);
    }
    if let Err(e) = check_axes("stride", stride, dimensions) {
        return Err(e);
    }
    if let Err(e) = check_axes("dilation", dilation, dimensions) {
        return Err(e);
    }
    if padding.len() != dimensions || !each_at_least(padding, 0) {
        return Err(setting_error("padding", "must have one nonnegative value per spatial dimension"));
    }
    Ok(())
}

/// Why the operands of a convolution are refused, if they are.
pub open spec fn convolution_refusal(
    input: MetaView,
    weight: MetaView,
    bias: Option<MetaView>,
    stride: Seq<i64>,
    padding: Seq<i64>,
    dilation: Seq<i64>,
    groups: i64,
) -> Option<ErrorView> {
    let dimensions = stride.len();
    let shape = weight.shape;
    let in_channels = shape[1] * groups;
    if operand_refusal("convolution weight"@, input, weight) is Some {
        operand_refusal("convolution weight"@, input, weight)
    } else if shape.len() != dimensions + 2 {
        Some(
            ErrorView::InvalidDimensions {
                context: "convolution weight"@,
                expected: "rank "@ + decimal(dimensions as int + 2),
                actual: "shape "@ + shape_form(shape),
            },
        )
    } else if !(i64::MIN <= in_channels <= i64::MAX) {
        Some(setting_text("groups"@, "input channels exceed i64"@))
    } else if conv_refusal(in_channels as i64, shape[0], shape.skip(2), stride, padding, dilation, groups) is Some {
        conv_refusal(in_channels as i64, shape[0], shape.skip(2), stride, padding, dilation, groups)
    } else if input.shape.len() != dimensions + 1 && input.shape.len() != dimensions + 2 {
        Some(
            ErrorView::InvalidDimensions {
                context: "convolution input"@,
                expected: "rank "@ + decimal(dimensions as int + 1) + " or "@ + decimal(dimensions as int + 2),
                actual: "shape "@ + shape_form(input.shape),
            },
        )
    } else if input.shape[input.shape.len() - dimensions - 1] != in_channels {
        Some(setting_text("input channels"@, "must match weight channels multiplied by groups"@))
    } else {
        bias_refusal("convolution bias"@, input, bias, shape[0])
    }
}

pub(crate) fn copy_tail(shape: &Vec<i64>, from: usize) -> (r: Vec<i64>)
    requires
        from <= shape@.len(),
    ensures
        r@ == shape@.skip(from as int),
{
    let mut out: Vec<i64> = Vec::new();
    let mut i: usize = from;
    while i < shape.len()
        invariant
            from <= i <= shape@.len(),
            out@ == shape@.subrange(from as int, i as int),
        decreases shape@.len() - i,
    {
        out.push(shape[i]);
        i += 1;
        assert(out@ =~= shape@.subrange(from as int, i as int));
    }
    assert(out@ =~= shape@.skip(from as int));
    out
}

/// Checks the operands of a convolution.
pub fn convolution(
    input: &TensorMeta,
    weight: &TensorMeta,
    bias: Option<&TensorMeta>,
    stride: &[i64],
    padding: &[i64],
    dilation: &[i64],
    groups: i64,
) -> (r: Result<()>)
    requires
        stride@.len() + 2 <= usize::MAX,
    ensures
        refusal(r) == convolution_refusal(input@, weight@, optional_view(bias), stride@, padding@, dilation@, groups),
{
    if let Err(e) = check_operand("convolution weight", input, weight) {
        return Err(e);
    }
    let shape = &weight.shape;
    let dimensions: usize = stride.len();
    assert(shape.len() == shape@.len());
    if shape.len() < 2 || shape.len() - 2 != dimensions {
        let rank = natural_text(dimensions as u64 + 2);
        let actual = shape_text(shape.as_slice());
        return Err(
            RustTorchError::InvalidDimensions {
                context: owned("convolution weight"),
                expected: join("rank ", rank.as_str()),
                actual: join("shape ", actual.as_str()),
            },
        );
    }
    let in_channels: i64 = match shape[1].checked_mul(groups) {
        Some(channels) => channels,
        None => {
            return Err(setting_error("groups", "input channels exceed i64"));
        },
    };
    let kernel = copy_tail(shape, 2);
    if let Err(e) = validate_conv_config(in_channels, shape[0], kernel.as_slice(), stride, padding, dilation, groups) {
        return Err(e);
    }
    let rank: usize = input.shape.len();
    if rank != dimensions + 1 && rank != dimensions + 2 {
        let low = natural_text(dimensions as u64 + 1);
        let high = natural_text(dimensions as u64 + 2);
        let head = join("rank ", low.as_str());
        let actual = shape_text(input.shape.as_slice());
        return Err(
            RustTorchError::InvalidDimensions {
                context: owned("convolution input"),
                expected: join3(head.as_str(), " or ", high.as_str()),
                actual: join("shape ", actual.as_str()),
            },
        );
    }
    if input.shape[rank - dimensions - 1] != in_channels {
        return Err(setting_error("input channels", "must match weight channels multiplied by groups"));
    }
    check_bias("convolution bias", input, bias, shape[0])
}

/// Why the settings of a layer normalization are refused, if they are.
pub open spec fn layer_norm_settings_refusal(normalized_shape: Seq<i64>, eps: Binary64) -> Option<ErrorView> {
    if normalized_shape.len() == 0 || !one_for_each(normalized_shape, normalized_shape.len(), 1) {
        Some(setting_text("normalized_shape"@, "must contain at least one positive dimension"@))
    } else {
        eps_refusal("eps"@, eps)
    }
}

/// Why a number is refused that may not be negative, if it is.
pub open spec fn eps_refusal(field: Seq<char>, eps: Binary64) -> Option<ErrorView> {
    if !eps.finite() || eps.place() < 0 {
        Some(setting_text(field, "must be finite and nonnegative"@))
    } else {
        None
    }
}

pub(crate) fn check_eps(field: &'static str, eps: Binary64) -> (r: Result<()>)
    ensures
        refusal(r) == eps_refusal(field@, eps),
{
    if !eps.is_finite() || eps.is_less(Binary64::zero()) {
        return Err(setting_error(field, "must be finite and nonnegative"));
    }
    Ok(())
}

/// Checks the settings of a layer normalization.
pub fn validate_layer_norm(normalized_shape: &[i64], eps: Binary64) -> (r: Result<()>)
    ensures
        refusal(r) == layer_norm_settings_refusal(normalized_shape@, eps),
{
    if normalized_shape.len() == 0 || !each_at_least(normalized_shape, 1) {
        return Err(setting_error("normalized_shape", "must contain at least one positive dimension"));
    }
    check_eps("eps", eps)
}

/// Why a parameter of a layer normalization is refused, if it is.
pub open spec fn norm_parameter_refusal(
    name: Seq<char>,
    input: MetaView,
    parameter: Option<MetaView>,
    normalized_shape: Seq<i64>,
) -> Option<ErrorView> {
    match parameter {
        None => None,
        Some(parameter) => either(
            operand_refusal(name, input, parameter),
            if parameter.shape != normalized_shape {
                Some(ErrorView::ShapeMismatch { name, expected: normalized_shape, actual: parameter.shape })
            } else {
                None
            },
        ),
    }
}

fn check_norm_parameter(name: &str, input: &TensorMeta, parameter: Option<&TensorMeta>, normalized_shape: &[i64]) -> (r: Result<()>)
    ensures
        refusal(r) == norm_parameter_refusal(name@, input@, optional_view(parameter), normalized_shape@),
{
    let parameter = match parameter {
        Some(parameter) => parameter,
        None => {
            return Ok(());
        },
    };
    if let Err(e) = check_operand(name, input, parameter) {
        return Err(e);
    }
    if !same_shape(parameter.shape.as_slice(), normalized_shape) {
        return Err(
            RustTorchError::ShapeMismatch {
                name: owned(name),
                expected: copy_shape(normalized_shape),
                actual: copy_shape(parameter.shape.as_slice()),
            },
        );
    }
    Ok(())
}

/// Checks the operands of a layer normalization.
pub fn layer_norm(
    input: &TensorMeta,
    normalized_shape: &[i64],
    weight: Option<&TensorMeta>,
    bias: Option<&TensorMeta>,
    eps: Binary64,
) -> (r: Result<()>)
    ensures
        refusal(r) == either(
            layer_norm_settings_refusal(normalized_shape@, eps),
            either(
                norm_parameter_refusal("layer norm weight"@, input@, optional_view(weight), normalized_shape@),
                norm_parameter_refusal("layer norm bias"@, input@, optional_view(bias), normalized_shape@),
            ),
        ),
{
    if let Err(e) = validate_layer_norm(normalized_shape, eps) {
        return Err(e);
    }
    if let Err(e) = check_norm_parameter("layer norm weight", input, weight, normalized_shape) {
        return Err(e);
    }
    check_norm_parameter("layer norm bias", input, bias, normalized_shape)
}

/// The row that counts as padding, or why the settings of an embedding are refused. A negative
/// index counts from the end.
pub open spec fn padding_of(
    num_embeddings: i64,
    padding_idx: Option<i64>,
    scale_grad_by_freq: bool,
    sparse: bool,
) -> core::result::Result<Option<i64>, ErrorView> {
    if sparse && scale_grad_by_freq {
        Err(setting_text("scale_grad_by_freq"@, "is not supported with sparse embedding gradients"@))
    } else {
        match padding_idx {
            None => Ok(None),
            Some(index) => if index < -num_embeddings || index >= num_embeddings {
                Err(setting_text("padding_idx"@, "must be within the vocabulary, allowing negative indexing"@))
            } else if index < 0 {
                Ok(Some((index + num_embeddings) as i64))
            } else {
                Ok(Some(index))
            },
        }
    }
}

/// Checks the settings of an embedding and gives the row that counts as padding.
pub fn validate_embedding_options(
    num_embeddings: i64,
    padding_idx: Option<i64>,
    scale_grad_by_freq: bool,
    sparse: bool,
) -> (r: Result<Option<i64>>)
    requires
        num_embeddings > 0,
    ensures
        match (r, padding_of(num_embeddings, padding_idx, scale_grad_by_freq, sparse)) {
            (Ok(a), Ok(b)) => a == b,
            (Err(a), Err(b)) => a@ == b,
            _ => false,
        },
{
    if sparse && scale_grad_by_freq {
        return Err(setting_error("scale_grad_by_freq", "is not supported with sparse embedding gradients"));
    }
    match padding_idx {
        None => Ok(None),
        Some(index) => {
            if index < -num_embeddings || index >= num_embeddings {
                return Err(setting_error("padding_idx", "must be within the vocabulary, allowing negative indexing"));
            }
            if index < 0 {
                Ok(Some(index + num_embeddings))
            } else {
                Ok(Some(index))
            }
        },
    }
}

/// The padding row that an embedding is called with, or why its operands are refused.
pub open spec fn embedding_of(
    input: MetaView,
    weight: MetaView,
    padding_idx: Option<i64>,
    scale_grad_by_freq: bool,
    sparse: bool,
) -> core::result::Result<i64, ErrorView> {
    if operand_refusal("embedding weight"@, input, weight) is Some {
        Err(operand_refusal("embedding weight"@, input, weight)->0)
    } else if weight.shape.len() != 2 || weight.shape[0] <= 0 || weight.shape[1] <= 0 {
        Err(
            setting_text(
                "embedding weight"@,
                "must have shape [positive vocabulary size, positive vector width]"@,
            ),
        )
    } else {
        match padding_of(weight.shape[0], padding_idx, scale_grad_by_freq, sparse) {
            Err(e) => Err(e),
            Ok(None) => Ok(-1i64),
            Ok(Some(index)) => Ok(index),
        }
    }
}

/// Checks the operands of an embedding and gives the row that counts as padding, or -1.
pub fn embedding(
    input: &TensorMeta,
    weight: &TensorMeta,
    padding_idx: Option<i64>,
    scale_grad_by_freq: bool,
    sparse: bool,
) -> (r: Result<i64>)
    ensures
        match (r, embedding_of(input@, weight@, padding_idx, scale_grad_by_freq, sparse)) {
            (Ok(a), Ok(b)) => a == b,
            (Err(a), Err(b)) => a@ == b,
            _ => false,
        },
{
    if let Err(e) = check_operand("embedding weight", input, weight) {
        return Err(e);
    }
    let shape = &weight.shape;
    if shape.len() != 2 || shape[0] <= 0 || shape[1] <= 0 {
        return Err(
            setting_error("embedding weight", "must have shape [positive vocabulary size, positive vector width]"),
        );
    }
    match validate_embedding_options(shape[0], padding_idx, scale_grad_by_freq, sparse) {
        Ok(Some(index)) => Ok(index),
        Ok(None) => Ok(-1),
        Err(e) => Err(e),
    }
}

/// A padding row lies in the vocabulary, and a negative index counts from its end.
pub proof fn padding_lies_in_the_vocabulary(num_embeddings: i64, index: i64, scale_grad_by_freq: bool, sparse: bool)
    requires
        num_embeddings > 0,
    ensures
        padding_of(num_embeddings, Some(index), scale_grad_by_freq, sparse) matches Ok(row) ==> row is Some && 0 <= row->0
            < num_embeddings && row->0 % num_embeddings == index % num_embeddings,
{
    if let Ok(row) = padding_of(num_embeddings, Some(index), scale_grad_by_freq, sparse) {
        if index < 0 {
            vstd::arithmetic::div_mod::lemma_mod_add_multiples_vanish(index as int, num_embeddings as int);
        }
    }
}

} // verus!
