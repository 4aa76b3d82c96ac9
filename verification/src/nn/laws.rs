//! Which tensors layers accept, and what they allocate.
use super::functional::{
    bias_refusal, conv_refusal, convolution_refusal, dropout_refusal, embedding_of, eps_refusal, linear_refusal,
    norm_parameter_refusal, padding_of,
};
use super::layers::{fan_of, is_integral, EmbeddingConfig};
use super::loss::{binary_refusal, loss_refusal, Reduction};
use super::normalization::{all_ones, size_product, BatchNormConfig, GroupNormConfig, InstanceNormConfig, Options, Placement};
use super::sequential::{conv_allocation, parameters_of, LayerSpec};
use super::spatial::{output_padding_fits, smallest_output, spatial_refusal, spatial_sizes, PoolOptions};
use crate::float::Binary64;
use crate::kind::{Device, Kind};
use crate::number_laws::{fractions_lie_between_zero_and_one, numbers_are_ordered_by_value, one, value_of};
use crate::tensor::MetaView;
use crate::text::decimal;
use vstd::prelude::*;

verus! {

/// A probability to drop with is a finite number from zero to one.
pub proof fn dropout_probabilities_are_fractions(probability: Binary64)
    ensures
        dropout_refusal(probability) is None <==> probability.finite() && 0 <= value_of(probability) <= one(),
{
    fractions_lie_between_zero_and_one(probability);
}

/// A small number that is added for stability is finite and not negative.
pub proof fn stabilizers_are_not_negative(field: Seq<char>, eps: Binary64)
    ensures
        eps_refusal(field, eps) is None <==> eps.finite() && value_of(eps) >= 0,
{
    if eps.finite() {
        numbers_are_ordered_by_value(eps, eps);
    }
}

/// A bias is accepted exactly if there is none, or it lies on the device of the input and has one number
/// for each output.
pub proof fn biases_have_one_number_per_output(context: Seq<char>, input: MetaView, bias: Option<MetaView>, outputs: i64)
    requires
        input.defined,
    ensures
        bias_refusal(context, input, bias, outputs) is None <==> (bias matches Some(b) ==> b.device == input.device && b.shape.len()
            == 1 && b.shape[0] == outputs),
{
    if bias is Some && bias->0.shape.len() == 1 && bias->0.shape[0] == outputs {
        assert(bias->0.shape =~= seq![outputs]);
    }
}

/// A linear map is accepted exactly if its weight is a matrix on the device of the defined input, the
/// input ends in as many features as the matrix has columns, and the bias has as many numbers as it has
/// rows.
pub proof fn linear_maps_fit_their_input(input: MetaView, weight: MetaView, bias: Option<MetaView>)
    ensures
        linear_refusal(input, weight, bias) is None <==> {
            &&& input.defined && weight.device == input.device
            &&& weight.shape.len() == 2
            &&& input.shape.len() >= 1 && input.shape.last() == weight.shape[1]
            &&& bias matches Some(b) ==> b.device == input.device && b.shape.len() == 1 && b.shape[0] == weight.shape[0]
        },
{
    if input.defined {
        biases_have_one_number_per_output("linear bias"@, input, bias, weight.shape[0]);
    }
}

/// The settings of a convolution are accepted exactly if it has one to three axes, positive channel
/// counts that the groups divide, and of each other setting one number per axis: positive ones, and
/// for the padding ones that are not negative.
pub proof fn convolutions_are_configured_soundly(
    in_channels: i64,
    out_channels: i64,
    kernel: Seq<i64>,
    stride: Seq<i64>,
    padding: Seq<i64>,
    dilation: Seq<i64>,
    groups: i64,
)
    ensures
        conv_refusal(in_channels, out_channels, kernel, stride, padding, dilation, groups) is None <==> {
            &&& 1 <= kernel.len() <= 3
            &&& stride.len() == kernel.len() && padding.len() == kernel.len() && dilation.len() == kernel.len()
            &&& in_channels > 0 && out_channels > 0 && groups > 0
            &&& in_channels % groups == 0 && out_channels % groups == 0
            &&& forall|i: int| 0 <= i < kernel.len() ==> (#[trigger] kernel[i]) > 0
            &&& forall|i: int| 0 <= i < stride.len() ==> (#[trigger] stride[i]) > 0
            &&& forall|i: int| 0 <= i < dilation.len() ==> (#[trigger] dilation[i]) > 0
            &&& forall|i: int| 0 <= i < padding.len() ==> (#[trigger] padding[i]) >= 0
        },
{
}

/// A layer accepts what it allocates: an input with its number of channels, beside the weight and the
/// bias of a convolution that was accepted.
pub proof fn convolutions_accept_what_they_allocate(
    config: super::layers::ConvConfig<2>,
    input: MetaView,
    weight: MetaView,
    bias: Option<MetaView>,
)
    requires
        config.refusal(Kind::Float) is None,
        input.defined && weight.device == input.device,
        conv_allocation(config).weight == Some(weight.shape),
        conv_allocation(config).bias is Some <==> bias is Some,
        bias matches Some(b) ==> conv_allocation(config).bias == Some(b.shape) && b.device == input.device,
        input.shape.len() == 3 || input.shape.len() == 4,
        input.shape[input.shape.len() - 3] == config.in_channels,
    ensures
        convolution_refusal(
            input,
            weight,
            bias,
            config.stride@,
            config.padding@,
            config.dilation@,
            config.groups,
        ) is None,
{
    let inputs = config.in_channels as int / config.groups as int;
    vstd::arithmetic::div_mod::lemma_fundamental_div_mod(config.in_channels as int, config.groups as int);
    vstd::arithmetic::mul::lemma_mul_is_commutative(config.groups as int, inputs);
    vstd::arithmetic::div_mod::lemma_div_is_ordered_by_denominator(config.in_channels as int, 1, config.groups as int);
    vstd::arithmetic::div_mod::lemma_div_pos_is_pos(config.in_channels as int, config.groups as int);
    assert(weight.shape[1] == inputs);
    assert(inputs * config.groups == config.in_channels);
    assert(weight.shape.skip(2) =~= config.kernel_size@);
    if bias is Some {
        assert(bias->0.shape =~= seq![config.out_channels]);
        biases_have_one_number_per_output("convolution bias"@, input, bias, config.out_channels);
    }
}

/// What a layer allocates: a linear one a matrix with a row for each output, an embedding a row for each
/// word, a normalization one number for each normalized place, and a convolution, for each output
/// channel, the kernels of the input channels of its group; what only reshapes or activates allocates
/// nothing.
pub proof fn layers_allocate_their_parameters(layer: LayerSpec)
    ensures
        layer matches LayerSpec::Linear(c) ==> {
            let a = layer.allocation();
            &&& a.weight == Some(seq![c.out_features, c.in_features])
            &&& a.bias == (if c.bias {
                Some(seq![c.out_features])
            } else {
                None
            })
            &&& a.fan_in == c.in_features
        },
        layer matches LayerSpec::Embedding(c) ==> layer.allocation().weight == Some(seq![c.num_embeddings, c.embedding_dim])
            && layer.allocation().bias is None,
        layer matches LayerSpec::LayerNorm(c) ==> {
            let a = layer.allocation();
            &&& a.weight is Some <==> c@.elementwise_affine
            &&& a.bias is Some <==> c@.elementwise_affine && c@.bias
            &&& a.weight is Some ==> a.weight->0 == c@.normalized_shape
            &&& a.bias is Some ==> a.bias->0 == c@.normalized_shape
        },
        layer matches LayerSpec::Conv1d(c) ==> layer.allocation().weight == Some(
            seq![c.out_channels, (c.in_channels as int / c.groups as int) as i64] + c.kernel_size@,
        ) && (layer.allocation().bias is Some <==> c.bias) && (c.bias ==> layer.allocation().bias == Some(seq![c.out_channels])),
        layer matches LayerSpec::Conv2d(c) ==> layer.allocation().weight == Some(
            seq![c.out_channels, (c.in_channels as int / c.groups as int) as i64] + c.kernel_size@,
        ) && (layer.allocation().bias is Some <==> c.bias) && (c.bias ==> layer.allocation().bias == Some(seq![c.out_channels])),
        layer matches LayerSpec::Conv3d(c) ==> layer.allocation().weight == Some(
            seq![c.out_channels, (c.in_channels as int / c.groups as int) as i64] + c.kernel_size@,
        ) && (layer.allocation().bias is Some <==> c.bias) && (c.bias ==> layer.allocation().bias == Some(seq![c.out_channels])),
        layer is Identity || layer is ReLU || layer is Gelu || layer is Dropout || layer is Flatten ==> {
            layer.allocation().weight is None && layer.allocation().bias is None
        },
{
}

/// The fan of a kernel is the number of its places times the channels: a longer kernel multiplies it.
pub proof fn fans_multiply(channels: int, kernel: Seq<i64>, n: int)
    requires
        0 <= n < kernel.len(),
    ensures
        fan_of(channels, kernel, 0) == channels,
        fan_of(channels, kernel, n + 1) == fan_of(channels, kernel, n) * kernel[n],
{
}

/// The parameters of a sequence of layers are named by the number of their layer, and each layer that
/// allocates a weight or a bias has them listed with their shapes.
pub proof fn parameters_are_named_by_their_layer(layers: Seq<LayerSpec>, n: int, i: int)
    requires
        0 <= i < n <= layers.len(),
    ensures
        layers[i].allocation().weight matches Some(shape) ==> parameters_of(layers, n).contains((decimal(i) + ".weight"@, shape)),
        layers[i].allocation().bias matches Some(shape) ==> parameters_of(layers, n).contains((decimal(i) + ".bias"@, shape)),
    decreases n,
{
    let before = parameters_of(layers, n - 1);
    let all = parameters_of(layers, n);
    let a = layers[n - 1].allocation();
    assert forall|k: int| 0 <= k < before.len() implies all.contains(#[trigger] before[k]) by {
        assert(all[k] == before[k]);
    }
    if i < n - 1 {
        parameters_are_named_by_their_layer(layers, n - 1, i);
    } else {
        if a.weight is Some {
            assert(all[before.len() as int] == (decimal(i) + ".weight"@, a.weight->0));
        }
        if a.bias is Some {
            assert(all[all.len() - 1] == (decimal(i) + ".bias"@, a.bias->0));
        }
    }
}

/// A padding index is accepted exactly if it names a word of the vocabulary, from either end, and is
/// counted from the first word; gradients that are sparse are not scaled by frequency.
pub proof fn padding_is_counted_from_the_first_word(words: i64, index: i64, scaled: bool, sparse: bool)
    requires
        words > 0,
    ensures
        padding_of(words, Some(index), scaled, sparse) is Ok <==> -words <= index < words && !(scaled && sparse),
        padding_of(words, None, scaled, sparse) is Ok <==> !(scaled && sparse),
        padding_of(words, Some(index), scaled, sparse) matches Ok(found) ==> found is Some && 0 <= found->0 < words && (found->0
            == index || found->0 - index == words),
        padding_of(words, None, scaled, sparse) matches Ok(found) ==> found is None,
{
}

/// An embedding is looked up exactly in a matrix with words and features that lies on the device of the
/// defined input, where the padding is accepted; no padding is told by minus one.
pub proof fn embeddings_are_looked_up_in_a_matrix(
    input: MetaView,
    weight: MetaView,
    padding: Option<i64>,
    scaled: bool,
    sparse: bool,
)
    ensures
        embedding_of(input, weight, padding, scaled, sparse) is Ok <==> {
            &&& input.defined && weight.device == input.device
            &&& weight.shape.len() == 2 && weight.shape[0] > 0 && weight.shape[1] > 0
            &&& !(scaled && sparse)
            &&& padding matches Some(index) ==> -weight.shape[0] <= index < weight.shape[0]
        },
        embedding_of(input, weight, padding, scaled, sparse) matches Ok(at) ==> (at == -1 <==> padding is None),
{
}

/// The parameters of a network hold floating-point or complex numbers, so every other element type is
/// refused.
pub proof fn parameters_are_not_integral(kind: Kind)
    ensures
        is_integral(kind) <==> !(kind is Half || kind is Float || kind is Double || kind is BFloat16 || kind is ComplexHalf || kind
            is ComplexFloat || kind is ComplexDouble || kind is Float8e5m2 || kind is Float8e4m3fn || kind is Float8e5m2fnuz || kind
            is Float8e4m3fnuz),
{
}

/// An embedding is built exactly for a positive number of words and features with accepted padding, and
/// keeps its other settings.
pub proof fn embeddings_are_built_soundly(config: EmbeddingConfig)
    ensures
        config.built(Kind::Float) is Ok <==> {
            &&& config.num_embeddings > 0 && config.embedding_dim > 0
            &&& padding_of(config.num_embeddings, config.padding_idx, config.scale_grad_by_freq, config.sparse) is Ok
        },
        config.built(Kind::Int64) is Err,
        config.built(Kind::Float) matches Ok(b) ==> b.num_embeddings == config.num_embeddings && b.embedding_dim
            == config.embedding_dim && b.sparse == config.sparse && b.scale_grad_by_freq == config.scale_grad_by_freq
            && padding_of(config.num_embeddings, config.padding_idx, config.scale_grad_by_freq, config.sparse)->Ok_0
            == b.padding_idx,
{
}

/// A loss is worked out exactly of a defined input and a target on its device, with a known reduction;
/// a binary loss also needs a target of the input's shape and a weight on its device.
pub proof fn losses_fit_their_target(input: MetaView, target: MetaView, weight: Option<MetaView>, reduction: Reduction)
    ensures
        loss_refusal(input, target, reduction) is None <==> input.defined && target.device == input.device && (reduction is Keep
            || reduction is Mean || reduction is Sum),
        binary_refusal(input, target, weight, reduction) is None <==> {
            &&& loss_refusal(input, target, reduction) is None
            &&& target.shape == input.shape
            &&& weight matches Some(w) ==> w.device == input.device
        },
{
}

/// A parameter of a normalization is accepted exactly if there is none, or it lies on the device of the
/// input and has the normalized shape.
pub proof fn normalizing_parameters_fit(name: Seq<char>, input: MetaView, parameter: Option<MetaView>, shape: Seq<i64>)
    requires
        input.defined,
    ensures
        norm_parameter_refusal(name, input, parameter, shape) is None <==> (parameter matches Some(p) ==> p.device == input.device
            && p.shape == shape),
{
}

/// An input with spatial axes has them last, after its channels and perhaps a batch.
pub proof fn spatial_inputs_have_channels(input: MetaView, d: int)
    ensures
        spatial_refusal(input, d) is None <==> input.defined && (d == 1 || d == 2 || d == 3) && (input.shape.len() - d == 1
            || input.shape.len() - d == 2),
{
}

/// The smallest output of a transposed convolution is the smallest input from which the convolution
/// with the same settings gets back the size: its windows are exactly as many as the size says.
pub proof fn transposed_sizes_convolve_back(size: int, stride: int, padding: int, dilation: int, kernel: int)
    requires
        size >= 1,
        stride >= 1,
    ensures
        ({
            let padded = smallest_output(size, stride, padding, dilation, kernel) + 2 * padding;
            let reach = dilation * (kernel - 1) + 1;
            &&& (padded - reach) / stride + 1 == size
            &&& (padded - reach) % stride == 0
        }),
{
    let steps = size - 1;
    let rest = (size - 1) * stride;
    vstd::arithmetic::div_mod::lemma_fundamental_div_mod_converse(rest, stride, steps, 0);
}

/// Output padding is accepted exactly if it is, on each axis, not negative and below the stride or the
/// dilation.
pub proof fn output_padding_is_small(padding: Seq<i64>, stride: Seq<i64>, dilation: Seq<i64>)
    ensures
        output_padding_fits(padding, stride, dilation) <==> !(exists|i: int|
            0 <= i < padding.len() && ((#[trigger] padding[i]) < 0 || (padding[i] >= stride[i] && padding[i] >= dilation[i]))),
{
}

/// Sizes that were given for every axis stand for their last ones; sizes for the spatial axes alone stand
/// for themselves.
pub proof fn spatial_sizes_are_the_last(sizes: Seq<i64>, rank: int, d: int, i: int)
    requires
        0 < d < rank,
        0 <= i < d,
        sizes.len() == rank || sizes.len() == d,
    ensures
        spatial_sizes(sizes, rank, d).len() == d,
        spatial_sizes(sizes, rank, d)[i] == sizes[sizes.len() - d + i],
{
}

/// A pooling window is accepted exactly if it has one to three axes, positive sizes and strides, and no
/// padding that is negative or longer than half of it.
pub proof fn pooling_windows_are_sound<const D: usize>(options: PoolOptions<D>)
    ensures
        options.refusal() is None <==> {
            &&& D == 1 || D == 2 || D == 3
            &&& forall|i: int| 0 <= i < D ==> (#[trigger] options.kernel@[i]) > 0
            &&& forall|i: int| 0 <= i < D ==> (#[trigger] options.stride@[i]) > 0
            &&& forall|i: int| 0 <= i < D ==> 0 <= (#[trigger] options.padding@[i]) && 2 * options.padding@[i] <= options.kernel@[i]
        },
{
    assert(options.kernel@.len() == D && options.stride@.len() == D && options.padding@.len() == D);
    if options.refusal() is None {
        assert forall|i: int| 0 <= i < D implies 0 <= (#[trigger] options.padding@[i]) && 2 * options.padding@[i] <= options.kernel@[i] by {
            assert(0 <= options.padding@[i] <= options.kernel@[i] as int / 2);
        }
    }
}

/// Which tensors a normalization keeps: a scale where it is affine, a shift where it also has a bias,
/// and the running statistics where it tracks them.
pub proof fn normalizations_keep_their_tensors(options: Options)
    ensures
        options.allocation().weight <==> options.affine,
        options.allocation().bias <==> options.affine && options.bias,
        options.allocation().running_mean <==> options.track_running_stats,
        options.allocation().running_var <==> options.track_running_stats,
        options.allocation().num_batches_tracked <==> options.track_running_stats,
        options.refusal() is None <==> options.channels > 0 && options.eps.finite() && value_of(options.eps) >= 0 && (options.momentum
            is Some ==> options.momentum->0.finite()),
{
    stabilizers_are_not_negative("eps"@, options.eps);
}

/// A normalization takes an input exactly if it is defined and everything that it keeps lies on its
/// device.
pub proof fn normalizations_lie_beside_their_input(place: Placement, input: MetaView)
    ensures
        place.refusal(input) is None <==> {
            &&& input.defined
            &&& is_beside(place.weight, input.device) && is_beside(place.bias, input.device)
            &&& is_beside(place.running_mean, input.device) && is_beside(place.running_var, input.device)
            &&& is_beside(place.num_batches_tracked, input.device)
        },
{
}

/// There is nothing, or it lies on the device.
pub open spec fn is_beside(place: Option<Device>, device: Device) -> bool {
    place is None || place->0 == device
}

/// Batches are normalized exactly if their second axis holds the channels and they have the spatial axes,
/// or none where there would be one; where their own statistics are used, each channel needs more than
/// one value.
pub proof fn batches_are_normalized_by_channel(config: BatchNormConfig<2>, place: Placement, input: MetaView, training: bool)
    requires
        input.shape.len() == 4,
        forall|i: int| 0 <= i < 4 ==> (#[trigger] input.shape[i]) >= 1,
        input.shape[0] * input.shape[2] <= i64::MAX,
        input.shape[0] * input.shape[2] * input.shape[3] <= i64::MAX,
    ensures
        config.input_refusal(place, input, training) is None <==> {
            &&& place.refusal(input) is None
            &&& input.shape[1] == config.options.channels
            &&& training || !config.options.track_running_stats ==> input.shape[0] > 1 || input.shape[2] > 1 || input.shape[3] > 1
        },
{
    let shape = input.shape;
    let spatial = shape.skip(2);
    let (a, b, c) = (shape[0] as int, shape[2] as int, shape[3] as int);
    assert(spatial[0] == b && spatial[1] == c);
    reveal_with_fuel(size_product, 3);
    assert(a * b >= 1 && (a * b) * c >= 1) by (nonlinear_arith)
        requires
            a >= 1,
            b >= 1,
            c >= 1,
    ;
    assert(size_product(a, spatial, 0) == Some(a));
    assert(size_product(a, spatial, 1) == Some(a * b));
    assert(size_product(a, spatial, 2) == Some((a * b) * c));
    assert((a * b) * c == 1 <==> a == 1 && b == 1 && c == 1) by (nonlinear_arith)
        requires
            a >= 1,
            b >= 1,
            c >= 1,
    ;
}

/// Instances are normalized exactly if the axis before the spatial ones holds the channels; where their
/// own statistics are used, some spatial axis is longer than one.
pub proof fn instances_are_normalized_by_channel(config: InstanceNormConfig<2>, place: Placement, input: MetaView, training: bool)
    ensures
        config.input_refusal(place, input, training) is None <==> {
            let n = input.shape.len();
            &&& place.refusal(input) is None
            &&& n == 3 || n == 4
            &&& input.shape[n - 3] == config.options.channels
            &&& training || !config.options.track_running_stats ==> input.shape[n - 2] != 1 || input.shape[n - 1] != 1
        },
{
    let shape = input.shape;
    let n = shape.len() as int;
    if n == 3 || n == 4 {
        let axis = n - 3;
        let spatial = shape.skip(axis + 1);
        assert(spatial.len() == 2 && spatial[0] == shape[n - 2] && spatial[1] == shape[n - 1]);
        assert(all_ones(spatial) <==> shape[n - 2] == 1 && shape[n - 1] == 1);
    }
}

/// Groups of channels are accepted exactly if they divide the channels and the other settings are
/// accepted.
pub proof fn channel_groups_divide_the_channels(config: GroupNormConfig, kind: Kind)
    ensures
        config.refusal(kind) is None <==> {
            &&& config.groups > 0
            &&& config.options.channels as int % config.groups as int == 0
            &&& config.options.parameters_refusal(kind) is None
        },
        config.options.parameters_refusal(kind) is None <==> config.options.refusal() is None && (config.options.affine
            || config.options.track_running_stats ==> !is_integral(kind)),
{
}

} // verus!
