//! Layers with parameters: their settings, and what has to be allocated for them.
use super::functional::{
    conv_refusal, convolution, convolution_refusal, embedding, embedding_of, layer_norm, layer_norm_settings_refusal,
    linear, linear_refusal, norm_parameter_refusal, optional_view, padding_of, validate_conv_config,
    validate_embedding_options, validate_layer_norm,
};
use crate::error::{either, refusal, setting_error, setting_text, ErrorView, Result};
use crate::float::Binary64;
use crate::kind::Kind;
use crate::tensor::{copy_shape, TensorMeta};
use vstd::prelude::*;

verus! {

/// An element type of which no gradient can be taken.
pub open spec fn is_integral(kind: Kind) -> bool {
    match kind {
        Kind::Uint8 | Kind::Int8 | Kind::Int16 | Kind::Int | Kind::Int64 | Kind::Bool | Kind::QInt8 | Kind::QUInt8
        | Kind::QInt32 => true,
        _ => false,
    }
}

/// Why parameters of an element type are refused, if they are.
pub open spec fn parameter_kind_refusal(kind: Kind) -> Option<ErrorView> {
    if is_integral(kind) {
        Some(setting_text("parameter dtype"@, "trainable parameters require a floating-point or complex dtype"@))
    } else {
        None
    }
}

/// Checks the element type of parameters.
pub fn validate_parameter_kind(kind: Kind) -> (r: Result<()>)
    ensures
        refusal(r) == parameter_kind_refusal(kind),
{
    match kind {
        Kind::Uint8 | Kind::Int8 | Kind::Int16 | Kind::Int | Kind::Int64 | Kind::Bool | Kind::QInt8 | Kind::QUInt8
        | Kind::QInt32 => Err(
            setting_error("parameter dtype", "trainable parameters require a floating-point or complex dtype"),
        ),
        _ => Ok(()),
    }
}

/// The parameters that a layer needs.
#[derive(Debug, PartialEq, Eq)]
pub struct Allocation {
    /// The shape of the weight, if there is one.
    pub weight: Option<Vec<i64>>,
    /// The shape of the bias, if there is one.
    pub bias: Option<Vec<i64>>,
    /// How many inputs reach one output, where that bounds the initial values; else 0.
    pub fan_in: i64,
}

/// The content of an [`Allocation`].
pub struct AllocationView {
    pub weight: Option<Seq<i64>>,
    pub bias: Option<Seq<i64>>,
    pub fan_in: i64,
}

/// The content of an optional shape.
pub open spec fn shape_view(shape: Option<Vec<i64>>) -> Option<Seq<i64>> {
    match shape {
        Some(shape) => Some(shape@),
        None => None,
    }
}

impl View for Allocation {
    type V = AllocationView;

    open spec fn view(&self) -> AllocationView {
        AllocationView { weight: shape_view(self.weight), bias: shape_view(self.bias), fan_in: self.fan_in }
    }
}

pub(crate) fn one_axis(size: i64) -> (r: Vec<i64>)
    ensures
        r@ == seq![size],
{
    let mut shape: Vec<i64> = Vec::new();
    shape.push(size);
    assert(shape@ =~= seq![size]);
    shape
}

/// The inputs that reach one output: the channels of a group times the first `n` sizes of a
/// kernel.
pub open spec fn fan_of(channels: int, kernel: Seq<i64>, n: int) -> int
    decreases n,
{
    if n <= 0 {
        channels
    } else {
        fan_of(channels, kernel, n - 1) * kernel[n - 1]
    }
}

proof fn fan_grows(channels: int, kernel: Seq<i64>, a: int, b: int)
    requires
        channels > 0,
        0 <= a <= b <= kernel.len(),
        forall|i: int| 0 <= i < kernel.len() ==> #[trigger] kernel[i] >= 1,
    ensures
        0 < fan_of(channels, kernel, a) <= fan_of(channels, kernel, b),
    decreases b,
{
    if b > 0 {
        let before = fan_of(channels, kernel, b - 1);
        let k = kernel[b - 1] as int;
        if a < b {
            fan_grows(channels, kernel, a, b - 1);
        } else {
            fan_grows(channels, kernel, b - 1, b - 1);
        }
        assert(before * k >= before) by (nonlinear_arith)
            requires
                before > 0,
                k >= 1,
        ;
    }
}

pub(crate) fn count_fan(channels: i64, kernel: &[i64]) -> (r: Option<i64>)
    requires
        channels > 0,
        forall|i: int| 0 <= i < kernel@.len() ==> #[trigger] kernel@[i] >= 1,
    ensures
        match r {
            Some(fan) => fan == fan_of(channels as int, kernel@, kernel@.len() as int),
            None => fan_of(channels as int, kernel@, kernel@.len() as int) > i64::MAX,
        },
{
    let mut total: i64 = channels;
    let mut i: usize = 0;
    while i < kernel.len()
        invariant
            channels > 0,
            forall|k: int| 0 <= k < kernel@.len() ==> #[trigger] kernel@[k] >= 1,
            i <= kernel@.len(),
            total == fan_of(channels as int, kernel@, i as int),
        decreases kernel@.len() - i,
    {
        proof {
            fan_grows(channels as int, kernel@, i + 1, kernel@.len() as int);
        }
        match total.checked_mul(kernel[i]) {
            Some(next) => {
                total = next;
            },
            None => {
                return None;
            },
        }
        i += 1;
    }
    Some(total)
}

/// Why a kernel is refused for reaching too many inputs, if it is.
pub open spec fn fan_refusal(channels: int, kernel: Seq<i64>) -> Option<ErrorView> {
    if fan_of(channels, kernel, kernel.len() as int) > i64::MAX {
        Some(setting_text("kernel_size"@, "fan-in exceeds i64"@))
    } else {
        None
    }
}

pub(crate) fn with_kernel(first: i64, second: i64, kernel: &[i64]) -> (r: Vec<i64>)
    ensures
        r@ == seq![first, second] + kernel@,
{
    let mut shape: Vec<i64> = Vec::new();
    shape.push(first);
    shape.push(second);
    let mut i: usize = 0;
    assert(shape@ =~= seq![first, second] + kernel@.take(0));
    while i < kernel.len()
        invariant
            i <= kernel@.len(),
            shape@ == seq![first, second] + kernel@.take(i as int),
        decreases kernel@.len() - i,
    {
        shape.push(kernel[i]);
        i += 1;
        assert(shape@ =~= seq![first, second] + kernel@.take(i as int));
    }
    assert(kernel@.take(kernel@.len() as int) =~= kernel@);
    shape
}

/// The settings of a convolution over `D` axes.
#[derive(Debug, Clone, Copy, PartialEq, Eq)]
pub struct ConvConfig<const D: usize> {
    /// The channels that come in.
    pub in_channels: i64,
    /// The channels that go out.
    pub out_channels: i64,
    /// The size of the kernel along each axis.
    pub kernel_size: [i64; D],
    /// The step along each axis.
    pub stride: [i64; D],
    /// The padding on both sides of each axis.
    pub padding: [i64; D],
    /// The distance of kernel elements along each axis.
    pub dilation: [i64; D],
    /// How many groups the channels are divided into.
    pub groups: i64,
    /// Whether a bias is added.
    pub bias: bool,
}

impl<const D: usize> ConvConfig<D> {
    /// Step one, no padding, no dilation, one group, with a bias.
    pub fn new(in_channels: i64, out_channels: i64, kernel_size: [i64; D]) -> (r: Self)
        ensures
            r.in_channels == in_channels,
            r.out_channels == out_channels,
            r.kernel_size == kernel_size,
            r.stride@ == Seq::new(D as nat, |i: int| 1i64),
            r.padding@ == Seq::new(D as nat, |i: int| 0i64),
            r.dilation@ == Seq::new(D as nat, |i: int| 1i64),
            r.groups == 1,
            r.bias,
    {
        let ones: [i64; D] = [1; D];
        let zeros: [i64; D] = [0; D];
        assert(ones@ =~= Seq::new(D as nat, |i: int| 1i64));
        assert(zeros@ =~= Seq::new(D as nat, |i: int| 0i64));
        ConvConfig {
            in_channels,
            out_channels,
            kernel_size,
            stride: ones,
            padding: zeros,
            dilation: ones,
            groups: 1,
            bias: true,
        }
    }

    /// Sets the step along each axis.
    #[must_use]
    pub fn stride(self, stride: [i64; D]) -> (r: Self)
        ensures
            r == (ConvConfig { stride, ..self }),
    {
        ConvConfig { stride, ..self }
    }

    /// Sets the padding on both sides of each axis.
    #[must_use]
    pub fn padding(self, padding: [i64; D]) -> (r: Self)
        ensures
            r == (ConvConfig { padding, ..self }),
    {
        ConvConfig { padding, ..self }
    }

    /// Sets the distance of kernel elements along each axis.
    #[must_use]
    pub fn dilation(self, dilation: [i64; D]) -> (r: Self)
        ensures
            r == (ConvConfig { dilation, ..self }),
    {
        ConvConfig { dilation, ..self }
    }

    /// Sets how many groups the channels are divided into.
    #[must_use]
    pub fn groups(self, groups: i64) -> (r: Self)
        ensures
            r == (ConvConfig { groups, ..self }),
    {
        ConvConfig { groups, ..self }
    }

    /// Sets whether a bias is added.
    #[must_use]
    pub fn bias(self, bias: bool) -> (r: Self)
        ensures
            r == (ConvConfig { bias, ..self }),
    {
        ConvConfig { bias, ..self }
    }

    /// Why the settings are refused for parameters of an element type, if they are.
    pub open spec fn refusal(self, kind: Kind) -> Option<ErrorView> {
        let settings = conv_refusal(
            self.in_channels,
            self.out_channels,
            self.kernel_size@,
            self.stride@,
            self.padding@,
            self.dilation@,
            self.groups,
        );
        if parameter_kind_refusal(kind) is Some {
            parameter_kind_refusal(kind)
        } else if settings is Some {
            settings
        } else {
            fan_refusal(self.in_channels as int / self.groups as int, self.kernel_size@)
        }
    }

    /// Checks the settings and tells which parameters the layer needs.
    pub fn build(self, kind: Kind) -> (r: Result<Allocation>)
        ensures
            refusal(r) == self.refusal(kind),
            r matches Ok(a) ==> {
                let inputs = self.in_channels as int / self.groups as int;
                &&& a@.weight == Some(seq![self.out_channels, inputs as i64] + self.kernel_size@)
                &&& a@.bias == (if self.bias {
                    Some(seq![self.out_channels])
                } else {
                    None
                })
                &&& a@.fan_in == fan_of(inputs, self.kernel_size@, D as int)
            },
    {
        if let Err(e) = validate_parameter_kind(kind) {
            return Err(e);
        }
        if let Err(e) = validate_conv_config(
            self.in_channels,
            self.out_channels,
            self.kernel_size.as_slice(),
            self.stride.as_slice(),
            self.padding.as_slice(),
            self.dilation.as_slice(),
            self.groups,
        ) {
            return Err(e);
        }
        let inputs: i64 = self.in_channels / self.groups;
        proof {
            whole_group(self.in_channels as int, self.groups as int);
        }
        let fan_in: i64 = match count_fan(inputs, self.kernel_size.as_slice()) {
            Some(fan) => fan,
            None => {
                return Err(setting_error("kernel_size", "fan-in exceeds i64"));
            },
        };
        let weight = Some(with_kernel(self.out_channels, inputs, self.kernel_size.as_slice()));
        let bias = if self.bias {
            Some(one_axis(self.out_channels))
        } else {
            None
        };
        Ok(Allocation { weight, bias, fan_in })
    }

    /// Checks what the layer is applied to.
    pub fn forward(&self, input: &TensorMeta, weight: &TensorMeta, bias: Option<&TensorMeta>) -> (r: Result<()>)
        requires
            D + 2 <= usize::MAX,
        ensures
            refusal(r) == convolution_refusal(
                input@,
                weight@,
                optional_view(bias),
                self.stride@,
                self.padding@,
                self.dilation@,
                self.groups,
            ),
    {
        convolution(
            input,
            weight,
            bias,
            self.stride.as_slice(),
            self.padding.as_slice(),
            self.dilation.as_slice(),
            self.groups,
        )
    }
}

pub(crate) proof fn whole_group(channels: int, groups: int)
    requires
        channels > 0,
        groups > 0,
        channels % groups == 0,
    ensures
        0 < channels / groups <= channels,
{
    vstd::arithmetic::div_mod::lemma_fundamental_div_mod(channels, groups);
    let q = channels / groups;
    assert(0 < q <= channels) by (nonlinear_arith)
        requires
            channels == groups * q,
            channels > 0,
            groups > 0,
    ;
}

/// The settings of a normalization over the last axes.
#[derive(Debug, Clone, PartialEq, Eq)]
pub struct LayerNormConfig {
    /// The sizes of the axes.
    pub normalized_shape: Vec<i64>,
    /// What is added to the variance.
    pub eps: Binary64,
    /// Whether the result is scaled and shifted.
    pub elementwise_affine: bool,
    /// Whether it is shifted.
    pub bias: bool,
}

/// The content of a [`LayerNormConfig`].
#[verifier::ext_equal]
pub struct LayerNormView {
    pub normalized_shape: Seq<i64>,
    pub eps: Binary64,
    pub elementwise_affine: bool,
    pub bias: bool,
}

impl View for LayerNormConfig {
    type V = LayerNormView;

    open spec fn view(&self) -> LayerNormView {
        LayerNormView {
            normalized_shape: self.normalized_shape@,
            eps: self.eps,
            elementwise_affine: self.elementwise_affine,
            bias: self.bias,
        }
    }
}

impl LayerNormConfig {
    /// One hundred-thousandth is added to the variance; the result is scaled and shifted.
    pub fn new(normalized_shape: Vec<i64>) -> (r: Self)
        ensures
            r@ == (LayerNormView {
                normalized_shape: normalized_shape@,
                eps: Binary64 { bits: 0x3ee4_f8b5_88e3_68f1 },
                elementwise_affine: true,
                bias: true,
            }),
    {
        LayerNormConfig {
            normalized_shape,
            eps: Binary64 { bits: 0x3ee4_f8b5_88e3_68f1 },
            elementwise_affine: true,
            bias: true,
        }
    }

    /// Sets what is added to the variance.
    #[must_use]
    pub fn eps(self, eps: Binary64) -> (r: Self)
        ensures
            r@ == (LayerNormView { eps, ..self@ }),
    {
        LayerNormConfig { eps, ..self }
    }

    /// Sets whether the result is scaled and shifted.
    #[must_use]
    pub fn elementwise_affine(self, enabled: bool) -> (r: Self)
        ensures
            r@ == (LayerNormView { elementwise_affine: enabled, ..self@ }),
    {
        LayerNormConfig { elementwise_affine: enabled, ..self }
    }

    /// Sets whether the result is shifted.
    #[must_use]
    pub fn bias(self, bias: bool) -> (r: Self)
        ensures
            r@ == (LayerNormView { bias, ..self@ }),
    {
        LayerNormConfig { bias, ..self }
    }

    /// Checks the settings and tells which parameters the layer needs.
    pub fn build(&self, kind: Kind) -> (r: Result<Allocation>)
        ensures
            refusal(r) == either(
                layer_norm_settings_refusal(self@.normalized_shape, self@.eps),
                if self@.elementwise_affine {
                    parameter_kind_refusal(kind)
                } else {
                    None
                },
            ),
            r matches Ok(a) ==> a@ == (AllocationView {
                weight: if self@.elementwise_affine {
                    Some(self@.normalized_shape)
                } else {
                    None
                },
                bias: if self@.elementwise_affine && self@.bias {
                    Some(self@.normalized_shape)
                } else {
                    None
                },
                fan_in: 0,
            }),
    {
        if let Err(e) = validate_layer_norm(self.normalized_shape.as_slice(), self.eps) {
            return Err(e);
        }
        if self.elementwise_affine {
            if let Err(e) = validate_parameter_kind(kind) {
                return Err(e);
            }
        }
        let weight = if self.elementwise_affine {
            Some(copy_shape(self.normalized_shape.as_slice()))
        } else {
            None
        };
        let bias = if self.elementwise_affine && self.bias {
            Some(copy_shape(self.normalized_shape.as_slice()))
        } else {
            None
        };
        Ok(Allocation { weight, bias, fan_in: 0 })
    }

    /// Checks what the layer is applied to.
    pub fn forward(&self, input: &TensorMeta, weight: Option<&TensorMeta>, bias: Option<&TensorMeta>) -> (r: Result<()>)
        ensures
            refusal(r) == either(
                layer_norm_settings_refusal(self@.normalized_shape, self@.eps),
                either(
                    norm_parameter_refusal(
                        "layer norm weight"@,
                        input@,
                        optional_view(weight),
                        self@.normalized_shape,
                    ),
                    norm_parameter_refusal("layer norm bias"@, input@, optional_view(bias), self@.normalized_shape),
                ),
            ),
    {
        layer_norm(input, self.normalized_shape.as_slice(), weight, bias, self.eps)
    }
}

/// The settings of a table of vectors.
#[derive(Debug, Clone, Copy, PartialEq, Eq, Structural)]
pub struct EmbeddingConfig {
    /// How many vectors there are.
    pub num_embeddings: i64,
    /// How long each is.
    pub embedding_dim: i64,
    /// The vector that stays zero, if one does; a negative index counts from the end.
    pub padding_idx: Option<i64>,
    /// Whether gradients are divided by how often a vector occurs.
    pub scale_grad_by_freq: bool,
    /// Whether gradients are sparse.
    pub sparse: bool,
}

impl EmbeddingConfig {
    /// No padding, plain dense gradients.
    pub fn new(num_embeddings: i64, embedding_dim: i64) -> (r: Self)
        ensures
            r == (EmbeddingConfig {
                num_embeddings,
                embedding_dim,
                padding_idx: None,
                scale_grad_by_freq: false,
                sparse: false,
            }),
    {
        EmbeddingConfig { num_embeddings, embedding_dim, padding_idx: None, scale_grad_by_freq: false, sparse: false }
    }

    /// Sets the vector that stays zero.
    #[must_use]
    pub fn padding_idx(self, padding_idx: i64) -> (r: Self)
        ensures
            r == (EmbeddingConfig { padding_idx: Some(padding_idx), ..self }),
    {
        EmbeddingConfig { padding_idx: Some(padding_idx), ..self }
    }

    /// Sets whether gradients are divided by how often a vector occurs.
    #[must_use]
    pub fn scale_grad_by_freq(self, enabled: bool) -> (r: Self)
        ensures
            r == (EmbeddingConfig { scale_grad_by_freq: enabled, ..self }),
    {
        EmbeddingConfig { scale_grad_by_freq: enabled, ..self }
    }

    /// Sets whether gradients are sparse.
    #[must_use]
    pub fn sparse(self, sparse: bool) -> (r: Self)
        ensures
            r == (EmbeddingConfig { sparse, ..self }),
    {
        EmbeddingConfig { sparse, ..self }
    }

    /// What the table is built with, or why the settings are refused.
    pub open spec fn built(self, kind: Kind) -> core::result::Result<EmbeddingConfig, ErrorView> {
        if parameter_kind_refusal(kind) is Some {
            Err(parameter_kind_refusal(kind)->0)
        } else if self.num_embeddings <= 0 || self.embedding_dim <= 0 {
            Err(setting_text("embedding dimensions"@, "vocabulary size and vector width must be positive"@))
        } else {
            match padding_of(self.num_embeddings, self.padding_idx, self.scale_grad_by_freq, self.sparse) {
                Ok(padding_idx) => Ok(EmbeddingConfig { padding_idx, ..self }),
                Err(e) => Err(e),
            }
        }
    }

    /// Checks the settings. The table has a vector of the given length for each word, and the
    /// padding, if there is one, is counted from the front.
    pub fn build(self, kind: Kind) -> (r: Result<Self>)
        ensures
            match (r, self.built(kind)) {
                (Ok(a), Ok(b)) => a == b,
                (Err(a), Err(b)) => a@ == b,
                _ => false,
            },
    {
        if let Err(e) = validate_parameter_kind(kind) {
            return Err(e);
        }
        if self.num_embeddings <= 0 || self.embedding_dim <= 0 {
            return Err(setting_error("embedding dimensions", "vocabulary size and vector width must be positive"));
        }
        match validate_embedding_options(self.num_embeddings, self.padding_idx, self.scale_grad_by_freq, self.sparse) {
            Ok(padding_idx) => Ok(EmbeddingConfig { padding_idx, ..self }),
            Err(e) => Err(e),
        }
    }

    /// Checks what the table is applied to, and gives the row that counts as padding, or -1.
    pub fn forward(&self, input: &TensorMeta, weight: &TensorMeta) -> (r: Result<i64>)
        ensures
            match (r, embedding_of(input@, weight@, self.padding_idx, self.scale_grad_by_freq, self.sparse)) {
                (Ok(a), Ok(b)) => a == b,
                (Err(a), Err(b)) => a@ == b,
                _ => false,
            },
    {
        embedding(input, weight, self.padding_idx, self.scale_grad_by_freq, self.sparse)
    }
}

/// The settings of a linear map.
#[derive(Debug, Clone, Copy, PartialEq, Eq, Structural)]
pub struct LinearConfig {
    /// The features that come in.
    pub in_features: i64,
    /// The features that go out.
    pub out_features: i64,
    /// Whether a bias is added.
    pub bias: bool,
}

impl LinearConfig {
    /// A linear map with a bias.
    pub fn new(in_features: i64, out_features: i64) -> (r: Self)
        ensures
            r == (LinearConfig { in_features, out_features, bias: true }),
    {
        LinearConfig { in_features, out_features, bias: true }
    }

    /// Sets whether a bias is added.
    #[must_use]
    pub fn bias(self, bias: bool) -> (r: Self)
        ensures
            r == (LinearConfig { bias, ..self }),
    {
        LinearConfig { bias, ..self }
    }

    /// Why the settings are refused for parameters of an element type, if they are.
    pub open spec fn refusal(self, kind: Kind) -> Option<ErrorView> {
        if parameter_kind_refusal(kind) is Some {
            parameter_kind_refusal(kind)
        } else if self.in_features < 0 {
            Some(setting_text("in_features"@, "must be non-negative"@))
        } else if self.out_features < 0 {
            Some(setting_text("out_features"@, "must be non-negative"@))
        } else {
            None
        }
    }

    /// Checks the settings and tells which parameters the map needs. Without inputs the bias
    /// starts at zero: nothing bounds its initial values.
    pub fn build(self, kind: Kind) -> (r: Result<Allocation>)
        ensures
            refusal(r) == self.refusal(kind),
            r matches Ok(a) ==> a@ == (AllocationView {
                weight: Some(seq![self.out_features, self.in_features]),
                bias: if self.bias {
                    Some(seq![self.out_features])
                } else {
                    None
                },
                fan_in: self.in_features,
            }),
    {
        if let Err(e) = validate_parameter_kind(kind) {
            return Err(e);
        }
        if self.in_features < 0 {
            return Err(setting_error("in_features", "must be non-negative"));
        }
        if self.out_features < 0 {
            return Err(setting_error("out_features", "must be non-negative"));
        }
        let mut weight: Vec<i64> = Vec::new();
        weight.push(self.out_features);
        weight.push(self.in_features);
        assert(weight@ =~= seq![self.out_features, self.in_features]);
        let bias = if self.bias {
            Some(one_axis(self.out_features))
        } else {
            None
        };
        Ok(Allocation { weight: Some(weight), bias, fan_in: self.in_features })
    }

    /// Checks what the map is applied to.
    pub fn forward(&self, input: &TensorMeta, weight: &TensorMeta, bias: Option<&TensorMeta>) -> (r: Result<()>)
        ensures
            refusal(r) == linear_refusal(input@, weight@, optional_view(bias)),
    {
        linear(input, weight, bias)
    }
}

} // verus!
