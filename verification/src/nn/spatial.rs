//! Layers over one, two or three axes: transposed convolutions and pools.
use super::functional::{conv_refusal, each_at_least, one_for_each, optional_view, validate_conv_config};
use super::layers::{
    count_fan, fan_of, fan_refusal, one_axis, parameter_kind_refusal, validate_parameter_kind, whole_group, with_kernel, Allocation,
};
use crate::error::{either, refusal, setting_error, setting_text, ErrorView, Result};
use crate::kind::Kind;
use crate::tensor::{device_refusal, ensure_device, MetaView, TensorMeta};
use vstd::prelude::*;

verus! {

/// Why an input over `d` axes is refused, if it is.
pub open spec fn spatial_refusal(input: MetaView, d: int) -> Option<ErrorView> {
    if !input.defined {
        Some(setting_text("spatial input"@, "must be a defined tensor"@))
    } else if !(1 <= d <= 3) || (input.shape.len() != d + 1 && input.shape.len() != d + 2) {
        Some(
            setting_text(
                "spatial input"@,
                "requires one, two, or three spatial axes, preceded by channels and an optional batch"@,
            ),
        )
    } else {
        None
    }
}

/// Checks an input over `d` axes: channels precede them, and a batch may precede the channels.
pub fn spatial_input(input: &TensorMeta, d: usize) -> (r: Result<()>)
    ensures
        refusal(r) == spatial_refusal(input@, d as int),
{
    if !input.defined {
        return Err(setting_error("spatial input", "must be a defined tensor"));
    }
    if d < 1 || d > 3 || (input.shape.len() != d + 1 && input.shape.len() != d + 2) {
        return Err(
            setting_error(
                "spatial input",
                "requires one, two, or three spatial axes, preceded by channels and an optional batch",
            ),
        );
    }
    Ok(())
}

/// The settings of a transposed convolution over `D` axes.
#[derive(Debug, Clone, Copy, PartialEq, Eq)]
pub struct ConvTransposeConfig<const D: usize> {
    /// The channels that come in.
    pub in_channels: i64,
    /// The channels that go out.
    pub out_channels: i64,
    /// The size of the kernel along each axis.
    pub kernel_size: [i64; D],
    /// The step along each axis.
    pub stride: [i64; D],
    /// The padding on both sides of each axis.
    pub padding: [i64; D],
    /// What is added to one side of the result.
    pub output_padding: [i64; D],
    /// The distance of kernel elements along each axis.
    pub dilation: [i64; D],
    /// How many groups the channels are divided into.
    pub groups: i64,
    /// Whether a bias is added.
    pub bias: bool,
}

/// Why the output padding of an axis is refused, if it is.
pub open spec fn output_padding_fits(output_padding: Seq<i64>, stride: Seq<i64>, dilation: Seq<i64>) -> bool {
    forall|i: int|
        0 <= i < output_padding.len() ==> 0 <= #[trigger] output_padding[i] && (output_padding[i] < stride[i] || output_padding[i]
            < dilation[i])
}

/// The smallest size of the result along an axis.
pub open spec fn smallest_output(size: int, stride: int, padding: int, dilation: int, kernel: int) -> int {
    (size - 1) * stride - 2 * padding + dilation * (kernel - 1) + 1
}

/// Why the wanted sizes of the result are refused, if they are: a result may exceed its
/// smallest size by less than a step.
pub open spec fn sizes_fit<const D: usize>(config: ConvTransposeConfig<D>, input: Seq<i64>, sizes: Seq<i64>) -> bool {
    forall|i: int|
        0 <= i < D ==> 0 <= #[trigger] sizes[i] - smallest_output(
            input[input.len() - D + i] as int,
            config.stride@[i] as int,
            config.padding@[i] as int,
            config.dilation@[i] as int,
            config.kernel_size@[i] as int,
        ) < config.stride@[i]
}

/// The sizes over the axes: where the whole shape is given, its last part.
pub open spec fn spatial_sizes(output_size: Seq<i64>, rank: int, d: int) -> Seq<i64> {
    if output_size.len() == rank {
        output_size.skip(rank - d)
    } else {
        output_size
    }
}

impl<const D: usize> ConvTransposeConfig<D> {
    /// Step one, no padding, no dilation, one group, with a bias.
    pub fn new(in_channels: i64, out_channels: i64, kernel_size: [i64; D]) -> (r: Self)
        ensures
            r.in_channels == in_channels,
            r.out_channels == out_channels,
            r.kernel_size == kernel_size,
            r.stride@ == Seq::new(D as nat, |i: int| 1i64),
            r.padding@ == Seq::new(D as nat, |i: int| 0i64),
            r.output_padding@ == Seq::new(D as nat, |i: int| 0i64),
            r.dilation@ == Seq::new(D as nat, |i: int| 1i64),
            r.groups == 1,
            r.bias,
    {
        let ones: [i64; D] = [1; D];
        let zeros: [i64; D] = [0; D];
        assert(ones@ =~= Seq::new(D as nat, |i: int| 1i64));
        assert(zeros@ =~= Seq::new(D as nat, |i: int| 0i64));
        ConvTransposeConfig {
            in_channels,
            out_channels,
            kernel_size,
            stride: ones,
            padding: zeros,
            output_padding: zeros,
            dilation: ones,
            groups: 1,
            bias: true,
        }
    }

    /// Sets the step along each axis.
    #[must_use]
    pub fn stride(self, stride: [i64; D]) -> (r: Self)
        ensures
            r == (ConvTransposeConfig { stride, ..self }),
    {
        ConvTransposeConfig { stride, ..self }
    }

    /// Sets the padding on both sides of each axis.
    #[must_use]
    pub fn padding(self, padding: [i64; D]) -> (r: Self)
        ensures
            r == (ConvTransposeConfig { padding, ..self }),
    {
        ConvTransposeConfig { padding, ..self }
    }

    /// Sets what is added to one side of the result.
    #[must_use]
    pub fn output_padding(self, output_padding: [i64; D]) -> (r: Self)
        ensures
            r == (ConvTransposeConfig { output_padding, ..self }),
    {
        ConvTransposeConfig { output_padding, ..self }
    }

    /// Sets the distance of kernel elements along each axis.
    #[must_use]
    pub fn dilation(self, dilation: [i64; D]) -> (r: Self)
        ensures
            r == (ConvTransposeConfig { dilation, ..self }),
    {
        ConvTransposeConfig { dilation, ..self }
    }

    /// Sets how many groups the channels are divided into.
    #[must_use]
    pub fn groups(self, groups: i64) -> (r: Self)
        ensures
            r == (ConvTransposeConfig { groups, ..self }),
    {
        ConvTransposeConfig { groups, ..self }
    }

    /// Sets whether a bias is added.
    #[must_use]
    pub fn bias(self, bias: bool) -> (r: Self)
        ensures
            r == (ConvTransposeConfig { bias, ..self }),
    {
        ConvTransposeConfig { bias, ..self }
    }

    /// Why the settings of the convolution are refused, if they are.
    pub open spec fn settings_refusal(self) -> Option<ErrorView> {
        either(
            conv_refusal(
                self.in_channels,
                self.out_channels,
                self.kernel_size@,
                self.stride@,
                self.padding@,
                self.dilation@,
                self.groups,
            ),
            if output_padding_fits(self.output_padding@, self.stride@, self.dilation@) {
                None
            } else {
                Some(
                    setting_text(
                        "output_padding"@,
                        "must be nonnegative and smaller than either stride or dilation per axis"@,
                    ),
                )
            },
        )
    }

    /// Why the settings are refused for parameters of an element type, if they are.
    pub open spec fn refusal(self, kind: Kind) -> Option<ErrorView> {
        if parameter_kind_refusal(kind) is Some {
            parameter_kind_refusal(kind)
        } else if self.settings_refusal() is Some {
            self.settings_refusal()
        } else {
            fan_refusal(self.out_channels as int / self.groups as int, self.kernel_size@)
        }
    }

    /// Checks the settings and tells which parameters the layer needs.
    pub fn build(self, kind: Kind) -> (r: Result<Allocation>)
        ensures
            refusal(r) == self.refusal(kind),
            r matches Ok(a) ==> {
                let outputs = self.out_channels as int / self.groups as int;
                &&& a@.weight == Some(seq![self.in_channels, outputs as i64] + self.kernel_size@)
                &&& a@.bias == (if self.bias {
                    Some(seq![self.out_channels])
                } else {
                    None
                })
                &&& a@.fan_in == fan_of(outputs, self.kernel_size@, D as int)
            },
    {
        if let Err(e) = validate_parameter_kind(kind) {
            return Err(e);
        }
        if let Err(e) = validate_conv_config(
            self.in_channels,
            self.out_channels,
            self.kernel_size.as_slice(),
            self.stride.as_slice(),
            self.padding.as_slice(),
            self.dilation.as_slice(),
            self.groups,
        ) {
            return Err(e);
        }
        let mut i: usize = 0;
        while i < D
            invariant
                i <= D,
                conv_refusal(
                    self.in_channels,
                    self.out_channels,
                    self.kernel_size@,
                    self.stride@,
                    self.padding@,
                    self.dilation@,
                    self.groups,
                ) is None,
                parameter_kind_refusal(kind) is None,
                forall|k: int|
                    0 <= k < i ==> 0 <= #[trigger] self.output_padding@[k] && (self.output_padding@[k] < self.stride@[k]
                        || self.output_padding@[k] < self.dilation@[k]),
            decreases D - i,
        {
            if self.output_padding[i] < 0 || (self.output_padding[i] >= self.stride[i] && self.output_padding[i] >= self.dilation[i]) {
                assert(!(0 <= self.output_padding@[i as int] && (self.output_padding@[i as int] < self.stride@[i as int]
                    || self.output_padding@[i as int] < self.dilation@[i as int])));
                return Err(
                    setting_error(
                        "output_padding",
                        "must be nonnegative and smaller than either stride or dilation per axis",
                    ),
                );
            }
            i += 1;
        }
        let outputs: i64 = self.out_channels / self.groups;
        proof {
            whole_group(self.out_channels as int, self.groups as int);
        }
        let fan_in: i64 = match count_fan(outputs, self.kernel_size.as_slice()) {
            Some(fan) => fan,
            None => {
                return Err(setting_error("kernel_size", "fan-in exceeds i64"));
            },
        };
        let weight = Some(with_kernel(self.in_channels, outputs, self.kernel_size.as_slice()));
        let bias = if self.bias {
            Some(one_axis(self.out_channels))
        } else {
            None
        };
        Ok(Allocation { weight, bias, fan_in })
    }

    /// Why an input is refused, if it is.
    pub open spec fn input_refusal(self, input: MetaView, weight: MetaView, bias: Option<MetaView>) -> Option<ErrorView> {
        if spatial_refusal(input, D as int) is Some {
            spatial_refusal(input, D as int)
        } else if device_refusal("transposed convolution weight"@, weight.device, input.device) is Some {
            device_refusal("transposed convolution weight"@, weight.device, input.device)
        } else if input.shape[input.shape.len() - D - 1] != self.in_channels {
            Some(setting_text("input channels"@, "must match the transposed convolution configuration"@))
        } else {
            match bias {
                Some(bias) => device_refusal("transposed convolution bias"@, bias.device, input.device),
                None => None,
            }
        }
    }

    /// Checks what the layer is applied to.
    pub fn forward(&self, input: &TensorMeta, weight: &TensorMeta, bias: Option<&TensorMeta>) -> (r: Result<()>)
        ensures
            refusal(r) == self.input_refusal(input@, weight@, optional_view(bias)),
    {
        if let Err(e) = spatial_input(input, D) {
            return Err(e);
        }
        if let Err(e) = ensure_device("transposed convolution weight", weight.device, input.device) {
            return Err(e);
        }
        if input.shape[input.shape.len() - D - 1] != self.in_channels {
            return Err(setting_error("input channels", "must match the transposed convolution configuration"));
        }
        match bias {
            Some(bias) => ensure_device("transposed convolution bias", bias.device, input.device),
            None => Ok(()),
        }
    }

    /// Finds the output padding by which the result gets wanted sizes.
    pub fn forward_with_output_size(&self, input: &TensorMeta, output_size: &Vec<i64>) -> (r: Result<Vec<i64>>)
        requires
            self.settings_refusal() is None,
            forall|i: int| 0 <= i < input@.shape.len() ==> #[trigger] input@.shape[i] >= 0,
        ensures
            ({
                let rank = input@.shape.len() as int;
                let sizes = spatial_sizes(output_size@, rank, D as int);
                &&& refusal(r) == (if spatial_refusal(input@, D as int) is Some {
                    spatial_refusal(input@, D as int)
                } else if sizes.len() != D {
                    Some(setting_text("output_size"@, "must contain spatial sizes or the full output shape"@))
                } else if !sizes_fit(*self, input@.shape, sizes) {
                    Some(
                        setting_text(
                            "output_size"@,
                            "is outside the range allowed by kernel, stride, padding, and dilation"@,
                        ),
                    )
                } else {
                    None
                })
                &&& r matches Ok(extra) ==> extra@.len() == D && forall|i: int|
                    0 <= i < D ==> sizes[i] == smallest_output(
                        input@.shape[rank - D + i] as int,
                        self.stride@[i] as int,
                        self.padding@[i] as int,
                        self.dilation@[i] as int,
                        self.kernel_size@[i] as int,
                    ) + #[trigger] extra@[i]
            }),
    {
        if let Err(e) = spatial_input(input, D) {
            return Err(e);
        }
        let rank: usize = input.shape.len();
        let skip: usize = if output_size.len() == rank {
            rank - D
        } else {
            0
        };
        let ghost sizes = spatial_sizes(output_size@, rank as int, D as int);
        if output_size.len() - skip != D {
            return Err(setting_error("output_size", "must contain spatial sizes or the full output shape"));
        }
        let mut extra: Vec<i64> = Vec::new();
        let mut i: usize = 0;
        while i < D
            invariant
                1 <= D <= 3,
                spatial_refusal(input@, D as int) is None,
                self.settings_refusal() is None,
                forall|k: int| 0 <= k < input@.shape.len() ==> #[trigger] input@.shape[k] >= 0,
                rank == input@.shape.len(),
                rank >= D,
                sizes == spatial_sizes(output_size@, rank as int, D as int),
                sizes.len() == D,
                skip == (if output_size@.len() == rank {
                    rank - D
                } else {
                    0
                }),
                output_size@.len() - skip == D,
                i <= D,
                extra@.len() == i,
                forall|k: int|
                    0 <= k < i ==> 0 <= #[trigger] sizes[k] - smallest_output(
                        input@.shape[rank - D + k] as int,
                        self.stride@[k] as int,
                        self.padding@[k] as int,
                        self.dilation@[k] as int,
                        self.kernel_size@[k] as int,
                    ) < self.stride@[k],
                forall|k: int|
                    0 <= k < i ==> sizes[k] == smallest_output(
                        input@.shape[rank - D + k] as int,
                        self.stride@[k] as int,
                        self.padding@[k] as int,
                        self.dilation@[k] as int,
                        self.kernel_size@[k] as int,
                    ) + #[trigger] extra@[k],
            decreases D - i,
        {
            let size: i128 = input.shape[rank - D + i] as i128;
            let stride: i128 = self.stride[i] as i128;
            let padding: i128 = self.padding[i] as i128;
            let dilation: i128 = self.dilation[i] as i128;
            let kernel: i128 = self.kernel_size[i] as i128;
            proof {
                assert(sizes[i as int] == output_size@[skip + i]);
                assert(self.stride@[i as int] >= 1 && self.dilation@[i as int] >= 1 && self.kernel_size@[i as int] >= 1
                    && self.padding@[i as int] >= 0);
                let bound: int = 0x7fff_ffff_ffff_ffff;
                assert(-bound <= (size - 1) * stride <= bound * bound) by (nonlinear_arith)
                    requires
                        0 <= size <= bound,
                        1 <= stride <= bound,
                        bound == 0x7fff_ffff_ffff_ffffint,
                ;
                assert(0 <= dilation * (kernel - 1) <= bound * bound) by (nonlinear_arith)
                    requires
                        1 <= dilation <= bound,
                        1 <= kernel <= bound,
                        bound == 0x7fff_ffff_ffff_ffffint,
                ;
                assert(bound * bound == 0x3fff_ffff_ffff_ffff_0000_0000_0000_0001int) by (nonlinear_arith)
                    requires
                        bound == 0x7fff_ffff_ffff_ffffint,
                ;
            }
            let minimum: i128 = (size - 1) * stride - 2 * padding + dilation * (kernel - 1) + 1;
            let more: i128 = output_size[skip + i] as i128 - minimum;
            if more < 0 || more >= stride {
                assert(!(0 <= sizes[i as int] - smallest_output(
                    input@.shape[rank - D + i] as int,
                    self.stride@[i as int] as int,
                    self.padding@[i as int] as int,
                    self.dilation@[i as int] as int,
                    self.kernel_size@[i as int] as int,
                ) < self.stride@[i as int]));
                return Err(
                    setting_error("output_size", "is outside the range allowed by kernel, stride, padding, and dilation"),
                );
            }
            extra.push(more as i64);
            i += 1;
        }
        Ok(extra)
    }
}

/// The settings that all pools over `D` axes share.
#[derive(Debug, Clone, Copy, PartialEq, Eq)]
pub struct PoolOptions<const D: usize> {
    /// The size of the window along each axis.
    pub kernel: [i64; D],
    /// The step along each axis.
    pub stride: [i64; D],
    /// The padding on both sides of each axis.
    pub padding: [i64; D],
    /// Whether a window may reach over the end.
    pub ceil_mode: bool,
}

impl<const D: usize> PoolOptions<D> {
    /// Why the settings are refused, if they are.
    pub open spec fn refusal(self) -> Option<ErrorView> {
        if !(1 <= D <= 3) {
            Some(setting_text("pool dimensions"@, "must be one, two, or three"@))
        } else if !one_for_each(self.kernel@, D as nat, 1) || !one_for_each(self.stride@, D as nat, 1) {
            Some(setting_text("pool kernel/stride"@, "must be positive per axis"@))
        } else if exists|i: int| 0 <= i < D && !(0 <= #[trigger] self.padding@[i] <= self.kernel@[i] as int / 2) {
            Some(setting_text("pool padding"@, "must be nonnegative and at most half the kernel size per axis"@))
        } else {
            None
        }
    }

    /// Windows that do not overlap, without padding.
    pub fn new(kernel: [i64; D]) -> (r: Result<Self>)
        ensures
            refusal(r) == (if !(1 <= D <= 3) {
                Some(setting_text("pool dimensions"@, "must be one, two, or three"@))
            } else if !one_for_each(kernel@, D as nat, 1) {
                Some(setting_text("pool kernel/stride"@, "must be positive per axis"@))
            } else {
                None
            }),
            r matches Ok(o) ==> o.kernel == kernel && o.stride == kernel && o.padding@ == Seq::new(D as nat, |i: int| 0i64)
                && !o.ceil_mode,
    {
        let zeros: [i64; D] = [0; D];
        assert(zeros@ =~= Seq::new(D as nat, |i: int| 0i64));
        let options = PoolOptions { kernel, stride: kernel, padding: zeros, ceil_mode: false };
        if let Err(e) = options.validate() {
            return Err(e);
        }
        Ok(options)
    }

    /// Checks the settings.
    pub fn validate(&self) -> (r: Result<()>)
        ensures
            refusal(r) == self.refusal(),
    {
        if D < 1 || D > 3 {
            return Err(setting_error("pool dimensions", "must be one, two, or three"));
        }
        if !each_at_least(self.kernel.as_slice(), 1) || !each_at_least(self.stride.as_slice(), 1) {
            return Err(setting_error("pool kernel/stride", "must be positive per axis"));
        }
        let mut i: usize = 0;
        while i < D
            invariant
                i <= D,
                1 <= D <= 3,
                one_for_each(self.kernel@, D as nat, 1),
                one_for_each(self.stride@, D as nat, 1),
                forall|k: int| 0 <= k < i ==> 0 <= #[trigger] self.padding@[k] <= self.kernel@[k] as int / 2,
            decreases D - i,
        {
            assert(self.kernel@[i as int] >= 1);
            if self.padding[i] < 0 || self.padding[i] > self.kernel[i] / 2 {
                assert(!(0 <= self.padding@[i as int] <= self.kernel@[i as int] as int / 2));
                return Err(setting_error("pool padding", "must be nonnegative and at most half the kernel size per axis"));
            }
            i += 1;
        }
        Ok(())
    }
}

/// The largest element of each window.
#[derive(Debug, Clone, Copy, PartialEq, Eq)]
pub struct MaxPool<const D: usize> {
    /// The settings of the windows.
    pub options: PoolOptions<D>,
    /// The distance of window elements along each axis.
    pub dilation: [i64; D],
}

/// The mean of each window.
#[derive(Debug, Clone, Copy, PartialEq, Eq)]
pub struct AvgPool<const D: usize> {
    /// The settings of the windows.
    pub options: PoolOptions<D>,
    /// Whether padding counts in the mean.
    pub count_include_pad: bool,
    /// What the sum is divided by, if not by the size of the window.
    pub divisor_override: Option<i64>,
}

impl<const D: usize> MaxPool<D> {
    /// Windows that do not overlap, without padding.
    pub fn new(kernel_size: [i64; D]) -> (r: Result<Self>)
        ensures
            refusal(r) == (if !(1 <= D <= 3) {
                Some(setting_text("pool dimensions"@, "must be one, two, or three"@))
            } else if !one_for_each(kernel_size@, D as nat, 1) {
                Some(setting_text("pool kernel/stride"@, "must be positive per axis"@))
            } else {
                None
            }),
            r matches Ok(p) ==> p.options.kernel == kernel_size && p.options.stride == kernel_size && p.options.padding@ == Seq::new(
                D as nat,
                |i: int| 0i64,
            ) && !p.options.ceil_mode && p.dilation@ == Seq::new(D as nat, |i: int| 1i64),
    {
        let options = match PoolOptions::new(kernel_size) {
            Ok(options) => options,
            Err(e) => {
                return Err(e);
            },
        };
        let ones: [i64; D] = [1; D];
        assert(ones@ =~= Seq::new(D as nat, |i: int| 1i64));
        Ok(MaxPool { options, dilation: ones })
    }

    /// Sets the step along each axis.
    #[must_use]
    pub fn stride(self, stride: [i64; D]) -> (r: Self)
        ensures
            r == (MaxPool { options: PoolOptions { stride, ..self.options }, ..self }),
    {
        MaxPool { options: PoolOptions { stride, ..self.options }, ..self }
    }

    /// Sets the padding on both sides of each axis.
    #[must_use]
    pub fn padding(self, padding: [i64; D]) -> (r: Self)
        ensures
            r == (MaxPool { options: PoolOptions { padding, ..self.options }, ..self }),
    {
        MaxPool { options: PoolOptions { padding, ..self.options }, ..self }
    }

    /// Sets whether a window may reach over the end.
    #[must_use]
    pub fn ceil_mode(self, ceil: bool) -> (r: Self)
        ensures
            r == (MaxPool { options: PoolOptions { ceil_mode: ceil, ..self.options }, ..self }),
    {
        MaxPool { options: PoolOptions { ceil_mode: ceil, ..self.options }, ..self }
    }

    /// Sets the distance of window elements along each axis.
    #[must_use]
    pub fn dilation(self, dilation: [i64; D]) -> (r: Self)
        ensures
            r == (MaxPool { dilation, ..self }),
    {
        MaxPool { dilation, ..self }
    }

    /// Checks the settings and what the pool is applied to.
    pub fn forward_with_indices(&self, input: &TensorMeta) -> (r: Result<()>)
        ensures
            refusal(r) == either(
                spatial_refusal(input@, D as int),
                either(
                    self.options.refusal(),
                    if one_for_each(self.dilation@, D as nat, 1) {
                        None
                    } else {
                        Some(setting_text("pool dilation"@, "must be positive per axis"@))
                    },
                ),
            ),
    {
        if let Err(e) = spatial_input(input, D) {
            return Err(e);
        }
        if let Err(e) = self.options.validate() {
            return Err(e);
        }
        if !each_at_least(self.dilation.as_slice(), 1) {
            return Err(setting_error("pool dilation", "must be positive per axis"));
        }
        Ok(())
    }
}

impl<const D: usize> AvgPool<D> {
    /// Windows that do not overlap, without padding.
    pub fn new(kernel_size: [i64; D]) -> (r: Result<Self>)
        ensures
            refusal(r) == (if !(1 <= D <= 3) {
                Some(setting_text("pool dimensions"@, "must be one, two, or three"@))
            } else if !one_for_each(kernel_size@, D as nat, 1) {
                Some(setting_text("pool kernel/stride"@, "must be positive per axis"@))
            } else {
                None
            }),
            r matches Ok(p) ==> p.options.kernel == kernel_size && p.options.stride == kernel_size && p.options.padding@ == Seq::new(
                D as nat,
                |i: int| 0i64,
            ) && !p.options.ceil_mode && p.count_include_pad && p.divisor_override is None,
    {
        let options = match PoolOptions::new(kernel_size) {
            Ok(options) => options,
            Err(e) => {
                return Err(e);
            },
        };
        Ok(AvgPool { options, count_include_pad: true, divisor_override: None })
    }

    /// Sets the step along each axis.
    #[must_use]
    pub fn stride(self, stride: [i64; D]) -> (r: Self)
        ensures
            r == (AvgPool { options: PoolOptions { stride, ..self.options }, ..self }),
    {
        AvgPool { options: PoolOptions { stride, ..self.options }, ..self }
    }

    /// Sets the padding on both sides of each axis.
    #[must_use]
    pub fn padding(self, padding: [i64; D]) -> (r: Self)
        ensures
            r == (AvgPool { options: PoolOptions { padding, ..self.options }, ..self }),
    {
        AvgPool { options: PoolOptions { padding, ..self.options }, ..self }
    }

    /// Sets whether a window may reach over the end.
    #[must_use]
    pub fn ceil_mode(self, ceil: bool) -> (r: Self)
        ensures
            r == (AvgPool { options: PoolOptions { ceil_mode: ceil, ..self.options }, ..self }),
    {
        AvgPool { options: PoolOptions { ceil_mode: ceil, ..self.options }, ..self }
    }

    /// Sets whether padding counts in the mean.
    #[must_use]
    pub fn count_include_pad(self, count: bool) -> (r: Self)
        ensures
            r == (AvgPool { count_include_pad: count, ..self }),
    {
        AvgPool { count_include_pad: count, ..self }
    }

    /// Sets what the sum is divided by.
    #[must_use]
    pub fn divisor_override(self, divisor: Option<i64>) -> (r: Self)
        ensures
            r == (AvgPool { divisor_override: divisor, ..self }),
    {
        AvgPool { divisor_override: divisor, ..self }
    }

    /// Checks the settings and what the pool is applied to.
    pub fn forward(&self, input: &TensorMeta) -> (r: Result<()>)
        ensures
            refusal(r) == either(
                spatial_refusal(input@, D as int),
                either(
                    self.options.refusal(),
                    if self.divisor_override == Some(0i64) || (D == 1 && self.divisor_override is Some) {
                        Some(
                            setting_text(
                                "divisor_override"@,
                                "must be nonzero and is supported only for 2-D/3-D average pooling"@,
                            ),
                        )
                    } else {
                        None
                    },
                ),
            ),
    {
        if let Err(e) = spatial_input(input, D) {
            return Err(e);
        }
        if let Err(e) = self.options.validate() {
            return Err(e);
        }
        let refused = match self.divisor_override {
            Some(divisor) => divisor == 0 || D == 1,
            None => false,
        };
        if refused {
            return Err(
                setting_error(
                    "divisor_override",
                    "must be nonzero and is supported only for 2-D/3-D average pooling",
                ),
            );
        }
        Ok(())
    }
}

/// The means of windows that are chosen to give a wanted size.
#[derive(Debug, Clone, Copy, PartialEq, Eq)]
pub struct AdaptiveAvgPool<const D: usize> {
    /// The size of the result along each axis.
    pub output_size: [i64; D],
}

impl<const D: usize> AdaptiveAvgPool<D> {
    /// A pool with a wanted size of the result.
    pub fn new(output_size: [i64; D]) -> (r: Result<Self>)
        ensures
            refusal(r) == (if 1 <= D <= 3 && one_for_each(output_size@, D as nat, 1) {
                None
            } else {
                Some(
                    setting_text("adaptive output_size"@, "must contain one, two, or three positive spatial sizes"@),
                )
            }),
            r matches Ok(p) ==> p.output_size == output_size,
    {
        if D < 1 || D > 3 || !each_at_least(output_size.as_slice(), 1) {
            return Err(setting_error("adaptive output_size", "must contain one, two, or three positive spatial sizes"));
        }
        Ok(AdaptiveAvgPool { output_size })
    }

    /// Checks what the pool is applied to.
    pub fn forward(&self, input: &TensorMeta) -> (r: Result<()>)
        ensures
            refusal(r) == spatial_refusal(input@, D as int),
    {
        spatial_input(input, D)
    }
}

/// The largest elements of windows that are chosen to give a wanted size.
#[derive(Debug, Clone, Copy, PartialEq, Eq)]
pub struct AdaptiveMaxPool<const D: usize> {
    /// The size of the result along each axis.
    pub output_size: [i64; D],
}

impl<const D: usize> AdaptiveMaxPool<D> {
    /// A pool with a wanted size of the result.
    pub fn new(output_size: [i64; D]) -> (r: Result<Self>)
        ensures
            refusal(r) == (if 1 <= D <= 3 && one_for_each(output_size@, D as nat, 1) {
                None
            } else {
                Some(
                    setting_text("adaptive output_size"@, "must contain one, two, or three positive spatial sizes"@),
                )
            }),
            r matches Ok(p) ==> p.output_size == output_size,
    {
        if D < 1 || D > 3 || !each_at_least(output_size.as_slice(), 1) {
            return Err(setting_error("adaptive output_size", "must contain one, two, or three positive spatial sizes"));
        }
        Ok(AdaptiveMaxPool { output_size })
    }

    /// Checks what the pool is applied to.
    pub fn forward_with_indices(&self, input: &TensorMeta) -> (r: Result<()>)
        ensures
            refusal(r) == spatial_refusal(input@, D as int),
    {
        spatial_input(input, D)
    }
}

/// The output padding that is found for wanted sizes is less than a step.
pub proof fn found_padding_is_less_than_a_step<const D: usize>(
    config: ConvTransposeConfig<D>,
    input: Seq<i64>,
    sizes: Seq<i64>,
    extra: Seq<i64>,
)
    requires
        sizes_fit(config, input, sizes),
        extra.len() == D,
        forall|i: int|
            0 <= i < D ==> sizes[i] == smallest_output(
                input[input.len() - D + i] as int,
                config.stride@[i] as int,
                config.padding@[i] as int,
                config.dilation@[i] as int,
                config.kernel_size@[i] as int,
            ) + #[trigger] extra[i],
    ensures
        output_padding_fits(extra, config.stride@, config.dilation@),
{
    assert forall|i: int| 0 <= i < extra.len() implies 0 <= #[trigger] extra[i] && (extra[i] < config.stride@[i] || extra[i]
        < config.dilation@[i]) by {
        assert(sizes[i] == sizes[i]);
    }
}

} // verus!
