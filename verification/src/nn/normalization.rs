//! Normalizations by statistics of a batch, an instance or a group of channels.
use super::functional::{check_eps, copy_tail, eps_refusal};
use super::layers::{parameter_kind_refusal, validate_parameter_kind};
use crate::error::{either, refusal, setting_error, setting_text, ErrorView, Result};
use crate::float::Binary64;
use crate::kind::{Device, Kind};
use crate::tensor::{device_refusal, ensure_device, MetaView, TensorMeta};
use vstd::prelude::*;

verus! {

/// The settings that all normalizations share.
#[derive(Debug, Clone, Copy, PartialEq, Eq, Structural)]
pub struct Options {
    /// The number of channels.
    pub channels: i64,
    /// What is added to the variance.
    pub eps: Binary64,
    /// The share of a new batch in the running statistics; without it their mean is taken.
    pub momentum: Option<Binary64>,
    /// Whether the result is scaled and shifted.
    pub affine: bool,
    /// Whether it is shifted.
    pub bias: bool,
    /// Whether running statistics are kept.
    pub track_running_stats: bool,
}

impl Options {
    /// The defaults: those of batches are affine and keep running statistics.
    pub open spec fn defaults(channels: i64, batch: bool) -> Options {
        Options {
            channels,
            eps: Binary64 { bits: 0x3ee4_f8b5_88e3_68f1 },
            momentum: Some(Binary64 { bits: 0x3fb9_9999_9999_999a }),
            affine: batch,
            bias: true,
            track_running_stats: batch,
        }
    }

    fn new(channels: i64, batch: bool) -> (r: Self)
        ensures
            r == Options::defaults(channels, batch),
    {
        Options {
            channels,
            eps: Binary64 { bits: 0x3ee4_f8b5_88e3_68f1 },
            momentum: Some(Binary64 { bits: 0x3fb9_9999_9999_999a }),
            affine: batch,
            bias: true,
            track_running_stats: batch,
        }
    }

    /// Why the settings are refused, if they are.
    pub open spec fn refusal(self) -> Option<ErrorView> {
        if self.channels <= 0 {
            Some(setting_text("channels"@, "must be positive"@))
        } else if eps_refusal("eps"@, self.eps) is Some {
            eps_refusal("eps"@, self.eps)
        } else if self.momentum matches Some(m) && !m.finite() {
            Some(setting_text("momentum"@, "must be finite or None"@))
        } else {
            None
        }
    }

    fn validate(&self) -> (r: Result<()>)
        ensures
            refusal(r) == self.refusal(),
    {
        if self.channels <= 0 {
            return Err(setting_error("channels", "must be positive"));
        }
        if let Err(e) = check_eps("eps", self.eps) {
            return Err(e);
        }
        if let Some(momentum) = self.momentum {
            if !momentum.is_finite() {
                return Err(setting_error("momentum", "must be finite or None"));
            }
        }
        Ok(())
    }

    /// Why the parameters are refused, if they are.
    pub open spec fn parameters_refusal(self, kind: Kind) -> Option<ErrorView> {
        either(
            self.refusal(),
            if self.affine || self.track_running_stats {
                parameter_kind_refusal(kind)
            } else {
                None
            },
        )
    }

    fn check_parameters(&self, kind: Kind) -> (r: Result<()>)
        ensures
            refusal(r) == self.parameters_refusal(kind),
    {
        if let Err(e) = self.validate() {
            return Err(e);
        }
        if self.affine || self.track_running_stats {
            return validate_parameter_kind(kind);
        }
        Ok(())
    }

    /// What has to be allocated: each tensor but the count has one value for each channel.
    pub open spec fn allocation(self) -> NormParameters {
        NormParameters {
            weight: self.affine,
            bias: self.affine && self.bias,
            running_mean: self.track_running_stats,
            running_var: self.track_running_stats,
            num_batches_tracked: self.track_running_stats,
        }
    }

    fn allocate(&self) -> (r: NormParameters)
        ensures
            r == self.allocation(),
    {
        NormParameters {
            weight: self.affine,
            bias: self.affine && self.bias,
            running_mean: self.track_running_stats,
            running_var: self.track_running_stats,
            num_batches_tracked: self.track_running_stats,
        }
    }
}

/// Which tensors a normalization keeps.
#[derive(Debug, Clone, Copy, PartialEq, Eq, Structural)]
pub struct NormParameters {
    /// The factors, ones at first.
    pub weight: bool,
    /// The shifts, zeros at first.
    pub bias: bool,
    /// The running means, zeros at first.
    pub running_mean: bool,
    /// The running variances, ones at first.
    pub running_var: bool,
    /// The number of batches, zero at first.
    pub num_batches_tracked: bool,
}

/// Where the tensors of a normalization are stored, if they exist.
#[derive(Debug, Clone, Copy, PartialEq, Eq, Structural)]
pub struct Placement {
    pub weight: Option<Device>,
    pub bias: Option<Device>,
    pub running_mean: Option<Device>,
    pub running_var: Option<Device>,
    pub num_batches_tracked: Option<Device>,
}

/// Why a tensor is refused for where it is stored, if it is.
pub open spec fn place_refusal(name: Seq<char>, place: Option<Device>, input: Device) -> Option<ErrorView> {
    match place {
        Some(device) => device_refusal(name, device, input),
        None => None,
    }
}

fn check_place(name: &str, place: Option<Device>, input: Device) -> (r: Result<()>)
    ensures
        refusal(r) == place_refusal(name@, place, input),
{
    match place {
        Some(device) => ensure_device(name, device, input),
        None => Ok(()),
    }
}

impl Placement {
    /// Why an input is refused beside the tensors, if it is.
    pub open spec fn refusal(self, input: MetaView) -> Option<ErrorView> {
        if !input.defined {
            Some(setting_text("normalization input"@, "must be a defined tensor"@))
        } else {
            either(
                place_refusal("normalization weight"@, self.weight, input.device),
                either(
                    place_refusal("normalization bias"@, self.bias, input.device),
                    either(
                        place_refusal("running_mean"@, self.running_mean, input.device),
                        either(
                            place_refusal("running_var"@, self.running_var, input.device),
                            place_refusal("num_batches_tracked"@, self.num_batches_tracked, input.device),
                        ),
                    ),
                ),
            )
        }
    }

    fn validate_input(&self, input: &TensorMeta) -> (r: Result<()>)
        ensures
            refusal(r) == self.refusal(input@),
    {
        if !input.defined {
            return Err(setting_error("normalization input", "must be a defined tensor"));
        }
        if let Err(e) = check_place("normalization weight", self.weight, input.device) {
            return Err(e);
        }
        if let Err(e) = check_place("normalization bias", self.bias, input.device) {
            return Err(e);
        }
        if let Err(e) = check_place("running_mean", self.running_mean, input.device) {
            return Err(e);
        }
        if let Err(e) = check_place("running_var", self.running_var, input.device) {
            return Err(e);
        }
        check_place("num_batches_tracked", self.num_batches_tracked, input.device)
    }
}

/// The product of a number and the first `n` sizes, unless it leaves the range of numbers on
/// the way.
pub open spec fn size_product(first: int, sizes: Seq<i64>, n: int) -> Option<int>
    decreases n,
{
    if n <= 0 {
        Some(first)
    } else {
        match size_product(first, sizes, n - 1) {
            Some(product) => if i64::MIN <= product * sizes[n - 1] <= i64::MAX {
                Some(product * sizes[n - 1])
            } else {
                None
            },
            None => None,
        }
    }
}

proof fn size_product_fails(first: int, sizes: Seq<i64>, n: int, m: int)
    requires
        0 <= n <= m,
        size_product(first, sizes, n) is None,
    ensures
        size_product(first, sizes, m) is None,
    decreases m - n,
{
    if n < m {
        size_product_fails(first, sizes, n + 1, m);
    }
}

fn multiply(first: i64, sizes: &Vec<i64>) -> (r: Option<i64>)
    ensures
        match (r, size_product(first as int, sizes@, sizes@.len() as int)) {
            (Some(a), Some(b)) => a == b,
            (None, None) => true,
            _ => false,
        },
{
    let mut total: i64 = first;
    let mut i: usize = 0;
    while i < sizes.len()
        invariant
            i <= sizes@.len(),
            size_product(first as int, sizes@, i as int) == Some(total as int),
        decreases sizes@.len() - i,
    {
        proof {
            if size_product(first as int, sizes@, i + 1) is None {
                size_product_fails(first as int, sizes@, i + 1, sizes@.len() as int);
            }
        }
        match total.checked_mul(sizes[i]) {
            Some(next) => {
                total = next;
            },
            None => {
                return None;
            },
        }
        i += 1;
    }
    Some(total)
}

/// All sizes are one.
pub open spec fn all_ones(sizes: Seq<i64>) -> bool {
    forall|i: int| 0 <= i < sizes.len() ==> #[trigger] sizes[i] == 1
}

fn only_ones(sizes: &Vec<i64>) -> (r: bool)
    ensures
        r == all_ones(sizes@),
{
    let mut i: usize = 0;
    while i < sizes.len()
        invariant
            i <= sizes@.len(),
            forall|k: int| 0 <= k < i ==> #[trigger] sizes@[k] == 1,
        decreases sizes@.len() - i,
    {
        if sizes[i] != 1 {
            assert(sizes@[i as int] != 1);
            return false;
        }
        i += 1;
    }
    true
}

/// A normalization by statistics of a batch, over `D` axes.
#[derive(Debug, Clone, Copy, PartialEq, Eq)]
pub struct BatchNormConfig<const D: usize> {
    /// The settings.
    pub options: Options,
}

/// A normalization by statistics of each instance, over `D` axes.
#[derive(Debug, Clone, Copy, PartialEq, Eq)]
pub struct InstanceNormConfig<const D: usize> {
    /// The settings.
    pub options: Options,
}

/// A normalization by statistics of groups of channels.
#[derive(Debug, Clone, Copy, PartialEq, Eq, Structural)]
pub struct GroupNormConfig {
    /// The number of groups.
    pub groups: i64,
    /// The settings.
    pub options: Options,
}

/// Why a normalization over `d` axes is refused, if it is.
pub open spec fn axes_refusal(d: int) -> Option<ErrorView> {
    if 1 <= d <= 3 {
        None
    } else {
        Some(setting_text("normalization dimensions"@, "must be one, two, or three"@))
    }
}

impl<const D: usize> BatchNormConfig<D> {
    /// Affine, with running statistics.
    pub fn new(channels: i64) -> (r: Self)
        ensures
            r == (BatchNormConfig::<D> { options: Options::defaults(channels, true) }),
    {
        BatchNormConfig { options: Options::new(channels, true) }
    }

    /// Sets what is added to the variance.
    #[must_use]
    pub fn eps(self, eps: Binary64) -> (r: Self)
        ensures
            r == (BatchNormConfig::<D> { options: Options { eps, ..self.options } }),
    {
        BatchNormConfig { options: Options { eps, ..self.options } }
    }

    /// Sets the share of a new batch in the running statistics.
    #[must_use]
    pub fn momentum(self, momentum: Option<Binary64>) -> (r: Self)
        ensures
            r == (BatchNormConfig::<D> { options: Options { momentum, ..self.options } }),
    {
        BatchNormConfig { options: Options { momentum, ..self.options } }
    }

    /// Sets whether the result is scaled and shifted.
    #[must_use]
    pub fn affine(self, affine: bool) -> (r: Self)
        ensures
            r == (BatchNormConfig::<D> { options: Options { affine, ..self.options } }),
    {
        BatchNormConfig { options: Options { affine, ..self.options } }
    }

    /// Sets whether the result is shifted.
    #[must_use]
    pub fn bias(self, bias: bool) -> (r: Self)
        ensures
            r == (BatchNormConfig::<D> { options: Options { bias, ..self.options } }),
    {
        BatchNormConfig { options: Options { bias, ..self.options } }
    }

    /// Sets whether running statistics are kept.
    #[must_use]
    pub fn track_running_stats(self, track: bool) -> (r: Self)
        ensures
            r == (BatchNormConfig::<D> { options: Options { track_running_stats: track, ..self.options } }),
    {
        BatchNormConfig { options: Options { track_running_stats: track, ..self.options } }
    }

    /// Checks the settings and tells which tensors the normalization keeps.
    pub fn build(self, kind: Kind) -> (r: Result<NormParameters>)
        ensures
            refusal(r) == either(axes_refusal(D as int), self.options.parameters_refusal(kind)),
            r matches Ok(p) ==> p == self.options.allocation(),
    {
        if D < 1 || D > 3 {
            return Err(setting_error("normalization dimensions", "must be one, two, or three"));
        }
        if let Err(e) = self.options.check_parameters(kind) {
            return Err(e);
        }
        Ok(self.options.allocate())
    }
}

impl<const D: usize> InstanceNormConfig<D> {
    /// Neither affine nor with running statistics.
    pub fn new(channels: i64) -> (r: Self)
        ensures
            r == (InstanceNormConfig::<D> { options: Options::defaults(channels, false) }),
    {
        InstanceNormConfig { options: Options::new(channels, false) }
    }

    /// Sets what is added to the variance.
    #[must_use]
    pub fn eps(self, eps: Binary64) -> (r: Self)
        ensures
            r == (InstanceNormConfig::<D> { options: Options { eps, ..self.options } }),
    {
        InstanceNormConfig { options: Options { eps, ..self.options } }
    }

    /// Sets the share of a new batch in the running statistics.
    #[must_use]
    pub fn momentum(self, momentum: Option<Binary64>) -> (r: Self)
        ensures
            r == (InstanceNormConfig::<D> { options: Options { momentum, ..self.options } }),
    {
        InstanceNormConfig { options: Options { momentum, ..self.options } }
    }

    /// Sets whether the result is scaled and shifted.
    #[must_use]
    pub fn affine(self, affine: bool) -> (r: Self)
        ensures
            r == (InstanceNormConfig::<D> { options: Options { affine, ..self.options } }),
    {
        InstanceNormConfig { options: Options { affine, ..self.options } }
    }

    /// Sets whether the result is shifted.
    #[must_use]
    pub fn bias(self, bias: bool) -> (r: Self)
        ensures
            r == (InstanceNormConfig::<D> { options: Options { bias, ..self.options } }),
    {
        InstanceNormConfig { options: Options { bias, ..self.options } }
    }

    /// Sets whether running statistics are kept.
    #[must_use]
    pub fn track_running_stats(self, track: bool) -> (r: Self)
        ensures
            r == (InstanceNormConfig::<D> { options: Options { track_running_stats: track, ..self.options } }),
    {
        InstanceNormConfig { options: Options { track_running_stats: track, ..self.options } }
    }

    /// Checks the settings and tells which tensors the normalization keeps.
    pub fn build(self, kind: Kind) -> (r: Result<NormParameters>)
        ensures
            refusal(r) == either(axes_refusal(D as int), self.options.parameters_refusal(kind)),
            r matches Ok(p) ==> p == self.options.allocation(),
    {
        if D < 1 || D > 3 {
            return Err(setting_error("normalization dimensions", "must be one, two, or three"));
        }
        if let Err(e) = self.options.check_parameters(kind) {
            return Err(e);
        }
        Ok(self.options.allocate())
    }
}

impl<const D: usize> BatchNormConfig<D> {
    /// Why an input is refused, if it is.
    pub open spec fn input_refusal(self, place: Placement, input: MetaView, training: bool) -> Option<ErrorView> {
        let shape = input.shape;
        if place.refusal(input) is Some {
            place.refusal(input)
        } else if !(shape.len() == D + 2 || (D == 1 && shape.len() == 2)) {
            Some(
                setting_text(
                    "batch normalization input"@,
                    "rank must match the configured spatial dimensions (BatchNorm1d also accepts [N, C])"@,
                ),
            )
        } else if shape[1] != self.options.channels {
            Some(setting_text("input channels"@, "must match the normalization configuration"@))
        } else if (training || !self.options.track_running_stats) && size_product(
            shape[0] as int,
            shape.skip(2),
            shape.len() - 2,
        ) == Some(1int) {
            Some(
                setting_text("batch normalization input"@, "training requires more than one value per channel"@),
            )
        } else {
            None
        }
    }

    /// Checks what the normalization is applied to. Tells whether statistics of the input are
    /// used, rather than running ones.
    pub fn forward_t(&self, place: Placement, input: &TensorMeta, training: bool) -> (r: Result<bool>)
        requires
            D + 2 <= usize::MAX,
        ensures
            refusal(r) == self.input_refusal(place, input@, training),
            r matches Ok(use_input) ==> use_input == (training || !self.options.track_running_stats),
    {
        if let Err(e) = place.validate_input(input) {
            return Err(e);
        }
        let rank: usize = input.shape.len();
        if !(rank == D + 2 || (D == 1 && rank == 2)) {
            return Err(
                setting_error(
                    "batch normalization input",
                    "rank must match the configured spatial dimensions (BatchNorm1d also accepts [N, C])",
                ),
            );
        }
        if input.shape[1] != self.options.channels {
            return Err(setting_error("input channels", "must match the normalization configuration"));
        }
        let use_input = training || !self.options.track_running_stats;
        if use_input {
            let tail = copy_tail(&input.shape, 2);
            if let Some(count) = multiply(input.shape[0], &tail) {
                if count == 1 {
                    return Err(
                        setting_error("batch normalization input", "training requires more than one value per channel"),
                    );
                }
            }
        }
        Ok(use_input)
    }
}

impl<const D: usize> InstanceNormConfig<D> {
    /// Why an input is refused, if it is.
    pub open spec fn input_refusal(self, place: Placement, input: MetaView, training: bool) -> Option<ErrorView> {
        let shape = input.shape;
        let axis = if shape.len() == D + 1 {
            0int
        } else {
            1
        };
        if place.refusal(input) is Some {
            place.refusal(input)
        } else if shape.len() != D + 1 && shape.len() != D + 2 {
            Some(
                setting_text(
                    "instance normalization input"@,
                    "rank must match the configured spatial dimensions, with an optional batch"@,
                ),
            )
        } else if shape[axis] != self.options.channels {
            Some(setting_text("input channels"@, "must match the normalization configuration"@))
        } else if (training || !self.options.track_running_stats) && all_ones(shape.skip(axis + 1)) {
            Some(
                setting_text(
                    "instance normalization input"@,
                    "input statistics require more than one spatial element"@,
                ),
            )
        } else {
            None
        }
    }

    /// Checks what the normalization is applied to. Tells whether statistics of the input are
    /// used, rather than running ones, and whether the input has no batch.
    pub fn forward_t(&self, place: Placement, input: &TensorMeta, training: bool) -> (r: Result<(bool, bool)>)
        requires
            D + 2 <= usize::MAX,
        ensures
            refusal(r) == self.input_refusal(place, input@, training),
            r matches Ok(p) ==> p.0 == (training || !self.options.track_running_stats) && p.1 == (input@.shape.len() == D + 1),
    {
        if let Err(e) = place.validate_input(input) {
            return Err(e);
        }
        let rank: usize = input.shape.len();
        if rank != D + 1 && rank != D + 2 {
            return Err(
                setting_error(
                    "instance normalization input",
                    "rank must match the configured spatial dimensions, with an optional batch",
                ),
            );
        }
        let unbatched = rank == D + 1;
        let axis: usize = if unbatched {
            0
        } else {
            1
        };
        if input.shape[axis] != self.options.channels {
            return Err(setting_error("input channels", "must match the normalization configuration"));
        }
        let use_input = training || !self.options.track_running_stats;
        if use_input {
            let tail = copy_tail(&input.shape, axis + 1);
            if only_ones(&tail) {
                return Err(
                    setting_error(
                        "instance normalization input",
                        "input statistics require more than one spatial element",
                    ),
                );
            }
        }
        Ok((use_input, unbatched))
    }
}

impl GroupNormConfig {
    /// Affine, without running statistics.
    pub fn new(groups: i64, channels: i64) -> (r: Self)
        ensures
            r == (GroupNormConfig {
                groups,
                options: Options { track_running_stats: false, ..Options::defaults(channels, true) },
            }),
    {
        GroupNormConfig { groups, options: Options { track_running_stats: false, ..Options::new(channels, true) } }
    }

    /// Sets what is added to the variance.
    #[must_use]
    pub fn eps(self, eps: Binary64) -> (r: Self)
        ensures
            r == (GroupNormConfig { options: Options { eps, ..self.options }, ..self }),
    {
        GroupNormConfig { options: Options { eps, ..self.options }, ..self }
    }

    /// Sets whether the result is scaled and shifted.
    #[must_use]
    pub fn affine(self, affine: bool) -> (r: Self)
        ensures
            r == (GroupNormConfig { options: Options { affine, ..self.options }, ..self }),
    {
        GroupNormConfig { options: Options { affine, ..self.options }, ..self }
    }

    /// Sets whether the result is shifted.
    #[must_use]
    pub fn bias(self, bias: bool) -> (r: Self)
        ensures
            r == (GroupNormConfig { options: Options { bias, ..self.options }, ..self }),
    {
        GroupNormConfig { options: Options { bias, ..self.options }, ..self }
    }

    /// Why the settings are refused for parameters of an element type, if they are.
    pub open spec fn refusal(self, kind: Kind) -> Option<ErrorView> {
        if self.groups <= 0 || self.options.channels as int % self.groups as int != 0 {
            Some(setting_text("groups"@, "must be positive and divide the channel count"@))
        } else {
            self.options.parameters_refusal(kind)
        }
    }

    /// Checks the settings and tells which tensors the normalization keeps.
    pub fn build(self, kind: Kind) -> (r: Result<NormParameters>)
        ensures
            refusal(r) == self.refusal(kind),
            r matches Ok(p) ==> p == self.options.allocation(),
    {
        if self.groups <= 0 {
            return Err(setting_error("groups", "must be positive and divide the channel count"));
        }
        if !divides(self.groups, self.options.channels) {
            return Err(setting_error("groups", "must be positive and divide the channel count"));
        }
        if let Err(e) = self.options.check_parameters(kind) {
            return Err(e);
        }
        Ok(self.options.allocate())
    }

    /// Why an input is refused, if it is.
    pub open spec fn input_refusal(self, place: Placement, input: MetaView) -> Option<ErrorView> {
        let shape = input.shape;
        if place.refusal(input) is Some {
            place.refusal(input)
        } else if shape.len() < 2 || shape[1] != self.options.channels {
            Some(setting_text("group normalization input"@, "must have shape [N, configured_channels, ...]"@))
        } else if size_product(
            shape[0] as int,
            seq![(shape[1] as int / self.groups as int) as i64] + shape.skip(2),
            shape.len() - 1,
        ) == Some(1int) {
            Some(
                setting_text(
                    "group normalization input"@,
                    "requires more than one value per channel group across the batch"@,
                ),
            )
        } else {
            None
        }
    }

    /// Checks what the normalization is applied to.
    pub fn forward(&self, place: Placement, input: &TensorMeta) -> (r: Result<()>)
        requires
            self.groups > 0,
            self.options.channels > 0,
        ensures
            refusal(r) == self.input_refusal(place, input@),
    {
        if let Err(e) = place.validate_input(input) {
            return Err(e);
        }
        if input.shape.len() < 2 || input.shape[1] != self.options.channels {
            return Err(setting_error("group normalization input", "must have shape [N, configured_channels, ...]"));
        }
        proof {
            vstd::arithmetic::div_mod::lemma_div_is_ordered_by_denominator(
                input@.shape[1] as int,
                1,
                self.groups as int,
            );
            vstd::arithmetic::div_mod::lemma_div_pos_is_pos(input@.shape[1] as int, self.groups as int);
        }
        let share: i64 = input.shape[1] / self.groups;
        let tail = copy_tail(&input.shape, 2);
        let mut sizes: Vec<i64> = Vec::new();
        sizes.push(share);
        let mut i: usize = 0;
        assert(sizes@ =~= seq![share] + tail@.take(0));
        while i < tail.len()
            invariant
                i <= tail@.len(),
                sizes@ == seq![share] + tail@.take(i as int),
            decreases tail@.len() - i,
        {
            sizes.push(tail[i]);
            i += 1;
            assert(sizes@ =~= seq![share] + tail@.take(i as int));
        }
        assert(tail@.take(tail@.len() as int) =~= tail@);
        if let Some(count) = multiply(input.shape[0], &sizes) {
            if count == 1 {
                return Err(
                    setting_error(
                        "group normalization input",
                        "requires more than one value per channel group across the batch",
                    ),
                );
            }
        }
        Ok(())
    }
}

fn divides(groups: i64, channels: i64) -> (r: bool)
    requires
        groups > 0,
    ensures
        r == (channels as int % groups as int == 0),
{
    if channels >= 0 {
        channels % groups == 0
    } else {
        let size: i128 = -(channels as i128);
        proof {
            if size as int % groups as int == 0 {
                negation_divides(size as int, groups as int);
            }
            if channels as int % groups as int == 0 {
                negation_divides(channels as int, groups as int);
            }
        }
        size % groups as i128 == 0
    }
}

proof fn negation_divides(n: int, g: int)
    requires
        g > 0,
        n % g == 0,
    ensures
        (-n) % g == 0,
{
    let q = n / g;
    vstd::arithmetic::div_mod::lemma_fundamental_div_mod(n, g);
    assert(-n == (-q) * g + 0) by (nonlinear_arith)
        requires
            n == g * q,
    ;
    vstd::arithmetic::div_mod::lemma_fundamental_div_mod_converse(-n, g, -q, 0);
}

} // verus!
