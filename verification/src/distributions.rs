//! Distributions: which parameters and values they accept, and the shapes of what they give.
use crate::autograd::{fractional, is_fractional};
use crate::error::{either, refusal, setting_error, setting_text, ErrorView, Result, RustTorchError};
use crate::float::Binary64;
use crate::kind::{Device, Kind};
use crate::nn::functional::{each_at_least, one_for_each};
use crate::tensor::{broadcast_shape, copy_shape, is_broadcast, MetaView, TensorMeta};
use vstd::prelude::*;

verus! {

/// What is read of a tensor of parameters or values.
#[derive(Debug, PartialEq, Eq)]
pub struct Observed {
    /// Shape, element type and device.
    pub meta: TensorMeta,
    /// Whether it is sparse.
    pub sparse: bool,
    /// Whether all its elements are finite.
    pub finite: bool,
}

/// The content of an [`Observed`] tensor.
pub struct ObservedView {
    pub meta: MetaView,
    pub sparse: bool,
    pub finite: bool,
}

impl View for Observed {
    type V = ObservedView;

    open spec fn view(&self) -> ObservedView {
        ObservedView { meta: self.meta@, sparse: self.sparse, finite: self.finite }
    }
}

/// Why a tensor is refused, if it is.
pub open spec fn real_refusal(input: ObservedView) -> Option<ErrorView> {
    if !input.meta.defined {
        Some(setting_text("tensor"@, "must be defined"@))
    } else if !is_fractional(input.meta.kind) || input.sparse {
        Some(setting_text("tensor"@, "expected dense real floating-point values"@))
    } else if !input.finite {
        Some(setting_text("tensor"@, "values must be finite"@))
    } else {
        None
    }
}

fn check_real(input: &Observed) -> (r: Result<()>)
    ensures
        refusal(r) == real_refusal(input@),
{
    if !input.meta.defined {
        return Err(setting_error("tensor", "must be defined"));
    }
    if !fractional(input.meta.kind) || input.sparse {
        return Err(setting_error("tensor", "expected dense real floating-point values"));
    }
    if !input.finite {
        return Err(setting_error("tensor", "values must be finite"));
    }
    Ok(())
}

/// Why two tensors do not go together, if they do not.
pub open spec fn pair_refusal(left: ObservedView, right: ObservedView) -> Option<ErrorView> {
    either(
        real_refusal(left),
        either(
            real_refusal(right),
            if left.meta.kind != right.meta.kind || left.meta.device != right.meta.device {
                Some(setting_text("parameters"@, "dtype and device must match"@))
            } else {
                None
            },
        ),
    )
}

fn compatible(left: &Observed, right: &Observed) -> (r: Result<()>)
    ensures
        refusal(r) == pair_refusal(left@, right@),
{
    if let Err(e) = check_real(left) {
        return Err(e);
    }
    if let Err(e) = check_real(right) {
        return Err(e);
    }
    if left.meta.kind != right.meta.kind || left.meta.device != right.meta.device {
        return Err(setting_error("parameters", "dtype and device must match"));
    }
    Ok(())
}

/// Why a value is refused beside parameters of an element type on a device, if it is. The
/// parameters were checked before.
pub open spec fn value_refusal(value: ObservedView, kind: Kind, device: Device) -> Option<ErrorView> {
    either(
        real_refusal(value),
        if value.meta.kind != kind || value.meta.device != device {
            Some(setting_text("parameters"@, "dtype and device must match"@))
        } else {
            None
        },
    )
}

fn check_value(value: &Observed, kind: Kind, device: Device) -> (r: Result<()>)
    ensures
        refusal(r) == value_refusal(value@, kind, device),
{
    if let Err(e) = check_real(value) {
        return Err(e);
    }
    if value.meta.kind != kind || value.meta.device != device {
        return Err(setting_error("parameters", "dtype and device must match"));
    }
    Ok(())
}

/// Why the runtime refuses two shapes together, if it does.
pub open spec fn shapes_refusal(a: Seq<i64>, b: Seq<i64>) -> Option<ErrorView> {
    if exists|shape: Seq<i64>| #[trigger] is_broadcast(a, b, shape) {
        None
    } else {
        Some(ErrorView::IncompatibleShapes { left: a, right: b })
    }
}

fn common_shape(a: &[i64], b: &[i64]) -> (r: Result<Vec<i64>>)
    ensures
        refusal(r) == shapes_refusal(a@, b@),
        r matches Ok(shape) ==> is_broadcast(a@, b@, shape@),
{
    match broadcast_shape(a, b) {
        Some(shape) => Ok(shape),
        None => Err(RustTorchError::IncompatibleShapes { left: copy_shape(a), right: copy_shape(b) }),
    }
}

/// One shape behind another.
pub fn joined(first: &[i64], second: &[i64]) -> (r: Vec<i64>)
    ensures
        r@ == first@ + second@,
{
    let mut out = copy_shape(first);
    let mut i: usize = 0;
    assert(out@ =~= first@ + second@.take(0));
    while i < second.len()
        invariant
            i <= second@.len(),
            out@ == first@ + second@.take(i as int),
        decreases second@.len() - i,
    {
        out.push(second[i]);
        i += 1;
        assert(out@ =~= first@ + second@.take(i as int));
    }
    assert(second@.take(second@.len() as int) =~= second@);
    out
}

/// Why the shape of a sample is refused, if it is.
pub open spec fn sample_refusal(sample: Seq<i64>) -> Option<ErrorView> {
    if one_for_each(sample, sample.len(), 0) {
        None
    } else {
        Some(setting_text("sample_shape"@, "dimensions must be nonnegative"@))
    }
}

fn extended(sample: &[i64], batch: &[i64]) -> (r: Result<Vec<i64>>)
    ensures
        refusal(r) == sample_refusal(sample@),
        r matches Ok(shape) ==> shape@ == sample@ + batch@,
{
    if !each_at_least(sample, 0) {
        return Err(setting_error("sample_shape", "dimensions must be nonnegative"));
    }
    Ok(joined(sample, batch))
}

/// The distance from one to the next number of an element type, by which probabilities are kept
/// off zero and one.
pub fn epsilon(kind: Kind) -> (r: Binary64)
    ensures
        r.bits == (match kind {
            Kind::Double => 0x3cb0_0000_0000_0000u64,
            Kind::Half => 0x3f50_0000_0000_0000u64,
            Kind::BFloat16 => 0x3f80_0000_0000_0000u64,
            _ => 0x3e80_0000_0000_0000u64,
        }),
{
    match kind {
        Kind::Double => Binary64 { bits: 0x3cb0_0000_0000_0000 },
        Kind::Half => Binary64 { bits: 0x3f50_0000_0000_0000 },
        Kind::BFloat16 => Binary64 { bits: 0x3f80_0000_0000_0000 },
        _ => Binary64 { bits: 0x3e80_0000_0000_0000 },
    }
}

/// The least finite number of an element type, below which logarithms are cut off.
pub fn least(kind: Kind) -> (r: Binary64)
    ensures
        r.bits == (match kind {
            Kind::Double => 0xffef_ffff_ffff_ffffu64,
            Kind::Half => 0xc0ef_fc00_0000_0000u64,
            Kind::BFloat16 => 0xc7ef_e000_0000_0000u64,
            _ => 0xc7ef_ffff_e000_0000u64,
        }),
{
    match kind {
        Kind::Double => Binary64 { bits: 0xffef_ffff_ffff_ffff },
        Kind::Half => Binary64 { bits: 0xc0ef_fc00_0000_0000 },
        Kind::BFloat16 => Binary64 { bits: 0xc7ef_e000_0000_0000 },
        _ => Binary64 { bits: 0xc7ef_ffff_e000_0000 },
    }
}

/// A normal distribution for each element of a shape.
#[derive(Debug, PartialEq, Eq)]
pub struct Normal {
    shape: Vec<i64>,
    kind: Kind,
    device: Device,
}

/// What describes a family of distributions.
pub struct FamilyView {
    pub shape: Seq<i64>,
    pub kind: Kind,
    pub device: Device,
}

impl FamilyView {
    /// A tensor with one element for each distribution, behind another shape.
    pub open spec fn tensor(self, sample: Seq<i64>) -> MetaView {
        MetaView { defined: true, shape: sample + self.shape, kind: self.kind, device: self.device }
    }

    /// A tensor with one element for each value and each distribution, stretched to a common
    /// shape.
    pub open spec fn is_likelihood(self, value: Seq<i64>, t: MetaView) -> bool {
        &&& t.defined
        &&& is_broadcast(value, self.shape, t.shape)
        &&& t.kind == self.kind
        &&& t.device == self.device
    }
}

impl View for Normal {
    type V = FamilyView;

    closed spec fn view(&self) -> FamilyView {
        FamilyView { shape: self.shape@, kind: self.kind, device: self.device }
    }
}

impl Normal {
    /// Distributions with locations and scales, which are stretched to their common shape.
    /// `positive` tells whether all scales are.
    pub fn new(location: &Observed, scale: &Observed, positive: bool) -> (r: Result<Self>)
        ensures
            refusal(r) == either(
                pair_refusal(location@, scale@),
                either(
                    if positive {
                        None
                    } else {
                        Some(setting_text("scale"@, "must be positive"@))
                    },
                    shapes_refusal(location@.meta.shape, scale@.meta.shape),
                ),
            ),
            r matches Ok(d) ==> {
                &&& is_broadcast(location@.meta.shape, scale@.meta.shape, d@.shape)
                &&& d@.kind == location@.meta.kind
                &&& d@.device == location@.meta.device
            },
    {
        if let Err(e) = compatible(location, scale) {
            return Err(e);
        }
        if !positive {
            return Err(setting_error("scale", "must be positive"));
        }
        match common_shape(location.meta.shape.as_slice(), scale.meta.shape.as_slice()) {
            Ok(shape) => Ok(Normal { shape, kind: location.meta.kind, device: location.meta.device }),
            Err(e) => Err(e),
        }
    }

    /// The common shape.
    pub fn batch_shape(&self) -> (r: Vec<i64>)
        ensures
            r@ == self@.shape,
    {
        copy_shape(self.shape.as_slice())
    }

    fn tensor(&self, shape: Vec<i64>) -> (r: TensorMeta)
        ensures
            r@ == (MetaView { defined: true, shape: shape@, kind: self@.kind, device: self@.device }),
    {
        TensorMeta::new(shape, self.kind, self.device)
    }

    /// What describes the means.
    pub fn mean(&self) -> (r: TensorMeta)
        ensures
            r@ == self@.tensor(Seq::empty()),
    {
        assert(Seq::<i64>::empty() + self@.shape =~= self@.shape);
        self.tensor(self.batch_shape())
    }

    /// What describes the variances.
    pub fn variance(&self) -> (r: TensorMeta)
        ensures
            r@ == self@.tensor(Seq::empty()),
    {
        self.mean()
    }

    /// What describes a sample that is not differentiated.
    pub fn sample(&self, sample_shape: &[i64]) -> (r: Result<TensorMeta>)
        ensures
            refusal(r) == sample_refusal(sample_shape@),
            r matches Ok(t) ==> t@ == self@.tensor(sample_shape@),
    {
        self.rsample(sample_shape)
    }

    /// What describes a sample that is differentiated by the parameters.
    pub fn rsample(&self, sample_shape: &[i64]) -> (r: Result<TensorMeta>)
        ensures
            refusal(r) == sample_refusal(sample_shape@),
            r matches Ok(t) ==> t@ == self@.tensor(sample_shape@),
    {
        match extended(sample_shape, self.shape.as_slice()) {
            Ok(shape) => Ok(self.tensor(shape)),
            Err(e) => Err(e),
        }
    }

    /// Checks a value of which the density is taken, and describes the logarithms of the
    /// densities.
    pub fn log_prob(&self, value: &Observed) -> (r: Result<TensorMeta>)
        ensures
            refusal(r) == either(
                value_refusal(value@, self@.kind, self@.device),
                shapes_refusal(value@.meta.shape, self@.shape),
            ),
            r matches Ok(t) ==> self@.is_likelihood(value@.meta.shape, t@),
    {
        if let Err(e) = check_value(value, self.kind, self.device) {
            return Err(e);
        }
        match common_shape(value.meta.shape.as_slice(), self.shape.as_slice()) {
            Ok(shape) => Ok(self.tensor(shape)),
            Err(e) => Err(e),
        }
    }

    /// What describes the entropies.
    pub fn entropy(&self) -> (r: TensorMeta)
        ensures
            r@ == self@.tensor(Seq::empty()),
    {
        self.mean()
    }
}

/// A distribution over zero and one for each element of a shape.
#[derive(Debug, PartialEq, Eq)]
pub struct Bernoulli {
    shape: Vec<i64>,
    kind: Kind,
    device: Device,
}

impl View for Bernoulli {
    type V = FamilyView;

    closed spec fn view(&self) -> FamilyView {
        FamilyView { shape: self.shape@, kind: self.kind, device: self.device }
    }
}

impl Bernoulli {
    /// Distributions with probabilities of one. `in_unit` tells whether all lie between zero and
    /// one.
    pub fn from_probs(probabilities: &Observed, in_unit: bool) -> (r: Result<Self>)
        ensures
            refusal(r) == either(
                real_refusal(probabilities@),
                if in_unit {
                    None
                } else {
                    Some(setting_text("probabilities"@, "must be in [0, 1]"@))
                },
            ),
            r matches Ok(d) ==> d@ == (FamilyView {
                shape: probabilities@.meta.shape,
                kind: probabilities@.meta.kind,
                device: probabilities@.meta.device,
            }),
    {
        if let Err(e) = check_real(probabilities) {
            return Err(e);
        }
        if !in_unit {
            return Err(setting_error("probabilities", "must be in [0, 1]"));
        }
        Ok(
            Bernoulli {
                shape: copy_shape(probabilities.meta.shape.as_slice()),
                kind: probabilities.meta.kind,
                device: probabilities.meta.device,
            },
        )
    }

    /// Distributions with logarithms of odds.
    pub fn from_logits(logits: &Observed) -> (r: Result<Self>)
        ensures
            refusal(r) == real_refusal(logits@),
            r matches Ok(d) ==> d@ == (FamilyView {
                shape: logits@.meta.shape,
                kind: logits@.meta.kind,
                device: logits@.meta.device,
            }),
    {
        if let Err(e) = check_real(logits) {
            return Err(e);
        }
        Ok(
            Bernoulli {
                shape: copy_shape(logits.meta.shape.as_slice()),
                kind: logits.meta.kind,
                device: logits.meta.device,
            },
        )
    }

    /// The shape.
    pub fn batch_shape(&self) -> (r: Vec<i64>)
        ensures
            r@ == self@.shape,
    {
        copy_shape(self.shape.as_slice())
    }

    /// What describes the probabilities of one.
    pub fn probabilities(&self) -> (r: TensorMeta)
        ensures
            r@ == self@.tensor(Seq::empty()),
    {
        assert(Seq::<i64>::empty() + self@.shape =~= self@.shape);
        TensorMeta::new(self.batch_shape(), self.kind, self.device)
    }

    /// What describes a sample.
    pub fn sample(&self, sample_shape: &[i64]) -> (r: Result<TensorMeta>)
        ensures
            refusal(r) == sample_refusal(sample_shape@),
            r matches Ok(t) ==> t@ == self@.tensor(sample_shape@),
    {
        match extended(sample_shape, self.shape.as_slice()) {
            Ok(shape) => Ok(TensorMeta::new(shape, self.kind, self.device)),
            Err(e) => Err(e),
        }
    }

    /// Checks a value of which the probability is taken, and describes the logarithms of the
    /// probabilities. `binary` tells whether all its elements are zero or one.
    pub fn log_prob(&self, value: &Observed, binary: bool) -> (r: Result<TensorMeta>)
        ensures
            refusal(r) == either(
                value_refusal(value@, self@.kind, self@.device),
                either(
                    if binary {
                        None
                    } else {
                        Some(setting_text("value"@, "binary observations must be zero or one"@))
                    },
                    shapes_refusal(value@.meta.shape, self@.shape),
                ),
            ),
            r matches Ok(t) ==> self@.is_likelihood(value@.meta.shape, t@),
    {
        if let Err(e) = check_value(value, self.kind, self.device) {
            return Err(e);
        }
        if !binary {
            return Err(setting_error("value", "binary observations must be zero or one"));
        }
        match common_shape(value.meta.shape.as_slice(), self.shape.as_slice()) {
            Ok(shape) => Ok(TensorMeta::new(shape, self.kind, self.device)),
            Err(e) => Err(e),
        }
    }

    /// What describes the entropies.
    pub fn entropy(&self) -> (r: TensorMeta)
        ensures
            r@ == self@.tensor(Seq::empty()),
    {
        self.probabilities()
    }
}

/// A distribution over classes for each element of a shape. The last axis of the parameters
/// runs over the classes.
#[derive(Debug, PartialEq, Eq)]
pub struct Categorical {
    shape: Vec<i64>,
    kind: Kind,
    device: Device,
}

/// Why parameters are refused, if they are.
pub open spec fn classes_refusal(input: ObservedView) -> Option<ErrorView> {
    either(
        real_refusal(input),
        if input.meta.shape.len() == 0 || input.meta.shape.last() == 0 {
            Some(setting_text("classes"@, "expected a nonempty final class axis"@))
        } else {
            None
        },
    )
}

fn check_classes(input: &Observed) -> (r: Result<()>)
    ensures
        refusal(r) == classes_refusal(input@),
{
    if let Err(e) = check_real(input) {
        return Err(e);
    }
    if input.meta.shape.len() == 0 || input.meta.shape[input.meta.shape.len() - 1] == 0 {
        return Err(setting_error("classes", "expected a nonempty final class axis"));
    }
    Ok(())
}

/// What describes a family of distributions over classes.
pub struct ClassesView {
    /// The shape of the parameters.
    pub shape: Seq<i64>,
    pub kind: Kind,
    pub device: Device,
}

impl View for Categorical {
    type V = ClassesView;

    closed spec fn view(&self) -> ClassesView {
        ClassesView { shape: self.shape@, kind: self.kind, device: self.device }
    }
}

/// The number of samples of the first `n` axes, unless it leaves the range of numbers.
pub open spec fn sample_count(sample: Seq<i64>, n: int) -> Option<int>
    decreases n,
{
    if n <= 0 {
        Some(1)
    } else {
        match sample_count(sample, n - 1) {
            Some(count) => if count * sample[n - 1] <= i64::MAX {
                Some(count * sample[n - 1])
            } else {
                None
            },
            None => None,
        }
    }
}

proof fn sample_count_fails(sample: Seq<i64>, n: int, m: int)
    requires
        0 <= n <= m,
        sample_count(sample, n) is None,
    ensures
        sample_count(sample, m) is None,
    decreases m - n,
{
    if n < m {
        sample_count_fails(sample, n + 1, m);
    }
}

fn count_samples(sample: &[i64]) -> (r: Option<i64>)
    requires
        one_for_each(sample@, sample@.len(), 0),
    ensures
        match (r, sample_count(sample@, sample@.len() as int)) {
            (Some(a), Some(b)) => a == b && a >= 0,
            (None, None) => true,
            _ => false,
        },
{
    let mut total: i64 = 1;
    let mut i: usize = 0;
    while i < sample.len()
        invariant
            one_for_each(sample@, sample@.len(), 0),
            i <= sample@.len(),
            total >= 0,
            sample_count(sample@, i as int) == Some(total as int),
        decreases sample@.len() - i,
    {
        proof {
            assert(sample@[i as int] >= 0);
            assert(total * sample@[i as int] >= 0) by (nonlinear_arith)
                requires
                    total >= 0,
                    sample@[i as int] >= 0,
            ;
            if sample_count(sample@, i + 1) is None {
                sample_count_fails(sample@, i + 1, sample@.len() as int);
            }
        }
        match total.checked_mul(sample[i]) {
            Some(next) => {
                total = next;
            },
            None => {
                return None;
            },
        }
        i += 1;
    }
    Some(total)
}

/// How classes are drawn.
#[derive(Debug, PartialEq, Eq)]
pub struct Draw {
    /// The shape of the result.
    pub shape: Vec<i64>,
    /// How often each distribution is drawn from. For zero the result is empty.
    pub count: i64,
}

impl Categorical {
    /// The distributions are not empty.
    pub open spec fn wf(self) -> bool {
        self@.shape.len() > 0
    }

    /// Distributions with unnormalized logarithms of probabilities.
    pub fn from_logits(logits: &Observed) -> (r: Result<Self>)
        ensures
            refusal(r) == classes_refusal(logits@),
            r matches Ok(d) ==> d.wf() && d@ == (ClassesView {
                shape: logits@.meta.shape,
                kind: logits@.meta.kind,
                device: logits@.meta.device,
            }),
    {
        if let Err(e) = check_classes(logits) {
            return Err(e);
        }
        Ok(
            Categorical {
                shape: copy_shape(logits.meta.shape.as_slice()),
                kind: logits.meta.kind,
                device: logits.meta.device,
            },
        )
    }

    /// Distributions with unnormalized probabilities. `nonnegative` tells whether none is
    /// negative, and `summable` whether the sum of each row is finite and positive.
    pub fn from_probs(probabilities: &Observed, nonnegative: bool, summable: bool) -> (r: Result<Self>)
        ensures
            refusal(r) == either(
                classes_refusal(probabilities@),
                if nonnegative && summable {
                    None
                } else {
                    Some(
                        setting_text(
                            "probabilities"@,
                            "each row needs nonnegative weights with a finite positive sum"@,
                        ),
                    )
                },
            ),
            r matches Ok(d) ==> d.wf() && d@ == (ClassesView {
                shape: probabilities@.meta.shape,
                kind: probabilities@.meta.kind,
                device: probabilities@.meta.device,
            }),
    {
        if let Err(e) = check_classes(probabilities) {
            return Err(e);
        }
        if !nonnegative || !summable {
            return Err(
                setting_error("probabilities", "each row needs nonnegative weights with a finite positive sum"),
            );
        }
        Ok(
            Categorical {
                shape: copy_shape(probabilities.meta.shape.as_slice()),
                kind: probabilities.meta.kind,
                device: probabilities.meta.device,
            },
        )
    }

    /// The shape of the parameters without the classes.
    pub fn batch_shape(&self) -> (r: Vec<i64>)
        requires
            self.wf(),
        ensures
            r@ == self@.shape.drop_last(),
    {
        let mut shape = copy_shape(self.shape.as_slice());
        let _ = shape.pop();
        shape
    }

    /// What describes the probabilities of the classes.
    pub fn probabilities(&self) -> (r: TensorMeta)
        ensures
            r@ == (MetaView { defined: true, shape: self@.shape, kind: self@.kind, device: self@.device }),
    {
        TensorMeta::new(copy_shape(self.shape.as_slice()), self.kind, self.device)
    }

    /// The number of classes.
    pub fn classes(&self) -> (r: i64)
        requires
            self.wf(),
        ensures
            r == self@.shape.last(),
    {
        self.shape[self.shape.len() - 1]
    }

    /// Plans how classes are drawn.
    pub fn sample(&self, sample_shape: &[i64]) -> (r: Result<Draw>)
        requires
            self.wf(),
        ensures
            refusal(r) == either(
                sample_refusal(sample_shape@),
                if sample_count(sample_shape@, sample_shape@.len() as int) is None {
                    Some(setting_text("sample_shape"@, "element count overflow"@))
                } else {
                    None
                },
            ),
            r matches Ok(d) ==> d.shape@ == sample_shape@ + self@.shape.drop_last() && sample_count(
                sample_shape@,
                sample_shape@.len() as int,
            ) == Some(d.count as int),
    {
        let batch = self.batch_shape();
        let shape = match extended(sample_shape, batch.as_slice()) {
            Ok(shape) => shape,
            Err(e) => {
                return Err(e);
            },
        };
        match count_samples(sample_shape) {
            Some(count) => Ok(Draw { shape, count }),
            None => Err(setting_error("sample_shape", "element count overflow")),
        }
    }

    /// Checks indices of classes of which the probability is taken, and describes the
    /// logarithms of the probabilities. `in_range` tells whether all of them are classes.
    pub fn log_prob(&self, value: &TensorMeta, in_range: bool) -> (r: Result<TensorMeta>)
        requires
            self.wf(),
        ensures
            refusal(r) == (if !value@.defined || value@.kind != Kind::Int64 || value@.device != self@.device {
                Some(setting_text("value"@, "expected defined Int64 indices on the parameter device"@))
            } else if !in_range {
                Some(setting_text("value"@, "class index out of range"@))
            } else {
                shapes_refusal(value@.shape, self@.shape.drop_last())
            }),
            r matches Ok(t) ==> {
                &&& t@.defined
                &&& is_broadcast(value@.shape, self@.shape.drop_last(), t@.shape)
                &&& t@.kind == self@.kind
                &&& t@.device == self@.device
            },
    {
        if !value.defined || value.kind != Kind::Int64 || value.device != self.device {
            return Err(setting_error("value", "expected defined Int64 indices on the parameter device"));
        }
        if !in_range {
            return Err(setting_error("value", "class index out of range"));
        }
        let batch = self.batch_shape();
        match common_shape(value.shape.as_slice(), batch.as_slice()) {
            Ok(shape) => Ok(TensorMeta::new(shape, self.kind, self.device)),
            Err(e) => Err(e),
        }
    }

    /// What describes the entropies.
    pub fn entropy(&self) -> (r: TensorMeta)
        requires
            self.wf(),
        ensures
            r@ == (MetaView {
                defined: true,
                shape: self@.shape.drop_last(),
                kind: self@.kind,
                device: self@.device,
            }),
    {
        TensorMeta::new(self.batch_shape(), self.kind, self.device)
    }
}

/// Samples of samples have the shape of samples: drawing along two shapes one after the other
/// gives what drawing along both at once gives.
pub proof fn samples_nest(family: FamilyView, outer: Seq<i64>, inner: Seq<i64>)
    ensures
        family.tensor(outer + inner).shape == outer + family.tensor(inner).shape,
{
    assert(family.tensor(outer + inner).shape =~= outer + family.tensor(inner).shape);
}

} // verus!
