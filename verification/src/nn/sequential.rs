//! Layers that are applied one after the other.
use super::functional::{dropout_refusal, layer_norm_settings_refusal, validate_dropout};
use super::layers::{fan_of, AllocationView, Allocation, ConvConfig, EmbeddingConfig, LayerNormConfig, LinearConfig};
use super::GeluApproximation;
use crate::error::{first_at, refusal, ErrorView, Result};
use crate::float::Binary64;
use crate::kind::{Device, Kind};
use crate::tensor::{device_refusal, ensure_device, TensorMeta};
use crate::text::{decimal, join, natural_text};
use vstd::prelude::*;

verus! {

/// A layer that is to be built.
#[derive(Debug)]
pub enum LayerSpec {
    Conv1d(ConvConfig<1>),
    Conv2d(ConvConfig<2>),
    Conv3d(ConvConfig<3>),
    LayerNorm(LayerNormConfig),
    Embedding(EmbeddingConfig),
    Linear(LinearConfig),
    Identity,
    ReLU,
    Gelu(GeluApproximation),
    Dropout(Binary64),
    Flatten(i64, i64),
}

/// What a convolution needs.
pub open spec fn conv_allocation<const D: usize>(config: ConvConfig<D>) -> AllocationView {
    let inputs = config.in_channels as int / config.groups as int;
    AllocationView {
        weight: Some(seq![config.out_channels, inputs as i64] + config.kernel_size@),
        bias: if config.bias {
            Some(seq![config.out_channels])
        } else {
            None
        },
        fan_in: fan_of(inputs, config.kernel_size@, D as int) as i64,
    }
}

impl LayerSpec {
    /// Why the layer is refused, if it is. Parameters are single-precision numbers.
    pub open spec fn refusal(self) -> Option<ErrorView> {
        match self {
            LayerSpec::Conv1d(config) => config.refusal(Kind::Float),
            LayerSpec::Conv2d(config) => config.refusal(Kind::Float),
            LayerSpec::Conv3d(config) => config.refusal(Kind::Float),
            LayerSpec::LayerNorm(config) => layer_norm_settings_refusal(config@.normalized_shape, config@.eps),
            LayerSpec::Embedding(config) => match config.built(Kind::Float) {
                Ok(_) => None,
                Err(e) => Some(e),
            },
            LayerSpec::Linear(config) => config.refusal(Kind::Float),
            LayerSpec::Dropout(probability) => dropout_refusal(probability),
            _ => None,
        }
    }

    /// What the layer needs.
    pub open spec fn allocation(self) -> AllocationView {
        match self {
            LayerSpec::Conv1d(config) => conv_allocation(config),
            LayerSpec::Conv2d(config) => conv_allocation(config),
            LayerSpec::Conv3d(config) => conv_allocation(config),
            LayerSpec::LayerNorm(config) => AllocationView {
                weight: if config@.elementwise_affine {
                    Some(config@.normalized_shape)
                } else {
                    None
                },
                bias: if config@.elementwise_affine && config@.bias {
                    Some(config@.normalized_shape)
                } else {
                    None
                },
                fan_in: 0,
            },
            LayerSpec::Embedding(config) => AllocationView {
                weight: Some(seq![config.num_embeddings, config.embedding_dim]),
                bias: None,
                fan_in: 0,
            },
            LayerSpec::Linear(config) => AllocationView {
                weight: Some(seq![config.out_features, config.in_features]),
                bias: if config.bias {
                    Some(seq![config.out_features])
                } else {
                    None
                },
                fan_in: config.in_features,
            },
            _ => AllocationView { weight: None, bias: None, fan_in: 0 },
        }
    }

    /// Checks the layer and tells what it needs.
    pub fn build(&self) -> (r: Result<Allocation>)
        ensures
            refusal(r) == self.refusal(),
            r matches Ok(a) ==> a@ == self.allocation(),
    {
        match self {
            LayerSpec::Conv1d(config) => config.build(Kind::Float),
            LayerSpec::Conv2d(config) => config.build(Kind::Float),
            LayerSpec::Conv3d(config) => config.build(Kind::Float),
            LayerSpec::LayerNorm(config) => config.build(Kind::Float),
            LayerSpec::Embedding(config) => {
                match config.build(Kind::Float) {
                    Ok(_) => {
                        let mut weight: Vec<i64> = Vec::new();
                        weight.push(config.num_embeddings);
                        weight.push(config.embedding_dim);
                        assert(weight@ =~= seq![config.num_embeddings, config.embedding_dim]);
                        Ok(Allocation { weight: Some(weight), bias: None, fan_in: 0 })
                    },
                    Err(e) => Err(e),
                }
            },
            LayerSpec::Linear(config) => config.build(Kind::Float),
            LayerSpec::Dropout(probability) => {
                match validate_dropout(*probability) {
                    Ok(()) => Ok(Allocation { weight: None, bias: None, fan_in: 0 }),
                    Err(e) => Err(e),
                }
            },
            _ => Ok(Allocation { weight: None, bias: None, fan_in: 0 }),
        }
    }
}

/// The checks of layers.
pub open spec fn layer_checks(layers: Seq<LayerSpec>) -> spec_fn(int) -> Option<ErrorView> {
    |i: int| layers[i].refusal()
}

/// The parameters of the first `n` layers: a layer is named by its place.
pub open spec fn parameters_of(layers: Seq<LayerSpec>, n: int) -> Seq<(Seq<char>, Seq<i64>)>
    decreases n,
{
    if n <= 0 {
        Seq::empty()
    } else {
        let a = layers[n - 1].allocation();
        let before = parameters_of(layers, n - 1);
        let weighted = match a.weight {
            Some(shape) => before.push((decimal(n - 1) + ".weight"@, shape)),
            None => before,
        };
        match a.bias {
            Some(shape) => weighted.push((decimal(n - 1) + ".bias"@, shape)),
            None => weighted,
        }
    }
}

/// The contents of named shapes.
pub open spec fn named_shapes(list: Seq<(String, Vec<i64>)>) -> Seq<(Seq<char>, Seq<i64>)> {
    Seq::new(list.len(), |i: int| (list[i].0@, list[i].1@))
}

/// Layers that are added one by one.
#[derive(Debug)]
pub struct SequentialBuilder {
    layers: Vec<LayerSpec>,
}

impl SequentialBuilder {
    /// The layers so far.
    pub closed spec fn list(self) -> Seq<LayerSpec> {
        self.layers@
    }

    /// No layers.
    pub fn new() -> (r: Self)
        ensures
            r.list() == Seq::<LayerSpec>::empty(),
    {
        SequentialBuilder { layers: Vec::new() }
    }

    /// Adds a layer.
    #[must_use]
    pub fn layer(self, layer: LayerSpec) -> (r: Self)
        ensures
            r.list() == self.list().push(layer),
    {
        let mut layers = self.layers;
        layers.push(layer);
        SequentialBuilder { layers }
    }

    /// Adds a convolution over one axis.
    #[must_use]
    pub fn conv1d(self, config: ConvConfig<1>) -> (r: Self)
        ensures
            r.list() == self.list().push(LayerSpec::Conv1d(config)),
    {
        self.layer(LayerSpec::Conv1d(config))
    }

    /// Adds a convolution over two axes.
    #[must_use]
    pub fn conv2d(self, config: ConvConfig<2>) -> (r: Self)
        ensures
            r.list() == self.list().push(LayerSpec::Conv2d(config)),
    {
        self.layer(LayerSpec::Conv2d(config))
    }

    /// Adds a convolution over three axes.
    #[must_use]
    pub fn conv3d(self, config: ConvConfig<3>) -> (r: Self)
        ensures
            r.list() == self.list().push(LayerSpec::Conv3d(config)),
    {
        self.layer(LayerSpec::Conv3d(config))
    }

    /// Adds a normalization over the last axes.
    #[must_use]
    pub fn layer_norm(self, config: LayerNormConfig) -> (r: Self)
        ensures
            r.list() == self.list().push(LayerSpec::LayerNorm(config)),
    {
        self.layer(LayerSpec::LayerNorm(config))
    }

    /// Adds a table of vectors.
    #[must_use]
    pub fn embedding(self, config: EmbeddingConfig) -> (r: Self)
        ensures
            r.list() == self.list().push(LayerSpec::Embedding(config)),
    {
        self.layer(LayerSpec::Embedding(config))
    }

    /// Adds a linear map with a bias.
    #[must_use]
    pub fn linear(self, in_features: i64, out_features: i64) -> (r: Self)
        ensures
            r.list() == self.list().push(LayerSpec::Linear(LinearConfig { in_features, out_features, bias: true })),
    {
        self.layer(LayerSpec::Linear(LinearConfig { in_features, out_features, bias: true }))
    }

    /// Adds a linear map.
    #[must_use]
    pub fn linear_config(self, config: LinearConfig) -> (r: Self)
        ensures
            r.list() == self.list().push(LayerSpec::Linear(config)),
    {
        self.layer(LayerSpec::Linear(config))
    }

    /// Adds a layer that passes its input on.
    #[must_use]
    pub fn identity(self) -> (r: Self)
        ensures
            r.list() == self.list().push(LayerSpec::Identity),
    {
        self.layer(LayerSpec::Identity)
    }

    /// Adds a layer that cuts negative elements off.
    #[must_use]
    pub fn relu(self) -> (r: Self)
        ensures
            r.list() == self.list().push(LayerSpec::ReLU),
    {
        self.layer(LayerSpec::ReLU)
    }

    /// Adds an exact Gaussian error linear unit.
    #[must_use]
    pub fn gelu(self) -> (r: Self)
        ensures
            r.list() == self.list().push(LayerSpec::Gelu(GeluApproximation::Exact)),
    {
        self.layer(LayerSpec::Gelu(GeluApproximation::Exact))
    }

    /// Adds a Gaussian error linear unit.
    #[must_use]
    pub fn gelu_approximate(self, approximation: GeluApproximation) -> (r: Self)
        ensures
            r.list() == self.list().push(LayerSpec::Gelu(approximation)),
    {
        self.layer(LayerSpec::Gelu(approximation))
    }

    /// Adds a layer that clears elements at random.
    #[must_use]
    pub fn dropout(self, probability: Binary64) -> (r: Self)
        ensures
            r.list() == self.list().push(LayerSpec::Dropout(probability)),
    {
        self.layer(LayerSpec::Dropout(probability))
    }

    /// Adds a layer that merges neighbouring axes.
    #[must_use]
    pub fn flatten(self, start_dim: i64, end_dim: i64) -> (r: Self)
        ensures
            r.list() == self.list().push(LayerSpec::Flatten(start_dim, end_dim)),
    {
        self.layer(LayerSpec::Flatten(start_dim, end_dim))
    }

    /// Checks all layers in order and tells what they need. The model starts out training.
    #[verifier::loop_isolation(false)]
    pub fn build(self, device: Device) -> (r: Result<Sequential>)
        ensures
            refusal(r) == first_at(0, self.list().len() as int, layer_checks(self.list())),
            r matches Ok(s) ==> s.list() == self.list() && s.place() == device && s.training() && s.shapes() == parameters_of(
                self.list(),
                self.list().len() as int,
            ),
    {
        let layers = self.layers;
        let ghost check = layer_checks(layers@);
        let ghost n = layers@.len() as int;
        let mut parameters: Vec<(String, Vec<i64>)> = Vec::new();
        assert(named_shapes(parameters@) =~= Seq::empty());
        let mut i: usize = 0;
        while i < layers.len()
            invariant
                check == layer_checks(layers@),
                n == layers@.len(),
                i <= n,
                named_shapes(parameters@) == parameters_of(layers@, i as int),
                first_at(0, n, check) == first_at(i as int, n, check),
            decreases n - i,
        {
            assert(check(i as int) == layers@[i as int].refusal());
            let allocation = match layers[i].build() {
                Ok(allocation) => allocation,
                Err(e) => {
                    return Err(e);
                },
            };
            let place = natural_text(i as u64);
            if let Some(shape) = allocation.weight {
                let name = join(place.as_str(), ".weight");
                let ghost before = parameters@;
                let ghost entry = (name@, shape@);
                parameters.push((name, shape));
                assert(named_shapes(parameters@) =~= named_shapes(before).push(entry));
            }
            if let Some(shape) = allocation.bias {
                let name = join(place.as_str(), ".bias");
                let ghost before = parameters@;
                let ghost entry = (name@, shape@);
                parameters.push((name, shape));
                assert(named_shapes(parameters@) =~= named_shapes(before).push(entry));
            }
            i += 1;
        }
        Ok(Sequential { layers, parameters, device, training: true })
    }
}

impl Default for SequentialBuilder {
    /// No layers.
    fn default() -> (r: Self)
        ensures
            r.list() == Seq::<LayerSpec>::empty(),
    {
        SequentialBuilder::new()
    }
}

/// Layers that are applied one after the other.
#[derive(Debug)]
pub struct Sequential {
    layers: Vec<LayerSpec>,
    parameters: Vec<(String, Vec<i64>)>,
    device: Device,
    training: bool,
}

impl Sequential {
    /// The layers.
    pub closed spec fn list(self) -> Seq<LayerSpec> {
        self.layers@
    }

    /// The names and shapes of the parameters.
    pub closed spec fn shapes(self) -> Seq<(Seq<char>, Seq<i64>)> {
        named_shapes(self.parameters@)
    }

    /// Where the model is stored.
    pub closed spec fn place(self) -> Device {
        self.device
    }

    /// Whether the model is training.
    pub closed spec fn training(self) -> bool {
        self.training
    }

    /// A model without layers yet.
    pub fn builder() -> (r: SequentialBuilder)
        ensures
            r.list() == Seq::<LayerSpec>::empty(),
    {
        SequentialBuilder::new()
    }

    /// Checks an input before the first layer is applied.
    pub fn forward(&self, input: &TensorMeta) -> (r: Result<()>)
        ensures
            refusal(r) == device_refusal("Sequential input"@, input@.device, self.place()),
    {
        ensure_device("Sequential input", input.device, self.device)
    }

    /// The layers.
    pub fn layers(&self) -> (r: &Vec<LayerSpec>)
        ensures
            r@ == self.list(),
    {
        &self.layers
    }

    /// The names and shapes of the parameters.
    pub fn parameters(&self) -> (r: &Vec<(String, Vec<i64>)>)
        ensures
            named_shapes(r@) == self.shapes(),
    {
        &self.parameters
    }

    /// Starts training.
    pub fn train(&mut self)
        ensures
            final(self).training(),
            final(self).list() == old(self).list(),
            final(self).shapes() == old(self).shapes(),
            final(self).place() == old(self).place(),
    {
        self.training = true;
    }

    /// Stops training.
    pub fn eval(&mut self)
        ensures
            !final(self).training(),
            final(self).list() == old(self).list(),
            final(self).shapes() == old(self).shapes(),
            final(self).place() == old(self).place(),
    {
        self.training = false;
    }

    /// Whether the model is training.
    pub fn is_training(&self) -> (r: bool)
        ensures
            r == self.training(),
    {
        self.training
    }

    /// Where the model is stored.
    pub fn device(&self) -> (r: Device)
        ensures
            r == self.place(),
    {
        self.device
    }

    /// Moves the model.
    pub fn to_device(&mut self, device: Device)
        ensures
            final(self).place() == device,
            final(self).training() == old(self).training(),
            final(self).list() == old(self).list(),
            final(self).shapes() == old(self).shapes(),
    {
        self.device = device;
    }
}

} // verus!
