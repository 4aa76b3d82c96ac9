//! Layers, losses and the shapes they take.
use rusttorch::error::RustTorchError;
use rusttorch::float::Binary64;
use rusttorch::kind::{Device, Kind};
use rusttorch::nn::functional::{cross_entropy, embedding, linear, mse_loss, validate_conv_config, validate_dropout};
use rusttorch::nn::layers::{EmbeddingConfig, LayerNormConfig, LinearConfig};
use rusttorch::nn::loss::{l1_loss, smooth_l1_loss, Reduction};
use rusttorch::nn::normalization::{BatchNormConfig, GroupNormConfig};
use rusttorch::nn::sequence::{
    plan_block, AttentionMask, BlockStep, Cell, MultiheadAttention, MultiheadAttentionConfig, RnnConfig, TransformerConfig,
};
use rusttorch::nn::sequential::Sequential;
use rusttorch::nn::spatial::MaxPool;
use rusttorch::nn::{Dropout, Gelu, GeluApproximation};
use rusttorch::tensor::TensorMeta;

fn number(value: f64) -> Binary64 {
    Binary64::from_bits(value.to_bits())
}

fn floats(shape: &[i64]) -> TensorMeta {
    TensorMeta::new(shape.to_vec(), Kind::Float, Device::Cpu)
}

fn integers(shape: &[i64]) -> TensorMeta {
    TensorMeta::new(shape.to_vec(), Kind::Int64, Device::Cpu)
}

#[test]
fn linear_layers_check_their_operands() {
    linear(&floats(&[5, 4]), &floats(&[3, 4]), Some(&floats(&[3]))).unwrap();
    assert!(linear(&floats(&[5, 4]), &floats(&[3, 5]), None).is_err());
    let mut elsewhere = floats(&[3, 4]);
    elsewhere.device = Device::Mps;
    assert!(matches!(linear(&floats(&[5, 4]), &elsewhere, None), Err(RustTorchError::DeviceMismatch { .. })));
    let allocation = LinearConfig::new(4, 3).build(Kind::Float).unwrap();
    assert_eq!(allocation.weight, Some(vec![3, 4]));
    assert_eq!(allocation.bias, Some(vec![3]));
    assert_eq!(allocation.fan_in, 4);
    assert_eq!(LinearConfig::new(4, 3).bias(false).build(Kind::Float).unwrap().bias, None);
    assert!(LinearConfig::new(4, 3).build(Kind::Int64).is_err());
}

#[test]
fn convolutions_check_their_settings() {
    validate_conv_config(4, 8, &[3, 3], &[1, 1], &[0, 0], &[1, 1], 2).unwrap();
    assert!(validate_conv_config(4, 9, &[3, 3], &[1, 1], &[0, 0], &[1, 1], 2).is_err());
    assert!(validate_conv_config(4, 8, &[0, 3], &[1, 1], &[0, 0], &[1, 1], 1).is_err());
    assert!(validate_conv_config(4, 8, &[3, 3], &[1, 1], &[-1, 0], &[1, 1], 1).is_err());
    MaxPool::<2>::new([2, 2]).unwrap().forward_with_indices(&floats(&[1, 3, 8, 8])).unwrap();
    assert!(MaxPool::<2>::new([0, 2]).is_err());
    assert!(MaxPool::<2>::new([2, 2]).unwrap().forward_with_indices(&floats(&[8])).is_err());
}

#[test]
fn embeddings_normalize_their_padding() {
    let config = EmbeddingConfig::new(10, 4).padding_idx(-1).build(Kind::Float).unwrap();
    assert_eq!(config.forward(&integers(&[2, 3]), &floats(&[10, 4])).unwrap(), 9);
    assert!(EmbeddingConfig::new(10, 4).padding_idx(10).build(Kind::Float).is_err());
    assert_eq!(embedding(&integers(&[2]), &floats(&[10, 4]), None, false, false).unwrap(), -1);
    assert!(embedding(&integers(&[2]), &floats(&[10, 4]), None, true, true).is_err());
    assert!(embedding(&integers(&[2]), &floats(&[10, 4]), Some(-11), false, false).is_err());
}

#[test]
fn losses_check_their_operands() {
    mse_loss(&floats(&[2, 3]), &floats(&[2, 3])).unwrap();
    let mut elsewhere = floats(&[2, 3]);
    elsewhere.device = Device::Cuda(0);
    assert!(mse_loss(&floats(&[2, 3]), &elsewhere).is_err());
    cross_entropy(&floats(&[2, 3]), &integers(&[2])).unwrap();
    assert!(cross_entropy(&floats(&[2, 3]), &elsewhere).is_err());
    l1_loss(&floats(&[2]), &floats(&[2]), Reduction::Mean).unwrap();
    assert!(l1_loss(&floats(&[2]), &floats(&[2]), Reduction::Other(7)).is_err());
    assert!(smooth_l1_loss(&floats(&[2]), &floats(&[2]), number(-1.0), Reduction::Sum).is_err());
}

#[test]
fn probabilities_and_names_are_checked() {
    validate_dropout(number(0.5)).unwrap();
    assert!(validate_dropout(number(1.5)).is_err());
    assert!(Dropout::new(number(f64::NAN)).is_err());
    assert_eq!(Dropout::new(number(0.25)).unwrap().probability(), number(0.25));
    assert_eq!(GeluApproximation::Tanh.as_str(), "tanh");
    assert_eq!(GeluApproximation::Exact.as_str(), "none");
    assert_eq!(Gelu::default(), Gelu::new(GeluApproximation::Exact));
}

#[test]
fn normalizations_list_their_parameters() {
    let batch = BatchNormConfig::<2>::new(4).track_running_stats(false).build(Kind::Float).unwrap();
    assert!(batch.weight && batch.bias && !batch.running_mean && !batch.num_batches_tracked);
    assert!(BatchNormConfig::<2>::new(0).build(Kind::Float).is_err());
    GroupNormConfig::new(2, 4).build(Kind::Float).unwrap();
    assert!(GroupNormConfig::new(3, 4).build(Kind::Float).is_err());
    let norm = LayerNormConfig::new(vec![3]);
    norm.forward(&floats(&[2, 3]), Some(&floats(&[3])), Some(&floats(&[3]))).unwrap();
    assert!(LayerNormConfig::new(vec![3]).eps(number(-1.0)).forward(&floats(&[2, 3]), None, None).is_err());
    assert!(LayerNormConfig::new(vec![]).build(Kind::Float).is_err());
}

#[test]
fn recurrent_layers_list_their_weights() {
    let config = RnnConfig::new(3, 5).num_layers(2).bidirectional(true);
    let lstm = config.build(Kind::Float, Cell::Lstm).unwrap();
    let weights = lstm.allocation();
    assert_eq!(weights.len(), 16);
    assert_eq!(weights[0], ("weight_ih_l0".to_string(), vec![20, 3]));
    let plan = lstm.input(&floats(&[7, 2, 3]), Kind::Float, Device::Cpu).unwrap();
    assert_eq!((plan.unbatched, plan.batch), (false, 2));
    assert_eq!(lstm.state(None, plan, 5, Kind::Float, Device::Cpu).unwrap(), vec![4, 2, 5]);
    assert!(lstm.input(&floats(&[7, 2, 4]), Kind::Float, Device::Cpu).is_err());
    assert!(RnnConfig::new(3, 5).projection(5).build(Kind::Float, Cell::Lstm).is_err());
    assert!(RnnConfig::new(3, 5).projection(2).build(Kind::Float, Cell::Gru).is_err());
}

#[test]
fn attention_divides_its_features() {
    let config = MultiheadAttentionConfig::new(8, 2);
    let attention = MultiheadAttention::new(config, Kind::Float, Device::Cpu).unwrap();
    assert!(MultiheadAttention::new(MultiheadAttentionConfig::new(8, 3), Kind::Float, Device::Cpu).is_err());
    let none = AttentionMask { attention: None, key_padding: None, causal: false };
    let x = floats(&[5, 2, 8]);
    let plan = attention.plan(&x, &x, &x, &none).unwrap();
    assert_eq!((plan.batch, plan.target, plan.source, plan.head_width), (2, 5, 5, 4));
    assert_eq!((plan.padded, plan.causal), (false, false));
    assert_eq!(plan.output_shape(), vec![5, 2, 8]);
    assert_eq!(plan.head_weights_shape(), vec![2, 2, 5, 5]);
    assert_eq!(plan.mean_weights_shape(), vec![2, 5, 5]);
    let first = MultiheadAttention::new(config.batch_first(true), Kind::Float, Device::Cpu).unwrap();
    let (query, key, padding) = (floats(&[2, 3, 8]), floats(&[2, 7, 8]), floats(&[2, 7]));
    let mask = AttentionMask { key_padding: Some(&padding), causal: true, ..AttentionMask::default() };
    let plan = first.plan(&query, &key, &key, &mask).unwrap();
    assert_eq!((plan.padded, plan.causal), (true, true));
    assert_eq!(plan.output_shape(), vec![2, 3, 8]);
    assert_eq!(plan.head_weights_shape(), vec![2, 2, 3, 7]);
    let (query, key) = (floats(&[3, 8]), floats(&[7, 8]));
    let plan = first.plan(&query, &key, &key, &none).unwrap();
    assert_eq!(plan.output_shape(), vec![3, 8]);
    assert_eq!(plan.head_weights_shape(), vec![2, 3, 7]);
    assert_eq!(plan.mean_weights_shape(), vec![3, 7]);
    assert!(attention.plan(&x, &floats(&[5, 3, 8]), &x, &none).is_err());
}

#[test]
fn transformer_blocks_are_ordered() {
    TransformerConfig::new(8, 2).build(Kind::Float).unwrap();
    assert!(TransformerConfig::new(8, 2).dim_feedforward(0).build(Kind::Float).is_err());
    assert_eq!(
        plan_block(false, false, false),
        vec![BlockStep::SelfAttention, BlockStep::NormalizeSum(0), BlockStep::FeedForward, BlockStep::NormalizeSum(1)]
    );
    let first = plan_block(true, true, true);
    assert_eq!(first[0], BlockStep::NormalizeBranch(0));
    assert!(first.contains(&BlockStep::CrossAttention));
}

#[test]
fn sequential_models_name_their_parameters() {
    let model = Sequential::builder().linear(4, 8).relu().dropout(number(0.5)).linear(8, 2).build(Device::Cpu).unwrap();
    let names: Vec<&str> = model.parameters().iter().map(|(name, _)| name.as_str()).collect();
    assert_eq!(names, vec!["0.weight", "0.bias", "3.weight", "3.bias"]);
    assert!(Sequential::builder().dropout(number(2.0)).build(Device::Cpu).is_err());
    model.forward(&floats(&[2, 4])).unwrap();
}
