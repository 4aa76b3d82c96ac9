//! Optimizers, schedules, loss scaling and gradients.
use rusttorch::amp::{autocast_for, nearest, GradScaler, GradScalerConfig, StepAction};
use rusttorch::autograd::{check_participation, grad, hessian, jacobian_rows, scalar, vjp, GradOptions, Preparation, Variable};
use rusttorch::distributions::{Bernoulli, Categorical, Normal, Observed};
use rusttorch::error::RustTorchError;
use rusttorch::float::Binary64;
use rusttorch::interop::{load_state_dict, load_state_dict_with_mapping, require_safetensors, LoadOptions, StateDictMapping};
use rusttorch::kind::{Device, DeviceSpec, Kind};
use rusttorch::names::NameMap;
use rusttorch::optim::schedule::{CosineAnnealingLr, ExponentialLr, MultiStepLr, ReduceLrOnPlateau, StepLr};
use rusttorch::optim::state::{Live, Optimizer, Variable as Parameter};
use rusttorch::optim::{Adam, AdamW, RmsProp, Sgd};
use rusttorch::product::multiply;
use rusttorch::tensor::{broadcast_shape, TensorMeta, TensorSpec};

fn number(value: f64) -> Binary64 {
    Binary64::from_bits(value.to_bits())
}

fn meta(shape: &[i64], kind: Kind) -> TensorMeta {
    TensorMeta::new(shape.to_vec(), kind, Device::Cpu)
}

fn optimizer() -> Optimizer {
    let settings = Sgd::builder().learning_rate(number(0.5)).build().unwrap();
    let mut optimizer = Optimizer::new(settings).unwrap();
    let parameter = |name: &str, group: usize, identity: u64| Parameter {
        meta: meta(&[2], Kind::Float),
        sparse: false,
        group,
        identity,
        names: vec![name.to_string()],
    };
    optimizer.sync_parameters(&vec![parameter("a", 0, 1), parameter("b", 3, 2)]).unwrap();
    optimizer
}

#[test]
fn optimizers_keep_their_groups() {
    let mut optimizer = optimizer();
    let groups = optimizer.parameter_groups();
    assert_eq!(groups.len(), 2);
    assert_eq!((groups[1].id, groups[1].parameters.clone()), (3, vec!["b".to_string()]));
    assert_eq!(groups[0].learning_rate, number(0.5));
    optimizer.set_group_learning_rate(3, number(0.25)).unwrap();
    assert_eq!(optimizer.groups()[1].learning_rate, number(0.25));
    assert!(optimizer.set_group_learning_rate(7, number(0.25)).is_err());
    assert!(optimizer.set_learning_rate(number(-1.0)).is_err());
    optimizer.set_learning_rate(number(0.125)).unwrap();
    assert_eq!(optimizer.groups()[0].learning_rate, number(0.125));
    let mut live = NameMap::new();
    for name in ["a", "b"] {
        live.insert(name.to_string(), Live { meta: meta(&[2], Kind::Float), gradient: None });
    }
    optimizer.check_step(&live).unwrap();
    optimizer.finish_step(&live);
    assert_eq!(optimizer.completed_steps(), 1);
    let mut moments = NameMap::new();
    for name in ["a", "b"] {
        moments.insert(name.to_string(), NameMap::new());
    }
    let state = optimizer.state_dict(&live, &moments).unwrap();
    assert_eq!(state.schema_version, 1);
    let mut again = self::optimizer();
    again.load_state_dict(&state, &live).unwrap();
    assert_eq!(again.completed_steps(), 1);
}

#[test]
fn settings_are_checked_when_built() {
    Adam::builder().build().unwrap();
    AdamW::builder().weight_decay(number(0.01)).build().unwrap();
    RmsProp::builder().centered(true).build().unwrap();
    assert!(RmsProp::builder().alpha(number(f64::NAN)).build().is_err());
    assert!(Adam::builder().eps(number(-1.0)).build().is_err());
}

#[test]
fn schedules_apply_the_rates_they_are_given() {
    let mut optimizer = optimizer();
    let mut step = StepLr::new(&optimizer, 2, number(0.1)).unwrap();
    let scaled = || vec![number(0.05), number(0.05)];
    step.step(&mut optimizer, scaled()).unwrap();
    assert_eq!(step.epoch(), 1);
    assert_eq!(step.last_learning_rates()[0], number(0.5));
    step.step(&mut optimizer, scaled()).unwrap();
    assert_eq!(step.last_learning_rates()[0], number(0.05));
    assert_eq!(optimizer.groups()[1].learning_rate, number(0.05));
    assert!(StepLr::new(&optimizer, 0, number(0.1)).is_err());

    let mut exponential = ExponentialLr::new(&optimizer, number(0.5)).unwrap();
    exponential.step(&mut optimizer, vec![number(0.025), number(0.025)]).unwrap();
    assert_eq!(optimizer.groups()[0].learning_rate, number(0.025));
    assert!(exponential.step(&mut optimizer, vec![number(-1.0), number(0.0)]).is_err());
    assert_eq!(exponential.epoch(), 1);

    assert_eq!(MultiStepLr::decays_at(&vec![2, 4, 4], 4), 2);
    assert_eq!(MultiStepLr::decays_at(&vec![2, 4, 4], 1), 0);
    CosineAnnealingLr::new(&optimizer, 4, number(0.0)).unwrap();
    assert!(CosineAnnealingLr::at_turn(4, 5));
}

#[test]
fn plateaus_reduce_after_patience() {
    let mut optimizer = optimizer();
    let mut plateau = ReduceLrOnPlateau::new(&optimizer).unwrap().patience(1);
    let reduced = || vec![number(0.05), number(0.05)];
    plateau.step(&mut optimizer, number(1.0), number(f64::INFINITY), reduced()).unwrap();
    for _ in 0..2 {
        plateau.step(&mut optimizer, number(2.0), number(0.9999), reduced()).unwrap();
    }
    assert_eq!(optimizer.groups()[0].learning_rate, number(0.05));
    assert_eq!(plateau.epoch(), 3);
    assert!(ReduceLrOnPlateau::new(&optimizer).unwrap().factor(number(1.0)).is_err());
}

#[test]
fn loss_scaling_grows_and_backs_off() {
    assert_eq!(nearest(number(0.1)), number(0.1f32 as f64));
    assert!(autocast_for(Device::Cpu, true).is_err());
    assert_eq!(autocast_for(Device::Cpu, false).unwrap(), None);
    assert_eq!(autocast_for(Device::Cuda(1), true).unwrap(), Some(DeviceSpec::Cuda(1)));
    assert!(GradScalerConfig { growth_factor: number(1.0), ..GradScalerConfig::default() }.build().is_err());
    let mut scaler = GradScalerConfig { growth_interval: 1, ..GradScalerConfig::default() }.build().unwrap();
    let before = scaler.get_scale();
    assert_eq!(before, number(65536.0));
    assert_eq!(scaler.step(9).unwrap(), StepAction::Unscale);
    scaler.unscale(9, &vec![true, true]).unwrap();
    assert_eq!(scaler.step(9).unwrap(), StepAction::Apply);
    assert!(scaler.step(8).is_err());
    assert_eq!(scaler.finish_step(), Some(true));
    scaler.update().unwrap();
    assert_eq!(scaler.get_scale(), number(131072.0));
    scaler.unscale(9, &vec![false]).unwrap();
    assert_eq!(scaler.step(9).unwrap(), StepAction::Skip);
    assert_eq!(scaler.finish_step(), Some(false));
    scaler.update().unwrap();
    assert_eq!(scaler.get_scale(), number(65536.0));
    let state = scaler.state_dict().unwrap();
    let mut other = GradScaler::default();
    other.load_state_dict(&state).unwrap();
    assert_eq!(other.get_scale(), number(65536.0));
}

#[test]
fn the_scale_moves_only_with_the_steps() {
    let factor = |scaler: &GradScaler| f64::from_bits(scaler.get_scale().bits);
    let mut scaler = GradScalerConfig { growth_interval: 2, ..GradScalerConfig::default() }.build().unwrap();
    let mut scales = Vec::new();
    for applied in [true, true, false, true, false, true, true] {
        scaler.unscale(9, &vec![applied]).unwrap();
        assert_eq!(scaler.finish_step(), Some(applied));
        scaler.update().unwrap();
        scales.push(factor(&scaler));
    }
    assert_eq!(scales, vec![65536.0, 131072.0, 65536.0, 65536.0, 32768.0, 32768.0, 65536.0]);
    let huge = GradScalerConfig { initial_scale: number(f32::MAX as f64), growth_interval: 1, ..GradScalerConfig::default() };
    let mut scaler = huge.build().unwrap();
    scaler.unscale(9, &vec![true]).unwrap();
    scaler.finish_step();
    scaler.update().unwrap();
    assert_eq!(factor(&scaler), f32::MAX as f64);
    let tiny = GradScalerConfig { initial_scale: number(f32::MIN_POSITIVE as f64), ..GradScalerConfig::default() };
    let mut scaler = tiny.build().unwrap();
    scaler.unscale(9, &vec![false]).unwrap();
    scaler.finish_step();
    scaler.update().unwrap();
    assert_eq!(factor(&scaler), f32::MIN_POSITIVE as f64);
}

#[test]
fn products_are_rounded_like_the_machine_does() {
    let numbers = [
        1.0,
        1.5,
        0.1,
        65536.0,
        f64::MIN_POSITIVE,
        f64::MAX,
        f64::EPSILON,
        1.0 + f64::EPSILON,
        2.0 - f64::EPSILON,
        1e-320,
        5e-324,
        3e-200,
        7e199,
        std::f64::consts::PI,
        f32::MAX as f64,
        f32::MIN_POSITIVE as f64,
    ];
    for a in numbers.into_iter().filter(|a| a.is_normal()) {
        for b in numbers {
            assert_eq!(multiply(number(a), number(b)), number(a * b), "{a:e} times {b:e}");
        }
    }
    let mut seed: u64 = 7;
    let mut next = || {
        seed = seed.wrapping_mul(6364136223846793005).wrapping_add(1442695040888963407);
        f64::from_bits((seed >> 1) % 0x7ff0_0000_0000_0000)
    };
    for _ in 0..20000 {
        let (a, b) = (next(), next());
        if a.is_normal() && b > 0.0 {
            assert_eq!(multiply(number(a), number(b)), number(a * b), "{a:e} times {b:e}");
        }
    }
}

#[test]
fn uneven_factors_are_rounded_to_single_precision() {
    let config = GradScalerConfig {
        initial_scale: number(1000.0),
        growth_factor: number(1.1),
        backoff_factor: number(0.3),
        growth_interval: 1,
        enabled: true,
    };
    let mut scaler = config.build().unwrap();
    let mut expected = 1000.0f64;
    for applied in [true, true, false, true, false, false, true, true, true] {
        scaler.unscale(1, &vec![applied]).unwrap();
        scaler.finish_step();
        scaler.update().unwrap();
        expected = ((expected * if applied { 1.1 } else { 0.3 }) as f32) as f64;
        assert_eq!(scaler.get_scale(), number(expected));
    }
    assert!(scaler.update().is_err(), "a step has to be completed first");
}

fn variable(shape: &[i64], requires_grad: bool) -> Variable {
    Variable { meta: meta(shape, Kind::Float), sparse: false, requires_grad }
}

#[test]
fn gradients_need_scalars_and_tracked_inputs() {
    scalar(&variable(&[], true)).unwrap();
    assert!(scalar(&variable(&[2], true)).is_err());
    let options = grad(&variable(&[], true), &vec![variable(&[2], true)], GradOptions { retain_graph: false, create_graph: true });
    assert!(options.unwrap().retain_graph);
    assert!(grad(&variable(&[], true), &vec![variable(&[2], false)], GradOptions::default()).is_err());
    check_participation(&vec![true]).unwrap();
    assert!(check_participation(&vec![false]).is_err());
    vjp(&variable(&[3], true), &variable(&[2], true), &variable(&[3], false)).unwrap();
    assert!(vjp(&variable(&[3], true), &variable(&[2], true), &variable(&[2], false)).is_err());
    assert_eq!(hessian(&variable(&[2], true), true).unwrap(), Preparation::Reuse);
    let plan = jacobian_rows(&variable(&[2], true), &variable(&[3], true), 2, false).unwrap();
    assert_eq!(plan.shape, vec![2, 3]);
    assert_eq!(plan.keep, vec![true, false]);
}

fn observed(shape: &[i64]) -> Observed {
    Observed { meta: meta(shape, Kind::Float), sparse: false, finite: true }
}

#[test]
fn distributions_prefix_their_samples() {
    let normal = Normal::new(&observed(&[3]), &observed(&[]), true).unwrap();
    assert_eq!(normal.batch_shape(), vec![3]);
    assert_eq!(normal.sample(&[4, 5]).unwrap().shape, vec![4, 5, 3]);
    assert!(normal.sample(&[-1]).is_err());
    assert!(Normal::new(&observed(&[3]), &observed(&[]), false).is_err());
    let bernoulli = Bernoulli::from_probs(&observed(&[2]), true).unwrap();
    assert_eq!(bernoulli.sample(&[]).unwrap().shape, vec![2]);
    assert!(Bernoulli::from_probs(&observed(&[2]), false).is_err());
    let categorical = Categorical::from_logits(&observed(&[2, 5])).unwrap();
    assert_eq!(categorical.classes(), 5);
    assert_eq!(categorical.sample(&[3]).unwrap().shape, vec![3, 2]);
    assert!(Categorical::from_logits(&observed(&[])).is_err());
}

#[test]
fn parameters_and_values_are_broadcast() {
    assert_eq!(broadcast_shape(&[2, 1], &[3]), Some(vec![2, 3]));
    assert_eq!(broadcast_shape(&[], &[4, 0]), Some(vec![4, 0]));
    assert_eq!(broadcast_shape(&[1], &[0]), Some(vec![0]));
    assert_eq!(broadcast_shape(&[2], &[3]), None);
    assert_eq!(broadcast_shape(&[5, 1, 2], &[7, 1]), broadcast_shape(&[7, 1], &[5, 1, 2]));
    let normal = Normal::new(&observed(&[2, 1]), &observed(&[3]), true).unwrap();
    assert_eq!(normal.batch_shape(), vec![2, 3]);
    assert_eq!(normal.log_prob(&observed(&[4, 1, 1])).unwrap().shape, vec![4, 2, 3]);
    assert!(normal.log_prob(&observed(&[4])).is_err());
    assert!(matches!(
        Normal::new(&observed(&[2]), &observed(&[3]), true),
        Err(RustTorchError::IncompatibleShapes { left, right }) if left == vec![2] && right == vec![3]
    ));
    let bernoulli = Bernoulli::from_logits(&observed(&[3])).unwrap();
    assert_eq!(bernoulli.log_prob(&observed(&[2, 1]), true).unwrap().shape, vec![2, 3]);
    assert!(bernoulli.log_prob(&observed(&[2, 1]), false).is_err());
    let categorical = Categorical::from_logits(&observed(&[2, 5])).unwrap();
    assert_eq!(categorical.log_prob(&meta(&[3, 1], Kind::Int64), true).unwrap().shape, vec![3, 2]);
    assert_eq!(categorical.log_prob(&meta(&[3, 1], Kind::Int64), true).unwrap().kind, Kind::Float);
    assert!(categorical.log_prob(&meta(&[3], Kind::Int64), true).is_err());
    assert!(categorical.log_prob(&meta(&[2], Kind::Float), true).is_err());
}

fn specs(entries: &[(&str, &[i64])]) -> NameMap<TensorSpec> {
    let mut out = NameMap::new();
    for (name, shape) in entries {
        out.insert(name.to_string(), TensorSpec { shape: shape.to_vec(), kind: Kind::Float });
    }
    out
}

#[test]
fn state_is_mapped_onto_models() {
    let mapping = StateDictMapping::new().map("old.bias", "fc.b").map_prefix("old.", "fc.").map_prefix("old.deep.", "deep.");
    assert_eq!(mapping.destination("old.bias"), "fc.b");
    assert_eq!(mapping.destination("old.weight"), "fc.weight");
    assert_eq!(mapping.destination("old.deep.weight"), "deep.weight");
    assert_eq!(mapping.destination("new"), "new");
    let file = specs(&[("old.weight", &[2])]);
    let model = specs(&[("fc.weight", &[2])]);
    let plan = load_state_dict_with_mapping(&file, &model, &mapping, LoadOptions::strict()).unwrap();
    assert_eq!(plan.report.loaded, vec!["fc.weight"]);
    assert_eq!(plan.report.remapped, vec![("old.weight".to_string(), "fc.weight".to_string())]);
    assert!(matches!(
        load_state_dict(&file, &model),
        Err(RustTorchError::IncompatibleModelState { missing, unexpected })
            if missing == vec!["fc.weight"] && unexpected == vec!["old.weight"]
    ));
    let wrong = specs(&[("fc.weight", &[3])]);
    assert!(matches!(load_state_dict(&wrong, &model), Err(RustTorchError::ShapeMismatch { .. })));
    require_safetensors("a.safetensors", Some("safetensors")).unwrap();
    assert!(matches!(require_safetensors("a.pt", Some("pt")), Err(RustTorchError::UnsupportedModelFile { .. })));
    let both = StateDictMapping::new().map("x", "w").map("y", "w");
    let file = specs(&[("x", &[1]), ("y", &[1])]);
    assert!(matches!(
        load_state_dict_with_mapping(&file, &specs(&[("w", &[1])]), &both, LoadOptions::non_strict()),
        Err(RustTorchError::DuplicateMappedKey(name)) if name == "w"
    ));
}
