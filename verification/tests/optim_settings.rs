//! Settings of optimizers and the losses they accept.
use rusttorch::error::RustTorchError;
use rusttorch::float::Binary64;
use rusttorch::kind::{Device, Kind};
use rusttorch::optim::{validate_loss, Adam, Sgd};
use rusttorch::tensor::TensorMeta;

fn number(value: f64) -> Binary64 {
    Binary64::from_bits(value.to_bits())
}

#[test]
fn rejects_invalid_and_unsupported_configuration() {
    let error = Adam::builder().betas(number(1.0), number(0.999)).validate().unwrap_err();
    assert!(matches!(error, RustTorchError::InvalidConfiguration { field: "beta1", .. }));

    let error = Adam::builder().maximize(true).validate().unwrap_err();
    assert!(matches!(error, RustTorchError::UnsupportedOption { option: "maximize", .. }));

    let error = Sgd::builder().nesterov(true).validate().unwrap_err();
    assert!(matches!(error, RustTorchError::InvalidConfiguration { field: "nesterov", .. }));
}

#[test]
fn refused_numbers_are_told() {
    let error = Adam::builder().betas(number(0.9), number(-0.5)).validate().unwrap_err();
    match error {
        RustTorchError::InvalidConfiguration { field, reason, value } => {
            assert_eq!((field, reason.as_str()), ("beta2", "must be finite and in [0, 1)"));
            assert_eq!(value.map(|value| f64::from_bits(value.bits)), Some(-0.5));
        },
        other => panic!("{other:?}"),
    }
    let error = Sgd::builder().nesterov(true).validate().unwrap_err();
    assert!(matches!(error, RustTorchError::InvalidConfiguration { value: None, .. }));
}

#[test]
fn requires_a_defined_scalar_loss() {
    let mut undefined = TensorMeta::new(vec![], Kind::Float, Device::Cpu);
    undefined.defined = false;
    assert!(matches!(
        validate_loss(&undefined),
        Err(RustTorchError::InvalidConfiguration { field: "loss", .. })
    ));
    let vector = TensorMeta::new(vec![1], Kind::Float, Device::Cpu);
    assert!(matches!(validate_loss(&vector), Err(RustTorchError::InvalidDimensions { .. })));
    let scalar = TensorMeta::new(vec![], Kind::Float, Device::Cpu);
    assert!(validate_loss(&scalar).is_ok());
}
