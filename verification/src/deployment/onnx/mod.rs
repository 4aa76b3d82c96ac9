//! The ONNX interchange format: bounded import and export of the common inference subset.
pub mod export;
pub mod format_laws;
pub mod import;
pub mod laws;
pub mod model_laws;
pub mod operator_laws;
pub mod proto;
pub mod tensor;
pub mod wire;
