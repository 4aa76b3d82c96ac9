//! Portable tensor programs and the archives that carry them.
pub mod artifact;
pub mod envelope_laws;
pub mod evaluate;
pub mod guard;
pub mod infer;
pub mod infer_laws;
pub mod layout;
pub mod layout_laws;
pub mod lower;
pub mod model;
pub mod onnx;
pub mod program;
pub mod program_laws;
pub mod pt2;
pub mod run_laws;
pub mod step_laws;
pub mod storage_laws;
pub mod tree;
pub mod types;
pub mod zip_envelope;

pub use tree::Tree;
pub use types::{DType, Dimension, Operation, Operator, Program, StateRole, ValueSpec};
