//! Tensor program descriptions, their validation, and the formats they travel in.
pub mod amp;
pub mod amp_laws;
pub mod archive;
pub mod autograd;
pub mod autograd_laws;
pub mod bytes;
pub mod checkpoint;
pub mod deployment;
pub mod distributed;
pub mod distributions;
pub mod error;
pub mod float;
pub mod graph;
pub mod interop;
pub mod interop_laws;
pub mod kind;
pub mod names;
pub mod nn;
pub mod number_laws;
pub mod optim;
pub mod product;
pub mod tensor;
pub mod tensor_laws;
pub mod text;
pub mod text_laws;
