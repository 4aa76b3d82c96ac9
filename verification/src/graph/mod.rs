//! Inspectable tensor graphs: construction, validation, passes and rendering.
pub mod builder;
pub mod check;
pub mod execute;
pub mod infer;
pub mod input_laws;
pub mod ir;
pub mod op;
pub mod order;
pub mod passes;
pub mod render;
pub mod run_laws;
pub mod shape_laws;
pub mod spec;

pub use builder::GraphBuilder;
pub use execute::{Action, EagerExecutor, Execution, GraphInputs, GraphModule, GraphOutputs, Phase};
pub use ir::{ExecutionMode, Graph, Node, NodeId, ValueId};
pub use op::GraphOp;
pub use passes::{DeadNodeElimination, GraphPass, PassReport, ShapePropagation, Validation};
pub use spec::{Dim, TensorSpec};
