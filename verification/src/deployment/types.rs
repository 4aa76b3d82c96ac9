//! The vocabulary of portable programs.
use super::tree::{copy_tree, Tree, TreeView};
use crate::error::{deployment_error, deployment_text, texts, ErrorView, Result};
use crate::kind::Kind;
use crate::tensor::copy_shape;
use crate::text::{join, same};
use vstd::prelude::*;
use vstd::string::*;

verus! {

/// Dtypes supported by the portable interchange subset.
#[derive(Debug, Clone, Copy, PartialEq, Eq, Structural)]
pub enum DType {
    /// IEEE 32-bit floating point.
    Float,
    /// IEEE 64-bit floating point.
    Double,
    /// Signed 64-bit integer.
    Int64,
    /// Boolean tensor.
    Bool,
}

impl DType {
    /// The element type that the dtype stands for.
    pub open spec fn element(self) -> Kind {
        match self {
            DType::Float => Kind::Float,
            DType::Double => Kind::Double,
            DType::Int64 => Kind::Int64,
            DType::Bool => Kind::Bool,
        }
    }

    /// The size of an element in bytes.
    pub open spec fn width(self) -> int {
        match self {
            DType::Float => 4,
            DType::Double => 8,
            DType::Int64 => 8,
            DType::Bool => 1,
        }
    }

    /// The dtype that stands for an element type.
    pub open spec fn of(kind: Kind) -> core::result::Result<DType, ErrorView> {
        match kind {
            Kind::Float => Ok(DType::Float),
            Kind::Double => Ok(DType::Double),
            Kind::Int64 => Ok(DType::Int64),
            Kind::Bool => Ok(DType::Bool),
            _ => Err(deployment_text("unsupported dtype "@ + kind.form())),
        }
    }

    /// The dtype of a dtype's element type is that dtype.
    pub proof fn of_element(self)
        ensures
            DType::of(self.element()) == Ok::<DType, ErrorView>(self),
    {
    }

    /// Returns the element type.
    pub fn kind(self) -> (r: Kind)
        ensures
            r == self.element(),
    {
        match self {
            DType::Float => Kind::Float,
            DType::Double => Kind::Double,
            DType::Int64 => Kind::Int64,
            DType::Bool => Kind::Bool,
        }
    }

    /// Returns the dtype of an element type.
    pub fn from_kind(kind: Kind) -> (r: Result<Self>)
        ensures
            match (r, DType::of(kind)) {
                (Ok(dtype), Ok(expected)) => dtype == expected,
                (Err(e), Err(expected)) => e@ == expected,
                _ => false,
            },
    {
        match kind {
            Kind::Float => Ok(DType::Float),
            Kind::Double => Ok(DType::Double),
            Kind::Int64 => Ok(DType::Int64),
            Kind::Bool => Ok(DType::Bool),
            _ => {
                let message = join("unsupported dtype ", kind.text());
                Err(deployment_error(message.as_str()))
            },
        }
    }

    /// Returns the size of an element in bytes.
    pub fn bytes(self) -> (r: usize)
        ensures
            r == self.width(),
    {
        match self {
            DType::Float => 4,
            DType::Double => 8,
            DType::Int64 => 8,
            DType::Bool => 1,
        }
    }
}

/// A fixed dimension or a named dimension with an inclusive runtime range.
#[derive(Debug, PartialEq, Eq)]
pub enum Dimension {
    /// Exact nonnegative size.
    Known(i64),
    /// Equal wherever the name occurs; bounded by `min` and optional `max`.
    Symbol {
        /// Nonempty symbol name.
        name: String,
        /// Inclusive nonnegative lower bound.
        min: i64,
        /// Inclusive upper bound, or no upper bound.
        max: Option<i64>,
    },
}

/// The content of a [`Dimension`].
#[verifier::ext_equal]
pub enum DimensionView {
    Known(i64),
    Symbol { name: Seq<char>, min: i64, max: Option<i64> },
}

impl View for Dimension {
    type V = DimensionView;

    open spec fn view(&self) -> DimensionView {
        match self {
            Dimension::Known(n) => DimensionView::Known(*n),
            Dimension::Symbol { name, min, max } => DimensionView::Symbol { name: name@, min: *min, max: *max },
        }
    }
}

impl Clone for Dimension {
    fn clone(&self) -> (r: Self)
        ensures
            r@ == self@,
    {
        match self {
            Dimension::Known(n) => Dimension::Known(*n),
            Dimension::Symbol { name, min, max } => Dimension::Symbol { name: name.clone(), min: *min, max: *max },
        }
    }
}

impl Dimension {
    /// Whether two dimensions are equal in every part.
    pub fn same_as(&self, other: &Dimension) -> (r: bool)
        ensures
            r == (self@ == other@),
    {
        match (self, other) {
            (Dimension::Known(a), Dimension::Known(b)) => *a == *b,
            (Dimension::Symbol { name: a, min: al, max: ah }, Dimension::Symbol { name: b, min: bl, max: bh }) => {
                let upper = match (ah, bh) {
                    (Some(x), Some(y)) => *x == *y,
                    (None, None) => true,
                    _ => false,
                };
                same(a.as_str(), b.as_str()) && *al == *bl && upper
            },
            _ => false,
        }
    }
}

/// The contents of a list of dimensions.
pub open spec fn dimensions_view(dims: Seq<Dimension>) -> Seq<DimensionView> {
    dims.map_values(|d: Dimension| d@)
}

/// Copies a list of dimensions.
pub fn copy_dimensions(dims: &[Dimension]) -> (r: Vec<Dimension>)
    ensures
        dimensions_view(r@) == dimensions_view(dims@),
        r@.len() == dims@.len(),
{
    let mut out: Vec<Dimension> = Vec::new();
    let mut i: usize = 0;
    while i < dims.len()
        invariant
            i <= dims@.len(),
            out@.len() == i,
            forall|j: int| 0 <= j < i ==> (#[trigger] out@[j])@ == dims@[j]@,
        decreases dims@.len() - i,
    {
        out.push(dims[i].clone());
        i += 1;
    }
    assert(dimensions_view(out@) =~= dimensions_view(dims@));
    out
}

/// Whether two lists of dimensions are equal.
pub fn same_dimensions(a: &[Dimension], b: &[Dimension]) -> (r: bool)
    ensures
        r == (dimensions_view(a@) == dimensions_view(b@)),
{
    if a.len() != b.len() {
        assert(dimensions_view(a@).len() != dimensions_view(b@).len());
        return false;
    }
    let mut i: usize = 0;
    while i < a.len()
        invariant
            a@.len() == b@.len(),
            i <= a@.len(),
            forall|j: int| 0 <= j < i ==> (#[trigger] a@[j])@ == b@[j]@,
        decreases a@.len() - i,
    {
        if !a[i].same_as(&b[i]) {
            assert(dimensions_view(a@)[i as int] != dimensions_view(b@)[i as int]);
            return false;
        }
        i += 1;
    }
    assert(dimensions_view(a@) =~= dimensions_view(b@));
    true
}

/// Runtime tensor name, dtype and dimensions. Inputs use the model's device.
#[derive(Debug, PartialEq, Eq)]
pub struct ValueSpec {
    /// Unique value name.
    pub name: String,
    /// Required tensor dtype.
    pub dtype: DType,
    /// Required dimensions, in axis order.
    pub dimensions: Vec<Dimension>,
}

/// The content of a [`ValueSpec`].
#[verifier::ext_equal]
pub struct ValueSpecView {
    pub name: Seq<char>,
    pub dtype: DType,
    pub dimensions: Seq<DimensionView>,
}

impl View for ValueSpec {
    type V = ValueSpecView;

    open spec fn view(&self) -> ValueSpecView {
        ValueSpecView { name: self.name@, dtype: self.dtype, dimensions: dimensions_view(self.dimensions@) }
    }
}

impl Clone for ValueSpec {
    fn clone(&self) -> (r: Self)
        ensures
            r@ == self@,
    {
        ValueSpec {
            name: self.name.clone(),
            dtype: self.dtype,
            dimensions: copy_dimensions(self.dimensions.as_slice()),
        }
    }
}

impl ValueSpec {
    /// Declares one input.
    pub fn new(name: &str, dtype: DType, dimensions: Vec<Dimension>) -> (r: Self)
        ensures
            r@ == (ValueSpecView { name: name@, dtype, dimensions: dimensions_view(dimensions@) }),
    {
        ValueSpec { name: name.to_owned(), dtype, dimensions }
    }

    /// Whether two specs are equal in every part.
    pub fn same_as(&self, other: &ValueSpec) -> (r: bool)
        ensures
            r == (self@ == other@),
    {
        same(self.name.as_str(), other.name.as_str()) && self.dtype == other.dtype && same_dimensions(
            self.dimensions.as_slice(),
            other.dimensions.as_slice(),
        )
    }
}

/// The contents of a list of value specs.
pub open spec fn value_specs_view(specs: Seq<ValueSpec>) -> Seq<ValueSpecView> {
    specs.map_values(|s: ValueSpec| s@)
}

/// Copies a list of value specs.
pub fn copy_value_specs(specs: &[ValueSpec]) -> (r: Vec<ValueSpec>)
    ensures
        value_specs_view(r@) == value_specs_view(specs@),
{
    let mut out: Vec<ValueSpec> = Vec::new();
    let mut i: usize = 0;
    while i < specs.len()
        invariant
            i <= specs@.len(),
            out@.len() == i,
            forall|j: int| 0 <= j < i ==> (#[trigger] out@[j])@ == specs@[j]@,
        decreases specs@.len() - i,
    {
        out.push(specs[i].clone());
        i += 1;
    }
    assert(value_specs_view(out@) =~= value_specs_view(specs@));
    out
}

/// Whether two lists of value specs are equal.
pub fn same_value_specs(a: &[ValueSpec], b: &[ValueSpec]) -> (r: bool)
    ensures
        r == (value_specs_view(a@) == value_specs_view(b@)),
{
    if a.len() != b.len() {
        assert(value_specs_view(a@).len() != value_specs_view(b@).len());
        return false;
    }
    let mut i: usize = 0;
    while i < a.len()
        invariant
            a@.len() == b@.len(),
            i <= a@.len(),
            forall|j: int| 0 <= j < i ==> (#[trigger] a@[j])@ == b@[j]@,
        decreases a@.len() - i,
    {
        if !a[i].same_as(&b[i]) {
            assert(value_specs_view(a@)[i as int] != value_specs_view(b@)[i as int]);
            return false;
        }
        i += 1;
    }
    assert(value_specs_view(a@) =~= value_specs_view(b@));
    true
}

/// Version-one, functional tensor operators; none mutate their operands.
#[derive(Debug, PartialEq)]
pub enum Operator {
    /// Return the same tensor, preserving its storage alias.
    Identity,
    /// Rectified linear activation.
    Relu,
    /// Logistic activation.
    Sigmoid,
    /// Hyperbolic tangent.
    Tanh,
    /// Broadcast tensor addition.
    Add,
    /// Broadcast tensor subtraction.
    Subtract,
    /// Broadcast tensor multiplication.
    Multiply,
    /// Matrix multiplication, with batch broadcasting.
    Matmul,
    /// Linear transformation with operands input, weight, optional bias.
    Linear,
    /// Reshape to a fixed shape; one `-1` dimension may be inferred.
    Reshape(Vec<i64>),
    /// Flatten the inclusive axis range.
    Flatten {
        /// First axis.
        start: i64,
        /// Last axis.
        end: i64,
    },
    /// Swap two axes.
    Transpose {
        /// First axis.
        dim0: i64,
        /// Second axis.
        dim1: i64,
    },
    /// Permute every axis exactly once.
    Permute(Vec<i64>),
    /// Concatenate operands along an axis.
    Cat(i64),
    /// Execute only the selected branch. First operand is a scalar Boolean;
    /// remaining operands bind each branch's inputs in order. Branches return
    /// exactly one tensor and may read the enclosing model's named state.
    If {
        /// Branch used for a true predicate.
        then_branch: Box<Program>,
        /// Branch used for a false predicate.
        else_branch: Box<Program>,
        /// Common output contract, checked for the selected branch.
        result: ValueSpec,
    },
}

/// One named operator result and its ordered operands.
#[derive(Debug, PartialEq)]
pub struct Operation {
    /// Unique result name.
    pub name: String,
    /// Operation and constant attributes.
    pub operator: Operator,
    /// Earlier value or state names.
    pub inputs: Vec<String>,
}

/// A versioned, explicit tensor program.
#[derive(Debug, PartialEq)]
pub struct Program {
    /// Serialization version. Only `1` is supported.
    pub version: u32,
    /// Operator-set version. Only `1` is supported.
    pub operator_version: u32,
    /// Input tensors in flattened calling order.
    pub inputs: Vec<ValueSpec>,
    /// Tensor-only input calling structure, with leaves matching `inputs`.
    pub input_tree: Tree,
    /// Topologically ordered operations.
    pub operations: Vec<Operation>,
    /// Output structure and graph value names.
    pub output_tree: Tree,
}

/// The content of an [`Operator`].
pub enum OperatorView {
    Identity,
    Relu,
    Sigmoid,
    Tanh,
    Add,
    Subtract,
    Multiply,
    Matmul,
    Linear,
    Reshape(Seq<i64>),
    Flatten { start: i64, end: i64 },
    Transpose { dim0: i64, dim1: i64 },
    Permute(Seq<i64>),
    Cat(i64),
    If { then_branch: Box<ProgramView>, else_branch: Box<ProgramView>, result: ValueSpecView },
}

/// The content of an [`Operation`].
pub struct OperationView {
    pub name: Seq<char>,
    pub operator: OperatorView,
    pub inputs: Seq<Seq<char>>,
}

/// The content of a [`Program`].
pub struct ProgramView {
    pub version: u32,
    pub operator_version: u32,
    pub inputs: Seq<ValueSpecView>,
    pub input_tree: TreeView,
    pub operations: Seq<OperationView>,
    pub output_tree: TreeView,
}

/// The content of an operator.
pub open spec fn operator_view(operator: Operator) -> OperatorView
    decreases operator,
{
    match operator {
        Operator::Identity => OperatorView::Identity,
        Operator::Relu => OperatorView::Relu,
        Operator::Sigmoid => OperatorView::Sigmoid,
        Operator::Tanh => OperatorView::Tanh,
        Operator::Add => OperatorView::Add,
        Operator::Subtract => OperatorView::Subtract,
        Operator::Multiply => OperatorView::Multiply,
        Operator::Matmul => OperatorView::Matmul,
        Operator::Linear => OperatorView::Linear,
        Operator::Reshape(shape) => OperatorView::Reshape(shape@),
        Operator::Flatten { start, end } => OperatorView::Flatten { start, end },
        Operator::Transpose { dim0, dim1 } => OperatorView::Transpose { dim0, dim1 },
        Operator::Permute(axes) => OperatorView::Permute(axes@),
        Operator::Cat(dim) => OperatorView::Cat(dim),
        Operator::If { then_branch, else_branch, result } => OperatorView::If {
            then_branch: Box::new(program_view(*then_branch)),
            else_branch: Box::new(program_view(*else_branch)),
            result: result@,
        },
    }
}

/// The content of an operation.
pub open spec fn operation_view(operation: Operation) -> OperationView
    decreases operation,
{
    OperationView {
        name: operation.name@,
        operator: operator_view(operation.operator),
        inputs: texts(operation.inputs@),
    }
}

/// The content of a program.
pub open spec fn program_view(program: Program) -> ProgramView
    decreases program,
{
    ProgramView {
        version: program.version,
        operator_version: program.operator_version,
        inputs: value_specs_view(program.inputs@),
        input_tree: program.input_tree@,
        operations: Seq::new(
            program.operations@.len(),
            |i: int|
                if 0 <= i < program.operations@.len() {
                    operation_view(program.operations@[i])
                } else {
                    arbitrary()
                },
        ),
        output_tree: program.output_tree@,
    }
}

impl View for Operator {
    type V = OperatorView;

    open spec fn view(&self) -> OperatorView {
        operator_view(*self)
    }
}

impl View for Operation {
    type V = OperationView;

    open spec fn view(&self) -> OperationView {
        operation_view(*self)
    }
}

impl View for Program {
    type V = ProgramView;

    open spec fn view(&self) -> ProgramView {
        program_view(*self)
    }
}

/// The contents of a list of operations.
pub open spec fn operations_view(operations: Seq<Operation>) -> Seq<OperationView> {
    operations.map_values(|o: Operation| o@)
}

/// The view of a program, part by part.
pub proof fn program_parts(program: Program)
    ensures
        program@ == (ProgramView {
            version: program.version,
            operator_version: program.operator_version,
            inputs: value_specs_view(program.inputs@),
            input_tree: program.input_tree@,
            operations: operations_view(program.operations@),
            output_tree: program.output_tree@,
        }),
{
    reveal_with_fuel(program_view, 2);
    reveal_with_fuel(operation_view, 2);
    assert(program@.operations =~= operations_view(program.operations@));
}

/// The view of an operation, part by part.
pub proof fn operation_parts(operation: Operation)
    ensures
        operation@ == (OperationView {
            name: operation.name@,
            operator: operation.operator@,
            inputs: texts(operation.inputs@),
        }),
{
    reveal_with_fuel(operation_view, 2);
    reveal_with_fuel(operator_view, 2);
}

/// The view of a conditional, part by part.
pub proof fn conditional_parts(then_branch: Box<Program>, else_branch: Box<Program>, result: ValueSpec)
    ensures
        (Operator::If { then_branch, else_branch, result })@ == (OperatorView::If {
            then_branch: Box::new((*then_branch)@),
            else_branch: Box::new((*else_branch)@),
            result: result@,
        }),
{
    reveal_with_fuel(operator_view, 2);
    reveal_with_fuel(program_view, 2);
}

/// Copies texts.
pub fn copy_texts(list: &Vec<String>) -> (r: Vec<String>)
    ensures
        texts(r@) == texts(list@),
{
    let mut out: Vec<String> = Vec::new();
    let mut i: usize = 0;
    while i < list.len()
        invariant
            i <= list@.len(),
            out@.len() == i,
            forall|j: int| 0 <= j < i ==> (#[trigger] out@[j])@ == list@[j]@,
        decreases list@.len() - i,
    {
        out.push(list[i].clone());
        i += 1;
    }
    assert(texts(out@) =~= texts(list@));
    out
}

impl Clone for Operator {
    fn clone(&self) -> (r: Self)
        ensures
            r@ == self@,
    {
        copy_operator(self)
    }
}

impl Clone for Operation {
    fn clone(&self) -> (r: Self)
        ensures
            r@ == self@,
    {
        let r = Operation {
            name: self.name.clone(),
            operator: copy_operator(&self.operator),
            inputs: copy_texts(&self.inputs),
        };
        proof {
            operation_parts(*self);
            operation_parts(r);
        }
        r
    }
}

impl Clone for Program {
    fn clone(&self) -> (r: Self)
        ensures
            r@ == self@,
    {
        copy_program(self)
    }
}

/// Copies an operator.
pub fn copy_operator(operator: &Operator) -> (r: Operator)
    ensures
        r@ == operator@,
    decreases operator,
{
    match operator {
        Operator::Identity => Operator::Identity,
        Operator::Relu => Operator::Relu,
        Operator::Sigmoid => Operator::Sigmoid,
        Operator::Tanh => Operator::Tanh,
        Operator::Add => Operator::Add,
        Operator::Subtract => Operator::Subtract,
        Operator::Multiply => Operator::Multiply,
        Operator::Matmul => Operator::Matmul,
        Operator::Linear => Operator::Linear,
        Operator::Reshape(shape) => Operator::Reshape(copy_shape(shape.as_slice())),
        Operator::Flatten { start, end } => Operator::Flatten { start: *start, end: *end },
        Operator::Transpose { dim0, dim1 } => Operator::Transpose { dim0: *dim0, dim1: *dim1 },
        Operator::Permute(axes) => Operator::Permute(copy_shape(axes.as_slice())),
        Operator::Cat(dim) => Operator::Cat(*dim),
        Operator::If { then_branch, else_branch, result } => {
            let a = Box::new(copy_program(then_branch));
            let b = Box::new(copy_program(else_branch));
            let c = result.clone();
            proof {
                conditional_parts(*then_branch, *else_branch, *result);
                conditional_parts(a, b, c);
            }
            Operator::If { then_branch: a, else_branch: b, result: c }
        },
    }
}

/// Copies a program.
pub fn copy_program(program: &Program) -> (r: Program)
    ensures
        r@ == program@,
    decreases program,
{
    let mut operations: Vec<Operation> = Vec::new();
    let mut i: usize = 0;
    while i < program.operations.len()
        invariant
            i <= program.operations@.len(),
            operations@.len() == i,
            forall|j: int| 0 <= j < i ==> (#[trigger] operations@[j])@ == program.operations@[j]@,
        decreases program.operations@.len() - i,
    {
        let operation = &program.operations[i];
        proof {
            assert(decreases_to!(program => program.operations));
            assert(decreases_to!(program.operations => program.operations@[i as int]));
            assert(decreases_to!(program.operations@[i as int] => program.operations@[i as int].operator));
        }
        let copied = Operation {
            name: operation.name.clone(),
            operator: copy_operator(&operation.operator),
            inputs: copy_texts(&operation.inputs),
        };
        proof {
            operation_parts(*operation);
            operation_parts(copied);
        }
        operations.push(copied);
        i += 1;
    }
    let r = Program {
        version: program.version,
        operator_version: program.operator_version,
        inputs: copy_value_specs(program.inputs.as_slice()),
        input_tree: copy_tree(&program.input_tree),
        operations,
        output_tree: copy_tree(&program.output_tree),
    };
    proof {
        program_parts(*program);
        program_parts(r);
        assert(operations_view(r.operations@) =~= operations_view(program.operations@));
    }
    r
}

/// Meaning of a named state tensor in a portable program.
#[derive(Debug, Clone, Copy, PartialEq, Eq, Structural)]
pub enum StateRole {
    /// Trainable model parameter.
    Parameter,
    /// Persistent, non-parameter state.
    Buffer,
    /// Non-persistent buffer or constant tensor.
    Constant,
}

} // verus!
