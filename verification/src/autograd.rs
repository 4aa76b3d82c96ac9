//! What may be differentiated, and how the pieces of a derivative are put together.
use crate::error::{either, first_at, refusal, setting_error, setting_text, ErrorView, Result};
use crate::kind::Kind;
use crate::tensor::{same_shape, MetaView, TensorMeta};
use vstd::prelude::*;

verus! {

/// What is kept of the graph after a derivative is taken.
#[derive(Debug, Clone, Copy, PartialEq, Eq, Structural)]
pub struct GradOptions {
    /// Keep the graph, so that another derivative can be taken.
    pub retain_graph: bool,
    /// Record how the derivative was taken, so that it can be differentiated.
    pub create_graph: bool,
}

impl Default for GradOptions {
    /// Nothing is kept.
    fn default() -> (r: Self)
        ensures
            r == (GradOptions { retain_graph: false, create_graph: false }),
    {
        GradOptions { retain_graph: false, create_graph: false }
    }
}

/// What is read of a tensor that takes part in a derivative.
#[derive(Debug, PartialEq, Eq)]
pub struct Variable {
    /// Shape, element type and device.
    pub meta: TensorMeta,
    /// Whether it is sparse.
    pub sparse: bool,
    /// Whether operations on it are recorded.
    pub requires_grad: bool,
}

/// The content of a [`Variable`].
pub struct VariableView {
    pub meta: MetaView,
    pub sparse: bool,
    pub requires_grad: bool,
}

impl View for Variable {
    type V = VariableView;

    open spec fn view(&self) -> VariableView {
        VariableView { meta: self.meta@, sparse: self.sparse, requires_grad: self.requires_grad }
    }
}

/// The contents of variables.
pub open spec fn variable_views(list: Seq<Variable>) -> Seq<VariableView> {
    Seq::new(list.len(), |i: int| list[i]@)
}

/// An element type of fractions.
pub open spec fn is_fractional(kind: Kind) -> bool {
    kind == Kind::Float || kind == Kind::Double || kind == Kind::Half || kind == Kind::BFloat16
}

/// Whether an element type is one of fractions.
pub fn fractional(kind: Kind) -> (r: bool)
    ensures
        r == is_fractional(kind),
{
    match kind {
        Kind::Float | Kind::Double | Kind::Half | Kind::BFloat16 => true,
        _ => false,
    }
}

/// Why a tensor cannot take part in a derivative, if it cannot.
pub open spec fn real_refusal(input: VariableView) -> Option<ErrorView> {
    if !input.meta.defined {
        Some(setting_text("tensor"@, "must be defined"@))
    } else if !is_fractional(input.meta.kind) || input.sparse {
        Some(setting_text("tensor"@, "expected a dense real floating-point tensor"@))
    } else {
        None
    }
}

/// Checks that a tensor can take part in a derivative.
pub fn dense(input: &Variable) -> (r: Result<()>)
    ensures
        refusal(r) == real_refusal(input@),
{
    if !input.meta.defined {
        return Err(setting_error("tensor", "must be defined"));
    }
    if !fractional(input.meta.kind) || input.sparse {
        return Err(setting_error("tensor", "expected a dense real floating-point tensor"));
    }
    Ok(())
}

/// Why no derivative can be taken by a tensor, if none can.
pub open spec fn recorded_refusal(input: VariableView) -> Option<ErrorView> {
    either(
        real_refusal(input),
        if input.requires_grad {
            None
        } else {
            Some(setting_text("input"@, "must require gradients before the forward pass"@))
        },
    )
}

fn recorded(input: &Variable) -> (r: Result<()>)
    ensures
        refusal(r) == recorded_refusal(input@),
{
    if let Err(e) = dense(input) {
        return Err(e);
    }
    if !input.requires_grad {
        return Err(setting_error("input", "must require gradients before the forward pass"));
    }
    Ok(())
}

/// Why a tensor is no loss, if it is none.
pub open spec fn scalar_refusal(input: VariableView) -> Option<ErrorView> {
    either(
        real_refusal(input),
        if input.meta.shape.len() == 0 {
            None
        } else {
            Some(setting_text("loss"@, "expected a scalar; reduce the loss first"@))
        },
    )
}

/// Checks that a tensor is a loss.
pub fn scalar(input: &Variable) -> (r: Result<()>)
    ensures
        refusal(r) == scalar_refusal(input@),
{
    if let Err(e) = dense(input) {
        return Err(e);
    }
    if input.meta.shape.len() > 0 {
        return Err(setting_error("loss", "expected a scalar; reduce the loss first"));
    }
    Ok(())
}

/// Why two tensors do not match, if they do not.
pub open spec fn pair_refusal(input: VariableView, other: VariableView, name: Seq<char>) -> Option<ErrorView> {
    either(
        real_refusal(input),
        either(
            real_refusal(other),
            if input.meta.shape != other.meta.shape || input.meta.kind != other.meta.kind || input.meta.device
                != other.meta.device {
                Some(setting_text(name, "shape, dtype and device must match"@))
            } else {
                None
            },
        ),
    )
}

fn alike(input: &Variable, other: &Variable, name: &'static str) -> (r: Result<()>)
    ensures
        refusal(r) == pair_refusal(input@, other@, name@),
{
    if let Err(e) = dense(input) {
        return Err(e);
    }
    if let Err(e) = dense(other) {
        return Err(e);
    }
    if !same_shape(input.meta.shape.as_slice(), other.meta.shape.as_slice()) || input.meta.kind != other.meta.kind
        || input.meta.device != other.meta.device {
        return Err(setting_error(name, "shape, dtype and device must match"));
    }
    Ok(())
}

/// The checks of inputs.
pub open spec fn input_checks(inputs: Seq<VariableView>) -> spec_fn(int) -> Option<ErrorView> {
    |i: int| recorded_refusal(inputs[i])
}

/// Why no derivative of a loss can be taken, if none can.
pub open spec fn grad_refusal(loss: VariableView, inputs: Seq<VariableView>) -> Option<ErrorView> {
    if scalar_refusal(loss) is Some {
        scalar_refusal(loss)
    } else if inputs.len() == 0 {
        Some(setting_text("inputs"@, "at least one input is required"@))
    } else {
        either(
            first_at(0, inputs.len() as int, input_checks(inputs)),
            if loss.requires_grad {
                None
            } else {
                Some(setting_text("loss"@, "the loss has no recorded gradient graph"@))
            },
        )
    }
}

/// Checks that the derivative of a loss can be taken by its inputs, and tells with which
/// options: a graph that is recorded is also kept.
pub fn grad(loss: &Variable, inputs: &Vec<Variable>, options: GradOptions) -> (r: Result<GradOptions>)
    ensures
        refusal(r) == grad_refusal(loss@, variable_views(inputs@)),
        r matches Ok(o) ==> o.create_graph == options.create_graph && o.retain_graph == (options.retain_graph
            || options.create_graph),
{
    if let Err(e) = scalar(loss) {
        return Err(e);
    }
    if inputs.len() == 0 {
        return Err(setting_error("inputs", "at least one input is required"));
    }
    let ghost views = variable_views(inputs@);
    let ghost check = input_checks(views);
    let ghost n = views.len() as int;
    let mut i: usize = 0;
    while i < inputs.len()
        invariant
            scalar_refusal(loss@) is None,
            views == variable_views(inputs@),
            views.len() > 0,
            check == input_checks(views),
            n == inputs@.len(),
            i <= n,
            first_at(0, n, check) == first_at(i as int, n, check),
        decreases n - i,
    {
        assert(check(i as int) == recorded_refusal(inputs@[i as int]@));
        if let Err(e) = recorded(&inputs[i]) {
            return Err(e);
        }
        i += 1;
    }
    if !loss.requires_grad {
        return Err(setting_error("loss", "the loss has no recorded gradient graph"));
    }
    Ok(
        GradOptions {
            retain_graph: options.retain_graph || options.create_graph,
            create_graph: options.create_graph,
        },
    )
}

/// Checks that every input takes part in a loss. `defined` tells of each whether it has a
/// derivative.
pub fn check_participation(defined: &Vec<bool>) -> (r: Result<()>)
    ensures
        refusal(r) == (if forall|i: int| 0 <= i < defined@.len() ==> #[trigger] defined@[i] {
            None
        } else {
            Some(setting_text("inputs"@, "an input does not participate in the loss"@))
        }),
{
    let mut i: usize = 0;
    while i < defined.len()
        invariant
            i <= defined@.len(),
            forall|j: int| 0 <= j < i ==> #[trigger] defined@[j],
        decreases defined@.len() - i,
    {
        if !defined[i] {
            assert(!defined@[i as int]);
            return Err(setting_error("inputs", "an input does not participate in the loss"));
        }
        i += 1;
    }
    Ok(())
}

/// Checks the parts of a product of a covector with the derivative of an output.
pub fn vjp(output: &Variable, input: &Variable, cotangent: &Variable) -> (r: Result<()>)
    ensures
        refusal(r) == either(
            pair_refusal(output@, cotangent@, "cotangent"@),
            recorded_refusal(input@),
        ),
{
    if let Err(e) = alike(output, cotangent, "cotangent") {
        return Err(e);
    }
    recorded(input)
}

/// How an input is made ready for a derivative.
#[derive(Debug, Clone, Copy, PartialEq, Eq, Structural)]
pub enum Preparation {
    /// It is used as it is.
    Reuse,
    /// A detached copy is recorded from here on.
    Detach,
}

/// How an input is made ready, or why it is refused.
pub open spec fn prepared(input: VariableView, create_graph: bool) -> core::result::Result<Preparation, ErrorView> {
    if real_refusal(input) is Some {
        Err(real_refusal(input)->0)
    } else if create_graph && input.requires_grad {
        Ok(Preparation::Reuse)
    } else {
        Ok(Preparation::Detach)
    }
}

fn prepare(input: &Variable, create_graph: bool) -> (r: Result<Preparation>)
    ensures
        match (r, prepared(input@, create_graph)) {
            (Ok(a), Ok(b)) => a == b,
            (Err(a), Err(b)) => a@ == b,
            _ => false,
        },
{
    if let Err(e) = dense(input) {
        return Err(e);
    }
    if create_graph && input.requires_grad {
        Ok(Preparation::Reuse)
    } else {
        Ok(Preparation::Detach)
    }
}

/// Checks an input and a vector along which a function is differentiated, and tells how the
/// input is made ready.
pub fn jvp(input: &Variable, tangent: &Variable, create_graph: bool) -> (r: Result<Preparation>)
    ensures
        match r {
            Ok(p) => pair_refusal(input@, tangent@, "tangent"@) is None && prepared(input@, create_graph) == Ok::<
                Preparation,
                ErrorView,
            >(p),
            Err(e) => pair_refusal(input@, tangent@, "tangent"@) == Some(e@),
        },
{
    if let Err(e) = alike(input, tangent, "tangent") {
        return Err(e);
    }
    prepare(input, create_graph)
}

/// How the derivative of an output by an input is put together.
#[derive(Debug, PartialEq, Eq)]
pub struct JacobianPlan {
    /// The shape: that of the output, then that of the input.
    pub shape: Vec<i64>,
    /// For each element of the output, whether the graph is kept after its row is taken.
    pub keep: Vec<bool>,
}

/// Checks an input of which a derivative is taken, and tells how it is made ready.
pub fn jacobian(input: &Variable, create_graph: bool) -> (r: Result<Preparation>)
    ensures
        match (r, prepared(input@, create_graph)) {
            (Ok(a), Ok(b)) => a == b,
            (Err(a), Err(b)) => a@ == b,
            _ => false,
        },
{
    prepare(input, create_graph)
}

/// Checks the output of a function and plans its derivative: a row for each of its `elements`,
/// and no row if there are none. The graph is kept until the last row, and after it only where
/// it is recorded.
pub fn jacobian_rows(output: &Variable, input: &Variable, elements: usize, create_graph: bool) -> (r: Result<JacobianPlan>)
    ensures
        refusal(r) == real_refusal(output@),
        r matches Ok(plan) ==> {
            &&& plan.shape@ == output@.meta.shape + input@.meta.shape
            &&& plan.keep@.len() == elements
            &&& forall|i: int| 0 <= i < elements ==> #[trigger] plan.keep@[i] == (i + 1 < elements || create_graph)
        },
{
    if let Err(e) = dense(output) {
        return Err(e);
    }
    let shape = crate::distributions::joined(output.meta.shape.as_slice(), input.meta.shape.as_slice());
    let mut keep: Vec<bool> = Vec::new();
    while keep.len() < elements
        invariant
            keep@.len() <= elements,
            forall|i: int| 0 <= i < keep@.len() ==> #[trigger] keep@[i] == (i + 1 < elements || create_graph),
        decreases elements - keep@.len(),
    {
        let last = elements - 1 == keep.len();
        keep.push(!last || create_graph);
    }
    Ok(JacobianPlan { shape, keep })
}

/// Checks an input of which a second derivative is taken, and tells how it is made ready. The
/// function has to give a loss (see [`scalar`]), whose derivative is then differentiated.
pub fn hessian(input: &Variable, create_graph: bool) -> (r: Result<Preparation>)
    ensures
        match (r, prepared(input@, create_graph)) {
            (Ok(a), Ok(b)) => a == b,
            (Err(a), Err(b)) => a@ == b,
            _ => false,
        },
{
    jacobian(input, create_graph)
}

/// Checks a value and the tensor whose derivative stands in for its own. `finite` tells whether
/// all elements of the latter are finite.
pub fn with_surrogate_gradient(value: &Variable, surrogate: &Variable, finite: bool) -> (r: Result<()>)
    ensures
        refusal(r) == either(
            pair_refusal(value@, surrogate@, "surrogate"@),
            if finite {
                None
            } else {
                Some(setting_text("surrogate"@, "must be finite to preserve the forward value"@))
            },
        ),
{
    if let Err(e) = alike(value, surrogate, "surrogate") {
        return Err(e);
    }
    if !finite {
        return Err(setting_error("surrogate", "must be finite to preserve the forward value"));
    }
    Ok(())
}

/// A loss that was accepted once with some inputs is accepted with any of them alone.
pub proof fn inputs_are_accepted_one_by_one(loss: VariableView, inputs: Seq<VariableView>, i: int)
    requires
        grad_refusal(loss, inputs) is None,
        0 <= i < inputs.len(),
    ensures
        grad_refusal(loss, seq![inputs[i]]) is None,
{
    let one = seq![inputs[i]];
    crate::error::first_at_none(0, inputs.len() as int, input_checks(inputs));
    assert(input_checks(inputs)(i) is None);
    assert(input_checks(one)(0) is None);
    crate::error::first_at_none(0, 1, input_checks(one));
}

} // verus!
