//! Which tensors gradients and distributions are worked out of.
use crate::autograd::{grad_refusal, input_checks, pair_refusal, prepared, recorded_refusal, scalar_refusal, VariableView};
use crate::distributions::{classes_refusal, sample_count, sample_refusal, shapes_refusal, value_refusal, FamilyView, ObservedView};
use crate::error::first_at_none;
use crate::kind::{Device, Kind};
use crate::tensor::{is_broadcast, MetaView};
use crate::tensor_laws::volume;
use vstd::prelude::*;

verus! {

/// A defined dense tensor of real numbers.
pub open spec fn is_real(input: VariableView) -> bool {
    &&& input.meta.defined && !input.sparse
    &&& input.meta.kind is Float || input.meta.kind is Double || input.meta.kind is Half || input.meta.kind is BFloat16
}

/// Gradients are worked out exactly of a real scalar that has a recorded graph, with respect to at least
/// one real tensor, each of which takes gradients.
pub proof fn gradients_are_of_recorded_scalars(loss: VariableView, inputs: Seq<VariableView>)
    ensures
        grad_refusal(loss, inputs) is None <==> {
            &&& is_real(loss) && loss.meta.shape.len() == 0 && loss.requires_grad
            &&& inputs.len() > 0
            &&& forall|i: int| 0 <= i < inputs.len() ==> is_real(#[trigger] inputs[i]) && inputs[i].requires_grad
        },
{
    let checks = input_checks(inputs);
    first_at_none(0, inputs.len() as int, checks);
    if forall|i: int| 0 <= i < inputs.len() ==> (#[trigger] checks(i)) is None {
        assert forall|i: int| 0 <= i < inputs.len() implies is_real(#[trigger] inputs[i]) && inputs[i].requires_grad by {
            assert(checks(i) is None);
            assert(recorded_refusal(inputs[i]) is None);
        }
    }
}

/// Two tensors are paired exactly if both are real and they agree in shape, element type and device.
pub proof fn paired_tensors_agree(input: VariableView, other: VariableView, name: Seq<char>)
    ensures
        pair_refusal(input, other, name) is None <==> is_real(input) && is_real(other) && input.meta.shape == other.meta.shape
            && input.meta.kind == other.meta.kind && input.meta.device == other.meta.device,
        scalar_refusal(input) is None <==> is_real(input) && input.meta.shape.len() == 0,
{
}

/// A real input is used as it is exactly if a graph is to be created and it takes gradients already; it
/// is detached otherwise.
pub proof fn inputs_are_reused_for_graphs(input: VariableView, create_graph: bool)
    ensures
        prepared(input, create_graph) is Ok <==> is_real(input),
        prepared(input, create_graph) matches Ok(p) ==> (p is Reuse <==> create_graph && input.requires_grad),
{
}

/// A finite dense tensor of real numbers.
pub open spec fn is_finite(input: ObservedView) -> bool {
    &&& input.meta.defined && !input.sparse && input.finite
    &&& input.meta.kind is Float || input.meta.kind is Double || input.meta.kind is Half || input.meta.kind is BFloat16
}

/// The parameters of a distribution are finite real tensors of one element type on one device, and a
/// value whose likelihood is asked for is one too.
pub proof fn distributions_are_of_finite_tensors(left: ObservedView, right: ObservedView, kind: Kind, device: Device)
    ensures
        crate::distributions::pair_refusal(left, right) is None <==> is_finite(left) && is_finite(right) && left.meta.kind
            == right.meta.kind && left.meta.device == right.meta.device,
        value_refusal(left, kind, device) is None <==> is_finite(left) && left.meta.kind == kind && left.meta.device == device,
        classes_refusal(left) is None <==> is_finite(left) && left.meta.shape.len() > 0 && left.meta.shape[left.meta.shape.len() - 1]
            != 0,
{
}

/// Two shapes go together exactly if they can be broadcast, and a sample is drawn of every shape without
/// negative sides.
pub proof fn samples_have_shapes(a: Seq<i64>, b: Seq<i64>)
    ensures
        shapes_refusal(a, b) is None <==> exists|shape: Seq<i64>| is_broadcast(a, b, shape),
        sample_refusal(a) is None <==> forall|i: int| 0 <= i < a.len() ==> (#[trigger] a[i]) >= 0,
{
}

/// What is drawn has the sides of the sample before those of the distribution, and its element type and
/// device; a likelihood has the shape to which the value and the distribution are broadcast.
pub proof fn drawn_tensors_have_the_sample_shape(f: FamilyView, sample: Seq<i64>, value: Seq<i64>, t: MetaView, i: int)
    requires
        0 <= i < sample.len() + f.shape.len(),
    ensures
        ({
            let drawn = f.tensor(sample);
            &&& drawn.defined && drawn.kind == f.kind && drawn.device == f.device
            &&& drawn.shape.len() == sample.len() + f.shape.len()
            &&& drawn.shape[i] == (if i < sample.len() {
                sample[i]
            } else {
                f.shape[i - sample.len()]
            })
        }),
        f.is_likelihood(value, t) ==> t.defined && t.kind == f.kind && t.device == f.device && is_broadcast(value, f.shape, t.shape),
{
}

/// As many are drawn as the sample has places.
pub proof fn samples_are_counted(sample: Seq<i64>, n: int)
    requires
        0 <= n <= sample.len(),
    ensures
        sample_count(sample, n) matches Some(count) ==> count == volume(sample.take(n)),
    decreases n,
{
    if n == 0 {
        assert(sample.take(0) =~= Seq::<i64>::empty());
    } else {
        samples_are_counted(sample, n - 1);
        let longer = sample.take(n);
        assert(longer =~= sample.take(n - 1).push(sample[n - 1]));
        crate::graph::shape_laws::volume_of_pushed(sample.take(n - 1), sample[n - 1]);
    }
}

} // verus!
