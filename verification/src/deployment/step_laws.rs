//! What the steps of an evaluation mean.
use super::evaluate::{bound_inputs, ActionView, EvaluationView, FrameView, Waiting};
use super::guard::guard_refusal;
use super::program_laws::guarded_tensors_meet_their_specifications;
use super::tree::walked;
use super::types::{DimensionView, OperatorView, ProgramView, ValueSpecView};
use crate::error::ErrorView;
use crate::kind::Kind;
use crate::tensor::MetaView;
use vstd::prelude::*;

verus! {

/// No two inputs have the same name.
pub open spec fn apart(inputs: Seq<ValueSpecView>) -> bool {
    forall|i: int, j: int| 0 <= i < j < inputs.len() ==> (#[trigger] inputs[i]).name != (#[trigger] inputs[j]).name
}

/// A program that has not run yet: every input stands for the slot in its place, and every other
/// name for the state of that name.
pub open spec fn starts(frame: FrameView, program: ProgramView, state: Map<Seq<char>, usize>, slots: Seq<usize>) -> bool {
    &&& frame.program == program
    &&& frame.at == 0
    &&& forall|k: int|
        0 <= k < program.inputs.len() ==> frame.values.dom().contains((#[trigger] program.inputs[k]).name)
            && frame.values[program.inputs[k].name] == slots[k]
    &&& forall|name: Seq<char>|
        (forall|k: int| 0 <= k < program.inputs.len() ==> (#[trigger] program.inputs[k]).name != name) ==> (
        #[trigger] frame.values.dom().contains(name) <==> state.dom().contains(name)) && (state.dom().contains(name)
            ==> frame.values[name] == state[name])
}

/// The inputs of a program stand for the slots that they were given.
pub proof fn inputs_stand_for_their_slots(
    program: ProgramView,
    state: Map<Seq<char>, usize>,
    slots: Seq<usize>,
    n: int,
)
    requires
        0 <= n <= program.inputs.len(),
        apart(program.inputs),
    ensures
        ({
            let values = bound_inputs(state, program.inputs, slots, n);
            &&& forall|k: int|
                0 <= k < n ==> values.dom().contains((#[trigger] program.inputs[k]).name) && values[program.inputs[k].name]
                    == slots[k]
            &&& forall|name: Seq<char>|
                (forall|k: int| 0 <= k < n ==> (#[trigger] program.inputs[k]).name != name) ==> (#[trigger] values.dom().contains(name)
                    <==> state.dom().contains(name)) && (state.dom().contains(name) ==> values[name] == state[name])
        }),
    decreases n,
{
    if n > 0 {
        inputs_stand_for_their_slots(program, state, slots, n - 1);
        let before = bound_inputs(state, program.inputs, slots, n - 1);
        let values = bound_inputs(state, program.inputs, slots, n);
        assert forall|k: int| 0 <= k < n implies values.dom().contains((#[trigger] program.inputs[k]).name)
            && values[program.inputs[k].name] == slots[k] by {
            if k < n - 1 {
                assert(program.inputs[k].name != program.inputs[n - 1].name);
            }
        }
        assert forall|name: Seq<char>|
            (forall|k: int| 0 <= k < n ==> (#[trigger] program.inputs[k]).name != name) implies (#[trigger] values.dom().contains(name)
            <==> state.dom().contains(name)) && (state.dom().contains(name) ==> values[name] == state[name]) by {
            assert(program.inputs[n - 1].name != name);
            assert(before.dom().contains(name) <==> state.dom().contains(name));
        }
    }
}

/// A true predicate runs the branch that a conditional has for it, and a false one the other.
/// The branch runs on the operands behind the predicate; nothing else of the evaluation changes.
/// A branch that does not take its operands is refused, and then nothing changes.
pub proof fn predicates_choose_their_branch(
    e: EvaluationView,
    then_branch: Box<ProgramView>,
    else_branch: Box<ProgramView>,
    result: ValueSpecView,
    value: bool,
)
    requires
        e.frames.len() > 0,
        e.frames.last().program.operations[e.frames.last().at].operator == (OperatorView::If { then_branch, else_branch, result }),
        apart(then_branch.inputs),
        apart(else_branch.inputs),
    ensures
        ({
            let top = e.frames.last();
            let names = top.program.operations[top.at].inputs;
            let slots = Seq::new((names.len() - 1) as nat, |k: int| top.values[names[k + 1]]);
            let metas = Seq::new(slots.len(), |k: int| e.metas[slots[k] as int]);
            let after = e.decided(value).0;
            let branch = if value {
                *then_branch
            } else {
                *else_branch
            };
            names.len() > 0 ==> {
                &&& e.decided(value).1 == guard_refusal(branch.inputs, metas, e.device)
                &&& e.decided(value).1 is Some ==> after == e
                &&& e.decided(value).1 is None ==> {
                    &&& after.frames.len() == e.frames.len() + 1
                    &&& after.frames.drop_last() == e.frames
                    &&& starts(after.frames.last(), branch, e.state, slots)
                    &&& after.waiting == Waiting::Ready
                    &&& after.metas == e.metas
                    &&& after.state == e.state
                    &&& after.device == e.device
                }
            }
        }),
{
    let top = e.frames.last();
    let names = top.program.operations[top.at].inputs;
    let branch = if value {
        *then_branch
    } else {
        *else_branch
    };
    if names.len() > 0 {
        let slots = Seq::new((names.len() - 1) as nat, |k: int| top.values[names[k + 1]]);
        assert(top.operands().skip(1) =~= slots);
        assert(e.facts(slots) =~= Seq::new(slots.len(), |k: int| e.metas[slots[k] as int]));
        inputs_stand_for_their_slots(branch, e.state, slots, branch.inputs.len() as int);
        assert(e.decided(value).1 is None ==> e.decided(value).0.frames.drop_last() =~= e.frames);
    }
}

/// The next action belongs to the operation whose turn it is: an operator is applied to the
/// slots of its operands in their order, the predicate of a conditional is asked for where it is
/// a Boolean scalar, and the identity gives its result the slot of its operand.
pub proof fn operations_run_on_their_operands(e: EvaluationView)
    requires
        e.frames.len() > 0,
        0 <= e.frames.last().at < e.frames.last().program.operations.len(),
    ensures
        ({
            let top = e.frames.last();
            let operation = top.program.operations[top.at];
            let slots = Seq::new(operation.inputs.len(), |k: int| top.values[operation.inputs[k]]);
            let (after, action) = e.next();
            match operation.operator {
                OperatorView::Identity => {
                    &&& action == Ok::<ActionView, ErrorView>(ActionView::Proceed)
                    &&& after.frames.len() == e.frames.len()
                    &&& after.frames.drop_last() == e.frames.drop_last()
                    &&& after.frames.last().program == top.program
                    &&& after.frames.last().at == top.at + 1
                    &&& operation.inputs.len() > 0 ==> after.frames.last().values == top.values.insert(
                        operation.name,
                        top.values[operation.inputs[0]],
                    )
                    &&& after.metas == e.metas
                },
                OperatorView::If { .. } => operation.inputs.len() > 0 ==> {
                    let predicate = e.metas[slots[0] as int];
                    if predicate.kind == Kind::Bool && predicate.shape.len() == 0 {
                        &&& action == Ok::<ActionView, ErrorView>(ActionView::Decide(slots[0]))
                        &&& after == (EvaluationView { waiting: Waiting::Deciding, ..e })
                    } else {
                        action is Err && after == e
                    }
                },
                _ => {
                    &&& action == Ok::<ActionView, ErrorView>(ActionView::Apply(slots))
                    &&& after == (EvaluationView { waiting: Waiting::Applying, ..e })
                },
            }
        }),
{
    let top = e.frames.last();
    let operation = top.program.operations[top.at];
    let slots = Seq::new(operation.inputs.len(), |k: int| top.values[operation.inputs[k]]);
    assert(top.operands() =~= slots);
    assert(e.frames.drop_last().push(top.bind(slots[0])).drop_last() =~= e.frames.drop_last());
}

/// The result of an operator takes a slot of its own, and the operation's name stands for it
/// from then on. What the other names stand for stays.
pub proof fn results_are_named(e: EvaluationView, meta: MetaView)
    requires
        e.frames.len() > 0,
        0 <= e.frames.last().at < e.frames.last().program.operations.len(),
        e.metas.len() <= usize::MAX,
    ensures
        ({
            let top = e.frames.last();
            let after = e.applied(meta);
            let name = top.program.operations[top.at].name;
            &&& after.metas == e.metas.push(meta)
            &&& after.frames.len() == e.frames.len()
            &&& after.frames.drop_last() == e.frames.drop_last()
            &&& after.frames.last().program == top.program
            &&& after.frames.last().at == top.at + 1
            &&& after.frames.last().values[name] == e.metas.len()
            &&& after.frames.last().values.dom() == top.values.dom().insert(name)
            &&& forall|other: Seq<char>|
                other != name && top.values.dom().contains(other) ==> #[trigger] after.frames.last().values[other]
                    == top.values[other]
            &&& after.waiting == Waiting::Ready
            &&& after.state == e.state
        }),
{
    let top = e.frames.last();
    let after = e.applied(meta);
    assert(after.frames.drop_last() =~= e.frames.drop_last());
    assert(after.frames.last().values.dom() =~= top.values.dom().insert(top.program.operations[top.at].name));
}

/// When a program has run, its outputs are the results, in the order of their leaves; a branch
/// hands its output on as the result of the conditional, where the promised contract holds.
pub proof fn outputs_are_handed_on(e: EvaluationView, leaves: Seq<Seq<char>>)
    requires
        e.frames.len() > 0,
        e.frames.last().at == e.frames.last().program.operations.len(),
        walked(e.frames.last().program.output_tree, 0, Seq::empty()) == Ok::<Seq<Seq<char>>, ErrorView>(leaves),
        leaves.len() > 0,
    ensures
        ({
            let top = e.frames.last();
            let slots = Seq::new(leaves.len(), |k: int| top.values[leaves[k]]);
            let (after, action) = e.next();
            if e.frames.len() == 1 {
                action == Ok::<ActionView, ErrorView>(ActionView::Done(slots)) && after == (EvaluationView {
                    waiting: Waiting::Finished,
                    ..e
                })
            } else {
                let caller = e.frames[e.frames.len() - 2];
                let name = caller.program.operations[caller.at].name;
                match action {
                    Ok(given) => {
                        &&& given == ActionView::Proceed
                        &&& after.frames.len() == e.frames.len() - 1
                        &&& after.frames.drop_last() == e.frames.drop_last().drop_last()
                        &&& after.frames.last().program == caller.program
                        &&& after.frames.last().at == caller.at + 1
                        &&& after.frames.last().values == caller.values.insert(name, slots[0])
                        &&& after.metas == e.metas
                    },
                    Err(_) => after == e,
                }
            }
        }),
{
    let top = e.frames.last();
    let slots = Seq::new(leaves.len(), |k: int| top.values[leaves[k]]);
    assert(top.outputs() =~= slots);
    if e.frames.len() > 1 {
        let outer = e.frames.drop_last();
        assert(outer.last() == e.frames[e.frames.len() - 2]);
        let caller = outer.last();
        assert(outer.drop_last().push(caller.bind(slots[0])).drop_last() =~= outer.drop_last());
    }
}

/// What a branch hands on was promised: where a conditional goes on, what the branch was given still meets
/// the inputs of the branch, and its result has the element type, rank and fixed sizes of the conditional's
/// result.
pub proof fn branches_keep_their_promise(e: EvaluationView, leaves: Seq<Seq<char>>, result: ValueSpecView, i: int, k: int, d: int)
    requires
        e.frames.len() > 1,
        e.frames.last().at == e.frames.last().program.operations.len(),
        walked(e.frames.last().program.output_tree, 0, Seq::empty()) == Ok::<Seq<Seq<char>>, ErrorView>(leaves),
        leaves.len() > 0,
        e.next().1 is Ok,
        e.frames[e.frames.len() - 2].operation().operator is If,
        e.frames[e.frames.len() - 2].operation().operator->result == result,
        e.frames[e.frames.len() - 2].operation().inputs.len() > 0,
        0 <= i < e.frames.last().program.inputs.len(),
        0 <= k < e.frames.last().program.inputs[i].dimensions.len(),
        0 <= d < result.dimensions.len(),
    ensures
        ({
            let caller = e.frames[e.frames.len() - 2];
            let names = caller.program.operations[caller.at].inputs;
            let input = e.frames.last().program.inputs[i];
            let given = e.metas[caller.values[names[i + 1]] as int];
            let made = e.metas[e.frames.last().values[leaves[0]] as int];
            &&& names.len() == e.frames.last().program.inputs.len() + 1
            &&& given.device == e.device && given.kind == input.dtype.element() && given.shape.len() == input.dimensions.len()
            &&& input.dimensions[k] matches DimensionView::Known(n) ==> given.shape[k] == n
            &&& made.device == e.device && made.kind == result.dtype.element() && made.shape.len() == result.dimensions.len()
            &&& result.dimensions[d] matches DimensionView::Known(n) ==> made.shape[d] == n
        }),
{
    let top = e.frames.last();
    let outer = e.frames.drop_last();
    let caller = outer.last();
    assert(caller == e.frames[e.frames.len() - 2]);
    let outputs = top.outputs();
    assert(outputs[0] == top.values[leaves[0]]);
    let specs = top.program.inputs.push(result);
    let slots = caller.operands().skip(1).push(outputs[0]);
    let metas = e.facts(slots);
    assert(guard_refusal(specs, metas, e.device) is None);
    let last = top.program.inputs.len() as int;
    assert(specs[i] == top.program.inputs[i] && specs[last] == result);
    guarded_tensors_meet_their_specifications(specs, metas, e.device, i, k);
    guarded_tensors_meet_their_specifications(specs, metas, e.device, last, d);
    assert(metas.len() == specs.len());
    assert(slots.len() == caller.operands().len());
    assert(slots[i] == caller.operands().skip(1)[i]);
    assert(slots[i] == caller.operands()[i + 1]);
    assert(slots[last] == outputs[0]);
}

} // verus!
