//! The evaluation of a portable program, one tensor operation at a time.
//!
//! The caller keeps the tensors in numbered slots and carries out what [`Evaluation::next`]
//! asks for. The evaluation decides which operation runs on which slots, which branch of a
//! conditional is taken and what the guards say.
use super::guard::{check_inputs, guard_refusal, metas_view};
use super::program::{conditional_verdict, known_name, leaf_count, operations_verdict, operator_ok, program_verdict};
use super::tree::{names_view, walked};
use super::types::{
    conditional_parts, copy_value_specs, operation_parts, program_parts, value_specs_view, OperationView, Operator,
    OperatorView, Program, ProgramView, ValueSpec, ValueSpecView,
};
use crate::error::{deployment_error, deployment_text, refusal, texts, ErrorView, Result};
use crate::kind::{Device, Kind};
use crate::names::{copy_names, NameMap};
use crate::tensor::{copy_shape, MetaView, TensorMeta};
use vstd::prelude::*;

verus! {

/// A program that was accepted in a model with the given state names.
pub open spec fn accepted(program: ProgramView, state: Set<Seq<char>>) -> bool {
    exists|depth: int, budget: int| (#[trigger] program_verdict(program, state, depth, budget)).1 is None
}

/// What the caller has to do next.
#[derive(Debug, PartialEq, Eq)]
pub enum Action {
    /// Nothing: ask again.
    Proceed,
    /// Run the operator of [`Evaluation::operator`] on these slots and report the result with
    /// [`Evaluation::applied`].
    Apply(Vec<usize>),
    /// Read the Boolean in this slot and report it with [`Evaluation::decided`].
    Decide(usize),
    /// Nothing: these slots are the results.
    Done(Vec<usize>),
}

/// The content of an [`Action`].
#[verifier::ext_equal]
pub enum ActionView {
    Proceed,
    Apply(Seq<usize>),
    Decide(usize),
    Done(Seq<usize>),
}

impl View for Action {
    type V = ActionView;

    open spec fn view(&self) -> ActionView {
        match self {
            Action::Proceed => ActionView::Proceed,
            Action::Apply(slots) => ActionView::Apply(slots@),
            Action::Decide(slot) => ActionView::Decide(*slot),
            Action::Done(slots) => ActionView::Done(slots@),
        }
    }
}

/// What an evaluation waits for.
#[derive(Debug, Clone, Copy, PartialEq, Eq, Structural)]
pub enum Waiting {
    /// The next action may be asked for.
    Ready,
    /// An operator is being applied.
    Applying,
    /// The Boolean in a slot is being read.
    Deciding,
    /// The results have been told.
    Finished,
}

/// A program under way.
#[derive(Debug)]
struct Frame<'p> {
    program: &'p Program,
    at: usize,
    values: NameMap<usize>,
}

/// The content of a frame: a program, how many of its operations have run, and the slots of
/// the names that are known.
pub struct FrameView {
    pub program: ProgramView,
    pub at: int,
    pub values: Map<Seq<char>, usize>,
}

impl<'p> View for Frame<'p> {
    type V = FrameView;

    closed spec fn view(&self) -> FrameView {
        FrameView { program: self.program@, at: self.at as int, values: self.values@ }
    }
}

impl FrameView {
    /// The operation that runs next.
    pub open spec fn operation(self) -> OperationView {
        self.program.operations[self.at]
    }

    /// The slots of a list of names.
    pub open spec fn slots(self, names: Seq<Seq<char>>) -> Seq<usize> {
        names.map_values(|n: Seq<char>| self.values[n])
    }

    /// The slots of the operands of the next operation.
    pub open spec fn operands(self) -> Seq<usize> {
        self.slots(self.operation().inputs)
    }

    /// The frame once the next operation has the given slot as its result.
    pub open spec fn bind(self, slot: usize) -> FrameView {
        FrameView { program: self.program, at: self.at + 1, values: self.values.insert(self.operation().name, slot) }
    }

    /// The slots of the outputs.
    pub open spec fn outputs(self) -> Seq<usize> {
        self.slots(walked(self.program.output_tree, 0, Seq::empty())->Ok_0)
    }

    /// Every name that the next operation may refer to has a slot.
    pub open spec fn sound(self, state: Set<Seq<char>>, slots: int) -> bool {
        &&& accepted(self.program, state)
        &&& 0 <= self.at <= self.program.operations.len()
        &&& forall|name: Seq<char>| #[trigger]
            known_name(self.program.inputs, self.program.operations, state, self.at, name) ==> self.values.dom().contains(name)
        &&& forall|name: Seq<char>| #[trigger] self.values.dom().contains(name) ==> self.values[name] < slots
    }
}

/// An evaluation under way.
#[derive(Debug)]
pub struct Evaluation<'p> {
    device: Device,
    state: NameMap<usize>,
    metas: Vec<TensorMeta>,
    frames: Vec<Frame<'p>>,
    waiting: Waiting,
}

/// The content of an [`Evaluation`].
pub struct EvaluationView {
    /// The device that every input has to lie on.
    pub device: Device,
    /// The slots of the state.
    pub state: Map<Seq<char>, usize>,
    /// What is known of the tensor in each slot.
    pub metas: Seq<MetaView>,
    /// The programs under way, the innermost last.
    pub frames: Seq<FrameView>,
    /// What the evaluation waits for.
    pub waiting: Waiting,
}

spec fn frames_view<'p>(frames: Seq<Frame<'p>>) -> Seq<FrameView> {
    frames.map_values(|f: Frame<'p>| f@)
}

impl<'p> View for Evaluation<'p> {
    type V = EvaluationView;

    closed spec fn view(&self) -> EvaluationView {
        EvaluationView {
            device: self.device,
            state: self.state@,
            metas: metas_view(self.metas@),
            frames: frames_view(self.frames@),
            waiting: self.waiting,
        }
    }
}

/// The slots of the inputs by name.
pub open spec fn bound_inputs(
    state: Map<Seq<char>, usize>,
    inputs: Seq<ValueSpecView>,
    slots: Seq<usize>,
    n: int,
) -> Map<Seq<char>, usize>
    decreases n,
{
    if n <= 0 {
        state
    } else {
        bound_inputs(state, inputs, slots, n - 1).insert(inputs[n - 1].name, slots[n - 1])
    }
}

/// A program that has not run yet, on the given input slots.
pub open spec fn entered(program: ProgramView, state: Map<Seq<char>, usize>, slots: Seq<usize>) -> FrameView {
    FrameView { program, at: 0, values: bound_inputs(state, program.inputs, slots, program.inputs.len() as int) }
}

/// What an evaluation is afterwards, and what it returned.
pub type Outcome = (EvaluationView, core::result::Result<ActionView, ErrorView>);

impl EvaluationView {
    /// The program that runs.
    pub open spec fn top(self) -> FrameView {
        self.frames.last()
    }

    /// What is known of the tensors in a list of slots.
    pub open spec fn facts(self, slots: Seq<usize>) -> Seq<MetaView> {
        slots.map_values(|s: usize| self.metas[s as int])
    }

    /// The evaluation with another innermost frame.
    pub open spec fn with_top(self, frame: FrameView) -> EvaluationView {
        EvaluationView { frames: self.frames.drop_last().push(frame), waiting: Waiting::Ready, ..self }
    }

    /// The programs are sound and every inner one is a branch of the next operation of the
    /// one that contains it.
    pub open spec fn sound(self) -> bool {
        &&& self.frames.len() > 0
        &&& forall|i: int|
            0 <= i < self.frames.len() ==> (#[trigger] self.frames[i]).sound(self.state.dom(), self.metas.len() as int)
        &&& forall|i: int|
            #![trigger self.frames[i]]
            0 <= i < self.frames.len() - 1 ==> self.frames[i].at < self.frames[i].program.operations.len() && is_branch(
                self.frames[i].operation().operator,
                self.frames[i + 1].program,
            )
        &&& forall|name: Seq<char>| #[trigger] self.state.dom().contains(name) ==> self.state[name] < self.metas.len()
        &&& self.waiting is Applying || self.waiting is Deciding ==> self.top().at < self.top().program.operations.len()
        &&& self.waiting is Deciding ==> self.top().operation().operator is If
        &&& self.waiting is Applying ==> !(self.top().operation().operator is If)
    }

    /// The innermost program has run: its outputs are the results, or the value of the
    /// conditional that it is a branch of, once they meet the promised contract.
    pub open spec fn returned(self) -> Outcome {
        let outputs = self.top().outputs();
        if self.frames.len() == 1 {
            (EvaluationView { waiting: Waiting::Finished, ..self }, Ok(ActionView::Done(outputs)))
        } else {
            let outer = EvaluationView { frames: self.frames.drop_last(), ..self };
            let caller = outer.top();
            let specs = self.top().program.inputs.push(promise(caller.operation().operator));
            let slots = caller.operands().skip(1).push(outputs[0]);
            match guard_refusal(specs, self.facts(slots), self.device) {
                Some(e) => (self, Err(e)),
                None => (outer.with_top(caller.bind(outputs[0])), Ok(ActionView::Proceed)),
            }
        }
    }

    /// The next action.
    pub open spec fn next(self) -> Outcome {
        let top = self.top();
        let operands = top.operands();
        if top.at >= top.program.operations.len() {
            self.returned()
        } else {
            match top.operation().operator {
                OperatorView::Identity => (self.with_top(top.bind(operands[0])), Ok(ActionView::Proceed)),
                OperatorView::If { .. } => {
                    let predicate = self.metas[operands[0] as int];
                    if predicate.kind != Kind::Bool || predicate.shape.len() != 0 {
                        (self, Err(deployment_text("conditional predicate must be a scalar Boolean"@)))
                    } else {
                        (EvaluationView { waiting: Waiting::Deciding, ..self }, Ok(ActionView::Decide(operands[0])))
                    }
                },
                _ => (EvaluationView { waiting: Waiting::Applying, ..self }, Ok(ActionView::Apply(operands))),
            }
        }
    }

    /// What follows when the next operation has a result: it takes a slot of its own.
    pub open spec fn applied(self, meta: MetaView) -> EvaluationView {
        EvaluationView { metas: self.metas.push(meta), ..self }.with_top(self.top().bind(self.metas.len() as usize))
    }

    /// What follows when the predicate of the next operation is known: the chosen branch runs
    /// on the other operands, once they meet its guards.
    pub open spec fn decided(self, value: bool) -> (EvaluationView, Option<ErrorView>) {
        let branch = chosen(self.top().operation().operator, value);
        let slots = self.top().operands().skip(1);
        match guard_refusal(branch.inputs, self.facts(slots), self.device) {
            Some(e) => (self, Some(e)),
            None => (
                EvaluationView {
                    frames: self.frames.push(entered(branch, self.state, slots)),
                    waiting: Waiting::Ready,
                    ..self
                },
                None,
            ),
        }
    }
}

/// A program is one of the branches of a conditional.
pub open spec fn is_branch(operator: OperatorView, program: ProgramView) -> bool {
    operator is If && (program == chosen(operator, true) || program == chosen(operator, false))
}

/// The branch that a predicate selects.
pub open spec fn chosen(operator: OperatorView, value: bool) -> ProgramView {
    match operator {
        OperatorView::If { then_branch, else_branch, .. } => if value {
            *then_branch
        } else {
            *else_branch
        },
        _ => arbitrary(),
    }
}

/// The contract of a conditional's result.
pub open spec fn promise(operator: OperatorView) -> ValueSpecView {
    match operator {
        OperatorView::If { result, .. } => result,
        _ => arbitrary(),
    }
}

/// What acceptance says of the operation at `i`.
pub(crate) proof fn operation_is_sound(program: ProgramView, state: Set<Seq<char>>, i: int)
    requires
        accepted(program, state),
        0 <= i < program.operations.len(),
    ensures
        ({
            let node = program.operations[i];
            &&& forall|k: int|
                0 <= k < node.inputs.len() ==> known_name(
                    program.inputs,
                    program.operations,
                    state,
                    i,
                    #[trigger] node.inputs[k],
                )
            &&& operator_ok(node.operator, node.inputs.len() as int)
            &&& node.operator is If ==> {
                &&& accepted(chosen(node.operator, true), state)
                &&& accepted(chosen(node.operator, false), state)
                &&& chosen(node.operator, true).inputs == chosen(node.operator, false).inputs
                &&& leaf_count(chosen(node.operator, true).output_tree) == Some(1nat)
                &&& leaf_count(chosen(node.operator, false).output_tree) == Some(1nat)
            }
        }),
{
    let (depth, budget) = choose|depth: int, budget: int|
        (#[trigger] program_verdict(program, state, depth, budget)).1 is None;
    let spent = budget + program.operations.len() + program.inputs.len();
    let n = program.operations.len();
    assert(operations_verdict(program.inputs, program.operations, state, depth, spent, n).1 is None);
    earlier_operations_pass(program.inputs, program.operations, state, depth, spent, (i + 1) as nat, n);
    let node = program.operations[i];
    let (left, stopped) = operations_verdict(program.inputs, program.operations, state, depth, spent, i as nat);
    assert(stopped is None) by {
        earlier_operations_pass(program.inputs, program.operations, state, depth, spent, i as nat, n);
    }
    let inner = conditional_verdict(node.operator, state, depth + 1, left);
    assert(inner.1 is None);
    if let OperatorView::If { then_branch, else_branch, result } = node.operator {
        let first = program_verdict(*then_branch, state, depth + 1, left);
        assert(first.1 is None);
        assert(program_verdict(*else_branch, state, depth + 1, first.0).1 is None);
    }
}

proof fn earlier_operations_pass(
    inputs: Seq<ValueSpecView>,
    operations: Seq<OperationView>,
    state: Set<Seq<char>>,
    depth: int,
    budget: int,
    k: nat,
    n: nat,
)
    requires
        k <= n <= operations.len(),
        operations_verdict(inputs, operations, state, depth, budget, n).1 is None,
    ensures
        operations_verdict(inputs, operations, state, depth, budget, k).1 is None,
    decreases n - k,
{
    if k < n {
        earlier_operations_pass(inputs, operations, state, depth, budget, k, (n - 1) as nat);
    }
}

/// What acceptance says of the outputs.
pub(crate) proof fn outputs_are_sound(program: ProgramView, state: Set<Seq<char>>)
    requires
        accepted(program, state),
    ensures
        walked(program.output_tree, 0, Seq::empty()) is Ok,
        walked(program.output_tree, 0, Seq::empty())->Ok_0.len() > 0,
        forall|k: int|
            0 <= k < walked(program.output_tree, 0, Seq::empty())->Ok_0.len() ==> known_name(
                program.inputs,
                program.operations,
                state,
                program.operations.len() as int,
                #[trigger] walked(program.output_tree, 0, Seq::empty())->Ok_0[k],
            ),
{
    let (depth, budget) = choose|depth: int, budget: int|
        (#[trigger] program_verdict(program, state, depth, budget)).1 is None;
    assert(program_verdict(program, state, depth, budget).1 is None);
}

/// Binding the next result keeps a frame sound.
proof fn bind_is_sound(frame: FrameView, state: Set<Seq<char>>, slots: int, slot: usize, more: int)
    requires
        frame.sound(state, slots),
        frame.at < frame.program.operations.len(),
        slots <= more,
        slot < more,
    ensures
        frame.bind(slot).sound(state, more),
{
    let next = frame.bind(slot);
    let p = frame.program;
    assert forall|name: Seq<char>| #[trigger] known_name(p.inputs, p.operations, state, next.at, name) implies next.values.dom().contains(
        name,
    ) by {
        if name != frame.operation().name {
            assert(known_name(p.inputs, p.operations, state, frame.at, name)) by {
                if exists|j: int| 0 <= j < next.at && (#[trigger] p.operations[j]).name == name {
                    let j = choose|j: int| 0 <= j < next.at && (#[trigger] p.operations[j]).name == name;
                    assert(j != frame.at);
                }
            }
        }
    }
    assert forall|name: Seq<char>| #[trigger] next.values.dom().contains(name) implies next.values[name] < more by {
        if name != frame.operation().name {
            assert(frame.values.dom().contains(name));
        }
    }
}

/// More slots keep a frame sound.
proof fn more_slots_are_sound(frame: FrameView, state: Set<Seq<char>>, slots: int, more: int)
    requires
        frame.sound(state, slots),
        slots <= more,
    ensures
        frame.sound(state, more),
{
    assert forall|name: Seq<char>| #[trigger] frame.values.dom().contains(name) implies frame.values[name] < more by {}
}

/// A program that has just been entered is sound.
proof fn entered_is_sound(program: ProgramView, state: Map<Seq<char>, usize>, slots: Seq<usize>, count: int)
    requires
        accepted(program, state.dom()),
        slots.len() == program.inputs.len(),
        forall|name: Seq<char>| #[trigger] state.dom().contains(name) ==> state[name] < count,
        forall|i: int| 0 <= i < slots.len() ==> #[trigger] slots[i] < count,
    ensures
        entered(program, state, slots).sound(state.dom(), count),
{
    let n = program.inputs.len() as int;
    bound_inputs_are_known(state, program.inputs, slots, n, count);
}

proof fn bound_inputs_are_known(state: Map<Seq<char>, usize>, inputs: Seq<ValueSpecView>, slots: Seq<usize>, n: int, count: int)
    requires
        0 <= n <= inputs.len(),
        slots.len() == inputs.len(),
        forall|name: Seq<char>| #[trigger] state.dom().contains(name) ==> state[name] < count,
        forall|i: int| 0 <= i < slots.len() ==> #[trigger] slots[i] < count,
    ensures
        ({
            let values = bound_inputs(state, inputs, slots, n);
            &&& forall|name: Seq<char>| state.dom().contains(name) ==> #[trigger] values.dom().contains(name)
            &&& forall|j: int| 0 <= j < n ==> values.dom().contains((#[trigger] inputs[j]).name)
            &&& forall|name: Seq<char>| #[trigger] values.dom().contains(name) ==> values[name] < count
        }),
    decreases n,
{
    if n > 0 {
        bound_inputs_are_known(state, inputs, slots, n - 1, count);
        let before = bound_inputs(state, inputs, slots, n - 1);
        let values = bound_inputs(state, inputs, slots, n);
        assert forall|name: Seq<char>| #[trigger] values.dom().contains(name) implies values[name] < count by {
            if name != inputs[n - 1].name {
                assert(before.dom().contains(name));
            }
        }
        assert forall|j: int| 0 <= j < n implies values.dom().contains((#[trigger] inputs[j]).name) by {
            if j < n - 1 {
                assert(before.dom().contains(inputs[j].name));
            }
        }
        assert forall|name: Seq<char>| state.dom().contains(name) implies #[trigger] values.dom().contains(name) by {
            assert(before.dom().contains(name));
        }
    }
}

fn bind_inputs(state: &NameMap<usize>, inputs: &Vec<ValueSpec>, slots: &Vec<usize>) -> (r: NameMap<usize>)
    requires
        state.wf(),
        inputs@.len() == slots@.len(),
    ensures
        r.wf(),
        r@ == bound_inputs(state@, value_specs_view(inputs@), slots@, inputs@.len() as int),
{
    let mut values = copy_names(state);
    let mut i: usize = 0;
    while i < inputs.len()
        invariant
            inputs@.len() == slots@.len(),
            i <= inputs@.len(),
            values.wf(),
            values@ == bound_inputs(state@, value_specs_view(inputs@), slots@, i as int),
        decreases inputs@.len() - i,
    {
        assert(value_specs_view(inputs@)[i as int] == inputs@[i as int]@);
        values.insert(inputs[i].name.clone(), slots[i]);
        i += 1;
    }
    values
}

fn copy_meta(meta: &TensorMeta) -> (r: TensorMeta)
    ensures
        r@ == meta@,
{
    TensorMeta { defined: meta.defined, shape: copy_shape(meta.shape.as_slice()), kind: meta.kind, device: meta.device }
}

impl<'p> Frame<'p> {
    /// The frame once the next operation has the given slot as its result.
    fn advance(self, slot: usize) -> (r: Self)
        requires
            self.values.wf(),
            self@.at < self@.program.operations.len(),
        ensures
            r.values.wf(),
            r@ == self@.bind(slot),
    {
        let Frame { program, at, values } = self;
        let mut values = values;
        proof {
            program_parts(*program);
            assert(self@.operation() == program.operations@[at as int]@);
            operation_parts(program.operations@[at as int]);
        }
        values.insert(program.operations[at].name.clone(), slot);
        assert(program.operations.len() == program.operations@.len());
        Frame { program, at: at + 1, values }
    }

    /// The slots of the names in `names`, from `from` on.
    fn operand_slots(&self, names: &Vec<String>, from: usize) -> (r: Vec<usize>)
        requires
            self.values.wf(),
            from <= names@.len(),
            forall|k: int| 0 <= k < names@.len() ==> self@.values.dom().contains(#[trigger] texts(names@)[k]),
        ensures
            r@ == self@.slots(texts(names@)).skip(from as int),
    {
        let ghost view = texts(names@);
        let ghost expected = self@.slots(view).skip(from as int);
        let mut out: Vec<usize> = Vec::new();
        let mut k: usize = from;
        while k < names.len()
            invariant
                self.values.wf(),
                view == texts(names@),
                expected == self@.slots(view).skip(from as int),
                from <= k <= names@.len(),
                out@.len() == k - from,
                forall|j: int| 0 <= j < names@.len() ==> self@.values.dom().contains(#[trigger] view[j]),
                forall|j: int| 0 <= j < out@.len() ==> #[trigger] out@[j] == expected[j],
            decreases names@.len() - k,
        {
            assert(view[k as int] == names@[k as int]@);
            assert(self@.values.dom().contains(view[k as int]));
            match self.values.get(names[k].as_str()) {
                Some(slot) => {
                    out.push(*slot);
                },
                None => {},
            }
            k += 1;
        }
        assert(out@ =~= expected);
        out
    }

    /// The slots of the outputs.
    fn output_slots(&self, state: Ghost<Set<Seq<char>>>, slots: Ghost<int>) -> (r: Vec<usize>)
        requires
            self.values.wf(),
            self@.sound(state@, slots@),
            self@.at == self@.program.operations.len(),
        ensures
            r@ == self@.outputs(),
            r@.len() > 0,
            forall|k: int| 0 <= k < r@.len() ==> #[trigger] r@[k] < slots@,
            leaf_count(self@.program.output_tree) == Some(1nat) ==> r@.len() == 1,
    {
        proof {
            outputs_are_sound(self@.program, state@);
            program_parts(*self.program);
        }
        let mut out: Vec<usize> = Vec::new();
        match self.program.output_tree.leaves() {
            Ok(names) => {
                let ghost view = names_view(names@);
                let mut k: usize = 0;
                while k < names.len()
                    invariant
                        self.values.wf(),
                        self@.sound(state@, slots@),
                        self@.at == self@.program.operations.len(),
                        view == names_view(names@),
                        walked(self@.program.output_tree, 0, Seq::empty()) == Ok::<Seq<Seq<char>>, ErrorView>(view),
                        forall|j: int|
                            0 <= j < view.len() ==> known_name(
                                self@.program.inputs,
                                self@.program.operations,
                                state@,
                                self@.program.operations.len() as int,
                                #[trigger] view[j],
                            ),
                        k <= names@.len(),
                        out@.len() == k,
                        forall|j: int| 0 <= j < k ==> #[trigger] out@[j] == self@.values[view[j]] && out@[j] < slots@,
                    decreases names@.len() - k,
                {
                    assert(view[k as int] == names@[k as int]@);
                    assert(self@.values.dom().contains(view[k as int]));
                    match self.values.get(names[k]) {
                        Some(slot) => {
                            out.push(*slot);
                        },
                        None => {},
                    }
                    k += 1;
                }
                assert(out@ =~= self@.outputs());
            },
            Err(_) => {},
        }
        out
    }
}

/// The operands of the next operation have slots.
proof fn operands_have_slots(frame: FrameView, state: Set<Seq<char>>, slots: int)
    requires
        frame.sound(state, slots),
        frame.at < frame.program.operations.len(),
    ensures
        forall|k: int|
            0 <= k < frame.operation().inputs.len() ==> frame.values.dom().contains(#[trigger] frame.operation().inputs[k]),
        forall|k: int| 0 <= k < frame.operands().len() ==> #[trigger] frame.operands()[k] < slots,
        frame.operands().len() == frame.operation().inputs.len(),
        operator_ok(frame.operation().operator, frame.operation().inputs.len() as int),
{
    operation_is_sound(frame.program, state, frame.at);
    assert forall|k: int| 0 <= k < frame.operation().inputs.len() implies frame.values.dom().contains(
        #[trigger] frame.operation().inputs[k],
    ) by {
        assert(known_name(frame.program.inputs, frame.program.operations, state, frame.at, frame.operation().inputs[k]));
    }
    assert forall|k: int| 0 <= k < frame.operands().len() implies #[trigger] frame.operands()[k] < slots by {
        assert(frame.values.dom().contains(frame.operation().inputs[k]));
    }
}

/// Binding the result of the next operation keeps an evaluation sound.
proof fn bound_is_sound(run: EvaluationView, slot: usize)
    requires
        run.sound(),
        run.top().at < run.top().program.operations.len(),
        slot < run.metas.len(),
    ensures
        run.with_top(run.top().bind(slot)).sound(),
{
    let next = run.with_top(run.top().bind(slot));
    let last = run.frames.len() - 1;
    let count = run.metas.len() as int;
    assert(run.frames[last].sound(run.state.dom(), count));
    bind_is_sound(run.top(), run.state.dom(), count, slot, count);
    assert forall|i: int| 0 <= i < next.frames.len() implies (#[trigger] next.frames[i]).sound(next.state.dom(), count) by {
        if i < last {
            assert(next.frames[i] == run.frames[i]);
        }
    }
    assert forall|i: int|
        #![trigger next.frames[i]]
        0 <= i < next.frames.len() - 1 implies next.frames[i].at < next.frames[i].program.operations.len() && is_branch(
        next.frames[i].operation().operator,
        next.frames[i + 1].program,
    ) by {
        assert(next.frames[i] == run.frames[i]);
        assert(next.frames[i + 1].program == run.frames[i + 1].program);
    }
}

/// An evaluation without its innermost program is sound.
proof fn without_top_is_sound(run: EvaluationView)
    requires
        run.sound(),
        run.waiting is Ready,
        run.frames.len() > 1,
    ensures
        (EvaluationView { frames: run.frames.drop_last(), ..run }).sound(),
        run.frames.drop_last().last().at < run.frames.drop_last().last().program.operations.len(),
{
    let next = EvaluationView { frames: run.frames.drop_last(), ..run };
    let count = run.metas.len() as int;
    assert forall|i: int| 0 <= i < next.frames.len() implies (#[trigger] next.frames[i]).sound(next.state.dom(), count) by {
        assert(next.frames[i] == run.frames[i]);
    }
    assert forall|i: int|
        #![trigger next.frames[i]]
        0 <= i < next.frames.len() - 1 implies next.frames[i].at < next.frames[i].program.operations.len() && is_branch(
        next.frames[i].operation().operator,
        next.frames[i + 1].program,
    ) by {
        assert(next.frames[i] == run.frames[i]);
        assert(next.frames[i + 1] == run.frames[i + 1]);
    }
    assert(run.frames[run.frames.len() - 2] == next.frames.last());
}

/// The result of a branch goes to the conditional that it belongs to.
proof fn caller_is_sound(run: EvaluationView)
    requires
        run.sound(),
        run.frames.len() > 1,
    ensures
        ({
            let caller = run.frames[run.frames.len() - 2];
            &&& caller.sound(run.state.dom(), run.metas.len() as int)
            &&& caller.at < caller.program.operations.len()
            &&& caller.operation().operator is If
            &&& is_branch(caller.operation().operator, run.top().program)
            &&& leaf_count(run.top().program.output_tree) == Some(1nat)
            &&& caller.operation().inputs.len() == run.top().program.inputs.len() + 1
            &&& forall|k: int|
                0 <= k < caller.operation().inputs.len() ==> caller.values.dom().contains(
                    #[trigger] caller.operation().inputs[k],
                )
            &&& forall|k: int| 0 <= k < caller.operands().len() ==> #[trigger] caller.operands()[k] < run.metas.len()
            &&& caller.operands().len() == caller.operation().inputs.len()
        }),
{
    let i = run.frames.len() - 2;
    let caller = run.frames[i];
    assert(run.frames[i + 1] == run.top());
    operation_is_sound(caller.program, run.state.dom(), caller.at);
    operands_have_slots(caller, run.state.dom(), run.metas.len() as int);
}

impl<'p> Evaluation<'p> {
    /// The maps are in order and the programs are sound.
    pub closed spec fn wf(self) -> bool {
        &&& self.state.wf()
        &&& self@.sound()
        &&& forall|i: int| 0 <= i < self.frames@.len() ==> (#[trigger] self.frames@[i]).values.wf()
    }

    /// Begins the evaluation of a program. `metas` tells what is known of the tensor in each
    /// slot, `state` where the state is, `inputs` where the inputs are.
    pub fn begin(
        program: &'p Program,
        state: NameMap<usize>,
        metas: Vec<TensorMeta>,
        inputs: Vec<usize>,
        device: Device,
    ) -> (r: Result<Self>)
        requires
            state.wf(),
            accepted(program@, state@.dom()),
            forall|name: Seq<char>| #[trigger] state@.dom().contains(name) ==> state@[name] < metas@.len(),
            forall|i: int| 0 <= i < inputs@.len() ==> #[trigger] inputs@[i] < metas@.len(),
        ensures
            refusal(r) == guard_refusal(
                program@.inputs,
                inputs@.map_values(|s: usize| metas_view(metas@)[s as int]),
                device,
            ),
            r matches Ok(run) ==> run.wf() && run@ == (EvaluationView {
                device,
                state: state@,
                metas: metas_view(metas@),
                frames: seq![entered(program@, state@, inputs@)],
                waiting: Waiting::Ready,
            }),
    {
        proof {
            program_parts(*program);
        }
        let facts = gather(&metas, &inputs);
        if let Err(e) = check_inputs(program.inputs.as_slice(), facts.as_slice(), device) {
            return Err(e);
        }
        let values = bind_inputs(&state, &program.inputs, &inputs);
        let frame = Frame { program, at: 0, values };
        let frames: Vec<Frame<'p>> = vec![frame];
        proof {
            entered_is_sound(program@, state@, inputs@, metas@.len() as int);
            assert(frames_view(frames@) =~= seq![entered(program@, state@, inputs@)]);
        }
        Ok(Evaluation { device, state, metas, frames, waiting: Waiting::Ready })
    }

    /// What the evaluation waits for.
    pub fn waiting(&self) -> (r: Waiting)
        ensures
            r == self@.waiting,
    {
        self.waiting
    }

    /// The operator that is to be applied.
    pub fn operator(&self) -> (r: &'p Operator)
        requires
            self.wf(),
            self@.waiting is Applying,
        ensures
            r@ == self@.top().operation().operator,
    {
        let frame = &self.frames[self.frames.len() - 1];
        proof {
            assert(self@.top() == frame@);
            program_parts(*frame.program);
            assert(frame@.operation() == frame.program.operations@[frame.at as int]@);
            operation_parts(frame.program.operations@[frame.at as int]);
        }
        &frame.program.operations[frame.at].operator
    }

    /// Takes `slot` as the result of the next operation of the innermost program.
    fn bind(&mut self, slot: usize)
        requires
            old(self).wf(),
            old(self)@.top().at < old(self)@.top().program.operations.len(),
            slot < old(self)@.metas.len(),
        ensures
            final(self).wf(),
            final(self)@ == old(self)@.with_top(old(self)@.top().bind(slot)),
    {
        let ghost start = *self;
        if let Some(frame) = self.frames.pop() {
            assert(start@.top() == frame@);
            self.frames.push(frame.advance(slot));
        }
        self.waiting = Waiting::Ready;
        proof {
            bound_is_sound(start@, slot);
            assert(self@.frames =~= start@.frames.drop_last().push(start@.top().bind(slot)));
            assert(self@ == start@.with_top(start@.top().bind(slot)));
            assert forall|i: int| 0 <= i < self.frames@.len() implies (#[trigger] self.frames@[i]).values.wf() by {
                if i < start.frames@.len() - 1 {
                    assert(self.frames@[i] == start.frames@[i]);
                }
            }
        }
    }

    /// Holds the result of a branch, all of whose operations have run, against the contract
    /// of its conditional.
    fn check_branch(&self, output: usize) -> (r: Result<()>)
        requires
            self.wf(),
            self@.frames.len() > 1,
            self@.top().at == self@.top().program.operations.len(),
            output == self@.top().outputs()[0],
            output < self@.metas.len(),
        ensures
            refusal(r) == ({
                let caller = self@.frames.drop_last().last();
                guard_refusal(
                    self@.top().program.inputs.push(promise(caller.operation().operator)),
                    self@.facts(caller.operands().skip(1).push(self@.top().outputs()[0])),
                    self@.device,
                )
            }),
    {
        let last: usize = self.frames.len() - 1;
        let frame = &self.frames[last];
        let caller = &self.frames[last - 1];
        proof {
            assert(self@.top() == frame@);
            assert(self@.frames[last - 1] == caller@);
            assert(self@.frames.drop_last().last() == caller@);
            caller_is_sound(self@);
            program_parts(*frame.program);
            program_parts(*caller.program);
            assert(caller@.operation() == caller.program.operations@[caller.at as int]@);
            operation_parts(caller.program.operations@[caller.at as int]);
        }
        let node = &caller.program.operations[caller.at];
        let mut slots = caller.operand_slots(&node.inputs, 1);
        slots.push(output);
        let mut specs = copy_value_specs(frame.program.inputs.as_slice());
        if let Operator::If { then_branch, else_branch, result } = &node.operator {
            proof {
                conditional_parts(*then_branch, *else_branch, *result);
            }
            specs.push(result.clone());
        }
        proof {
            let expected = frame@.program.inputs.push(promise(caller@.operation().operator));
            assert(value_specs_view(specs@) =~= expected);
            assert(slots@ =~= caller@.operands().skip(1).push(output));
        }
        let facts = gather(&self.metas, &slots);
        assert(metas_view(facts@) =~= self@.facts(slots@));
        check_inputs(specs.as_slice(), facts.as_slice(), self.device)
    }

    /// Drops the innermost program.
    fn leave(&mut self)
        requires
            old(self).wf(),
            old(self)@.waiting is Ready,
            old(self)@.frames.len() > 1,
        ensures
            final(self).wf(),
            final(self)@ == (EvaluationView { frames: old(self)@.frames.drop_last(), ..old(self)@ }),
    {
        let ghost start = *self;
        self.frames.pop();
        proof {
            without_top_is_sound(start@);
            assert(self@.frames =~= start@.frames.drop_last());
            assert(self@ == (EvaluationView { frames: start@.frames.drop_last(), ..start@ }));
            assert forall|i: int| 0 <= i < self.frames@.len() implies (#[trigger] self.frames@[i]).values.wf() by {
                assert(self.frames@[i] == start.frames@[i]);
            }
        }
    }

    /// Completes the innermost program, all of whose operations have run.
    fn finish_branch(&mut self) -> (r: Result<Action>)
        requires
            old(self).wf(),
            old(self)@.waiting is Ready,
            old(self)@.top().at == old(self)@.top().program.operations.len(),
        ensures
            final(self).wf(),
            (final(self)@, acted(r)) == old(self)@.returned(),
    {
        let ghost start = *self;
        let last: usize = self.frames.len() - 1;
        let frame = &self.frames[last];
        proof {
            assert(self@.top() == frame@);
            assert(self@.frames[last as int].sound(self@.state.dom(), self@.metas.len() as int));
        }
        let outputs = frame.output_slots(Ghost(self@.state.dom()), Ghost(self@.metas.len() as int));
        if self.frames.len() == 1 {
            self.waiting = Waiting::Finished;
            assert(self@.sound());
            return Ok(Action::Done(outputs));
        }
        if let Err(e) = self.check_branch(outputs[0]) {
            return Err(e);
        }
        proof {
            without_top_is_sound(start@);
        }
        self.leave();
        self.bind(outputs[0]);
        Ok(Action::Proceed)
    }

    /// Tells what the caller has to do next.
    pub fn next(&mut self) -> (r: Result<Action>)
        requires
            old(self).wf(),
            old(self)@.waiting is Ready,
        ensures
            final(self).wf(),
            (final(self)@, acted(r)) == old(self)@.next(),
    {
        let ghost start = *self;
        let last: usize = self.frames.len() - 1;
        let frame = &self.frames[last];
        proof {
            assert(self@.top() == frame@);
            assert(self@.frames[last as int].sound(self@.state.dom(), self@.metas.len() as int));
            program_parts(*frame.program);
        }
        if frame.at >= frame.program.operations.len() {
            return self.finish_branch();
        }
        let node = &frame.program.operations[frame.at];
        proof {
            assert(frame@.operation() == node@);
            operation_parts(*node);
            operands_have_slots(frame@, self@.state.dom(), self@.metas.len() as int);
        }
        let operands = frame.operand_slots(&node.inputs, 0);
        assert(operands@ =~= frame@.operands());
        match &node.operator {
            Operator::Identity => {
                self.bind(operands[0]);
                Ok(Action::Proceed)
            },
            Operator::If { then_branch, else_branch, result } => {
                proof {
                    conditional_parts(*then_branch, *else_branch, *result);
                }
                let predicate = &self.metas[operands[0]];
                assert(self@.metas[operands@[0] as int] == predicate@);
                if predicate.kind != Kind::Bool || predicate.shape.len() != 0 {
                    return Err(deployment_error("conditional predicate must be a scalar Boolean"));
                }
                self.waiting = Waiting::Deciding;
                assert(self@.frames == start@.frames);
                Ok(Action::Decide(operands[0]))
            },
            _ => {
                self.waiting = Waiting::Applying;
                assert(self@.frames == start@.frames);
                Ok(Action::Apply(operands))
            },
        }
    }

    /// Reports the result of the operator that was to be applied. It takes the next free slot.
    pub fn applied(&mut self, meta: TensorMeta)
        requires
            old(self).wf(),
            old(self)@.waiting is Applying,
            old(self)@.metas.len() < usize::MAX,
        ensures
            final(self).wf(),
            final(self)@ == old(self)@.applied(meta@),
    {
        let ghost start = *self;
        let slot: usize = self.metas.len();
        self.metas.push(meta);
        proof {
            assert(self@.metas =~= start@.metas.push(meta@));
            assert(self@.frames == start@.frames);
            assert forall|i: int| 0 <= i < self@.frames.len() implies (#[trigger] self@.frames[i]).sound(
                self@.state.dom(),
                self@.metas.len() as int,
            ) by {
                more_slots_are_sound(start@.frames[i], start@.state.dom(), start@.metas.len() as int, self@.metas.len() as int);
            }
            assert(self@.sound());
        }
        self.bind(slot);
    }

    /// Reports the Boolean that was to be read, and enters the branch that it selects.
    pub fn decided(&mut self, value: bool) -> (r: Result<()>)
        requires
            old(self).wf(),
            old(self)@.waiting is Deciding,
        ensures
            final(self).wf(),
            (final(self)@, refusal(r)) == old(self)@.decided(value),
    {
        let ghost start = *self;
        let last: usize = self.frames.len() - 1;
        let frame = &self.frames[last];
        proof {
            assert(self@.top() == frame@);
            assert(self@.frames[last as int].sound(self@.state.dom(), self@.metas.len() as int));
            program_parts(*frame.program);
        }
        let node = &frame.program.operations[frame.at];
        proof {
            assert(frame@.operation() == node@);
            operation_parts(*node);
            operation_is_sound(frame@.program, self@.state.dom(), frame@.at);
            operands_have_slots(frame@, self@.state.dom(), self@.metas.len() as int);
        }
        if let Operator::If { then_branch, else_branch, result } = &node.operator {
            proof {
                conditional_parts(*then_branch, *else_branch, *result);
            }
            let branch: &'p Program = if value {
                then_branch
            } else {
                else_branch
            };
            let slots = frame.operand_slots(&node.inputs, 1);
            proof {
                program_parts(*branch);
                assert(branch@ == chosen(frame@.operation().operator, value));
            }
            let facts = gather(&self.metas, &slots);
            assert(metas_view(facts@) =~= start@.facts(slots@));
            if let Err(e) = check_inputs(branch.inputs.as_slice(), facts.as_slice(), self.device) {
                return Err(e);
            }
            let values = bind_inputs(&self.state, &branch.inputs, &slots);
            proof {
                entered_is_sound(branch@, start@.state, slots@, start@.metas.len() as int);
            }
            self.frames.push(Frame { program: branch, at: 0, values });
            self.waiting = Waiting::Ready;
            proof {
                assert(self@.frames =~= start@.frames.push(entered(branch@, start@.state, slots@)));
                assert forall|i: int| 0 <= i < self@.frames.len() implies (#[trigger] self@.frames[i]).sound(
                    self@.state.dom(),
                    self@.metas.len() as int,
                ) by {
                    if i <= last {
                        assert(self@.frames[i] == start@.frames[i]);
                    }
                }
                assert forall|i: int|
                    #![trigger self@.frames[i]]
                    0 <= i < self@.frames.len() - 1 implies self@.frames[i].at < self@.frames[i].program.operations.len()
                    && is_branch(self@.frames[i].operation().operator, self@.frames[i + 1].program) by {
                    assert(self@.frames[i] == start@.frames[i]);
                    if i < last {
                        assert(self@.frames[i + 1] == start@.frames[i + 1]);
                    }
                }
                assert forall|i: int| 0 <= i < self.frames@.len() implies (#[trigger] self.frames@[i]).values.wf() by {
                    if i <= last {
                        assert(self.frames@[i] == start.frames@[i]);
                    }
                }
            }
        }
        Ok(())
    }
}

/// What an evaluation step returns, as mathematical content.
pub open spec fn acted(r: Result<Action>) -> core::result::Result<ActionView, ErrorView> {
    match r {
        Ok(action) => Ok(action@),
        Err(e) => Err(e@),
    }
}

/// What is known of the tensors in a list of slots.
fn gather(metas: &Vec<TensorMeta>, slots: &Vec<usize>) -> (r: Vec<TensorMeta>)
    requires
        forall|i: int| 0 <= i < slots@.len() ==> #[trigger] slots@[i] < metas@.len(),
    ensures
        metas_view(r@) == slots@.map_values(|s: usize| metas_view(metas@)[s as int]),
{
    let mut out: Vec<TensorMeta> = Vec::new();
    let mut i: usize = 0;
    while i < slots.len()
        invariant
            forall|i: int| 0 <= i < slots@.len() ==> #[trigger] slots@[i] < metas@.len(),
            i <= slots@.len(),
            out@.len() == i,
            forall|j: int| 0 <= j < i ==> (#[trigger] out@[j])@ == metas@[slots@[j] as int]@,
        decreases slots@.len() - i,
    {
        assert(slots@[i as int] < metas@.len());
        out.push(copy_meta(&metas[slots[i]]));
        i += 1;
    }
    assert(metas_view(out@) =~= slots@.map_values(|s: usize| metas_view(metas@)[s as int]));
    out
}

} // verus!
