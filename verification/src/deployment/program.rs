//! What makes a portable program valid.
use super::tree::{names_view, walked, Tree, TreeView, MAX_DEPTH, MAX_NODES};
use super::types::{
    conditional_parts, dimensions_view, operation_parts, operations_view, program_parts, same_value_specs, value_specs_view,
    Dimension, DimensionView, Operation, OperationView, Operator, OperatorView, Program, ProgramView, ValueSpec, ValueSpecView,
};
use crate::error::{deployment_error, deployment_text, first_at, first_at_step, refusal, texts, ErrorView, Result};
use crate::names::{copy_names, NameMap};
use crate::text::{byte_length, has_control, is_control, join, owned, same};
use vstd::prelude::*;
use vstd::string::*;
use vstd::utf8::encode_utf8;

verus! {

/// The longest value name, in bytes.
pub const MAX_NAME: usize = 1024;

/// The largest number of axes.
pub const MAX_RANK: usize = 64;

/// Why a value name is refused, if it is.
pub open spec fn value_name_refusal(name: Seq<char>) -> Option<ErrorView> {
    if name.len() == 0 || encode_utf8(name).len() > MAX_NAME || exists|i: int| 0 <= i < name.len() && is_control(#[trigger] name[i]) {
        Some(deployment_text("invalid or excessive value name"@))
    } else {
        None
    }
}

/// Checks that a value name is neither empty nor too long and holds no control character.
pub fn valid_name(name: &str) -> (r: Result<()>)
    ensures
        refusal(r) == value_name_refusal(name@),
{
    if name.is_empty() || byte_length(name) > MAX_NAME || has_control(name) {
        Err(deployment_error("invalid or excessive value name"))
    } else {
        Ok(())
    }
}

/// A size is not negative; a symbol has a name and a range that is neither negative nor empty.
pub open spec fn dimension_ok(dimension: DimensionView) -> bool {
    match dimension {
        DimensionView::Known(n) => n >= 0,
        DimensionView::Symbol { name, min, max } => name.len() > 0 && min >= 0 && (max matches Some(n) ==> n >= min),
    }
}

/// The check of each input: its name, that it is new, its rank and its dimensions.
pub open spec fn input_checks(inputs: Seq<ValueSpecView>, state: Set<Seq<char>>) -> spec_fn(int) -> Option<ErrorView> {
    |i: int| input_refusal(inputs, state, i)
}

/// Why input `i` is refused, if it is.
pub open spec fn input_refusal(inputs: Seq<ValueSpecView>, state: Set<Seq<char>>, i: int) -> Option<ErrorView> {
    let input = inputs[i];
    if value_name_refusal(input.name) is Some {
        value_name_refusal(input.name)
    } else if state.contains(input.name) || exists|j: int| 0 <= j < i && (#[trigger] inputs[j]).name == input.name {
        Some(deployment_text("duplicate input/state "@ + input.name))
    } else if input.dimensions.len() > MAX_RANK {
        Some(deployment_text("rank exceeds 64"@))
    } else if exists|k: int| 0 <= k < input.dimensions.len() && !dimension_ok(#[trigger] input.dimensions[k]) {
        Some(deployment_text("invalid dimension or range"@))
    } else {
        None
    }
}

/// Why the inputs are refused, if they are.
pub open spec fn inputs_refusal(inputs: Seq<ValueSpecView>, state: Set<Seq<char>>) -> Option<ErrorView> {
    first_at(0, inputs.len() as int, input_checks(inputs, state))
}

/// The names of the inputs in order.
pub open spec fn input_names(inputs: Seq<ValueSpecView>) -> Seq<Seq<char>> {
    inputs.map_values(|s: ValueSpecView| s.name)
}

/// A name that an operation may refer to: state, an input, or an earlier result.
pub open spec fn known_name(
    inputs: Seq<ValueSpecView>,
    operations: Seq<OperationView>,
    state: Set<Seq<char>>,
    n: int,
    name: Seq<char>,
) -> bool {
    ||| state.contains(name)
    ||| exists|j: int| 0 <= j < inputs.len() && (#[trigger] inputs[j]).name == name
    ||| exists|j: int| 0 <= j < n && (#[trigger] operations[j]).name == name
}

/// A reshape target: bounded rank, sizes not below `-1`, and at most one `-1`.
pub open spec fn reshape_ok(shape: Seq<i64>) -> bool {
    &&& shape.len() <= MAX_RANK
    &&& forall|i: int| 0 <= i < shape.len() ==> #[trigger] shape[i] >= -1
    &&& forall|i: int, j: int| 0 <= i < j < shape.len() ==> !(#[trigger] shape[i] == -1 && #[trigger] shape[j] == -1)
}

/// A permutation: every axis occurs, and nothing else does.
pub open spec fn permutation_ok(axes: Seq<i64>) -> bool {
    &&& axes.len() <= MAX_RANK
    &&& forall|i: int| 0 <= i < axes.len() ==> 0 <= #[trigger] axes[i] < axes.len()
    &&& forall|a: i64| 0 <= a < axes.len() ==> #[trigger] axes.contains(a)
}

/// The attributes and the number of operands of an operator other than a conditional.
pub open spec fn operator_ok(operator: OperatorView, arity: int) -> bool {
    match operator {
        OperatorView::Identity | OperatorView::Relu | OperatorView::Sigmoid | OperatorView::Tanh
        | OperatorView::Transpose { .. } | OperatorView::Flatten { .. } => arity == 1,
        OperatorView::Reshape(shape) => arity == 1 && reshape_ok(shape),
        OperatorView::Permute(axes) => arity == 1 && permutation_ok(axes),
        OperatorView::Add | OperatorView::Subtract | OperatorView::Multiply | OperatorView::Matmul => arity == 2,
        OperatorView::Linear => arity == 2 || arity == 3,
        OperatorView::Cat(_) => arity > 0,
        OperatorView::If { then_branch, .. } => arity == then_branch.inputs.len() + 1,
    }
}

/// How much of the node budget is spent, and why the program is refused, if it is.
pub type Verdict = (int, Option<ErrorView>);

/// The versions, the depth and the node budget: what is spent when `count` more nodes are.
pub open spec fn charged(version: u32, operator_version: u32, depth: int, budget: int, count: int) -> Verdict {
    if version != 1 || operator_version != 1 {
        (budget, Some(deployment_text("unsupported program or operator version"@)))
    } else if depth > MAX_DEPTH {
        (budget, Some(deployment_text("conditional nesting exceeds limit"@)))
    } else if budget + count > usize::MAX {
        (budget, Some(deployment_text("node limit overflow"@)))
    } else if budget + count > MAX_NODES {
        (budget + count, Some(deployment_text("program exceeds node limit"@)))
    } else {
        (budget + count, None)
    }
}

/// The contract that both branches of a conditional share: one more node, with no state.
pub open spec fn result_verdict(result: ValueSpecView, depth: int, budget: int) -> Verdict {
    let (spent, stopped) = charged(1, 1, depth, budget, 1);
    if stopped is Some {
        (spent, stopped)
    } else {
        (spent, inputs_refusal(seq![result], Set::empty()))
    }
}

/// The number of leaves of a tree, if it can be walked.
pub open spec fn leaf_count(tree: TreeView) -> Option<nat> {
    match walked(tree, 0, Seq::empty()) {
        Ok(names) => Some(names.len()),
        Err(_) => None,
    }
}

/// The first `n` operations.
pub open spec fn operations_verdict(
    inputs: Seq<ValueSpecView>,
    operations: Seq<OperationView>,
    state: Set<Seq<char>>,
    depth: int,
    budget: int,
    n: nat,
) -> Verdict
    decreases operations, n,
{
    if n == 0 || n > operations.len() {
        (budget, None)
    } else {
        let (spent, stopped) = operations_verdict(inputs, operations, state, depth, budget, (n - 1) as nat);
        let node = operations[n - 1];
        if stopped is Some {
            (spent, stopped)
        } else if value_name_refusal(node.name) is Some {
            (spent, value_name_refusal(node.name))
        } else if known_name(inputs, operations, state, n - 1, node.name) || exists|k: int|
            0 <= k < node.inputs.len() && !known_name(inputs, operations, state, n - 1, #[trigger] node.inputs[k]) {
            (
                spent,
                Some(deployment_text(node.name + " has a duplicate result, forward reference or missing operand"@)),
            )
        } else {
            let (left, inner) = conditional_verdict(node.operator, state, depth + 1, spent);
            if inner is Some {
                (left, inner)
            } else if !operator_ok(node.operator, node.inputs.len() as int) {
                (left, Some(deployment_text("invalid operator attributes or arity at "@ + node.name)))
            } else {
                (left, None)
            }
        }
    }
}

/// Of a conditional: both branches, what they have in common, and the result they promise.
/// Other operators spend nothing and are not refused here.
pub open spec fn conditional_verdict(operator: OperatorView, state: Set<Seq<char>>, depth: int, budget: int) -> Verdict
    decreases operator, 0nat,
{
    match operator {
        OperatorView::If { then_branch, else_branch, result } => {
            let (first, then_stopped) = program_verdict(*then_branch, state, depth, budget);
            if then_stopped is Some {
                (first, then_stopped)
            } else {
                let (second, else_stopped) = program_verdict(*else_branch, state, depth, first);
                if else_stopped is Some {
                    (second, else_stopped)
                } else if then_branch.inputs != else_branch.inputs || leaf_count(then_branch.output_tree) != Some(1nat)
                    || leaf_count(else_branch.output_tree) != Some(1nat) {
                    (
                        second,
                        Some(deployment_text("conditional branches require identical inputs and one output each"@)),
                    )
                } else {
                    result_verdict(result, depth, second)
                }
            }
        },
        _ => (budget, None),
    }
}

/// A program in an enclosing model with the given state names, at the given nesting depth,
/// with part of the node budget already spent.
pub open spec fn program_verdict(program: ProgramView, state: Set<Seq<char>>, depth: int, budget: int) -> Verdict
    decreases program, 0nat,
{
    let (spent, stopped) = charged(
        program.version,
        program.operator_version,
        depth,
        budget,
        (program.operations.len() + program.inputs.len()) as int,
    );
    if stopped is Some {
        (spent, stopped)
    } else if inputs_refusal(program.inputs, state) is Some {
        (spent, inputs_refusal(program.inputs, state))
    } else {
        match walked(program.input_tree, 0, Seq::empty()) {
            Err(e) => (spent, Some(e)),
            Ok(names) => if names != input_names(program.inputs) {
                (spent, Some(deployment_text("input tree differs from flattened input order"@)))
            } else {
                let (left, inner) = operations_verdict(
                    program.inputs,
                    program.operations,
                    state,
                    depth,
                    spent,
                    program.operations.len(),
                );
                closed_by_outputs(program, state, (left, inner))
            },
        }
    }
}

/// The verdict on the operations, completed by the check of the outputs.
pub open spec fn closed_by_outputs(program: ProgramView, state: Set<Seq<char>>, operations: Verdict) -> Verdict {
    if operations.1 is Some {
        operations
    } else {
        (operations.0, outputs_refusal(program, state))
    }
}

/// Why the outputs are refused, if they are: there are none, or one is unknown.
pub open spec fn outputs_refusal(program: ProgramView, state: Set<Seq<char>>) -> Option<ErrorView> {
    match walked(program.output_tree, 0, Seq::empty()) {
        Err(e) => Some(e),
        Ok(names) => if names.len() == 0 || exists|k: int|
            0 <= k < names.len() && !known_name(
                program.inputs,
                program.operations,
                state,
                program.operations.len() as int,
                #[trigger] names[k],
            ) {
            Some(deployment_text("missing or unknown graph outputs"@))
        } else {
            None
        },
    }
}

impl Operation {
    /// Defines an operation.
    pub fn new(name: &str, operator: Operator, inputs: Vec<String>) -> (r: Self)
        ensures
            r@ == (OperationView {
                name: name@,
                operator: operator@,
                inputs: texts(inputs@),
            }),
    {
        let r = Operation { name: owned(name), operator, inputs };
        proof {
            operation_parts(r);
        }
        r
    }
}

/// A tuple of tensor leaves.
pub open spec fn tuple_of(names: Seq<Seq<char>>) -> TreeView {
    TreeView::Tuple(names.map_values(|n: Seq<char>| TreeView::Tensor(n)))
}

/// The tuple tree of a list of inputs.
pub fn input_tuple(inputs: &[ValueSpec]) -> (r: Tree)
    ensures
        r@ == tuple_of(input_names(value_specs_view(inputs@))),
{
    let mut leaves: Vec<Tree> = Vec::new();
    let mut i: usize = 0;
    while i < inputs.len()
        invariant
            i <= inputs@.len(),
            leaves@.len() == i,
            forall|j: int| 0 <= j < i ==> (#[trigger] leaves@[j])@ == TreeView::Tensor(inputs@[j].name@),
        decreases inputs@.len() - i,
    {
        leaves.push(Tree::Tensor(inputs[i].name.clone()));
        i += 1;
    }
    proof {
        Tree::tuple_view(leaves);
        assert(leaves@.map_values(|t: Tree| t@) =~= input_names(value_specs_view(inputs@)).map_values(
            |n: Seq<char>| TreeView::Tensor(n),
        ));
    }
    Tree::Tuple(leaves)
}

fn valid_reshape(shape: &Vec<i64>) -> (r: bool)
    ensures
        r == reshape_ok(shape@),
{
    if shape.len() > MAX_RANK {
        return false;
    }
    let mut inferred = false;
    let mut i: usize = 0;
    while i < shape.len()
        invariant
            shape@.len() <= MAX_RANK,
            i <= shape@.len(),
            forall|j: int| 0 <= j < i ==> #[trigger] shape@[j] >= -1,
            inferred == exists|j: int| 0 <= j < i && #[trigger] shape@[j] == -1,
            forall|j: int, k: int| 0 <= j < k < i ==> !(#[trigger] shape@[j] == -1 && #[trigger] shape@[k] == -1),
        decreases shape@.len() - i,
    {
        if shape[i] < -1 {
            return false;
        }
        if shape[i] == -1 {
            if inferred {
                return false;
            }
            inferred = true;
        }
        i += 1;
    }
    true
}

#[verifier::loop_isolation(false)]
fn valid_permutation(axes: &Vec<i64>) -> (r: bool)
    ensures
        r == permutation_ok(axes@),
{
    if axes.len() > MAX_RANK {
        return false;
    }
    let mut i: usize = 0;
    while i < axes.len()
        invariant
            i <= axes@.len(),
            forall|j: int| 0 <= j < i ==> 0 <= #[trigger] axes@[j] < axes@.len(),
        decreases axes@.len() - i,
    {
        if axes[i] < 0 || axes[i] >= axes.len() as i64 {
            assert(!(0 <= axes@[i as int] < axes@.len()));
            return false;
        }
        i += 1;
    }
    let mut a: i64 = 0;
    while a < axes.len() as i64
        invariant
            0 <= a <= axes@.len(),
            forall|b: i64| 0 <= b < a ==> #[trigger] axes@.contains(b),
        decreases axes@.len() - a,
    {
        let mut found = false;
        let mut k: usize = 0;
        while k < axes.len()
            invariant
                k <= axes@.len(),
                found == exists|j: int| 0 <= j < k && #[trigger] axes@[j] == a,
            decreases axes@.len() - k,
        {
            if axes[k] == a {
                found = true;
            }
            k += 1;
        }
        if !found {
            assert(!axes@.contains(a));
            return false;
        }
        assert(axes@.contains(a));
        a = a + 1;
    }
    true
}

fn valid_operator(operator: &Operator, arity: usize) -> (r: bool)
    requires
        operator matches Operator::If { then_branch, .. } ==> then_branch.inputs@.len() < usize::MAX,
    ensures
        r == operator_ok(operator@, arity as int),
{
    match operator {
        Operator::Identity | Operator::Relu | Operator::Sigmoid | Operator::Tanh | Operator::Transpose { .. }
        | Operator::Flatten { .. } => arity == 1,
        Operator::Reshape(shape) => arity == 1 && valid_reshape(shape),
        Operator::Permute(axes) => arity == 1 && valid_permutation(axes),
        Operator::Add | Operator::Subtract | Operator::Multiply | Operator::Matmul => arity == 2,
        Operator::Linear => arity == 2 || arity == 3,
        Operator::Cat(_) => arity > 0,
        Operator::If { then_branch, else_branch, result } => {
            proof {
                conditional_parts(*then_branch, *else_branch, *result);
                program_parts(**then_branch);
            }
            arity == then_branch.inputs.len() + 1
        },
    }
}

fn valid_dimensions(dimensions: &Vec<Dimension>) -> (r: bool)
    ensures
        r == !(exists|k: int|
            0 <= k < dimensions@.len() && !dimension_ok(#[trigger] dimensions_view(dimensions@)[k])),
{
    let ghost view = dimensions_view(dimensions@);
    let mut k: usize = 0;
    while k < dimensions.len()
        invariant
            view == dimensions_view(dimensions@),
            k <= dimensions@.len(),
            forall|j: int| 0 <= j < k ==> dimension_ok(#[trigger] view[j]),
        decreases dimensions@.len() - k,
    {
        assert(view[k as int] == dimensions@[k as int]@);
        let fine = match &dimensions[k] {
            Dimension::Known(n) => *n >= 0,
            Dimension::Symbol { name, min, max } => {
                let ordered = match max {
                    Some(n) => *n >= *min,
                    None => true,
                };
                !name.as_str().is_empty() && *min >= 0 && ordered
            },
        };
        if !fine {
            assert(!dimension_ok(view[k as int]));
            return false;
        }
        k += 1;
    }
    true
}

/// The names in `names` are those of `state` and of the first `n` inputs.
spec fn names_are(names: Map<Seq<char>, ()>, state: Set<Seq<char>>, inputs: Seq<ValueSpecView>, n: int) -> bool {
    forall|name: Seq<char>| #[trigger]
        names.dom().contains(name) <==> (state.contains(name) || exists|j: int| 0 <= j < n && (#[trigger] inputs[j]).name == name)
}

/// Checks the inputs of a program and adds their names to `names`.
fn check_program_inputs(inputs: &[ValueSpec], names: &mut NameMap<()>) -> (r: Result<()>)
    requires
        old(names).wf(),
    ensures
        final(names).wf(),
        refusal(r) == inputs_refusal(value_specs_view(inputs@), old(names)@.dom()),
        r is Ok ==> names_are(final(names)@, old(names)@.dom(), value_specs_view(inputs@), inputs@.len() as int),
{
    let ghost view = value_specs_view(inputs@);
    let ghost state = names@.dom();
    let ghost n = inputs@.len() as int;
    let ghost checks = input_checks(view, state);
    let mut i: usize = 0;
    while i < inputs.len()
        invariant
            view == value_specs_view(inputs@),
            state == old(names)@.dom(),
            n == inputs@.len(),
            checks == input_checks(view, state),
            i <= n,
            names.wf(),
            names_are(names@, state, view, i as int),
            first_at(0, n, checks) == first_at(i as int, n, checks),
        decreases n - i,
    {
        let input = &inputs[i];
        let ghost earlier = names@;
        proof {
            first_at_step(i as int, n, checks);
            assert(view[i as int] == input@);
            assert(checks(i as int) == input_refusal(view, state, i as int));
        }
        if let Err(e) = valid_name(input.name.as_str()) {
            return Err(e);
        }
        if names.insert(input.name.clone(), ()).is_some() {
            assert(earlier.dom().contains(input@.name));
            let message = join("duplicate input/state ", input.name.as_str());
            return Err(deployment_error(message.as_str()));
        }
        assert(!earlier.dom().contains(input@.name));
        if input.dimensions.len() > MAX_RANK {
            return Err(deployment_error("rank exceeds 64"));
        }
        if !valid_dimensions(&input.dimensions) {
            return Err(deployment_error("invalid dimension or range"));
        }
        proof {
            assert forall|name: Seq<char>| #[trigger]
                names@.dom().contains(name) <==> (state.contains(name) || exists|j: int|
                    0 <= j < i + 1 && (#[trigger] view[j]).name == name) by {
                if name == input@.name {
                    assert(view[i as int].name == name);
                } else {
                    assert(names@.dom().contains(name) == earlier.dom().contains(name));
                    if exists|j: int| 0 <= j < i + 1 && (#[trigger] view[j]).name == name {
                        let j = choose|j: int| 0 <= j < i + 1 && (#[trigger] view[j]).name == name;
                        assert(j != i);
                    }
                }
            }
        }
        i += 1;
    }
    Ok(())
}

fn charge(version: u32, operator_version: u32, depth: usize, budget: &mut usize, operations: usize, inputs: usize) -> (r: Result<()>)
    ensures
        (*final(budget) as int, refusal(r)) == charged(
            version,
            operator_version,
            depth as int,
            *old(budget) as int,
            operations + inputs,
        ),
{
    if version != 1 || operator_version != 1 {
        return Err(deployment_error("unsupported program or operator version"));
    }
    if depth > MAX_DEPTH {
        return Err(deployment_error("conditional nesting exceeds limit"));
    }
    let total: u128 = *budget as u128 + operations as u128 + inputs as u128;
    if total > usize::MAX as u128 {
        return Err(deployment_error("node limit overflow"));
    }
    *budget = total as usize;
    if *budget > MAX_NODES {
        return Err(deployment_error("program exceeds node limit"));
    }
    Ok(())
}

fn check_result(result: &ValueSpec, depth: usize, budget: &mut usize) -> (r: Result<()>)
    ensures
        (*final(budget) as int, refusal(r)) == result_verdict(result@, depth as int, *old(budget) as int),
{
    if let Err(e) = charge(1, 1, depth, budget, 0, 1) {
        return Err(e);
    }
    let mut names: NameMap<()> = NameMap::new();
    let only: Vec<ValueSpec> = vec![result.clone()];
    proof {
        assert(value_specs_view(only@) =~= seq![result@]);
        assert(names@.dom() =~= Set::<Seq<char>>::empty());
    }
    check_program_inputs(only.as_slice(), &mut names)
}

fn count_leaves(tree: &Tree) -> (r: Option<usize>)
    ensures
        match (r, leaf_count(tree@)) {
            (Some(n), Some(expected)) => n == expected,
            (None, None) => true,
            _ => false,
        },
{
    match tree.leaves() {
        Ok(names) => {
            assert(names_view(names@).len() == names@.len());
            Some(names.len())
        },
        Err(_) => None,
    }
}

/// The names in `names` are those an operation at place `n` may refer to.
spec fn names_known(
    names: Map<Seq<char>, ()>,
    inputs: Seq<ValueSpecView>,
    operations: Seq<OperationView>,
    state: Set<Seq<char>>,
    n: int,
) -> bool {
    forall|name: Seq<char>| #[trigger] names.dom().contains(name) <==> known_name(inputs, operations, state, n, name)
}

fn operands_known(names: &NameMap<()>, inputs: &Vec<String>) -> (r: bool)
    requires
        names.wf(),
    ensures
        r == forall|k: int|
            0 <= k < inputs@.len() ==> names@.dom().contains(#[trigger] texts(inputs@)[k]),
{
    let ghost view = texts(inputs@);
    let mut k: usize = 0;
    while k < inputs.len()
        invariant
            names.wf(),
            view == texts(inputs@),
            k <= inputs@.len(),
            forall|j: int| 0 <= j < k ==> names@.dom().contains(#[trigger] view[j]),
        decreases inputs@.len() - k,
    {
        assert(view[k as int] == inputs@[k as int]@);
        if !names.contains(inputs[k].as_str()) {
            return false;
        }
        k += 1;
    }
    true
}

/// The leaves of a tree are exactly the names of the inputs, in order.
fn leaves_match(names: &Vec<&str>, inputs: &[ValueSpec]) -> (r: bool)
    ensures
        r == (names_view(names@) == input_names(value_specs_view(inputs@))),
{
    let ghost a = names_view(names@);
    let ghost b = input_names(value_specs_view(inputs@));
    if names.len() != inputs.len() {
        assert(a.len() != b.len());
        return false;
    }
    let mut i: usize = 0;
    while i < names.len()
        invariant
            a == names_view(names@),
            b == input_names(value_specs_view(inputs@)),
            names@.len() == inputs@.len(),
            i <= names@.len(),
            forall|j: int| 0 <= j < i ==> #[trigger] a[j] == b[j],
        decreases names@.len() - i,
    {
        assert(a[i as int] == names@[i as int]@);
        assert(b[i as int] == inputs@[i as int].name@);
        if !same(names[i], inputs[i].name.as_str()) {
            return false;
        }
        i += 1;
    }
    assert(a =~= b);
    true
}

impl Program {
    /// Creates a version-one program with a tuple of positional inputs.
    pub fn new(inputs: Vec<ValueSpec>, operations: Vec<Operation>, output_tree: Tree) -> (r: Self)
        ensures
            r@ == (ProgramView {
                version: 1,
                operator_version: 1,
                inputs: value_specs_view(inputs@),
                input_tree: tuple_of(input_names(value_specs_view(inputs@))),
                operations: operations_view(operations@),
                output_tree: output_tree@,
            }),
    {
        let input_tree = input_tuple(inputs.as_slice());
        let r = Program { version: 1, operator_version: 1, inputs, input_tree, operations, output_tree };
        proof {
            program_parts(r);
        }
        r
    }

    fn check_outputs(&self, names: &NameMap<()>, state: Ghost<Set<Seq<char>>>) -> (r: Result<()>)
        requires
            names.wf(),
            names_known(names@, self@.inputs, self@.operations, state@, self@.operations.len() as int),
        ensures
            refusal(r) == outputs_refusal(self@, state@),
    {
        proof {
            program_parts(*self);
        }
        let outputs = match self.output_tree.leaves() {
            Ok(outputs) => outputs,
            Err(e) => {
                return Err(e);
            },
        };
        let ghost view = names_view(outputs@);
        if outputs.len() == 0 {
            return Err(deployment_error("missing or unknown graph outputs"));
        }
        let mut k: usize = 0;
        while k < outputs.len()
            invariant
                names.wf(),
                names_known(names@, self@.inputs, self@.operations, state@, self@.operations.len() as int),
                view == names_view(outputs@),
                walked(self@.output_tree, 0, Seq::empty()) == Ok::<Seq<Seq<char>>, ErrorView>(view),
                k <= outputs@.len(),
                forall|j: int|
                    0 <= j < k ==> known_name(
                        self@.inputs,
                        self@.operations,
                        state@,
                        self@.operations.len() as int,
                        #[trigger] view[j],
                    ),
            decreases outputs@.len() - k,
        {
            assert(view[k as int] == outputs@[k as int]@);
            if !names.contains(outputs[k]) {
                return Err(deployment_error("missing or unknown graph outputs"));
            }
            k += 1;
        }
        Ok(())
    }

    /// Checks a program inside a model with the given state names, at nesting depth `depth`.
    /// Every program that is visited adds its nodes to `budget`.
    pub fn validate(&self, state: &NameMap<()>, depth: usize, budget: &mut usize) -> (r: Result<()>)
        requires
            state.wf(),
        ensures
            (*final(budget) as int, refusal(r)) == program_verdict(
                self@,
                state@.dom(),
                depth as int,
                *old(budget) as int,
            ),
        decreases self,
    {
        proof {
            program_parts(*self);
        }
        if let Err(e) = charge(
            self.version,
            self.operator_version,
            depth,
            budget,
            self.operations.len(),
            self.inputs.len(),
        ) {
            return Err(e);
        }
        let ghost spent = *budget as int;
        let mut names = copy_names(state);
        if let Err(e) = check_program_inputs(self.inputs.as_slice(), &mut names) {
            return Err(e);
        }
        match self.input_tree.leaves() {
            Err(e) => {
                return Err(e);
            },
            Ok(leaves) => {
                if !leaves_match(&leaves, self.inputs.as_slice()) {
                    return Err(deployment_error("input tree differs from flattened input order"));
                }
            },
        }
        let ghost inputs = self@.inputs;
        let ghost operations = self@.operations;
        let ghost known = state@.dom();
        let mut i: usize = 0;
        while i < self.operations.len()
            invariant
                state.wf(),
                depth <= MAX_DEPTH,
                inputs == self@.inputs,
                operations == self@.operations,
                operations == operations_view(self.operations@),
                known == state@.dom(),
                i <= self.operations@.len(),
                names.wf(),
                names_known(names@, inputs, operations, known, i as int),
                operations_verdict(inputs, operations, known, depth as int, spent, i as nat) == (*budget as int, None::<ErrorView>),
                program_verdict(self@, known, depth as int, *old(budget) as int) == closed_by_outputs(
                    self@,
                    known,
                    operations_verdict(inputs, operations, known, depth as int, spent, operations.len()),
                ),
            decreases self.operations@.len() - i,
        {
            let node = &self.operations[i];
            let ghost next = (i + 1) as nat;
            proof {
                assert(operations[i as int] == node@);
                operation_parts(*node);
            }
            if let Err(e) = valid_name(node.name.as_str()) {
                proof {
                    operations_fail(inputs, operations, known, depth as int, spent, next, operations.len());
                }
                return Err(e);
            }
            if names.contains(node.name.as_str()) || !operands_known(&names, &node.inputs) {
                proof {
                    let view = node@.inputs;
                    if !names@.dom().contains(node@.name) {
                        let k = choose|k: int| 0 <= k < view.len() && !names@.dom().contains(#[trigger] view[k]);
                        assert(!known_name(inputs, operations, known, i as int, view[k]));
                    }
                    operations_fail(inputs, operations, known, depth as int, spent, next, operations.len());
                }
                let message = join(
                    node.name.as_str(),
                    " has a duplicate result, forward reference or missing operand",
                );
                return Err(deployment_error(message.as_str()));
            }
            proof {
                assert forall|k: int| 0 <= k < node@.inputs.len() implies known_name(
                    inputs,
                    operations,
                    known,
                    i as int,
                    #[trigger] node@.inputs[k],
                ) by {
                    assert(names@.dom().contains(node@.inputs[k]));
                }
                assert(decreases_to!(self => self.operations));
                assert(decreases_to!(self.operations => self.operations@[i as int]));
                assert(decreases_to!(self.operations@[i as int] => self.operations@[i as int].operator));
            }
            if let Err(e) = check_conditional(&node.operator, state, depth + 1, budget) {
                proof {
                    operations_fail(inputs, operations, known, depth as int, spent, next, operations.len());
                }
                return Err(e);
            }
            if !valid_operator(&node.operator, node.inputs.len()) {
                proof {
                    operations_fail(inputs, operations, known, depth as int, spent, next, operations.len());
                }
                let message = join("invalid operator attributes or arity at ", node.name.as_str());
                return Err(deployment_error(message.as_str()));
            }
            let ghost earlier = names@;
            names.insert(node.name.clone(), ());
            proof {
                assert forall|name: Seq<char>| #[trigger]
                    names@.dom().contains(name) <==> known_name(inputs, operations, known, i + 1, name) by {
                    assert(earlier.dom().contains(name) <==> known_name(inputs, operations, known, i as int, name));
                    if name == node@.name {
                        assert(operations[i as int].name == name);
                    } else if exists|j: int| 0 <= j < i + 1 && (#[trigger] operations[j]).name == name {
                        let j = choose|j: int| 0 <= j < i + 1 && (#[trigger] operations[j]).name == name;
                        assert(j != i);
                    }
                }
            }
            i += 1;
        }
        self.check_outputs(&names, Ghost(known))
    }
}

/// Checks the branches of a conditional and the result they promise.
fn check_conditional(operator: &Operator, state: &NameMap<()>, depth: usize, budget: &mut usize) -> (r: Result<()>)
    requires
        state.wf(),
    ensures
        (*final(budget) as int, refusal(r)) == conditional_verdict(
            operator@,
            state@.dom(),
            depth as int,
            *old(budget) as int,
        ),
        r is Ok ==> (operator matches Operator::If { then_branch, .. } ==> then_branch.inputs@.len() < usize::MAX),
    decreases operator,
{
    if let Operator::If { then_branch, else_branch, result } = operator {
        proof {
            conditional_parts(*then_branch, *else_branch, *result);
            program_parts(**then_branch);
            program_parts(**else_branch);
        }
        let ghost before_inner = *budget as int;
        if let Err(e) = then_branch.validate(state, depth, budget) {
            return Err(e);
        }
        proof {
            accepted_is_small(then_branch@, state@.dom(), depth as int, before_inner);
        }
        if let Err(e) = else_branch.validate(state, depth, budget) {
            return Err(e);
        }
        let one_each = match (count_leaves(&then_branch.output_tree), count_leaves(&else_branch.output_tree)) {
            (Some(a), Some(b)) => a == 1 && b == 1,
            _ => false,
        };
        if !same_value_specs(then_branch.inputs.as_slice(), else_branch.inputs.as_slice()) || !one_each {
            return Err(deployment_error("conditional branches require identical inputs and one output each"));
        }
        return check_result(result, depth, budget);
    }
    Ok(())
}

/// A refusal among the first operations is the refusal of them all.
proof fn operations_fail(
    inputs: Seq<ValueSpecView>,
    operations: Seq<OperationView>,
    state: Set<Seq<char>>,
    depth: int,
    budget: int,
    k: nat,
    n: nat,
)
    requires
        k <= n <= operations.len(),
        operations_verdict(inputs, operations, state, depth, budget, k).1 is Some,
    ensures
        operations_verdict(inputs, operations, state, depth, budget, n) == operations_verdict(
            inputs,
            operations,
            state,
            depth,
            budget,
            k,
        ),
    decreases n - k,
{
    if k < n {
        operations_fail(inputs, operations, state, depth, budget, k, (n - 1) as nat);
    }
}

/// An accepted program has no more inputs than the node limit.
pub proof fn accepted_is_small(program: ProgramView, state: Set<Seq<char>>, depth: int, budget: int)
    requires
        program_verdict(program, state, depth, budget).1 is None,
        0 <= budget,
    ensures
        program.inputs.len() + program.operations.len() <= MAX_NODES,
        depth <= MAX_DEPTH,
{
}

} // verus!
