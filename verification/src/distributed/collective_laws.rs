//! What each collective gives to each rank, told by what each rank brought.
use super::collective::{
    evaluated, payload_checks, request_checks, shared_out, tensors_weight, weight, EvaluationView, Operation, ReduceOp, RequestView,
    ResponseView,
};
use super::payload::{Dtype, PayloadView};
use crate::error::{first_at, first_at_none, ErrorView};
use vstd::prelude::*;

verus! {

/// What a collective came to, if it came to responses.
pub open spec fn responds(requests: Seq<RequestView>, limit: usize, responses: Seq<ResponseView>) -> bool {
    evaluated(requests, requests.len() as int, limit) == Ok::<EvaluationView, ErrorView>(EvaluationView::Responses(responses))
}

/// What a collective came to, if it came to tensors that have to be reduced.
pub open spec fn reduces(requests: Seq<RequestView>, limit: usize, op: ReduceOp, lists: Seq<Seq<PayloadView>>) -> bool {
    evaluated(requests, requests.len() as int, limit) == Ok::<EvaluationView, ErrorView>(EvaluationView::Reduction(op, lists))
}

/// A broadcast gives every rank exactly one tensor: the one that the root brought.
pub proof fn broadcast_gives_the_tensor_of_the_root(
    requests: Seq<RequestView>,
    limit: usize,
    root: usize,
    responses: Seq<ResponseView>,
)
    requires
        requests.len() > 0,
        requests[0].operation == Operation::Broadcast(root),
        responds(requests, limit, responses),
    ensures
        root < requests.len(),
        responses.len() == requests.len(),
        forall|r: int| 0 <= r < requests.len() ==> (#[trigger] responses[r]).tensors == seq![requests[root as int].tensors[0]],
        forall|r: int| 0 <= r < requests.len() ==> (#[trigger] responses[r]).bytes.len() == 0,
        forall|s: int| 0 <= s < requests.len() ==> (#[trigger] requests[s]).tensors.len() == 1,
{
}

/// A gathering gives the tensors of all ranks in their order: to the root alone, or to every
/// rank.
pub proof fn gathering_gives_the_tensors_of_all_ranks(
    requests: Seq<RequestView>,
    limit: usize,
    responses: Seq<ResponseView>,
    rank: int,
)
    requires
        requests.len() > 0,
        requests[0].operation is Gather || requests[0].operation is AllGather,
        responds(requests, limit, responses),
        0 <= rank < requests.len(),
    ensures
        responses.len() == requests.len(),
        ({
            let gets = requests[0].operation matches Operation::Gather(root) ==> rank == root;
            if gets {
                &&& responses[rank].tensors.len() == requests.len()
                &&& forall|s: int|
                    0 <= s < requests.len() ==> #[trigger] responses[rank].tensors[s] == requests[s].tensors[0]
            } else {
                responses[rank].tensors.len() == 0
            }
        }),
        requests[0].operation matches Operation::Gather(root) ==> root < requests.len(),
        forall|s: int| 0 <= s < requests.len() ==> (#[trigger] requests[s]).tensors.len() == 1,
{
}

/// A scattering gives each rank the tensor that the root brought for it.
pub proof fn scattering_gives_each_rank_its_tensor(
    requests: Seq<RequestView>,
    limit: usize,
    root: usize,
    responses: Seq<ResponseView>,
)
    requires
        requests.len() > 0,
        requests[0].operation == Operation::Scatter(root),
        responds(requests, limit, responses),
    ensures
        root < requests.len(),
        responses.len() == requests.len(),
        requests[root as int].tensors.len() == requests.len(),
        forall|r: int| 0 <= r < requests.len() ==> (#[trigger] responses[r]).tensors == seq![requests[root as int].tensors[r]],
{
    assert(requests[root as int].tensors.len() == requests.len());
}

/// An exchange gives each rank what every rank brought for it, in the order of the ranks.
pub proof fn exchange_gives_each_rank_what_is_for_it(
    requests: Seq<RequestView>,
    limit: usize,
    responses: Seq<ResponseView>,
    r: int,
    s: int,
)
    requires
        requests.len() > 0,
        requests[0].operation == Operation::AllToAll,
        responds(requests, limit, responses),
        0 <= r < requests.len(),
        0 <= s < requests.len(),
    ensures
        responses.len() == requests.len(),
        responses[r].tensors.len() == requests.len(),
        requests[s].tensors.len() == requests.len(),
        responses[r].tensors[s] == requests[s].tensors[r],
{
}

/// An exchange of bytes gives every rank the bytes of all, in the order of the ranks, and a
/// barrier gives nothing.
pub proof fn bytes_of_all_ranks_are_given(requests: Seq<RequestView>, limit: usize, responses: Seq<ResponseView>, r: int)
    requires
        requests.len() > 0,
        requests[0].operation == Operation::Bytes || requests[0].operation == Operation::Barrier,
        responds(requests, limit, responses),
        0 <= r < requests.len(),
    ensures
        responses.len() == requests.len(),
        responses[r].tensors.len() == 0,
        requests[0].operation == Operation::Bytes ==> responses[r].bytes.len() == requests.len() && forall|s: int|
            0 <= s < requests.len() ==> #[trigger] responses[r].bytes[s] == requests[s].bytes,
        requests[0].operation == Operation::Barrier ==> responses[r].bytes.len() == 0,
{
}

/// A reduction is over one tensor of every rank, in the order of the ranks: over the only one
/// that each rank brought, or, for each rank, over those that are for it.
pub proof fn reductions_are_over_all_ranks(
    requests: Seq<RequestView>,
    limit: usize,
    op: ReduceOp,
    lists: Seq<Seq<PayloadView>>,
)
    requires
        requests.len() > 0,
        reduces(requests, limit, op, lists),
    ensures
        ({
            let world = requests.len();
            match requests[0].operation {
                Operation::AllReduce(asked) => {
                    &&& op == asked
                    &&& lists.len() == 1
                    &&& lists[0].len() == world
                    &&& forall|s: int| 0 <= s < world ==> #[trigger] lists[0][s] == requests[s].tensors[0]
                },
                Operation::Reduce(root, asked) => {
                    &&& op == asked
                    &&& root < world
                    &&& lists.len() == 1
                    &&& lists[0].len() == world
                    &&& forall|s: int| 0 <= s < world ==> #[trigger] lists[0][s] == requests[s].tensors[0]
                },
                Operation::ReduceScatter(asked) => {
                    &&& op == asked
                    &&& lists.len() == world
                    &&& forall|r: int| 0 <= r < world ==> (#[trigger] lists[r]).len() == world
                    &&& forall|r: int, s: int|
                        0 <= r < world && 0 <= s < world ==> #[trigger] lists[r][s] == requests[s].tensors[r]
                },
                _ => false,
            }
        }),
        op == ReduceOp::Mean ==> lists[0][0].dtype != Dtype::Int64,
{
}

/// The results of a reduction reach every rank, the root alone, or each rank its own.
pub proof fn reduced_tensors_reach_their_ranks(
    operation: Operation,
    sequence: u64,
    world: int,
    results: Seq<PayloadView>,
    rank: int,
)
    requires
        0 <= rank < world,
        results.len() > 0,
        operation is ReduceScatter ==> results.len() == world,
    ensures
        ({
            let responses = shared_out(operation, sequence, world, results);
            &&& responses.len() == world
            &&& responses[rank].sequence == sequence
            &&& responses[rank].error is None
            &&& responses[rank].bytes.len() == 0
            &&& operation is AllReduce ==> responses[rank].tensors == seq![results[0]]
            &&& operation matches Operation::Reduce(root, _) ==> responses[rank].tensors == (if rank == root {
                seq![results[0]]
            } else {
                Seq::<PayloadView>::empty()
            })
            &&& operation is ReduceScatter ==> responses[rank].tensors == seq![results[rank]]
        }),
{
}

/// A collective is accepted only where the ranks agree: all take it to be the same operation
/// with the same number, none of them failed, and what they bring is well formed and not too
/// much.
pub proof fn accepted_requests_agree(requests: Seq<RequestView>, limit: usize, i: int)
    requires
        0 <= i < requests.len(),
        evaluated(requests, requests.len() as int, limit) is Ok,
    ensures
        requests[i].error is None,
        requests[i].sequence == requests[0].sequence,
        requests[i].operation == requests[0].operation,
        requests[0].operation != Operation::Bytes ==> requests[i].bytes.len() == 0,
        forall|k: int| 0 <= k < requests[i].tensors.len() ==> (#[trigger] requests[i].tensors[k]).refusal(limit) is None,
        weight(requests, requests.len() as int) * requests.len() <= limit,
{
    let n = requests.len() as int;
    first_at_none(0, n, request_checks(requests, limit));
    assert(request_checks(requests, limit)(i) is None);
    let m = requests[i].tensors.len() as int;
    assert(first_at(0, m, payload_checks(requests[i].tensors, limit)) is None);
    first_at_none(0, m, payload_checks(requests[i].tensors, limit));
    assert forall|k: int| 0 <= k < m implies (#[trigger] requests[i].tensors[k]).refusal(limit) is None by {
        assert(payload_checks(requests[i].tensors, limit)(k) is None);
    }
}

/// Ranks that agree are served: where each brings one well-formed tensor of the same shape and
/// element type, there is room for all and the root is a rank, the collective is accepted.
pub proof fn agreeing_requests_are_served(requests: Seq<RequestView>, limit: usize)
    requires
        requests.len() > 0,
        weight(requests, requests.len() as int) * requests.len() <= limit,
        forall|i: int|
            0 <= i < requests.len() ==> {
                &&& (#[trigger] requests[i]).error is None
                &&& requests[i].sequence == requests[0].sequence
                &&& requests[i].operation == requests[0].operation
                &&& requests[i].bytes.len() == 0
                &&& requests[i].tensors.len() == 1
                &&& requests[i].tensors[0].refusal(limit) is None
                &&& requests[i].tensors[0].shape == requests[0].tensors[0].shape
                &&& requests[i].tensors[0].dtype == requests[0].tensors[0].dtype
            },
        match requests[0].operation {
            Operation::Broadcast(root) => root < requests.len(),
            Operation::Gather(root) => root < requests.len(),
            Operation::Reduce(root, op) => root < requests.len() && (op != ReduceOp::Mean || requests[0].tensors[0].dtype
                != Dtype::Int64),
            Operation::AllReduce(op) => op != ReduceOp::Mean || requests[0].tensors[0].dtype != Dtype::Int64,
            Operation::AllGather => true,
            _ => false,
        },
    ensures
        evaluated(requests, requests.len() as int, limit) is Ok,
{
    let n = requests.len() as int;
    assert forall|i: int| 0 <= i < n implies (#[trigger] request_checks(requests, limit)(i)) is None by {
        let tensors = requests[i].tensors;
        assert(payload_checks(tensors, limit)(0) is None);
        first_at_none(0, tensors.len() as int, payload_checks(tensors, limit));
    }
    first_at_none(0, n, request_checks(requests, limit));
}

/// What a collective weighs is what the ranks bring: the bytes, and for each tensor its bytes,
/// eight for each dimension and 64 more.
pub proof fn one_more_request_adds_its_weight(requests: Seq<RequestView>, more: RequestView)
    requires
        more.tensors.len() == 1,
    ensures
        weight(requests.push(more), (requests.len() + 1) as int) == weight(requests, requests.len() as int) + more.bytes.len()
            + more.tensors[0].bytes.len() + 8 * more.tensors[0].shape.len() + 64,
{
    weight_of_prefix(requests, more, requests.len() as int);
    reveal_with_fuel(tensors_weight, 3);
}

proof fn weight_of_prefix(requests: Seq<RequestView>, more: RequestView, n: int)
    requires
        0 <= n <= requests.len(),
    ensures
        weight(requests.push(more), n) == weight(requests, n),
    decreases n,
{
    if n > 0 {
        weight_of_prefix(requests, more, n - 1);
    }
}

} // verus!
