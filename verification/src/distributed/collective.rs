//! What a collective returns to each rank, decided in one place from the requests of all.
use super::payload::{copy_bytes, payload_views, Dtype, Payload, PayloadView};
use super::{invalid, refused};
use crate::error::{first_at, refusal, ErrorView, Result};
use vstd::prelude::*;

verus! {

/// How tensors of all ranks become one. The order of the ranks is kept.
#[derive(Debug, Clone, Copy, PartialEq, Eq, Structural)]
pub enum ReduceOp {
    /// The sum of the elements.
    Sum,
    /// The sum of the elements divided by the number of ranks.
    Mean,
    /// The smallest element.
    Min,
    /// The largest element.
    Max,
    /// The product of the elements.
    Product,
}

/// What the ranks do together. A number is the rank of the root.
#[derive(Debug, Clone, Copy, PartialEq, Eq, Structural)]
pub enum Operation {
    Barrier,
    Bytes,
    Broadcast(usize),
    AllReduce(ReduceOp),
    Reduce(usize, ReduceOp),
    AllGather,
    Gather(usize),
    Scatter(usize),
    ReduceScatter(ReduceOp),
    AllToAll,
}

/// What one rank brings to a collective.
#[derive(Debug, PartialEq, Eq)]
pub struct Request {
    /// The number of collectives before this one.
    pub sequence: u64,
    /// What the rank takes the collective to be.
    pub operation: Operation,
    /// What went wrong on the rank, if anything did.
    pub error: Option<String>,
    /// The tensors it brings.
    pub tensors: Vec<Payload>,
    /// The bytes it brings.
    pub bytes: Vec<u8>,
}

/// The content of a [`Request`].
pub struct RequestView {
    pub sequence: u64,
    pub operation: Operation,
    pub error: Option<Seq<char>>,
    pub tensors: Seq<PayloadView>,
    pub bytes: Seq<u8>,
}

/// The content of an optional text.
pub open spec fn text_of(text: Option<String>) -> Option<Seq<char>> {
    match text {
        Some(text) => Some(text@),
        None => None,
    }
}

impl View for Request {
    type V = RequestView;

    open spec fn view(&self) -> RequestView {
        RequestView {
            sequence: self.sequence,
            operation: self.operation,
            error: text_of(self.error),
            tensors: payload_views(self.tensors@),
            bytes: self.bytes@,
        }
    }
}

/// The contents of requests.
pub open spec fn request_views(list: Seq<Request>) -> Seq<RequestView> {
    Seq::new(list.len(), |i: int| list[i]@)
}

/// What one rank gets from a collective.
#[derive(Debug, PartialEq, Eq)]
pub struct Response {
    /// The number of collectives before this one.
    pub sequence: u64,
    /// What went wrong, if anything did.
    pub error: Option<String>,
    /// The tensors that the rank gets.
    pub tensors: Vec<Payload>,
    /// The bytes that the rank gets, one list for each rank.
    pub bytes: Vec<Vec<u8>>,
}

/// The content of a [`Response`].
#[verifier::ext_equal]
pub struct ResponseView {
    pub sequence: u64,
    pub error: Option<Seq<char>>,
    pub tensors: Seq<PayloadView>,
    pub bytes: Seq<Seq<u8>>,
}

/// The contents of byte lists.
pub open spec fn byte_views(list: Seq<Vec<u8>>) -> Seq<Seq<u8>> {
    Seq::new(list.len(), |i: int| list[i]@)
}

impl View for Response {
    type V = ResponseView;

    open spec fn view(&self) -> ResponseView {
        ResponseView {
            sequence: self.sequence,
            error: text_of(self.error),
            tensors: payload_views(self.tensors@),
            bytes: byte_views(self.bytes@),
        }
    }
}

/// The contents of responses.
pub open spec fn response_views(list: Seq<Response>) -> Seq<ResponseView> {
    Seq::new(list.len(), |i: int| list[i]@)
}

/// The contents of lists of payloads.
pub open spec fn list_views(lists: Seq<Vec<Payload>>) -> Seq<Seq<PayloadView>> {
    Seq::new(lists.len(), |i: int| payload_views(lists[i]@))
}

/// What a collective comes to: the responses, or tensors that first have to be reduced.
#[derive(Debug, PartialEq, Eq)]
pub enum Evaluation {
    /// The response for each rank.
    Responses(Vec<Response>),
    /// The tensors to be reduced, one list for each result.
    Reduction(ReduceOp, Vec<Vec<Payload>>),
}

/// The content of an [`Evaluation`].
pub enum EvaluationView {
    Responses(Seq<ResponseView>),
    Reduction(ReduceOp, Seq<Seq<PayloadView>>),
}

impl View for Evaluation {
    type V = EvaluationView;

    open spec fn view(&self) -> EvaluationView {
        match *self {
            Evaluation::Responses(list) => EvaluationView::Responses(response_views(list@)),
            Evaluation::Reduction(op, lists) => EvaluationView::Reduction(op, list_views(lists@)),
        }
    }
}

/// What the first `n` tensors weigh: their bytes, eight for each dimension, and 64.
pub open spec fn tensors_weight(tensors: Seq<PayloadView>, n: int) -> int
    decreases n,
{
    if n <= 0 {
        0
    } else {
        tensors_weight(tensors, n - 1) + tensors[n - 1].bytes.len() + 8 * tensors[n - 1].shape.len() + 64
    }
}

/// What the first `n` requests weigh.
pub open spec fn weight(requests: Seq<RequestView>, n: int) -> int
    decreases n,
{
    if n <= 0 {
        0
    } else {
        weight(requests, n - 1) + requests[n - 1].bytes.len() + tensors_weight(
            requests[n - 1].tensors,
            requests[n - 1].tensors.len() as int,
        )
    }
}

/// The checks of payloads.
pub open spec fn payload_checks(tensors: Seq<PayloadView>, limit: usize) -> spec_fn(int) -> Option<ErrorView> {
    |i: int| tensors[i].refusal(limit)
}

/// Why a request does not fit the first one, if it does not.
pub open spec fn request_refusal(first: RequestView, request: RequestView, limit: usize) -> Option<ErrorView> {
    match request.error {
        Some(e) => Some(refused(e)),
        None => if request.sequence != first.sequence || request.operation != first.operation {
            Some(refused("collective sequence, operation, root or reduction mismatch"@))
        } else if first.operation != Operation::Bytes && request.bytes.len() > 0 {
            Some(refused("unexpected bytes in tensor collective"@))
        } else {
            first_at(0, request.tensors.len() as int, payload_checks(request.tensors, limit))
        },
    }
}

/// The checks of requests.
pub open spec fn request_checks(requests: Seq<RequestView>, limit: usize) -> spec_fn(int) -> Option<ErrorView> {
    |i: int| request_refusal(requests[0], requests[i], limit)
}

/// The root of an operation, if it has one.
pub open spec fn root_of(operation: Operation) -> Option<usize> {
    match operation {
        Operation::Broadcast(r) => Some(r),
        Operation::Reduce(r, _) => Some(r),
        Operation::Gather(r) => Some(r),
        Operation::Scatter(r) => Some(r),
        _ => None,
    }
}

/// Every rank brings the same number of tensors.
pub open spec fn counts(requests: Seq<RequestView>, expected: int) -> bool {
    forall|i: int| 0 <= i < requests.len() ==> (#[trigger] requests[i]).tensors.len() == expected
}

/// Only the root brings tensors, one for each rank.
pub open spec fn counts_at(requests: Seq<RequestView>, root: int, expected: int) -> bool {
    forall|i: int|
        0 <= i < requests.len() ==> (#[trigger] requests[i]).tensors.len() == if i == root {
            expected
        } else {
            0
        }
}

/// All tensors have one shape and element type.
pub open spec fn alike(tensors: Seq<PayloadView>) -> bool {
    forall|i: int| 0 <= i < tensors.len() ==> (#[trigger] tensors[i]).same_spec(tensors[0])
}

/// All tensors of all ranks have one shape and element type.
pub open spec fn all_alike(requests: Seq<RequestView>) -> bool {
    forall|i: int, j: int|
        0 <= i < requests.len() && 0 <= j < requests[i].tensors.len() ==> (#[trigger] requests[i].tensors[j]).same_spec(
            requests[0].tensors[0],
        )
}

/// The tensor that each rank brings for rank `rank`.
pub open spec fn column(requests: Seq<RequestView>, rank: int) -> Seq<PayloadView> {
    Seq::new(requests.len(), |s: int| requests[s].tensors[rank])
}

/// The tensors of all ranks, by the rank that they are for.
pub open spec fn columns(requests: Seq<RequestView>, world: int) -> Seq<Seq<PayloadView>> {
    Seq::new(world as nat, |r: int| column(requests, r))
}

/// The bytes of all ranks.
pub open spec fn all_bytes(requests: Seq<RequestView>) -> Seq<Seq<u8>> {
    Seq::new(requests.len(), |i: int| requests[i].bytes)
}

/// A response with tensors.
pub open spec fn answer(sequence: u64, tensors: Seq<PayloadView>) -> ResponseView {
    ResponseView { sequence, error: None, tensors, bytes: Seq::empty() }
}

/// The responses that give each rank its list of tensors.
pub open spec fn delivered(sequence: u64, lists: Seq<Seq<PayloadView>>) -> Seq<ResponseView> {
    Seq::new(lists.len(), |r: int| answer(sequence, lists[r]))
}

/// The responses that give every rank the bytes of all.
pub open spec fn delivered_bytes(sequence: u64, world: int, bytes: Seq<Seq<u8>>) -> Seq<ResponseView> {
    Seq::new(world as nat, |r: int| ResponseView { sequence, error: None, tensors: Seq::empty(), bytes })
}

/// The same list for every rank.
pub open spec fn repeated(world: int, list: Seq<PayloadView>) -> Seq<Seq<PayloadView>> {
    Seq::new(world as nat, |r: int| list)
}

/// The list for the root alone.
pub open spec fn only_at(world: int, root: int, list: Seq<PayloadView>) -> Seq<Seq<PayloadView>> {
    Seq::new(
        world as nat,
        |r: int|
            if r == root {
                list
            } else {
                Seq::empty()
            },
    )
}

/// One tensor for each rank.
pub open spec fn singles(list: Seq<PayloadView>) -> Seq<Seq<PayloadView>> {
    Seq::new(list.len(), |r: int| seq![list[r]])
}

/// What a reduction is asked for, unless it cannot be made.
pub open spec fn reduction(op: ReduceOp, lists: Seq<Seq<PayloadView>>) -> core::result::Result<EvaluationView, ErrorView> {
    if op == ReduceOp::Mean && lists[0][0].dtype == Dtype::Int64 {
        Err(refused("mean reduction requires floating tensors"@))
    } else {
        Ok(EvaluationView::Reduction(op, lists))
    }
}

/// What a collective comes to once the requests agree.
pub open spec fn routed(requests: Seq<RequestView>, world: int) -> core::result::Result<EvaluationView, ErrorView> {
    let sequence = requests[0].sequence;
    let miscount = Err::<EvaluationView, ErrorView>(refused("collective tensor count mismatch"@));
    let mismatch = Err::<EvaluationView, ErrorView>(refused("collective tensor shape or dtype mismatch"@));
    match requests[0].operation {
        Operation::Barrier => if !counts(requests, 0) {
            miscount
        } else {
            Ok(EvaluationView::Responses(delivered(sequence, repeated(world, Seq::empty()))))
        },
        Operation::Bytes => if !counts(requests, 0) {
            miscount
        } else {
            Ok(EvaluationView::Responses(delivered_bytes(sequence, world, all_bytes(requests))))
        },
        Operation::Scatter(root) => if !counts_at(requests, root as int, world) {
            Err(refused("scatter requires world-size inputs only at root"@))
        } else if !alike(requests[root as int].tensors) {
            mismatch
        } else {
            Ok(EvaluationView::Responses(delivered(sequence, singles(requests[root as int].tensors))))
        },
        Operation::ReduceScatter(op) => if !counts(requests, world) {
            miscount
        } else if !all_alike(requests) {
            mismatch
        } else {
            reduction(op, columns(requests, world))
        },
        Operation::AllToAll => if !counts(requests, world) {
            miscount
        } else if !all_alike(requests) {
            mismatch
        } else {
            Ok(EvaluationView::Responses(delivered(sequence, columns(requests, world))))
        },
        operation => if !counts(requests, 1) {
            miscount
        } else if !alike(column(requests, 0)) {
            mismatch
        } else {
            match operation {
                Operation::Broadcast(root) => Ok(
                    EvaluationView::Responses(
                        delivered(sequence, repeated(world, seq![column(requests, 0)[root as int]])),
                    ),
                ),
                Operation::AllReduce(op) => reduction(op, seq![column(requests, 0)]),
                Operation::Reduce(_, op) => reduction(op, seq![column(requests, 0)]),
                Operation::Gather(root) => Ok(
                    EvaluationView::Responses(delivered(sequence, only_at(world, root as int, column(requests, 0)))),
                ),
                _ => Ok(EvaluationView::Responses(delivered(sequence, repeated(world, column(requests, 0))))),
            }
        },
    }
}

/// What a collective comes to.
pub open spec fn evaluated(requests: Seq<RequestView>, world: int, limit: usize) -> core::result::Result<EvaluationView, ErrorView> {
    if weight(requests, requests.len() as int) * world > limit {
        Err(refused("collective response working set exceeds message limit; split the inputs"@))
    } else {
        match first_at(0, requests.len() as int, request_checks(requests, limit)) {
            Some(e) => Err(e),
            None => if root_of(requests[0].operation) matches Some(root) && root >= world {
                Err(refused("collective root is outside the group"@))
            } else {
                routed(requests, world)
            },
        }
    }
}

proof fn tensors_weight_grows(tensors: Seq<PayloadView>, a: int, b: int)
    requires
        0 <= a <= b,
    ensures
        0 <= tensors_weight(tensors, a) <= tensors_weight(tensors, b),
    decreases b,
{
    if a < b {
        tensors_weight_grows(tensors, a, b - 1);
    } else if b > 0 {
        tensors_weight_grows(tensors, b - 1, b - 1);
    }
}

proof fn weight_grows(requests: Seq<RequestView>, a: int, b: int)
    requires
        0 <= a <= b,
    ensures
        0 <= weight(requests, a) <= weight(requests, b),
    decreases b,
{
    if b > 0 {
        let last = requests[b - 1].tensors;
        tensors_weight_grows(last, 0, last.len() as int);
        if a < b {
            weight_grows(requests, a, b - 1);
        } else {
            weight_grows(requests, b - 1, b - 1);
        }
    }
}

fn weigh_tensors(tensors: &Vec<Payload>, start: usize) -> (r: Option<usize>)
    ensures
        match r {
            Some(total) => total == start + tensors_weight(payload_views(tensors@), tensors@.len() as int),
            None => start + tensors_weight(payload_views(tensors@), tensors@.len() as int) > usize::MAX,
        },
{
    let ghost views = payload_views(tensors@);
    let mut total: usize = start;
    let mut i: usize = 0;
    while i < tensors.len()
        invariant
            views == payload_views(tensors@),
            i <= tensors@.len(),
            total == start + tensors_weight(views, i as int),
        decreases tensors@.len() - i,
    {
        let t = &tensors[i];
        proof {
            assert(views[i as int] == t@);
            assert(t.bytes.len() == t.bytes@.len());
            assert(t.shape.len() == t.shape@.len());
            tensors_weight_grows(views, i + 1, views.len() as int);
        }
        let dims: usize = match t.shape.len().checked_mul(8) {
            Some(v) => v,
            None => {
                return None;
            },
        };
        let with_bytes: usize = match total.checked_add(t.bytes.len()) {
            Some(v) => v,
            None => {
                return None;
            },
        };
        let with_dims: usize = match with_bytes.checked_add(dims) {
            Some(v) => v,
            None => {
                return None;
            },
        };
        total = match with_dims.checked_add(64) {
            Some(v) => v,
            None => {
                return None;
            },
        };
        i += 1;
    }
    Some(total)
}

/// Whether the responses to all ranks together may exceed the limit.
fn too_heavy(requests: &Vec<Request>, world: usize, limit: usize) -> (r: bool)
    requires
        world > 0,
    ensures
        r == (weight(request_views(requests@), requests@.len() as int) * world > limit),
{
    let ghost views = request_views(requests@);
    let ghost n = views.len() as int;
    let mut total: usize = 0;
    let mut i: usize = 0;
    while i < requests.len()
        invariant
            world > 0,
            views == request_views(requests@),
            n == views.len(),
            i <= n,
            total == weight(views, i as int),
        decreases n - i,
    {
        let request = &requests[i];
        proof {
            assert(views[i as int] == request@);
            assert(request.bytes.len() == request.bytes@.len());
            weight_grows(views, i + 1, n);
            tensors_weight_grows(views[i as int].tensors, 0, views[i as int].tensors.len() as int);
            let all = weight(views, n);
            assert(all >= 0 ==> all * world >= all) by (nonlinear_arith)
                requires
                    world > 0,
            ;
        }
        let with_bytes: usize = match total.checked_add(request.bytes.len()) {
            Some(v) => v,
            None => {
                return true;
            },
        };
        total = match weigh_tensors(&request.tensors, with_bytes) {
            Some(v) => v,
            None => {
                return true;
            },
        };
        i += 1;
    }
    match total.checked_mul(world) {
        Some(v) => v > limit,
        None => true,
    }
}

pub(crate) fn check_payloads(tensors: &Vec<Payload>, limit: usize) -> (r: Result<()>)
    ensures
        refusal(r) == first_at(0, tensors@.len() as int, payload_checks(payload_views(tensors@), limit)),
{
    let ghost check = payload_checks(payload_views(tensors@), limit);
    let ghost n = tensors@.len() as int;
    let mut i: usize = 0;
    while i < tensors.len()
        invariant
            check == payload_checks(payload_views(tensors@), limit),
            n == tensors@.len(),
            i <= n,
            first_at(0, n, check) == first_at(i as int, n, check),
        decreases n - i,
    {
        assert(check(i as int) == tensors@[i as int]@.refusal(limit));
        if let Err(e) = tensors[i].validate(limit) {
            return Err(e);
        }
        i += 1;
    }
    Ok(())
}

fn check_requests(requests: &Vec<Request>, limit: usize) -> (r: Result<()>)
    requires
        requests@.len() > 0,
    ensures
        refusal(r) == first_at(0, requests@.len() as int, request_checks(request_views(requests@), limit)),
{
    let ghost views = request_views(requests@);
    let ghost check = request_checks(views, limit);
    let ghost n = requests@.len() as int;
    let mut i: usize = 0;
    while i < requests.len()
        invariant
            requests@.len() > 0,
            views == request_views(requests@),
            check == request_checks(views, limit),
            n == requests@.len(),
            i <= n,
            first_at(0, n, check) == first_at(i as int, n, check),
        decreases n - i,
    {
        let first = &requests[0];
        let request = &requests[i];
        assert(check(i as int) == request_refusal(first@, request@, limit));
        if let Some(text) = &request.error {
            return Err(invalid(text.as_str()));
        }
        if request.sequence != first.sequence || request.operation != first.operation {
            return Err(invalid("collective sequence, operation, root or reduction mismatch"));
        }
        if first.operation != Operation::Bytes && request.bytes.len() > 0 {
            return Err(invalid("unexpected bytes in tensor collective"));
        }
        if let Err(e) = check_payloads(&request.tensors, limit) {
            return Err(e);
        }
        i += 1;
    }
    Ok(())
}

fn counted_alike(requests: &Vec<Request>, expected: usize) -> (r: bool)
    ensures
        r == counts(request_views(requests@), expected as int),
{
    let ghost views = request_views(requests@);
    let mut i: usize = 0;
    while i < requests.len()
        invariant
            views == request_views(requests@),
            i <= requests@.len(),
            forall|j: int| 0 <= j < i ==> (#[trigger] views[j]).tensors.len() == expected,
        decreases requests@.len() - i,
    {
        assert(views[i as int] == requests@[i as int]@);
        if requests[i].tensors.len() != expected {
            assert(views[i as int].tensors.len() != expected);
            return false;
        }
        i += 1;
    }
    true
}

fn counted_at(requests: &Vec<Request>, root: usize, expected: usize) -> (r: bool)
    ensures
        r == counts_at(request_views(requests@), root as int, expected as int),
{
    let ghost views = request_views(requests@);
    let mut i: usize = 0;
    while i < requests.len()
        invariant
            views == request_views(requests@),
            i <= requests@.len(),
            forall|j: int|
                0 <= j < i ==> (#[trigger] views[j]).tensors.len() == if j == root {
                    expected as int
                } else {
                    0
                },
        decreases requests@.len() - i,
    {
        assert(views[i as int] == requests@[i as int]@);
        let wanted: usize = if i == root {
            expected
        } else {
            0
        };
        if requests[i].tensors.len() != wanted {
            assert(views[i as int].tensors.len() != wanted);
            return false;
        }
        i += 1;
    }
    true
}

fn same(tensors: &Vec<Payload>) -> (r: bool)
    ensures
        r == alike(payload_views(tensors@)),
{
    let ghost views = payload_views(tensors@);
    let mut i: usize = 0;
    while i < tensors.len()
        invariant
            views == payload_views(tensors@),
            i <= tensors@.len(),
            forall|j: int| 0 <= j < i ==> (#[trigger] views[j]).same_spec(views[0]),
        decreases tensors@.len() - i,
    {
        assert(views[i as int] == tensors@[i as int]@);
        assert(views[0] == tensors@[0]@);
        if !tensors[i].same_spec(&tensors[0]) {
            assert(!views[i as int].same_spec(views[0]));
            return false;
        }
        i += 1;
    }
    true
}

fn all_same(requests: &Vec<Request>, world: usize) -> (r: bool)
    requires
        world > 0,
        requests@.len() > 0,
        counts(request_views(requests@), world as int),
    ensures
        r == all_alike(request_views(requests@)),
{
    let ghost views = request_views(requests@);
    assert(views[0] == requests@[0]@);
    let mut i: usize = 0;
    while i < requests.len()
        invariant
            world > 0,
            requests@.len() > 0,
            counts(views, world as int),
            views == request_views(requests@),
            views[0] == requests@[0]@,
            i <= requests@.len(),
            forall|a: int, b: int|
                0 <= a < i && 0 <= b < views[a].tensors.len() ==> (#[trigger] views[a].tensors[b]).same_spec(
                    views[0].tensors[0],
                ),
        decreases requests@.len() - i,
    {
        assert(views[i as int] == requests@[i as int]@);
        let mut j: usize = 0;
        while j < requests[i].tensors.len()
            invariant
                world > 0,
                requests@.len() > 0,
                counts(views, world as int),
                views == request_views(requests@),
                views[0] == requests@[0]@,
                i < requests@.len(),
                views[i as int] == requests@[i as int]@,
                j <= views[i as int].tensors.len(),
                forall|b: int| 0 <= b < j ==> (#[trigger] views[i as int].tensors[b]).same_spec(views[0].tensors[0]),
            decreases views[i as int].tensors.len() - j,
        {
            assert(views[0].tensors.len() == world);
            assert(views[i as int].tensors[j as int] == requests@[i as int].tensors@[j as int]@);
            assert(views[0].tensors[0] == requests@[0].tensors@[0]@);
            if !requests[i].tensors[j].same_spec(&requests[0].tensors[0]) {
                assert(!views[i as int].tensors[j as int].same_spec(views[0].tensors[0]));
                return false;
            }
            j += 1;
        }
        i += 1;
    }
    true
}

fn copy_column(requests: &Vec<Request>, rank: usize) -> (r: Vec<Payload>)
    requires
        forall|i: int| 0 <= i < requests@.len() ==> rank < (#[trigger] request_views(requests@)[i]).tensors.len(),
    ensures
        payload_views(r@) == column(request_views(requests@), rank as int),
{
    let ghost views = request_views(requests@);
    let mut out: Vec<Payload> = Vec::new();
    let mut i: usize = 0;
    while i < requests.len()
        invariant
            views == request_views(requests@),
            forall|k: int| 0 <= k < requests@.len() ==> rank < (#[trigger] views[k]).tensors.len(),
            i <= requests@.len(),
            out@.len() == i,
            forall|k: int| 0 <= k < i ==> (#[trigger] out@[k])@ == views[k].tensors[rank as int],
        decreases requests@.len() - i,
    {
        assert(views[i as int] == requests@[i as int]@);
        assert(views[i as int].tensors[rank as int] == requests@[i as int].tensors@[rank as int]@);
        out.push(requests[i].tensors[rank].copy());
        i += 1;
    }
    assert(payload_views(out@) =~= column(views, rank as int));
    out
}

fn copy_columns(requests: &Vec<Request>, world: usize) -> (r: Vec<Vec<Payload>>)
    requires
        counts(request_views(requests@), world as int),
    ensures
        list_views(r@) == columns(request_views(requests@), world as int),
{
    let ghost views = request_views(requests@);
    let mut out: Vec<Vec<Payload>> = Vec::new();
    let mut rank: usize = 0;
    while rank < world
        invariant
            views == request_views(requests@),
            counts(views, world as int),
            rank <= world,
            out@.len() == rank,
            forall|k: int| 0 <= k < rank ==> payload_views((#[trigger] out@[k])@) == column(views, k),
        decreases world - rank,
    {
        out.push(copy_column(requests, rank));
        rank += 1;
    }
    assert(list_views(out@) =~= columns(views, world as int));
    out
}

pub(crate) fn copy_payloads(list: &Vec<Payload>) -> (r: Vec<Payload>)
    ensures
        payload_views(r@) == payload_views(list@),
{
    let mut out: Vec<Payload> = Vec::new();
    let mut i: usize = 0;
    while i < list.len()
        invariant
            i <= list@.len(),
            out@.len() == i,
            forall|k: int| 0 <= k < i ==> (#[trigger] out@[k])@ == list@[k]@,
        decreases list@.len() - i,
    {
        out.push(list[i].copy());
        i += 1;
    }
    assert(payload_views(out@) =~= payload_views(list@));
    out
}

fn copy_lists(list: &Vec<Vec<u8>>) -> (r: Vec<Vec<u8>>)
    ensures
        byte_views(r@) == byte_views(list@),
{
    let mut out: Vec<Vec<u8>> = Vec::new();
    let mut i: usize = 0;
    while i < list.len()
        invariant
            i <= list@.len(),
            out@.len() == i,
            forall|k: int| 0 <= k < i ==> (#[trigger] out@[k])@ == list@[k]@,
        decreases list@.len() - i,
    {
        out.push(copy_bytes(&list[i]));
        i += 1;
    }
    assert(byte_views(out@) =~= byte_views(list@));
    out
}

fn gather_bytes(requests: &Vec<Request>) -> (r: Vec<Vec<u8>>)
    ensures
        byte_views(r@) == all_bytes(request_views(requests@)),
{
    let ghost views = request_views(requests@);
    let mut out: Vec<Vec<u8>> = Vec::new();
    let mut i: usize = 0;
    while i < requests.len()
        invariant
            views == request_views(requests@),
            i <= requests@.len(),
            out@.len() == i,
            forall|k: int| 0 <= k < i ==> (#[trigger] out@[k])@ == views[k].bytes,
        decreases requests@.len() - i,
    {
        assert(views[i as int] == requests@[i as int]@);
        out.push(copy_bytes(&requests[i].bytes));
        i += 1;
    }
    assert(byte_views(out@) =~= all_bytes(views));
    out
}

fn repeat(world: usize, list: &Vec<Payload>) -> (r: Vec<Vec<Payload>>)
    ensures
        list_views(r@) == repeated(world as int, payload_views(list@)),
{
    let mut out: Vec<Vec<Payload>> = Vec::new();
    while out.len() < world
        invariant
            out@.len() <= world,
            forall|k: int| 0 <= k < out@.len() ==> payload_views((#[trigger] out@[k])@) == payload_views(list@),
        decreases world - out@.len(),
    {
        out.push(copy_payloads(list));
    }
    assert(list_views(out@) =~= repeated(world as int, payload_views(list@)));
    out
}

fn place_at(world: usize, root: usize, list: &Vec<Payload>) -> (r: Vec<Vec<Payload>>)
    ensures
        list_views(r@) == only_at(world as int, root as int, payload_views(list@)),
{
    let mut out: Vec<Vec<Payload>> = Vec::new();
    while out.len() < world
        invariant
            out@.len() <= world,
            forall|k: int|
                0 <= k < out@.len() ==> payload_views((#[trigger] out@[k])@) == if k == root {
                    payload_views(list@)
                } else {
                    Seq::empty()
                },
        decreases world - out@.len(),
    {
        if out.len() == root {
            out.push(copy_payloads(list));
        } else {
            let none: Vec<Payload> = Vec::new();
            assert(payload_views(none@) =~= Seq::empty());
            out.push(none);
        }
    }
    assert(list_views(out@) =~= only_at(world as int, root as int, payload_views(list@)));
    out
}

fn separate(list: &Vec<Payload>) -> (r: Vec<Vec<Payload>>)
    ensures
        list_views(r@) == singles(payload_views(list@)),
{
    let mut out: Vec<Vec<Payload>> = Vec::new();
    let mut i: usize = 0;
    while i < list.len()
        invariant
            i <= list@.len(),
            out@.len() == i,
            forall|k: int| 0 <= k < i ==> payload_views((#[trigger] out@[k])@) == seq![list@[k]@],
        decreases list@.len() - i,
    {
        let mut one: Vec<Payload> = Vec::new();
        one.push(list[i].copy());
        assert(payload_views(one@) =~= seq![list@[i as int]@]);
        out.push(one);
        i += 1;
    }
    assert(list_views(out@) =~= singles(payload_views(list@)));
    out
}

fn deliver(sequence: u64, lists: Vec<Vec<Payload>>) -> (r: Vec<Response>)
    ensures
        response_views(r@) == delivered(sequence, list_views(lists@)),
{
    let mut out: Vec<Response> = Vec::new();
    let mut i: usize = 0;
    while i < lists.len()
        invariant
            i <= lists@.len(),
            out@.len() == i,
            forall|k: int| 0 <= k < i ==> (#[trigger] out@[k])@ == answer(sequence, payload_views(lists@[k]@)),
        decreases lists@.len() - i,
    {
        let bytes: Vec<Vec<u8>> = Vec::new();
        assert(byte_views(bytes@) =~= Seq::empty());
        out.push(Response { sequence, error: None, tensors: copy_payloads(&lists[i]), bytes });
        i += 1;
    }
    assert(response_views(out@) =~= delivered(sequence, list_views(lists@)));
    out
}

fn deliver_bytes(sequence: u64, world: usize, bytes: &Vec<Vec<u8>>) -> (r: Vec<Response>)
    ensures
        response_views(r@) == delivered_bytes(sequence, world as int, byte_views(bytes@)),
{
    let mut out: Vec<Response> = Vec::new();
    while out.len() < world
        invariant
            out@.len() <= world,
            forall|k: int|
                0 <= k < out@.len() ==> (#[trigger] out@[k])@ == (ResponseView {
                    sequence,
                    error: None,
                    tensors: Seq::empty(),
                    bytes: byte_views(bytes@),
                }),
        decreases world - out@.len(),
    {
        let tensors: Vec<Payload> = Vec::new();
        assert(payload_views(tensors@) =~= Seq::empty());
        out.push(Response { sequence, error: None, tensors, bytes: copy_lists(bytes) });
    }
    assert(response_views(out@) =~= delivered_bytes(sequence, world as int, byte_views(bytes@)));
    out
}

fn reduce_lists(op: ReduceOp, lists: Vec<Vec<Payload>>) -> (r: Result<Evaluation>)
    requires
        lists@.len() > 0,
        lists@[0]@.len() > 0,
    ensures
        match (r, reduction(op, list_views(lists@))) {
            (Ok(a), Ok(b)) => a@ == b,
            (Err(a), Err(b)) => a@ == b,
            _ => false,
        },
{
    assert(list_views(lists@)[0][0] == lists@[0]@[0]@);
    if op == ReduceOp::Mean && lists[0][0].dtype == Dtype::Int64 {
        return Err(invalid("mean reduction requires floating tensors"));
    }
    Ok(Evaluation::Reduction(op, lists))
}

/// Decides what a collective comes to from the requests of all ranks, in rank order.
pub fn evaluate(requests: &Vec<Request>, world: usize, limit: usize) -> (r: Result<Evaluation>)
    requires
        world > 0,
        requests@.len() == world,
    ensures
        match (r, evaluated(request_views(requests@), world as int, limit)) {
            (Ok(a), Ok(b)) => a@ == b,
            (Err(a), Err(b)) => a@ == b,
            _ => false,
        },
{
    let ghost views = request_views(requests@);
    assert(views[0] == requests@[0]@);
    if too_heavy(requests, world, limit) {
        return Err(invalid("collective response working set exceeds message limit; split the inputs"));
    }
    if let Err(e) = check_requests(requests, limit) {
        return Err(e);
    }
    let operation = requests[0].operation;
    let sequence: u64 = requests[0].sequence;
    let root = match operation {
        Operation::Broadcast(r) => Some(r),
        Operation::Reduce(r, _) => Some(r),
        Operation::Gather(r) => Some(r),
        Operation::Scatter(r) => Some(r),
        _ => None,
    };
    if let Some(root) = root {
        if root >= world {
            return Err(invalid("collective root is outside the group"));
        }
    }
    match operation {
        Operation::Barrier => {
            if !counted_alike(requests, 0) {
                return Err(invalid("collective tensor count mismatch"));
            }
            let none: Vec<Payload> = Vec::new();
            assert(payload_views(none@) =~= Seq::empty());
            Ok(Evaluation::Responses(deliver(sequence, repeat(world, &none))))
        },
        Operation::Bytes => {
            if !counted_alike(requests, 0) {
                return Err(invalid("collective tensor count mismatch"));
            }
            let bytes = gather_bytes(requests);
            Ok(Evaluation::Responses(deliver_bytes(sequence, world, &bytes)))
        },
        Operation::Scatter(root) => {
            if !counted_at(requests, root, world) {
                return Err(invalid("scatter requires world-size inputs only at root"));
            }
            assert(views[root as int] == requests@[root as int]@);
            if !same(&requests[root].tensors) {
                return Err(invalid("collective tensor shape or dtype mismatch"));
            }
            Ok(Evaluation::Responses(deliver(sequence, separate(&requests[root].tensors))))
        },
        Operation::ReduceScatter(op) => {
            if !counted_alike(requests, world) {
                return Err(invalid("collective tensor count mismatch"));
            }
            if !all_same(requests, world) {
                return Err(invalid("collective tensor shape or dtype mismatch"));
            }
            let lists = copy_columns(requests, world);
            assert(list_views(lists@).len() == world);
            assert(list_views(lists@)[0] == column(views, 0));
            assert(payload_views(lists@[0]@).len() == world);
            reduce_lists(op, lists)
        },
        Operation::AllToAll => {
            if !counted_alike(requests, world) {
                return Err(invalid("collective tensor count mismatch"));
            }
            if !all_same(requests, world) {
                return Err(invalid("collective tensor shape or dtype mismatch"));
            }
            Ok(Evaluation::Responses(deliver(sequence, copy_columns(requests, world))))
        },
        _ => {
            if !counted_alike(requests, 1) {
                return Err(invalid("collective tensor count mismatch"));
            }
            let inputs = copy_column(requests, 0);
            if !same(&inputs) {
                return Err(invalid("collective tensor shape or dtype mismatch"));
            }
            assert(payload_views(inputs@).len() == world);
            match operation {
                Operation::Broadcast(root) => {
                    let mut one: Vec<Payload> = Vec::new();
                    one.push(inputs[root].copy());
                    assert(payload_views(inputs@)[root as int] == inputs@[root as int]@);
                    assert(payload_views(one@) =~= seq![column(views, 0)[root as int]]);
                    Ok(Evaluation::Responses(deliver(sequence, repeat(world, &one))))
                },
                Operation::AllReduce(op) => {
                    let mut lists: Vec<Vec<Payload>> = Vec::new();
                    lists.push(inputs);
                    assert(list_views(lists@) =~= seq![column(views, 0)]);
                    reduce_lists(op, lists)
                },
                Operation::Reduce(_, op) => {
                    let mut lists: Vec<Vec<Payload>> = Vec::new();
                    lists.push(inputs);
                    assert(list_views(lists@) =~= seq![column(views, 0)]);
                    reduce_lists(op, lists)
                },
                Operation::Gather(root) => {
                    Ok(Evaluation::Responses(deliver(sequence, place_at(world, root, &inputs))))
                },
                _ => Ok(Evaluation::Responses(deliver(sequence, repeat(world, &inputs)))),
            }
        },
    }
}

/// Which rank gets which result of a reduction.
pub open spec fn shared_out(operation: Operation, sequence: u64, world: int, results: Seq<PayloadView>) -> Seq<ResponseView> {
    match operation {
        Operation::Reduce(root, _) => delivered(sequence, only_at(world, root as int, seq![results[0]])),
        Operation::ReduceScatter(_) => delivered(sequence, singles(results)),
        _ => delivered(sequence, repeated(world, seq![results[0]])),
    }
}

/// The responses of a reduction once its results are there: one for each rank where the
/// results are scattered, else a single one.
pub fn share_out(operation: Operation, sequence: u64, world: usize, results: &Vec<Payload>) -> (r: Vec<Response>)
    requires
        results@.len() > 0,
    ensures
        response_views(r@) == shared_out(operation, sequence, world as int, payload_views(results@)),
{
    let mut one: Vec<Payload> = Vec::new();
    one.push(results[0].copy());
    assert(payload_views(one@) =~= seq![payload_views(results@)[0]]);
    match operation {
        Operation::Reduce(root, _) => deliver(sequence, place_at(world, root, &one)),
        Operation::ReduceScatter(_) => deliver(sequence, separate(results)),
        _ => deliver(sequence, repeat(world, &one)),
    }
}

/// The response that tells of a failure.
pub open spec fn failure(sequence: u64, error: Seq<char>) -> ResponseView {
    ResponseView { sequence, error: Some(error), tensors: Seq::empty(), bytes: Seq::empty() }
}

/// The responses that tell every rank of a failure.
pub fn fail_all(sequence: u64, world: usize, error: &str) -> (r: Vec<Response>)
    ensures
        response_views(r@) == Seq::new(world as nat, |i: int| failure(sequence, error@)),
{
    let mut out: Vec<Response> = Vec::new();
    while out.len() < world
        invariant
            out@.len() <= world,
            forall|k: int| 0 <= k < out@.len() ==> (#[trigger] out@[k])@ == failure(sequence, error@),
        decreases world - out@.len(),
    {
        let tensors: Vec<Payload> = Vec::new();
        let bytes: Vec<Vec<u8>> = Vec::new();
        assert(payload_views(tensors@) =~= Seq::empty());
        assert(byte_views(bytes@) =~= Seq::empty());
        out.push(Response { sequence, error: Some(crate::text::owned(error)), tensors, bytes });
    }
    assert(response_views(out@) =~= Seq::new(world as nat, |i: int| failure(sequence, error@)));
    out
}

/// Every rank is answered: a collective that needs no reduction gives each rank a response
/// without an error that carries the sequence number of the requests.
pub proof fn every_rank_is_answered(requests: Seq<RequestView>, world: int, limit: usize, responses: Seq<ResponseView>)
    requires
        world > 0,
        requests.len() == world,
        evaluated(requests, world, limit) == Ok::<EvaluationView, ErrorView>(EvaluationView::Responses(responses)),
    ensures
        responses.len() == world,
        forall|r: int|
            0 <= r < world ==> (#[trigger] responses[r]).sequence == requests[0].sequence && responses[r].error is None,
{
}

/// An exchange undoes itself: when every rank sends what it got from an exchange to the ranks
/// that it came from, every rank gets back what it had sent.
pub proof fn exchanging_twice_restores(requests: Seq<RequestView>, back: Seq<RequestView>, world: int)
    requires
        world > 0,
        requests.len() == world,
        back.len() == world,
        counts(requests, world),
        forall|r: int| 0 <= r < world ==> (#[trigger] back[r]).tensors == columns(requests, world)[r],
    ensures
        forall|r: int| 0 <= r < world ==> #[trigger] columns(back, world)[r] == requests[r].tensors,
{
    assert forall|r: int| 0 <= r < world implies #[trigger] columns(back, world)[r] == requests[r].tensors by {
        assert(columns(back, world)[r].len() == requests[r].tensors.len());
        assert forall|s: int| 0 <= s < world implies columns(back, world)[r][s] == requests[r].tensors[s] by {
            assert(back[s].tensors == column(requests, s));
        }
        assert(columns(back, world)[r] =~= requests[r].tensors);
    }
}

/// Scattering what was gathered at a root gives every rank its own tensor again.
pub proof fn gathered_tensors_scatter_back(
    gathered: Seq<RequestView>,
    scattered: Seq<RequestView>,
    root: usize,
    world: int,
    limit: usize,
    responses: Seq<ResponseView>,
)
    requires
        root < world,
        gathered.len() == world,
        scattered.len() == world,
        gathered[0].operation == Operation::Gather(root),
        scattered[0].operation == Operation::Scatter(root),
        evaluated(gathered, world, limit) == Ok::<EvaluationView, ErrorView>(EvaluationView::Responses(responses)),
        scattered[root as int].tensors == responses[root as int].tensors,
        evaluated(scattered, world, limit) is Ok,
    ensures
        evaluated(scattered, world, limit) == Ok::<EvaluationView, ErrorView>(
            EvaluationView::Responses(
                delivered(scattered[0].sequence, Seq::new(world as nat, |r: int| seq![gathered[r].tensors[0]])),
            ),
        ),
{
    let all = column(gathered, 0);
    assert(responses[root as int].tensors == all);
    assert(singles(all) =~= Seq::new(world as nat, |r: int| seq![gathered[r].tensors[0]]));
}

} // verus!
