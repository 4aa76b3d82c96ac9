//! Who may join a group, and which frames a member of it accepts.
use super::collective::{payload_checks, Operation, ResponseView};
use super::group::{joined_below, requests_in, request_of, FrameView, GroupView, OptionsView, RendezvousView};
use super::payload::{announced, big_endian, capture_refusal, dtype_of, swapped, Candidate, Dtype, PayloadView};
use super::refused;
use crate::bytes::{little_endian, little_endian_length, number_of_little_endian, range_of};
use crate::error::first_at_none;
use crate::kind::Kind;
use crate::tensor::counted;
use crate::tensor_laws::{bytes_are_least_first, elements_are_the_product_of_the_sides, volume};
use vstd::prelude::*;

verus! {

/// The options of a group are accepted exactly if it has one to 1024 members, the rank is one of them,
/// the session has a name of at most 256 bytes, the timeout is neither zero nor past the clock, and
/// messages may have from 1024 bytes to one gibibyte.
pub proof fn options_are_bounded(options: OptionsView, world: usize, rank: usize, fits: bool)
    ensures
        options.refusal(world, rank, fits) is None <==> {
            &&& 0 < world && world <= 1024 && rank < world
            &&& options.session.len() > 0 && vstd::utf8::encode_utf8(options.session).len() <= 256
            &&& (options.timeout.seconds > 0 || options.timeout.nanos > 0) && fits
            &&& 1024 <= options.max_message_bytes && options.max_message_bytes <= 1024 * 1024 * 1024
        },
{
}

/// A frame joins a forming group exactly if it is a greeting in the first version of the protocol, for
/// the same world, session and message limit, of a rank that is still awaited: one that is not the
/// first, has not joined, and at a member other than the first is below its own.
pub proof fn greetings_join_awaited_ranks(r: RendezvousView, frame: FrameView)
    requires
        r.wf(),
    ensures
        r.refusal(frame) is None <==> frame is Hello && {
            let hello = frame->Hello_0;
            &&& hello.version == 1
            &&& hello.world == r.world
            &&& hello.session == r.options.session
            &&& hello.limit == r.options.max_message_bytes
            &&& 0 < hello.rank && hello.rank < r.world
            &&& r.rank > 0 ==> hello.rank < r.rank
            &&& !r.joined[hello.rank as int]
        },
{
}

/// As many members have joined as there are ranks from the second on that did, so that a full count
/// means that none is missing.
pub proof fn full_counts_miss_no_rank(joined: Seq<bool>, end: int)
    requires
        1 <= end <= joined.len(),
    ensures
        0 <= joined_below(joined, end) <= end - 1,
        joined_below(joined, end) == end - 1 <==> forall|r: int| 1 <= r < end ==> #[trigger] joined[r],
        joined_below(joined, end) == 0 <==> forall|r: int| 1 <= r < end ==> !#[trigger] joined[r],
    decreases end,
{
    if end > 1 {
        full_counts_miss_no_rank(joined, end - 1);
    }
}

/// A member starts with all counters at zero and has not failed.
pub proof fn members_start_at_zero(rank: usize, world: usize, options: OptionsView, peer: int)
    requires
        0 <= peer < world,
    ensures
        ({
            let g = GroupView::fresh(rank, world, options);
            &&& g.rank == rank && g.world == world && g.options == options && !g.failed && g.sequence == 0
            &&& g.sends.len() == world && g.receives.len() == world
            &&& g.sends[peer] == 0 && g.receives[peer] == 0
        }),
{
}

/// A member that has not failed may send to, and receive from, exactly the other members.
pub proof fn peers_are_the_other_members(g: GroupView, peer: usize)
    ensures
        g.send_refusal(peer, true) is None <==> !g.failed && peer < g.world && peer != g.rank,
        g.receive_refusal(peer, true) is None <==> !g.failed && peer < g.world && peer != g.rank,
        g.send_refusal(peer, false) is Some,
        g.receive_refusal(peer, false) is Some,
        g.broken().send_refusal(peer, true) is Some,
        g.broken().receive_refusal(peer, true) is Some,
{
}

/// A transfer is acknowledged exactly by a frame that repeats its number and tag, as long as another
/// number is left.
pub proof fn acknowledgements_repeat_the_transfer(g: GroupView, destination: usize, tag: u64, frame: FrameView)
    ensures
        g.ack_refusal(destination, tag, frame) is None <==> {
            &&& frame is Ack
            &&& frame->Ack_sequence == g.sends[destination as int]
            &&& frame->Ack_tag == tag
            &&& g.sends[destination as int] < u64::MAX
        },
{
}

/// A transfer is taken exactly if it is a tensor with the number and the tag that are awaited from its
/// source, and the tensor itself is sound.
pub proof fn transfers_are_taken_in_turn(g: GroupView, source: usize, tag: u64, frame: FrameView)
    ensures
        g.point_refusal(source, tag, frame) is None <==> {
            &&& frame is Point
            &&& frame->Point_sequence == g.receives[source as int]
            &&& frame->Point_tag == tag
            &&& frame->tensor.refusal(1073741824) is None
        },
{
}

/// A response is taken exactly if it has the number that is awaited, reports no error and holds only
/// sound tensors, and another number is left.
pub proof fn responses_are_taken_in_turn(g: GroupView, response: ResponseView)
    ensures
        g.response_refusal(response) is None <==> {
            &&& response.sequence == g.sequence
            &&& response.error is None
            &&& g.sequence < u64::MAX
            &&& forall|i: int|
                0 <= i < response.tensors.len() ==> (#[trigger] response.tensors[i]).refusal(g.options.max_message_bytes) is None
        },
        response.sequence == g.sequence && response.error is Some ==> g.response_refusal(response) == Some(
            refused(response.error->0),
        ),
{
    let n = response.tensors.len() as int;
    let checks = payload_checks(response.tensors, g.options.max_message_bytes);
    first_at_none(0, n, checks);
    if forall|i: int|
        0 <= i < response.tensors.len() ==> (#[trigger] response.tensors[i]).refusal(g.options.max_message_bytes) is None {
        assert forall|i: int| 0 <= i < n implies (#[trigger] checks(i)) is None by {
            assert(response.tensors[i].refusal(g.options.max_message_bytes) is None);
        }
    }
    if forall|i: int| 0 <= i < n ==> (#[trigger] checks(i)) is None {
        assert forall|i: int| 0 <= i < response.tensors.len() implies (#[trigger] response.tensors[i]).refusal(
            g.options.max_message_bytes,
        ) is None by {
            assert(checks(i) is None);
        }
    }
}

/// Frames are a round of requests exactly if each of them is one, and the requests keep their order.
pub proof fn rounds_hold_requests_only(frames: Seq<FrameView>, n: int)
    requires
        0 <= n <= frames.len(),
    ensures
        requests_in(frames, n) is Some <==> forall|i: int| 0 <= i < n ==> (#[trigger] frames[i]) is Request,
        requests_in(frames, n) matches Some(list) ==> list.len() == n && forall|i: int|
            0 <= i < n ==> frames[i] == FrameView::Request(#[trigger] list[i]),
    decreases n,
{
    if n > 0 {
        rounds_hold_requests_only(frames, n - 1);
    }
}

/// A request carries its number, operation and bytes, and either its tensors or the reason why there
/// are none.
pub proof fn requests_carry_what_was_asked(
    sequence: u64,
    operation: Operation,
    tensors: Seq<PayloadView>,
    reason: Seq<char>,
    bytes: Seq<u8>,
)
    ensures
        ({
            let sent = request_of(sequence, operation, Ok(tensors), bytes);
            &&& sent.sequence == sequence && sent.operation == operation && sent.bytes == bytes
            &&& sent.tensors == tensors && sent.error is None
        }),
        ({
            let failed = request_of(sequence, operation, Err(reason), bytes);
            &&& failed.sequence == sequence && failed.operation == operation && failed.bytes == bytes
            &&& failed.tensors.len() == 0 && failed.error == Some(reason)
        }),
{
}

/// Three element types travel, and each travels as itself.
pub proof fn three_element_types_travel(kind: Kind)
    ensures
        dtype_of(kind) is Some <==> kind is Float || kind is Double || kind is Int64,
        dtype_of(kind) matches Some(dtype) ==> dtype.as_kind() == kind && dtype.size() == kind.width(),
        Dtype::Float.size() == 4 && Dtype::Double.size() == 8 && Dtype::Int64.size() == 8,
{
}

/// A tensor can be sent exactly if it is a defined dense tensor on the processor, of an element type
/// that travels, whose bytes fit into a message.
pub proof fn dense_processor_tensors_travel(c: Candidate, limit: usize)
    ensures
        capture_refusal(c, limit) is None <==> {
            &&& c.defined && c.device is Cpu && !c.sparse && !c.opaque
            &&& c.kind is Float || c.kind is Double || c.kind is Int64
            &&& c.elements * c.kind.width() <= limit
        },
{
}

/// A tensor that arrives is accepted exactly if it has at most 64 sides, fits the limit, and holds as
/// many bytes as its elements take.
pub proof fn arriving_tensors_hold_their_elements(p: PayloadView, limit: usize)
    ensures
        p.refusal(limit) is None <==> {
            &&& p.shape.len() <= 64
            &&& p.bytes.len() <= limit
            &&& counted(p.shape, p.shape.len() as int) is Some
            &&& volume(p.shape) * p.dtype.as_kind().width() == p.bytes.len()
        },
{
    elements_are_the_product_of_the_sides(p.shape);
}

/// Where elements are `width` bytes long, exchanging the order of bytes turns each element round: byte
/// `j` of element `e` becomes byte `width - 1 - j`.
pub proof fn swapping_turns_each_element_round(bytes: Seq<u8>, width: int, e: int, j: int)
    requires
        width > 0,
        0 <= j < width,
        0 <= e,
        e * width + width <= bytes.len(),
    ensures
        swapped(bytes, width).len() == bytes.len(),
        swapped(bytes, width)[e * width + j] == bytes[e * width + (width - 1 - j)],
{
    let i = e * width + j;
    assert(0 <= e * width) by (nonlinear_arith)
        requires
            0 <= e,
            width > 0,
    ;
    vstd::arithmetic::div_mod::lemma_fundamental_div_mod_converse(i, width, e, j);
}

/// The header of a message holds its length with the greatest byte first, and is read back as that
/// length where the limit allows it.
pub proof fn headers_hold_lengths_greatest_first(length: int, limit: usize, i: int)
    requires
        0 <= length < range_of(8),
        0 <= i < 8,
    ensures
        big_endian(length, 8).len() == 8,
        big_endian(length, 8)[i] == (length / range_of((7 - i) as nat)) % 256,
        length <= limit ==> announced(big_endian(length, 8), limit) == Ok::<int, crate::error::ErrorView>(length),
        length > limit ==> announced(big_endian(length, 8), limit) is Err,
{
    little_endian_length(length, 8);
    bytes_are_least_first(length, 8, 7 - i);
    assert(big_endian(length, 8).reverse() =~= little_endian(length, 8));
    number_of_little_endian(length, 8);
}

} // verus!
