//! How a group of ranks forms, and which messages it accepts once it has formed.
use super::collective::{Operation, Request, RequestView, Response, ResponseView, payload_checks};
use super::payload::{payload_views, Payload, PayloadView};
use super::{invalid, refused};
use crate::error::{first_at, refusal, texts, ErrorView, Result};
use crate::text::{byte_length, join3, natural_text, owned, same};
use vstd::prelude::*;

verus! {

/// The version of the messages.
pub const VERSION: u32 = 1;

/// The largest number of ranks.
pub const MAX_RANKS: usize = 1024;

/// The largest payload that is turned into a tensor.
pub const LARGEST_PAYLOAD: usize = 1073741824;

/// A span of time.
#[derive(Debug, Clone, Copy, PartialEq, Eq, Structural)]
pub struct Timeout {
    /// Whole seconds.
    pub seconds: u64,
    /// Billionths of a second.
    pub nanos: u32,
}

/// The identity of a run, the time allowed for an operation, and the largest message.
#[derive(Debug, Clone, PartialEq, Eq)]
pub struct GroupOptions {
    /// The name of the run.
    pub session: String,
    /// The time allowed for forming the group or for one operation.
    pub timeout: Timeout,
    /// The largest encoded message.
    pub max_message_bytes: usize,
}

/// The content of [`GroupOptions`].
pub struct OptionsView {
    pub session: Seq<char>,
    pub timeout: Timeout,
    pub max_message_bytes: usize,
}

impl View for GroupOptions {
    type V = OptionsView;

    open spec fn view(&self) -> OptionsView {
        OptionsView { session: self.session@, timeout: self.timeout, max_message_bytes: self.max_message_bytes }
    }
}

impl OptionsView {
    /// Why the options are refused for a rank of a world, if they are. `fits` tells whether the
    /// clock can reach the end of the timeout.
    pub open spec fn refusal(self, world: usize, rank: usize, fits: bool) -> Option<ErrorView> {
        if !(1 <= world <= MAX_RANKS) || rank >= world {
            Some(refused("world size must be in 1..=1024 and rank must be smaller"@))
        } else if self.session.len() == 0 || vstd::utf8::encode_utf8(self.session).len() > 256 || self.timeout == (Timeout {
            seconds: 0,
            nanos: 0,
        }) || !fits || self.max_message_bytes < 1024 || self.max_message_bytes > 1073741824 {
            Some(refused("invalid session, timeout, or message limit (1024..=1 GiB)"@))
        } else {
            None
        }
    }
}

impl GroupOptions {
    /// Thirty seconds and 64 MiB for a session.
    pub fn new(session: &str) -> (r: Self)
        ensures
            r@ == (OptionsView {
                session: session@,
                timeout: Timeout { seconds: 30, nanos: 0 },
                max_message_bytes: 67108864,
            }),
    {
        GroupOptions {
            session: owned(session),
            timeout: Timeout { seconds: 30, nanos: 0 },
            max_message_bytes: 67108864,
        }
    }

    /// Checks the options for a rank of a world.
    pub fn validate(&self, world: usize, rank: usize, fits: bool) -> (r: Result<()>)
        ensures
            refusal(r) == self@.refusal(world, rank, fits),
    {
        if world < 1 || world > MAX_RANKS || rank >= world {
            return Err(invalid("world size must be in 1..=1024 and rank must be smaller"));
        }
        if same(self.session.as_str(), "") || byte_length(self.session.as_str()) > 256 || self.timeout == (Timeout {
            seconds: 0,
            nanos: 0,
        }) || !fits || self.max_message_bytes < 1024 || self.max_message_bytes > 1073741824 {
            proof {
                reveal_strlit("");
            }
            return Err(invalid("invalid session, timeout, or message limit (1024..=1 GiB)"));
        }
        proof {
            reveal_strlit("");
            if self.session@.len() == 0 {
                assert(self.session@ =~= ""@);
            }
        }
        Ok(())
    }
}

/// How a rank introduces itself.
#[derive(Debug, PartialEq, Eq)]
pub struct Hello {
    /// The version of its messages.
    pub version: u32,
    /// Its rank.
    pub rank: usize,
    /// The number of ranks that it expects.
    pub world: usize,
    /// The name of its run.
    pub session: String,
    /// Its largest message.
    pub limit: usize,
    /// Where it listens.
    pub address: String,
}

/// The content of a [`Hello`].
pub struct HelloView {
    pub version: u32,
    pub rank: usize,
    pub world: usize,
    pub session: Seq<char>,
    pub limit: usize,
    pub address: Seq<char>,
}

impl View for Hello {
    type V = HelloView;

    open spec fn view(&self) -> HelloView {
        HelloView {
            version: self.version,
            rank: self.rank,
            world: self.world,
            session: self.session@,
            limit: self.limit,
            address: self.address@,
        }
    }
}

impl HelloView {
    /// The introduction fits a group.
    pub open spec fn fits(self, world: usize, options: OptionsView) -> bool {
        &&& self.version == VERSION
        &&& self.world == world
        &&& self.rank < world
        &&& self.session == options.session
        &&& self.limit == options.max_message_bytes
    }
}

/// A message between two ranks.
#[derive(Debug, PartialEq, Eq)]
pub enum Frame {
    /// A rank introduces itself.
    Hello(Hello),
    /// Where each rank listens.
    Addresses(Vec<String>),
    /// What a rank brings to a collective.
    Request(Request),
    /// What a rank gets from a collective.
    Response(Response),
    /// A tensor for one rank.
    Point {
        /// How many were sent that way before.
        sequence: u64,
        /// The tag that both sides agree on.
        tag: u64,
        /// The tensor.
        tensor: Payload,
    },
    /// A tensor has arrived.
    Ack {
        /// The number of the tensor.
        sequence: u64,
        /// Its tag.
        tag: u64,
    },
}

/// The content of a [`Frame`].
pub enum FrameView {
    Hello(HelloView),
    Addresses(Seq<Seq<char>>),
    Request(RequestView),
    Response(ResponseView),
    Point { sequence: u64, tag: u64, tensor: PayloadView },
    Ack { sequence: u64, tag: u64 },
}

impl View for Frame {
    type V = FrameView;

    open spec fn view(&self) -> FrameView {
        match *self {
            Frame::Hello(hello) => FrameView::Hello(hello@),
            Frame::Addresses(list) => FrameView::Addresses(texts(list@)),
            Frame::Request(request) => FrameView::Request(request@),
            Frame::Response(response) => FrameView::Response(response@),
            Frame::Point { sequence, tag, tensor } => FrameView::Point { sequence, tag, tensor: tensor@ },
            Frame::Ack { sequence, tag } => FrameView::Ack { sequence, tag },
        }
    }
}

/// A group that is forming, as one of its ranks sees it.
#[derive(Debug, PartialEq, Eq)]
pub struct Rendezvous {
    rank: usize,
    world: usize,
    options: GroupOptions,
    joined: Vec<bool>,
    greeted: usize,
}

/// The content of a [`Rendezvous`].
pub struct RendezvousView {
    pub rank: usize,
    pub world: usize,
    pub options: OptionsView,
    /// For each rank, whether there is a connection to it.
    pub joined: Seq<bool>,
    /// How many ranks have introduced themselves.
    pub greeted: usize,
}

impl View for Rendezvous {
    type V = RendezvousView;

    closed spec fn view(&self) -> RendezvousView {
        RendezvousView {
            rank: self.rank,
            world: self.world,
            options: self.options@,
            joined: self.joined@,
            greeted: self.greeted,
        }
    }
}

/// How many of the ranks from 1 up to `end` have joined.
pub open spec fn joined_below(joined: Seq<bool>, end: int) -> int
    decreases end,
{
    if end <= 1 {
        0
    } else {
        joined_below(joined, end - 1) + (if joined[end - 1] {
            1int
        } else {
            0
        })
    }
}

proof fn joined_below_bound(joined: Seq<bool>, end: int)
    requires
        1 <= end,
    ensures
        0 <= joined_below(joined, end) <= end - 1,
        joined_below(joined, end) == end - 1 ==> forall|r: int| 1 <= r < end ==> #[trigger] joined[r],
    decreases end,
{
    if end > 1 {
        joined_below_bound(joined, end - 1);
    }
}

proof fn joined_below_update(joined: Seq<bool>, at: int, end: int)
    requires
        1 <= at,
        end <= joined.len(),
        at < joined.len(),
        !joined[at],
    ensures
        joined_below(joined.update(at, true), end) == joined_below(joined, end) + (if at < end {
            1int
        } else {
            0
        }),
    decreases end,
{
    if end > 1 {
        joined_below_update(joined, at, end - 1);
    }
}

proof fn joined_below_none(joined: Seq<bool>, end: int)
    requires
        end <= joined.len(),
        forall|r: int| 1 <= r < end ==> !#[trigger] joined[r],
    ensures
        joined_below(joined, end) == 0,
    decreases end,
{
    if end > 1 {
        joined_below_none(joined, end - 1);
    }
}

impl RendezvousView {
    /// The ranks from 1 up to this one introduce themselves: all of them to rank zero, and to
    /// any other rank those below it.
    pub open spec fn bound(self) -> int {
        if self.rank == 0 {
            self.world as int
        } else {
            self.rank as int
        }
    }

    /// A rank other than zero is connected to rank zero and to all ranks above it.
    pub open spec fn wf(self) -> bool {
        &&& 1 <= self.world <= MAX_RANKS
        &&& self.rank < self.world
        &&& self.joined.len() == self.world
        &&& joined_below(self.joined, self.bound()) == self.greeted
        &&& self.rank > 0 ==> self.joined[0] && forall|r: int| self.rank < r < self.world ==> #[trigger] self.joined[r]
    }

    /// Why a first message is refused, if it is.
    pub open spec fn refusal(self, frame: FrameView) -> Option<ErrorView> {
        match frame {
            FrameView::Hello(hello) => if !hello.fits(self.world, self.options) {
                Some(refused("rendezvous version, rank, world, session or message limit mismatch"@))
            } else if hello.rank == 0 || hello.rank >= self.bound() || self.joined[hello.rank as int] {
                if self.rank == 0 {
                    Some(refused("duplicate or invalid rendezvous rank"@))
                } else {
                    Some(refused("invalid peer mesh rank"@))
                }
            } else {
                None
            },
            _ => Some(refused("expected rendezvous greeting"@)),
        }
    }
}

impl Rendezvous {
    /// The invariant of a forming group.
    pub closed spec fn wf(self) -> bool {
        self@.wf()
    }

    /// Starts as rank zero, which waits for all others: none has joined.
    pub fn accept(world: usize, options: GroupOptions, fits: bool) -> (r: Result<Self>)
        ensures
            refusal(r) == options@.refusal(world, 0, fits),
            r matches Ok(s) ==> s.wf() && s@.rank == 0 && s@.world == world && s@.options == options@ && s@.greeted == 0
                && s@.joined == Seq::new(world as nat, |i: int| false),
    {
        if let Err(e) = options.validate(world, 0, fits) {
            return Err(e);
        }
        let joined = unjoined(world);
        proof {
            joined_below_none(joined@, world as int);
        }
        Ok(Rendezvous { rank: 0, world, options, joined, greeted: 0 })
    }

    /// Starts as another rank, which calls rank zero and the ranks above it, and waits for
    /// those below it: none of these has joined.
    pub fn connect(rank: usize, world: usize, options: GroupOptions, fits: bool) -> (r: Result<Self>)
        ensures
            refusal(r) == (match options@.refusal(world, rank, fits) {
                Some(e) => Some(e),
                None => if rank == 0 {
                    Some(refused("rank zero must use ProcessGroup::accept"@))
                } else {
                    None
                },
            }),
            r matches Ok(s) ==> s.wf() && s@.rank == rank && s@.world == world && s@.options == options@ && s@.greeted == 0
                && s@.joined == Seq::new(world as nat, |i: int| i == 0 || i > rank),
    {
        if let Err(e) = options.validate(world, rank, fits) {
            return Err(e);
        }
        if rank == 0 {
            return Err(invalid("rank zero must use ProcessGroup::accept"));
        }
        let mut joined: Vec<bool> = Vec::new();
        while joined.len() < world
            invariant
                joined@.len() <= world,
                forall|r: int| 0 <= r < joined@.len() ==> #[trigger] joined@[r] == (r == 0 || r > rank),
            decreases world - joined@.len(),
        {
            let reached = joined.len() == 0 || joined.len() > rank;
            joined.push(reached);
        }
        proof {
            joined_below_none(joined@, rank as int);
        }
        Ok(Rendezvous { rank, world, options, joined, greeted: 0 })
    }

    /// How this rank introduces itself.
    pub fn greeting(&self, address: &str) -> (r: Hello)
        ensures
            r@ == (HelloView {
                version: VERSION,
                rank: self@.rank,
                world: self@.world,
                session: self@.options.session,
                limit: self@.options.max_message_bytes,
                address: address@,
            }),
    {
        Hello {
            version: VERSION,
            rank: self.rank,
            world: self.world,
            session: owned(self.options.session.as_str()),
            limit: self.options.max_message_bytes,
            address: owned(address),
        }
    }

    /// Reads where each rank listens from the answer of rank zero.
    pub fn addresses(&self, frame: Frame) -> (r: Result<Vec<String>>)
        ensures
            match (r, frame@) {
                (Ok(list), FrameView::Addresses(expected)) => texts(list@) == expected && expected.len() == self@.world,
                (Err(e), FrameView::Addresses(expected)) => expected.len() != self@.world && e@ == refused(
                    "invalid rendezvous address list"@,
                ),
                (Err(e), _) => e@ == refused("invalid rendezvous address list"@),
                (Ok(_), _) => false,
            },
    {
        match frame {
            Frame::Addresses(list) => {
                if list.len() != self.world {
                    return Err(invalid("invalid rendezvous address list"));
                }
                Ok(list)
            },
            _ => Err(invalid("invalid rendezvous address list")),
        }
    }

    /// How many ranks still have to introduce themselves.
    pub fn waiting(&self) -> (r: usize)
        requires
            self.wf(),
        ensures
            r == self@.bound() - 1 - self@.greeted,
    {
        proof {
            joined_below_bound(self.joined@, self@.bound());
        }
        let bound: usize = if self.rank == 0 {
            self.world
        } else {
            self.rank
        };
        bound - 1 - self.greeted
    }

    /// Takes the first message of a rank that has connected: gives its rank and where it
    /// listens.
    pub fn greet(&mut self, frame: Frame) -> (r: Result<(usize, String)>)
        requires
            old(self).wf(),
        ensures
            final(self).wf(),
            refusal(r) == old(self)@.refusal(frame@),
            r matches Ok(p) ==> (frame@ matches FrameView::Hello(hello) && p.0 == hello.rank && p.1@ == hello.address
                && final(self)@ == (RendezvousView {
                joined: old(self)@.joined.update(hello.rank as int, true),
                greeted: (old(self)@.greeted + 1) as usize,
                ..old(self)@
            })),
            r is Err ==> final(self)@ == old(self)@,
    {
        let hello = match frame {
            Frame::Hello(hello) => hello,
            _ => {
                return Err(invalid("expected rendezvous greeting"));
            },
        };
        if hello.version != VERSION || hello.world != self.world || hello.rank >= self.world || !same(
            hello.session.as_str(),
            self.options.session.as_str(),
        ) || hello.limit != self.options.max_message_bytes {
            return Err(invalid("rendezvous version, rank, world, session or message limit mismatch"));
        }
        if self.rank == 0 {
            if hello.rank == 0 || self.joined[hello.rank] {
                return Err(invalid("duplicate or invalid rendezvous rank"));
            }
        } else {
            if hello.rank == 0 || hello.rank >= self.rank || self.joined[hello.rank] {
                return Err(invalid("invalid peer mesh rank"));
            }
        }
        let ghost before = self.joined@;
        proof {
            joined_below_update(before, hello.rank as int, self@.bound());
            joined_below_bound(before.update(hello.rank as int, true), self@.bound());
        }
        self.joined.set(hello.rank, true);
        self.greeted = self.greeted + 1;
        Ok((hello.rank, hello.address))
    }

    /// The group, once every rank that was waited for has introduced itself. There is then a
    /// connection to every other rank.
    pub fn finish(self) -> (r: Option<ProcessGroup>)
        requires
            self.wf(),
        ensures
            r is Some <==> self@.greeted == self@.bound() - 1,
            r matches Some(g) ==> {
                &&& g.wf()
                &&& g@ == GroupView::fresh(self@.rank, self@.world, self@.options)
                &&& forall|i: int| 0 <= i < self@.world && i != self@.rank ==> #[trigger] self@.joined[i]
            },
    {
        proof {
            joined_below_bound(self.joined@, self@.bound());
        }
        if self.waiting() > 0 {
            return None;
        }
        let group = ProcessGroup {
            rank: self.rank,
            world: self.world,
            options: self.options,
            sequence: 0,
            sends: zeros(self.world),
            receives: zeros(self.world),
            failed: false,
        };
        assert(group@.sends =~= Seq::new(self.world as nat, |i: int| 0u64));
        assert(group@.receives =~= Seq::new(self.world as nat, |i: int| 0u64));
        Some(group)
    }
}

fn unjoined(world: usize) -> (r: Vec<bool>)
    ensures
        r@.len() == world,
        forall|i: int| 0 <= i < world ==> !#[trigger] r@[i],
{
    let mut out: Vec<bool> = Vec::new();
    while out.len() < world
        invariant
            out@.len() <= world,
            forall|i: int| 0 <= i < out@.len() ==> !#[trigger] out@[i],
        decreases world - out@.len(),
    {
        out.push(false);
    }
    out
}

fn zeros(world: usize) -> (r: Vec<u64>)
    ensures
        r@ == Seq::new(world as nat, |i: int| 0u64),
{
    let mut out: Vec<u64> = Vec::new();
    while out.len() < world
        invariant
            out@.len() <= world,
            forall|i: int| 0 <= i < out@.len() ==> #[trigger] out@[i] == 0,
        decreases world - out@.len(),
    {
        out.push(0);
    }
    assert(out@ =~= Seq::new(world as nat, |i: int| 0u64));
    out
}

/// A group as one of its ranks sees it. Every failure is final: the group refuses whatever
/// comes after it.
#[derive(Debug, PartialEq, Eq)]
pub struct ProcessGroup {
    rank: usize,
    world: usize,
    options: GroupOptions,
    sequence: u64,
    sends: Vec<u64>,
    receives: Vec<u64>,
    failed: bool,
}

/// The content of a [`ProcessGroup`].
#[verifier::ext_equal]
pub struct GroupView {
    pub rank: usize,
    pub world: usize,
    pub options: OptionsView,
    /// How many collectives have succeeded.
    pub sequence: u64,
    /// How many tensors were sent to each rank.
    pub sends: Seq<u64>,
    /// How many tensors were received from each rank.
    pub receives: Seq<u64>,
    /// Whether something has failed.
    pub failed: bool,
}

impl View for ProcessGroup {
    type V = GroupView;

    closed spec fn view(&self) -> GroupView {
        GroupView {
            rank: self.rank,
            world: self.world,
            options: self.options@,
            sequence: self.sequence,
            sends: self.sends@,
            receives: self.receives@,
            failed: self.failed,
        }
    }
}

impl GroupView {
    /// A group that has done nothing yet.
    pub open spec fn fresh(rank: usize, world: usize, options: OptionsView) -> GroupView {
        GroupView {
            rank,
            world,
            options,
            sequence: 0,
            sends: Seq::new(world as nat, |i: int| 0u64),
            receives: Seq::new(world as nat, |i: int| 0u64),
            failed: false,
        }
    }

    /// The invariant of a group.
    pub open spec fn wf(self) -> bool {
        &&& 1 <= self.world <= MAX_RANKS
        &&& self.rank < self.world
        &&& self.sends.len() == self.world
        &&& self.receives.len() == self.world
    }

    /// The group after a failure.
    pub open spec fn broken(self) -> GroupView {
        GroupView { failed: true, ..self }
    }

    /// Why the group cannot start an operation, if it cannot. `fits` tells whether the clock
    /// can reach the end of the timeout.
    pub open spec fn ready_refusal(self, fits: bool) -> Option<ErrorView> {
        if self.failed {
            Some(refused("process group failed; create a new session"@))
        } else if !fits {
            Some(refused("timeout exceeds clock range"@))
        } else {
            None
        }
    }

    /// Why a response is refused, if it is.
    pub open spec fn response_refusal(self, response: ResponseView) -> Option<ErrorView> {
        if response.sequence != self.sequence {
            Some(refused("collective response sequence mismatch"@))
        } else if response.error is Some {
            Some(refused(response.error->0))
        } else {
            match first_at(
                0,
                response.tensors.len() as int,
                payload_checks(response.tensors, self.options.max_message_bytes),
            ) {
                Some(e) => Some(e),
                None => if self.sequence == u64::MAX {
                    Some(refused("collective sequence exhausted"@))
                } else {
                    None
                },
            }
        }
    }

    /// Why a tensor cannot be sent to a rank, if it cannot.
    pub open spec fn send_refusal(self, destination: usize, fits: bool) -> Option<ErrorView> {
        match self.ready_refusal(fits) {
            Some(e) => Some(e),
            None => if destination >= self.world || destination == self.rank {
                Some(refused("invalid point-to-point destination"@))
            } else {
                None
            },
        }
    }

    /// Why the answer to a sent tensor is refused, if it is.
    pub open spec fn ack_refusal(self, destination: usize, tag: u64, frame: FrameView) -> Option<ErrorView> {
        if frame != (FrameView::Ack { sequence: self.sends[destination as int], tag }) {
            Some(refused("point-to-point acknowledgement mismatch"@))
        } else if self.sends[destination as int] == u64::MAX {
            Some(refused("point-to-point sequence exhausted"@))
        } else {
            None
        }
    }

    /// Why a tensor cannot be received from a rank, if it cannot.
    pub open spec fn receive_refusal(self, source: usize, fits: bool) -> Option<ErrorView> {
        match self.ready_refusal(fits) {
            Some(e) => Some(e),
            None => if source >= self.world || source == self.rank {
                Some(refused("invalid point-to-point source"@))
            } else {
                None
            },
        }
    }

    /// Why a message is not the tensor that is waited for, if it is not.
    pub open spec fn point_refusal(self, source: usize, tag: u64, frame: FrameView) -> Option<ErrorView> {
        match frame {
            FrameView::Point { sequence, tag: t, tensor } => if sequence == self.receives[source as int] && t == tag {
                tensor.refusal(LARGEST_PAYLOAD)
            } else {
                Some(refused("point-to-point source sequence or tag mismatch"@))
            },
            _ => Some(refused("point-to-point source sequence or tag mismatch"@)),
        }
    }
}

/// The requests in messages, if all of them are requests.
pub open spec fn requests_in(frames: Seq<FrameView>, n: int) -> Option<Seq<RequestView>>
    decreases n,
{
    if n <= 0 {
        Some(Seq::empty())
    } else {
        match (requests_in(frames, n - 1), frames[n - 1]) {
            (Some(list), FrameView::Request(request)) => Some(list.push(request)),
            _ => None,
        }
    }
}

/// The contents of messages.
pub open spec fn frame_views(list: Seq<Frame>) -> Seq<FrameView> {
    Seq::new(list.len(), |i: int| list[i]@)
}

proof fn requests_fail(frames: Seq<FrameView>, n: int, m: int)
    requires
        0 <= n <= m,
        requests_in(frames, n) is None,
    ensures
        requests_in(frames, m) is None,
    decreases m - n,
{
    if n < m {
        requests_fail(frames, n + 1, m);
    }
}

/// What a rank brings where its tensors could not be read: the error in their place.
pub open spec fn request_of(
    sequence: u64,
    operation: Operation,
    tensors: core::result::Result<Seq<PayloadView>, Seq<char>>,
    bytes: Seq<u8>,
) -> RequestView {
    match tensors {
        Ok(tensors) => RequestView { sequence, operation, error: None, tensors, bytes },
        Err(error) => RequestView { sequence, operation, error: Some(error), tensors: Seq::empty(), bytes },
    }
}

impl ProcessGroup {
    /// The invariant of a group.
    pub open spec fn wf(self) -> bool {
        self@.wf()
    }

    /// This rank.
    pub fn rank(&self) -> (r: usize)
        ensures
            r == self@.rank,
    {
        self.rank
    }

    /// The number of ranks.
    pub fn world_size(&self) -> (r: usize)
        ensures
            r == self@.world,
    {
        self.world
    }

    /// The name of the run.
    pub fn session(&self) -> (r: &str)
        ensures
            r@ == self@.options.session,
    {
        self.options.session.as_str()
    }

    /// The time allowed for one operation.
    pub fn timeout(&self) -> (r: Timeout)
        ensures
            r == self@.options.timeout,
    {
        self.options.timeout
    }

    /// Whether something has failed.
    pub fn is_failed(&self) -> (r: bool)
        ensures
            r == self@.failed,
    {
        self.failed
    }

    /// The largest encoded message.
    pub fn max_message_bytes(&self) -> (r: usize)
        ensures
            r == self@.options.max_message_bytes,
    {
        self.options.max_message_bytes
    }

    /// Gives the group up.
    pub fn abort(&mut self)
        ensures
            final(self)@ == old(self)@.broken(),
    {
        self.failed = true;
    }

    /// Checks that an operation can start.
    pub fn ready(&self, fits: bool) -> (r: Result<()>)
        ensures
            refusal(r) == self@.ready_refusal(fits),
    {
        if self.failed {
            return Err(invalid("process group failed; create a new session"));
        }
        if !fits {
            return Err(invalid("timeout exceeds clock range"));
        }
        Ok(())
    }

    /// Changes the time allowed for one operation. `fits` and `next_fits` tell whether the
    /// clock can reach the end of the old and of the new one.
    pub fn set_timeout(&mut self, timeout: Timeout, fits: bool, next_fits: bool) -> (r: Result<()>)
        ensures
            refusal(r) == (match old(self)@.ready_refusal(fits) {
                Some(e) => Some(e),
                None => if timeout == (Timeout { seconds: 0, nanos: 0 }) || !next_fits {
                    Some(refused("communication timeout must be positive and fit the clock"@))
                } else {
                    None
                },
            }),
            r is Ok ==> final(self)@ == (GroupView {
                options: OptionsView { timeout, ..old(self)@.options },
                ..old(self)@
            }),
            r is Err ==> final(self)@ == old(self)@,
    {
        if let Err(e) = self.ready(fits) {
            return Err(e);
        }
        if timeout == (Timeout { seconds: 0, nanos: 0 }) || !next_fits {
            return Err(invalid("communication timeout must be positive and fit the clock"));
        }
        self.options.timeout = timeout;
        Ok(())
    }

    /// What marks a checkpoint of this moment.
    pub fn checkpoint_stamp(&self) -> (r: String)
        ensures
            r@ == self@.options.session + ":"@ + crate::text::decimal(self@.sequence as int),
    {
        let number = natural_text(self.sequence);
        join3(self.options.session.as_str(), ":", number.as_str())
    }

    /// Checks bytes that are to be gathered.
    pub fn check_bytes(&self, bytes: &Vec<u8>) -> (r: Result<()>)
        ensures
            refusal(r) == (if bytes@.len() > self@.options.max_message_bytes {
                Some(refused("byte payload exceeds message limit"@))
            } else {
                None
            }),
    {
        if bytes.len() > self.options.max_message_bytes {
            return Err(invalid("byte payload exceeds message limit"));
        }
        Ok(())
    }

    /// What this rank brings to a collective. Where its tensors could not be read, it brings
    /// the error, so that all ranks fail together.
    pub fn request(
        &self,
        operation: Operation,
        tensors: core::result::Result<Vec<Payload>, String>,
        bytes: Vec<u8>,
    ) -> (r: Request)
        ensures
            r@ == request_of(
                self@.sequence,
                operation,
                match tensors {
                    Ok(list) => Ok(payload_views(list@)),
                    Err(text) => Err(text@),
                },
                bytes@,
            ),
    {
        match tensors {
            Ok(tensors) => Request { sequence: self.sequence, operation, error: None, tensors, bytes },
            Err(text) => {
                let none: Vec<Payload> = Vec::new();
                assert(payload_views(none@) =~= Seq::empty());
                Request { sequence: self.sequence, operation, error: Some(text), tensors: none, bytes }
            },
        }
    }

    /// Puts the request of rank zero together with what the others have sent.
    #[verifier::loop_isolation(false)]
    pub fn collect(&mut self, own: Request, frames: Vec<Frame>) -> (r: Result<Vec<Request>>)
        ensures
            match (r, requests_in(frame_views(frames@), frames@.len() as int)) {
                (Ok(list), Some(others)) => super::collective::request_views(list@) == seq![own@] + others && final(self)@
                    == old(self)@,
                (Err(e), None) => e@ == refused("collective received a different operation type"@) && final(self)@ == old(
                    self,
                )@.broken(),
                _ => false,
            },
    {
        let ghost views = frame_views(frames@);
        let ghost n = frames@.len() as int;
        let ghost first = own@;
        let mut list: Vec<Request> = Vec::new();
        list.push(own);
        let mut rest = frames;
        let mut backward: Vec<Frame> = Vec::new();
        while rest.len() > 0
            invariant
                rest@.len() + backward@.len() == n,
                views.len() == n,
                forall|i: int| 0 <= i < rest@.len() ==> (#[trigger] rest@[i])@ == views[i],
                forall|i: int| 0 <= i < backward@.len() ==> (#[trigger] backward@[i])@ == views[n - 1 - i],
            decreases rest@.len(),
        {
            if let Some(frame) = rest.pop() {
                backward.push(frame);
            }
        }
        assert(super::collective::request_views(list@) =~= seq![first]);
        assert(seq![first] + Seq::<RequestView>::empty() =~= seq![first]);
        let ghost start = self@;
        while backward.len() > 0
            invariant
                self@ == start,
                views.len() == n,
                views == frame_views(frames@),
                backward@.len() <= n,
                forall|i: int| 0 <= i < backward@.len() ==> (#[trigger] backward@[i])@ == views[n - 1 - i],
                requests_in(views, n - backward@.len()) is Some,
                super::collective::request_views(list@) == seq![first] + requests_in(views, n - backward@.len())->0,
            decreases backward@.len(),
        {
            let ghost k = n - backward@.len();
            let ghost before = super::collective::request_views(list@);
            if let Some(frame) = backward.pop() {
                assert(frame@ == views[k]);
                match frame {
                    Frame::Request(request) => {
                        let ghost view = request@;
                        list.push(request);
                        proof {
                            assert(super::collective::request_views(list@) =~= before.push(view));
                            assert((seq![first] + requests_in(views, k)->0).push(view) =~= seq![first] + requests_in(
                                views,
                                k,
                            )->0.push(view));
                        }
                    },
                    _ => {
                        proof {
                            assert(requests_in(views, k + 1) is None);
                            requests_fail(views, k + 1, n);
                        }
                        self.failed = true;
                        return Err(invalid("collective received a different operation type"));
                    },
                }
            }
        }
        Ok(list)
    }

    /// Takes the response to a collective from rank zero.
    pub fn answer(&mut self, frame: Frame) -> (r: Result<Response>)
        ensures
            match frame@ {
                FrameView::Response(response) => refusal(r) == old(self)@.response_refusal(response) && (r matches Ok(s)
                    ==> s@ == response),
                _ => refusal(r) == Some(refused("invalid collective response"@)),
            },
            r is Ok ==> final(self)@ == (GroupView { sequence: (old(self)@.sequence + 1) as u64, ..old(self)@ }),
            r is Err ==> final(self)@ == old(self)@.broken(),
    {
        match frame {
            Frame::Response(response) => self.settle(response),
            _ => {
                self.failed = true;
                Err(invalid("invalid collective response"))
            },
        }
    }

    /// Completes a collective with the response for this rank.
    pub fn settle(&mut self, response: Response) -> (r: Result<Response>)
        ensures
            refusal(r) == old(self)@.response_refusal(response@),
            r matches Ok(s) ==> s@ == response@ && final(self)@ == (GroupView {
                sequence: (old(self)@.sequence + 1) as u64,
                ..old(self)@
            }),
            r is Err ==> final(self)@ == old(self)@.broken(),
    {
        if response.sequence != self.sequence {
            self.failed = true;
            return Err(invalid("collective response sequence mismatch"));
        }
        if let Some(text) = &response.error {
            self.failed = true;
            return Err(invalid(text.as_str()));
        }
        if let Err(e) = super::collective::check_payloads(&response.tensors, self.options.max_message_bytes) {
            self.failed = true;
            return Err(e);
        }
        if self.sequence == u64::MAX {
            self.failed = true;
            return Err(invalid("collective sequence exhausted"));
        }
        self.sequence = self.sequence + 1;
        Ok(response)
    }

    /// The only tensor of a response.
    pub fn one(response: Response) -> (r: Result<Payload>)
        ensures
            match r {
                Ok(p) => response@.tensors.len() > 0 && p@ == response@.tensors[0],
                Err(e) => response@.tensors.len() == 0 && e@ == refused("collective returned no tensor"@),
            },
    {
        if response.tensors.len() == 0 {
            return Err(invalid("collective returned no tensor"));
        }
        Ok(response.tensors[0].copy())
    }

    /// Checks that all ranks have sent the same bytes.
    #[verifier::loop_isolation(false)]
    pub fn identical(&mut self, bytes: &Vec<u8>, values: &Vec<Vec<u8>>) -> (r: Result<()>)
        ensures
            refusal(r) == (if forall|i: int| 0 <= i < values@.len() ==> (#[trigger] values@[i])@ == bytes@ {
                None
            } else {
                Some(refused("rank metadata or checkpoint identity differs"@))
            }),
            r is Ok ==> final(self)@ == old(self)@,
            r is Err ==> final(self)@ == old(self)@.broken(),
    {
        let ghost start = self@;
        let mut i: usize = 0;
        while i < values.len()
            invariant
                self@ == start,
                i <= values@.len(),
                forall|j: int| 0 <= j < i ==> (#[trigger] values@[j])@ == bytes@,
            decreases values@.len() - i,
        {
            if !same_bytes(&values[i], bytes) {
                assert(values@[i as int]@ != bytes@);
                self.failed = true;
                return Err(invalid("rank metadata or checkpoint identity differs"));
            }
            i += 1;
        }
        Ok(())
    }

    /// Starts to send a tensor to a rank: gives its number.
    pub fn begin_send(&mut self, destination: usize, fits: bool) -> (r: Result<u64>)
        requires
            old(self).wf(),
        ensures
            final(self).wf(),
            refusal(r) == old(self)@.send_refusal(destination, fits),
            r matches Ok(n) ==> n == old(self)@.sends[destination as int] && final(self)@ == old(self)@,
            r is Err ==> final(self)@ == old(self)@.broken(),
    {
        if let Err(e) = self.ready(fits) {
            self.failed = true;
            return Err(e);
        }
        if destination >= self.world || destination == self.rank {
            self.failed = true;
            return Err(invalid("invalid point-to-point destination"));
        }
        Ok(self.sends[destination])
    }

    /// Takes the answer of the rank to which a tensor was sent.
    pub fn finish_send(&mut self, destination: usize, tag: u64, frame: Frame) -> (r: Result<()>)
        requires
            old(self).wf(),
            destination < old(self)@.world,
        ensures
            final(self).wf(),
            refusal(r) == old(self)@.ack_refusal(destination, tag, frame@),
            r is Ok ==> final(self)@ == (GroupView {
                sends: old(self)@.sends.update(destination as int, (old(self)@.sends[destination as int] + 1) as u64),
                ..old(self)@
            }),
            r is Err ==> final(self)@ == old(self)@.broken(),
    {
        let sequence: u64 = self.sends[destination];
        match frame {
            Frame::Ack { sequence: s, tag: t } => {
                if s != sequence || t != tag {
                    self.failed = true;
                    return Err(invalid("point-to-point acknowledgement mismatch"));
                }
            },
            _ => {
                self.failed = true;
                return Err(invalid("point-to-point acknowledgement mismatch"));
            },
        }
        if sequence == u64::MAX {
            self.failed = true;
            return Err(invalid("point-to-point sequence exhausted"));
        }
        self.sends.set(destination, sequence + 1);
        Ok(())
    }

    /// Starts to wait for a tensor from a rank.
    pub fn begin_recv(&mut self, source: usize, fits: bool) -> (r: Result<()>)
        ensures
            refusal(r) == old(self)@.receive_refusal(source, fits),
            r is Ok ==> final(self)@ == old(self)@,
            r is Err ==> final(self)@ == old(self)@.broken(),
    {
        if let Err(e) = self.ready(fits) {
            self.failed = true;
            return Err(e);
        }
        if source >= self.world || source == self.rank {
            self.failed = true;
            return Err(invalid("invalid point-to-point source"));
        }
        Ok(())
    }

    /// Takes a tensor from a rank: gives it with the answer that is to be sent back.
    pub fn recv(&mut self, source: usize, tag: u64, frame: Frame) -> (r: Result<(Payload, Frame)>)
        requires
            old(self).wf(),
            source < old(self)@.world,
        ensures
            final(self).wf(),
            refusal(r) == old(self)@.point_refusal(source, tag, frame@),
            r matches Ok(p) ==> {
                &&& frame@ matches FrameView::Point { tensor, .. } && p.0@ == tensor
                &&& p.1@ == (FrameView::Ack { sequence: old(self)@.receives[source as int], tag })
                &&& final(self)@ == old(self)@
            },
            r is Err ==> final(self)@ == old(self)@.broken(),
    {
        let sequence: u64 = self.receives[source];
        match frame {
            Frame::Point { sequence: s, tag: t, tensor } => {
                if s != sequence || t != tag {
                    self.failed = true;
                    return Err(invalid("point-to-point source sequence or tag mismatch"));
                }
                if let Err(e) = tensor.validate(LARGEST_PAYLOAD) {
                    self.failed = true;
                    return Err(e);
                }
                Ok((tensor, Frame::Ack { sequence, tag }))
            },
            _ => {
                self.failed = true;
                Err(invalid("point-to-point source sequence or tag mismatch"))
            },
        }
    }

    /// Records that the answer to a tensor was sent back.
    pub fn finish_recv(&mut self, source: usize) -> (r: Result<()>)
        requires
            old(self).wf(),
            source < old(self)@.world,
        ensures
            final(self).wf(),
            refusal(r) == (if old(self)@.receives[source as int] == u64::MAX {
                Some(refused("point-to-point sequence exhausted"@))
            } else {
                None
            }),
            r is Ok ==> final(self)@ == (GroupView {
                receives: old(self)@.receives.update(source as int, (old(self)@.receives[source as int] + 1) as u64),
                ..old(self)@
            }),
            r is Err ==> final(self)@ == old(self)@.broken(),
    {
        let sequence: u64 = self.receives[source];
        if sequence == u64::MAX {
            self.failed = true;
            return Err(invalid("point-to-point sequence exhausted"));
        }
        self.receives.set(source, sequence + 1);
        Ok(())
    }
}

pub(crate) fn same_bytes(a: &Vec<u8>, b: &Vec<u8>) -> (r: bool)
    ensures
        r == (a@ == b@),
{
    if a.len() != b.len() {
        return false;
    }
    let mut i: usize = 0;
    while i < a.len()
        invariant
            a@.len() == b@.len(),
            i <= a@.len(),
            forall|j: int| 0 <= j < i ==> #[trigger] a@[j] == b@[j],
        decreases a@.len() - i,
    {
        if a[i] != b[i] {
            return false;
        }
        i += 1;
    }
    assert(a@ =~= b@);
    true
}

/// A tensor that one rank sends and another waits for, under one tag, arrives: where both have
/// counted alike so far, the receiver takes it, the sender takes the answer, and both count
/// alike afterwards.
pub proof fn matching_transfer_succeeds(
    sender: GroupView,
    receiver: GroupView,
    tag: u64,
    tensor: PayloadView,
    after_send: GroupView,
    after_receive: GroupView,
)
    requires
        sender.wf(),
        receiver.wf(),
        sender.world == receiver.world,
        sender.sends[receiver.rank as int] == receiver.receives[sender.rank as int],
        sender.sends[receiver.rank as int] < u64::MAX,
        tensor.refusal(LARGEST_PAYLOAD) is None,
        after_send == (GroupView {
            sends: sender.sends.update(receiver.rank as int, (sender.sends[receiver.rank as int] + 1) as u64),
            ..sender
        }),
        after_receive == (GroupView {
            receives: receiver.receives.update(
                sender.rank as int,
                (receiver.receives[sender.rank as int] + 1) as u64,
            ),
            ..receiver
        }),
    ensures
        receiver.point_refusal(
            sender.rank,
            tag,
            FrameView::Point { sequence: sender.sends[receiver.rank as int], tag, tensor },
        ) is None,
        sender.ack_refusal(
            receiver.rank,
            tag,
            FrameView::Ack { sequence: receiver.receives[sender.rank as int], tag },
        ) is None,
        after_send.sends[receiver.rank as int] == after_receive.receives[sender.rank as int],
{
}

/// A failed group starts nothing any more.
pub proof fn failure_is_final(g: GroupView, rank: usize, fits: bool)
    requires
        g.failed,
    ensures
        g.ready_refusal(fits) == Some(refused("process group failed; create a new session"@)),
        g.send_refusal(rank, fits) == g.ready_refusal(fits),
        g.receive_refusal(rank, fits) == g.ready_refusal(fits),
{
}

} // verus!
