//! Cooperative requests: whoever waits for a reply pumps the connection that all of them
//! share.
//!
//! A request is published with an identifier of its own and the topic that its reply is
//! to come on. Replies find their request by that identifier, whoever of the waiting
//! requests happens to read them. How requests and replies are written down is up to the
//! caller.
//!
//! Nothing here performs I/O or reads a clock: [`CooperativeRequest::poll`] says what to do
//! next, and the caller reports what came of it.
use vstd::prelude::*;
use vstd::string::{StringExecFns, StrSliceExecFns};

use crate::codec::publish::{encoded_puback, encoded_publish};
use crate::codec::types::{
    Packet, PacketView, PubAckPacket, PublishPacket, PublishPacketView, QoS,
};
use crate::codec::properties::Properties;
use crate::error::{Error, ErrorKind, IoError, Result};
use crate::frame::{FrameReader, FrameReaderView};
use crate::request_response::random_correlation_data;
use crate::text::{chars_of, hex, push_hex, same_text};
use crate::time::{Duration, Instant, MAX_INSTANT_NANOS, NANOS_PER_SEC};

verus! {

/// How long a request waits for its reply, in seconds.
pub const REQUEST_TIMEOUT_SECS: u64 = 60;

/// Sixteen bytes as a UUID is written: lower-case hexadecimal digits, in five groups that
/// hyphens part.
pub open spec fn hyphenated(bytes: Seq<u8>) -> Seq<char> {
    hex(bytes.subrange(0, 4)) + "-"@ + hex(bytes.subrange(4, 6)) + "-"@ + hex(bytes.subrange(6, 8))
        + "-"@ + hex(bytes.subrange(8, 10)) + "-"@ + hex(bytes.subrange(10, 16))
}

/// The identifier that these bytes make.
pub fn correlation_id_of(bytes: &[u8]) -> (r: String)
    requires
        bytes@.len() == 16,
    ensures
        r@ == hyphenated(bytes@),
{
    let mut id = String::new();
    push_hex(&mut id, vstd::slice::slice_subrange(bytes, 0, 4));
    id.append("-");
    push_hex(&mut id, vstd::slice::slice_subrange(bytes, 4, 6));
    id.append("-");
    push_hex(&mut id, vstd::slice::slice_subrange(bytes, 6, 8));
    id.append("-");
    push_hex(&mut id, vstd::slice::slice_subrange(bytes, 8, 10));
    id.append("-");
    push_hex(&mut id, vstd::slice::slice_subrange(bytes, 10, 16));
    assert(id@ =~= hyphenated(bytes@));
    id
}

/// A fresh identifier for a request.
pub fn generate_correlation_id() -> (r: String)
    ensures
        exists|bytes: Seq<u8>|
            bytes.len() == 16 && bytes[6] / 16 == 4 && bytes[8] / 64 == 2 && r@
                == #[trigger] hyphenated(bytes),
{
    let bytes = random_correlation_data();
    correlation_id_of(&bytes)
}

/// A topic with dots in place of its slashes.
pub open spec fn dotted(topic: Seq<char>) -> Seq<char> {
    topic.map_values(
        |c: char|
            if c == '/' {
                '.'
            } else {
                c
            },
    )
}

/// Where the reply to a request is to come: a topic, and the form in which the request
/// names it to the other side.
pub fn reply_address(prefix: &str, correlation_id: &str, dots: bool) -> (r: (String, String))
    ensures
        r.0@ == prefix@ + correlation_id@,
        r.1@ == (if dots {
            dotted(prefix@ + correlation_id@)
        } else {
            prefix@ + correlation_id@
        }),
{
    let mut topic = prefix.to_owned();
    topic.append(correlation_id);
    if !dots {
        let reply_to = topic.clone();
        return (topic, reply_to);
    }
    let chars = chars_of(topic.as_str());
    let mut reply_to = String::new();
    let mut i: usize = 0;
    assert(reply_to@ =~= dotted(topic@).take(0));
    proof {
        reveal_strlit(".");
    }
    while i < chars.len()
        invariant
            i <= chars.len(),
            chars@ == topic@,
            reply_to@ == dotted(topic@).take(i as int),
            "."@ == seq!['.'],
        decreases chars.len() - i,
    {
        if chars[i] == '/' {
            reply_to.append(".");
        } else {
            reply_to.append(topic.as_str().substring_char(i, i + 1));
        }
        i += 1;
        assert(reply_to@ =~= dotted(topic@).take(i as int));
    }
    assert(dotted(topic@).take(i as int) =~= dotted(topic@));
    (topic, reply_to)
}

/// A request that waits for its reply, or has one.
struct Slot {
    correlation_id: String,
    result: Option<Result<Vec<u8>>>,
}

/// What a request has: nothing yet, the payload of its reply, or an error.
pub type ReplyView = Option<Result<Seq<u8>>>;

/// A request and what it has.
#[verifier::ext_equal]
pub struct SlotView {
    pub correlation_id: Seq<char>,
    pub result: ReplyView,
}

impl View for Slot {
    type V = SlotView;

    closed spec fn view(&self) -> SlotView {
        SlotView {
            correlation_id: self.correlation_id@,
            result: match self.result {
                None => None,
                Some(Ok(payload)) => Some(Ok(payload@)),
                Some(Err(e)) => Some(Err(e)),
            },
        }
    }
}

/// The position, from `i` on, of the request with this identifier, or the length.
pub open spec fn slot_from(slots: Seq<SlotView>, id: Seq<char>, i: int) -> int
    decreases slots.len() - i,
{
    if i < 0 || i >= slots.len() || slots[i].correlation_id == id {
        i
    } else {
        slot_from(slots, id, i + 1)
    }
}

/// The request with some identifier is found at its position.
pub(crate) proof fn slot_position(slots: Seq<SlotView>, id: Seq<char>, i: int)
    requires
        0 <= i <= slots.len(),
    ensures
        i <= slot_from(slots, id, i) <= slots.len(),
        slot_from(slots, id, i) < slots.len() ==> slots[slot_from(slots, id, i)].correlation_id
            == id,
        forall|j: int|
            i <= j < slot_from(slots, id, i) ==> (#[trigger] slots[j]).correlation_id != id,
    decreases slots.len() - i,
{
    if i < slots.len() {
        slot_position(slots, id, i + 1);
    }
}

/// Once a request has ended the connection knows it no more, and knows the others as
/// before.
pub proof fn ended_request_is_forgotten(s: ExchangeView, id: Seq<char>)
    requires
        s.ids_are_distinct(),
    ensures
        s.without(id).ids_are_distinct(),
        !s.without(id).has(id),
{
    slot_position(s.pending, id, 0);
    let t = s.without(id);
    slot_position(t.pending, id, 0);
    if s.has(id) {
        let i = slot_from(s.pending, id, 0);
        assert forall|j: int| 0 <= j < t.pending.len() implies (#[trigger] t.pending[j])
            == s.pending[if j < i {
            j
        } else {
            j + 1
        }] by {}
    }
}

/// The connection that cooperative requests share.
pub struct Exchange {
    frame_reader: FrameReader,
    pending: Vec<Slot>,
    error: Option<Error>,
}

/// What an [`Exchange`] holds.
#[verifier::ext_equal]
pub struct ExchangeView {
    pub reader: FrameReaderView,
    pub pending: Seq<SlotView>,
    pub error: Option<Error>,
}

spec fn slot_views(slots: Seq<Slot>) -> Seq<SlotView> {
    slots.map_values(|slot: Slot| slot@)
}

impl View for Exchange {
    type V = ExchangeView;

    closed spec fn view(&self) -> ExchangeView {
        ExchangeView {
            reader: self.frame_reader@,
            pending: slot_views(self.pending@),
            error: self.error,
        }
    }
}

impl ExchangeView {
    /// No two requests under way have the same identifier.
    pub open spec fn ids_are_distinct(self) -> bool {
        forall|i: int, j: int|
            0 <= i < j < self.pending.len() ==> (#[trigger] self.pending[i]).correlation_id != (
            #[trigger] self.pending[j]).correlation_id
    }

    /// Whether a request with this identifier is under way.
    pub open spec fn has(self, id: Seq<char>) -> bool {
        slot_from(self.pending, id, 0) < self.pending.len()
    }

    /// What the request with this identifier has.
    pub open spec fn reply(self, id: Seq<char>) -> ReplyView {
        self.pending[slot_from(self.pending, id, 0)].result
    }

    /// Forget the request with this identifier.
    pub open spec fn without(self, id: Seq<char>) -> ExchangeView {
        if self.has(id) {
            ExchangeView { pending: self.pending.remove(slot_from(self.pending, id, 0)), ..self }
        } else {
            self
        }
    }

    /// A request has this from now on; one that is not under way is not started.
    pub open spec fn given(self, id: Seq<char>, result: ReplyView) -> ExchangeView {
        if self.has(id) {
            ExchangeView {
                pending: self.pending.update(
                    slot_from(self.pending, id, 0),
                    SlotView { correlation_id: id, result },
                ),
                ..self
            }
        } else {
            self
        }
    }

    /// The request with this identifier is under way and has nothing yet.
    pub open spec fn started(self, id: Seq<char>) -> ExchangeView {
        if self.has(id) {
            self.given(id, None)
        } else {
            ExchangeView {
                pending: self.pending.push(SlotView { correlation_id: id, result: None }),
                ..self
            }
        }
    }

    /// The connection has failed with this error, so every request has.
    pub open spec fn failed(self, error: Error) -> ExchangeView {
        ExchangeView {
            pending: self.pending.map_values(
                |slot: SlotView|
                    SlotView { result: Some(Err(Error::ConnectionClosed)), ..slot },
            ),
            error: Some(error),
            ..self
        }
    }

    /// The packet that has arrived next was taken out: what is there to do about it.
    pub open spec fn taken(self) -> (ExchangeView, Result<Option<ArrivalView>>) {
        let s = ExchangeView { reader: self.reader.after_next(), ..self };
        match self.reader.next_packet() {
            Err(e) => (
                ExchangeView {
                    error: Some(Error::MalformedPacket("frame decode error")),
                    ..s
                },
                Err(e),
            ),
            Ok(None) => (s, Ok(None)),
            Ok(Some(packet)) => s.dispatched(packet),
        }
    }

    /// What a packet that has arrived changes, and what it hands out.
    pub open spec fn dispatched(self, packet: PacketView) -> (
        ExchangeView,
        Result<Option<ArrivalView>>,
    ) {
        match packet {
            PacketView::Publish(publish) => match ack_of(publish) {
                Err(e) => (self, Err(e)),
                Ok(ack) => (
                    self,
                    Ok(Some(ArrivalView::Message { ack, payload: publish.payload })),
                ),
            },
            PacketView::Disconnect(d) => (
                self.failed(Error::ConnectionRefused(d.reason_code)),
                Ok(Some(ArrivalView::Other)),
            ),
            _ => (self, Ok(Some(ArrivalView::Other))),
        }
    }
}

/// The PUBACK packet that a PUBLISH packet asks for, if it does.
pub open spec fn ack_of(publish: PublishPacketView) -> Result<Option<Seq<u8>>> {
    match (publish.qos, publish.packet_id) {
        (QoS::AtLeastOnce, Some(packet_id)) => match encoded_puback(
            PubAckPacket { packet_id, reason_code: 0 },
        ) {
            Err(e) => Err(e),
            Ok(bytes) => Ok(Some(bytes)),
        },
        _ => Ok(None),
    }
}

/// A packet that has arrived.
#[derive(Debug)]
pub enum Arrival {
    /// A message: what to answer, and what may be the reply to a request.
    Message { ack: Option<Vec<u8>>, payload: Vec<u8> },
    /// A packet that asks for nothing.
    Other,
}

/// What an [`Arrival`] holds.
#[verifier::ext_equal]
pub enum ArrivalView {
    Message { ack: Option<Seq<u8>>, payload: Seq<u8> },
    Other,
}

impl View for Arrival {
    type V = ArrivalView;

    open spec fn view(&self) -> ArrivalView {
        match *self {
            Arrival::Message { ack, payload } => ArrivalView::Message {
                ack: match ack {
                    Some(bytes) => Some(bytes@),
                    None => None,
                },
                payload: payload@,
            },
            Arrival::Other => ArrivalView::Other,
        }
    }
}

/// What to do after a read of the transport.
#[derive(Debug, Clone, Copy, PartialEq, Eq, Structural)]
pub enum ReadStep {
    /// Read again.
    More,
    /// Take out what has arrived.
    Drain,
    /// The connection is gone.
    Closed,
}

impl Exchange {
    /// Whether the state is one that an exchange can be in.
    pub closed spec fn wf(&self) -> bool {
        &&& self.frame_reader.wf()
        &&& self@.ids_are_distinct()
    }

    /// In an exchange that can be called no identifier is pending twice.
    pub proof fn wf_gives_distinct_ids(&self)
        requires
            self.wf(),
        ensures
            self@.ids_are_distinct(),
    {
    }

    pub fn new(max_packet_size: usize) -> (r: Self)
        ensures
            r.wf(),
            r@ == (ExchangeView {
                reader: FrameReaderView {
                    buf: Seq::empty(),
                    in_body: false,
                    max: max_packet_size,
                    overflow: None,
                },
                pending: Seq::empty(),
                error: None,
            }),
    {
        let r = Exchange {
            frame_reader: FrameReader::with_max_packet_size(max_packet_size),
            pending: Vec::new(),
            error: None,
        };
        assert(r@.pending =~= Seq::empty());
        r
    }

    /// Whether the connection has failed.
    pub fn has_failed(&self) -> (r: bool)
        ensures
            r == (self@.error is Some),
    {
        self.error.is_some()
    }

    /// How many requests are under way.
    pub fn pending(&self) -> (r: usize)
        ensures
            r == self@.pending.len(),
    {
        self.pending.len()
    }

    fn find(&self, id: &str) -> (r: usize)
        ensures
            r == slot_from(self@.pending, id@, 0),
            r <= self.pending@.len(),
            r < self.pending@.len() ==> self.pending@[r as int]@.correlation_id == id@,
    {
        let mut i: usize = 0;
        while i < self.pending.len()
            invariant
                i <= self.pending@.len(),
                slot_from(self@.pending, id@, 0) == slot_from(self@.pending, id@, i as int),
            decreases self.pending@.len() - i,
        {
            assert(self@.pending[i as int] == self.pending@[i as int]@);
            if same_text(self.pending[i].correlation_id.as_str(), id) {
                return i;
            }
            i += 1;
        }
        i
    }

    fn start(&mut self, id: &str)
        requires
            old(self).wf(),
        ensures
            final(self).wf(),
            final(self)@ == old(self)@.started(id@),
    {
        let i: usize = self.find(id);
        proof {
            slot_position(self@.pending, id@, 0);
        }
        if i < self.pending.len() {
            self.pending[i].result = None;
        } else {
            self.pending.push(Slot { correlation_id: id.to_owned(), result: None });
        }
        assert(self@.pending =~= old(self)@.started(id@).pending);
    }

    fn remove(&mut self, id: &str)
        requires
            old(self).wf(),
        ensures
            final(self).wf(),
            final(self)@ == old(self)@.without(id@),
    {
        let i: usize = self.find(id);
        if i < self.pending.len() {
            let _ = self.pending.remove(i);
        }
        assert(self@.pending =~= old(self)@.without(id@).pending);
        proof {
            ended_request_is_forgotten(old(self)@, id@);
        }
    }

    /// The reply to this request has arrived. One that nobody waits for is dropped.
    pub fn deliver(&mut self, id: &str, payload: Vec<u8>)
        requires
            old(self).wf(),
        ensures
            final(self).wf(),
            final(self)@ == old(self)@.given(id@, Some(Ok(payload@))),
    {
        let i: usize = self.find(id);
        proof {
            slot_position(self@.pending, id@, 0);
        }
        if i < self.pending.len() {
            self.pending[i].result = Some(Ok(payload));
        }
        assert(self@.pending =~= old(self)@.given(id@, Some(Ok(payload@))).pending);
    }

    fn fail_all(&mut self, error: Error)
        requires
            old(self).wf(),
        ensures
            final(self).wf(),
            final(self)@ == old(self)@.failed(error),
    {
        let ghost start = self@;
        let ghost goal = start.failed(error);
        self.error = Some(error);
        let mut i: usize = 0;
        while i < self.pending.len()
            invariant
                i <= self.pending@.len(),
                self.pending@.len() == start.pending.len(),
                self.frame_reader == old(self).frame_reader,
                self.error == Some(error),
                goal == start.failed(error),
                start == old(self)@,
                forall|j: int| 0 <= j < i ==> self@.pending[j] == goal.pending[j],
                forall|j: int| i <= j < start.pending.len() ==> self@.pending[j] == start.pending[j],
            decreases self.pending@.len() - i,
        {
            let ghost before = self@.pending;
            assert(before[i as int] == start.pending[i as int]);
            assert(before[i as int] == self.pending@[i as int]@);
            self.pending[i].result = Some(Err(Error::ConnectionClosed));
            assert(self@.pending =~= before.update(
                i as int,
                SlotView {
                    result: Some(Err(Error::ConnectionClosed)),
                    ..start.pending[i as int]
                },
            ));
            i += 1;
        }
        assert(self@.pending =~= goal.pending);
    }

    /// How many bytes to read at most.
    pub fn read_capacity(&self) -> (r: usize)
        requires
            self.wf(),
        ensures
            r == self@.reader.room(),
    {
        self.frame_reader.remaining_capacity()
    }

    /// The transport was read without waiting, and this is what it gave.
    pub fn received(&mut self, outcome: core::result::Result<&[u8], IoError>) -> (r: Result<
        ReadStep,
    >)
        requires
            old(self).wf(),
        ensures
            final(self).wf(),
            match outcome {
                Ok(data) => if data@.len() == 0 {
                    &&& final(self)@ == old(self)@.failed(Error::ConnectionClosed)
                    &&& r == Ok::<ReadStep, Error>(ReadStep::Closed)
                } else {
                    &&& final(self)@ == (ExchangeView {
                        reader: old(self)@.reader.pushed(data@),
                        ..old(self)@
                    })
                    &&& r == Ok::<ReadStep, Error>(ReadStep::More)
                },
                Err(e) => if e.spec_kind() == ErrorKind::WouldBlock {
                    &&& final(self)@ == old(self)@
                    &&& r == Ok::<ReadStep, Error>(ReadStep::Drain)
                } else {
                    &&& final(self)@ == (ExchangeView {
                        error: Some(Error::Io(e)),
                        ..old(self)@
                    })
                    &&& r == Err::<ReadStep, _>(Error::Io(e))
                },
            },
    {
        match outcome {
            Ok(data) => {
                if data.is_empty() {
                    self.fail_all(Error::ConnectionClosed);
                    return Ok(ReadStep::Closed);
                }
                self.frame_reader.push(data);
                Ok(ReadStep::More)
            },
            Err(error) => match error.kind() {
                ErrorKind::WouldBlock => Ok(ReadStep::Drain),
                _ => {
                    self.error = Some(Error::Io(error.clone()));
                    Err(Error::Io(error))
                },
            },
        }
    }

    /// Take out the next packet that has arrived.
    pub fn take_packet(&mut self) -> (r: Result<Option<Arrival>>)
        requires
            old(self).wf(),
        ensures
            final(self).wf(),
            ({
                let (s, result) = old(self)@.taken();
                &&& final(self)@ == s
                &&& match (r, result) {
                    (Ok(Some(a)), Ok(Some(b))) => a@ == b,
                    (Ok(None), Ok(None)) => true,
                    (Err(e), Err(f)) => e == f,
                    _ => false,
                }
            }),
    {
        let ghost s = ExchangeView { reader: self@.reader.after_next(), ..self@ };
        let next = self.frame_reader.try_decode();
        assert(self@ =~= s);
        match next {
            Ok(Some(packet)) => self.dispatch_packet(packet),
            Ok(None) => Ok(None),
            Err(error) => {
                self.error = Some(Error::MalformedPacket("frame decode error"));
                Err(error)
            },
        }
    }

    fn dispatch_packet(&mut self, packet: Packet) -> (r: Result<Option<Arrival>>)
        requires
            old(self).wf(),
        ensures
            final(self).wf(),
            ({
                let (s, result) = old(self)@.dispatched(packet@);
                &&& final(self)@ == s
                &&& match (r, result) {
                    (Ok(Some(a)), Ok(Some(b))) => a@ == b,
                    (Ok(None), Ok(None)) => true,
                    (Err(e), Err(f)) => e == f,
                    _ => false,
                }
            }),
    {
        match packet {
            Packet::Publish(publish) => {
                let mut ack: Option<Vec<u8>> = None;
                if let QoS::AtLeastOnce = publish.qos {
                    if let Some(packet_id) = publish.packet_id {
                        ack = Some((PubAckPacket { packet_id, reason_code: 0x00 }).encode()?);
                    }
                }
                Ok(Some(Arrival::Message { ack, payload: publish.payload }))
            },
            Packet::Disconnect(disconnect) => {
                self.fail_all(Error::ConnectionRefused(disconnect.reason_code));
                Ok(Some(Arrival::Other))
            },
            _ => Ok(Some(Arrival::Other)),
        }
    }
}

/// How far a request is.
enum RequestState {
    Init { topic: String, payload: Vec<u8> },
    Waiting,
    Done,
}

/// How far a request is.
#[verifier::ext_equal]
pub enum RequestStateView {
    /// It is to be published.
    Init { topic: Seq<char>, payload: Seq<u8> },
    /// It waits for its reply.
    Waiting,
    /// It has returned its result.
    Done,
}

/// A request that resolves when the correlated reply arrives.
pub struct CooperativeRequest {
    correlation_id: String,
    state: RequestState,
    deadline: Instant,
}

/// What a [`CooperativeRequest`] holds.
#[verifier::ext_equal]
pub struct CooperativeRequestView {
    pub correlation_id: Seq<char>,
    pub state: RequestStateView,
    pub deadline: int,
}

impl View for CooperativeRequest {
    type V = CooperativeRequestView;

    closed spec fn view(&self) -> CooperativeRequestView {
        CooperativeRequestView {
            correlation_id: self.correlation_id@,
            state: match self.state {
                RequestState::Init { topic, payload } => RequestStateView::Init {
                    topic: topic@,
                    payload: payload@,
                },
                RequestState::Waiting => RequestStateView::Waiting,
                RequestState::Done => RequestStateView::Done,
            },
            deadline: self.deadline.spec_nanos(),
        }
    }
}

/// What to do next for a request.
#[derive(Debug)]
pub enum PollStep {
    /// Write these bytes, then report to [`CooperativeRequest::wrote`].
    Write(Vec<u8>),
    /// Read what has arrived, then report to [`CooperativeRequest::pumped`].
    Pump,
    /// The request is over.
    Ready(Result<Vec<u8>>),
    /// Come back later; nothing had arrived where `idle`.
    Pending { idle: bool },
}

/// What a [`PollStep`] holds.
#[verifier::ext_equal]
pub enum PollStepView {
    Write(Seq<u8>),
    Pump,
    Ready(Result<Seq<u8>>),
    Pending { idle: bool },
}

impl View for PollStep {
    type V = PollStepView;

    open spec fn view(&self) -> PollStepView {
        match *self {
            PollStep::Write(bytes) => PollStepView::Write(bytes@),
            PollStep::Pump => PollStepView::Pump,
            PollStep::Ready(Ok(payload)) => PollStepView::Ready(Ok(payload@)),
            PollStep::Ready(Err(e)) => PollStepView::Ready(Err(e)),
            PollStep::Pending { idle } => PollStepView::Pending { idle },
        }
    }
}

/// What a request, its connection and the step to take are after a turn.
pub type RequestTurn = (CooperativeRequestView, ExchangeView, PollStepView);

impl CooperativeRequestView {
    /// The request is over, and the connection knows it no more.
    pub open spec fn resolved(self, shared: ExchangeView, result: Result<Seq<u8>>) -> RequestTurn {
        (
            CooperativeRequestView { state: RequestStateView::Done, ..self },
            shared.without(self.correlation_id),
            PollStepView::Ready(result),
        )
    }

    /// The PUBLISH packet of a request.
    pub open spec fn packet(topic: Seq<char>, payload: Seq<u8>) -> PublishPacketView {
        PublishPacketView {
            topic,
            packet_id: None,
            payload,
            qos: QoS::AtMostOnce,
            retain: false,
            dup: false,
            properties: Seq::empty(),
        }
    }

    /// What a poll does before the socket is touched.
    pub open spec fn polled(self, shared: ExchangeView, now: int) -> RequestTurn {
        if shared.error is Some {
            self.resolved(shared, Err(Error::ConnectionClosed))
        } else if now >= self.deadline {
            self.resolved(shared, Err(Error::Timeout("request")))
        } else {
            match self.state {
                RequestStateView::Init { topic, payload } => {
                    let started = shared.started(self.correlation_id);
                    match encoded_publish(Self::packet(topic, payload)) {
                        Err(e) => self.resolved(started, Err(e)),
                        Ok(bytes) => (self, started, PollStepView::Write(bytes)),
                    }
                },
                _ => (self, shared, PollStepView::Pump),
            }
        }
    }

    /// What follows the attempt to write the request.
    pub open spec fn wrote(self, shared: ExchangeView, outcome: Result<()>) -> RequestTurn {
        match outcome {
            Err(e) => self.resolved(shared, Err(e)),
            Ok(_) => (
                CooperativeRequestView { state: RequestStateView::Waiting, ..self },
                shared,
                PollStepView::Pump,
            ),
        }
    }

    /// What follows the attempt to read what has arrived.
    pub open spec fn pumped(self, shared: ExchangeView, outcome: Result<bool>) -> RequestTurn {
        match outcome {
            Err(e) => self.resolved(shared, Err(e)),
            Ok(active) => if !shared.has(self.correlation_id) {
                self.resolved(shared, Err(Error::ConnectionClosed))
            } else {
                match shared.reply(self.correlation_id) {
                    Some(result) => self.resolved(shared, result),
                    None => (self, shared, PollStepView::Pending { idle: !active }),
                }
            },
        }
    }
}

impl CooperativeRequest {
    /// A request with this identifier, to be published on a topic.
    pub fn new(correlation_id: String, topic: String, payload: Vec<u8>, now: Instant) -> (r: Self)
        requires
            now.spec_nanos() + REQUEST_TIMEOUT_SECS * NANOS_PER_SEC <= MAX_INSTANT_NANOS,
        ensures
            r@ == (CooperativeRequestView {
                correlation_id: correlation_id@,
                state: RequestStateView::Init { topic: topic@, payload: payload@ },
                deadline: now.spec_nanos() + REQUEST_TIMEOUT_SECS * NANOS_PER_SEC,
            }),
    {
        let deadline = match now.checked_add(Duration::from_secs(REQUEST_TIMEOUT_SECS)) {
            Some(at) => at,
            None => now,
        };
        CooperativeRequest {
            correlation_id,
            state: RequestState::Init { topic, payload },
            deadline,
        }
    }

    pub fn correlation_id(&self) -> (r: &str)
        ensures
            r@ == self@.correlation_id,
    {
        self.correlation_id.as_str()
    }

    /// Whether the request has returned its result.
    pub fn is_done(&self) -> (r: bool)
        ensures
            r == (self@.state is Done),
    {
        matches!(self.state, RequestState::Done)
    }

    fn resolve(&mut self, shared: &mut Exchange, result: Result<Vec<u8>>) -> (r: PollStep)
        requires
            old(shared).wf(),
        ensures
            final(shared).wf(),
            (final(self)@, final(shared)@, r@) == old(self)@.resolved(
                old(shared)@,
                match result {
                    Ok(payload) => Ok(payload@),
                    Err(e) => Err(e),
                },
            ),
    {
        shared.remove(self.correlation_id.as_str());
        self.state = RequestState::Done;
        PollStep::Ready(result)
    }

    /// What to do next. A request that is over is not polled again.
    pub fn poll(&mut self, shared: &mut Exchange, now: Instant) -> (r: PollStep)
        requires
            old(shared).wf(),
            !(old(self)@.state is Done),
        ensures
            final(shared).wf(),
            (final(self)@, final(shared)@, r@) == old(self)@.polled(
                old(shared)@,
                now.spec_nanos(),
            ),
    {
        if shared.error.is_some() {
            return self.resolve(shared, Err(Error::ConnectionClosed));
        }
        if now.has_reached(self.deadline) {
            return self.resolve(shared, Err(Error::Timeout("request")));
        }
        if let RequestState::Init { topic, payload } = &self.state {
            shared.start(self.correlation_id.as_str());
            let packet = PublishPacket {
                topic: topic.clone(),
                packet_id: None,
                payload: payload.clone(),
                qos: QoS::AtMostOnce,
                retain: false,
                dup: false,
                properties: Properties::new(),
            };
            assert(packet@ =~= CooperativeRequestView::packet(topic@, payload@));
            return match packet.encode() {
                Ok(bytes) => PollStep::Write(bytes),
                Err(error) => self.resolve(shared, Err(error)),
            };
        }
        PollStep::Pump
    }

    /// The request was written, or not.
    pub fn wrote(&mut self, shared: &mut Exchange, outcome: Result<()>) -> (r: PollStep)
        requires
            old(shared).wf(),
            old(self)@.state is Init,
        ensures
            final(shared).wf(),
            (final(self)@, final(shared)@, r@) == old(self)@.wrote(old(shared)@, outcome),
    {
        match outcome {
            Ok(()) => {
                self.state = RequestState::Waiting;
                PollStep::Pump
            },
            Err(error) => self.resolve(shared, Err(error)),
        }
    }

    /// What has arrived was read, or not; `Ok(true)` says that something had arrived.
    pub fn pumped(&mut self, shared: &mut Exchange, outcome: Result<bool>) -> (r: PollStep)
        requires
            old(shared).wf(),
            old(self)@.state is Waiting,
        ensures
            final(shared).wf(),
            (final(self)@, final(shared)@, r@) == old(self)@.pumped(old(shared)@, outcome),
    {
        let active = match outcome {
            Ok(active) => active,
            Err(error) => {
                return self.resolve(shared, Err(error));
            },
        };
        let i: usize = shared.find(self.correlation_id.as_str());
        if i >= shared.pending.len() {
            return self.resolve(shared, Err(Error::ConnectionClosed));
        }
        assert(shared@.pending[i as int] == shared.pending@[i as int]@);
        let result = match &shared.pending[i].result {
            None => {
                return PollStep::Pending { idle: !active };
            },
            Some(Ok(payload)) => Ok(payload.clone()),
            Some(Err(error)) => Err(error.clone()),
        };
        self.resolve(shared, result)
    }

    /// The request is given up: the connection knows it no more.
    pub fn abandon(&mut self, shared: &mut Exchange)
        requires
            old(shared).wf(),
        ensures
            final(shared).wf(),
            final(self)@ == (CooperativeRequestView {
                state: RequestStateView::Done,
                ..old(self)@
            }),
            final(shared)@ == (if old(self)@.state is Done {
                old(shared)@
            } else {
                old(shared)@.without(old(self)@.correlation_id)
            }),
    {
        if !self.is_done() {
            shared.remove(self.correlation_id.as_str());
        }
        self.state = RequestState::Done;
    }
}

} // verus!
