//! What the connection driver's state is, and how each step changes it.
//!
//! Times and spans are in nanoseconds.
use vstd::prelude::*;

use crate::async_client::{
    DisconnectReason, EventView, NoticeView, OutcomeView, PublishAck,
};
use crate::codec::connect::ServerCapabilities;
use crate::codec::ping::{encoded_disconnect, PINGREQ_BYTES};
use crate::codec::properties::{
    first_value, Entry, PropertyId, PropertyValueView, ValueKind,
};
use crate::codec::publish::{encoded_puback, encoded_publish};
use crate::codec::subscribe::{encoded_subscribe, encoded_unsubscribe, suback_check};
use crate::codec::topic::{topic_filter_check, topic_name_check};
use crate::codec::types::{
    AckCodesView, DisconnectPacket, PacketView, PubAckPacket, PublishPacketView, QoS,
    SubscribePacketView, UnsubscribePacketView,
};
use crate::error::{Error, Result};
use crate::frame::{header_len_bounds, FrameReaderView};
use crate::options::PublishOptionsView;
use crate::request_response::RequestCommandView;
use crate::time::{MAX_INSTANT_NANOS, NANOS_PER_SEC};

verus! {

/// What is to be done once a frame has left the transport.
#[derive(Debug, Clone, Copy, PartialEq, Eq, Structural)]
pub enum WrittenAction {
    Nothing,
    PublishQos0 { ticket: u64 },
    PingReq,
    Disconnect { ticket: u64 },
    AbandonedDisconnect,
}

impl WrittenAction {
    /// The ticket of the operation that waits for the frame to leave, where there is one.
    pub open spec fn ticket(self) -> Option<u64> {
        match self {
            WrittenAction::PublishQos0 { ticket } => Some(ticket),
            WrittenAction::Disconnect { ticket } => Some(ticket),
            _ => None,
        }
    }

    /// What is said of a frame that will not be written.
    pub open spec fn failure(self, e: Error) -> Seq<NoticeView> {
        match self {
            WrittenAction::PublishQos0 { ticket } => seq![published(ticket, Err(e))],
            WrittenAction::Disconnect { ticket } => seq![disconnected(ticket, Err(e))],
            _ => Seq::empty(),
        }
    }
}

/// A frame that was written, and waits for the transport to be flushed.
#[derive(Debug, Clone, Copy, PartialEq, Eq, Structural)]
pub struct PendingFlush {
    pub bytes: usize,
    pub action: WrittenAction,
}

/// What to do next for the outbound queue.
#[derive(Debug, Clone, Copy, PartialEq, Eq, Structural)]
pub enum FlushStep {
    /// Flush the transport; `last` says that nothing is to be written after that.
    Flush { last: bool },
    /// Write what is pending of the front frame.
    Write,
    /// Nothing, for now.
    Finished,
}

/// Which packet type acknowledges a packet.
#[derive(Debug, Clone, Copy, PartialEq, Eq, Structural)]
pub enum AckClass {
    Publish,
    Subscribe,
    Unsubscribe,
}

/// A frame in the outbound queue.
#[verifier::ext_equal]
pub struct FrameView {
    pub bytes: Seq<u8>,
    pub offset: usize,
    pub action: WrittenAction,
    pub correlation: Option<Seq<u8>>,
}

/// Who waits for an acknowledgement.
#[verifier::ext_equal]
pub enum AckKindView {
    Publish { ticket: u64 },
    Subscribe { requested_qos: QoS, ticket: u64 },
    Unsubscribe { filter: Seq<char>, ticket: u64 },
    RequestPublish { correlation: Seq<u8> },
    ResponseSubscribe { topic: Seq<char> },
    Tombstone { expected: AckClass, counts: bool },
}

impl AckKindView {
    /// Which packet acknowledges the operation.
    pub open spec fn ack_class(self) -> AckClass {
        match self {
            AckKindView::Publish { .. } => AckClass::Publish,
            AckKindView::Subscribe { .. } => AckClass::Subscribe,
            AckKindView::Unsubscribe { .. } => AckClass::Unsubscribe,
            AckKindView::RequestPublish { .. } => AckClass::Publish,
            AckKindView::ResponseSubscribe { .. } => AckClass::Subscribe,
            AckKindView::Tombstone { expected, .. } => expected,
        }
    }

    /// Whether the packet counts toward the broker's receive maximum.
    pub open spec fn is_qos1_publish(self) -> bool {
        self is Publish || self is RequestPublish || self == (AckKindView::Tombstone {
            expected: self.ack_class(),
            counts: true,
        })
    }

    /// The ticket of the waiting operation, where there is one.
    pub open spec fn ticket(self) -> Option<u64> {
        match self {
            AckKindView::Publish { ticket } => Some(ticket),
            AckKindView::Subscribe { ticket, .. } => Some(ticket),
            AckKindView::Unsubscribe { ticket, .. } => Some(ticket),
            _ => None,
        }
    }

    /// The packet identifier stays reserved, but nobody waits any more.
    pub open spec fn buried(self) -> AckKindView {
        AckKindView::Tombstone { expected: self.ack_class(), counts: self.is_qos1_publish() }
    }

    /// What is said when the acknowledgement will not come.
    pub open spec fn failure(self, e: Error) -> Seq<NoticeView> {
        match self {
            AckKindView::Publish { ticket } => seq![published(ticket, Err(e))],
            AckKindView::Subscribe { ticket, .. } => seq![subscribed(ticket, Err(e))],
            AckKindView::Unsubscribe { ticket, .. } => seq![subscribed(ticket, Err(e))],
            _ => Seq::empty(),
        }
    }
}

/// A packet identifier that waits for its acknowledgement.
#[verifier::ext_equal]
pub struct AckView {
    pub packet_id: u16,
    pub deadline: int,
    pub label: &'static str,
    pub kind: AckKindView,
}

impl AckView {
    /// The same identifier and deadline, with nobody waiting.
    pub open spec fn buried(self) -> AckView {
        AckView { kind: self.kind.buried(), ..self }
    }
}

/// A request that waits for its response.
#[verifier::ext_equal]
pub struct RequestView {
    pub correlation: Seq<u8>,
    pub topic: Seq<char>,
    pub payload: Seq<u8>,
    pub response_topic: Seq<char>,
    pub qos: QoS,
    pub properties: Seq<Entry>,
    pub deadline: int,
    pub ticket: u64,
    pub publish_packet_id: Option<u16>,
    pub published: bool,
}

/// A response topic: whether the broker has acknowledged the subscription to it.
#[verifier::ext_equal]
pub struct SubscriptionView {
    pub topic: Seq<char>,
    pub ready: bool,
}

/// The answer to a publish.
pub open spec fn published(ticket: u64, r: Result<PublishAck>) -> NoticeView {
    NoticeView::Complete { ticket, outcome: OutcomeView::Published(r) }
}

/// The answer to a subscribe or an unsubscribe.
pub open spec fn subscribed(ticket: u64, r: Result<AckCodesView>) -> NoticeView {
    NoticeView::Complete { ticket, outcome: OutcomeView::Subscribed(r) }
}

/// The answer to a disconnect.
pub open spec fn disconnected(ticket: u64, r: Result<()>) -> NoticeView {
    NoticeView::Complete { ticket, outcome: OutcomeView::Disconnected(r) }
}

/// The answer to a request.
pub open spec fn responded(ticket: u64, r: Result<PublishPacketView>) -> NoticeView {
    NoticeView::Complete { ticket, outcome: OutcomeView::Response(r) }
}

/// The event that the connection ended for this reason.
pub open spec fn went_down(reason: DisconnectReason) -> NoticeView {
    NoticeView::Event(EventView::Disconnected(reason))
}

/// The position, from `i` on, of the acknowledgement that `id` waits for, or the length.
pub open spec fn ack_from(acks: Seq<AckView>, id: u16, i: int) -> int
    decreases acks.len() - i,
{
    if i < 0 || i >= acks.len() {
        acks.len() as int
    } else if acks[i].packet_id == id {
        i
    } else {
        ack_from(acks, id, i + 1)
    }
}

/// The position, from `i` on, of the request with this correlation data, or the length.
pub open spec fn request_from(requests: Seq<RequestView>, correlation: Seq<u8>, i: int) -> int
    decreases requests.len() - i,
{
    if i < 0 || i >= requests.len() {
        requests.len() as int
    } else if requests[i].correlation == correlation {
        i
    } else {
        request_from(requests, correlation, i + 1)
    }
}

/// The position, from `i` on, of the subscription to this topic, or the length.
pub open spec fn subscription_from(subs: Seq<SubscriptionView>, topic: Seq<char>, i: int) -> int
    decreases subs.len() - i,
{
    if i < 0 || i >= subs.len() {
        subs.len() as int
    } else if subs[i].topic == topic {
        i
    } else {
        subscription_from(subs, topic, i + 1)
    }
}

/// The packet identifier after `id`; zero is none.
pub open spec fn id_after(id: u16) -> u16 {
    if id == 65535 {
        1
    } else {
        (id + 1) as u16
    }
}

/// How many of the first `n` packet identifiers count toward the receive maximum.
pub open spec fn qos1_count(acks: Seq<AckView>, n: nat) -> nat
    decreases n,
{
    if n == 0 {
        0
    } else {
        qos1_count(acks, (n - 1) as nat) + (if acks[n - 1].kind.is_qos1_publish() {
            1nat
        } else {
            0
        })
    }
}

/// Whether a frame belongs to this request, and none of it was written.
pub open spec fn is_unsent_request(frame: FrameView, correlation: Seq<u8>) -> bool {
    frame.offset == 0 && frame.correlation == Some(correlation)
}

/// The frames without the unsent ones of this request.
pub open spec fn retained(frames: Seq<FrameView>, correlation: Seq<u8>) -> Seq<FrameView>
    decreases frames.len(),
{
    if frames.len() == 0 {
        frames
    } else if is_unsent_request(frames.last(), correlation) {
        retained(frames.drop_last(), correlation)
    } else {
        retained(frames.drop_last(), correlation).push(frames.last())
    }
}

/// `a - b`, but not below zero.
pub open spec fn less(a: usize, b: int) -> usize {
    if a >= b {
        (a - b) as usize
    } else {
        0
    }
}

/// `total` less the bytes of each unsent frame of this request.
pub open spec fn bytes_left(total: usize, frames: Seq<FrameView>, correlation: Seq<u8>) -> usize
    decreases frames.len(),
{
    if frames.len() == 0 {
        total
    } else {
        let before = bytes_left(total, frames.drop_last(), correlation);
        if is_unsent_request(frames.last(), correlation) {
            less(before, frames.last().bytes.len() as int)
        } else {
            before
        }
    }
}

/// The correlation data of the requests with this response topic, all or only those that
/// were not published yet.
pub open spec fn requests_for(
    requests: Seq<RequestView>,
    topic: Seq<char>,
    unpublished_only: bool,
) -> Seq<Seq<u8>>
    decreases requests.len(),
{
    if requests.len() == 0 {
        Seq::empty()
    } else {
        let before = requests_for(requests.drop_last(), topic, unpublished_only);
        let last = requests.last();
        if last.response_topic == topic && !(unpublished_only && last.published) {
            before.push(last.correlation)
        } else {
            before
        }
    }
}

/// The acknowledgements whose waiting operation was cancelled become tombstones.
pub open spec fn bury_cancelled(acks: Seq<AckView>, cancelled: Seq<u64>) -> Seq<AckView> {
    Seq::new(
        acks.len(),
        |i: int|
            if acks[i].kind.ticket() matches Some(ticket) && cancelled.contains(ticket) {
                acks[i].buried()
            } else {
                acks[i]
            },
    )
}

/// The packet identifiers whose acknowledgement is overdue.
pub open spec fn overdue_acks(acks: Seq<AckView>, now: int) -> Seq<u16>
    decreases acks.len(),
{
    if acks.len() == 0 {
        Seq::empty()
    } else {
        let before = overdue_acks(acks.drop_last(), now);
        if now >= acks.last().deadline && !(acks.last().kind is Tombstone) {
            before.push(acks.last().packet_id)
        } else {
            before
        }
    }
}

/// The correlation data of the requests that are overdue or were cancelled.
pub open spec fn overdue_requests(
    requests: Seq<RequestView>,
    now: int,
    cancelled: Seq<u64>,
) -> Seq<Seq<u8>>
    decreases requests.len(),
{
    if requests.len() == 0 {
        Seq::empty()
    } else {
        let before = overdue_requests(requests.drop_last(), now, cancelled);
        if now >= requests.last().deadline || cancelled.contains(requests.last().ticket) {
            before.push(requests.last().correlation)
        } else {
            before
        }
    }
}

/// The shorter of a span and the time from `now` to `deadline`.
pub open spec fn wait_until(wait: int, deadline: int, now: int) -> int {
    let left = if deadline >= now {
        deadline - now
    } else {
        0
    };
    if left < wait {
        left
    } else {
        wait
    }
}

/// The shortest of a span and the times to the first `n` deadlines.
pub open spec fn wait_for_acks(acks: Seq<AckView>, n: nat, wait: int, now: int) -> int
    decreases n,
{
    if n == 0 {
        wait
    } else {
        wait_until(
            wait_for_acks(acks, (n - 1) as nat, wait, now),
            acks[n - 1].deadline,
            now,
        )
    }
}

/// The shortest of a span and the times to the first `n` deadlines.
pub open spec fn wait_for_requests(requests: Seq<RequestView>, n: nat, wait: int, now: int) -> int
    decreases n,
{
    if n == 0 {
        wait
    } else {
        wait_until(
            wait_for_requests(requests, (n - 1) as nat, wait, now),
            requests[n - 1].deadline,
            now,
        )
    }
}

/// How long nothing may be written before a PINGREQ is due: half the keep-alive time.
pub open spec fn ping_interval_of(keep_alive_secs: u16) -> int {
    (if keep_alive_secs / 2 >= 1 {
        keep_alive_secs as int / 2
    } else {
        1
    }) * NANOS_PER_SEC
}

/// How long after `earlier` the time `later` is; zero where it is not after it.
pub open spec fn since(later: int, earlier: int) -> int {
    if later >= earlier {
        later - earlier
    } else {
        0
    }
}

/// The driver's state.
#[verifier::ext_equal]
pub struct DriverView {
    pub reader: FrameReaderView,
    pub outbound: Seq<FrameView>,
    pub outbound_bytes: usize,
    pub acks: Seq<AckView>,
    pub next_packet_id: u16,
    pub last_write_at: int,
    pub ping_since: Option<int>,
    pub keep_alive_secs: u16,
    pub peer_max_packet_size: usize,
    pub peer_receive_maximum: u16,
    pub capabilities: ServerCapabilities,
    pub max_outbound_queue_bytes: usize,
    pub max_pending_operations: usize,
    pub ack_timeout: int,
    pub poll_interval: int,
    pub closing: bool,
    pub command_channel_closed: bool,
    pub needs_flush: bool,
    pub flush_actions: Seq<PendingFlush>,
    pub ping_queued: bool,
    pub terminal_event_sent: bool,
    pub requests: Seq<RequestView>,
    pub subscriptions: Seq<SubscriptionView>,
}

/// A step's new state, and what the driver says.
pub type Said = (DriverView, Seq<NoticeView>);

/// A step's new state, what the driver says, and what the step returns.
pub type Stepped = (DriverView, Seq<NoticeView>, Result<()>);

impl DriverView {
    /// Whether something waits for an acknowledgement with this identifier.
    pub open spec fn has_ack(self, id: u16) -> bool {
        ack_from(self.acks, id, 0) < self.acks.len()
    }

    /// Forget what waits for an acknowledgement with this identifier.
    pub open spec fn without_ack(self, id: u16) -> DriverView {
        if self.has_ack(id) {
            DriverView { acks: self.acks.remove(ack_from(self.acks, id, 0)), ..self }
        } else {
            self
        }
    }

    /// Forget the response subscription to `topic`.
    pub open spec fn without_subscription(self, topic: Seq<char>) -> DriverView {
        let i = subscription_from(self.subscriptions, topic, 0);
        if i < self.subscriptions.len() {
            DriverView { subscriptions: self.subscriptions.remove(i), ..self }
        } else {
            self
        }
    }

    /// Remember that `topic` is being subscribed to, replacing an older entry.
    pub open spec fn with_subscription(self, topic: Seq<char>) -> DriverView {
        let i = subscription_from(self.subscriptions, topic, 0);
        let subscribing = SubscriptionView { topic, ready: false };
        DriverView {
            subscriptions: if i < self.subscriptions.len() {
                self.subscriptions.update(i, subscribing)
            } else {
                self.subscriptions.push(subscribing)
            },
            ..self
        }
    }

    /// Remember that the subscription to `topic` is in place. A topic that is no longer
    /// cached is cached anew where there is room for it.
    pub open spec fn with_ready_subscription(self, topic: Seq<char>) -> DriverView {
        let i = subscription_from(self.subscriptions, topic, 0);
        let ready = SubscriptionView { topic, ready: true };
        if i < self.subscriptions.len() {
            DriverView { subscriptions: self.subscriptions.update(i, ready), ..self }
        } else if self.subscriptions.len() < self.max_pending_operations {
            DriverView { subscriptions: self.subscriptions.push(ready), ..self }
        } else {
            self
        }
    }

    /// Reserve a packet identifier that waits for no acknowledgement, in at most `tries`
    /// tries.
    pub open spec fn reserve_within(self, tries: nat) -> (DriverView, Result<u16>)
        decreases tries,
    {
        if tries == 0 {
            (self, Err(Error::QueueFull("packet identifiers")))
        } else {
            let id = self.next_packet_id;
            let next = DriverView { next_packet_id: id_after(id), ..self };
            if !self.has_ack(id) {
                (next, Ok(id))
            } else {
                next.reserve_within((tries - 1) as nat)
            }
        }
    }

    /// Reserve a packet identifier that waits for no acknowledgement.
    pub open spec fn reserve(self) -> (DriverView, Result<u16>) {
        self.reserve_within(65535)
    }

    /// Let a packet identifier wait for its acknowledgement, if there is room.
    pub open spec fn await_ack(
        self,
        packet_id: u16,
        kind: AckKindView,
        label: &'static str,
        now: int,
    ) -> (DriverView, Result<()>) {
        if self.acks.len() >= self.max_pending_operations {
            (self, Err(Error::QueueFull("pending operation")))
        } else {
            let ack = AckView { packet_id, deadline: now + self.ack_timeout, label, kind };
            (DriverView { acks: self.acks.push(ack), ..self }, Ok(()))
        }
    }

    /// Queue a frame, if the broker accepts its size and the queue has room.
    pub open spec fn enqueue(
        self,
        bytes: Seq<u8>,
        action: WrittenAction,
        correlation: Option<Seq<u8>>,
    ) -> (DriverView, Result<()>) {
        if bytes.len() > self.peer_max_packet_size {
            (
                self,
                Err(
                    Error::PacketTooLarge {
                        size: bytes.len() as usize,
                        max: self.peer_max_packet_size,
                    },
                ),
            )
        } else if self.outbound_bytes + bytes.len() > self.max_outbound_queue_bytes {
            (self, Err(Error::QueueFull("outbound bytes")))
        } else {
            (
                DriverView {
                    outbound_bytes: (self.outbound_bytes + bytes.len()) as usize,
                    outbound: self.outbound.push(
                        FrameView { bytes, offset: 0, action, correlation },
                    ),
                    ..self
                },
                Ok(()),
            )
        }
    }

    /// Send a packet whose acknowledgement is waited for, or say why not.
    pub open spec fn send_awaited(
        self,
        packet_id: u16,
        bytes: Seq<u8>,
        kind: AckKindView,
        label: &'static str,
        now: int,
    ) -> Said {
        match self.await_ack(packet_id, kind, label, now) {
            (_, Err(e)) => (self, kind.failure(e)),
            (waiting, Ok(_)) => match waiting.enqueue(bytes, WrittenAction::Nothing, None) {
                (_, Err(e)) => (waiting.without_ack(packet_id), kind.failure(e)),
                (queued, Ok(_)) => (queued, Seq::empty()),
            },
        }
    }

    /// Check a publish and queue it.
    pub open spec fn begin_publish(
        self,
        topic: Seq<char>,
        payload: Seq<u8>,
        options: PublishOptionsView,
        ticket: u64,
        now: int,
    ) -> Said {
        let packet = PublishPacketView {
            topic,
            packet_id: None,
            payload,
            qos: options.qos,
            retain: options.retain,
            dup: false,
            properties: options.properties,
        };
        if topic_name_check(topic) is Err {
            (self, seq![published(ticket, Err(topic_name_check(topic)->Err_0))])
        } else {
            match self.capabilities.publish_check(options.qos, options.retain) {
                Err(e) => (self, seq![published(ticket, Err(e))]),
                Ok(_) => match options.qos {
                    QoS::AtMostOnce => self.publish_at_most_once(packet, ticket),
                    QoS::AtLeastOnce => self.publish_at_least_once(packet, ticket, now),
                },
            }
        }
    }

    /// Queue a PUBLISH that is answered once it is flushed.
    pub open spec fn publish_at_most_once(self, packet: PublishPacketView, ticket: u64) -> Said {
        match encoded_publish(packet) {
            Err(e) => (self, seq![published(ticket, Err(e))]),
            Ok(bytes) => match self.enqueue(bytes, WrittenAction::PublishQos0 { ticket }, None) {
                (_, Err(e)) => (self, seq![published(ticket, Err(e))]),
                (queued, Ok(_)) => (queued, Seq::empty()),
            },
        }
    }

    /// Queue a PUBLISH that is answered by its PUBACK.
    pub open spec fn publish_at_least_once(
        self,
        packet: PublishPacketView,
        ticket: u64,
        now: int,
    ) -> Said {
        match self.reserve() {
            (reserved, Err(e)) => (reserved, seq![published(ticket, Err(e))]),
            (reserved, Ok(id)) => match encoded_publish(
                PublishPacketView { packet_id: Some(id), ..packet },
            ) {
                Err(e) => (reserved, seq![published(ticket, Err(e))]),
                Ok(bytes) => if qos1_count(reserved.acks, reserved.acks.len())
                    >= reserved.peer_receive_maximum {
                    (
                        reserved,
                        seq![published(ticket, Err(Error::QueueFull("broker receive maximum")))],
                    )
                } else {
                    reserved.send_awaited(
                        id,
                        bytes,
                        AckKindView::Publish { ticket },
                        "publish acknowledgement",
                        now,
                    )
                },
            },
        }
    }

    /// Check a subscribe and queue it.
    pub open spec fn begin_subscribe(
        self,
        filter: Seq<char>,
        qos: QoS,
        ticket: u64,
        now: int,
    ) -> Said {
        match self.capabilities.filter_check(filter) {
            Err(e) => (self, seq![subscribed(ticket, Err(e))]),
            Ok(_) => match self.reserve() {
                (reserved, Err(e)) => (reserved, seq![subscribed(ticket, Err(e))]),
                (reserved, Ok(id)) => match encoded_subscribe(subscribe_packet(id, filter, qos)) {
                    Err(e) => (reserved, seq![subscribed(ticket, Err(e))]),
                    Ok(bytes) => reserved.send_awaited(
                        id,
                        bytes,
                        AckKindView::Subscribe { requested_qos: qos, ticket },
                        "subscription acknowledgement",
                        now,
                    ),
                },
            },
        }
    }

    /// Check an unsubscribe and queue it.
    pub open spec fn begin_unsubscribe(self, filter: Seq<char>, ticket: u64, now: int) -> Said {
        match topic_filter_check(filter) {
            Err(e) => (self, seq![subscribed(ticket, Err(e))]),
            Ok(_) => match self.reserve() {
                (reserved, Err(e)) => (reserved, seq![subscribed(ticket, Err(e))]),
                (reserved, Ok(id)) => match encoded_unsubscribe(unsubscribe_packet(id, filter)) {
                    Err(e) => (reserved, seq![subscribed(ticket, Err(e))]),
                    Ok(bytes) => reserved.send_awaited(
                        id,
                        bytes,
                        AckKindView::Unsubscribe { filter, ticket },
                        "unsubscribe acknowledgement",
                        now,
                    ),
                },
            },
        }
    }

    /// Queue a DISCONNECT, and take no further commands once it is queued.
    pub open spec fn begin_disconnect(self, ticket: u64) -> Said {
        match self.enqueue(goodbye(), WrittenAction::Disconnect { ticket }, None) {
            (_, Err(e)) => (
                DriverView { closing: false, ..self },
                seq![disconnected(ticket, Err(e))],
            ),
            (queued, Ok(_)) => (DriverView { closing: true, ..queued }, Seq::empty()),
        }
    }

    /// Queue a DISCONNECT where nobody is left to ask for one.
    pub open spec fn begin_abandoned_disconnect(self) -> (DriverView, Result<()>) {
        if self.closing || !self.command_channel_closed {
            (self, Ok(()))
        } else {
            (DriverView { closing: true, ..self }).enqueue(
                goodbye(),
                WrittenAction::AbandonedDisconnect,
                None,
            )
        }
    }

    /// What follows once a frame has left the transport.
    pub open spec fn complete_written(self, action: WrittenAction, now: int) -> Said {
        match action {
            WrittenAction::Nothing | WrittenAction::AbandonedDisconnect => (self, Seq::empty()),
            WrittenAction::PublishQos0 { ticket } => (
                self,
                seq![published(ticket, Ok(PublishAck { packet_id: None, reason_code: None }))],
            ),
            WrittenAction::PingReq => (
                DriverView { ping_queued: false, ping_since: Some(now), ..self },
                Seq::empty(),
            ),
            WrittenAction::Disconnect { ticket } => (
                DriverView { terminal_event_sent: true, ..self },
                seq![
                    disconnected(ticket, Ok(())),
                    went_down(DisconnectReason::ClientInitiated),
                ],
            ),
        }
    }

    /// The transport was flushed: everything written has left.
    pub open spec fn flushed(self, now: int) -> Said
        decreases self.flush_actions.len(),
    {
        if self.flush_actions.len() == 0 {
            (DriverView { needs_flush: false, ..self }, Seq::empty())
        } else {
            let flush = self.flush_actions[0];
            let popped = DriverView {
                flush_actions: self.flush_actions.skip(1),
                outbound_bytes: less(self.outbound_bytes, flush.bytes as int),
                ..self
            };
            let (done, first) = popped.complete_written(flush.action, now);
            let (all_done, rest) = done.flushed(now);
            (all_done, first + rest)
        }
    }

    /// `written` bytes of the front frame were accepted by the transport.
    pub open spec fn advanced(self, written: usize, now: int) -> DriverView {
        let front = self.outbound[0];
        let offset = (front.offset + written) as usize;
        let progressed = DriverView { last_write_at: now, needs_flush: true, ..self };
        if offset == front.bytes.len() {
            DriverView {
                outbound: self.outbound.skip(1),
                flush_actions: self.flush_actions.push(
                    PendingFlush { bytes: front.bytes.len() as usize, action: front.action },
                ),
                ..progressed
            }
        } else {
            DriverView {
                outbound: self.outbound.update(0, FrameView { offset, ..front }),
                ..progressed
            }
        }
    }

    /// What to do next for the outbound queue, where nothing has to be flushed first.
    pub open spec fn write_or_flush(self) -> FlushStep {
        if self.outbound.len() > 0 {
            FlushStep::Write
        } else if self.needs_flush {
            FlushStep::Flush { last: true }
        } else {
            FlushStep::Finished
        }
    }

    /// Take the pending acknowledgement that `packet_id` waits for, if it is of the class
    /// that was received.
    pub open spec fn take_ack(self, packet_id: u16, received: AckClass) -> (
        DriverView,
        Result<Option<AckView>>,
    ) {
        let i = ack_from(self.acks, packet_id, 0);
        if i >= self.acks.len() {
            (self, Ok(None))
        } else if self.acks[i].kind.ack_class() != received {
            (
                self,
                Err(
                    Error::UnexpectedPacket(
                        "acknowledgement type does not match pending packet id",
                    ),
                ),
            )
        } else {
            (DriverView { acks: self.acks.remove(i), ..self }, Ok(Some(self.acks[i])))
        }
    }

    #[verifier::opaque]
    pub open spec fn dispatch_puback(self, ack: PubAckPacket) -> Stepped {
        match self.take_ack(ack.packet_id, AckClass::Publish) {
            (s, Err(e)) => (s, Seq::empty(), Err(e)),
            (s, Ok(None)) => (s, Seq::empty(), Ok(())),
            (s, Ok(Some(pending))) => {
                let refusal = Error::AckRejected { packet: "PUBACK", reason_code: ack.reason_code };
                match pending.kind {
                    AckKindView::Publish { ticket } => (
                        s,
                        seq![
                            published(
                                ticket,
                                if ack.reason_code >= 0x80 {
                                    Err(refusal)
                                } else {
                                    Ok(
                                        PublishAck {
                                            packet_id: Some(ack.packet_id),
                                            reason_code: Some(ack.reason_code),
                                        },
                                    )
                                },
                            ),
                        ],
                        Ok(()),
                    ),
                    AckKindView::RequestPublish { correlation } => if ack.reason_code >= 0x80 {
                        let (failed, says) = s.fail_request(correlation, refusal);
                        (failed, says, Ok(()))
                    } else {
                        (s, Seq::empty(), Ok(()))
                    },
                    _ => (s, Seq::empty(), Ok(())),
                }
            },
        }
    }

    #[verifier::opaque]
    pub open spec fn dispatch_suback(self, ack: AckCodesView, now: int) -> Stepped {
        match self.take_ack(ack.packet_id, AckClass::Subscribe) {
            (s, Err(e)) => (s, Seq::empty(), Err(e)),
            (s, Ok(None)) => (s, Seq::empty(), Ok(())),
            (s, Ok(Some(pending))) => match pending.kind {
                AckKindView::Subscribe { requested_qos, ticket } => s.complete_subscribe(
                    ack,
                    requested_qos,
                    ticket,
                ),
                AckKindView::ResponseSubscribe { topic } => s.complete_response_subscribe(
                    ack,
                    topic,
                    now,
                ),
                _ => (s, Seq::empty(), Ok(())),
            },
        }
    }

    /// The broker answered a subscription. An answer that cannot be one is an error.
    pub open spec fn complete_subscribe(
        self,
        ack: AckCodesView,
        requested_qos: QoS,
        ticket: u64,
    ) -> Stepped {
        match suback_check(ack.reason_codes, seq![requested_qos]) {
            Ok(_) => (self, seq![subscribed(ticket, Ok(ack))], Ok(())),
            Err(e) => (self, seq![subscribed(ticket, Err(e))], unless_refused(e)),
        }
    }

    /// The broker answered the subscription to a response topic: the requests that waited
    /// for it are published, or fail.
    pub open spec fn complete_response_subscribe(
        self,
        ack: AckCodesView,
        topic: Seq<char>,
        now: int,
    ) -> Stepped {
        match suback_check(ack.reason_codes, seq![QoS::AtLeastOnce]) {
            Ok(_) => {
                let (s, says) = self.with_ready_subscription(topic).publish_waiting(topic, now);
                (s, says, Ok(()))
            },
            Err(e) => {
                let (s, says) = self.without_subscription(topic).fail_requests_for_topic(topic, e);
                (s, says, unless_refused(e))
            },
        }
    }

    #[verifier::opaque]
    pub open spec fn dispatch_unsuback(self, ack: AckCodesView) -> Stepped {
        match self.take_ack(ack.packet_id, AckClass::Unsubscribe) {
            (s, Err(e)) => (s, Seq::empty(), Err(e)),
            (s, Ok(None)) => (s, Seq::empty(), Ok(())),
            (s, Ok(Some(pending))) => match pending.kind {
                AckKindView::Unsubscribe { filter, ticket } => match reason_codes_check(
                    "UNSUBACK",
                    ack.reason_codes,
                    1,
                ) {
                    Ok(_) => (
                        s.without_subscription(filter),
                        seq![subscribed(ticket, Ok(ack))],
                        Ok(()),
                    ),
                    Err(e) => (s, seq![subscribed(ticket, Err(e))], Ok(())),
                },
                _ => (s, Seq::empty(), Ok(())),
            },
        }
    }

    /// Whether `id` waits for the PUBACK of the request with this correlation data.
    pub open spec fn awaits_request(self, id: u16, correlation: Seq<u8>) -> bool {
        let i = ack_from(self.acks, id, 0);
        i < self.acks.len() && self.acks[i].kind == (AckKindView::RequestPublish { correlation })
    }

    /// Forget a request. Its frame is taken out of the queue if none of it was written;
    /// otherwise its packet identifier stays reserved until the broker acknowledges it.
    pub open spec fn remove_request(self, correlation: Seq<u8>) -> (
        DriverView,
        Seq<NoticeView>,
        Option<RequestView>,
    ) {
        let i = request_from(self.requests, correlation, 0);
        if i >= self.requests.len() {
            (self, Seq::empty(), None)
        } else {
            let pending = self.requests[i];
            let unsent = exists|j: int|
                0 <= j < self.outbound.len() && is_unsent_request(
                    #[trigger] self.outbound[j],
                    correlation,
                );
            let s = DriverView {
                requests: self.requests.remove(i),
                outbound: retained(self.outbound, correlation),
                outbound_bytes: bytes_left(self.outbound_bytes, self.outbound, correlation),
                ..self
            };
            let t = match pending.publish_packet_id {
                None => s,
                Some(id) => s.release_request_ack(id, correlation, unsent),
            };
            (t, seq![NoticeView::Released(correlation)], Some(pending))
        }
    }

    /// Nobody waits for the PUBACK of this request any more. Its packet identifier is
    /// free again if the packet was not sent, and stays reserved if it may have been. An
    /// identifier that is no longer the request's is left alone.
    pub open spec fn release_request_ack(
        self,
        id: u16,
        correlation: Seq<u8>,
        unsent: bool,
    ) -> DriverView {
        if !self.awaits_request(id, correlation) {
            self
        } else if unsent {
            self.without_ack(id)
        } else {
            let i = ack_from(self.acks, id, 0);
            DriverView { acks: self.acks.update(i, self.acks[i].buried()), ..self }
        }
    }

    /// Forget a request and tell its waiter why.
    pub open spec fn fail_request(self, correlation: Seq<u8>, e: Error) -> Said {
        match self.remove_request(correlation) {
            (s, says, Some(pending)) => (s, says.push(responded(pending.ticket, Err(e)))),
            (s, says, None) => (s, says),
        }
    }

    /// Fail each of these requests, in order.
    pub open spec fn fail_all(self, correlations: Seq<Seq<u8>>, e: Error) -> Said
        decreases correlations.len(),
    {
        if correlations.len() == 0 {
            (self, Seq::empty())
        } else {
            let (s, first) = self.fail_request(correlations[0], e);
            let (t, rest) = s.fail_all(correlations.skip(1), e);
            (t, first + rest)
        }
    }

    /// Fail the requests whose response topic is `topic`.
    pub open spec fn fail_requests_for_topic(self, topic: Seq<char>, e: Error) -> Said {
        self.fail_all(requests_for(self.requests, topic, false), e)
    }

    /// The PUBLISH packet of a request.
    pub open spec fn request_packet(pending: RequestView, packet_id: Option<u16>) -> PublishPacketView {
        PublishPacketView {
            topic: pending.topic,
            packet_id,
            payload: pending.payload,
            qos: pending.qos,
            retain: false,
            dup: false,
            properties: pending.properties,
        }
    }

    /// Queue the PUBLISH packet of a request, and note that it was.
    pub open spec fn send_request(
        self,
        i: int,
        packet_id: Option<u16>,
        bytes: Seq<u8>,
    ) -> (DriverView, Result<()>) {
        let pending = self.requests[i];
        match self.enqueue(bytes, WrittenAction::Nothing, Some(pending.correlation)) {
            (_, Err(e)) => (
                match packet_id {
                    Some(id) => self.without_ack(id),
                    None => self,
                },
                Err(e),
            ),
            (queued, Ok(_)) => (
                DriverView {
                    requests: queued.requests.update(
                        i,
                        RequestView { published: true, publish_packet_id: packet_id, ..pending },
                    ),
                    ..queued
                },
                Ok(()),
            ),
        }
    }

    /// Publish a request that was not published yet.
    pub open spec fn publish_request(self, correlation: Seq<u8>, now: int) -> (
        DriverView,
        Result<()>,
    ) {
        let i = request_from(self.requests, correlation, 0);
        if i >= self.requests.len() || self.requests[i].published {
            (self, Ok(()))
        } else {
            let pending = self.requests[i];
            match pending.qos {
                QoS::AtMostOnce => match encoded_publish(Self::request_packet(pending, None)) {
                    Err(e) => (self, Err(e)),
                    Ok(bytes) => self.send_request(i, None, bytes),
                },
                QoS::AtLeastOnce => if qos1_count(self.acks, self.acks.len())
                    >= self.peer_receive_maximum {
                    (self, Err(Error::QueueFull("broker receive maximum")))
                } else {
                    match self.reserve() {
                        (reserved, Err(e)) => (reserved, Err(e)),
                        (reserved, Ok(id)) => match encoded_publish(
                            Self::request_packet(pending, Some(id)),
                        ) {
                            Err(e) => (reserved, Err(e)),
                            Ok(bytes) => match reserved.await_ack(
                                id,
                                AckKindView::RequestPublish { correlation },
                                "request publish acknowledgement",
                                now,
                            ) {
                                (_, Err(e)) => (reserved, Err(e)),
                                (waiting, Ok(_)) => waiting.send_request(i, Some(id), bytes),
                            },
                        },
                    }
                },
            }
        }
    }

    /// Publish each of these requests, in order; one that cannot be published fails.
    pub open spec fn publish_all(self, correlations: Seq<Seq<u8>>, now: int) -> Said
        decreases correlations.len(),
    {
        if correlations.len() == 0 {
            (self, Seq::empty())
        } else {
            let (s, first) = match self.publish_request(correlations[0], now) {
                (s, Ok(_)) => (s, Seq::empty()),
                (s, Err(e)) => s.fail_request(correlations[0], e),
            };
            let (t, rest) = s.publish_all(correlations.skip(1), now);
            (t, first + rest)
        }
    }

    /// Publish the requests that waited for the subscription to their response topic.
    pub open spec fn publish_waiting(self, topic: Seq<char>, now: int) -> Said {
        self.publish_all(requests_for(self.requests, topic, true), now)
    }

    /// Subscribe to a response topic.
    pub open spec fn subscribe_for_responses(self, topic: Seq<char>, now: int) -> (
        DriverView,
        Result<()>,
    ) {
        match self.reserve() {
            (reserved, Err(e)) => (reserved, Err(e)),
            (reserved, Ok(id)) => match encoded_subscribe(
                subscribe_packet(id, topic, QoS::AtLeastOnce),
            ) {
                Err(e) => (reserved, Err(e)),
                Ok(bytes) => match reserved.await_ack(
                    id,
                    AckKindView::ResponseSubscribe { topic },
                    "request subscription acknowledgement",
                    now,
                ) {
                    (_, Err(e)) => (reserved, Err(e)),
                    (waiting, Ok(_)) => {
                        let subscribing = waiting.with_subscription(topic);
                        match subscribing.enqueue(bytes, WrittenAction::Nothing, None) {
                            (_, Err(e)) => (
                                subscribing.without_ack(id).without_subscription(topic),
                                Err(e),
                            ),
                            (queued, Ok(_)) => (queued, Ok(())),
                        }
                    },
                },
            },
        }
    }

    /// What is wrong with a request at this time, if anything.
    pub open spec fn request_check(self, request: RequestCommandView, now: int) -> Result<()> {
        if request.timeout.spec_nanos() == 0 {
            Err(Error::InvalidOptions("request timeout must be non-zero"))
        } else if topic_name_check(request.topic) is Err {
            topic_name_check(request.topic)
        } else if self.capabilities.publish_check(request.qos, false) is Err {
            self.capabilities.publish_check(request.qos, false)
        } else if self.requests.len() >= self.max_pending_operations {
            Err(Error::QueueFull("pending request"))
        } else if request_from(self.requests, request.correlation_data, 0) < self.requests.len() {
            Err(Error::MalformedPacket("duplicate request correlation data"))
        } else if now + request.timeout.spec_nanos() > MAX_INSTANT_NANOS {
            Err(Error::InvalidOptions("request timeout is too large"))
        } else {
            Ok(())
        }
    }

    /// Bring a request on its way: publish it, or wait for the subscription to its
    /// response topic.
    pub open spec fn route_request(self, correlation: Seq<u8>, topic: Seq<char>, now: int) -> (
        DriverView,
        Result<()>,
    ) {
        let i = subscription_from(self.subscriptions, topic, 0);
        if i < self.subscriptions.len() {
            if self.subscriptions[i].ready {
                self.publish_request(correlation, now)
            } else {
                (self, Ok(()))
            }
        } else if self.subscriptions.len() >= self.max_pending_operations {
            (self, Err(Error::QueueFull("response subscriptions")))
        } else {
            self.subscribe_for_responses(topic, now)
        }
    }

    /// Check a request, and publish it now or after its response subscription.
    pub open spec fn begin_request(
        self,
        request: RequestCommandView,
        ticket: u64,
        cancelled: bool,
        now: int,
    ) -> Said {
        if cancelled {
            (self, Seq::empty())
        } else {
            match self.request_check(request, now) {
                Err(e) => (
                    self,
                    seq![
                        NoticeView::Released(request.correlation_data),
                        responded(ticket, Err(e)),
                    ],
                ),
                Ok(_) => {
                    let pending = RequestView {
                        correlation: request.correlation_data,
                        topic: request.topic,
                        payload: request.payload,
                        response_topic: request.response_topic,
                        qos: request.qos,
                        properties: request.properties,
                        deadline: now + request.timeout.spec_nanos(),
                        ticket,
                        publish_packet_id: None,
                        published: false,
                    };
                    let s = DriverView { requests: self.requests.push(pending), ..self };
                    match s.route_request(request.correlation_data, request.response_topic, now) {
                        (t, Ok(_)) => (t, Seq::empty()),
                        (t, Err(e)) => t.fail_request(request.correlation_data, e),
                    }
                },
            }
        }
    }

    /// The request that this packet answers, if there is one: same correlation data, and
    /// on the response topic.
    pub open spec fn answered(self, packet: PublishPacketView) -> Option<int> {
        match first_value(packet.properties, PropertyId::CorrelationData, ValueKind::Binary) {
            Some(PropertyValueView::Binary(correlation)) => {
                let i = request_from(self.requests, correlation, 0);
                if i < self.requests.len() && self.requests[i].response_topic == packet.topic {
                    Some(i)
                } else {
                    None
                }
            },
            _ => None,
        }
    }

    /// A PUBLISH packet arrived: acknowledge it if it asks for that, hand it to the
    /// request that it answers, or else leave it for delivery.
    #[verifier::opaque]
    pub open spec fn dispatch_publish(self, packet: PublishPacketView) -> (
        DriverView,
        Seq<NoticeView>,
        Result<Option<PublishPacketView>>,
    ) {
        match self.acknowledge(packet) {
            (s, Err(e)) => (s, Seq::empty(), Err(e)),
            (s, Ok(_)) => match s.answered(packet) {
                None => (s, Seq::empty(), Ok(Some(packet))),
                Some(i) => {
                    let (t, says, _) = s.remove_request(s.requests[i].correlation);
                    (t, says.push(responded(s.requests[i].ticket, Ok(packet))), Ok(None))
                },
            },
        }
    }

    /// Queue the PUBACK for a PUBLISH packet of QoS 1.
    pub open spec fn acknowledge(self, packet: PublishPacketView) -> (DriverView, Result<()>) {
        match packet.qos {
            QoS::AtMostOnce => (self, Ok(())),
            QoS::AtLeastOnce => match packet.packet_id {
                None => (self, Err(Error::MalformedPacket("QoS 1 PUBLISH missing packet id"))),
                Some(packet_id) => match encoded_puback(
                    PubAckPacket { packet_id, reason_code: 0 },
                ) {
                    Err(e) => (self, Err(e)),
                    Ok(bytes) => self.enqueue(bytes, WrittenAction::Nothing, None),
                },
            },
        }
    }

    /// A packet arrived. A PUBLISH packet that answers no request is left for delivery.
    pub open spec fn dispatch_packet(self, packet: PacketView, now: int) -> (
        DriverView,
        Seq<NoticeView>,
        Result<Option<PublishPacketView>>,
    ) {
        match packet {
            PacketView::Publish(p) => self.dispatch_publish(p),
            PacketView::PubAck(ack) => undelivered(self.dispatch_puback(ack)),
            PacketView::SubAck(ack) => undelivered(self.dispatch_suback(ack, now)),
            PacketView::UnsubAck(ack) => undelivered(self.dispatch_unsuback(ack)),
            PacketView::PingResp => (
                DriverView { ping_since: None, ..self },
                Seq::empty(),
                Ok(None),
            ),
            PacketView::Disconnect(d) => {
                let (s, says) = self.fail_pending();
                (
                    DriverView { terminal_event_sent: true, ..s },
                    says.push(went_down(DisconnectReason::Server(d.reason_code))),
                    Err(Error::ServerDisconnected(d.reason_code)),
                )
            },
            PacketView::PingReq => (
                self,
                Seq::empty(),
                Err(Error::UnexpectedPacket("broker sent PINGREQ")),
            ),
            PacketView::ConnAck(_) => (
                self,
                Seq::empty(),
                Err(Error::UnexpectedPacket("duplicate CONNACK")),
            ),
            PacketView::Connect(_) | PacketView::Subscribe(_) | PacketView::Unsubscribe(_) => (
                self,
                Seq::empty(),
                Err(Error::UnexpectedPacket("server sent client-only packet")),
            ),
        }
    }

    /// Take out and dispatch one packet: no packet is there yet, or one was dispatched,
    /// and is perhaps to be delivered.
    #[verifier::opaque]
    pub open spec fn drain_one(self, now: int) -> (
        DriverView,
        Seq<NoticeView>,
        Result<Option<Option<PublishPacketView>>>,
    ) {
        let rest = self.reader.after_next();
        let s = DriverView { reader: rest, ..self };
        match self.reader.next_packet() {
            Err(e) => (s, Seq::empty(), Err(e)),
            Ok(None) => (s, Seq::empty(), Ok(None)),
            Ok(Some(packet)) => {
                let (t, says, result) = s.dispatch_packet(packet, now);
                (
                    DriverView { reader: rest, ..t },
                    says,
                    match result {
                        Ok(delivery) => Ok(Some(delivery)),
                        Err(e) => Err(e),
                    },
                )
            },
        }
    }

    /// Take out and dispatch packets, up to one that is to be delivered.
    pub open spec fn drain_packets(self, now: int) -> (
        DriverView,
        Seq<NoticeView>,
        Result<Option<PublishPacketView>>,
    )
        decreases self.reader.buf.len(),
    {
        match self.drain_one(now) {
            (s, says, Err(e)) => (s, says, Err(e)),
            (s, says, Ok(None)) => (s, says, Ok(None)),
            (s, says, Ok(Some(Some(delivery)))) => (s, says, Ok(Some(delivery))),
            (s, says, Ok(Some(None))) => {
                proof {
                    reveal(DriverView::drain_one);
                    header_len_bounds(self.reader.buf);
                }
                let (t, more, r) = s.drain_packets(now);
                (t, says + more, r)
            },
        }
    }

    /// Everything that waits fails: the connection is over.
    pub open spec fn fail_pending(self) -> Said {
        let gone = Error::ConnectionClosed;
        (
            DriverView {
                acks: Seq::empty(),
                outbound: Seq::empty(),
                flush_actions: Seq::empty(),
                outbound_bytes: 0,
                requests: Seq::empty(),
                ..self
            },
            ack_failures(self.acks, self.acks.len()) + frame_failures(
                self.outbound,
                self.outbound.len(),
            ) + flush_failures(self.flush_actions, self.flush_actions.len()) + request_failures(
                self.requests,
                self.requests.len(),
            ),
        )
    }

    /// The acknowledgement that this packet identifier waits for is overdue.
    pub open spec fn expire_ack(self, id: u16) -> Said {
        let i = ack_from(self.acks, id, 0);
        if i >= self.acks.len() {
            (self, Seq::empty())
        } else {
            let ack = self.acks[i];
            let late = Error::Timeout(ack.label);
            let s = DriverView { acks: self.acks.update(i, ack.buried()), ..self };
            match ack.kind {
                AckKindView::ResponseSubscribe { topic } => s.without_subscription(
                    topic,
                ).fail_requests_for_topic(topic, late),
                AckKindView::RequestPublish { correlation } => {
                    let (t, says) = self.fail_request(correlation, late);
                    (t.release_request_ack(id, correlation, false), says)
                },
                other => (s, other.failure(late)),
            }
        }
    }

    /// The acknowledgements that these packet identifiers wait for are overdue.
    pub open spec fn expire_acks(self, ids: Seq<u16>) -> Said
        decreases ids.len(),
    {
        if ids.len() == 0 {
            (self, Seq::empty())
        } else {
            let (s, first) = self.expire_ack(ids[0]);
            let (t, rest) = s.expire_acks(ids.skip(1));
            (t, first + rest)
        }
    }

    /// This request was cancelled, or is overdue.
    pub open spec fn expire_request(self, correlation: Seq<u8>, cancelled: Seq<u64>) -> Said {
        let i = request_from(self.requests, correlation, 0);
        if i < self.requests.len() && cancelled.contains(self.requests[i].ticket) {
            let (s, says, _) = self.remove_request(correlation);
            (s, says)
        } else {
            self.fail_request(correlation, Error::Timeout("request response"))
        }
    }

    /// These requests were cancelled, or are overdue.
    pub open spec fn expire_requests(self, correlations: Seq<Seq<u8>>, cancelled: Seq<u64>) -> Said
        decreases correlations.len(),
    {
        if correlations.len() == 0 {
            (self, Seq::empty())
        } else {
            let (s, first) = self.expire_request(correlations[0], cancelled);
            let (t, rest) = s.expire_requests(correlations.skip(1), cancelled);
            (t, first + rest)
        }
    }

    /// Let go of the operations with these tickets, which nobody waits for any more, and
    /// of everything that is overdue. Packet identifiers stay reserved.
    pub open spec fn expire_operations(self, now: int, cancelled: Seq<u64>) -> Said {
        let s = DriverView { acks: bury_cancelled(self.acks, cancelled), ..self };
        let (t, first) = s.expire_acks(overdue_acks(s.acks, now));
        let (u, rest) = t.expire_requests(
            overdue_requests(t.requests, now, cancelled),
            cancelled,
        );
        (u, first + rest)
    }

    /// Forget each of these requests that is pending, in order.
    pub open spec fn remove_all(self, correlations: Seq<Seq<u8>>) -> Said
        decreases correlations.len(),
    {
        if correlations.len() == 0 {
            (self, Seq::empty())
        } else {
            let (s, first, _) = self.remove_request(correlations[0]);
            let (t, rest) = s.remove_all(correlations.skip(1));
            (t, first + rest)
        }
    }

    /// Queue a ping after an idle interval, and fail where the last one was not answered.
    pub open spec fn maintain_keep_alive(self, now: int) -> (DriverView, Result<()>) {
        if self.keep_alive_secs == 0 {
            (self, Ok(()))
        } else {
            match self.ping_since {
                Some(sent_at) => if since(now, sent_at) >= self.keep_alive_secs * NANOS_PER_SEC {
                    (self, Err(Error::KeepAliveTimeout))
                } else {
                    (self, Ok(()))
                },
                None => if !self.ping_queued && since(now, self.last_write_at) >= ping_interval_of(
                    self.keep_alive_secs,
                ) {
                    match self.enqueue(PINGREQ_BYTES@, WrittenAction::PingReq, None) {
                        (s, Ok(_)) => (DriverView { ping_queued: true, ..s }, Ok(())),
                        (s, Err(e)) => (s, Err(e)),
                    }
                } else {
                    (self, Ok(()))
                },
            }
        }
    }

    /// How long the driver may sleep if no command comes in.
    pub open spec fn next_wait(self, now: int) -> int {
        let wait = wait_for_requests(
            self.requests,
            self.requests.len(),
            wait_for_acks(self.acks, self.acks.len(), self.poll_interval, now),
            now,
        );
        if self.keep_alive_secs == 0 {
            wait
        } else {
            match self.ping_since {
                Some(sent_at) => wait_until(
                    wait,
                    sent_at + self.keep_alive_secs * NANOS_PER_SEC,
                    now,
                ),
                None => if self.ping_queued {
                    wait
                } else {
                    wait_until(
                        wait,
                        self.last_write_at + ping_interval_of(self.keep_alive_secs),
                        now,
                    )
                },
            }
        }
    }
}

/// A refusal concerns one operation; any other error ends the connection.
pub open spec fn unless_refused(e: Error) -> Result<()> {
    if e is AckRejected {
        Ok(())
    } else {
        Err(e)
    }
}

/// A step that leaves nothing for delivery.
pub open spec fn undelivered(step: Stepped) -> (
    DriverView,
    Seq<NoticeView>,
    Result<Option<PublishPacketView>>,
) {
    (
        step.0,
        step.1,
        match step.2 {
            Ok(_) => Ok(None),
            Err(e) => Err(e),
        },
    )
}

/// The DISCONNECT packet of a normal disconnect.
pub open spec fn goodbye() -> Seq<u8> {
    encoded_disconnect(DisconnectPacket { reason_code: 0 })->Ok_0
}

/// The SUBSCRIBE packet for one filter.
pub open spec fn subscribe_packet(packet_id: u16, filter: Seq<char>, qos: QoS) -> SubscribePacketView {
    SubscribePacketView { packet_id, filters: seq![(filter, qos)], properties: Seq::empty() }
}

/// The UNSUBSCRIBE packet for one filter.
pub open spec fn unsubscribe_packet(packet_id: u16, filter: Seq<char>) -> UnsubscribePacketView {
    UnsubscribePacketView { packet_id, filters: seq![filter], properties: Seq::empty() }
}

/// The first reason code from `i` on that is a refusal, if there is one.
pub open spec fn refusal_from(codes: Seq<u8>, i: int) -> Option<u8>
    decreases codes.len() - i,
{
    if i < 0 || i >= codes.len() {
        None
    } else if codes[i] >= 0x80 {
        Some(codes[i])
    } else {
        refusal_from(codes, i + 1)
    }
}

/// What is wrong with the reason codes of an acknowledgement, if anything: their number,
/// or a refusal.
pub open spec fn reason_codes_check(packet: &'static str, codes: Seq<u8>, expected: nat) -> Result<()> {
    if codes.len() != expected {
        Err(Error::MalformedPacket("ack reason code count mismatch"))
    } else {
        match refusal_from(codes, 0) {
            Some(reason_code) => Err(Error::AckRejected { packet, reason_code }),
            None => Ok(()),
        }
    }
}

/// What is said of the first `n` acknowledgements when the connection is over.
pub open spec fn ack_failures(acks: Seq<AckView>, n: nat) -> Seq<NoticeView>
    decreases n,
{
    if n == 0 {
        Seq::empty()
    } else {
        ack_failures(acks, (n - 1) as nat) + acks[n - 1].kind.failure(Error::ConnectionClosed)
    }
}

/// What is said of the first `n` queued frames when the connection is over.
pub open spec fn frame_failures(frames: Seq<FrameView>, n: nat) -> Seq<NoticeView>
    decreases n,
{
    if n == 0 {
        Seq::empty()
    } else {
        frame_failures(frames, (n - 1) as nat) + frames[n - 1].action.failure(
            Error::ConnectionClosed,
        )
    }
}

/// What is said of the first `n` unflushed frames when the connection is over.
pub open spec fn flush_failures(flushes: Seq<PendingFlush>, n: nat) -> Seq<NoticeView>
    decreases n,
{
    if n == 0 {
        Seq::empty()
    } else {
        flush_failures(flushes, (n - 1) as nat) + flushes[n - 1].action.failure(
            Error::ConnectionClosed,
        )
    }
}

/// What is said of the first `n` requests when the connection is over.
pub open spec fn request_failures(requests: Seq<RequestView>, n: nat) -> Seq<NoticeView>
    decreases n,
{
    if n == 0 {
        Seq::empty()
    } else {
        request_failures(requests, (n - 1) as nat) + seq![
            NoticeView::Released(requests[n - 1].correlation),
            responded(requests[n - 1].ticket, Err(Error::ConnectionClosed)),
        ]
    }
}

} // verus!
