//! The connection driver: what to write, whom to tell, when to give up.
use std::collections::VecDeque;

use vstd::prelude::*;
use vstd::slice::slice_to_vec;

use crate::async_client::handshake::Negotiated;
use crate::async_client::laws::{
    advanced_keeps, begin_disconnect_keeps, begin_publish_keeps, begin_request_keeps,
    begin_subscribe_keeps, begin_unsubscribe_keeps, dispatch_packet_keeps,
    drain_cancellations_keeps, drain_one_keeps, drain_packets_keeps, expire_operations_keeps, fail_pending_keeps,
    flushed_keeps, maintain_keep_alive_keeps,
};
use crate::async_client::lifecycle::byte_views;
use crate::async_client::model::{
    ack_failures, ack_from, bury_cancelled, bytes_left, disconnected, flush_failures,
    frame_failures, goodbye, id_after, is_unsent_request, less, overdue_acks, overdue_requests,
    ping_interval_of, published, qos1_count, reason_codes_check, refusal_from, request_failures,
    request_from, requests_for, responded, retained, subscribe_packet, subscribed,
    subscription_from, unsubscribe_packet, wait_for_acks, wait_for_requests, went_down, AckClass,
    AckKindView, AckView, DriverView, FlushStep, FrameView, PendingFlush, RequestView, Said,
    SubscriptionView, WrittenAction,
};
use crate::async_client::{
    DisconnectReason, Event, Notice, NoticeView, Outbox, Outcome, PublishAck, SubscriptionAck,
};
use crate::codec::connect::ServerCapabilities;
use crate::codec::encode::{gives, variable_int_bytes};
use crate::codec::ping::PINGREQ_BYTES;
use crate::codec::properties::{Properties, PropertyId};
use crate::codec::subscribe::{
    encoded_subscribe, encoded_unsubscribe, validate_suback_codes,
};
use crate::codec::topic::{validate_topic_filter, validate_topic_name};
use crate::codec::types::{
    DisconnectPacket, Packet, PubAckPacket, PublishPacket, PublishPacketView, QoS, SubAckPacket,
    SubscribePacket, UnsubAckPacket, UnsubscribePacket,
};
use crate::error::{Error, ErrorKind, IoError, Result};
use crate::frame::{FrameReader, FrameReaderView};
use crate::options::{ConnectOptions, ConnectOptionsView, PublishOptions};
use crate::request_response::RequestCommand;
use crate::text::{same_bytes, same_text};
use crate::time::{Duration, Instant, MAX_INSTANT_NANOS};
use crate::transport::{is_io, oversized_write, write_zero};

verus! {

/// A frame in the outbound queue.
struct OutboundFrame {
    bytes: Vec<u8>,
    offset: usize,
    action: WrittenAction,
    request_correlation: Option<Vec<u8>>,
}

impl View for OutboundFrame {
    type V = FrameView;

    closed spec fn view(&self) -> FrameView {
        FrameView {
            bytes: self.bytes@,
            offset: self.offset,
            action: self.action,
            correlation: match self.request_correlation {
                Some(data) => Some(data@),
                None => None,
            },
        }
    }
}

/// Who waits for an acknowledgement.
enum PendingAckKind {
    Publish { ticket: u64 },
    Subscribe { requested_qos: QoS, ticket: u64 },
    Unsubscribe { filter: String, ticket: u64 },
    RequestPublish { correlation_data: Vec<u8> },
    ResponseSubscribe { response_topic: String },
    Tombstone { expected_ack: AckClass, counts_toward_receive_maximum: bool },
}

impl View for PendingAckKind {
    type V = AckKindView;

    closed spec fn view(&self) -> AckKindView {
        match *self {
            PendingAckKind::Publish { ticket } => AckKindView::Publish { ticket },
            PendingAckKind::Subscribe { requested_qos, ticket } => AckKindView::Subscribe {
                requested_qos,
                ticket,
            },
            PendingAckKind::Unsubscribe { filter, ticket } => AckKindView::Unsubscribe {
                filter: filter@,
                ticket,
            },
            PendingAckKind::RequestPublish { correlation_data } => AckKindView::RequestPublish {
                correlation: correlation_data@,
            },
            PendingAckKind::ResponseSubscribe { response_topic } => {
                AckKindView::ResponseSubscribe { topic: response_topic@ }
            },
            PendingAckKind::Tombstone { expected_ack, counts_toward_receive_maximum } => {
                AckKindView::Tombstone {
                    expected: expected_ack,
                    counts: counts_toward_receive_maximum,
                }
            },
        }
    }
}

impl PendingAckKind {
    fn fail(&self, error: Error, out: &mut Outbox)
        ensures
            final(out)@ == old(out)@ + self@.failure(error),
    {
        match self {
            PendingAckKind::Publish { ticket } => {
                out.complete(*ticket, Outcome::Published(Err(error)));
            },
            PendingAckKind::Subscribe { ticket, .. } => {
                out.complete(*ticket, Outcome::Subscribed(Err(error)));
            },
            PendingAckKind::Unsubscribe { ticket, .. } => {
                out.complete(*ticket, Outcome::Subscribed(Err(error)));
            },
            _ => {},
        }
        assert(out@ =~= old(out)@ + self@.failure(error));
    }

    fn is_qos1_publish(&self) -> (r: bool)
        ensures
            r == self@.is_qos1_publish(),
    {
        match self {
            PendingAckKind::Publish { .. } => true,
            PendingAckKind::RequestPublish { .. } => true,
            PendingAckKind::Tombstone { counts_toward_receive_maximum, .. } => {
                *counts_toward_receive_maximum
            },
            _ => false,
        }
    }

    fn is_tombstone(&self) -> (r: bool)
        ensures
            r == (self@ is Tombstone),
    {
        matches!(self, PendingAckKind::Tombstone { .. })
    }

    fn ack_class(&self) -> (r: AckClass)
        ensures
            r == self@.ack_class(),
    {
        match self {
            PendingAckKind::Publish { .. } => AckClass::Publish,
            PendingAckKind::Subscribe { .. } => AckClass::Subscribe,
            PendingAckKind::Unsubscribe { .. } => AckClass::Unsubscribe,
            PendingAckKind::RequestPublish { .. } => AckClass::Publish,
            PendingAckKind::ResponseSubscribe { .. } => AckClass::Subscribe,
            PendingAckKind::Tombstone { expected_ack, .. } => *expected_ack,
        }
    }

    fn ticket(&self) -> (r: Option<u64>)
        ensures
            r == self@.ticket(),
    {
        match self {
            PendingAckKind::Publish { ticket } => Some(*ticket),
            PendingAckKind::Subscribe { ticket, .. } => Some(*ticket),
            PendingAckKind::Unsubscribe { ticket, .. } => Some(*ticket),
            _ => None,
        }
    }

    fn tombstone(&self) -> (r: Self)
        ensures
            r@ == self@.buried(),
    {
        PendingAckKind::Tombstone {
            expected_ack: self.ack_class(),
            counts_toward_receive_maximum: self.is_qos1_publish(),
        }
    }
}

/// A packet identifier that waits for its acknowledgement.
struct PendingAck {
    packet_id: u16,
    deadline: Instant,
    timeout_label: &'static str,
    kind: PendingAckKind,
}

impl View for PendingAck {
    type V = AckView;

    closed spec fn view(&self) -> AckView {
        AckView {
            packet_id: self.packet_id,
            deadline: self.deadline.spec_nanos(),
            label: self.timeout_label,
            kind: self.kind@,
        }
    }
}

/// A request that waits for its response.
struct PendingRequest {
    correlation_data: Vec<u8>,
    topic: String,
    payload: Vec<u8>,
    response_topic: String,
    qos: QoS,
    properties: Properties,
    deadline: Instant,
    ticket: u64,
    publish_packet_id: Option<u16>,
    published: bool,
}

impl View for PendingRequest {
    type V = RequestView;

    closed spec fn view(&self) -> RequestView {
        RequestView {
            correlation: self.correlation_data@,
            topic: self.topic@,
            payload: self.payload@,
            response_topic: self.response_topic@,
            qos: self.qos,
            properties: self.properties@,
            deadline: self.deadline.spec_nanos(),
            ticket: self.ticket,
            publish_packet_id: self.publish_packet_id,
            published: self.published,
        }
    }
}

/// A response topic: whether the broker has acknowledged the subscription to it.
struct ResponseSubscription {
    topic: String,
    ready: bool,
}

impl View for ResponseSubscription {
    type V = SubscriptionView;

    closed spec fn view(&self) -> SubscriptionView {
        SubscriptionView { topic: self.topic@, ready: self.ready }
    }
}

spec fn ack_views(v: Seq<PendingAck>) -> Seq<AckView> {
    Seq::new(v.len(), |i: int| v[i]@)
}

spec fn frame_views(v: Seq<OutboundFrame>) -> Seq<FrameView> {
    Seq::new(v.len(), |i: int| v[i]@)
}

spec fn request_views(v: Seq<PendingRequest>) -> Seq<RequestView> {
    Seq::new(v.len(), |i: int| v[i]@)
}

spec fn subscription_views(v: Seq<ResponseSubscription>) -> Seq<SubscriptionView> {
    Seq::new(v.len(), |i: int| v[i]@)
}

/// The state of a connection and of the operations on it.
pub struct ConnectionDriver {
    frame_reader: FrameReader,
    outbound: VecDeque<OutboundFrame>,
    outbound_bytes: usize,
    pending_acks: Vec<PendingAck>,
    next_packet_id: u16,
    last_write_at: Instant,
    ping_outstanding_since: Option<Instant>,
    keep_alive_secs: u16,
    peer_max_packet_size: usize,
    peer_receive_maximum: u16,
    server_capabilities: ServerCapabilities,
    max_outbound_queue_bytes: usize,
    max_pending_operations: usize,
    ack_timeout: Duration,
    poll_interval: Duration,
    closing: bool,
    command_channel_closed: bool,
    needs_flush: bool,
    flush_actions: VecDeque<PendingFlush>,
    ping_queued: bool,
    terminal_event_sent: bool,
    pending_requests: Vec<PendingRequest>,
    response_subscriptions: Vec<ResponseSubscription>,
}

impl View for ConnectionDriver {
    type V = DriverView;

    closed spec fn view(&self) -> DriverView {
        DriverView {
            reader: self.frame_reader@,
            outbound: frame_views(self.outbound@),
            outbound_bytes: self.outbound_bytes,
            acks: ack_views(self.pending_acks@),
            next_packet_id: self.next_packet_id,
            last_write_at: self.last_write_at.spec_nanos(),
            ping_since: match self.ping_outstanding_since {
                Some(at) => Some(at.spec_nanos()),
                None => None,
            },
            keep_alive_secs: self.keep_alive_secs,
            peer_max_packet_size: self.peer_max_packet_size,
            peer_receive_maximum: self.peer_receive_maximum,
            capabilities: self.server_capabilities,
            max_outbound_queue_bytes: self.max_outbound_queue_bytes,
            max_pending_operations: self.max_pending_operations,
            ack_timeout: self.ack_timeout.spec_nanos(),
            poll_interval: self.poll_interval.spec_nanos(),
            closing: self.closing,
            command_channel_closed: self.command_channel_closed,
            needs_flush: self.needs_flush,
            flush_actions: self.flush_actions@,
            ping_queued: self.ping_queued,
            terminal_event_sent: self.terminal_event_sent,
            requests: request_views(self.pending_requests@),
            subscriptions: subscription_views(self.response_subscriptions@),
        }
    }
}

fn find_ack(acks: &Vec<PendingAck>, id: u16) -> (r: usize)
    ensures
        r == ack_from(ack_views(acks@), id, 0),
        r <= acks.len(),
{
    let mut i: usize = 0;
    while i < acks.len()
        invariant
            i <= acks.len(),
            ack_from(ack_views(acks@), id, 0) == ack_from(ack_views(acks@), id, i as int),
        decreases acks.len() - i,
    {
        if acks[i].packet_id == id {
            return i;
        }
        i += 1;
    }
    i
}

impl ConnectionDriver {
    /// Whether the state is one that a driver can be in.
    pub closed spec fn wf(&self) -> bool {
        &&& self.frame_reader.wf()
        &&& self@.inv()
    }

    /// A driver that can be called keeps its invariant, which the laws of drivers ask for.
    pub proof fn wf_gives_inv(&self)
        requires
            self.wf(),
        ensures
            self@.inv(),
    {
    }

    /// Whether a deadline for an acknowledgement can be set at this time.
    pub open spec fn can_wait(&self, now: Instant) -> bool {
        now.spec_nanos() + self@.ack_timeout <= MAX_INSTANT_NANOS
    }

    fn reserve_packet_id(&mut self) -> (r: Result<u16>)
        ensures
            (final(self)@, r) == old(self)@.reserve(),
            final(self).frame_reader == old(self).frame_reader,
            r matches Ok(id) ==> !final(self)@.has_ack(id),
            final(self)@ == (DriverView {
                next_packet_id: final(self)@.next_packet_id,
                ..old(self)@
            }),
    {
        let mut tries: u16 = 65535;
        while tries > 0
            invariant
                self@.reserve_within(tries as nat) == old(self)@.reserve(),
                self@ == (DriverView { next_packet_id: self@.next_packet_id, ..old(self)@ }),
                self.frame_reader == old(self).frame_reader,
            decreases tries,
        {
            let packet_id: u16 = self.next_packet_id;
            let ghost before = self@;
            self.next_packet_id = if packet_id == 65535 {
                1
            } else {
                packet_id + 1
            };
            assert(self@ =~= DriverView { next_packet_id: id_after(packet_id), ..before });
            if find_ack(&self.pending_acks, packet_id) == self.pending_acks.len() {
                return Ok(packet_id);
            }
            tries -= 1;
        }
        Err(Error::QueueFull("packet identifiers"))
    }

    fn insert_pending_ack(
        &mut self,
        packet_id: u16,
        kind: PendingAckKind,
        timeout_label: &'static str,
        now: Instant,
    ) -> (r: core::result::Result<(), (Error, PendingAckKind)>)
        requires
            old(self).can_wait(now),
        ensures
            final(self).frame_reader == old(self).frame_reader,
            match old(self)@.await_ack(packet_id, kind@, timeout_label, now.spec_nanos()) {
                (s, Ok(_)) => r is Ok && final(self)@ == s,
                (s, Err(e)) => r matches Err((error, k)) && error == e && k@ == kind@
                    && final(self)@ == s,
            },
    {
        if self.pending_acks.len() >= self.max_pending_operations {
            return Err((Error::QueueFull("pending operation"), kind));
        }
        if let Some(deadline) = now.checked_add(self.ack_timeout) {
            self.pending_acks.push(PendingAck { packet_id, deadline, timeout_label, kind });
        }
        assert(self@ =~= old(self)@.await_ack(packet_id, kind@, timeout_label, now.spec_nanos()).0);
        Ok(())
    }

    fn enqueue(
        &mut self,
        bytes: Vec<u8>,
        action: WrittenAction,
        request_correlation: Option<Vec<u8>>,
    ) -> (r: Result<()>)
        ensures
            final(self).frame_reader == old(self).frame_reader,
            (final(self)@, r) == old(self)@.enqueue(
                bytes@,
                action,
                match request_correlation {
                    Some(data) => Some(data@),
                    None => None,
                },
            ),
    {
        if bytes.len() > self.peer_max_packet_size {
            return Err(
                Error::PacketTooLarge { size: bytes.len(), max: self.peer_max_packet_size },
            );
        }
        match self.outbound_bytes.checked_add(bytes.len()) {
            None => {
                return Err(Error::QueueFull("outbound bytes"));
            },
            Some(next_size) => {
                if next_size > self.max_outbound_queue_bytes {
                    return Err(Error::QueueFull("outbound bytes"));
                }
                self.outbound_bytes = next_size;
            },
        }
        let frame = OutboundFrame { bytes, offset: 0, action, request_correlation };
        let ghost view = frame@;
        self.outbound.push_back(frame);
        assert(self@.outbound =~= old(self)@.outbound.push(view));
        Ok(())
    }

    fn remove_ack(&mut self, packet_id: u16) -> (r: Option<PendingAck>)
        ensures
            final(self).frame_reader == old(self).frame_reader,
            final(self)@ == old(self)@.without_ack(packet_id),
            match r {
                Some(ack) => old(self)@.has_ack(packet_id) && ack@ == old(self)@.acks[ack_from(
                    old(self)@.acks,
                    packet_id,
                    0,
                )],
                None => !old(self)@.has_ack(packet_id),
            },
    {
        let i: usize = find_ack(&self.pending_acks, packet_id);
        if i < self.pending_acks.len() {
            let ack = self.pending_acks.remove(i);
            assert(self@.acks =~= old(self)@.acks.remove(i as int));
            assert(self@ =~= old(self)@.without_ack(packet_id));
            Some(ack)
        } else {
            None
        }
    }

    fn send_awaited(
        &mut self,
        packet_id: u16,
        bytes: Vec<u8>,
        kind: PendingAckKind,
        timeout_label: &'static str,
        now: Instant,
        out: &mut Outbox,
    )
        requires
            old(self).can_wait(now),
            !old(self)@.has_ack(packet_id),
        ensures
            final(self).frame_reader == old(self).frame_reader,
            (final(self)@, final(out)@) == ({
                let (s, says) = old(self)@.send_awaited(
                    packet_id,
                    bytes@,
                    kind@,
                    timeout_label,
                    now.spec_nanos(),
                );
                (s, old(out)@ + says)
            }),
    {
        let ghost before = self@;
        if let Err((error, kind)) = self.insert_pending_ack(packet_id, kind, timeout_label, now) {
            kind.fail(error, out);
            return;
        }
        let ghost waiting = self@;
        proof {
            pushed_ack_is_found(before.acks, waiting.acks.last());
        }
        if let Err(error) = self.enqueue(bytes, WrittenAction::Nothing, None) {
            if let Some(pending) = self.remove_ack(packet_id) {
                pending.kind.fail(error, out);
            }
        } else {
            assert(out@ =~= old(out)@ + Seq::<NoticeView>::empty());
        }
    }
}

impl ConnectionDriver {
    fn begin_publish(
        &mut self,
        topic: String,
        payload: Vec<u8>,
        options: PublishOptions,
        ticket: u64,
        now: Instant,
        out: &mut Outbox,
    )
        requires
            old(self).can_wait(now),
        ensures
            final(self).frame_reader == old(self).frame_reader,
            (final(self)@, final(out)@) == ({
                let (s, says) = old(self)@.begin_publish(
                    topic@,
                    payload@,
                    options@,
                    ticket,
                    now.spec_nanos(),
                );
                (s, old(out)@ + says)
            }),
    {
        let ghost start = self@;
        let ghost said = out@;
        if let Err(error) = validate_topic_name(topic.as_str()) {
            out.complete(ticket, Outcome::Published(Err(error)));
            assert(out@ =~= said + seq![published(ticket, Err(error))]);
            return;
        }
        if let Err(error) = self.server_capabilities.validate_publish(options.qos, options.retain) {
            out.complete(ticket, Outcome::Published(Err(error)));
            assert(out@ =~= said + seq![published(ticket, Err(error))]);
            return;
        }
        let packet_id: Option<u16> = if options.qos == QoS::AtLeastOnce {
            match self.reserve_packet_id() {
                Ok(id) => Some(id),
                Err(error) => {
                    out.complete(ticket, Outcome::Published(Err(error)));
                    assert(out@ =~= said + seq![published(ticket, Err(error))]);
                    return;
                },
            }
        } else {
            None
        };
        let packet = PublishPacket {
            topic,
            packet_id,
            payload,
            qos: options.qos,
            retain: options.retain,
            dup: false,
            properties: options.properties,
        };
        let bytes = match packet.encode() {
            Ok(bytes) => bytes,
            Err(error) => {
                out.complete(ticket, Outcome::Published(Err(error)));
                assert(out@ =~= said + seq![published(ticket, Err(error))]);
                return;
            },
        };
        if let Some(packet_id) = packet_id {
            if self.outgoing_qos1_count() >= self.peer_receive_maximum as usize {
                let error = Error::QueueFull("broker receive maximum");
                out.complete(ticket, Outcome::Published(Err(error)));
                assert(out@ =~= said + seq![published(ticket, Err(error))]);
                return;
            }
            self.send_awaited(
                packet_id,
                bytes,
                PendingAckKind::Publish { ticket },
                "publish acknowledgement",
                now,
                out,
            );
        } else {
            if let Err(error) = self.enqueue(bytes, WrittenAction::PublishQos0 { ticket }, None) {
                out.complete(ticket, Outcome::Published(Err(error)));
                assert(out@ =~= said + seq![published(ticket, Err(error))]);
            } else {
                assert(out@ =~= said + Seq::<NoticeView>::empty());
            }
        }
    }

    /// How many PUBLISH packets of QoS 1 the broker may still have to acknowledge, those
    /// that nobody waits for any more among them.
    pub fn outgoing_qos1_count(&self) -> (r: usize)
        ensures
            r == qos1_count(self@.acks, self@.acks.len()),
    {
        let mut count: usize = 0;
        let mut i: usize = 0;
        while i < self.pending_acks.len()
            invariant
                i <= self.pending_acks.len(),
                count == qos1_count(self@.acks, i as nat),
                count <= i,
            decreases self.pending_acks.len() - i,
        {
            if self.pending_acks[i].kind.is_qos1_publish() {
                count += 1;
            }
            i += 1;
        }
        count
    }

    fn begin_subscribe(
        &mut self,
        filter: String,
        qos: QoS,
        ticket: u64,
        now: Instant,
        out: &mut Outbox,
    )
        requires
            old(self).can_wait(now),
        ensures
            final(self).frame_reader == old(self).frame_reader,
            (final(self)@, final(out)@) == ({
                let (s, says) = old(self)@.begin_subscribe(filter@, qos, ticket, now.spec_nanos());
                (s, old(out)@ + says)
            }),
    {
        let ghost said = out@;
        if let Err(error) = self.server_capabilities.validate_subscription_filter(
            filter.as_str(),
        ) {
            out.complete(ticket, Outcome::Subscribed(Err(error)));
            assert(out@ =~= said + seq![subscribed(ticket, Err(error))]);
            return;
        }
        let packet_id: u16 = match self.reserve_packet_id() {
            Ok(id) => id,
            Err(error) => {
                out.complete(ticket, Outcome::Subscribed(Err(error)));
                assert(out@ =~= said + seq![subscribed(ticket, Err(error))]);
                return;
            },
        };
        let bytes = match encode_subscribe(packet_id, filter, qos) {
            Ok(bytes) => bytes,
            Err(error) => {
                out.complete(ticket, Outcome::Subscribed(Err(error)));
                assert(out@ =~= said + seq![subscribed(ticket, Err(error))]);
                return;
            },
        };
        self.send_awaited(
            packet_id,
            bytes,
            PendingAckKind::Subscribe { requested_qos: qos, ticket },
            "subscription acknowledgement",
            now,
            out,
        );
    }

    fn begin_unsubscribe(&mut self, filter: String, ticket: u64, now: Instant, out: &mut Outbox)
        requires
            old(self).can_wait(now),
        ensures
            final(self).frame_reader == old(self).frame_reader,
            (final(self)@, final(out)@) == ({
                let (s, says) = old(self)@.begin_unsubscribe(filter@, ticket, now.spec_nanos());
                (s, old(out)@ + says)
            }),
    {
        let ghost said = out@;
        if let Err(error) = validate_topic_filter(filter.as_str()) {
            out.complete(ticket, Outcome::Subscribed(Err(error)));
            assert(out@ =~= said + seq![subscribed(ticket, Err(error))]);
            return;
        }
        let packet_id: u16 = match self.reserve_packet_id() {
            Ok(id) => id,
            Err(error) => {
                out.complete(ticket, Outcome::Subscribed(Err(error)));
                assert(out@ =~= said + seq![subscribed(ticket, Err(error))]);
                return;
            },
        };
        let bytes = match encode_unsubscribe(packet_id, filter.clone()) {
            Ok(bytes) => bytes,
            Err(error) => {
                out.complete(ticket, Outcome::Subscribed(Err(error)));
                assert(out@ =~= said + seq![subscribed(ticket, Err(error))]);
                return;
            },
        };
        self.send_awaited(
            packet_id,
            bytes,
            PendingAckKind::Unsubscribe { filter, ticket },
            "unsubscribe acknowledgement",
            now,
            out,
        );
    }

    fn begin_disconnect(&mut self, ticket: u64, out: &mut Outbox)
        ensures
            final(self).frame_reader == old(self).frame_reader,
            (final(self)@, final(out)@) == ({
                let (s, says) = old(self)@.begin_disconnect(ticket);
                (s, old(out)@ + says)
            }),
    {
        let ghost said = out@;
        let bytes = encode_goodbye();
        if let Err(error) = self.enqueue(bytes, WrittenAction::Disconnect { ticket }, None) {
            out.complete(ticket, Outcome::Disconnected(Err(error)));
            assert(out@ =~= said + seq![disconnected(ticket, Err(error))]);
            self.closing = false;
        } else {
            assert(out@ =~= said + Seq::<NoticeView>::empty());
            self.closing = true;
        }
    }

    fn begin_abandoned_disconnect(&mut self) -> (r: Result<()>)
        ensures
            final(self).frame_reader == old(self).frame_reader,
            (final(self)@, r) == old(self)@.begin_abandoned_disconnect(),
    {
        if self.closing || !self.command_channel_closed {
            return Ok(());
        }
        self.closing = true;
        assert(self@ =~= (DriverView { closing: true, ..old(self)@ }));
        let bytes = encode_goodbye();
        self.enqueue(bytes, WrittenAction::AbandonedDisconnect, None)
    }
}

fn find_request(requests: &Vec<PendingRequest>, correlation_data: &[u8]) -> (r: usize)
    ensures
        r == request_from(request_views(requests@), correlation_data@, 0),
        r <= requests.len(),
{
    let mut i: usize = 0;
    while i < requests.len()
        invariant
            i <= requests.len(),
            request_from(request_views(requests@), correlation_data@, 0) == request_from(
                request_views(requests@),
                correlation_data@,
                i as int,
            ),
        decreases requests.len() - i,
    {
        if same_bytes(requests[i].correlation_data.as_slice(), correlation_data) {
            return i;
        }
        i += 1;
    }
    i
}

fn find_subscription(subscriptions: &Vec<ResponseSubscription>, topic: &str) -> (r: usize)
    ensures
        r == subscription_from(subscription_views(subscriptions@), topic@, 0),
        r <= subscriptions.len(),
{
    let mut i: usize = 0;
    while i < subscriptions.len()
        invariant
            i <= subscriptions.len(),
            subscription_from(subscription_views(subscriptions@), topic@, 0) == subscription_from(
                subscription_views(subscriptions@),
                topic@,
                i as int,
            ),
        decreases subscriptions.len() - i,
    {
        if same_text(subscriptions[i].topic.as_str(), topic) {
            return i;
        }
        i += 1;
    }
    i
}

impl OutboundFrame {
    fn is_unsent_request(&self, correlation_data: &[u8]) -> (r: bool)
        ensures
            r == is_unsent_request(self@, correlation_data@),
    {
        self.offset == 0 && match &self.request_correlation {
            Some(data) => same_bytes(data.as_slice(), correlation_data),
            None => false,
        }
    }
}

impl ConnectionDriver {
    fn remove_request(&mut self, correlation_data: &[u8], out: &mut Outbox) -> (r: Option<
        PendingRequest,
    >)
        ensures
            final(self).frame_reader == old(self).frame_reader,
            ({
                let (s, says, pending) = old(self)@.remove_request(correlation_data@);
                &&& final(self)@ == s
                &&& final(out)@ == old(out)@ + says
                &&& match pending {
                    Some(p) => r matches Some(request) && request@ == p,
                    None => r is None,
                }
            }),
    {
        let i: usize = find_request(&self.pending_requests, correlation_data);
        if i == self.pending_requests.len() {
            assert(out@ =~= old(out)@ + Seq::<NoticeView>::empty());
            return None;
        }
        let pending = self.pending_requests.remove(i);
        assert(self@.requests =~= old(self)@.requests.remove(i as int));
        out.push(Notice::Released(slice_to_vec(correlation_data)));
        assert(out@ =~= old(out)@ + seq![NoticeView::Released(correlation_data@)]);
        // A frame that has not started can be safely removed. Once any prefix
        // is written, its remainder must stay queued to preserve stream framing.
        let removed_unsent_publish = self.drop_unsent(correlation_data);
        if let Some(packet_id) = pending.publish_packet_id {
            self.release_request_ack(packet_id, correlation_data, removed_unsent_publish);
        }
        Some(pending)
    }

    fn drop_unsent(&mut self, correlation_data: &[u8]) -> (r: bool)
        ensures
            final(self).frame_reader == old(self).frame_reader,
            final(self)@ == (DriverView {
                outbound: retained(old(self)@.outbound, correlation_data@),
                outbound_bytes: bytes_left(
                    old(self)@.outbound_bytes,
                    old(self)@.outbound,
                    correlation_data@,
                ),
                ..old(self)@
            }),
            r == exists|j: int|
                0 <= j < old(self)@.outbound.len() && is_unsent_request(
                    #[trigger] old(self)@.outbound[j],
                    correlation_data@,
                ),
    {
        let mut frames: VecDeque<OutboundFrame> = VecDeque::new();
        std::mem::swap(&mut frames, &mut self.outbound);
        let ghost all = frame_views(frames@);
        assert(all.take(0) =~= Seq::empty());
        assert(all.skip(0) =~= all);
        assert(frame_views(self.outbound@) =~= Seq::empty());
        let mut removed = false;
        let ghost mut k: int = 0;
        while frames.len() > 0
            invariant
                0 <= k <= all.len(),
                frame_views(frames@) == all.skip(k),
                all == old(self)@.outbound,
                self.frame_reader == old(self).frame_reader,
                self@ == (DriverView {
                    outbound: retained(all.take(k), correlation_data@),
                    outbound_bytes: bytes_left(
                        old(self)@.outbound_bytes,
                        all.take(k),
                        correlation_data@,
                    ),
                    ..old(self)@
                }),
                removed == exists|j: int|
                    0 <= j < k && is_unsent_request(#[trigger] all[j], correlation_data@),
            decreases frames.len(),
        {
            let ghost before = self@;
            let ghost waiting = frame_views(frames@);
            if let Some(frame) = frames.pop_front() {
                assert(waiting.len() == all.len() - k);
                assert(waiting[0] == all[k]);
                assert(waiting[0] == frame@);
                assert(all.take(k + 1).drop_last() =~= all.take(k));
                assert(all.take(k + 1).last() == frame@);
                assert(frame_views(frames@) =~= waiting.skip(1));
                assert(waiting.skip(1) =~= all.skip(k + 1));
                if frame.is_unsent_request(correlation_data) {
                    self.outbound_bytes = self.outbound_bytes.saturating_sub(frame.bytes.len());
                    removed = true;
                } else {
                    self.outbound.push_back(frame);
                    assert(self@.outbound =~= before.outbound.push(frame@));
                }
                proof {
                    k = k + 1;
                }
            }
        }
        assert(k == all.len()) by {
            assert(frame_views(frames@).len() == all.len() - k);
        }
        assert(all.take(all.len() as int) =~= all);
        removed
    }

    fn release_request_ack(&mut self, packet_id: u16, correlation_data: &[u8], unsent: bool)
        ensures
            final(self).frame_reader == old(self).frame_reader,
            final(self)@ == old(self)@.release_request_ack(packet_id, correlation_data@, unsent),
    {
        let i: usize = find_ack(&self.pending_acks, packet_id);
        if i == self.pending_acks.len() {
            return;
        }
        assert(self@.acks[i as int] == self.pending_acks@[i as int]@);
        let owned = match &self.pending_acks[i].kind {
            PendingAckKind::RequestPublish { correlation_data: data } => same_bytes(
                data.as_slice(),
                correlation_data,
            ),
            _ => false,
        };
        if owned {
            if unsent {
                let _ = self.remove_ack(packet_id);
            } else {
                let kind = self.pending_acks[i].kind.tombstone();
                self.set_ack_kind(i, kind);
            }
        }
    }

    fn set_ack_kind(&mut self, i: usize, kind: PendingAckKind)
        requires
            i < old(self)@.acks.len(),
        ensures
            final(self).frame_reader == old(self).frame_reader,
            final(self)@ == (DriverView {
                acks: old(self)@.acks.update(
                    i as int,
                    AckView { kind: kind@, ..old(self)@.acks[i as int] },
                ),
                ..old(self)@
            }),
    {
        self.pending_acks[i].kind = kind;
        assert(self@.acks =~= old(self)@.acks.update(
            i as int,
            AckView { kind: kind@, ..old(self)@.acks[i as int] },
        ));
    }

    fn fail_request(&mut self, correlation_data: &[u8], error: Error, out: &mut Outbox)
        ensures
            final(self).frame_reader == old(self).frame_reader,
            (final(self)@, final(out)@) == ({
                let (s, says) = old(self)@.fail_request(correlation_data@, error);
                (s, old(out)@ + says)
            }),
    {
        let ghost said = out@;
        if let Some(pending) = self.remove_request(correlation_data, out) {
            out.complete(pending.ticket, Outcome::Response(Err(error)));
            assert(out@ =~= said + old(self)@.fail_request(correlation_data@, error).1);
        }
    }
}

impl ConnectionDriver {
    /// The correlation data of the requests with this response topic, all or only those
    /// that were not published yet.
    fn requests_for(&self, response_topic: &str, unpublished_only: bool) -> (r: Vec<Vec<u8>>)
        ensures
            byte_views(r@) == requests_for(self@.requests, response_topic@, unpublished_only),
    {
        let ghost all = self@.requests;
        let mut r: Vec<Vec<u8>> = Vec::new();
        let mut i: usize = 0;
        assert(all.take(0) =~= Seq::empty());
        assert(byte_views(r@) =~= Seq::empty());
        while i < self.pending_requests.len()
            invariant
                i <= self.pending_requests.len(),
                all == self@.requests,
                byte_views(r@) == requests_for(
                    all.take(i as int),
                    response_topic@,
                    unpublished_only,
                ),
            decreases self.pending_requests.len() - i,
        {
            let pending = &self.pending_requests[i];
            let ghost before = byte_views(r@);
            assert(all[i as int] == pending@);
            assert(all.take(i + 1).drop_last() =~= all.take(i as int));
            assert(all.take(i + 1).last() == pending@);
            if !(unpublished_only && pending.published) && same_text(
                pending.response_topic.as_str(),
                response_topic,
            ) {
                r.push(pending.correlation_data.clone());
                assert(byte_views(r@) =~= before.push(pending.correlation_data@));
            }
            i += 1;
        }
        assert(all.take(i as int) =~= all);
        r
    }

    fn fail_requests_for_topic(&mut self, response_topic: &str, error: Error, out: &mut Outbox)
        ensures
            final(self).frame_reader == old(self).frame_reader,
            (final(self)@, final(out)@) == ({
                let (s, says) = old(self)@.fail_requests_for_topic(response_topic@, error);
                (s, old(out)@ + says)
            }),
    {
        let correlations = self.requests_for(response_topic, false);
        let ghost all = byte_views(correlations@);
        let ghost goal = old(self)@.fail_all(all, error);
        let mut i: usize = 0;
        assert(all.skip(0) =~= all);
        assert(goal.1 =~= Seq::<NoticeView>::empty() + goal.1);
        while i < correlations.len()
            invariant
                i <= correlations.len(),
                all == byte_views(correlations@),
                self.frame_reader == old(self).frame_reader,
                goal.0 == self@.fail_all(all.skip(i as int), error).0,
                old(out)@ + goal.1 == out@ + self@.fail_all(all.skip(i as int), error).1,
            decreases correlations.len() - i,
        {
            let ghost before = self@;
            let ghost said = out@;
            assert(all.skip(i as int)[0] == correlations@[i as int]@);
            assert(all.skip(i as int).skip(1) =~= all.skip(i + 1));
            self.fail_request(correlations[i].as_slice(), error.clone(), out);
            proof {
                let (s, first) = before.fail_request(all[i as int], error);
                let rest = s.fail_all(all.skip(i + 1), error).1;
                assert(said + (first + rest) =~= said + first + rest);
            }
            i += 1;
        }
        assert(out@ =~= out@ + Seq::<NoticeView>::empty());
    }

    fn publish_request(&mut self, correlation_data: &[u8], now: Instant) -> (r: Result<()>)
        requires
            old(self).can_wait(now),
        ensures
            final(self).frame_reader == old(self).frame_reader,
            final(self)@.ack_timeout == old(self)@.ack_timeout,
            (final(self)@, r) == old(self)@.publish_request(correlation_data@, now.spec_nanos()),
    {
        let i: usize = find_request(&self.pending_requests, correlation_data);
        if i == self.pending_requests.len() {
            return Ok(());
        }
        if self.pending_requests[i].published {
            return Ok(());
        }
        let ghost pending = self@.requests[i as int];
        assert(pending == self.pending_requests@[i as int]@);
        proof {
            found_request(self@.requests, correlation_data@, 0);
        }
        let qos = self.pending_requests[i].qos;
        let packet_id: Option<u16> = if qos == QoS::AtLeastOnce {
            if self.outgoing_qos1_count() >= self.peer_receive_maximum as usize {
                return Err(Error::QueueFull("broker receive maximum"));
            }
            Some(self.reserve_packet_id()?)
        } else {
            None
        };
        let request = &self.pending_requests[i];
        assert(request@ == self@.requests[i as int]);
        let packet = PublishPacket {
            topic: request.topic.clone(),
            packet_id,
            payload: request.payload.clone(),
            qos,
            retain: false,
            dup: false,
            properties: request.properties.clone(),
        };
        assert(packet@ =~= DriverView::request_packet(pending, packet_id));
        let bytes = packet.encode()?;
        if let Some(id) = packet_id {
            let kind = PendingAckKind::RequestPublish {
                correlation_data: slice_to_vec(correlation_data),
            };
            if let Err((error, _)) = self.insert_pending_ack(
                id,
                kind,
                "request publish acknowledgement",
                now,
            ) {
                return Err(error);
            }
        }
        self.send_request(i, packet_id, bytes)
    }

    fn send_request(&mut self, i: usize, packet_id: Option<u16>, bytes: Vec<u8>) -> (r: Result<()>)
        requires
            i < old(self)@.requests.len(),
        ensures
            final(self).frame_reader == old(self).frame_reader,
            (final(self)@, r) == old(self)@.send_request(i as int, packet_id, bytes@),
    {
        let correlation = self.pending_requests[i].correlation_data.clone();
        assert(correlation@ == self@.requests[i as int].correlation);
        if let Err(error) = self.enqueue(bytes, WrittenAction::Nothing, Some(correlation)) {
            if let Some(id) = packet_id {
                let _ = self.remove_ack(id);
            }
            return Err(error);
        }
        let ghost queued = self@;
        self.pending_requests[i].published = true;
        self.pending_requests[i].publish_packet_id = packet_id;
        assert(self@.requests =~= queued.requests.update(
            i as int,
            RequestView {
                published: true,
                publish_packet_id: packet_id,
                ..old(self)@.requests[i as int]
            },
        ));
        Ok(())
    }

    fn publish_waiting_requests(&mut self, response_topic: &str, now: Instant, out: &mut Outbox)
        requires
            old(self).can_wait(now),
        ensures
            final(self).frame_reader == old(self).frame_reader,
            (final(self)@, final(out)@) == ({
                let (s, says) = old(self)@.publish_waiting(response_topic@, now.spec_nanos());
                (s, old(out)@ + says)
            }),
    {
        let correlations = self.requests_for(response_topic, true);
        let ghost all = byte_views(correlations@);
        let ghost at = now.spec_nanos();
        let ghost goal = old(self)@.publish_all(all, at);
        let mut i: usize = 0;
        assert(all.skip(0) =~= all);
        while i < correlations.len()
            invariant
                i <= correlations.len(),
                all == byte_views(correlations@),
                at == now.spec_nanos(),
                self.can_wait(now),
                self.frame_reader == old(self).frame_reader,
                goal.0 == self@.publish_all(all.skip(i as int), at).0,
                old(out)@ + goal.1 == out@ + self@.publish_all(all.skip(i as int), at).1,
            decreases correlations.len() - i,
        {
            let ghost before = self@;
            let ghost said = out@;
            assert(all.skip(i as int)[0] == correlations@[i as int]@);
            assert(all.skip(i as int).skip(1) =~= all.skip(i + 1));
            if let Err(error) = self.publish_request(correlations[i].as_slice(), now) {
                self.fail_request(correlations[i].as_slice(), error, out);
            }
            proof {
                let (s, first) = match before.publish_request(all[i as int], at) {
                    (s, Ok(_)) => (s, Seq::empty()),
                    (s, Err(e)) => s.fail_request(all[i as int], e),
                };
                let rest = s.publish_all(all.skip(i + 1), at).1;
                assert(said + (first + rest) =~= said + first + rest);
                assert(said + Seq::<NoticeView>::empty() =~= said);
                assert(out@ == said + first);
            }
            i += 1;
        }
        assert(out@ =~= out@ + Seq::<NoticeView>::empty());
    }

    fn remove_subscription(&mut self, topic: &str)
        ensures
            final(self).frame_reader == old(self).frame_reader,
            final(self)@ == old(self)@.without_subscription(topic@),
    {
        let i: usize = find_subscription(&self.response_subscriptions, topic);
        if i < self.response_subscriptions.len() {
            let _ = self.response_subscriptions.remove(i);
            assert(self@.subscriptions =~= old(self)@.subscriptions.remove(i as int));
        }
    }

    fn add_subscription(&mut self, topic: &str)
        ensures
            final(self).frame_reader == old(self).frame_reader,
            final(self)@ == old(self)@.with_subscription(topic@),
    {
        let i: usize = find_subscription(&self.response_subscriptions, topic);
        let subscription = ResponseSubscription { topic: topic.to_owned(), ready: false };
        let ghost view = subscription@;
        if i < self.response_subscriptions.len() {
            self.response_subscriptions[i] = subscription;
            assert(self@.subscriptions =~= old(self)@.subscriptions.update(i as int, view));
        } else {
            self.response_subscriptions.push(subscription);
            assert(self@.subscriptions =~= old(self)@.subscriptions.push(view));
        }
    }

    fn mark_subscription_ready(&mut self, topic: &str)
        ensures
            final(self).frame_reader == old(self).frame_reader,
            final(self)@ == old(self)@.with_ready_subscription(topic@),
    {
        let i: usize = find_subscription(&self.response_subscriptions, topic);
        let subscription = ResponseSubscription { topic: topic.to_owned(), ready: true };
        let ghost view = subscription@;
        if i < self.response_subscriptions.len() {
            self.response_subscriptions[i] = subscription;
            assert(self@.subscriptions =~= old(self)@.subscriptions.update(i as int, view));
        } else if self.response_subscriptions.len() < self.max_pending_operations {
            self.response_subscriptions.push(subscription);
            assert(self@.subscriptions =~= old(self)@.subscriptions.push(view));
        }
    }

    fn subscribe_for_responses(&mut self, response_topic: String, now: Instant) -> (r: Result<()>)
        requires
            old(self).can_wait(now),
        ensures
            final(self).frame_reader == old(self).frame_reader,
            (final(self)@, r) == old(self)@.subscribe_for_responses(
                response_topic@,
                now.spec_nanos(),
            ),
    {
        let packet_id: u16 = self.reserve_packet_id()?;
        let bytes = encode_subscribe(packet_id, response_topic.clone(), QoS::AtLeastOnce)?;
        let kind = PendingAckKind::ResponseSubscribe { response_topic: response_topic.clone() };
        if let Err((error, _)) = self.insert_pending_ack(
            packet_id,
            kind,
            "request subscription acknowledgement",
            now,
        ) {
            return Err(error);
        }
        self.add_subscription(response_topic.as_str());
        if let Err(error) = self.enqueue(bytes, WrittenAction::Nothing, None) {
            let _ = self.remove_ack(packet_id);
            self.remove_subscription(response_topic.as_str());
            return Err(error);
        }
        Ok(())
    }

    fn check_request(&self, request: &RequestCommand, now: Instant) -> (r: Result<Instant>)
        ensures
            match self@.request_check(request@, now.spec_nanos()) {
                Ok(_) => r matches Ok(deadline) && deadline.spec_nanos() == now.spec_nanos()
                    + request@.timeout.spec_nanos(),
                Err(e) => r == Err::<Instant, _>(e),
            },
    {
        if request.timeout.is_zero() {
            return Err(Error::InvalidOptions("request timeout must be non-zero"));
        }
        validate_topic_name(request.topic.as_str())?;
        self.server_capabilities.validate_publish(request.qos, false)?;
        if self.pending_requests.len() >= self.max_pending_operations {
            return Err(Error::QueueFull("pending request"));
        }
        if find_request(&self.pending_requests, request.correlation_data.as_slice())
            < self.pending_requests.len() {
            return Err(Error::MalformedPacket("duplicate request correlation data"));
        }
        match now.checked_add(request.timeout) {
            Some(deadline) => Ok(deadline),
            None => Err(Error::InvalidOptions("request timeout is too large")),
        }
    }

    fn route_request(&mut self, correlation_data: &[u8], response_topic: String, now: Instant) -> (r:
        Result<()>)
        requires
            old(self).can_wait(now),
        ensures
            final(self).frame_reader == old(self).frame_reader,
            (final(self)@, r) == old(self)@.route_request(
                correlation_data@,
                response_topic@,
                now.spec_nanos(),
            ),
    {
        let i: usize = find_subscription(&self.response_subscriptions, response_topic.as_str());
        if i < self.response_subscriptions.len() {
            if self.response_subscriptions[i].ready {
                self.publish_request(correlation_data, now)
            } else {
                Ok(())
            }
        } else if self.response_subscriptions.len() >= self.max_pending_operations {
            Err(Error::QueueFull("response subscriptions"))
        } else {
            self.subscribe_for_responses(response_topic, now)
        }
    }

    fn begin_request(
        &mut self,
        request: RequestCommand,
        ticket: u64,
        cancelled: bool,
        now: Instant,
        out: &mut Outbox,
    )
        requires
            old(self).can_wait(now),
        ensures
            final(self).frame_reader == old(self).frame_reader,
            (final(self)@, final(out)@) == ({
                let (s, says) = old(self)@.begin_request(
                    request@,
                    ticket,
                    cancelled,
                    now.spec_nanos(),
                );
                (s, old(out)@ + says)
            }),
    {
        let ghost said = out@;
        if cancelled {
            assert(out@ =~= said + Seq::<NoticeView>::empty());
            return;
        }
        let deadline = match self.check_request(&request, now) {
            Ok(deadline) => deadline,
            Err(error) => {
                out.push(Notice::Released(request.correlation_data.clone()));
                out.complete(ticket, Outcome::Response(Err(error)));
                assert(out@ =~= said + seq![
                    NoticeView::Released(request@.correlation_data),
                    responded(ticket, Err(error)),
                ]);
                return;
            },
        };
        let correlation_data = request.correlation_data.clone();
        let response_topic = request.response_topic.clone();
        let pending = PendingRequest {
            correlation_data: request.correlation_data,
            topic: request.topic,
            payload: request.payload,
            response_topic: request.response_topic,
            qos: request.qos,
            properties: request.properties,
            deadline,
            ticket,
            publish_packet_id: None,
            published: false,
        };
        let ghost view = pending@;
        self.pending_requests.push(pending);
        assert(self@ =~= DriverView { requests: old(self)@.requests.push(view), ..old(self)@ });
        if let Err(error) = self.route_request(correlation_data.as_slice(), response_topic, now) {
            self.fail_request(correlation_data.as_slice(), error, out);
        } else {
            assert(out@ =~= said + Seq::<NoticeView>::empty());
        }
    }
}

proof fn found_request(requests: Seq<RequestView>, correlation: Seq<u8>, i: int)
    requires
        0 <= i,
    ensures
        request_from(requests, correlation, i) < requests.len() ==> requests[request_from(
            requests,
            correlation,
            i,
        )].correlation == correlation,
    decreases requests.len() - i,
{
    if i < requests.len() {
        found_request(requests, correlation, i + 1);
    }
}

impl ConnectionDriver {
    fn take_pending_ack(&mut self, packet_id: u16, received: AckClass) -> (r: Result<
        Option<PendingAck>,
    >)
        ensures
            final(self).frame_reader == old(self).frame_reader,
            ({
                let (s, taken) = old(self)@.take_ack(packet_id, received);
                &&& final(self)@ == s
                &&& match taken {
                    Ok(Some(ack)) => r matches Ok(Some(pending)) && pending@ == ack,
                    Ok(None) => r matches Ok(None),
                    Err(e) => r == Err::<Option<PendingAck>, _>(e),
                }
            }),
    {
        let i: usize = find_ack(&self.pending_acks, packet_id);
        if i == self.pending_acks.len() {
            return Ok(None);
        }
        assert(self@.acks[i as int] == self.pending_acks@[i as int]@);
        if self.pending_acks[i].kind.ack_class() != received {
            return Err(
                Error::UnexpectedPacket("acknowledgement type does not match pending packet id"),
            );
        }
        let pending = self.pending_acks.remove(i);
        assert(self@.acks =~= old(self)@.acks.remove(i as int));
        Ok(Some(pending))
    }

    fn dispatch_puback(&mut self, ack: PubAckPacket, out: &mut Outbox) -> (r: Result<()>)
        ensures
            final(self).frame_reader == old(self).frame_reader,
            ({
                let (s, says, result) = old(self)@.dispatch_puback(ack);
                &&& final(self)@ == s
                &&& final(out)@ == old(out)@ + says
                &&& r == result
            }),
    {
        proof {
            reveal(DriverView::dispatch_puback);
        }
        let ghost said = out@;
        assert(said =~= said + Seq::<NoticeView>::empty());
        let pending = match self.take_pending_ack(ack.packet_id, AckClass::Publish)? {
            Some(pending) => pending,
            None => {
                return Ok(());
            },
        };
        match pending.kind {
            PendingAckKind::Publish { ticket } => {
                let result = if ack.reason_code >= 0x80 {
                    Err(Error::AckRejected { packet: "PUBACK", reason_code: ack.reason_code })
                } else {
                    Ok(
                        PublishAck {
                            packet_id: Some(ack.packet_id),
                            reason_code: Some(ack.reason_code),
                        },
                    )
                };
                out.complete(ticket, Outcome::Published(result));
                assert(out@ =~= said + seq![published(ticket, result)]);
            },
            PendingAckKind::RequestPublish { correlation_data } => {
                if ack.reason_code >= 0x80 {
                    self.fail_request(
                        correlation_data.as_slice(),
                        Error::AckRejected { packet: "PUBACK", reason_code: ack.reason_code },
                        out,
                    );
                }
            },
            _ => {},
        }
        Ok(())
    }

    fn dispatch_suback(&mut self, ack: SubAckPacket, now: Instant, out: &mut Outbox) -> (r: Result<
        (),
    >)
        requires
            old(self).can_wait(now),
        ensures
            final(self).frame_reader == old(self).frame_reader,
            ({
                let (s, says, result) = old(self)@.dispatch_suback(ack@, now.spec_nanos());
                &&& final(self)@ == s
                &&& final(out)@ == old(out)@ + says
                &&& r == result
            }),
    {
        proof {
            reveal(DriverView::dispatch_suback);
        }
        let ghost said = out@;
        assert(said =~= said + Seq::<NoticeView>::empty());
        let pending = match self.take_pending_ack(ack.packet_id, AckClass::Subscribe)? {
            Some(pending) => pending,
            None => {
                return Ok(());
            },
        };
        match pending.kind {
            PendingAckKind::Subscribe { requested_qos, ticket } => {
                self.complete_subscribe(ack, requested_qos, ticket, out)
            },
            PendingAckKind::ResponseSubscribe { response_topic } => {
                self.complete_response_subscribe(ack, response_topic, now, out)
            },
            _ => Ok(()),
        }
    }

    fn complete_response_subscribe(
        &mut self,
        ack: SubAckPacket,
        response_topic: String,
        now: Instant,
        out: &mut Outbox,
    ) -> (r: Result<()>)
        requires
            old(self).can_wait(now),
        ensures
            final(self).frame_reader == old(self).frame_reader,
            ({
                let (s, says, result) = old(self)@.complete_response_subscribe(
                    ack@,
                    response_topic@,
                    now.spec_nanos(),
                );
                &&& final(self)@ == s
                &&& final(out)@ == old(out)@ + says
                &&& r == result
            }),
    {
        let requested: [QoS; 1] = [QoS::AtLeastOnce];
        assert(requested@ =~= seq![QoS::AtLeastOnce]);
        match validate_suback_codes(ack.reason_codes.as_slice(), &requested) {
            Ok(()) => {
                self.mark_subscription_ready(response_topic.as_str());
                self.publish_waiting_requests(response_topic.as_str(), now, out);
                Ok(())
            },
            Err(error) => {
                self.remove_subscription(response_topic.as_str());
                self.fail_requests_for_topic(response_topic.as_str(), error.clone(), out);
                if matches!(error, Error::AckRejected { .. }) {
                    Ok(())
                } else {
                    Err(error)
                }
            },
        }
    }

    fn complete_subscribe(
        &mut self,
        ack: SubAckPacket,
        requested_qos: QoS,
        ticket: u64,
        out: &mut Outbox,
    ) -> (r: Result<()>)
        ensures
            final(self).frame_reader == old(self).frame_reader,
            ({
                let (s, says, result) = old(self)@.complete_subscribe(ack@, requested_qos, ticket);
                &&& final(self)@ == s
                &&& final(out)@ == old(out)@ + says
                &&& r == result
            }),
    {
        let ghost said = out@;
        let requested: [QoS; 1] = [requested_qos];
        assert(requested@ =~= seq![requested_qos]);
        match validate_suback_codes(ack.reason_codes.as_slice(), &requested) {
            Ok(()) => {
                let done = SubscriptionAck {
                    packet_id: ack.packet_id,
                    reason_codes: ack.reason_codes,
                };
                out.complete(ticket, Outcome::Subscribed(Ok(done)));
                assert(out@ =~= said + seq![subscribed(ticket, Ok(ack@))]);
                Ok(())
            },
            Err(error) => {
                out.complete(ticket, Outcome::Subscribed(Err(error.clone())));
                assert(out@ =~= said + seq![subscribed(ticket, Err(error))]);
                if matches!(error, Error::AckRejected { .. }) {
                    Ok(())
                } else {
                    Err(error)
                }
            },
        }
    }

    fn dispatch_unsuback(&mut self, ack: UnsubAckPacket, out: &mut Outbox) -> (r: Result<()>)
        ensures
            final(self).frame_reader == old(self).frame_reader,
            ({
                let (s, says, result) = old(self)@.dispatch_unsuback(ack@);
                &&& final(self)@ == s
                &&& final(out)@ == old(out)@ + says
                &&& r == result
            }),
    {
        proof {
            reveal(DriverView::dispatch_unsuback);
        }
        let ghost said = out@;
        assert(said =~= said + Seq::<NoticeView>::empty());
        let pending = match self.take_pending_ack(ack.packet_id, AckClass::Unsubscribe)? {
            Some(pending) => pending,
            None => {
                return Ok(());
            },
        };
        if let PendingAckKind::Unsubscribe { filter, ticket } = pending.kind {
            match validate_reason_codes("UNSUBACK", ack.reason_codes.as_slice(), 1) {
                Ok(()) => {
                    self.remove_subscription(filter.as_str());
                    let done = SubscriptionAck {
                        packet_id: ack.packet_id,
                        reason_codes: ack.reason_codes,
                    };
                    out.complete(ticket, Outcome::Subscribed(Ok(done)));
                    assert(out@ =~= said + seq![subscribed(ticket, Ok(ack@))]);
                },
                Err(error) => {
                    out.complete(ticket, Outcome::Subscribed(Err(error)));
                    assert(out@ =~= said + seq![subscribed(ticket, Err(error))]);
                },
            }
        }
        Ok(())
    }

    fn dispatch_publish(&mut self, packet: PublishPacket, out: &mut Outbox) -> (r: Result<
        Option<PublishPacket>,
    >)
        ensures
            final(self).frame_reader == old(self).frame_reader,
            ({
                let (s, says, result) = old(self)@.dispatch_publish(packet@);
                &&& final(self)@ == s
                &&& final(out)@ == old(out)@ + says
                &&& delivers(r, result)
            }),
    {
        proof {
            reveal(DriverView::dispatch_publish);
        }
        let ghost said = out@;
        assert(said =~= said + Seq::<NoticeView>::empty());
        if packet.qos == QoS::AtLeastOnce {
            let packet_id: u16 = match packet.packet_id {
                Some(packet_id) => packet_id,
                None => {
                    return Err(Error::MalformedPacket("QoS 1 PUBLISH missing packet id"));
                },
            };
            let ack = (PubAckPacket { packet_id, reason_code: 0x00 }).encode()?;
            self.enqueue(ack, WrittenAction::Nothing, None)?;
        }
        if self.try_complete_request(&packet, out) {
            return Ok(None);
        }
        Ok(Some(packet))
    }

    fn try_complete_request(&mut self, packet: &PublishPacket, out: &mut Outbox) -> (r: bool)
        ensures
            final(self).frame_reader == old(self).frame_reader,
            match old(self)@.answered(packet@) {
                Some(i) => {
                    let request = old(self)@.requests[i];
                    let (s, says, _) = old(self)@.remove_request(request.correlation);
                    &&& r
                    &&& final(self)@ == s
                    &&& final(out)@ == old(out)@ + says.push(responded(request.ticket, Ok(packet@)))
                },
                None => !r && final(self)@ == old(self)@ && final(out)@ == old(out)@,
            },
    {
        let correlation_data = match packet.properties.get_binary(PropertyId::CorrelationData) {
            Some(data) => data,
            None => {
                return false;
            },
        };
        let i: usize = find_request(&self.pending_requests, correlation_data);
        if i == self.pending_requests.len() {
            return false;
        }
        assert(self@.requests[i as int] == self.pending_requests@[i as int]@);
        if !same_text(self.pending_requests[i].response_topic.as_str(), packet.topic.as_str()) {
            return false;
        }
        proof {
            found_request(self@.requests, correlation_data@, 0);
        }
        let ghost says = self@.remove_request(correlation_data@).1;
        if let Some(pending) = self.remove_request(correlation_data, out) {
            out.complete(pending.ticket, Outcome::Response(Ok(packet.clone())));
            assert(out@ =~= old(out)@ + says.push(responded(pending.ticket, Ok(packet@))));
        }
        true
    }

    fn fail_pending(&mut self, out: &mut Outbox)
        ensures
            final(self).frame_reader == old(self).frame_reader,
            (final(self)@, final(out)@) == ({
                let (s, says) = old(self)@.fail_pending();
                (s, old(out)@ + says)
            }),
    {
        let ghost said = out@;
        let ghost start = self@;
        let mut acks: Vec<PendingAck> = Vec::new();
        std::mem::swap(&mut acks, &mut self.pending_acks);
        assert(ack_views(acks@) == start.acks);
        assert(out@ =~= said + Seq::<NoticeView>::empty());
        for pending in it: acks
            invariant
                it.seq() == acks@,
                ack_views(acks@) == start.acks,
                out@ == said + ack_failures(start.acks, it.index() as nat),
        {
            let ghost k = it.index() as int;
            assert(start.acks[k] == pending@);
            let ghost so_far = ack_failures(start.acks, k as nat);
            pending.kind.fail(Error::ConnectionClosed, out);
            assert(out@ =~= said + (so_far + pending@.kind.failure(Error::ConnectionClosed)));
        }
        let ghost a = ack_failures(start.acks, start.acks.len());
        let mut frames: VecDeque<OutboundFrame> = VecDeque::new();
        std::mem::swap(&mut frames, &mut self.outbound);
        assert(start.outbound.skip(0) =~= start.outbound);
        assert(frame_views(frames@) == start.outbound);
        assert(out@ =~= said + a + Seq::<NoticeView>::empty());
        let ghost mut k: int = 0;
        while frames.len() > 0
            invariant
                0 <= k <= start.outbound.len(),
                frame_views(frames@) == start.outbound.skip(k),
                out@ == said + a + frame_failures(start.outbound, k as nat),
            decreases frames.len(),
        {
            let ghost waiting = frame_views(frames@);
            if let Some(frame) = frames.pop_front() {
                assert(waiting.len() == start.outbound.len() - k);
                assert(waiting[0] == start.outbound[k]);
                assert(waiting[0] == frame@);
                assert(frame_views(frames@) =~= waiting.skip(1));
                assert(waiting.skip(1) =~= start.outbound.skip(k + 1));
                let ghost so_far = frame_failures(start.outbound, k as nat);
                fail_action(frame.action, Error::ConnectionClosed, out);
                assert(out@ =~= said + a + (so_far + frame@.action.failure(
                    Error::ConnectionClosed,
                )));
                proof {
                    k = k + 1;
                }
            }
        }
        assert(k == start.outbound.len()) by {
            assert(frame_views(frames@).len() == start.outbound.len() - k);
        }
        let ghost b = frame_failures(start.outbound, start.outbound.len());
        let mut flushes: VecDeque<PendingFlush> = VecDeque::new();
        std::mem::swap(&mut flushes, &mut self.flush_actions);
        assert(start.flush_actions.skip(0) =~= start.flush_actions);
        assert(out@ =~= said + a + b + Seq::<NoticeView>::empty());
        let ghost mut n: int = 0;
        while flushes.len() > 0
            invariant
                0 <= n <= start.flush_actions.len(),
                flushes@ == start.flush_actions.skip(n),
                out@ == said + a + b + flush_failures(start.flush_actions, n as nat),
            decreases flushes.len(),
        {
            if let Some(flush) = flushes.pop_front() {
                assert(start.flush_actions[n] == flush);
                assert(flushes@ =~= start.flush_actions.skip(n + 1));
                let ghost so_far = flush_failures(start.flush_actions, n as nat);
                fail_action(flush.action, Error::ConnectionClosed, out);
                assert(out@ =~= said + a + b + (so_far + flush.action.failure(
                    Error::ConnectionClosed,
                )));
                proof {
                    n = n + 1;
                }
            }
        }
        assert(n == start.flush_actions.len());
        let ghost c = flush_failures(start.flush_actions, start.flush_actions.len());
        self.outbound_bytes = 0;
        let mut requests: Vec<PendingRequest> = Vec::new();
        std::mem::swap(&mut requests, &mut self.pending_requests);
        assert(request_views(requests@) == start.requests);
        assert(out@ =~= said + a + b + c + Seq::<NoticeView>::empty());
        for pending in it: requests
            invariant
                it.seq() == requests@,
                request_views(requests@) == start.requests,
                out@ == said + a + b + c + request_failures(start.requests, it.index() as nat),
        {
            let ghost k = it.index() as int;
            assert(start.requests[k] == pending@);
            let ghost so_far = request_failures(start.requests, k as nat);
            let ghost view = pending@;
            out.push(Notice::Released(pending.correlation_data));
            out.complete(pending.ticket, Outcome::Response(Err(Error::ConnectionClosed)));
            assert(out@ =~= said + a + b + c + (so_far + seq![
                NoticeView::Released(view.correlation),
                responded(view.ticket, Err(Error::ConnectionClosed)),
            ]));
        }
        let ghost d = request_failures(start.requests, start.requests.len());
        assert(out@ =~= said + (a + b + c + d));
        assert(self@ =~= start.fail_pending().0);
    }

    fn dispatch_packet(&mut self, packet: Packet, now: Instant, out: &mut Outbox) -> (r: Result<
        Option<PublishPacket>,
    >)
        requires
            old(self).can_wait(now),
        ensures
            final(self).frame_reader == old(self).frame_reader,
            ({
                let (s, says, result) = old(self)@.dispatch_packet(packet@, now.spec_nanos());
                &&& final(self)@ == s
                &&& final(out)@ == old(out)@ + says
                &&& delivers(r, result)
            }),
    {
        let ghost said = out@;
        assert(said =~= said + Seq::<NoticeView>::empty());
        match packet {
            Packet::Publish(packet) => self.dispatch_publish(packet, out),
            Packet::PubAck(ack) => {
                self.dispatch_puback(ack, out)?;
                Ok(None)
            },
            Packet::SubAck(ack) => {
                self.dispatch_suback(ack, now, out)?;
                Ok(None)
            },
            Packet::UnsubAck(ack) => {
                self.dispatch_unsuback(ack, out)?;
                Ok(None)
            },
            Packet::PingResp => {
                self.ping_outstanding_since = None;
                Ok(None)
            },
            Packet::Disconnect(disconnect) => {
                let reason = DisconnectReason::Server(disconnect.reason_code);
                self.fail_pending(out);
                out.push(Notice::Event(Event::Disconnected(reason)));
                self.terminal_event_sent = true;
                assert(out@ =~= said + old(self)@.dispatch_packet(packet@, now.spec_nanos()).1);
                Err(Error::ServerDisconnected(disconnect.reason_code))
            },
            Packet::PingReq => Err(Error::UnexpectedPacket("broker sent PINGREQ")),
            Packet::ConnAck(_) => Err(Error::UnexpectedPacket("duplicate CONNACK")),
            Packet::Connect(_) | Packet::Subscribe(_) | Packet::Unsubscribe(_) => {
                Err(Error::UnexpectedPacket("server sent client-only packet"))
            },
        }
    }
}

fn contains_ticket(tickets: &[u64], ticket: u64) -> (r: bool)
    ensures
        r == tickets@.contains(ticket),
{
    let mut i: usize = 0;
    while i < tickets.len()
        invariant
            i <= tickets.len(),
            forall|j: int| 0 <= j < i ==> tickets@[j] != ticket,
        decreases tickets.len() - i,
    {
        if tickets[i] == ticket {
            assert(tickets@[i as int] == ticket);
            return true;
        }
        i += 1;
    }
    false
}

impl ConnectionDriver {
    fn bury_cancelled(&mut self, cancelled: &[u64])
        ensures
            final(self).frame_reader == old(self).frame_reader,
            final(self)@ == (DriverView {
                acks: bury_cancelled(old(self)@.acks, cancelled@),
                ..old(self)@
            }),
    {
        let ghost all = self@.acks;
        let mut i: usize = 0;
        while i < self.pending_acks.len()
            invariant
                i <= self.pending_acks.len(),
                all == old(self)@.acks,
                self.frame_reader == old(self).frame_reader,
                self@.acks.len() == all.len(),
                forall|j: int|
                    0 <= j < i ==> (#[trigger] self@.acks[j]) == bury_cancelled(
                        all,
                        cancelled@,
                    )[j],
                forall|j: int| i <= j < all.len() ==> (#[trigger] self@.acks[j]) == all[j],
                self@ == (DriverView { acks: self@.acks, ..old(self)@ }),
            decreases self.pending_acks.len() - i,
        {
            assert(self@.acks[i as int] == self.pending_acks@[i as int]@);
            if let Some(ticket) = self.pending_acks[i].kind.ticket() {
                if contains_ticket(cancelled, ticket) {
                    let kind = self.pending_acks[i].kind.tombstone();
                    self.set_ack_kind(i, kind);
                }
            }
            assert(self@.acks.len() == self.pending_acks@.len());
            i += 1;
        }
        assert(self@.acks =~= bury_cancelled(all, cancelled@));
    }

    fn overdue_acks(&self, now: Instant) -> (r: Vec<u16>)
        ensures
            r@ == overdue_acks(self@.acks, now.spec_nanos()),
    {
        let ghost all = self@.acks;
        let mut r: Vec<u16> = Vec::new();
        let mut i: usize = 0;
        assert(all.take(0) =~= Seq::empty());
        while i < self.pending_acks.len()
            invariant
                i <= self.pending_acks.len(),
                all == self@.acks,
                r@ == overdue_acks(all.take(i as int), now.spec_nanos()),
            decreases self.pending_acks.len() - i,
        {
            let pending = &self.pending_acks[i];
            assert(all[i as int] == pending@);
            assert(all.take(i + 1).drop_last() =~= all.take(i as int));
            assert(all.take(i + 1).last() == pending@);
            if now.has_reached(pending.deadline) && !pending.kind.is_tombstone() {
                r.push(pending.packet_id);
            }
            i += 1;
        }
        assert(all.take(i as int) =~= all);
        r
    }

    fn overdue_requests(&self, now: Instant, cancelled: &[u64]) -> (r: Vec<Vec<u8>>)
        ensures
            byte_views(r@) == overdue_requests(self@.requests, now.spec_nanos(), cancelled@),
    {
        let ghost all = self@.requests;
        let mut r: Vec<Vec<u8>> = Vec::new();
        let mut i: usize = 0;
        assert(all.take(0) =~= Seq::empty());
        assert(byte_views(r@) =~= Seq::empty());
        while i < self.pending_requests.len()
            invariant
                i <= self.pending_requests.len(),
                all == self@.requests,
                byte_views(r@) == overdue_requests(
                    all.take(i as int),
                    now.spec_nanos(),
                    cancelled@,
                ),
            decreases self.pending_requests.len() - i,
        {
            let pending = &self.pending_requests[i];
            let ghost before = byte_views(r@);
            assert(all[i as int] == pending@);
            assert(all.take(i + 1).drop_last() =~= all.take(i as int));
            assert(all.take(i + 1).last() == pending@);
            if now.has_reached(pending.deadline) || contains_ticket(cancelled, pending.ticket) {
                r.push(pending.correlation_data.clone());
                assert(byte_views(r@) =~= before.push(pending.correlation_data@));
            }
            i += 1;
        }
        assert(all.take(i as int) =~= all);
        r
    }

    fn expire_ack(&mut self, packet_id: u16, out: &mut Outbox)
        ensures
            final(self).frame_reader == old(self).frame_reader,
            (final(self)@, final(out)@) == ({
                let (s, says) = old(self)@.expire_ack(packet_id);
                (s, old(out)@ + says)
            }),
    {
        let ghost said = out@;
        let i: usize = find_ack(&self.pending_acks, packet_id);
        if i == self.pending_acks.len() {
            assert(out@ =~= said + Seq::<NoticeView>::empty());
            return;
        }
        assert(self@.acks[i as int] == self.pending_acks@[i as int]@);
        let error = Error::Timeout(self.pending_acks[i].timeout_label);
        if let PendingAckKind::RequestPublish { correlation_data } = &self.pending_acks[i].kind {
            let correlation_data = correlation_data.clone();
            self.fail_request(correlation_data.as_slice(), error, out);
            self.release_request_ack(packet_id, correlation_data.as_slice(), false);
            return;
        }
        let mut kind = self.pending_acks[i].kind.tombstone();
        let ghost buried = kind@;
        std::mem::swap(&mut self.pending_acks[i].kind, &mut kind);
        assert(self@.acks =~= old(self)@.acks.update(
            i as int,
            AckView { kind: buried, ..old(self)@.acks[i as int] },
        ));
        match kind {
            PendingAckKind::ResponseSubscribe { response_topic } => {
                self.remove_subscription(response_topic.as_str());
                self.fail_requests_for_topic(response_topic.as_str(), error, out);
            },
            other => other.fail(error, out),
        }
    }

    fn expire_acks(&mut self, ids: &Vec<u16>, out: &mut Outbox)
        ensures
            final(self).frame_reader == old(self).frame_reader,
            (final(self)@, final(out)@) == ({
                let (s, says) = old(self)@.expire_acks(ids@);
                (s, old(out)@ + says)
            }),
    {
        let ghost goal = old(self)@.expire_acks(ids@);
        let mut i: usize = 0;
        assert(ids@.skip(0) =~= ids@);
        while i < ids.len()
            invariant
                i <= ids.len(),
                self.frame_reader == old(self).frame_reader,
                goal.0 == self@.expire_acks(ids@.skip(i as int)).0,
                old(out)@ + goal.1 == out@ + self@.expire_acks(ids@.skip(i as int)).1,
            decreases ids.len() - i,
        {
            let ghost before = self@;
            let ghost said = out@;
            assert(ids@.skip(i as int)[0] == ids@[i as int]);
            assert(ids@.skip(i as int).skip(1) =~= ids@.skip(i + 1));
            self.expire_ack(ids[i], out);
            proof {
                let (s, first) = before.expire_ack(ids@[i as int]);
                let rest = s.expire_acks(ids@.skip(i + 1)).1;
                assert(said + (first + rest) =~= said + first + rest);
            }
            i += 1;
        }
        assert(out@ =~= out@ + Seq::<NoticeView>::empty());
    }

    fn expire_request(&mut self, correlation_data: &[u8], cancelled: &[u64], out: &mut Outbox)
        ensures
            final(self).frame_reader == old(self).frame_reader,
            (final(self)@, final(out)@) == ({
                let (s, says) = old(self)@.expire_request(correlation_data@, cancelled@);
                (s, old(out)@ + says)
            }),
    {
        let i: usize = find_request(&self.pending_requests, correlation_data);
        let closed = i < self.pending_requests.len() && contains_ticket(
            cancelled,
            self.pending_requests[i].ticket,
        );
        if closed {
            let _ = self.remove_request(correlation_data, out);
        } else {
            self.fail_request(correlation_data, Error::Timeout("request response"), out);
        }
    }

    fn expire_requests(&mut self, correlations: &Vec<Vec<u8>>, cancelled: &[u64], out: &mut Outbox)
        ensures
            final(self).frame_reader == old(self).frame_reader,
            (final(self)@, final(out)@) == ({
                let (s, says) = old(self)@.expire_requests(
                    byte_views(correlations@),
                    cancelled@,
                );
                (s, old(out)@ + says)
            }),
    {
        let ghost all = byte_views(correlations@);
        let ghost goal = old(self)@.expire_requests(all, cancelled@);
        let mut i: usize = 0;
        assert(all.skip(0) =~= all);
        while i < correlations.len()
            invariant
                i <= correlations.len(),
                all == byte_views(correlations@),
                self.frame_reader == old(self).frame_reader,
                goal.0 == self@.expire_requests(all.skip(i as int), cancelled@).0,
                old(out)@ + goal.1 == out@ + self@.expire_requests(
                    all.skip(i as int),
                    cancelled@,
                ).1,
            decreases correlations.len() - i,
        {
            let ghost before = self@;
            let ghost said = out@;
            assert(all.skip(i as int)[0] == correlations@[i as int]@);
            assert(all.skip(i as int).skip(1) =~= all.skip(i + 1));
            self.expire_request(correlations[i].as_slice(), cancelled, out);
            proof {
                let (s, first) = before.expire_request(all[i as int], cancelled@);
                let rest = s.expire_requests(all.skip(i + 1), cancelled@).1;
                assert(said + (first + rest) =~= said + first + rest);
            }
            i += 1;
        }
        assert(out@ =~= out@ + Seq::<NoticeView>::empty());
    }

    fn remove_all(&mut self, correlations: &Vec<Vec<u8>>, out: &mut Outbox)
        ensures
            final(self).frame_reader == old(self).frame_reader,
            (final(self)@, final(out)@) == ({
                let (s, says) = old(self)@.remove_all(byte_views(correlations@));
                (s, old(out)@ + says)
            }),
    {
        let ghost all = byte_views(correlations@);
        let ghost goal = old(self)@.remove_all(all);
        let mut i: usize = 0;
        assert(all.skip(0) =~= all);
        while i < correlations.len()
            invariant
                i <= correlations.len(),
                all == byte_views(correlations@),
                self.frame_reader == old(self).frame_reader,
                goal.0 == self@.remove_all(all.skip(i as int)).0,
                old(out)@ + goal.1 == out@ + self@.remove_all(all.skip(i as int)).1,
            decreases correlations.len() - i,
        {
            let ghost before = self@;
            let ghost said = out@;
            assert(all.skip(i as int)[0] == correlations@[i as int]@);
            assert(all.skip(i as int).skip(1) =~= all.skip(i + 1));
            let _ = self.remove_request(correlations[i].as_slice(), out);
            proof {
                let (s, first, _) = before.remove_request(all[i as int]);
                let rest = s.remove_all(all.skip(i + 1)).1;
                assert(said + (first + rest) =~= said + first + rest);
            }
            i += 1;
        }
        assert(out@ =~= out@ + Seq::<NoticeView>::empty());
    }

    fn complete_written(&mut self, action: WrittenAction, now: Instant, out: &mut Outbox)
        ensures
            final(self).frame_reader == old(self).frame_reader,
            (final(self)@, final(out)@) == ({
                let (s, says) = old(self)@.complete_written(action, now.spec_nanos());
                (s, old(out)@ + says)
            }),
    {
        match action {
            WrittenAction::Nothing | WrittenAction::AbandonedDisconnect => {},
            WrittenAction::PublishQos0 { ticket } => {
                let ack = PublishAck { packet_id: None, reason_code: None };
                out.complete(ticket, Outcome::Published(Ok(ack)));
            },
            WrittenAction::PingReq => {
                self.ping_queued = false;
                self.ping_outstanding_since = Some(now);
            },
            WrittenAction::Disconnect { ticket } => {
                out.complete(ticket, Outcome::Disconnected(Ok(())));
                out.push(
                    Notice::Event(Event::Disconnected(DisconnectReason::ClientInitiated)),
                );
                self.terminal_event_sent = true;
            },
        }
        assert(out@ =~= old(out)@ + old(self)@.complete_written(action, now.spec_nanos()).1);
    }

    fn complete_flushed(&mut self, now: Instant, out: &mut Outbox)
        ensures
            final(self).frame_reader == old(self).frame_reader,
            (final(self)@, final(out)@) == ({
                let (s, says) = old(self)@.flushed(now.spec_nanos());
                (s, old(out)@ + says)
            }),
    {
        let ghost at = now.spec_nanos();
        let ghost goal = old(self)@.flushed(at);
        while self.flush_actions.len() > 0
            invariant
                at == now.spec_nanos(),
                self.frame_reader == old(self).frame_reader,
                goal.0 == self@.flushed(at).0,
                old(out)@ + goal.1 == out@ + self@.flushed(at).1,
            decreases self.flush_actions.len(),
        {
            let ghost before = self@;
            let ghost said = out@;
            if let Some(flush) = self.flush_actions.pop_front() {
                assert(self.flush_actions@ =~= before.flush_actions.skip(1));
                self.outbound_bytes = self.outbound_bytes.saturating_sub(flush.bytes);
                let ghost popped = self@;
                assert(popped =~= DriverView {
                    flush_actions: before.flush_actions.skip(1),
                    outbound_bytes: less(before.outbound_bytes, flush.bytes as int),
                    ..before
                });
                let ghost (s, first) = popped.complete_written(flush.action, at);
                self.complete_written(flush.action, now, out);
                proof {
                    let rest = s.flushed(at).1;
                    assert(said + (first + rest) =~= said + first + rest);
                }
            }
        }
        self.needs_flush = false;
        assert(out@ =~= out@ + Seq::<NoticeView>::empty());
    }

    fn advance_front(&mut self, written: usize, now: Instant)
        requires
            old(self)@.outbound.len() > 0,
            old(self)@.outbound[0].offset + written <= old(self)@.outbound[0].bytes.len(),
        ensures
            final(self).frame_reader == old(self).frame_reader,
            final(self)@ == old(self)@.advanced(written, now.spec_nanos()),
    {
        let ghost before = self@;
        assert(before.outbound[0] == self.outbound@[0]@);
        self.last_write_at = now;
        self.needs_flush = true;
        if let Some(front) = self.outbound.pop_front() {
            let mut frame = front;
            assert(self@.outbound =~= before.outbound.skip(1));
            let len: usize = frame.bytes.len();
            frame.offset += written;
            if frame.offset == len {
                self.flush_actions.push_back(PendingFlush { bytes: len, action: frame.action });
            } else {
                let ghost view = frame@;
                self.outbound.push_front(frame);
                assert(self@.outbound =~= before.outbound.update(0, view));
            }
        }
        assert(self@ =~= before.advanced(written, now.spec_nanos()));
    }
}

/// A command for the driver. The ticket is how the operation is known from then on.
#[derive(Debug)]
pub enum Command {
    Publish { topic: String, payload: Vec<u8>, options: PublishOptions, ticket: u64 },
    Subscribe { filter: String, qos: QoS, ticket: u64 },
    Unsubscribe { filter: String, ticket: u64 },
    Disconnect { ticket: u64 },
    /// `cancelled` says that nobody waits for the response any more.
    Request { request: RequestCommand, ticket: u64, cancelled: bool },
}

impl Command {
    /// What is said of a command that comes too late.
    pub open spec fn failure(self, e: Error) -> NoticeView {
        match self {
            Command::Publish { ticket, .. } => published(ticket, Err(e)),
            Command::Subscribe { ticket, .. } => subscribed(ticket, Err(e)),
            Command::Unsubscribe { ticket, .. } => subscribed(ticket, Err(e)),
            Command::Disconnect { ticket } => disconnected(ticket, Err(e)),
            Command::Request { ticket, .. } => responded(ticket, Err(e)),
        }
    }

    fn fail(self, error: Error, out: &mut Outbox)
        ensures
            final(out)@ == old(out)@.push(self.failure(error)),
    {
        match self {
            Command::Publish { ticket, .. } => {
                out.complete(ticket, Outcome::Published(Err(error)));
            },
            Command::Subscribe { ticket, .. } => {
                out.complete(ticket, Outcome::Subscribed(Err(error)));
            },
            Command::Unsubscribe { ticket, .. } => {
                out.complete(ticket, Outcome::Subscribed(Err(error)));
            },
            Command::Disconnect { ticket } => {
                out.complete(ticket, Outcome::Disconnected(Err(error)));
            },
            Command::Request { ticket, .. } => {
                out.complete(ticket, Outcome::Response(Err(error)));
            },
        }
    }
}

/// What a command does: nothing but fail where the connection is being closed.
pub open spec fn processed(s: DriverView, command: Command, now: int) -> Said {
    if s.closing {
        (s, seq![command.failure(Error::ClientClosed)])
    } else {
        match command {
            Command::Publish { topic, payload, options, ticket } => s.begin_publish(
                topic@,
                payload@,
                options@,
                ticket,
                now,
            ),
            Command::Subscribe { filter, qos, ticket } => s.begin_subscribe(
                filter@,
                qos,
                ticket,
                now,
            ),
            Command::Unsubscribe { filter, ticket } => s.begin_unsubscribe(filter@, ticket, now),
            Command::Disconnect { ticket } => s.begin_disconnect(ticket),
            Command::Request { request, ticket, cancelled } => s.begin_request(
                request@,
                ticket,
                cancelled,
                now,
            ),
        }
    }
}

/// The most bytes that are read from the transport at once.
pub const READ_CHUNK: usize = 8192;

/// How often the transport is read in one turn of the driver.
pub const READS_PER_TURN: usize = 64;

/// The state of a driver on a connection with these terms.
pub open spec fn connected(
    options: ConnectOptionsView,
    terms: Negotiated,
    now: Instant,
) -> DriverView {
    DriverView {
        reader: FrameReaderView {
            buf: Seq::empty(),
            in_body: false,
            max: options.max_packet_size,
            overflow: None,
        },
        outbound: Seq::empty(),
        outbound_bytes: 0,
        acks: Seq::empty(),
        next_packet_id: 1,
        last_write_at: now.spec_nanos(),
        ping_since: None,
        keep_alive_secs: terms.keep_alive_secs,
        peer_max_packet_size: terms.max_packet_size,
        peer_receive_maximum: terms.receive_maximum,
        capabilities: terms.capabilities,
        max_outbound_queue_bytes: options.max_outbound_queue_bytes,
        max_pending_operations: options.command_capacity,
        ack_timeout: options.ack_timeout.spec_nanos(),
        poll_interval: options.poll_interval.spec_nanos(),
        closing: false,
        command_channel_closed: false,
        needs_flush: false,
        flush_actions: Seq::empty(),
        ping_queued: false,
        terminal_event_sent: false,
        requests: Seq::empty(),
        subscriptions: Seq::empty(),
    }
}

impl ConnectionDriver {
    /// A driver for a connection that was just made on these terms.
    pub fn new(options: &ConnectOptions, terms: Negotiated, now: Instant) -> (r: Self)
        ensures
            r.wf(),
            r@ == connected(options@, terms, now),
    {
        let r = ConnectionDriver {
            frame_reader: FrameReader::with_max_packet_size(options.max_packet_size),
            outbound: VecDeque::new(),
            outbound_bytes: 0,
            pending_acks: Vec::new(),
            next_packet_id: 1,
            last_write_at: now,
            ping_outstanding_since: None,
            keep_alive_secs: terms.keep_alive_secs,
            peer_max_packet_size: terms.max_packet_size,
            peer_receive_maximum: terms.receive_maximum,
            server_capabilities: terms.capabilities,
            max_outbound_queue_bytes: options.max_outbound_queue_bytes,
            max_pending_operations: options.command_capacity,
            ack_timeout: options.ack_timeout,
            poll_interval: options.poll_interval,
            closing: false,
            command_channel_closed: false,
            needs_flush: false,
            flush_actions: VecDeque::new(),
            ping_queued: false,
            terminal_event_sent: false,
            pending_requests: Vec::new(),
            response_subscriptions: Vec::new(),
        };
        assert(r@ =~= connected(options@, terms, now));
        r
    }

    /// Carry out a command.
    pub fn process_command(&mut self, command: Command, now: Instant, out: &mut Outbox)
        requires
            old(self).wf(),
            old(self).can_wait(now),
        ensures
            final(self).wf(),
            final(self)@.same_terms(old(self)@),
            (final(self)@, final(out)@) == ({
                let (s, says) = processed(old(self)@, command, now.spec_nanos());
                (s, old(out)@ + says)
            }),
    {
        let ghost start = self@;
        let ghost at = now.spec_nanos();
        if self.closing {
            command.fail(Error::ClientClosed, out);
            assert(out@ =~= old(out)@ + seq![command.failure(Error::ClientClosed)]);
            return;
        }
        match command {
            Command::Publish { topic, payload, options, ticket } => {
                proof {
                    begin_publish_keeps(start, topic@, payload@, options@, ticket, at);
                }
                self.begin_publish(topic, payload, options, ticket, now, out)
            },
            Command::Subscribe { filter, qos, ticket } => {
                proof {
                    begin_subscribe_keeps(start, filter@, qos, ticket, at);
                }
                self.begin_subscribe(filter, qos, ticket, now, out)
            },
            Command::Unsubscribe { filter, ticket } => {
                proof {
                    begin_unsubscribe_keeps(start, filter@, ticket, at);
                }
                self.begin_unsubscribe(filter, ticket, now, out)
            },
            Command::Disconnect { ticket } => {
                proof {
                    begin_disconnect_keeps(start, ticket);
                }
                self.begin_disconnect(ticket, out)
            },
            Command::Request { request, ticket, cancelled } => {
                proof {
                    begin_request_keeps(start, request@, ticket, cancelled, at);
                }
                self.begin_request(request, ticket, cancelled, now, out)
            },
        }
    }

    /// No handle is left that could send a command: say goodbye to the broker.
    pub fn commands_closed(&mut self) -> (r: Result<()>)
        requires
            old(self).wf(),
        ensures
            final(self).wf(),
            final(self)@.same_terms(old(self)@),
            ({
                let closed = DriverView { command_channel_closed: true, ..old(self)@ };
                &&& final(self)@ == closed.begin_abandoned_disconnect().0
                &&& r == closed.begin_abandoned_disconnect().1
            }),
    {
        self.command_channel_closed = true;
        let ghost closed = DriverView { command_channel_closed: true, ..old(self)@ };
        assert(self@ =~= closed);
        proof {
            begin_disconnect_keeps(closed, 0);
        }
        self.begin_abandoned_disconnect()
    }

    /// Whether goodbye was said and everything has left.
    pub fn is_finished(&self) -> (r: bool)
        ensures
            r == (self@.closing && self@.outbound.len() == 0 && !self@.needs_flush),
    {
        self.closing && self.outbound.len() == 0 && !self.needs_flush
    }

    /// Whether the connection is being closed, so that commands come too late.
    pub fn is_closing(&self) -> (r: bool)
        ensures
            r == self@.closing,
    {
        self.closing
    }

    /// How many packet identifiers wait for their acknowledgement.
    pub fn pending_operations(&self) -> (r: usize)
        ensures
            r == self@.acks.len(),
    {
        self.pending_acks.len()
    }

    /// Which packet type acknowledges the packet identifier, where one is waited for.
    pub fn pending_class(&self, packet_id: u16) -> (r: Option<AckClass>)
        ensures
            r == (if self@.has_ack(packet_id) {
                Some(self@.acks[ack_from(self@.acks, packet_id, 0)].kind.ack_class())
            } else {
                None
            }),
    {
        let i: usize = find_ack(&self.pending_acks, packet_id);
        if i < self.pending_acks.len() {
            assert(self@.acks[i as int] == self.pending_acks@[i as int]@);
            Some(self.pending_acks[i].kind.ack_class())
        } else {
            None
        }
    }

    /// How many requests wait for their response.
    pub fn pending_requests(&self) -> (r: usize)
        ensures
            r == self@.requests.len(),
    {
        self.pending_requests.len()
    }

    /// Whether a response topic is subscribed to, and whether the broker has said so.
    pub fn response_subscription(&self, topic: &str) -> (r: Option<bool>)
        ensures
            ({
                let i = subscription_from(self@.subscriptions, topic@, 0);
                r == (if i < self@.subscriptions.len() {
                    Some(self@.subscriptions[i].ready)
                } else {
                    None
                })
            }),
    {
        let i: usize = find_subscription(&self.response_subscriptions, topic);
        if i < self.response_subscriptions.len() {
            assert(self@.subscriptions[i as int] == self.response_subscriptions@[i as int]@);
            Some(self.response_subscriptions[i].ready)
        } else {
            None
        }
    }

    /// How many frames are in the outbound queue.
    pub fn queued_frames(&self) -> (r: usize)
        ensures
            r == self@.outbound.len(),
    {
        self.outbound.len()
    }

    /// How many bytes are on their way out, queued or waiting for a flush.
    pub fn outbound_bytes(&self) -> (r: usize)
        ensures
            r == self@.outbound_bytes,
    {
        self.outbound_bytes
    }

    /// What to do first for the outbound queue.
    ///
    /// A transport such as rustls may accept plaintext and then report
    /// WouldBlock while flushing ciphertext. It is not fed more plaintext
    /// until that buffered batch is flushed.
    pub fn start_flush(&self) -> (r: FlushStep)
        ensures
            r == (if self@.needs_flush {
                FlushStep::Flush { last: false }
            } else {
                self@.write_or_flush()
            }),
    {
        if self.needs_flush {
            FlushStep::Flush { last: false }
        } else {
            self.write_or_flush()
        }
    }

    fn write_or_flush(&self) -> (r: FlushStep)
        ensures
            r == self@.write_or_flush(),
    {
        if self.outbound.len() > 0 {
            FlushStep::Write
        } else if self.needs_flush {
            FlushStep::Flush { last: true }
        } else {
            FlushStep::Finished
        }
    }

    /// What is pending of the front frame.
    pub fn pending_write(&self) -> (r: &[u8])
        requires
            self.wf(),
            self@.outbound.len() > 0,
        ensures
            r@ == self@.outbound[0].bytes.skip(self@.outbound[0].offset as int),
    {
        let frame = &self.outbound[0];
        assert(frame@ == self@.outbound[0]);
        let r = vstd::slice::slice_subrange(&frame.bytes, frame.offset, frame.bytes.len());
        assert(r@ =~= frame@.bytes.skip(frame@.offset as int));
        r
    }

    /// The transport was asked to write what is pending of the front frame, and this is
    /// what it answered: how many bytes it accepted, or why not.
    pub fn wrote(
        &mut self,
        outcome: core::result::Result<usize, IoError>,
        now: Instant,
    ) -> (r: Result<FlushStep>)
        requires
            old(self).wf(),
            old(self)@.outbound.len() > 0,
        ensures
            final(self).wf(),
            final(self)@.same_terms(old(self)@),
            match outcome {
                Ok(n) => {
                    let left = old(self)@.outbound[0].bytes.len() - old(self)@.outbound[0].offset;
                    if n == 0 {
                        &&& final(self)@ == old(self)@
                        &&& is_io(r, ErrorKind::WriteZero, "write zero"@)
                    } else if n > left {
                        &&& final(self)@ == old(self)@
                        &&& is_io(
                            r,
                            ErrorKind::InvalidData,
                            "transport reported an oversized write"@,
                        )
                    } else {
                        &&& final(self)@ == old(self)@.advanced(n, now.spec_nanos())
                        &&& r == Ok::<FlushStep, Error>(final(self)@.write_or_flush())
                    }
                },
                Err(e) => {
                    &&& final(self)@ == old(self)@
                    &&& r == (match e.spec_kind() {
                        ErrorKind::Interrupted => Ok(FlushStep::Write),
                        ErrorKind::WouldBlock => Ok(
                            if old(self)@.needs_flush {
                                FlushStep::Flush { last: true }
                            } else {
                                FlushStep::Finished
                            },
                        ),
                        _ => Err(Error::Io(e)),
                    })
                },
            },
    {
        match outcome {
            Ok(written) => {
                if written == 0 {
                    return Err(Error::Io(write_zero()));
                }
                assert(self@.outbound[0] == self.outbound@[0]@);
                let len: usize = self.outbound[0].bytes.len();
                if written > len - self.outbound[0].offset {
                    return Err(Error::Io(oversized_write()));
                }
                proof {
                    advanced_keeps(self@, written, now.spec_nanos());
                }
                self.advance_front(written, now);
                Ok(self.write_or_flush())
            },
            Err(error) => match error.kind() {
                ErrorKind::Interrupted => Ok(FlushStep::Write),
                ErrorKind::WouldBlock => {
                    if self.needs_flush {
                        Ok(FlushStep::Flush { last: true })
                    } else {
                        Ok(FlushStep::Finished)
                    }
                },
                _ => Err(Error::Io(error)),
            },
        }
    }

    /// The transport was asked to flush, and this is what it answered. While it does not
    /// flush, nothing more is written.
    pub fn flushed(
        &mut self,
        outcome: core::result::Result<(), IoError>,
        last: bool,
        now: Instant,
        out: &mut Outbox,
    ) -> (r: Result<FlushStep>)
        requires
            old(self).wf(),
        ensures
            final(self).wf(),
            final(self)@.same_terms(old(self)@),
            match outcome {
                Ok(_) => {
                    let (s, says) = old(self)@.flushed(now.spec_nanos());
                    &&& final(self)@ == s
                    &&& final(out)@ == old(out)@ + says
                    &&& r == Ok::<FlushStep, Error>(
                        if last {
                            FlushStep::Finished
                        } else {
                            s.write_or_flush()
                        },
                    )
                },
                Err(e) => {
                    &&& final(self)@ == old(self)@
                    &&& final(out)@ == old(out)@
                    &&& r == (match e.spec_kind() {
                        ErrorKind::Interrupted | ErrorKind::WouldBlock => Ok(FlushStep::Finished),
                        _ => Err(Error::Io(e)),
                    })
                },
            },
    {
        match outcome {
            Ok(()) => {
                proof {
                    flushed_keeps(self@, now.spec_nanos());
                }
                self.complete_flushed(now, out);
                if last {
                    Ok(FlushStep::Finished)
                } else {
                    Ok(self.write_or_flush())
                }
            },
            Err(error) => match error.kind() {
                ErrorKind::Interrupted | ErrorKind::WouldBlock => Ok(FlushStep::Finished),
                _ => Err(Error::Io(error)),
            },
        }
    }

    /// How many bytes to read from the transport; none if zero.
    pub fn read_capacity(&self) -> (r: usize)
        requires
            self.wf(),
        ensures
            r == (if self@.reader.room() < READ_CHUNK {
                self@.reader.room()
            } else {
                READ_CHUNK as int
            }),
    {
        let capacity: usize = self.frame_reader.remaining_capacity();
        if capacity < READ_CHUNK {
            capacity
        } else {
            READ_CHUNK
        }
    }

    /// The transport was read, and this is what it gave. Says whether to read on.
    pub fn received(
        &mut self,
        outcome: core::result::Result<&[u8], IoError>,
        out: &mut Outbox,
    ) -> (r: Result<bool>)
        requires
            old(self).wf(),
        ensures
            final(self).wf(),
            final(self)@.same_terms(old(self)@),
            match outcome {
                Ok(data) => if data@.len() == 0 {
                    &&& r == Err::<bool, _>(Error::ConnectionClosed)
                    &&& final(self)@ == (DriverView { terminal_event_sent: true, ..old(self)@ })
                    &&& final(out)@ == old(out)@.push(went_down(DisconnectReason::TransportClosed))
                } else {
                    &&& r == Ok::<bool, Error>(true)
                    &&& final(self)@ == (DriverView {
                        reader: old(self)@.reader.pushed(data@),
                        ..old(self)@
                    })
                    &&& final(out)@ == old(out)@
                },
                Err(e) => {
                    &&& final(self)@ == old(self)@
                    &&& final(out)@ == old(out)@
                    &&& r == (match e.spec_kind() {
                        ErrorKind::Interrupted => Ok(true),
                        ErrorKind::WouldBlock => Ok(false),
                        _ => Err(Error::Io(e)),
                    })
                },
            },
    {
        match outcome {
            Ok(data) => {
                if data.is_empty() {
                    out.push(
                        Notice::Event(Event::Disconnected(DisconnectReason::TransportClosed)),
                    );
                    self.terminal_event_sent = true;
                    return Err(Error::ConnectionClosed);
                }
                self.frame_reader.push(data);
                Ok(true)
            },
            Err(error) => match error.kind() {
                ErrorKind::Interrupted => Ok(true),
                ErrorKind::WouldBlock => Ok(false),
                _ => Err(Error::Io(error)),
            },
        }
    }

    /// Take out and dispatch the packets that have arrived, up to a PUBLISH packet that is
    /// to be delivered as an event.
    pub fn decode_and_dispatch(&mut self, now: Instant, out: &mut Outbox) -> (r: Result<
        Option<PublishPacket>,
    >)
        requires
            old(self).wf(),
            old(self).can_wait(now),
        ensures
            final(self).wf(),
            final(self)@.same_terms(old(self)@),
            ({
                let (s, says, result) = old(self)@.drain_packets(now.spec_nanos());
                &&& final(self)@ == s
                &&& final(out)@ == old(out)@ + says
                &&& delivers(r, result)
            }),
    {
        let ghost at = now.spec_nanos();
        let ghost goal = self@.drain_packets(at);
        let ghost said = out@;
        proof {
            drain_packets_keeps(self@, at);
            assert(out@ + goal.1 =~= said + goal.1);
        }
        loop
            invariant
                self.wf(),
                self.can_wait(now),
                at == now.spec_nanos(),
                goal.0 == self@.drain_packets(at).0,
                goal.2 == self@.drain_packets(at).2,
                said + goal.1 == out@ + self@.drain_packets(at).1,
                self@.same_terms(old(self)@),
                said == old(out)@,
                goal == old(self)@.drain_packets(at),
            decreases self@.reader.buf.len(),
        {
            proof {
                drain_one_keeps(self@, at);
            }
            let ghost start = out@;
            let ghost (s, says, _) = self@.drain_one(at);
            let ghost more = s.drain_packets(at).1;
            match self.dispatch_next(now, out) {
                Ok(None) => {
                    return Ok(None);
                },
                Ok(Some(None)) => {
                    assert(start + (says + more) =~= start + says + more);
                },
                Ok(Some(Some(delivery))) => {
                    return Ok(Some(delivery));
                },
                Err(error) => {
                    return Err(error);
                },
            }
        }
    }

    fn dispatch_next(&mut self, now: Instant, out: &mut Outbox) -> (r: Result<
        Option<Option<PublishPacket>>,
    >)
        requires
            old(self).wf(),
            old(self).can_wait(now),
        ensures
            final(self).frame_reader.wf(),
            ({
                let (s, says, result) = old(self)@.drain_one(now.spec_nanos());
                &&& final(self)@ == s
                &&& final(out)@ == old(out)@ + says
                &&& match (r, result) {
                    (Ok(None), Ok(None)) => true,
                    (Ok(Some(None)), Ok(Some(None))) => true,
                    (Ok(Some(Some(p))), Ok(Some(Some(q)))) => p@ == q,
                    (Err(e), Err(f)) => e == f,
                    _ => false,
                }
            }),
    {
        proof {
            reveal(DriverView::drain_one);
        }
        let ghost s = DriverView { reader: self@.reader.after_next(), ..self@ };
        let next = self.frame_reader.try_decode();
        assert(self@ =~= s);
        match next {
            Ok(Some(packet)) => {
                proof {
                    dispatch_packet_keeps(s, packet@, now.spec_nanos());
                }
                let ghost (t, _, _) = s.dispatch_packet(packet@, now.spec_nanos());
                match self.dispatch_packet(packet, now, out) {
                    Ok(delivery) => {
                        assert(self@ =~= DriverView { reader: s.reader, ..t });
                        Ok(Some(delivery))
                    },
                    Err(error) => {
                        assert(self@ =~= DriverView { reader: s.reader, ..t });
                        Err(error)
                    },
                }
            },
            Ok(None) => {
                assert(out@ =~= old(out)@ + Seq::<NoticeView>::empty());
                Ok(None)
            },
            Err(error) => {
                assert(out@ =~= old(out)@ + Seq::<NoticeView>::empty());
                Err(error)
            },
        }
    }

    /// Let go of what is overdue, and of the operations with these tickets, which nobody
    /// waits for any more.
    ///
    /// A cancelled waiter becomes a tombstone until the broker ACK arrives
    /// or the connection closes. Reusing its packet identifier while its
    /// frame may already be on the wire could misdeliver a late ACK.
    pub fn expire_operations(&mut self, now: Instant, cancelled: &[u64], out: &mut Outbox)
        requires
            old(self).wf(),
        ensures
            final(self).wf(),
            final(self)@.same_terms(old(self)@),
            (final(self)@, final(out)@) == ({
                let (s, says) = old(self)@.expire_operations(now.spec_nanos(), cancelled@);
                (s, old(out)@ + says)
            }),
    {
        let ghost said = out@;
        proof {
            expire_operations_keeps(self@, now.spec_nanos(), cancelled@);
        }
        self.bury_cancelled(cancelled);
        let ids = self.overdue_acks(now);
        let ghost first = self@.expire_acks(ids@).1;
        self.expire_acks(&ids, out);
        let correlations = self.overdue_requests(now, cancelled);
        let ghost rest = self@.expire_requests(byte_views(correlations@), cancelled@).1;
        self.expire_requests(&correlations, cancelled, out);
        assert(said + first + rest =~= said + (first + rest));
    }

    /// Forget the requests with this correlation data, which nobody waits for any more.
    pub fn drain_cancellations(&mut self, correlations: &Vec<Vec<u8>>, out: &mut Outbox)
        requires
            old(self).wf(),
        ensures
            final(self).wf(),
            final(self)@.same_terms(old(self)@),
            (final(self)@, final(out)@) == ({
                let (s, says) = old(self)@.remove_all(byte_views(correlations@));
                (s, old(out)@ + says)
            }),
    {
        proof {
            drain_cancellations_keeps(self@, byte_views(correlations@));
        }
        self.remove_all(correlations, out);
    }

    /// Queue a PINGREQ where nothing was written for a while, and give up where one was
    /// not answered.
    pub fn maintain_keep_alive(&mut self, now: Instant) -> (r: Result<()>)
        requires
            old(self).wf(),
        ensures
            final(self).wf(),
            final(self)@.same_terms(old(self)@),
            final(self)@ == old(self)@.maintain_keep_alive(now.spec_nanos()).0,
            r == old(self)@.maintain_keep_alive(now.spec_nanos()).1,
    {
        proof {
            maintain_keep_alive_keeps(self@, now.spec_nanos());
        }
        if self.keep_alive_secs == 0 {
            return Ok(());
        }
        if let Some(sent_at) = self.ping_outstanding_since {
            let limit = Duration::from_secs(self.keep_alive_secs as u64);
            if now.since(sent_at).at_least(limit) {
                return Err(Error::KeepAliveTimeout);
            }
            return Ok(());
        }
        if !self.ping_queued && now.since(self.last_write_at).at_least(
            keep_alive_interval(self.keep_alive_secs),
        ) {
            let mut bytes: Vec<u8> = Vec::new();
            bytes.push(PINGREQ_BYTES[0]);
            bytes.push(PINGREQ_BYTES[1]);
            assert(bytes@ =~= PINGREQ_BYTES@);
            self.enqueue(bytes, WrittenAction::PingReq, None)?;
            self.ping_queued = true;
        }
        Ok(())
    }

    /// How long the driver may sleep if no command comes in.
    pub fn next_wait_duration(&self, now: Instant) -> (r: Duration)
        ensures
            r.spec_nanos() == self@.next_wait(now.spec_nanos()),
    {
        let ghost at = now.spec_nanos();
        let mut wait = self.poll_interval;
        let mut i: usize = 0;
        while i < self.pending_acks.len()
            invariant
                i <= self.pending_acks.len(),
                at == now.spec_nanos(),
                wait.spec_nanos() == wait_for_acks(self@.acks, i as nat, self@.poll_interval, at),
            decreases self.pending_acks.len() - i,
        {
            assert(self@.acks[i as int] == self.pending_acks@[i as int]@);
            wait = wait.min(self.pending_acks[i].deadline.since(now));
            i += 1;
        }
        let ghost acks_wait = wait.spec_nanos();
        let mut j: usize = 0;
        while j < self.pending_requests.len()
            invariant
                j <= self.pending_requests.len(),
                at == now.spec_nanos(),
                wait.spec_nanos() == wait_for_requests(self@.requests, j as nat, acks_wait, at),
            decreases self.pending_requests.len() - j,
        {
            assert(self@.requests[j as int] == self.pending_requests@[j as int]@);
            wait = wait.min(self.pending_requests[j].deadline.since(now));
            j += 1;
        }
        let _ = wait.as_nanos();
        if self.keep_alive_secs != 0 {
            if let Some(sent_at) = self.ping_outstanding_since {
                let limit = Duration::from_secs(self.keep_alive_secs as u64);
                wait = wait.min(sent_at.left(limit, now));
            } else if !self.ping_queued {
                wait = wait.min(
                    self.last_write_at.left(keep_alive_interval(self.keep_alive_secs), now),
                );
            }
        }
        wait
    }

    /// The driver stops, because of a failure or not: everything that waits fails, and
    /// the event that the connection is gone follows a failure that sent none.
    pub fn finish(&mut self, failed: bool, out: &mut Outbox)
        requires
            old(self).wf(),
        ensures
            final(self).wf(),
            ({
                let (s, says) = old(self)@.fail_pending();
                &&& final(self)@ == s
                &&& final(out)@ == old(out)@ + says + (if failed
                    && !old(self)@.terminal_event_sent {
                    seq![went_down(DisconnectReason::TransportClosed)]
                } else {
                    Seq::empty()
                })
            }),
    {
        proof {
            fail_pending_keeps(self@);
        }
        self.fail_pending(out);
        let ghost said = out@;
        if failed && !self.terminal_event_sent {
            out.push(Notice::Event(Event::Disconnected(DisconnectReason::TransportClosed)));
            assert(out@ =~= said + seq![went_down(DisconnectReason::TransportClosed)]);
        } else {
            assert(out@ =~= said + Seq::<NoticeView>::empty());
        }
    }
}

/// The error for an event that nobody had room for, or that nobody wants any more.
pub fn undelivered_event(full: bool) -> (r: Error)
    ensures
        r == (if full {
            Error::QueueFull("event")
        } else {
            Error::ClientClosed
        }),
{
    if full {
        Error::QueueFull("event")
    } else {
        Error::ClientClosed
    }
}

fn keep_alive_interval(keep_alive_secs: u16) -> (r: Duration)
    ensures
        r.spec_nanos() == ping_interval_of(keep_alive_secs),
{
    let half: u64 = keep_alive_secs as u64 / 2;
    if half >= 1 {
        Duration::from_secs(half)
    } else {
        Duration::from_secs(1)
    }
}

/// What a function that leaves a packet for delivery returns.
pub open spec fn delivers(
    r: Result<Option<PublishPacket>>,
    result: Result<Option<PublishPacketView>>,
) -> bool {
    match result {
        Ok(Some(view)) => r matches Ok(Some(packet)) && packet@ == view,
        Ok(None) => r matches Ok(None),
        Err(e) => r == Err::<Option<PublishPacket>, _>(e),
    }
}

fn fail_action(action: WrittenAction, error: Error, out: &mut Outbox)
    ensures
        final(out)@ == old(out)@ + action.failure(error),
{
    match action {
        WrittenAction::PublishQos0 { ticket } => {
            out.complete(ticket, Outcome::Published(Err(error)));
        },
        WrittenAction::Disconnect { ticket } => {
            out.complete(ticket, Outcome::Disconnected(Err(error)));
        },
        _ => {},
    }
    assert(out@ =~= old(out)@ + action.failure(error));
}

/// Hold the reason codes of an acknowledgement against their expected number, and look
/// for a refusal.
pub fn validate_reason_codes(packet: &'static str, reason_codes: &[u8], expected: usize) -> (r:
    Result<()>)
    ensures
        r == reason_codes_check(packet, reason_codes@, expected as nat),
{
    if reason_codes.len() != expected {
        return Err(Error::MalformedPacket("ack reason code count mismatch"));
    }
    let mut i: usize = 0;
    while i < reason_codes.len()
        invariant
            i <= reason_codes.len(),
            reason_codes.len() == expected,
            refusal_from(reason_codes@, 0) == refusal_from(reason_codes@, i as int),
        decreases reason_codes.len() - i,
    {
        if reason_codes[i] >= 0x80 {
            return Err(Error::AckRejected { packet, reason_code: reason_codes[i] });
        }
        i += 1;
    }
    Ok(())
}

pub(crate) fn encode_goodbye() -> (r: Vec<u8>)
    ensures
        r@ == goodbye(),
{
    proof {
        reveal_with_fuel(variable_int_bytes, 2);
    }
    match (DisconnectPacket { reason_code: 0x00 }).encode() {
        Ok(bytes) => bytes,
        Err(_) => Vec::new(),
    }
}

pub(crate) fn encode_subscribe(packet_id: u16, filter: String, qos: QoS) -> (r: Result<Vec<u8>>)
    ensures
        gives(r, encoded_subscribe(subscribe_packet(packet_id, filter@, qos))),
{
    let mut filters: Vec<(String, QoS)> = Vec::new();
    filters.push((filter, qos));
    let packet = SubscribePacket { packet_id, filters, properties: Properties::new() };
    assert(packet@ =~= subscribe_packet(packet_id, filter@, qos));
    packet.encode()
}

pub(crate) fn encode_unsubscribe(packet_id: u16, filter: String) -> (r: Result<Vec<u8>>)
    ensures
        gives(r, encoded_unsubscribe(unsubscribe_packet(packet_id, filter@))),
{
    let mut filters: Vec<String> = Vec::new();
    filters.push(filter);
    let packet = UnsubscribePacket { packet_id, filters, properties: Properties::new() };
    assert(packet@ =~= unsubscribe_packet(packet_id, filter@));
    packet.encode()
}

proof fn absent_ack(acks: Seq<AckView>, id: u16, i: int)
    requires
        0 <= i <= acks.len(),
        ack_from(acks, id, i) >= acks.len(),
    ensures
        forall|j: int| i <= j < acks.len() ==> (#[trigger] acks[j]).packet_id != id,
        ack_from(acks, id, i) == acks.len(),
    decreases acks.len() - i,
{
    if i < acks.len() {
        absent_ack(acks, id, i + 1);
    }
}

proof fn first_ack(acks: Seq<AckView>, id: u16, i: int, k: int)
    requires
        0 <= i <= k < acks.len(),
        acks[k].packet_id == id,
        forall|j: int| i <= j < k ==> (#[trigger] acks[j]).packet_id != id,
    ensures
        ack_from(acks, id, i) == k,
    decreases k - i,
{
    if i < k {
        first_ack(acks, id, i + 1, k);
    }
}

proof fn pushed_ack_is_found(acks: Seq<AckView>, ack: AckView)
    requires
        ack_from(acks, ack.packet_id, 0) >= acks.len(),
    ensures
        ack_from(acks.push(ack), ack.packet_id, 0) == acks.len(),
        acks.push(ack).remove(acks.len() as int) == acks,
{
    absent_ack(acks, ack.packet_id, 0);
    first_ack(acks.push(ack), ack.packet_id, 0, acks.len() as int);
    assert(acks.push(ack).remove(acks.len() as int) =~= acks);
}

} // verus!
