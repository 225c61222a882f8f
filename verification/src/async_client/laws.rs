//! What every step of the connection driver keeps, and what follows from it.
use vstd::prelude::*;

use crate::async_client::model::{
    ack_from, bury_cancelled, bytes_left, id_after, is_unsent_request, less, overdue_acks,
    overdue_requests, qos1_count, request_from, requests_for, retained, subscribe_packet, subscription_from,
    unsubscribe_packet, AckClass, AckKindView, AckView, DriverView, FrameView, PendingFlush, RequestView,
    SubscriptionView, WrittenAction,
};
use crate::async_client::NoticeView;
use crate::codec::ping::PINGREQ_BYTES;
use crate::codec::properties::{first_value, PropertyId, PropertyValueView, ValueKind};
use crate::codec::publish::encoded_publish;
use crate::codec::subscribe::{encoded_subscribe, encoded_unsubscribe};
use crate::codec::types::{
    AckCodesView, PacketView, PubAckPacket, PublishPacketView, QoS,
};
use crate::error::Error;
use crate::frame::header_len_bounds;
use crate::options::PublishOptionsView;
use crate::request_response::RequestCommandView;

verus! {

/// The bytes of all frames in the queue, written or not.
pub open spec fn queued_bytes(frames: Seq<FrameView>) -> nat
    decreases frames.len(),
{
    if frames.len() == 0 {
        0
    } else {
        queued_bytes(frames.drop_last()) + frames.last().bytes.len()
    }
}

/// The bytes of all frames that wait for a flush.
pub open spec fn unflushed_bytes(flushes: Seq<PendingFlush>) -> nat
    decreases flushes.len(),
{
    if flushes.len() == 0 {
        0
    } else {
        unflushed_bytes(flushes.drop_last()) + flushes.last().bytes as nat
    }
}

/// The number of PINGREQ packets in the queue.
pub open spec fn queued_pings(frames: Seq<FrameView>) -> nat
    decreases frames.len(),
{
    if frames.len() == 0 {
        0
    } else {
        queued_pings(frames.drop_last()) + (if frames.last().action is PingReq {
            1nat
        } else {
            0
        })
    }
}

/// The number of PINGREQ packets that wait for a flush.
pub open spec fn unflushed_pings(flushes: Seq<PendingFlush>) -> nat
    decreases flushes.len(),
{
    if flushes.len() == 0 {
        0
    } else {
        unflushed_pings(flushes.drop_last()) + (if flushes.last().action is PingReq {
            1nat
        } else {
            0
        })
    }
}

impl DriverView {
    /// No packet identifier waits twice, and none is zero.
    pub open spec fn ids_reserved_once(self) -> bool {
        &&& forall|i: int| 0 <= i < self.acks.len() ==> (#[trigger] self.acks[i]).packet_id != 0
        &&& forall|i: int, j: int|
            0 <= i < j < self.acks.len() ==> (#[trigger] self.acks[i]).packet_id != (
            #[trigger] self.acks[j]).packet_id
    }

    /// No correlation data is pending twice.
    pub open spec fn correlations_pending_once(self) -> bool {
        forall|i: int, j: int|
            0 <= i < j < self.requests.len() ==> (#[trigger] self.requests[i]).correlation != (
            #[trigger] self.requests[j]).correlation
    }

    /// Only the front frame is partly written, the broker accepts the size of each, and
    /// nothing follows from the frame of a request having left.
    pub open spec fn frames_start_at_front(self) -> bool {
        forall|i: int|
            0 <= i < self.outbound.len() ==> (#[trigger] self.outbound[i]).offset
                <= self.outbound[i].bytes.len() <= self.peer_max_packet_size && (i > 0
                ==> self.outbound[i].offset == 0) && (self.outbound[i].correlation is Some
                ==> self.outbound[i].action is Nothing)
    }

    /// No response topic is cached twice.
    pub open spec fn topics_cached_once(self) -> bool {
        forall|i: int, j: int|
            0 <= i < j < self.subscriptions.len() ==> (#[trigger] self.subscriptions[i]).topic != (
            #[trigger] self.subscriptions[j]).topic
    }

    /// What holds of the driver at all times: identifiers are reserved once, the number
    /// of pending operations, of requests and of cached response topics and the bytes on
    /// their way out are within their limits, the bytes are counted right, the broker accepts the size of each
    /// packet in the queue, and at most one PINGREQ is on its way.
    pub open spec fn inv(self) -> bool {
        &&& self.next_packet_id != 0
        &&& self.ids_reserved_once()
        &&& self.acks.len() <= self.max_pending_operations
        &&& self.correlations_pending_once()
        &&& self.requests.len() <= self.max_pending_operations
        &&& self.frames_start_at_front()
        &&& self.topics_cached_once()
        &&& self.subscriptions.len() <= self.max_pending_operations
        &&& self.outbound_bytes == queued_bytes(self.outbound) + unflushed_bytes(self.flush_actions)
        &&& self.outbound_bytes <= self.max_outbound_queue_bytes
        &&& queued_pings(self.outbound) + unflushed_pings(self.flush_actions) <= (
        if self.ping_queued {
            1nat
        } else {
            0
        })
    }

    /// What was settled when the connection was made stays as it is.
    pub open spec fn same_terms(self, other: DriverView) -> bool {
        &&& self.keep_alive_secs == other.keep_alive_secs
        &&& self.peer_max_packet_size == other.peer_max_packet_size
        &&& self.peer_receive_maximum == other.peer_receive_maximum
        &&& self.capabilities == other.capabilities
        &&& self.max_outbound_queue_bytes == other.max_outbound_queue_bytes
        &&& self.max_pending_operations == other.max_pending_operations
        &&& self.ack_timeout == other.ack_timeout
        &&& self.poll_interval == other.poll_interval
    }

    /// What a step other than reading keeps.
    pub open spec fn kept_by(self, after: DriverView) -> bool {
        &&& after.inv()
        &&& after.same_terms(self)
        &&& after.reader == self.reader
    }
}

/// The acknowledgement that a packet identifier waits for is found at its position.
pub proof fn ack_position(acks: Seq<AckView>, id: u16, i: int)
    requires
        0 <= i <= acks.len(),
    ensures
        i <= ack_from(acks, id, i) <= acks.len(),
        ack_from(acks, id, i) < acks.len() ==> acks[ack_from(acks, id, i)].packet_id == id,
        forall|j: int| i <= j < ack_from(acks, id, i) ==> (#[trigger] acks[j]).packet_id != id,
    decreases acks.len() - i,
{
    if i < acks.len() {
        ack_position(acks, id, i + 1);
    }
}

/// The request with some correlation data is found at its position.
pub proof fn request_position(requests: Seq<RequestView>, correlation: Seq<u8>, i: int)
    requires
        0 <= i <= requests.len(),
    ensures
        i <= request_from(requests, correlation, i) <= requests.len(),
        request_from(requests, correlation, i) < requests.len() ==> requests[request_from(
            requests,
            correlation,
            i,
        )].correlation == correlation,
        forall|j: int|
            i <= j < request_from(requests, correlation, i) ==> (
            #[trigger] requests[j]).correlation != correlation,
    decreases requests.len() - i,
{
    if i < requests.len() {
        request_position(requests, correlation, i + 1);
    }
}

pub(crate) proof fn subscription_position(subs: Seq<SubscriptionView>, topic: Seq<char>, i: int)
    requires
        0 <= i <= subs.len(),
    ensures
        i <= subscription_from(subs, topic, i) <= subs.len(),
        subscription_from(subs, topic, i) < subs.len() ==> subs[subscription_from(
            subs,
            topic,
            i,
        )].topic == topic,
        forall|j: int|
            i <= j < subscription_from(subs, topic, i) ==> (#[trigger] subs[j]).topic != topic,
    decreases subs.len() - i,
{
    if i < subs.len() {
        subscription_position(subs, topic, i + 1);
    }
}

/// Reserving a packet identifier changes nothing but where the search starts; what it
/// finds is not zero and waits for no acknowledgement.
pub proof fn reserve_keeps(s: DriverView, tries: nat)
    requires
        s.inv(),
    ensures
        ({
            let (t, r) = s.reserve_within(tries);
            &&& t == (DriverView { next_packet_id: t.next_packet_id, ..s })
            &&& s.kept_by(t)
            &&& r matches Ok(id) ==> id != 0 && !t.has_ack(id) && !s.has_ack(id)
            &&& r matches Err(e) ==> e == Error::QueueFull("packet identifiers")
        }),
    decreases tries,
{
    if tries > 0 {
        let next = DriverView { next_packet_id: id_after(s.next_packet_id), ..s };
        reserve_keeps(next, (tries - 1) as nat);
    }
}

/// The packet identifier that the search looks at after `n` tries.
pub open spec fn id_at(start: u16, n: nat) -> u16
    decreases n,
{
    if n == 0 {
        start
    } else {
        id_after(id_at(start, (n - 1) as nat))
    }
}

proof fn id_at_value(start: u16, n: nat)
    requires
        start != 0,
        n <= 65535,
    ensures
        id_at(start, n) == (if start + n <= 65535 {
            start + n
        } else {
            start + n - 65535
        }),
    decreases n,
{
    if n > 0 {
        id_at_value(start, (n - 1) as nat);
    }
}

proof fn id_at_shift(start: u16, n: nat)
    ensures
        id_at(id_after(start), n) == id_at(start, n + 1),
    decreases n,
{
    reveal_with_fuel(id_at, 2);
    if n > 0 {
        id_at_shift(start, (n - 1) as nat);
    }
}

proof fn failed_search_saw_only_reserved(s: DriverView, tries: nat, n: nat)
    requires
        s.inv(),
        s.reserve_within(tries).1 is Err,
        n < tries,
    ensures
        s.has_ack(id_at(s.next_packet_id, n)),
    decreases tries,
{
    let next = DriverView { next_packet_id: id_after(s.next_packet_id), ..s };
    if n > 0 {
        failed_search_saw_only_reserved(next, (tries - 1) as nat, (n - 1) as nat);
        id_at_shift(s.next_packet_id, (n - 1) as nat);
    }
}

/// A packet identifier can be reserved unless every one of them waits for an
/// acknowledgement.
pub proof fn reserve_fails_only_when_all_are_reserved(s: DriverView, id: u16)
    requires
        s.inv(),
        s.reserve().1 is Err,
        id != 0,
    ensures
        s.has_ack(id),
{
    let start = s.next_packet_id;
    let n: nat = if id >= start {
        (id - start) as nat
    } else {
        (id + 65535 - start) as nat
    };
    id_at_value(start, n);
    failed_search_saw_only_reserved(s, 65535, n);
}

/// A packet identifier that is waited for was free, so it is waited for once.
pub proof fn await_ack_keeps(
    s: DriverView,
    packet_id: u16,
    kind: AckKindView,
    label: &'static str,
    now: int,
)
    requires
        s.inv(),
        packet_id != 0,
        !s.has_ack(packet_id),
    ensures
        s.kept_by(s.await_ack(packet_id, kind, label, now).0),
{
    ack_position(s.acks, packet_id, 0);
}

/// Queueing a frame that is no PINGREQ keeps the queue within its limit and counted right.
pub proof fn enqueue_keeps(
    s: DriverView,
    bytes: Seq<u8>,
    action: WrittenAction,
    correlation: Option<Seq<u8>>,
)
    requires
        s.inv(),
        !(action is PingReq),
        correlation is Some ==> action is Nothing,
    ensures
        s.kept_by(s.enqueue(bytes, action, correlation).0),
        s.enqueue(bytes, action, correlation).1 is Err ==> s.enqueue(bytes, action, correlation).0
            == s,
        s.enqueue(bytes, action, correlation).0.acks == s.acks,
        s.enqueue(bytes, action, correlation).0.requests == s.requests,
{
    let t = s.enqueue(bytes, action, correlation).0;
    if s.enqueue(bytes, action, correlation).1 is Ok {
        assert(t.outbound.drop_last() =~= s.outbound);
    }
}

/// Giving a packet identifier back keeps the others.
pub proof fn without_ack_keeps(s: DriverView, id: u16)
    requires
        s.inv(),
    ensures
        s.kept_by(s.without_ack(id)),
        !s.without_ack(id).has_ack(id),
        s.without_ack(id) == (DriverView { acks: s.without_ack(id).acks, ..s }),
{
    ack_position(s.acks, id, 0);
    let t = s.without_ack(id);
    ack_position(t.acks, id, 0);
    if s.has_ack(id) {
        let i = ack_from(s.acks, id, 0);
        assert forall|j: int| 0 <= j < t.acks.len() implies (#[trigger] t.acks[j]) == s.acks[if j
            < i {
            j
        } else {
            j + 1
        }] by {}
    }
}

proof fn retained_keeps(frames: Seq<FrameView>, correlation: Seq<u8>, total: usize)
    requires
        queued_bytes(frames) <= total,
    ensures
        queued_bytes(retained(frames, correlation)) <= queued_bytes(frames),
        bytes_left(total, frames, correlation) == total - queued_bytes(frames) + queued_bytes(
            retained(frames, correlation),
        ),
        queued_pings(retained(frames, correlation)) <= queued_pings(frames),
        retained(frames, correlation).len() <= frames.len(),
        forall|i: int|
            0 <= i < retained(frames, correlation).len() ==> frames.contains(
                #[trigger] retained(frames, correlation)[i],
            ),
        forall|i: int|
            0 <= i < retained(frames, correlation).len() && (forall|k: int|
                0 < k < frames.len() ==> (#[trigger] frames[k]).offset == 0) && i > 0 ==> (
            #[trigger] retained(frames, correlation)[i]).offset == 0,
        forall|i: int|
            0 <= i < retained(frames, correlation).len() ==> !is_unsent_request(
                #[trigger] retained(frames, correlation)[i],
                correlation,
            ),
    decreases frames.len(),
{
    if frames.len() > 0 {
        let front = frames.drop_last();
        retained_keeps(front, correlation, total);
        let kept = retained(front, correlation);
        let all = retained(frames, correlation);
        assert(all.len() > kept.len() ==> all.drop_last() =~= kept);
        assert forall|i: int| 0 <= i < all.len() implies frames.contains(#[trigger] all[i]) by {
            if i < kept.len() {
                assert(all[i] == kept[i]);
                assert(front.contains(kept[i]));
                let k = choose|k: int| 0 <= k < front.len() && front[k] == kept[i];
                assert(frames[k] == all[i]);
            } else {
                assert(frames[frames.len() - 1] == all[i]);
            }
        }
        if forall|k: int| 0 < k < frames.len() ==> (#[trigger] frames[k]).offset == 0 {
            assert forall|k: int| 0 < k < front.len() implies (#[trigger] front[k]).offset == 0 by {
                assert(front[k] == frames[k]);
            }
            assert forall|i: int| 0 <= i < all.len() && i > 0 implies (
            #[trigger] all[i]).offset == 0 by {
                if i < kept.len() {
                    assert(all[i] == kept[i]);
                } else {
                    assert(frames[frames.len() - 1] == all[i]);
                }
            }
        }
        assert forall|i: int| 0 <= i < all.len() implies !is_unsent_request(
            #[trigger] all[i],
            correlation,
        ) by {
            if i < kept.len() {
                assert(all[i] == kept[i]);
            }
        }
    }
}

proof fn bury_keeps(s: DriverView, i: int, kind: AckKindView)
    requires
        s.inv(),
        0 <= i < s.acks.len(),
    ensures
        s.kept_by(
            DriverView { acks: s.acks.update(i, AckView { kind, ..s.acks[i] }), ..s },
        ),
{
}

pub(crate) proof fn release_request_ack_keeps(
    s: DriverView,
    id: u16,
    correlation: Seq<u8>,
    unsent: bool,
)
    requires
        s.inv(),
    ensures
        s.kept_by(s.release_request_ack(id, correlation, unsent)),
{
    without_ack_keeps(s, id);
    ack_position(s.acks, id, 0);
    let i = ack_from(s.acks, id, 0);
    if i < s.acks.len() {
        bury_keeps(s, i, s.acks[i].kind.buried());
    }
}

/// Forgetting a request keeps everything else, and gives back its bytes in the queue.
pub proof fn remove_request_keeps(s: DriverView, correlation: Seq<u8>)
    requires
        s.inv(),
    ensures
        s.kept_by(s.remove_request(correlation).0),
        request_from(s.remove_request(correlation).0.requests, correlation, 0) >= s.remove_request(
            correlation,
        ).0.requests.len(),
{
    let i = request_from(s.requests, correlation, 0);
    request_position(s.requests, correlation, 0);
    let after = s.remove_request(correlation).0;
    if i < s.requests.len() {
        retained_keeps(s.outbound, correlation, s.outbound_bytes);
        let t = DriverView {
            requests: s.requests.remove(i),
            outbound: retained(s.outbound, correlation),
            outbound_bytes: bytes_left(s.outbound_bytes, s.outbound, correlation),
            ..s
        };
        assert forall|j: int| 0 <= j < t.outbound.len() implies (#[trigger] t.outbound[j]).offset
            <= t.outbound[j].bytes.len() <= t.peer_max_packet_size && (j > 0
            ==> t.outbound[j].offset == 0) && (t.outbound[j].correlation is Some
            ==> t.outbound[j].action is Nothing) by {
            assert(s.outbound.contains(t.outbound[j]));
            let k = choose|k: int| 0 <= k < s.outbound.len() && s.outbound[k] == t.outbound[j];
            assert(s.outbound[k].offset <= s.outbound[k].bytes.len());
        }
        assert forall|j: int| 0 <= j < t.requests.len() implies (#[trigger] t.requests[j])
            == s.requests[if j < i {
            j
        } else {
            j + 1
        }] by {}
        assert(t.inv());
        if let Some(id) = s.requests[i].publish_packet_id {
            release_request_ack_keeps(t, id, correlation, true);
            release_request_ack_keeps(t, id, correlation, false);
        }
        assert(after.requests == t.requests);
    }
    request_position(after.requests, correlation, 0);
}

/// Failing a request keeps the state well formed.
pub proof fn fail_request_keeps(s: DriverView, correlation: Seq<u8>, e: Error)
    requires
        s.inv(),
    ensures
        s.kept_by(s.fail_request(correlation, e).0),
{
    remove_request_keeps(s, correlation);
}

/// Failing several requests keeps the state well formed.
pub proof fn fail_all_keeps(s: DriverView, correlations: Seq<Seq<u8>>, e: Error)
    requires
        s.inv(),
    ensures
        s.kept_by(s.fail_all(correlations, e).0),
    decreases correlations.len(),
{
    if correlations.len() > 0 {
        fail_request_keeps(s, correlations[0], e);
        fail_all_keeps(s.fail_request(correlations[0], e).0, correlations.skip(1), e);
    }
}

proof fn remove_all_keeps(s: DriverView, correlations: Seq<Seq<u8>>)
    requires
        s.inv(),
    ensures
        s.kept_by(s.remove_all(correlations).0),
    decreases correlations.len(),
{
    if correlations.len() > 0 {
        remove_request_keeps(s, correlations[0]);
        remove_all_keeps(s.remove_request(correlations[0]).0, correlations.skip(1));
    }
}

proof fn send_request_keeps(s: DriverView, i: int, packet_id: Option<u16>, bytes: Seq<u8>)
    requires
        s.inv(),
        0 <= i < s.requests.len(),
    ensures
        s.kept_by(s.send_request(i, packet_id, bytes).0),
{
    let correlation = Some(s.requests[i].correlation);
    enqueue_keeps(s, bytes, WrittenAction::Nothing, correlation);
    let (queued, r) = s.enqueue(bytes, WrittenAction::Nothing, correlation);
    if let Some(id) = packet_id {
        without_ack_keeps(s, id);
    }
}

/// Publishing a request keeps everything within its limits.
pub proof fn publish_request_keeps(s: DriverView, correlation: Seq<u8>, now: int)
    requires
        s.inv(),
    ensures
        s.kept_by(s.publish_request(correlation, now).0),
{
    let i = request_from(s.requests, correlation, 0);
    request_position(s.requests, correlation, 0);
    if i < s.requests.len() && !s.requests[i].published {
        let pending = s.requests[i];
        match pending.qos {
            QoS::AtMostOnce => {
                if let Ok(bytes) = encoded_publish(DriverView::request_packet(pending, None)) {
                    send_request_keeps(s, i, None, bytes);
                }
            },
            QoS::AtLeastOnce => {
                reserve_keeps(s, 65535);
                if let (reserved, Ok(id)) = s.reserve() {
                    let kind = AckKindView::RequestPublish { correlation };
                    let label = "request publish acknowledgement";
                    await_ack_keeps(reserved, id, kind, label, now);
                    let waiting = reserved.await_ack(id, kind, label, now).0;
                    if let Ok(bytes) = encoded_publish(
                        DriverView::request_packet(pending, Some(id)),
                    ) {
                        send_request_keeps(waiting, i, Some(id), bytes);
                    }
                }
            },
        }
    }
}

proof fn publish_all_keeps(s: DriverView, correlations: Seq<Seq<u8>>, now: int)
    requires
        s.inv(),
    ensures
        s.kept_by(s.publish_all(correlations, now).0),
    decreases correlations.len(),
{
    if correlations.len() > 0 {
        publish_request_keeps(s, correlations[0], now);
        let (t, r) = s.publish_request(correlations[0], now);
        match r {
            Ok(_) => {
                publish_all_keeps(t, correlations.skip(1), now);
            },
            Err(e) => {
                fail_request_keeps(t, correlations[0], e);
                publish_all_keeps(
                    t.fail_request(correlations[0], e).0,
                    correlations.skip(1),
                    now,
                );
            },
        }
    }
}

pub(crate) proof fn subscription_keeps(s: DriverView, topic: Seq<char>)
    requires
        s.inv(),
    ensures
        s.subscriptions.len() < s.max_pending_operations ==> s.kept_by(s.with_subscription(topic)),
        s.kept_by(s.with_ready_subscription(topic)),
        s.kept_by(s.without_subscription(topic)),
{
    subscription_position(s.subscriptions, topic, 0);
    let i = subscription_from(s.subscriptions, topic, 0);
    let gone = s.without_subscription(topic).subscriptions;
    if i < s.subscriptions.len() {
        assert forall|j: int| 0 <= j < gone.len() implies (#[trigger] gone[j])
            == s.subscriptions[if j < i {
            j
        } else {
            j + 1
        }] by {}
    }
}

proof fn subscribe_for_responses_keeps(s: DriverView, topic: Seq<char>, now: int)
    requires
        s.inv(),
        s.subscriptions.len() < s.max_pending_operations,
    ensures
        s.kept_by(s.subscribe_for_responses(topic, now).0),
{
    reserve_keeps(s, 65535);
    if let (reserved, Ok(id)) = s.reserve() {
        let kind = AckKindView::ResponseSubscribe { topic };
        let label = "request subscription acknowledgement";
        await_ack_keeps(reserved, id, kind, label, now);
        let waiting = reserved.await_ack(id, kind, label, now).0;
        subscription_keeps(waiting, topic);
        let subscribing = waiting.with_subscription(topic);
        if let Ok(bytes) = encoded_subscribe(subscribe_packet(id, topic, QoS::AtLeastOnce)) {
            enqueue_keeps(subscribing, bytes, WrittenAction::Nothing, None);
            without_ack_keeps(subscribing, id);
            subscription_keeps(subscribing.without_ack(id), topic);
        }
    }
}

pub(crate) proof fn route_request_keeps(
    s: DriverView,
    correlation: Seq<u8>,
    topic: Seq<char>,
    now: int,
)
    requires
        s.inv(),
    ensures
        s.kept_by(s.route_request(correlation, topic, now).0),
{
    publish_request_keeps(s, correlation, now);
    if s.subscriptions.len() < s.max_pending_operations {
        subscribe_for_responses_keeps(s, topic, now);
    }
}

/// Starting a request keeps everything within its limits.
pub proof fn begin_request_keeps(
    s: DriverView,
    request: RequestCommandView,
    ticket: u64,
    cancelled: bool,
    now: int,
)
    requires
        s.inv(),
    ensures
        s.kept_by(s.begin_request(request, ticket, cancelled, now).0),
{
    let correlation = request.correlation_data;
    let topic = request.response_topic;
    request_position(s.requests, correlation, 0);
    if !cancelled && s.request_check(request, now) is Ok {
        let pending = RequestView {
            correlation,
            topic: request.topic,
            payload: request.payload,
            response_topic: topic,
            qos: request.qos,
            properties: request.properties,
            deadline: now + request.timeout.spec_nanos(),
            ticket,
            publish_packet_id: None,
            published: false,
        };
        let t = DriverView { requests: s.requests.push(pending), ..s };
        assert(t.inv());
        route_request_keeps(t, correlation, topic, now);
        let (u, r) = t.route_request(correlation, topic, now);
        if let Err(e) = r {
            fail_request_keeps(u, correlation, e);
        }
    }
}

proof fn send_awaited_keeps(
    s: DriverView,
    packet_id: u16,
    bytes: Seq<u8>,
    kind: AckKindView,
    label: &'static str,
    now: int,
)
    requires
        s.inv(),
        packet_id != 0,
        !s.has_ack(packet_id),
    ensures
        s.kept_by(s.send_awaited(packet_id, bytes, kind, label, now).0),
{
    await_ack_keeps(s, packet_id, kind, label, now);
    let waiting = s.await_ack(packet_id, kind, label, now).0;
    enqueue_keeps(waiting, bytes, WrittenAction::Nothing, None);
    without_ack_keeps(waiting, packet_id);
}

/// Starting a publish keeps everything within its limits.
pub proof fn begin_publish_keeps(
    s: DriverView,
    topic: Seq<char>,
    payload: Seq<u8>,
    options: PublishOptionsView,
    ticket: u64,
    now: int,
)
    requires
        s.inv(),
    ensures
        s.kept_by(s.begin_publish(topic, payload, options, ticket, now).0),
{
    let packet = PublishPacketView {
        topic,
        packet_id: None,
        payload,
        qos: options.qos,
        retain: options.retain,
        dup: false,
        properties: options.properties,
    };
    if let Ok(bytes) = encoded_publish(packet) {
        enqueue_keeps(s, bytes, WrittenAction::PublishQos0 { ticket }, None);
    }
    reserve_keeps(s, 65535);
    if let (reserved, Ok(id)) = s.reserve() {
        if let Ok(bytes) = encoded_publish(PublishPacketView { packet_id: Some(id), ..packet }) {
            send_awaited_keeps(
                reserved,
                id,
                bytes,
                AckKindView::Publish { ticket },
                "publish acknowledgement",
                now,
            );
        }
    }
}

/// Starting a subscription keeps everything within its limits.
pub proof fn begin_subscribe_keeps(
    s: DriverView,
    filter: Seq<char>,
    qos: QoS,
    ticket: u64,
    now: int,
)
    requires
        s.inv(),
    ensures
        s.kept_by(s.begin_subscribe(filter, qos, ticket, now).0),
{
    reserve_keeps(s, 65535);
    if let (reserved, Ok(id)) = s.reserve() {
        if let Ok(bytes) = encoded_subscribe(subscribe_packet(id, filter, qos)) {
            send_awaited_keeps(
                reserved,
                id,
                bytes,
                AckKindView::Subscribe { requested_qos: qos, ticket },
                "subscription acknowledgement",
                now,
            );
        }
    }
}

/// Ending a subscription keeps everything within its limits.
pub proof fn begin_unsubscribe_keeps(s: DriverView, filter: Seq<char>, ticket: u64, now: int)
    requires
        s.inv(),
    ensures
        s.kept_by(s.begin_unsubscribe(filter, ticket, now).0),
{
    reserve_keeps(s, 65535);
    if let (reserved, Ok(id)) = s.reserve() {
        if let Ok(bytes) = encoded_unsubscribe(unsubscribe_packet(id, filter)) {
            send_awaited_keeps(
                reserved,
                id,
                bytes,
                AckKindView::Unsubscribe { filter, ticket },
                "unsubscribe acknowledgement",
                now,
            );
        }
    }
}

/// Saying goodbye keeps everything within its limits.
pub proof fn begin_disconnect_keeps(s: DriverView, ticket: u64)
    requires
        s.inv(),
    ensures
        s.kept_by(s.begin_disconnect(ticket).0),
        s.kept_by(s.begin_abandoned_disconnect().0),
{
    let bytes = crate::async_client::model::goodbye();
    enqueue_keeps(s, bytes, WrittenAction::Disconnect { ticket }, None);
    enqueue_keeps(
        DriverView { closing: true, ..s },
        bytes,
        WrittenAction::AbandonedDisconnect,
        None,
    );
}

proof fn unflushed_front(flushes: Seq<PendingFlush>)
    requires
        flushes.len() > 0,
    ensures
        unflushed_bytes(flushes) == flushes[0].bytes + unflushed_bytes(flushes.skip(1)),
        unflushed_pings(flushes) == (if flushes[0].action is PingReq {
            1nat
        } else {
            0
        }) + unflushed_pings(flushes.skip(1)),
    decreases flushes.len(),
{
    if flushes.len() > 1 {
        unflushed_front(flushes.drop_last());
        assert(flushes.skip(1).drop_last() =~= flushes.drop_last().skip(1));
    } else {
        assert(flushes.skip(1) =~= Seq::empty());
        assert(flushes.drop_last() =~= Seq::empty());
    }
}

proof fn queued_front(frames: Seq<FrameView>)
    requires
        frames.len() > 0,
    ensures
        queued_bytes(frames) == frames[0].bytes.len() + queued_bytes(frames.skip(1)),
        queued_pings(frames) == (if frames[0].action is PingReq {
            1nat
        } else {
            0
        }) + queued_pings(frames.skip(1)),
    decreases frames.len(),
{
    if frames.len() > 1 {
        queued_front(frames.drop_last());
        assert(frames.skip(1).drop_last() =~= frames.drop_last().skip(1));
    } else {
        assert(frames.skip(1) =~= Seq::empty());
        assert(frames.drop_last() =~= Seq::empty());
    }
}

/// A flush of the transport gives back the bytes of what was written.
pub proof fn flushed_keeps(s: DriverView, now: int)
    requires
        s.inv(),
    ensures
        s.kept_by(s.flushed(now).0),
        s.flushed(now).0.flush_actions.len() == 0,
        !s.flushed(now).0.needs_flush,
        s.flushed(now).0.outbound == s.outbound,
        s.flushed(now).0.acks == s.acks,
        s.flushed(now).0.requests == s.requests,
    decreases s.flush_actions.len(),
{
    if s.flush_actions.len() > 0 {
        let flush = s.flush_actions[0];
        unflushed_front(s.flush_actions);
        let popped = DriverView {
            flush_actions: s.flush_actions.skip(1),
            outbound_bytes: less(s.outbound_bytes, flush.bytes as int),
            ..s
        };
        let (done, says) = popped.complete_written(flush.action, now);
        assert(done.inv());
        flushed_keeps(done, now);
    }
}

/// Writing part of the front frame keeps the queue counted right.
pub proof fn advanced_keeps(s: DriverView, written: usize, now: int)
    requires
        s.inv(),
        s.outbound.len() > 0,
        s.outbound[0].offset + written <= s.outbound[0].bytes.len() <= usize::MAX,
    ensures
        s.kept_by(s.advanced(written, now)),
{
    let t = s.advanced(written, now);
    let front = s.outbound[0];
    queued_front(s.outbound);
    if front.offset + written == front.bytes.len() {
        assert(t.flush_actions.drop_last() =~= s.flush_actions);
        assert forall|i: int| 0 <= i < t.outbound.len() implies (#[trigger] t.outbound[i])
            == s.outbound[i + 1] by {}
    } else {
        queued_front(t.outbound);
        assert(t.outbound.skip(1) =~= s.outbound.skip(1));
    }
}

pub(crate) proof fn take_ack_keeps(s: DriverView, packet_id: u16, received: AckClass)
    requires
        s.inv(),
    ensures
        s.kept_by(s.take_ack(packet_id, received).0),
{
    ack_position(s.acks, packet_id, 0);
    let t = s.take_ack(packet_id, received).0;
    let i = ack_from(s.acks, packet_id, 0);
    if t.acks.len() < s.acks.len() {
        assert forall|j: int| 0 <= j < t.acks.len() implies (#[trigger] t.acks[j]) == s.acks[if j
            < i {
            j
        } else {
            j + 1
        }] by {}
    }
}

proof fn dispatch_acks_keep(
    s: DriverView,
    puback: PubAckPacket,
    suback: AckCodesView,
    unsuback: AckCodesView,
    now: int,
)
    requires
        s.inv(),
    ensures
        s.kept_by(s.dispatch_puback(puback).0),
        s.kept_by(s.dispatch_suback(suback, now).0),
        s.kept_by(s.dispatch_unsuback(unsuback).0),
{
    reveal(DriverView::dispatch_puback);
    reveal(DriverView::dispatch_suback);
    reveal(DriverView::dispatch_unsuback);
    take_ack_keeps(s, puback.packet_id, AckClass::Publish);
    let (t, taken) = s.take_ack(puback.packet_id, AckClass::Publish);
    if let Ok(Some(pending)) = taken {
        if let AckKindView::RequestPublish { correlation } = pending.kind {
            fail_request_keeps(
                t,
                correlation,
                Error::AckRejected { packet: "PUBACK", reason_code: puback.reason_code },
            );
        }
    }
    take_ack_keeps(s, suback.packet_id, AckClass::Subscribe);
    let (u, taken) = s.take_ack(suback.packet_id, AckClass::Subscribe);
    if let Ok(Some(pending)) = taken {
        if let AckKindView::ResponseSubscribe { topic } = pending.kind {
            subscription_keeps(u, topic);
            let ready = u.with_ready_subscription(topic);
            publish_all_keeps(ready, requests_for(ready.requests, topic, true), now);
            let gone = u.without_subscription(topic);
            if let Err(e) = crate::codec::subscribe::suback_check(
                suback.reason_codes,
                seq![QoS::AtLeastOnce],
            ) {
                fail_all_keeps(gone, requests_for(gone.requests, topic, false), e);
            }
        }
    }
    take_ack_keeps(s, unsuback.packet_id, AckClass::Unsubscribe);
    let (v, taken) = s.take_ack(unsuback.packet_id, AckClass::Unsubscribe);
    if let Ok(Some(pending)) = taken {
        if let AckKindView::Unsubscribe { filter, .. } = pending.kind {
            subscription_keeps(v, filter);
        }
    }
}

proof fn dispatch_publish_keeps(s: DriverView, packet: PublishPacketView)
    requires
        s.inv(),
    ensures
        s.kept_by(s.dispatch_publish(packet).0),
{
    reveal(DriverView::dispatch_publish);
    if let Some(packet_id) = packet.packet_id {
        if let Ok(bytes) = crate::codec::publish::encoded_puback(
            PubAckPacket { packet_id, reason_code: 0 },
        ) {
            enqueue_keeps(s, bytes, WrittenAction::Nothing, None);
        }
    }
    let t = s.acknowledge(packet).0;
    assert(s.kept_by(t));
    if let Some(i) = t.answered(packet) {
        remove_request_keeps(t, t.requests[i].correlation);
    }
}

/// Once the connection is over nothing waits any more.
pub proof fn fail_pending_keeps(s: DriverView)
    requires
        s.inv(),
    ensures
        s.kept_by(s.fail_pending().0),
        s.fail_pending().0.acks.len() == 0,
        s.fail_pending().0.requests.len() == 0,
        s.fail_pending().0.outbound.len() == 0,
        s.fail_pending().0.flush_actions.len() == 0,
{
}

/// Whatever packet arrives, everything stays within its limits.
pub proof fn dispatch_packet_keeps(s: DriverView, packet: PacketView, now: int)
    requires
        s.inv(),
    ensures
        s.kept_by(s.dispatch_packet(packet, now).0),
{
    match packet {
        PacketView::Publish(p) => {
            dispatch_publish_keeps(s, p);
        },
        PacketView::PubAck(ack) => {
            dispatch_acks_keep(s, ack, arbitrary(), arbitrary(), now);
        },
        PacketView::SubAck(ack) => {
            dispatch_acks_keep(s, arbitrary(), ack, arbitrary(), now);
        },
        PacketView::UnsubAck(ack) => {
            dispatch_acks_keep(s, arbitrary(), arbitrary(), ack, now);
        },
        PacketView::Disconnect(d) => {
            fail_pending_keeps(s);
        },
        _ => {},
    }
}

/// Taking out and dispatching one packet keeps the invariant, and what is left of the
/// input is less where one was there.
pub proof fn drain_one_keeps(s: DriverView, now: int)
    requires
        s.inv(),
    ensures
        s.drain_one(now).0.inv(),
        s.drain_one(now).0.same_terms(s),
        s.drain_one(now).2 matches Ok(Some(_)) ==> s.drain_one(now).0.reader.buf.len()
            < s.reader.buf.len(),
{
    reveal(DriverView::drain_one);
    let rest = s.reader.after_next();
    let t = DriverView { reader: rest, ..s };
    assert(t.inv());
    if let Ok(Some(packet)) = s.reader.next_packet() {
        header_len_bounds(s.reader.buf);
        dispatch_packet_keeps(t, packet, now);
    }
}

/// Whatever bytes arrive, everything stays within its limits.
pub proof fn drain_packets_keeps(s: DriverView, now: int)
    requires
        s.inv(),
    ensures
        s.drain_packets(now).0.inv(),
        s.drain_packets(now).0.same_terms(s),
    decreases s.reader.buf.len(),
{
    drain_one_keeps(s, now);
    let (t, _, result) = s.drain_one(now);
    if result matches Ok(Some(None)) {
        drain_packets_keeps(t, now);
    }
}

pub(crate) proof fn expire_ack_keeps(s: DriverView, id: u16)
    requires
        s.inv(),
    ensures
        s.kept_by(s.expire_ack(id).0),
{
    ack_position(s.acks, id, 0);
    let i = ack_from(s.acks, id, 0);
    if i < s.acks.len() {
        let ack = s.acks[i];
        bury_keeps(s, i, ack.kind.buried());
        let t = DriverView { acks: s.acks.update(i, ack.buried()), ..s };
        let late = Error::Timeout(ack.label);
        match ack.kind {
            AckKindView::ResponseSubscribe { topic } => {
                subscription_keeps(t, topic);
                let u = t.without_subscription(topic);
                fail_all_keeps(u, requests_for(u.requests, topic, false), late);
            },
            AckKindView::RequestPublish { correlation } => {
                fail_request_keeps(s, correlation, late);
                release_request_ack_keeps(s.fail_request(correlation, late).0, id, correlation, false);
            },
            _ => {},
        }
    }
}

pub(crate) proof fn expire_acks_keeps(s: DriverView, ids: Seq<u16>)
    requires
        s.inv(),
    ensures
        s.kept_by(s.expire_acks(ids).0),
    decreases ids.len(),
{
    if ids.len() > 0 {
        expire_ack_keeps(s, ids[0]);
        expire_acks_keeps(s.expire_ack(ids[0]).0, ids.skip(1));
    }
}

proof fn expire_requests_keeps(s: DriverView, correlations: Seq<Seq<u8>>, cancelled: Seq<u64>)
    requires
        s.inv(),
    ensures
        s.kept_by(s.expire_requests(correlations, cancelled).0),
    decreases correlations.len(),
{
    if correlations.len() > 0 {
        remove_request_keeps(s, correlations[0]);
        fail_request_keeps(s, correlations[0], Error::Timeout("request response"));
        expire_requests_keeps(
            s.expire_request(correlations[0], cancelled).0,
            correlations.skip(1),
            cancelled,
        );
    }
}

pub(crate) proof fn bury_cancelled_keeps(s: DriverView, cancelled: Seq<u64>)
    requires
        s.inv(),
    ensures
        s.kept_by(DriverView { acks: bury_cancelled(s.acks, cancelled), ..s }),
{
}

/// Letting go of cancelled and overdue operations keeps everything within its limits.
pub proof fn expire_operations_keeps(s: DriverView, now: int, cancelled: Seq<u64>)
    requires
        s.inv(),
    ensures
        s.kept_by(s.expire_operations(now, cancelled).0),
{
    let t = DriverView { acks: bury_cancelled(s.acks, cancelled), ..s };
    bury_cancelled_keeps(s, cancelled);
    let ids = overdue_acks(t.acks, now);
    expire_acks_keeps(t, ids);
    let u = t.expire_acks(ids).0;
    expire_requests_keeps(u, overdue_requests(u.requests, now, cancelled), cancelled);
}

/// Forgetting requests that nobody waits for keeps everything within its limits.
pub proof fn drain_cancellations_keeps(s: DriverView, correlations: Seq<Seq<u8>>)
    requires
        s.inv(),
    ensures
        s.kept_by(s.remove_all(correlations).0),
{
    remove_all_keeps(s, correlations);
}

/// Keeping the connection alive never puts a second PINGREQ on its way.
pub proof fn maintain_keep_alive_keeps(s: DriverView, now: int)
    requires
        s.inv(),
    ensures
        s.kept_by(s.maintain_keep_alive(now).0),
{
    let (t, r) = s.enqueue(PINGREQ_BYTES@, WrittenAction::PingReq, None);
    if r is Ok {
        assert(t.outbound.drop_last() =~= s.outbound);
    }
}

/// An acknowledgement of another packet type than the one that is waited for is an error
/// and changes nothing: whoever waits goes on waiting, and the packet identifier stays
/// reserved.
pub proof fn mismatched_acks_change_nothing(
    s: DriverView,
    puback: PubAckPacket,
    suback: AckCodesView,
    unsuback: AckCodesView,
    now: int,
)
    ensures
        s.awaits_other(puback.packet_id, AckClass::Publish) ==> s.dispatch_puback(puback) == (
            s,
            Seq::<NoticeView>::empty(),
            Err::<(), _>(mismatch()),
        ),
        s.awaits_other(suback.packet_id, AckClass::Subscribe) ==> s.dispatch_suback(suback, now)
            == (s, Seq::<NoticeView>::empty(), Err::<(), _>(mismatch())),
        s.awaits_other(unsuback.packet_id, AckClass::Unsubscribe) ==> s.dispatch_unsuback(unsuback)
            == (s, Seq::<NoticeView>::empty(), Err::<(), _>(mismatch())),
{
    reveal(DriverView::dispatch_puback);
    reveal(DriverView::dispatch_suback);
    reveal(DriverView::dispatch_unsuback);
}

/// The error for an acknowledgement of the wrong packet type.
pub open spec fn mismatch() -> Error {
    Error::UnexpectedPacket("acknowledgement type does not match pending packet id")
}

impl DriverView {
    /// Whether the packet identifier waits for an acknowledgement of another class.
    pub open spec fn awaits_other(self, id: u16, received: AckClass) -> bool {
        self.has_ack(id) && self.acks[ack_from(self.acks, id, 0)].kind.ack_class() != received
    }

    /// Whether the packet identifier waits for an acknowledgement that nobody wants to
    /// know of any more.
    pub open spec fn is_buried(self, id: u16) -> bool {
        self.has_ack(id) && self.acks[ack_from(self.acks, id, 0)].kind is Tombstone
    }
}

/// The acknowledgement of an operation that was cancelled or has timed out gives back its
/// packet identifier, and nobody is told.
pub proof fn late_acks_are_silent(
    s: DriverView,
    puback: PubAckPacket,
    suback: AckCodesView,
    unsuback: AckCodesView,
    now: int,
)
    requires
        s.inv(),
    ensures
        s.is_buried(puback.packet_id) && !s.awaits_other(puback.packet_id, AckClass::Publish)
            ==> s.dispatch_puback(puback) == (
            s.without_ack(puback.packet_id),
            Seq::<NoticeView>::empty(),
            Ok::<(), Error>(()),
        ),
        s.is_buried(suback.packet_id) && !s.awaits_other(suback.packet_id, AckClass::Subscribe)
            ==> s.dispatch_suback(suback, now) == (
            s.without_ack(suback.packet_id),
            Seq::<NoticeView>::empty(),
            Ok::<(), Error>(()),
        ),
        s.is_buried(unsuback.packet_id) && !s.awaits_other(
            unsuback.packet_id,
            AckClass::Unsubscribe,
        ) ==> s.dispatch_unsuback(unsuback) == (
            s.without_ack(unsuback.packet_id),
            Seq::<NoticeView>::empty(),
            Ok::<(), Error>(()),
        ),
        !s.without_ack(puback.packet_id).has_ack(puback.packet_id),
{
    reveal(DriverView::dispatch_puback);
    reveal(DriverView::dispatch_suback);
    reveal(DriverView::dispatch_unsuback);
    without_ack_keeps(s, puback.packet_id);
}

/// The packet identifier of an operation that times out or is cancelled stays reserved
/// for an acknowledgement of the same class, and goes on counting toward the broker's
/// receive maximum.
pub proof fn timed_out_ids_stay_reserved(s: DriverView, id: u16, cancelled: Seq<u64>)
    requires
        s.inv(),
        s.has_ack(id),
        s.acks[ack_from(s.acks, id, 0)].kind.ticket() is Some,
    ensures
        ({
            let i = ack_from(s.acks, id, 0);
            let after = s.expire_ack(id).0;
            &&& after == (DriverView { acks: s.acks.update(i, s.acks[i].buried()), ..s })
            &&& after.is_buried(id)
            &&& !after.awaits_other(id, s.acks[i].kind.ack_class())
            &&& after.acks[i].kind.is_qos1_publish() == s.acks[i].kind.is_qos1_publish()
        }),
        ({
            let i = ack_from(s.acks, id, 0);
            let after = bury_cancelled(s.acks, cancelled);
            &&& ack_from(after, id, 0) == i
            &&& after[i].kind.ack_class() == s.acks[i].kind.ack_class()
            &&& after[i].kind.is_qos1_publish() == s.acks[i].kind.is_qos1_publish()
        }),
{
    let i = ack_from(s.acks, id, 0);
    ack_position(s.acks, id, 0);
    let buried = s.acks.update(i, s.acks[i].buried());
    ack_position(buried, id, 0);
    let k = ack_from(buried, id, 0);
    assert(buried[i].packet_id == id);
    assert(k == i) by {
        if k < i {
            assert(buried[k] == s.acks[k]);
        }
    }
    let after = bury_cancelled(s.acks, cancelled);
    ack_position(after, id, 0);
    let m = ack_from(after, id, 0);
    assert(after[i].packet_id == id);
    assert(m == i) by {
        if m < i {
            assert(after[m].packet_id == s.acks[m].packet_id);
        }
    }
}

/// A PUBLISH packet answers a request exactly where it carries the request's correlation
/// data and comes on its response topic.
pub proof fn reply_matches_topic_and_correlation(
    s: DriverView,
    packet: PublishPacketView,
    correlation: Seq<u8>,
    i: int,
)
    requires
        s.inv(),
        0 <= i < s.requests.len(),
        first_value(packet.properties, PropertyId::CorrelationData, ValueKind::Binary) == Some(
            PropertyValueView::Binary(correlation),
        ),
    ensures
        s.answered(packet) == Some(i) <==> s.requests[i].correlation == correlation
            && s.requests[i].response_topic == packet.topic,
{
    request_position(s.requests, correlation, 0);
}

/// A PUBLISH packet without correlation data answers no request.
pub proof fn reply_needs_correlation_data(s: DriverView, packet: PublishPacketView)
    requires
        first_value(packet.properties, PropertyId::CorrelationData, ValueKind::Binary) is None,
    ensures
        s.answered(packet) is None,
{
}

proof fn qos1_count_prefix(acks: Seq<AckView>, more: Seq<AckView>, n: nat)
    requires
        n <= acks.len() <= more.len(),
        forall|i: int| 0 <= i < n ==> acks[i] == more[i],
    ensures
        qos1_count(acks, n) == qos1_count(more, n),
    decreases n,
{
    if n > 0 {
        qos1_count_prefix(acks, more, (n - 1) as nat);
    }
}

proof fn qos1_count_push(acks: Seq<AckView>, ack: AckView)
    ensures
        qos1_count(acks.push(ack), acks.push(ack).len()) == qos1_count(acks, acks.len()) + (
        if ack.kind.is_qos1_publish() {
            1nat
        } else {
            0
        }),
{
    qos1_count_prefix(acks, acks.push(ack), acks.len());
}

proof fn await_then_give_back(s: DriverView, ack: AckView)
    requires
        !s.has_ack(ack.packet_id),
    ensures
        (DriverView { acks: s.acks.push(ack), ..s }).without_ack(ack.packet_id).acks == s.acks,
{
    let w = s.acks.push(ack);
    ack_position(s.acks, ack.packet_id, 0);
    ack_position(w, ack.packet_id, 0);
    let k = ack_from(w, ack.packet_id, 0);
    assert(w[s.acks.len() as int].packet_id == ack.packet_id);
    assert(k == s.acks.len()) by {
        if k < s.acks.len() {
            assert(w[k] == s.acks[k]);
        }
    }
    assert(w.remove(k) =~= s.acks);
}

/// A publish never takes the number of unacknowledged QoS 1 PUBLISH packets beyond the
/// broker's receive maximum.
pub proof fn publish_honours_receive_maximum(
    s: DriverView,
    topic: Seq<char>,
    payload: Seq<u8>,
    options: PublishOptionsView,
    ticket: u64,
    now: int,
)
    requires
        s.inv(),
    ensures
        ({
            let after = s.begin_publish(topic, payload, options, ticket, now).0;
            qos1_count(after.acks, after.acks.len()) > qos1_count(s.acks, s.acks.len())
                ==> qos1_count(after.acks, after.acks.len()) <= s.peer_receive_maximum
        }),
{
    reserve_keeps(s, 65535);
    if let (reserved, Ok(id)) = s.reserve() {
        let ack = AckView {
            packet_id: id,
            deadline: now + s.ack_timeout,
            label: "publish acknowledgement",
            kind: AckKindView::Publish { ticket },
        };
        qos1_count_push(s.acks, ack);
        await_then_give_back(reserved, ack);
    }
}

/// Publishing a request never takes the number of unacknowledged QoS 1 PUBLISH packets
/// beyond the broker's receive maximum.
pub proof fn request_honours_receive_maximum(s: DriverView, correlation: Seq<u8>, now: int)
    requires
        s.inv(),
    ensures
        ({
            let after = s.publish_request(correlation, now).0;
            qos1_count(after.acks, after.acks.len()) > qos1_count(s.acks, s.acks.len())
                ==> qos1_count(after.acks, after.acks.len()) <= s.peer_receive_maximum
        }),
{
    reserve_keeps(s, 65535);
    if let (reserved, Ok(id)) = s.reserve() {
        let ack = AckView {
            packet_id: id,
            deadline: now + s.ack_timeout,
            label: "request publish acknowledgement",
            kind: AckKindView::RequestPublish { correlation },
        };
        qos1_count_push(s.acks, ack);
        await_then_give_back(reserved, ack);
    }
}

/// The number of cached response topics is never beyond the limit on pending operations,
/// whatever request is started, whatever arrives and whatever expires.
pub proof fn response_topics_are_capped(
    s: DriverView,
    request: RequestCommandView,
    ticket: u64,
    cancelled: bool,
    tickets: Seq<u64>,
    now: int,
)
    requires
        s.inv(),
    ensures
        s.subscriptions.len() <= s.max_pending_operations,
        s.begin_request(request, ticket, cancelled, now).0.subscriptions.len()
            <= s.max_pending_operations,
        s.drain_packets(now).0.subscriptions.len() <= s.max_pending_operations,
        s.expire_operations(now, tickets).0.subscriptions.len() <= s.max_pending_operations,
{
    begin_request_keeps(s, request, ticket, cancelled, now);
    drain_packets_keeps(s, now);
    expire_operations_keeps(s, now, tickets);
}

/// Forgetting a request leaves every acknowledgement that is not its own as it is: no other
/// operation loses its packet identifier.
pub proof fn forgetting_spares_other_acks(s: DriverView, correlation: Seq<u8>, id: u16)
    requires
        s.inv(),
        !s.awaits_request(id, correlation),
    ensures
        ({
            let after = s.remove_request(correlation).0;
            &&& after.has_ack(id) == s.has_ack(id)
            &&& s.has_ack(id) ==> after.acks[ack_from(after.acks, id, 0)] == s.acks[ack_from(
                s.acks,
                id,
                0,
            )]
        }),
{
    let after = s.remove_request(correlation).0;
    remove_request_keeps(s, correlation);
    ack_position(s.acks, id, 0);
    ack_position(after.acks, id, 0);
    let i = request_from(s.requests, correlation, 0);
    if i < s.requests.len() {
        if let Some(other) = s.requests[i].publish_packet_id {
            let k = ack_from(s.acks, other, 0);
            let j = ack_from(s.acks, id, 0);
            ack_position(s.acks, other, 0);
            if after.acks != s.acks {
                assert(s.awaits_request(other, correlation));
                assert(other != id);
                if after.acks.len() < s.acks.len() {
                    assert(after.acks =~= s.acks.remove(k));
                    if j < s.acks.len() {
                        let at = if j < k {
                            j
                        } else {
                            j - 1
                        };
                        assert(after.acks[at] == s.acks[j]);
                    }
                    let m = ack_from(after.acks, id, 0);
                    if m < after.acks.len() {
                        let from = if m < k {
                            m
                        } else {
                            m + 1
                        };
                        assert(after.acks[m] == s.acks[from]);
                    }
                } else {
                    assert(after.acks =~= s.acks.update(k, s.acks[k].buried()));
                    if j < s.acks.len() {
                        assert(after.acks[j] == s.acks[j]);
                    }
                    let m = ack_from(after.acks, id, 0);
                    if m < after.acks.len() && m != k {
                        assert(after.acks[m] == s.acks[m]);
                    }
                }
            }
        }
    }
}

} // verus!
