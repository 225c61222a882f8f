//! What becomes of requests: which packets go out for one, and that they are the caller's.
use vstd::prelude::*;

use crate::async_client::admission::{
    can_send_more, fits_queue, free_id_is_reserved, has_room, numbered,
};
use crate::async_client::driver::{processed, Command};
use crate::async_client::laws::{
    ack_position, begin_disconnect_keeps, begin_publish_keeps, begin_request_keeps,
    begin_subscribe_keeps, begin_unsubscribe_keeps, fail_request_keeps,
    publish_request_keeps, request_position, reserve_keeps, route_request_keeps,
    subscription_keeps, subscription_position, take_ack_keeps, without_ack_keeps,
};
use crate::async_client::model::{
    ack_from, is_unsent_request, qos1_count, request_from, requests_for, responded, retained,
    subscription_from, AckClass, AckKindView, AckView, DriverView, FrameView, RequestView,
};
use crate::async_client::wire::{
    queued_one, single_subscription_is_heard, uncached_topic_is_gone,
};
use crate::async_client::{NoticeView, OutcomeView};
use crate::codec::broker::{heard, publish_is_heard, Heard};
use crate::codec::properties::{first_value, Entry, PropertyId, PropertyValueView, ValueKind};
use crate::codec::publish::encoded_publish;
use crate::codec::subscribe::{granted_from, suback_check};
use crate::codec::types::{AckCodesView, PacketView, PubAckPacket, PublishPacketView, QoS};
use crate::error::Error;
use crate::request_response::{
    command_of, request_carries_its_routing, RequestCommand, RequestOptionsView,
};

verus! {

/// Whether a broker reads in these bytes a first PUBLISH packet, not retained, with this
/// topic, payload and QoS level, and with a packet identifier exactly at QoS 1.
pub open spec fn asks_service(
    bytes: Seq<u8>,
    topic: Seq<char>,
    payload: Seq<u8>,
    qos: QoS,
) -> bool {
    heard(bytes) matches Some(Heard::Publish(message)) && {
        &&& message.topic == topic
        &&& message.payload == payload
        &&& message.qos == qos
        &&& !message.retain
        &&& !message.dup
        &&& (message.packet_id is Some <==> qos == QoS::AtLeastOnce)
    }
}

/// Whether these properties tell a receiver where to send the response, and which
/// correlation data to put in it, and are otherwise what the caller gave.
pub open spec fn routes_response(
    properties: Seq<Entry>,
    o: RequestOptionsView,
    data: Seq<u8>,
) -> bool {
    &&& first_value(properties, PropertyId::ResponseTopic, ValueKind::Str) == Some(
        PropertyValueView::Str(o.response_topic),
    )
    &&& first_value(properties, PropertyId::CorrelationData, ValueKind::Binary) == Some(
        PropertyValueView::Binary(data),
    )
    &&& forall|id: PropertyId, kind: ValueKind|
        id != PropertyId::ResponseTopic && id != PropertyId::CorrelationData
            ==> #[trigger] first_value(properties, id, kind) == first_value(
            o.properties,
            id,
            kind,
        )
}

/// Whether a frame is the PUBLISH packet of a request that a caller made: it goes to the
/// topic that the caller named, with the caller's payload, QoS level and properties, and
/// with the response topic and the correlation data.
pub open spec fn carries_request(
    frame: FrameView,
    topic: Seq<char>,
    payload: Seq<u8>,
    o: RequestOptionsView,
    data: Seq<u8>,
) -> bool {
    &&& frame.correlation == Some(data)
    &&& frame.offset == 0
    &&& asks_service(frame.bytes, topic, payload, o.qos)
    &&& heard(frame.bytes) matches Some(Heard::Publish(message)) && routes_response(
        message.properties,
        o,
        data,
    )
}

/// Whether a frame is the PUBLISH packet of a pending request, unwritten.
pub open spec fn is_request_frame(frame: FrameView, request: RequestView) -> bool {
    &&& frame.correlation == Some(request.correlation)
    &&& frame.offset == 0
    &&& asks_service(frame.bytes, request.topic, request.payload, request.qos)
    &&& heard(frame.bytes) matches Some(Heard::Publish(message)) && message.properties
        == request.properties
}

/// Whether whoever waits for a response with this ticket is told that none will come.
pub open spec fn told_failure(says: Seq<NoticeView>, ticket: u64) -> bool {
    exists|k: int|
        0 <= k < says.len() && (#[trigger] says[k] matches NoticeView::Complete {
            ticket: told,
            outcome: OutcomeView::Response(Err(_)),
        } && told == ticket)
}

/// Whether the PUBLISH packet of a request is in the queue.
pub open spec fn is_queued(s: DriverView, request: RequestView) -> bool {
    exists|j: int| 0 <= j < s.outbound.len() && is_request_frame(#[trigger] s.outbound[j], request)
}

proof fn told_in_either(first: Seq<NoticeView>, second: Seq<NoticeView>, ticket: u64)
    ensures
        told_failure(first, ticket) || told_failure(second, ticket) ==> told_failure(
            first + second,
            ticket,
        ),
{
    let both = first + second;
    if told_failure(first, ticket) {
        let k = choose|k: int|
            0 <= k < first.len() && (#[trigger] first[k] matches NoticeView::Complete {
                ticket: told,
                outcome: OutcomeView::Response(Err(_)),
            } && told == ticket);
        assert(both[k] == first[k]);
    }
    if told_failure(second, ticket) {
        let k = choose|k: int|
            0 <= k < second.len() && (#[trigger] second[k] matches NoticeView::Complete {
                ticket: told,
                outcome: OutcomeView::Response(Err(_)),
            } && told == ticket);
        assert(both[first.len() + k] == second[k]);
    }
}

/// Publishing a request queues its packet, or nothing; and no other request is touched.
proof fn publishing_queues_the_request(s: DriverView, correlation: Seq<u8>, now: int)
    requires
        s.inv(),
    ensures
        ({
            let (t, r) = s.publish_request(correlation, now);
            let i = request_from(s.requests, correlation, 0);
            &&& r is Err ==> t.outbound == s.outbound && t.requests == s.requests
            &&& r is Ok && i < s.requests.len() && !s.requests[i].published ==> {
                &&& queued_one(s, t)
                &&& is_request_frame(t.outbound.last(), s.requests[i])
                &&& t.requests[i].published
                &&& s.requests[i].qos == QoS::AtLeastOnce ==> {
                    &&& t.acks.len() == s.acks.len() + 1
                    &&& t.acks.last().kind == (AckKindView::RequestPublish { correlation })
                    &&& t.acks.last().deadline == now + s.ack_timeout
                    &&& heard(t.outbound.last().bytes) matches Some(Heard::Publish(message))
                        && message.packet_id == Some(t.acks.last().packet_id)
                }
            }
            &&& r is Ok && (i >= s.requests.len() || s.requests[i].published) ==> t == s
            &&& t.requests.len() == s.requests.len()
            &&& t.subscriptions == s.subscriptions
            &&& forall|j: int|
                0 <= j < s.requests.len() && (#[trigger] s.requests[j]).correlation != correlation
                    ==> t.requests[j] == s.requests[j]
        }),
{
    reserve_keeps(s, 65535);
    request_position(s.requests, correlation, 0);
    let i = request_from(s.requests, correlation, 0);
    let (t, r) = s.publish_request(correlation, now);
    if i < s.requests.len() && !s.requests[i].published {
        let pending = s.requests[i];
        match pending.qos {
            QoS::AtMostOnce => {
                let packet = DriverView::request_packet(pending, None);
                if encoded_publish(packet) is Ok {
                    publish_is_heard(packet);
                }
            },
            QoS::AtLeastOnce => {
                if let (reserved, Ok(id)) = s.reserve() {
                    let packet = DriverView::request_packet(pending, Some(id));
                    if encoded_publish(packet) is Ok {
                        publish_is_heard(packet);
                    }
                }
            },
        }
        if r is Ok {
            assert(t.outbound.drop_last() =~= s.outbound);
        }
    }
}

proof fn retained_frames_stay(frames: Seq<FrameView>, correlation: Seq<u8>, frame: FrameView)
    requires
        frames.contains(frame),
        !is_unsent_request(frame, correlation),
    ensures
        retained(frames, correlation).contains(frame),
    decreases frames.len(),
{
    let k = choose|k: int| 0 <= k < frames.len() && frames[k] == frame;
    let front = frames.drop_last();
    let kept = retained(front, correlation);
    let all = retained(frames, correlation);
    if k < frames.len() - 1 {
        assert(front[k] == frame);
        retained_frames_stay(front, correlation, frame);
        let m = choose|m: int| 0 <= m < kept.len() && kept[m] == frame;
        assert(all[m] == frame);
    } else {
        assert(all[kept.len() as int] == frame);
    }
}

/// Failing a request tells its waiter, and touches neither the frames nor the state of the
/// other requests.
pub(crate) proof fn failing_spares_the_others(s: DriverView, correlation: Seq<u8>, e: Error)
    requires
        s.inv(),
    ensures
        ({
            let (t, says) = s.fail_request(correlation, e);
            let i = request_from(s.requests, correlation, 0);
            &&& i < s.requests.len() ==> told_failure(says, s.requests[i].ticket)
            &&& forall|f: FrameView|
                s.outbound.contains(f) && f.correlation != Some(correlation)
                    ==> #[trigger] t.outbound.contains(f)
            &&& forall|q: RequestView|
                s.requests.contains(q) && q.correlation != correlation
                    ==> #[trigger] t.requests.contains(q)
        }),
{
    request_position(s.requests, correlation, 0);
    let i = request_from(s.requests, correlation, 0);
    let (t, says) = s.fail_request(correlation, e);
    if i < s.requests.len() {
        assert(says[1] == responded(s.requests[i].ticket, Err(e)));
        assert forall|f: FrameView|
            s.outbound.contains(f) && f.correlation != Some(
                correlation,
            ) implies #[trigger] t.outbound.contains(f) by {
            retained_frames_stay(s.outbound, correlation, f);
        }
        assert forall|q: RequestView|
            s.requests.contains(q) && q.correlation
                != correlation implies #[trigger] t.requests.contains(q) by {
            let k = choose|k: int| 0 <= k < s.requests.len() && s.requests[k] == q;
            let at = if k < i {
                k
            } else {
                k - 1
            };
            assert(t.requests[at] == q);
        }
    }
}

/// One step of publishing the waiting requests.
spec fn publish_or_fail(s: DriverView, correlation: Seq<u8>, now: int) -> (
    DriverView,
    Seq<NoticeView>,
) {
    match s.publish_request(correlation, now) {
        (t, Ok(_)) => (t, Seq::empty()),
        (t, Err(e)) => t.fail_request(correlation, e),
    }
}

proof fn step_keeps_the_others(s: DriverView, correlation: Seq<u8>, now: int)
    requires
        s.inv(),
    ensures
        ({
            let (t, says) = publish_or_fail(s, correlation, now);
            &&& t.inv()
            &&& forall|f: FrameView|
                s.outbound.contains(f) && f.correlation != Some(correlation)
                    ==> #[trigger] t.outbound.contains(f)
            &&& forall|q: RequestView|
                s.requests.contains(q) && q.correlation != correlation
                    ==> #[trigger] t.requests.contains(q)
        }),
{
    publishing_queues_the_request(s, correlation, now);
    publish_request_keeps(s, correlation, now);
    let (t, r) = s.publish_request(correlation, now);
    assert forall|f: FrameView| s.outbound.contains(f) implies #[trigger] t.outbound.contains(
        f,
    ) by {
        let k = choose|k: int| 0 <= k < s.outbound.len() && s.outbound[k] == f;
        if t.outbound != s.outbound {
            assert(t.outbound.drop_last()[k] == f);
            assert(t.outbound[k] == f);
        }
    }
    assert forall|q: RequestView|
        s.requests.contains(q) && q.correlation
            != correlation implies #[trigger] t.requests.contains(q) by {
        let k = choose|k: int| 0 <= k < s.requests.len() && s.requests[k] == q;
        assert(t.requests[k] == q);
    }
    if let Err(e) = r {
        failing_spares_the_others(t, correlation, e);
        fail_request_keeps(t, correlation, e);
    }
}

proof fn publishing_all_keeps_frames(
    s: DriverView,
    correlations: Seq<Seq<u8>>,
    now: int,
    frame: FrameView,
)
    requires
        s.inv(),
        s.outbound.contains(frame),
        frame.correlation matches Some(c) && !correlations.contains(c),
    ensures
        s.publish_all(correlations, now).0.outbound.contains(frame),
    decreases correlations.len(),
{
    if correlations.len() > 0 {
        let c = frame.correlation->Some_0;
        assert(correlations[0] != c);
        let rest = correlations.skip(1);
        step_keeps_the_others(s, correlations[0], now);
        let t = publish_or_fail(s, correlations[0], now).0;
        assert(t.outbound.contains(frame));
        if rest.contains(c) {
            let k = choose|k: int| 0 <= k < rest.len() && rest[k] == c;
            assert(correlations[k + 1] == c);
        }
        publishing_all_keeps_frames(t, rest, now, frame);
    }
}

/// Each request that waits is published as it is, or its waiter is told that it was not.
proof fn publishing_all_settles(
    s: DriverView,
    correlations: Seq<Seq<u8>>,
    now: int,
    request: RequestView,
)
    requires
        s.inv(),
        s.requests.contains(request),
        !request.published,
        correlations.contains(request.correlation),
        correlations.no_duplicates(),
    ensures
        is_queued(s.publish_all(correlations, now).0, request) || told_failure(
            s.publish_all(correlations, now).1,
            request.ticket,
        ),
    decreases correlations.len(),
{
    let c = request.correlation;
    let head = correlations[0];
    let rest = correlations.skip(1);
    assert(rest.no_duplicates()) by {
        assert forall|i: int, j: int| 0 <= i < rest.len() && 0 <= j < rest.len() && i != j implies
            rest[i] != rest[j] by {
            assert(correlations[i + 1] != correlations[j + 1]);
        }
    }
    let (t, first) = publish_or_fail(s, head, now);
    let (u, more) = t.publish_all(rest, now);
    assert(s.publish_all(correlations, now) == (u, first + more));
    told_in_either(first, more, request.ticket);
    step_keeps_the_others(s, head, now);
    if head == c {
        request_position(s.requests, c, 0);
        let i = request_from(s.requests, c, 0);
        let k = choose|k: int| 0 <= k < s.requests.len() && s.requests[k] == request;
        assert(s.requests[i] == request) by {
            if i < k {
                assert(s.requests[i].correlation != s.requests[k].correlation);
            }
        }
        publishing_queues_the_request(s, c, now);
        publish_request_keeps(s, c, now);
        match s.publish_request(c, now) {
            (_, Ok(_)) => {
                let frame = t.outbound.last();
                assert(is_request_frame(frame, request));
                assert(t.outbound[t.outbound.len() - 1] == frame);
                assert(t.outbound.contains(frame));
                if rest.contains(c) {
                    let j = choose|j: int| 0 <= j < rest.len() && rest[j] == c;
                    assert(correlations[j + 1] == correlations[0]);
                }
                publishing_all_keeps_frames(t, rest, now, frame);
                let j = choose|j: int| 0 <= j < u.outbound.len() && u.outbound[j] == frame;
                assert(is_request_frame(u.outbound[j], request));
            },
            (p, Err(e)) => {
                failing_spares_the_others(p, c, e);
            },
        }
    } else {
        let k = choose|k: int| 0 <= k < correlations.len() && correlations[k] == c;
        assert(rest[k - 1] == c);
        publishing_all_settles(t, rest, now, request);
    }
}

/// The waiting requests are found, each once.
proof fn waiting_requests_are_found(requests: Seq<RequestView>, topic: Seq<char>)
    requires
        forall|i: int, j: int|
            0 <= i < j < requests.len() ==> (#[trigger] requests[i]).correlation != (
            #[trigger] requests[j]).correlation,
    ensures
        requests_for(requests, topic, true).no_duplicates(),
        forall|c: Seq<u8>|
            requests_for(requests, topic, true).contains(c) <==> exists|i: int|
                0 <= i < requests.len() && (#[trigger] requests[i]).correlation == c
                    && requests[i].response_topic == topic && !requests[i].published,
    decreases requests.len(),
{
    let found = requests_for(requests, topic, true);
    if requests.len() > 0 {
        let front = requests.drop_last();
        let before = requests_for(front, topic, true);
        let last = requests.last();
        waiting_requests_are_found(front, topic);
        assert forall|c: Seq<u8>|
            found.contains(c) <==> exists|i: int|
                0 <= i < requests.len() && (#[trigger] requests[i]).correlation == c
                    && requests[i].response_topic == topic && !requests[i].published by {
            if found.contains(c) {
                let m = choose|m: int| 0 <= m < found.len() && found[m] == c;
                if m < before.len() {
                    assert(before[m] == c);
                    assert(before.contains(c));
                    let i = choose|i: int|
                        0 <= i < front.len() && (#[trigger] front[i]).correlation == c
                            && front[i].response_topic == topic && !front[i].published;
                    assert(requests[i] == front[i]);
                } else {
                    assert(requests[requests.len() - 1].correlation == c);
                }
            }
            if exists|i: int|
                0 <= i < requests.len() && (#[trigger] requests[i]).correlation == c
                    && requests[i].response_topic == topic && !requests[i].published {
                let i = choose|i: int|
                    0 <= i < requests.len() && (#[trigger] requests[i]).correlation == c
                        && requests[i].response_topic == topic && !requests[i].published;
                if i < front.len() {
                    assert(front[i] == requests[i]);
                    assert(before.contains(c));
                    let m = choose|m: int| 0 <= m < before.len() && before[m] == c;
                    assert(found[m] == c);
                } else {
                    assert(found[before.len() as int] == c);
                }
            }
        }
        if found.len() > before.len() {
            if before.contains(last.correlation) {
                let i = choose|i: int|
                    0 <= i < front.len() && (#[trigger] front[i]).correlation == last.correlation
                        && front[i].response_topic == topic && !front[i].published;
                assert(requests[i].correlation != requests[requests.len() - 1].correlation);
            }
            assert forall|a: int, b: int|
                0 <= a < found.len() && 0 <= b < found.len() && a != b implies found[a]
                != found[b] by {
                if a < before.len() && b < before.len() {
                    assert(before[a] != before[b]);
                } else if a < before.len() {
                    assert(before.contains(before[a]));
                } else {
                    assert(before.contains(before[b]));
                }
            }
        }
    }
}

/// Once the broker grants the subscription to a response topic, the PUBLISH packet of each
/// request that waited for it is queued: it goes to the topic that the request was made
/// for, with its payload, QoS level and properties. Where a packet cannot be queued, the
/// request's caller is told.
pub proof fn granted_subscription_sends_its_requests(
    s: DriverView,
    id: u16,
    code: u8,
    request: RequestView,
    now: int,
)
    requires
        s.inv(),
        s.has_ack(id),
        s.acks[ack_from(s.acks, id, 0)].kind == (AckKindView::ResponseSubscribe {
            topic: request.response_topic,
        }),
        code <= 1,
        s.requests.contains(request),
        !request.published,
    ensures
        ({
            let ack = AckCodesView { packet_id: id, reason_codes: seq![code] };
            let (t, says, r) = s.dispatch_packet(PacketView::SubAck(ack), now);
            &&& r == Ok::<Option<PublishPacketView>, Error>(None)
            &&& is_queued(t, request) || told_failure(says, request.ticket)
        }),
{
    reveal(DriverView::dispatch_suback);
    reveal_with_fuel(granted_from, 2);
    let topic = request.response_topic;
    take_ack_keeps(s, id, AckClass::Subscribe);
    let (u, _) = s.take_ack(id, AckClass::Subscribe);
    subscription_keeps(u, topic);
    let ready = u.with_ready_subscription(topic);
    assert(ready.requests == s.requests);
    waiting_requests_are_found(ready.requests, topic);
    let k = choose|k: int| 0 <= k < s.requests.len() && s.requests[k] == request;
    assert(ready.requests[k].correlation == request.correlation);
    publishing_all_settles(ready, requests_for(ready.requests, topic, true), now, request);
}

/// Whether every frame in the queue was there before.
pub open spec fn nothing_new_goes_out(s: DriverView, t: DriverView) -> bool {
    forall|j: int|
        0 <= j < t.outbound.len() ==> s.outbound.contains(#[trigger] t.outbound[j])
}

/// Whether a request is pending as its caller made it.
pub open spec fn is_pending(
    s: DriverView,
    topic: Seq<char>,
    payload: Seq<u8>,
    o: RequestOptionsView,
    data: Seq<u8>,
    ticket: u64,
    now: int,
) -> bool {
    s.requests.len() > 0 && {
        let request = s.requests.last();
        &&& request.correlation == data
        &&& request.topic == topic
        &&& request.payload == payload
        &&& request.response_topic == o.response_topic
        &&& request.qos == o.qos
        &&& routes_response(request.properties, o, data)
        &&& request.ticket == ticket
        &&& request.deadline == now + o.timeout.spec_nanos()
    }
}

/// A request that is not refused is pending as its caller made it. Where the response topic
/// is subscribed to, exactly one frame is queued: the PUBLISH packet to the topic that the
/// caller named, with the caller's payload, QoS level and properties, the response topic and
/// the correlation data. Where nobody has asked for the subscription yet, exactly one frame
/// is queued: the SUBSCRIBE packet for the response topic at QoS 1. A request that is refused
/// is answered, and nothing goes out.
pub proof fn request_goes_out_as_asked(
    s: DriverView,
    request: RequestCommand,
    topic: Seq<char>,
    payload: Seq<u8>,
    o: RequestOptionsView,
    data: Seq<u8>,
    ticket: u64,
    now: int,
)
    requires
        s.inv(),
        request@ == command_of(topic, payload, o, data),
    ensures
        ({
            let (t, says) = processed(
                s,
                Command::Request { request, ticket, cancelled: false },
                now,
            );
            let i = subscription_from(s.subscriptions, o.response_topic, 0);
            ||| told_failure(says, ticket) && nothing_new_goes_out(s, t)
            ||| {
                &&& says.len() == 0
                &&& is_pending(t, topic, payload, o, data, ticket, now)
                &&& if i < s.subscriptions.len() && s.subscriptions[i].ready {
                    &&& queued_one(s, t)
                    &&& carries_request(t.outbound.last(), topic, payload, o, data)
                    &&& t.requests.last().published
                    &&& o.qos == QoS::AtLeastOnce ==> {
                        &&& t.acks.len() == s.acks.len() + 1
                        &&& t.acks.last().kind == (AckKindView::RequestPublish {
                            correlation: data,
                        })
                        &&& t.acks.last().deadline == now + s.ack_timeout
                        &&& heard(t.outbound.last().bytes) matches Some(Heard::Publish(message))
                            && message.packet_id == Some(t.acks.last().packet_id)
                    }
                } else if i < s.subscriptions.len() {
                    &&& t.outbound == s.outbound
                    &&& !t.requests.last().published
                } else {
                    let id = t.acks.last().packet_id;
                    &&& queued_one(s, t)
                    &&& t.acks.len() == s.acks.len() + 1
                    &&& heard(t.outbound.last().bytes) == Some(
                        Heard::Subscribe {
                            packet_id: id,
                            properties: Seq::empty(),
                            subscriptions: seq![(o.response_topic, 1u8)],
                        },
                    )
                    &&& t.acks.last().kind == (AckKindView::ResponseSubscribe {
                        topic: o.response_topic,
                    })
                    &&& t.acks.last().deadline == now + s.ack_timeout
                    &&& !t.requests.last().published
                    &&& is_remembered(t, o.response_topic)
                    &&& !is_subscribed_to(t, o.response_topic)
                }
            }
        }),
{
    properties_route_the_response(topic, payload, o, data);
    if !s.closing && s.request_check(request@, now) is Ok {
        let pending = RequestView {
            correlation: data,
            topic,
            payload,
            response_topic: o.response_topic,
            qos: o.qos,
            properties: request@.properties,
            deadline: now + o.timeout.spec_nanos(),
            ticket,
            publish_packet_id: None,
            published: false,
        };
        let p = DriverView { requests: s.requests.push(pending), ..s };
        request_position(s.requests, data, 0);
        request_position(p.requests, data, 0);
        let k = request_from(p.requests, data, 0);
        assert(p.requests[s.requests.len() as int].correlation == data);
        assert(k == s.requests.len()) by {
            if k < s.requests.len() {
                assert(p.requests[k] == s.requests[k]);
            }
        }
        assert(p.inv());
        publishing_queues_the_request(p, data, now);
        subscribing_queues_a_subscribe(p, o.response_topic, now);
        route_request_keeps(p, data, o.response_topic, now);
        let (u, r) = p.route_request(data, o.response_topic, now);
        if let Err(e) = r {
            assert(u.outbound == s.outbound);
            assert(u.requests == p.requests);
            failing_spares_the_others(u, data, e);
            retained_frames_were_there(s.outbound, data);
        }
    } else if !s.closing {
        let says = processed(s, Command::Request { request, ticket, cancelled: false }, now).1;
        assert(says[1] is Complete);
    } else {
        let says = processed(s, Command::Request { request, ticket, cancelled: false }, now).1;
        assert(says[0] is Complete);
    }
}

/// From the caller to the service: a request whose response topic nobody has subscribed to
/// is started, and the broker grants the subscription that was asked for. Then the packet in
/// the queue is the caller's request, or the caller is told that it failed.
pub proof fn request_reaches_its_service(
    s: DriverView,
    request: RequestCommand,
    topic: Seq<char>,
    payload: Seq<u8>,
    o: RequestOptionsView,
    data: Seq<u8>,
    ticket: u64,
    now: int,
    code: u8,
    later: int,
)
    requires
        s.inv(),
        request@ == command_of(topic, payload, o, data),
        subscription_from(s.subscriptions, o.response_topic, 0) >= s.subscriptions.len(),
        code <= 1,
    ensures
        ({
            let (t, says) = processed(
                s,
                Command::Request { request, ticket, cancelled: false },
                now,
            );
            let ack = AckCodesView {
                packet_id: t.acks.last().packet_id,
                reason_codes: seq![code],
            };
            let (u, more, r) = t.dispatch_packet(PacketView::SubAck(ack), later);
            ||| told_failure(says, ticket)
            ||| told_failure(more, ticket)
            ||| exists|j: int|
                0 <= j < u.outbound.len() && carries_request(
                    #[trigger] u.outbound[j],
                    topic,
                    payload,
                    o,
                    data,
                )
        }),
{
    request_goes_out_as_asked(s, request, topic, payload, o, data, ticket, now);
    command_keeps(s, Command::Request { request, ticket, cancelled: false }, now);
    let (t, says) = processed(s, Command::Request { request, ticket, cancelled: false }, now);
    if !told_failure(says, ticket) {
        let last = t.acks.len() - 1;
        let id = t.acks[last].packet_id;
        ack_position(t.acks, id, 0);
        let k = ack_from(t.acks, id, 0);
        assert(k == last) by {
            if k < last {
                assert(t.acks[k].packet_id != t.acks[last].packet_id);
            }
        }
        let pending = t.requests.last();
        assert(t.requests[t.requests.len() - 1] == pending);
        granted_subscription_sends_its_requests(t, id, code, pending, later);
        let ack = AckCodesView { packet_id: id, reason_codes: seq![code] };
        let (u, more, r) = t.dispatch_packet(PacketView::SubAck(ack), later);
        if is_queued(u, pending) {
            let j = choose|j: int|
                0 <= j < u.outbound.len() && is_request_frame(#[trigger] u.outbound[j], pending);
            assert(carries_request(u.outbound[j], topic, payload, o, data));
        }
    }
}

proof fn command_keeps(s: DriverView, command: Command, now: int)
    requires
        s.inv(),
    ensures
        processed(s, command, now).0.inv(),
{
    match command {
        Command::Publish { topic, payload, options, ticket } => {
            begin_publish_keeps(s, topic@, payload@, options@, ticket, now);
        },
        Command::Subscribe { filter, qos, ticket } => {
            begin_subscribe_keeps(s, filter@, qos, ticket, now);
        },
        Command::Unsubscribe { filter, ticket } => {
            begin_unsubscribe_keeps(s, filter@, ticket, now);
        },
        Command::Disconnect { ticket } => {
            begin_disconnect_keeps(s, ticket);
        },
        Command::Request { request, ticket, cancelled } => {
            begin_request_keeps(s, request@, ticket, cancelled, now);
        },
    }
}

/// What a request's properties say, whatever properties the caller gave.
proof fn properties_route_the_response(
    topic: Seq<char>,
    payload: Seq<u8>,
    o: RequestOptionsView,
    data: Seq<u8>,
)
    ensures
        routes_response(command_of(topic, payload, o, data).properties, o, data),
{
    let properties = command_of(topic, payload, o, data).properties;
    request_carries_its_routing(
        topic,
        payload,
        o,
        data,
        PropertyId::ResponseTopic,
        ValueKind::Str,
    );
    assert forall|id: PropertyId, kind: ValueKind|
        id != PropertyId::ResponseTopic && id
            != PropertyId::CorrelationData implies #[trigger] first_value(properties, id, kind)
        == first_value(o.properties, id, kind) by {
        request_carries_its_routing(topic, payload, o, data, id, kind);
    }
}

/// Subscribing to a response topic queues one SUBSCRIBE packet for it, or nothing.
proof fn subscribing_queues_a_subscribe(s: DriverView, topic: Seq<char>, now: int)
    requires
        s.inv(),
    ensures
        ({
            let (t, r) = s.subscribe_for_responses(topic, now);
            &&& r is Err ==> t.outbound == s.outbound && t.requests == s.requests
            &&& r is Ok ==> {
                &&& queued_one(s, t)
                &&& heard(t.outbound.last().bytes) == Some(
                    Heard::Subscribe {
                        packet_id: t.acks.last().packet_id,
                        properties: Seq::empty(),
                        subscriptions: seq![(topic, 1u8)],
                    },
                )
                &&& t.acks.len() == s.acks.len() + 1
                &&& t.acks.last().kind == (AckKindView::ResponseSubscribe { topic })
                &&& t.acks.last().deadline == now + s.ack_timeout
                &&& t.requests == s.requests
                &&& subscription_from(s.subscriptions, topic, 0) >= s.subscriptions.len()
                    ==> is_remembered(t, topic) && !is_subscribed_to(t, topic)
            }
        }),
{
    reserve_keeps(s, 65535);
    let (t, r) = s.subscribe_for_responses(topic, now);
    subscription_position(s.subscriptions, topic, 0);
    if let (reserved, Ok(id)) = s.reserve() {
        single_subscription_is_heard(id, topic, QoS::AtLeastOnce);
        if r is Ok {
            assert(t.outbound.drop_last() =~= s.outbound);
            if subscription_from(s.subscriptions, topic, 0) >= s.subscriptions.len() {
                let last = s.subscriptions.len() as int;
                assert(t.subscriptions[last].topic == topic);
                assert forall|i: int|
                    0 <= i < t.subscriptions.len() && (
                    #[trigger] t.subscriptions[i]).topic == topic implies i == last by {
                    if i < last {
                        assert(t.subscriptions[i] == s.subscriptions[i]);
                    }
                }
            }
        }
    }
}

/// Taking frames out of the queue adds none.
proof fn retained_frames_were_there(frames: Seq<FrameView>, correlation: Seq<u8>)
    ensures
        forall|j: int|
            0 <= j < retained(frames, correlation).len() ==> frames.contains(
                #[trigger] retained(frames, correlation)[j],
            ),
    decreases frames.len(),
{
    if frames.len() > 0 {
        let front = frames.drop_last();
        let kept = retained(frames, correlation);
        retained_frames_were_there(front, correlation);
        assert forall|j: int| 0 <= j < kept.len() implies frames.contains(
            #[trigger] kept[j],
        ) by {
            let before = retained(front, correlation);
            if j < before.len() {
                assert(kept[j] == before[j]);
                let k = choose|k: int| 0 <= k < front.len() && front[k] == before[j];
                assert(frames[k] == kept[j]);
            } else {
                assert(frames[frames.len() - 1] == kept[j]);
            }
        }
    }
}

/// A request that waits alone for its subscription, and whose packet has room in the queue,
/// is sent once the subscription is granted, and nobody is told of a failure.
pub proof fn granted_subscription_owes_the_request(
    s: DriverView,
    id: u16,
    code: u8,
    request: RequestView,
    now: int,
)
    requires
        s.inv(),
        s.has_ack(id),
        s.acks[ack_from(s.acks, id, 0)].kind == (AckKindView::ResponseSubscribe {
            topic: request.response_topic,
        }),
        code <= 1,
        s.requests == seq![request],
        !request.published,
        can_send_more(s),
        has_room(s, DriverView::request_packet(request, None)),
    ensures
        ({
            let ack = AckCodesView { packet_id: id, reason_codes: seq![code] };
            let (t, says, r) = s.dispatch_packet(PacketView::SubAck(ack), now);
            &&& r == Ok::<Option<PublishPacketView>, Error>(None)
            &&& says.len() == 0
            &&& queued_one(s, t)
            &&& is_request_frame(t.outbound.last(), request)
        }),
{
    reveal(DriverView::dispatch_suback);
    reveal_with_fuel(granted_from, 2);
    reveal_with_fuel(requests_for, 2);
    reveal_with_fuel(DriverView::publish_all, 2);
    let topic = request.response_topic;
    let c = request.correlation;
    ack_position(s.acks, id, 0);
    take_ack_keeps(s, id, AckClass::Subscribe);
    let (u, _) = s.take_ack(id, AckClass::Subscribe);
    subscription_keeps(u, topic);
    let ready = u.with_ready_subscription(topic);
    assert(ready.acks == u.acks);
    assert(ready.requests.drop_last() =~= Seq::<RequestView>::empty());
    let waiting = requests_for(ready.requests, topic, true);
    assert(waiting =~= seq![c]);
    assert(waiting.skip(1) =~= Seq::<Seq<u8>>::empty());
    request_position(ready.requests, c, 0);
    taking_frees_the_id(s, id);
    free_id_is_reserved(ready, id);
    let next = ready.reserve().1->Ok_0;
    let bare = DriverView::request_packet(request, None);
    taking_counts_less(s, ack_from(s.acks, id, 0));
    match request.qos {
        QoS::AtMostOnce => {
            assert(fits_queue(s, encoded_publish(numbered(bare, None))));
            assert(numbered(bare, None) == bare);
        },
        QoS::AtLeastOnce => {
            assert(fits_queue(s, encoded_publish(numbered(bare, Some(next)))));
            assert(numbered(bare, Some(next)) == DriverView::request_packet(request, Some(next)));
        },
    }
    publishing_queues_the_request(ready, c, now);
}

/// A packet identifier whose acknowledgement was taken is free.
proof fn taking_frees_the_id(s: DriverView, id: u16)
    requires
        s.inv(),
    ensures
        !s.without_ack(id).has_ack(id),
        s.has_ack(id) ==> id != 0,
{
    without_ack_keeps(s, id);
    ack_position(s.acks, id, 0);
}

/// Taking an acknowledgement leaves no more messages that the broker has yet to acknowledge.
proof fn taking_counts_less(s: DriverView, i: int)
    requires
        0 <= i < s.acks.len(),
    ensures
        qos1_count(s.acks.remove(i), (s.acks.len() - 1) as nat) <= qos1_count(
            s.acks,
            s.acks.len(),
        ),
{
    removed_counts_less(s.acks, i, s.acks.len());
}

proof fn removed_counts_less(acks: Seq<AckView>, i: int, n: nat)
    requires
        0 <= i < n <= acks.len(),
    ensures
        qos1_count(acks.remove(i), (n - 1) as nat) <= qos1_count(acks, n),
    decreases n,
{
    let fewer = acks.remove(i);
    if i < n - 1 {
        removed_counts_less(acks, i, (n - 1) as nat);
        assert(fewer[n - 2] == acks[n - 1]);
    } else {
        same_counts(fewer, acks, (n - 1) as nat);
    }
}

proof fn same_counts(a: Seq<AckView>, b: Seq<AckView>, n: nat)
    requires
        n <= a.len(),
        n <= b.len(),
        forall|j: int| 0 <= j < n ==> #[trigger] a[j] == b[j],
    ensures
        qos1_count(a, n) == qos1_count(b, n),
    decreases n,
{
    if n > 0 {
        same_counts(a, b, (n - 1) as nat);
        assert(a[n - 1] == b[n - 1]);
    }
}

/// Whether whoever waits for a response with this ticket is told of this error.
pub open spec fn told_of(says: Seq<NoticeView>, ticket: u64, e: Error) -> bool {
    says.contains(NoticeView::Complete { ticket, outcome: OutcomeView::Response(Err(e)) })
}

proof fn told_of_in_either(
    first: Seq<NoticeView>,
    second: Seq<NoticeView>,
    ticket: u64,
    e: Error,
)
    ensures
        told_of(first, ticket, e) || told_of(second, ticket, e) ==> told_of(
            first + second,
            ticket,
            e,
        ),
{
    let notice = NoticeView::Complete { ticket, outcome: OutcomeView::Response(Err(e)) };
    let both = first + second;
    if first.contains(notice) {
        let k = choose|k: int| 0 <= k < first.len() && first[k] == notice;
        assert(both[k] == notice);
    }
    if second.contains(notice) {
        let k = choose|k: int| 0 <= k < second.len() && second[k] == notice;
        assert(both[first.len() + k] == notice);
    }
}

/// A request that fails is told of the error, and is no longer pending.
proof fn failed_request_is_told(s: DriverView, request: RequestView, e: Error)
    requires
        s.inv(),
        s.requests.contains(request),
    ensures
        told_of(s.fail_request(request.correlation, e).1, request.ticket, e),
        forall|i: int|
            0 <= i < s.fail_request(request.correlation, e).0.requests.len() ==> (
            #[trigger] s.fail_request(request.correlation, e).0.requests[i]).correlation
                != request.correlation,
{
    let c = request.correlation;
    request_position(s.requests, c, 0);
    let i = request_from(s.requests, c, 0);
    let k = choose|k: int| 0 <= k < s.requests.len() && s.requests[k] == request;
    assert(i == k) by {
        if i < k {
            assert(s.requests[i].correlation != s.requests[k].correlation);
        }
    }
    let (t, says) = s.fail_request(c, e);
    assert(says[1] == responded(request.ticket, Err(e)));
    assert forall|j: int| 0 <= j < t.requests.len() implies (#[trigger] t.requests[j]).correlation
        != c by {
        let from = if j < i {
            j
        } else {
            j + 1
        };
        assert(t.requests[j] == s.requests[from]);
    }
}

proof fn failed_requests_are_told(
    s: DriverView,
    correlations: Seq<Seq<u8>>,
    request: RequestView,
    e: Error,
)
    requires
        s.inv(),
        s.requests.contains(request),
    ensures
        ({
            let (t, says) = s.fail_all(correlations, e);
            if correlations.contains(request.correlation) {
                told_of(says, request.ticket, e)
            } else {
                t.requests.contains(request)
            }
        }),
    decreases correlations.len(),
{
    if correlations.len() > 0 {
        let c = correlations[0];
        let rest = correlations.skip(1);
        let (u, first) = s.fail_request(c, e);
        fail_request_keeps(s, c, e);
        let more = u.fail_all(rest, e).1;
        told_of_in_either(first, more, request.ticket, e);
        if c == request.correlation {
            failed_request_is_told(s, request, e);
            assert(correlations.contains(request.correlation));
        } else {
            failing_spares_the_others(s, c, e);
            failed_requests_are_told(u, rest, request, e);
            if correlations.contains(request.correlation) {
                let k = choose|k: int|
                    0 <= k < correlations.len() && correlations[k] == request.correlation;
                assert(rest[k - 1] == request.correlation);
            }
            if rest.contains(request.correlation) {
                let k = choose|k: int| 0 <= k < rest.len() && rest[k] == request.correlation;
                assert(correlations[k + 1] == request.correlation);
            }
        }
    }
}

/// The requests with a response topic are found.
proof fn requests_on_a_topic_are_found(requests: Seq<RequestView>, topic: Seq<char>, c: Seq<u8>)
    ensures
        requests_for(requests, topic, false).contains(c) <==> exists|i: int|
            0 <= i < requests.len() && (#[trigger] requests[i]).correlation == c
                && requests[i].response_topic == topic,
    decreases requests.len(),
{
    if requests.len() > 0 {
        let front = requests.drop_last();
        let before = requests_for(front, topic, false);
        let found = requests_for(requests, topic, false);
        requests_on_a_topic_are_found(front, topic, c);
        if found.contains(c) {
            let m = choose|m: int| 0 <= m < found.len() && found[m] == c;
            if m < before.len() {
                assert(before[m] == c);
                let i = choose|i: int|
                    0 <= i < front.len() && (#[trigger] front[i]).correlation == c
                        && front[i].response_topic == topic;
                assert(requests[i] == front[i]);
            } else {
                assert(requests[requests.len() - 1].correlation == c);
            }
        }
        if exists|i: int|
            0 <= i < requests.len() && (#[trigger] requests[i]).correlation == c
                && requests[i].response_topic == topic {
            let i = choose|i: int|
                0 <= i < requests.len() && (#[trigger] requests[i]).correlation == c
                    && requests[i].response_topic == topic;
            if i < front.len() {
                assert(front[i] == requests[i]);
                let m = choose|m: int| 0 <= m < before.len() && before[m] == c;
                assert(found[m] == c);
            } else {
                assert(found[before.len() as int] == c);
            }
        }
    }
}

/// Where the broker refuses the subscription to a response topic, every request with this
/// response topic is told so with the broker's reason code, every other request stays, and
/// the connection goes on.
pub proof fn refused_subscription_fails_its_requests(
    s: DriverView,
    id: u16,
    code: u8,
    topic: Seq<char>,
    request: RequestView,
    now: int,
)
    requires
        s.inv(),
        s.has_ack(id),
        s.acks[ack_from(s.acks, id, 0)].kind == (AckKindView::ResponseSubscribe { topic }),
        code >= 0x80,
        s.requests.contains(request),
    ensures
        ({
            let ack = AckCodesView { packet_id: id, reason_codes: seq![code] };
            let (t, says, r) = s.dispatch_packet(PacketView::SubAck(ack), now);
            &&& r == Ok::<Option<PublishPacketView>, Error>(None)
            &&& request.response_topic == topic ==> told_of(
                says,
                request.ticket,
                Error::AckRejected { packet: "SUBACK", reason_code: code },
            )
            &&& request.response_topic != topic ==> t.requests.contains(request)
        }),
{
    reveal(DriverView::dispatch_suback);
    reveal_with_fuel(granted_from, 2);
    take_ack_keeps(s, id, AckClass::Subscribe);
    let (u, _) = s.take_ack(id, AckClass::Subscribe);
    subscription_keeps(u, topic);
    let gone = u.without_subscription(topic);
    assert(gone.requests == s.requests);
    requests_on_a_topic_are_found(s.requests, topic, request.correlation);
    let k = choose|k: int| 0 <= k < s.requests.len() && s.requests[k] == request;
    let failing = requests_for(s.requests, topic, false);
    if failing.contains(request.correlation) {
        let i = choose|i: int|
            0 <= i < s.requests.len() && (#[trigger] s.requests[i]).correlation
                == request.correlation && s.requests[i].response_topic == topic;
        assert(i == k) by {
            if i < k {
                assert(s.requests[i].correlation != s.requests[k].correlation);
            } else if k < i {
                assert(s.requests[k].correlation != s.requests[i].correlation);
            }
        }
    }
    failed_requests_are_told(
        gone,
        failing,
        request,
        Error::AckRejected { packet: "SUBACK", reason_code: code },
    );
}

/// Where the broker refuses the packet of a request, the request is told so with the broker's
/// reason code and is over. Where it takes the packet, the request goes on waiting, and
/// nobody is told anything.
pub proof fn puback_of_a_request(
    s: DriverView,
    id: u16,
    code: u8,
    request: RequestView,
    now: int,
)
    requires
        s.inv(),
        s.has_ack(id),
        s.acks[ack_from(s.acks, id, 0)].kind == (AckKindView::RequestPublish {
            correlation: request.correlation,
        }),
        s.requests.contains(request),
    ensures
        ({
            let (t, says, r) = s.dispatch_packet(
                PacketView::PubAck(PubAckPacket { packet_id: id, reason_code: code }),
                now,
            );
            &&& r == Ok::<Option<PublishPacketView>, Error>(None)
            &&& code < 0x80 ==> says.len() == 0 && t.requests == s.requests && t.outbound
                == s.outbound && !t.has_ack(id)
            &&& code >= 0x80 ==> {
                &&& told_of(
                    says,
                    request.ticket,
                    Error::AckRejected { packet: "PUBACK", reason_code: code },
                )
                &&& forall|i: int|
                    0 <= i < t.requests.len() ==> (#[trigger] t.requests[i]).correlation
                        != request.correlation
            }
        }),
{
    reveal(DriverView::dispatch_puback);
    take_ack_keeps(s, id, AckClass::Publish);
    taking_frees_the_id(s, id);
    let (u, _) = s.take_ack(id, AckClass::Publish);
    failed_request_is_told(
        u,
        request,
        Error::AckRejected { packet: "PUBACK", reason_code: code },
    );
}

/// Whether requests with this response topic can be sent without another subscription.
pub open spec fn is_subscribed_to(s: DriverView, topic: Seq<char>) -> bool {
    exists|i: int|
        0 <= i < s.subscriptions.len() && (#[trigger] s.subscriptions[i]).topic == topic
            && s.subscriptions[i].ready
}

/// Whether a response topic is remembered, subscribed to or not yet.
pub open spec fn is_remembered(s: DriverView, topic: Seq<char>) -> bool {
    exists|i: int| 0 <= i < s.subscriptions.len() && (#[trigger] s.subscriptions[i]).topic == topic
}

proof fn publishing_all_keeps_topics(s: DriverView, correlations: Seq<Seq<u8>>, now: int)
    requires
        s.inv(),
    ensures
        s.publish_all(correlations, now).0.subscriptions == s.subscriptions,
    decreases correlations.len(),
{
    if correlations.len() > 0 {
        publishing_queues_the_request(s, correlations[0], now);
        step_keeps_the_others(s, correlations[0], now);
        let t = publish_or_fail(s, correlations[0], now).0;
        publishing_all_keeps_topics(t, correlations.skip(1), now);
    }
}

proof fn failing_all_keeps_topics(s: DriverView, correlations: Seq<Seq<u8>>, e: Error)
    ensures
        s.fail_all(correlations, e).0.subscriptions == s.subscriptions,
    decreases correlations.len(),
{
    if correlations.len() > 0 {
        failing_all_keeps_topics(s.fail_request(correlations[0], e).0, correlations.skip(1), e);
    }
}

/// Once the broker grants the subscription to a response topic, further requests with this
/// response topic need none, where the topic is remembered or can be. Once it refuses, the
/// topic is forgotten, and the next request asks again. Every other topic stays as it was.
pub proof fn answered_subscription_is_remembered(
    s: DriverView,
    id: u16,
    code: u8,
    topic: Seq<char>,
    other: Seq<char>,
    now: int,
)
    requires
        s.inv(),
        s.has_ack(id),
        s.acks[ack_from(s.acks, id, 0)].kind == (AckKindView::ResponseSubscribe { topic }),
        other != topic,
    ensures
        ({
            let ack = AckCodesView { packet_id: id, reason_codes: seq![code] };
            let t = s.dispatch_packet(PacketView::SubAck(ack), now).0;
            &&& code <= 1 && (is_remembered(s, topic) || s.subscriptions.len()
                < s.max_pending_operations) ==> is_subscribed_to(t, topic)
            &&& code >= 0x80 ==> !is_remembered(t, topic)
            &&& is_remembered(t, other) <==> is_remembered(s, other)
            &&& is_subscribed_to(t, other) <==> is_subscribed_to(s, other)
        }),
{
    reveal(DriverView::dispatch_suback);
    reveal_with_fuel(granted_from, 2);
    take_ack_keeps(s, id, AckClass::Subscribe);
    let (u, _) = s.take_ack(id, AckClass::Subscribe);
    assert(u.subscriptions == s.subscriptions);
    subscription_keeps(u, topic);
    subscription_position(u.subscriptions, topic, 0);
    let i = subscription_from(u.subscriptions, topic, 0);
    let ready = u.with_ready_subscription(topic);
    let gone = u.without_subscription(topic);
    publishing_all_keeps_topics(ready, requests_for(ready.requests, topic, true), now);
    failing_all_keeps_topics(
        gone,
        requests_for(gone.requests, topic, false),
        suback_check(seq![code], seq![QoS::AtLeastOnce])->Err_0,
    );
    uncached_topic_is_gone(u, topic);
    assert forall|j: int|
        0 <= j < s.subscriptions.len() && (#[trigger] s.subscriptions[j]).topic == other implies ({
        &&& ready.subscriptions[j] == s.subscriptions[j]
        &&& gone.subscriptions.contains(s.subscriptions[j])
    }) by {
        if i < s.subscriptions.len() {
            let at = if j < i {
                j
            } else {
                j - 1
            };
            assert(gone.subscriptions[at] == s.subscriptions[j]);
        } else {
            assert(gone.subscriptions[j] == s.subscriptions[j]);
        }
    }
    assert forall|j: int|
        0 <= j < ready.subscriptions.len() && (
        #[trigger] ready.subscriptions[j]).topic == other implies j < s.subscriptions.len()
        && ready.subscriptions[j] == s.subscriptions[j] by {}
    assert forall|j: int|
        0 <= j < gone.subscriptions.len() implies s.subscriptions.contains(
        #[trigger] gone.subscriptions[j],
    ) by {
        let from = if i < s.subscriptions.len() && j >= i {
            j + 1
        } else {
            j
        };
        assert(gone.subscriptions[j] == s.subscriptions[from]);
    }
    if code <= 1 && (is_remembered(s, topic) || s.subscriptions.len() < s.max_pending_operations) {
        let at = if i < s.subscriptions.len() {
            i
        } else {
            s.subscriptions.len() as int
        };
        assert(ready.subscriptions[at].topic == topic && ready.subscriptions[at].ready);
    }
}

} // verus!
