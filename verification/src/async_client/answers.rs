//! Every operation is answered exactly once.
//!
//! An operation waits in one place: for an acknowledgement, for a response, or for its
//! frame to leave. Whatever the driver does, an operation goes from waiting to answered or
//! goes on waiting, unless nobody wants to know any more.
use vstd::prelude::*;

use crate::async_client::driver::{processed, Command};
use crate::async_client::laws::{
    ack_position, bury_cancelled_keeps, drain_one_keeps, enqueue_keeps, expire_ack_keeps,
    expire_acks_keeps, fail_request_keeps, publish_request_keeps, remove_request_keeps,
    request_position, reserve_keeps, route_request_keeps, subscription_keeps, take_ack_keeps,
};
use crate::async_client::model::{
    ack_failures, ack_from, bury_cancelled, bytes_left, flush_failures, frame_failures, goodbye,
    is_unsent_request, less, overdue_acks, overdue_requests, request_failures, request_from,
    requests_for, responded, retained, subscribe_packet, unsubscribe_packet, went_down, AckClass,
    AckKindView, AckView, DriverView, FrameView, PendingFlush, RequestView, WrittenAction,
};
use crate::async_client::{DisconnectReason, NoticeView};
use crate::codec::ping::PINGREQ_BYTES;
use crate::codec::properties::{first_value, PropertyId, PropertyValueView, ValueKind};
use crate::codec::publish::{encoded_puback, encoded_publish};
use crate::codec::subscribe::{encoded_subscribe, encoded_unsubscribe, suback_check};
use crate::codec::types::{AckCodesView, PacketView, PubAckPacket, PublishPacketView, QoS};
use crate::error::Error;
use crate::options::PublishOptionsView;
use crate::request_response::RequestCommandView;

verus! {

/// How many elements a predicate holds of.
pub open spec fn count<A>(s: Seq<A>, p: spec_fn(A) -> bool) -> nat
    decreases s.len(),
{
    if s.len() == 0 {
        0
    } else {
        count(s.drop_last(), p) + one_if(p(s.last()))
    }
}

/// One where `b` holds, zero where it does not.
pub open spec fn one_if(b: bool) -> nat {
    if b {
        1
    } else {
        0
    }
}

proof fn count_push<A>(s: Seq<A>, a: A, p: spec_fn(A) -> bool)
    ensures
        count(s.push(a), p) == count(s, p) + one_if(p(a)),
{
    assert(s.push(a).drop_last() =~= s);
}

proof fn count_add<A>(a: Seq<A>, b: Seq<A>, p: spec_fn(A) -> bool)
    ensures
        count(a + b, p) == count(a, p) + count(b, p),
    decreases b.len(),
{
    if b.len() == 0 {
        assert(a + b =~= a);
    } else {
        count_add(a, b.drop_last(), p);
        assert((a + b).drop_last() =~= a + b.drop_last());
    }
}

proof fn count_remove<A>(s: Seq<A>, i: int, p: spec_fn(A) -> bool)
    requires
        0 <= i < s.len(),
    ensures
        count(s.remove(i), p) + one_if(p(s[i])) == count(s, p),
    decreases s.len(),
{
    if i == s.len() - 1 {
        assert(s.remove(i) =~= s.drop_last());
    } else {
        count_remove(s.drop_last(), i, p);
        assert(s.remove(i).drop_last() =~= s.drop_last().remove(i));
    }
}

proof fn count_update<A>(s: Seq<A>, i: int, a: A, p: spec_fn(A) -> bool)
    requires
        0 <= i < s.len(),
    ensures
        count(s.update(i, a), p) + one_if(p(s[i])) == count(s, p) + one_if(p(a)),
    decreases s.len(),
{
    if i == s.len() - 1 {
        assert(s.update(i, a).drop_last() =~= s.drop_last());
    } else {
        count_update(s.drop_last(), i, a, p);
        assert(s.update(i, a).drop_last() =~= s.drop_last().update(i, a));
    }
}

proof fn count_front<A>(s: Seq<A>, p: spec_fn(A) -> bool)
    requires
        s.len() > 0,
    ensures
        count(s, p) == one_if(p(s[0])) + count(s.skip(1), p),
    decreases s.len(),
{
    if s.len() > 1 {
        count_front(s.drop_last(), p);
        assert(s.skip(1).drop_last() =~= s.drop_last().skip(1));
    } else {
        assert(s.drop_last() =~= Seq::empty());
        assert(s.skip(1) =~= Seq::empty());
    }
}

proof fn count_one<A>(a: A, p: spec_fn(A) -> bool)
    ensures
        count(seq![a], p) == one_if(p(a)),
        count(Seq::<A>::empty(), p) == 0,
{
    reveal_with_fuel(count, 2);
    assert(seq![a].drop_last() =~= Seq::empty());
}

/// Which acknowledgements the operation with this ticket waits for.
pub open spec fn ack_waits(t: u64) -> spec_fn(AckView) -> bool {
    |ack: AckView| ack.kind.ticket() == Some(t)
}

/// Which requests have this ticket.
pub open spec fn request_waits(t: u64) -> spec_fn(RequestView) -> bool {
    |request: RequestView| request.ticket == t
}

/// Which queued frames the operation with this ticket waits to see written.
pub open spec fn frame_waits(t: u64) -> spec_fn(FrameView) -> bool {
    |frame: FrameView| frame.action.ticket() == Some(t)
}

/// Which written frames the operation with this ticket waits to see flushed.
pub open spec fn flush_waits(t: u64) -> spec_fn(PendingFlush) -> bool {
    |flush: PendingFlush| flush.action.ticket() == Some(t)
}

/// Which notices answer the operation with this ticket.
pub open spec fn is_answer(t: u64) -> spec_fn(NoticeView) -> bool {
    |notice: NoticeView| notice matches NoticeView::Complete { ticket, .. } && ticket == t
}

/// How many operations with this ticket wait.
pub open spec fn waiting(s: DriverView, t: u64) -> nat {
    count(s.acks, ack_waits(t)) + count(s.requests, request_waits(t)) + count(
        s.outbound,
        frame_waits(t),
    ) + count(s.flush_actions, flush_waits(t))
}

/// How many operations with this ticket are answered.
pub open spec fn answers(says: Seq<NoticeView>, t: u64) -> nat {
    count(says, is_answer(t))
}

proof fn answers_add(a: Seq<NoticeView>, b: Seq<NoticeView>, t: u64)
    ensures
        answers(a + b, t) == answers(a, t) + answers(b, t),
{
    count_add(a, b, is_answer(t));
}

proof fn answers_one(notice: NoticeView, t: u64)
    ensures
        answers(seq![notice], t) == one_if(
            notice matches NoticeView::Complete { ticket, .. } && ticket == t,
        ),
        answers(Seq::empty(), t) == 0,
{
    count_one(notice, is_answer(t));
}

proof fn kind_failure_answers(kind: AckKindView, e: Error, t: u64)
    ensures
        answers(kind.failure(e), t) == one_if(kind.ticket() == Some(t)),
{
    if kind.ticket() is Some {
        answers_one(kind.failure(e)[0], t);
        assert(kind.failure(e) =~= seq![kind.failure(e)[0]]);
    }
}

proof fn action_failure_answers(action: WrittenAction, e: Error, t: u64)
    ensures
        answers(action.failure(e), t) == one_if(action.ticket() == Some(t)),
{
    if action.ticket() is Some {
        answers_one(action.failure(e)[0], t);
        assert(action.failure(e) =~= seq![action.failure(e)[0]]);
    }
}

proof fn enqueue_waits(
    s: DriverView,
    bytes: Seq<u8>,
    action: WrittenAction,
    correlation: Option<Seq<u8>>,
    t: u64,
)
    ensures
        ({
            let (q, r) = s.enqueue(bytes, action, correlation);
            waiting(q, t) == waiting(s, t) + one_if(r is Ok && action.ticket() == Some(t))
        }),
{
    count_push(
        s.outbound,
        FrameView { bytes, offset: 0, action, correlation },
        frame_waits(t),
    );
}

proof fn await_ack_waits(
    s: DriverView,
    packet_id: u16,
    kind: AckKindView,
    label: &'static str,
    now: int,
    t: u64,
)
    ensures
        ({
            let (w, r) = s.await_ack(packet_id, kind, label, now);
            waiting(w, t) == waiting(s, t) + one_if(r is Ok && kind.ticket() == Some(t))
        }),
{
    count_push(
        s.acks,
        AckView { packet_id, deadline: now + s.ack_timeout, label, kind },
        ack_waits(t),
    );
}

proof fn without_ack_waits(s: DriverView, id: u16, t: u64)
    ensures
        waiting(s.without_ack(id), t) + one_if(
            s.has_ack(id) && s.acks[ack_from(s.acks, id, 0)].kind.ticket() == Some(t),
        ) == waiting(s, t),
{
    ack_position(s.acks, id, 0);
    if s.has_ack(id) {
        count_remove(s.acks, ack_from(s.acks, id, 0), ack_waits(t));
    }
}

/// The acknowledgement that was just added is found, where its identifier was free.
proof fn added_ack_is_found(acks: Seq<AckView>, ack: AckView)
    requires
        ack_from(acks, ack.packet_id, 0) >= acks.len(),
    ensures
        ack_from(acks.push(ack), ack.packet_id, 0) == acks.len(),
{
    ack_position(acks, ack.packet_id, 0);
    ack_position(acks.push(ack), ack.packet_id, 0);
    let k = ack_from(acks.push(ack), ack.packet_id, 0);
    assert(acks.push(ack)[acks.len() as int].packet_id == ack.packet_id);
    if k < acks.len() {
        assert(acks.push(ack)[k] == acks[k]);
    }
}

proof fn send_awaited_answers(
    s: DriverView,
    packet_id: u16,
    bytes: Seq<u8>,
    kind: AckKindView,
    label: &'static str,
    now: int,
    t: u64,
)
    requires
        !s.has_ack(packet_id),
    ensures
        ({
            let (u, says) = s.send_awaited(packet_id, bytes, kind, label, now);
            waiting(u, t) + answers(says, t) == waiting(s, t) + one_if(kind.ticket() == Some(t))
        }),
{
    await_ack_waits(s, packet_id, kind, label, now, t);
    let (w, r) = s.await_ack(packet_id, kind, label, now);
    enqueue_waits(w, bytes, WrittenAction::Nothing, None, t);
    without_ack_waits(w, packet_id, t);
    if let Err(e) = r {
        kind_failure_answers(kind, e, t);
    } else {
        added_ack_is_found(s.acks, w.acks.last());
        assert(s.acks.push(w.acks.last()) =~= w.acks);
        if let (_, Err(e)) = w.enqueue(bytes, WrittenAction::Nothing, None) {
            kind_failure_answers(kind, e, t);
        }
    }
}

proof fn begin_publish_answers(
    s: DriverView,
    topic: Seq<char>,
    payload: Seq<u8>,
    options: PublishOptionsView,
    ticket: u64,
    now: int,
    t: u64,
)
    requires
        s.inv(),
    ensures
        ({
            let (u, says) = s.begin_publish(topic, payload, options, ticket, now);
            waiting(u, t) + answers(says, t) == waiting(s, t) + one_if(ticket == t)
        }),
{
    let (u, says) = s.begin_publish(topic, payload, options, ticket, now);
    let packet = PublishPacketView {
        topic,
        packet_id: None,
        payload,
        qos: options.qos,
        retain: options.retain,
        dup: false,
        properties: options.properties,
    };
    if says.len() > 0 {
        answers_one(says[0], t);
    }
    if let Ok(bytes) = encoded_publish(packet) {
        enqueue_waits(s, bytes, WrittenAction::PublishQos0 { ticket }, None, t);
    }
    reserve_keeps(s, 65535);
    if let (reserved, Ok(id)) = s.reserve() {
        if let Ok(bytes) = encoded_publish(PublishPacketView { packet_id: Some(id), ..packet }) {
            send_awaited_answers(
                reserved,
                id,
                bytes,
                AckKindView::Publish { ticket },
                "publish acknowledgement",
                now,
                t,
            );
        }
    }
    if says.len() == 1 {
        assert(says =~= seq![says[0]]);
    }
}

proof fn begin_subscribe_answers(
    s: DriverView,
    filter: Seq<char>,
    qos: QoS,
    ticket: u64,
    now: int,
    t: u64,
)
    requires
        s.inv(),
    ensures
        ({
            let (u, says) = s.begin_subscribe(filter, qos, ticket, now);
            waiting(u, t) + answers(says, t) == waiting(s, t) + one_if(ticket == t)
        }),
{
    let (u, says) = s.begin_subscribe(filter, qos, ticket, now);
    if says.len() > 0 {
        answers_one(says[0], t);
    }
    reserve_keeps(s, 65535);
    if let (reserved, Ok(id)) = s.reserve() {
        if let Ok(bytes) = encoded_subscribe(subscribe_packet(id, filter, qos)) {
            send_awaited_answers(
                reserved,
                id,
                bytes,
                AckKindView::Subscribe { requested_qos: qos, ticket },
                "subscription acknowledgement",
                now,
                t,
            );
        }
    }
    if says.len() == 1 {
        assert(says =~= seq![says[0]]);
    }
}

proof fn begin_unsubscribe_answers(
    s: DriverView,
    filter: Seq<char>,
    ticket: u64,
    now: int,
    t: u64,
)
    requires
        s.inv(),
    ensures
        ({
            let (u, says) = s.begin_unsubscribe(filter, ticket, now);
            waiting(u, t) + answers(says, t) == waiting(s, t) + one_if(ticket == t)
        }),
{
    let (u, says) = s.begin_unsubscribe(filter, ticket, now);
    if says.len() > 0 {
        answers_one(says[0], t);
    }
    reserve_keeps(s, 65535);
    if let (reserved, Ok(id)) = s.reserve() {
        if let Ok(bytes) = encoded_unsubscribe(unsubscribe_packet(id, filter)) {
            send_awaited_answers(
                reserved,
                id,
                bytes,
                AckKindView::Unsubscribe { filter, ticket },
                "unsubscribe acknowledgement",
                now,
                t,
            );
        }
    }
    if says.len() == 1 {
        assert(says =~= seq![says[0]]);
    }
}

proof fn begin_disconnect_answers(s: DriverView, ticket: u64, t: u64)
    ensures
        ({
            let (u, says) = s.begin_disconnect(ticket);
            waiting(u, t) + answers(says, t) == waiting(s, t) + one_if(ticket == t)
        }),
{
    let (u, says) = s.begin_disconnect(ticket);
    enqueue_waits(s, goodbye(), WrittenAction::Disconnect { ticket }, None, t);
    if says.len() > 0 {
        answers_one(says[0], t);
        assert(says =~= seq![says[0]]);
    }
}

proof fn retained_waits(frames: Seq<FrameView>, correlation: Seq<u8>, t: u64)
    requires
        forall|i: int|
            0 <= i < frames.len() && (#[trigger] frames[i]).correlation is Some
                ==> frames[i].action is Nothing,
    ensures
        count(retained(frames, correlation), frame_waits(t)) == count(frames, frame_waits(t)),
    decreases frames.len(),
{
    if frames.len() > 0 {
        let front = frames.drop_last();
        assert forall|i: int|
            0 <= i < front.len() && (#[trigger] front[i]).correlation is Some implies front[i]
            .action is Nothing by {
            assert(front[i] == frames[i]);
        }
        retained_waits(front, correlation, t);
        assert(frames[frames.len() - 1] == frames.last());
        if !is_unsent_request(frames.last(), correlation) {
            count_push(retained(front, correlation), frames.last(), frame_waits(t));
        }
    }
}

proof fn release_request_ack_waits(
    s: DriverView,
    id: u16,
    correlation: Seq<u8>,
    unsent: bool,
    t: u64,
)
    ensures
        waiting(s.release_request_ack(id, correlation, unsent), t) == waiting(s, t),
{
    ack_position(s.acks, id, 0);
    let i = ack_from(s.acks, id, 0);
    without_ack_waits(s, id, t);
    if i < s.acks.len() {
        count_update(s.acks, i, s.acks[i].buried(), ack_waits(t));
    }
}

/// Forgetting a request is not an answer to it.
proof fn remove_request_answers(s: DriverView, correlation: Seq<u8>, t: u64)
    requires
        s.inv(),
    ensures
        ({
            let (u, says, pending) = s.remove_request(correlation);
            &&& answers(says, t) == 0
            &&& waiting(u, t) + one_if(pending matches Some(p) && p.ticket == t) == waiting(s, t)
        }),
{
    request_position(s.requests, correlation, 0);
    let i = request_from(s.requests, correlation, 0);
    let (u, says, pending) = s.remove_request(correlation);
    answers_one(NoticeView::Released(correlation), t);
    if i < s.requests.len() {
        count_remove(s.requests, i, request_waits(t));
        assert forall|j: int|
            0 <= j < s.outbound.len() && (#[trigger] s.outbound[j]).correlation is Some implies s
            .outbound[j].action is Nothing by {}
        retained_waits(s.outbound, correlation, t);
        let q = DriverView {
            requests: s.requests.remove(i),
            outbound: retained(s.outbound, correlation),
            outbound_bytes: bytes_left(
                s.outbound_bytes,
                s.outbound,
                correlation,
            ),
            ..s
        };
        if let Some(id) = s.requests[i].publish_packet_id {
            release_request_ack_waits(q, id, correlation, true, t);
            release_request_ack_waits(q, id, correlation, false, t);
        }
    }
}

proof fn fail_request_answers(s: DriverView, correlation: Seq<u8>, e: Error, t: u64)
    requires
        s.inv(),
    ensures
        ({
            let (u, says) = s.fail_request(correlation, e);
            waiting(u, t) + answers(says, t) == waiting(s, t)
        }),
{
    remove_request_answers(s, correlation, t);
    if let (u, says, Some(pending)) = s.remove_request(correlation) {
        count_push(says, responded(pending.ticket, Err(e)), is_answer(t));
    }
}

proof fn fail_all_answers(s: DriverView, correlations: Seq<Seq<u8>>, e: Error, t: u64)
    requires
        s.inv(),
    ensures
        ({
            let (u, says) = s.fail_all(correlations, e);
            waiting(u, t) + answers(says, t) == waiting(s, t)
        }),
    decreases correlations.len(),
{
    if correlations.len() > 0 {
        fail_request_answers(s, correlations[0], e, t);
        fail_request_keeps(s, correlations[0], e);
        let (u, first) = s.fail_request(correlations[0], e);
        fail_all_answers(u, correlations.skip(1), e, t);
        answers_add(first, u.fail_all(correlations.skip(1), e).1, t);
    }
}

proof fn send_request_waits(
    s: DriverView,
    i: int,
    packet_id: Option<u16>,
    bytes: Seq<u8>,
    t: u64,
)
    requires
        0 <= i < s.requests.len(),
        packet_id matches Some(id) ==> s.has_ack(id) ==> s.acks[ack_from(
            s.acks,
            id,
            0,
        )].kind.ticket() is None,
    ensures
        waiting(s.send_request(i, packet_id, bytes).0, t) == waiting(s, t),
{
    let pending = s.requests[i];
    enqueue_waits(s, bytes, WrittenAction::Nothing, Some(pending.correlation), t);
    count_update(
        s.requests,
        i,
        RequestView { published: true, publish_packet_id: packet_id, ..pending },
        request_waits(t),
    );
    if let Some(id) = packet_id {
        without_ack_waits(s, id, t);
    }
}

proof fn publish_request_waits(s: DriverView, correlation: Seq<u8>, now: int, t: u64)
    requires
        s.inv(),
    ensures
        waiting(s.publish_request(correlation, now).0, t) == waiting(s, t),
{
    let i = request_from(s.requests, correlation, 0);
    request_position(s.requests, correlation, 0);
    if i < s.requests.len() && !s.requests[i].published {
        let pending = s.requests[i];
        match pending.qos {
            QoS::AtMostOnce => {
                if let Ok(bytes) = encoded_publish(DriverView::request_packet(pending, None)) {
                    send_request_waits(s, i, None, bytes, t);
                }
            },
            QoS::AtLeastOnce => {
                reserve_keeps(s, 65535);
                if let (reserved, Ok(id)) = s.reserve() {
                    let kind = AckKindView::RequestPublish { correlation };
                    let label = "request publish acknowledgement";
                    await_ack_waits(reserved, id, kind, label, now, t);
                    let (w, r) = reserved.await_ack(id, kind, label, now);
                    if let Ok(bytes) = encoded_publish(
                        DriverView::request_packet(pending, Some(id)),
                    ) {
                        if r is Ok {
                            added_ack_is_found(reserved.acks, w.acks.last());
                            assert(reserved.acks.push(w.acks.last()) =~= w.acks);
                            send_request_waits(w, i, Some(id), bytes, t);
                        }
                    }
                }
            },
        }
    }
}

proof fn publish_all_answers(s: DriverView, correlations: Seq<Seq<u8>>, now: int, t: u64)
    requires
        s.inv(),
    ensures
        ({
            let (u, says) = s.publish_all(correlations, now);
            waiting(u, t) + answers(says, t) == waiting(s, t)
        }),
    decreases correlations.len(),
{
    if correlations.len() > 0 {
        publish_request_waits(s, correlations[0], now, t);
        publish_request_keeps(s, correlations[0], now);
        let rest = correlations.skip(1);
        match s.publish_request(correlations[0], now) {
            (u, Ok(_)) => {
                publish_all_answers(u, rest, now, t);
                answers_add(Seq::empty(), u.publish_all(rest, now).1, t);
            },
            (u, Err(e)) => {
                fail_request_answers(u, correlations[0], e, t);
                fail_request_keeps(u, correlations[0], e);
                let (v, first) = u.fail_request(correlations[0], e);
                publish_all_answers(v, rest, now, t);
                answers_add(first, v.publish_all(rest, now).1, t);
            },
        }
    }
}

proof fn subscribe_for_responses_waits(s: DriverView, topic: Seq<char>, now: int, t: u64)
    requires
        s.inv(),
    ensures
        waiting(s.subscribe_for_responses(topic, now).0, t) == waiting(s, t),
{
    reserve_keeps(s, 65535);
    if let (reserved, Ok(id)) = s.reserve() {
        let kind = AckKindView::ResponseSubscribe { topic };
        let label = "request subscription acknowledgement";
        await_ack_waits(reserved, id, kind, label, now, t);
        let (w, r) = reserved.await_ack(id, kind, label, now);
        if r is Ok {
            added_ack_is_found(reserved.acks, w.acks.last());
            assert(reserved.acks.push(w.acks.last()) =~= w.acks);
            let subscribing = w.with_subscription(topic);
            if let Ok(bytes) = encoded_subscribe(subscribe_packet(id, topic, QoS::AtLeastOnce)) {
                enqueue_waits(subscribing, bytes, WrittenAction::Nothing, None, t);
                without_ack_waits(subscribing, id, t);
            }
        }
    }
}

proof fn begin_request_answers(
    s: DriverView,
    request: RequestCommandView,
    ticket: u64,
    now: int,
    t: u64,
)
    requires
        s.inv(),
    ensures
        ({
            let (u, says) = s.begin_request(request, ticket, false, now);
            waiting(u, t) + answers(says, t) == waiting(s, t) + one_if(ticket == t)
        }),
{
    let correlation = request.correlation_data;
    let topic = request.response_topic;
    request_position(s.requests, correlation, 0);
    match s.request_check(request, now) {
        Err(e) => {
            let first = seq![NoticeView::Released(correlation)];
            let second = seq![responded(ticket, Err(e))];
            assert(seq![NoticeView::Released(correlation), responded(ticket, Err(e))] =~= first
                + second);
            answers_add(first, second, t);
            answers_one(first[0], t);
            answers_one(second[0], t);
        },
        Ok(_) => {
            let pending = RequestView {
                correlation,
                topic: request.topic,
                payload: request.payload,
                response_topic: topic,
                qos: request.qos,
                properties: request.properties,
                deadline: now + request.timeout.spec_nanos(),
                ticket,
                publish_packet_id: None,
                published: false,
            };
            let w = DriverView { requests: s.requests.push(pending), ..s };
            count_push(s.requests, pending, request_waits(t));
            assert(w.inv());
            publish_request_waits(w, correlation, now, t);
            subscribe_for_responses_waits(w, topic, now, t);
            route_request_keeps(w, correlation, topic, now);
            let (u, r) = w.route_request(correlation, topic, now);
            if let Err(e) = r {
                fail_request_answers(u, correlation, e, t);
            }
        },
    }
}

/// A command is answered at once or waits; one that comes too late is answered at once. A
/// request that was cancelled before it started is neither.
pub proof fn command_is_answered_or_waits(s: DriverView, command: Command, now: int, t: u64)
    requires
        s.inv(),
    ensures
        ({
            let (u, says) = processed(s, command, now);
            let started = match command {
                Command::Publish { ticket, .. } => ticket == t,
                Command::Subscribe { ticket, .. } => ticket == t,
                Command::Unsubscribe { ticket, .. } => ticket == t,
                Command::Disconnect { ticket } => ticket == t,
                Command::Request { ticket, cancelled, .. } => ticket == t && !(cancelled
                    && !s.closing),
            };
            waiting(u, t) + answers(says, t) == waiting(s, t) + one_if(started)
        }),
{
    if s.closing {
        answers_one(command.failure(Error::ClientClosed), t);
    } else {
        match command {
            Command::Publish { topic, payload, options, ticket } => {
                begin_publish_answers(s, topic@, payload@, options@, ticket, now, t);
            },
            Command::Subscribe { filter, qos, ticket } => {
                begin_subscribe_answers(s, filter@, qos, ticket, now, t);
            },
            Command::Unsubscribe { filter, ticket } => {
                begin_unsubscribe_answers(s, filter@, ticket, now, t);
            },
            Command::Disconnect { ticket } => {
                begin_disconnect_answers(s, ticket, t);
            },
            Command::Request { request, ticket, cancelled } => {
                begin_request_answers(s, request@, ticket, now, t);
            },
        }
    }
}

/// Flushing the transport answers the operations whose frame has left.
pub proof fn flush_answers(s: DriverView, now: int, t: u64)
    ensures
        ({
            let (u, says) = s.flushed(now);
            waiting(u, t) + answers(says, t) == waiting(s, t)
        }),
    decreases s.flush_actions.len(),
{
    if s.flush_actions.len() > 0 {
        let flush = s.flush_actions[0];
        count_front(s.flush_actions, flush_waits(t));
        let popped = DriverView {
            flush_actions: s.flush_actions.skip(1),
            outbound_bytes: less(
                s.outbound_bytes,
                flush.bytes as int,
            ),
            ..s
        };
        let (done, first) = popped.complete_written(flush.action, now);
        flush_answers(done, now, t);
        answers_add(first, done.flushed(now).1, t);
        if first.len() == 1 {
            answers_one(first[0], t);
            assert(first =~= seq![first[0]]);
        }
        if first.len() == 2 {
            answers_one(first[0], t);
            answers_one(first[1], t);
            assert(first =~= seq![first[0]] + seq![first[1]]);
            answers_add(seq![first[0]], seq![first[1]], t);
        }
    }
}

/// An operation goes on waiting while its frame is written.
pub proof fn writing_answers_nobody(s: DriverView, written: usize, now: int, t: u64)
    requires
        s.outbound.len() > 0,
    ensures
        waiting(s.advanced(written, now), t) == waiting(s, t),
{
    let front = s.outbound[0];
    count_front(s.outbound, frame_waits(t));
    let offset = (front.offset + written) as usize;
    if offset == front.bytes.len() {
        count_push(
            s.flush_actions,
            PendingFlush { bytes: front.bytes.len() as usize, action: front.action },
            flush_waits(t),
        );
    } else {
        count_update(s.outbound, 0, FrameView { offset, ..front }, frame_waits(t));
    }
}

proof fn take_ack_waits(s: DriverView, packet_id: u16, received: AckClass, t: u64)
    ensures
        ({
            let (u, taken) = s.take_ack(packet_id, received);
            waiting(u, t) + one_if(
                taken matches Ok(Some(ack)) && ack.kind.ticket() == Some(t),
            ) == waiting(s, t)
        }),
{
    ack_position(s.acks, packet_id, 0);
    let i = ack_from(s.acks, packet_id, 0);
    if i < s.acks.len() {
        count_remove(s.acks, i, ack_waits(t));
    }
}

proof fn dispatch_puback_answers(s: DriverView, ack: PubAckPacket, t: u64)
    requires
        s.inv(),
    ensures
        ({
            let (u, says, _) = s.dispatch_puback(ack);
            waiting(u, t) + answers(says, t) == waiting(s, t)
        }),
{
    reveal(DriverView::dispatch_puback);
    take_ack_waits(s, ack.packet_id, AckClass::Publish, t);
    take_ack_keeps(s, ack.packet_id, AckClass::Publish);
    let (u, taken) = s.take_ack(ack.packet_id, AckClass::Publish);
    let says = s.dispatch_puback(ack).1;
    if let Ok(Some(pending)) = taken {
        match pending.kind {
            AckKindView::RequestPublish { correlation } => {
                fail_request_answers(
                    u,
                    correlation,
                    Error::AckRejected { packet: "PUBACK", reason_code: ack.reason_code },
                    t,
                );
            },
            AckKindView::Publish { ticket } => {
                answers_one(says[0], t);
                assert(says =~= seq![says[0]]);
            },
            _ => {},
        }
    }
}

proof fn dispatch_suback_answers(s: DriverView, ack: AckCodesView, now: int, t: u64)
    requires
        s.inv(),
    ensures
        ({
            let (u, says, _) = s.dispatch_suback(ack, now);
            waiting(u, t) + answers(says, t) == waiting(s, t)
        }),
{
    reveal(DriverView::dispatch_suback);
    take_ack_waits(s, ack.packet_id, AckClass::Subscribe, t);
    take_ack_keeps(s, ack.packet_id, AckClass::Subscribe);
    let (u, taken) = s.take_ack(ack.packet_id, AckClass::Subscribe);
    let says = s.dispatch_suback(ack, now).1;
    if let Ok(Some(pending)) = taken {
        match pending.kind {
            AckKindView::ResponseSubscribe { topic } => {
                subscription_keeps(u, topic);
                let ready = u.with_ready_subscription(topic);
                publish_all_answers(ready, requests_for(ready.requests, topic, true), now, t);
                let gone = u.without_subscription(topic);
                if let Err(e) = suback_check(ack.reason_codes, seq![QoS::AtLeastOnce]) {
                    fail_all_answers(gone, requests_for(gone.requests, topic, false), e, t);
                }
            },
            AckKindView::Subscribe { requested_qos, ticket } => {
                answers_one(says[0], t);
                assert(says =~= seq![says[0]]);
            },
            _ => {},
        }
    }
}

proof fn dispatch_unsuback_answers(s: DriverView, ack: AckCodesView, t: u64)
    requires
        s.inv(),
    ensures
        ({
            let (u, says, _) = s.dispatch_unsuback(ack);
            waiting(u, t) + answers(says, t) == waiting(s, t)
        }),
{
    reveal(DriverView::dispatch_unsuback);
    take_ack_waits(s, ack.packet_id, AckClass::Unsubscribe, t);
    let says = s.dispatch_unsuback(ack).1;
    if says.len() > 0 {
        answers_one(says[0], t);
        assert(says =~= seq![says[0]]);
    }
}

proof fn dispatch_publish_answers(s: DriverView, packet: PublishPacketView, t: u64)
    requires
        s.inv(),
    ensures
        ({
            let (u, says, _) = s.dispatch_publish(packet);
            waiting(u, t) + answers(says, t) == waiting(s, t)
        }),
{
    reveal(DriverView::dispatch_publish);
    if let Some(packet_id) = packet.packet_id {
        if let Ok(bytes) = encoded_puback(PubAckPacket { packet_id, reason_code: 0 }) {
            enqueue_waits(s, bytes, WrittenAction::Nothing, None, t);
            enqueue_keeps(s, bytes, WrittenAction::Nothing, None);
        }
    }
    let u = s.acknowledge(packet).0;
    if let Some(i) = u.answered(packet) {
        let correlation = u.requests[i].correlation;
        request_position(u.requests, correlation, 0);
        remove_request_answers(u, correlation, t);
        let (v, says, pending) = u.remove_request(correlation);
        answered_is_found(u, packet);
        count_push(says, responded(u.requests[i].ticket, Ok(packet)), is_answer(t));
    }
}

proof fn answered_is_found(s: DriverView, packet: PublishPacketView)
    requires
        s.inv(),
    ensures
        s.answered(packet) matches Some(i) ==> 0 <= i < s.requests.len() && request_from(
            s.requests,
            s.requests[i].correlation,
            0,
        ) == i,
{
    if let Some(i) = s.answered(packet) {
        let k = request_from(s.requests, s.requests[i].correlation, 0);
        request_position(s.requests, s.requests[i].correlation, 0);
        let given = first_value(
            packet.properties,
            PropertyId::CorrelationData,
            ValueKind::Binary,
        );
        if let Some(PropertyValueView::Binary(correlation)) = given {
            request_position(s.requests, correlation, 0);
        }
    }
}

proof fn ack_failures_answers(acks: Seq<AckView>, n: nat, t: u64)
    requires
        n <= acks.len(),
    ensures
        answers(ack_failures(acks, n), t) == count(acks.take(n as int), ack_waits(t)),
    decreases n,
{
    if n > 0 {
        let k = (n - 1) as nat;
        ack_failures_answers(acks, k, t);
        kind_failure_answers(acks[k as int].kind, Error::ConnectionClosed, t);
        answers_add(
            ack_failures(acks, k),
            acks[k as int].kind.failure(Error::ConnectionClosed),
            t,
        );
        assert(acks.take(n as int).drop_last() =~= acks.take(k as int));
    }
}

proof fn frame_failures_answers(frames: Seq<FrameView>, n: nat, t: u64)
    requires
        n <= frames.len(),
    ensures
        answers(frame_failures(frames, n), t) == count(frames.take(n as int), frame_waits(t)),
    decreases n,
{
    if n > 0 {
        let k = (n - 1) as nat;
        frame_failures_answers(frames, k, t);
        action_failure_answers(frames[k as int].action, Error::ConnectionClosed, t);
        answers_add(
            frame_failures(frames, k),
            frames[k as int].action.failure(Error::ConnectionClosed),
            t,
        );
        assert(frames.take(n as int).drop_last() =~= frames.take(k as int));
    }
}

proof fn flush_failures_answers(flushes: Seq<PendingFlush>, n: nat, t: u64)
    requires
        n <= flushes.len(),
    ensures
        answers(flush_failures(flushes, n), t) == count(flushes.take(n as int), flush_waits(t)),
    decreases n,
{
    if n > 0 {
        let k = (n - 1) as nat;
        flush_failures_answers(flushes, k, t);
        action_failure_answers(flushes[k as int].action, Error::ConnectionClosed, t);
        answers_add(
            flush_failures(flushes, k),
            flushes[k as int].action.failure(Error::ConnectionClosed),
            t,
        );
        assert(flushes.take(n as int).drop_last() =~= flushes.take(k as int));
    }
}

proof fn request_failures_answers(requests: Seq<RequestView>, n: nat, t: u64)
    requires
        n <= requests.len(),
    ensures
        answers(request_failures(requests, n), t) == count(
            requests.take(n as int),
            request_waits(t),
        ),
    decreases n,
{
    if n > 0 {
        let k = (n - 1) as nat;
        request_failures_answers(requests, k, t);
        let first = NoticeView::Released(requests[k as int].correlation);
        let second = responded(requests[k as int].ticket, Err(Error::ConnectionClosed));
        answers_one(first, t);
        answers_one(second, t);
        answers_add(seq![first], seq![second], t);
        assert(seq![first, second] =~= seq![first] + seq![second]);
        answers_add(request_failures(requests, k), seq![first, second], t);
        assert(requests.take(n as int).drop_last() =~= requests.take(k as int));
    }
}

/// Once the connection is over, every operation that waited has been answered.
pub proof fn end_answers_everybody(s: DriverView, t: u64)
    ensures
        waiting(s.fail_pending().0, t) == 0,
        answers(s.fail_pending().1, t) == waiting(s, t),
{
    let acks = ack_failures(s.acks, s.acks.len());
    let frames = frame_failures(s.outbound, s.outbound.len());
    let flushes = flush_failures(s.flush_actions, s.flush_actions.len());
    let requests = request_failures(s.requests, s.requests.len());
    ack_failures_answers(s.acks, s.acks.len(), t);
    frame_failures_answers(s.outbound, s.outbound.len(), t);
    flush_failures_answers(s.flush_actions, s.flush_actions.len(), t);
    request_failures_answers(s.requests, s.requests.len(), t);
    assert(s.acks.take(s.acks.len() as int) =~= s.acks);
    assert(s.outbound.take(s.outbound.len() as int) =~= s.outbound);
    assert(s.flush_actions.take(s.flush_actions.len() as int) =~= s.flush_actions);
    assert(s.requests.take(s.requests.len() as int) =~= s.requests);
    answers_add(acks, frames, t);
    answers_add(acks + frames, flushes, t);
    answers_add(acks + frames + flushes, requests, t);
}

proof fn dispatch_packet_answers(s: DriverView, packet: PacketView, now: int, t: u64)
    requires
        s.inv(),
    ensures
        ({
            let (u, says, _) = s.dispatch_packet(packet, now);
            waiting(u, t) + answers(says, t) == waiting(s, t)
        }),
{
    match packet {
        PacketView::Publish(p) => {
            dispatch_publish_answers(s, p, t);
        },
        PacketView::PubAck(ack) => {
            dispatch_puback_answers(s, ack, t);
        },
        PacketView::SubAck(ack) => {
            dispatch_suback_answers(s, ack, now, t);
        },
        PacketView::UnsubAck(ack) => {
            dispatch_unsuback_answers(s, ack, t);
        },
        PacketView::Disconnect(d) => {
            end_answers_everybody(s, t);
            count_push(
                s.fail_pending().1,
                went_down(
                    DisconnectReason::Server(d.reason_code),
                ),
                is_answer(t),
            );
        },
        _ => {},
    }
}

proof fn drain_one_answers(s: DriverView, now: int, t: u64)
    requires
        s.inv(),
    ensures
        ({
            let (u, says, _) = s.drain_one(now);
            waiting(u, t) + answers(says, t) == waiting(s, t)
        }),
{
    reveal(DriverView::drain_one);
    let w = DriverView { reader: s.reader.after_next(), ..s };
    assert(w.inv());
    if let Ok(Some(packet)) = s.reader.next_packet() {
        dispatch_packet_answers(w, packet, now, t);
    }
}

/// Whatever arrives, an operation goes on waiting or is answered once.
pub proof fn packets_answer_once(s: DriverView, now: int, t: u64)
    requires
        s.inv(),
    ensures
        ({
            let (u, says, _) = s.drain_packets(now);
            waiting(u, t) + answers(says, t) == waiting(s, t)
        }),
    decreases s.reader.buf.len(),
{
    drain_one_answers(s, now, t);
    drain_one_keeps(s, now);
    let (u, says, result) = s.drain_one(now);
    if result matches Ok(Some(None)) {
        packets_answer_once(u, now, t);
        answers_add(says, u.drain_packets(now).1, t);
    }
}

proof fn expire_ack_answers(s: DriverView, id: u16, t: u64)
    requires
        s.inv(),
    ensures
        ({
            let (u, says) = s.expire_ack(id);
            waiting(u, t) + answers(says, t) == waiting(s, t)
        }),
{
    ack_position(s.acks, id, 0);
    let i = ack_from(s.acks, id, 0);
    if i < s.acks.len() {
        let ack = s.acks[i];
        let late = Error::Timeout(ack.label);
        count_update(s.acks, i, ack.buried(), ack_waits(t));
        let w = DriverView { acks: s.acks.update(i, ack.buried()), ..s };
        assert(w.inv());
        match ack.kind {
            AckKindView::ResponseSubscribe { topic } => {
                subscription_keeps(w, topic);
                let gone = w.without_subscription(topic);
                fail_all_answers(gone, requests_for(gone.requests, topic, false), late, t);
            },
            AckKindView::RequestPublish { correlation } => {
                fail_request_answers(s, correlation, late, t);
                release_request_ack_waits(
                    s.fail_request(correlation, late).0,
                    id,
                    correlation,
                    false,
                    t,
                );
            },
            other => {
                kind_failure_answers(other, late, t);
            },
        }
    }
}

proof fn expire_acks_answers(s: DriverView, ids: Seq<u16>, t: u64)
    requires
        s.inv(),
    ensures
        ({
            let (u, says) = s.expire_acks(ids);
            waiting(u, t) + answers(says, t) == waiting(s, t)
        }),
    decreases ids.len(),
{
    if ids.len() > 0 {
        expire_ack_answers(s, ids[0], t);
        expire_ack_keeps(s, ids[0]);
        let (u, first) = s.expire_ack(ids[0]);
        expire_acks_answers(u, ids.skip(1), t);
        answers_add(first, u.expire_acks(ids.skip(1)).1, t);
    }
}

proof fn expire_requests_answers(
    s: DriverView,
    correlations: Seq<Seq<u8>>,
    cancelled: Seq<u64>,
    t: u64,
)
    requires
        s.inv(),
        !cancelled.contains(t),
    ensures
        ({
            let (u, says) = s.expire_requests(correlations, cancelled);
            waiting(u, t) + answers(says, t) == waiting(s, t)
        }),
    decreases correlations.len(),
{
    if correlations.len() > 0 {
        let correlation = correlations[0];
        let late = Error::Timeout("request response");
        request_position(s.requests, correlation, 0);
        remove_request_answers(s, correlation, t);
        fail_request_answers(s, correlation, late, t);
        remove_request_keeps(s, correlation);
        fail_request_keeps(s, correlation, late);
        let (u, first) = s.expire_request(correlation, cancelled);
        expire_requests_answers(u, correlations.skip(1), cancelled, t);
        answers_add(first, u.expire_requests(correlations.skip(1), cancelled).1, t);
    }
}

proof fn bury_cancelled_waits(acks: Seq<AckView>, cancelled: Seq<u64>, t: u64)
    requires
        !cancelled.contains(t),
    ensures
        count(bury_cancelled(acks, cancelled), ack_waits(t)) == count(acks, ack_waits(t)),
    decreases acks.len(),
{
    if acks.len() > 0 {
        bury_cancelled_waits(acks.drop_last(), cancelled, t);
        assert(bury_cancelled(acks, cancelled).drop_last() =~= bury_cancelled(
            acks.drop_last(),
            cancelled,
        ));
    }
}

/// What is overdue is answered. An operation whose ticket is not among the cancelled ones
/// is never forgotten.
pub proof fn expiry_answers_once(s: DriverView, now: int, cancelled: Seq<u64>, t: u64)
    requires
        s.inv(),
        !cancelled.contains(t),
    ensures
        ({
            let (u, says) = s.expire_operations(now, cancelled);
            waiting(u, t) + answers(says, t) == waiting(s, t)
        }),
{
    bury_cancelled_waits(s.acks, cancelled, t);
    let w = DriverView { acks: bury_cancelled(s.acks, cancelled), ..s };
    bury_cancelled_keeps(s, cancelled);
    expire_acks_answers(w, overdue_acks(w.acks, now), t);
    expire_acks_keeps(w, overdue_acks(w.acks, now));
    let (u, first) = w.expire_acks(overdue_acks(w.acks, now));
    let late = overdue_requests(u.requests, now, cancelled);
    expire_requests_answers(u, late, cancelled, t);
    answers_add(first, u.expire_requests(late, cancelled).1, t);
}

/// Forgetting requests that nobody waits for does not touch any other operation.
pub proof fn cancellation_spares_the_others(s: DriverView, correlations: Seq<Seq<u8>>, t: u64)
    requires
        s.inv(),
        forall|i: int|
            0 <= i < s.requests.len() && correlations.contains(
                (#[trigger] s.requests[i]).correlation,
            ) ==> s.requests[i].ticket != t,
    ensures
        ({
            let (u, says) = s.remove_all(correlations);
            waiting(u, t) == waiting(s, t) && answers(says, t) == 0
        }),
    decreases correlations.len(),
{
    if correlations.len() > 0 {
        let correlation = correlations[0];
        request_position(s.requests, correlation, 0);
        let i = request_from(s.requests, correlation, 0);
        if i < s.requests.len() {
            assert(correlations.contains(s.requests[i].correlation));
        }
        remove_request_answers(s, correlation, t);
        remove_request_keeps(s, correlation);
        let (u, first, _) = s.remove_request(correlation);
        let rest = correlations.skip(1);
        assert forall|j: int|
            0 <= j < u.requests.len() && rest.contains(
                (#[trigger] u.requests[j]).correlation,
            ) implies u.requests[j].ticket != t by {
            let k = choose|k: int| 0 <= k < rest.len() && rest[k] == u.requests[j].correlation;
            assert(correlations[k + 1] == u.requests[j].correlation);
            let at = if i >= s.requests.len() || j < i {
                j
            } else {
                j + 1
            };
            assert(u.requests[j] == s.requests[at]);
            assert(correlations.contains(s.requests[at].correlation));
        }
        cancellation_spares_the_others(u, rest, t);
        answers_add(first, u.remove_all(rest).1, t);
    }
}

/// Keeping the connection alive and saying goodbye unasked concern no operation.
pub proof fn upkeep_answers_nobody(s: DriverView, now: int, t: u64)
    ensures
        waiting(s.maintain_keep_alive(now).0, t) == waiting(s, t),
        waiting(s.begin_abandoned_disconnect().0, t) == waiting(s, t),
{
    enqueue_waits(s, PINGREQ_BYTES@, WrittenAction::PingReq, None, t);
    enqueue_waits(
        DriverView { closing: true, ..s },
        goodbye(),
        WrittenAction::AbandonedDisconnect,
        None,
        t,
    );
}

} // verus!
