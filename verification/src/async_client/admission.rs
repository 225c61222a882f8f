//! When the driver owes an operation its try: where there is room for it, and nothing is
//! wrong with it, it is not refused.
use vstd::prelude::*;

use crate::async_client::driver::{processed, Command};
use crate::async_client::laws::{
    request_position, reserve_fails_only_when_all_are_reserved, reserve_keeps,
};
use crate::async_client::model::{
    qos1_count, request_from, subscribe_packet, unsubscribe_packet, DriverView, RequestView,
};
use crate::codec::publish::encoded_publish;
use crate::codec::subscribe::{encoded_subscribe, encoded_unsubscribe};
use crate::codec::topic::{topic_filter_check, topic_name_check};
use crate::codec::types::{PublishPacketView, QoS};
use crate::error::Result;
use crate::options::PublishOptions;
use crate::request_response::RequestCommand;
use crate::time::MAX_INSTANT_NANOS;

verus! {

/// Whether a packet was encoded, is not too large for the broker, and has room in the queue.
pub open spec fn fits_queue(s: DriverView, encoded: Result<Seq<u8>>) -> bool {
    encoded matches Ok(bytes) && bytes.len() <= s.peer_max_packet_size && s.outbound_bytes
        + bytes.len() <= s.max_outbound_queue_bytes
}

/// Whether another packet can be put aside to wait for its acknowledgement, with the packet
/// identifier `free` if no other.
pub open spec fn can_await(s: DriverView, free: u16) -> bool {
    &&& s.acks.len() < s.max_pending_operations
    &&& free != 0
    &&& !s.has_ack(free)
}

/// Whether the broker takes another message at QoS 1 before it acknowledges one.
pub open spec fn can_send_more(s: DriverView) -> bool {
    qos1_count(s.acks, s.acks.len()) < s.peer_receive_maximum
}

/// Whether the broker supports messages of this kind.
pub open spec fn is_supported(s: DriverView, qos: QoS, retain: bool) -> bool {
    &&& qos == QoS::AtLeastOnce ==> s.capabilities.maximum_qos == QoS::AtLeastOnce
    &&& retain ==> s.capabilities.retain_available
}

/// The message that is to be sent, with the packet identifier that it gets.
pub open spec fn numbered(message: PublishPacketView, id: Option<u16>) -> PublishPacketView {
    PublishPacketView { packet_id: id, ..message }
}

/// Whether a message has room in the queue, whatever packet identifier it gets at QoS 1.
pub open spec fn has_room(s: DriverView, message: PublishPacketView) -> bool {
    forall|id: Option<u16>|
        (id is Some <==> message.qos == QoS::AtLeastOnce) && id != Some(0u16) ==> fits_queue(
            s,
            encoded_publish(#[trigger] numbered(message, id)),
        )
}

/// Where a packet identifier is free, one is reserved.
pub(crate) proof fn free_id_is_reserved(s: DriverView, free: u16)
    requires
        s.inv(),
        free != 0,
        !s.has_ack(free),
    ensures
        s.reserve() matches (t, Ok(id)) && id != 0 && !s.has_ack(id) && t == (DriverView {
            next_packet_id: t.next_packet_id,
            ..s
        }),
{
    reserve_keeps(s, 65535);
    if s.reserve().1 is Err {
        reserve_fails_only_when_all_are_reserved(s, free);
    }
}

/// A publish is accepted where its topic is one to publish to, the broker supports it, and
/// there is room for it.
pub proof fn publish_is_accepted(
    s: DriverView,
    topic: String,
    payload: Vec<u8>,
    options: PublishOptions,
    ticket: u64,
    now: int,
    free: u16,
)
    requires
        s.inv(),
        !s.closing,
        topic_name_check(topic@) is Ok,
        is_supported(s, options@.qos, options@.retain),
        options@.qos == QoS::AtLeastOnce ==> can_await(s, free) && can_send_more(s),
        has_room(
            s,
            PublishPacketView {
                topic: topic@,
                packet_id: None,
                payload: payload@,
                qos: options@.qos,
                retain: options@.retain,
                dup: false,
                properties: options@.properties,
            },
        ),
    ensures
        ({
            let (t, says) = processed(
                s,
                Command::Publish { topic, payload, options, ticket },
                now,
            );
            says.len() == 0 && t.outbound.len() == s.outbound.len() + 1
        }),
{
    let packet = PublishPacketView {
        topic: topic@,
        packet_id: None,
        payload: payload@,
        qos: options@.qos,
        retain: options@.retain,
        dup: false,
        properties: options@.properties,
    };
    match options@.qos {
        QoS::AtMostOnce => {
            assert(fits_queue(s, encoded_publish(numbered(packet, None))));
            assert(numbered(packet, None) == packet);
        },
        QoS::AtLeastOnce => {
            free_id_is_reserved(s, free);
            let id = s.reserve().1->Ok_0;
            assert(fits_queue(s, encoded_publish(numbered(packet, Some(id)))));
        },
    }
}

/// A subscribe is accepted where its filter is one that the broker supports, and there is
/// room for it; and an unsubscribe where its filter is one, and there is room for it.
pub proof fn subscribe_is_accepted(
    s: DriverView,
    filter: String,
    qos: QoS,
    ticket: u64,
    now: int,
    free: u16,
)
    requires
        s.inv(),
        !s.closing,
        can_await(s, free),
    ensures
        s.capabilities.filter_check(filter@) is Ok && (forall|id: u16|
            id != 0 ==> fits_queue(
                s,
                #[trigger] encoded_subscribe(subscribe_packet(id, filter@, qos)),
            )) ==> {
            let (t, says) = processed(s, Command::Subscribe { filter, qos, ticket }, now);
            says.len() == 0 && t.outbound.len() == s.outbound.len() + 1
        },
        topic_filter_check(filter@) is Ok && (forall|id: u16|
            id != 0 ==> fits_queue(
                s,
                #[trigger] encoded_unsubscribe(unsubscribe_packet(id, filter@)),
            )) ==> {
            let (t, says) = processed(s, Command::Unsubscribe { filter, ticket }, now);
            says.len() == 0 && t.outbound.len() == s.outbound.len() + 1
        },
{
    free_id_is_reserved(s, free);
    let id = s.reserve().1->Ok_0;
    let subscribe = encoded_subscribe(subscribe_packet(id, filter@, qos));
    let unsubscribe = encoded_unsubscribe(unsubscribe_packet(id, filter@));
}

/// A request is accepted where its time limit and its topic are in order, the broker supports
/// it, no request with the same correlation data is pending, and there is room for it: for
/// its own packet where the response topic is subscribed to, and for the subscription where
/// nobody has asked for it.
pub proof fn request_is_accepted(
    s: DriverView,
    request: RequestCommand,
    ticket: u64,
    now: int,
    free: u16,
)
    requires
        s.inv(),
        !s.closing,
        0 < request@.timeout.spec_nanos(),
        now + request@.timeout.spec_nanos() <= MAX_INSTANT_NANOS,
        topic_name_check(request@.topic) is Ok,
        is_supported(s, request@.qos, false),
        s.requests.len() < s.max_pending_operations,
        s.subscriptions.len() < s.max_pending_operations,
        can_await(s, free),
        can_send_more(s),
        forall|i: int|
            0 <= i < s.requests.len() ==> (#[trigger] s.requests[i]).correlation
                != request@.correlation_data,
        forall|id: u16|
            id != 0 ==> fits_queue(
                s,
                #[trigger] encoded_subscribe(
                    subscribe_packet(id, request@.response_topic, QoS::AtLeastOnce),
                ),
            ),
        has_room(
            s,
            PublishPacketView {
                topic: request@.topic,
                packet_id: None,
                payload: request@.payload,
                qos: request@.qos,
                retain: false,
                dup: false,
                properties: request@.properties,
            },
        ),
    ensures
        ({
            let (t, says) = processed(
                s,
                Command::Request { request, ticket, cancelled: false },
                now,
            );
            says.len() == 0 && t.requests.len() == s.requests.len() + 1
        }),
{
    let data = request@.correlation_data;
    request_position(s.requests, data, 0);
    let pending = RequestView {
        correlation: data,
        topic: request@.topic,
        payload: request@.payload,
        response_topic: request@.response_topic,
        qos: request@.qos,
        properties: request@.properties,
        deadline: now + request@.timeout.spec_nanos(),
        ticket,
        publish_packet_id: None,
        published: false,
    };
    let p = DriverView { requests: s.requests.push(pending), ..s };
    request_position(p.requests, data, 0);
    let k = request_from(p.requests, data, 0);
    assert(p.requests[s.requests.len() as int].correlation == data);
    assert(k == s.requests.len()) by {
        if k < s.requests.len() {
            assert(p.requests[k] == s.requests[k]);
        }
    }
    assert(p.inv());
    free_id_is_reserved(p, free);
    let id = p.reserve().1->Ok_0;
    let bare = DriverView::request_packet(pending, None);
    match request@.qos {
        QoS::AtMostOnce => {
            assert(fits_queue(s, encoded_publish(numbered(bare, None))));
            assert(numbered(bare, None) == bare);
        },
        QoS::AtLeastOnce => {
            assert(fits_queue(s, encoded_publish(numbered(bare, Some(id)))));
            assert(numbered(bare, Some(id)) == DriverView::request_packet(pending, Some(id)));
        },
    }
    assert(fits_queue(
        s,
        encoded_subscribe(subscribe_packet(id, request@.response_topic, QoS::AtLeastOnce)),
    ));
}

} // verus!
