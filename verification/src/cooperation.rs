//! What cooperative requests are for: what goes out for one, and that its reply comes back to
//! it and to no other.
use vstd::prelude::*;

use crate::codec::broker::{heard, puback_is_heard, publish_is_heard, Heard};
use crate::codec::encode::variable_int_bytes;
use crate::codec::publish::{encoded_puback, encoded_publish};
use crate::codec::types::{DisconnectPacket, PacketView, PubAckPacket, PublishPacketView, QoS};
use crate::error::Error;
use crate::frame::publish_is_read_back;
use crate::request::{
    dotted, ended_request_is_forgotten, slot_from, slot_position, ArrivalView,
    CooperativeRequestView, ExchangeView, PollStepView, ReplyView, RequestStateView, SlotView,
};

verus! {

/// Whether the connection knows as much of the request with this identifier as before.
pub open spec fn knows_the_same(s: ExchangeView, t: ExchangeView, id: Seq<char>) -> bool {
    &&& t.has(id) == s.has(id)
    &&& s.has(id) ==> t.reply(id) == s.reply(id)
}

/// The slot of a request is the one with its identifier.
proof fn slot_is_found(s: ExchangeView, id: Seq<char>, k: int)
    requires
        s.ids_are_distinct(),
        0 <= k < s.pending.len(),
        s.pending[k].correlation_id == id,
    ensures
        slot_from(s.pending, id, 0) == k,
        s.has(id),
{
    slot_position(s.pending, id, 0);
    let i = slot_from(s.pending, id, 0);
    if i < k {
        assert(s.pending[i].correlation_id != s.pending[k].correlation_id);
    }
}

/// A request that is not there stays unknown where no slot gets its identifier.
proof fn slot_is_not_found(s: ExchangeView, id: Seq<char>)
    requires
        forall|k: int| 0 <= k < s.pending.len() ==> (#[trigger] s.pending[k]).correlation_id != id,
    ensures
        !s.has(id),
{
    slot_position(s.pending, id, 0);
}

/// What a request is given concerns it alone: it has just that, and of every other request
/// the connection knows as much as before.
pub proof fn given_reply_reaches_its_request(
    s: ExchangeView,
    id: Seq<char>,
    result: ReplyView,
    other: Seq<char>,
)
    requires
        s.ids_are_distinct(),
        other != id,
    ensures
        s.given(id, result).has(id) == s.has(id),
        s.has(id) ==> s.given(id, result).reply(id) == result,
        s.given(id, result).ids_are_distinct(),
        knows_the_same(s, s.given(id, result), other),
        s.given(id, result).error == s.error,
        s.given(id, result).reader == s.reader,
{
    let t = s.given(id, result);
    slot_position(s.pending, id, 0);
    slot_position(s.pending, other, 0);
    if s.has(id) {
        let i = slot_from(s.pending, id, 0);
        assert(t.ids_are_distinct());
        slot_is_found(t, id, i);
        if s.has(other) {
            let k = slot_from(s.pending, other, 0);
            assert(t.pending[k] == s.pending[k]);
            slot_is_found(t, other, k);
        } else {
            assert forall|k: int| 0 <= k < t.pending.len() implies (
            #[trigger] t.pending[k]).correlation_id != other by {
                if k != i {
                    assert(t.pending[k] == s.pending[k]);
                }
            }
            slot_is_not_found(t, other);
        }
    }
}

/// Forgetting a request leaves every other one as it is.
pub proof fn forgetting_leaves_the_others(s: ExchangeView, id: Seq<char>, other: Seq<char>)
    requires
        s.ids_are_distinct(),
        other != id,
    ensures
        !s.without(id).has(id),
        knows_the_same(s, s.without(id), other),
        s.without(id).error == s.error,
        s.without(id).reader == s.reader,
{
    let t = s.without(id);
    ended_request_is_forgotten(s, id);
    slot_position(s.pending, id, 0);
    slot_position(s.pending, other, 0);
    if s.has(id) {
        let i = slot_from(s.pending, id, 0);
        if s.has(other) {
            let k = slot_from(s.pending, other, 0);
            let at = if k < i {
                k
            } else {
                k - 1
            };
            assert(t.pending[at] == s.pending[k]);
            slot_is_found(t, other, at);
        } else {
            assert forall|k: int| 0 <= k < t.pending.len() implies (
            #[trigger] t.pending[k]).correlation_id != other by {
                let from = if k < i {
                    k
                } else {
                    k + 1
                };
                assert(t.pending[k] == s.pending[from]);
            }
            slot_is_not_found(t, other);
        }
    }
}

/// The first poll of a request asks to write one packet, in which a broker reads a PUBLISH
/// packet to the topic of the request with its payload, at QoS 0 and not retained. From then
/// on the connection knows the request, and that it has no reply yet; of the others it knows
/// as much as before. A request whose packet cannot be encoded is over.
pub proof fn cooperative_request_goes_out_as_asked(
    r: CooperativeRequestView,
    shared: ExchangeView,
    topic: Seq<char>,
    payload: Seq<u8>,
    now: int,
    other: Seq<char>,
)
    requires
        shared.ids_are_distinct(),
        shared.error is None,
        now < r.deadline,
        r.state == (RequestStateView::Init { topic, payload }),
        other != r.correlation_id,
    ensures
        ({
            let (q, t, step) = r.polled(shared, now);
            &&& match step {
                PollStepView::Write(bytes) => {
                    &&& heard(bytes) matches Some(Heard::Publish(message)) && {
                        &&& message.topic == topic
                        &&& message.payload == payload
                        &&& message.qos == QoS::AtMostOnce
                        &&& message.packet_id is None
                        &&& !message.retain
                        &&& !message.dup
                        &&& message.properties.len() == 0
                    }
                    &&& q == r
                    &&& t.has(r.correlation_id)
                    &&& t.reply(r.correlation_id) is None
                },
                PollStepView::Ready(Err(_)) => q.state is Done && !t.has(r.correlation_id),
                _ => false,
            }
            &&& knows_the_same(shared, t, other)
            &&& t.error is None
            &&& t.ids_are_distinct()
        }),
{
    let id = r.correlation_id;
    let packet = CooperativeRequestView::packet(topic, payload);
    if encoded_publish(packet) is Ok {
        publish_is_heard(packet);
    }
    let started = shared.started(id);
    slot_position(shared.pending, id, 0);
    slot_position(shared.pending, other, 0);
    given_reply_reaches_its_request(shared, id, None, other);
    if !shared.has(id) {
        let last = shared.pending.len() as int;
        assert(started.pending[last] == SlotView { correlation_id: id, result: None });
        assert(started.ids_are_distinct());
        slot_is_found(started, id, last);
        if shared.has(other) {
            let k = slot_from(shared.pending, other, 0);
            assert(started.pending[k] == shared.pending[k]);
            slot_is_found(started, other, k);
        } else {
            slot_is_not_found(started, other);
        }
    }
    forgetting_leaves_the_others(started, id, other);
    ended_request_is_forgotten(started, id);
}

/// A request that was written waits, and asks to read what has arrived. One that could not be
/// written is over, with the error of the write.
pub proof fn written_request_waits(r: CooperativeRequestView, shared: ExchangeView, e: Error)
    requires
        shared.ids_are_distinct(),
    ensures
        r.wrote(shared, Ok(())) == (
            CooperativeRequestView { state: RequestStateView::Waiting, ..r },
            shared,
            PollStepView::Pump,
        ),
        r.wrote(shared, Err(e)).0.state is Done,
        r.wrote(shared, Err(e)).2 == PollStepView::Ready(Err(e)),
        !r.wrote(shared, Err(e)).1.has(r.correlation_id),
{
    ended_request_is_forgotten(shared, r.correlation_id);
}

/// The payload that is given to a request, whoever of the waiting requests has read it, is
/// what the request returns, as it is; then the request is over, and of the others the
/// connection knows as much as before. A request that was given nothing goes on waiting, and
/// changes nothing.
pub proof fn reply_comes_back(
    r: CooperativeRequestView,
    shared: ExchangeView,
    payload: Seq<u8>,
    active: bool,
    other: Seq<char>,
)
    requires
        shared.ids_are_distinct(),
        shared.has(r.correlation_id),
        other != r.correlation_id,
    ensures
        ({
            let given = shared.given(r.correlation_id, Some(Ok(payload)));
            let (q, t, step) = r.pumped(given, Ok(active));
            &&& step == PollStepView::Ready(Ok(payload))
            &&& q.state is Done
            &&& !t.has(r.correlation_id)
            &&& knows_the_same(shared, t, other)
        }),
        shared.reply(r.correlation_id) is None ==> r.pumped(shared, Ok(active)) == (
            r,
            shared,
            PollStepView::Pending { idle: !active },
        ),
{
    let id = r.correlation_id;
    let given = shared.given(id, Some(Ok(payload)));
    given_reply_reaches_its_request(shared, id, Some(Ok(payload)), other);
    forgetting_leaves_the_others(given, id, other);
}

/// A request is over at its deadline, and not before; and at once where the connection has
/// failed. A failure of the connection is told to every request that waits.
pub proof fn requests_end_in_time(
    r: CooperativeRequestView,
    shared: ExchangeView,
    now: int,
    error: Error,
    active: bool,
)
    requires
        shared.ids_are_distinct(),
    ensures
        shared.error is None && now >= r.deadline ==> r.polled(shared, now).2
            == PollStepView::Ready(Err(Error::Timeout("request"))),
        shared.error is None && now < r.deadline && r.state is Waiting ==> r.polled(shared, now)
            == (r, shared, PollStepView::Pump),
        shared.error is Some ==> r.polled(shared, now).2 == PollStepView::Ready(
            Err(Error::ConnectionClosed),
        ),
        shared.failed(error).error == Some(error),
        shared.has(r.correlation_id) ==> r.pumped(shared.failed(error), Ok(active)).2
            == PollStepView::Ready(Err(Error::ConnectionClosed)),
{
    let id = r.correlation_id;
    let t = shared.failed(error);
    slot_position(shared.pending, id, 0);
    if shared.has(id) {
        let i = slot_from(shared.pending, id, 0);
        assert forall|k: int| 0 <= k < t.pending.len() implies (
        #[trigger] t.pending[k]).correlation_id == shared.pending[k].correlation_id by {}
        assert(t.ids_are_distinct());
        slot_is_found(t, id, i);
    }
}

/// A message that has arrived is handed out with its payload as it was sent, and what the
/// broker has sent behind it is still to be read. At QoS 1 the packet to answer with is one
/// in which the broker reads the PUBACK of this message, and at QoS 0 there is none.
pub proof fn arrived_payload_is_handed_out(
    s: ExchangeView,
    message: PublishPacketView,
    rest: Seq<u8>,
)
    requires
        s.reader.overflow is None,
        encoded_publish(message) matches Ok(bytes) && bytes.len() <= s.reader.max && s.reader.buf
            == bytes + rest,
    ensures
        ({
            let (t, r) = s.taken();
            &&& r matches Ok(Some(ArrivalView::Message { ack, payload })) && {
                &&& payload == message.payload
                &&& match message.qos {
                    QoS::AtMostOnce => ack is None,
                    QoS::AtLeastOnce => ack matches Some(bytes) && heard(bytes) == Some(
                        Heard::PubAck(
                            PubAckPacket { packet_id: message.packet_id->Some_0, reason_code: 0 },
                        ),
                    ),
                }
            }
            &&& t.reader.buf == rest
            &&& t.pending == s.pending
            &&& t.error == s.error
        }),
{
    publish_is_read_back(message, rest, s.reader.max);
    let bytes = encoded_publish(message)->Ok_0;
    assert((bytes + rest).skip(bytes.len() as int) =~= rest);
    if let Some(packet_id) = message.packet_id {
        let ack = PubAckPacket { packet_id, reason_code: 0 };
        if message.qos == QoS::AtLeastOnce {
            reveal_with_fuel(variable_int_bytes, 2);
            assert(encoded_puback(ack) is Ok);
            puback_is_heard(ack);
        }
    }
}

/// A broker that says goodbye fails the connection with its reason code.
pub proof fn goodbye_fails_the_exchange(s: ExchangeView, disconnect: DisconnectPacket)
    ensures
        s.dispatched(PacketView::Disconnect(disconnect)).0.error == Some(
            Error::ConnectionRefused(disconnect.reason_code),
        ),
        s.dispatched(PacketView::Disconnect(disconnect)).0.pending.len() == s.pending.len(),
{
}

/// A dotted topic is the topic with every slash, and nothing else, replaced by a dot.
pub proof fn dots_stand_for_slashes(topic: Seq<char>)
    ensures
        dotted(topic).len() == topic.len(),
        forall|i: int|
            0 <= i < topic.len() ==> (#[trigger] dotted(topic)[i] == '.' <==> topic[i] == '/'
                || topic[i] == '.'),
        forall|i: int|
            0 <= i < topic.len() && topic[i] != '/' ==> #[trigger] dotted(topic)[i] == topic[i],
{
}

} // verus!
