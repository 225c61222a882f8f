//! What the driver's operations are for: what a broker reads in the frames that they queue,
//! and what their callers are told when the broker answers.
use vstd::prelude::*;

use crate::async_client::driver::{processed, Command};
use crate::async_client::laws::{
    ack_position, enqueue_keeps, remove_request_keeps, request_position, reserve_keeps,
    subscription_position, without_ack_keeps,
};
use crate::async_client::model::{
    ack_from, goodbye, is_unsent_request, refusal_from, subscribe_packet, subscription_from,
    unsubscribe_packet, AckClass, AckKindView, AckView, DriverView, WrittenAction,
};
use crate::async_client::{NoticeView, OutcomeView, PublishAck};
use crate::codec::broker::{
    disconnect_is_heard, heard, ping_is_heard, puback_is_heard, publish_is_heard, qos_byte,
    subscribe_is_heard, unsubscribe_is_heard, with_qos_bytes, Heard,
};
use crate::codec::encode::variable_int_bytes;
use crate::codec::ping::encoded_disconnect;
use crate::codec::properties::{first_value, PropertyId, PropertyValueView, ValueKind};
use crate::codec::publish::{encoded_puback, encoded_publish};
use crate::codec::subscribe::{encoded_subscribe, encoded_unsubscribe, granted_from};
use crate::codec::types::{
    AckCodesView, DisconnectPacket, PacketView, PubAckPacket, PublishPacketView, QoS,
};
use crate::error::Error;
use crate::options::{PublishOptions, PublishOptionsView};

verus! {

/// Whether a broker reads in these bytes a first PUBLISH packet with this topic and payload,
/// and with the QoS level, the retain flag and the properties of these options.
pub open spec fn carries_publish(
    bytes: Seq<u8>,
    topic: Seq<char>,
    payload: Seq<u8>,
    options: PublishOptionsView,
    id: Option<u16>,
) -> bool {
    heard(bytes) matches Some(Heard::Publish(message)) && {
        &&& message.topic == topic
        &&& message.payload == payload
        &&& message.qos == options.qos
        &&& (message.retain <==> options.retain)
        &&& message.properties == options.properties
        &&& message.packet_id == id
        &&& !message.dup
    }
}

/// Whether an operation was refused on the spot: its caller alone is told, and nothing goes
/// out or is waited for.
pub open spec fn refused(s: DriverView, t: DriverView, says: Seq<NoticeView>, ticket: u64) -> bool {
    &&& says.len() == 1
    &&& says[0] matches NoticeView::Complete { ticket: told, outcome } && told == ticket && (
    outcome matches OutcomeView::Published(Err(_)) || outcome matches OutcomeView::Subscribed(
        Err(_),
    ) || outcome matches OutcomeView::Disconnected(Err(_))
        || outcome matches OutcomeView::Response(Err(_)))
    &&& t.outbound == s.outbound
    &&& t.acks == s.acks
    &&& t.requests == s.requests
    &&& t.subscriptions == s.subscriptions
}

/// Whether exactly one frame was added to the queue, none of it written yet.
pub open spec fn queued_one(s: DriverView, t: DriverView) -> bool {
    &&& t.outbound.len() == s.outbound.len() + 1
    &&& t.outbound.drop_last() == s.outbound
    &&& t.outbound.last().offset == 0
}

/// Whether exactly one packet identifier was put aside for the operation with this ticket,
/// until the broker's acknowledgement of this class, or the acknowledgement timeout.
pub open spec fn awaits_one(
    s: DriverView,
    t: DriverView,
    id: u16,
    class: AckClass,
    ticket: u64,
    now: int,
) -> bool {
    &&& t.acks.len() == s.acks.len() + 1
    &&& t.acks.drop_last() == s.acks
    &&& t.acks.last().packet_id == id
    &&& t.acks.last().deadline == now + s.ack_timeout
    &&& t.acks.last().kind.ack_class() == class
    &&& t.acks.last().kind.ticket() == Some(ticket)
    &&& id != 0
    &&& forall|i: int| 0 <= i < s.acks.len() ==> (#[trigger] s.acks[i]).packet_id != id
}

proof fn fresh_id_is_nowhere(s: DriverView, id: u16)
    requires
        !s.has_ack(id),
    ensures
        forall|i: int| 0 <= i < s.acks.len() ==> (#[trigger] s.acks[i]).packet_id != id,
{
    ack_position(s.acks, id, 0);
}

/// What was just put aside for an acknowledgement can be given back, and nothing is changed.
proof fn given_back(s: DriverView, ack: AckView)
    requires
        !s.has_ack(ack.packet_id),
    ensures
        (DriverView { acks: s.acks.push(ack), ..s }).without_ack(ack.packet_id).acks == s.acks,
{
    let more = s.acks.push(ack);
    ack_position(s.acks, ack.packet_id, 0);
    ack_position(more, ack.packet_id, 0);
    let k = ack_from(more, ack.packet_id, 0);
    assert(more[s.acks.len() as int].packet_id == ack.packet_id);
    assert(k == s.acks.len()) by {
        if k < s.acks.len() {
            assert(more[k] == s.acks[k]);
        }
    }
    assert(more.remove(k) =~= s.acks);
}

/// A packet that waits for its acknowledgement is queued with its identifier put aside, or
/// its caller is told why not.
proof fn send_awaited_queues_or_refuses(
    s: DriverView,
    id: u16,
    bytes: Seq<u8>,
    kind: AckKindView,
    label: &'static str,
    now: int,
)
    requires
        s.inv(),
        id != 0,
        !s.has_ack(id),
        kind is Publish || kind is Subscribe || kind is Unsubscribe,
    ensures
        ({
            let (t, says) = s.send_awaited(id, bytes, kind, label, now);
            let ticket = kind.ticket()->Some_0;
            ||| refused(s, t, says, ticket)
            ||| {
                &&& says.len() == 0
                &&& queued_one(s, t)
                &&& t.outbound.last().bytes == bytes
                &&& awaits_one(s, t, id, kind.ack_class(), ticket, now)
                &&& t.acks.last().kind == kind
                &&& t.acks.last().label == label
                &&& t.requests == s.requests
                &&& t.subscriptions == s.subscriptions
            }
        }),
{
    let ack = AckView { packet_id: id, deadline: now + s.ack_timeout, label, kind };
    given_back(s, ack);
    fresh_id_is_nowhere(s, id);
    let (t, says) = s.send_awaited(id, bytes, kind, label, now);
    if says.len() == 0 {
        assert(t.outbound.drop_last() =~= s.outbound);
        assert(t.acks.drop_last() =~= s.acks);
    }
}

/// A publish that is accepted queues exactly one frame, in which a broker reads a PUBLISH
/// packet with the topic, payload, QoS level, retain flag and properties of the caller, and
/// with a packet identifier exactly at QoS 1. At QoS 1 the caller then waits for the PUBACK
/// of this identifier, and at QoS 0 for the frame to leave. A publish that is not accepted
/// is answered, and nothing goes out.
pub proof fn publish_goes_out_as_asked(
    s: DriverView,
    topic: String,
    payload: Vec<u8>,
    options: PublishOptions,
    ticket: u64,
    now: int,
)
    requires
        s.inv(),
    ensures
        ({
            let (t, says) = processed(
                s,
                Command::Publish { topic, payload, options, ticket },
                now,
            );
            ||| refused(s, t, says, ticket)
            ||| {
                &&& says.len() == 0
                &&& queued_one(s, t)
                &&& t.requests == s.requests
                &&& t.subscriptions == s.subscriptions
                &&& match options@.qos {
                    QoS::AtMostOnce => {
                        &&& carries_publish(
                            t.outbound.last().bytes,
                            topic@,
                            payload@,
                            options@,
                            None,
                        )
                        &&& t.outbound.last().action == (WrittenAction::PublishQos0 { ticket })
                        &&& t.acks == s.acks
                    },
                    QoS::AtLeastOnce => {
                        let id = t.acks.last().packet_id;
                        &&& carries_publish(
                            t.outbound.last().bytes,
                            topic@,
                            payload@,
                            options@,
                            Some(id),
                        )
                        &&& awaits_one(s, t, id, AckClass::Publish, ticket, now)
                        &&& t.acks.last().label == "publish acknowledgement"
                    },
                }
            }
        }),
{
    reserve_keeps(s, 65535);
    let (t, says) = processed(s, Command::Publish { topic, payload, options, ticket }, now);
    if !s.closing {
        let packet = PublishPacketView {
            topic: topic@,
            packet_id: None,
            payload: payload@,
            qos: options@.qos,
            retain: options@.retain,
            dup: false,
            properties: options@.properties,
        };
        match options@.qos {
            QoS::AtMostOnce => {
                if encoded_publish(packet) is Ok {
                    publish_is_heard(packet);
                }
                if says.len() == 0 {
                    assert(t.outbound.drop_last() =~= s.outbound);
                }
            },
            QoS::AtLeastOnce => {
                if let (reserved, Ok(id)) = s.reserve() {
                    let numbered = PublishPacketView { packet_id: Some(id), ..packet };
                    if let Ok(bytes) = encoded_publish(numbered) {
                        publish_is_heard(numbered);
                        send_awaited_queues_or_refuses(
                            reserved,
                            id,
                            bytes,
                            AckKindView::Publish { ticket },
                            "publish acknowledgement",
                            now,
                        );
                    }
                }
            },
        }
    }
}

/// A subscribe that is accepted queues exactly one frame, in which a broker reads a SUBSCRIBE
/// packet for the caller's filter, with the byte of the QoS level that was asked for: 0 for
/// at most once, 1 for at least once. The caller then waits for the SUBACK of this packet,
/// which must not grant more than that.
pub proof fn subscribe_goes_out_as_asked(
    s: DriverView,
    filter: String,
    qos: QoS,
    ticket: u64,
    now: int,
)
    requires
        s.inv(),
    ensures
        ({
            let (t, says) = processed(s, Command::Subscribe { filter, qos, ticket }, now);
            let id = t.acks.last().packet_id;
            ||| refused(s, t, says, ticket)
            ||| {
                &&& says.len() == 0
                &&& queued_one(s, t)
                &&& heard(t.outbound.last().bytes) == Some(
                    Heard::Subscribe {
                        packet_id: id,
                        properties: Seq::empty(),
                        subscriptions: seq![(filter@, qos_byte(qos))],
                    },
                )
                &&& awaits_one(s, t, id, AckClass::Subscribe, ticket, now)
                &&& t.acks.last().kind == (AckKindView::Subscribe { requested_qos: qos, ticket })
                &&& t.acks.last().label == "subscription acknowledgement"
                &&& t.requests == s.requests
                &&& t.subscriptions == s.subscriptions
            }
        }),
{
    reserve_keeps(s, 65535);
    if !s.closing {
        if let (reserved, Ok(id)) = s.reserve() {
            single_subscription_is_heard(id, filter@, qos);
            if let Ok(bytes) = encoded_subscribe(subscribe_packet(id, filter@, qos)) {
                send_awaited_queues_or_refuses(
                    reserved,
                    id,
                    bytes,
                    AckKindView::Subscribe { requested_qos: qos, ticket },
                    "subscription acknowledgement",
                    now,
                );
            }
        }
    }
}

/// The SUBSCRIBE packet for one filter is heard as such.
pub(crate) proof fn single_subscription_is_heard(id: u16, filter: Seq<char>, qos: QoS)
    ensures
        encoded_subscribe(subscribe_packet(id, filter, qos)) matches Ok(bytes) ==> heard(bytes)
            == Some(
            Heard::Subscribe {
                packet_id: id,
                properties: Seq::empty(),
                subscriptions: seq![(filter, qos_byte(qos))],
            },
        ),
{
    let packet = subscribe_packet(id, filter, qos);
    if encoded_subscribe(packet) is Ok {
        subscribe_is_heard(packet);
        assert(with_qos_bytes(packet.filters) =~= seq![(filter, qos_byte(qos))]);
    }
}

/// The UNSUBSCRIBE packet for one filter is heard as such.
pub(crate) proof fn single_unsubscription_is_heard(id: u16, filter: Seq<char>)
    ensures
        encoded_unsubscribe(unsubscribe_packet(id, filter)) matches Ok(bytes) ==> heard(bytes)
            == Some(
            Heard::Unsubscribe {
                packet_id: id,
                properties: Seq::empty(),
                filters: seq![filter],
            },
        ),
{
    let packet = unsubscribe_packet(id, filter);
    if encoded_unsubscribe(packet) is Ok {
        unsubscribe_is_heard(packet);
    }
}

/// An unsubscribe that is accepted queues exactly one frame, in which a broker reads an
/// UNSUBSCRIBE packet for the caller's filter. The caller then waits for the UNSUBACK of
/// this packet.
pub proof fn unsubscribe_goes_out_as_asked(s: DriverView, filter: String, ticket: u64, now: int)
    requires
        s.inv(),
    ensures
        ({
            let (t, says) = processed(s, Command::Unsubscribe { filter, ticket }, now);
            let id = t.acks.last().packet_id;
            ||| refused(s, t, says, ticket)
            ||| {
                &&& says.len() == 0
                &&& queued_one(s, t)
                &&& heard(t.outbound.last().bytes) == Some(
                    Heard::Unsubscribe {
                        packet_id: id,
                        properties: Seq::empty(),
                        filters: seq![filter@],
                    },
                )
                &&& awaits_one(s, t, id, AckClass::Unsubscribe, ticket, now)
                &&& t.acks.last().kind == (AckKindView::Unsubscribe { filter: filter@, ticket })
                &&& t.acks.last().label == "unsubscribe acknowledgement"
                &&& t.requests == s.requests
                &&& t.subscriptions == s.subscriptions
            }
        }),
{
    reserve_keeps(s, 65535);
    if !s.closing {
        if let (reserved, Ok(id)) = s.reserve() {
            single_unsubscription_is_heard(id, filter@);
            if let Ok(bytes) = encoded_unsubscribe(unsubscribe_packet(id, filter@)) {
                send_awaited_queues_or_refuses(
                    reserved,
                    id,
                    bytes,
                    AckKindView::Unsubscribe { filter: filter@, ticket },
                    "unsubscribe acknowledgement",
                    now,
                );
            }
        }
    }
}

/// The goodbye of a client is heard as a normal disconnect.
pub(crate) proof fn goodbye_is_heard()
    ensures
        heard(goodbye()) == Some(Heard::Disconnect(DisconnectPacket { reason_code: 0 })),
{
    let packet = DisconnectPacket { reason_code: 0 };
    reveal_with_fuel(variable_int_bytes, 2);
    assert(encoded_disconnect(packet) is Ok);
    disconnect_is_heard(packet);
}

/// A disconnect that is accepted queues exactly one frame, in which a broker reads a normal
/// DISCONNECT packet; its caller waits for the frame to leave, and no further command is
/// taken. The same packet is sent where nobody is left to give commands, and nobody waits
/// for it.
pub proof fn disconnect_says_goodbye(s: DriverView, ticket: u64, now: int)
    requires
        s.inv(),
    ensures
        ({
            let (t, says) = processed(s, Command::Disconnect { ticket }, now);
            ||| refused(s, t, says, ticket)
            ||| {
                &&& says.len() == 0
                &&& queued_one(s, t)
                &&& heard(t.outbound.last().bytes) == Some(
                    Heard::Disconnect(DisconnectPacket { reason_code: 0 }),
                )
                &&& t.outbound.last().action == (WrittenAction::Disconnect { ticket })
                &&& t.acks == s.acks
                &&& t.closing
            }
        }),
        ({
            let (t, r) = s.begin_abandoned_disconnect();
            s.command_channel_closed && !s.closing && r is Ok ==> {
                &&& queued_one(s, t)
                &&& heard(t.outbound.last().bytes) == Some(
                    Heard::Disconnect(DisconnectPacket { reason_code: 0 }),
                )
                &&& t.outbound.last().action.ticket() is None
                &&& t.closing
            }
        }),
{
    goodbye_is_heard();
    let (t, says) = processed(s, Command::Disconnect { ticket }, now);
    if !s.closing && says.len() == 0 {
        assert(t.outbound.drop_last() =~= s.outbound);
    }
    let u = s.begin_abandoned_disconnect().0;
    if s.command_channel_closed && !s.closing {
        if u.outbound.len() > s.outbound.len() {
            assert(u.outbound.drop_last() =~= s.outbound);
        }
    }
}

/// A command that comes too late is answered with `ClientClosed`, and changes nothing.
pub proof fn late_commands_change_nothing(s: DriverView, command: Command, now: int)
    requires
        s.closing,
    ensures
        processed(s, command, now).0 == s,
        ({
            let says = processed(s, command, now).1;
            &&& says.len() == 1
            &&& match command {
                Command::Publish { ticket, .. } => says[0] == (NoticeView::Complete {
                    ticket,
                    outcome: OutcomeView::Published(Err(Error::ClientClosed)),
                }),
                Command::Subscribe { ticket, .. } => says[0] == (NoticeView::Complete {
                    ticket,
                    outcome: OutcomeView::Subscribed(Err(Error::ClientClosed)),
                }),
                Command::Unsubscribe { ticket, .. } => says[0] == (NoticeView::Complete {
                    ticket,
                    outcome: OutcomeView::Subscribed(Err(Error::ClientClosed)),
                }),
                Command::Disconnect { ticket } => says[0] == (NoticeView::Complete {
                    ticket,
                    outcome: OutcomeView::Disconnected(Err(Error::ClientClosed)),
                }),
                Command::Request { ticket, .. } => says[0] == (NoticeView::Complete {
                    ticket,
                    outcome: OutcomeView::Response(Err(Error::ClientClosed)),
                }),
            }
        }),
{
}

/// The PUBACK of a publish tells its caller the packet identifier and the reason code of the
/// broker, or that the broker refused it, and gives the identifier back.
pub proof fn puback_answers_its_publish(s: DriverView, id: u16, code: u8, ticket: u64, now: int)
    requires
        s.inv(),
        s.has_ack(id),
        s.acks[ack_from(s.acks, id, 0)].kind == (AckKindView::Publish { ticket }),
    ensures
        ({
            let (t, says, r) = s.dispatch_packet(
                PacketView::PubAck(PubAckPacket { packet_id: id, reason_code: code }),
                now,
            );
            &&& r == Ok::<Option<PublishPacketView>, Error>(None)
            &&& says.len() == 1
            &&& says[0] == (NoticeView::Complete {
                ticket,
                outcome: OutcomeView::Published(
                    if code < 0x80 {
                        Ok(PublishAck { packet_id: Some(id), reason_code: Some(code) })
                    } else {
                        Err(Error::AckRejected { packet: "PUBACK", reason_code: code })
                    },
                ),
            })
            &&& !t.has_ack(id)
            &&& t.outbound == s.outbound
        }),
{
    reveal(DriverView::dispatch_puback);
    taken_ack_is_gone(s, id);
}

proof fn taken_ack_is_gone(s: DriverView, id: u16)
    requires
        s.inv(),
    ensures
        !s.without_ack(id).has_ack(id),
{
    without_ack_keeps(s, id);
}

/// The SUBACK of a subscribe tells its caller the packet identifier and the reason codes of
/// the broker, where it grants no more than was asked for; or that the broker refused it.
/// Any other answer is told, too, and ends the connection.
pub proof fn suback_answers_its_subscribe(
    s: DriverView,
    id: u16,
    codes: Seq<u8>,
    qos: QoS,
    ticket: u64,
    now: int,
)
    requires
        s.inv(),
        s.has_ack(id),
        s.acks[ack_from(s.acks, id, 0)].kind == (AckKindView::Subscribe {
            requested_qos: qos,
            ticket,
        }),
    ensures
        ({
            let ack = AckCodesView { packet_id: id, reason_codes: codes };
            let (t, says, r) = s.dispatch_packet(PacketView::SubAck(ack), now);
            &&& says.len() == 1
            &&& !t.has_ack(id)
            &&& t.outbound == s.outbound
            &&& if codes.len() == 1 && codes[0] <= qos_byte(qos) {
                &&& r == Ok::<Option<PublishPacketView>, Error>(None)
                &&& says[0] == (NoticeView::Complete {
                    ticket,
                    outcome: OutcomeView::Subscribed(Ok(ack)),
                })
            } else if codes.len() == 1 && codes[0] >= 0x80 {
                &&& r == Ok::<Option<PublishPacketView>, Error>(None)
                &&& says[0] == (NoticeView::Complete {
                    ticket,
                    outcome: OutcomeView::Subscribed(
                        Err(Error::AckRejected { packet: "SUBACK", reason_code: codes[0] }),
                    ),
                })
            } else {
                &&& r is Err
                &&& says[0] == (NoticeView::Complete {
                    ticket,
                    outcome: OutcomeView::Subscribed(Err(r->Err_0)),
                })
            }
        }),
{
    reveal(DriverView::dispatch_suback);
    reveal_with_fuel(granted_from, 2);
    taken_ack_is_gone(s, id);
}

pub(crate) proof fn uncached_topic_is_gone(s: DriverView, topic: Seq<char>)
    requires
        s.topics_cached_once(),
    ensures
        forall|i: int|
            0 <= i < s.without_subscription(topic).subscriptions.len() ==> (
            #[trigger] s.without_subscription(topic).subscriptions[i]).topic != topic,
{
    subscription_position(s.subscriptions, topic, 0);
    let k = subscription_from(s.subscriptions, topic, 0);
    let gone = s.without_subscription(topic).subscriptions;
    assert forall|i: int| 0 <= i < gone.len() implies (#[trigger] gone[i]).topic != topic by {
        if k < s.subscriptions.len() {
            let j = if i < k {
                i
            } else {
                i + 1
            };
            assert(gone[i] == s.subscriptions[j]);
            assert(s.subscriptions[k].topic == topic);
        }
    }
}

proof fn acknowledge_keeps(s: DriverView, message: PublishPacketView)
    requires
        s.inv(),
    ensures
        s.kept_by(s.acknowledge(message).0),
{
    if let Some(packet_id) = message.packet_id {
        if let Ok(bytes) = encoded_puback(PubAckPacket { packet_id, reason_code: 0 }) {
            enqueue_keeps(s, bytes, WrittenAction::Nothing, None);
        }
    }
}

/// The UNSUBACK of an unsubscribe tells its caller the packet identifier and the reason code
/// of the broker, or that the broker refused it, or that the answer makes no sense. Where it
/// was not refused, responses on the topic are no longer taken to be subscribed to.
pub proof fn unsuback_answers_its_unsubscribe(
    s: DriverView,
    id: u16,
    codes: Seq<u8>,
    filter: Seq<char>,
    ticket: u64,
    now: int,
)
    requires
        s.inv(),
        s.has_ack(id),
        s.acks[ack_from(s.acks, id, 0)].kind == (AckKindView::Unsubscribe { filter, ticket }),
    ensures
        ({
            let ack = AckCodesView { packet_id: id, reason_codes: codes };
            let (t, says, r) = s.dispatch_packet(PacketView::UnsubAck(ack), now);
            &&& r == Ok::<Option<PublishPacketView>, Error>(None)
            &&& says.len() == 1
            &&& !t.has_ack(id)
            &&& t.outbound == s.outbound
            &&& says[0] matches NoticeView::Complete { ticket: told, outcome } && told == ticket
                && (if codes.len() != 1 {
                outcome matches OutcomeView::Subscribed(Err(Error::MalformedPacket(_)))
            } else if codes[0] >= 0x80 {
                outcome == OutcomeView::Subscribed(
                    Err(Error::AckRejected { packet: "UNSUBACK", reason_code: codes[0] }),
                )
            } else {
                outcome == OutcomeView::Subscribed(Ok(ack))
            })
            &&& codes.len() == 1 && codes[0] < 0x80 ==> forall|i: int|
                0 <= i < t.subscriptions.len() ==> (#[trigger] t.subscriptions[i]).topic != filter
            &&& codes.len() != 1 || codes[0] >= 0x80 ==> t.subscriptions == s.subscriptions
        }),
{
    reveal(DriverView::dispatch_unsuback);
    reveal_with_fuel(refusal_from, 2);
    taken_ack_is_gone(s, id);
    let t = s.without_ack(id);
    assert(t.subscriptions == s.subscriptions);
    uncached_topic_is_gone(t, filter);
}

/// A message that arrives and answers no request is left for delivery as it is. At QoS 1
/// exactly one frame is queued, in which the broker reads the PUBACK of this message; at
/// QoS 0 nothing is.
pub proof fn message_is_delivered_and_acknowledged(
    s: DriverView,
    message: PublishPacketView,
    now: int,
)
    requires
        s.answered(message) is None,
    ensures
        ({
            let (t, says, r) = s.dispatch_packet(PacketView::Publish(message), now);
            r is Ok ==> {
                &&& r == Ok::<Option<PublishPacketView>, Error>(Some(message))
                &&& says.len() == 0
                &&& t.requests == s.requests
                &&& t.acks == s.acks
                &&& match message.qos {
                    QoS::AtMostOnce => t.outbound == s.outbound,
                    QoS::AtLeastOnce => {
                        &&& queued_one(s, t)
                        &&& message.packet_id matches Some(id) && heard(t.outbound.last().bytes)
                            == Some(Heard::PubAck(PubAckPacket { packet_id: id, reason_code: 0 }))
                    },
                }
            }
        }),
        message.qos == QoS::AtMostOnce ==> s.dispatch_packet(
            PacketView::Publish(message),
            now,
        ).2 is Ok,
{
    reveal(DriverView::dispatch_publish);
    acknowledgement_is_queued(s, message);
    let (t, _) = s.acknowledge(message);
    assert(t.requests == s.requests);
}

proof fn acknowledgement_is_queued(s: DriverView, message: PublishPacketView)
    ensures
        ({
            let (t, r) = s.acknowledge(message);
            r is Ok && message.qos == QoS::AtLeastOnce ==> {
                &&& queued_one(s, t)
                &&& message.packet_id matches Some(id) && heard(t.outbound.last().bytes) == Some(
                    Heard::PubAck(PubAckPacket { packet_id: id, reason_code: 0 }),
                )
            }
        }),
{
    let (t, r) = s.acknowledge(message);
    if message.qos == QoS::AtLeastOnce && r is Ok {
        let ack = PubAckPacket { packet_id: message.packet_id->Some_0, reason_code: 0 };
        puback_is_heard(ack);
        assert(t.outbound.drop_last() =~= s.outbound);
    }
}

/// The reply to a request is handed to whoever made the request, as it is, and the request
/// is over: it is told nothing else, and the reply is not delivered as a message. At QoS 1
/// the broker is sent the PUBACK of the reply.
pub proof fn reply_goes_to_its_request(s: DriverView, message: PublishPacketView, now: int)
    requires
        s.inv(),
        s.answered(message) is Some,
    ensures
        ({
            let (t, says, r) = s.dispatch_packet(PacketView::Publish(message), now);
            let request = s.requests[s.answered(message)->Some_0];
            r is Ok ==> {
                &&& r == Ok::<Option<PublishPacketView>, Error>(None)
                &&& says.len() == 2
                &&& says[0] == NoticeView::Released(request.correlation)
                &&& says[1] == (NoticeView::Complete {
                    ticket: request.ticket,
                    outcome: OutcomeView::Response(Ok(message)),
                })
                &&& forall|i: int|
                    0 <= i < t.requests.len() ==> (#[trigger] t.requests[i]).correlation
                        != request.correlation
                &&& message.qos == QoS::AtLeastOnce ==> t.outbound.len() > 0
                    && message.packet_id is Some && heard(t.outbound.last().bytes) == Some(
                    Heard::PubAck(
                        PubAckPacket { packet_id: message.packet_id->Some_0, reason_code: 0 },
                    ),
                )
            }
        }),
{
    reveal(DriverView::dispatch_publish);
    let (a, ra) = s.acknowledge(message);
    assert(a.requests == s.requests);
    if ra is Ok {
        let i = s.answered(message)->Some_0;
        if let Some(PropertyValueView::Binary(correlation)) = first_value(
            message.properties,
            PropertyId::CorrelationData,
            ValueKind::Binary,
        ) {
            request_position(s.requests, correlation, 0);
            assert(s.requests[i].correlation == correlation);
        }
        request_position(
            a.remove_request(s.requests[i].correlation).0.requests,
            s.requests[i].correlation,
            0,
        );
        acknowledgement_is_queued(s, message);
        acknowledge_keeps(s, message);
        remove_request_keeps(a, s.requests[i].correlation);
        if message.qos == QoS::AtLeastOnce {
            assert(!is_unsent_request(
                a.outbound.last(),
                s.requests[i].correlation,
            ));
        }
    }
}

/// A keep-alive turn queues nothing but at most one PINGREQ packet: exactly where keep-alive
/// is on, no ping is on its way or unanswered, and nothing was written for half of the
/// keep-alive time, but at least a second. It fails where a ping has been unanswered for the
/// whole keep-alive time.
pub proof fn pings_keep_an_idle_connection_alive(s: DriverView, now: int)
    requires
        s.last_write_at <= now,
        s.ping_since matches Some(at) ==> at <= now,
    ensures
        ({
            let (t, r) = s.maintain_keep_alive(now);
            let second = 1_000_000_000int;
            let idle = now - s.last_write_at;
            let due = s.keep_alive_secs != 0 && s.ping_since is None && !s.ping_queued && idle
                >= second && 2 * idle >= (s.keep_alive_secs - s.keep_alive_secs % 2) * second;
            let overdue = s.keep_alive_secs != 0 && (s.ping_since matches Some(at) && now - at
                >= s.keep_alive_secs * second);
            &&& overdue ==> r == Err::<(), Error>(Error::KeepAliveTimeout)
            &&& r is Ok ==> !overdue
            &&& !due ==> t == s
            &&& due && r is Ok ==> queued_one(s, t) && heard(t.outbound.last().bytes) == Some(
                Heard::PingReq,
            ) && t.outbound.last().action == WrittenAction::PingReq
        }),
{
    ping_is_heard();
    let (t, r) = s.maintain_keep_alive(now);
    if t.outbound.len() > s.outbound.len() {
        assert(t.outbound.drop_last() =~= s.outbound);
    }
}

} // verus!
