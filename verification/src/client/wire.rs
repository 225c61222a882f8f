//! What the operations of a session are for: what a broker reads in the packets that they
//! send, and what they return when the broker answers, or does not.
use vstd::prelude::*;

use crate::async_client::model::{goodbye, refusal_from, subscribe_packet, unsubscribe_packet};
use crate::async_client::wire::{
    carries_publish, goodbye_is_heard, single_subscription_is_heard,
    single_unsubscription_is_heard,
};
use crate::client::model::{GoalView, Sending, SessionView, StepView};
use crate::codec::broker::{heard, ping_is_heard, publish_is_heard, qos_byte, Heard};
use crate::codec::publish::encoded_publish;
use crate::codec::subscribe::{encoded_subscribe, encoded_unsubscribe, granted_from};
use crate::codec::topic::{topic_filter_check, topic_name_check};
use crate::codec::types::{
    AckCodesView, DisconnectPacket, PacketView, PubAckPacket, PublishPacketView, QoS,
};
use crate::error::{Error, ErrorKind, IoError};
use crate::options::PublishOptionsView;

verus! {

/// Whether an operation was refused on the spot: nothing is sent, and the session is as
/// open as it was.
pub open spec fn refused(s: SessionView, t: SessionView, step: StepView) -> bool {
    &&& step matches StepView::Done(Err(_))
    &&& t.connected == s.connected
    &&& t.incoming == s.incoming
    &&& t.reader == s.reader
}

/// Whether a session still holds what it held, and only the operation under way is new.
pub open spec fn only_started(s: SessionView, t: SessionView) -> bool {
    &&& t.connected
    &&& t.incoming == s.incoming
    &&& t.reader == s.reader
    &&& t.last_write_at == s.last_write_at
    &&& t.ping_since == s.ping_since
    &&& t.ack_timeout == s.ack_timeout
    &&& t.keep_alive_secs == s.keep_alive_secs
    &&& t.max_outbound == s.max_outbound
}

/// A packet identifier's successor: the next number, and 1 after the last one.
pub open spec fn succeeds(next: u16, id: u16) -> bool {
    next == id + 1 || (id == 65535 && next == 1)
}

/// The message that a publish is about.
pub open spec fn message_of(
    topic: Seq<char>,
    payload: Seq<u8>,
    options: PublishOptionsView,
    id: Option<u16>,
) -> PublishPacketView {
    PublishPacketView {
        topic,
        packet_id: id,
        payload,
        qos: options.qos,
        retain: options.retain,
        dup: false,
        properties: options.properties,
    }
}

/// A publish sends one packet, in which a broker reads a PUBLISH packet with the topic,
/// payload, QoS level, retain flag and properties of the caller, and with the next packet
/// identifier exactly at QoS 1, where its PUBACK packet is waited for. It is refused only
/// where the session is closed, the topic is none to publish to, the broker does not support
/// what is asked for, or the packet cannot be encoded or is too large for the broker.
pub proof fn publish_is_sent_as_asked(
    s: SessionView,
    topic: Seq<char>,
    payload: Seq<u8>,
    options: PublishOptionsView,
)
    ensures
        ({
            let (t, step) = s.begin_publish(topic, payload, options);
            let id = if options.qos == QoS::AtLeastOnce {
                Some(s.next_packet_id)
            } else {
                None
            };
            let encoded = encoded_publish(message_of(topic, payload, options, id));
            let acceptable = s.connected && topic_name_check(topic) is Ok && (options.qos
                == QoS::AtLeastOnce ==> s.capabilities.maximum_qos == QoS::AtLeastOnce) && (
            options.retain ==> s.capabilities.retain_available) && (encoded matches Ok(bytes)
                && bytes.len() <= s.max_outbound);
            if acceptable {
                &&& only_started(s, t)
                &&& step matches StepView::Send(bytes) && carries_publish(
                    bytes,
                    topic,
                    payload,
                    options,
                    id,
                )
                &&& match options.qos {
                    QoS::AtMostOnce => {
                        &&& t.sending == Sending::PublishAtMostOnce
                        &&& t.next_packet_id == s.next_packet_id
                        &&& t.goal == s.goal
                    },
                    QoS::AtLeastOnce => {
                        &&& t.sending == Sending::Publish
                        &&& succeeds(t.next_packet_id, s.next_packet_id)
                        &&& t.goal == (GoalView::PubAck { packet_id: s.next_packet_id })
                    },
                }
            } else {
                refused(s, t, step)
            }
        }),
{
    let id = if options.qos == QoS::AtLeastOnce {
        Some(s.next_packet_id)
    } else {
        None
    };
    let message = message_of(topic, payload, options, id);
    if encoded_publish(message) is Ok {
        publish_is_heard(message);
    }
}

/// A subscribe sends one packet, in which a broker reads a SUBSCRIBE packet for the caller's
/// filter with the byte of the QoS level that was asked for, and its SUBACK packet is waited
/// for.
pub proof fn subscribe_is_sent_as_asked(s: SessionView, filter: Seq<char>, qos: QoS)
    ensures
        ({
            let (t, step) = s.begin_subscribe(filter, qos);
            let encoded = encoded_subscribe(subscribe_packet(s.next_packet_id, filter, qos));
            if s.connected && s.capabilities.filter_check(filter) is Ok && (encoded matches Ok(
                bytes,
            ) && bytes.len() <= s.max_outbound) {
                &&& only_started(s, t)
                &&& step matches StepView::Send(bytes) && heard(bytes) == Some(
                    Heard::Subscribe {
                        packet_id: s.next_packet_id,
                        properties: Seq::empty(),
                        subscriptions: seq![(filter, qos_byte(qos))],
                    },
                )
                &&& t.sending == Sending::Subscribe
                &&& succeeds(t.next_packet_id, s.next_packet_id)
                &&& t.goal == (GoalView::SubAck { packet_id: s.next_packet_id, qos })
            } else {
                refused(s, t, step)
            }
        }),
{
    single_subscription_is_heard(s.next_packet_id, filter, qos);
}

/// An unsubscribe sends one packet, in which a broker reads an UNSUBSCRIBE packet for the
/// caller's filter, and its UNSUBACK packet is waited for.
pub proof fn unsubscribe_is_sent_as_asked(s: SessionView, filter: Seq<char>)
    ensures
        ({
            let (t, step) = s.begin_unsubscribe(filter);
            let encoded = encoded_unsubscribe(unsubscribe_packet(s.next_packet_id, filter));
            if s.connected && topic_filter_check(filter) is Ok && (encoded matches Ok(bytes)
                && bytes.len() <= s.max_outbound) {
                &&& only_started(s, t)
                &&& step matches StepView::Send(bytes) && heard(bytes) == Some(
                    Heard::Unsubscribe {
                        packet_id: s.next_packet_id,
                        properties: Seq::empty(),
                        filters: seq![filter],
                    },
                )
                &&& t.sending == Sending::Unsubscribe
                &&& succeeds(t.next_packet_id, s.next_packet_id)
                &&& t.goal == (GoalView::UnsubAck { packet_id: s.next_packet_id })
            } else {
                refused(s, t, step)
            }
        }),
{
    single_unsubscription_is_heard(s.next_packet_id, filter);
}

/// A disconnect sends one packet, in which a broker reads a normal DISCONNECT packet, and
/// once that was sent it is done and the session is over. In a session that is over there is
/// nothing to send.
pub proof fn disconnect_is_sent(s: SessionView, now: int)
    requires
        s.max_outbound >= goodbye().len(),
    ensures
        ({
            let (t, step) = s.begin_disconnect();
            if s.connected {
                &&& step matches StepView::Send(bytes) && heard(bytes) == Some(
                    Heard::Disconnect(DisconnectPacket { reason_code: 0 }),
                )
                &&& t.sent(Ok(()), now).1 == StepView::Done(Ok(None))
                &&& !t.sent(Ok(()), now).0.connected
            } else {
                &&& step == StepView::Done(Ok(None))
                &&& !t.connected
            }
        }),
{
    goodbye_is_heard();
}

/// A publish at QoS 0 is done once its packet was sent. At QoS 1, a subscribe and an
/// unsubscribe wait from then on for their acknowledgement, within the acknowledgement
/// timeout.
pub proof fn sent_operation_is_done_or_waits(s: SessionView, now: int)
    requires
        s.connected,
        s.sending == Sending::PublishAtMostOnce || s.sending == Sending::Publish || s.sending
            == Sending::Subscribe || s.sending == Sending::Unsubscribe,
        s.reader.next_packet() matches Ok(None),
    ensures
        ({
            let (t, step) = s.sent(Ok(()), now);
            &&& t.last_write_at == now
            &&& s.sending == Sending::PublishAtMostOnce ==> step == StepView::Done(Ok(None))
                && t.connected
            &&& s.sending != Sending::PublishAtMostOnce && step is Read ==> {
                &&& t.goal == s.goal
                &&& t.deadline matches Some((at, name)) && at == now + s.ack_timeout && name
                    == match s.sending {
                    Sending::Publish => "PUBACK",
                    Sending::Subscribe => "SUBACK",
                    _ => "UNSUBACK",
                }
            }
        }),
{
}

/// A packet that could not be written ends the session, and the operation tells why: with
/// its name where the transport ran out of time, else with the transport's own error.
pub proof fn failed_write_ends_the_session(s: SessionView, error: IoError, now: int)
    requires
        s.sending == Sending::PublishAtMostOnce || s.sending == Sending::Publish || s.sending
            == Sending::Subscribe || s.sending == Sending::Unsubscribe,
    ensures
        ({
            let (t, step) = s.sent(Err(error), now);
            let name = match s.sending {
                Sending::Subscribe => "subscribe",
                Sending::Unsubscribe => "unsubscribe",
                _ => "publish",
            };
            let out_of_time = error.spec_kind() == ErrorKind::TimedOut || error.spec_kind()
                == ErrorKind::WouldBlock;
            &&& !t.connected
            &&& step == StepView::Done(
                Err(
                    if out_of_time {
                        Error::Timeout(name)
                    } else {
                        Error::Io(error)
                    },
                ),
            )
        }),
{
}

/// The PUBACK packet of a publish ends it: well, or with the reason code where that is 0x80
/// or above. The session goes on. The PUBACK packet of another publish ends the session.
pub proof fn puback_ends_its_publish(s: SessionView, packet_id: u16, ack: PubAckPacket)
    requires
        s.connected,
        s.goal == (GoalView::PubAck { packet_id }),
    ensures
        ({
            let (t, step) = s.handle(PacketView::PubAck(ack));
            if ack.packet_id == packet_id {
                &&& t.connected
                &&& t.incoming == s.incoming
                &&& ack.reason_code < 0x80 ==> step == Some(StepView::Done(Ok(None)))
                &&& ack.reason_code >= 0x80 ==> step == Some(
                    StepView::Done(
                        Err(Error::AckRejected { packet: "PUBACK", reason_code: ack.reason_code }),
                    ),
                )
            } else {
                &&& !t.connected
                &&& step matches Some(StepView::Done(Err(Error::UnexpectedPacket(_))))
            }
        }),
{
    reveal(SessionView::handle);
}

/// The SUBACK packet of a subscribe ends it: well where the broker grants at most the QoS
/// level that was asked for, and with the reason code where that is 0x80 or above. A broker
/// that grants more, or answers for another number of filters, is not to be trusted: the
/// session ends. So it does with the SUBACK packet of another subscribe.
pub proof fn suback_ends_its_subscribe(
    s: SessionView,
    packet_id: u16,
    qos: QoS,
    ack: AckCodesView,
)
    requires
        s.connected,
        s.goal == (GoalView::SubAck { packet_id, qos }),
    ensures
        ({
            let (t, step) = s.handle(PacketView::SubAck(ack));
            if ack.packet_id != packet_id {
                &&& !t.connected
                &&& step matches Some(StepView::Done(Err(Error::UnexpectedPacket(_))))
            } else if ack.reason_codes.len() != 1 {
                &&& !t.connected
                &&& step matches Some(StepView::Done(Err(Error::MalformedPacket(_))))
            } else {
                let code = ack.reason_codes[0];
                &&& code <= qos_byte(qos) ==> step == Some(StepView::Done(Ok(None)))
                    && t.connected
                &&& code >= 0x80 ==> t.connected && step == Some(
                    StepView::Done(
                        Err(Error::AckRejected { packet: "SUBACK", reason_code: code }),
                    ),
                )
                &&& qos_byte(qos) < code < 0x80 ==> !t.connected && (step matches Some(
                    StepView::Done(Err(Error::MalformedPacket(_))),
                ))
            }
        }),
{
    reveal(SessionView::handle);
    reveal_with_fuel(granted_from, 2);
}

/// The UNSUBACK packet of an unsubscribe ends it: well, or with the reason code where that is
/// 0x80 or above. An answer for another number of filters, or to another unsubscribe, ends
/// the session.
pub proof fn unsuback_ends_its_unsubscribe(s: SessionView, packet_id: u16, ack: AckCodesView)
    requires
        s.connected,
        s.goal == (GoalView::UnsubAck { packet_id }),
    ensures
        ({
            let (t, step) = s.handle(PacketView::UnsubAck(ack));
            if ack.packet_id != packet_id {
                &&& !t.connected
                &&& step matches Some(StepView::Done(Err(Error::UnexpectedPacket(_))))
            } else if ack.reason_codes.len() != 1 {
                &&& !t.connected
                &&& step matches Some(StepView::Done(Err(Error::MalformedPacket(_))))
            } else {
                let code = ack.reason_codes[0];
                &&& t.connected
                &&& code < 0x80 ==> step == Some(StepView::Done(Ok(None)))
                &&& code >= 0x80 ==> step == Some(
                    StepView::Done(
                        Err(Error::AckRejected { packet: "UNSUBACK", reason_code: code }),
                    ),
                )
            }
        }),
{
    reveal(SessionView::handle);
    reveal_with_fuel(refusal_from, 2);
}

/// A broker that says goodbye ends the session. A call that receives then ends without a
/// message where the goodbye is a normal one, and any other operation fails; every other
/// goodbye is told with its reason code.
pub proof fn server_disconnect_ends_the_session(s: SessionView, disconnect: DisconnectPacket)
    requires
        s.connected,
        s.goal is Message || s.goal is PubAck || s.goal is SubAck || s.goal is UnsubAck,
    ensures
        ({
            let (t, step) = s.handle(PacketView::Disconnect(disconnect));
            &&& !t.connected
            &&& t.incoming == s.incoming
            &&& step == Some(
                StepView::Done(
                    if disconnect.reason_code != 0 {
                        Err(Error::ServerDisconnected(disconnect.reason_code))
                    } else if s.goal is Message {
                        Ok(None)
                    } else {
                        Err(Error::ConnectionClosed)
                    },
                ),
            )
        }),
{
    reveal(SessionView::handle);
}

/// An acknowledgement that has not come by its deadline is given up, exactly from then on,
/// and the session with it.
pub proof fn overdue_acknowledgement_is_given_up(
    s: SessionView,
    at: int,
    name: &'static str,
    now: int,
)
    requires
        s.connected,
        s.goal is PubAck || s.goal is SubAck || s.goal is UnsubAck,
        s.deadline == Some((at, name)),
        s.reader.next_packet() matches Ok(None),
    ensures
        ({
            let (t, step) = s.advance(now);
            &&& now >= at ==> step == StepView::Done(Err(Error::Timeout(name))) && !t.connected
            &&& now < at ==> step != StepView::Done(Err(Error::Timeout(name)))
        }),
{
}

/// An idle session pings: where nothing was written for the keep-alive time, a PINGREQ packet
/// goes out, and never without a keep-alive time. A ping that is not answered within the
/// acknowledgement timeout ends the session, and its answer lets the session go on.
pub proof fn idle_session_pings(s: SessionView, now: int)
    requires
        s.connected,
        s.goal is Message,
        s.deadline is None,
        s.max_outbound >= 2,
        s.reader.next_packet() matches Ok(None),
        s.reader.after_next().room() > 0,
        now >= s.last_write_at,
        s.ping_since matches Some(at) ==> now >= at,
    ensures
        ({
            let (t, step) = s.advance(now);
            match s.ping_since {
                Some(at) => {
                    &&& now - at >= s.ack_timeout ==> !t.connected && step == StepView::Done(
                        Err(Error::KeepAliveTimeout),
                    )
                    &&& now - at < s.ack_timeout ==> t.connected && step is Read
                },
                None => {
                    let idle = s.keep_alive_secs > 0 && now - s.last_write_at
                        >= s.keep_alive_secs * 1_000_000_000;
                    &&& t.connected
                    &&& idle ==> {
                        &&& step matches StepView::Send(bytes) && heard(bytes) == Some(
                            Heard::PingReq,
                        )
                        &&& t.sent(Ok(()), now).0.ping_since == Some(now)
                        &&& t.sent(Ok(()), now).1 is Read
                    }
                    &&& !idle ==> step is Read
                },
            }
        }),
        s.handle(PacketView::PingResp).0.ping_since is None,
        s.handle(PacketView::PingResp).1 is None,
{
    reveal(SessionView::handle);
    ping_is_heard();
}

/// A session that waits for bytes wakes up in time: no later than at its deadline, and than
/// the next ping or its answer is due, but for the millisecond that the transport is always
/// given; and it does not wake up for anything else.
pub proof fn read_wakes_up_in_time(s: SessionView, now: int)
    requires
        s.connected,
    ensures
        ({
            let (t, step) = s.read_step(now);
            step matches StepView::Read { timeout, max } ==> {
                &&& 0 < max <= 8192
                &&& max <= s.reader.room()
                &&& s.deadline matches Some((at, _)) ==> (timeout matches Some(span) && (span
                    <= at - now || span == 1_000_000))
                &&& timeout matches Some(span) ==> span >= 1_000_000
                &&& timeout matches Some(span) ==> span > 1_000_000 ==> {
                    ||| s.deadline matches Some((at, _)) && now + span == at
                    ||| s.ping_since matches Some(at) && now + span == at + s.ack_timeout
                    ||| s.ping_since is None && s.keep_alive_secs > 0 && now + span
                        == s.last_write_at + s.keep_alive_secs * 1_000_000_000
                }
                &&& s.deadline is None && s.ping_since is None && s.keep_alive_secs == 0
                    ==> timeout is None
            }
        }),
{
}

/// A read that gives nothing ends the session as closed. One that runs out of time or is
/// interrupted changes nothing that was received, and any other failure ends the session with
/// the transport's error.
pub proof fn reads_go_on_or_end_the_session(s: SessionView, error: IoError, now: int)
    ensures
        s.received(Ok(Seq::empty()), now).1 == StepView::Done(Err(Error::ConnectionClosed)),
        !s.received(Ok(Seq::empty()), now).0.connected,
        ({
            let goes_on = error.spec_kind() == ErrorKind::Interrupted || error.spec_kind()
                == ErrorKind::TimedOut || error.spec_kind() == ErrorKind::WouldBlock;
            &&& goes_on ==> s.received(Err(error), now) == s.advance(now)
            &&& !goes_on ==> s.received(Err(error), now).1 == StepView::Done(
                Err(Error::Io(error)),
            ) && !s.received(Err(error), now).0.connected
        }),
{
}

} // verus!
