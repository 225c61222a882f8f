//! How a connection begins: what a broker reads in the first packet that a client sends, and
//! what becomes of the terms in the broker's answer.
use vstd::prelude::*;

use crate::async_client::driver::connected;
use crate::async_client::handshake::{HandshakeView, Negotiated};
use crate::client::model::{GoalView, SessionView, StepView};
use crate::codec::broker::{connack_is_read, connect_is_heard, heard, Heard};
use crate::codec::connect::{
    assigns_client_id, connack_reason_code, encoded_connect, ServerCapabilities,
};
use crate::codec::encode::variable_int_bytes;
use crate::codec::properties::{
    encoded_properties, first_value, Entry, PropertyContext, PropertyId, PropertyValueView,
    ValueKind,
};
use crate::codec::types::{ConnAckPacketView, FixedHeader, PacketType, PacketView, QoS};
use crate::error::Error;
use crate::frame::MQTT_MAX_PACKET_SIZE;
use crate::options::{connect_packet_of, options_check, ConnectOptionsView};
use crate::time::{Instant, MAX_INSTANT_NANOS};

verus! {

/// Whether a broker reads in these bytes a first CONNECT packet that says what the options
/// say: the client identifier, the keep-alive time, whether to start clean, and the user
/// name and the password exactly where there are some; and that announces the largest packet
/// that is accepted, and how many messages can be held.
pub open spec fn introduces(bytes: Seq<u8>, o: ConnectOptionsView, capacity: usize) -> bool {
    heard(bytes) matches Some(Heard::Connect(connect)) && {
        &&& connect.client_id == o.client_id
        &&& connect.keep_alive == o.keep_alive_secs
        &&& (connect.clean_start <==> o.clean_start)
        &&& connect.username == o.username
        &&& connect.password == o.password
        &&& first_value(connect.properties, PropertyId::MaximumPacketSize, ValueKind::U32)
            matches Some(PropertyValueView::U32(size)) && size == o.max_packet_size
        &&& first_value(connect.properties, PropertyId::ReceiveMaximum, ValueKind::U16)
            matches Some(PropertyValueView::U16(count)) && count <= capacity && (count == capacity
            || count == u16::MAX)
        &&& connect.properties.len() == 2
    }
}

/// The CONNECT packet of a client introduces it as its options say, and is no larger than
/// any packet can be.
pub proof fn connect_introduces(o: ConnectOptionsView, capacity: usize)
    requires
        o.max_packet_size <= u32::MAX,
    ensures
        encoded_connect(connect_packet_of(o, capacity)) matches Ok(bytes) ==> introduces(
            bytes,
            o,
            capacity,
        ) && bytes.len() <= MQTT_MAX_PACKET_SIZE,
{
    let p = connect_packet_of(o, capacity);
    if let Ok(bytes) = encoded_connect(p) {
        connect_is_heard(p);
        reveal_with_fuel(first_value, 3);
        reveal_with_fuel(variable_int_bytes, 5);
    }
}

/// The body of a CONNACK packet.
pub open spec fn connack_body(session_present: bool, reason_code: u8, properties: Seq<u8>) -> Seq<
    u8,
> {
    seq![
        if session_present {
            1u8
        } else {
            0u8
        },
        reason_code,
    ] + properties
}

/// Whether a flag among the broker's terms is on: it is, unless the broker says 0.
pub open spec fn is_granted(properties: Seq<Entry>, id: PropertyId) -> bool {
    first_value(properties, id, ValueKind::Byte) != Some(PropertyValueView::Byte(0))
}

/// Whether these are the capabilities that the broker's properties announce.
pub open spec fn announced(capabilities: ServerCapabilities, properties: Seq<Entry>) -> bool {
    &&& (capabilities.maximum_qos == QoS::AtLeastOnce <==> is_granted(
        properties,
        PropertyId::MaximumQoS,
    ))
    &&& (capabilities.retain_available <==> is_granted(properties, PropertyId::RetainAvailable))
    &&& (capabilities.wildcard_subscriptions_available <==> is_granted(
        properties,
        PropertyId::WildcardSubscriptionAvailable,
    ))
    &&& (capabilities.shared_subscriptions_available <==> is_granted(
        properties,
        PropertyId::SharedSubscriptionAvailable,
    ))
}

/// Whether a number is the one that the broker's properties give in two bytes, or the other
/// one where they give none.
pub open spec fn short_or(number: int, properties: Seq<Entry>, id: PropertyId, other: int) -> bool {
    match first_value(properties, id, ValueKind::U16) {
        Some(PropertyValueView::U16(v)) => number == v,
        _ => number == other,
    }
}

/// Whether a number is the one that the broker's properties give in four bytes, or the other
/// one where they give none.
pub open spec fn long_or(number: int, properties: Seq<Entry>, id: PropertyId, other: int) -> bool {
    match first_value(properties, id, ValueKind::U32) {
        Some(PropertyValueView::U32(v)) => number == v,
        _ => number == other,
    }
}

/// Whether the terms are those of the broker's properties. Where the broker does not say,
/// the keep-alive time is the client's own, any packet that the protocol can carry is
/// accepted, and so are as many unacknowledged messages as there can be.
pub open spec fn settles(terms: Negotiated, properties: Seq<Entry>, own_keep_alive: u16) -> bool {
    &&& announced(terms.capabilities, properties)
    &&& short_or(
        terms.keep_alive_secs as int,
        properties,
        PropertyId::ServerKeepAlive,
        own_keep_alive as int,
    )
    &&& long_or(
        terms.max_packet_size as int,
        properties,
        PropertyId::MaximumPacketSize,
        268_435_460,
    )
    &&& short_or(
        terms.receive_maximum as int,
        properties,
        PropertyId::ReceiveMaximum,
        65_535,
    )
}

/// Whether the broker's answer can belong to what was asked for: no session is there after a
/// clean start or for a new client, and a client without an identifier is given one.
pub open spec fn fits_request(
    client_id: Seq<char>,
    clean_start: bool,
    session_present: bool,
    properties: Seq<Entry>,
) -> bool {
    &&& session_present ==> !clean_start && client_id.len() > 0
    &&& client_id.len() == 0 ==> assigns_client_id(properties)
}

/// A handshake that has read the last byte of a CONNACK packet ends: with the terms in it
/// where the broker accepts and the answer fits what was asked for, and else with an error,
/// which gives the reason code where the broker refuses.
pub proof fn handshake_takes_the_brokers_terms(
    s: HandshakeView,
    header: FixedHeader,
    session_present: bool,
    reason_code: u8,
    properties: Seq<Entry>,
)
    requires
        s.announced == Some(header),
        header.packet_type == PacketType::ConnAck,
        header.flags == 0,
        header.remaining_length == s.body.len(),
        connack_reason_code(reason_code),
        session_present ==> reason_code == 0,
        encoded_properties(properties, Some(PropertyContext::ConnAck)) matches Ok(bytes) && s.body
            == connack_body(session_present, reason_code, bytes),
    ensures
        s.progressed().0 == s,
        match s.progressed().1 {
            Ok(Some(terms)) => {
                &&& reason_code < 0x80
                &&& fits_request(s.client_id, s.clean_start, session_present, properties)
                &&& settles(terms, properties, s.keep_alive_secs)
            },
            Ok(None) => false,
            Err(e) => {
                ||| reason_code >= 0x80 && e == Error::ConnectionRefused(reason_code)
                ||| reason_code < 0x80 && !fits_request(
                    s.client_id,
                    s.clean_start,
                    session_present,
                    properties,
                )
            },
        },
{
    connack_is_read(session_present, reason_code, properties);
}

/// A session that waits for the CONNACK packet is connected on the terms in it where the
/// broker accepts and the answer fits what was asked for. Else it is not, and a refusal is
/// told with its reason code.
pub proof fn session_takes_the_brokers_terms(
    s: SessionView,
    client_id: Seq<char>,
    clean_start: bool,
    connack: ConnAckPacketView,
)
    requires
        !s.connected,
        s.goal == (GoalView::Connect { client_id, clean_start }),
    ensures
        ({
            let (t, step) = s.handle(PacketView::ConnAck(connack));
            let accepted = connack.reason_code == 0 && fits_request(
                client_id,
                clean_start,
                connack.session_present,
                connack.properties,
            );
            &&& step matches Some(StepView::Done(r)) && (r is Ok <==> accepted) && (r matches Ok(
                message,
            ) ==> message is None)
            &&& connack.reason_code != 0 ==> step == Some(
                StepView::Done(Err(Error::ConnectionRefused(connack.reason_code))),
            )
            &&& t.connected <==> accepted
            &&& accepted ==> {
                &&& announced(t.capabilities, connack.properties)
                &&& short_or(
                    t.keep_alive_secs as int,
                    connack.properties,
                    PropertyId::ServerKeepAlive,
                    s.keep_alive_secs as int,
                )
                &&& long_or(
                    t.max_outbound as int,
                    connack.properties,
                    PropertyId::MaximumPacketSize,
                    s.max_outbound as int,
                )
                &&& t.ack_timeout == s.ack_timeout
                &&& t.max_incoming == s.max_incoming
                &&& t.next_packet_id == s.next_packet_id
                &&& t.incoming == s.incoming
                &&& t.reader == s.reader
                &&& t.deadline is None
            }
        }),
{
    reveal(SessionView::handle);
}

/// A driver starts on the broker's terms and the client's limits, with nothing waiting and
/// nothing queued.
pub proof fn driver_starts_on_the_terms(o: ConnectOptionsView, terms: Negotiated, now: Instant)
    ensures
        ({
            let s = connected(o, terms, now);
            &&& s.keep_alive_secs == terms.keep_alive_secs
            &&& s.peer_max_packet_size == terms.max_packet_size
            &&& s.peer_receive_maximum == terms.receive_maximum
            &&& s.capabilities == terms.capabilities
            &&& s.reader.max == o.max_packet_size
            &&& s.reader.buf.len() == 0
            &&& s.max_outbound_queue_bytes == o.max_outbound_queue_bytes
            &&& s.max_pending_operations == o.command_capacity
            &&& s.ack_timeout == o.ack_timeout.spec_nanos()
            &&& s.poll_interval == o.poll_interval.spec_nanos()
            &&& s.last_write_at == now.spec_nanos()
            &&& s.outbound.len() == 0
            &&& s.acks.len() == 0
            &&& s.requests.len() == 0
            &&& s.subscriptions.len() == 0
            &&& s.next_packet_id == 1
            &&& s.ping_since is None
            &&& !s.closing
            &&& !s.terminal_event_sent
        }),
{
}

/// Options are accepted exactly where every timeout is there and in reach of the clock, the
/// packet size is one that the protocol can carry, and every queue has room for something.
pub proof fn sound_options_are_accepted(o: ConnectOptionsView, now: Instant)
    ensures
        options_check(o, now) is Ok <==> {
            &&& o.connect_timeout.spec_nanos() != 0
            &&& o.ack_timeout.spec_nanos() != 0
            &&& o.poll_interval.spec_nanos() != 0
            &&& o.max_packet_size >= 2
            &&& o.max_packet_size <= MQTT_MAX_PACKET_SIZE
            &&& o.max_incoming_messages > 0
            &&& o.command_capacity > 0
            &&& o.event_capacity > 0
            &&& o.max_outbound_queue_bytes > 0
            &&& now.spec_nanos() + o.connect_timeout.spec_nanos() <= MAX_INSTANT_NANOS
            &&& now.spec_nanos() + o.ack_timeout.spec_nanos() <= MAX_INSTANT_NANOS
        },
        options_check(o, now) is Err ==> options_check(o, now)->Err_0 is InvalidOptions,
{
}

} // verus!
