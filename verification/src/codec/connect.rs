//! CONNECT and CONNACK packets, and what a broker's answer says about its capabilities.
use vstd::prelude::*;

use crate::codec::decode::{take_u8, Cursor};
use crate::codec::encode::{
    both, encode_binary, encode_string, encode_u16, encoded_binary, encoded_string, frame_packet,
    framed, gives, u16_bytes,
};
use crate::codec::properties::{
    decoded_properties_are_valid, encoded_properties, first_value, looked_up_value_is_valid,
    take_properties, Entry, Properties, PropertyContext, PropertyId, PropertyValueView, ValueKind,
};
use crate::codec::topic::{
    contains_wildcard, has_wildcard, is_shared, starts_with_share, topic_filter_check,
    validate_topic_filter,
};
use crate::codec::types::{
    ConnAckPacket, ConnAckPacketView, ConnectPacket, ConnectPacketView, PacketType, QoS,
};
use crate::error::{Error, Result};
use crate::text::chars_of;

verus! {

const PROTOCOL_NAME: &'static str = "MQTT";

const PROTOCOL_VERSION_5: u8 = 5;

/// The connect flags: clean start, and which credentials follow.
pub open spec fn connect_flags(p: ConnectPacketView) -> u8 {
    ((if p.clean_start {
        0x02int
    } else {
        0
    }) + (if p.password is Some {
        0x40int
    } else {
        0
    }) + (if p.username is Some {
        0x80int
    } else {
        0
    })) as u8
}

/// A string on the wire, or nothing.
pub open spec fn encoded_optional_string(s: Option<Seq<char>>) -> Result<Seq<u8>> {
    match s {
        Some(text) => encoded_string(text),
        None => Ok(Seq::empty()),
    }
}

/// Binary data on the wire, or nothing.
pub open spec fn encoded_optional_binary(d: Option<Seq<u8>>) -> Result<Seq<u8>> {
    match d {
        Some(data) => encoded_binary(data),
        None => Ok(Seq::empty()),
    }
}

/// The variable header of a CONNECT packet up to its properties: protocol name and
/// version, flags, and keep-alive.
pub open spec fn connect_head(p: ConnectPacketView) -> Seq<u8> {
    seq![0u8, 4u8, 0x4Du8, 0x51u8, 0x54u8, 0x54u8, 5u8, connect_flags(p)] + u16_bytes(p.keep_alive)
}

/// The body of a CONNECT packet.
pub open spec fn connect_body(p: ConnectPacketView) -> Result<Seq<u8>> {
    both(
        both(
            both(
                both(
                    Ok(connect_head(p)),
                    encoded_properties(p.properties, Some(PropertyContext::Connect)),
                ),
                encoded_string(p.client_id),
            ),
            encoded_optional_string(p.username),
        ),
        encoded_optional_binary(p.password),
    )
}

/// A CONNECT packet on the wire, or the first thing that is wrong with it.
pub open spec fn encoded_connect(p: ConnectPacketView) -> Result<Seq<u8>> {
    if p.protocol_version != 5 {
        Err(Error::MalformedPacket("only MQTT v5 is supported"))
    } else {
        match connect_body(p) {
            Err(e) => Err(e),
            Ok(body) => framed(PacketType::Connect, 0, body),
        }
    }
}

proof fn protocol_name_bytes()
    ensures
        encoded_string("MQTT"@) == Ok::<Seq<u8>, Error>(
            seq![0u8, 4u8, 0x4Du8, 0x51u8, 0x54u8, 0x54u8],
        ),
{
    reveal_strlit("MQTT");
    let name = "MQTT"@;
    assert(vstd::utf8::is_ascii_chars(name));
    vstd::utf8::is_ascii_chars_encode_utf8(name);
    let bytes = vstd::utf8::encode_utf8(name);
    assert(bytes =~= seq![0x4Du8, 0x51u8, 0x54u8, 0x54u8]);
    assert(encoded_string(name)->Ok_0 =~= seq![0u8, 4u8, 0x4Du8, 0x51u8, 0x54u8, 0x54u8]);
}

impl ConnectPacket {
    pub fn encode(&self) -> (r: Result<Vec<u8>>)
        ensures
            gives(r, encoded_connect(self@)),
    {
        if self.protocol_version != PROTOCOL_VERSION_5 {
            return Err(Error::MalformedPacket("only MQTT v5 is supported"));
        }
        // Build the variable header + payload into a body buffer first,
        // then prepend the fixed header with the correct remaining length.
        let mut body: Vec<u8> = Vec::new();
        // Variable header: protocol name, version, flags, keep-alive
        proof {
            protocol_name_bytes();
        }
        encode_string(&mut body, PROTOCOL_NAME)?;
        body.push(self.protocol_version);
        // Connect flags
        let mut flags: u8 = 0;
        if self.clean_start {
            flags += 0x02;
        }
        if self.password.is_some() {
            flags += 0x40;
        }
        if self.username.is_some() {
            flags += 0x80;
        }
        body.push(flags);
        encode_u16(&mut body, self.keep_alive);
        assert(body@ =~= connect_head(self@));
        // Properties (v5)
        self.properties.encode_for(&mut body, PropertyContext::Connect)?;
        // Payload: client ID (always present), then optional username/password
        encode_string(&mut body, self.client_id.as_str())?;
        if let Some(username) = &self.username {
            encode_string(&mut body, username.as_str())?;
        }
        if let Some(password) = &self.password {
            encode_binary(&mut body, password.as_slice())?;
        }
        assert(body@ =~= connect_body(self@)->Ok_0);
        // Fixed header
        frame_packet(PacketType::Connect, 0, &body)
    }
}

/// What is wrong with a CONNACK packet as the answer to a CONNECT packet with this client
/// identifier and clean-start flag, if anything.
pub open spec fn connack_check(
    requested_client_id: Seq<char>,
    clean_start: bool,
    connack: ConnAckPacketView,
) -> Result<()> {
    if clean_start && connack.session_present {
        Err(Error::MalformedPacket("CONNACK has session present after clean start"))
    } else if requested_client_id.len() == 0 && connack.session_present {
        Err(
            Error::MalformedPacket(
                "CONNACK has session present for a newly assigned client identifier",
            ),
        )
    } else if requested_client_id.len() == 0 && !assigns_client_id(connack.properties) {
        Err(Error::MalformedPacket("CONNACK omitted a non-empty assigned client identifier"))
    } else {
        Ok(())
    }
}

/// Whether the properties of a CONNACK packet assign a non-empty client identifier.
pub open spec fn assigns_client_id(properties: Seq<Entry>) -> bool {
    match first_value(properties, PropertyId::AssignedClientIdentifier, ValueKind::Str) {
        Some(PropertyValueView::Str(identifier)) => identifier.len() > 0,
        _ => false,
    }
}

/// Validate CONNACK fields that depend on the corresponding CONNECT packet.
pub fn validate_connack(
    requested_client_id: &str,
    clean_start: bool,
    connack: &ConnAckPacket,
) -> (r: Result<()>)
    ensures
        r == connack_check(requested_client_id@, clean_start, connack@),
{
    let unnamed = chars_of(requested_client_id).is_empty();
    if clean_start && connack.session_present {
        return Err(Error::MalformedPacket("CONNACK has session present after clean start"));
    }
    if unnamed && connack.session_present {
        return Err(
            Error::MalformedPacket(
                "CONNACK has session present for a newly assigned client identifier",
            ),
        );
    }
    let assigned = match connack.properties.get_string(PropertyId::AssignedClientIdentifier) {
        Some(identifier) => !chars_of(identifier).is_empty(),
        None => false,
    };
    if unnamed && !assigned {
        return Err(
            Error::MalformedPacket("CONNACK omitted a non-empty assigned client identifier"),
        );
    }
    Ok(())
}

/// Broker capabilities negotiated from singleton CONNACK properties.
#[derive(Debug, Clone, Copy, PartialEq, Eq, Structural)]
pub struct ServerCapabilities {
    pub maximum_qos: QoS,
    pub retain_available: bool,
    pub wildcard_subscriptions_available: bool,
    pub shared_subscriptions_available: bool,
}

/// A CONNACK property of one byte, or 1 where it is absent.
pub open spec fn availability(properties: Seq<Entry>, id: PropertyId) -> u8 {
    match first_value(properties, id, ValueKind::Byte) {
        Some(PropertyValueView::Byte(v)) => v,
        _ => 1,
    }
}

/// What a CONNACK packet says about its broker.
pub open spec fn capabilities_of(connack: ConnAckPacketView) -> ServerCapabilities {
    ServerCapabilities {
        maximum_qos: if availability(connack.properties, PropertyId::MaximumQoS) == 0 {
            QoS::AtMostOnce
        } else {
            QoS::AtLeastOnce
        },
        retain_available: availability(connack.properties, PropertyId::RetainAvailable) != 0,
        wildcard_subscriptions_available: availability(
            connack.properties,
            PropertyId::WildcardSubscriptionAvailable,
        ) != 0,
        shared_subscriptions_available: availability(
            connack.properties,
            PropertyId::SharedSubscriptionAvailable,
        ) != 0,
    }
}

impl ServerCapabilities {
    /// The capabilities that a decoded CONNACK packet announces. Decoding has checked
    /// that the maximum QoS is at most one.
    pub fn from_connack(connack: &ConnAckPacket) -> (r: Self)
        requires
            availability(connack@.properties, PropertyId::MaximumQoS) <= 1,
        ensures
            r == capabilities_of(connack@),
    {
        Self {
            maximum_qos: match connack.properties.get_byte(PropertyId::MaximumQoS) {
                Some(0) => QoS::AtMostOnce,
                _ => QoS::AtLeastOnce,
            },
            retain_available: available(connack, PropertyId::RetainAvailable),
            wildcard_subscriptions_available: available(
                connack,
                PropertyId::WildcardSubscriptionAvailable,
            ),
            shared_subscriptions_available: available(
                connack,
                PropertyId::SharedSubscriptionAvailable,
            ),
        }
    }

    /// What is wrong with publishing at this level, if anything.
    pub open spec fn publish_check(self, qos: QoS, retain: bool) -> Result<()> {
        if qos.spec_code() > self.maximum_qos.spec_code() {
            Err(Error::InvalidOptions("broker does not support QoS 1 publishing"))
        } else if retain && !self.retain_available {
            Err(Error::InvalidOptions("broker does not support retained publishing"))
        } else {
            Ok(())
        }
    }

    pub fn validate_publish(&self, qos: QoS, retain: bool) -> (r: Result<()>)
        ensures
            r == self.publish_check(qos, retain),
    {
        if qos.code() > self.maximum_qos.code() {
            return Err(Error::InvalidOptions("broker does not support QoS 1 publishing"));
        }
        if retain && !self.retain_available {
            return Err(Error::InvalidOptions("broker does not support retained publishing"));
        }
        Ok(())
    }

    /// What is wrong with subscribing to this filter, if anything.
    pub open spec fn filter_check(self, filter: Seq<char>) -> Result<()> {
        if topic_filter_check(filter) is Err {
            topic_filter_check(filter)
        } else if is_shared(filter) && !self.shared_subscriptions_available {
            Err(Error::InvalidOptions("broker does not support shared subscriptions"))
        } else if has_wildcard(filter) && !self.wildcard_subscriptions_available {
            Err(Error::InvalidOptions("broker does not support wildcard subscriptions"))
        } else {
            Ok(())
        }
    }

    pub fn validate_subscription_filter(&self, filter: &str) -> (r: Result<()>)
        ensures
            r == self.filter_check(filter@),
    {
        validate_topic_filter(filter)?;
        if starts_with_share(filter) && !self.shared_subscriptions_available {
            return Err(Error::InvalidOptions("broker does not support shared subscriptions"));
        }
        if contains_wildcard(filter) && !self.wildcard_subscriptions_available {
            return Err(Error::InvalidOptions("broker does not support wildcard subscriptions"));
        }
        Ok(())
    }
}

fn available(connack: &ConnAckPacket, id: PropertyId) -> (r: bool)
    ensures
        r == (availability(connack@.properties, id) != 0),
{
    match connack.properties.get_byte(id) {
        Some(v) => v != 0,
        None => true,
    }
}

impl Default for ServerCapabilities {
    fn default() -> (r: Self)
        ensures
            r == (ServerCapabilities {
                maximum_qos: QoS::AtLeastOnce,
                retain_available: true,
                wildcard_subscriptions_available: true,
                shared_subscriptions_available: true,
            }),
    {
        Self {
            maximum_qos: QoS::AtLeastOnce,
            retain_available: true,
            wildcard_subscriptions_available: true,
            shared_subscriptions_available: true,
        }
    }
}

/// Whether `code` is a reason code of a CONNACK packet.
pub open spec fn connack_reason_code(code: u8) -> bool {
    code == 0x00 || 0x80 <= code <= 0x8A || code == 0x8C || code == 0x90 || code == 0x95 || code
        == 0x97 || 0x99 <= code <= 0x9D || code == 0x9F
}

fn is_connack_reason_code(code: u8) -> (r: bool)
    ensures
        r == connack_reason_code(code),
{
    matches!(
        code,
        0x00 | 0x80 | 0x81 | 0x82 | 0x83 | 0x84 | 0x85 | 0x86 | 0x87 | 0x88 | 0x89 | 0x8A | 0x8C
            | 0x90 | 0x95 | 0x97 | 0x99 | 0x9A | 0x9B | 0x9C | 0x9D | 0x9F
    )
}

/// The CONNACK packet with this body, or what is wrong with it.
pub open spec fn connack_of(body: Seq<u8>) -> Result<ConnAckPacketView> {
    match take_u8(body, 0) {
        (Err(e), _) => Err(e),
        (Ok(flags), _) => if flags > 1 {
            Err(Error::MalformedPacket("CONNACK has reserved acknowledge flags"))
        } else {
            match take_u8(body, 1) {
                (Err(e), _) => Err(e),
                (Ok(reason_code), _) => if !connack_reason_code(reason_code) {
                    Err(Error::InvalidReasonCode(reason_code))
                } else if flags == 1 && reason_code != 0 {
                    Err(Error::MalformedPacket("refused CONNACK has session present"))
                } else {
                    match take_properties(body, 2, Some(PropertyContext::ConnAck)) {
                        (Err(e), _) => Err(e),
                        (Ok(properties), at) => if at != body.len() {
                            Err(Error::MalformedPacket("trailing CONNACK bytes"))
                        } else {
                            Ok(
                                ConnAckPacketView {
                                    session_present: flags == 1,
                                    reason_code,
                                    properties,
                                },
                            )
                        },
                    }
                },
            }
        },
    }
}

impl ConnAckPacket {
    pub fn decode(body: &[u8]) -> (r: Result<Self>)
        ensures
            match connack_of(body@) {
                Ok(view) => r matches Ok(packet) && packet@ == view,
                Err(e) => r == Err::<Self, _>(e),
            },
    {
        let mut cur = Cursor::new(body);
        // Byte 1: connect acknowledge flags (only bit 0 = session present)
        let ack_flags: u8 = cur.read_u8()?;
        if ack_flags > 1 {
            return Err(Error::MalformedPacket("CONNACK has reserved acknowledge flags"));
        }
        let session_present = ack_flags == 1;
        // Byte 2: reason code
        let reason_code: u8 = cur.read_u8()?;
        if !is_connack_reason_code(reason_code) {
            return Err(Error::InvalidReasonCode(reason_code));
        }
        if session_present && reason_code != 0x00 {
            return Err(Error::MalformedPacket("refused CONNACK has session present"));
        }
        // MQTT v5 always includes Property Length, including a zero value.
        let properties = Properties::decode_for(&mut cur, PropertyContext::ConnAck)?;
        if cur.remaining() != 0 {
            return Err(Error::MalformedPacket("trailing CONNACK bytes"));
        }
        Ok(ConnAckPacket { session_present, reason_code, properties })
    }
}

/// A decoded CONNACK packet names a maximum QoS of at most one, so its capabilities can be
/// read off.
pub proof fn decoded_connack_has_capabilities(body: Seq<u8>)
    ensures
        connack_of(body) matches Ok(connack) ==> availability(
            connack.properties,
            PropertyId::MaximumQoS,
        ) <= 1,
{
    if let Ok(connack) = connack_of(body) {
        let context = Some(PropertyContext::ConnAck);
        decoded_properties_are_valid(body, 2, context);
        looked_up_value_is_valid(
            connack.properties,
            context,
            PropertyId::MaximumQoS,
            ValueKind::Byte,
        );
    }
}

/// The limits that a decoded CONNACK packet sets are not zero.
pub proof fn decoded_connack_limits_are_positive(body: Seq<u8>)
    ensures
        connack_of(body) matches Ok(connack) ==> {
            &&& first_value(connack.properties, PropertyId::MaximumPacketSize, ValueKind::U32)
                != Some(PropertyValueView::U32(0))
            &&& first_value(connack.properties, PropertyId::ReceiveMaximum, ValueKind::U16) != Some(
                PropertyValueView::U16(0),
            )
        },
{
    if let Ok(connack) = connack_of(body) {
        let context = Some(PropertyContext::ConnAck);
        decoded_properties_are_valid(body, 2, context);
        looked_up_value_is_valid(
            connack.properties,
            context,
            PropertyId::MaximumPacketSize,
            ValueKind::U32,
        );
        looked_up_value_is_valid(
            connack.properties,
            context,
            PropertyId::ReceiveMaximum,
            ValueKind::U16,
        );
    }
}

} // verus!
