//! MQTT v5 control packets and the values they are made of.
use vstd::prelude::*;

use crate::codec::properties::{Entry, Properties};
use crate::error::{Error, Result};

verus! {

/// MQTT v5 control packet type (4-bit value in the fixed header).
#[derive(Debug, Clone, Copy, PartialEq, Eq, Structural)]
pub enum PacketType {
    Connect,
    ConnAck,
    Publish,
    PubAck,
    PubRec,
    PubRel,
    PubComp,
    Subscribe,
    SubAck,
    Unsubscribe,
    UnsubAck,
    PingReq,
    PingResp,
    Disconnect,
    Auth,
}

impl PacketType {
    /// The type's number on the wire, from 1 to 15.
    pub open spec fn spec_code(self) -> u8 {
        match self {
            PacketType::Connect => 1,
            PacketType::ConnAck => 2,
            PacketType::Publish => 3,
            PacketType::PubAck => 4,
            PacketType::PubRec => 5,
            PacketType::PubRel => 6,
            PacketType::PubComp => 7,
            PacketType::Subscribe => 8,
            PacketType::SubAck => 9,
            PacketType::Unsubscribe => 10,
            PacketType::UnsubAck => 11,
            PacketType::PingReq => 12,
            PacketType::PingResp => 13,
            PacketType::Disconnect => 14,
            PacketType::Auth => 15,
        }
    }

    /// The type's number on the wire.
    pub fn code(self) -> (r: u8)
        ensures
            r == self.spec_code(),
    {
        match self {
            PacketType::Connect => 1,
            PacketType::ConnAck => 2,
            PacketType::Publish => 3,
            PacketType::PubAck => 4,
            PacketType::PubRec => 5,
            PacketType::PubRel => 6,
            PacketType::PubComp => 7,
            PacketType::Subscribe => 8,
            PacketType::SubAck => 9,
            PacketType::Unsubscribe => 10,
            PacketType::UnsubAck => 11,
            PacketType::PingReq => 12,
            PacketType::PingResp => 13,
            PacketType::Disconnect => 14,
            PacketType::Auth => 15,
        }
    }

    /// The type with number `val`; every number from 1 to 15 has one.
    pub fn from_u8(val: u8) -> (r: Result<Self>)
        ensures
            r == packet_type_of(val),
    {
        match val {
            1 => Ok(PacketType::Connect),
            2 => Ok(PacketType::ConnAck),
            3 => Ok(PacketType::Publish),
            4 => Ok(PacketType::PubAck),
            5 => Ok(PacketType::PubRec),
            6 => Ok(PacketType::PubRel),
            7 => Ok(PacketType::PubComp),
            8 => Ok(PacketType::Subscribe),
            9 => Ok(PacketType::SubAck),
            10 => Ok(PacketType::Unsubscribe),
            11 => Ok(PacketType::UnsubAck),
            12 => Ok(PacketType::PingReq),
            13 => Ok(PacketType::PingResp),
            14 => Ok(PacketType::Disconnect),
            15 => Ok(PacketType::Auth),
            _ => Err(Error::InvalidPacketType(val)),
        }
    }
}

/// The packet type with number `val`, or the error for a number without one.
pub open spec fn packet_type_of(val: u8) -> Result<PacketType> {
    match val {
        1 => Ok(PacketType::Connect),
        2 => Ok(PacketType::ConnAck),
        3 => Ok(PacketType::Publish),
        4 => Ok(PacketType::PubAck),
        5 => Ok(PacketType::PubRec),
        6 => Ok(PacketType::PubRel),
        7 => Ok(PacketType::PubComp),
        8 => Ok(PacketType::Subscribe),
        9 => Ok(PacketType::SubAck),
        10 => Ok(PacketType::Unsubscribe),
        11 => Ok(PacketType::UnsubAck),
        12 => Ok(PacketType::PingReq),
        13 => Ok(PacketType::PingResp),
        14 => Ok(PacketType::Disconnect),
        15 => Ok(PacketType::Auth),
        _ => Err(Error::InvalidPacketType(val)),
    }
}

/// A packet type is found again by its number, and every number from 1 to 15 has one.
pub proof fn packet_type_round_trip(t: PacketType, val: u8)
    ensures
        packet_type_of(t.spec_code()) == Ok::<PacketType, Error>(t),
        packet_type_of(val) is Ok <==> 1 <= val <= 15,
        packet_type_of(val) matches Ok(found) ==> found.spec_code() == val,
{
}

/// MQTT Quality of Service level. Only QoS 0 and 1 are supported.
#[derive(Debug, Clone, Copy, PartialEq, Eq, Structural)]
pub enum QoS {
    AtMostOnce,
    AtLeastOnce,
}

impl QoS {
    /// The level's number on the wire.
    pub open spec fn spec_code(self) -> u8 {
        match self {
            QoS::AtMostOnce => 0,
            QoS::AtLeastOnce => 1,
        }
    }

    /// The level's number on the wire.
    pub fn code(self) -> (r: u8)
        ensures
            r == self.spec_code(),
    {
        match self {
            QoS::AtMostOnce => 0,
            QoS::AtLeastOnce => 1,
        }
    }

    /// The level with number `val`.
    pub fn from_u8(val: u8) -> (r: Result<Self>)
        ensures
            r == spec_qos_from_u8(val),
    {
        match val {
            0 => Ok(QoS::AtMostOnce),
            1 => Ok(QoS::AtLeastOnce),
            _ => Err(Error::InvalidQoS(val)),
        }
    }
}

/// The QoS level with number `val`, or the error for a level that is not supported.
pub open spec fn spec_qos_from_u8(val: u8) -> Result<QoS> {
    if val == 0 {
        Ok(QoS::AtMostOnce)
    } else if val == 1 {
        Ok(QoS::AtLeastOnce)
    } else {
        Err(Error::InvalidQoS(val))
    }
}

/// Decoded MQTT fixed header (first 2-5 bytes of every packet).
#[derive(Debug, Clone, Copy, PartialEq, Eq, Structural)]
pub struct FixedHeader {
    pub packet_type: PacketType,
    pub flags: u8,
    pub remaining_length: u32,
}

/// A CONNECT packet. It has no `Debug` form of its own, as that would show the
/// credentials: format what [`ConnectPacket::redacted`] returns.
#[derive(PartialEq, Eq)]
pub struct ConnectPacket {
    pub protocol_version: u8,
    pub clean_start: bool,
    pub keep_alive: u16,
    pub client_id: String,
    pub username: Option<String>,
    pub password: Option<Vec<u8>>,
    pub properties: Properties,
}

/// What a [`ConnectPacket`] holds.
#[verifier::ext_equal]
pub struct ConnectPacketView {
    pub protocol_version: u8,
    pub clean_start: bool,
    pub keep_alive: u16,
    pub client_id: Seq<char>,
    pub username: Option<Seq<char>>,
    pub password: Option<Seq<u8>>,
    pub properties: Seq<Entry>,
}

/// The characters of an optional string.
pub open spec fn text_view(s: Option<String>) -> Option<Seq<char>> {
    match s {
        Some(text) => Some(text@),
        None => None,
    }
}

/// The bytes of optional data.
pub open spec fn data_view(d: Option<Vec<u8>>) -> Option<Seq<u8>> {
    match d {
        Some(data) => Some(data@),
        None => None,
    }
}

impl View for ConnectPacket {
    type V = ConnectPacketView;

    open spec fn view(&self) -> ConnectPacketView {
        ConnectPacketView {
            protocol_version: self.protocol_version,
            clean_start: self.clean_start,
            keep_alive: self.keep_alive,
            client_id: self.client_id@,
            username: text_view(self.username),
            password: data_view(self.password),
            properties: self.properties@,
        }
    }
}

/// Copy an optional string.
pub fn clone_text(s: &Option<String>) -> (r: Option<String>)
    ensures
        text_view(r) == text_view(*s),
{
    match s {
        Some(text) => Some(text.clone()),
        None => None,
    }
}

/// Copy optional data.
pub fn clone_data(d: &Option<Vec<u8>>) -> (r: Option<Vec<u8>>)
    ensures
        data_view(r) == data_view(*d),
{
    match d {
        Some(data) => Some(data.clone()),
        None => None,
    }
}

impl Clone for ConnectPacket {
    fn clone(&self) -> (r: Self)
        ensures
            r@ == self@,
    {
        ConnectPacket {
            protocol_version: self.protocol_version,
            clean_start: self.clean_start,
            keep_alive: self.keep_alive,
            client_id: self.client_id.clone(),
            username: clone_text(&self.username),
            password: clone_data(&self.password),
            properties: self.properties.clone(),
        }
    }
}

/// A CONNECT packet for display: whether there are credentials, but not which.
#[derive(Debug, PartialEq, Eq)]
pub struct RedactedConnect {
    pub protocol_version: u8,
    pub clean_start: bool,
    pub keep_alive: u16,
    pub client_id: String,
    pub username_set: bool,
    pub password_set: bool,
    pub properties: Properties,
}

/// What a [`RedactedConnect`] holds.
#[verifier::ext_equal]
pub struct RedactedConnectView {
    pub protocol_version: u8,
    pub clean_start: bool,
    pub keep_alive: u16,
    pub client_id: Seq<char>,
    pub username_set: bool,
    pub password_set: bool,
    pub properties: Seq<Entry>,
}

impl View for RedactedConnect {
    type V = RedactedConnectView;

    open spec fn view(&self) -> RedactedConnectView {
        RedactedConnectView {
            protocol_version: self.protocol_version,
            clean_start: self.clean_start,
            keep_alive: self.keep_alive,
            client_id: self.client_id@,
            username_set: self.username_set,
            password_set: self.password_set,
            properties: self.properties@,
        }
    }
}

impl ConnectPacketView {
    /// The packet without the contents of its credentials.
    pub open spec fn redacted(self) -> RedactedConnectView {
        RedactedConnectView {
            protocol_version: self.protocol_version,
            clean_start: self.clean_start,
            keep_alive: self.keep_alive,
            client_id: self.client_id,
            username_set: self.username is Some,
            password_set: self.password is Some,
            properties: self.properties,
        }
    }
}

impl ConnectPacket {
    /// The packet for display, without the contents of its credentials.
    pub fn redacted(&self) -> (r: RedactedConnect)
        ensures
            r@ == self@.redacted(),
    {
        RedactedConnect {
            protocol_version: self.protocol_version,
            clean_start: self.clean_start,
            keep_alive: self.keep_alive,
            client_id: self.client_id.clone(),
            username_set: self.username.is_some(),
            password_set: self.password.is_some(),
            properties: self.properties.clone(),
        }
    }
}

/// What is displayed of a CONNECT packet does not depend on what its credentials are.
pub proof fn redaction_hides_credentials(
    packet: ConnectPacketView,
    username: Option<Seq<char>>,
    password: Option<Seq<u8>>,
)
    requires
        username is Some == packet.username is Some,
        password is Some == packet.password is Some,
    ensures
        (ConnectPacketView { username, password, ..packet }).redacted() == packet.redacted(),
{
}

#[derive(Debug, PartialEq, Eq)]
pub struct ConnAckPacket {
    pub session_present: bool,
    pub reason_code: u8,
    pub properties: Properties,
}

/// What a [`ConnAckPacket`] holds.
#[verifier::ext_equal]
pub struct ConnAckPacketView {
    pub session_present: bool,
    pub reason_code: u8,
    pub properties: Seq<Entry>,
}

impl View for ConnAckPacket {
    type V = ConnAckPacketView;

    open spec fn view(&self) -> ConnAckPacketView {
        ConnAckPacketView {
            session_present: self.session_present,
            reason_code: self.reason_code,
            properties: self.properties@,
        }
    }
}

impl Clone for ConnAckPacket {
    fn clone(&self) -> (r: Self)
        ensures
            r@ == self@,
    {
        ConnAckPacket {
            session_present: self.session_present,
            reason_code: self.reason_code,
            properties: self.properties.clone(),
        }
    }
}

#[derive(Debug, PartialEq, Eq)]
pub struct PublishPacket {
    pub topic: String,
    pub packet_id: Option<u16>,
    pub payload: Vec<u8>,
    pub qos: QoS,
    pub retain: bool,
    pub dup: bool,
    pub properties: Properties,
}

/// What a [`PublishPacket`] holds.
#[verifier::ext_equal]
pub struct PublishPacketView {
    pub topic: Seq<char>,
    pub packet_id: Option<u16>,
    pub payload: Seq<u8>,
    pub qos: QoS,
    pub retain: bool,
    pub dup: bool,
    pub properties: Seq<Entry>,
}

impl View for PublishPacket {
    type V = PublishPacketView;

    open spec fn view(&self) -> PublishPacketView {
        PublishPacketView {
            topic: self.topic@,
            packet_id: self.packet_id,
            payload: self.payload@,
            qos: self.qos,
            retain: self.retain,
            dup: self.dup,
            properties: self.properties@,
        }
    }
}

impl Clone for PublishPacket {
    fn clone(&self) -> (r: Self)
        ensures
            r@ == self@,
    {
        PublishPacket {
            topic: self.topic.clone(),
            packet_id: self.packet_id,
            payload: self.payload.clone(),
            qos: self.qos,
            retain: self.retain,
            dup: self.dup,
            properties: self.properties.clone(),
        }
    }
}

#[derive(Debug, Clone, Copy, PartialEq, Eq, Structural)]
pub struct PubAckPacket {
    pub packet_id: u16,
    pub reason_code: u8,
}

#[derive(Debug, PartialEq, Eq)]
pub struct SubscribePacket {
    pub packet_id: u16,
    pub filters: Vec<(String, QoS)>,
    pub properties: Properties,
}

/// What a [`SubscribePacket`] holds.
#[verifier::ext_equal]
pub struct SubscribePacketView {
    pub packet_id: u16,
    pub filters: Seq<(Seq<char>, QoS)>,
    pub properties: Seq<Entry>,
}

impl View for SubscribePacket {
    type V = SubscribePacketView;

    open spec fn view(&self) -> SubscribePacketView {
        SubscribePacketView {
            packet_id: self.packet_id,
            filters: Seq::new(
                self.filters@.len(),
                |i: int| (self.filters@[i].0@, self.filters@[i].1),
            ),
            properties: self.properties@,
        }
    }
}

impl Clone for SubscribePacket {
    fn clone(&self) -> (r: Self)
        ensures
            r@ == self@,
    {
        let mut filters: Vec<(String, QoS)> = Vec::new();
        let mut i: usize = 0;
        while i < self.filters.len()
            invariant
                i <= self.filters.len(),
                filters.len() == i,
                forall|j: int|
                    0 <= j < i ==> (#[trigger] filters@[j]).0@ == self.filters@[j].0@
                        && filters@[j].1 == self.filters@[j].1,
            decreases self.filters.len() - i,
        {
            filters.push((self.filters[i].0.clone(), self.filters[i].1));
            i += 1;
        }
        let r = SubscribePacket {
            packet_id: self.packet_id,
            filters,
            properties: self.properties.clone(),
        };
        assert(r@.filters =~= self@.filters);
        r
    }
}

#[derive(Debug, PartialEq, Eq)]
pub struct SubAckPacket {
    pub packet_id: u16,
    pub reason_codes: Vec<u8>,
}

/// What a [`SubAckPacket`] or an [`UnsubAckPacket`] holds.
#[verifier::ext_equal]
pub struct AckCodesView {
    pub packet_id: u16,
    pub reason_codes: Seq<u8>,
}

impl View for SubAckPacket {
    type V = AckCodesView;

    open spec fn view(&self) -> AckCodesView {
        AckCodesView { packet_id: self.packet_id, reason_codes: self.reason_codes@ }
    }
}

impl Clone for SubAckPacket {
    fn clone(&self) -> (r: Self)
        ensures
            r@ == self@,
    {
        SubAckPacket { packet_id: self.packet_id, reason_codes: self.reason_codes.clone() }
    }
}

#[derive(Debug, PartialEq, Eq)]
pub struct UnsubscribePacket {
    pub packet_id: u16,
    pub filters: Vec<String>,
    pub properties: Properties,
}

/// What an [`UnsubscribePacket`] holds.
#[verifier::ext_equal]
pub struct UnsubscribePacketView {
    pub packet_id: u16,
    pub filters: Seq<Seq<char>>,
    pub properties: Seq<Entry>,
}

impl View for UnsubscribePacket {
    type V = UnsubscribePacketView;

    open spec fn view(&self) -> UnsubscribePacketView {
        UnsubscribePacketView {
            packet_id: self.packet_id,
            filters: Seq::new(self.filters@.len(), |i: int| self.filters@[i]@),
            properties: self.properties@,
        }
    }
}

impl Clone for UnsubscribePacket {
    fn clone(&self) -> (r: Self)
        ensures
            r@ == self@,
    {
        let mut filters: Vec<String> = Vec::new();
        let mut i: usize = 0;
        while i < self.filters.len()
            invariant
                i <= self.filters.len(),
                filters.len() == i,
                forall|j: int| 0 <= j < i ==> (#[trigger] filters@[j])@ == self.filters@[j]@,
            decreases self.filters.len() - i,
        {
            filters.push(self.filters[i].clone());
            i += 1;
        }
        let r = UnsubscribePacket {
            packet_id: self.packet_id,
            filters,
            properties: self.properties.clone(),
        };
        assert(r@.filters =~= self@.filters);
        r
    }
}

#[derive(Debug, PartialEq, Eq)]
pub struct UnsubAckPacket {
    pub packet_id: u16,
    pub reason_codes: Vec<u8>,
}

impl View for UnsubAckPacket {
    type V = AckCodesView;

    open spec fn view(&self) -> AckCodesView {
        AckCodesView { packet_id: self.packet_id, reason_codes: self.reason_codes@ }
    }
}

impl Clone for UnsubAckPacket {
    fn clone(&self) -> (r: Self)
        ensures
            r@ == self@,
    {
        UnsubAckPacket { packet_id: self.packet_id, reason_codes: self.reason_codes.clone() }
    }
}

#[derive(Debug, Clone, Copy, PartialEq, Eq, Structural)]
pub struct DisconnectPacket {
    pub reason_code: u8,
}

/// A decoded MQTT v5 control packet. Format what [`Packet::redacted`] returns to show one.
#[derive(PartialEq, Eq)]
pub enum Packet {
    Connect(ConnectPacket),
    ConnAck(ConnAckPacket),
    Publish(PublishPacket),
    PubAck(PubAckPacket),
    Subscribe(SubscribePacket),
    SubAck(SubAckPacket),
    Unsubscribe(UnsubscribePacket),
    UnsubAck(UnsubAckPacket),
    PingReq,
    PingResp,
    Disconnect(DisconnectPacket),
}

/// What a [`Packet`] holds.
#[verifier::ext_equal]
pub enum PacketView {
    Connect(ConnectPacketView),
    ConnAck(ConnAckPacketView),
    Publish(PublishPacketView),
    PubAck(PubAckPacket),
    Subscribe(SubscribePacketView),
    SubAck(AckCodesView),
    Unsubscribe(UnsubscribePacketView),
    UnsubAck(AckCodesView),
    PingReq,
    PingResp,
    Disconnect(DisconnectPacket),
}

impl View for Packet {
    type V = PacketView;

    open spec fn view(&self) -> PacketView {
        match *self {
            Packet::Connect(p) => PacketView::Connect(p@),
            Packet::ConnAck(p) => PacketView::ConnAck(p@),
            Packet::Publish(p) => PacketView::Publish(p@),
            Packet::PubAck(p) => PacketView::PubAck(p),
            Packet::Subscribe(p) => PacketView::Subscribe(p@),
            Packet::SubAck(p) => PacketView::SubAck(p@),
            Packet::Unsubscribe(p) => PacketView::Unsubscribe(p@),
            Packet::UnsubAck(p) => PacketView::UnsubAck(p@),
            Packet::PingReq => PacketView::PingReq,
            Packet::PingResp => PacketView::PingResp,
            Packet::Disconnect(p) => PacketView::Disconnect(p),
        }
    }
}

impl Clone for Packet {
    fn clone(&self) -> (r: Self)
        ensures
            r@ == self@,
    {
        match self {
            Packet::Connect(p) => Packet::Connect(p.clone()),
            Packet::ConnAck(p) => Packet::ConnAck(p.clone()),
            Packet::Publish(p) => Packet::Publish(p.clone()),
            Packet::PubAck(p) => Packet::PubAck(*p),
            Packet::Subscribe(p) => Packet::Subscribe(p.clone()),
            Packet::SubAck(p) => Packet::SubAck(p.clone()),
            Packet::Unsubscribe(p) => Packet::Unsubscribe(p.clone()),
            Packet::UnsubAck(p) => Packet::UnsubAck(p.clone()),
            Packet::PingReq => Packet::PingReq,
            Packet::PingResp => Packet::PingResp,
            Packet::Disconnect(p) => Packet::Disconnect(*p),
        }
    }
}

/// A packet for display: credentials are left out.
#[derive(Debug, PartialEq, Eq)]
pub enum RedactedPacket {
    Connect(RedactedConnect),
    ConnAck(ConnAckPacket),
    Publish(PublishPacket),
    PubAck(PubAckPacket),
    Subscribe(SubscribePacket),
    SubAck(SubAckPacket),
    Unsubscribe(UnsubscribePacket),
    UnsubAck(UnsubAckPacket),
    PingReq,
    PingResp,
    Disconnect(DisconnectPacket),
}

impl Packet {
    /// The packet for display, without the contents of its credentials.
    pub fn redacted(&self) -> (r: RedactedPacket)
        ensures
            match *self {
                Packet::Connect(p) => r matches RedactedPacket::Connect(q) && q@ == p@.redacted(),
                Packet::ConnAck(p) => r matches RedactedPacket::ConnAck(q) && q@ == p@,
                Packet::Publish(p) => r matches RedactedPacket::Publish(q) && q@ == p@,
                Packet::PubAck(p) => r == RedactedPacket::PubAck(p),
                Packet::Subscribe(p) => r matches RedactedPacket::Subscribe(q) && q@ == p@,
                Packet::SubAck(p) => r matches RedactedPacket::SubAck(q) && q@ == p@,
                Packet::Unsubscribe(p) => r matches RedactedPacket::Unsubscribe(q) && q@ == p@,
                Packet::UnsubAck(p) => r matches RedactedPacket::UnsubAck(q) && q@ == p@,
                Packet::PingReq => r == RedactedPacket::PingReq,
                Packet::PingResp => r == RedactedPacket::PingResp,
                Packet::Disconnect(p) => r == RedactedPacket::Disconnect(p),
            },
    {
        match self {
            Packet::Connect(p) => RedactedPacket::Connect(p.redacted()),
            Packet::ConnAck(p) => RedactedPacket::ConnAck(p.clone()),
            Packet::Publish(p) => RedactedPacket::Publish(p.clone()),
            Packet::PubAck(p) => RedactedPacket::PubAck(*p),
            Packet::Subscribe(p) => RedactedPacket::Subscribe(p.clone()),
            Packet::SubAck(p) => RedactedPacket::SubAck(p.clone()),
            Packet::Unsubscribe(p) => RedactedPacket::Unsubscribe(p.clone()),
            Packet::UnsubAck(p) => RedactedPacket::UnsubAck(p.clone()),
            Packet::PingReq => RedactedPacket::PingReq,
            Packet::PingResp => RedactedPacket::PingResp,
            Packet::Disconnect(p) => RedactedPacket::Disconnect(*p),
        }
    }
}

} // verus!
