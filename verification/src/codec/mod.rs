//! The MQTT v5 packet codec.
pub mod acceptance;
pub mod broker;
pub mod connect;
pub mod decode;
pub mod encode;
pub mod layout;
pub mod ping;
pub mod properties;
pub mod publish;
pub mod subscribe;
pub mod topic;
pub mod types;

use vstd::prelude::*;

use crate::codec::connect::connack_of;
use crate::codec::decode::{flags_allowed, validate_fixed_header};
use crate::codec::ping::disconnect_of;
use crate::codec::publish::{puback_of, publish_of};
use crate::codec::subscribe::{suback_of, unsuback_of};
use crate::codec::types::{
    ConnAckPacket, DisconnectPacket, FixedHeader, Packet, PacketType, PacketView, PubAckPacket,
    PublishPacket, SubAckPacket, UnsubAckPacket,
};
use crate::error::{Error, Result};

verus! {

/// The packet with this fixed header and body, or what is wrong with it.
pub open spec fn packet_of(header: FixedHeader, body: Seq<u8>) -> Result<PacketView> {
    if !flags_allowed(header) {
        Err(Error::MalformedPacket("invalid fixed-header flags"))
    } else if body.len() != header.remaining_length {
        Err(Error::MalformedPacket("body length does not match header"))
    } else {
        match header.packet_type {
            PacketType::ConnAck => match connack_of(body) {
                Ok(p) => Ok(PacketView::ConnAck(p)),
                Err(e) => Err(e),
            },
            PacketType::Publish => match publish_of(header.flags, body) {
                Ok(p) => Ok(PacketView::Publish(p)),
                Err(e) => Err(e),
            },
            PacketType::PubAck => match puback_of(body) {
                Ok(p) => Ok(PacketView::PubAck(p)),
                Err(e) => Err(e),
            },
            PacketType::SubAck => match suback_of(body) {
                Ok(p) => Ok(PacketView::SubAck(p)),
                Err(e) => Err(e),
            },
            PacketType::UnsubAck => match unsuback_of(body) {
                Ok(p) => Ok(PacketView::UnsubAck(p)),
                Err(e) => Err(e),
            },
            PacketType::PingResp => if body.len() == 0 {
                Ok(PacketView::PingResp)
            } else {
                Err(Error::MalformedPacket("PINGRESP body must be empty"))
            },
            PacketType::Disconnect => match disconnect_of(body) {
                Ok(p) => Ok(PacketView::Disconnect(p)),
                Err(e) => Err(e),
            },
            PacketType::PingReq => if body.len() == 0 {
                Ok(PacketView::PingReq)
            } else {
                Err(Error::MalformedPacket("PINGREQ body must be empty"))
            },
            PacketType::PubRec | PacketType::PubRel | PacketType::PubComp => Err(
                Error::UnexpectedPacket("QoS 2 not supported"),
            ),
            PacketType::Auth => Err(Error::UnexpectedPacket("AUTH not supported")),
            PacketType::Connect | PacketType::Subscribe | PacketType::Unsubscribe => Err(
                Error::UnexpectedPacket("client-to-server packet type"),
            ),
        }
    }
}

impl Packet {
    /// Decode a packet from its fixed header and body bytes.
    pub fn decode(header: FixedHeader, body: &[u8]) -> (r: Result<Self>)
        ensures
            match packet_of(header, body@) {
                Ok(view) => r matches Ok(packet) && packet@ == view,
                Err(e) => r == Err::<Self, _>(e),
            },
    {
        validate_fixed_header(header)?;
        if body.len() != header.remaining_length as usize {
            return Err(Error::MalformedPacket("body length does not match header"));
        }
        match header.packet_type {
            PacketType::ConnAck => Ok(Packet::ConnAck(ConnAckPacket::decode(body)?)),
            PacketType::Publish => Ok(Packet::Publish(PublishPacket::decode(header.flags, body)?)),
            PacketType::PubAck => Ok(Packet::PubAck(PubAckPacket::decode(body)?)),
            PacketType::SubAck => Ok(Packet::SubAck(SubAckPacket::decode(body)?)),
            PacketType::UnsubAck => Ok(Packet::UnsubAck(UnsubAckPacket::decode(body)?)),
            PacketType::PingResp => {
                if body.is_empty() {
                    Ok(Packet::PingResp)
                } else {
                    Err(Error::MalformedPacket("PINGRESP body must be empty"))
                }
            },
            PacketType::Disconnect => Ok(Packet::Disconnect(DisconnectPacket::decode(body)?)),
            PacketType::PingReq => {
                if body.is_empty() {
                    Ok(Packet::PingReq)
                } else {
                    Err(Error::MalformedPacket("PINGREQ body must be empty"))
                }
            },
            // QoS 2 packets - not implemented but must be recognized to avoid
            // crashing the connection if a broker sends them.
            PacketType::PubRec | PacketType::PubRel | PacketType::PubComp => {
                Err(Error::UnexpectedPacket("QoS 2 not supported"))
            },
            // Enhanced authentication - not implemented.
            PacketType::Auth => Err(Error::UnexpectedPacket("AUTH not supported")),
            // Client-to-server only; we shouldn't receive them.
            PacketType::Connect | PacketType::Subscribe | PacketType::Unsubscribe => {
                Err(Error::UnexpectedPacket("client-to-server packet type"))
            },
        }
    }
}

} // verus!
