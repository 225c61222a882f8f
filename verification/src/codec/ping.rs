//! PINGREQ, PINGRESP and DISCONNECT packets.
use vstd::prelude::*;

use crate::codec::decode::Cursor;
use crate::codec::encode::{frame_packet, framed, gives};
use crate::codec::properties::{Properties, PropertyContext};
use crate::codec::publish::tail_check;
use crate::codec::types::{DisconnectPacket, PacketType};
use crate::error::{Error, Result};

verus! {

pub const PINGREQ_BYTES: [u8; 2] = [0xC0, 0x00];

pub const PINGRESP_BYTES: [u8; 2] = [0xD0, 0x00];

/// Whether `code` is a reason code of a DISCONNECT packet.
pub open spec fn disconnect_reason_code(code: u8) -> bool {
    code == 0x00 || code == 0x04 || 0x80 <= code <= 0x83 || code == 0x87 || code == 0x89 || code
        == 0x8B || 0x8D <= code <= 0x90 || 0x93 <= code <= 0xA2
}

fn is_disconnect_reason_code(code: u8) -> (r: bool)
    ensures
        r == disconnect_reason_code(code),
{
    matches!(
        code,
        0x00 | 0x04 | 0x80 | 0x81 | 0x82 | 0x83 | 0x87 | 0x89 | 0x8B | 0x8D | 0x8E | 0x8F | 0x90
            | 0x93 | 0x94 | 0x95 | 0x96 | 0x97 | 0x98 | 0x99 | 0x9A | 0x9B | 0x9C | 0x9D | 0x9E
            | 0x9F | 0xA0 | 0xA1 | 0xA2
    )
}

/// The body of a DISCONNECT packet: the reason code of a normal disconnect is left out.
pub open spec fn disconnect_body(p: DisconnectPacket) -> Seq<u8> {
    if p.reason_code == 0 {
        Seq::empty()
    } else {
        seq![p.reason_code]
    }
}

/// A DISCONNECT packet on the wire, or what is wrong with it.
pub open spec fn encoded_disconnect(p: DisconnectPacket) -> Result<Seq<u8>> {
    if !disconnect_reason_code(p.reason_code) {
        Err(Error::InvalidReasonCode(p.reason_code))
    } else {
        framed(PacketType::Disconnect, 0, disconnect_body(p))
    }
}

/// The DISCONNECT packet with this body, or what is wrong with it.
pub open spec fn disconnect_of(body: Seq<u8>) -> Result<DisconnectPacket> {
    let reason_code = if body.len() > 0 {
        body[0]
    } else {
        0
    };
    if !disconnect_reason_code(reason_code) {
        Err(Error::InvalidReasonCode(reason_code))
    } else {
        match tail_check(
            body,
            1,
            PropertyContext::Disconnect,
            Error::MalformedPacket("trailing DISCONNECT bytes"),
        ) {
            Err(e) => Err(e),
            Ok(_) => Ok(DisconnectPacket { reason_code }),
        }
    }
}

impl DisconnectPacket {
    pub fn encode(&self) -> (r: Result<Vec<u8>>)
        ensures
            gives(r, encoded_disconnect(*self)),
    {
        if !is_disconnect_reason_code(self.reason_code) {
            return Err(Error::InvalidReasonCode(self.reason_code));
        }
        let mut body: Vec<u8> = Vec::new();
        // Normal disconnect: empty body is valid
        if self.reason_code != 0x00 {
            body.push(self.reason_code);
        }
        assert(body@ =~= disconnect_body(*self));
        frame_packet(PacketType::Disconnect, 0, &body)
    }

    pub fn decode(body: &[u8]) -> (r: Result<Self>)
        ensures
            r == disconnect_of(body@),
    {
        let mut cur = Cursor::new(body);
        let reason_code: u8 = if body.is_empty() {
            0x00
        } else {
            cur.read_u8()?
        };
        if !is_disconnect_reason_code(reason_code) {
            return Err(Error::InvalidReasonCode(reason_code));
        }
        if cur.remaining() > 0 {
            Properties::decode_for(&mut cur, PropertyContext::Disconnect)?;
        }
        if cur.remaining() != 0 {
            return Err(Error::MalformedPacket("trailing DISCONNECT bytes"));
        }
        Ok(DisconnectPacket { reason_code })
    }
}

/// Decoding the body of an encoded DISCONNECT packet gives back the packet.
pub proof fn disconnect_round_trip(p: DisconnectPacket)
    requires
        encoded_disconnect(p) is Ok,
    ensures
        disconnect_of(disconnect_body(p)) == Ok::<DisconnectPacket, Error>(p),
{
}

} // verus!
