//! PUBLISH and PUBACK packets.
use vstd::prelude::*;
use vstd::slice::slice_to_vec;

use crate::codec::decode::{
    stands_at, string_round_trip, take_string, take_u16, u16_round_trip, Cursor,
};
use crate::codec::encode::{
    both, encode_string, encode_u16, encoded_string, frame_packet, framed, gives, u16_bytes,
};
use crate::codec::properties::{
    encoded_properties, properties_round_trip, take_properties, Entry,
    Properties, PropertyContext,
};
use crate::codec::topic::{topic_name_check, validate_topic_name};
use crate::codec::types::{
    spec_qos_from_u8, PacketType, PubAckPacket, PublishPacket, PublishPacketView, QoS,
};
use crate::error::{Error, Result};

verus! {

/// Whether the packet identifier suits the QoS level: none at level 0, a non-zero one at
/// level 1.
pub open spec fn packet_id_check(qos: QoS, packet_id: Option<u16>) -> Result<()> {
    match qos {
        QoS::AtMostOnce => if packet_id is Some {
            Err(Error::MalformedPacket("QoS 0 PUBLISH has packet identifier"))
        } else {
            Ok(())
        },
        QoS::AtLeastOnce => if packet_id is None || packet_id == Some(0u16) {
            Err(Error::MalformedPacket("QoS 1 PUBLISH needs non-zero packet identifier"))
        } else {
            Ok(())
        },
    }
}

/// The packet identifier on the wire.
pub open spec fn packet_id_bytes(packet_id: Option<u16>) -> Seq<u8> {
    match packet_id {
        Some(id) => u16_bytes(id),
        None => Seq::empty(),
    }
}

/// The flag bits of a PUBLISH packet: DUP(3) QoS(2-1) RETAIN(0).
pub open spec fn publish_flags(p: PublishPacketView) -> u8 {
    ((if p.dup {
        8int
    } else {
        0
    }) + 2 * p.qos.spec_code() + (if p.retain {
        1int
    } else {
        0
    })) as u8
}

/// The body of a PUBLISH packet.
pub open spec fn publish_body(p: PublishPacketView) -> Result<Seq<u8>> {
    both(
        both(
            both(encoded_string(p.topic), Ok(packet_id_bytes(p.packet_id))),
            encoded_properties(p.properties, Some(PropertyContext::Publish)),
        ),
        Ok(p.payload),
    )
}

/// A PUBLISH packet on the wire, or the first thing that is wrong with it.
pub open spec fn encoded_publish(p: PublishPacketView) -> Result<Seq<u8>> {
    if packet_id_check(p.qos, p.packet_id) is Err {
        Err(packet_id_check(p.qos, p.packet_id)->Err_0)
    } else if topic_name_check(p.topic) is Err {
        Err(topic_name_check(p.topic)->Err_0)
    } else {
        match publish_body(p) {
            Err(e) => Err(e),
            Ok(body) => framed(PacketType::Publish, publish_flags(p), body),
        }
    }
}

/// The packet identifier at `pos` of a PUBLISH packet of this QoS level, and the position
/// behind it.
pub open spec fn take_packet_id(body: Seq<u8>, pos: int, qos: QoS) -> (Result<Option<u16>>, int) {
    match qos {
        QoS::AtMostOnce => (Ok(None), pos),
        QoS::AtLeastOnce => match take_u16(body, pos) {
            (Err(e), at) => (Err(e), at),
            (Ok(id), at) => if id == 0 {
                (Err(Error::MalformedPacket("PUBLISH packet identifier is zero")), at)
            } else {
                (Ok(Some(id)), at)
            },
        },
    }
}

/// The PUBLISH packet with these flags and this body, or what is wrong with it.
pub open spec fn publish_of(flags: u8, body: Seq<u8>) -> Result<PublishPacketView> {
    match spec_qos_from_u8(((flags / 2) % 4) as u8) {
        Err(e) => Err(e),
        Ok(qos) => match take_string(body, 0) {
            (Err(e), _) => Err(e),
            (Ok(topic), at) => if topic_name_check(topic) is Err {
                Err(topic_name_check(topic)->Err_0)
            } else {
                match take_packet_id(body, at, qos) {
                    (Err(e), _) => Err(e),
                    (Ok(packet_id), at) => match take_properties(
                        body,
                        at,
                        Some(PropertyContext::Publish),
                    ) {
                        (Err(e), _) => Err(e),
                        (Ok(properties), at) => Ok(
                            PublishPacketView {
                                topic,
                                packet_id,
                                payload: body.skip(at),
                                qos,
                                retain: flags % 2 == 1,
                                dup: (flags / 8) % 2 == 1,
                                properties,
                            },
                        ),
                    },
                }
            },
        },
    }
}

impl PublishPacket {
    pub fn encode(&self) -> (r: Result<Vec<u8>>)
        ensures
            gives(r, encoded_publish(self@)),
    {
        match (self.qos, self.packet_id) {
            (QoS::AtMostOnce, None) => {},
            (QoS::AtMostOnce, Some(_)) => {
                return Err(Error::MalformedPacket("QoS 0 PUBLISH has packet identifier"));
            },
            (QoS::AtLeastOnce, Some(0)) | (QoS::AtLeastOnce, None) => {
                return Err(
                    Error::MalformedPacket("QoS 1 PUBLISH needs non-zero packet identifier"),
                );
            },
            (QoS::AtLeastOnce, Some(_)) => {},
        }
        let mut body: Vec<u8> = Vec::new();
        // Variable header: topic name
        validate_topic_name(self.topic.as_str())?;
        encode_string(&mut body, self.topic.as_str())?;
        // Packet ID (only for QoS 1)
        if let Some(id) = self.packet_id {
            encode_u16(&mut body, id);
        }
        assert(body@ =~= encoded_string(self@.topic)->Ok_0 + packet_id_bytes(self@.packet_id));
        // Properties (v5)
        self.properties.encode_for(&mut body, PropertyContext::Publish)?;
        // Payload
        body.extend_from_slice(&self.payload);
        assert(body@ =~= publish_body(self@)->Ok_0);
        // Fixed header flags: DUP(3) QoS(2-1) RETAIN(0)
        let mut flags: u8 = self.qos.code() * 2;
        if self.dup {
            flags += 8;
        }
        if self.retain {
            flags += 1;
        }
        frame_packet(PacketType::Publish, flags, &body)
    }

    pub fn decode(flags: u8, body: &[u8]) -> (r: Result<Self>)
        ensures
            match publish_of(flags, body@) {
                Ok(view) => r matches Ok(packet) && packet@ == view,
                Err(e) => r == Err::<Self, _>(e),
            },
    {
        let mut cur = Cursor::new(body);
        let dup = (flags / 8) % 2 == 1;
        let qos = QoS::from_u8((flags / 2) % 4)?;
        let retain = flags % 2 == 1;
        let topic = cur.read_string()?;
        validate_topic_name(topic.as_str())?;
        let packet_id: Option<u16> = if qos != QoS::AtMostOnce {
            let packet_id: u16 = cur.read_u16()?;
            if packet_id == 0 {
                return Err(Error::MalformedPacket("PUBLISH packet identifier is zero"));
            }
            Some(packet_id)
        } else {
            None
        };
        let properties = Properties::decode_for(&mut cur, PropertyContext::Publish)?;
        let payload = slice_to_vec(cur.remaining_bytes());
        Ok(PublishPacket { topic, packet_id, payload, qos, retain, dup, properties })
    }
}

/// Whether `code` is a reason code of a PUBACK packet.
pub open spec fn puback_reason_code(code: u8) -> bool {
    code == 0x00 || code == 0x10 || code == 0x80 || code == 0x83 || code == 0x87 || code == 0x90
        || code == 0x91 || code == 0x97 || code == 0x99
}

fn is_puback_reason_code(code: u8) -> (r: bool)
    ensures
        r == puback_reason_code(code),
{
    matches!(code, 0x00 | 0x10 | 0x80 | 0x83 | 0x87 | 0x90 | 0x91 | 0x97 | 0x99)
}

/// The body of a PUBACK packet: a reason code of success is left out.
pub open spec fn puback_body(p: PubAckPacket) -> Seq<u8> {
    if p.reason_code == 0 {
        u16_bytes(p.packet_id)
    } else {
        u16_bytes(p.packet_id).push(p.reason_code)
    }
}

/// A PUBACK packet on the wire, or what is wrong with it.
pub open spec fn encoded_puback(p: PubAckPacket) -> Result<Seq<u8>> {
    if p.packet_id == 0 {
        Err(Error::MalformedPacket("PUBACK packet identifier is zero"))
    } else if !puback_reason_code(p.reason_code) {
        Err(Error::InvalidReasonCode(p.reason_code))
    } else {
        framed(PacketType::PubAck, 0, puback_body(p))
    }
}

/// What stands at `pos`, behind a packet's reason code: properties that this packet type
/// may carry, up to the end, or nothing.
pub open spec fn tail_check(
    body: Seq<u8>,
    pos: int,
    context: PropertyContext,
    trailing: Error,
) -> Result<()> {
    if pos >= body.len() {
        Ok(())
    } else {
        match take_properties(body, pos, Some(context)) {
            (Err(e), _) => Err(e),
            (Ok(_), at) => if at != body.len() {
                Err(trailing)
            } else {
                Ok(())
            },
        }
    }
}

/// The PUBACK packet with this body, or what is wrong with it.
pub open spec fn puback_of(body: Seq<u8>) -> Result<PubAckPacket> {
    match take_u16(body, 0) {
        (Err(e), _) => Err(e),
        (Ok(packet_id), _) => {
            let reason_code = if body.len() > 2 {
                body[2]
            } else {
                0
            };
            if packet_id == 0 {
                Err(Error::MalformedPacket("PUBACK packet identifier is zero"))
            } else if !puback_reason_code(reason_code) {
                Err(Error::InvalidReasonCode(reason_code))
            } else {
                match tail_check(
                    body,
                    3,
                    PropertyContext::PubAck,
                    Error::MalformedPacket("trailing PUBACK bytes"),
                ) {
                    Err(e) => Err(e),
                    Ok(_) => Ok(PubAckPacket { packet_id, reason_code }),
                }
            }
        },
    }
}

impl PubAckPacket {
    pub fn encode(&self) -> (r: Result<Vec<u8>>)
        ensures
            gives(r, encoded_puback(*self)),
    {
        if self.packet_id == 0 {
            return Err(Error::MalformedPacket("PUBACK packet identifier is zero"));
        }
        if !is_puback_reason_code(self.reason_code) {
            return Err(Error::InvalidReasonCode(self.reason_code));
        }
        let mut body: Vec<u8> = Vec::new();
        encode_u16(&mut body, self.packet_id);
        // A reason code of success is left out.
        if self.reason_code != 0x00 {
            body.push(self.reason_code);
        }
        assert(body@ =~= puback_body(*self));
        frame_packet(PacketType::PubAck, 0, &body)
    }

    pub fn decode(body: &[u8]) -> (r: Result<Self>)
        ensures
            r == puback_of(body@),
    {
        let mut cur = Cursor::new(body);
        let packet_id: u16 = cur.read_u16()?;
        if packet_id == 0 {
            return Err(Error::MalformedPacket("PUBACK packet identifier is zero"));
        }
        let reason_code: u8 = if cur.remaining() > 0 {
            cur.read_u8()?
        } else {
            0x00
        };
        if !is_puback_reason_code(reason_code) {
            return Err(Error::InvalidReasonCode(reason_code));
        }
        if cur.remaining() > 0 {
            Properties::decode_for(&mut cur, PropertyContext::PubAck)?;
        }
        if cur.remaining() != 0 {
            return Err(Error::MalformedPacket("trailing PUBACK bytes"));
        }
        Ok(PubAckPacket { packet_id, reason_code })
    }
}

proof fn publish_flags_round_trip(p: PublishPacketView)
    ensures
        publish_flags(p) <= 15,
        spec_qos_from_u8(((publish_flags(p) / 2) % 4) as u8) == Ok::<QoS, Error>(p.qos),
        (publish_flags(p) % 2 == 1) == p.retain,
        ((publish_flags(p) / 8) % 2 == 1) == p.dup,
{
}

proof fn publish_parts_stand(
    topic: Seq<u8>,
    id: Seq<u8>,
    properties: Seq<u8>,
    payload: Seq<u8>,
)
    ensures
        stands_at(topic + id + properties + payload, 0, topic),
        stands_at(topic + id + properties + payload, topic.len() as int, id),
        stands_at(topic + id + properties + payload, (topic.len() + id.len()) as int, properties),
        (topic + id + properties + payload).skip(
            (topic.len() + id.len() + properties.len()) as int,
        ) == payload,
{
    let body = topic + id + properties + payload;
    assert(body.subrange(0, topic.len() as int) =~= topic);
    assert(body.subrange(topic.len() as int, (topic.len() + id.len()) as int) =~= id);
    assert(body.subrange(
        (topic.len() + id.len()) as int,
        (topic.len() + id.len() + properties.len()) as int,
    ) =~= properties);
    assert(body.skip((topic.len() + id.len() + properties.len()) as int) =~= payload);
}

/// Decoding the body of an encoded PUBLISH packet gives back the packet.
pub proof fn publish_round_trip(p: PublishPacketView)
    requires
        encoded_publish(p) is Ok,
    ensures
        publish_flags(p) <= 15,
        publish_of(publish_flags(p), publish_body(p)->Ok_0) == Ok::<PublishPacketView, Error>(p),
{
    let context = Some(PropertyContext::Publish);
    let topic = encoded_string(p.topic)->Ok_0;
    let id = packet_id_bytes(p.packet_id);
    let properties = encoded_properties(p.properties, context)->Ok_0;
    let body = publish_body(p)->Ok_0;
    assert(body == topic + id + properties + p.payload);
    publish_flags_round_trip(p);
    publish_parts_stand(topic, id, properties, p.payload);
    assert(take_string(body, 0) == (Ok::<Seq<char>, Error>(p.topic), topic.len() as int)) by {
        string_round_trip(body, 0, p.topic);
    }
    assert(take_packet_id(body, topic.len() as int, p.qos) == (
        Ok::<Option<u16>, Error>(p.packet_id),
        (topic.len() + id.len()) as int,
    )) by {
        if let Some(value) = p.packet_id {
            u16_round_trip(body, topic.len() as int, value);
        }
    }
    assert(take_properties(body, (topic.len() + id.len()) as int, context) == (
        Ok::<Seq<Entry>, Error>(p.properties),
        (topic.len() + id.len() + properties.len()) as int,
    )) by {
        properties_round_trip(body, (topic.len() + id.len()) as int, context, p.properties);
    }
}

/// Decoding the body of an encoded PUBACK packet gives back the packet.
pub proof fn puback_round_trip(p: PubAckPacket)
    requires
        encoded_puback(p) is Ok,
    ensures
        puback_of(puback_body(p)) == Ok::<PubAckPacket, Error>(p),
{
    let body = puback_body(p);
    assert(body.subrange(0, 2) =~= u16_bytes(p.packet_id));
    u16_round_trip(body, 0, p.packet_id);
}

} // verus!
