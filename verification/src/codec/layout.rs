//! Where things stand in a packet, in plain numbers: what any other implementation of the
//! protocol relies on.
use vstd::prelude::*;
use vstd::utf8::encode_utf8;

use crate::async_client::model::{goodbye, subscribe_packet, unsubscribe_packet};
use crate::codec::connect::{connack_reason_code, connect_body, encoded_connect};
use crate::codec::encode::{encoded_length, framed, u16_bytes, u32_bytes, variable_int_bytes};
use crate::codec::ping::{disconnect_reason_code, PINGREQ_BYTES, PINGRESP_BYTES};
use crate::codec::properties::{
    encoded_entries, encoded_entry, encoded_properties, Entry, PropertyContext, PropertyId,
    PropertyValueView,
};
use crate::codec::publish::{
    encoded_puback, encoded_publish, puback_reason_code, publish_body, publish_flags,
};
use crate::codec::subscribe::{
    encoded_filters, encoded_subscribe, encoded_subscriptions, encoded_unsubscribe,
    id_and_properties, suback_reason_code, unsuback_reason_code,
};
use crate::codec::types::{ConnectPacketView, PacketType, PubAckPacket, PublishPacketView, QoS};

verus! {

/// The number that groups of seven bits stand for, the least significant first.
pub open spec fn base128(groups: Seq<u8>) -> nat
    decreases groups.len(),
{
    if groups.len() == 0 {
        0
    } else {
        (groups[0] % 128) as nat + 128 * base128(groups.skip(1))
    }
}

/// A length is written in groups of seven bits, the least significant first: the last group
/// is below 128, each other one is marked by 128, and none is written in vain.
pub proof fn lengths_are_base_128(v: nat)
    ensures
        base128(variable_int_bytes(v)) == v,
        variable_int_bytes(v).len() > 0,
        variable_int_bytes(v).last() < 128,
        variable_int_bytes(v).last() == 0 ==> v == 0 && variable_int_bytes(v).len() == 1,
        forall|i: int|
            0 <= i < variable_int_bytes(v).len() - 1 ==> #[trigger] variable_int_bytes(v)[i] >= 128,
    decreases v,
{
    reveal_with_fuel(base128, 2);
    let bytes = variable_int_bytes(v);
    if v >= 128 {
        let rest = variable_int_bytes(v / 128);
        lengths_are_base_128(v / 128);
        assert(bytes.skip(1) =~= rest);
        assert forall|i: int| 0 <= i < bytes.len() - 1 implies #[trigger] bytes[i] >= 128 by {
            if i > 0 {
                assert(bytes[i] == rest[i - 1]);
            }
        }
    }
}

/// Numbers of two and of four bytes are written with the most significant byte first.
pub proof fn numbers_are_big_endian(short: u16, long: u32)
    ensures
        u16_bytes(short).len() == 2,
        short == u16_bytes(short)[0] * 256 + u16_bytes(short)[1],
        u32_bytes(long).len() == 4,
        long == u32_bytes(long)[0] * 16_777_216 + u32_bytes(long)[1] * 65_536 + u32_bytes(
            long,
        )[2] * 256 + u32_bytes(long)[3],
{
}

/// Whether these bytes are a packet with this first byte and this body, behind its length.
pub open spec fn is_packet(bytes: Seq<u8>, first: int, body: Seq<u8>) -> bool {
    exists|length: Seq<u8>|
        bytes == seq![first as u8] + length + body && #[trigger] base128(length) == body.len()
            && 1 <= length.len() <= 4
}

/// Whether `data` stands at `at`, behind its length in two bytes.
pub open spec fn field_at(bytes: Seq<u8>, at: int, data: Seq<u8>) -> bool {
    &&& at + 2 + data.len() <= bytes.len()
    &&& bytes[at] * 256 + bytes[at + 1] == data.len()
    &&& bytes.subrange(at + 2, at + 2 + data.len()) == data
}

proof fn framed_is_packet(packet_type: PacketType, flags: u8, body: Seq<u8>, first: int)
    requires
        flags < 16,
        first == packet_type.spec_code() * 16 + flags,
        0 <= first < 256,
    ensures
        framed(packet_type, flags, body) matches Ok(bytes) ==> is_packet(bytes, first, body),
{
    if let Ok(bytes) = framed(packet_type, flags, body) {
        let length = variable_int_bytes(body.len());
        lengths_are_base_128(body.len());
        reveal_with_fuel(variable_int_bytes, 5);
        assert(encoded_length(body.len())->Ok_0 == length);
        assert(bytes =~= seq![first as u8] + length + body);
    }
}

/// Whether the body of a PUBLISH packet is the topic behind its length, at QoS 1 the packet
/// identifier, the properties, and up to the end the payload.
pub open spec fn is_publish_body(body: Seq<u8>, p: PublishPacketView) -> bool {
    let at = 2 + encode_utf8(p.topic).len() as int;
    &&& field_at(body, 0, encode_utf8(p.topic))
    &&& encoded_properties(p.properties, Some(PropertyContext::Publish)) matches Ok(properties)
        && match p.qos {
        QoS::AtMostOnce => {
            &&& p.packet_id is None
            &&& body.skip(at) == properties + p.payload
        },
        QoS::AtLeastOnce => {
            &&& p.packet_id matches Some(id) && id > 0 && body[at] * 256 + body[at + 1] == id
            &&& body.skip(at + 2) == properties + p.payload
        },
    }
}

/// The first byte of a PUBLISH packet: 48, and 8 more for a duplicate, 2 more at QoS 1, and 1
/// more where it is to be retained.
pub open spec fn publish_first_byte(p: PublishPacketView) -> int {
    48 + (if p.dup {
        8int
    } else {
        0
    }) + (match p.qos {
        QoS::AtMostOnce => 0int,
        QoS::AtLeastOnce => 2,
    }) + (if p.retain {
        1int
    } else {
        0
    })
}

/// Where things stand in a PUBLISH packet.
pub proof fn publish_layout(p: PublishPacketView)
    ensures
        encoded_publish(p) matches Ok(bytes) ==> exists|body: Seq<u8>|
            #[trigger] is_packet(bytes, publish_first_byte(p), body) && is_publish_body(body, p),
{
    if let Ok(bytes) = encoded_publish(p) {
        let body = publish_body(p)->Ok_0;
        let properties = encoded_properties(
            p.properties,
            Some(PropertyContext::Publish),
        )->Ok_0;
        framed_is_packet(PacketType::Publish, publish_flags(p), body, publish_first_byte(p));
        let topic = encode_utf8(p.topic);
        let at = 2 + topic.len() as int;
        assert(body.subrange(2, 2 + topic.len() as int) =~= topic);
        if p.qos == QoS::AtMostOnce {
            assert(body.skip(at) =~= properties + p.payload);
        } else {
            assert(body.skip(at + 2) =~= properties + p.payload);
        }
        assert(is_packet(bytes, publish_first_byte(p), body));
    }
}

/// The flags of a CONNECT packet: 2 for a clean start, 64 more where a password follows, and
/// 128 more where a user name does.
pub open spec fn connect_flags_byte(p: ConnectPacketView) -> int {
    (if p.clean_start {
        2int
    } else {
        0
    }) + (if p.password is Some {
        64int
    } else {
        0
    }) + (if p.username is Some {
        128int
    } else {
        0
    })
}

/// A CONNECT packet starts with 16. Its body starts with the name `MQTT` behind its length,
/// the version 5, the flags and the keep-alive time.
pub proof fn connect_layout(p: ConnectPacketView)
    ensures
        encoded_connect(p) matches Ok(bytes) ==> exists|body: Seq<u8>|
            #[trigger] is_packet(bytes, 16, body) && {
                &&& body.len() > 10
                &&& field_at(body, 0, seq![77u8, 81u8, 84u8, 84u8])
                &&& body[6] == 5
                &&& body[7] == connect_flags_byte(p)
                &&& body[8] * 256 + body[9] == p.keep_alive
            },
{
    if let Ok(bytes) = encoded_connect(p) {
        let body = connect_body(p)->Ok_0;
        framed_is_packet(PacketType::Connect, 0, body, 16);
        assert(body.subrange(2, 6) =~= seq![77u8, 81u8, 84u8, 84u8]);
        lengths_are_base_128(
            encoded_entries(
                p.properties,
                p.properties.len(),
                Some(PropertyContext::Connect),
            )->Ok_0.len(),
        );
        assert(is_packet(bytes, 16, body));
    }
}

/// A SUBSCRIBE packet starts with 130, and for one filter without properties its body is the
/// packet identifier, a zero, the filter behind its length, and the byte of the QoS level.
pub proof fn subscribe_layout(id: u16, filter: Seq<char>, qos: QoS)
    ensures
        encoded_subscribe(subscribe_packet(id, filter, qos)) matches Ok(bytes) ==> exists|
            body: Seq<u8>,
        |
            #[trigger] is_packet(bytes, 130, body) && {
                &&& body.len() == 6 + encode_utf8(filter).len()
                &&& body[0] * 256 + body[1] == id
                &&& body[2] == 0
                &&& field_at(body, 3, encode_utf8(filter))
                &&& body.last() == match qos {
                    QoS::AtMostOnce => 0u8,
                    QoS::AtLeastOnce => 1u8,
                }
            },
{
    let p = subscribe_packet(id, filter, qos);
    if let Ok(bytes) = encoded_subscribe(p) {
        reveal_with_fuel(encoded_subscriptions, 2);
        reveal_with_fuel(variable_int_bytes, 2);
        let body = id_and_properties(id, p.properties, PropertyContext::Subscribe)->Ok_0
            + encoded_subscriptions(p.filters, 1)->Ok_0;
        framed_is_packet(PacketType::Subscribe, 2, body, 130);
        assert(body.subrange(5, 5 + encode_utf8(filter).len() as int) =~= encode_utf8(filter));
        assert(is_packet(bytes, 130, body));
    }
}

/// An UNSUBSCRIBE packet starts with 162, and for one filter without properties its body is
/// the packet identifier, a zero, and the filter behind its length.
pub proof fn unsubscribe_layout(id: u16, filter: Seq<char>)
    ensures
        encoded_unsubscribe(unsubscribe_packet(id, filter)) matches Ok(bytes) ==> exists|
            body: Seq<u8>,
        |
            #[trigger] is_packet(bytes, 162, body) && {
                &&& body.len() == 5 + encode_utf8(filter).len()
                &&& body[0] * 256 + body[1] == id
                &&& body[2] == 0
                &&& field_at(body, 3, encode_utf8(filter))
            },
{
    let p = unsubscribe_packet(id, filter);
    if let Ok(bytes) = encoded_unsubscribe(p) {
        reveal_with_fuel(encoded_filters, 2);
        reveal_with_fuel(variable_int_bytes, 2);
        let body = id_and_properties(id, p.properties, PropertyContext::Unsubscribe)->Ok_0
            + encoded_filters(p.filters, 1)->Ok_0;
        framed_is_packet(PacketType::Unsubscribe, 2, body, 162);
        assert(body.subrange(5, 5 + encode_utf8(filter).len() as int) =~= encode_utf8(filter));
        assert(is_packet(bytes, 162, body));
    }
}

/// A PUBACK packet without a failure is four bytes: 64, 2, and the packet identifier. One
/// with another reason code has that behind it.
pub proof fn puback_layout(p: PubAckPacket)
    ensures
        encoded_puback(p) matches Ok(bytes) ==> {
            &&& bytes.len() == if p.reason_code == 0 {
                4int
            } else {
                5
            }
            &&& bytes[0] == 64
            &&& bytes[1] == bytes.len() - 2
            &&& bytes[2] * 256 + bytes[3] == p.packet_id
            &&& p.reason_code != 0 ==> bytes[4] == p.reason_code
        },
{
    reveal_with_fuel(variable_int_bytes, 2);
}

/// A normal DISCONNECT packet is the bytes 224 and 0, a PINGREQ packet 192 and 0, and a
/// PINGRESP packet 208 and 0.
pub proof fn bare_packets_layout()
    ensures
        goodbye() == seq![224u8, 0u8],
        PINGREQ_BYTES@ == seq![192u8, 0u8],
        PINGRESP_BYTES@ == seq![208u8, 0u8],
{
    reveal_with_fuel(variable_int_bytes, 2);
    assert(goodbye() =~= seq![224u8, 0u8]);
    assert(PINGREQ_BYTES@ =~= seq![192u8, 0u8]);
    assert(PINGRESP_BYTES@ =~= seq![208u8, 0u8]);
}

/// The number that a property has in the protocol.
pub open spec fn property_number(id: PropertyId) -> int {
    match id {
        PropertyId::ResponseTopic => 8,
        PropertyId::CorrelationData => 9,
        PropertyId::SessionExpiryInterval => 17,
        PropertyId::AssignedClientIdentifier => 18,
        PropertyId::ServerKeepAlive => 19,
        PropertyId::ReasonString => 31,
        PropertyId::ReceiveMaximum => 33,
        PropertyId::TopicAliasMaximum => 34,
        PropertyId::MaximumQoS => 36,
        PropertyId::RetainAvailable => 37,
        PropertyId::UserProperty => 38,
        PropertyId::MaximumPacketSize => 39,
        PropertyId::WildcardSubscriptionAvailable => 40,
        PropertyId::SharedSubscriptionAvailable => 42,
    }
}

/// A property is its number in one byte, and behind it the value: numbers with the most
/// significant byte first, text and data behind their length, and of a pair first the name.
pub proof fn property_layout(entries: Seq<Entry>, n: int, context: Option<PropertyContext>)
    requires
        0 <= n < entries.len(),
    ensures
        encoded_entry(entries, n, context) matches Ok(bytes) ==> {
            &&& bytes.len() > 1
            &&& bytes[0] == property_number(entries[n].0)
            &&& match entries[n].1 {
                PropertyValueView::Byte(b) => bytes.len() == 2 && bytes[1] == b,
                PropertyValueView::U16(v) => bytes.len() == 3 && bytes[1] * 256 + bytes[2] == v,
                PropertyValueView::U32(v) => bytes.len() == 5 && bytes[1] * 16_777_216 + bytes[2]
                    * 65_536 + bytes[3] * 256 + bytes[4] == v,
                PropertyValueView::Str(text) => field_at(bytes, 1, encode_utf8(text))
                    && bytes.len() == 3 + encode_utf8(text).len(),
                PropertyValueView::Binary(data) => field_at(bytes, 1, data) && bytes.len() == 3
                    + data.len(),
                PropertyValueView::StringPair(name, text) => field_at(
                    bytes,
                    1,
                    encode_utf8(name),
                ) && field_at(bytes, 3 + encode_utf8(name).len() as int, encode_utf8(text))
                    && bytes.len() == 5 + encode_utf8(name).len() + encode_utf8(text).len(),
            }
        },
{
    reveal_with_fuel(variable_int_bytes, 2);
    if let Ok(bytes) = encoded_entry(entries, n, context) {
        match entries[n].1 {
            PropertyValueView::U32(v) => {
                numbers_are_big_endian(0, v);
            },
            PropertyValueView::Str(text) => {
                let data = encode_utf8(text);
                assert(bytes.subrange(3, 3 + data.len() as int) =~= data);
            },
            PropertyValueView::Binary(data) => {
                assert(bytes.subrange(3, 3 + data.len() as int) =~= data);
            },
            PropertyValueView::StringPair(name, text) => {
                let a = encode_utf8(name);
                let b = encode_utf8(text);
                assert(bytes.subrange(3, 3 + a.len() as int) =~= a);
                assert(bytes.subrange(5 + a.len() as int, 5 + a.len() as int + b.len()) =~= b);
            },
            _ => {},
        }
    }
}

/// Which properties a packet may carry, by their numbers.
pub open spec fn may_carry(context: PropertyContext, number: int) -> bool {
    match context {
        PropertyContext::Connect => set![17int, 33, 34, 38, 39].contains(number),
        PropertyContext::ConnAck => set![
            17int,
            18,
            19,
            21,
            22,
            26,
            28,
            31,
            33,
            34,
            36,
            37,
            38,
            39,
            40,
            41,
            42,
        ].contains(number),
        PropertyContext::Publish => set![1int, 2, 3, 8, 9, 11, 35, 38].contains(number),
        PropertyContext::PubAck | PropertyContext::SubAck | PropertyContext::UnsubAck => set![
            31int,
            38,
        ].contains(number),
        PropertyContext::Subscribe => set![11int, 38].contains(number),
        PropertyContext::Unsubscribe => number == 38,
        PropertyContext::Disconnect => set![28int, 31, 38].contains(number),
    }
}

/// A packet carries just the properties that the protocol lets it carry.
pub proof fn packets_carry_their_properties(context: PropertyContext, number: u8)
    ensures
        context.spec_allows(number) <==> may_carry(context, number as int),
{
}

/// The reason codes of each packet type are those of the protocol: success in its forms, and
/// from 128 on the failures that such a packet can tell of.
pub proof fn reason_codes_are_those_of_the_protocol(code: u8)
    ensures
        connack_reason_code(code) <==> code == 0 || (128 <= code <= 159 && !set![
            139int,
            141,
            142,
            143,
            145,
            146,
            147,
            148,
            150,
            152,
            158,
        ].contains(code as int)),
        puback_reason_code(code) <==> set![0int, 16, 128, 131, 135, 144, 145, 151, 153].contains(
            code as int,
        ),
        suback_reason_code(code) <==> set![
            0int,
            1,
            2,
            128,
            131,
            135,
            143,
            145,
            151,
            158,
            161,
            162,
        ].contains(code as int),
        unsuback_reason_code(code) <==> set![0int, 17, 128, 131, 135, 143, 145].contains(
            code as int,
        ),
        disconnect_reason_code(code) <==> code == 0 || code == 4 || (128 <= code <= 162 && !set![
            132int,
            133,
            134,
            136,
            138,
            140,
            145,
            146,
        ].contains(code as int)),
{
}

} // verus!
