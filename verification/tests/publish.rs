use mqtt_wasi::codec::decode::decode_fixed_header;
use mqtt_wasi::codec::encode::encode_string;
use mqtt_wasi::codec::properties::{Properties, PropertyId, PropertyValue};
use mqtt_wasi::codec::types::{PacketType, PubAckPacket, PublishPacket, QoS};
use mqtt_wasi::error::Error;

#[test]
fn publish_qos0_round_trip() {
    let pkt = PublishPacket {
        topic: String::from("test/topic"),
        packet_id: None,
        payload: b"hello".to_vec(),
        qos: QoS::AtMostOnce,
        retain: false,
        dup: false,
        properties: Properties::new(),
    };
    let bytes = pkt.encode().unwrap();
    let (header, hdr_len) = decode_fixed_header(&bytes).unwrap();
    assert_eq!(header.packet_type, PacketType::Publish);

    let decoded = PublishPacket::decode(header.flags, &bytes[hdr_len..]).unwrap();
    assert_eq!(decoded.topic, "test/topic");
    assert_eq!(decoded.payload, b"hello");
    assert_eq!(decoded.qos, QoS::AtMostOnce);
    assert_eq!(decoded.packet_id, None);
}

#[test]
fn publish_qos1_round_trip() {
    let pkt = PublishPacket {
        topic: String::from("a/b"),
        packet_id: Some(42),
        payload: b"data".to_vec(),
        qos: QoS::AtLeastOnce,
        retain: true,
        dup: false,
        properties: Properties::new(),
    };
    let bytes = pkt.encode().unwrap();
    let (header, hdr_len) = decode_fixed_header(&bytes).unwrap();

    let decoded = PublishPacket::decode(header.flags, &bytes[hdr_len..]).unwrap();
    assert_eq!(decoded.topic, "a/b");
    assert_eq!(decoded.packet_id, Some(42));
    assert_eq!(decoded.qos, QoS::AtLeastOnce);
    assert!(decoded.retain);
}

#[test]
fn publish_rejects_empty_and_wildcard_topic_names_on_encode_and_decode() {
    for topic in ["", "events/#", "events/+"] {
        let packet = PublishPacket {
            topic: String::from(topic),
            packet_id: None,
            payload: Vec::new(),
            qos: QoS::AtMostOnce,
            retain: false,
            dup: false,
            properties: Properties::new(),
        };
        assert!(packet.encode().is_err());

        let mut body = Vec::new();
        encode_string(&mut body, topic).unwrap();
        Properties::new().encode(&mut body).unwrap();
        assert!(PublishPacket::decode(0, &body).is_err());
    }
}

#[test]
fn publish_rejects_topic_alias_even_with_a_nonempty_topic() {
    let mut body = Vec::new();
    encode_string(&mut body, "events/new").unwrap();
    body.extend_from_slice(&[0x03, 0x23, 0x00, 0x01]);

    assert!(matches!(
        PublishPacket::decode(0, &body),
        Err(Error::MalformedPacket(
            "topic alias is not supported"
        ))
    ));
}

#[test]
fn publish_enforces_its_property_context_on_encode_and_decode() {
    let mut properties = Properties::new();
    properties.push(PropertyId::SessionExpiryInterval, PropertyValue::U32(60));
    let packet = PublishPacket {
        topic: String::from("events/new"),
        packet_id: None,
        payload: Vec::new(),
        qos: QoS::AtMostOnce,
        retain: false,
        dup: false,
        properties,
    };
    assert!(matches!(
        packet.encode(),
        Err(Error::MalformedPacket(
            "property is not allowed in this packet"
        ))
    ));

    let mut body = Vec::new();
    encode_string(&mut body, "events/new").unwrap();
    body.extend_from_slice(&[0x05, 0x11, 0x00, 0x00, 0x00, 0x3C]);
    assert!(matches!(
        PublishPacket::decode(0, &body),
        Err(Error::MalformedPacket(
            "property is not allowed in this packet"
        ))
    ));
}

#[test]
fn publish_skips_legal_unsupported_properties_without_consuming_payload() {
    let mut body = Vec::new();
    encode_string(&mut body, "events/new").unwrap();
    body.extend_from_slice(&[
        0x0B, // property length
        0x01, 0x01, // Payload Format Indicator
        0x02, 0x00, 0x00, 0x00, 0x05, // Message Expiry Interval
        0x03, 0x00, 0x01, b'j', // Content Type
    ]);
    body.extend_from_slice(b"payload");

    let packet = PublishPacket::decode(0, &body).unwrap();
    assert_eq!(packet.payload, b"payload");
}

#[test]
fn puback_round_trip() {
    let pkt = PubAckPacket {
        packet_id: 7,
        reason_code: 0x00,
    };
    let bytes = pkt.encode().unwrap();
    let (header, hdr_len) = decode_fixed_header(&bytes).unwrap();
    assert_eq!(header.packet_type, PacketType::PubAck);

    let decoded = PubAckPacket::decode(&bytes[hdr_len..]).unwrap();
    assert_eq!(decoded.packet_id, 7);
    assert_eq!(decoded.reason_code, 0x00);
}

#[test]
fn publish_and_puback_reject_zero_packet_identifiers() {
    let publish = PublishPacket {
        topic: String::from("test/topic"),
        packet_id: Some(0),
        payload: Vec::new(),
        qos: QoS::AtLeastOnce,
        retain: false,
        dup: false,
        properties: Properties::new(),
    };
    assert!(publish.encode().is_err());
    assert!(PublishPacket::decode(0x02, &[0, 1, b't', 0, 0, 0]).is_err());
    assert!(PubAckPacket::decode(&[0, 0]).is_err());
}

#[test]
fn puback_accepts_properties_but_rejects_trailing_bytes() {
    // packet ID 7, success, one Reason String property "x".
    let valid = [0x00, 0x07, 0x00, 0x04, 0x1F, 0x00, 0x01, b'x'];
    assert!(PubAckPacket::decode(&valid).is_ok());

    // Empty property section followed by an impossible trailing byte.
    let trailing = [0x00, 0x07, 0x00, 0x00, 0xFF];
    assert!(matches!(
        PubAckPacket::decode(&trailing),
        Err(Error::MalformedPacket(
            "trailing PUBACK bytes"
        ))
    ));

    let wrong_context = [0x00, 0x07, 0x00, 0x04, 0x08, 0x00, 0x01, b'r'];
    assert!(matches!(
        PubAckPacket::decode(&wrong_context),
        Err(Error::MalformedPacket(
            "property is not allowed in this packet"
        ))
    ));
}

#[test]
fn puback_rejects_reserved_reason_code() {
    assert!(matches!(
        PubAckPacket::decode(&[0, 7, 0x03]),
        Err(Error::InvalidReasonCode(0x03))
    ));
}
