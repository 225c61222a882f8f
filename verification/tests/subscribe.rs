use mqtt_wasi::codec::decode::decode_fixed_header;
use mqtt_wasi::codec::properties::{Properties, PropertyContext, PropertyId, PropertyValue};
use mqtt_wasi::codec::subscribe::validate_suback_codes;
use mqtt_wasi::codec::types::{
    PacketType, QoS, SubAckPacket, SubscribePacket, UnsubAckPacket, UnsubscribePacket,
};
use mqtt_wasi::error::Error;

#[test]
fn subscribe_encode() {
    let pkt = SubscribePacket {
        packet_id: 1,
        filters: vec![(String::from("test/#"), QoS::AtLeastOnce)],
        properties: Properties::new(),
    };
    let bytes = pkt.encode().unwrap();
    let (header, _) = decode_fixed_header(&bytes).unwrap();
    assert_eq!(header.packet_type, PacketType::Subscribe);
    assert_eq!(header.flags, 0x02);
}

#[test]
fn suback_decode() {
    // packet_id=1, empty properties, two reason codes (0x00, 0x01)
    let body = [0x00, 0x01, 0x00, 0x00, 0x01];
    let pkt = SubAckPacket::decode(&body).unwrap();
    assert_eq!(pkt.packet_id, 1);
    assert_eq!(pkt.reason_codes, [0x00, 0x01]);
}

#[test]
fn unsubscribe_encode() {
    let pkt = UnsubscribePacket {
        packet_id: 2,
        filters: vec![String::from("test/#")],
        properties: Properties::new(),
    };
    let bytes = pkt.encode().unwrap();
    let (header, _) = decode_fixed_header(&bytes).unwrap();
    assert_eq!(header.packet_type, PacketType::Unsubscribe);
    assert_eq!(header.flags, 0x02);
}

#[test]
fn subscription_packets_accept_shared_filters_and_reject_malformed_filters() {
    let shared = String::from("$share/workers/events/+");
    assert!(SubscribePacket {
        packet_id: 1,
        filters: vec![(shared.clone(), QoS::AtLeastOnce)],
        properties: Properties::new(),
    }
    .encode()
    .is_ok());
    assert!(UnsubscribePacket {
        packet_id: 2,
        filters: vec![shared],
        properties: Properties::new(),
    }
    .encode()
    .is_ok());

    for filter in ["", "events/#/new", "events/+new", "$share//events"] {
        assert!(SubscribePacket {
            packet_id: 1,
            filters: vec![(String::from(filter), QoS::AtMostOnce)],
            properties: Properties::new(),
        }
        .encode()
        .is_err());
        assert!(UnsubscribePacket {
            packet_id: 2,
            filters: vec![String::from(filter)],
            properties: Properties::new(),
        }
        .encode()
        .is_err());
    }
}

#[test]
fn subscription_packets_enforce_their_property_contexts() {
    let response_topic = Properties::new().with_response_topic("responses/client");
    assert!(matches!(
        SubscribePacket {
            packet_id: 1,
            filters: vec![(String::from("events/#"), QoS::AtMostOnce)],
            properties: response_topic.clone(),
        }
        .encode(),
        Err(Error::MalformedPacket(
            "property is not allowed in this packet"
        ))
    ));
    assert!(matches!(
        UnsubscribePacket {
            packet_id: 2,
            filters: vec![String::from("events/#")],
            properties: response_topic,
        }
        .encode(),
        Err(Error::MalformedPacket(
            "property is not allowed in this packet"
        ))
    ));

    let response_topic_section = [0x00, 0x01, 0x04, 0x08, 0x00, 0x01, b'r', 0x00];
    assert!(matches!(
        SubAckPacket::decode(&response_topic_section),
        Err(Error::MalformedPacket(
            "property is not allowed in this packet"
        ))
    ));
    assert!(matches!(
        UnsubAckPacket::decode(&response_topic_section),
        Err(Error::MalformedPacket(
            "property is not allowed in this packet"
        ))
    ));

    let mut reason = Properties::new();
    reason.push(
        PropertyId::ReasonString,
        PropertyValue::Str(String::from("ok")),
    );
    assert!(reason
        .encode_for(&mut Vec::new(), PropertyContext::SubAck)
        .is_ok());
}

#[test]
fn unsuback_decode() {
    let body = [0x00, 0x02, 0x00, 0x00];
    let pkt = UnsubAckPacket::decode(&body).unwrap();
    assert_eq!(pkt.packet_id, 2);
    assert_eq!(pkt.reason_codes, [0x00]);
}

#[test]
fn subscription_packets_reject_zero_identifiers_and_empty_payloads() {
    let subscribe = SubscribePacket {
        packet_id: 0,
        filters: vec![(String::from("test/#"), QoS::AtMostOnce)],
        properties: Properties::new(),
    };
    assert!(subscribe.encode().is_err());
    assert!(SubAckPacket::decode(&[0, 0, 0, 0]).is_err());
    assert!(SubAckPacket::decode(&[0, 1, 0]).is_err());
    assert!(UnsubAckPacket::decode(&[0, 1, 0]).is_err());
}

#[test]
fn acknowledgement_packets_reject_reserved_reason_codes() {
    assert!(matches!(
        SubAckPacket::decode(&[0, 1, 0, 0x03]),
        Err(Error::InvalidReasonCode(0x03))
    ));
    assert!(matches!(
        UnsubAckPacket::decode(&[0, 1, 0, 0x03]),
        Err(Error::InvalidReasonCode(0x03))
    ));
}

#[test]
fn suback_grants_cannot_exceed_requested_or_supported_qos() {
    assert!(validate_suback_codes(&[0], &[QoS::AtMostOnce]).is_ok());
    assert!(validate_suback_codes(&[1], &[QoS::AtLeastOnce]).is_ok());
    assert!(matches!(
        validate_suback_codes(&[1], &[QoS::AtMostOnce]),
        Err(Error::MalformedPacket(
            "SUBACK granted unsupported or unrequested QoS"
        ))
    ));
    assert!(matches!(
        validate_suback_codes(&[2], &[QoS::AtLeastOnce]),
        Err(Error::MalformedPacket(
            "SUBACK granted unsupported or unrequested QoS"
        ))
    ));
}
