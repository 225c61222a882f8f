use mqtt_wasi::codec::connect::{validate_connack, ServerCapabilities};
use mqtt_wasi::codec::decode::{decode_fixed_header, Cursor};
use mqtt_wasi::codec::properties::{Properties, PropertyId, PropertyValue};
use mqtt_wasi::codec::types::{ConnAckPacket, ConnectPacket, PacketType, QoS};
use mqtt_wasi::error::Error;

#[test]
fn connect_encode_minimal() {
    let pkt = ConnectPacket {
        protocol_version: 5,
        clean_start: true,
        keep_alive: 60,
        client_id: String::new(),
        username: None,
        password: None,
        properties: Properties::new(),
    };
    let bytes = pkt.encode().unwrap();

    // Verify fixed header
    let (header, hdr_len) = decode_fixed_header(&bytes).unwrap();
    assert_eq!(header.packet_type, PacketType::Connect);
    assert_eq!(header.flags, 0);

    // Verify protocol name
    let body = &bytes[hdr_len..];
    let mut cur = Cursor::new(body);
    assert_eq!(cur.read_string().unwrap(), "MQTT");
    assert_eq!(cur.read_u8().unwrap(), 5); // version
    assert_eq!(cur.read_u8().unwrap(), 0x02); // clean start flag
    assert_eq!(cur.read_u16().unwrap(), 60); // keep alive
}

#[test]
fn connect_with_credentials() {
    let pkt = ConnectPacket {
        protocol_version: 5,
        clean_start: true,
        keep_alive: 30,
        client_id: String::from("test-client"),
        username: Some(String::from("user")),
        password: Some(b"pass".to_vec()),
        properties: Properties::new(),
    };
    let bytes = pkt.encode().unwrap();

    let (header, _) = decode_fixed_header(&bytes).unwrap();
    assert_eq!(header.packet_type, PacketType::Connect);
}

#[test]
fn mqtt_v5_encodes_empty_client_identifier_without_clean_start() {
    let packet = ConnectPacket {
        protocol_version: 5,
        clean_start: false,
        keep_alive: 30,
        client_id: String::new(),
        username: None,
        password: None,
        properties: Properties::new(),
    };

    assert!(packet.encode().is_ok());
}

#[test]
fn connect_rejects_properties_from_other_packet_types() {
    let packet = ConnectPacket {
        protocol_version: 5,
        clean_start: true,
        keep_alive: 30,
        client_id: String::from("client"),
        username: None,
        password: None,
        properties: Properties::new().with_response_topic("responses/client"),
    };

    assert!(matches!(
        packet.encode(),
        Err(Error::MalformedPacket(
            "property is not allowed in this packet"
        ))
    ));
}

#[test]
fn connack_validation_uses_connect_context() {
    let mut assigned = Properties::new();
    assigned.push(
        PropertyId::AssignedClientIdentifier,
        PropertyValue::Str(String::from("assigned-1")),
    );
    let assigned = ConnAckPacket {
        session_present: false,
        reason_code: 0,
        properties: assigned,
    };
    assert!(validate_connack("", false, &assigned).is_ok());

    let missing_assignment = ConnAckPacket {
        session_present: false,
        reason_code: 0,
        properties: Properties::new(),
    };
    assert!(matches!(
        validate_connack("", false, &missing_assignment),
        Err(Error::MalformedPacket(
            "CONNACK omitted a non-empty assigned client identifier"
        ))
    ));

    let resumed_after_clean_start = ConnAckPacket {
        session_present: true,
        reason_code: 0,
        properties: Properties::new(),
    };
    assert!(matches!(
        validate_connack("requested", true, &resumed_after_clean_start),
        Err(Error::MalformedPacket(
            "CONNACK has session present after clean start"
        ))
    ));
}

#[test]
fn connack_decode_success() {
    // session_present=false, reason=0x00 (success), empty properties
    let body = [0x00, 0x00, 0x00];
    let pkt = ConnAckPacket::decode(&body).unwrap();
    assert!(!pkt.session_present);
    assert_eq!(pkt.reason_code, 0x00);
}

#[test]
fn connack_capabilities_default_parse_and_validate() {
    let default_packet = ConnAckPacket::decode(&[0x00, 0x00, 0x00]).unwrap();
    assert_eq!(
        ServerCapabilities::from_connack(&default_packet),
        ServerCapabilities::default()
    );

    let restricted_packet = ConnAckPacket::decode(&[
        0x00, 0x00, 0x08, // flags, reason, property length
        0x24, 0x00, // Maximum QoS = 0
        0x25, 0x00, // Retain Available = false
        0x28, 0x00, // Wildcard Subscription Available = false
        0x2A, 0x00, // Shared Subscription Available = false
    ])
    .unwrap();
    assert_eq!(
        ServerCapabilities::from_connack(&restricted_packet),
        ServerCapabilities {
            maximum_qos: QoS::AtMostOnce,
            retain_available: false,
            wildcard_subscriptions_available: false,
            shared_subscriptions_available: false,
        }
    );

    assert!(matches!(
        ConnAckPacket::decode(&[0x00, 0x00, 0x02, 0x24, 0x02]),
        Err(Error::MalformedPacket("maximum QoS exceeds one"))
    ));
    for property_id in [0x25, 0x28, 0x2A] {
        assert!(matches!(
            ConnAckPacket::decode(&[0x00, 0x00, 0x02, property_id, 0x02]),
            Err(Error::MalformedPacket(
                "availability property must be zero or one"
            ))
        ));
    }
}

#[test]
fn connack_decode_refused() {
    let body = [0x00, 0x87, 0x00]; // not authorized
    let pkt = ConnAckPacket::decode(&body).unwrap();
    assert_eq!(pkt.reason_code, 0x87);
}

#[test]
fn connack_rejects_reserved_flags_and_trailing_bytes() {
    assert!(matches!(
        ConnAckPacket::decode(&[0x02, 0x00, 0x00]),
        Err(Error::MalformedPacket(
            "CONNACK has reserved acknowledge flags"
        ))
    ));
    assert!(matches!(
        ConnAckPacket::decode(&[0x00, 0x00, 0x00, 0x00]),
        Err(Error::MalformedPacket(
            "trailing CONNACK bytes"
        ))
    ));
    assert!(matches!(
        ConnAckPacket::decode(&[0x00, 0x00]),
        Err(Error::MalformedPacket(
            "unexpected end of data"
        ))
    ));
    assert!(matches!(
        ConnAckPacket::decode(&[0x00, 0x00, 0x04, 0x08, 0x00, 0x01, b'r']),
        Err(Error::MalformedPacket(
            "property is not allowed in this packet"
        ))
    ));
}

#[test]
fn refused_connack_cannot_resume_a_session() {
    assert!(matches!(
        ConnAckPacket::decode(&[0x01, 0x87, 0x00]),
        Err(Error::MalformedPacket(
            "refused CONNACK has session present"
        ))
    ));
}

#[test]
fn connack_rejects_reserved_reason_code() {
    assert!(matches!(
        ConnAckPacket::decode(&[0x00, 0x03, 0x00]),
        Err(Error::InvalidReasonCode(0x03))
    ));
}
