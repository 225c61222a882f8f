use mqtt_wasi::codec::decode::Cursor;
use mqtt_wasi::codec::encode::{encode_string, encode_variable_int};
use mqtt_wasi::codec::properties::{Properties, PropertyContext, PropertyId, PropertyValue};
use mqtt_wasi::error::{Error, Result};

fn decode_context(context: PropertyContext, entries: &[u8]) -> Result<Properties> {
    let mut encoded = Vec::new();
    encode_variable_int(&mut encoded, entries.len() as u32).unwrap();
    encoded.extend_from_slice(entries);
    Properties::decode_for(&mut Cursor::new(&encoded), context)
}

#[test]
fn empty_properties_round_trip() {
    let props = Properties::new();
    let mut buf = Vec::new();
    props.encode(&mut buf).unwrap();
    assert_eq!(buf, [0x00]); // just the zero-length prefix

    let mut cur = Cursor::new(&buf);
    let decoded = Properties::decode(&mut cur).unwrap();
    assert!(decoded.is_empty());
}

#[test]
fn user_property_round_trip() {
    let props = Properties::new().user("traceparent", "00-abc-def-01");
    let mut buf = Vec::new();
    props.encode(&mut buf).unwrap();

    let mut cur = Cursor::new(&buf);
    let decoded = Properties::decode(&mut cur).unwrap();
    let pairs: Vec<(&str, &str)> = decoded.user_properties();
    assert_eq!(pairs, [("traceparent", "00-abc-def-01")]);
}

#[test]
fn mixed_properties_round_trip() {
    let mut props = Properties::new();
    props.push(PropertyId::ReceiveMaximum, PropertyValue::U16(100));
    props.push(PropertyId::MaximumQoS, PropertyValue::Byte(1));

    let mut buf = Vec::new();
    props.encode(&mut buf).unwrap();

    let mut cur = Cursor::new(&buf);
    let decoded = Properties::decode(&mut cur).unwrap();
    assert_eq!(decoded.get_u16(PropertyId::ReceiveMaximum), Some(100));
    assert_eq!(decoded.get_byte(PropertyId::MaximumQoS), Some(1));
}

#[test]
fn request_response_properties_round_trip() {
    let props = Properties::new()
        .with_response_topic("replies/client")
        .with_correlation_data(vec![0x00, 0xFF, 0x42]);
    let mut buf = Vec::new();
    props.encode(&mut buf).unwrap();

    let mut cur = Cursor::new(&buf);
    let decoded = Properties::decode(&mut cur).unwrap();
    assert_eq!(decoded.response_topic(), Some("replies/client"));
    assert_eq!(decoded.correlation_data(), Some(&[0x00, 0xFF, 0x42][..]));
}

#[test]
fn response_topic_must_be_a_concrete_topic_name() {
    for topic in ["", "responses/+", "responses/#"] {
        let properties = Properties::new().with_response_topic(topic);
        assert!(properties.encode(&mut Vec::new()).is_err());

        let mut body = Vec::new();
        encode_variable_int(&mut body, PropertyId::ResponseTopic.code() as u32).unwrap();
        encode_string(&mut body, topic).unwrap();
        let mut encoded = Vec::new();
        encode_variable_int(&mut encoded, body.len() as u32).unwrap();
        encoded.extend_from_slice(&body);
        assert!(Properties::decode(&mut Cursor::new(&encoded)).is_err());
    }
}

#[test]
fn topic_alias_is_rejected_instead_of_silently_skipped() {
    let encoded = [0x03, 0x23, 0x00, 0x01];
    assert!(matches!(
        Properties::decode(&mut Cursor::new(&encoded)),
        Err(Error::MalformedPacket("topic alias is not supported"))
    ));
}

#[test]
fn packet_context_rejects_properties_from_other_packet_types_on_encode() {
    let response_topic = Properties::new().with_response_topic("responses/client");
    for context in [
        PropertyContext::Connect,
        PropertyContext::Subscribe,
        PropertyContext::Unsubscribe,
    ] {
        assert!(matches!(
            response_topic.encode_for(&mut Vec::new(), context),
            Err(Error::MalformedPacket(
                "property is not allowed in this packet"
            ))
        ));
    }

    let mut session_expiry = Properties::new();
    session_expiry.push(PropertyId::SessionExpiryInterval, PropertyValue::U32(60));
    assert!(matches!(
        session_expiry.encode_for(&mut Vec::new(), PropertyContext::Publish),
        Err(Error::MalformedPacket(
            "property is not allowed in this packet"
        ))
    ));
}

#[test]
fn packet_context_rejects_properties_from_other_packet_types_on_decode() {
    let response_topic = [0x08, 0x00, 0x01, b'r'];
    for context in [
        PropertyContext::ConnAck,
        PropertyContext::PubAck,
        PropertyContext::SubAck,
        PropertyContext::UnsubAck,
    ] {
        assert!(matches!(
            decode_context(context, &response_topic),
            Err(Error::MalformedPacket(
                "property is not allowed in this packet"
            ))
        ));
    }

    let session_expiry = [0x11, 0x00, 0x00, 0x00, 0x01];
    for context in [PropertyContext::Publish, PropertyContext::Disconnect] {
        assert!(matches!(
            decode_context(context, &session_expiry),
            Err(Error::MalformedPacket(
                "property is not allowed in this packet"
            ))
        ));
    }
}

#[test]
fn context_decode_preserves_legal_unsupported_properties() {
    let publish = [
        0x01, 0x01, // Payload Format Indicator
        0x02, 0x00, 0x00, 0x00, 0x05, // Message Expiry Interval
        0x03, 0x00, 0x01, b'j', // Content Type
        0x0B, 0x01, // Subscription Identifier (repeatable in PUBLISH)
        0x0B, 0x02,
    ];
    assert!(decode_context(PropertyContext::Publish, &publish).is_ok());

    let connack = [
        0x15, 0x00, 0x01, b'm', // Authentication Method
        0x16, 0x00, 0x01, 0xFF, // Authentication Data
        0x1A, 0x00, 0x01, b'i', // Response Information
        0x1C, 0x00, 0x01, b's', // Server Reference
        0x29, 0x01, // Subscription Identifiers Available
    ];
    assert!(decode_context(PropertyContext::ConnAck, &connack).is_ok());

    let server_reference = [0x1C, 0x00, 0x01, b's'];
    assert!(decode_context(PropertyContext::Disconnect, &server_reference).is_ok());

    let invalid_utf8_server_reference = [0x1C, 0x00, 0x01, 0xFF];
    assert!(matches!(
        decode_context(PropertyContext::Disconnect, &invalid_utf8_server_reference),
        Err(Error::MalformedPacket("invalid UTF-8"))
    ));
}

#[test]
fn context_decode_validates_skipped_values_and_duplicate_rules() {
    assert!(matches!(
        decode_context(PropertyContext::Publish, &[0x01, 0x02]),
        Err(Error::MalformedPacket(
            "payload format indicator must be zero or one"
        ))
    ));
    assert!(matches!(
        decode_context(PropertyContext::Publish, &[0x0B, 0x00]),
        Err(Error::MalformedPacket(
            "subscription identifier must be non-zero"
        ))
    ));
    assert!(matches!(
        decode_context(PropertyContext::ConnAck, &[0x29, 0x02]),
        Err(Error::MalformedPacket(
            "subscription identifiers available must be zero or one"
        ))
    ));
    assert!(matches!(
        decode_context(PropertyContext::Publish, &[0x01, 0x00, 0x01, 0x01]),
        Err(Error::MalformedPacket("duplicate singleton property"))
    ));
    assert!(matches!(
        decode_context(PropertyContext::Subscribe, &[0x0B, 0x01, 0x0B, 0x02]),
        Err(Error::MalformedPacket("duplicate singleton property"))
    ));
}

#[test]
fn request_response_setters_replace_singleton_properties() {
    let mut props = Properties::new().with_response_topic("old");
    props.set_response_topic("new");
    props.set_correlation_data(vec![1]);
    props.set_correlation_data(vec![2]);

    assert_eq!(props.response_topic(), Some("new"));
    assert_eq!(props.correlation_data(), Some(&[2][..]));
}

#[test]
fn duplicate_request_response_properties_are_rejected() {
    let mut encoded = Vec::new();
    Properties::new()
        .with_response_topic("one")
        .encode(&mut encoded)
        .unwrap();
    let first_body = &encoded[1..];

    let mut duplicate = Vec::new();
    encode_variable_int(&mut duplicate, (first_body.len() * 2) as u32)
        .unwrap();
    duplicate.extend_from_slice(first_body);
    duplicate.extend_from_slice(first_body);

    let mut cur = Cursor::new(&duplicate);
    assert!(matches!(
        Properties::decode(&mut cur),
        Err(Error::MalformedPacket("duplicate singleton property"))
    ));
}

#[test]
fn oversized_property_id_is_rejected_without_truncation() {
    // Property section: ID 0x108 encoded as a variable byte integer.
    let mut cur = Cursor::new(&[0x02, 0x88, 0x02]);
    assert!(matches!(
        Properties::decode(&mut cur),
        Err(Error::MalformedPacket("property id exceeds one byte"))
    ));
}

#[test]
fn encode_rejects_mismatched_property_wire_type() {
    let mut props = Properties::new();
    props.push(PropertyId::ResponseTopic, PropertyValue::U32(7));

    assert!(matches!(
        props.encode(&mut Vec::new()),
        Err(Error::MalformedPacket("property value has wrong wire type"))
    ));
}

#[test]
fn encode_rejects_duplicate_singleton_but_allows_user_properties() {
    let mut duplicate = Properties::new();
    duplicate.push(PropertyId::MaximumPacketSize, PropertyValue::U32(10));
    duplicate.push(PropertyId::MaximumPacketSize, PropertyValue::U32(20));
    assert!(matches!(
        duplicate.encode(&mut Vec::new()),
        Err(Error::MalformedPacket("duplicate singleton property"))
    ));

    let users = Properties::new().user("one", "1").user("two", "2");
    assert!(users.encode(&mut Vec::new()).is_ok());
}

#[test]
fn zero_invalid_limits_are_rejected_on_encode_and_decode() {
    let mut receive_maximum = Properties::new();
    receive_maximum.push(PropertyId::ReceiveMaximum, PropertyValue::U16(0));
    assert!(matches!(
        receive_maximum.encode(&mut Vec::new()),
        Err(Error::MalformedPacket("receive maximum must be non-zero"))
    ));

    // Declared property length 5, MaximumPacketSize ID, four zero bytes.
    let mut cur = Cursor::new(&[0x05, 0x27, 0, 0, 0, 0]);
    assert!(matches!(
        Properties::decode(&mut cur),
        Err(Error::MalformedPacket(
            "maximum packet size must be non-zero"
        ))
    ));
}

#[test]
fn property_length_cannot_overrun_declared_section() {
    // Declares a 2-byte property section, but ReasonString needs its
    // property ID plus a 2-byte string length before the value.
    let mut cur = Cursor::new(&[0x02, 0x1F, 0x00, 0x03, b'a', b'b', b'c']);
    assert!(matches!(
        Properties::decode(&mut cur),
        Err(Error::MalformedPacket("property exceeded declared length"))
    ));
}

#[test]
fn property_length_cannot_exceed_remaining_packet() {
    let mut cur = Cursor::new(&[0x05, 0x24, 0x01]);
    assert!(matches!(
        Properties::decode(&mut cur),
        Err(Error::MalformedPacket("property length exceeds packet"))
    ));
}

#[test]
fn untyped_properties_between_typed_ones_are_walked_over() {
    let typed = Properties::new()
        .with_response_topic("r")
        .with_correlation_data(vec![9, 8])
        .user("k", "v")
        .user("k", "w");
    let section = [
        &[0x01, 0x01][..],                               // Payload Format Indicator
        &[0x08, 0x00, 0x01, b'r'],                       // Response Topic
        &[0x02, 0x00, 0x00, 0x00, 0x05],                 // Message Expiry Interval
        &[0x0B, 0x81, 0x01],                             // Subscription Identifier
        &[0x09, 0x00, 0x02, 9, 8],                       // Correlation Data
        &[0x26, 0x00, 0x01, b'k', 0x00, 0x01, b'v'],     // User Property
        &[0x03, 0x00, 0x01, b'j'],                       // Content Type
        &[0x0B, 0x02],                                   // Subscription Identifier
        &[0x26, 0x00, 0x01, b'k', 0x00, 0x01, b'w'],     // User Property
    ]
    .concat();
    let mut encoded = Vec::new();
    encode_variable_int(&mut encoded, section.len() as u32).unwrap();
    encoded.extend_from_slice(&section);
    encoded.extend_from_slice(b"tail");

    let mut expected = Vec::new();
    typed.encode(&mut expected).unwrap();
    for context in [None, Some(PropertyContext::Publish)] {
        let mut cur = Cursor::new(&encoded);
        let decoded = match context {
            None => Properties::decode(&mut cur),
            Some(context) => Properties::decode_for(&mut cur, context),
        }
        .unwrap();
        let mut again = Vec::new();
        decoded.encode(&mut again).unwrap();
        assert_eq!(again, expected);
        assert_eq!(cur.remaining_bytes(), b"tail");
    }
}
