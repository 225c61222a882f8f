use mqtt_wasi::async_client::driver::validate_reason_codes;
use mqtt_wasi::async_client::lifecycle::{refused_command, validate_payload, RequestLifecycle};
use mqtt_wasi::codec::decode::{validate_fixed_header, Cursor};
use mqtt_wasi::codec::encode::{
    binary_len, encode_binary, encode_string, encode_u32, encode_variable_int, string_len,
    variable_int_len,
};
use mqtt_wasi::codec::properties::{Properties, PropertyId, PropertyValue};
use mqtt_wasi::codec::topic::{validate_topic_filter, validate_topic_name};
use mqtt_wasi::codec::types::{
    ConnectPacket, DisconnectPacket, FixedHeader, Packet, PacketType, PubAckPacket, PublishPacket,
    QoS,
};
use mqtt_wasi::error::{Error, ErrorKind, IoError};
use mqtt_wasi::frame::FrameReader;
use mqtt_wasi::options::{ConnectOptions, PublishOptions};
use mqtt_wasi::time::{Duration, Instant};
use mqtt_wasi::trace::TraceContext;

fn message(topic: &str, payload: &[u8]) -> PublishPacket {
    PublishPacket {
        topic: topic.to_owned(),
        packet_id: Some(9),
        payload: payload.to_vec(),
        qos: QoS::AtLeastOnce,
        retain: true,
        dup: true,
        properties: Properties::new().user("key", "värde"),
    }
}

#[test]
fn errors_describe_themselves() {
    for (error, text) in [
        (
            Error::InvalidOptions("no time"),
            "invalid options: no time",
        ),
        (Error::MalformedPacket("bad"), "malformed packet: bad"),
        (Error::InvalidPacketType(0), "invalid packet type: 0"),
        (Error::InvalidQoS(3), "invalid QoS: 3"),
        (Error::InvalidReasonCode(3), "invalid reason code: 0x03"),
        (Error::ConnectionRefused(0x87), "connection refused: 0x87"),
        (Error::ServerDisconnected(0x8b), "server disconnected: 0x8b"),
        (
            Error::PacketTooLarge { size: 12, max: 8 },
            "packet is 12 bytes; configured maximum is 8",
        ),
        (
            Error::StringTooLong(65_536),
            "string too long: 65536 bytes",
        ),
        (
            Error::BinaryTooLong(70_000),
            "binary data too long: 70000 bytes",
        ),
        (Error::ConnectionClosed, "connection closed"),
        (Error::ClientClosed, "client driver is not running"),
        (Error::Timeout("connect"), "connect timed out"),
        (Error::KeepAliveTimeout, "broker did not answer PINGREQ"),
        (
            Error::UnexpectedPacket("surprise"),
            "unexpected packet: surprise",
        ),
        (
            Error::AckRejected {
                packet: "PUBACK",
                reason_code: 0x80,
            },
            "PUBACK rejected: 0x80",
        ),
        (Error::QueueFull("event"), "event queue is full"),
        (Error::Serialize("cycle".to_owned()), "serialize: cycle"),
        (
            Error::Deserialize("not JSON".to_owned()),
            "deserialize: not JSON",
        ),
        (
            Error::Io(IoError::new(ErrorKind::BrokenPipe, "broken pipe")),
            "io: broken pipe",
        ),
    ] {
        assert_eq!(error.message(), text);
        assert_eq!(error.clone().message(), text);
    }
}

#[test]
fn fields_have_a_length_limit() {
    let mut buf = Vec::new();
    let longest = "a".repeat(65_535);
    encode_string(&mut buf, &longest).unwrap();
    assert_eq!(buf.len(), 65_537);
    assert_eq!(string_len(&longest), 65_537);
    let mut cursor = Cursor::new(&buf);
    assert_eq!(cursor.read_string().unwrap(), longest);

    buf.clear();
    let too_long = "a".repeat(65_536);
    assert!(matches!(
        encode_string(&mut buf, &too_long),
        Err(Error::StringTooLong(65_536))
    ));
    assert!(encode_binary(&mut buf, &vec![0; 65_536]).is_err());
    assert!(buf.is_empty());
    encode_binary(&mut buf, &vec![7; 65_535]).unwrap();
    assert_eq!(buf.len(), binary_len(&vec![7; 65_535]));
}

#[test]
fn strings_hold_no_nul_character() {
    assert!(matches!(
        encode_string(&mut Vec::new(), "a\0b"),
        Err(Error::MalformedPacket("string contains a NUL character"))
    ));
    assert!(Cursor::new(&[0, 1, 0]).read_string().is_err());
    assert!(Cursor::new(&[0, 1, 0xFF]).read_string().is_err());
    assert_eq!(Cursor::new(&[0, 2, 0xC3, 0xA4]).read_string().unwrap(), "ä");
}

#[test]
fn variable_ints_have_one_length_each() {
    for (value, len) in [
        (0, 1),
        (127, 1),
        (128, 2),
        (16_383, 2),
        (16_384, 3),
        (2_097_151, 3),
        (2_097_152, 4),
        (268_435_455, 4),
    ] {
        let mut buf = Vec::new();
        encode_variable_int(&mut buf, value).unwrap();
        assert_eq!(buf.len(), len);
        assert_eq!(variable_int_len(value), len);
    }
    assert!(matches!(
        Cursor::new(&[0xFF, 0xFF, 0xFF, 0xFF, 0x01]).read_variable_int(),
        Err(Error::MalformedPacket("variable int too long"))
    ));
    assert!(matches!(
        encode_variable_int(&mut Vec::new(), 268_435_456),
        Err(Error::PacketTooLarge {
            size: 268_435_456,
            max: 268_435_455
        })
    ));
}

#[test]
fn cursors_stop_where_the_data_ends() {
    let mut buf = Vec::new();
    encode_u32(&mut buf, 0x0102_0304);
    let mut cursor = Cursor::new(&buf);
    assert_eq!(cursor.read_u32().unwrap(), 0x0102_0304);
    assert_eq!(cursor.position(), 4);
    assert_eq!(cursor.remaining(), 0);
    assert!(cursor.remaining_bytes().is_empty());
    assert!(cursor.read_bytes(1).is_err());
    assert!(Cursor::new(&[0]).read_u16().is_err());
    assert!(Cursor::new(&[0, 0, 0]).read_u32().is_err());
    assert!(Cursor::new(&[0, 2, 1]).read_binary().is_err());
    assert_eq!(Cursor::new(&[0, 2, 1, 2]).read_binary().unwrap(), [1, 2]);
}

#[test]
fn qos_levels_above_one_are_rejected() {
    assert!(matches!(
        PublishPacket::decode(0x04, &[0, 1, b't', 0, 1, 0]),
        Err(Error::InvalidQoS(2))
    ));
    assert!(matches!(
        PublishPacket::decode(0x06, &[0, 1, b't', 0, 1, 0]),
        Err(Error::InvalidQoS(3))
    ));
    for (code, packet_type) in [(1, PacketType::Connect), (15, PacketType::Auth)] {
        assert_eq!(PacketType::from_u8(code).unwrap(), packet_type);
        assert_eq!(packet_type.code(), code);
    }
    assert!(PacketType::from_u8(16).is_err());
}

#[test]
fn header_flags_are_prescribed() {
    let header = |packet_type, flags| FixedHeader {
        packet_type,
        flags,
        remaining_length: 0,
    };
    for flags in 0..16 {
        assert!(validate_fixed_header(header(PacketType::Publish, flags)).is_ok());
        for packet_type in [
            PacketType::PubRel,
            PacketType::Subscribe,
            PacketType::Unsubscribe,
        ] {
            assert_eq!(
                validate_fixed_header(header(packet_type, flags)).is_ok(),
                flags == 2
            );
        }
        assert_eq!(
            validate_fixed_header(header(PacketType::PingResp, flags)).is_ok(),
            flags == 0
        );
    }
    for (packet_type, flags) in [
        (PacketType::PubRec, 0),
        (PacketType::PubRel, 2),
        (PacketType::Auth, 0),
        (PacketType::Connect, 0),
        (PacketType::Subscribe, 2),
    ] {
        assert!(matches!(
            Packet::decode(header(packet_type, flags), &[]),
            Err(Error::UnexpectedPacket(_))
        ));
    }
}

#[test]
fn packets_are_read_back_in_any_pieces() {
    let mut stream = message("events/new", b"payload").encode().unwrap();
    stream.extend_from_slice(
        &PubAckPacket {
            packet_id: 7,
            reason_code: 0x10,
        }
        .encode()
        .unwrap(),
    );
    stream.extend_from_slice(&[0xC0, 0x00, 0xD0, 0x00]);
    stream.extend_from_slice(&DisconnectPacket { reason_code: 0x8E }.encode().unwrap());
    for piece in 1..=stream.len() {
        let mut reader = FrameReader::new();
        let mut packets = Vec::new();
        let mut rest = stream.as_slice();
        while !rest.is_empty() {
            let len = piece.min(reader.remaining_capacity()).min(rest.len());
            reader.push(&rest[..len]);
            rest = &rest[len..];
            while let Some(packet) = reader.try_decode().unwrap() {
                packets.push(packet);
            }
        }
        assert_eq!(packets.len(), 5);
        match &packets[0] {
            Packet::Publish(publish) => {
                assert_eq!(*publish, message("events/new", b"payload"));
            }
            _ => panic!("expected PUBLISH"),
        }
        assert!(matches!(
            packets[1],
            Packet::PubAck(PubAckPacket {
                packet_id: 7,
                reason_code: 0x10
            })
        ));
        assert!(matches!(packets[2], Packet::PingReq));
        assert!(matches!(packets[3], Packet::PingResp));
        assert!(matches!(
            packets[4],
            Packet::Disconnect(DisconnectPacket { reason_code: 0x8E })
        ));
    }
}

#[test]
fn readers_hold_no_more_than_their_limit() {
    let mut reader = FrameReader::with_max_packet_size(4);
    assert_eq!(reader.max_packet_size(), 4);
    assert_eq!(reader.remaining_capacity(), 4);
    reader.push(&[0x30, 0x02, 0x00, 0x00, 0x00, 0x00]);
    assert_eq!(reader.remaining_capacity(), 0);
    assert!(matches!(
        reader.try_decode(),
        Err(Error::PacketTooLarge { size: 6, max: 4 })
    ));
}

#[test]
fn topic_names_are_filters_for_themselves() {
    for topic in ["events", "events/new", "/", "a//b", "$SYS/load"] {
        validate_topic_name(topic).unwrap();
        validate_topic_filter(topic).unwrap();
    }
    assert!(matches!(
        validate_topic_name(""),
        Err(Error::MalformedPacket("topic name is empty"))
    ));
}

#[test]
fn options_are_checked() {
    let now = Instant::from_nanos(0);
    let check = |options: ConnectOptions| options.validate(now);
    assert!(check(ConnectOptions::new("client")).is_ok());
    for (options, message) in [
        (
            ConnectOptions::new("c").with_connect_timeout(Duration::zero()),
            "connect timeout must be non-zero",
        ),
        (
            ConnectOptions::new("c").with_ack_timeout(Duration::zero()),
            "ack timeout must be non-zero",
        ),
        (
            ConnectOptions::new("c").with_poll_interval(Duration::zero()),
            "poll interval must be non-zero",
        ),
        (
            ConnectOptions::new("c").with_max_packet_size(1),
            "invalid maximum packet size",
        ),
        (
            ConnectOptions::new("c").with_max_packet_size(268_435_461),
            "invalid maximum packet size",
        ),
        (
            ConnectOptions::new("c").with_event_capacity(0),
            "queue capacities must be non-zero",
        ),
        (
            ConnectOptions::new("c").with_connect_timeout(Duration::max()),
            "timeout is too large",
        ),
    ] {
        match check(options) {
            Err(Error::InvalidOptions(text)) => assert_eq!(text, message),
            other => panic!("accepted: {other:?}"),
        }
    }
    let defaults = ConnectOptions::default();
    assert_eq!(defaults.keep_alive_secs(), 60);
    assert_eq!(defaults.connect_timeout(), Duration::from_secs(10));
    assert_eq!(defaults.ack_timeout(), Duration::from_secs(10));
    assert_eq!(defaults.max_packet_size(), 1_048_576);
    assert_eq!(defaults.max_incoming_messages(), 256);
    assert_eq!(defaults.command_capacity(), 64);
    assert_eq!(defaults.event_capacity(), 256);
    assert_eq!(defaults.max_outbound_queue_bytes(), 4 * 1_048_576);
    let options = PublishOptions::default().with_properties(Properties::new().user("a", "b"));
    assert_eq!(options.properties.user_properties(), [("a", "b")]);
}

#[test]
fn properties_are_looked_up_by_kind() {
    let mut properties = Properties::new();
    properties.push(PropertyId::ServerKeepAlive, PropertyValue::U16(30));
    properties.push(PropertyId::MaximumPacketSize, PropertyValue::U32(64));
    properties.push(
        PropertyId::ReasonString,
        PropertyValue::Str("why".to_owned()),
    );
    assert_eq!(properties.get_u16(PropertyId::ServerKeepAlive), Some(30));
    assert_eq!(properties.get_u32(PropertyId::MaximumPacketSize), Some(64));
    assert_eq!(properties.get_u32(PropertyId::ServerKeepAlive), None);
    assert_eq!(properties.get_string(PropertyId::ReasonString), Some("why"));
    assert_eq!(properties.get_binary(PropertyId::ReasonString), None);
    let mut buf = Vec::new();
    properties.encode(&mut buf).unwrap();
    assert_eq!(buf.len(), properties.encoded_len());
}

#[test]
fn connect_packets_are_laid_out_as_prescribed() {
    let connect = ConnectPacket {
        protocol_version: 5,
        clean_start: true,
        keep_alive: 30,
        client_id: "c".to_owned(),
        username: Some("u".to_owned()),
        password: Some(b"p".to_vec()),
        properties: Properties::new(),
    };
    assert_eq!(
        connect.encode().unwrap(),
        [
            0x10, 0x14, 0x00, 0x04, b'M', b'Q', b'T', b'T', 0x05, 0xC2, 0x00, 0x1E, 0x00, 0x00,
            0x01, b'c', 0x00, 0x01, b'u', 0x00, 0x01, b'p',
        ]
    );
    let old = ConnectPacket {
        protocol_version: 4,
        ..connect
    };
    assert!(matches!(
        old.encode(),
        Err(Error::MalformedPacket("only MQTT v5 is supported"))
    ));
}

#[test]
fn lifecycles_bound_and_forget_requests() {
    let mut lifecycle = RequestLifecycle::new(2);
    lifecycle.register(vec![1]).unwrap();
    assert!(matches!(
        lifecycle.register(vec![1]),
        Err(Error::InvalidOptions("duplicate request correlation data"))
    ));
    lifecycle.register(vec![2]).unwrap();
    assert!(matches!(
        lifecycle.register(vec![3]),
        Err(Error::QueueFull("pending request"))
    ));
    lifecycle.cancel(vec![3]);
    assert!(lifecycle.cancelled().is_empty());
    lifecycle.cancel(vec![2]);
    assert_eq!(lifecycle.cancelled(), [vec![2]]);
    lifecycle.finish(&[2]);
    assert!(lifecycle.cancelled().is_empty());
    assert!(!lifecycle.consume_cancellation(&[1]));
    lifecycle.register(vec![3]).unwrap();

    assert!(matches!(
        validate_payload(9, 8),
        Err(Error::PacketTooLarge { size: 9, max: 8 })
    ));
    assert!(validate_payload(8, 8).is_ok());
    assert!(matches!(refused_command(true), Error::QueueFull("command")));
    assert!(matches!(refused_command(false), Error::ClientClosed));
}

#[test]
fn reason_codes_are_counted_and_searched_for_refusals() {
    assert!(validate_reason_codes("UNSUBACK", &[0], 1).is_ok());
    assert!(matches!(
        validate_reason_codes("UNSUBACK", &[0, 0], 1),
        Err(Error::MalformedPacket("ack reason code count mismatch"))
    ));
    assert!(matches!(
        validate_reason_codes("UNSUBACK", &[0, 0x87, 0x80], 3),
        Err(Error::AckRejected {
            packet: "UNSUBACK",
            reason_code: 0x87
        })
    ));
}

#[test]
fn trace_contexts_need_identifiers() {
    assert!(TraceContext::new_root([0; 16], [1; 8]).is_none());
    assert!(TraceContext::new_root([1; 16], [0; 8]).is_none());
    let root = TraceContext::new_root([1; 16], [2; 8]).unwrap();
    assert!(root.child([0; 8]).is_none());

    let parsed = TraceContext::parse_traceparent(
        "00-0af7651916cd43dd8448eb211c80319c-b7ad6b7169203331-00",
        Some("vendor=1"),
    )
    .unwrap();
    assert_eq!(parsed.trace_flags, 0);
    let mut properties = Properties::new();
    parsed.inject(&mut properties);
    assert_eq!(
        properties.user_properties(),
        [
            (
                "traceparent",
                "00-0af7651916cd43dd8448eb211c80319c-b7ad6b7169203331-00"
            ),
            ("tracestate", "vendor=1"),
        ]
    );
    assert_eq!(TraceContext::from_properties(&properties).unwrap(), parsed);
    assert!(TraceContext::parse_traceparent(
        "ff-0af7651916cd43dd8448eb211c80319c-b7ad6b7169203331-00",
        None
    )
    .is_none());
    assert!(TraceContext::from_properties(&Properties::new()).is_none());
}

#[test]
fn times_saturate() {
    let early = Instant::from_nanos(5);
    let late = Instant::from_nanos(8);
    assert_eq!(late.since(early).as_nanos(), 3);
    assert!(early.since(late).is_zero());
    assert!(late.has_reached(early));
    assert!(early.checked_add(Duration::max()).is_none());
    assert_eq!(
        early.checked_add(Duration::new(1, 1)).unwrap().as_nanos(),
        1_000_000_006
    );
    assert_eq!(early.left(Duration::from_secs(1), late).as_nanos(), 999_999_997);
    assert_eq!(
        Duration::from_millis(1).min(Duration::from_secs(1)),
        Duration::from_millis(1)
    );
    assert_eq!(
        Duration::from_millis(1).max_of(Duration::from_secs(1)),
        Duration::from_secs(1)
    );
}
