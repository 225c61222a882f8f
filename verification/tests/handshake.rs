use std::collections::VecDeque;

use mqtt_wasi::async_client::handshake::{connect_deadline, Handshake, HandshakeStep, Negotiated};
use mqtt_wasi::codec::connect::ServerCapabilities;
use mqtt_wasi::codec::decode::{decode_fixed_header, Cursor};
use mqtt_wasi::codec::encode::encode_fixed_header;
use mqtt_wasi::codec::properties::{Properties, PropertyId, PropertyValue};
use mqtt_wasi::codec::types::{PacketType, QoS};
use mqtt_wasi::error::{Error, ErrorKind, IoError, Result};
use mqtt_wasi::options::ConnectOptions;
use mqtt_wasi::time::{Duration, Instant};

/// A transport whose clock only moves while it reads.
#[derive(Default)]
struct MockTransport {
    reads: VecDeque<Vec<u8>>,
    writes: Vec<u8>,
    max_write: Option<usize>,
    write_errors: VecDeque<ErrorKind>,
    flush_error: Option<ErrorKind>,
    read_delay: u64,
    read: usize,
    now: u64,
}

impl MockTransport {
    fn reading(reads: impl IntoIterator<Item = Vec<u8>>) -> Self {
        Self {
            reads: reads.into_iter().collect(),
            ..Self::default()
        }
    }

    fn now(&self) -> Instant {
        Instant::from_nanos(self.now)
    }

    fn write(&mut self, bytes: &[u8]) -> std::result::Result<usize, IoError> {
        if let Some(kind) = self.write_errors.pop_front() {
            return Err(IoError::new(kind, "write failed"));
        }
        let written = self.max_write.unwrap_or(bytes.len()).min(bytes.len());
        self.writes.extend_from_slice(&bytes[..written]);
        Ok(written)
    }

    fn read(&mut self, buf: &mut [u8]) -> std::result::Result<usize, IoError> {
        self.now += self.read_delay;
        let Some(mut data) = self.reads.pop_front() else {
            return Err(IoError::new(ErrorKind::WouldBlock, "nothing to read"));
        };
        let read = data.len().min(buf.len());
        buf[..read].copy_from_slice(&data[..read]);
        if read < data.len() {
            self.reads.push_front(data.split_off(read));
        }
        self.read += read;
        Ok(read)
    }
}

fn shake_hands(
    transport: &mut MockTransport,
    options: &ConnectOptions,
    deadline: Instant,
) -> Result<Negotiated> {
    let mut handshake = Handshake::new(options, deadline)?;
    loop {
        match handshake.next_step(transport.now())? {
            HandshakeStep::Write { .. } => {
                let outcome = transport.write(handshake.pending_write());
                handshake.wrote(outcome, transport.now())?;
            }
            HandshakeStep::Flush { .. } => {
                let outcome = match transport.flush_error {
                    Some(kind) => Err(IoError::new(kind, "flush failed")),
                    None => Ok(()),
                };
                handshake.flushed(outcome, transport.now())?;
            }
            HandshakeStep::Read { max, .. } => {
                let mut buf = vec![0; max];
                let outcome = transport.read(&mut buf);
                if let Some(terms) = handshake.received(outcome, &buf, transport.now())? {
                    return Ok(terms);
                }
            }
        }
    }
}

fn connect_with(transport: &mut MockTransport, options: ConnectOptions) -> Result<Negotiated> {
    options.validate(transport.now())?;
    let deadline = connect_deadline(options.connect_timeout(), transport.now())?;
    shake_hands(transport, &options, deadline)
}

fn encode_connack(session_present: bool, properties: Properties) -> Vec<u8> {
    let mut body = vec![u8::from(session_present), 0x00];
    properties.encode(&mut body).unwrap();
    let mut packet = Vec::new();
    encode_fixed_header(&mut packet, PacketType::ConnAck, 0, body.len() as u32).unwrap();
    packet.extend_from_slice(&body);
    packet
}

#[test]
fn blocking_handshake_rejects_invalid_connack_flags() {
    let mut transport = MockTransport::reading([vec![0x21, 0x03, 0x00, 0x00, 0x00]]);
    let options = ConnectOptions::new("client").with_max_packet_size(1024);
    let deadline = connect_deadline(Duration::from_secs(1), transport.now()).unwrap();
    assert!(matches!(
        shake_hands(&mut transport, &options, deadline),
        Err(Error::MalformedPacket("invalid fixed-header flags"))
    ));
}

#[test]
fn async_client_connect_advertises_packet_and_receive_limits() {
    let mut transport = MockTransport::reading([vec![0x20, 0x03, 0x00, 0x00, 0x00]]);
    let options = ConnectOptions::new("limit-test")
        .with_max_packet_size(128)
        .with_event_capacity(7);
    connect_with(&mut transport, options).unwrap();

    let writes = transport.writes;
    let (header, header_len) = decode_fixed_header(&writes).unwrap();
    assert_eq!(header.packet_type, PacketType::Connect);
    let mut cursor = Cursor::new(&writes[header_len..]);
    assert_eq!(cursor.read_string().unwrap(), "MQTT");
    assert_eq!(cursor.read_u8().unwrap(), 5);
    let _connect_flags = cursor.read_u8().unwrap();
    let _keep_alive = cursor.read_u16().unwrap();
    let properties = Properties::decode(&mut cursor).unwrap();
    assert_eq!(properties.get_u32(PropertyId::MaximumPacketSize), Some(128));
    assert_eq!(properties.get_u16(PropertyId::ReceiveMaximum), Some(7));
}

#[test]
fn async_client_connect_validates_session_present_and_assigned_client_identifier() {
    let mut missing_assignment = MockTransport::reading([encode_connack(false, Properties::new())]);
    assert!(matches!(
        connect_with(&mut missing_assignment, ConnectOptions::new("")),
        Err(Error::MalformedPacket(
            "CONNACK omitted a non-empty assigned client identifier"
        ))
    ));

    let mut resumed_after_clean_start =
        MockTransport::reading([encode_connack(true, Properties::new())]);
    assert!(matches!(
        connect_with(
            &mut resumed_after_clean_start,
            ConnectOptions::new("requested-client")
        ),
        Err(Error::MalformedPacket(
            "CONNACK has session present after clean start"
        ))
    ));

    let mut properties = Properties::new();
    properties.push(
        PropertyId::AssignedClientIdentifier,
        PropertyValue::Str("assigned-client".to_owned()),
    );
    let mut assigned = MockTransport::reading([encode_connack(false, properties)]);
    assert!(connect_with(
        &mut assigned,
        ConnectOptions::new("").with_clean_start(false)
    )
    .is_ok());
}

#[test]
fn connect_timeout_is_shared_across_slow_progress_reads() {
    let mut transport = MockTransport::reading([vec![0x20, 0x03, 0x00, 0x00, 0x00]]);
    transport.read_delay = 5_000_000;
    let options =
        ConnectOptions::new("slow-handshake").with_connect_timeout(Duration::from_millis(1));

    assert!(matches!(
        connect_with(&mut transport, options),
        Err(Error::Timeout("connect"))
    ));

    // Each read is quick enough, but not all of them together.
    let mut transport = MockTransport::reading([vec![0x20, 0x03, 0x00, 0x00, 0x00]]);
    transport.read_delay = 400_000;
    let options =
        ConnectOptions::new("slow-handshake").with_connect_timeout(Duration::from_millis(1));
    assert!(matches!(
        connect_with(&mut transport, options),
        Err(Error::Timeout("connect"))
    ));
    assert_eq!(transport.read, 5);
}

#[test]
fn connack_settles_the_terms_and_nothing_behind_it_is_read() {
    let mut properties = Properties::new();
    properties.push(PropertyId::ServerKeepAlive, PropertyValue::U16(30));
    properties.push(PropertyId::MaximumPacketSize, PropertyValue::U32(2048));
    properties.push(PropertyId::ReceiveMaximum, PropertyValue::U16(5));
    properties.push(PropertyId::MaximumQoS, PropertyValue::Byte(0));
    let connack = encode_connack(false, properties);
    let len = connack.len();
    let mut bytes = connack;
    bytes.extend_from_slice(&[0xD0, 0x00]);
    let mut transport = MockTransport::reading([bytes]);
    let terms = connect_with(&mut transport, ConnectOptions::new("client")).unwrap();
    assert_eq!(
        terms,
        Negotiated {
            capabilities: ServerCapabilities {
                maximum_qos: QoS::AtMostOnce,
                ..ServerCapabilities::default()
            },
            keep_alive_secs: 30,
            max_packet_size: 2048,
            receive_maximum: 5,
        }
    );
    assert_eq!(transport.read, len);

    let mut transport = MockTransport::reading([vec![0x20, 0x03, 0x00, 0x00, 0x00]]);
    let terms = connect_with(&mut transport, ConnectOptions::new("client")).unwrap();
    assert_eq!(
        terms,
        Negotiated {
            capabilities: ServerCapabilities::default(),
            keep_alive_secs: 60,
            max_packet_size: 268_435_460,
            receive_maximum: 65_535,
        }
    );
}

#[test]
fn handshake_reports_what_the_broker_answers_instead() {
    for (answer, expected) in [
        (
            vec![0x20, 0x03, 0x00, 0x87, 0x00],
            "connection refused",
        ),
        (vec![0xD0, 0x00], "expected CONNACK"),
        (
            vec![0x20, 0xFF, 0xFF, 0xFF, 0xFF],
            "variable int too long",
        ),
        (vec![0x20, 0xFF, 0xFF, 0x7F], "packet too large"),
        (vec![0x00, 0x03], "invalid packet type"),
        (vec![], "connection closed"),
    ] {
        let mut transport = MockTransport::reading([answer]);
        let error = connect_with(&mut transport, ConnectOptions::new("client")).unwrap_err();
        match expected {
            "connection refused" => assert!(matches!(error, Error::ConnectionRefused(0x87))),
            "expected CONNACK" => {
                assert!(matches!(error, Error::UnexpectedPacket("expected CONNACK")))
            }
            "variable int too long" => assert!(matches!(
                error,
                Error::MalformedPacket("variable int too long")
            )),
            "packet too large" => assert!(matches!(
                error,
                Error::PacketTooLarge {
                    size: 2_097_155,
                    max: 1_048_576
                }
            )),
            "invalid packet type" => assert!(matches!(error, Error::InvalidPacketType(0))),
            _ => assert!(matches!(error, Error::ConnectionClosed)),
        }
    }
}

#[test]
fn handshake_survives_partial_and_interrupted_writes() {
    let connack = || vec![0x20, 0x03, 0x00, 0x00, 0x00];
    let mut transport = MockTransport::reading([connack()]);
    transport.max_write = Some(3);
    transport.write_errors = VecDeque::from([ErrorKind::Interrupted]);
    connect_with(&mut transport, ConnectOptions::new("client")).unwrap();
    let (header, header_len) = decode_fixed_header(&transport.writes).unwrap();
    assert_eq!(
        transport.writes.len(),
        header_len + header.remaining_length as usize
    );

    let mut stuck = MockTransport::reading([connack()]);
    stuck.max_write = Some(0);
    assert!(matches!(
        connect_with(&mut stuck, ConnectOptions::new("client")),
        Err(Error::Io(error)) if error.kind() == ErrorKind::WriteZero
    ));

    let mut blocked = MockTransport::reading([connack()]);
    blocked.write_errors = VecDeque::from([ErrorKind::WouldBlock]);
    assert!(matches!(
        connect_with(&mut blocked, ConnectOptions::new("client")),
        Err(Error::Timeout("connect"))
    ));

    let mut broken = MockTransport::reading([connack()]);
    broken.flush_error = Some(ErrorKind::BrokenPipe);
    assert!(matches!(
        connect_with(&mut broken, ConnectOptions::new("client")),
        Err(Error::Io(error)) if error.kind() == ErrorKind::BrokenPipe
    ));
}

#[test]
fn handshake_rejects_transports_that_report_too_much() {
    let options = ConnectOptions::new("client");
    let deadline = Instant::from_nanos(100);
    let now = Instant::from_nanos(0);
    let mut handshake = Handshake::new(&options, deadline).unwrap();
    let len = handshake.pending_write().len();
    assert!(matches!(
        handshake.wrote(Ok(len + 1), now),
        Err(Error::Io(error)) if error.message() == "transport reported an oversized write"
    ));
    handshake.wrote(Ok(len), now).unwrap();
    handshake.flushed(Ok(()), now).unwrap();
    assert!(matches!(
        handshake.received(Ok(2), &[0x20, 0x03], now),
        Err(Error::Io(error)) if error.message() == "transport reported an oversized read"
    ));
}
