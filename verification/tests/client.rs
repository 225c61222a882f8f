use std::collections::VecDeque;

use mqtt_wasi::client::{Incoming, Session, Step};
use mqtt_wasi::codec::decode::{decode_fixed_header, Cursor};
use mqtt_wasi::codec::encode::{encode_fixed_header, encode_u16};
use mqtt_wasi::codec::ping::PINGREQ_BYTES;
use mqtt_wasi::codec::properties::{Properties, PropertyId, PropertyValue};
use mqtt_wasi::codec::types::{DisconnectPacket, PacketType, PubAckPacket, PublishPacket, QoS};
use mqtt_wasi::error::{Error, ErrorKind, IoError, Result};
use mqtt_wasi::options::{ConnectOptions, PublishOptions};
use mqtt_wasi::time::{Duration, Instant};

enum ReadStep {
    Data(Vec<u8>),
    Error(ErrorKind),
    TimeoutForever,
    Eof,
}

/// A transport whose clock only moves while a read waits.
struct MockTransport {
    reads: VecDeque<ReadStep>,
    writes: Vec<Vec<u8>>,
    write_result: Option<ErrorKind>,
    max_read_request: usize,
    now: u64,
}

impl MockTransport {
    fn new(reads: impl IntoIterator<Item = ReadStep>) -> Self {
        Self {
            reads: reads.into_iter().collect(),
            writes: Vec::new(),
            write_result: None,
            max_read_request: 0,
            now: 1,
        }
    }

    fn now(&self) -> Instant {
        Instant::from_nanos(self.now)
    }

    fn write_all(&mut self, bytes: &[u8]) -> std::result::Result<(), IoError> {
        if let Some(kind) = self.write_result {
            return Err(IoError::new(kind, "write failed"));
        }
        self.writes.push(bytes.to_vec());
        Ok(())
    }

    fn read(
        &mut self,
        timeout: Option<Duration>,
        max: usize,
    ) -> std::result::Result<Vec<u8>, IoError> {
        self.max_read_request = self.max_read_request.max(max);
        match self.reads.pop_front().unwrap_or(ReadStep::Eof) {
            ReadStep::Data(mut data) => {
                if data.len() > max {
                    let rest = data.split_off(max);
                    self.reads.push_front(ReadStep::Data(rest));
                }
                Ok(data)
            }
            ReadStep::Error(kind) => {
                if kind == ErrorKind::TimedOut {
                    self.now += timeout.unwrap().as_nanos() as u64;
                }
                Err(IoError::new(kind, "read failed"))
            }
            ReadStep::TimeoutForever => {
                self.now += timeout.unwrap().as_nanos() as u64;
                self.reads.push_front(ReadStep::TimeoutForever);
                Err(IoError::new(ErrorKind::TimedOut, "timed out"))
            }
            ReadStep::Eof => Ok(Vec::new()),
        }
    }
}

struct Client {
    session: Session,
    stream: MockTransport,
}

fn drive(session: &mut Session, stream: &mut MockTransport, first: Step) -> Result<Option<PublishPacket>> {
    let mut step = first;
    loop {
        step = match step {
            Step::Send(bytes) => {
                let outcome = stream.write_all(&bytes);
                session.sent(outcome, stream.now())
            }
            Step::Read { timeout, max } => match stream.read(timeout, max) {
                Ok(data) => session.received(Ok(&data), stream.now()),
                Err(error) => session.received(Err(error), stream.now()),
            },
            Step::Done(result) => return result,
        };
    }
}

impl Client {
    fn connect_with(stream: MockTransport, options: ConnectOptions) -> Result<Self> {
        let mut stream = stream;
        let (mut session, step) = Session::connect(&options, stream.now())?;
        drive(&mut session, &mut stream, step)?;
        Ok(Self { session, stream })
    }

    fn publish(&mut self, topic: &str, payload: &[u8], options: PublishOptions) -> Result<()> {
        let step = self.session.publish(topic, payload, options);
        drive(&mut self.session, &mut self.stream, step).map(|_| ())
    }

    fn subscribe(&mut self, filter: &str, qos: QoS) -> Result<()> {
        let step = self.session.subscribe(filter, qos);
        drive(&mut self.session, &mut self.stream, step).map(|_| ())
    }

    fn unsubscribe(&mut self, filter: &str) -> Result<()> {
        let step = self.session.unsubscribe(filter);
        drive(&mut self.session, &mut self.stream, step).map(|_| ())
    }

    fn recv(&mut self) -> Result<Option<PublishPacket>> {
        let step = self.session.recv(self.stream.now());
        drive(&mut self.session, &mut self.stream, step)
    }

    fn disconnect(&mut self) -> Result<()> {
        let step = self.session.disconnect();
        drive(&mut self.session, &mut self.stream, step).map(|_| ())
    }

    fn connected(&self) -> bool {
        self.session.is_connected()
    }
}

fn client_on_terms(
    stream: MockTransport,
    keep_alive_secs: u16,
    ack_timeout: Duration,
    max_incoming_messages: usize,
    terms: Properties,
) -> Client {
    let mut stream = stream;
    stream
        .reads
        .push_front(ReadStep::Data(encode_connack(false, terms)));
    let options = ConnectOptions::new("client")
        .with_keep_alive(keep_alive_secs)
        .with_ack_timeout(ack_timeout)
        .with_max_packet_size(1024)
        .with_max_incoming_messages(max_incoming_messages);
    let mut client = Client::connect_with(stream, options).unwrap();
    client.stream.writes.clear();
    client.stream.max_read_request = 0;
    client
}

fn client_with(
    stream: MockTransport,
    keep_alive_secs: u16,
    ack_timeout: Duration,
    max_incoming_messages: usize,
) -> Client {
    client_on_terms(
        stream,
        keep_alive_secs,
        ack_timeout,
        max_incoming_messages,
        Properties::new(),
    )
}

fn encode_ack(packet_type: PacketType, packet_id: u16, reason_code: u8) -> Vec<u8> {
    let mut body = Vec::new();
    encode_u16(&mut body, packet_id);
    Properties::new().encode(&mut body).unwrap();
    body.push(reason_code);
    let mut packet = Vec::new();
    encode_fixed_header(&mut packet, packet_type, 0, body.len() as u32).unwrap();
    packet.extend_from_slice(&body);
    packet
}

fn encode_suback(packet_id: u16, reason_code: u8) -> Vec<u8> {
    encode_ack(PacketType::SubAck, packet_id, reason_code)
}

fn encode_unsuback(packet_id: u16, reason_code: u8) -> Vec<u8> {
    encode_ack(PacketType::UnsubAck, packet_id, reason_code)
}

fn encode_connack(session_present: bool, properties: Properties) -> Vec<u8> {
    let mut body = vec![u8::from(session_present), 0x00];
    properties.encode(&mut body).unwrap();
    let mut packet = Vec::new();
    encode_fixed_header(&mut packet, PacketType::ConnAck, 0, body.len() as u32).unwrap();
    packet.extend_from_slice(&body);
    packet
}

fn message(topic: &str, payload: &[u8], packet_id: Option<u16>) -> Vec<u8> {
    PublishPacket {
        topic: String::from(topic),
        packet_id,
        payload: payload.to_vec(),
        qos: if packet_id.is_some() {
            QoS::AtLeastOnce
        } else {
            QoS::AtMostOnce
        },
        retain: false,
        dup: false,
        properties: Properties::new(),
    }
    .encode()
    .unwrap()
}

fn puback(packet_id: u16, reason_code: u8) -> Vec<u8> {
    PubAckPacket {
        packet_id,
        reason_code,
    }
    .encode()
    .unwrap()
}

#[test]
fn qos1_publish_surfaces_negative_puback() {
    let puback = PubAckPacket {
        packet_id: 1,
        reason_code: 0x80,
    }
    .encode()
    .unwrap();
    let stream = MockTransport::new([ReadStep::Data(puback)]);
    let mut client = client_with(stream, 0, Duration::from_secs(1), 8);

    let error = client
        .publish(
            "topic",
            b"payload",
            PublishOptions::default().with_qos(QoS::AtLeastOnce),
        )
        .unwrap_err();
    assert!(matches!(
        error,
        Error::AckRejected {
            packet: "PUBACK",
            reason_code: 0x80
        }
    ));
}

#[test]
fn inbound_publish_is_preserved_while_waiting_for_ack() {
    let inbound = message("events/one", b"event", None);
    let puback = PubAckPacket {
        packet_id: 1,
        reason_code: 0x00,
    }
    .encode()
    .unwrap();
    let mut bytes = inbound;
    bytes.extend_from_slice(&puback);
    let stream = MockTransport::new([ReadStep::Data(bytes)]);
    let mut client = client_with(stream, 0, Duration::from_secs(1), 8);

    client
        .publish(
            "commands",
            b"go",
            PublishOptions::default().with_qos(QoS::AtLeastOnce),
        )
        .unwrap();
    let message = client.recv().unwrap().unwrap();
    assert_eq!(message.topic, "events/one");
    assert_eq!(message.payload, b"event");
}

#[test]
fn subscribe_surfaces_negative_suback() {
    let stream = MockTransport::new([ReadStep::Data(encode_suback(1, 0x80))]);
    let mut client = client_with(stream, 0, Duration::from_secs(1), 8);

    let error = client.subscribe("topic", QoS::AtMostOnce).unwrap_err();
    assert!(matches!(
        error,
        Error::AckRejected {
            packet: "SUBACK",
            reason_code: 0x80
        }
    ));
}

#[test]
fn invalid_topics_fail_without_writing_or_closing_the_blocking_client() {
    let stream = MockTransport::new([]);
    let mut client = client_with(stream, 0, Duration::from_secs(1), 8);

    assert!(matches!(
        client.publish("events/#", b"payload", PublishOptions::default()),
        Err(Error::MalformedPacket("topic name contains a wildcard"))
    ));
    assert!(client.subscribe("events/#/new", QoS::AtMostOnce).is_err());
    assert!(client.unsubscribe("").is_err());
    assert!(client.connected());
    assert!(client.stream.writes.is_empty());
}

#[test]
fn broker_capabilities_reject_new_operations_but_allow_unsubscribe() {
    let stream = MockTransport::new([
        ReadStep::Data(encode_unsuback(1, 0x00)),
        ReadStep::Data(encode_unsuback(2, 0x00)),
    ]);
    let mut terms = Properties::new();
    terms.push(PropertyId::MaximumQoS, PropertyValue::Byte(0));
    terms.push(PropertyId::RetainAvailable, PropertyValue::Byte(0));
    terms.push(
        PropertyId::WildcardSubscriptionAvailable,
        PropertyValue::Byte(0),
    );
    terms.push(
        PropertyId::SharedSubscriptionAvailable,
        PropertyValue::Byte(0),
    );
    let mut client = client_on_terms(stream, 0, Duration::from_secs(1), 8, terms);

    assert!(matches!(
        client.publish(
            "events/new",
            b"payload",
            PublishOptions::default().with_qos(QoS::AtLeastOnce),
        ),
        Err(Error::InvalidOptions(
            "broker does not support QoS 1 publishing"
        ))
    ));
    assert!(matches!(
        client.publish(
            "events/new",
            b"payload",
            PublishOptions::default().with_retain(true),
        ),
        Err(Error::InvalidOptions(
            "broker does not support retained publishing"
        ))
    ));
    assert!(matches!(
        client.subscribe("events/+", QoS::AtMostOnce),
        Err(Error::InvalidOptions(
            "broker does not support wildcard subscriptions"
        ))
    ));
    assert!(matches!(
        client.subscribe("$share/workers/events", QoS::AtMostOnce),
        Err(Error::InvalidOptions(
            "broker does not support shared subscriptions"
        ))
    ));
    assert!(client.stream.writes.is_empty());

    client.unsubscribe("events/#").unwrap();
    client.unsubscribe("$share/workers/events/#").unwrap();
    assert_eq!(client.stream.writes.len(), 2);
    assert!(client.connected());
}

#[test]
fn subscribe_rejects_qos_grant_above_request_and_closes_session() {
    let stream = MockTransport::new([ReadStep::Data(encode_suback(1, 0x01))]);
    let mut client = client_with(stream, 0, Duration::from_secs(1), 8);

    assert!(matches!(
        client.subscribe("topic", QoS::AtMostOnce),
        Err(Error::MalformedPacket(
            "SUBACK granted unsupported or unrequested QoS"
        ))
    ));
    assert!(matches!(
        client.subscribe("other", QoS::AtMostOnce),
        Err(Error::ClientClosed)
    ));
}

#[test]
fn subscribe_rejects_unsupported_qos_two_grant() {
    let stream = MockTransport::new([ReadStep::Data(encode_suback(1, 0x02))]);
    let mut client = client_with(stream, 0, Duration::from_secs(1), 8);

    assert!(matches!(
        client.subscribe("topic", QoS::AtLeastOnce),
        Err(Error::MalformedPacket(
            "SUBACK granted unsupported or unrequested QoS"
        ))
    ));
    assert!(!client.connected());
}

#[test]
fn full_incoming_queue_is_reported_during_ack_wait() {
    let inbound = message("events/overflow", b"", None);
    let mut queued = message("already/queued", b"", None);
    queued.extend_from_slice(&encode_suback(1, 0x00));
    let stream = MockTransport::new([ReadStep::Data(queued), ReadStep::Data(inbound)]);
    let mut client = client_with(stream, 0, Duration::from_secs(1), 1);
    client.subscribe("already/#", QoS::AtMostOnce).unwrap();

    let error = client
        .publish(
            "commands",
            b"go",
            PublishOptions::default().with_qos(QoS::AtLeastOnce),
        )
        .unwrap_err();
    assert!(matches!(error, Error::QueueFull("incoming message")));
    assert!(matches!(
        client.subscribe("events", QoS::AtMostOnce),
        Err(Error::ClientClosed)
    ));
}

#[test]
fn missing_ping_response_has_a_deadline() {
    let stream = MockTransport::new([
        ReadStep::Error(ErrorKind::TimedOut),
        ReadStep::Error(ErrorKind::TimedOut),
    ]);
    let mut client = client_with(stream, 10, Duration::from_millis(1), 8);

    assert!(matches!(client.recv(), Err(Error::KeepAliveTimeout)));
    assert_eq!(client.stream.writes, [PINGREQ_BYTES.to_vec()]);
    assert!(!client.connected());
}

#[test]
fn acknowledgement_timeout_closes_ambiguous_session() {
    let stream = MockTransport::new([ReadStep::TimeoutForever]);
    let mut client = client_with(stream, 0, Duration::from_millis(1), 8);

    assert!(matches!(
        client.publish(
            "commands",
            b"go",
            PublishOptions::default().with_qos(QoS::AtLeastOnce),
        ),
        Err(Error::Timeout("PUBACK"))
    ));
    assert!(matches!(
        client.subscribe("events", QoS::AtMostOnce),
        Err(Error::ClientClosed)
    ));
}

#[test]
fn packet_reads_respect_frame_capacity() {
    let packet = message("bounded", &[0; 24], None);
    let stream = MockTransport::new([
        ReadStep::Data(encode_connack(false, Properties::new())),
        ReadStep::Data(packet),
    ]);
    let options = ConnectOptions::new("client").with_max_packet_size(64);
    let mut client = Client::connect_with(stream, options).unwrap();

    assert_eq!(client.recv().unwrap().unwrap().topic, "bounded");
    assert!(client.stream.max_read_request <= 64);
}

#[test]
fn fatal_read_error_poisons_client_and_terminates_incoming_iterator() {
    let stream = MockTransport::new([ReadStep::Error(ErrorKind::ConnectionReset)]);
    let mut client = client_with(stream, 0, Duration::from_secs(1), 8);

    let mut incoming = Incoming::new();
    assert!(!incoming.is_done());
    assert!(matches!(
        incoming.item(client.recv()),
        Some(Err(Error::Io(_)))
    ));
    assert!(incoming.is_done());
    assert!(matches!(
        client.subscribe("events", QoS::AtMostOnce),
        Err(Error::ClientClosed)
    ));
}

#[test]
fn client_connect_advertises_packet_and_receive_limits() {
    // CONNACK: session=false, success, empty properties.
    let stream = MockTransport::new([ReadStep::Data(vec![0x20, 0x03, 0, 0, 0])]);
    let options = ConnectOptions::new("bounded-client")
        .with_max_packet_size(4096)
        .with_max_incoming_messages(7);
    let client = Client::connect_with(stream, options).unwrap();
    let connect = &client.stream.writes[0];

    let (header, header_len) = decode_fixed_header(connect).unwrap();
    assert_eq!(header.packet_type, PacketType::Connect);
    let mut cursor = Cursor::new(&connect[header_len..]);
    assert_eq!(cursor.read_string().unwrap(), "MQTT");
    assert_eq!(cursor.read_u8().unwrap(), 5);
    cursor.read_u8().unwrap();
    cursor.read_u16().unwrap();
    let properties = Properties::decode(&mut cursor).unwrap();

    assert_eq!(
        properties.get_u32(PropertyId::MaximumPacketSize),
        Some(4096)
    );
    assert_eq!(properties.get_u16(PropertyId::ReceiveMaximum), Some(7));
}

#[test]
fn client_connect_validates_session_present_and_assigned_client_identifier() {
    let missing_assignment =
        MockTransport::new([ReadStep::Data(encode_connack(false, Properties::new()))]);
    assert!(matches!(
        Client::connect_with(missing_assignment, ConnectOptions::new("")),
        Err(Error::MalformedPacket(
            "CONNACK omitted a non-empty assigned client identifier"
        ))
    ));

    let resumed_after_clean_start =
        MockTransport::new([ReadStep::Data(encode_connack(true, Properties::new()))]);
    assert!(matches!(
        Client::connect_with(
            resumed_after_clean_start,
            ConnectOptions::new("requested-client")
        ),
        Err(Error::MalformedPacket(
            "CONNACK has session present after clean start"
        ))
    ));

    let mut properties = Properties::new();
    properties.push(
        PropertyId::AssignedClientIdentifier,
        PropertyValue::Str(String::from("assigned-client")),
    );
    let assigned = MockTransport::new([ReadStep::Data(encode_connack(false, properties))]);
    assert!(Client::connect_with(
        assigned,
        ConnectOptions::new("").with_clean_start(false)
    )
    .is_ok());
}

#[test]
fn connect_reports_refusals_timeouts_and_other_packets() {
    let refused = MockTransport::new([ReadStep::Data(vec![0x20, 0x03, 0, 0x87, 0])]);
    assert!(matches!(
        Client::connect_with(refused, ConnectOptions::new("client")),
        Err(Error::ConnectionRefused(0x87))
    ));

    let silent = MockTransport::new([ReadStep::TimeoutForever]);
    assert!(matches!(
        Client::connect_with(silent, ConnectOptions::new("client")),
        Err(Error::Timeout("connect"))
    ));

    let chatty = MockTransport::new([ReadStep::Data(vec![0xD0, 0x00])]);
    assert!(matches!(
        Client::connect_with(chatty, ConnectOptions::new("client")),
        Err(Error::UnexpectedPacket("expected CONNACK"))
    ));

    let gone = MockTransport::new([]);
    assert!(matches!(
        Client::connect_with(gone, ConnectOptions::new("client")),
        Err(Error::ConnectionClosed)
    ));

    let unchecked = MockTransport::new([]);
    assert!(matches!(
        Client::connect_with(
            unchecked,
            ConnectOptions::new("client").with_ack_timeout(Duration::zero())
        ),
        Err(Error::InvalidOptions("ack timeout must be non-zero"))
    ));
}

#[test]
fn incoming_messages_are_handed_out_oldest_first() {
    let mut bytes = message("first", b"1", None);
    bytes.extend_from_slice(&message("second", b"2", Some(9)));
    bytes.extend_from_slice(&encode_suback(1, 0x01));
    let stream = MockTransport::new([ReadStep::Data(bytes)]);
    let mut client = client_with(stream, 0, Duration::from_secs(1), 8);

    client.subscribe("#", QoS::AtLeastOnce).unwrap();
    // The QoS 1 message was acknowledged while the SUBACK was waited for.
    assert_eq!(client.stream.writes[1], puback(9, 0x00));
    assert_eq!(client.recv().unwrap().unwrap().topic, "first");
    assert_eq!(client.recv().unwrap().unwrap().topic, "second");
}

#[test]
fn recv_acknowledges_qos1_messages_and_ends_with_the_session() {
    let stream = MockTransport::new([
        ReadStep::Data(message("events", b"1", Some(3))),
        ReadStep::Data(DisconnectPacket { reason_code: 0 }.encode().unwrap()),
    ]);
    let mut client = client_with(stream, 0, Duration::from_secs(1), 8);

    assert_eq!(client.recv().unwrap().unwrap().packet_id, Some(3));
    assert_eq!(client.stream.writes, [puback(3, 0x00)]);

    let mut incoming = Incoming::new();
    assert!(incoming.item(client.recv()).is_none());
    assert!(incoming.is_done());
    assert!(matches!(client.recv(), Err(Error::ClientClosed)));
}

#[test]
fn server_disconnect_is_an_error_while_an_ack_is_waited_for() {
    let normal = DisconnectPacket { reason_code: 0 }.encode().unwrap();
    let mut client = client_with(
        MockTransport::new([ReadStep::Data(normal)]),
        0,
        Duration::from_secs(1),
        8,
    );
    assert!(matches!(
        client.subscribe("events", QoS::AtMostOnce),
        Err(Error::ConnectionClosed)
    ));
    assert!(!client.connected());

    let refusal = DisconnectPacket { reason_code: 0x8B }.encode().unwrap();
    let mut client = client_with(
        MockTransport::new([ReadStep::Data(refusal)]),
        0,
        Duration::from_secs(1),
        8,
    );
    assert!(matches!(
        client.unsubscribe("events"),
        Err(Error::ServerDisconnected(0x8B))
    ));
    assert!(!client.connected());
}

#[test]
fn acknowledgements_of_other_packets_are_protocol_failures() {
    let mut client = client_with(
        MockTransport::new([ReadStep::Data(puback(7, 0x00))]),
        0,
        Duration::from_secs(1),
        8,
    );
    assert!(matches!(
        client.publish(
            "commands",
            b"go",
            PublishOptions::default().with_qos(QoS::AtLeastOnce),
        ),
        Err(Error::UnexpectedPacket(
            "unexpected packet while awaiting PUBACK"
        ))
    ));
    assert!(!client.connected());

    let mut client = client_with(
        MockTransport::new([ReadStep::Data(puback(1, 0x00))]),
        0,
        Duration::from_secs(1),
        8,
    );
    assert!(matches!(
        client.recv(),
        Err(Error::UnexpectedPacket("unexpected packet while receiving"))
    ));
}

#[test]
fn failed_writes_close_the_session() {
    let mut client = client_with(MockTransport::new([]), 0, Duration::from_secs(1), 8);
    client.stream.write_result = Some(ErrorKind::TimedOut);
    assert!(matches!(
        client.publish("commands", b"go", PublishOptions::default()),
        Err(Error::Timeout("publish"))
    ));
    assert!(!client.connected());

    let mut client = client_with(MockTransport::new([]), 0, Duration::from_secs(1), 8);
    client.stream.write_result = Some(ErrorKind::BrokenPipe);
    assert!(matches!(client.disconnect(), Err(Error::Io(_))));
    assert!(!client.connected());
}

#[test]
fn the_brokers_packet_size_is_honoured() {
    let mut terms = Properties::new();
    terms.push(PropertyId::MaximumPacketSize, PropertyValue::U32(16));
    let mut client = client_on_terms(
        MockTransport::new([]),
        0,
        Duration::from_secs(1),
        8,
        terms,
    );
    // Two header bytes, the topic with its length, no properties, and the payload.
    assert!(matches!(
        client.publish("topic", &[0; 7], PublishOptions::default()),
        Err(Error::PacketTooLarge { size: 17, max: 16 })
    ));
    assert!(client.connected());
    assert!(client.stream.writes.is_empty());
    client
        .publish("topic", &[0; 6], PublishOptions::default())
        .unwrap();
    assert_eq!(client.stream.writes[0].len(), 16);
}

#[test]
fn the_brokers_keep_alive_replaces_the_requested_one() {
    let mut terms = Properties::new();
    terms.push(PropertyId::ServerKeepAlive, PropertyValue::U16(0));
    let mut client = client_on_terms(
        MockTransport::new([ReadStep::Data(message("events", b"1", None))]),
        10,
        Duration::from_secs(1),
        8,
        terms,
    );
    // Without a keep-alive a read has no time limit.
    let step = client.session.recv(client.stream.now());
    assert!(matches!(step, Step::Read { timeout: None, max: 1024 }));
}

#[test]
fn packet_identifiers_start_over_at_one() {
    let mut client = client_with(MockTransport::new([]), 0, Duration::from_secs(1), 8);
    for id in 1..=u16::MAX {
        client
            .stream
            .reads
            .push_back(ReadStep::Data(encode_unsuback(id, 0)));
        client.unsubscribe("events").unwrap();
    }
    client
        .stream
        .reads
        .push_back(ReadStep::Data(encode_unsuback(1, 0)));
    client.unsubscribe("events").unwrap();
}

#[test]
fn disconnect_says_goodbye_once() {
    let mut client = client_with(MockTransport::new([]), 0, Duration::from_secs(1), 8);
    client.disconnect().unwrap();
    assert_eq!(client.stream.writes, [vec![0xE0, 0x00]]);
    assert!(!client.connected());
    client.disconnect().unwrap();
    assert_eq!(client.stream.writes.len(), 1);
}

#[test]
fn interrupted_reads_are_made_again_and_refused_time_limits_are_fatal() {
    let mut client = client_with(
        MockTransport::new([
            ReadStep::Error(ErrorKind::Interrupted),
            ReadStep::Error(ErrorKind::WouldBlock),
            ReadStep::Data(message("events", b"1", None)),
        ]),
        0,
        Duration::from_secs(1),
        8,
    );
    assert_eq!(client.recv().unwrap().unwrap().topic, "events");

    let step = client.session.recv(client.stream.now());
    assert!(matches!(step, Step::Read { .. }));
    let step = client
        .session
        .timeout_refused(IoError::new(ErrorKind::InvalidInput, "no"));
    assert!(matches!(step, Step::Done(Err(Error::Io(_)))));
    assert!(!client.connected());
}

#[test]
fn messages_that_arrive_during_a_wait_come_out_in_order() {
    for operation in 0..3 {
        let ack = match operation {
            0 => puback(1, 0),
            1 => encode_suback(1, 1),
            _ => encode_unsuback(1, 0),
        };
        let stream = [
            message("a", b"one", None),
            message("b", b"two", Some(7)),
            vec![0xD0, 0x00],
            message("a", b"three", None),
            ack,
        ]
        .concat();
        for piece in [1, 5, 11, stream.len()] {
            let reads = stream
                .chunks(piece)
                .map(|chunk| ReadStep::Data(chunk.to_vec()))
                .collect::<Vec<_>>();
            let mut client =
                client_with(MockTransport::new(reads), 60, Duration::from_secs(10), 3);
            match operation {
                0 => client
                    .publish("t", b"", PublishOptions::default().with_qos(QoS::AtLeastOnce))
                    .unwrap(),
                1 => client.subscribe("t", QoS::AtLeastOnce).unwrap(),
                _ => client.unsubscribe("t").unwrap(),
            }
            assert!(client.stream.reads.is_empty());
            for payload in [&b"one"[..], b"two", b"three"] {
                let now = client.stream.now();
                let Step::Done(Ok(Some(message))) = client.session.recv(now) else {
                    panic!("expected a message at once");
                };
                assert_eq!(message.payload, payload);
            }
            assert_eq!(client.stream.writes.last().unwrap(), &puback(7, 0));
        }
    }
}
