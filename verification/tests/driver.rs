use std::collections::VecDeque;

use mqtt_wasi::async_client::driver::{undelivered_event, Command, ConnectionDriver};
use mqtt_wasi::async_client::handshake::Negotiated;
use mqtt_wasi::async_client::lifecycle::RequestLifecycle;
use mqtt_wasi::async_client::model::{AckClass, FlushStep};
use mqtt_wasi::async_client::{
    DisconnectReason, Event, Notice, Outbox, Outcome, PublishAck, SubscriptionAck,
};
use mqtt_wasi::codec::connect::ServerCapabilities;
use mqtt_wasi::codec::decode::decode_fixed_header;
use mqtt_wasi::codec::encode::{encode_fixed_header, encode_u16};
use mqtt_wasi::codec::ping::PINGREQ_BYTES;
use mqtt_wasi::codec::properties::Properties;
use mqtt_wasi::codec::types::{
    DisconnectPacket, Packet, PacketType, PubAckPacket, PublishPacket, QoS,
};
use mqtt_wasi::error::{Error, ErrorKind, IoError, Result};
use mqtt_wasi::options::{ConnectOptions, PublishOptions};
use mqtt_wasi::request_response::{prepare_request, RequestCommand, RequestOptions};
use mqtt_wasi::time::{Duration, Instant};

const MISMATCH: &str = "acknowledgement type does not match pending packet id";

/// A driver, the transport that it runs on, and what it has said.
struct Connection {
    driver: ConnectionDriver,
    notices: Vec<Notice>,
    now: u64,
    reads: VecDeque<Vec<u8>>,
    writes: Vec<u8>,
    max_write: Option<usize>,
    write_budget: Option<usize>,
    write_blocked: bool,
    flush_results: VecDeque<Option<ErrorKind>>,
    delivered: Vec<PublishPacket>,
    next_ticket: u64,
}

fn terms(keep_alive_secs: u16) -> Negotiated {
    Negotiated {
        capabilities: ServerCapabilities::default(),
        keep_alive_secs,
        max_packet_size: 268_435_460,
        receive_maximum: u16::MAX,
    }
}

fn options(max_packet_size: usize) -> ConnectOptions {
    ConnectOptions::new("client")
        .with_max_packet_size(max_packet_size)
        .with_command_capacity(8)
        .with_max_outbound_queue_bytes(1024 * 1024)
        .with_ack_timeout(Duration::from_secs(10))
        .with_poll_interval(Duration::from_millis(1))
}

fn connection_with(options: ConnectOptions, terms: Negotiated) -> Connection {
    let now = 1_000_000_000;
    Connection {
        driver: ConnectionDriver::new(&options, terms, Instant::from_nanos(now)),
        notices: Vec::new(),
        now,
        reads: VecDeque::new(),
        writes: Vec::new(),
        max_write: None,
        write_budget: None,
        write_blocked: false,
        flush_results: VecDeque::new(),
        delivered: Vec::new(),
        next_ticket: 1,
    }
}

fn test_connection(max_packet_size: usize, keep_alive_secs: u16) -> Connection {
    connection_with(options(max_packet_size), terms(keep_alive_secs))
}

impl Connection {
    fn at(&self) -> Instant {
        Instant::from_nanos(self.now)
    }

    fn keep(&mut self, out: Outbox) {
        self.notices.extend(out.into_notices());
    }

    fn ticket(&mut self) -> u64 {
        self.next_ticket += 1;
        self.next_ticket - 1
    }

    fn process(&mut self, command: Command) {
        let mut out = Outbox::new();
        self.driver.process_command(command, self.at(), &mut out);
        self.keep(out);
    }

    fn begin_publish(&mut self, topic: &str, payload: &[u8], options: PublishOptions) -> u64 {
        let ticket = self.ticket();
        self.process(Command::Publish {
            topic: topic.to_owned(),
            payload: payload.to_vec(),
            options,
            ticket,
        });
        ticket
    }

    fn begin_subscribe(&mut self, filter: &str, qos: QoS) -> u64 {
        let ticket = self.ticket();
        self.process(Command::Subscribe {
            filter: filter.to_owned(),
            qos,
            ticket,
        });
        ticket
    }

    fn begin_unsubscribe(&mut self, filter: &str) -> u64 {
        let ticket = self.ticket();
        self.process(Command::Unsubscribe {
            filter: filter.to_owned(),
            ticket,
        });
        ticket
    }

    fn begin_disconnect(&mut self) -> u64 {
        let ticket = self.ticket();
        self.process(Command::Disconnect { ticket });
        ticket
    }

    fn begin_request(&mut self, request: RequestCommand) -> u64 {
        let ticket = self.ticket();
        self.process(Command::Request {
            request,
            ticket,
            cancelled: false,
        });
        ticket
    }

    fn write(&mut self) -> std::result::Result<usize, IoError> {
        if self.write_blocked || self.write_budget == Some(0) {
            return Err(IoError::new(ErrorKind::WouldBlock, "blocked"));
        }
        let pending = self.driver.pending_write();
        let written = self
            .max_write
            .unwrap_or(pending.len())
            .min(self.write_budget.unwrap_or(usize::MAX))
            .min(pending.len());
        self.writes.extend_from_slice(&pending[..written]);
        if let Some(budget) = &mut self.write_budget {
            *budget -= written;
        }
        Ok(written)
    }

    fn flush_outbound(&mut self) -> Result<()> {
        let mut step = self.driver.start_flush();
        loop {
            step = match step {
                FlushStep::Write => {
                    let outcome = self.write();
                    self.driver.wrote(outcome, self.at())?
                }
                FlushStep::Flush { last } => {
                    let outcome = match self.flush_results.pop_front().flatten() {
                        Some(kind) => Err(IoError::new(kind, "flush failed")),
                        None => Ok(()),
                    };
                    let mut out = Outbox::new();
                    let next = self.driver.flushed(outcome, last, self.at(), &mut out);
                    self.keep(out);
                    next?
                }
                FlushStep::Finished => return Ok(()),
            };
        }
    }

    fn read_available(&mut self) -> Result<()> {
        for _ in 0..64 {
            let capacity = self.driver.read_capacity();
            if capacity == 0 {
                break;
            }
            let outcome = match self.reads.pop_front() {
                Some(mut data) => {
                    if data.len() > capacity {
                        let rest = data.split_off(capacity);
                        self.reads.push_front(rest);
                    }
                    Ok(data)
                }
                None => Err(IoError::new(ErrorKind::WouldBlock, "nothing to read")),
            };
            let mut out = Outbox::new();
            let more = match outcome {
                Ok(data) => self.driver.received(Ok(&data), &mut out),
                Err(error) => self.driver.received(Err(error), &mut out),
            };
            self.keep(out);
            if !more? {
                break;
            }
        }
        Ok(())
    }

    fn decode_and_dispatch(&mut self) -> Result<()> {
        loop {
            let mut out = Outbox::new();
            let next = self.driver.decode_and_dispatch(self.at(), &mut out);
            self.keep(out);
            match next? {
                Some(packet) => self.delivered.push(packet),
                None => return Ok(()),
            }
        }
    }

    fn receive(&mut self, bytes: Vec<u8>) -> Result<()> {
        self.reads.push_back(bytes);
        self.read_available()?;
        self.decode_and_dispatch()
    }

    fn expire_operations(&mut self, cancelled: &[u64]) {
        let mut out = Outbox::new();
        self.driver.expire_operations(self.at(), cancelled, &mut out);
        self.keep(out);
    }

    fn finish(&mut self, failed: bool) {
        let mut out = Outbox::new();
        self.driver.finish(failed, &mut out);
        self.keep(out);
    }

    fn outcome(&mut self, ticket: u64) -> Option<Outcome> {
        let position = self.notices.iter().position(
            |notice| matches!(notice, Notice::Complete { ticket: t, .. } if *t == ticket),
        )?;
        match self.notices.remove(position) {
            Notice::Complete { outcome, .. } => Some(outcome),
            _ => unreachable!(),
        }
    }

    fn published(&mut self, ticket: u64) -> Result<PublishAck> {
        match self.outcome(ticket) {
            Some(Outcome::Published(result)) => result,
            other => panic!("not published: {other:?}"),
        }
    }

    fn subscribed(&mut self, ticket: u64) -> Result<SubscriptionAck> {
        match self.outcome(ticket) {
            Some(Outcome::Subscribed(result)) => result,
            other => panic!("not subscribed: {other:?}"),
        }
    }

    fn responded(&mut self, ticket: u64) -> Result<PublishPacket> {
        match self.outcome(ticket) {
            Some(Outcome::Response(result)) => result,
            other => panic!("no response: {other:?}"),
        }
    }

    fn events(&self) -> Vec<&Event> {
        self.notices
            .iter()
            .filter_map(|notice| match notice {
                Notice::Event(event) => Some(event),
                _ => None,
            })
            .collect()
    }

    /// Use up packet identifiers until `next` is the next one.
    fn skip_to(&mut self, from: u16, next: u16) {
        let mut id = from;
        while id != next {
            let ticket = self.begin_publish("skip", b"", at_least_once());
            self.flush_outbound().unwrap();
            self.receive(puback(id, 0)).unwrap();
            assert_eq!(self.published(ticket).unwrap().packet_id, Some(id));
            self.writes.clear();
            id = if id == u16::MAX { 1 } else { id + 1 };
        }
    }
}

fn at_least_once() -> PublishOptions {
    PublishOptions::default().with_qos(QoS::AtLeastOnce)
}

fn puback(packet_id: u16, reason_code: u8) -> Vec<u8> {
    PubAckPacket {
        packet_id,
        reason_code,
    }
    .encode()
    .unwrap()
}

fn ack(packet_type: PacketType, packet_id: u16, reason_code: u8) -> Vec<u8> {
    let mut body = Vec::new();
    encode_u16(&mut body, packet_id);
    Properties::new().encode(&mut body).unwrap();
    body.push(reason_code);
    let mut packet = Vec::new();
    encode_fixed_header(&mut packet, packet_type, 0, body.len() as u32).unwrap();
    packet.extend_from_slice(&body);
    packet
}

fn suback(packet_id: u16, reason_code: u8) -> Vec<u8> {
    ack(PacketType::SubAck, packet_id, reason_code)
}

fn unsuback(packet_id: u16, reason_code: u8) -> Vec<u8> {
    ack(PacketType::UnsubAck, packet_id, reason_code)
}

fn message(topic: &str, payload: &[u8], properties: Properties) -> Vec<u8> {
    PublishPacket {
        topic: topic.to_owned(),
        packet_id: None,
        payload: payload.to_vec(),
        qos: QoS::AtMostOnce,
        retain: false,
        dup: false,
        properties,
    }
    .encode()
    .unwrap()
}

fn packet_len(bytes: &[u8]) -> usize {
    let (header, header_len) = decode_fixed_header(bytes).unwrap();
    header_len + header.remaining_length as usize
}

fn decode_packet(bytes: &[u8]) -> Packet {
    let (header, header_len) = decode_fixed_header(bytes).unwrap();
    let end = header_len + header.remaining_length as usize;
    Packet::decode(header, &bytes[header_len..end]).unwrap()
}

fn request(correlation_data: Vec<u8>) -> RequestCommand {
    prepare_request(
        "services/search".to_owned(),
        b"query".to_vec(),
        RequestOptions::new("responses/client-1")
            .with_qos(QoS::AtLeastOnce)
            .with_timeout(Duration::from_secs(2))
            .with_correlation_data(correlation_data),
        Instant::from_nanos(0),
    )
    .unwrap()
}

#[test]
fn invalid_topics_fail_commands_without_poisoning_the_async_driver() {
    let mut connection = test_connection(1024, 60);

    let publish = connection.begin_publish("events/#", b"", PublishOptions::default());
    assert!(matches!(
        connection.published(publish),
        Err(Error::MalformedPacket("topic name contains a wildcard"))
    ));

    let subscribe = connection.begin_subscribe("events/#/new", QoS::AtMostOnce);
    assert!(matches!(
        connection.subscribed(subscribe),
        Err(Error::MalformedPacket(_))
    ));

    let unsubscribe = connection.begin_unsubscribe("");
    assert!(matches!(
        connection.subscribed(unsubscribe),
        Err(Error::MalformedPacket("topic filter is empty"))
    ));
    assert!(!connection.driver.is_closing());
    assert_eq!(connection.driver.queued_frames(), 0);
    assert_eq!(connection.driver.pending_operations(), 0);
}

#[test]
fn broker_capabilities_reject_new_commands_but_queue_unsubscribe() {
    let mut connection = connection_with(
        options(1024),
        Negotiated {
            capabilities: ServerCapabilities {
                maximum_qos: QoS::AtMostOnce,
                retain_available: false,
                wildcard_subscriptions_available: false,
                shared_subscriptions_available: false,
            },
            ..terms(60)
        },
    );

    let qos = connection.begin_publish("events/new", b"", at_least_once());
    assert!(matches!(
        connection.published(qos),
        Err(Error::InvalidOptions(
            "broker does not support QoS 1 publishing"
        ))
    ));

    let retain = connection.begin_publish(
        "events/new",
        b"",
        PublishOptions::default().with_retain(true),
    );
    assert!(matches!(
        connection.published(retain),
        Err(Error::InvalidOptions(
            "broker does not support retained publishing"
        ))
    ));

    let wildcard = connection.begin_subscribe("events/+", QoS::AtMostOnce);
    assert!(matches!(
        connection.subscribed(wildcard),
        Err(Error::InvalidOptions(
            "broker does not support wildcard subscriptions"
        ))
    ));

    let shared = connection.begin_subscribe("$share/workers/events", QoS::AtMostOnce);
    assert!(matches!(
        connection.subscribed(shared),
        Err(Error::InvalidOptions(
            "broker does not support shared subscriptions"
        ))
    ));
    assert_eq!(connection.driver.queued_frames(), 0);
    assert_eq!(connection.driver.pending_operations(), 0);

    let wildcard_unsub = connection.begin_unsubscribe("events/#");
    let shared_unsub = connection.begin_unsubscribe("$share/workers/events/#");

    assert!(connection.outcome(wildcard_unsub).is_none());
    assert!(connection.outcome(shared_unsub).is_none());
    assert_eq!(connection.driver.queued_frames(), 2);
    assert_eq!(connection.driver.pending_operations(), 2);
    assert!(!connection.driver.is_closing());
}

#[test]
fn qos0_completion_waits_for_partial_write_and_flush() {
    let mut connection = test_connection(1024, 60);
    connection.max_write = Some(2);
    connection.flush_results = VecDeque::from([Some(ErrorKind::WouldBlock), None]);

    let ticket = connection.begin_publish("events/new", b"payload", PublishOptions::default());
    connection.flush_outbound().unwrap();

    assert!(connection.outcome(ticket).is_none());
    assert_eq!(connection.driver.queued_frames(), 0);
    assert_eq!(
        connection.driver.outbound_bytes(),
        connection.writes.len()
    );

    connection.flush_outbound().unwrap();
    let ack = connection.published(ticket).unwrap();
    assert_eq!(ack.packet_id, None);
    assert_eq!(connection.driver.outbound_bytes(), 0);
    assert!(matches!(
        decode_packet(&connection.writes),
        Packet::Publish(_)
    ));
}

#[test]
fn persistent_flush_backpressure_blocks_new_writes_and_stays_byte_bounded() {
    // Each of these packets takes eight bytes, and the queue has room for two of them.
    let mut connection = connection_with(
        options(1024).with_max_outbound_queue_bytes(16),
        terms(60),
    );
    connection.flush_results = VecDeque::from([
        Some(ErrorKind::WouldBlock),
        Some(ErrorKind::WouldBlock),
        None,
    ]);
    connection.begin_publish("t", b"11", PublishOptions::default());
    connection.flush_outbound().unwrap();
    let first = connection.writes.clone();
    assert_eq!(first.len(), 8);
    assert_eq!(connection.driver.outbound_bytes(), 8);

    connection.begin_publish("t", b"22", PublishOptions::default());
    let refused = connection.begin_publish("t", b"", PublishOptions::default());
    assert!(matches!(
        connection.published(refused),
        Err(Error::QueueFull("outbound bytes"))
    ));

    connection.flush_outbound().unwrap();
    assert_eq!(connection.writes, first);
    assert_eq!(connection.driver.outbound_bytes(), 16);

    connection.flush_outbound().unwrap();
    assert_eq!(connection.writes.len(), 16);
    assert_eq!(&connection.writes[14..], b"22");
    assert_eq!(connection.driver.outbound_bytes(), 0);
}

#[test]
fn cancelled_qos1_ack_keeps_packet_id_tombstone() {
    let mut connection = test_connection(1024, 60);
    let ticket = connection.begin_publish("events/new", b"", at_least_once());

    connection.expire_operations(&[ticket]);
    assert_eq!(connection.driver.pending_class(1), Some(AckClass::Publish));
    assert_eq!(connection.driver.outgoing_qos1_count(), 1);
    assert!(connection.outcome(ticket).is_none());

    connection.flush_outbound().unwrap();
    connection.skip_to(2, 1);
    let next = connection.begin_publish("events/new", b"", at_least_once());
    assert!(connection.outcome(next).is_none());
    assert_eq!(connection.driver.pending_class(2), Some(AckClass::Publish));

    // The late acknowledgement frees the identifier and is not told to anybody.
    connection.receive(puback(1, 0)).unwrap();
    assert_eq!(connection.driver.pending_class(1), None);
    assert!(connection.notices.is_empty());
}

#[test]
fn timed_out_partially_written_ack_keeps_packet_id_tombstone() {
    let mut connection = test_connection(1024, 60);
    connection.write_budget = Some(1);
    let ticket = connection.begin_publish("events/new", b"", at_least_once());
    let len = connection.driver.pending_write().len();
    connection.flush_outbound().unwrap();
    assert_eq!(connection.driver.pending_write().len(), len - 1);
    connection.now += 10_000_000_000;

    connection.expire_operations(&[]);
    assert!(matches!(
        connection.published(ticket),
        Err(Error::Timeout("publish acknowledgement"))
    ));
    assert_eq!(connection.driver.pending_class(1), Some(AckClass::Publish));
    assert_eq!(connection.driver.outgoing_qos1_count(), 1);
    connection.write_budget = None;
    connection.flush_outbound().unwrap();
    connection.skip_to(2, 1);
    connection.begin_publish("events/new", b"", at_least_once());
    assert_eq!(connection.driver.pending_class(2), Some(AckClass::Publish));
}

#[test]
fn packet_id_wrap_skips_every_in_flight_identifier() {
    let mut connection = test_connection(1024, 60);
    connection.skip_to(1, u16::MAX);
    for _packet_id in [u16::MAX, 1] {
        let ticket = connection.begin_publish("events/new", b"", at_least_once());
        connection.expire_operations(&[ticket]);
        connection.flush_outbound().unwrap();
    }
    connection.skip_to(2, u16::MAX);
    assert!(connection.driver.pending_class(u16::MAX).is_some());
    assert!(connection.driver.pending_class(1).is_some());
    assert!(connection.driver.pending_class(2).is_none());
    connection.begin_publish("events/new", b"", at_least_once());
    assert!(connection.driver.pending_class(2).is_some());
}

#[test]
fn mismatched_ack_classes_are_terminal_and_keep_active_ids_reserved() {
    let mut connection = test_connection(1024, 60);
    connection.skip_to(1, 10);
    let publish = connection.begin_publish("events/new", b"", at_least_once());
    let subscribe = connection.begin_subscribe("events/#", QoS::AtMostOnce);
    let unsubscribe = connection.begin_unsubscribe("events/#");

    assert!(matches!(
        connection.receive(suback(10, 0)),
        Err(Error::UnexpectedPacket(MISMATCH))
    ));
    assert!(matches!(
        connection.receive(unsuback(11, 0)),
        Err(Error::UnexpectedPacket(MISMATCH))
    ));
    assert!(matches!(
        connection.receive(puback(12, 0)),
        Err(Error::UnexpectedPacket(MISMATCH))
    ));

    assert_eq!(connection.driver.pending_class(10), Some(AckClass::Publish));
    assert_eq!(
        connection.driver.pending_class(11),
        Some(AckClass::Subscribe)
    );
    assert_eq!(
        connection.driver.pending_class(12),
        Some(AckClass::Unsubscribe)
    );
    assert!(connection.outcome(publish).is_none());
    assert!(connection.outcome(subscribe).is_none());
    assert!(connection.outcome(unsubscribe).is_none());
}

#[test]
fn mismatched_ack_classes_do_not_free_timed_out_tombstones() {
    let mut connection = test_connection(1024, 60);
    connection.skip_to(1, 20);
    let publish = connection.begin_publish("events/new", b"", at_least_once());
    let subscribe = connection.begin_subscribe("events/#", QoS::AtLeastOnce);
    let unsubscribe = connection.begin_unsubscribe("events/#");
    connection.now += 10_000_000_000;
    connection.expire_operations(&[]);
    assert!(matches!(
        connection.published(publish),
        Err(Error::Timeout(_))
    ));
    assert!(matches!(
        connection.subscribed(subscribe),
        Err(Error::Timeout(_))
    ));
    assert!(matches!(
        connection.subscribed(unsubscribe),
        Err(Error::Timeout(_))
    ));

    assert!(matches!(
        connection.receive(suback(20, 0)),
        Err(Error::UnexpectedPacket(_))
    ));
    assert!(matches!(
        connection.receive(unsuback(21, 0)),
        Err(Error::UnexpectedPacket(_))
    ));
    assert!(matches!(
        connection.receive(puback(22, 0)),
        Err(Error::UnexpectedPacket(_))
    ));
    assert_eq!(connection.driver.pending_class(20), Some(AckClass::Publish));
    assert_eq!(
        connection.driver.pending_class(21),
        Some(AckClass::Subscribe)
    );
    assert_eq!(
        connection.driver.pending_class(22),
        Some(AckClass::Unsubscribe)
    );
}

#[test]
fn suback_grant_above_requested_qos_is_terminal() {
    let mut connection = test_connection(1024, 60);
    let ticket = connection.begin_subscribe("events/#", QoS::AtMostOnce);

    assert!(matches!(
        connection.receive(suback(1, 1)),
        Err(Error::MalformedPacket(
            "SUBACK granted unsupported or unrequested QoS"
        ))
    ));
    assert!(matches!(
        connection.subscribed(ticket),
        Err(Error::MalformedPacket(
            "SUBACK granted unsupported or unrequested QoS"
        ))
    ));
}

#[test]
fn response_subscription_rejects_unsupported_qos_two_grant() {
    let mut connection = test_connection(1024, 60);
    connection.begin_request(request(vec![1]));
    assert_eq!(
        connection.driver.response_subscription("responses/client-1"),
        Some(false)
    );

    assert!(matches!(
        connection.receive(suback(1, 2)),
        Err(Error::MalformedPacket(
            "SUBACK granted unsupported or unrequested QoS"
        ))
    ));
    assert_eq!(
        connection.driver.response_subscription("responses/client-1"),
        None
    );
}

#[test]
fn failed_response_subscription_enqueue_does_not_poison_retry() {
    // A large packet leaves no room for the SUBSCRIBE until it has left.
    let mut connection = connection_with(
        options(1024).with_max_outbound_queue_bytes(1024),
        terms(60),
    );
    connection.begin_publish("events/new", &[0; 1000], PublishOptions::default());

    let first = connection.begin_request(request(vec![1]));
    assert!(matches!(
        connection.responded(first),
        Err(Error::QueueFull("outbound bytes"))
    ));
    assert_eq!(connection.driver.pending_requests(), 0);
    assert_eq!(connection.driver.pending_operations(), 0);
    assert_eq!(
        connection.driver.response_subscription("responses/client-1"),
        None
    );

    connection.flush_outbound().unwrap();
    let second_correlation = vec![2];
    let second = connection.begin_request(request(second_correlation.clone()));
    assert_eq!(
        connection.driver.response_subscription("responses/client-1"),
        Some(false)
    );
    assert_eq!(
        decode_fixed_header(connection.driver.pending_write())
            .unwrap()
            .0
            .packet_type,
        PacketType::Subscribe
    );
    // The first attempt took the packet identifier 1.
    let packet_id = 2;
    assert_eq!(
        connection.driver.pending_class(packet_id),
        Some(AckClass::Subscribe)
    );

    connection.receive(suback(packet_id, 1)).unwrap();
    assert_eq!(
        connection.driver.response_subscription("responses/client-1"),
        Some(true)
    );
    connection
        .receive(message(
            "responses/client-1",
            b"result",
            Properties::new().with_correlation_data(second_correlation),
        ))
        .unwrap();
    assert_eq!(connection.responded(second).unwrap().payload, b"result");
}

#[test]
fn only_one_ping_is_queued_while_transport_is_blocked() {
    let mut connection = test_connection(1024, 2);
    connection.write_blocked = true;
    connection.now += 2_000_000_000;

    connection.driver.maintain_keep_alive(connection.at()).unwrap();
    connection.flush_outbound().unwrap();
    connection.driver.maintain_keep_alive(connection.at()).unwrap();

    assert_eq!(connection.driver.queued_frames(), 1);
    assert_eq!(connection.driver.pending_write(), PINGREQ_BYTES);
}

#[test]
fn failed_ping_enqueue_does_not_stick_queued_state() {
    let mut connection =
        connection_with(options(1024).with_max_outbound_queue_bytes(1), terms(2));
    connection.now += 2_000_000_000;

    for _ in 0..2 {
        assert!(matches!(
            connection.driver.maintain_keep_alive(connection.at()),
            Err(Error::QueueFull("outbound bytes"))
        ));
        assert_eq!(connection.driver.queued_frames(), 0);
    }
}

#[test]
fn clean_disconnect_fails_operations_still_waiting_for_ack() {
    let mut connection = test_connection(1024, 60);
    let publish = connection.begin_publish("events/new", b"", at_least_once());
    let disconnect = connection.begin_disconnect();
    assert!(!connection.driver.is_finished());
    connection.flush_outbound().unwrap();
    assert!(connection.driver.is_finished());
    connection.finish(false);

    assert!(matches!(
        connection.outcome(disconnect),
        Some(Outcome::Disconnected(Ok(())))
    ));
    assert!(matches!(
        connection.published(publish),
        Err(Error::ConnectionClosed)
    ));
    assert_eq!(
        connection.events(),
        [&Event::Disconnected(DisconnectReason::ClientInitiated)]
    );
}

#[test]
fn read_capacity_handles_two_packets_larger_than_single_packet_limit() {
    let first = message("a", b"1", Properties::new());
    let second = message("b", b"2", Properties::new());
    let max_packet_size = first.len().max(second.len());
    let mut combined = first;
    combined.extend_from_slice(&second);
    assert!(combined.len() > max_packet_size);

    let mut connection = test_connection(max_packet_size, 60);
    connection.reads.push_back(combined);

    connection.read_available().unwrap();
    connection.decode_and_dispatch().unwrap();
    connection.read_available().unwrap();
    connection.decode_and_dispatch().unwrap();

    let topics: Vec<&str> = connection
        .delivered
        .iter()
        .map(|message| message.topic.as_str())
        .collect();
    assert_eq!(topics, ["a", "b"]);
}

#[test]
fn request_uses_standard_properties_and_consumes_matching_response() {
    let mut connection = test_connection(1024, 60);
    let correlation_data = vec![0, 1, 2, 3];
    let ticket = connection.begin_request(request(correlation_data.clone()));
    connection.flush_outbound().unwrap();
    let subscribe_len = connection.writes.len();

    connection.receive(suback(1, 0)).unwrap();
    connection.flush_outbound().unwrap();
    let Packet::Publish(request) = decode_packet(&connection.writes[subscribe_len..]) else {
        panic!("expected request PUBLISH");
    };
    assert_eq!(
        request.properties.response_topic(),
        Some("responses/client-1")
    );
    assert_eq!(
        request.properties.correlation_data(),
        Some(correlation_data.as_slice())
    );
    assert_eq!(request.payload, b"query");

    connection
        .receive(message(
            "responses/client-1",
            b"result",
            Properties::new().with_correlation_data(correlation_data.clone()),
        ))
        .unwrap();

    assert_eq!(connection.responded(ticket).unwrap().payload, b"result");
    assert!(connection.delivered.is_empty());
    assert!(connection.events().is_empty());
    assert!(matches!(
        connection.notices.as_slice(),
        [Notice::Released(released)] if *released == correlation_data
    ));
}

#[test]
fn request_cancelled_before_driver_processing_is_never_published() {
    let mut connection = test_connection(1024, 60);
    let mut lifecycle = RequestLifecycle::new(8);
    let request = request(vec![7, 7, 7]);
    lifecycle.start(&request, 1024).unwrap();
    lifecycle.cancel(vec![7, 7, 7]);

    // Cancellations are observed before commands. An unmatched marker must remain for
    // the command.
    let mut out = Outbox::new();
    connection
        .driver
        .drain_cancellations(&lifecycle.cancelled(), &mut out);
    connection.keep(out);
    let cancelled = lifecycle.consume_cancellation(&request.correlation_data);
    assert!(cancelled);
    connection.process(Command::Request {
        request,
        ticket: 1,
        cancelled,
    });
    assert_eq!(connection.driver.pending_requests(), 0);
    assert_eq!(connection.driver.queued_frames(), 0);
    assert!(connection.notices.is_empty());
    assert!(lifecycle.cancelled().is_empty());
    assert!(lifecycle.register(vec![7, 7, 7]).is_ok());
}

#[test]
fn replies_on_other_topics_or_with_other_correlation_data_are_events() {
    let mut connection = test_connection(1024, 60);
    let ticket = connection.begin_request(request(vec![1]));
    connection.receive(suback(1, 1)).unwrap();

    connection
        .receive(message(
            "responses/client-2",
            b"elsewhere",
            Properties::new().with_correlation_data(vec![1]),
        ))
        .unwrap();
    connection
        .receive(message(
            "responses/client-1",
            b"stranger",
            Properties::new().with_correlation_data(vec![2]),
        ))
        .unwrap();
    connection
        .receive(message("responses/client-1", b"plain", Properties::new()))
        .unwrap();
    assert!(connection.outcome(ticket).is_none());
    assert_eq!(connection.delivered.len(), 3);
    assert_eq!(connection.driver.pending_requests(), 1);
}

#[test]
fn requests_share_one_response_subscription() {
    let mut connection = test_connection(1024, 60);
    connection.begin_request(request(vec![1]));
    connection.begin_request(request(vec![2]));
    // One SUBSCRIBE for both.
    assert_eq!(connection.driver.queued_frames(), 1);
    connection.flush_outbound().unwrap();
    connection.receive(suback(1, 1)).unwrap();
    // Both requests follow.
    assert_eq!(connection.driver.queued_frames(), 2);
    assert_eq!(connection.driver.pending_operations(), 2);

    let third = connection.begin_request(request(vec![2]));
    assert!(matches!(
        connection.responded(third),
        Err(Error::MalformedPacket("duplicate request correlation data"))
    ));
}

#[test]
fn distinct_response_topics_are_capped() {
    let mut connection = connection_with(options(1024).with_command_capacity(2), terms(60));
    for n in 0..3u8 {
        let request = prepare_request(
            "services/search".to_owned(),
            Vec::new(),
            RequestOptions::new(&format!("responses/{n}")).with_correlation_data(vec![n]),
            connection.at(),
        )
        .unwrap();
        let ticket = connection.begin_request(request);
        if n < 2 {
            assert!(connection.outcome(ticket).is_none());
            connection.flush_outbound().unwrap();
            connection.receive(suback(u16::from(n) + 1, 1)).unwrap();
            connection
                .receive(message(
                    &format!("responses/{n}"),
                    b"",
                    Properties::new().with_correlation_data(vec![n]),
                ))
                .unwrap();
            assert!(connection.responded(ticket).is_ok());
        } else {
            assert!(matches!(
                connection.responded(ticket),
                Err(Error::QueueFull("response subscriptions"))
            ));
        }
    }
}

#[test]
fn refused_response_subscriptions_fail_their_requests_only() {
    let mut connection = test_connection(1024, 60);
    let ticket = connection.begin_request(request(vec![1]));
    let publish = connection.begin_publish("events/new", b"", at_least_once());
    connection.receive(suback(1, 0x87)).unwrap();
    assert!(matches!(
        connection.responded(ticket),
        Err(Error::AckRejected {
            packet: "SUBACK",
            reason_code: 0x87
        })
    ));
    assert!(connection.outcome(publish).is_none());
    assert_eq!(
        connection.driver.response_subscription("responses/client-1"),
        None
    );
}

#[test]
fn requests_end_with_their_publish_refused_or_their_time_up() {
    let mut connection = test_connection(1024, 60);
    let refused = connection.begin_request(request(vec![1]));
    connection.receive(suback(1, 1)).unwrap();
    connection.flush_outbound().unwrap();
    connection.receive(puback(2, 0x97)).unwrap();
    assert!(matches!(
        connection.responded(refused),
        Err(Error::AckRejected {
            packet: "PUBACK",
            reason_code: 0x97
        })
    ));

    let late = connection.begin_request(request(vec![2]));
    connection.flush_outbound().unwrap();
    connection.receive(puback(3, 0)).unwrap();
    connection.now += 2_000_000_000;
    connection.expire_operations(&[]);
    assert!(matches!(
        connection.responded(late),
        Err(Error::Timeout("request response"))
    ));

    // A request whose caller is gone leaves the queue as if it had not been there.
    let unwanted = connection.begin_request(request(vec![3]));
    assert_eq!(connection.driver.queued_frames(), 1);
    connection.expire_operations(&[unwanted]);
    assert_eq!(connection.driver.queued_frames(), 0);
    assert_eq!(connection.driver.outbound_bytes(), 0);
    assert_eq!(connection.driver.pending_operations(), 0);
    assert!(connection.outcome(unwanted).is_none());
}

#[test]
fn the_brokers_receive_maximum_is_honoured() {
    let mut connection = connection_with(
        options(1024),
        Negotiated {
            receive_maximum: 2,
            ..terms(60)
        },
    );
    let first = connection.begin_publish("t", b"", at_least_once());
    connection.begin_publish("t", b"", at_least_once());
    let third = connection.begin_publish("t", b"", at_least_once());
    assert!(matches!(
        connection.published(third),
        Err(Error::QueueFull("broker receive maximum"))
    ));
    // QoS 0 does not count.
    connection.begin_publish("t", b"", PublishOptions::default());
    assert_eq!(connection.driver.queued_frames(), 3);

    connection.receive(puback(1, 0x10)).unwrap();
    let ack = connection.published(first).unwrap();
    assert_eq!(ack.reason_code, Some(0x10));
    connection.begin_publish("t", b"", at_least_once());
    assert_eq!(connection.driver.pending_operations(), 2);
}

#[test]
fn the_brokers_packet_size_is_honoured_by_the_driver() {
    let mut connection = connection_with(
        options(1024),
        Negotiated {
            max_packet_size: 8,
            ..terms(60)
        },
    );
    let ticket = connection.begin_publish("t", b"1234", PublishOptions::default());
    assert!(matches!(
        connection.published(ticket),
        Err(Error::PacketTooLarge { size: 10, max: 8 })
    ));
    let ticket = connection.begin_publish("t", b"1234", at_least_once());
    assert!(matches!(
        connection.published(ticket),
        Err(Error::PacketTooLarge { size: 12, max: 8 })
    ));
    assert_eq!(connection.driver.pending_operations(), 0);
}

#[test]
fn pending_operations_are_bounded() {
    let mut connection = connection_with(options(1024).with_command_capacity(1), terms(60));
    connection.begin_subscribe("a", QoS::AtMostOnce);
    let ticket = connection.begin_subscribe("b", QoS::AtMostOnce);
    assert!(matches!(
        connection.subscribed(ticket),
        Err(Error::QueueFull("pending operation"))
    ));
}

#[test]
fn commands_behind_a_disconnect_come_too_late() {
    let mut connection = test_connection(1024, 60);
    connection.begin_disconnect();
    assert!(connection.driver.is_closing());
    let publish = connection.begin_publish("t", b"", PublishOptions::default());
    assert!(matches!(
        connection.published(publish),
        Err(Error::ClientClosed)
    ));
    let request = connection.begin_request(request(vec![1]));
    assert!(matches!(
        connection.responded(request),
        Err(Error::ClientClosed)
    ));
    assert_eq!(connection.driver.queued_frames(), 1);
}

#[test]
fn dropping_every_handle_says_goodbye() {
    let mut connection = test_connection(1024, 60);
    connection.driver.commands_closed().unwrap();
    connection.driver.commands_closed().unwrap();
    assert!(connection.driver.is_closing());
    assert_eq!(connection.driver.queued_frames(), 1);
    connection.flush_outbound().unwrap();
    assert_eq!(connection.writes, [0xE0, 0x00]);
    assert!(connection.driver.is_finished());
    assert!(connection.notices.is_empty());
}

#[test]
fn a_closed_transport_is_announced_once() {
    let mut connection = test_connection(1024, 60);
    let ticket = connection.begin_subscribe("a", QoS::AtMostOnce);
    connection.reads.push_back(Vec::new());
    assert!(matches!(
        connection.read_available(),
        Err(Error::ConnectionClosed)
    ));
    connection.finish(true);
    assert_eq!(
        connection.events(),
        [&Event::Disconnected(DisconnectReason::TransportClosed)]
    );
    assert!(matches!(
        connection.subscribed(ticket),
        Err(Error::ConnectionClosed)
    ));

    let mut connection = test_connection(1024, 60);
    connection.finish(true);
    assert_eq!(
        connection.events(),
        [&Event::Disconnected(DisconnectReason::TransportClosed)]
    );
}

#[test]
fn a_server_disconnect_fails_everything_that_waits() {
    let mut connection = test_connection(1024, 60);
    let ticket = connection.begin_unsubscribe("a");
    let bytes = DisconnectPacket { reason_code: 0x8B }.encode().unwrap();
    assert!(matches!(
        connection.receive(bytes),
        Err(Error::ServerDisconnected(0x8B))
    ));
    assert!(matches!(
        connection.subscribed(ticket),
        Err(Error::ConnectionClosed)
    ));
    connection.finish(true);
    assert_eq!(
        connection.events(),
        [&Event::Disconnected(DisconnectReason::Server(0x8B))]
    );
}

#[test]
fn unexpected_packets_are_terminal() {
    for (bytes, message) in [
        (vec![0xC0, 0x00], "broker sent PINGREQ"),
        (vec![0x20, 0x03, 0x00, 0x00, 0x00], "duplicate CONNACK"),
    ] {
        let mut connection = test_connection(1024, 60);
        match connection.receive(bytes) {
            Err(Error::UnexpectedPacket(text)) => assert_eq!(text, message),
            other => panic!("accepted: {other:?}"),
        }
    }
    // An acknowledgement that nobody waits for changes nothing.
    let mut connection = test_connection(1024, 60);
    connection.receive(puback(5, 0)).unwrap();
    assert!(connection.notices.is_empty());
}

#[test]
fn unanswered_pings_end_the_connection() {
    let mut connection = test_connection(1024, 2);
    assert_eq!(
        connection.driver.next_wait_duration(connection.at()).as_nanos(),
        1_000_000
    );
    connection.now += 1_000_000_000;
    connection.driver.maintain_keep_alive(connection.at()).unwrap();
    connection.flush_outbound().unwrap();
    assert_eq!(connection.writes, PINGREQ_BYTES);

    connection.now += 1_999_999_999;
    connection.driver.maintain_keep_alive(connection.at()).unwrap();
    assert_eq!(
        connection.driver.next_wait_duration(connection.at()).as_nanos(),
        1
    );
    connection.now += 1;
    assert!(matches!(
        connection.driver.maintain_keep_alive(connection.at()),
        Err(Error::KeepAliveTimeout)
    ));
    connection.receive(vec![0xD0, 0x00]).unwrap();
    connection.driver.maintain_keep_alive(connection.at()).unwrap();
}

#[test]
fn inbound_qos1_messages_are_acknowledged() {
    let mut connection = test_connection(1024, 60);
    let bytes = PublishPacket {
        topic: "events/new".to_owned(),
        packet_id: Some(77),
        payload: b"x".to_vec(),
        qos: QoS::AtLeastOnce,
        retain: false,
        dup: false,
        properties: Properties::new(),
    }
    .encode()
    .unwrap();
    connection.receive(bytes).unwrap();
    assert_eq!(connection.delivered.len(), 1);
    connection.flush_outbound().unwrap();
    assert_eq!(connection.writes, puback(77, 0));
    assert!(matches!(undelivered_event(true), Error::QueueFull("event")));
    assert!(matches!(undelivered_event(false), Error::ClientClosed));
}

#[test]
fn refused_unsubscribes_keep_the_connection() {
    let mut connection = test_connection(1024, 60);
    let refused = connection.begin_unsubscribe("a");
    connection.receive(unsuback(1, 0x87)).unwrap();
    assert!(matches!(
        connection.subscribed(refused),
        Err(Error::AckRejected {
            packet: "UNSUBACK",
            reason_code: 0x87
        })
    ));
    let accepted = connection.begin_unsubscribe("a");
    connection.receive(unsuback(2, 0x11)).unwrap();
    assert_eq!(
        connection.subscribed(accepted).unwrap().reason_codes,
        [0x11]
    );
}

#[test]
fn write_failures_are_told_apart() {
    let mut connection = test_connection(1024, 60);
    connection.begin_publish("t", b"", PublishOptions::default());
    let at = connection.at();
    let driver = &mut connection.driver;
    assert_eq!(driver.start_flush(), FlushStep::Write);
    let len = driver.pending_write().len();
    assert!(matches!(
        driver.wrote(Ok(0), at),
        Err(Error::Io(error)) if error.kind() == ErrorKind::WriteZero
    ));
    assert!(matches!(
        driver.wrote(Ok(len + 1), at),
        Err(Error::Io(error)) if error.kind() == ErrorKind::InvalidData
    ));
    assert_eq!(
        driver
            .wrote(Err(IoError::new(ErrorKind::Interrupted, "")), at)
            .unwrap(),
        FlushStep::Write
    );
    assert_eq!(
        driver
            .wrote(Err(IoError::new(ErrorKind::WouldBlock, "")), at)
            .unwrap(),
        FlushStep::Finished
    );
    assert!(driver
        .wrote(Err(IoError::new(ErrorKind::BrokenPipe, "")), at)
        .is_err());
    assert_eq!(
        driver.wrote(Ok(len), at).unwrap(),
        FlushStep::Flush { last: true }
    );
    assert_eq!(
        driver.start_flush(),
        FlushStep::Flush { last: false }
    );
    let mut out = Outbox::new();
    assert!(driver
        .flushed(
            Err(IoError::new(ErrorKind::BrokenPipe, "")),
            false,
            at,
            &mut out
        )
        .is_err());
}

#[test]
fn packets_are_written_whole_and_in_order() {
    let mut connection = test_connection(1024, 60);
    connection.max_write = Some(3);
    connection.begin_publish("first", b"1", PublishOptions::default());
    connection.begin_publish("second", b"2", PublishOptions::default());
    connection.flush_outbound().unwrap();
    let len = packet_len(&connection.writes);
    match (
        decode_packet(&connection.writes),
        decode_packet(&connection.writes[len..]),
    ) {
        (Packet::Publish(first), Packet::Publish(second)) => {
            assert_eq!(first.topic, "first");
            assert_eq!(second.topic, "second");
        }
        _ => panic!("unexpected packets"),
    }
}

#[test]
fn abandoned_publishes_count_toward_the_receive_maximum() {
    for cancel in [true, false] {
        let mut connection = connection_with(
            options(1024),
            Negotiated {
                receive_maximum: 1,
                ..terms(60)
            },
        );
        let ticket = connection.begin_publish("t", b"", at_least_once());
        connection.flush_outbound().unwrap();
        if cancel {
            connection.expire_operations(&[ticket]);
            assert!(connection.outcome(ticket).is_none());
        } else {
            connection.now += 10_000_000_000;
            connection.expire_operations(&[]);
            assert!(matches!(
                connection.published(ticket),
                Err(Error::Timeout("publish acknowledgement"))
            ));
        }
        assert_eq!(connection.driver.outgoing_qos1_count(), 1);
        let refused = connection.begin_publish("t", b"", at_least_once());
        assert!(matches!(
            connection.published(refused),
            Err(Error::QueueFull("broker receive maximum"))
        ));

        // The late acknowledgement makes room.
        connection.receive(puback(1, 0)).unwrap();
        assert_eq!(connection.driver.outgoing_qos1_count(), 0);
        let next = connection.begin_publish("t", b"", at_least_once());
        assert!(connection.outcome(next).is_none());
        assert_eq!(connection.driver.outgoing_qos1_count(), 1);
    }
}

fn request_on(response_topic: &str, correlation_data: Vec<u8>) -> RequestCommand {
    prepare_request(
        "services/search".to_owned(),
        Vec::new(),
        RequestOptions::new(response_topic).with_correlation_data(correlation_data),
        Instant::from_nanos(0),
    )
    .unwrap()
}

#[test]
fn late_subscriptions_do_not_pass_the_cap_on_response_topics() {
    let mut connection = connection_with(options(1024).with_command_capacity(2), terms(60));
    connection.begin_request(request_on("responses/a", vec![1]));
    connection.begin_unsubscribe("responses/a");
    connection.flush_outbound().unwrap();
    connection.receive(unsuback(2, 0)).unwrap();
    assert_eq!(connection.driver.response_subscription("responses/a"), None);

    let second = connection.begin_request(request_on("responses/b", vec![2]));
    connection.flush_outbound().unwrap();
    connection.receive(suback(3, 1)).unwrap();
    connection.flush_outbound().unwrap();
    connection
        .receive(message(
            "responses/b",
            b"",
            Properties::new().with_correlation_data(vec![2]),
        ))
        .unwrap();
    assert!(connection.responded(second).is_ok());
    if connection.driver.pending_class(4).is_some() {
        connection.receive(puback(4, 0)).unwrap();
    }
    connection.begin_request(request_on("responses/c", vec![3]));
    connection.flush_outbound().unwrap();
    assert_eq!(
        connection.driver.response_subscription("responses/b"),
        Some(true)
    );
    assert_eq!(
        connection.driver.response_subscription("responses/c"),
        Some(false)
    );

    // The request goes out, but there is no room to cache its topic anew.
    connection.receive(suback(1, 1)).unwrap();
    assert_eq!(connection.driver.queued_frames(), 1);
    assert_eq!(connection.driver.response_subscription("responses/a"), None);
}

#[test]
fn late_subscriptions_are_cached_where_there_is_room() {
    let mut connection = test_connection(1024, 60);
    connection.begin_request(request_on("responses/a", vec![1]));
    connection.begin_unsubscribe("responses/a");
    connection.flush_outbound().unwrap();
    connection.receive(unsuback(2, 0)).unwrap();
    assert_eq!(connection.driver.response_subscription("responses/a"), None);

    connection.receive(suback(1, 1)).unwrap();
    assert_eq!(
        connection.driver.response_subscription("responses/a"),
        Some(true)
    );
    // The request goes out, and a second one needs no further subscription.
    assert_eq!(connection.driver.queued_frames(), 1);
    connection.flush_outbound().unwrap();
    let sent = connection.writes.len();
    connection.begin_request(request_on("responses/a", vec![2]));
    connection.flush_outbound().unwrap();
    assert!(matches!(
        decode_packet(&connection.writes[sent..]),
        Packet::Publish(_)
    ));
}

#[test]
fn forgotten_requests_leave_reused_identifiers_alone() {
    let mut connection = test_connection(1024, 60);
    let late = connection.begin_request(request(vec![1]));
    connection.flush_outbound().unwrap();
    connection.receive(suback(1, 1)).unwrap();
    connection.flush_outbound().unwrap();
    connection.receive(puback(2, 0)).unwrap();
    connection.skip_to(3, 2);

    let subscribe = connection.begin_subscribe("events/#", QoS::AtMostOnce);
    assert_eq!(connection.driver.pending_class(2), Some(AckClass::Subscribe));
    connection.flush_outbound().unwrap();
    connection.now += 2_000_000_000;
    connection.expire_operations(&[]);
    assert!(matches!(
        connection.responded(late),
        Err(Error::Timeout("request response"))
    ));
    assert_eq!(connection.driver.pending_class(2), Some(AckClass::Subscribe));
    assert!(connection.outcome(subscribe).is_none());

    connection.receive(suback(2, 0)).unwrap();
    assert_eq!(connection.subscribed(subscribe).unwrap().packet_id, 2);
}

#[test]
fn overdue_request_publishes_stay_reserved_once_they_are_written() {
    // Nothing of the packet was written: its identifier is free again.
    let mut connection = test_connection(1024, 60);
    let request = || {
        prepare_request(
            "services/search".to_owned(),
            Vec::new(),
            RequestOptions::new("responses/a")
                .with_qos(QoS::AtLeastOnce)
                .with_timeout(Duration::from_secs(60))
                .with_correlation_data(vec![1]),
            Instant::from_nanos(0),
        )
        .unwrap()
    };
    let unsent = connection.begin_request(request());
    connection.flush_outbound().unwrap();
    connection.receive(suback(1, 1)).unwrap();
    assert_eq!(connection.driver.pending_class(2), Some(AckClass::Publish));
    connection.now += 10_000_000_000;
    connection.expire_operations(&[]);
    assert!(matches!(
        connection.responded(unsent),
        Err(Error::Timeout("request publish acknowledgement"))
    ));
    assert_eq!(connection.driver.queued_frames(), 0);
    assert_eq!(connection.driver.pending_class(2), None);

    // The packet was written: its acknowledgement may still come.
    let sent = connection.begin_request(request());
    assert_eq!(connection.driver.pending_class(3), Some(AckClass::Publish));
    connection.flush_outbound().unwrap();
    connection.now += 10_000_000_000;
    connection.expire_operations(&[]);
    assert!(matches!(
        connection.responded(sent),
        Err(Error::Timeout("request publish acknowledgement"))
    ));
    assert_eq!(connection.driver.pending_class(3), Some(AckClass::Publish));
    assert_eq!(connection.driver.outgoing_qos1_count(), 1);
}
