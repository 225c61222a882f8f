use mqtt_wasi::codec::decode::decode_fixed_header;
use mqtt_wasi::codec::properties::Properties;
use mqtt_wasi::codec::types::{
    DisconnectPacket, Packet, PubAckPacket, PublishPacket, QoS,
};
use mqtt_wasi::error::{Error, ErrorKind, IoError};
use mqtt_wasi::request::{
    correlation_id_of, generate_correlation_id, reply_address, Arrival, CooperativeRequest,
    Exchange, PollStep, ReadStep,
};
use mqtt_wasi::time::Instant;

fn at(nanos: u64) -> Instant {
    Instant::from_nanos(nanos)
}

fn nothing_there() -> IoError {
    IoError::new(ErrorKind::WouldBlock, "nothing there")
}

fn request(id: &str) -> CooperativeRequest {
    CooperativeRequest::new(
        id.to_owned(),
        "request/topic".to_owned(),
        br#"{"hello":"world"}"#.to_vec(),
        at(0),
    )
}

/// Poll a fresh request until it waits.
fn waiting(id: &str, shared: &mut Exchange) -> CooperativeRequest {
    let mut request = request(id);
    assert!(matches!(request.poll(shared, at(0)), PollStep::Write(_)));
    assert!(matches!(request.wrote(shared, Ok(())), PollStep::Pump));
    assert_eq!(
        shared.received(Err(nothing_there())).unwrap(),
        ReadStep::Drain
    );
    assert!(shared.take_packet().unwrap().is_none());
    assert!(matches!(
        request.pumped(shared, Ok(false)),
        PollStep::Pending { idle: true }
    ));
    request
}

fn publish(payload: &[u8], packet_id: Option<u16>) -> Vec<u8> {
    PublishPacket {
        topic: "reply".to_owned(),
        packet_id,
        payload: payload.to_vec(),
        qos: if packet_id.is_some() {
            QoS::AtLeastOnce
        } else {
            QoS::AtMostOnce
        },
        retain: false,
        dup: false,
        properties: Properties::new(),
    }
    .encode()
    .unwrap()
}

#[test]
fn drop_in_flight_request_removes_pending_slot() {
    let mut shared = Exchange::new(1024);
    let mut request = waiting("id-1", &mut shared);
    assert_eq!(shared.pending(), 1);

    request.abandon(&mut shared);
    assert_eq!(shared.pending(), 0);
    assert!(request.is_done());
}

#[test]
fn requests_are_published_once_at_qos_zero() {
    let mut shared = Exchange::new(1024);
    let mut request = request("id-1");
    let PollStep::Write(bytes) = request.poll(&mut shared, at(0)) else {
        panic!("expected a write");
    };
    let (header, header_len) = decode_fixed_header(&bytes).unwrap();
    let Packet::Publish(packet) = Packet::decode(header, &bytes[header_len..]).unwrap() else {
        panic!("expected PUBLISH");
    };
    assert_eq!(packet.topic, "request/topic");
    assert_eq!(packet.qos, QoS::AtMostOnce);
    assert_eq!(packet.payload, br#"{"hello":"world"}"#);
    request.wrote(&mut shared, Ok(()));
    assert!(matches!(request.poll(&mut shared, at(1)), PollStep::Pump));
}

#[test]
fn replies_reach_their_request_whoever_reads_them() {
    let mut shared = Exchange::new(1024);
    let mut first = waiting("id-1", &mut shared);
    let mut second = waiting("id-2", &mut shared);

    assert_eq!(
        shared.received(Ok(&publish(b"two", Some(5)))).unwrap(),
        ReadStep::More
    );
    match shared.take_packet().unwrap() {
        Some(Arrival::Message { ack, payload }) => {
            assert_eq!(
                ack.unwrap(),
                PubAckPacket {
                    packet_id: 5,
                    reason_code: 0
                }
                .encode()
                .unwrap()
            );
            shared.deliver("id-2", payload.clone());
            shared.deliver("nobody", payload);
        }
        other => panic!("unexpected arrival: {other:?}"),
    }
    assert!(matches!(
        first.pumped(&mut shared, Ok(true)),
        PollStep::Pending { idle: false }
    ));
    assert!(matches!(
        second.pumped(&mut shared, Ok(false)),
        PollStep::Ready(Ok(payload)) if payload == b"two"
    ));
    assert_eq!(shared.pending(), 1);
    assert!(second.is_done());
    assert_eq!(first.correlation_id(), "id-1");
}

#[test]
fn requests_end_with_their_deadline_or_the_connection() {
    let mut shared = Exchange::new(1024);
    let mut late = waiting("id-1", &mut shared);
    assert!(matches!(
        late.poll(&mut shared, at(60_000_000_000)),
        PollStep::Ready(Err(Error::Timeout("request")))
    ));
    assert_eq!(shared.pending(), 0);

    let mut open = waiting("id-2", &mut shared);
    assert_eq!(shared.received(Ok(&[])).unwrap(), ReadStep::Closed);
    assert!(shared.has_failed());
    assert!(matches!(
        open.pumped(&mut shared, Ok(true)),
        PollStep::Ready(Err(Error::ConnectionClosed))
    ));

    let mut after = request("id-3");
    assert!(matches!(
        after.poll(&mut shared, at(0)),
        PollStep::Ready(Err(Error::ConnectionClosed))
    ));
}

#[test]
fn failures_of_the_connection_are_remembered() {
    let mut shared = Exchange::new(1024);
    let mut request = waiting("id-1", &mut shared);
    let bytes = DisconnectPacket { reason_code: 0x8B }.encode().unwrap();
    shared.received(Ok(&bytes)).unwrap();
    assert!(matches!(
        shared.take_packet().unwrap(),
        Some(Arrival::Other)
    ));
    assert!(shared.has_failed());
    assert!(matches!(
        request.pumped(&mut shared, Ok(true)),
        PollStep::Ready(Err(Error::ConnectionClosed))
    ));

    let mut shared = Exchange::new(1024);
    assert!(shared
        .received(Err(IoError::new(ErrorKind::ConnectionReset, "reset")))
        .is_err());
    assert!(shared.has_failed());

    let mut shared = Exchange::new(1024);
    shared.received(Ok(&[0x00, 0x00])).unwrap();
    assert!(matches!(
        shared.take_packet(),
        Err(Error::InvalidPacketType(0))
    ));
    assert!(shared.has_failed());
}

#[test]
fn failed_writes_and_bad_topics_end_the_request() {
    let mut shared = Exchange::new(1024);
    let mut unwritten = request("id-1");
    unwritten.poll(&mut shared, at(0));
    assert!(matches!(
        unwritten.wrote(&mut shared, Err(Error::ConnectionClosed)),
        PollStep::Ready(Err(Error::ConnectionClosed))
    ));
    assert_eq!(shared.pending(), 0);

    let mut bad = CooperativeRequest::new(
        "id-2".to_owned(),
        "request/#".to_owned(),
        Vec::new(),
        at(0),
    );
    assert!(matches!(
        bad.poll(&mut shared, at(0)),
        PollStep::Ready(Err(Error::MalformedPacket("topic name contains a wildcard")))
    ));
    assert_eq!(shared.pending(), 0);
}

#[test]
fn correlation_identifiers_are_uuids() {
    let bytes: Vec<u8> = (0..16).map(|n| n * 17).collect();
    assert_eq!(
        correlation_id_of(&bytes),
        "00112233-4455-6677-8899-aabbccddeeff"
    );
    let id = generate_correlation_id();
    assert_eq!(id.len(), 36);
    assert_eq!(uuid::Uuid::parse_str(&id).unwrap().get_version_num(), 4);
    assert_ne!(id, generate_correlation_id());
}

#[test]
fn reply_topics_can_be_named_with_dots() {
    assert_eq!(
        reply_address("egress/reply/client/", "id-1", false),
        (
            "egress/reply/client/id-1".to_owned(),
            "egress/reply/client/id-1".to_owned()
        )
    );
    assert_eq!(
        reply_address("egress/reply/client/", "id-1", true),
        (
            "egress/reply/client/id-1".to_owned(),
            "egress.reply.client.id-1".to_owned()
        )
    );
}
