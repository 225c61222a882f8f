use mqtt_wasi::codec::properties::Properties;
use mqtt_wasi::codec::types::{Packet, PublishPacket, QoS};
use mqtt_wasi::error::Error;
use mqtt_wasi::frame::FrameReader;

#[test]
fn complete_packet_in_one_push() {
    let pkt = PublishPacket {
        topic: String::from("t"),
        packet_id: None,
        payload: b"hi".to_vec(),
        qos: QoS::AtMostOnce,
        retain: false,
        dup: false,
        properties: Properties::new(),
    };
    let bytes = pkt.encode().unwrap();

    let mut reader = FrameReader::new();
    reader.push(&bytes);
    let decoded = reader.try_decode().unwrap().unwrap();
    match decoded {
        Packet::Publish(p) => {
            assert_eq!(p.topic, "t");
            assert_eq!(p.payload, b"hi");
        }
        _ => panic!("expected Publish"),
    }
    assert!(reader.try_decode().unwrap().is_none());
}

#[test]
fn partial_then_complete() {
    let pkt = PublishPacket {
        topic: String::from("test"),
        packet_id: None,
        payload: b"hello".to_vec(),
        qos: QoS::AtMostOnce,
        retain: false,
        dup: false,
        properties: Properties::new(),
    };
    let bytes = pkt.encode().unwrap();

    let mut reader = FrameReader::new();

    // Feed one byte at a time
    for (i, &byte) in bytes.iter().enumerate() {
        reader.push(&[byte]);
        let result = reader.try_decode().unwrap();
        if i < bytes.len() - 1 {
            assert!(result.is_none(), "should not decode yet at byte {i}");
        } else {
            assert!(result.is_some(), "should decode at final byte");
        }
    }
}

#[test]
fn two_packets_concatenated() {
    let pkt1 = PublishPacket {
        topic: String::from("a"),
        packet_id: None,
        payload: b"1".to_vec(),
        qos: QoS::AtMostOnce,
        retain: false,
        dup: false,
        properties: Properties::new(),
    };
    let pkt2 = PublishPacket {
        topic: String::from("b"),
        packet_id: None,
        payload: b"2".to_vec(),
        qos: QoS::AtMostOnce,
        retain: false,
        dup: false,
        properties: Properties::new(),
    };
    let mut bytes = pkt1.encode().unwrap();
    bytes.extend_from_slice(&pkt2.encode().unwrap());

    let mut reader = FrameReader::new();
    reader.push(&bytes);

    let d1 = reader.try_decode().unwrap().unwrap();
    let d2 = reader.try_decode().unwrap().unwrap();
    assert!(reader.try_decode().unwrap().is_none());

    match (d1, d2) {
        (Packet::Publish(p1), Packet::Publish(p2)) => {
            assert_eq!(p1.topic, "a");
            assert_eq!(p2.topic, "b");
        }
        _ => panic!("expected two Publish packets"),
    }
}

#[test]
fn empty_push() {
    let mut reader = FrameReader::new();
    assert!(reader.try_decode().unwrap().is_none());
    reader.push(&[]);
    assert!(reader.try_decode().unwrap().is_none());
}

#[test]
fn pingresp() {
    let mut reader = FrameReader::new();
    reader.push(&[0xD0, 0x00]); // PINGRESP
    match reader.try_decode().unwrap().unwrap() {
        Packet::PingResp => {}
        _ => panic!("expected PingResp"),
    }
}

#[test]
fn rejects_packet_as_soon_as_header_exceeds_limit() {
    let mut reader = FrameReader::with_max_packet_size(8);
    // Two-byte header plus ten body bytes.
    reader.push(&[0x30, 0x0A]);

    assert!(matches!(
        reader.try_decode(),
        Err(Error::PacketTooLarge { size: 12, max: 8 })
    ));
}

#[test]
fn capacity_prevents_next_frame_from_overflowing_a_split_packet() {
    let first = PublishPacket {
        topic: String::from("first"),
        packet_id: None,
        payload: b"one".to_vec(),
        qos: QoS::AtMostOnce,
        retain: false,
        dup: false,
        properties: Properties::new(),
    }
    .encode()
    .unwrap();
    let second = PublishPacket {
        topic: String::from("second"),
        packet_id: None,
        payload: b"two".to_vec(),
        qos: QoS::AtMostOnce,
        retain: false,
        dup: false,
        properties: Properties::new(),
    }
    .encode()
    .unwrap();

    let split = first.len() - 2;
    let mut reader = FrameReader::with_max_packet_size(32);
    reader.push(&first[..split]);
    assert!(reader.try_decode().unwrap().is_none());
    assert_eq!(reader.remaining_capacity(), 2);

    // A socket reader must honor remaining_capacity, leaving packet two in
    // the transport until packet one has been decoded.
    let mut available = Vec::from(&first[split..]);
    available.extend_from_slice(&second);
    let read_len = reader.remaining_capacity().min(available.len());
    reader.push(&available[..read_len]);
    let packet = reader.try_decode().unwrap().unwrap();
    assert!(matches!(packet, Packet::Publish(publish) if publish.topic == "first"));

    reader.push(&available[read_len..]);
    let packet = reader.try_decode().unwrap().unwrap();
    assert!(matches!(packet, Packet::Publish(publish) if publish.topic == "second"));
}
