use mqtt_wasi::codec::types::{FixedHeader, Packet, PacketType};
use mqtt_wasi::error::Error;

#[test]
fn ping_packets_require_empty_bodies() {
    let header = FixedHeader {
        packet_type: PacketType::PingResp,
        flags: 0,
        remaining_length: 1,
    };
    assert!(matches!(
        Packet::decode(header, &[0]),
        Err(Error::MalformedPacket("PINGRESP body must be empty"))
    ));
}

#[test]
fn body_length_must_match_fixed_header() {
    let header = FixedHeader {
        packet_type: PacketType::PingResp,
        flags: 0,
        remaining_length: 0,
    };
    assert!(matches!(
        Packet::decode(header, &[0]),
        Err(Error::MalformedPacket("body length does not match header"))
    ));
}
