use mqtt_wasi::codec::decode::decode_fixed_header;
use mqtt_wasi::codec::ping::{PINGREQ_BYTES, PINGRESP_BYTES};
use mqtt_wasi::codec::types::{DisconnectPacket, PacketType};
use mqtt_wasi::error::Error;

#[test]
fn pingreq_bytes() {
    let (header, consumed) = decode_fixed_header(&PINGREQ_BYTES).unwrap();
    assert_eq!(header.packet_type, PacketType::PingReq);
    assert_eq!(header.remaining_length, 0);
    assert_eq!(consumed, 2);
}

#[test]
fn pingresp_bytes() {
    let (header, consumed) = decode_fixed_header(&PINGRESP_BYTES).unwrap();
    assert_eq!(header.packet_type, PacketType::PingResp);
    assert_eq!(header.remaining_length, 0);
    assert_eq!(consumed, 2);
}

#[test]
fn disconnect_normal() {
    let pkt = DisconnectPacket { reason_code: 0x00 };
    let bytes = pkt.encode().unwrap();
    assert_eq!(bytes, [0xE0, 0x00]);

    let (_header, hdr_len) = decode_fixed_header(&bytes).unwrap();
    let decoded = DisconnectPacket::decode(&bytes[hdr_len..]).unwrap();
    assert_eq!(decoded.reason_code, 0x00);
}

#[test]
fn disconnect_with_reason() {
    let pkt = DisconnectPacket { reason_code: 0x04 };
    let bytes = pkt.encode().unwrap();

    let (_, hdr_len) = decode_fixed_header(&bytes).unwrap();
    let decoded = DisconnectPacket::decode(&bytes[hdr_len..]).unwrap();
    assert_eq!(decoded.reason_code, 0x04);
}

#[test]
fn disconnect_accepts_properties_but_rejects_trailing_bytes() {
    // Reason 0x80 and one Reason String property "x".
    let valid = [0x80, 0x04, 0x1F, 0x00, 0x01, b'x'];
    let packet = DisconnectPacket::decode(&valid).unwrap();
    assert_eq!(packet.reason_code, 0x80);

    // Empty property section followed by an impossible trailing byte.
    assert!(matches!(
        DisconnectPacket::decode(&[0x80, 0x00, 0xFF]),
        Err(Error::MalformedPacket(
            "trailing DISCONNECT bytes"
        ))
    ));

    // Server Reference is legal but intentionally not retained by the API.
    assert!(DisconnectPacket::decode(&[0x80, 0x04, 0x1C, 0x00, 0x01, b's']).is_ok());

    // Session Expiry Interval is not legal in a server-to-client DISCONNECT.
    assert!(matches!(
        DisconnectPacket::decode(&[0x80, 0x05, 0x11, 0x00, 0x00, 0x00, 0x01]),
        Err(Error::MalformedPacket(
            "property is not allowed in this packet"
        ))
    ));
}

#[test]
fn disconnect_rejects_reserved_reason_code() {
    assert!(matches!(
        DisconnectPacket::decode(&[0x03]),
        Err(Error::InvalidReasonCode(0x03))
    ));
}
