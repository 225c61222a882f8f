use mqtt_wasi::codec::decode::{decode_fixed_header, Cursor};
use mqtt_wasi::codec::encode::{encode_string, encode_variable_int};
use mqtt_wasi::codec::types::PacketType;

#[test]
fn cursor_read_u8() {
    let mut cur = Cursor::new(&[0x42, 0xFF]);
    assert_eq!(cur.read_u8().unwrap(), 0x42);
    assert_eq!(cur.read_u8().unwrap(), 0xFF);
    assert!(cur.read_u8().is_err());
}

#[test]
fn cursor_read_u16() {
    let mut cur = Cursor::new(&[0x00, 0x0A]);
    assert_eq!(cur.read_u16().unwrap(), 10);
}

#[test]
fn cursor_variable_int() {
    // Single byte
    let mut cur = Cursor::new(&[0x7F]);
    assert_eq!(cur.read_variable_int().unwrap(), 127);

    // Two bytes
    let mut cur = Cursor::new(&[0x80, 0x01]);
    assert_eq!(cur.read_variable_int().unwrap(), 128);

    // Four bytes (max)
    let mut cur = Cursor::new(&[0xFF, 0xFF, 0xFF, 0x7F]);
    assert_eq!(cur.read_variable_int().unwrap(), 268_435_455);
}

#[test]
fn cursor_read_string() {
    let mut cur = Cursor::new(&[0x00, 0x05, b'h', b'e', b'l', b'l', b'o']);
    assert_eq!(cur.read_string().unwrap(), "hello");
}

#[test]
fn decode_connect_fixed_header() {
    let (header, consumed) = decode_fixed_header(&[0x10, 0x0A]).unwrap();
    assert_eq!(header.packet_type, PacketType::Connect);
    assert_eq!(header.flags, 0);
    assert_eq!(header.remaining_length, 10);
    assert_eq!(consumed, 2);
}

#[test]
fn variable_int_round_trip() {

    for value in [0, 1, 127, 128, 16_383, 16_384, 2_097_151, 268_435_455] {
        let mut buf = Vec::new();
        encode_variable_int(&mut buf, value).unwrap();
        let mut cur = Cursor::new(&buf);
        assert_eq!(cur.read_variable_int().unwrap(), value);
    }
}

#[test]
fn string_round_trip() {

    let mut buf = Vec::new();
    encode_string(&mut buf, "test 🦀").unwrap();
    let mut cur = Cursor::new(&buf);
    assert_eq!(cur.read_string().unwrap(), "test 🦀");
}
