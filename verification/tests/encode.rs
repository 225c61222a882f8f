use mqtt_wasi::codec::encode::{
    encode_binary, encode_fixed_header, encode_length, encode_string, encode_variable_int,
    VARIABLE_INT_MAX,
};
use mqtt_wasi::codec::types::PacketType;
use mqtt_wasi::error::Error;

#[test]
fn variable_int_single_byte() {
    let mut buf = Vec::new();
    encode_variable_int(&mut buf, 0).unwrap();
    assert_eq!(buf, [0x00]);

    buf.clear();
    encode_variable_int(&mut buf, 127).unwrap();
    assert_eq!(buf, [0x7F]);
}

#[test]
fn variable_int_two_bytes() {
    let mut buf = Vec::new();
    encode_variable_int(&mut buf, 128).unwrap();
    assert_eq!(buf, [0x80, 0x01]);

    buf.clear();
    encode_variable_int(&mut buf, 16_383).unwrap();
    assert_eq!(buf, [0xFF, 0x7F]);
}

#[test]
fn variable_int_four_bytes() {
    let mut buf = Vec::new();
    encode_variable_int(&mut buf, VARIABLE_INT_MAX).unwrap();
    assert_eq!(buf, [0xFF, 0xFF, 0xFF, 0x7F]);
}

#[test]
fn variable_int_too_large() {
    let mut buf = Vec::new();
    assert!(encode_variable_int(&mut buf, VARIABLE_INT_MAX + 1).is_err());
}

#[test]
fn string_encoding() {
    let mut buf = Vec::new();
    encode_string(&mut buf, "hello").unwrap();
    assert_eq!(buf, [0x00, 0x05, b'h', b'e', b'l', b'l', b'o']);
}

#[test]
fn empty_string() {
    let mut buf = Vec::new();
    encode_string(&mut buf, "").unwrap();
    assert_eq!(buf, [0x00, 0x00]);
}

#[test]
fn binary_encoding() {
    let mut buf = Vec::new();
    encode_binary(&mut buf, &[0xDE, 0xAD]).unwrap();
    assert_eq!(buf, [0x00, 0x02, 0xDE, 0xAD]);
}

#[test]
fn fixed_header_encoding() {
    let mut buf = Vec::new();
    encode_fixed_header(&mut buf, PacketType::Connect, 0, 10).unwrap();
    assert_eq!(buf, [0x10, 0x0A]);
}

#[test]
fn lengths_are_limited_before_they_are_narrowed() {
    let mut buf = Vec::new();
    encode_length(&mut buf, 321).unwrap();
    assert_eq!(buf, [0xC1, 0x02]);

    buf.clear();
    encode_length(&mut buf, 268_435_455).unwrap();
    assert_eq!(buf, [0xFF, 0xFF, 0xFF, 0x7F]);

    buf.clear();
    let past_u32 = (u32::MAX as usize).saturating_add(6);
    for len in [268_435_456, past_u32, usize::MAX] {
        assert!(matches!(
            encode_length(&mut buf, len),
            Err(Error::PacketTooLarge { size, max: 268_435_455 }) if size == len
        ));
    }
    assert!(buf.is_empty());
}
