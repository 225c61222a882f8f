use mqtt_wasi::error::{Error, ErrorKind, IoError};

#[test]
fn io_error_preserves_its_source() {
    let error = Error::Io(IoError::new(
        ErrorKind::ConnectionReset,
        "transport reset",
    ));

    assert_eq!(error.source().unwrap().message(), "transport reset");
    assert!(Error::ConnectionClosed.source().is_none());
}
