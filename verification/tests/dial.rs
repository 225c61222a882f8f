use mqtt_wasi::async_client::handshake;
use mqtt_wasi::client;
use mqtt_wasi::error::{Error, ErrorKind, IoError};
use mqtt_wasi::time::{Duration, Instant};
use mqtt_wasi::tls;
use mqtt_wasi::transport::written;

#[test]
fn blocking_dialing_stops_at_the_deadline() {
    let deadline = Instant::from_nanos(10);
    let left = client::dial_timeout(deadline, Instant::from_nanos(4)).unwrap();
    assert_eq!(left.as_nanos(), 6);
    let error = client::dial_timeout(deadline, Instant::from_nanos(10)).unwrap_err();
    assert_eq!(error.kind(), ErrorKind::TimedOut);
    assert!(matches!(
        client::map_dial_error(error),
        Error::Timeout("connect")
    ));
}

#[test]
fn dialing_reports_the_last_failure_or_that_there_was_no_address() {
    let refused = || IoError::new(ErrorKind::ConnectionRefused, "refused");
    assert_eq!(
        client::dial_failure(Some(refused())).message(),
        "refused"
    );
    assert_eq!(
        client::dial_failure(None).message(),
        "address resolved to no socket addresses"
    );
    assert_eq!(tls::tcp_failure(Some(refused())).message(), "refused");
    assert_eq!(
        tls::tcp_failure(None).message(),
        "address resolved to no endpoints"
    );

    let deadline = Instant::from_nanos(10);
    let early = Instant::from_nanos(9);
    assert!(matches!(
        handshake::dial_failure(Some(refused()), deadline, early),
        Error::Io(error) if error.kind() == ErrorKind::ConnectionRefused
    ));
    assert!(matches!(
        handshake::dial_failure(None, deadline, early),
        Error::Io(error) if error.message() == "address resolved to no endpoints"
    ));
    let timed_out = IoError::new(ErrorKind::TimedOut, "timed out");
    assert!(matches!(
        handshake::dial_failure(Some(timed_out), deadline, early),
        Error::Timeout("connect")
    ));
    assert!(matches!(
        handshake::dial_failure(Some(refused()), deadline, deadline),
        Error::Timeout("connect")
    ));
}

#[test]
fn connect_deadlines_have_to_be_reachable() {
    let now = Instant::from_nanos(5);
    let deadline = handshake::connect_deadline(Duration::from_millis(1), now).unwrap();
    assert_eq!(deadline.as_nanos(), 1_000_005);
    assert!(matches!(
        handshake::connect_deadline(Duration::max(), now),
        Err(Error::InvalidOptions("connect timeout is too large"))
    ));
    let error = tls::tcp_deadline(Duration::max(), now).unwrap_err();
    assert_eq!(error.message(), "TLS connect timeout is too large");
    let deadline = tls::tcp_deadline(Duration::from_secs(1), now).unwrap();
    assert_eq!(
        tls::tcp_remaining(deadline, now).unwrap().as_nanos(),
        1_000_000_000
    );
    let error = tls::tcp_remaining(deadline, deadline).unwrap_err();
    assert_eq!(error.kind(), ErrorKind::TimedOut);
}

#[test]
fn blocking_writes_go_on_after_interruptions() {
    assert_eq!(written(Ok(3)).unwrap(), 3);
    assert_eq!(
        written(Err(IoError::new(ErrorKind::Interrupted, "again"))).unwrap(),
        0
    );
    assert_eq!(written(Ok(0)).unwrap_err().kind(), ErrorKind::WriteZero);
    assert_eq!(
        written(Err(IoError::new(ErrorKind::BrokenPipe, "gone")))
            .unwrap_err()
            .kind(),
        ErrorKind::BrokenPipe
    );
}
