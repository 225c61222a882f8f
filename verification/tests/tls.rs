use mqtt_wasi::error::ErrorKind;
use mqtt_wasi::time::{Duration, Instant};
use mqtt_wasi::tls::{check_server_name, host_from_address, server_name_of, tcp_deadline};
use rustls::pki_types::ServerName;

#[test]
fn extracts_dns_and_ipv4_hosts() {
    assert_eq!(
        host_from_address("broker.example.com:8883").unwrap(),
        "broker.example.com"
    );
    assert_eq!(host_from_address("127.0.0.1:8883").unwrap(), "127.0.0.1");
}

#[test]
fn extracts_bracketed_ipv6_host_for_sni() {
    assert_eq!(
        host_from_address("[2001:db8::1]:8883").unwrap(),
        "2001:db8::1"
    );
    assert!(
        ServerName::try_from(host_from_address("[2001:db8::1]:8883").unwrap().to_owned())
            .is_ok()
    );
}

#[test]
fn rejects_ambiguous_or_incomplete_addresses() {
    for address in [
        "broker.example.com",
        ":8883",
        "broker.example.com:not-a-port",
        "2001:db8::1:8883",
        "[2001:db8::1]",
        "[2001:db8::1:8883",
    ] {
        assert!(host_from_address(address).is_err(), "accepted {address}");
    }
}

#[test]
fn rejects_zero_connect_timeout_before_resolution() {
    let error = tcp_deadline(Duration::zero(), Instant::from_nanos(0)).unwrap_err();
    assert_eq!(error.kind(), ErrorKind::InvalidInput);
}

#[test]
fn server_names_are_checked_by_the_tls_library() {
    assert_eq!(
        server_name_of("broker.example.com:8883").unwrap(),
        "broker.example.com"
    );
    assert_eq!(server_name_of("[2001:db8::1]:8883").unwrap(), "2001:db8::1");
    for address in ["bad host:8883", "-:8883", "a..b:8883"] {
        let error = server_name_of(address).unwrap_err();
        assert_eq!(error.kind(), ErrorKind::InvalidInput);
        assert_eq!(error.message(), "invalid dns name");
    }
    assert_eq!(
        check_server_name("host", false).unwrap_err().message(),
        "invalid dns name"
    );
    assert_eq!(check_server_name("host", true).unwrap(), "host");
}

#[test]
fn bad_addresses_say_what_is_wrong() {
    for (address, message) in [
        ("broker.example.com", "address must be host:port"),
        (":8883", "host must not be empty"),
        (
            "broker.example.com:not-a-port",
            "port must be an unsigned 16-bit integer",
        ),
        ("broker:65536", "port must be an unsigned 16-bit integer"),
        (
            "2001:db8::1:8883",
            "IPv6 addresses must be enclosed in brackets",
        ),
        ("[2001:db8::1]", "missing port after bracketed host"),
        ("[2001:db8::1:8883", "missing closing ']'"),
        ("[]:8883", "host must not be empty"),
    ] {
        assert_eq!(host_from_address(address).unwrap_err().message(), message);
    }
    assert_eq!(host_from_address("broker:+0080").unwrap(), "broker");
}
