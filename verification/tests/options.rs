use mqtt_wasi::options::ConnectOptions;
use mqtt_wasi::time::Instant;

#[test]
fn debug_redacts_credentials() {
    let options = ConnectOptions::new("debug-client")
        .with_credentials("visible-user", b"super-secret".to_vec());
    let debug = format!("{:?}", options.redacted());

    assert!(debug.contains("username_set: true"));
    assert!(debug.contains("password_set: true"));
    assert!(!debug.contains("visible-user"));
    assert!(!debug.contains("super-secret"));
    assert!(!debug.contains("[115, 117, 112"));
}

#[test]
fn mqtt_v5_allows_empty_client_identifier_without_clean_start() {
    assert!(ConnectOptions::new("")
        .with_clean_start(false)
        .validate(Instant::from_nanos(0))
        .is_ok());
}
