use mqtt_wasi::codec::properties::Properties;
use mqtt_wasi::codec::types::{ConnectPacket, Packet};

#[test]
fn connect_packet_debug_redacts_credentials_directly_and_in_packet() {
    let connect = ConnectPacket {
        protocol_version: 5,
        clean_start: true,
        keep_alive: 30,
        client_id: String::from("debug-client"),
        username: Some(String::from("visible-user")),
        password: Some(b"super-secret".to_vec()),
        properties: Properties::new(),
    };

    for debug in [
        format!("{:?}", connect.redacted()),
        format!("{:?}", Packet::Connect(connect).redacted()),
    ] {
        assert!(debug.contains("username_set: true"));
        assert!(debug.contains("password_set: true"));
        assert!(!debug.contains("visible-user"));
        assert!(!debug.contains("super-secret"));
        assert!(!debug.contains("[115, 117, 112"));
    }
}
