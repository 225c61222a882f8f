# mqtt_wasi

The protocol logic of an MQTT v5 client as a library verified with Verus, and the client
built on it.

- `src/` is the library. It encodes and decodes packets, validates options, topics and
  properties, and runs the blocking and the asynchronous client as state machines. It
  performs no I/O and reads no clock. Contracts say what each function returns or changes,
  and the `laws`, `answers` and `messages` modules state what holds across operations: that every
  operation is answered exactly once, that the server's limits are honoured, and that the
  state stays well formed.
- `app/` runs the state machines on sockets, clocks and channels, and adds TLS.
- `tests/` runs the library on concrete values.

QoS 0 and QoS 1 are supported. A QoS 2 packet from the server is a protocol error.

Three calls are trusted. `String::from_utf8` decodes strings. `ServerName::try_from` of
rustls decides which host names a TLS server can have. `Uuid::new_v4` of uuid makes
correlation data.
