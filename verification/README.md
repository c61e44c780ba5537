# anytls

An AnyTLS client whose logic is verified with Verus.

- `src/` is the library. It holds the framing, the padding schemes, the state of
  sessions, streams and UDP sockets, the session pool, the set-up of a client and
  an outbound, and the choice of the network interface. Each is a state machine
  over plain values: it is told what has come in and says what is to be done.
  `src/outside.rs` lists what is believed of other crates.
- `app/` runs these state machines on tokio and rustls.
- `tests/` runs the library without a network.
