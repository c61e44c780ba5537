//! An AnyTLS client: the framing, the padding schemes, the session and stream
//! state, the session pool and the choice of the outbound network interface,
//! as state machines that an asynchronous runtime drives.
pub mod anytls_proto;
pub mod client;
pub mod frame;
pub mod interface;
pub mod monitor;
pub mod outside;
pub mod padding;
pub mod padding_text;
pub mod pool;
pub mod session;
pub mod stream;
pub mod text;
pub mod tls;
pub mod udp;
