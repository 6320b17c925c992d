//! A Maelstrom-style node library: a wire codec for newline-delimited JSON
//! messages and the pure state machines of the echo, unique-id, broadcast,
//! grow-only-counter and kafka-log workloads.
//!
//! Every function here is verified; the surrounding process (standard input
//! and output, timers, the blocking RPC wait) lives outside the library and
//! exchanges plain `Message` values with it.

pub mod broadcast;
pub mod codec;
pub mod counter;
pub mod echo;
pub mod json;
pub mod kafka;
pub mod json_coll;
pub mod node;
pub mod protocol;
pub mod unique;
pub mod wire;

pub use protocol::Body;
pub use protocol::Init;
pub use protocol::Message;
pub use protocol::Payload;
