//! A multi-user chat protocol: the frame codec, the server's presence
//! registry, connection state machine and outbound fan-out, and the client's
//! incremental session decoder.

pub mod arrival;
pub mod codec;
pub mod connection;
pub mod departure;
pub mod dispatch;
pub mod events;
pub mod framing;
pub mod message;
pub mod mirror;
pub mod order;
pub mod registry;
pub mod session;
pub mod streaming;
pub mod uniqueness;
pub mod wire;
