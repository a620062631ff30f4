//! Messaging over websockets: each message is carried in protobuf-encoded
//! frames, either as a single frame or, when it exceeds the connection's
//! bandwidth, snappy-compressed and split into a begin / chunk / end sequence.
//!
//! This crate holds the verified core: the frame codec, the sender's framing
//! plan, the receiver's reassembly state machine and the table of pending
//! responses.

pub mod error;
pub mod protos;
pub mod ids;
pub mod compression;
pub mod message;
pub mod shared;
pub mod delivery;
pub mod response;
pub mod client;
pub mod server;
