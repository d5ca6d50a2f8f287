//! Messages passed between the interface, the control layer and compute nodes.

pub mod client;
pub mod control;
pub mod interface;
pub mod kafka_message;
pub mod length_prefix;
pub mod raw_message;
pub mod websocket_message;

pub use client::ClientMessage;
pub use control::ControlMessage;
pub use length_prefix::{read_length_prefixed, write_length_prefix, FrameReader};
pub use raw_message::RawMessage;
