//! The vici protocol of strongSwan: messages and packets.

pub mod message;
pub mod protocol;

pub use message::{CodecError, Message, Value};
pub use protocol::{Client, Error};
