//! Peers, the encryption of messages between them, and the protocol spoken
//! over a connection.

pub mod agreement;
pub mod connection;
pub mod discovery;
pub mod encryption;
pub mod exchange;
pub mod frame;
pub mod message;
