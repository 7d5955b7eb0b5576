//! The location index and the searches made on it.

pub mod dht;
pub mod search;
