//! Byte-level building blocks shared by the wire protocol and the chunk
//! store: byte-string helpers, decimal fields and hexadecimal text.

pub mod bytes;
pub mod decimal;
pub mod hex;
pub mod text;
