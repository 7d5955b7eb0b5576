//! A peer-to-peer file distribution node: chunking, a location index, a
//! replication policy and the wire protocol that ties them together.
//!
//! The library touches neither sockets nor files nor tasks: those are left
//! to the caller, which feeds the library plain values and carries out the
//! actions it answers with.

pub mod codec;
pub mod config;
pub mod file_id;
pub mod file_manager;
pub mod indexing;
pub mod peer;
pub mod ui;
