//! Chunking, the on-disk naming of chunks, and the replication policy.

pub mod chunker;
pub mod replication;
pub mod storage;
pub mod transfer;
