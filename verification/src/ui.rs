//! What the operator types.

pub mod cli;
