//! The data path: encoded documents in, windows of tokens out.

pub mod listing;
pub mod prepare;
pub mod session;
pub mod shard;

pub use shard::{Meta, Shards};
