//! The decisions of a sharded TCP server that answers Fibonacci requests, and
//! of the benchmark client that drives it.

pub mod cache;
pub mod client;
pub mod connection;
pub mod fibonacci;
pub mod interval;
pub mod request;
pub mod shard;
pub mod stats;
pub mod text;
