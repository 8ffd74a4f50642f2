//! An in-memory key-value store whose keyspace is split over a fixed number
//! of independent shards. Every key is routed to exactly one shard by a
//! deterministic hash of its bytes, and each operation touches only that shard.
pub mod shard;
pub mod database;
pub mod laws;
