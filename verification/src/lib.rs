//! A small key-value storage engine: named tables of byte keys and byte
//! values, point and batched reads, and ordered batches of writes.

/// Byte strings and their lexicographic order
pub mod bytes;

/// Storage engine trait and write operations
pub mod engine_interface;

/// Engine errors
pub mod error;

/// What holds of every state and every batch
pub mod laws;

/// The in-memory engine
pub mod memory_engine;

/// The engine as mathematics
pub mod model;

/// The table registry
pub mod registry;

/// One table
pub mod table;

/// Names and key texts
pub mod text;

pub use self::engine_interface::{Delete, DeleteRange, Put, StorageEngine, WriteOperation};
