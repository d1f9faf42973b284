//! PetraCache: a memcached-compatible cache over a persistent key-value
//! engine. This library holds the wire protocol (parser and response
//! builder), the stored-value codec and TTL rules, the storage decisions
//! taken on what the engine returns, and the per-connection engine, each
//! with its contract.
pub mod config;
pub mod connection;
pub mod error;
pub mod handler;
pub mod metrics;
pub mod protocol;
pub mod storage;
pub mod text;

pub use error::{ProtocolError, StorageError};
