//! The storage layer: value encoding, TTL policy and the decisions taken on
//! what the engine hands back.
pub mod policy;
pub mod value;

pub use policy::{
    resolve_get, resolve_get_multi, ttl_compaction_decision, FilterDecision, Lookup, MemoryUsage,
    MultiGet, TtlStats,
};
pub use value::{calculate_expire_at, calculate_expire_at_from, current_timestamp, StoredValue};
