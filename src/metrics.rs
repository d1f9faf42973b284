//! Lightweight counters for the hot path. They are shared between tasks and
//! only read for reporting, so every update is a relaxed atomic add.
use std::sync::atomic::{AtomicU64, Ordering};
use vstd::prelude::*;

verus! {

/// Command, hit/miss and byte counters.
pub struct AtomicCounters {
    pub cmd_get: AtomicU64,
    pub cmd_set: AtomicU64,
    pub get_hits: AtomicU64,
    pub get_misses: AtomicU64,
    pub bytes_read: AtomicU64,
    pub bytes_written: AtomicU64,
}

impl AtomicCounters {
    /// Counters that all start at zero.
    pub fn new() -> Self {
        Self {
            cmd_get: AtomicU64::new(0),
            cmd_set: AtomicU64::new(0),
            get_hits: AtomicU64::new(0),
            get_misses: AtomicU64::new(0),
            bytes_read: AtomicU64::new(0),
            bytes_written: AtomicU64::new(0),
        }
    }

    pub fn inc_cmd_get(&self) {
        self.cmd_get.fetch_add(1, Ordering::Relaxed);
    }

    pub fn inc_cmd_set(&self) {
        self.cmd_set.fetch_add(1, Ordering::Relaxed);
    }

    pub fn inc_get_hits(&self) {
        self.get_hits.fetch_add(1, Ordering::Relaxed);
    }

    pub fn inc_get_misses(&self) {
        self.get_misses.fetch_add(1, Ordering::Relaxed);
    }

    pub fn add_bytes_read(&self, n: u64) {
        self.bytes_read.fetch_add(n, Ordering::Relaxed);
    }

    pub fn add_bytes_written(&self, n: u64) {
        self.bytes_written.fetch_add(n, Ordering::Relaxed);
    }
}

impl Default for AtomicCounters {
    fn default() -> Self {
        Self::new()
    }
}

} // verus!
