//! Configuration, with defaults that boot a server with no file at all.
use crate::protocol::parser::names;
use crate::text::{ascii, ascii_lit, bytes_eq, decimal_spec, owned_text, parse_decimal};
use vstd::prelude::*;
use vstd::utf8::encode_utf8;

verus! {

/// The whole configuration.
#[derive(Debug, Clone)]
pub struct Config {
    pub server: ServerConfig,
    pub storage: StorageConfig,
    pub metrics: MetricsConfig,
}

/// Server configuration.
#[derive(Debug, Clone)]
pub struct ServerConfig {
    /// Address to listen on.
    pub listen_addr: String,
    /// Maximum number of concurrent connections.
    pub max_connections: usize,
    /// Read buffer size per connection, in bytes.
    pub read_buffer_size: usize,
    /// Write buffer size per connection, in bytes.
    pub write_buffer_size: usize,
    /// Number of worker threads (0 = one per CPU).
    pub worker_threads: usize,
    /// Idle connection timeout in seconds (0 = none).
    pub connection_timeout_secs: u64,
}

/// Storage engine configuration.
#[derive(Debug, Clone)]
pub struct StorageConfig {
    /// Path of the database directory.
    pub db_path: String,
    /// Block cache budget in bytes.
    pub block_cache_size: usize,
    /// Size of one memtable in bytes.
    pub write_buffer_size: usize,
    /// Maximum number of memtables.
    pub max_write_buffer_number: i32,
    /// Target file size in bytes.
    pub target_file_size_base: u64,
    /// Maximum number of background jobs.
    pub max_background_jobs: i32,
    /// Compress files.
    pub enable_compression: bool,
    /// Drop expired entries during compaction.
    pub enable_ttl_compaction: bool,
}

/// Metrics and health endpoint configuration.
#[derive(Debug, Clone)]
pub struct MetricsConfig {
    /// Expose counters.
    pub enabled: bool,
    /// Address of the counter and health endpoint.
    pub listen_addr: String,
}

impl Default for ServerConfig {
    fn default() -> (r: Self)
        ensures
            r.listen_addr@ == "127.0.0.1:11211"@,
            r.max_connections == 10000,
            r.read_buffer_size == 8192,
            r.write_buffer_size == 8192,
            r.worker_threads == 0,
            r.connection_timeout_secs == 0,
    {
        ServerConfig {
            listen_addr: owned_text("127.0.0.1:11211"),
            max_connections: 10000,
            read_buffer_size: 8192,
            write_buffer_size: 8192,
            worker_threads: 0,
            connection_timeout_secs: 0,
        }
    }
}

impl Default for StorageConfig {
    fn default() -> (r: Self)
        ensures
            r.db_path@ == "./data/rocksdb"@,
            r.block_cache_size == 1024 * 1024 * 1024,
            r.write_buffer_size == 64 * 1024 * 1024,
            r.max_write_buffer_number == 3,
            r.target_file_size_base == 64 * 1024 * 1024,
            r.max_background_jobs == 4,
            !r.enable_compression,
            r.enable_ttl_compaction,
    {
        StorageConfig {
            db_path: owned_text("./data/rocksdb"),
            block_cache_size: 1024 * 1024 * 1024,
            write_buffer_size: 64 * 1024 * 1024,
            max_write_buffer_number: 3,
            target_file_size_base: 64 * 1024 * 1024,
            max_background_jobs: 4,
            enable_compression: false,
            enable_ttl_compaction: true,
        }
    }
}

impl Default for MetricsConfig {
    fn default() -> (r: Self)
        ensures
            r.enabled,
            r.listen_addr@ == "127.0.0.1:9090"@,
    {
        MetricsConfig { enabled: true, listen_addr: owned_text("127.0.0.1:9090") }
    }
}

impl Default for Config {
    fn default() -> (r: Self)
        ensures
            r.server.listen_addr@ == "127.0.0.1:11211"@,
            r.server.max_connections == 10000,
            r.storage.db_path@ == "./data/rocksdb"@,
            r.metrics.enabled,
            r.metrics.listen_addr@ == "127.0.0.1:9090"@,
    {
        Config {
            server: ServerConfig::default(),
            storage: StorageConfig::default(),
            metrics: MetricsConfig::default(),
        }
    }
}

/// Whether a flag's text turns it on: `true` in any case, or `1`.
pub open spec fn flag_on(text: Seq<u8>) -> bool {
    names(text, ascii("true"@)) || text == ascii("1"@)
}

fn lower_eq(text: &[u8], lower: &[u8]) -> (r: bool)
    ensures
        r == names(text@, lower@),
{
    if text.len() != lower.len() {
        return false;
    }
    let mut i: usize = 0;
    while i < text.len()
        invariant
            text@.len() == lower@.len(),
            i <= text@.len(),
            forall|j: int| 0 <= j < i ==> crate::protocol::parser::lower(#[trigger] text@[j]) == lower@[j],
        decreases text@.len() - i,
    {
        let b = text[i];
        let l = if 65 <= b && b <= 90 {
            b + 32
        } else {
            b
        };
        if l != lower[i] {
            return false;
        }
        i = i + 1;
    }
    true
}

impl Config {
    /// The defaults with the overrides that the environment gave: a listen
    /// address, a connection limit (ignored unless it is a decimal number
    /// that fits), a database path, a metrics address, a metrics switch.
    pub fn from_overrides(
        listen_addr: Option<String>,
        max_connections: Option<String>,
        db_path: Option<String>,
        metrics_addr: Option<String>,
        metrics_enabled: Option<String>,
    ) -> (r: Config)
        ensures
            r.server.listen_addr@ == match listen_addr {
                Some(s) => s@,
                None => "127.0.0.1:11211"@,
            },
            r.server.max_connections as nat == match max_connections {
                Some(s) => match decimal_spec(encode_utf8(s@), usize::MAX as nat) {
                    Some(n) => n,
                    None => 10000nat,
                },
                None => 10000nat,
            },
            r.storage.db_path@ == match db_path {
                Some(s) => s@,
                None => "./data/rocksdb"@,
            },
            r.metrics.listen_addr@ == match metrics_addr {
                Some(s) => s@,
                None => "127.0.0.1:9090"@,
            },
            r.metrics.enabled == match metrics_enabled {
                Some(s) => flag_on(encode_utf8(s@)),
                None => true,
            },
    {
        let mut config = Config::default();
        if let Some(addr) = listen_addr {
            config.server.listen_addr = addr;
        }
        if let Some(text) = max_connections {
            if let Some(n) = parse_decimal(text.as_str().as_bytes(), usize::MAX as u64) {
                config.server.max_connections = n as usize;
            }
        }
        if let Some(path) = db_path {
            config.storage.db_path = path;
        }
        if let Some(addr) = metrics_addr {
            config.metrics.listen_addr = addr;
        }
        if let Some(text) = metrics_enabled {
            proof {
                reveal_strlit("true");
                reveal_strlit("1");
            }
            let bytes = text.as_str().as_bytes();
            config.metrics.enabled = lower_eq(bytes, ascii_lit("true")) || bytes_eq(
                bytes,
                ascii_lit("1"),
            );
        }
        config
    }
}

} // verus!
