use petracache::config::Config;

#[test]
fn defaults_boot_without_a_file() {
    let c = Config::default();
    assert_eq!(c.server.listen_addr, "127.0.0.1:11211");
    assert_eq!(c.server.max_connections, 10000);
    assert_eq!(c.server.read_buffer_size, 8192);
    assert_eq!(c.storage.db_path, "./data/rocksdb");
    assert_eq!(c.storage.block_cache_size, 1 << 30);
    assert!(c.storage.enable_ttl_compaction);
    assert!(!c.storage.enable_compression);
    assert!(c.metrics.enabled);
    assert_eq!(c.metrics.listen_addr, "127.0.0.1:9090");
}

#[test]
fn overrides_replace_defaults() {
    let c = Config::from_overrides(
        Some("0.0.0.0:1".to_string()),
        Some("12".to_string()),
        Some("/tmp/db".to_string()),
        Some("0.0.0.0:2".to_string()),
        Some("TRUE".to_string()),
    );
    assert_eq!(c.server.listen_addr, "0.0.0.0:1");
    assert_eq!(c.server.max_connections, 12);
    assert_eq!(c.storage.db_path, "/tmp/db");
    assert_eq!(c.metrics.listen_addr, "0.0.0.0:2");
    assert!(c.metrics.enabled);

    let c = Config::from_overrides(None, Some("many".to_string()), None, None, Some("yes".to_string()));
    assert_eq!(c.server.max_connections, 10000);
    assert!(!c.metrics.enabled);
    let c = Config::from_overrides(None, None, None, None, Some("1".to_string()));
    assert!(c.metrics.enabled);
    let c = Config::from_overrides(None, None, None, None, Some("0".to_string()));
    assert!(!c.metrics.enabled);
}
