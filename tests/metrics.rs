use petracache::metrics::AtomicCounters;
use std::sync::atomic::Ordering;

#[test]
fn test_atomic_counters() {
    let counters = AtomicCounters::new();
    counters.inc_cmd_get();
    counters.inc_cmd_get();
    counters.inc_get_hits();

    assert_eq!(counters.cmd_get.load(Ordering::Relaxed), 2);
    assert_eq!(counters.get_hits.load(Ordering::Relaxed), 1);
}

#[test]
fn counters_add_bytes() {
    let counters = AtomicCounters::default();
    counters.add_bytes_read(10);
    counters.add_bytes_read(5);
    counters.add_bytes_written(7);
    counters.inc_cmd_set();
    counters.inc_get_misses();
    assert_eq!(counters.bytes_read.load(Ordering::Relaxed), 15);
    assert_eq!(counters.bytes_written.load(Ordering::Relaxed), 7);
    assert_eq!(counters.cmd_set.load(Ordering::Relaxed), 1);
    assert_eq!(counters.get_misses.load(Ordering::Relaxed), 1);
}
