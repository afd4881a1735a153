use interchangedb::{BufferPoolStats, StatsSnapshot};

fn rate(hits: u64, misses: u64) -> f64 {
    let total = hits + misses;
    if total == 0 {
        0.0
    } else {
        hits as f64 / total as f64
    }
}

#[test]
fn test_stats_new() {
    let stats = BufferPoolStats::new();
    assert_eq!(stats.cache_hits, 0);
    assert_eq!(stats.cache_misses, 0);
    assert_eq!(rate(stats.cache_hits, stats.cache_misses), 0.0);
}

#[test]
fn test_stats_increment() {
    let mut stats = BufferPoolStats::new();

    stats.cache_hits += 7;
    stats.cache_misses += 3;

    assert_eq!(rate(stats.cache_hits, stats.cache_misses), 0.7);
}

#[test]
fn test_stats_snapshot() {
    let mut stats = BufferPoolStats::new();
    stats.cache_hits += 7;
    stats.cache_misses += 3;

    let snapshot = stats.snapshot();
    assert_eq!(snapshot.cache_hits, 7);
    assert_eq!(snapshot.cache_misses, 3);
    assert_eq!(rate(snapshot.cache_hits, snapshot.cache_misses), 0.7);
}

#[test]
fn test_stats_reset() {
    let mut stats = BufferPoolStats::new();
    stats.cache_hits += 100;

    stats.reset();

    assert_eq!(stats.cache_hits, 0);
    assert_eq!(rate(stats.cache_hits, stats.cache_misses), 0.0);
}

#[test]
fn stats_test_stats_display() {
    let mut stats = BufferPoolStats::new();
    stats.cache_hits += 80;
    stats.cache_misses += 20;
    stats.evictions += 5;

    let snapshot = stats.snapshot();
    let display = snapshot.display_string();

    assert!(display.contains("hits: 80"));
    assert!(display.contains("misses: 20"));
    assert!(display.contains("80.00%"));
}

#[test]
fn types_test_stats_display() {
    let mut stats = BufferPoolStats::new();
    stats.cache_hits += 80;
    stats.cache_misses += 20;
    stats.evictions += 5;

    let snapshot = stats.snapshot();
    let display = snapshot.display_string();

    // Should contain key information
    assert!(display.contains("hits: 80"));
    assert!(display.contains("misses: 20"));
    assert!(display.contains("80.00%")); // Hit rate
}

#[test]
fn test_stats() {
    let mut stats = BufferPoolStats::new();

    // Initial state - all zeros
    assert_eq!(stats.cache_hits, 0);
    assert_eq!(rate(stats.cache_hits, stats.cache_misses), 0.0);

    // Increment counters
    stats.cache_hits += 7;
    stats.cache_misses += 3;

    // Check hit rate: 7/(7+3) = 0.7
    assert_eq!(rate(stats.cache_hits, stats.cache_misses), 0.7);

    // Take snapshot
    let snapshot = stats.snapshot();
    assert_eq!(snapshot.cache_hits, 7);
    assert_eq!(snapshot.cache_misses, 3);
    assert_eq!(rate(snapshot.cache_hits, snapshot.cache_misses), 0.7);

    // Reset
    stats.reset();
    assert_eq!(stats.cache_hits, 0);
    assert_eq!(rate(stats.cache_hits, stats.cache_misses), 0.0);
}

#[test]
fn test_stats_display_exact() {
    let snapshot = StatsSnapshot {
        cache_hits: 80,
        cache_misses: 20,
        evictions: 5,
        pages_read: 0,
        pages_written: 0,
    };
    assert_eq!(
        snapshot.display_string(),
        "Stats { hits: 80, misses: 20, evictions: 5, hit_rate: 80.00% }"
    );
}

#[test]
fn test_stats_display_zero_lookups() {
    let snapshot = StatsSnapshot {
        cache_hits: 0,
        cache_misses: 0,
        evictions: 0,
        pages_read: 0,
        pages_written: 0,
    };
    assert_eq!(
        snapshot.display_string(),
        "Stats { hits: 0, misses: 0, evictions: 0, hit_rate: 0.00% }"
    );
}
