use interchangedb::{BufferPoolManager, DiskManager};

fn create_bpm(pool_size: usize) -> BufferPoolManager {
    BufferPoolManager::new(pool_size, DiskManager::new())
}

/// Test data persistence across multiple eviction cycles.
#[test]
fn test_data_persistence_across_evictions() {
    let mut bpm = create_bpm(2);

    // Create 5 pages with unique data (forces evictions)
    let mut page_ids = vec![];
    for i in 0u8..5 {
        let mut guard = bpm.new_page().unwrap();
        guard.as_mut_slice(&mut bpm)[0] = i;
        guard.as_mut_slice(&mut bpm)[1] = i.wrapping_mul(3);
        page_ids.push(guard.page_id());
        guard.drop_guard(&mut bpm);
    }

    // Read all back - verifies evicted pages were flushed
    for (i, &pid) in page_ids.iter().enumerate() {
        let mut guard = bpm.fetch_page_read(pid).unwrap();
        assert_eq!(guard.as_slice(&bpm)[0], i as u8);
        assert_eq!(guard.as_slice(&bpm)[1], (i as u8).wrapping_mul(3));
        guard.drop_guard(&mut bpm);
    }
}

/// Test flush and reload across buffer pool instances over the same
/// backing store.
#[test]
fn test_flush_and_reload() {
    let data = b"persistent!";

    let pid;

    // First session: create and write
    let store = {
        let dm = DiskManager::new();
        let mut bpm = BufferPoolManager::new(10, dm);

        let mut guard = bpm.new_page().unwrap();
        pid = guard.page_id();
        guard.as_mut_slice(&mut bpm)[..data.len()].copy_from_slice(data);
        guard.drop_guard(&mut bpm);

        bpm.flush_all_pages().unwrap();
        bpm.into_disk_manager()
    };

    // Second session: verify data through a fresh pool
    {
        let mut bpm = BufferPoolManager::new(10, store);

        let mut guard = bpm.fetch_page_read(pid).unwrap();
        assert_eq!(&guard.as_slice(&bpm)[..data.len()], data);
        guard.drop_guard(&mut bpm);
    }
}

/// Test stats accuracy under load.
#[test]
fn test_stats_accuracy() {
    let mut bpm = create_bpm(2);

    let pid = {
        let mut g = bpm.new_page().unwrap();
        let pid = g.page_id();
        g.drop_guard(&mut bpm);
        pid
    };

    // Multiple fetches = cache hits
    for _ in 0..5 {
        let mut g = bpm.fetch_page_read(pid).unwrap();
        g.drop_guard(&mut bpm);
    }

    let stats = bpm.stats().snapshot();
    assert!(stats.cache_hits >= 5);

    // Force eviction
    {
        let mut g = bpm.new_page().unwrap();
        g.drop_guard(&mut bpm);
    }
    {
        let mut g = bpm.new_page().unwrap();
        g.drop_guard(&mut bpm);
    }

    let stats = bpm.stats().snapshot();
    assert!(stats.evictions >= 1);
}

/// Repeated fetches of a resident page only count hits, never reads
/// from the backing store.
#[test]
fn test_repeated_fetch_counts_hits_only() {
    let mut bpm = create_bpm(4);
    let pid = {
        let mut g = bpm.new_page().unwrap();
        let pid = g.page_id();
        g.drop_guard(&mut bpm);
        pid
    };

    let before = bpm.stats().snapshot();
    for _ in 0..3 {
        let mut g = bpm.fetch_page_read(pid).unwrap();
        g.drop_guard(&mut bpm);
    }
    let after = bpm.stats().snapshot();

    assert_eq!(after.cache_hits, before.cache_hits + 3);
    assert_eq!(after.pages_read, before.pages_read);
    assert_eq!(after.cache_misses, before.cache_misses);
}

/// Pool of size one under repeated new_page: each new page causes one
/// eviction (and one write-back once the evicted pages are dirty).
#[test]
fn test_pool_of_one_evicts_each_time() {
    let mut bpm = create_bpm(1);

    {
        let mut g = bpm.new_page().unwrap();
        g.drop_guard(&mut bpm);
    }
    for round in 1..=4u64 {
        let mut g = bpm.new_page().unwrap();
        g.drop_guard(&mut bpm);
        let stats = bpm.stats().snapshot();
        assert_eq!(stats.evictions, round);
    }
}

/// The page count plus free frames always equals the pool size.
#[test]
fn test_frame_accounting() {
    let mut bpm = create_bpm(3);
    assert_eq!(bpm.page_count() + bpm.free_frame_count(), 3);

    let mut g = bpm.new_page().unwrap();
    assert_eq!(bpm.page_count() + bpm.free_frame_count(), 3);
    g.drop_guard(&mut bpm);

    let pid = g.page_id();
    bpm.delete_page(pid).unwrap();
    assert_eq!(bpm.page_count() + bpm.free_frame_count(), 3);
    assert_eq!(bpm.page_count(), 0);
}
