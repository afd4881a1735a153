use interchangedb::{BufferPoolManager, DiskManager, PageId};

/// Helper to create a buffer pool over a fresh in-memory store.
fn create_test_bpm(pool_size: usize) -> BufferPoolManager {
    BufferPoolManager::new(pool_size, DiskManager::new())
}

#[test]
fn test_new_page() {
    let mut bpm = create_test_bpm(10);

    let mut guard = bpm.new_page().unwrap();
    assert_eq!(guard.page_id(), PageId::new(0));
    guard.drop_guard(&mut bpm);

    let guard = bpm.new_page().unwrap();
    assert_eq!(guard.page_id(), PageId::new(1));
}

#[test]
fn test_fetch_page_read() {
    let mut bpm = create_test_bpm(10);

    // Create a page and write data
    {
        let mut guard = bpm.new_page().unwrap();
        guard.as_mut_slice(&mut bpm)[0] = 0xAB;
        guard.drop_guard(&mut bpm);
    }

    // Fetch and verify
    {
        let mut guard = bpm.fetch_page_read(PageId::new(0)).unwrap();
        assert_eq!(guard.as_slice(&bpm)[0], 0xAB);
        guard.drop_guard(&mut bpm);
    }
}

#[test]
fn test_fetch_page_write() {
    let mut bpm = create_test_bpm(10);

    // Create a page
    {
        let mut guard = bpm.new_page().unwrap();
        guard.drop_guard(&mut bpm);
    }

    // Fetch for write and modify
    {
        let mut guard = bpm.fetch_page_write(PageId::new(0)).unwrap();
        guard.as_mut_slice(&mut bpm)[0] = 0xCD;
        guard.drop_guard(&mut bpm);
    }

    // Verify modification
    {
        let mut guard = bpm.fetch_page_read(PageId::new(0)).unwrap();
        assert_eq!(guard.as_slice(&bpm)[0], 0xCD);
        guard.drop_guard(&mut bpm);
    }
}

#[test]
fn test_cache_hit() {
    let mut bpm = create_test_bpm(10);

    // Create a page
    {
        let mut guard = bpm.new_page().unwrap();
        guard.drop_guard(&mut bpm);
    }

    // Fetch multiple times - should be cache hits
    {
        let mut guard = bpm.fetch_page_read(PageId::new(0)).unwrap();
        guard.drop_guard(&mut bpm);
    }
    {
        let mut guard = bpm.fetch_page_read(PageId::new(0)).unwrap();
        guard.drop_guard(&mut bpm);
    }

    let snapshot = bpm.stats().snapshot();
    assert!(snapshot.cache_hits >= 2);
}

#[test]
fn test_eviction() {
    let mut bpm = create_test_bpm(3); // Small pool

    // Fill the pool
    for _ in 0..3 {
        let mut guard = bpm.new_page().unwrap();
        guard.drop_guard(&mut bpm);
    }

    // All frames used, free list empty
    assert_eq!(bpm.free_frame_count(), 0);

    // Create one more page (forces eviction)
    let guard = bpm.new_page().unwrap();
    assert_eq!(guard.page_id(), PageId::new(3));

    let snapshot = bpm.stats().snapshot();
    assert_eq!(snapshot.evictions, 1);
}

#[test]
fn test_dirty_page_flushed_on_eviction() {
    let mut bpm = create_test_bpm(1); // Only 1 frame!

    // Create page 0 and write data
    {
        let mut guard = bpm.new_page().unwrap();
        guard.as_mut_slice(&mut bpm)[0] = 0x42;
        guard.drop_guard(&mut bpm); // marks dirty, unpins
    }

    // Create page 1 (evicts page 0, should flush first)
    {
        let mut guard = bpm.new_page().unwrap();
        guard.drop_guard(&mut bpm);
    }

    // Fetch page 0 again (should load from the store with our data)
    {
        let mut guard = bpm.fetch_page_read(PageId::new(0)).unwrap();
        assert_eq!(guard.as_slice(&bpm)[0], 0x42);
        guard.drop_guard(&mut bpm);
    }
}

#[test]
fn test_delete_page() {
    let mut bpm = create_test_bpm(10);

    // Create a page
    {
        let mut guard = bpm.new_page().unwrap();
        guard.drop_guard(&mut bpm);
    }

    assert_eq!(bpm.page_count(), 1);

    // Delete it
    bpm.delete_page(PageId::new(0)).unwrap();

    // Frame should be back on free list
    assert_eq!(bpm.free_frame_count(), 10);
    assert_eq!(bpm.page_count(), 0);
}

#[test]
fn test_delete_pinned_page_fails() {
    let mut bpm = create_test_bpm(10);

    // Create and hold a page
    let _guard = bpm.new_page().unwrap();

    // Try to delete while pinned - should fail
    let result = bpm.delete_page(PageId::new(0));
    assert!(result.is_err());
}

#[test]
fn test_delete_pinned_page_error_value() {
    let mut bpm = create_test_bpm(10);
    let _guard = bpm.new_page().unwrap();
    match bpm.delete_page(PageId::new(0)) {
        Err(interchangedb::Error::PageNotPinned(0)) => {}
        _ => panic!("expected PageNotPinned(0)"),
    }
    // state unchanged: the page is still resident and pinned
    assert!(bpm.contains_page(PageId::new(0)));
    assert_eq!(bpm.get_pin_count(PageId::new(0)), Some(1));
}

#[test]
fn test_delete_non_resident_is_noop() {
    let mut bpm = create_test_bpm(4);
    assert!(bpm.delete_page(PageId::new(77)).is_ok());
    assert_eq!(bpm.free_frame_count(), 4);
    assert_eq!(bpm.page_count(), 0);
}

#[test]
fn test_flush_page() {
    let mut bpm = create_test_bpm(10);

    // Create and modify a page
    {
        let mut guard = bpm.new_page().unwrap();
        guard.as_mut_slice(&mut bpm)[0] = 0xFF;
        guard.drop_guard(&mut bpm);
    }

    // Explicitly flush
    bpm.flush_page(PageId::new(0)).unwrap();

    let snapshot = bpm.stats().snapshot();
    assert!(snapshot.pages_written >= 1);
}

#[test]
fn test_flush_all_pages() {
    let mut bpm = create_test_bpm(10);

    // Create multiple dirty pages
    for i in 0..5 {
        let mut guard = bpm.new_page().unwrap();
        guard.as_mut_slice(&mut bpm)[0] = i;
        guard.drop_guard(&mut bpm);
    }

    // Flush all
    bpm.flush_all_pages().unwrap();

    let snapshot = bpm.stats().snapshot();
    assert!(snapshot.pages_written >= 5);
}

#[test]
fn test_multiple_read_guards() {
    let mut bpm = create_test_bpm(10);

    // Create a page
    {
        let mut guard = bpm.new_page().unwrap();
        guard.drop_guard(&mut bpm);
    }

    // Multiple simultaneous read guards should work
    let mut guard1 = bpm.fetch_page_read(PageId::new(0)).unwrap();
    let mut guard2 = bpm.fetch_page_read(PageId::new(0)).unwrap();

    assert_eq!(guard1.page_id(), guard2.page_id());

    guard1.drop_guard(&mut bpm);
    guard2.drop_guard(&mut bpm);
}

#[test]
fn test_page_not_found() {
    let mut bpm = create_test_bpm(10);

    // Try to fetch a page that doesn't exist
    let result = bpm.fetch_page_read(PageId::new(999));
    assert!(result.is_err());
}

#[test]
fn test_page_not_found_error_value() {
    let mut bpm = create_test_bpm(10);
    match bpm.fetch_page_read(PageId::new(999)) {
        Err(interchangedb::Error::PageNotFound(999)) => {}
        _ => panic!("expected PageNotFound(999)"),
    }
}

#[test]
fn test_no_free_frames() {
    let mut bpm = create_test_bpm(2);

    // Pin both frames (hold the guards)
    let _guard1 = bpm.new_page().unwrap();
    let _guard2 = bpm.new_page().unwrap();

    // All frames pinned, can't allocate
    let result = bpm.new_page();
    assert!(result.is_err());
}

#[test]
fn test_no_free_frames_error_value() {
    let mut bpm = create_test_bpm(1);
    let _guard = bpm.new_page().unwrap();
    match bpm.new_page() {
        Err(interchangedb::Error::NoFreeFrames) => {}
        _ => panic!("expected NoFreeFrames"),
    }
}

#[test]
fn test_pin_count_tracking() {
    let mut bpm = create_test_bpm(10);

    {
        let mut guard = bpm.new_page().unwrap();
        guard.drop_guard(&mut bpm);
    }

    // Page should be unpinned now (pin_count = 0) but still resident
    assert_eq!(bpm.get_pin_count(PageId::new(0)), Some(0));
    assert!(bpm.contains_page(PageId::new(0)));

    // Fetch again - pins it
    let mut guard = bpm.fetch_page_read(PageId::new(0)).unwrap();
    assert_eq!(bpm.get_pin_count(PageId::new(0)), Some(1));

    // Guard dropped - unpinned
    guard.drop_guard(&mut bpm);
    assert_eq!(bpm.get_pin_count(PageId::new(0)), Some(0));
}

#[test]
fn test_pin_exhaustion_retry() {
    let mut bpm = create_test_bpm(2);

    // Hold write guards on two distinct fresh pages
    let mut g1 = bpm.new_page().unwrap();
    let g2 = bpm.new_page().unwrap();

    // A third page cannot be brought in
    let pid3 = bpm.allocate_page_id().unwrap();
    assert!(matches!(
        bpm.fetch_page_read(pid3),
        Err(interchangedb::Error::NoFreeFrames)
    ));
    assert!(matches!(bpm.new_page(), Err(interchangedb::Error::NoFreeFrames)));

    // Drop one guard; the retry succeeds
    g1.drop_guard(&mut bpm);
    assert!(bpm.fetch_page_read(pid3).is_ok());

    let _ = g2;
}

#[test]
fn test_pinned_page_blocks_displacement() {
    // One frame: while the resident page is pinned, no other page can
    // displace it; once unpinned, it can.
    let mut bpm = create_test_bpm(1);

    let mut winner = bpm.new_page().unwrap();
    let winner_pid = winner.page_id();
    winner.drop_guard(&mut bpm);

    let loser_pid = bpm.allocate_page_id().unwrap();

    // Pin the winner through a read guard
    let mut winner_guard = bpm.fetch_page_read(winner_pid).unwrap();

    // The loser cannot be fetched: the only frame is pinned
    assert!(bpm.checked_read_page(loser_pid).is_none());

    // Release the winner; the loser becomes fetchable
    winner_guard.drop_guard(&mut bpm);
    let mut loser_guard = bpm.fetch_page_read(loser_pid).unwrap();
    assert_eq!(loser_guard.page_id(), loser_pid);
    loser_guard.drop_guard(&mut bpm);
}
