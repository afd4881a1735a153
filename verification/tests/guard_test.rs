use interchangedb::{BufferPoolManager, DiskManager, PageId};

const FRAMES: usize = 10;

fn create_bpm(pool_size: usize) -> BufferPoolManager {
    BufferPoolManager::new(pool_size, DiskManager::new())
}

/// Helper to write a string to page data.
fn copy_string(data: &mut [u8], s: &str) {
    let bytes = s.as_bytes();
    data[..bytes.len()].copy_from_slice(bytes);
    data[bytes.len()] = 0; // null terminator
}

/// Helper to read a null-terminated string from page data.
fn read_string(data: &[u8]) -> String {
    let end = data.iter().position(|&b| b == 0).unwrap_or(data.len());
    String::from_utf8_lossy(&data[..end]).to_string()
}

/// A very basic test.
#[test]
fn test_very_basic() {
    let mut bpm = create_bpm(FRAMES);
    let str_data = "Hello, world!";

    // Allocate a new page (just gets an id)
    let pid = bpm.allocate_page_id().unwrap();

    // Check write-guard basic functionality.
    {
        let mut guard = bpm.fetch_page_write(pid).unwrap();
        copy_string(guard.as_mut_slice(&mut bpm), str_data);
        assert_eq!(read_string(guard.as_slice(&bpm)), str_data);
        guard.drop_guard(&mut bpm);
    }

    // Check read-guard basic functionality.
    {
        let mut guard = bpm.fetch_page_read(pid).unwrap();
        assert_eq!(read_string(guard.as_slice(&bpm)), str_data);
        guard.drop_guard(&mut bpm);
    }

    // Check read-guard basic functionality (again).
    {
        let mut guard = bpm.fetch_page_read(pid).unwrap();
        assert_eq!(read_string(guard.as_slice(&bpm)), str_data);
        guard.drop_guard(&mut bpm);
    }

    assert!(bpm.delete_page(pid).is_ok());
}

#[test]
fn test_page_pin_easy() {
    let mut bpm = create_bpm(2);

    // Allocate two pages
    let pageid0 = bpm.allocate_page_id().unwrap();
    let pageid1 = bpm.allocate_page_id().unwrap();

    let str0 = "page0";
    let str1 = "page1";
    let str0_updated = "page0updated";
    let str1_updated = "page1updated";

    // Also allocate the temp page ids up front
    let temp_page_id1 = bpm.allocate_page_id().unwrap();
    let temp_page_id2 = bpm.allocate_page_id().unwrap();

    {
        let page0_write_opt = bpm.checked_write_page(pageid0);
        assert!(page0_write_opt.is_some());
        let mut page0_write = page0_write_opt.unwrap();
        copy_string(page0_write.as_mut_slice(&mut bpm), str0);

        let page1_write_opt = bpm.checked_write_page(pageid1);
        assert!(page1_write_opt.is_some());
        let mut page1_write = page1_write_opt.unwrap();
        copy_string(page1_write.as_mut_slice(&mut bpm), str1);

        assert_eq!(bpm.get_pin_count(pageid0), Some(1));
        assert_eq!(bpm.get_pin_count(pageid1), Some(1));

        // All frames pinned - can't fetch new pages
        let temp_page1_opt = bpm.checked_read_page(temp_page_id1);
        assert!(temp_page1_opt.is_none());

        let temp_page2_opt = bpm.checked_write_page(temp_page_id2);
        assert!(temp_page2_opt.is_none());

        assert_eq!(bpm.get_pin_count(pageid0), Some(1));
        page0_write.drop_guard(&mut bpm);
        assert_eq!(bpm.get_pin_count(pageid0), Some(0));

        assert_eq!(bpm.get_pin_count(pageid1), Some(1));
        page1_write.drop_guard(&mut bpm);
        assert_eq!(bpm.get_pin_count(pageid1), Some(0));
    }

    {
        // Now we can fetch new pages (will evict pageid0 and pageid1)
        let temp_page1_opt = bpm.checked_read_page(temp_page_id1);
        assert!(temp_page1_opt.is_some());
        temp_page1_opt.unwrap().drop_guard(&mut bpm);

        let temp_page2_opt = bpm.checked_write_page(temp_page_id2);
        assert!(temp_page2_opt.is_some());
        temp_page2_opt.unwrap().drop_guard(&mut bpm);

        // pageid0 and pageid1 were evicted - get_pin_count returns None
        assert!(bpm.get_pin_count(pageid0).is_none());
        assert!(bpm.get_pin_count(pageid1).is_none());
    }

    {
        // Fetch original pages back - should reload from the store
        let page0_write_opt = bpm.checked_write_page(pageid0);
        assert!(page0_write_opt.is_some());
        let mut page0_write = page0_write_opt.unwrap();
        assert_eq!(read_string(page0_write.as_slice(&bpm)), str0);
        copy_string(page0_write.as_mut_slice(&mut bpm), str0_updated);

        let page1_write_opt = bpm.checked_write_page(pageid1);
        assert!(page1_write_opt.is_some());
        let mut page1_write = page1_write_opt.unwrap();
        assert_eq!(read_string(page1_write.as_slice(&bpm)), str1);
        copy_string(page1_write.as_mut_slice(&mut bpm), str1_updated);

        assert_eq!(bpm.get_pin_count(pageid0), Some(1));
        assert_eq!(bpm.get_pin_count(pageid1), Some(1));

        page0_write.drop_guard(&mut bpm);
        page1_write.drop_guard(&mut bpm);
    }

    assert_eq!(bpm.get_pin_count(pageid0), Some(0));
    assert_eq!(bpm.get_pin_count(pageid1), Some(0));

    {
        // Verify updated data persisted
        let page0_read_opt = bpm.checked_read_page(pageid0);
        assert!(page0_read_opt.is_some());
        let mut page0_read = page0_read_opt.unwrap();
        assert_eq!(read_string(page0_read.as_slice(&bpm)), str0_updated);

        let page1_read_opt = bpm.checked_read_page(pageid1);
        assert!(page1_read_opt.is_some());
        let mut page1_read = page1_read_opt.unwrap();
        assert_eq!(read_string(page1_read.as_slice(&bpm)), str1_updated);

        assert_eq!(bpm.get_pin_count(pageid0), Some(1));
        assert_eq!(bpm.get_pin_count(pageid1), Some(1));

        page0_read.drop_guard(&mut bpm);
        page1_read.drop_guard(&mut bpm);
    }

    assert_eq!(bpm.get_pin_count(pageid0), Some(0));
    assert_eq!(bpm.get_pin_count(pageid1), Some(0));
}

#[test]
fn test_page_pin_medium() {
    let mut bpm = create_bpm(FRAMES);

    // Scenario: The buffer pool is empty. We should be able to create a new page.
    let pid0 = bpm.allocate_page_id().unwrap();
    let mut page0 = bpm.fetch_page_write(pid0).unwrap();

    // Scenario: Once we have a page, we should be able to read and write content.
    let hello = "Hello";
    copy_string(page0.as_mut_slice(&mut bpm), hello);
    assert_eq!(read_string(page0.as_slice(&bpm)), hello);

    page0.drop_guard(&mut bpm);

    // Create a vector of page guards to prevent them from being released.
    let mut pages = Vec::new();

    // Scenario: We should be able to create new pages until we fill up the buffer pool.
    for _ in 0..FRAMES {
        let pid = bpm.allocate_page_id().unwrap();
        let page = bpm.fetch_page_write(pid).unwrap();
        pages.push(page);
    }

    // Scenario: All of the pin counts should be 1.
    for page in &pages {
        let pid = page.page_id();
        assert_eq!(bpm.get_pin_count(pid), Some(1));
    }

    // Scenario: Once the buffer pool is full, we should not be able to fetch any new pages.
    for _ in 0..FRAMES {
        let pid = bpm.allocate_page_id().unwrap();
        let fail = bpm.checked_write_page(pid);
        assert!(fail.is_none());
    }

    // Scenario: Drop the first 5 pages to unpin them.
    for _ in 0..(FRAMES / 2) {
        let mut page = pages.remove(0);
        let pid = page.page_id();
        assert_eq!(bpm.get_pin_count(pid), Some(1));
        page.drop_guard(&mut bpm);
        assert_eq!(bpm.get_pin_count(pid), Some(0));
    }

    // Scenario: All of the pin counts of the pages we haven't dropped yet should still be 1.
    for page in &pages {
        let pid = page.page_id();
        assert_eq!(bpm.get_pin_count(pid), Some(1));
    }

    // Scenario: After unpinning pages, we should be able to fetch new pages.
    // This evicts some of the unpinned pages.
    for _ in 0..((FRAMES / 2) - 1) {
        let pid = bpm.allocate_page_id().unwrap();
        let page = bpm.fetch_page_write(pid).unwrap();
        pages.push(page);
    }

    // Scenario: There should be one frame available, and we should be able to fetch the data
    // we wrote a while ago.
    {
        let mut original_page = bpm.fetch_page_read(pid0).unwrap();
        assert_eq!(read_string(original_page.as_slice(&bpm)), hello);
        original_page.drop_guard(&mut bpm);
    }

    // Scenario: Once we unpin page 0 and then make a new page, all the buffer pages should
    // now be pinned. Fetching page 0 again should fail.
    let last_pid = bpm.allocate_page_id().unwrap();
    let _last_page = bpm.fetch_page_read(last_pid).unwrap();

    let fail = bpm.checked_read_page(pid0);
    assert!(fail.is_none());
}

#[test]
fn test_drop() {
    let mut bpm = create_bpm(FRAMES);

    {
        let pid0 = bpm.allocate_page_id().unwrap();
        let mut page0 = bpm.fetch_page_write(pid0).unwrap();

        // The page should be pinned.
        assert_eq!(bpm.get_pin_count(pid0), Some(1));

        // A drop should unpin the page.
        page0.drop_guard(&mut bpm);
        assert_eq!(bpm.get_pin_count(pid0), Some(0));

        // Another drop should have no effect.
        page0.drop_guard(&mut bpm);
        assert_eq!(bpm.get_pin_count(pid0), Some(0));
    }

    let pid1 = bpm.allocate_page_id().unwrap();
    let pid2 = bpm.allocate_page_id().unwrap();

    {
        let mut read_guarded_page = bpm.fetch_page_read(pid1).unwrap();
        let mut write_guarded_page = bpm.fetch_page_write(pid2).unwrap();

        assert_eq!(bpm.get_pin_count(pid1), Some(1));
        assert_eq!(bpm.get_pin_count(pid2), Some(1));

        // Dropping should unpin the pages.
        read_guarded_page.drop_guard(&mut bpm);
        write_guarded_page.drop_guard(&mut bpm);
        assert_eq!(bpm.get_pin_count(pid1), Some(0));
        assert_eq!(bpm.get_pin_count(pid2), Some(0));

        // Another drop should have no effect.
        read_guarded_page.drop_guard(&mut bpm);
        write_guarded_page.drop_guard(&mut bpm);
        assert_eq!(bpm.get_pin_count(pid1), Some(0));
        assert_eq!(bpm.get_pin_count(pid2), Some(0));
    }

    // Both pages can be re-fetched for writing afterwards.
    {
        let mut write_test1 = bpm.fetch_page_write(pid1).unwrap();
        let mut write_test2 = bpm.fetch_page_write(pid2).unwrap();
        write_test1.drop_guard(&mut bpm);
        write_test2.drop_guard(&mut bpm);
    }

    let mut page_ids = Vec::new();
    {
        // Fill up the pool.
        let mut guards = Vec::new();
        for _ in 0..FRAMES {
            let new_pid = bpm.allocate_page_id().unwrap();
            let guard = bpm.fetch_page_write(new_pid).unwrap();
            assert_eq!(bpm.get_pin_count(new_pid), Some(1));
            page_ids.push(new_pid);
            guards.push(guard);
        }
        // Release all of the guards.
        for mut guard in guards {
            guard.drop_guard(&mut bpm);
        }
    }

    for i in 0..FRAMES {
        assert_eq!(bpm.get_pin_count(page_ids[i]), Some(0));
    }

    // Get a new write page and edit it. We will retrieve it later.
    let mutable_page_id = bpm.allocate_page_id().unwrap();
    let mut mutable_guard = bpm.fetch_page_write(mutable_page_id).unwrap();
    copy_string(mutable_guard.as_mut_slice(&mut bpm), "data");
    mutable_guard.drop_guard(&mut bpm);

    {
        // Fill up the pool again (evicts mutable_page).
        let mut guards = Vec::new();
        for _ in 0..FRAMES {
            let new_pid = bpm.allocate_page_id().unwrap();
            guards.push(bpm.fetch_page_write(new_pid).unwrap());
        }
        for mut guard in guards {
            guard.drop_guard(&mut bpm);
        }
    }

    // Retrieve the page we edited earlier.
    {
        let mut guard = bpm.fetch_page_read(mutable_page_id).unwrap();
        assert_eq!(read_string(guard.as_slice(&bpm)), "data");
        guard.drop_guard(&mut bpm);
    }
}

/// Test the convenience method that combines allocate + fetch.
#[test]
fn test_new_page_convenience() {
    let mut bpm = create_bpm(FRAMES);
    let data = b"Hello, world!";

    // Create and write using convenience method
    let pid = {
        let mut guard = bpm.new_page().unwrap();
        assert_eq!(guard.page_id(), PageId::new(0));
        guard.as_mut_slice(&mut bpm)[..data.len()].copy_from_slice(data);
        let pid = guard.page_id();
        guard.drop_guard(&mut bpm);
        pid
    };

    // Read back
    {
        let mut guard = bpm.fetch_page_read(pid).unwrap();
        assert_eq!(&guard.as_slice(&bpm)[..data.len()], data);
        guard.drop_guard(&mut bpm);
    }

    // Delete
    bpm.delete_page(pid).unwrap();
    assert!(!bpm.contains_page(pid));
}

#[test]
fn test_guard_is_dropped_flag() {
    let mut bpm = create_bpm(2);
    let mut guard = bpm.new_page().unwrap();
    assert!(!guard.is_dropped());
    guard.drop_guard(&mut bpm);
    assert!(guard.is_dropped());
    guard.drop_guard(&mut bpm);
    assert!(guard.is_dropped());
}
