use interchangedb::{Frame, PageId};

#[test]
fn test_frame_new() {
    let frame = Frame::new();
    assert!(frame.is_empty());
    assert!(!frame.is_pinned());
    assert!(!frame.is_dirty());
    assert_eq!(frame.pin_count(), 0);
    assert_eq!(frame.page_id(), None);
}

#[test]
fn test_frame_pin_unpin() {
    let mut frame = Frame::new();

    assert_eq!(frame.pin(), 1);
    assert!(frame.is_pinned());

    assert_eq!(frame.pin(), 2);
    assert_eq!(frame.pin_count(), 2);

    assert_eq!(frame.unpin(), 1);
    assert!(frame.is_pinned());

    assert_eq!(frame.unpin(), 0);
    assert!(!frame.is_pinned());
}

#[test]
fn test_frame_dirty_flag() {
    let mut frame = Frame::new();
    assert!(!frame.is_dirty());

    frame.mark_dirty();
    assert!(frame.is_dirty());

    frame.clear_dirty();
    assert!(!frame.is_dirty());
}

#[test]
fn test_frame_page_access() {
    let mut frame = Frame::new();

    // Write through the mutable page borrow
    frame.page_mut().as_mut_slice()[0] = 0xAB;

    // Read through the shared page borrow
    assert_eq!(frame.page().as_slice()[0], 0xAB);
}

#[test]
fn test_frame_page_id() {
    let mut frame = Frame::new();
    assert_eq!(frame.page_id(), None);
    assert!(frame.is_empty());

    frame.set_page_id(Some(PageId::new(42)));
    assert_eq!(frame.page_id(), Some(PageId::new(42)));
    assert!(!frame.is_empty());
}

#[test]
fn test_frame_evictable() {
    let mut frame = Frame::new();

    // Empty frame is not evictable
    assert!(!frame.is_evictable());

    // Load a page
    frame.set_page_id(Some(PageId::new(1)));
    assert!(frame.is_evictable());

    // Pin it
    frame.pin();
    assert!(!frame.is_evictable());

    // Unpin it
    frame.unpin();
    assert!(frame.is_evictable());
}

#[test]
fn test_frame_reset() {
    let mut frame = Frame::new();

    frame.set_page_id(Some(PageId::new(99)));
    frame.pin();
    frame.mark_dirty();
    frame.page_mut().as_mut_slice()[100] = 0xFF;

    frame.reset();

    assert!(frame.is_empty());
    assert!(!frame.is_pinned());
    assert!(!frame.is_dirty());
    assert_eq!(frame.page().as_slice()[100], 0);
}
