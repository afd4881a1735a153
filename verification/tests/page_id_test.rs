use interchangedb::PageId;

#[test]
fn test_page_id_new() {
    let pid = PageId::new(42);
    assert_eq!(pid.0, 42);
    assert!(pid.is_valid());
}

#[test]
fn test_page_id_invalid() {
    assert!(!PageId::invalid().is_valid());
    assert_eq!(PageId::invalid().0, u32::MAX);
}

#[test]
fn test_page_id_ordering() {
    assert!(PageId::new(1) < PageId::new(2));
    assert!(PageId::new(5) > PageId::new(3));
}

#[test]
fn test_page_id_display() {
    assert_eq!(PageId::new(42).display_string(), "Page(42)");
    assert_eq!(PageId::invalid().display_string(), "Page(INVALID)");
}

#[test]
fn test_page_id() {
    let pid = PageId::new(42);
    assert_eq!(pid.0, 42);
    assert!(pid.is_valid());

    // Test invalid page
    assert!(!PageId::invalid().is_valid());
    assert_eq!(PageId::invalid().0, u32::MAX);

    // Test ordering
    assert!(PageId::new(1) < PageId::new(2));
    assert!(PageId::new(5) > PageId::new(3));
}
