use interchangedb::config::{MAX_DB_SIZE_BYTES, PAGE_SIZE};

#[test]
fn test_page_size_is_power_of_two() {
    assert!(PAGE_SIZE.is_power_of_two());
    assert_eq!(PAGE_SIZE, 4096);
}

#[test]
fn test_max_db_size() {
    // 16TB = 16 * 1024^4 bytes
    let expected = 16 * 1024u64 * 1024 * 1024 * 1024;
    assert_eq!(MAX_DB_SIZE_BYTES, expected);
}
