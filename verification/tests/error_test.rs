use interchangedb::Error;

#[test]
fn test_error_display() {
    let err = Error::PageNotFound(42);
    assert_eq!(err.message(), "Page 42 not found");

    let err = Error::NoFreeFrames;
    assert_eq!(err.message(), "No free frames available in buffer pool");
}

#[test]
fn test_io_error_conversion() {
    let io_err = std::io::Error::new(std::io::ErrorKind::NotFound, "file not found");
    let err = Error::io(io_err.to_string());

    match err {
        Error::Io(_) => {} // Success
        _ => panic!("Expected Io error"),
    }
}

#[test]
fn test_result_type_alias() {
    // This function returns the library's error in a Result
    fn might_fail() -> Result<u32, Error> {
        Ok(42)
    }

    assert_eq!(might_fail().unwrap(), 42);
}

#[test]
fn test_error_messages_all_variants() {
    assert_eq!(
        Error::Io(String::from("boom")).message(),
        "I/O error: boom"
    );
    assert_eq!(Error::PageNotFound(7).message(), "Page 7 not found");
    assert_eq!(
        Error::NoFreeFrames.message(),
        "No free frames available in buffer pool"
    );
    assert_eq!(Error::InvalidPageId(9).message(), "Invalid page ID: 9");
    assert_eq!(Error::BufferPoolFull.message(), "Buffer pool is full");
    assert_eq!(Error::PageNotPinned(3).message(), "Page 3 is not pinned");
}
