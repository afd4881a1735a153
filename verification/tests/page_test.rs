use interchangedb::Page;

#[test]
fn test_page_new() {
    let page = Page::new();
    assert_eq!(page.as_slice()[0], 0);
    assert_eq!(page.as_slice()[4095], 0);
}

#[test]
fn test_page_read_write() {
    let mut page = Page::new();

    page.as_mut_slice()[0] = 0xFF;
    page.as_mut_slice()[100] = 0xAB;
    page.as_mut_slice()[4095] = 0xCD;

    assert_eq!(page.as_slice()[0], 0xFF);
    assert_eq!(page.as_slice()[100], 0xAB);
    assert_eq!(page.as_slice()[4095], 0xCD);
}

#[test]
fn test_page_reset() {
    let mut page = Page::new();
    page.as_mut_slice()[0] = 0xFF;
    page.as_mut_slice()[100] = 0xAB;

    page.reset();

    assert_eq!(page.as_slice()[0], 0);
    assert_eq!(page.as_slice()[100], 0);
}

#[test]
fn page_test_page_clone_in_tests() {
    let mut page = Page::new();
    page.as_mut_slice()[0] = 0xAB;

    let cloned = page.clone();
    assert_eq!(cloned.as_slice()[0], 0xAB);
    assert_eq!(page.as_slice()[0], 0xAB);
}

#[test]
fn test_page_operations() {
    let mut page = Page::new();

    // Initially all zeros
    assert_eq!(page.as_slice()[0], 0);
    assert_eq!(page.as_slice()[4095], 0);

    // Modify through mutable slice
    page.as_mut_slice()[0] = 0xFF;
    page.as_mut_slice()[100] = 0xAB;
    page.as_mut_slice()[4095] = 0xCD;

    // Read back
    assert_eq!(page.as_slice()[0], 0xFF);
    assert_eq!(page.as_slice()[100], 0xAB);
    assert_eq!(page.as_slice()[4095], 0xCD);

    // Reset
    page.reset();
    assert_eq!(page.as_slice()[0], 0);
    assert_eq!(page.as_slice()[100], 0);
    assert_eq!(page.as_slice()[4095], 0);
}

#[test]
fn types_test_page_clone_in_tests() {
    let mut page = Page::new();
    page.as_mut_slice()[0] = 0xAB;

    let cloned = page.clone();
    assert_eq!(cloned.as_slice()[0], 0xAB);

    // Cloned page is independent
    assert_eq!(page.as_slice()[0], 0xAB);
}

#[test]
fn test_page_size_constant() {
    assert_eq!(Page::size(), 4096);
    assert_eq!(Page::new().as_slice().len(), Page::size());
}
