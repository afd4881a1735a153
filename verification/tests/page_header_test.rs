use interchangedb::{PageHeader, PageType, PAGE_SIZE};

#[test]
fn test_page_type_from_u8() {
    assert_eq!(PageType::from_u8(0), PageType::Invalid);
    assert_eq!(PageType::from_u8(1), PageType::Data);
    assert_eq!(PageType::from_u8(2), PageType::BTreeInternal);
    assert_eq!(PageType::from_u8(3), PageType::BTreeLeaf);
    assert_eq!(PageType::from_u8(4), PageType::Free);
    assert_eq!(PageType::from_u8(255), PageType::Invalid);
}

#[test]
fn test_page_type_default() {
    assert_eq!(PageType::default(), PageType::Invalid);
}

#[test]
fn test_page_header_new() {
    let header = PageHeader::new(PageType::Data);
    assert_eq!(header.page_type, PageType::Data);
    assert_eq!(header.checksum, 0);
    assert_eq!(header.lsn, 0);
}

#[test]
fn test_page_header_default() {
    let header = PageHeader::default();
    assert_eq!(header.page_type, PageType::Invalid);
    assert_eq!(header.checksum, 0);
    assert_eq!(header.lsn, 0);
}

#[test]
fn test_page_header_roundtrip() {
    let original = PageHeader {
        page_type: PageType::BTreeLeaf,
        checksum: 0xDEADBEEF,
        lsn: 0x123456789ABCDEF0,
    };

    let mut buffer = [0u8; PageHeader::SIZE];
    original.write_to(&mut buffer);

    let recovered = PageHeader::from_bytes(&buffer);
    assert_eq!(original, recovered);
}

#[test]
fn test_page_header_byte_layout() {
    let header = PageHeader {
        page_type: PageType::Data,
        checksum: 0x04030201,       // Little-endian: 01 02 03 04
        lsn: 0x0807060504030201,    // Little-endian: 01 02 03 04 05 06 07 08
    };

    let mut buffer = [0u8; PageHeader::SIZE];
    header.write_to(&mut buffer);

    // Verify exact byte layout
    assert_eq!(buffer[0], 1); // PageType::Data
    assert_eq!(buffer[1], 0x01); // checksum byte 0 (LSB)
    assert_eq!(buffer[2], 0x02);
    assert_eq!(buffer[3], 0x03);
    assert_eq!(buffer[4], 0x04); // checksum byte 3 (MSB)
    assert_eq!(buffer[5], 0x01); // lsn byte 0 (LSB)
    assert_eq!(buffer[12], 0x08); // lsn byte 7 (MSB)
}

#[test]
fn test_checksum_deterministic() {
    let mut page_data = [0u8; PAGE_SIZE];
    page_data[100] = 0xAB;
    page_data[1000] = 0xCD;

    let checksum1 = PageHeader::compute_checksum(&page_data);
    let checksum2 = PageHeader::compute_checksum(&page_data);

    assert_eq!(checksum1, checksum2);
    assert_ne!(checksum1, 0);
}

#[test]
fn test_checksum_changes_with_data() {
    let mut page1 = [0u8; PAGE_SIZE];
    let mut page2 = [0u8; PAGE_SIZE];

    page1[500] = 0xFF;
    page2[500] = 0xFE;

    let checksum1 = PageHeader::compute_checksum(&page1);
    let checksum2 = PageHeader::compute_checksum(&page2);

    assert_ne!(checksum1, checksum2);
}

#[test]
fn test_checksum_ignores_checksum_field() {
    let mut page_data = [0u8; PAGE_SIZE];
    page_data[100] = 0xAB;

    let checksum1 = PageHeader::compute_checksum(&page_data);

    // Write different value in checksum field (bytes 1-4)
    page_data[1] = 0xFF;
    page_data[2] = 0xFF;
    page_data[3] = 0xFF;
    page_data[4] = 0xFF;

    let checksum2 = PageHeader::compute_checksum(&page_data);

    assert_eq!(checksum1, checksum2);
}

#[test]
fn test_checksum_verify() {
    let mut page_data = [0u8; PAGE_SIZE];
    page_data[100] = 0xAB;

    let checksum = PageHeader::compute_checksum(&page_data);
    let header = PageHeader {
        page_type: PageType::Data,
        checksum,
        lsn: 0,
    };

    assert!(header.verify_checksum(&page_data));

    // Corrupt the page
    page_data[100] = 0xFF;
    assert!(!header.verify_checksum(&page_data));
}

#[test]
fn test_page_update_and_verify_checksum() {
    let mut page = interchangedb::Page::new();
    page.as_mut_slice()[0] = 1;
    page.as_mut_slice()[200] = 0x5A;

    page.update_checksum();
    assert!(page.verify_checksum());

    // Corrupting any byte outside the checksum field breaks the check
    page.as_mut_slice()[200] = 0x5B;
    assert!(!page.verify_checksum());
}

#[test]
fn test_page_header_on_page() {
    let mut page = interchangedb::Page::new();
    let header = PageHeader {
        page_type: PageType::BTreeInternal,
        checksum: 7,
        lsn: 99,
    };
    page.set_header(&header);
    assert_eq!(page.header(), header);
}
