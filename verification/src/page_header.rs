//! Page header: the metadata stored at the beginning of every page,
//! together with its byte layout and checksum.
//!
//! Layout (13 bytes): one byte of page type, four bytes of CRC-32
//! checksum (little-endian), eight bytes of log sequence number
//! (little-endian). The checksum is computed over the whole page with
//! the checksum field itself zeroed, so it does not include itself.

use vstd::prelude::*;

verus! {

/// The CRC-32 (IEEE) checksum of a byte sequence; computed by the
/// `crc32fast` crate, a function of the bytes alone.
pub uninterp spec fn crc32_of(bytes: Seq<u8>) -> u32;

/// Relies on `crc32fast::hash`: the CRC-32 (IEEE) checksum of the given
/// bytes, which depends on the byte sequence alone.
#[verifier::external_body]
fn crc32(bytes: &Vec<u8>) -> (r: u32)
    ensures
        r == crc32_of(bytes@),
{
    crc32fast::hash(bytes.as_slice())
}

/// Type of page stored on disk.
#[derive(Debug, Clone, Copy, PartialEq, Eq, Structural)]
pub enum PageType {
    /// Uninitialized or corrupted page.
    Invalid,
    /// Generic data page.
    Data,
    /// B-tree internal (non-leaf) node.
    BTreeInternal,
    /// B-tree leaf node.
    BTreeLeaf,
    /// Page on the free list.
    Free,
}

impl PageType {
    /// The one-byte encoding of this page type.
    pub open spec fn spec_to_u8(self) -> u8 {
        match self {
            PageType::Invalid => 0,
            PageType::Data => 1,
            PageType::BTreeInternal => 2,
            PageType::BTreeLeaf => 3,
            PageType::Free => 4,
        }
    }

    /// The page type encoded by a byte; unknown values decode to
    /// `Invalid`.
    pub open spec fn spec_from_u8(value: u8) -> PageType {
        if value == 1 {
            PageType::Data
        } else if value == 2 {
            PageType::BTreeInternal
        } else if value == 3 {
            PageType::BTreeLeaf
        } else if value == 4 {
            PageType::Free
        } else {
            PageType::Invalid
        }
    }

    /// Encode this page type as one byte.
    pub fn to_u8(self) -> (r: u8)
        ensures
            r == self.spec_to_u8(),
    {
        match self {
            PageType::Invalid => 0,
            PageType::Data => 1,
            PageType::BTreeInternal => 2,
            PageType::BTreeLeaf => 3,
            PageType::Free => 4,
        }
    }

    /// Decode a byte, returning `Invalid` for unknown values.
    pub fn from_u8(value: u8) -> (r: Self)
        ensures
            r == Self::spec_from_u8(value),
    {
        if value == 1 {
            PageType::Data
        } else if value == 2 {
            PageType::BTreeInternal
        } else if value == 3 {
            PageType::BTreeLeaf
        } else if value == 4 {
            PageType::Free
        } else {
            PageType::Invalid
        }
    }
}

impl core::default::Default for PageType {
    /// The default page type is `Invalid`.
    fn default() -> (r: Self)
        ensures
            r == PageType::Invalid,
    {
        PageType::Invalid
    }
}

/// The little-endian four-byte encoding of a 32-bit integer.
pub open spec fn u32_le(x: u32) -> Seq<u8> {
    seq![
        (x % 256) as u8,
        ((x / 256) % 256) as u8,
        ((x / 65536) % 256) as u8,
        ((x / 16777216) % 256) as u8,
    ]
}

/// The 32-bit integer read from four little-endian bytes.
pub open spec fn u32_from_le(b0: u8, b1: u8, b2: u8, b3: u8) -> u32 {
    (b0 + b1 * 256 + b2 * 65536 + b3 * 16777216) as u32
}

/// The little-endian eight-byte encoding of a 64-bit integer.
pub open spec fn u64_le(x: u64) -> Seq<u8> {
    seq![
        (x % 256) as u8,
        ((x / 256) % 256) as u8,
        ((x / 65536) % 256) as u8,
        ((x / 16777216) % 256) as u8,
        ((x / 4294967296) % 256) as u8,
        ((x / 1099511627776) % 256) as u8,
        ((x / 281474976710656) % 256) as u8,
        ((x / 72057594037927936) % 256) as u8,
    ]
}

/// The 64-bit integer read from eight little-endian bytes.
pub open spec fn u64_from_le(
    b0: u8,
    b1: u8,
    b2: u8,
    b3: u8,
    b4: u8,
    b5: u8,
    b6: u8,
    b7: u8,
) -> u64 {
    (b0 + b1 * 256 + b2 * 65536 + b3 * 16777216 + b4 * 4294967296 + b5 * 1099511627776
        + b6 * 281474976710656 + b7 * 72057594037927936) as u64
}

/// Encoding a 32-bit integer in little-endian bytes and reading it
/// back yields the integer.
pub proof fn lemma_u32_le_roundtrip(x: u32)
    ensures
        u32_from_le(u32_le(x)[0], u32_le(x)[1], u32_le(x)[2], u32_le(x)[3]) == x,
{
    let xi = x as int;
    vstd::arithmetic::div_mod::lemma_fundamental_div_mod(xi, 256);
    vstd::arithmetic::div_mod::lemma_fundamental_div_mod(xi / 256, 256);
    vstd::arithmetic::div_mod::lemma_fundamental_div_mod(xi / 65536, 256);
    vstd::arithmetic::div_mod::lemma_div_denominator(xi, 256, 256);
    vstd::arithmetic::div_mod::lemma_div_denominator(xi, 65536, 256);
    vstd::arithmetic::div_mod::lemma_mod_bound(xi, 256);
    vstd::arithmetic::div_mod::lemma_mod_bound(xi / 256, 256);
    vstd::arithmetic::div_mod::lemma_mod_bound(xi / 65536, 256);
    assert(0 <= xi / 16777216 < 256) by (nonlinear_arith)
        requires
            0 <= xi < 4294967296,
    ;
    vstd::arithmetic::div_mod::lemma_small_mod((xi / 16777216) as nat, 256);
}

/// Encoding a 64-bit integer in little-endian bytes and reading it
/// back yields the integer.
pub proof fn lemma_u64_le_roundtrip(x: u64)
    ensures
        u64_from_le(
            u64_le(x)[0],
            u64_le(x)[1],
            u64_le(x)[2],
            u64_le(x)[3],
            u64_le(x)[4],
            u64_le(x)[5],
            u64_le(x)[6],
            u64_le(x)[7],
        ) == x,
{
    let xi = x as int;
    vstd::arithmetic::div_mod::lemma_fundamental_div_mod(xi, 256);
    vstd::arithmetic::div_mod::lemma_fundamental_div_mod(xi / 256, 256);
    vstd::arithmetic::div_mod::lemma_fundamental_div_mod(xi / 65536, 256);
    vstd::arithmetic::div_mod::lemma_fundamental_div_mod(xi / 16777216, 256);
    vstd::arithmetic::div_mod::lemma_fundamental_div_mod(xi / 4294967296, 256);
    vstd::arithmetic::div_mod::lemma_fundamental_div_mod(xi / 1099511627776, 256);
    vstd::arithmetic::div_mod::lemma_fundamental_div_mod(xi / 281474976710656, 256);
    vstd::arithmetic::div_mod::lemma_div_denominator(xi, 256, 256);
    vstd::arithmetic::div_mod::lemma_div_denominator(xi, 65536, 256);
    vstd::arithmetic::div_mod::lemma_div_denominator(xi, 16777216, 256);
    vstd::arithmetic::div_mod::lemma_div_denominator(xi, 4294967296, 256);
    vstd::arithmetic::div_mod::lemma_div_denominator(xi, 1099511627776, 256);
    vstd::arithmetic::div_mod::lemma_div_denominator(xi, 281474976710656, 256);
    vstd::arithmetic::div_mod::lemma_mod_bound(xi, 256);
    vstd::arithmetic::div_mod::lemma_mod_bound(xi / 256, 256);
    vstd::arithmetic::div_mod::lemma_mod_bound(xi / 65536, 256);
    vstd::arithmetic::div_mod::lemma_mod_bound(xi / 16777216, 256);
    vstd::arithmetic::div_mod::lemma_mod_bound(xi / 4294967296, 256);
    vstd::arithmetic::div_mod::lemma_mod_bound(xi / 1099511627776, 256);
    vstd::arithmetic::div_mod::lemma_mod_bound(xi / 281474976710656, 256);
    assert(0 <= xi / 72057594037927936 < 256) by (nonlinear_arith)
        requires
            0 <= xi < 18446744073709551616,
    ;
    vstd::arithmetic::div_mod::lemma_small_mod((xi / 72057594037927936) as nat, 256);
}

/// Metadata stored at the beginning of every page.
#[derive(Debug, Clone, Copy, PartialEq, Eq, Structural)]
pub struct PageHeader {
    /// Type of this page.
    pub page_type: PageType,
    /// CRC-32 checksum of the page contents.
    pub checksum: u32,
    /// Log sequence number of the last modification.
    pub lsn: u64,
}

/// The byte sequence with the four checksum bytes (offsets 1 through 4)
/// zeroed; the checksum is computed over this masked form.
pub open spec fn checksum_masked(data: Seq<u8>) -> Seq<u8> {
    data.update(1, 0u8).update(2, 0u8).update(3, 0u8).update(4, 0u8)
}

impl PageHeader {
    /// Size of the encoded header in bytes.
    pub const SIZE: usize = 13;

    /// Offset of the page type byte.
    pub const OFFSET_PAGE_TYPE: usize = 0;

    /// Offset of the checksum field.
    pub const OFFSET_CHECKSUM: usize = 1;

    /// Offset of the log sequence number.
    pub const OFFSET_LSN: usize = 5;

    /// The 13-byte encoding of this header.
    pub open spec fn spec_bytes(self) -> Seq<u8> {
        seq![self.page_type.spec_to_u8()] + u32_le(self.checksum) + u64_le(self.lsn)
    }

    /// The header encoded at the beginning of a byte sequence.
    pub open spec fn spec_from_bytes(data: Seq<u8>) -> PageHeader {
        PageHeader {
            page_type: PageType::spec_from_u8(data[0]),
            checksum: u32_from_le(data[1], data[2], data[3], data[4]),
            lsn: u64_from_le(
                data[5],
                data[6],
                data[7],
                data[8],
                data[9],
                data[10],
                data[11],
                data[12],
            ),
        }
    }

    /// Create a new header with the given page type; checksum and log
    /// sequence number start at zero.
    pub fn new(page_type: PageType) -> (r: Self)
        ensures
            r == (PageHeader { page_type, checksum: 0, lsn: 0 }),
    {
        PageHeader { page_type, checksum: 0, lsn: 0 }
    }

    /// Read a header from the beginning of a byte slice.
    pub fn from_bytes(data: &[u8]) -> (r: Self)
        requires
            data@.len() >= 13,
        ensures
            r == Self::spec_from_bytes(data@),
    {
        let page_type = PageType::from_u8(data[0]);
        let checksum: u32 = data[1] as u32 + data[2] as u32 * 256 + data[3] as u32 * 65536
            + data[4] as u32 * 16777216;
        let lsn: u64 = data[5] as u64 + data[6] as u64 * 256 + data[7] as u64 * 65536 + data[8]
            as u64 * 16777216 + data[9] as u64 * 4294967296 + data[10] as u64 * 1099511627776
            + data[11] as u64 * 281474976710656 + data[12] as u64 * 72057594037927936;
        PageHeader { page_type, checksum, lsn }
    }

    /// Write this header to the beginning of a byte slice.
    pub fn write_to(&self, data: &mut [u8])
        requires
            old(data)@.len() >= 13,
        ensures
            final(data)@.len() == old(data)@.len(),
            final(data)@.subrange(0, 13) == self.spec_bytes(),
            forall|i: int| 13 <= i < old(data)@.len() ==> final(data)@[i] == old(data)@[i],
    {
        data[0] = self.page_type.to_u8();
        data[1] = (self.checksum % 256) as u8;
        data[2] = ((self.checksum / 256) % 256) as u8;
        data[3] = ((self.checksum / 65536) % 256) as u8;
        data[4] = ((self.checksum / 16777216) % 256) as u8;
        data[5] = (self.lsn % 256) as u8;
        data[6] = ((self.lsn / 256) % 256) as u8;
        data[7] = ((self.lsn / 65536) % 256) as u8;
        data[8] = ((self.lsn / 16777216) % 256) as u8;
        data[9] = ((self.lsn / 4294967296) % 256) as u8;
        data[10] = ((self.lsn / 1099511627776) % 256) as u8;
        data[11] = ((self.lsn / 281474976710656) % 256) as u8;
        data[12] = ((self.lsn / 72057594037927936) % 256) as u8;
        assert(data@.subrange(0, 13) =~= self.spec_bytes());
    }

    /// Compute the CRC-32 checksum of a page: the checksum of the bytes
    /// with the checksum field itself zeroed.
    pub fn compute_checksum(page_data: &[u8]) -> (r: u32)
        requires
            page_data@.len() >= 5,
        ensures
            r == crc32_of(checksum_masked(page_data@)),
    {
        let mut masked: Vec<u8> = Vec::new();
        let mut i: usize = 0;
        while i < page_data.len()
            invariant
                i <= page_data@.len(),
                masked@.len() == i,
                forall|j: int|
                    0 <= j < i ==> masked@[j] == (if 1 <= j < 5 {
                        0u8
                    } else {
                        page_data@[j]
                    }),
            decreases page_data@.len() - i,
        {
            if i >= 1 && i < 5 {
                masked.push(0u8);
            } else {
                masked.push(page_data[i]);
            }
            i += 1;
        }
        assert(masked@ =~= checksum_masked(page_data@));
        crc32(&masked)
    }

    /// Check that the stored checksum matches the checksum computed
    /// over the page bytes.
    pub fn verify_checksum(&self, page_data: &[u8]) -> (r: bool)
        requires
            page_data@.len() >= 5,
        ensures
            r == (self.checksum == crc32_of(checksum_masked(page_data@))),
    {
        self.checksum == Self::compute_checksum(page_data)
    }
}

/// A header written at the front of a byte sequence reads back as
/// itself: `from_bytes` after `write_to` recovers every field.
pub proof fn lemma_header_roundtrip(h: PageHeader, data: Seq<u8>)
    requires
        data.len() >= 13,
        data.subrange(0, 13) == h.spec_bytes(),
    ensures
        PageHeader::spec_from_bytes(data) == h,
{
    assert forall|k: int| 0 <= k < 13 implies data[k] == h.spec_bytes()[k] by {
        assert(data.subrange(0, 13)[k] == data[k]);
    }
    lemma_u32_le_roundtrip(h.checksum);
    lemma_u64_le_roundtrip(h.lsn);
    assert(PageType::spec_from_u8(h.page_type.spec_to_u8()) == h.page_type);
}

impl core::default::Default for PageHeader {
    /// The default header: invalid page type, zero checksum, zero log
    /// sequence number.
    fn default() -> (r: Self)
        ensures
            r == (PageHeader { page_type: PageType::Invalid, checksum: 0, lsn: 0 }),
    {
        PageHeader { page_type: PageType::Invalid, checksum: 0, lsn: 0 }
    }
}

} // verus!
