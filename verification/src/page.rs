//! Page: the fundamental fixed-size unit of storage.
//!
//! A [`Page`] is a 4096-byte container that serves as the unit of
//! transfer between the backing store and the buffer pool.

use vstd::prelude::*;

use crate::config::PAGE_SIZE;
use crate::page_header::{checksum_masked, crc32_of, u32_le, PageHeader};

verus! {

/// The contents of a freshly created page: 4096 zero bytes.
pub open spec fn zero_page() -> Seq<u8> {
    Seq::new(PAGE_SIZE as nat, |i: int| 0u8)
}

/// A page's byte sequence with the four checksum bytes of its header
/// (offsets 1 through 4) replaced by the little-endian encoding of `c`.
pub open spec fn with_checksum(data: Seq<u8>, c: u32) -> Seq<u8> {
    data.update(1, u32_le(c)[0]).update(2, u32_le(c)[1]).update(3, u32_le(c)[2]).update(
        4,
        u32_le(c)[3],
    )
}

/// A zero-filled vector of the given length.
fn zeroed_bytes(n: usize) -> (r: Vec<u8>)
    ensures
        r@ == Seq::new(n as nat, |i: int| 0u8),
{
    let mut out: Vec<u8> = Vec::new();
    let mut i: usize = 0;
    while i < n
        invariant
            i <= n,
            out@.len() == i,
            forall|j: int| 0 <= j < i ==> out@[j] == 0u8,
        decreases n - i,
    {
        out.push(0u8);
        i += 1;
    }
    assert(out@ =~= Seq::new(n as nat, |i: int| 0u8));
    out
}

/// An element-for-element copy of a byte vector.
fn copied_bytes(src: &Vec<u8>) -> (r: Vec<u8>)
    ensures
        r@ == src@,
{
    let mut out: Vec<u8> = Vec::new();
    let mut i: usize = 0;
    while i < src.len()
        invariant
            i <= src@.len(),
            out@.len() == i,
            forall|j: int| 0 <= j < i ==> out@[j] == src@[j],
        decreases src@.len() - i,
    {
        out.push(src[i]);
        i += 1;
    }
    assert(out@ =~= src@);
    out
}

/// A page of data: a 4096-byte blob, the unit of transfer between the
/// backing store and the buffer pool.
#[derive(Debug, Clone)]
pub struct Page {
    data: Vec<u8>,
}

impl View for Page {
    type V = Seq<u8>;

    closed spec fn view(&self) -> Seq<u8> {
        self.data@
    }
}

impl Page {
    /// A well-formed page holds exactly 4096 bytes. Every constructor
    /// establishes this and every method keeps it.
    pub open spec fn wf(&self) -> bool {
        self@.len() == PAGE_SIZE
    }

    /// Create a new zero-filled page.
    pub fn new() -> (p: Page)
        ensures
            p.wf(),
            p@ == zero_page(),
    {
        Page { data: zeroed_bytes(PAGE_SIZE) }
    }

    /// Build a page from a vector holding exactly one page of bytes.
    pub fn from_vec(data: Vec<u8>) -> (p: Page)
        requires
            data@.len() == PAGE_SIZE,
        ensures
            p.wf(),
            p@ == data@,
    {
        Page { data }
    }

    /// A page holding a copy of this page's bytes.
    pub fn duplicate(&self) -> (p: Page)
        ensures
            p@ == self@,
    {
        Page { data: copied_bytes(&self.data) }
    }

    /// Immutable view of the page bytes.
    pub fn as_slice(&self) -> (s: &[u8])
        ensures
            s@ == self@,
    {
        self.data.as_slice()
    }

    /// Mutable view of the page bytes. The slice has a fixed length, so
    /// writing through it cannot change the page's size.
    pub fn as_mut_slice(&mut self) -> (s: &mut [u8])
        ensures
            s@ == old(self)@,
            final(self)@ == final(s)@,
    {
        self.data.as_mut_slice()
    }

    /// Zero out the entire page.
    pub fn reset(&mut self)
        ensures
            final(self).wf(),
            final(self)@ == zero_page(),
    {
        self.data = zeroed_bytes(PAGE_SIZE);
    }

    /// The size of every page, in bytes.
    pub fn size() -> (r: usize)
        ensures
            r == PAGE_SIZE,
    {
        PAGE_SIZE
    }

    /// Read the page header from the first bytes of the page.
    pub fn header(&self) -> (r: PageHeader)
        requires
            self.wf(),
        ensures
            r == PageHeader::spec_from_bytes(self@),
    {
        PageHeader::from_bytes(self.data.as_slice())
    }

    /// Write a page header to the first bytes of the page.
    pub fn set_header(&mut self, header: &PageHeader)
        requires
            old(self).wf(),
        ensures
            final(self).wf(),
            final(self)@.subrange(0, 13) == header.spec_bytes(),
            forall|i: int| 13 <= i < old(self)@.len() ==> final(self)@[i] == old(self)@[i],
    {
        header.write_to(self.data.as_mut_slice());
    }

    /// Compute the checksum of the page contents and store it in the
    /// header's checksum field.
    pub fn update_checksum(&mut self)
        requires
            old(self).wf(),
        ensures
            final(self).wf(),
            final(self)@ == with_checksum(
                old(self)@,
                crc32_of(checksum_masked(old(self)@)),
            ),
    {
        let checksum = PageHeader::compute_checksum(self.data.as_slice());
        let s = self.data.as_mut_slice();
        s[1] = (checksum % 256) as u8;
        s[2] = ((checksum / 256) % 256) as u8;
        s[3] = ((checksum / 65536) % 256) as u8;
        s[4] = ((checksum / 16777216) % 256) as u8;
    }

    /// Check that the checksum stored in the header matches the page
    /// contents.
    pub fn verify_checksum(&self) -> (r: bool)
        requires
            self.wf(),
        ensures
            r == (PageHeader::spec_from_bytes(self@).checksum == crc32_of(
                checksum_masked(self@),
            )),
    {
        let header = self.header();
        header.verify_checksum(self.data.as_slice())
    }
}

/// Storing the checksum of a page in its header leaves the masked
/// bytes (and so the checksum itself) unchanged, and the stored field
/// reads back as exactly that checksum: after `update_checksum`,
/// `verify_checksum` returns true.
pub proof fn lemma_update_checksum_verifies(data: Seq<u8>)
    requires
        data.len() >= 13,
    ensures
        ({
            let c = crc32_of(checksum_masked(data));
            let stamped = with_checksum(data, c);
            &&& checksum_masked(stamped) == checksum_masked(data)
            &&& PageHeader::spec_from_bytes(stamped).checksum == c
            &&& PageHeader::spec_from_bytes(stamped).checksum == crc32_of(
                checksum_masked(stamped),
            )
        }),
{
    let c = crc32_of(checksum_masked(data));
    let stamped = with_checksum(data, c);
    assert(checksum_masked(stamped) =~= checksum_masked(data));
    crate::page_header::lemma_u32_le_roundtrip(c);
    assert(stamped[1] == u32_le(c)[0]);
    assert(stamped[2] == u32_le(c)[1]);
    assert(stamped[3] == u32_le(c)[2]);
    assert(stamped[4] == u32_le(c)[3]);
}

impl core::default::Default for Page {
    /// The default page is zero-filled.
    fn default() -> (p: Page)
        ensures
            p.wf(),
            p@ == zero_page(),
    {
        Page::new()
    }
}

} // verus!
