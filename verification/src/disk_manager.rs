//! The backing store of pages, behind the narrow interface the buffer
//! pool consumes: allocate a page, read a page, write a page.
//!
//! The store models a database file as a sequence of 4096-byte pages:
//! page `n` occupies slot `n`, and allocation is append-only. It lives
//! entirely in memory; persisting the sequence of pages to a file and
//! loading it back is the business of the unverified shell around the
//! library.

use vstd::prelude::*;

use crate::config::PAGE_SIZE;
use crate::error::Error;
use crate::page::{zero_page, Page};
use crate::page_id::PageId;

verus! {

/// An append-only store of fixed-size pages, addressed by page id.
pub struct DiskManager {
    pages: Vec<Page>,
}

impl View for DiskManager {
    type V = Seq<Seq<u8>>;

    closed spec fn view(&self) -> Seq<Seq<u8>> {
        self.pages@.map_values(|p: Page| p@)
    }
}

impl DiskManager {
    /// Well-formed: every page holds exactly 4096 bytes, and the page
    /// count leaves every id below the invalid sentinel.
    pub open spec fn wf(&self) -> bool {
        &&& self@.len() <= u32::MAX
        &&& forall|i: int| 0 <= i < self@.len() ==> (#[trigger] self@[i]).len() == PAGE_SIZE
    }

    /// Create an empty store with no pages.
    pub fn new() -> (r: Self)
        ensures
            r.wf(),
            r@ == Seq::<Seq<u8>>::empty(),
    {
        let r = DiskManager { pages: Vec::new() };
        proof {
            assert(r@ =~= Seq::<Seq<u8>>::empty());
        }
        r
    }

    /// Allocate a new zero-filled page at the end of the store and
    /// return its id.
    pub fn allocate_page(&mut self) -> (r: Result<PageId, Error>)
        requires
            old(self).wf(),
            old(self)@.len() < u32::MAX,
        ensures
            final(self).wf(),
            r == Ok::<PageId, Error>(PageId(old(self)@.len() as u32)),
            final(self)@ == old(self)@.push(zero_page()),
    {
        let id: u32 = self.pages.len() as u32;
        self.pages.push(Page::new());
        proof {
            assert(self@ =~= old(self)@.push(zero_page()));
        }
        Ok(PageId(id))
    }

    /// Read a page, returning a copy of its bytes. Fails with
    /// `PageNotFound` exactly when the id is at or past the page count.
    pub fn read_page(&self, page_id: PageId) -> (r: Result<Page, Error>)
        requires
            self.wf(),
        ensures
            page_id.0 < self@.len() ==> {
                &&& r is Ok
                &&& r->Ok_0@ == self@[page_id.0 as int]
                &&& r->Ok_0.wf()
            },
            page_id.0 >= self@.len() ==> r == Err::<Page, Error>(Error::PageNotFound(page_id.0)),
    {
        if (page_id.0 as usize) < self.pages.len() {
            Ok(self.pages[page_id.0 as usize].duplicate())
        } else {
            Err(Error::PageNotFound(page_id.0))
        }
    }

    /// Write a page's bytes into its slot. Fails with `PageNotFound`
    /// exactly when the id has not been allocated.
    pub fn write_page(&mut self, page_id: PageId, page: &Page) -> (r: Result<(), Error>)
        requires
            old(self).wf(),
            page.wf(),
        ensures
            final(self).wf(),
            page_id.0 < old(self)@.len() ==> {
                &&& r == Ok::<(), Error>(())
                &&& final(self)@ == old(self)@.update(page_id.0 as int, page@)
            },
            page_id.0 >= old(self)@.len() ==> {
                &&& r == Err::<(), Error>(Error::PageNotFound(page_id.0))
                &&& final(self)@ == old(self)@
            },
    {
        if (page_id.0 as usize) < self.pages.len() {
            self.pages.set(page_id.0 as usize, page.duplicate());
            proof {
                assert(self@ =~= old(self)@.update(page_id.0 as int, page@));
            }
            Ok(())
        } else {
            Err(Error::PageNotFound(page_id.0))
        }
    }

    /// The number of pages in the store.
    pub fn page_count(&self) -> (r: u32)
        requires
            self.wf(),
        ensures
            r == self@.len(),
    {
        self.pages.len() as u32
    }

    /// The total size of the store in bytes.
    pub fn file_size(&self) -> (r: u64)
        requires
            self.wf(),
        ensures
            r == self@.len() * PAGE_SIZE,
    {
        (self.pages.len() as u64) * (PAGE_SIZE as u64)
    }
}

} // verus!
