//! Frame: a slot in the buffer pool.
//!
//! A frame holds one page of data plus the metadata the buffer pool
//! needs: which page occupies the slot (if any), the pin count of
//! outstanding guards, and the dirty flag for write-back tracking.

use vstd::prelude::*;

use crate::page::{zero_page, Page};
use crate::page_id::PageId;

verus! {

/// A frame in the buffer pool: one page plus its management metadata.
pub struct Frame {
    page: Page,
    page_id: Option<PageId>,
    pin_count: u32,
    dirty: bool,
}

impl Frame {
    /// The bytes of the page held in this frame.
    pub closed spec fn spec_page(self) -> Seq<u8> {
        self.page@
    }

    /// Which page occupies this frame, or `None` when it is empty.
    pub closed spec fn spec_page_id(self) -> Option<PageId> {
        self.page_id
    }

    /// The number of outstanding guards on this frame.
    pub closed spec fn spec_pin_count(self) -> u32 {
        self.pin_count
    }

    /// Whether the page has been modified since it was loaded or last
    /// flushed.
    pub closed spec fn spec_dirty(self) -> bool {
        self.dirty
    }

    /// Whether the frame is loaded (occupied by a page).
    pub open spec fn spec_loaded(self) -> bool {
        self.spec_page_id() is Some
    }

    /// Well-formed: the held page has the full page size.
    pub open spec fn wf(self) -> bool {
        self.spec_page().len() == crate::config::PAGE_SIZE
    }

    /// Create a new empty frame: zeroed page, no identity, pin count
    /// zero, clean.
    pub fn new() -> (r: Self)
        ensures
            r.wf(),
            r.spec_page() == zero_page(),
            r.spec_page_id() is None,
            r.spec_pin_count() == 0,
            !r.spec_dirty(),
    {
        Frame { page: Page::new(), page_id: None, pin_count: 0, dirty: false }
    }

    /// Borrow the held page.
    pub fn page(&self) -> (r: &Page)
        ensures
            r@ == self.spec_page(),
            self.wf() ==> r.wf(),
    {
        &self.page
    }

    /// Borrow the held page mutably. Only the page bytes can change
    /// through the returned reference.
    pub fn page_mut(&mut self) -> (r: &mut Page)
        ensures
            r@ == old(self).spec_page(),
            old(self).wf() ==> r.wf(),
            final(self).spec_page() == final(r)@,
            final(r).wf() ==> final(self).wf(),
            final(self).spec_page_id() == old(self).spec_page_id(),
            final(self).spec_pin_count() == old(self).spec_pin_count(),
            final(self).spec_dirty() == old(self).spec_dirty(),
    {
        &mut self.page
    }

    /// Replace the held page wholesale.
    pub fn install_page(&mut self, page: Page)
        requires
            page.wf(),
        ensures
            final(self).wf(),
            final(self).spec_page() == page@,
            final(self).spec_page_id() == old(self).spec_page_id(),
            final(self).spec_pin_count() == old(self).spec_pin_count(),
            final(self).spec_dirty() == old(self).spec_dirty(),
    {
        self.page = page;
    }

    /// Get the id of the loaded page, or `None` for an empty frame.
    pub fn page_id(&self) -> (r: Option<PageId>)
        ensures
            r == self.spec_page_id(),
    {
        self.page_id
    }

    /// Set or clear the frame's page identity.
    pub fn set_page_id(&mut self, page_id: Option<PageId>)
        ensures
            final(self).spec_page_id() == page_id,
            final(self).spec_page() == old(self).spec_page(),
            final(self).spec_pin_count() == old(self).spec_pin_count(),
            final(self).spec_dirty() == old(self).spec_dirty(),
            final(self).wf() == old(self).wf(),
    {
        self.page_id = page_id;
    }

    /// Increment the pin count; returns the new count.
    pub fn pin(&mut self) -> (r: u32)
        requires
            old(self).spec_pin_count() < u32::MAX,
        ensures
            r == final(self).spec_pin_count(),
            final(self).spec_pin_count() == old(self).spec_pin_count() + 1,
            final(self).spec_page() == old(self).spec_page(),
            final(self).spec_page_id() == old(self).spec_page_id(),
            final(self).spec_dirty() == old(self).spec_dirty(),
            final(self).wf() == old(self).wf(),
    {
        self.pin_count = self.pin_count + 1;
        self.pin_count
    }

    /// Decrement the pin count; returns the new count. Decrementing a
    /// count of zero is a caller bug and is ruled out by contract.
    pub fn unpin(&mut self) -> (r: u32)
        requires
            old(self).spec_pin_count() > 0,
        ensures
            r == final(self).spec_pin_count(),
            final(self).spec_pin_count() == old(self).spec_pin_count() - 1,
            final(self).spec_page() == old(self).spec_page(),
            final(self).spec_page_id() == old(self).spec_page_id(),
            final(self).spec_dirty() == old(self).spec_dirty(),
            final(self).wf() == old(self).wf(),
    {
        self.pin_count = self.pin_count - 1;
        self.pin_count
    }

    /// The current pin count.
    pub fn pin_count(&self) -> (r: u32)
        ensures
            r == self.spec_pin_count(),
    {
        self.pin_count
    }

    /// Whether the frame is currently pinned.
    pub fn is_pinned(&self) -> (r: bool)
        ensures
            r == (self.spec_pin_count() > 0),
    {
        self.pin_count > 0
    }

    /// Mark the frame dirty (its page was modified).
    pub fn mark_dirty(&mut self)
        ensures
            final(self).spec_dirty(),
            final(self).spec_page() == old(self).spec_page(),
            final(self).spec_page_id() == old(self).spec_page_id(),
            final(self).spec_pin_count() == old(self).spec_pin_count(),
            final(self).wf() == old(self).wf(),
    {
        self.dirty = true;
    }

    /// Clear the dirty flag.
    pub fn clear_dirty(&mut self)
        ensures
            !final(self).spec_dirty(),
            final(self).spec_page() == old(self).spec_page(),
            final(self).spec_page_id() == old(self).spec_page_id(),
            final(self).spec_pin_count() == old(self).spec_pin_count(),
            final(self).wf() == old(self).wf(),
    {
        self.dirty = false;
    }

    /// Whether the frame is dirty.
    pub fn is_dirty(&self) -> (r: bool)
        ensures
            r == self.spec_dirty(),
    {
        self.dirty
    }

    /// Whether the frame is empty (no page loaded).
    pub fn is_empty(&self) -> (r: bool)
        ensures
            r == !self.spec_loaded(),
    {
        self.page_id.is_none()
    }

    /// Whether the frame can be chosen as an eviction victim: loaded
    /// and not pinned.
    pub fn is_evictable(&self) -> (r: bool)
        ensures
            r == (self.spec_loaded() && self.spec_pin_count() == 0),
    {
        self.page_id.is_some() && self.pin_count == 0
    }

    /// Reset the frame to the empty state: zero the page, clear the
    /// identity and the dirty flag, pin count to zero.
    pub fn reset(&mut self)
        ensures
            final(self).wf(),
            final(self).spec_page() == zero_page(),
            final(self).spec_page_id() is None,
            final(self).spec_pin_count() == 0,
            !final(self).spec_dirty(),
    {
        self.page.reset();
        self.page_id = None;
        self.pin_count = 0;
        self.dirty = false;
    }
}

impl core::default::Default for Frame {
    /// The default frame is empty.
    fn default() -> (r: Self)
        ensures
            r.wf(),
            r.spec_page() == zero_page(),
            r.spec_page_id() is None,
            r.spec_pin_count() == 0,
            !r.spec_dirty(),
    {
        Frame::new()
    }
}

} // verus!
