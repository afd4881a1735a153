//! Scoped guards for page access.
//!
//! A guard stands for one pin on one frame: [`PageReadGuard`] for
//! shared reading, [`PageWriteGuard`] for writing (which marks the
//! frame dirty). A guard is released explicitly with `drop_guard`,
//! which unpins the frame; releasing twice is a no-op.

use vstd::prelude::*;

use crate::buffer_pool_manager::BufferPoolManager;
use crate::frame_id::FrameId;
use crate::page_id::PageId;

verus! {

/// Guard for shared, read-only access to a page in the pool.
pub struct PageReadGuard {
    page_id: PageId,
    frame_id: FrameId,
    dropped: bool,
}

impl PageReadGuard {
    /// The id of the guarded page.
    pub closed spec fn spec_page_id(self) -> PageId {
        self.page_id
    }

    /// The frame holding the guarded page.
    pub closed spec fn spec_frame_id(self) -> FrameId {
        self.frame_id
    }

    /// Whether the guard has been released.
    pub closed spec fn spec_dropped(self) -> bool {
        self.dropped
    }

    /// The guard holds a live pin on its frame in this pool: the frame
    /// carries the guarded page and a positive pin count.
    pub open spec fn attached(self, bpm: BufferPoolManager) -> bool {
        &&& self.spec_frame_id().0 < bpm.spec_frames().len()
        &&& bpm.spec_frames()[self.spec_frame_id().0 as int].spec_page_id() == Some(
            self.spec_page_id(),
        )
        &&& bpm.spec_frames()[self.spec_frame_id().0 as int].spec_pin_count() > 0
    }

    /// Create a guard for a freshly pinned frame.
    pub(crate) fn new(page_id: PageId, frame_id: FrameId) -> (r: Self)
        ensures
            r.spec_page_id() == page_id,
            r.spec_frame_id() == frame_id,
            !r.spec_dropped(),
    {
        PageReadGuard { page_id, frame_id, dropped: false }
    }

    /// The id of the guarded page.
    pub fn page_id(&self) -> (r: PageId)
        ensures
            r == self.spec_page_id(),
    {
        self.page_id
    }

    /// The frame holding the guarded page.
    pub fn frame_id(&self) -> (r: FrameId)
        ensures
            r == self.spec_frame_id(),
    {
        self.frame_id
    }

    /// Whether the guard has been released.
    pub fn is_dropped(&self) -> (r: bool)
        ensures
            r == self.spec_dropped(),
    {
        self.dropped
    }

    /// Borrow the bytes of the guarded page.
    pub fn as_slice<'a>(&self, bpm: &'a BufferPoolManager) -> (s: &'a [u8])
        requires
            !self.spec_dropped(),
            self.attached(*bpm),
        ensures
            s@ == bpm.spec_frames()[self.spec_frame_id().0 as int].spec_page(),
    {
        bpm.page_slice_at(self.frame_id.0)
    }

    /// Release the guard: unpin the frame, leaving its dirty flag
    /// alone. Releasing an already released guard changes nothing.
    pub fn drop_guard(&mut self, bpm: &mut BufferPoolManager)
        requires
            old(bpm).wf(),
            !old(self).spec_dropped() ==> old(self).attached(*old(bpm)),
        ensures
            final(bpm).wf(),
            final(self).spec_page_id() == old(self).spec_page_id(),
            final(self).spec_frame_id() == old(self).spec_frame_id(),
            final(self).spec_dropped(),
            old(self).spec_dropped() ==> *final(bpm) == *old(bpm) && *final(self) == *old(self),
            !old(self).spec_dropped() ==> BufferPoolManager::unpin_post(
                *old(bpm),
                *final(bpm),
                old(self).spec_frame_id().0 as int,
                false,
            ),
    {
        if !self.dropped {
            self.dropped = true;
            bpm.unpin_frame(self.frame_id.0, false);
        }
    }
}

/// Guard for exclusive, mutable access to a page in the pool. Writing
/// through it marks the frame dirty at once, and releasing it marks
/// the frame dirty in any case.
pub struct PageWriteGuard {
    page_id: PageId,
    frame_id: FrameId,
    dropped: bool,
}

impl PageWriteGuard {
    /// The id of the guarded page.
    pub closed spec fn spec_page_id(self) -> PageId {
        self.page_id
    }

    /// The frame holding the guarded page.
    pub closed spec fn spec_frame_id(self) -> FrameId {
        self.frame_id
    }

    /// Whether the guard has been released.
    pub closed spec fn spec_dropped(self) -> bool {
        self.dropped
    }

    /// The guard holds a live pin on its frame in this pool.
    pub open spec fn attached(self, bpm: BufferPoolManager) -> bool {
        &&& self.spec_frame_id().0 < bpm.spec_frames().len()
        &&& bpm.spec_frames()[self.spec_frame_id().0 as int].spec_page_id() == Some(
            self.spec_page_id(),
        )
        &&& bpm.spec_frames()[self.spec_frame_id().0 as int].spec_pin_count() > 0
    }

    /// Create a guard for a freshly pinned frame.
    pub(crate) fn new(page_id: PageId, frame_id: FrameId) -> (r: Self)
        ensures
            r.spec_page_id() == page_id,
            r.spec_frame_id() == frame_id,
            !r.spec_dropped(),
    {
        PageWriteGuard { page_id, frame_id, dropped: false }
    }

    /// The id of the guarded page.
    pub fn page_id(&self) -> (r: PageId)
        ensures
            r == self.spec_page_id(),
    {
        self.page_id
    }

    /// The frame holding the guarded page.
    pub fn frame_id(&self) -> (r: FrameId)
        ensures
            r == self.spec_frame_id(),
    {
        self.frame_id
    }

    /// Whether the guard has been released.
    pub fn is_dropped(&self) -> (r: bool)
        ensures
            r == self.spec_dropped(),
    {
        self.dropped
    }

    /// Borrow the bytes of the guarded page.
    pub fn as_slice<'a>(&self, bpm: &'a BufferPoolManager) -> (s: &'a [u8])
        requires
            !self.spec_dropped(),
            self.attached(*bpm),
        ensures
            s@ == bpm.spec_frames()[self.spec_frame_id().0 as int].spec_page(),
    {
        bpm.page_slice_at(self.frame_id.0)
    }

    /// Borrow the bytes of the guarded page mutably, marking the frame
    /// dirty. The slice's length is fixed, so the page keeps its size;
    /// after the borrow ends, `BufferPoolManager::lemma_wf_after_page_write`
    /// recovers the pool invariant.
    pub fn as_mut_slice<'a>(&self, bpm: &'a mut BufferPoolManager) -> (s: &'a mut [u8])
        requires
            old(bpm).wf(),
            !self.spec_dropped(),
            self.attached(*old(bpm)),
        ensures
            s@ == old(bpm).spec_frames()[self.spec_frame_id().0 as int].spec_page(),
            crate::buffer_pool_manager::frames_same_except(
                old(bpm).spec_frames(),
                final(bpm).spec_frames(),
                self.spec_frame_id().0 as int,
            ),
            final(bpm).spec_frames()[self.spec_frame_id().0 as int].spec_page() == final(s)@,
            final(bpm).spec_frames()[self.spec_frame_id().0 as int].spec_page_id() == old(
                bpm,
            ).spec_frames()[self.spec_frame_id().0 as int].spec_page_id(),
            final(bpm).spec_frames()[self.spec_frame_id().0 as int].spec_pin_count() == old(
                bpm,
            ).spec_frames()[self.spec_frame_id().0 as int].spec_pin_count(),
            final(bpm).spec_frames()[self.spec_frame_id().0 as int].spec_dirty(),
            final(bpm).spec_free_list() == old(bpm).spec_free_list(),
            final(bpm).spec_queue() == old(bpm).spec_queue(),
            final(bpm).spec_evictable() == old(bpm).spec_evictable(),
            final(bpm).spec_replacer().wf() == old(bpm).spec_replacer().wf(),
            final(bpm).spec_disk() == old(bpm).spec_disk(),
            final(bpm).spec_stats() == old(bpm).spec_stats(),
            final(bpm).spec_pool_size() == old(bpm).spec_pool_size(),
    {
        bpm.writable_page_slice(self.frame_id.0)
    }

    /// Release the guard: unpin the frame and mark it dirty (every
    /// write guard conservatively dirties its page). Releasing an
    /// already released guard changes nothing.
    pub fn drop_guard(&mut self, bpm: &mut BufferPoolManager)
        requires
            old(bpm).wf(),
            !old(self).spec_dropped() ==> old(self).attached(*old(bpm)),
        ensures
            final(bpm).wf(),
            final(self).spec_page_id() == old(self).spec_page_id(),
            final(self).spec_frame_id() == old(self).spec_frame_id(),
            final(self).spec_dropped(),
            old(self).spec_dropped() ==> *final(bpm) == *old(bpm) && *final(self) == *old(self),
            !old(self).spec_dropped() ==> BufferPoolManager::unpin_post(
                *old(bpm),
                *final(bpm),
                old(self).spec_frame_id().0 as int,
                true,
            ),
    {
        if !self.dropped {
            self.dropped = true;
            bpm.unpin_frame(self.frame_id.0, true);
        }
    }
}

} // verus!
