//! Buffer pool manager: the core page caching layer.
//!
//! The manager owns a fixed array of frames, a free list, a FIFO
//! replacement policy and the backing store, and arbitrates access to
//! cached pages through pin counts and scoped guards. Dirty pages are
//! written back before their frame is reused.

use vstd::prelude::*;

use crate::disk_manager::DiskManager;
use crate::error::Error;
use crate::fifo::{first_evictable, first_evictable_index, FifoReplacer};
use crate::frame::Frame;
use crate::frame_id::FrameId;
use crate::page::zero_page;
use crate::page_guard::{PageReadGuard, PageWriteGuard};
use crate::page_id::PageId;
use crate::stats::BufferPoolStats;

verus! {

/// The number of loaded frames (frames occupied by a page).
pub open spec fn count_loaded(frames: Seq<Frame>) -> nat
    decreases frames.len(),
{
    if frames.len() == 0 {
        0
    } else {
        count_loaded(frames.drop_last()) + if frames.last().spec_loaded() {
            1nat
        } else {
            0nat
        }
    }
}

/// The number of loaded dirty frames.
pub open spec fn count_dirty(frames: Seq<Frame>) -> nat
    decreases frames.len(),
{
    if frames.len() == 0 {
        0
    } else {
        count_dirty(frames.drop_last()) + if frames.last().spec_loaded()
            && frames.last().spec_dirty() {
            1nat
        } else {
            0nat
        }
    }
}

/// Updating one frame changes the loaded count by the difference the
/// update makes at that position.
pub proof fn lemma_count_loaded_update(frames: Seq<Frame>, i: int, f: Frame)
    requires
        0 <= i < frames.len(),
    ensures
        count_loaded(frames.update(i, f)) == count_loaded(frames) - (if frames[i].spec_loaded() {
            1int
        } else {
            0int
        }) + (if f.spec_loaded() {
            1int
        } else {
            0int
        }),
    decreases frames.len(),
{
    let u = frames.update(i, f);
    if i == frames.len() - 1 {
        assert(u.drop_last() =~= frames.drop_last());
    } else {
        assert(u.drop_last() =~= frames.drop_last().update(i, f));
        lemma_count_loaded_update(frames.drop_last(), i, f);
        assert(u.last() == frames.last());
    }
}

/// A sequence of empty frames has a loaded count of zero.
pub proof fn lemma_count_loaded_all_empty(frames: Seq<Frame>)
    requires
        forall|i: int| 0 <= i < frames.len() ==> !(#[trigger] frames[i]).spec_loaded(),
    ensures
        count_loaded(frames) == 0,
    decreases frames.len(),
{
    if frames.len() > 0 {
        lemma_count_loaded_all_empty(frames.drop_last());
    }
}

/// The numeric page id held by a loaded frame (meaningful only when
/// the frame is loaded).
pub open spec fn pid_of(f: Frame) -> u32 {
    f.spec_page_id()->Some_0.0
}

/// The frame sequences agree everywhere but (possibly) at index `i`.
pub open spec fn frames_same_except(pre: Seq<Frame>, post: Seq<Frame>, i: int) -> bool {
    &&& post.len() == pre.len()
    &&& forall|j: int| 0 <= j < pre.len() && j != i ==> post[j] == pre[j]
}

/// Every frame holds a full-size page.
pub open spec fn frames_ok(frames: Seq<Frame>) -> bool {
    forall|i: int| 0 <= i < frames.len() ==> (#[trigger] frames[i]).wf()
}

/// The free list holds exactly the empty frames, without duplicates;
/// empty frames are unpinned and clean.
pub open spec fn free_list_ok(frames: Seq<Frame>, free: Seq<FrameId>) -> bool {
    &&& free.no_duplicates()
    &&& forall|k: int| 0 <= k < free.len() ==> (#[trigger] free[k]).0 < frames.len()
    &&& forall|k: int| 0 <= k < free.len() ==> !frames[(#[trigger] free[k]).0 as int].spec_loaded()
    &&& forall|i: int|
        0 <= i < frames.len() && !(#[trigger] frames[i]).spec_loaded() ==> free.contains(
            FrameId(i as usize),
        )
    &&& forall|i: int|
        0 <= i < frames.len() && !(#[trigger] frames[i]).spec_loaded() ==> frames[
            i
        ].spec_pin_count() == 0 && !frames[i].spec_dirty()
}

/// As `free_list_ok`, except that the empty frame `h` is deliberately
/// off the free list (it has been taken out for reuse).
pub open spec fn free_list_hole_ok(frames: Seq<Frame>, free: Seq<FrameId>, h: int) -> bool {
    &&& free.no_duplicates()
    &&& forall|k: int| 0 <= k < free.len() ==> (#[trigger] free[k]).0 < frames.len()
    &&& forall|k: int| 0 <= k < free.len() ==> !frames[(#[trigger] free[k]).0 as int].spec_loaded()
    &&& forall|k: int| 0 <= k < free.len() ==> (#[trigger] free[k]).0 != h
    &&& forall|i: int|
        0 <= i < frames.len() && i != h && !(#[trigger] frames[i]).spec_loaded()
            ==> free.contains(FrameId(i as usize))
    &&& forall|i: int|
        0 <= i < frames.len() && !(#[trigger] frames[i]).spec_loaded() ==> frames[
            i
        ].spec_pin_count() == 0 && !frames[i].spec_dirty()
}

/// Each page id occupies at most one frame.
pub open spec fn unique_ok(frames: Seq<Frame>) -> bool {
    forall|i: int, j: int|
        0 <= i < frames.len() && 0 <= j < frames.len() && i != j && (
        #[trigger] frames[i]).spec_loaded() && (#[trigger] frames[j]).spec_loaded() ==> frames[
            i
        ].spec_page_id() != frames[j].spec_page_id()
}

/// The replacer queue holds exactly the loaded frames.
pub open spec fn queue_ok(frames: Seq<Frame>, q: Seq<FrameId>) -> bool {
    forall|f: FrameId|
        #[trigger] q.contains(f) <==> (f.0 < frames.len() && frames[f.0 as int].spec_loaded())
}

/// A frame is marked evictable exactly when it is loaded and unpinned.
pub open spec fn evictable_ok(frames: Seq<Frame>, ev: Set<FrameId>) -> bool {
    forall|f: FrameId|
        #[trigger] ev.contains(f) <==> (f.0 < frames.len() && frames[f.0 as int].spec_loaded()
            && frames[f.0 as int].spec_pin_count() == 0)
}

/// Loaded pages exist on the backing store, and clean loaded pages
/// agree with it byte for byte.
pub open spec fn disk_ok(frames: Seq<Frame>, disk: Seq<Seq<u8>>) -> bool {
    &&& forall|i: int|
        0 <= i < frames.len() && (#[trigger] frames[i]).spec_loaded() ==> pid_of(frames[i])
            < disk.len()
    &&& forall|i: int|
        0 <= i < frames.len() && (#[trigger] frames[i]).spec_loaded() && !frames[i].spec_dirty()
            ==> frames[i].spec_page() == disk[pid_of(frames[i]) as int]
}

/// The statistics counters with the given amounts added.
pub open spec fn stats_add(s: BufferPoolStats, dh: int, dm: int, de: int, dr: int, dw: int) -> BufferPoolStats {
    BufferPoolStats {
        cache_hits: (s.cache_hits + dh) as u64,
        cache_misses: (s.cache_misses + dm) as u64,
        evictions: (s.evictions + de) as u64,
        pages_read: (s.pages_read + dr) as u64,
        pages_written: (s.pages_written + dw) as u64,
    }
}

/// The pool invariant is preserved when only frame `i` changes, stays
/// loaded under the same page id with a well-formed page, and the
/// bookkeeping hypotheses below hold of the new state.
proof fn lemma_wf_update_loaded(pre: BufferPoolManager, post: BufferPoolManager, i: int)
    requires
        pre.wf(),
        0 <= i < pre.spec_frames().len(),
        frames_same_except(pre.spec_frames(), post.spec_frames(), i),
        pre.spec_frames()[i].spec_loaded(),
        post.spec_frames()[i].wf(),
        post.spec_frames()[i].spec_page_id() == pre.spec_frames()[i].spec_page_id(),
        post.spec_free_list() == pre.spec_free_list(),
        post.spec_queue() == pre.spec_queue(),
        post.spec_replacer().wf(),
        post.spec_disk() == pre.spec_disk(),
        post.spec_pool_size() == pre.spec_pool_size(),
        forall|f: FrameId|
            #[trigger] post.spec_evictable().contains(f) <==> (f.0 < post.spec_frames().len()
                && post.spec_frames()[f.0 as int].spec_loaded() && post.spec_frames()[
                f.0 as int
            ].spec_pin_count() == 0),
        post.spec_frames()[i].spec_dirty() || post.spec_frames()[i].spec_page()
            == post.spec_disk()[pid_of(post.spec_frames()[i]) as int],
    ensures
        post.wf(),
{
    let n = pre.spec_frames().len() as int;
    assert(post.spec_frames()[i].spec_loaded());
    assert forall|j: int| 0 <= j < n implies (#[trigger] post.spec_frames()[j]).wf() by {
        if j != i {
            assert(post.spec_frames()[j] == pre.spec_frames()[j]);
        }
    }
    assert forall|k: int| 0 <= k < post.spec_free_list().len() implies !post.spec_frames()[
        (#[trigger] post.spec_free_list()[k]).0 as int
    ].spec_loaded() by {
        let f = pre.spec_free_list()[k];
        assert(!pre.spec_frames()[f.0 as int].spec_loaded());
        assert(f.0 as int != i);
    }
    assert forall|j: int|
        0 <= j < n && !(#[trigger] post.spec_frames()[j]).spec_loaded() implies post
        .spec_free_list().contains(FrameId(j as usize)) && post.spec_frames()[
        j
    ].spec_pin_count() == 0 && !post.spec_frames()[j].spec_dirty() by {
        assert(j != i);
        assert(post.spec_frames()[j] == pre.spec_frames()[j]);
    }
    assert forall|a: int, b: int|
        0 <= a < n && 0 <= b < n && a != b && (#[trigger] post.spec_frames()[a]).spec_loaded() && (
        #[trigger] post.spec_frames()[b]).spec_loaded() implies post.spec_frames()[
        a
    ].spec_page_id() != post.spec_frames()[b].spec_page_id() by {
        assert(post.spec_frames()[a].spec_page_id() == pre.spec_frames()[a].spec_page_id());
        assert(post.spec_frames()[b].spec_page_id() == pre.spec_frames()[b].spec_page_id());
        assert(pre.spec_frames()[a].spec_loaded() && pre.spec_frames()[b].spec_loaded());
    }
    assert forall|f: FrameId| #[trigger]
        post.spec_queue().contains(f) <==> (f.0 < n && post.spec_frames()[
        f.0 as int
    ].spec_loaded()) by {
        if f.0 < n {
            if f.0 as int != i {
                assert(post.spec_frames()[f.0 as int] == pre.spec_frames()[f.0 as int]);
            }
        }
    }
    assert forall|j: int|
        0 <= j < n && (#[trigger] post.spec_frames()[j]).spec_loaded() implies pid_of(
        post.spec_frames()[j],
    ) < post.spec_disk().len() by {
        if j != i {
            assert(post.spec_frames()[j] == pre.spec_frames()[j]);
        }
    }
    assert forall|j: int|
        0 <= j < n && (#[trigger] post.spec_frames()[j]).spec_loaded() && !post.spec_frames()[
        j
    ].spec_dirty() implies post.spec_frames()[j].spec_page() == post.spec_disk()[pid_of(
        post.spec_frames()[j],
    ) as int] by {
        if j != i {
            assert(post.spec_frames()[j] == pre.spec_frames()[j]);
        }
    }
    assert(post.spec_frames() == pre.spec_frames().update(i, post.spec_frames()[i])) by {
        assert(post.spec_frames() =~= pre.spec_frames().update(i, post.spec_frames()[i]));
    }
    lemma_count_loaded_update(pre.spec_frames(), i, post.spec_frames()[i]);
}

/// The backing store contents after flushing the first `k` frames in
/// order: each loaded dirty frame among them has written its page to
/// its slot.
pub open spec fn disk_after_flush(frames: Seq<Frame>, disk: Seq<Seq<u8>>, k: int) -> Seq<Seq<u8>>
    decreases k,
{
    if k <= 0 {
        disk
    } else {
        let d = disk_after_flush(frames, disk, k - 1);
        let f = frames[k - 1];
        if f.spec_loaded() && f.spec_dirty() {
            d.update(pid_of(f) as int, f.spec_page())
        } else {
            d
        }
    }
}

/// No more frames can be dirty than there are frames.
pub proof fn lemma_count_dirty_le_len(frames: Seq<Frame>)
    ensures
        count_dirty(frames) <= frames.len(),
    decreases frames.len(),
{
    if frames.len() > 0 {
        lemma_count_dirty_le_len(frames.drop_last());
    }
}

/// The pool invariant is preserved by a write-back of frame `i`: its
/// page is written to its own slot of the backing store and its dirty
/// flag cleared, with everything else untouched.
proof fn lemma_wf_flush(pre: BufferPoolManager, post: BufferPoolManager, i: int)
    requires
        pre.wf(),
        0 <= i < pre.spec_frames().len(),
        frames_same_except(pre.spec_frames(), post.spec_frames(), i),
        pre.spec_frames()[i].spec_loaded(),
        post.spec_frames()[i].spec_page() == pre.spec_frames()[i].spec_page(),
        post.spec_frames()[i].spec_page_id() == pre.spec_frames()[i].spec_page_id(),
        post.spec_frames()[i].spec_pin_count() == pre.spec_frames()[i].spec_pin_count(),
        !post.spec_frames()[i].spec_dirty(),
        post.spec_free_list() == pre.spec_free_list(),
        post.spec_queue() == pre.spec_queue(),
        post.spec_evictable() == pre.spec_evictable(),
        post.spec_replacer().wf(),
        post.spec_disk_manager().wf(),
        post.spec_disk() == pre.spec_disk().update(
            pid_of(pre.spec_frames()[i]) as int,
            pre.spec_frames()[i].spec_page(),
        ),
        post.spec_pool_size() == pre.spec_pool_size(),
    ensures
        post.wf(),
{
    let n = pre.spec_frames().len() as int;
    assert forall|j: int| 0 <= j < n implies (#[trigger] post.spec_frames()[j]).wf() by {
        if j != i {
            assert(post.spec_frames()[j] == pre.spec_frames()[j]);
        }
    }
    assert forall|k: int| 0 <= k < post.spec_free_list().len() implies (
    #[trigger] post.spec_free_list()[k]).0 < n && !post.spec_frames()[
        post.spec_free_list()[k].0 as int
    ].spec_loaded() by {
        assert(!pre.spec_frames()[pre.spec_free_list()[k].0 as int].spec_loaded());
        assert(pre.spec_free_list()[k].0 as int != i);
    }
    assert forall|j: int|
        0 <= j < n && !(#[trigger] post.spec_frames()[j]).spec_loaded() implies post
        .spec_free_list().contains(FrameId(j as usize)) && post.spec_frames()[
        j
    ].spec_pin_count() == 0 && !post.spec_frames()[j].spec_dirty() by {
        assert(j != i);
        assert(post.spec_frames()[j] == pre.spec_frames()[j]);
    }
    assert forall|a: int, b: int|
        0 <= a < n && 0 <= b < n && a != b && (#[trigger] post.spec_frames()[a]).spec_loaded() && (
        #[trigger] post.spec_frames()[b]).spec_loaded() implies post.spec_frames()[
        a
    ].spec_page_id() != post.spec_frames()[b].spec_page_id() by {
        assert(post.spec_frames()[a].spec_page_id() == pre.spec_frames()[a].spec_page_id());
        assert(post.spec_frames()[b].spec_page_id() == pre.spec_frames()[b].spec_page_id());
        assert(pre.spec_frames()[a].spec_loaded() && pre.spec_frames()[b].spec_loaded());
    }
    assert forall|f: FrameId| #[trigger]
        post.spec_queue().contains(f) <==> (f.0 < n && post.spec_frames()[
        f.0 as int
    ].spec_loaded()) by {
        assert(pre.spec_queue().contains(f) <==> (f.0 < n && pre.spec_frames()[
            f.0 as int
        ].spec_loaded()));
        if f.0 < n && f.0 as int != i {
            assert(post.spec_frames()[f.0 as int] == pre.spec_frames()[f.0 as int]);
        }
    }
    assert forall|f: FrameId| #[trigger]
        post.spec_evictable().contains(f) <==> (f.0 < n && post.spec_frames()[
        f.0 as int
    ].spec_loaded() && post.spec_frames()[f.0 as int].spec_pin_count() == 0) by {
        assert(pre.spec_evictable().contains(f) <==> (f.0 < n && pre.spec_frames()[
            f.0 as int
        ].spec_loaded() && pre.spec_frames()[f.0 as int].spec_pin_count() == 0));
        if f.0 < n && f.0 as int != i {
            assert(post.spec_frames()[f.0 as int] == pre.spec_frames()[f.0 as int]);
        }
    }
    assert forall|j: int|
        0 <= j < n && (#[trigger] post.spec_frames()[j]).spec_loaded() implies pid_of(
        post.spec_frames()[j],
    ) < post.spec_disk().len() && (!post.spec_frames()[j].spec_dirty() ==> post.spec_frames()[
        j
    ].spec_page() == post.spec_disk()[pid_of(post.spec_frames()[j]) as int]) by {
        if j != i {
            assert(post.spec_frames()[j] == pre.spec_frames()[j]);
            assert(pid_of(pre.spec_frames()[j]) < pre.spec_disk().len());
            if !pre.spec_frames()[j].spec_dirty() {
                assert(pre.spec_frames()[j].spec_page_id() != pre.spec_frames()[i].spec_page_id());
                assert(pid_of(pre.spec_frames()[j]) != pid_of(pre.spec_frames()[i]));
            }
        }
    }
    assert(post.spec_frames() == pre.spec_frames().update(i, post.spec_frames()[i])) by {
        assert(post.spec_frames() =~= pre.spec_frames().update(i, post.spec_frames()[i]));
    }
    lemma_count_loaded_update(pre.spec_frames(), i, post.spec_frames()[i]);
}

/// Filling the hole of a pool in `wf_with_hole` state with a page that
/// is not resident elsewhere restores the full invariant.
proof fn lemma_wf_fill_hole(pre: BufferPoolManager, post: BufferPoolManager, h: int, pid: PageId)
    requires
        pre.wf_with_hole(h),
        frames_same_except(pre.spec_frames(), post.spec_frames(), h),
        post.spec_frames()[h].wf(),
        post.spec_frames()[h].spec_page_id() == Some(pid),
        post.spec_frames()[h].spec_pin_count() > 0,
        !post.spec_frames()[h].spec_dirty(),
        forall|j: int|
            0 <= j < pre.spec_frames().len() && j != h ==> (
            #[trigger] pre.spec_frames()[j]).spec_page_id() != Some(pid),
        pid.0 < post.spec_disk().len(),
        post.spec_frames()[h].spec_page() == post.spec_disk()[pid.0 as int],
        post.spec_free_list() == pre.spec_free_list(),
        forall|g: FrameId|
            #[trigger] post.spec_queue().contains(g) <==> (pre.spec_queue().contains(g) || g
                == FrameId(h as usize)),
        post.spec_evictable() == pre.spec_evictable().remove(FrameId(h as usize)),
        post.spec_replacer().wf(),
        post.spec_disk() == pre.spec_disk(),
        post.spec_pool_size() == pre.spec_pool_size(),
    ensures
        post.wf(),
{
    let n = pre.spec_frames().len() as int;
    assert(post.spec_frames()[h].spec_loaded());
    assert forall|j: int| 0 <= j < n implies (#[trigger] post.spec_frames()[j]).wf() by {
        if j != h {
            assert(post.spec_frames()[j] == pre.spec_frames()[j]);
        }
    }
    assert forall|k: int| 0 <= k < post.spec_free_list().len() implies (
    #[trigger] post.spec_free_list()[k]).0 < n && !post.spec_frames()[
        post.spec_free_list()[k].0 as int
    ].spec_loaded() by {
        assert(pre.spec_free_list()[k].0 < n);
        assert(pre.spec_free_list()[k].0 != h);
        assert(!pre.spec_frames()[pre.spec_free_list()[k].0 as int].spec_loaded());
    }
    assert forall|j: int|
        0 <= j < n && !(#[trigger] post.spec_frames()[j]).spec_loaded() implies post
        .spec_free_list().contains(FrameId(j as usize)) && post.spec_frames()[
        j
    ].spec_pin_count() == 0 && !post.spec_frames()[j].spec_dirty() by {
        assert(j != h);
        assert(post.spec_frames()[j] == pre.spec_frames()[j]);
    }
    assert forall|a: int, b: int|
        0 <= a < n && 0 <= b < n && a != b && (#[trigger] post.spec_frames()[a]).spec_loaded() && (
        #[trigger] post.spec_frames()[b]).spec_loaded() implies post.spec_frames()[
        a
    ].spec_page_id() != post.spec_frames()[b].spec_page_id() by {
        if a != h && b != h {
            assert(post.spec_frames()[a] == pre.spec_frames()[a]);
            assert(post.spec_frames()[b] == pre.spec_frames()[b]);
        } else if a == h {
            assert(post.spec_frames()[b] == pre.spec_frames()[b]);
            assert(pre.spec_frames()[b].spec_page_id() != Some(pid));
        } else {
            assert(post.spec_frames()[a] == pre.spec_frames()[a]);
            assert(pre.spec_frames()[a].spec_page_id() != Some(pid));
        }
    }
    assert forall|g: FrameId| #[trigger]
        post.spec_queue().contains(g) <==> (g.0 < n && post.spec_frames()[
        g.0 as int
    ].spec_loaded()) by {
        assert(pre.spec_queue().contains(g) <==> (g.0 < n && pre.spec_frames()[
            g.0 as int
        ].spec_loaded()));
        if g.0 < n && g.0 as int != h {
            assert(post.spec_frames()[g.0 as int] == pre.spec_frames()[g.0 as int]);
        }
        if g.0 as int == h {
            assert(g == FrameId(h as usize));
        }
    }
    assert forall|f: FrameId| #[trigger]
        post.spec_evictable().contains(f) <==> (f.0 < n && post.spec_frames()[
        f.0 as int
    ].spec_loaded() && post.spec_frames()[f.0 as int].spec_pin_count() == 0) by {
        assert(pre.spec_evictable().contains(f) <==> (f.0 < n && pre.spec_frames()[
            f.0 as int
        ].spec_loaded() && pre.spec_frames()[f.0 as int].spec_pin_count() == 0));
        if f.0 < n && f.0 as int != h {
            assert(post.spec_frames()[f.0 as int] == pre.spec_frames()[f.0 as int]);
        }
        if f.0 as int == h {
            assert(f == FrameId(h as usize));
        }
    }
    assert forall|j: int|
        0 <= j < n && (#[trigger] post.spec_frames()[j]).spec_loaded() implies pid_of(
        post.spec_frames()[j],
    ) < post.spec_disk().len() && (!post.spec_frames()[j].spec_dirty() ==> post.spec_frames()[
        j
    ].spec_page() == post.spec_disk()[pid_of(post.spec_frames()[j]) as int]) by {
        if j != h {
            assert(post.spec_frames()[j] == pre.spec_frames()[j]);
        }
    }
    assert(post.spec_frames() == pre.spec_frames().update(h, post.spec_frames()[h])) by {
        assert(post.spec_frames() =~= pre.spec_frames().update(h, post.spec_frames()[h]));
    }
    lemma_count_loaded_update(pre.spec_frames(), h, post.spec_frames()[h]);
}

/// Manages a pool of buffer frames caching pages of the backing store.
pub struct BufferPoolManager {
    frames: Vec<Frame>,
    free_list: Vec<FrameId>,
    replacer: FifoReplacer,
    disk_manager: DiskManager,
    stats: BufferPoolStats,
    pool_size: usize,
}

impl BufferPoolManager {
    /// The frames of the pool.
    pub closed spec fn spec_frames(self) -> Seq<Frame> {
        self.frames@
    }

    /// The free list: ids of empty frames, kept as a stack.
    pub closed spec fn spec_free_list(self) -> Seq<FrameId> {
        self.free_list@
    }

    /// The replacement policy's queue, oldest first.
    pub closed spec fn spec_queue(self) -> Seq<FrameId> {
        self.replacer.queue_view()
    }

    /// The replacement policy's set of evictable frames.
    pub closed spec fn spec_evictable(self) -> Set<FrameId> {
        self.replacer.evictable_set()
    }

    /// The backing store contents: one byte sequence per page.
    pub closed spec fn spec_disk(self) -> Seq<Seq<u8>> {
        self.disk_manager@
    }

    /// The replacement policy state.
    pub closed spec fn spec_replacer(self) -> FifoReplacer {
        self.replacer
    }

    /// The backing store.
    pub closed spec fn spec_disk_manager(self) -> DiskManager {
        self.disk_manager
    }

    /// The statistics counters.
    pub closed spec fn spec_stats(self) -> BufferPoolStats {
        self.stats
    }

    /// The number of frames in the pool.
    pub closed spec fn spec_pool_size(self) -> int {
        self.pool_size as int
    }

    /// Whether some frame holds the page `pid`.
    pub open spec fn resident(self, pid: PageId) -> bool {
        exists|i: int|
            0 <= i < self.spec_frames().len() && (#[trigger] self.spec_frames()[i]).spec_page_id()
                == Some(pid)
    }

    /// The index of the frame holding page `pid` (meaningful only when
    /// the page is resident; unique by the well-formedness invariant).
    pub open spec fn frame_of(self, pid: PageId) -> int {
        choose|i: int|
            0 <= i < self.spec_frames().len() && (#[trigger] self.spec_frames()[i]).spec_page_id()
                == Some(pid)
    }

    /// The page table as a map from page id to frame index, derived
    /// from the frames' identity slots.
    pub open spec fn page_table(self) -> Map<u32, int> {
        Map::new(|p: u32| self.resident(PageId(p)), |p: u32| self.frame_of(PageId(p)))
    }

    /// Whether a fetch could obtain a frame: the free list is
    /// non-empty, or some queued frame is evictable.
    pub open spec fn has_available_frame(self) -> bool {
        self.spec_free_list().len() > 0 || first_evictable(self.spec_queue(), self.spec_evictable())
            is Some
    }

    /// Every frame is well-formed (holds a full-size page).
    pub open spec fn frames_wf(self) -> bool {
        frames_ok(self.spec_frames())
    }

    /// The free list holds exactly the empty frames, without
    /// duplicates; empty frames are unpinned and clean.
    pub open spec fn free_list_wf(self) -> bool {
        free_list_ok(self.spec_frames(), self.spec_free_list())
    }

    /// Each page id occupies at most one frame.
    pub open spec fn identities_unique(self) -> bool {
        unique_ok(self.spec_frames())
    }

    /// The replacer queue holds exactly the loaded frames; a frame is
    /// marked evictable exactly when it is loaded and unpinned.
    pub open spec fn replacer_wf(self) -> bool {
        &&& self.spec_replacer().wf()
        &&& queue_ok(self.spec_frames(), self.spec_queue())
        &&& evictable_ok(self.spec_frames(), self.spec_evictable())
    }

    /// Loaded pages exist on the backing store, and clean loaded pages
    /// agree with it byte for byte.
    pub open spec fn disk_wf(self) -> bool {
        &&& self.spec_disk_manager().wf()
        &&& disk_ok(self.spec_frames(), self.spec_disk())
    }

    /// The well-formedness invariant of the whole pool. Every public
    /// operation requires and preserves it.
    pub open spec fn wf(self) -> bool {
        &&& self.spec_pool_size() >= 1
        &&& self.spec_frames().len() == self.spec_pool_size()
        &&& self.frames_wf()
        &&& self.free_list_wf()
        &&& self.identities_unique()
        &&& self.replacer_wf()
        &&& self.disk_wf()
        &&& count_loaded(self.spec_frames()) + self.spec_free_list().len()
            == self.spec_pool_size()
    }

    /// Like `wf`, but frame `h` has been taken out for reuse: it is
    /// empty, unpinned and clean, yet stands neither on the free list
    /// nor in the replacer, and the frame accounting counts it
    /// separately. Filling the hole with a page restores `wf`.
    pub open spec fn wf_with_hole(self, h: int) -> bool {
        &&& self.spec_pool_size() >= 1
        &&& self.spec_frames().len() == self.spec_pool_size()
        &&& frames_ok(self.spec_frames())
        &&& 0 <= h < self.spec_frames().len()
        &&& !self.spec_frames()[h].spec_loaded()
        &&& self.spec_frames()[h].spec_pin_count() == 0
        &&& !self.spec_frames()[h].spec_dirty()
        &&& free_list_hole_ok(self.spec_frames(), self.spec_free_list(), h)
        &&& unique_ok(self.spec_frames())
        &&& self.spec_replacer().wf()
        &&& queue_ok(self.spec_frames(), self.spec_queue())
        &&& evictable_ok(self.spec_frames(), self.spec_evictable())
        &&& self.spec_disk_manager().wf()
        &&& disk_ok(self.spec_frames(), self.spec_disk())
        &&& count_loaded(self.spec_frames()) + self.spec_free_list().len() + 1
            == self.spec_pool_size()
    }

    /// Create a new buffer pool over the given backing store, with
    /// `pool_size` empty frames, all on the free list.
    pub fn new(pool_size: usize, disk_manager: DiskManager) -> (r: Self)
        requires
            pool_size >= 1,
            disk_manager.wf(),
        ensures
            r.wf(),
            r.spec_pool_size() == pool_size,
            r.spec_disk() == disk_manager@,
            r.spec_free_list().len() == pool_size,
            r.spec_stats() == BufferPoolStats::spec_zero(),
            forall|pid: PageId| !r.resident(pid),
            r.spec_queue() == Seq::<FrameId>::empty(),
    {
        let mut frames: Vec<Frame> = Vec::new();
        let mut free_list: Vec<FrameId> = Vec::new();
        let mut i: usize = 0;
        while i < pool_size
            invariant
                i <= pool_size,
                frames@.len() == i,
                free_list@.len() == i,
                forall|k: int|
                    0 <= k < i ==> {
                        let fr = #[trigger] frames@[k];
                        &&& fr.wf()
                        &&& !fr.spec_loaded()
                        &&& fr.spec_pin_count() == 0
                        &&& !fr.spec_dirty()
                    },
                forall|k: int| 0 <= k < i ==> (#[trigger] free_list@[k]) == FrameId(k as usize),
            decreases pool_size - i,
        {
            frames.push(Frame::new());
            free_list.push(FrameId::new(i));
            i += 1;
        }
        let r = BufferPoolManager {
            frames,
            free_list,
            replacer: FifoReplacer::new(),
            disk_manager,
            stats: BufferPoolStats::new(),
            pool_size,
        };
        proof {
            lemma_count_loaded_all_empty(r.spec_frames());
            assert(r.spec_free_list().no_duplicates()) by {
                assert forall|a: int, b: int|
                    0 <= a < r.spec_free_list().len() && 0 <= b < r.spec_free_list().len() && a
                        != b implies r.spec_free_list()[a] != r.spec_free_list()[b] by {
                    assert(r.spec_free_list()[a] == FrameId(a as usize));
                    assert(r.spec_free_list()[b] == FrameId(b as usize));
                }
            }
            assert forall|i2: int|
                0 <= i2 < r.spec_frames().len() && !(#[trigger] r.spec_frames()[i2]).spec_loaded()
                implies r.spec_free_list().contains(FrameId(i2 as usize)) by {
                assert(r.spec_free_list()[i2] == FrameId(i2 as usize));
            }
        }
        r
    }

    /// The number of frames in the pool.
    pub fn pool_size(&self) -> (r: usize)
        ensures
            r == self.spec_pool_size(),
    {
        self.pool_size
    }

    /// The number of empty frames on the free list.
    pub fn free_frame_count(&self) -> (r: usize)
        ensures
            r == self.spec_free_list().len(),
    {
        self.free_list.len()
    }

    /// The number of pages currently held in the pool.
    pub fn page_count(&self) -> (r: usize)
        requires
            self.wf(),
        ensures
            r == count_loaded(self.spec_frames()),
    {
        self.pool_size - self.free_list.len()
    }

    /// The statistics counters.
    pub fn stats(&self) -> (r: &BufferPoolStats)
        ensures
            *r == self.spec_stats(),
    {
        &self.stats
    }

    /// Give up the pool and hand back the backing store. Dirty pages
    /// that were not flushed are lost, as when a pool is dropped.
    pub fn into_disk_manager(self) -> (r: DiskManager)
        ensures
            r@ == self.spec_disk(),
            self.wf() ==> r.wf(),
    {
        self.disk_manager
    }

    /// Find the frame holding a page, scanning the identity slots.
    fn find_frame(&self, page_id: PageId) -> (r: Option<usize>)
        requires
            self.wf(),
        ensures
            match r {
                Some(i) => {
                    &&& i < self.spec_frames().len()
                    &&& self.spec_frames()[i as int].spec_page_id() == Some(page_id)
                    &&& self.resident(page_id)
                    &&& self.frame_of(page_id) == i
                },
                None => !self.resident(page_id),
            },
    {
        let mut i: usize = 0;
        while i < self.frames.len()
            invariant
                self.wf(),
                i <= self.spec_frames().len(),
                forall|k: int|
                    0 <= k < i ==> (#[trigger] self.spec_frames()[k]).spec_page_id() != Some(
                        page_id,
                    ),
            decreases self.spec_frames().len() - i,
        {
            let fid = self.frames[i].page_id();
            match fid {
                Some(p) => {
                    if p == page_id {
                        proof {
                            assert(self.spec_frames()[i as int].spec_page_id() == Some(page_id));
                            let j = self.frame_of(page_id);
                            assert(0 <= j < self.spec_frames().len() && self.spec_frames()[
                                j
                            ].spec_page_id() == Some(page_id));
                            if j != i as int {
                                assert(false);
                            }
                        }
                        return Some(i);
                    }
                },
                None => {},
            }
            i += 1;
        }
        proof {
            if self.resident(page_id) {
                let j = choose|j: int|
                    0 <= j < self.spec_frames().len() && (
                    #[trigger] self.spec_frames()[j]).spec_page_id() == Some(page_id);
                assert(self.spec_frames()[j].spec_page_id() != Some(page_id));
            }
        }
        None
    }

    /// Whether a page is currently resident in the pool.
    pub fn contains_page(&self, page_id: PageId) -> (r: bool)
        requires
            self.wf(),
        ensures
            r == self.resident(page_id),
    {
        self.find_frame(page_id).is_some()
    }

    /// The pin count of a resident page, or `None` when the page is
    /// not in the pool.
    pub fn get_pin_count(&self, page_id: PageId) -> (r: Option<u32>)
        requires
            self.wf(),
        ensures
            self.resident(page_id) ==> r == Some(
                self.spec_frames()[self.frame_of(page_id)].spec_pin_count(),
            ),
            !self.resident(page_id) ==> r is None,
    {
        match self.find_frame(page_id) {
            Some(i) => Some(self.frames[i].pin_count()),
            None => None,
        }
    }

    /// All statistics counters are below their machine limit, so that
    /// one more event can be counted.
    pub open spec fn stats_ok(self) -> bool {
        &&& self.spec_stats().cache_hits < u64::MAX
        &&& self.spec_stats().cache_misses < u64::MAX
        &&& self.spec_stats().evictions < u64::MAX
        &&& self.spec_stats().pages_read < u64::MAX
        &&& self.spec_stats().pages_written < u64::MAX
    }

    /// What releasing one pin on frame `i` does: the pin count drops by
    /// one, the dirty flag is set if requested, the frame becomes
    /// evictable when the count reaches zero, and nothing else changes.
    pub open spec fn unpin_post(pre: Self, post: Self, i: int, mark_dirty: bool) -> bool {
        &&& frames_same_except(pre.spec_frames(), post.spec_frames(), i)
        &&& post.spec_frames()[i].spec_page() == pre.spec_frames()[i].spec_page()
        &&& post.spec_frames()[i].spec_page_id() == pre.spec_frames()[i].spec_page_id()
        &&& post.spec_frames()[i].spec_pin_count() == pre.spec_frames()[i].spec_pin_count() - 1
        &&& post.spec_frames()[i].spec_dirty() == (pre.spec_frames()[i].spec_dirty() || mark_dirty)
        &&& post.spec_free_list() == pre.spec_free_list()
        &&& post.spec_queue() == pre.spec_queue()
        &&& post.spec_evictable() == if post.spec_frames()[i].spec_pin_count() == 0 {
            pre.spec_evictable().insert(FrameId(i as usize))
        } else {
            pre.spec_evictable()
        }
        &&& post.spec_disk() == pre.spec_disk()
        &&& post.spec_stats() == pre.spec_stats()
        &&& post.spec_pool_size() == pre.spec_pool_size()
    }

    /// Release one pin on frame `i`, marking the frame dirty if asked,
    /// and mark it evictable when the pin count reaches zero. This is
    /// what a guard does when it is released.
    pub(crate) fn unpin_frame(&mut self, i: usize, mark_dirty: bool)
        requires
            old(self).wf(),
            i < old(self).spec_frames().len(),
            old(self).spec_frames()[i as int].spec_loaded(),
            old(self).spec_frames()[i as int].spec_pin_count() > 0,
        ensures
            final(self).wf(),
            Self::unpin_post(*old(self), *final(self), i as int, mark_dirty),
    {
        let fr = &mut self.frames[i];
        if mark_dirty {
            fr.mark_dirty();
        }
        let new_count = fr.unpin();
        if new_count == 0 {
            self.replacer.set_evictable(FrameId::new(i), true);
        }
        proof {
            let pre = *old(self);
            let post = *self;
            let n = post.spec_frames().len() as int;
            if new_count != 0 {
                assert(post.spec_evictable() =~= pre.spec_evictable());
            }
            assert forall|f: FrameId| #[trigger]
                post.spec_evictable().contains(f) <==> (f.0 < n && post.spec_frames()[
                f.0 as int
            ].spec_loaded() && post.spec_frames()[f.0 as int].spec_pin_count() == 0) by {
                assert(pre.spec_evictable().contains(f) <==> (f.0 < n && pre.spec_frames()[
                    f.0 as int
                ].spec_loaded() && pre.spec_frames()[f.0 as int].spec_pin_count() == 0));
                if f.0 < n && f.0 as int != i as int {
                    assert(post.spec_frames()[f.0 as int] == pre.spec_frames()[f.0 as int]);
                }
                if f.0 as int == i as int {
                    assert(f == FrameId(i));
                }
            }
            lemma_wf_update_loaded(pre, post, i as int);
        }
    }

    /// Borrow the bytes of the page held in frame `i`.
    pub(crate) fn page_slice_at(&self, i: usize) -> (s: &[u8])
        requires
            i < self.spec_frames().len(),
        ensures
            s@ == self.spec_frames()[i as int].spec_page(),
    {
        self.frames[i].page().as_slice()
    }

    /// Borrow the bytes of the page held in frame `i` mutably, marking
    /// the frame dirty. The returned slice has a fixed length, so the
    /// page keeps its size.
    pub(crate) fn writable_page_slice(&mut self, i: usize) -> (s: &mut [u8])
        requires
            old(self).wf(),
            i < old(self).spec_frames().len(),
            old(self).spec_frames()[i as int].spec_loaded(),
        ensures
            s@ == old(self).spec_frames()[i as int].spec_page(),
            frames_same_except(old(self).spec_frames(), final(self).spec_frames(), i as int),
            final(self).spec_frames()[i as int].spec_page() == final(s)@,
            final(self).spec_frames()[i as int].spec_page_id() == old(self).spec_frames()[
                i as int
            ].spec_page_id(),
            final(self).spec_frames()[i as int].spec_pin_count() == old(self).spec_frames()[
                i as int
            ].spec_pin_count(),
            final(self).spec_frames()[i as int].spec_dirty(),
            final(self).spec_free_list() == old(self).spec_free_list(),
            final(self).spec_queue() == old(self).spec_queue(),
            final(self).spec_evictable() == old(self).spec_evictable(),
            final(self).spec_replacer().wf() == old(self).spec_replacer().wf(),
            final(self).spec_disk() == old(self).spec_disk(),
            final(self).spec_stats() == old(self).spec_stats(),
            final(self).spec_pool_size() == old(self).spec_pool_size(),
    {
        let fr = &mut self.frames[i];
        fr.mark_dirty();
        let pg = fr.page_mut();
        pg.as_mut_slice()
    }

    /// The pool invariant survives a write through a page's byte
    /// slice: only the bytes of the (dirty, still loaded) frame `i`
    /// changed, and they kept the page size.
    pub proof fn lemma_wf_after_page_write(pre: Self, post: Self, i: int)
        requires
            pre.wf(),
            0 <= i < pre.spec_frames().len(),
            frames_same_except(pre.spec_frames(), post.spec_frames(), i),
            pre.spec_frames()[i].spec_loaded(),
            post.spec_frames()[i].spec_page().len() == pre.spec_frames()[i].spec_page().len(),
            post.spec_frames()[i].spec_page_id() == pre.spec_frames()[i].spec_page_id(),
            post.spec_frames()[i].spec_pin_count() == pre.spec_frames()[i].spec_pin_count(),
            post.spec_frames()[i].spec_dirty(),
            post.spec_free_list() == pre.spec_free_list(),
            post.spec_queue() == pre.spec_queue(),
            post.spec_evictable() == pre.spec_evictable(),
            post.spec_replacer().wf(),
            post.spec_disk() == pre.spec_disk(),
            post.spec_pool_size() == pre.spec_pool_size(),
        ensures
            post.wf(),
    {
        let n = pre.spec_frames().len() as int;
        assert(pre.spec_frames()[i].wf());
        assert(post.spec_frames()[i].wf());
        assert forall|f: FrameId| #[trigger]
            post.spec_evictable().contains(f) <==> (f.0 < n && post.spec_frames()[
            f.0 as int
        ].spec_loaded() && post.spec_frames()[f.0 as int].spec_pin_count() == 0) by {
            if f.0 < n && f.0 as int != i {
                assert(post.spec_frames()[f.0 as int] == pre.spec_frames()[f.0 as int]);
            }
        }
        lemma_wf_update_loaded(pre, post, i);
    }

    /// Ask the backing store to extend the database by one zeroed page
    /// and return the new page id. The buffer pool itself is untouched.
    pub fn allocate_page_id(&mut self) -> (r: Result<PageId, Error>)
        requires
            old(self).wf(),
            old(self).spec_disk().len() < u32::MAX,
        ensures
            final(self).wf(),
            r == Ok::<PageId, Error>(PageId(old(self).spec_disk().len() as u32)),
            final(self).spec_disk() == old(self).spec_disk().push(zero_page()),
            final(self).spec_frames() == old(self).spec_frames(),
            final(self).spec_free_list() == old(self).spec_free_list(),
            final(self).spec_queue() == old(self).spec_queue(),
            final(self).spec_evictable() == old(self).spec_evictable(),
            final(self).spec_stats() == old(self).spec_stats(),
            final(self).spec_pool_size() == old(self).spec_pool_size(),
    {
        let r = self.disk_manager.allocate_page();
        proof {
            let pre = *old(self);
            let post = *self;
            let n = post.spec_frames().len() as int;
            assert forall|j: int|
                0 <= j < n && (#[trigger] post.spec_frames()[j]).spec_loaded() && !post
                .spec_frames()[j].spec_dirty() implies post.spec_frames()[j].spec_page()
                == post.spec_disk()[pid_of(post.spec_frames()[j]) as int] by {
                assert(pid_of(pre.spec_frames()[j]) < pre.spec_disk().len());
                assert(post.spec_disk()[pid_of(post.spec_frames()[j]) as int] == pre.spec_disk()[
                    pid_of(pre.spec_frames()[j]) as int
                ]);
            }
            assert forall|f: FrameId| #[trigger]
                post.spec_queue().contains(f) <==> (f.0 < n && post.spec_frames()[
                f.0 as int
            ].spec_loaded()) by {
                assert(pre.spec_queue().contains(f) <==> (f.0 < n && pre.spec_frames()[
                    f.0 as int
                ].spec_loaded()));
            }
            assert forall|f: FrameId| #[trigger]
                post.spec_evictable().contains(f) <==> (f.0 < n && post.spec_frames()[
                f.0 as int
            ].spec_loaded() && post.spec_frames()[f.0 as int].spec_pin_count() == 0) by {
                assert(pre.spec_evictable().contains(f) <==> (f.0 < n && pre.spec_frames()[
                    f.0 as int
                ].spec_loaded() && pre.spec_frames()[f.0 as int].spec_pin_count() == 0));
            }
        }
        r
    }

    /// The two pool states are indistinguishable: every view (frames,
    /// free list, replacer, backing store, counters) is the same.
    pub open spec fn unchanged(pre: Self, post: Self) -> bool {
        &&& post.spec_frames() == pre.spec_frames()
        &&& post.spec_free_list() == pre.spec_free_list()
        &&& post.spec_queue() == pre.spec_queue()
        &&& post.spec_evictable() == pre.spec_evictable()
        &&& post.spec_replacer().wf() == pre.spec_replacer().wf()
        &&& post.spec_disk() == pre.spec_disk()
        &&& post.spec_stats() == pre.spec_stats()
        &&& post.spec_pool_size() == pre.spec_pool_size()
    }

    /// The frame a miss would use: the top of the free list, or else
    /// the replacer's victim.
    pub open spec fn chosen_frame(self) -> int {
        if self.spec_free_list().len() > 0 {
            self.spec_free_list().last().0 as int
        } else {
            first_evictable(self.spec_queue(), self.spec_evictable())->Some_0.0 as int
        }
    }

    /// Whether a miss would evict (the free list is empty).
    pub open spec fn evicts_on_miss(self) -> bool {
        self.spec_free_list().len() == 0
    }

    /// Whether a miss would write the victim back (it evicts a dirty
    /// frame).
    pub open spec fn writes_back_on_miss(self) -> bool {
        self.evicts_on_miss() && self.spec_frames()[self.chosen_frame()].spec_dirty()
    }

    /// What taking a frame for reuse does: the chosen frame is emptied
    /// (flushing it first when dirty), leaves the free list or the
    /// replacer, and the eviction counters advance.
    pub open spec fn take_frame_post(pre: Self, post: Self) -> bool {
        let i = pre.chosen_frame();
        &&& frames_same_except(pre.spec_frames(), post.spec_frames(), i)
        &&& !post.spec_frames()[i].spec_loaded()
        &&& post.spec_frames()[i].spec_pin_count() == 0
        &&& !post.spec_frames()[i].spec_dirty()
        &&& post.spec_frames()[i].spec_page() == pre.spec_frames()[i].spec_page()
        &&& post.spec_pool_size() == pre.spec_pool_size()
        &&& post.spec_stats() == stats_add(
            pre.spec_stats(),
            0,
            0,
            if pre.evicts_on_miss() {
                1
            } else {
                0
            },
            0,
            if pre.writes_back_on_miss() {
                1
            } else {
                0
            },
        )
        &&& if pre.evicts_on_miss() {
            let fei = first_evictable_index(pre.spec_queue(), pre.spec_evictable());
            &&& post.spec_free_list() == pre.spec_free_list()
            &&& post.spec_queue() == pre.spec_queue().remove(fei)
            &&& post.spec_evictable() == pre.spec_evictable().remove(FrameId(i as usize))
            &&& post.spec_disk() == if pre.writes_back_on_miss() {
                pre.spec_disk().update(
                    pid_of(pre.spec_frames()[i]) as int,
                    pre.spec_frames()[i].spec_page(),
                )
            } else {
                pre.spec_disk()
            }
        } else {
            &&& post.spec_free_list() == pre.spec_free_list().drop_last()
            &&& post.spec_queue() == pre.spec_queue()
            &&& post.spec_evictable() == pre.spec_evictable()
            &&& post.spec_disk() == pre.spec_disk()
        }
    }

    /// What a fetch of a resident page does: its frame gains one pin
    /// and stops being evictable, the hit counter advances, and
    /// nothing else changes.
    pub open spec fn fetch_hit_post(pre: Self, post: Self, pid: PageId) -> bool {
        let i = pre.frame_of(pid);
        &&& pre.resident(pid)
        &&& frames_same_except(pre.spec_frames(), post.spec_frames(), i)
        &&& post.spec_frames()[i].spec_page() == pre.spec_frames()[i].spec_page()
        &&& post.spec_frames()[i].spec_page_id() == Some(pid)
        &&& post.spec_frames()[i].spec_pin_count() == pre.spec_frames()[i].spec_pin_count() + 1
        &&& post.spec_frames()[i].spec_dirty() == pre.spec_frames()[i].spec_dirty()
        &&& post.resident(pid)
        &&& post.frame_of(pid) == i
        &&& post.spec_free_list() == pre.spec_free_list()
        &&& post.spec_queue() == pre.spec_queue()
        &&& post.spec_evictable() == pre.spec_evictable().remove(FrameId(i as usize))
        &&& post.spec_disk() == pre.spec_disk()
        &&& post.spec_stats() == stats_add(pre.spec_stats(), 1, 0, 0, 0, 0)
        &&& post.spec_pool_size() == pre.spec_pool_size()
    }

    /// What a fetch of an absent page does: the chosen frame (freed or
    /// evicted, with the dirty victim written back first) receives the
    /// page's bytes from the backing store with one pin, and the miss,
    /// read and eviction counters advance.
    pub open spec fn fetch_miss_post(pre: Self, post: Self, pid: PageId) -> bool {
        let i = pre.chosen_frame();
        &&& !pre.resident(pid)
        &&& frames_same_except(pre.spec_frames(), post.spec_frames(), i)
        &&& post.spec_frames()[i].spec_page_id() == Some(pid)
        &&& post.spec_frames()[i].spec_pin_count() == 1
        &&& !post.spec_frames()[i].spec_dirty()
        &&& post.spec_frames()[i].spec_page() == pre.spec_disk()[pid.0 as int]
        &&& post.resident(pid)
        &&& post.frame_of(pid) == i
        &&& if pre.evicts_on_miss() {
            let fei = first_evictable_index(pre.spec_queue(), pre.spec_evictable());
            &&& post.spec_free_list() == pre.spec_free_list()
            &&& post.spec_queue() == pre.spec_queue().remove(fei).push(FrameId(i as usize))
            &&& post.spec_disk() == if pre.writes_back_on_miss() {
                pre.spec_disk().update(
                    pid_of(pre.spec_frames()[i]) as int,
                    pre.spec_frames()[i].spec_page(),
                )
            } else {
                pre.spec_disk()
            }
        } else {
            &&& post.spec_free_list() == pre.spec_free_list().drop_last()
            &&& post.spec_queue() == pre.spec_queue().push(FrameId(i as usize))
            &&& post.spec_disk() == pre.spec_disk()
        }
        &&& post.spec_evictable() == pre.spec_evictable().remove(FrameId(i as usize))
        &&& post.spec_stats() == stats_add(
            pre.spec_stats(),
            0,
            1,
            if pre.evicts_on_miss() {
                1
            } else {
                0
            },
            1,
            if pre.writes_back_on_miss() {
                1
            } else {
                0
            },
        )
        &&& post.spec_pool_size() == pre.spec_pool_size()
    }

    /// What a failed fetch does: only the miss counter advances.
    pub open spec fn fetch_fail_post(pre: Self, post: Self) -> bool {
        &&& post.spec_frames() == pre.spec_frames()
        &&& post.spec_free_list() == pre.spec_free_list()
        &&& post.spec_queue() == pre.spec_queue()
        &&& post.spec_evictable() == pre.spec_evictable()
        &&& post.spec_disk() == pre.spec_disk()
        &&& post.spec_stats() == stats_add(pre.spec_stats(), 0, 1, 0, 0, 0)
        &&& post.spec_pool_size() == pre.spec_pool_size()
    }

    /// Bring a page into the pool (or find it there) and pin its
    /// frame, returning the frame index.
    fn fetch_frame(&mut self, page_id: PageId) -> (r: Result<usize, Error>)
        requires
            old(self).wf(),
            old(self).stats_ok(),
            old(self).resident(page_id) ==> old(self).spec_frames()[
                old(self).frame_of(page_id)
            ].spec_pin_count() < u32::MAX,
        ensures
            final(self).wf(),
            old(self).resident(page_id) ==> r == Ok::<usize, Error>(
                old(self).frame_of(page_id) as usize,
            ) && Self::fetch_hit_post(*old(self), *final(self), page_id),
            !old(self).resident(page_id) && !old(self).has_available_frame() ==> r == Err::<
                usize,
                Error,
            >(Error::NoFreeFrames) && Self::fetch_fail_post(*old(self), *final(self)),
            !old(self).resident(page_id) && old(self).has_available_frame() && page_id.0 >= old(
                self,
            ).spec_disk().len() ==> r == Err::<usize, Error>(Error::PageNotFound(page_id.0))
                && Self::fetch_fail_post(*old(self), *final(self)),
            !old(self).resident(page_id) && old(self).has_available_frame() && page_id.0 < old(
                self,
            ).spec_disk().len() ==> r == Ok::<usize, Error>(old(self).chosen_frame() as usize)
                && Self::fetch_miss_post(*old(self), *final(self), page_id),
    {
        let ghost pre = *old(self);
        let found = self.find_frame(page_id);
        match found {
            Some(i) => {
                let fr = &mut self.frames[i];
                let _new_count = fr.pin();
                self.replacer.record_access(FrameId::new(i), page_id);
                self.replacer.set_evictable(FrameId::new(i), false);
                self.stats.cache_hits = self.stats.cache_hits + 1;
                proof {
                    let post = *self;
                    let n = frame_count(post);
                    assert(pre.spec_queue().contains(FrameId(i as usize)) <==> (i < n
                        && pre.spec_frames()[i as int].spec_loaded()));
                    assert(post.spec_queue() == pre.spec_queue());
                    assert forall|f: FrameId| #[trigger]
                        post.spec_evictable().contains(f) <==> (f.0 < n && post.spec_frames()[
                        f.0 as int
                    ].spec_loaded() && post.spec_frames()[f.0 as int].spec_pin_count() == 0) by {
                        assert(pre.spec_evictable().contains(f) <==> (f.0 < n && pre.spec_frames()[
                            f.0 as int
                        ].spec_loaded() && pre.spec_frames()[f.0 as int].spec_pin_count() == 0));
                        if f.0 < n && f.0 as int != i as int {
                            assert(post.spec_frames()[f.0 as int] == pre.spec_frames()[f.0 as int]);
                        }
                        if f.0 as int == i as int {
                            assert(f == FrameId(i));
                        }
                    }
                    lemma_wf_update_loaded(pre, post, i as int);
                    assert(post.spec_frames()[i as int].spec_page_id() == Some(page_id));
                    assert(post.resident(page_id));
                    let j = post.frame_of(page_id);
                    assert(0 <= j < frame_count(post) && post.spec_frames()[j].spec_page_id()
                        == Some(page_id));
                    if j != i as int {
                        assert(false);
                    }
                }
                Ok(i)
            },
            None => {
                self.stats.cache_misses = self.stats.cache_misses + 1;
                let ghost mid = *self;
                proof {
                    assert(mid.wf());
                }
                let available = if self.free_list.len() > 0 {
                    true
                } else {
                    self.replacer.peek_victim().is_some()
                };
                if !available {
                    return Err(Error::NoFreeFrames);
                }
                let page_count = self.disk_manager.page_count();
                if page_id.0 >= page_count {
                    return Err(Error::PageNotFound(page_id.0));
                }
                let taken = self.take_frame();
                let i = match taken {
                    Ok(i) => i,
                    Err(e) => {
                        proof {
                            assert(false);
                        }
                        return Err(e);
                    },
                };
                let ghost tstate = *self;
                proof {
                    // the victim's page id differed from the requested one,
                    // so its write-back left the requested slot alone
                    if mid.evicts_on_miss() && mid.writes_back_on_miss() {
                        let c = mid.chosen_frame();
                        assert(mid.spec_frames()[c].spec_page_id() == Some(
                            PageId(pid_of(mid.spec_frames()[c])),
                        ));
                        assert(mid.resident(PageId(pid_of(mid.spec_frames()[c]))));
                        assert(pid_of(mid.spec_frames()[c]) != page_id.0);
                    }
                    assert(tstate.spec_disk()[page_id.0 as int] == mid.spec_disk()[
                        page_id.0 as int
                    ]);
                    assert(tstate.spec_disk().len() == mid.spec_disk().len());
                }
                let disk_page = match self.disk_manager.read_page(page_id) {
                    Ok(p) => p,
                    Err(_) => {
                        proof {
                            assert(false);
                        }
                        return Err(Error::PageNotFound(page_id.0));
                    },
                };
                let fr = &mut self.frames[i];
                fr.install_page(disk_page);
                fr.set_page_id(Some(page_id));
                let _one = fr.pin();
                proof {
                    assert(!tstate.spec_queue().contains(FrameId(i)));
                }
                self.replacer.record_access(FrameId::new(i), page_id);
                self.replacer.set_evictable(FrameId::new(i), false);
                self.stats.pages_read = self.stats.pages_read + 1;
                proof {
                    let post = *self;
                    let h = i as int;
                    assert forall|j: int|
                        0 <= j < frame_count(tstate) && j != h implies (
                    #[trigger] tstate.spec_frames()[j]).spec_page_id() != Some(page_id) by {
                        if tstate.spec_frames()[j].spec_page_id() == Some(page_id) {
                            assert(pre.spec_frames()[j].spec_page_id() == Some(page_id));
                            assert(pre.resident(page_id));
                        }
                    }
                    lemma_wf_fill_hole(tstate, post, h, page_id);
                    assert(post.spec_frames()[h].spec_page_id() == Some(page_id));
                    assert(post.resident(page_id));
                    let j = post.frame_of(page_id);
                    assert(0 <= j < frame_count(post) && post.spec_frames()[j].spec_page_id()
                        == Some(page_id));
                    if j != h {
                        assert(false);
                    }
                    assert(post.spec_queue() =~= tstate.spec_queue().push(FrameId(i)));
                    assert(Self::fetch_miss_post(pre, post, page_id)) by {
                        assert(post.spec_evictable() =~= pre.spec_evictable().remove(
                            FrameId(i),
                        ));
                        assert(post.spec_stats() == stats_add(
                            pre.spec_stats(),
                            0,
                            1,
                            if pre.evicts_on_miss() {
                                1int
                            } else {
                                0int
                            },
                            1,
                            if pre.writes_back_on_miss() {
                                1int
                            } else {
                                0int
                            },
                        ));
                    }
                }
                Ok(i)
            },
        }
    }

    /// Fetch a page for reading: on a hit the resident frame is
    /// pinned; on a miss the page is loaded from the backing store
    /// into a free or victim frame. Fails with `NoFreeFrames` when the
    /// pool is exhausted and with `PageNotFound` when the page does
    /// not exist on the backing store.
    pub fn fetch_page_read(&mut self, page_id: PageId) -> (r: Result<PageReadGuard, Error>)
        requires
            old(self).wf(),
            old(self).stats_ok(),
            old(self).resident(page_id) ==> old(self).spec_frames()[
                old(self).frame_of(page_id)
            ].spec_pin_count() < u32::MAX,
        ensures
            final(self).wf(),
            r is Ok <==> (old(self).resident(page_id) || (old(self).has_available_frame()
                && page_id.0 < old(self).spec_disk().len())),
            r matches Ok(g) ==> {
                &&& !g.spec_dropped()
                &&& g.spec_page_id() == page_id
                &&& g.spec_frame_id().0 as int == final(self).frame_of(page_id)
                &&& g.attached(*final(self))
            },
            old(self).resident(page_id) ==> Self::fetch_hit_post(
                *old(self),
                *final(self),
                page_id,
            ),
            !old(self).resident(page_id) && !old(self).has_available_frame() ==> r == Err::<
                PageReadGuard,
                Error,
            >(Error::NoFreeFrames) && Self::fetch_fail_post(*old(self), *final(self)),
            !old(self).resident(page_id) && old(self).has_available_frame() && page_id.0 >= old(
                self,
            ).spec_disk().len() ==> r == Err::<PageReadGuard, Error>(
                Error::PageNotFound(page_id.0),
            ) && Self::fetch_fail_post(*old(self), *final(self)),
            !old(self).resident(page_id) && old(self).has_available_frame() && page_id.0 < old(
                self,
            ).spec_disk().len() ==> Self::fetch_miss_post(*old(self), *final(self), page_id),
    {
        match self.fetch_frame(page_id) {
            Ok(i) => Ok(PageReadGuard::new(page_id, FrameId::new(i))),
            Err(e) => Err(e),
        }
    }

    /// Fetch a page for writing; as `fetch_page_read`, but the guard
    /// marks the frame dirty when written through or released.
    pub fn fetch_page_write(&mut self, page_id: PageId) -> (r: Result<PageWriteGuard, Error>)
        requires
            old(self).wf(),
            old(self).stats_ok(),
            old(self).resident(page_id) ==> old(self).spec_frames()[
                old(self).frame_of(page_id)
            ].spec_pin_count() < u32::MAX,
        ensures
            final(self).wf(),
            r is Ok <==> (old(self).resident(page_id) || (old(self).has_available_frame()
                && page_id.0 < old(self).spec_disk().len())),
            r matches Ok(g) ==> {
                &&& !g.spec_dropped()
                &&& g.spec_page_id() == page_id
                &&& g.spec_frame_id().0 as int == final(self).frame_of(page_id)
                &&& g.attached(*final(self))
            },
            old(self).resident(page_id) ==> Self::fetch_hit_post(
                *old(self),
                *final(self),
                page_id,
            ),
            !old(self).resident(page_id) && !old(self).has_available_frame() ==> r == Err::<
                PageWriteGuard,
                Error,
            >(Error::NoFreeFrames) && Self::fetch_fail_post(*old(self), *final(self)),
            !old(self).resident(page_id) && old(self).has_available_frame() && page_id.0 >= old(
                self,
            ).spec_disk().len() ==> r == Err::<PageWriteGuard, Error>(
                Error::PageNotFound(page_id.0),
            ) && Self::fetch_fail_post(*old(self), *final(self)),
            !old(self).resident(page_id) && old(self).has_available_frame() && page_id.0 < old(
                self,
            ).spec_disk().len() ==> Self::fetch_miss_post(*old(self), *final(self), page_id),
    {
        match self.fetch_frame(page_id) {
            Ok(i) => Ok(PageWriteGuard::new(page_id, FrameId::new(i))),
            Err(e) => Err(e),
        }
    }

    /// As `fetch_page_read`, returning `None` instead of an error.
    pub fn checked_read_page(&mut self, page_id: PageId) -> (r: Option<PageReadGuard>)
        requires
            old(self).wf(),
            old(self).stats_ok(),
            old(self).resident(page_id) ==> old(self).spec_frames()[
                old(self).frame_of(page_id)
            ].spec_pin_count() < u32::MAX,
        ensures
            final(self).wf(),
            r is Some <==> (old(self).resident(page_id) || (old(self).has_available_frame()
                && page_id.0 < old(self).spec_disk().len())),
            r matches Some(g) ==> {
                &&& !g.spec_dropped()
                &&& g.spec_page_id() == page_id
                &&& g.spec_frame_id().0 as int == final(self).frame_of(page_id)
                &&& g.attached(*final(self))
            },
            old(self).resident(page_id) ==> Self::fetch_hit_post(
                *old(self),
                *final(self),
                page_id,
            ),
            !old(self).resident(page_id) && !(old(self).has_available_frame() && page_id.0 < old(
                self,
            ).spec_disk().len()) ==> r is None && Self::fetch_fail_post(*old(self), *final(self)),
            !old(self).resident(page_id) && old(self).has_available_frame() && page_id.0 < old(
                self,
            ).spec_disk().len() ==> Self::fetch_miss_post(*old(self), *final(self), page_id),
    {
        match self.fetch_page_read(page_id) {
            Ok(g) => Some(g),
            Err(_) => None,
        }
    }

    /// As `fetch_page_write`, returning `None` instead of an error.
    pub fn checked_write_page(&mut self, page_id: PageId) -> (r: Option<PageWriteGuard>)
        requires
            old(self).wf(),
            old(self).stats_ok(),
            old(self).resident(page_id) ==> old(self).spec_frames()[
                old(self).frame_of(page_id)
            ].spec_pin_count() < u32::MAX,
        ensures
            final(self).wf(),
            r is Some <==> (old(self).resident(page_id) || (old(self).has_available_frame()
                && page_id.0 < old(self).spec_disk().len())),
            r matches Some(g) ==> {
                &&& !g.spec_dropped()
                &&& g.spec_page_id() == page_id
                &&& g.spec_frame_id().0 as int == final(self).frame_of(page_id)
                &&& g.attached(*final(self))
            },
            old(self).resident(page_id) ==> Self::fetch_hit_post(
                *old(self),
                *final(self),
                page_id,
            ),
            !old(self).resident(page_id) && !(old(self).has_available_frame() && page_id.0 < old(
                self,
            ).spec_disk().len()) ==> r is None && Self::fetch_fail_post(*old(self), *final(self)),
            !old(self).resident(page_id) && old(self).has_available_frame() && page_id.0 < old(
                self,
            ).spec_disk().len() ==> Self::fetch_miss_post(*old(self), *final(self), page_id),
    {
        match self.fetch_page_write(page_id) {
            Ok(g) => Some(g),
            Err(_) => None,
        }
    }

    /// What installing a brand-new page does: the backing store grew
    /// by one zeroed page, the chosen frame holds it zero-filled with
    /// one pin, the victim (if any) was written back, and the eviction
    /// counters advance. The hit, miss and read counters do not move.
    pub open spec fn new_page_post(pre: Self, post: Self) -> bool {
        let pid = PageId(pre.spec_disk().len() as u32);
        let i = pre.chosen_frame();
        &&& frames_same_except(pre.spec_frames(), post.spec_frames(), i)
        &&& post.spec_frames()[i].spec_page_id() == Some(pid)
        &&& post.spec_frames()[i].spec_pin_count() == 1
        &&& !post.spec_frames()[i].spec_dirty()
        &&& post.spec_frames()[i].spec_page() == zero_page()
        &&& post.resident(pid)
        &&& post.frame_of(pid) == i
        &&& if pre.evicts_on_miss() {
            let fei = first_evictable_index(pre.spec_queue(), pre.spec_evictable());
            &&& post.spec_free_list() == pre.spec_free_list()
            &&& post.spec_queue() == pre.spec_queue().remove(fei).push(FrameId(i as usize))
            &&& post.spec_disk() == if pre.writes_back_on_miss() {
                pre.spec_disk().push(zero_page()).update(
                    pid_of(pre.spec_frames()[i]) as int,
                    pre.spec_frames()[i].spec_page(),
                )
            } else {
                pre.spec_disk().push(zero_page())
            }
        } else {
            &&& post.spec_free_list() == pre.spec_free_list().drop_last()
            &&& post.spec_queue() == pre.spec_queue().push(FrameId(i as usize))
            &&& post.spec_disk() == pre.spec_disk().push(zero_page())
        }
        &&& post.spec_evictable() == pre.spec_evictable().remove(FrameId(i as usize))
        &&& post.spec_stats() == stats_add(
            pre.spec_stats(),
            0,
            0,
            if pre.evicts_on_miss() {
                1
            } else {
                0
            },
            0,
            if pre.writes_back_on_miss() {
                1
            } else {
                0
            },
        )
        &&& post.spec_pool_size() == pre.spec_pool_size()
    }

    /// Allocate a brand-new page on the backing store and install it
    /// in the pool zero-filled, returning a write guard on it. When no
    /// frame can be obtained the freshly allocated page id leaks on
    /// the backing store and `NoFreeFrames` is returned.
    pub fn new_page(&mut self) -> (r: Result<PageWriteGuard, Error>)
        requires
            old(self).wf(),
            old(self).stats_ok(),
            old(self).spec_disk().len() < u32::MAX,
        ensures
            final(self).wf(),
            r is Ok <==> old(self).has_available_frame(),
            r matches Ok(g) ==> {
                &&& !g.spec_dropped()
                &&& g.spec_page_id() == PageId(old(self).spec_disk().len() as u32)
                &&& g.spec_frame_id().0 as int == old(self).chosen_frame()
                &&& g.attached(*final(self))
                &&& Self::new_page_post(*old(self), *final(self))
            },
            !old(self).has_available_frame() ==> {
                &&& r == Err::<PageWriteGuard, Error>(Error::NoFreeFrames)
                &&& final(self).spec_frames() == old(self).spec_frames()
                &&& final(self).spec_free_list() == old(self).spec_free_list()
                &&& final(self).spec_queue() == old(self).spec_queue()
                &&& final(self).spec_evictable() == old(self).spec_evictable()
                &&& final(self).spec_stats() == old(self).spec_stats()
                &&& final(self).spec_disk() == old(self).spec_disk().push(zero_page())
                &&& final(self).spec_pool_size() == old(self).spec_pool_size()
            },
    {
        let ghost pre = *old(self);
        let page_id = match self.allocate_page_id() {
            Ok(p) => p,
            Err(e) => {
                proof {
                    assert(false);
                }
                return Err(e);
            },
        };
        let ghost mid = *self;
        let taken = self.take_frame();
        let i = match taken {
            Ok(i) => i,
            Err(e) => {
                return Err(e);
            },
        };
        let ghost tstate = *self;
        let fr = &mut self.frames[i];
        let pg = fr.page_mut();
        pg.reset();
        fr.set_page_id(Some(page_id));
        let _one = fr.pin();
        proof {
            assert(!tstate.spec_queue().contains(FrameId(i)));
        }
        self.replacer.record_access(FrameId::new(i), page_id);
        self.replacer.set_evictable(FrameId::new(i), false);
        proof {
            let post = *self;
            let h = i as int;
            assert forall|j: int|
                0 <= j < frame_count(tstate) && j != h implies (
            #[trigger] tstate.spec_frames()[j]).spec_page_id() != Some(page_id) by {
                if tstate.spec_frames()[j].spec_loaded() {
                    assert(tstate.spec_frames()[j] == mid.spec_frames()[j]);
                    assert(mid.spec_frames()[j] == pre.spec_frames()[j]);
                    assert(pid_of(pre.spec_frames()[j]) < pre.spec_disk().len());
                }
            }
            assert(tstate.spec_disk()[page_id.0 as int] == zero_page()) by {
                if mid.evicts_on_miss() && mid.writes_back_on_miss() {
                    let c = mid.chosen_frame();
                    assert(pid_of(mid.spec_frames()[c]) < pre.spec_disk().len());
                }
                assert(mid.spec_disk()[page_id.0 as int] == zero_page());
            }
            lemma_wf_fill_hole(tstate, post, h, page_id);
            assert(post.spec_frames()[h].spec_page_id() == Some(page_id));
            assert(post.resident(page_id));
            let j = post.frame_of(page_id);
            assert(0 <= j < frame_count(post) && post.spec_frames()[j].spec_page_id() == Some(
                page_id,
            ));
            if j != h {
                assert(false);
            }
            assert(post.spec_queue() =~= tstate.spec_queue().push(FrameId(i)));
            assert(Self::new_page_post(pre, post)) by {
                assert(post.spec_evictable() =~= pre.spec_evictable().remove(FrameId(i)));
                assert(post.spec_stats() == stats_add(
                    pre.spec_stats(),
                    0,
                    0,
                    if pre.evicts_on_miss() {
                        1int
                    } else {
                        0int
                    },
                    0,
                    if pre.writes_back_on_miss() {
                        1int
                    } else {
                        0int
                    },
                ));
            }
        }
        Ok(PageWriteGuard::new(page_id, FrameId::new(i)))
    }

    /// What deleting a resident, unpinned page does: its frame is
    /// emptied (keeping its bytes) and returns to the free list, and
    /// the replacer forgets it. The backing store and the counters are
    /// untouched.
    pub open spec fn delete_post(pre: Self, post: Self, pid: PageId) -> bool {
        let i = pre.frame_of(pid);
        &&& frames_same_except(pre.spec_frames(), post.spec_frames(), i)
        &&& !post.spec_frames()[i].spec_loaded()
        &&& post.spec_frames()[i].spec_pin_count() == 0
        &&& !post.spec_frames()[i].spec_dirty()
        &&& post.spec_frames()[i].spec_page() == pre.spec_frames()[i].spec_page()
        &&& !post.resident(pid)
        &&& post.spec_free_list() == pre.spec_free_list().push(FrameId(i as usize))
        &&& forall|g: FrameId|
            #[trigger] post.spec_queue().contains(g) <==> (pre.spec_queue().contains(g) && g
                != FrameId(i as usize))
        &&& post.spec_evictable() == pre.spec_evictable().remove(FrameId(i as usize))
        &&& post.spec_disk() == pre.spec_disk()
        &&& post.spec_stats() == pre.spec_stats()
        &&& post.spec_pool_size() == pre.spec_pool_size()
    }

    /// Delete a page from the pool (not from the backing store).
    /// Deleting a non-resident page succeeds and changes nothing;
    /// deleting a pinned page fails with `PageNotPinned` and changes
    /// nothing. A dirty page is discarded without write-back.
    pub fn delete_page(&mut self, page_id: PageId) -> (r: Result<(), Error>)
        requires
            old(self).wf(),
        ensures
            final(self).wf(),
            !old(self).resident(page_id) ==> r == Ok::<(), Error>(()) && Self::unchanged(
                *old(self),
                *final(self),
            ),
            old(self).resident(page_id) && old(self).spec_frames()[
                old(self).frame_of(page_id)
            ].spec_pin_count() > 0 ==> r == Err::<(), Error>(Error::PageNotPinned(page_id.0))
                && Self::unchanged(*old(self), *final(self)),
            old(self).resident(page_id) && old(self).spec_frames()[
                old(self).frame_of(page_id)
            ].spec_pin_count() == 0 ==> r == Ok::<(), Error>(()) && Self::delete_post(
                *old(self),
                *final(self),
                page_id,
            ),
    {
        let ghost pre = *old(self);
        let found = self.find_frame(page_id);
        match found {
            None => Ok(()),
            Some(i) => {
                if self.frames[i].pin_count() > 0 {
                    return Err(Error::PageNotPinned(page_id.0));
                }
                let fr = &mut self.frames[i];
                fr.set_page_id(None);
                fr.clear_dirty();
                self.replacer.remove(FrameId::new(i));
                proof {
                    assert(!pre.spec_free_list().contains(FrameId(i))) by {
                        if pre.spec_free_list().contains(FrameId(i)) {
                            let k = choose|k: int|
                                0 <= k < pre.spec_free_list().len() && pre.spec_free_list()[k]
                                    == FrameId(i);
                            assert(!pre.spec_frames()[
                                pre.spec_free_list()[k].0 as int
                            ].spec_loaded());
                        }
                    }
                }
                self.free_list.push(FrameId::new(i));
                proof {
                    let post = *self;
                    let h = i as int;
                    let n = frame_count(post);
                    let freep = post.spec_free_list();
                    assert forall|j: int| 0 <= j < n implies (#[trigger] post.spec_frames()[j]).wf()
                        by {
                        if j != h {
                            assert(post.spec_frames()[j] == pre.spec_frames()[j]);
                        }
                    }
                    assert forall|a: int, b: int|
                        0 <= a < freep.len() && 0 <= b < freep.len() && a != b implies freep[a]
                        != freep[b] by {
                        if a < freep.len() - 1 && b < freep.len() - 1 {
                            assert(freep[a] == pre.spec_free_list()[a]);
                            assert(freep[b] == pre.spec_free_list()[b]);
                        } else if a == freep.len() - 1 {
                            assert(freep[b] == pre.spec_free_list()[b]);
                            if freep[a] == freep[b] {
                                assert(pre.spec_free_list().contains(FrameId(i)));
                            }
                        } else {
                            assert(freep[a] == pre.spec_free_list()[a]);
                            if freep[a] == freep[b] {
                                assert(pre.spec_free_list().contains(FrameId(i)));
                            }
                        }
                    }
                    assert forall|k: int| 0 <= k < freep.len() implies (#[trigger] freep[k]).0 < n
                        && !post.spec_frames()[freep[k].0 as int].spec_loaded() by {
                        if k < freep.len() - 1 {
                            assert(freep[k] == pre.spec_free_list()[k]);
                            assert(!pre.spec_frames()[
                                pre.spec_free_list()[k].0 as int
                            ].spec_loaded());
                            assert(pre.spec_free_list()[k].0 as int != h);
                        } else {
                            assert(freep[k] == FrameId(i));
                        }
                    }
                    assert forall|j: int|
                        0 <= j < n && !(#[trigger] post.spec_frames()[j]).spec_loaded()
                        implies freep.contains(FrameId(j as usize)) && post.spec_frames()[
                        j
                    ].spec_pin_count() == 0 && !post.spec_frames()[j].spec_dirty() by {
                        if j != h {
                            assert(post.spec_frames()[j] == pre.spec_frames()[j]);
                            assert(pre.spec_free_list().contains(FrameId(j as usize)));
                            let k = choose|k: int|
                                0 <= k < pre.spec_free_list().len() && pre.spec_free_list()[k]
                                    == FrameId(j as usize);
                            assert(freep[k] == FrameId(j as usize));
                        } else {
                            assert(freep[freep.len() - 1] == FrameId(j as usize));
                        }
                    }
                    assert forall|a: int, b: int|
                        0 <= a < n && 0 <= b < n && a != b && (
                        #[trigger] post.spec_frames()[a]).spec_loaded() && (
                        #[trigger] post.spec_frames()[b]).spec_loaded() implies post.spec_frames()[
                        a
                    ].spec_page_id() != post.spec_frames()[b].spec_page_id() by {
                        assert(a != h && b != h);
                        assert(post.spec_frames()[a] == pre.spec_frames()[a]);
                        assert(post.spec_frames()[b] == pre.spec_frames()[b]);
                    }
                    assert forall|g: FrameId| #[trigger]
                        post.spec_queue().contains(g) <==> (g.0 < n && post.spec_frames()[
                        g.0 as int
                    ].spec_loaded()) by {
                        assert(pre.spec_queue().contains(g) <==> (g.0 < n && pre.spec_frames()[
                            g.0 as int
                        ].spec_loaded()));
                        if g.0 < n && g.0 as int != h {
                            assert(post.spec_frames()[g.0 as int] == pre.spec_frames()[g.0 as int]);
                        }
                        if g.0 as int == h {
                            assert(g == FrameId(i));
                        }
                    }
                    assert forall|f: FrameId| #[trigger]
                        post.spec_evictable().contains(f) <==> (f.0 < n && post.spec_frames()[
                        f.0 as int
                    ].spec_loaded() && post.spec_frames()[f.0 as int].spec_pin_count() == 0) by {
                        assert(pre.spec_evictable().contains(f) <==> (f.0 < n && pre.spec_frames()[
                            f.0 as int
                        ].spec_loaded() && pre.spec_frames()[f.0 as int].spec_pin_count() == 0));
                        if f.0 < n && f.0 as int != h {
                            assert(post.spec_frames()[f.0 as int] == pre.spec_frames()[f.0 as int]);
                        }
                        if f.0 as int == h {
                            assert(f == FrameId(i));
                        }
                    }
                    assert forall|j: int|
                        0 <= j < n && (#[trigger] post.spec_frames()[j]).spec_loaded() implies
                        pid_of(post.spec_frames()[j]) < post.spec_disk().len() && (!post
                        .spec_frames()[j].spec_dirty() ==> post.spec_frames()[j].spec_page()
                        == post.spec_disk()[pid_of(post.spec_frames()[j]) as int]) by {
                        assert(j != h);
                        assert(post.spec_frames()[j] == pre.spec_frames()[j]);
                    }
                    assert(post.spec_frames() == pre.spec_frames().update(
                        h,
                        post.spec_frames()[h],
                    )) by {
                        assert(post.spec_frames() =~= pre.spec_frames().update(
                            h,
                            post.spec_frames()[h],
                        ));
                    }
                    lemma_count_loaded_update(pre.spec_frames(), h, post.spec_frames()[h]);
                    assert(!post.resident(page_id)) by {
                        if post.resident(page_id) {
                            let j = choose|j: int|
                                0 <= j < n && (#[trigger] post.spec_frames()[j]).spec_page_id()
                                    == Some(page_id);
                            assert(j != h);
                            assert(pre.spec_frames()[j].spec_page_id() == Some(page_id));
                            assert(pre.frame_of(page_id) == h);
                            assert(pre.spec_frames()[h].spec_page_id() == Some(page_id));
                        }
                    }
                }
                Ok(())
            },
        }
    }

    /// Write frame `i`'s page to its slot of the backing store if it
    /// is dirty, and clear the dirty flag. Afterwards the slot holds
    /// the frame's bytes either way.
    fn flush_frame(&mut self, i: usize) -> (r: Result<(), Error>)
        requires
            old(self).wf(),
            i < old(self).spec_frames().len(),
            old(self).spec_frames()[i as int].spec_loaded(),
            old(self).spec_stats().pages_written < u64::MAX,
        ensures
            final(self).wf(),
            r == Ok::<(), Error>(()),
            frames_same_except(old(self).spec_frames(), final(self).spec_frames(), i as int),
            final(self).spec_frames()[i as int].spec_page() == old(self).spec_frames()[
                i as int
            ].spec_page(),
            final(self).spec_frames()[i as int].spec_page_id() == old(self).spec_frames()[
                i as int
            ].spec_page_id(),
            final(self).spec_frames()[i as int].spec_pin_count() == old(self).spec_frames()[
                i as int
            ].spec_pin_count(),
            !final(self).spec_frames()[i as int].spec_dirty(),
            final(self).spec_free_list() == old(self).spec_free_list(),
            final(self).spec_queue() == old(self).spec_queue(),
            final(self).spec_evictable() == old(self).spec_evictable(),
            final(self).spec_disk() == if old(self).spec_frames()[i as int].spec_dirty() {
                old(self).spec_disk().update(
                    pid_of(old(self).spec_frames()[i as int]) as int,
                    old(self).spec_frames()[i as int].spec_page(),
                )
            } else {
                old(self).spec_disk()
            },
            final(self).spec_disk()[pid_of(old(self).spec_frames()[i as int]) as int] == old(
                self,
            ).spec_frames()[i as int].spec_page(),
            final(self).spec_stats() == stats_add(
                old(self).spec_stats(),
                0,
                0,
                0,
                0,
                if old(self).spec_frames()[i as int].spec_dirty() {
                    1
                } else {
                    0
                },
            ),
            final(self).spec_pool_size() == old(self).spec_pool_size(),
    {
        let ghost pre = *old(self);
        if self.frames[i].is_dirty() {
            let pid = match self.frames[i].page_id() {
                Some(p) => p,
                None => {
                    proof {
                        assert(false);
                    }
                    return Err(Error::NoFreeFrames);
                },
            };
            let page_copy = self.frames[i].page().duplicate();
            let write_result = self.disk_manager.write_page(pid, &page_copy);
            match write_result {
                Ok(()) => {},
                Err(_) => {
                    proof {
                        assert(false);
                    }
                    return Err(Error::NoFreeFrames);
                },
            }
            let fr = &mut self.frames[i];
            fr.clear_dirty();
            self.stats.pages_written = self.stats.pages_written + 1;
            proof {
                lemma_wf_flush(pre, *self, i as int);
            }
        }
        Ok(())
    }

    /// Flush one page: if it is resident and dirty, write its bytes to
    /// the backing store and clear the dirty flag. Afterwards, if the
    /// page is resident, its slot on the backing store holds its
    /// current in-memory bytes. Flushing a non-resident page is a
    /// no-op. Pin counts and evictability are untouched.
    pub fn flush_page(&mut self, page_id: PageId) -> (r: Result<(), Error>)
        requires
            old(self).wf(),
            old(self).spec_stats().pages_written < u64::MAX,
        ensures
            final(self).wf(),
            r == Ok::<(), Error>(()),
            !old(self).resident(page_id) ==> Self::unchanged(*old(self), *final(self)),
            old(self).resident(page_id) ==> {
                let i = old(self).frame_of(page_id);
                &&& frames_same_except(old(self).spec_frames(), final(self).spec_frames(), i)
                &&& final(self).spec_frames()[i].spec_page() == old(self).spec_frames()[
                    i
                ].spec_page()
                &&& final(self).spec_frames()[i].spec_page_id() == Some(page_id)
                &&& final(self).spec_frames()[i].spec_pin_count() == old(self).spec_frames()[
                    i
                ].spec_pin_count()
                &&& !final(self).spec_frames()[i].spec_dirty()
                &&& final(self).spec_disk()[page_id.0 as int] == final(self).spec_frames()[
                    i
                ].spec_page()
                &&& final(self).spec_disk() == if old(self).spec_frames()[i].spec_dirty() {
                    old(self).spec_disk().update(
                        page_id.0 as int,
                        old(self).spec_frames()[i].spec_page(),
                    )
                } else {
                    old(self).spec_disk()
                }
                &&& final(self).spec_free_list() == old(self).spec_free_list()
                &&& final(self).spec_queue() == old(self).spec_queue()
                &&& final(self).spec_evictable() == old(self).spec_evictable()
                &&& final(self).spec_stats() == stats_add(
                    old(self).spec_stats(),
                    0,
                    0,
                    0,
                    0,
                    if old(self).spec_frames()[i].spec_dirty() {
                        1
                    } else {
                        0
                    },
                )
                &&& final(self).spec_pool_size() == old(self).spec_pool_size()
            },
    {
        let found = self.find_frame(page_id);
        match found {
            None => Ok(()),
            Some(i) => {
                proof {
                    assert(pid_of(self.spec_frames()[i as int]) == page_id.0);
                }
                self.flush_frame(i)
            },
        }
    }

    /// Flush every resident dirty page to the backing store. After the
    /// call no frame is dirty, and every resident page's slot on the
    /// backing store holds its current in-memory bytes. Pin counts and
    /// evictability are untouched.
    pub fn flush_all_pages(&mut self) -> (r: Result<(), Error>)
        requires
            old(self).wf(),
            old(self).spec_stats().pages_written + old(self).spec_pool_size() <= u64::MAX,
        ensures
            final(self).wf(),
            r == Ok::<(), Error>(()),
            final(self).spec_frames().len() == old(self).spec_frames().len(),
            forall|j: int|
                0 <= j < old(self).spec_frames().len() ==> {
                    &&& (#[trigger] final(self).spec_frames()[j]).spec_page() == old(
                        self,
                    ).spec_frames()[j].spec_page()
                    &&& final(self).spec_frames()[j].spec_page_id() == old(self).spec_frames()[
                        j
                    ].spec_page_id()
                    &&& final(self).spec_frames()[j].spec_pin_count() == old(self).spec_frames()[
                        j
                    ].spec_pin_count()
                    &&& !final(self).spec_frames()[j].spec_dirty()
                },
            forall|j: int|
                0 <= j < old(self).spec_frames().len() && (
                #[trigger] old(self).spec_frames()[j]).spec_loaded() ==> final(self).spec_disk()[
                    pid_of(old(self).spec_frames()[j]) as int
                ] == old(self).spec_frames()[j].spec_page(),
            final(self).spec_disk() == disk_after_flush(
                old(self).spec_frames(),
                old(self).spec_disk(),
                old(self).spec_frames().len() as int,
            ),
            final(self).spec_free_list() == old(self).spec_free_list(),
            final(self).spec_queue() == old(self).spec_queue(),
            final(self).spec_evictable() == old(self).spec_evictable(),
            final(self).spec_stats() == stats_add(
                old(self).spec_stats(),
                0,
                0,
                0,
                0,
                count_dirty(old(self).spec_frames()) as int,
            ),
            final(self).spec_pool_size() == old(self).spec_pool_size(),
    {
        let ghost pre = *old(self);
        let n = self.frames.len();
        let mut k: usize = 0;
        while k < n
            invariant
                pre.wf(),
                n == pre.spec_frames().len(),
                pre.spec_stats().pages_written + pre.spec_pool_size() <= u64::MAX,
                k <= n,
                self.wf(),
                self.spec_frames().len() == n,
                forall|j: int|
                    0 <= j < n ==> {
                        &&& (#[trigger] self.spec_frames()[j]).spec_page() == pre.spec_frames()[
                            j
                        ].spec_page()
                        &&& self.spec_frames()[j].spec_page_id() == pre.spec_frames()[
                            j
                        ].spec_page_id()
                        &&& self.spec_frames()[j].spec_pin_count() == pre.spec_frames()[
                            j
                        ].spec_pin_count()
                    },
                forall|j: int|
                    0 <= j < k ==> !(#[trigger] self.spec_frames()[j]).spec_dirty(),
                forall|j: int|
                    k <= j < n ==> (#[trigger] self.spec_frames()[j]).spec_dirty()
                        == pre.spec_frames()[j].spec_dirty(),
                self.spec_free_list() == pre.spec_free_list(),
                self.spec_queue() == pre.spec_queue(),
                self.spec_evictable() == pre.spec_evictable(),
                self.spec_disk() == disk_after_flush(pre.spec_frames(), pre.spec_disk(), k as int),
                self.spec_stats() == stats_add(
                    pre.spec_stats(),
                    0,
                    0,
                    0,
                    0,
                    count_dirty(pre.spec_frames().subrange(0, k as int)) as int,
                ),
                self.spec_pool_size() == pre.spec_pool_size(),
            decreases n - k,
        {
            proof {
                lemma_count_dirty_le_len(pre.spec_frames().subrange(0, k as int));
            }
            let loaded = self.frames[k].page_id().is_some();
            if loaded {
                match self.flush_frame(k) {
                    Ok(()) => {},
                    Err(e) => {
                        proof {
                            assert(false);
                        }
                        return Err(e);
                    },
                }
            }
            proof {
                let post = *self;
                assert(pre.spec_frames().subrange(0, k as int + 1).drop_last() =~= pre
                    .spec_frames().subrange(0, k as int));
                assert(pre.spec_frames().subrange(0, k as int + 1).last() == pre.spec_frames()[
                    k as int
                ]);
                assert(post.spec_disk() == disk_after_flush(
                    pre.spec_frames(),
                    pre.spec_disk(),
                    k as int + 1,
                ));
            }
            k += 1;
        }
        proof {
            let post = *self;
            assert(pre.spec_frames().subrange(0, n as int) =~= pre.spec_frames());
            assert forall|j: int|
                0 <= j < n && (#[trigger] pre.spec_frames()[j]).spec_loaded() implies post
                .spec_disk()[pid_of(pre.spec_frames()[j]) as int] == pre.spec_frames()[
                j
            ].spec_page() by {
                assert(post.spec_frames()[j].spec_loaded());
                assert(!post.spec_frames()[j].spec_dirty());
                assert(pid_of(post.spec_frames()[j]) == pid_of(pre.spec_frames()[j]));
                assert(post.spec_frames()[j].spec_page() == post.spec_disk()[pid_of(
                    post.spec_frames()[j],
                ) as int]);
            }
        }
        Ok(())
    }

    /// Take a frame for reuse: pop the free list, or else evict the
    /// replacer's victim, writing it back first when dirty. On
    /// `NoFreeFrames` nothing changes.
    fn take_frame(&mut self) -> (r: Result<usize, Error>)
        requires
            old(self).wf(),
            old(self).spec_stats().evictions < u64::MAX,
            old(self).spec_stats().pages_written < u64::MAX,
        ensures
            !old(self).has_available_frame() ==> r == Err::<usize, Error>(Error::NoFreeFrames)
                && Self::unchanged(*old(self), *final(self)) && final(self).wf(),
            old(self).has_available_frame() ==> {
                &&& r == Ok::<usize, Error>(old(self).chosen_frame() as usize)
                &&& final(self).wf_with_hole(old(self).chosen_frame())
                &&& Self::take_frame_post(*old(self), *final(self))
            },
    {
        let ghost pre = *old(self);
        let popped = self.free_list.pop();
        match popped {
            Some(fid) => {
                let i = fid.0;
                proof {
                    let post = *self;
                    let h = i as int;
                    let lastk = pre.spec_free_list().len() - 1;
                    assert(pre.spec_free_list()[lastk] == fid);
                    assert(!pre.spec_frames()[h].spec_loaded());
                    assert(pre.spec_frames()[h].spec_pin_count() == 0 && !pre.spec_frames()[
                        h
                    ].spec_dirty());
                    let freep = post.spec_free_list();
                    assert forall|a: int, b: int|
                        0 <= a < freep.len() && 0 <= b < freep.len() && a != b implies freep[a]
                        != freep[b] by {
                        assert(freep[a] == pre.spec_free_list()[a]);
                        assert(freep[b] == pre.spec_free_list()[b]);
                    }
                    assert forall|k: int| 0 <= k < freep.len() implies (#[trigger] freep[k]).0 < frame_count(post) && !post.spec_frames()[freep[k].0 as int].spec_loaded() && freep[
                        k
                    ].0 != h by {
                        assert(freep[k] == pre.spec_free_list()[k]);
                        assert(pre.spec_free_list()[k].0 < pre.spec_frames().len());
                        assert(!pre.spec_frames()[pre.spec_free_list()[k].0 as int].spec_loaded());
                        if freep[k].0 == i {
                            assert(freep[k] == fid);
                            assert(pre.spec_free_list()[k] == pre.spec_free_list()[lastk]);
                            assert(false);
                        }
                    }
                    assert forall|j: int|
                        0 <= j < frame_count(post) && j != h && !(
                        #[trigger] post.spec_frames()[j]).spec_loaded() implies freep.contains(
                        FrameId(j as usize),
                    ) by {
                        assert(pre.spec_free_list().contains(FrameId(j as usize)));
                        let k = choose|k: int|
                            0 <= k < pre.spec_free_list().len() && pre.spec_free_list()[k]
                                == FrameId(j as usize);
                        assert(k != lastk);
                        assert(freep[k] == FrameId(j as usize));
                    }
                }
                Ok(i)
            },
            None => {
                let victim = self.replacer.evict();
                match victim {
                    None => {
                        proof {
                            assert(Self::unchanged(pre, *self));
                            assert(!pre.has_available_frame());
                        }
                        Err(Error::NoFreeFrames)
                    },
                    Some(v) => {
                        let i = v.0;
                        proof {
                            assert(pre.spec_evictable().contains(v));
                            assert(v.0 < pre.spec_frames().len());
                            assert(pre.spec_frames()[v.0 as int].spec_loaded());
                            assert(pre.spec_frames()[v.0 as int].spec_pin_count() == 0);
                        }
                        let old_pid = match self.frames[i].page_id() {
                            Some(p) => p,
                            None => {
                                proof {
                                    assert(false);
                                }
                                return Err(Error::NoFreeFrames);
                            },
                        };
                        if self.frames[i].is_dirty() {
                            let page_copy = self.frames[i].page().duplicate();
                            let write_result = self.disk_manager.write_page(old_pid, &page_copy);
                            match write_result {
                                Ok(()) => {},
                                Err(_) => {
                                    proof {
                                        assert(false);
                                    }
                                    return Err(Error::NoFreeFrames);
                                },
                            }
                            let fr = &mut self.frames[i];
                            fr.clear_dirty();
                            self.stats.pages_written = self.stats.pages_written + 1;
                        }
                        let fr = &mut self.frames[i];
                        fr.set_page_id(None);
                        self.stats.evictions = self.stats.evictions + 1;
                        proof {
                            let post = *self;
                            let h = i as int;
                            let n = frame_count(post);
                            assert(pre.chosen_frame() == h);
                            assert forall|j: int| 0 <= j < n implies (
                            #[trigger] post.spec_frames()[j]).wf() by {
                                if j != h {
                                    assert(post.spec_frames()[j] == pre.spec_frames()[j]);
                                }
                            }
                            assert forall|k: int|
                                0 <= k < post.spec_free_list().len() implies (
                            #[trigger] post.spec_free_list()[k]).0 < n && !post.spec_frames()[
                                post.spec_free_list()[k].0 as int
                            ].spec_loaded() && post.spec_free_list()[k].0 != h by {
                                assert(!pre.spec_frames()[
                                    pre.spec_free_list()[k].0 as int
                                ].spec_loaded());
                                if pre.spec_free_list()[k].0 == i {
                                    assert(false);
                                }
                            }
                            assert forall|j: int|
                                0 <= j < n && j != h && !(
                                #[trigger] post.spec_frames()[j]).spec_loaded() implies post
                                .spec_free_list().contains(FrameId(j as usize)) by {
                                assert(post.spec_frames()[j] == pre.spec_frames()[j]);
                                assert(pre.spec_free_list().contains(FrameId(j as usize)));
                            }
                            assert forall|j: int|
                                0 <= j < n && !(#[trigger] post.spec_frames()[j]).spec_loaded()
                                implies post.spec_frames()[j].spec_pin_count() == 0 && !post
                                .spec_frames()[j].spec_dirty() by {
                                if j != h {
                                    assert(post.spec_frames()[j] == pre.spec_frames()[j]);
                                }
                            }
                            assert forall|a: int, b: int|
                                0 <= a < n && 0 <= b < n && a != b && (
                                #[trigger] post.spec_frames()[a]).spec_loaded() && (
                                #[trigger] post.spec_frames()[b]).spec_loaded() implies post
                                .spec_frames()[a].spec_page_id() != post.spec_frames()[
                                b
                            ].spec_page_id() by {
                                assert(a != h && b != h);
                                assert(post.spec_frames()[a] == pre.spec_frames()[a]);
                                assert(post.spec_frames()[b] == pre.spec_frames()[b]);
                            }
                            assert forall|g: FrameId| #[trigger]
                                post.spec_queue().contains(g) <==> (g.0 < n && post.spec_frames()[
                                g.0 as int
                            ].spec_loaded()) by {
                                assert(pre.spec_queue().contains(g) <==> (g.0 < n
                                    && pre.spec_frames()[g.0 as int].spec_loaded()));
                                if g.0 < n && g.0 as int != h {
                                    assert(post.spec_frames()[g.0 as int] == pre.spec_frames()[
                                        g.0 as int
                                    ]);
                                }
                                if g.0 as int == h {
                                    assert(g == v);
                                }
                            }
                            assert forall|f: FrameId| #[trigger]
                                post.spec_evictable().contains(f) <==> (f.0 < n
                                && post.spec_frames()[f.0 as int].spec_loaded()
                                && post.spec_frames()[f.0 as int].spec_pin_count() == 0) by {
                                assert(pre.spec_evictable().contains(f) <==> (f.0 < n
                                    && pre.spec_frames()[f.0 as int].spec_loaded()
                                    && pre.spec_frames()[f.0 as int].spec_pin_count() == 0));
                                if f.0 < n && f.0 as int != h {
                                    assert(post.spec_frames()[f.0 as int] == pre.spec_frames()[
                                        f.0 as int
                                    ]);
                                }
                                if f.0 as int == h {
                                    assert(f == v);
                                }
                            }
                            assert forall|j: int|
                                0 <= j < n && (#[trigger] post.spec_frames()[j]).spec_loaded()
                                implies pid_of(post.spec_frames()[j]) < post.spec_disk().len() && (
                            !post.spec_frames()[j].spec_dirty() ==> post.spec_frames()[
                                j
                            ].spec_page() == post.spec_disk()[pid_of(post.spec_frames()[j]) as int])
                                by {
                                assert(j != h);
                                assert(post.spec_frames()[j] == pre.spec_frames()[j]);
                                assert(pid_of(pre.spec_frames()[j]) < pre.spec_disk().len());
                                if pre.spec_frames()[j].spec_loaded() && !pre.spec_frames()[
                                    j
                                ].spec_dirty() {
                                    if pre.spec_frames()[h].spec_dirty() {
                                        assert(pre.spec_frames()[j].spec_page_id()
                                            != pre.spec_frames()[h].spec_page_id());
                                        assert(pid_of(pre.spec_frames()[j]) != pid_of(
                                            pre.spec_frames()[h],
                                        ));
                                    }
                                }
                            }
                            assert(post.spec_frames() == pre.spec_frames().update(
                                h,
                                post.spec_frames()[h],
                            )) by {
                                assert(post.spec_frames() =~= pre.spec_frames().update(
                                    h,
                                    post.spec_frames()[h],
                                ));
                            }
                            lemma_count_loaded_update(pre.spec_frames(), h, post.spec_frames()[h]);
                        }
                        Ok(i)
                    },
                }
            },
        }
    }
}

/// The frame count of a pool, as an `int` (a proof shorthand).
pub open spec fn frame_count(bpm: BufferPoolManager) -> int {
    bpm.spec_frames().len() as int
}

/// The page table is a bijection with the loaded frames: every entry
/// points at a frame that carries exactly that page, and every loaded
/// frame appears in the table exactly once, under its own page id.
pub proof fn lemma_page_table_consistent(bpm: BufferPoolManager)
    requires
        bpm.wf(),
    ensures
        forall|p: u32|
            #[trigger] bpm.page_table().dom().contains(p) ==> {
                let i = bpm.page_table()[p];
                &&& 0 <= i < bpm.spec_frames().len()
                &&& bpm.spec_frames()[i].spec_page_id() == Some(PageId(p))
            },
        forall|i: int|
            0 <= i < bpm.spec_frames().len() && (#[trigger] bpm.spec_frames()[i]).spec_loaded()
                ==> bpm.page_table().dom().contains(pid_of(bpm.spec_frames()[i]))
                && bpm.page_table()[pid_of(bpm.spec_frames()[i])] == i,
{
    assert forall|p: u32| #[trigger] bpm.page_table().dom().contains(p) implies {
        let i = bpm.page_table()[p];
        &&& 0 <= i < bpm.spec_frames().len()
        &&& bpm.spec_frames()[i].spec_page_id() == Some(PageId(p))
    } by {
        assert(bpm.resident(PageId(p)));
        let w = choose|w: int|
            0 <= w < bpm.spec_frames().len() && (#[trigger] bpm.spec_frames()[w]).spec_page_id()
                == Some(PageId(p));
        assert(bpm.spec_frames()[bpm.frame_of(PageId(p))].spec_page_id() == Some(PageId(p)));
    }
    assert forall|i: int|
        0 <= i < bpm.spec_frames().len() && (
    #[trigger] bpm.spec_frames()[i]).spec_loaded() implies bpm.page_table().dom().contains(
        pid_of(bpm.spec_frames()[i]),
    ) && bpm.page_table()[pid_of(bpm.spec_frames()[i])] == i by {
        let p = pid_of(bpm.spec_frames()[i]);
        assert(bpm.spec_frames()[i].spec_page_id() == Some(PageId(p)));
        assert(bpm.resident(PageId(p)));
        let j = bpm.frame_of(PageId(p));
        assert(0 <= j < bpm.spec_frames().len() && bpm.spec_frames()[j].spec_page_id() == Some(
            PageId(p),
        ));
        if j != i {
            assert(false);
        }
    }
}

/// Frame accounting: the loaded frames and the free list together
/// account for every frame of the pool.
pub proof fn lemma_frame_accounting(bpm: BufferPoolManager)
    requires
        bpm.wf(),
    ensures
        count_loaded(bpm.spec_frames()) + bpm.spec_free_list().len() == bpm.spec_pool_size(),
{
}

/// A pinned frame is never marked evictable, and it is loaded (so it
/// stands in the page table).
pub proof fn lemma_pinned_frames_not_evictable(bpm: BufferPoolManager)
    requires
        bpm.wf(),
    ensures
        forall|i: int|
            0 <= i < bpm.spec_frames().len() && (#[trigger] bpm.spec_frames()[i]).spec_pin_count()
                > 0 ==> !bpm.spec_evictable().contains(FrameId(i as usize))
                && bpm.spec_frames()[i].spec_loaded() && bpm.page_table().dom().contains(
                pid_of(bpm.spec_frames()[i]),
            ),
{
    lemma_page_table_consistent(bpm);
    assert forall|i: int|
        0 <= i < bpm.spec_frames().len() && (
    #[trigger] bpm.spec_frames()[i]).spec_pin_count() > 0 implies !bpm.spec_evictable().contains(
        FrameId(i as usize),
    ) && bpm.spec_frames()[i].spec_loaded() && bpm.page_table().dom().contains(
        pid_of(bpm.spec_frames()[i]),
    ) by {
        assert(bpm.spec_frames()[i].spec_loaded());
        assert(bpm.spec_evictable().contains(FrameId(i as usize)) <==> (i
            < bpm.spec_frames().len() && bpm.spec_frames()[i].spec_loaded() && bpm.spec_frames()[
            i
        ].spec_pin_count() == 0));
    }
}

/// A clean resident page always agrees byte for byte with its slot on
/// the backing store: a page read from the store stays equal to it
/// until a write guard dirties it, and a flush restores the agreement.
pub proof fn lemma_clean_pages_match_store(bpm: BufferPoolManager)
    requires
        bpm.wf(),
    ensures
        forall|i: int|
            0 <= i < bpm.spec_frames().len() && (#[trigger] bpm.spec_frames()[i]).spec_loaded()
                && !bpm.spec_frames()[i].spec_dirty() ==> bpm.spec_frames()[i].spec_page()
                == bpm.spec_disk()[pid_of(bpm.spec_frames()[i]) as int],
{
}

/// After an eviction, the victim's bytes stand on the backing store:
/// a dirty victim was written back during the miss, and a clean victim
/// already agreed with its slot. A later fetch of the victim therefore
/// reads exactly the bytes it held in memory at eviction time.
pub proof fn lemma_eviction_writes_victim_back(
    pre: BufferPoolManager,
    post: BufferPoolManager,
    pid: PageId,
)
    requires
        pre.wf(),
        pre.has_available_frame(),
        pre.evicts_on_miss(),
        BufferPoolManager::fetch_miss_post(pre, post, pid),
    ensures
        post.spec_disk()[pid_of(pre.spec_frames()[pre.chosen_frame()]) as int] == pre.spec_frames()[
            pre.chosen_frame()
        ].spec_page(),
{
    let v = pre.chosen_frame();
    crate::fifo::lemma_first_evictable_index_spec(pre.spec_queue(), pre.spec_evictable());
    let fi = first_evictable_index(pre.spec_queue(), pre.spec_evictable());
    assert(fi != -1);
    let f = pre.spec_queue()[fi];
    assert(pre.spec_evictable().contains(f));
    assert(pre.spec_frames()[f.0 as int].spec_loaded());
    assert(v == f.0 as int);
    if pre.writes_back_on_miss() {
        assert(post.spec_disk() == pre.spec_disk().update(
            pid_of(pre.spec_frames()[v]) as int,
            pre.spec_frames()[v].spec_page(),
        ));
    } else {
        assert(!pre.spec_frames()[v].spec_dirty());
        assert(pre.spec_frames()[v].spec_page() == pre.spec_disk()[pid_of(
            pre.spec_frames()[v],
        ) as int]);
    }
}

/// A full pool (every frame loaded) has an empty free list, so the
/// next miss or `new_page` must evict.
pub proof fn lemma_full_pool_evicts(bpm: BufferPoolManager)
    requires
        bpm.wf(),
        count_loaded(bpm.spec_frames()) == bpm.spec_pool_size(),
    ensures
        bpm.evicts_on_miss(),
{
}

/// Round trip through the pool: after bytes `b` are written to a
/// pinned page through a write guard, releasing the guard and fetching
/// the page again (a hit) yields a frame holding exactly `b`.
pub proof fn lemma_write_then_fetch_reads_back(
    s1: BufferPoolManager,
    s2: BufferPoolManager,
    s3: BufferPoolManager,
    pid: PageId,
    i: int,
    b: Seq<u8>,
)
    requires
        s1.wf(),
        0 <= i < s1.spec_frames().len(),
        s1.spec_frames()[i].spec_page_id() == Some(pid),
        s1.spec_frames()[i].spec_page() == b,
        s1.spec_frames()[i].spec_pin_count() > 0,
        BufferPoolManager::unpin_post(s1, s2, i, true),
        s2.wf(),
        BufferPoolManager::fetch_hit_post(s2, s3, pid),
    ensures
        s3.spec_frames()[s3.frame_of(pid)].spec_page() == b,
{
    assert(s2.spec_frames()[i].spec_page_id() == Some(pid));
    assert(s2.resident(pid));
    let j = s2.frame_of(pid);
    assert(0 <= j < s2.spec_frames().len() && s2.spec_frames()[j].spec_page_id() == Some(pid));
    if j != i {
        assert(false);
    }
    assert(s2.spec_frames()[i].spec_page() == b);
    assert(s3.frame_of(pid) == i);
    assert(s3.spec_frames()[i].spec_page() == b);
}

/// Durability round trip: a page whose bytes stand on the backing
/// store is read back bit for bit by a fetch miss of a fresh pool over
/// the same store.
pub proof fn lemma_flushed_page_reads_back(
    s1: BufferPoolManager,
    s2: BufferPoolManager,
    s3: BufferPoolManager,
    pid: PageId,
    b: Seq<u8>,
)
    requires
        pid.0 < s1.spec_disk().len(),
        s1.spec_disk()[pid.0 as int] == b,
        s2.spec_disk() == s1.spec_disk(),
        BufferPoolManager::fetch_miss_post(s2, s3, pid),
    ensures
        s3.spec_frames()[s3.frame_of(pid)].spec_page() == b,
{
    assert(s3.frame_of(pid) == s2.chosen_frame());
    assert(s3.spec_frames()[s2.chosen_frame()].spec_page() == s2.spec_disk()[pid.0 as int]);
}

/// Repeated fetches of a resident page are consistent and cheap: the
/// bytes seen do not change, only the hit counter advances, and the
/// backing store is never read.
pub proof fn lemma_repeated_fetch_hits(
    s1: BufferPoolManager,
    s2: BufferPoolManager,
    s3: BufferPoolManager,
    pid: PageId,
)
    requires
        s1.wf(),
        s1.resident(pid),
        s1.spec_stats().cache_hits + 1 < u64::MAX,
        BufferPoolManager::fetch_hit_post(s1, s2, pid),
        BufferPoolManager::fetch_hit_post(s2, s3, pid),
    ensures
        s3.spec_frames()[s3.frame_of(pid)].spec_page() == s1.spec_frames()[
            s1.frame_of(pid)
        ].spec_page(),
        s3.spec_stats().cache_hits == s1.spec_stats().cache_hits + 2,
        s3.spec_stats().pages_read == s1.spec_stats().pages_read,
        s3.spec_stats().cache_misses == s1.spec_stats().cache_misses,
        s3.spec_disk() == s1.spec_disk(),
{
    let i = s1.frame_of(pid);
    assert(s2.frame_of(pid) == i);
    assert(s3.frame_of(pid) == i);
    assert(s2.spec_frames()[i].spec_page() == s1.spec_frames()[i].spec_page());
    assert(s3.spec_frames()[i].spec_page() == s2.spec_frames()[i].spec_page());
}

/// When every frame of the pool is pinned, no frame can be obtained:
/// the free list is empty and no queued frame is evictable, so a fetch
/// of an absent page or a `new_page` must fail with `NoFreeFrames`.
pub proof fn lemma_all_pinned_exhausts_pool(bpm: BufferPoolManager)
    requires
        bpm.wf(),
        forall|i: int|
            0 <= i < bpm.spec_frames().len() ==> (#[trigger] bpm.spec_frames()[i]).spec_pin_count()
                > 0,
    ensures
        !bpm.has_available_frame(),
{
    if bpm.spec_free_list().len() > 0 {
        let f = bpm.spec_free_list()[0];
        assert(!bpm.spec_frames()[f.0 as int].spec_loaded());
        assert(bpm.spec_frames()[f.0 as int].spec_pin_count() == 0);
        assert(false);
    }
    crate::fifo::lemma_first_evictable_index_spec(bpm.spec_queue(), bpm.spec_evictable());
    let fi = first_evictable_index(bpm.spec_queue(), bpm.spec_evictable());
    if fi != -1 {
        let f = bpm.spec_queue()[fi];
        assert(bpm.spec_evictable().contains(f));
        assert(bpm.spec_frames()[f.0 as int].spec_pin_count() == 0);
        assert(false);
    }
}

} // verus!
