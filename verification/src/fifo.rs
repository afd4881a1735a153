//! FIFO (first-in-first-out) page replacement policy.
//!
//! Frames are evicted in the order of their first recorded access.
//! Re-access does not reorder. An eviction pass skips non-evictable
//! frames without removing them from the queue, so a transient state in
//! which every frame is pinned never corrupts the ordering.

use vstd::prelude::*;

use crate::frame_id::FrameId;
use crate::page_id::PageId;

verus! {

/// Index of the first queue entry that is in the evictable set, or -1
/// when no entry is.
pub open spec fn first_evictable_index(q: Seq<FrameId>, ev: Set<FrameId>) -> int
    decreases q.len(),
{
    if q.len() == 0 {
        -1
    } else if ev.contains(q[0]) {
        0
    } else {
        let rest = first_evictable_index(q.drop_first(), ev);
        if rest == -1 {
            -1
        } else {
            rest + 1
        }
    }
}

/// The frame a FIFO eviction pass yields: the first queue entry that is
/// evictable, or `None` when no entry is.
pub open spec fn first_evictable(q: Seq<FrameId>, ev: Set<FrameId>) -> Option<FrameId> {
    let i = first_evictable_index(q, ev);
    if i == -1 {
        None
    } else {
        Some(q[i])
    }
}

/// What `first_evictable_index` returns: -1 exactly when no queue entry
/// is evictable, and otherwise the position of the first evictable
/// entry.
pub proof fn lemma_first_evictable_index_spec(q: Seq<FrameId>, ev: Set<FrameId>)
    ensures
        first_evictable_index(q, ev) == -1 ==> forall|j: int|
            0 <= j < q.len() ==> !ev.contains(#[trigger] q[j]),
        first_evictable_index(q, ev) != -1 ==> {
            let i = first_evictable_index(q, ev);
            &&& 0 <= i < q.len()
            &&& ev.contains(q[i])
            &&& forall|j: int| 0 <= j < i ==> !ev.contains(#[trigger] q[j])
        },
    decreases q.len(),
{
    if q.len() == 0 {
    } else if ev.contains(q[0]) {
    } else {
        let qd = q.drop_first();
        lemma_first_evictable_index_spec(qd, ev);
        let rest = first_evictable_index(qd, ev);
        assert(forall|j: int| 0 <= j < qd.len() ==> #[trigger] qd[j] == q[j + 1]);
        if rest == -1 {
            assert forall|j: int| 0 <= j < q.len() implies !ev.contains(#[trigger] q[j]) by {
                if j > 0 {
                    assert(qd[j - 1] == q[j]);
                    assert(!ev.contains(qd[j - 1]));
                }
            }
        } else {
            assert(ev.contains(qd[rest]));
            assert(qd[rest] == q[rest + 1]);
            assert forall|j: int| 0 <= j < rest + 1 implies !ev.contains(#[trigger] q[j]) by {
                if j > 0 {
                    assert(qd[j - 1] == q[j]);
                    assert(!ev.contains(qd[j - 1]));
                }
            }
        }
    }
}

/// A failed eviction pass drains nothing: when no queued frame is
/// evictable (`evict` returns `None` and leaves the state alone),
/// making any queued frame evictable lets the next pass yield exactly
/// that frame.
pub proof fn lemma_evict_after_enable(q: Seq<FrameId>, ev: Set<FrameId>, f: FrameId)
    requires
        first_evictable(q, ev) is None,
        q.contains(f),
    ensures
        first_evictable(q, ev.insert(f)) == Some(f),
{
    lemma_first_evictable_index_spec(q, ev);
    let ev2 = ev.insert(f);
    lemma_first_evictable_index_spec(q, ev2);
    let i = first_evictable_index(q, ev2);
    let w = choose|w: int| 0 <= w < q.len() && q[w] == f;
    assert(ev2.contains(q[w]));
    if i == -1 {
        assert(!ev2.contains(q[w]));
        assert(false);
    }
    assert(ev2.contains(q[i]));
    assert(!ev.contains(q[i]));
    assert(q[i] == f);
}

/// FIFO replacement policy state: the access queue (front is oldest)
/// and the set of currently evictable frames, kept as a duplicate-free
/// vector.
pub struct FifoReplacer {
    queue: Vec<FrameId>,
    evictable: Vec<FrameId>,
}

/// Whether a duplicate-free vector holds a frame id; linear scan.
fn vec_contains(v: &Vec<FrameId>, f: FrameId) -> (r: bool)
    ensures
        r == v@.contains(f),
{
    let mut i: usize = 0;
    while i < v.len()
        invariant
            i <= v@.len(),
            forall|j: int| 0 <= j < i ==> v@[j] != f,
        decreases v@.len() - i,
    {
        if v[i] == f {
            proof {
                assert(v@[i as int] == f);
            }
            return true;
        }
        i += 1;
    }
    false
}

/// Position of a frame id in a vector, if present; linear scan.
fn vec_index_of(v: &Vec<FrameId>, f: FrameId) -> (r: Option<usize>)
    ensures
        match r {
            Some(i) => i < v@.len() && v@[i as int] == f,
            None => !v@.contains(f),
        },
{
    let mut i: usize = 0;
    while i < v.len()
        invariant
            i <= v@.len(),
            forall|j: int| 0 <= j < i ==> v@[j] != f,
        decreases v@.len() - i,
    {
        if v[i] == f {
            return Some(i);
        }
        i += 1;
    }
    None
}

/// Removing the entry at `i` from a duplicate-free sequence removes
/// exactly `s[i]` from its set of elements and keeps it duplicate-free.
proof fn lemma_distinct_remove_to_set(s: Seq<FrameId>, i: int)
    requires
        s.no_duplicates(),
        0 <= i < s.len(),
    ensures
        s.remove(i).no_duplicates(),
        s.remove(i).to_set() == s.to_set().remove(s[i]),
        forall|g: FrameId| #[trigger]
            s.remove(i).contains(g) <==> (s.contains(g) && g != s[i]),
{
    s.remove_ensures(i);
    let r = s.remove(i);
    assert forall|g: FrameId| #[trigger] r.contains(g) implies (s.contains(g) && g != s[i]) by {
        let k = choose|k: int| 0 <= k < r.len() && r[k] == g;
        if k < i {
            assert(s[k] == g);
        } else {
            assert(s[k + 1] == g);
        }
    }
    assert forall|g: FrameId| s.contains(g) && g != s[i] implies #[trigger] r.contains(g) by {
        let k = choose|k: int| 0 <= k < s.len() && s[k] == g;
        if k < i {
            assert(r[k] == g);
        } else {
            assert(k != i);
            assert(r[k - 1] == g);
        }
    }
    assert(r.to_set() =~= s.to_set().remove(s[i]));
}

/// Appending a fresh entry to a duplicate-free sequence keeps it
/// duplicate-free.
proof fn lemma_distinct_push(s: Seq<FrameId>, f: FrameId)
    requires
        s.no_duplicates(),
        !s.contains(f),
    ensures
        s.push(f).no_duplicates(),
        s.push(f).to_set() == s.to_set().insert(f),
        forall|g: FrameId| #[trigger] s.push(f).contains(g) <==> (s.contains(g) || g == f),
{
    let p = s.push(f);
    assert forall|i: int, j: int|
        0 <= i < p.len() && 0 <= j < p.len() && i != j implies p[i] != p[j] by {
        if i < s.len() && j < s.len() {
        } else if i == s.len() {
            assert(p[j] == s[j]);
            if p[i] == p[j] {
                assert(s.contains(f));
            }
        } else {
            assert(p[i] == s[i]);
            if p[i] == p[j] {
                assert(s.contains(f));
            }
        }
    }
    assert forall|g: FrameId| #[trigger] p.contains(g) implies (s.contains(g) || g == f) by {
        let k = choose|k: int| 0 <= k < p.len() && p[k] == g;
        if k < s.len() {
            assert(s[k] == g);
        }
    }
    assert forall|g: FrameId| s.contains(g) || g == f implies #[trigger] p.contains(g) by {
        if g == f {
            assert(p[s.len() as int] == g);
        } else {
            let k = choose|k: int| 0 <= k < s.len() && s[k] == g;
            assert(p[k] == g);
        }
    }
    assert(p.to_set() =~= s.to_set().insert(f));
}

/// Remove a frame id from a duplicate-free vector, if present.
fn vec_remove_value(v: &mut Vec<FrameId>, f: FrameId)
    requires
        old(v)@.no_duplicates(),
    ensures
        final(v)@.no_duplicates(),
        final(v)@.to_set() == old(v)@.to_set().remove(f),
        !old(v)@.contains(f) ==> final(v)@ == old(v)@,
        old(v)@.contains(f) ==> final(v)@.len() == old(v)@.len() - 1,
        forall|g: FrameId| #[trigger] final(v)@.contains(g) <==> (old(v)@.contains(g) && g != f),
{
    match vec_index_of(v, f) {
        Some(i) => {
            let _ = v.remove(i);
            proof {
                lemma_distinct_remove_to_set(old(v)@, i as int);
            }
        },
        None => {
            proof {
                assert(v@.to_set() =~= v@.to_set().remove(f));
            }
        },
    }
}

impl FifoReplacer {
    /// The queue of recorded frames, oldest first.
    pub closed spec fn queue_view(self) -> Seq<FrameId> {
        self.queue@
    }

    /// The set of frames currently marked evictable.
    pub closed spec fn evictable_set(self) -> Set<FrameId> {
        self.evictable@.to_set()
    }

    /// Internal well-formedness: both vectors are duplicate-free.
    pub closed spec fn wf(self) -> bool {
        &&& self.queue@.no_duplicates()
        &&& self.evictable@.no_duplicates()
    }

    /// Create an empty FIFO replacer.
    pub fn new() -> (r: Self)
        ensures
            r.wf(),
            r.queue_view() == Seq::<FrameId>::empty(),
            r.evictable_set() == Set::<FrameId>::empty(),
    {
        let r = FifoReplacer { queue: Vec::new(), evictable: Vec::new() };
        proof {
            assert(r.evictable_set() =~= Set::<FrameId>::empty());
        }
        r
    }

    /// Record that a frame was accessed. The frame joins the tail of
    /// the queue on its first access; later accesses change nothing.
    pub fn record_access(&mut self, frame_id: FrameId, _page_id: PageId)
        requires
            old(self).wf(),
        ensures
            final(self).wf(),
            final(self).evictable_set() == old(self).evictable_set(),
            old(self).queue_view().contains(frame_id) ==> final(self).queue_view() == old(
                self,
            ).queue_view(),
            !old(self).queue_view().contains(frame_id) ==> final(self).queue_view() == old(
                self,
            ).queue_view().push(frame_id),
            forall|g: FrameId| #[trigger]
                final(self).queue_view().contains(g) <==> (old(self).queue_view().contains(g)
                    || g == frame_id),
    {
        if !vec_contains(&self.queue, frame_id) {
            proof {
                lemma_distinct_push(self.queue@, frame_id);
            }
            self.queue.push(frame_id);
        }
    }

    /// Mark a frame evictable or not. Setting the same state twice is
    /// idempotent; the queue is never touched.
    pub fn set_evictable(&mut self, frame_id: FrameId, evictable: bool)
        requires
            old(self).wf(),
        ensures
            final(self).wf(),
            final(self).queue_view() == old(self).queue_view(),
            evictable ==> final(self).evictable_set() == old(self).evictable_set().insert(
                frame_id,
            ),
            !evictable ==> final(self).evictable_set() == old(self).evictable_set().remove(
                frame_id,
            ),
    {
        if evictable {
            if !vec_contains(&self.evictable, frame_id) {
                proof {
                    lemma_distinct_push(self.evictable@, frame_id);
                }
                self.evictable.push(frame_id);
            } else {
                proof {
                    assert(self.evictable@.to_set() =~= self.evictable@.to_set().insert(frame_id));
                }
            }
        } else {
            vec_remove_value(&mut self.evictable, frame_id);
        }
    }

    /// Evict the oldest evictable frame, removing it from the queue and
    /// the evictable set; `None` exactly when no queued frame is
    /// evictable, in which case nothing changes.
    pub fn evict(&mut self) -> (r: Option<FrameId>)
        requires
            old(self).wf(),
        ensures
            final(self).wf(),
            r == first_evictable(old(self).queue_view(), old(self).evictable_set()),
            r is None ==> *final(self) == *old(self),
            r matches Some(f) ==> {
                let i = first_evictable_index(old(self).queue_view(), old(self).evictable_set());
                &&& old(self).queue_view().contains(f)
                &&& old(self).evictable_set().contains(f)
                &&& final(self).queue_view() == old(self).queue_view().remove(i)
                &&& final(self).evictable_set() == old(self).evictable_set().remove(f)
                &&& forall|g: FrameId| #[trigger]
                    final(self).queue_view().contains(g) <==> (old(self).queue_view().contains(g)
                        && g != f)
            },
    {
        let mut i: usize = 0;
        while i < self.queue.len()
            invariant
                old(self).wf(),
                *self == *old(self),
                i <= self.queue@.len(),
                forall|j: int| 0 <= j < i ==> !self.evictable@.to_set().contains(
                    #[trigger] self.queue@[j],
                ),
            decreases self.queue@.len() - i,
        {
            let candidate = self.queue[i];
            if vec_contains(&self.evictable, candidate) {
                proof {
                    assert(self.evictable@.to_set().contains(self.queue@[i as int]));
                    lemma_first_evictable_index_spec(self.queue@, self.evictable@.to_set());
                    let fi = first_evictable_index(self.queue@, self.evictable@.to_set());
                    // the found position is exactly the first evictable index
                    if fi == -1 {
                        assert(!self.evictable@.to_set().contains(self.queue@[i as int]));
                        assert(false);
                    } else if fi < i as int {
                        assert(!self.evictable@.to_set().contains(self.queue@[fi]));
                        assert(false);
                    } else if fi > i as int {
                        assert(!self.evictable@.to_set().contains(self.queue@[i as int]));
                        assert(false);
                    }
                    assert(fi == i as int);
                    lemma_distinct_remove_to_set(self.queue@, i as int);
                }
                let f = self.queue.remove(i);
                vec_remove_value(&mut self.evictable, f);
                return Some(f);
            }
            i += 1;
        }
        proof {
            lemma_first_evictable_index_spec(self.queue@, self.evictable@.to_set());
            let fi = first_evictable_index(self.queue@, self.evictable@.to_set());
            if fi != -1 {
                assert(!self.evictable@.to_set().contains(self.queue@[fi]));
                assert(false);
            }
        }
        None
    }

    /// The frame an eviction pass would yield, without changing any
    /// state.
    pub fn peek_victim(&self) -> (r: Option<FrameId>)
        requires
            self.wf(),
        ensures
            r == first_evictable(self.queue_view(), self.evictable_set()),
    {
        let mut i: usize = 0;
        while i < self.queue.len()
            invariant
                self.wf(),
                i <= self.queue@.len(),
                forall|j: int| 0 <= j < i ==> !self.evictable@.to_set().contains(
                    #[trigger] self.queue@[j],
                ),
            decreases self.queue@.len() - i,
        {
            let candidate = self.queue[i];
            if vec_contains(&self.evictable, candidate) {
                proof {
                    assert(self.evictable@.to_set().contains(self.queue@[i as int]));
                    lemma_first_evictable_index_spec(self.queue@, self.evictable@.to_set());
                    let fi = first_evictable_index(self.queue@, self.evictable@.to_set());
                    if fi == -1 {
                        assert(!self.evictable@.to_set().contains(self.queue@[i as int]));
                        assert(false);
                    } else if fi < i as int {
                        assert(!self.evictable@.to_set().contains(self.queue@[fi]));
                        assert(false);
                    } else if fi > i as int {
                        assert(!self.evictable@.to_set().contains(self.queue@[i as int]));
                        assert(false);
                    }
                }
                return Some(candidate);
            }
            i += 1;
        }
        proof {
            lemma_first_evictable_index_spec(self.queue@, self.evictable@.to_set());
            let fi = first_evictable_index(self.queue@, self.evictable@.to_set());
            if fi != -1 {
                assert(!self.evictable@.to_set().contains(self.queue@[fi]));
                assert(false);
            }
        }
        None
    }

    /// Purge all bookkeeping for a frame: it leaves both the queue and
    /// the evictable set; the order of the remaining queue is kept.
    pub fn remove(&mut self, frame_id: FrameId)
        requires
            old(self).wf(),
        ensures
            final(self).wf(),
            final(self).evictable_set() == old(self).evictable_set().remove(frame_id),
            !old(self).queue_view().contains(frame_id) ==> final(self).queue_view() == old(
                self,
            ).queue_view(),
            old(self).queue_view().contains(frame_id) ==> final(self).queue_view() == old(
                self,
            ).queue_view().remove(old(self).queue_view().index_of(frame_id)),
            forall|g: FrameId| #[trigger]
                final(self).queue_view().contains(g) <==> (old(self).queue_view().contains(g)
                    && g != frame_id),
    {
        vec_remove_value(&mut self.evictable, frame_id);
        match vec_index_of(&self.queue, frame_id) {
            Some(i) => {
                proof {
                    lemma_distinct_remove_to_set(self.queue@, i as int);
                    // the queue is duplicate-free, so the found position is
                    // the chosen index of the frame
                    let j = self.queue@.index_of(frame_id);
                    assert(0 <= j < self.queue@.len() && self.queue@[j] == frame_id);
                    assert(j == i as int);
                }
                let _ = self.queue.remove(i);
            },
            None => {},
        }
    }

    /// The number of currently evictable frames.
    pub fn size(&self) -> (r: usize)
        requires
            self.wf(),
        ensures
            r == self.evictable_set().len(),
    {
        proof {
            self.evictable@.unique_seq_to_set();
        }
        self.evictable.len()
    }
}

impl core::default::Default for FifoReplacer {
    /// The default replacer is empty.
    fn default() -> (r: Self)
        ensures
            r.wf(),
            r.queue_view() == Seq::<FrameId>::empty(),
            r.evictable_set() == Set::<FrameId>::empty(),
    {
        FifoReplacer::new()
    }
}

} // verus!
