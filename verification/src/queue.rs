//! The sync queue: a backlog of pending heights plus a completion sentinel.
//!
//! Producers are the startup gap scanner, the live poll loop and explicit
//! operator-triggered range loads; the consumer is the ingestion worker.
//! The sentinel that marks "initial backfill complete" is a distinct
//! variant, never a height value in disguise, so no chain height is
//! reserved or lost.

use vstd::prelude::*;

verus! {

/// One unit of work handed to the ingestion worker.
#[derive(Clone, Copy, Debug, PartialEq, Eq, Structural)]
pub enum QueueEntry {
    /// A chain height whose generation must be fetched and persisted.
    Height(u64),
    /// The startup backfill has enqueued everything it found missing;
    /// on seeing this the worker switches to the live poll loop.
    BacklogCleared,
}

/// A first-in, first-out backlog of queue entries.
///
/// Entries leave in the order they arrived, and none is lost or
/// duplicated by the queue itself: `push` appends exactly one entry and
/// `pop` removes exactly the front one.
pub struct SyncQueue {
    entries: Vec<QueueEntry>,
}

impl View for SyncQueue {
    type V = Seq<QueueEntry>;

    closed spec fn view(&self) -> Seq<QueueEntry> {
        self.entries@
    }
}

impl SyncQueue {
    /// An empty backlog.
    pub fn new() -> (q: SyncQueue)
        ensures
            q@ == Seq::<QueueEntry>::empty(),
    {
        SyncQueue { entries: Vec::new() }
    }

    /// How many entries are waiting.
    pub fn len(&self) -> (n: usize)
        ensures
            n == self@.len(),
    {
        self.entries.len()
    }

    pub fn is_empty(&self) -> (b: bool)
        ensures
            b == (self@.len() == 0),
    {
        self.entries.len() == 0
    }

    /// Append one entry at the back.
    pub fn push(&mut self, e: QueueEntry)
        ensures
            final(self)@ == old(self)@.push(e),
    {
        self.entries.push(e);
    }

    /// Enqueue one height at the back.
    pub fn push_height(&mut self, h: u64)
        ensures
            final(self)@ == old(self)@.push(QueueEntry::Height(h)),
    {
        self.entries.push(QueueEntry::Height(h));
    }

    /// Remove and return the front entry, or `None` on an empty backlog.
    pub fn pop(&mut self) -> (r: Option<QueueEntry>)
        ensures
            match r {
                Some(e) => old(self)@.len() > 0 && e == old(self)@[0] && final(self)@
                    == old(self)@.skip(1),
                None => old(self)@.len() == 0 && final(self)@ == old(self)@,
            },
    {
        if self.entries.len() == 0 {
            None
        } else {
            let e = self.entries.remove(0);
            proof {
                assert(self.entries@ =~= old(self)@.skip(1));
            }
            Some(e)
        }
    }

    /// Enqueue every height of `heights`, in order, at the back.
    pub fn push_heights(&mut self, heights: &Vec<u64>)
        ensures
            final(self)@ == old(self)@ + heights@.map_values(|h: u64| QueueEntry::Height(h)),
    {
        let mut i: usize = 0;
        while i < heights.len()
            invariant
                i <= heights@.len(),
                self@.len() == old(self)@.len() + i,
                forall|k: int| 0 <= k < old(self)@.len() ==> (#[trigger] self@[k]) == old(self)@[k],
                forall|k: int|
                    old(self)@.len() <= k < old(self)@.len() + i ==> (#[trigger] self@[k])
                        == QueueEntry::Height(heights@[k - old(self)@.len()]),
            decreases heights@.len() - i,
        {
            self.entries.push(QueueEntry::Height(heights[i]));
            i = i + 1;
        }
        proof {
            assert(self@ =~= old(self)@ + heights@.map_values(|h: u64| QueueEntry::Height(h)));
        }
    }
}

} // verus!
