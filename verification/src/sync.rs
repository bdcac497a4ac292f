//! The ingestion pipeline: gap scan, work queue draining, per-height
//! ingestion, the live poll loop, and explicit range loads.
//!
//! The worker is a state machine from queue entries and fetch outcomes
//! to store writes. All I/O — asking the node, sleeping, retrying — is
//! the caller's: the caller pops an action, performs it, and hands the
//! outcome back. Every store write goes through the idempotent upsert,
//! which is what makes overlapping producers (backfill, live poll,
//! operator range loads) safe.

use vstd::prelude::*;

use crate::chain::Generation;
use crate::error::MiddlewareError;
use crate::fork::height_run;
use crate::node::NodeChain;
use crate::node::chain_wf;
use crate::queue::QueueEntry;
use crate::queue::SyncQueue;
use crate::store::Store;
use crate::store::gap_seq;
use crate::store::lemma_matches_gap_seq;

verus! {

/// The two phases of the ingestion worker's life.
#[derive(Clone, Copy, Debug, PartialEq, Eq, Structural)]
pub enum WorkerMode {
    /// Draining the startup backlog of missing heights.
    Backfill,
    /// The backlog is done; polling the node for new heights.
    Live,
}

/// What the worker asks its caller to do next.
#[derive(Clone, Copy, Debug, PartialEq, Eq, Structural)]
pub enum WorkerAction {
    /// Fetch the generation at this height from the node, then hand the
    /// outcome to `ingest_generation`.
    FetchGeneration(u64),
    /// Ask the node for its current top, then hand it to `observe_top`.
    PollNode,
    /// Nothing to do right now; wait for producers.
    Idle,
}

/// How a requested fetch ended.
pub enum FetchOutcome {
    /// The node answered and the payload decoded.
    Fetched(Generation),
    /// The node was unreachable, timed out, or answered non-2xx.
    NetworkFailed,
    /// The node's payload was malformed.
    ParseFailed,
}

/// The ingestion worker's state.
#[derive(Clone, Copy, Debug, PartialEq, Eq, Structural)]
pub struct Worker {
    pub mode: WorkerMode,
    /// The greatest height this worker has already seen enqueued; the
    /// live poll asks the node only for heights beyond it.
    pub last_top: u64,
}

impl Worker {
    /// A fresh worker, still in backfill.
    pub fn new() -> (w: Worker)
        ensures
            w.mode == WorkerMode::Backfill,
            w.last_top == 0,
    {
        Worker { mode: WorkerMode::Backfill, last_top: 0 }
    }

    /// Take the next entry off the queue and decide what to do: fetch a
    /// height, switch to live mode on the completion sentinel, or —
    /// with an empty queue — idle (backfill) or poll (live).
    pub fn next_action(&mut self, queue: &mut SyncQueue) -> (a: WorkerAction)
        ensures
            final(self).last_top == old(self).last_top,
            old(queue)@.len() == 0 ==> final(queue)@ == old(queue)@ && *final(self) == *old(self)
                && a == (match old(self).mode {
                WorkerMode::Backfill => WorkerAction::Idle,
                WorkerMode::Live => WorkerAction::PollNode,
            }),
            old(queue)@.len() > 0 ==> final(queue)@ == old(queue)@.skip(1) && (match old(
                queue,
            )@[0] {
                QueueEntry::Height(h) => a == WorkerAction::FetchGeneration(h) && *final(self)
                    == *old(self),
                QueueEntry::BacklogCleared => a == WorkerAction::PollNode && final(self).mode
                    == WorkerMode::Live,
            }),
    {
        match queue.pop() {
            None => match self.mode {
                WorkerMode::Backfill => WorkerAction::Idle,
                WorkerMode::Live => WorkerAction::PollNode,
            },
            Some(QueueEntry::Height(h)) => WorkerAction::FetchGeneration(h),
            Some(QueueEntry::BacklogCleared) => {
                self.mode = WorkerMode::Live;
                WorkerAction::PollNode
            },
        }
    }

    /// Record a polled node top: enqueue every height beyond the last
    /// known top, once, and remember the new top.
    pub fn observe_top(&mut self, node_top: u64, queue: &mut SyncQueue)
        ensures
            final(self).mode == old(self).mode,
            node_top <= old(self).last_top ==> *final(self) == *old(self) && final(queue)@ == old(
                queue,
            )@,
            node_top > old(self).last_top ==> final(self).last_top == node_top && final(queue)@
                == old(queue)@ + height_run(
                (old(self).last_top + 1) as u64,
                (node_top - old(self).last_top) as nat,
            ).map_values(|x: u64| QueueEntry::Height(x)),
    {
        if node_top <= self.last_top {
            return ;
        }
        let lo = self.last_top + 1;
        let cnt = node_top - self.last_top;
        let mut heights: Vec<u64> = Vec::new();
        let mut j: u64 = 0;
        while j < cnt
            invariant
                j <= cnt,
                lo == old(self).last_top + 1,
                cnt == node_top - old(self).last_top,
                node_top > old(self).last_top,
                heights@.len() == j,
                forall|k: int| 0 <= k < j ==> (#[trigger] heights@[k]) == lo + k,
            decreases cnt - j,
        {
            heights.push(lo + j);
            j = j + 1;
        }
        proof {
            assert(heights@ =~= height_run(lo, (node_top - old(self).last_top) as nat));
        }
        queue.push_heights(&heights);
        self.last_top = node_top;
    }
}

/// The startup gap scan: enqueue every height in `[0, top]` the store
/// lacks, in ascending order, then the completion sentinel.
///
/// `top` is the height of the node's current tip, fetched by the
/// caller.
pub fn fill_missing_heights(store: &Store, top: u64, queue: &mut SyncQueue) -> (r: Result<
    bool,
    MiddlewareError,
>)
    requires
        top < u64::MAX,
    ensures
        r == Ok::<bool, MiddlewareError>(true),
        final(queue)@ == old(queue)@ + gap_seq(store@, top).map_values(
            |x: u64| QueueEntry::Height(x),
        ) + seq![QueueEntry::BacklogCleared],
{
    let missing = store.missing_heights(top);
    proof {
        lemma_matches_gap_seq(store@, top, missing@);
    }
    queue.push_heights(&missing);
    queue.push(QueueEntry::BacklogCleared);
    proof {
        assert(queue@ =~= old(queue)@ + gap_seq(store@, top).map_values(
            |x: u64| QueueEntry::Height(x),
        ) + seq![QueueEntry::BacklogCleared]);
    }
    Ok(true)
}

/// Persist the outcome of one height's fetch.
///
/// A decoded generation must carry the requested height and satisfy the
/// structural invariant; it is then written as one atomic upsert. Every
/// failure leaves the store untouched and the height absent, where the
/// next gap scan finds it again — no height is silently lost.
pub fn ingest_generation(store: &mut Store, height: u64, fetched: FetchOutcome) -> (r: Result<
    (),
    MiddlewareError,
>)
    requires
        old(store).wf(),
    ensures
        final(store).wf(),
        match fetched {
            FetchOutcome::Fetched(g) => {
                &&& (g@.key_block.height == height && g@.wf()) ==> r == Ok::<
                    (),
                    MiddlewareError,
                >(()) && final(store)@ == old(store)@.insert(height, g@)
                &&& g@.key_block.height != height ==> r == Err::<(), MiddlewareError>(
                    MiddlewareError::Parse,
                ) && final(store)@ == old(store)@
                &&& (g@.key_block.height == height && !g@.wf()) ==> r == Err::<
                    (),
                    MiddlewareError,
                >(MiddlewareError::Consistency) && final(store)@ == old(store)@
            },
            FetchOutcome::NetworkFailed => r == Err::<(), MiddlewareError>(
                MiddlewareError::Network,
            ) && final(store)@ == old(store)@,
            FetchOutcome::ParseFailed => r == Err::<(), MiddlewareError>(MiddlewareError::Parse)
                && final(store)@ == old(store)@,
        },
{
    match fetched {
        FetchOutcome::Fetched(g) => {
            if g.key_block.height != height {
                Err(MiddlewareError::Parse)
            } else if !g.check_structure() {
                Err(MiddlewareError::Consistency)
            } else {
                store.put_generation(g);
                Ok(())
            }
        },
        FetchOutcome::NetworkFailed => Err(MiddlewareError::Network),
        FetchOutcome::ParseFailed => Err(MiddlewareError::Parse),
    }
}

/// All stored hashes below the reported top agree with the report.
pub open spec fn hashes_match(m: Map<u64, crate::chain::GenerationView>, cs: Seq<
    crate::chain::GenerationView,
>) -> bool {
    forall|k: u64|
        #[trigger] m.dom().contains(k) && k < cs.len() ==> m[k].key_block.hash == cs[
            k as int].key_block.hash
}

/// The store holds, at every height `cs` covers, a generation whose
/// key-block hash is the canonical one.
pub open spec fn covers_chain(m: Map<u64, crate::chain::GenerationView>, cs: Seq<
    crate::chain::GenerationView,
>) -> bool {
    forall|k: u64|
        k < cs.len() ==> #[trigger] m.dom().contains(k) && m[k].key_block.hash == cs[
            k as int].key_block.hash
}

/// Bring the store fully in step with the chain the node reports:
/// reconcile the first divergence, if any, then backfill every missing
/// height.
///
/// Afterwards the store holds, at every height the node covers, exactly
/// one generation whose key-block hash is the node's canonical hash at
/// that height.
pub fn sync_to_chain(store: &mut Store, chain: &NodeChain)
    requires
        old(store).wf(),
        chain_wf(chain@),
        1 <= chain@.len(),
    ensures
        final(store).wf(),
        covers_chain(final(store)@, chain@),
{
    match crate::fork::find_divergence(store, chain, 0) {
        Some(d) => {
            crate::fork::resync_from(store, chain, d);
            proof {
                assert forall|k: u64| #[trigger]
                    store@.dom().contains(k) && k < chain@.len() implies store@[k].key_block.hash
                    == chain@[k as int].key_block.hash by {
                    if k < d {
                        assert(!crate::fork::diverges_at(old(store)@, chain@, k));
                    }
                }
            }
        },
        None => {
            proof {
                assert forall|k: u64| #[trigger]
                    store@.dom().contains(k) && k < chain@.len() implies store@[k].key_block.hash
                    == chain@[k as int].key_block.hash by {
                    assert(!crate::fork::diverges_at(store@, chain@, k));
                }
            }
        },
    }
    let n = chain.gens.len();
    let top = (n - 1) as u64;
    let ghost dom1 = store@.dom();
    let ghost m1 = store@;
    let missing = store.missing_heights(top);
    let mut i: usize = 0;
    while i < missing.len()
        invariant
            store.wf(),
            chain_wf(chain@),
            chain@.len() == n as int,
            1 <= n,
            top == n - 1,
            i <= missing@.len(),
            forall|j: int| 0 <= j < missing@.len() ==> (#[trigger] missing@[j]) <= top,
            forall|k: u64| k <= top && !dom1.contains(k) ==> missing@.contains(k),
            hashes_match(store@, chain@),
            forall|k: u64| dom1.contains(k) ==> #[trigger] store@.dom().contains(k),
            forall|j: int| 0 <= j < i ==> store@.dom().contains(#[trigger] missing@[j]),
        decreases missing@.len() - i,
    {
        let h = missing[i];
        let idx: usize = h as usize;
        proof {
            assert(chain@[h as int] == chain.gens@[h as int]@);
        }
        let g = chain.gens[idx].duplicate();
        store.put_generation(g);
        proof {
            assert forall|k: u64| #[trigger]
                store@.dom().contains(k) && k < chain@.len() implies store@[k].key_block.hash
                == chain@[k as int].key_block.hash by {}
        }
        i = i + 1;
    }
    proof {
        assert forall|k: u64| k < chain@.len() implies #[trigger] store@.dom().contains(k)
            && store@[k].key_block.hash == chain@[k as int].key_block.hash by {
            if dom1.contains(k) {
            } else {
                assert(missing@.contains(k));
                let j = choose|j: int| 0 <= j < missing@.len() && missing@[j] == k;
                assert(store@.dom().contains(missing@[j]));
            }
            assert(store@.dom().contains(k));
            assert(store@[k].key_block.hash == chain@[k as int].key_block.hash);
        }
        assert(covers_chain(store@, chain@));
    }
}

/// An explicit, operator-triggered range load: ingest each listed
/// height straight from the reported chain, bypassing the queue.
///
/// It uses the same idempotent upsert as the live pipeline, so running
/// it over heights the pipeline also touches never yields duplicate or
/// inconsistent rows. Heights beyond the reported top cannot be loaded
/// and are returned instead of being silently dropped.
pub fn load_heights(store: &mut Store, chain: &NodeChain, heights: &Vec<u64>) -> (failed: Vec<u64>)
    requires
        old(store).wf(),
        chain_wf(chain@),
    ensures
        final(store).wf(),
        forall|k: u64|
            !heights@.contains(k) ==> #[trigger] final(store)@.dom().contains(k) == old(
                store,
            )@.dom().contains(k) && (old(store)@.dom().contains(k) ==> final(store)@[k] == old(
                store,
            )@[k]),
        forall|j: int|
            0 <= j < heights@.len() && heights@[j] < chain@.len() ==> final(store)@.dom().contains(
                #[trigger] heights@[j],
            ) && final(store)@[heights@[j]] == chain@[heights@[j] as int],
        forall|j: int|
            0 <= j < failed@.len() ==> (#[trigger] failed@[j]) >= chain@.len()
                && heights@.contains(failed@[j]),
        forall|j: int|
            0 <= j < heights@.len() && heights@[j] >= chain@.len() ==> failed@.contains(
                #[trigger] heights@[j],
            ),
{
    let n = chain.gens.len();
    let mut failed: Vec<u64> = Vec::new();
    let mut i: usize = 0;
    while i < heights.len()
        invariant
            store.wf(),
            chain_wf(chain@),
            chain@.len() == n as int,
            i <= heights@.len(),
            forall|k: u64|
                !heights@.contains(k) ==> #[trigger] store@.dom().contains(k) == old(
                    store,
                )@.dom().contains(k) && (old(store)@.dom().contains(k) ==> store@[k] == old(
                    store,
                )@[k]),
            forall|j: int|
                0 <= j < i && heights@[j] < chain@.len() ==> store@.dom().contains(
                    #[trigger] heights@[j],
                ) && store@[heights@[j]] == chain@[heights@[j] as int],
            forall|j: int|
                0 <= j < failed@.len() ==> (#[trigger] failed@[j]) >= chain@.len()
                    && heights@.contains(failed@[j]),
            forall|j: int|
                0 <= j < i && heights@[j] >= chain@.len() ==> failed@.contains(
                    #[trigger] heights@[j],
                ),
        decreases heights@.len() - i,
    {
        let h = heights[i];
        proof {
            assert(heights@.contains(heights@[i as int]));
        }
        if h < n as u64 {
            let idx: usize = h as usize;
            proof {
                assert(chain@[h as int] == chain.gens@[h as int]@);
            }
            let g = chain.gens[idx].duplicate();
            let ghost before = store@;
            store.put_generation(g);
            proof {
                assert forall|j: int|
                    0 <= j < i + 1 && heights@[j] < chain@.len() implies store@.dom().contains(
                    #[trigger] heights@[j],
                ) && store@[heights@[j]] == chain@[heights@[j] as int] by {
                    if heights@[j] != h {
                    }
                }
            }
        } else {
            let ghost failed0 = failed@;
            failed.push(h);
            proof {
                assert forall|j: int|
                    0 <= j < i + 1 && heights@[j] >= chain@.len() implies failed@.contains(
                    #[trigger] heights@[j],
                ) by {
                    if j < i {
                        assert(failed0.contains(heights@[j]));
                        let w = choose|w: int| 0 <= w < failed0.len() && failed0[w] == heights@[j];
                        assert(failed@[w] == heights@[j]);
                    } else {
                        assert(failed@[failed@.len() - 1] == heights@[j]);
                    }
                }
            }
        }
        i = i + 1;
    }
    failed
}

} // verus!
