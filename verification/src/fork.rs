//! Fork detection and reconciliation.
//!
//! The node's view is authoritative: when the store's key-block hash at
//! some height no longer matches the chain the node reports, everything
//! from the first divergent height up is rolled back and re-ingested.
//! Detection scans a window of heights; reconciliation deletes the rows
//! at and above the divergence and re-enqueues the affected range, or —
//! on the direct path — re-ingests it from the reported chain at once.

use vstd::prelude::*;

use crate::chain::GenerationView;
use crate::chain::string_eq;
use crate::node::NodeChain;
use crate::node::chain_wf;
use crate::queue::QueueEntry;
use crate::queue::SyncQueue;
use crate::store::Store;

verus! {

/// The store disagrees with the reported chain at height `h`: it holds
/// a generation there whose key-block hash is not the canonical one.
///
/// A height the store lacks is a gap, not a divergence — the gap
/// scanner owns it; a stored height beyond the reported top is the
/// audit pass's business.
pub open spec fn diverges_at(
    m: Map<u64, GenerationView>,
    cs: Seq<GenerationView>,
    h: u64,
) -> bool {
    m.dom().contains(h) && h < cs.len() && m[h].key_block.hash != cs[h as int].key_block.hash
}

/// The ascending run of `count` heights starting at `lo`.
pub open spec fn height_run(lo: u64, count: nat) -> Seq<u64> {
    Seq::new(count, |i: int| (lo + i) as u64)
}

/// Find the first height in `[from, top]` where the store diverges from
/// the reported chain, if any.
pub fn find_divergence(store: &Store, chain: &NodeChain, from: u64) -> (r: Option<u64>)
    requires
        store.wf(),
    ensures
        match r {
            Some(d) => from <= d < chain@.len() && diverges_at(store@, chain@, d) && forall|k: u64|
                from <= k < d ==> !diverges_at(store@, chain@, k),
            None => forall|k: u64| from <= k ==> !diverges_at(store@, chain@, k),
        },
{
    let n = chain.gens.len();
    let mut h = from;
    while h < n as u64
        invariant
            store.wf(),
            from <= h,
            chain@.len() == n as int,
            forall|k: u64| from <= k < h ==> !diverges_at(store@, chain@, k),
        decreases n as u64 - h,
    {
        let idx: usize = h as usize;
        proof {
            assert(chain@[h as int] == chain.gens@[h as int]@);
        }
        match store.key_block_hash_at(h) {
            Some(stored_hash) => {
                if !string_eq(&stored_hash, &chain.gens[idx].key_block.hash) {
                    return Some(h);
                }
            },
            None => {},
        }
        h = h + 1;
    }
    proof {
        assert forall|k: u64| from <= k implies !diverges_at(store@, chain@, k) by {
            if k < chain@.len() {
                assert(!diverges_at(store@, chain@, k));
            }
        }
    }
    None
}

/// Roll the store back to the node's view from height `from` on: delete
/// every row at `from` and above, then re-ingest `[from, top]` straight
/// from the reported chain.
///
/// Rows below `from` are untouched; afterwards every height in
/// `[from, top]` holds exactly the node's generation, and nothing is
/// stored above the reported top.
pub fn resync_from(store: &mut Store, chain: &NodeChain, from: u64)
    requires
        old(store).wf(),
        chain_wf(chain@),
    ensures
        final(store).wf(),
        forall|k: u64|
            k < from ==> #[trigger] final(store)@.dom().contains(k)
                == old(store)@.dom().contains(k) && (old(store)@.dom().contains(k)
                ==> final(store)@[k] == old(store)@[k]),
        forall|k: u64|
            from <= k < chain@.len() ==> #[trigger] final(store)@.dom().contains(k)
                && final(store)@[k] == chain@[k as int],
        forall|k: u64|
            k >= chain@.len() && k >= from ==> !(#[trigger] final(store)@.dom().contains(k)),
{
    store.delete_from_height(from);
    let n = chain.gens.len();
    let mut h = from;
    while h < n as u64
        invariant
            store.wf(),
            from <= h,
            h <= n as u64 || h == from,
            chain@.len() == n as int,
            chain_wf(chain@),
            forall|k: u64|
                k < from ==> #[trigger] store@.dom().contains(k) == old(store)@.dom().contains(k)
                    && (old(store)@.dom().contains(k) ==> store@[k] == old(store)@[k]),
            forall|k: u64|
                from <= k < h ==> #[trigger] store@.dom().contains(k) && store@[k] == chain@[
                    k as int],
            forall|k: u64| k >= h && k >= from ==> !(#[trigger] store@.dom().contains(k)),
        decreases n as u64 - h,
    {
        let idx: usize = h as usize;
        proof {
            assert(chain@[h as int] == chain.gens@[h as int]@);
        }
        let g = self_gen(chain, idx);
        store.put_generation(g);
        h = h + 1;
    }
}

/// A value-preserving copy of the chain's generation at `idx`.
fn self_gen(chain: &NodeChain, idx: usize) -> (g: crate::chain::Generation)
    requires
        idx < chain.gens@.len(),
    ensures
        g@ == chain.gens@[idx as int]@,
{
    chain.gens[idx].duplicate()
}

/// One pass of the fork detector over the window `[from, top]`.
///
/// If the stored chain segment matches the node's report, nothing
/// changes. Otherwise the first divergent height `d` is returned, every
/// stored row at `d` and above is deleted, and `[d, top]` is re-enqueued
/// for the ingestion worker — the node's view always wins.
pub fn detect_forks(store: &mut Store, chain: &NodeChain, from: u64, queue: &mut SyncQueue) -> (r:
    Option<u64>)
    requires
        old(store).wf(),
    ensures
        final(store).wf(),
        match r {
            None => {
                &&& final(store)@ == old(store)@
                &&& final(queue)@ == old(queue)@
                &&& forall|k: u64| from <= k ==> !diverges_at(old(store)@, chain@, k)
            },
            Some(d) => {
                &&& from <= d < chain@.len()
                &&& diverges_at(old(store)@, chain@, d)
                &&& forall|k: u64| from <= k < d ==> !diverges_at(old(store)@, chain@, k)
                &&& final(store)@ == old(store)@.remove_keys(Set::new(|k: u64| k >= d))
                &&& final(queue)@ == old(queue)@ + height_run(
                    d,
                    (chain@.len() - d) as nat,
                ).map_values(|x: u64| QueueEntry::Height(x))
            },
        },
{
    match find_divergence(store, chain, from) {
        None => None,
        Some(d) => {
            store.delete_from_height(d);
            let n = chain.gens.len();
            let mut heights: Vec<u64> = Vec::new();
            let mut h = d;
            while h < n as u64
                invariant
                    d <= h <= n as u64,
                    chain@.len() == n as int,
                    d < chain@.len(),
                    heights@.len() == h - d,
                    forall|j: int| 0 <= j < h - d ==> (#[trigger] heights@[j]) == d + j,
                decreases n as u64 - h,
            {
                heights.push(h);
                h = h + 1;
            }
            proof {
                assert(heights@ =~= height_run(d, (chain@.len() - d) as nat));
            }
            queue.push_heights(&heights);
            Some(d)
        },
    }
}

} // verus!
