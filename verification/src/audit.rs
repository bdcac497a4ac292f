//! The on-demand consistency check.
//!
//! For every height the store holds, compare the stored key-block hash
//! against the node's canonical hash at that height and report every
//! divergence found — not just the first. The audit mutates nothing;
//! reconciliation, if wanted, goes through the fork detector's path.

use vstd::prelude::*;

use crate::chain::GenerationView;
use crate::chain::string_eq;
use crate::node::NodeChain;
use crate::store::Store;

verus! {

/// The audit's finding at height `h`: the store holds a generation
/// there whose key-block hash is not the node's canonical one — or one
/// the node does not even cover.
pub open spec fn audit_diverges(
    m: Map<u64, GenerationView>,
    cs: Seq<GenerationView>,
    h: u64,
) -> bool {
    m.dom().contains(h) && (h >= cs.len() || m[h].key_block.hash != cs[h as int].key_block.hash)
}

/// Whether the audit flags height `h`.
fn divergent_at(store: &Store, chain: &NodeChain, h: u64) -> (b: bool)
    requires
        store.wf(),
    ensures
        b == audit_diverges(store@, chain@, h),
{
    match store.key_block_hash_at(h) {
        None => false,
        Some(stored_hash) => {
            if h < chain.gens.len() as u64 {
                let idx: usize = h as usize;
                proof {
                    assert(chain@[h as int] == chain.gens@[h as int]@);
                }
                !string_eq(&stored_hash, &chain.gens[idx].key_block.hash)
            } else {
                true
            }
        },
    }
}

/// Report every stored height whose key block diverges from the node's
/// canonical chain, in ascending order.
///
/// The result holds exactly the heights the audit flags: each listed
/// height diverges, and every divergent height is listed. The store is
/// read, never written.
pub fn verify(store: &Store, chain: &NodeChain) -> (r: Vec<u64>)
    requires
        store.wf(),
    ensures
        forall|i: int, j: int| #![trigger r@[i], r@[j]] 0 <= i < j < r@.len() ==> r@[i] < r@[j],
        forall|i: int| 0 <= i < r@.len() ==> audit_diverges(store@, chain@, #[trigger] r@[i]),
        forall|h: u64| audit_diverges(store@, chain@, h) ==> r@.contains(h),
{
    let mut r: Vec<u64> = Vec::new();
    let t = match store.top_height() {
        None => {
            return r;
        },
        Some(t) => t,
    };
    let mut h: u64 = 0;
    while h < t
        invariant
            store.wf(),
            h <= t,
            store@.dom().contains(t),
            forall|i: int, j: int| #![trigger r@[i], r@[j]] 0 <= i < j < r@.len() ==> r@[i] < r@[j],
            forall|i: int|
                0 <= i < r@.len() ==> audit_diverges(store@, chain@, #[trigger] r@[i]) && r@[i]
                    < h,
            forall|k: u64| k < h && audit_diverges(store@, chain@, k) ==> r@.contains(k),
        decreases t - h,
    {
        if divergent_at(store, chain, h) {
            let ghost r0 = r@;
            r.push(h);
            proof {
                assert forall|k: u64|
                    k < h + 1 && audit_diverges(store@, chain@, k) implies r@.contains(k) by {
                    if k < h {
                        assert(r0.contains(k));
                        let i = choose|i: int| 0 <= i < r0.len() && r0[i] == k;
                        assert(r@[i] == k);
                    } else {
                        assert(r@[r@.len() - 1] == k);
                    }
                }
            }
        }
        h = h + 1;
    }
    if divergent_at(store, chain, t) {
        let ghost r0 = r@;
        r.push(t);
        proof {
            assert forall|k: u64|
                k < t + 1 && audit_diverges(store@, chain@, k) implies r@.contains(k) by {
                if k < t {
                    assert(r0.contains(k));
                    let i = choose|i: int| 0 <= i < r0.len() && r0[i] == k;
                    assert(r@[i] == k);
                } else {
                    assert(r@[r@.len() - 1] == k);
                }
            }
        }
    }
    proof {
        assert forall|k: u64| audit_diverges(store@, chain@, k) implies r@.contains(k) by {
            if k > t {
                assert(store@.dom().contains(k));
                assert(false);
            }
        }
    }
    r
}

} // verus!
