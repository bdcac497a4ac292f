//! The node's canonical view of the chain, as plain data.
//!
//! The remote full node is reached over HTTP by unverified plumbing; what
//! the library reasons about is the content of its answers: a chain of
//! generations, one per height from zero up to the node's current top.
//! The node is authoritative — no local voting — so reconciliation and
//! the audit pass both compare the store against a value of this type.

use vstd::prelude::*;

use crate::chain::Generation;
use crate::chain::GenerationView;

verus! {

/// The chain the node reports: `gens[h]` is its generation at height
/// `h`, and the last entry is the node's current top.
pub struct NodeChain {
    pub gens: Vec<Generation>,
}

impl View for NodeChain {
    type V = Seq<GenerationView>;

    open spec fn view(&self) -> Seq<GenerationView> {
        self.gens@.map_values(|g: Generation| g@)
    }
}

/// A reported chain is coherent when every generation is structurally
/// well formed and sits at the height of its position.
pub open spec fn chain_wf(cs: Seq<GenerationView>) -> bool {
    forall|i: int|
        0 <= i < cs.len() ==> (#[trigger] cs[i]).wf() && cs[i].key_block.height == i
}

impl NodeChain {
    /// The node's current top height; meaningful on a non-empty chain.
    pub open spec fn top_spec(&self) -> int {
        self@.len() - 1
    }

    /// The node's current top height.
    pub fn top(&self) -> (t: u64)
        requires
            1 <= self@.len() <= u64::MAX,
        ensures
            t == self.top_spec(),
    {
        (self.gens.len() - 1) as u64
    }

    /// The reported generation at height `h`.
    pub fn generation_at(&self, h: u64) -> (r: Option<&Generation>)
        ensures
            match r {
                Some(g) => h < self@.len() && g@ == self@[h as int],
                None => h >= self@.len(),
            },
    {
        let n = self.gens.len();
        if h < n as u64 {
            let idx: usize = h as usize;
            proof {
                assert(idx as int == h as int);
                assert(self@[h as int] == self.gens@[h as int]@);
            }
            Some(&self.gens[idx])
        } else {
            None
        }
    }

    /// Whether the reported chain is coherent: heights in position and
    /// every generation structurally well formed.
    pub fn check_coherent(&self) -> (b: bool)
        ensures
            b == chain_wf(self@),
    {
        let mut i: usize = 0;
        let mut ok = true;
        while i < self.gens.len()
            invariant
                i <= self.gens@.len(),
                self@.len() == self.gens@.len(),
                ok == forall|k: int|
                    0 <= k < i ==> (#[trigger] self@[k]).wf() && self@[k].key_block.height == k,
            decreases self.gens@.len() - i,
        {
            proof {
                assert(self@[i as int] == self.gens@[i as int]@);
            }
            let g = &self.gens[i];
            let here_ok = if i as u64 == g.key_block.height {
                g.check_structure()
            } else {
                false
            };
            if !here_ok {
                ok = false;
            }
            i = i + 1;
        }
        ok
    }
}

} // verus!
