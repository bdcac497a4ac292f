//! The relational store, modelled as a map from height to generation.
//!
//! All mutation funnels through two operations. `put_generation` is the
//! atomic, idempotent per-height upsert: the rows of a height are
//! replaced as one unit, so a height is either fully present or fully
//! absent and re-ingesting an unchanged height leaves the store as it
//! was. `delete_from_height` is the reconciliation path's rollback: it
//! removes every row at or above a height and touches nothing below.
//!
//! The store's value is the map it holds: `view` gives a
//! `Map<u64, GenerationView>`, and every contract is stated over it.

use vstd::prelude::*;

use crate::chain::Generation;
use crate::chain::GenerationView;

verus! {

/// No two generations claim the same height.
pub open spec fn heights_unique(s: Seq<GenerationView>) -> bool {
    forall|i: int, j: int|
        #![trigger s[i].key_block.height, s[j].key_block.height]
        0 <= i < j < s.len() ==> s[i].key_block.height != s[j].key_block.height
}

/// Some generation in `s` sits at height `h`.
pub open spec fn has_height(s: Seq<GenerationView>, h: u64) -> bool {
    exists|i: int| 0 <= i < s.len() && (#[trigger] s[i]).key_block.height == h
}

/// The generation of `s` at height `h` (meaningful when `has_height`).
pub open spec fn gen_at(s: Seq<GenerationView>, h: u64) -> GenerationView {
    s[choose|i: int| 0 <= i < s.len() && (#[trigger] s[i]).key_block.height == h]
}

/// The map that a sequence of generations represents.
pub open spec fn map_of(s: Seq<GenerationView>) -> Map<u64, GenerationView> {
    Map::new(|h: u64| has_height(s, h), |h: u64| gen_at(s, h))
}

/// `v` occurs in `s` at or beyond index `lo`.
spec fn taken_from(s: Seq<GenerationView>, lo: int, v: GenerationView) -> bool {
    exists|j0: int| lo <= j0 < s.len() && s[j0] == v
}

/// When `s` has unique heights, the generation at index `i` is exactly
/// what the represented map holds at its height.
proof fn lemma_gen_at_index(s: Seq<GenerationView>, i: int)
    requires
        heights_unique(s),
        0 <= i < s.len(),
    ensures
        has_height(s, s[i].key_block.height),
        gen_at(s, s[i].key_block.height) == s[i],
{
    let h = s[i].key_block.height;
    assert(has_height(s, h));
    let j = choose|j: int| 0 <= j < s.len() && (#[trigger] s[j]).key_block.height == h;
    if j != i {
        assert(s[i].key_block.height != s[j].key_block.height);
        assert(false);
    }
}

/// Replacing the one generation at `g`'s height and appending `g`
/// updates the represented map at that single key.
proof fn lemma_map_after_replace(oldv: Seq<GenerationView>, i: int, g: GenerationView)
    requires
        heights_unique(oldv),
        0 <= i < oldv.len(),
        oldv[i].key_block.height == g.key_block.height,
    ensures
        heights_unique(oldv.remove(i).push(g)),
        map_of(oldv.remove(i).push(g)) =~= map_of(oldv).insert(g.key_block.height, g),
{
    let h = g.key_block.height;
    let newv = oldv.remove(i).push(g);
    oldv.remove_ensures(i);
    assert forall|p: int, q: int|
        0 <= p < q < newv.len() implies #[trigger] newv[p].key_block.height
        != #[trigger] newv[q].key_block.height by {
        if q == newv.len() - 1 {
            // newv[q] is g; newv[p] comes from oldv at an index other than i
            if p < i {
                assert(newv[p] == oldv[p]);
                assert(oldv[p].key_block.height != oldv[i].key_block.height);
            } else {
                assert(newv[p] == oldv[p + 1]);
                assert(oldv[i].key_block.height != oldv[p + 1].key_block.height);
            }
        } else {
            let p0: int = if p < i {
                p
            } else {
                p + 1
            };
            let q0: int = if q < i {
                q
            } else {
                q + 1
            };
            assert(newv[p] == oldv[p0]);
            assert(newv[q] == oldv[q0]);
            assert(oldv[p0].key_block.height != oldv[q0].key_block.height);
        }
    }
    assert forall|k: u64| #[trigger]
        has_height(newv, k) implies has_height(oldv, k) || k == h by {
        let j = choose|j: int| 0 <= j < newv.len() && (#[trigger] newv[j]).key_block.height == k;
        if j == newv.len() - 1 {
            assert(k == h);
        } else if j < i {
            assert(newv[j] == oldv[j]);
            assert(has_height(oldv, k));
        } else {
            assert(newv[j] == oldv[j + 1]);
            assert(has_height(oldv, k));
        }
    }
    assert forall|k: u64| has_height(oldv, k) implies #[trigger] has_height(newv, k) by {
        let j = choose|j: int| 0 <= j < oldv.len() && (#[trigger] oldv[j]).key_block.height == k;
        if k == h {
            assert(newv[newv.len() - 1] == g);
            assert(has_height(newv, k));
        } else {
            if j < i {
                assert(newv[j] == oldv[j]);
            } else {
                if j == i {
                    assert(oldv[j].key_block.height == h);
                    assert(false);
                }
                assert(newv[j - 1] == oldv[j]);
            }
            assert(has_height(newv, k));
        }
    }
    assert(has_height(newv, h)) by {
        assert(newv[newv.len() - 1] == g);
    }
    assert forall|k: u64| #[trigger]
        map_of(newv).dom().contains(k) implies map_of(newv)[k] == map_of(oldv).insert(h, g)[k] by {
        let j = choose|j: int| 0 <= j < newv.len() && (#[trigger] newv[j]).key_block.height == k;
        lemma_gen_at_index(newv, j);
        if k == h {
            if j != newv.len() - 1 {
                let j0: int = if j < i {
                    j
                } else {
                    j + 1
                };
                assert(newv[j] == oldv[j0]);
                if j0 != i {
                    assert(oldv[j0].key_block.height != oldv[i].key_block.height);
                }
                assert(false);
            }
            assert(gen_at(newv, k) == g);
        } else {
            let j0: int = if j < i {
                j
            } else {
                j + 1
            };
            assert(newv[j] == oldv[j0]);
            lemma_gen_at_index(oldv, j0);
            assert(gen_at(newv, k) == gen_at(oldv, k));
        }
    }
}

/// Appending a generation at a fresh height updates the represented map
/// at that single key.
proof fn lemma_map_after_push(oldv: Seq<GenerationView>, g: GenerationView)
    requires
        heights_unique(oldv),
        !has_height(oldv, g.key_block.height),
    ensures
        heights_unique(oldv.push(g)),
        map_of(oldv.push(g)) =~= map_of(oldv).insert(g.key_block.height, g),
{
    let h = g.key_block.height;
    let newv = oldv.push(g);
    assert forall|p: int, q: int|
        0 <= p < q < newv.len() implies #[trigger] newv[p].key_block.height
        != #[trigger] newv[q].key_block.height by {
        if q == newv.len() - 1 {
            assert(newv[p] == oldv[p]);
            if oldv[p].key_block.height == h {
                assert(has_height(oldv, h));
                assert(false);
            }
        } else {
            assert(newv[p] == oldv[p]);
            assert(newv[q] == oldv[q]);
        }
    }
    assert forall|k: u64| #[trigger]
        has_height(newv, k) implies has_height(oldv, k) || k == h by {
        let j = choose|j: int| 0 <= j < newv.len() && (#[trigger] newv[j]).key_block.height == k;
        if j < newv.len() - 1 {
            assert(newv[j] == oldv[j]);
            assert(has_height(oldv, k));
        }
    }
    assert forall|k: u64| has_height(oldv, k) implies #[trigger] has_height(newv, k) by {
        let j = choose|j: int| 0 <= j < oldv.len() && (#[trigger] oldv[j]).key_block.height == k;
        assert(newv[j] == oldv[j]);
    }
    assert(has_height(newv, h)) by {
        assert(newv[newv.len() - 1] == g);
    }
    assert forall|k: u64| #[trigger]
        map_of(newv).dom().contains(k) implies map_of(newv)[k] == map_of(oldv).insert(h, g)[k] by {
        let j = choose|j: int| 0 <= j < newv.len() && (#[trigger] newv[j]).key_block.height == k;
        lemma_gen_at_index(newv, j);
        if k == h {
            if j != newv.len() - 1 {
                assert(newv[j] == oldv[j]);
                assert(has_height(oldv, h));
                assert(false);
            }
            assert(gen_at(newv, k) == g);
        } else {
            assert(j < newv.len() - 1);
            assert(newv[j] == oldv[j]);
            lemma_gen_at_index(oldv, j);
            assert(gen_at(newv, k) == gen_at(oldv, k));
        }
    }
}

/// A filtered selection with the same values below `h` represents the
/// original map with every key at or above `h` removed.
proof fn lemma_map_of_filtered(oldv: Seq<GenerationView>, keptv: Seq<GenerationView>, h: u64)
    requires
        heights_unique(oldv),
        heights_unique(keptv),
        forall|j: int|
            0 <= j < keptv.len() ==> (#[trigger] keptv[j]).key_block.height < h && exists|j0: int|
                0 <= j0 < oldv.len() && oldv[j0] == keptv[j],
        forall|j0: int|
            0 <= j0 < oldv.len() && (#[trigger] oldv[j0]).key_block.height < h ==> has_height(
                keptv,
                oldv[j0].key_block.height,
            ),
    ensures
        map_of(keptv) =~= map_of(oldv).remove_keys(Set::new(|k: u64| k >= h)),
{
    assert forall|k: u64| #[trigger]
        has_height(keptv, k) implies has_height(oldv, k) && k < h by {
        let j = choose|j: int| 0 <= j < keptv.len() && (#[trigger] keptv[j]).key_block.height == k;
        let j0 = choose|j0: int| 0 <= j0 < oldv.len() && oldv[j0] == keptv[j];
        assert(oldv[j0].key_block.height == k);
    }
    assert forall|k: u64| has_height(oldv, k) && k < h implies #[trigger] has_height(
        keptv,
        k,
    ) by {
        let j0 = choose|j0: int| 0 <= j0 < oldv.len() && (#[trigger] oldv[j0]).key_block.height
            == k;
        assert(oldv[j0].key_block.height < h);
    }
    assert forall|k: u64| #[trigger]
        map_of(keptv).dom().contains(k) implies map_of(keptv)[k] == map_of(oldv)[k] by {
        let j = choose|j: int| 0 <= j < keptv.len() && (#[trigger] keptv[j]).key_block.height == k;
        lemma_gen_at_index(keptv, j);
        let j0 = choose|j0: int| 0 <= j0 < oldv.len() && oldv[j0] == keptv[j];
        lemma_gen_at_index(oldv, j0);
        assert(gen_at(keptv, k) == gen_at(oldv, k));
    }
}

/// The relational store: every generation that has been ingested, at
/// most one per height.
pub struct Store {
    gens: Vec<Generation>,
}

impl View for Store {
    type V = Map<u64, GenerationView>;

    closed spec fn view(&self) -> Map<u64, GenerationView> {
        map_of(self.gviews())
    }
}

impl Store {
    /// The stored generations as mathematical values.
    closed spec fn gviews(&self) -> Seq<GenerationView> {
        self.gens@.map_values(|g: Generation| g@)
    }

    /// The store's invariant: one generation per height, each one
    /// structurally well formed.
    pub closed spec fn wf(&self) -> bool {
        &&& heights_unique(self.gviews())
        &&& forall|i: int| 0 <= i < self.gviews().len() ==> (#[trigger] self.gviews()[i]).wf()
    }

    /// Everything the store holds is well formed and keyed by its own
    /// height.
    pub proof fn lemma_stored_wf(&self)
        requires
            self.wf(),
        ensures
            forall|h: u64|
                self@.dom().contains(h) ==> (#[trigger] self@[h]).wf() && self@[h].key_block.height
                    == h,
    {
        assert forall|h: u64| self@.dom().contains(h) implies (#[trigger] self@[h]).wf()
            && self@[h].key_block.height == h by {
            let s = self.gviews();
            let j = choose|j: int| 0 <= j < s.len() && (#[trigger] s[j]).key_block.height == h;
            lemma_gen_at_index(s, j);
        }
    }

    /// An empty store.
    pub fn new() -> (s: Store)
        ensures
            s.wf(),
            s@ =~= Map::<u64, GenerationView>::empty(),
    {
        let s = Store { gens: Vec::new() };
        proof {
            assert forall|k: u64| !(#[trigger] has_height(s.gviews(), k)) by {}
        }
        s
    }

    /// The index holding height `h`, if any.
    fn index_of_height(&self, h: u64) -> (r: Option<usize>)
        ensures
            match r {
                Some(i) => i < self.gens@.len() && self.gviews()[i as int].key_block.height == h,
                None => !has_height(self.gviews(), h),
            },
    {
        let mut i: usize = 0;
        while i < self.gens.len()
            invariant
                i <= self.gens@.len(),
                forall|k: int| 0 <= k < i ==> (#[trigger] self.gviews()[k]).key_block.height != h,
            decreases self.gens@.len() - i,
        {
            if self.gens[i].key_block.height == h {
                return Some(i);
            }
            i = i + 1;
        }
        None
    }

    /// Whether a generation is stored at height `h`.
    pub fn height_present(&self, h: u64) -> (b: bool)
        ensures
            b == self@.dom().contains(h),
    {
        self.index_of_height(h).is_some()
    }

    /// The stored generation at height `h`.
    pub fn get_generation(&self, h: u64) -> (r: Option<&Generation>)
        requires
            self.wf(),
        ensures
            match r {
                Some(g) => self@.dom().contains(h) && g@ == self@[h],
                None => !self@.dom().contains(h),
            },
    {
        match self.index_of_height(h) {
            Some(i) => {
                proof {
                    lemma_gen_at_index(self.gviews(), i as int);
                }
                Some(&self.gens[i])
            },
            None => None,
        }
    }

    /// The hash of the stored key block at height `h`.
    pub fn key_block_hash_at(&self, h: u64) -> (r: Option<String>)
        requires
            self.wf(),
        ensures
            match r {
                Some(s) => self@.dom().contains(h) && s@ == self@[h].key_block.hash,
                None => !self@.dom().contains(h),
            },
    {
        match self.get_generation(h) {
            Some(g) => Some(g.key_block.hash.clone()),
            None => None,
        }
    }

    /// The greatest stored height, or `None` on an empty store.
    pub fn top_height(&self) -> (r: Option<u64>)
        ensures
            match r {
                Some(t) => self@.dom().contains(t) && forall|k: u64|
                    self@.dom().contains(k) ==> k <= t,
                None => self@.dom() =~= Set::<u64>::empty(),
            },
    {
        if self.gens.len() == 0 {
            proof {
                assert forall|k: u64| !(#[trigger] has_height(self.gviews(), k)) by {}
            }
            return None;
        }
        let mut best: u64 = self.gens[0].key_block.height;
        let mut i: usize = 1;
        proof {
            assert(self.gviews()[0] == self.gens@[0]@);
        }
        while i < self.gens.len()
            invariant
                1 <= i <= self.gens@.len(),
                self.gens@.len() > 0,
                exists|k: int|
                    0 <= k < i && (#[trigger] self.gviews()[k]).key_block.height == best,
                forall|k: int|
                    0 <= k < i ==> (#[trigger] self.gviews()[k]).key_block.height <= best,
            decreases self.gens@.len() - i,
        {
            proof {
                assert(self.gviews()[i as int] == self.gens@[i as int]@);
            }
            if self.gens[i].key_block.height > best {
                best = self.gens[i].key_block.height;
            }
            i = i + 1;
        }
        proof {
            assert(has_height(self.gviews(), best));
            assert forall|k: u64| self@.dom().contains(k) implies k <= best by {
                let s = self.gviews();
                let j = choose|j: int| 0 <= j < s.len() && (#[trigger] s[j]).key_block.height == k;
            }
        }
        Some(best)
    }

    /// The atomic, idempotent upsert: replace whatever the store holds at
    /// the generation's height with the generation's rows, as one unit.
    ///
    /// Re-ingesting an already-present, unchanged generation leaves the
    /// store exactly as it was.
    pub fn put_generation(&mut self, g: Generation)
        requires
            old(self).wf(),
            g@.wf(),
        ensures
            final(self).wf(),
            final(self)@ == old(self)@.insert(g@.key_block.height, g@),
            old(self)@.dom().contains(g@.key_block.height) && old(self)@[g@.key_block.height]
                == g@ ==> final(self)@ == old(self)@,
    {
        let ghost oldv = self.gviews();
        let ghost gv = g@;
        let h = g.key_block.height;
        match self.index_of_height(h) {
            Some(i) => {
                let _replaced = self.gens.remove(i);
                self.gens.push(g);
                proof {
                    assert(self.gviews() =~= oldv.remove(i as int).push(gv)) by {
                        oldv.remove_ensures(i as int);
                        self.gens@.map_values(|g2: Generation| g2@).remove_ensures(i as int);
                    }
                    lemma_map_after_replace(oldv, i as int, gv);
                }
            },
            None => {
                self.gens.push(g);
                proof {
                    assert(self.gviews() =~= oldv.push(gv));
                    lemma_map_after_push(oldv, gv);
                }
            },
        }
        proof {
            assert forall|i: int|
                0 <= i < self.gviews().len() implies (#[trigger] self.gviews()[i]).wf() by {
                if i < self.gviews().len() - 1 {
                } else {
                    assert(self.gviews()[i] == gv);
                }
            }
            if old(self)@.dom().contains(gv.key_block.height) && old(self)@[gv.key_block.height]
                == gv {
                assert(old(self)@.insert(gv.key_block.height, gv) =~= old(self)@);
            }
        }
    }

    /// The reconciliation rollback: delete every row at height `h` and
    /// above, leaving everything below `h` untouched.
    pub fn delete_from_height(&mut self, h: u64)
        requires
            old(self).wf(),
        ensures
            final(self).wf(),
            final(self)@ == old(self)@.remove_keys(Set::new(|k: u64| k >= h)),
            forall|k: u64|
                #![auto]
                old(self)@.dom().contains(k) && k < h ==> final(self)@.dom().contains(k)
                    && final(self)@[k] == old(self)@[k],
            forall|k: u64| k >= h ==> !final(self)@.dom().contains(k),
    {
        let ghost oldv = self.gviews();
        let mut kept: Vec<Generation> = Vec::new();
        while self.gens.len() > 0
            invariant
                self.gviews() =~= oldv.take(self.gens@.len() as int),
                self.gens@.len() <= oldv.len(),
                heights_unique(oldv),
                forall|i: int| 0 <= i < oldv.len() ==> (#[trigger] oldv[i]).wf(),
                heights_unique(kept@.map_values(|g: Generation| g@)),
                forall|j: int|
                    0 <= j < kept@.len() ==> (#[trigger] kept@[j])@.key_block.height < h
                        && taken_from(oldv, self.gens@.len() as int, kept@[j]@),
                forall|j0: int|
                    self.gens@.len() <= j0 < oldv.len() && (
                    #[trigger] oldv[j0]).key_block.height < h ==> has_height(
                        kept@.map_values(|g: Generation| g@),
                        oldv[j0].key_block.height,
                    ),
            decreases self.gens@.len(),
        {
            let ghost n = self.gens@.len() as int;
            let ghost prevgens = self.gens@;
            let ghost keptv0 = kept@.map_values(|g: Generation| g@);
            let g = self.gens.pop().unwrap();
            proof {
                assert(g@ == oldv[n - 1]) by {
                    assert(prevgens.map_values(|g2: Generation| g2@)[n - 1] == oldv.take(n)[n
                        - 1]);
                    assert(oldv.take(n)[n - 1] == oldv[n - 1]);
                }
                assert(self.gviews() =~= oldv.take(n - 1)) by {
                    assert(self.gens@ =~= prevgens.drop_last());
                }
            }
            if g.key_block.height < h {
                kept.push(g);
                proof {
                    let keptv = kept@.map_values(|g2: Generation| g2@);
                    assert(keptv =~= keptv0.push(oldv[n - 1]));
                    assert forall|j: int|
                        0 <= j < kept@.len() implies (#[trigger] kept@[j])@.key_block.height < h
                        && taken_from(oldv, n - 1, kept@[j]@) by {
                        if j < kept@.len() - 1 {
                            let j0 = choose|j0: int|
                                n <= j0 < oldv.len() && oldv[j0] == keptv0[j];
                            assert(keptv0[j] == kept@[j]@);
                            assert(n - 1 <= j0 < oldv.len() && oldv[j0] == kept@[j]@);
                        } else {
                            assert(kept@[j]@ == oldv[n - 1]);
                            assert(n - 1 <= n - 1 < oldv.len() && oldv[n - 1] == kept@[j]@);
                        }
                    }
                    assert forall|p: int, q: int|
                        0 <= p < q < keptv.len() implies #[trigger] keptv[p].key_block.height
                        != #[trigger] keptv[q].key_block.height by {
                        if q == keptv.len() - 1 {
                            assert(keptv0[p] == kept@[p]@);
                            let j0 = choose|j0: int| n <= j0 < oldv.len() && oldv[j0] == keptv0[p];
                            assert(oldv[n - 1].key_block.height != oldv[j0].key_block.height);
                        } else {
                            assert(keptv[p] == keptv0[p]);
                            assert(keptv[q] == keptv0[q]);
                        }
                    }
                    assert forall|j0: int|
                        n - 1 <= j0 < oldv.len() && (#[trigger] oldv[j0]).key_block.height
                            < h implies has_height(keptv, oldv[j0].key_block.height) by {
                        if j0 == n - 1 {
                            assert(keptv[keptv.len() - 1] == oldv[n - 1]);
                        } else {
                            let w = choose|w: int|
                                0 <= w < keptv0.len() && (#[trigger] keptv0[w]).key_block.height
                                    == oldv[j0].key_block.height;
                            assert(keptv[w] == keptv0[w]);
                        }
                    }
                }
            } else {
                proof {
                    assert forall|j: int|
                        0 <= j < kept@.len() implies (#[trigger] kept@[j])@.key_block.height < h
                        && taken_from(oldv, n - 1, kept@[j]@) by {
                        let j0 = choose|j0: int| n <= j0 < oldv.len() && oldv[j0] == kept@[j]@;
                        assert(n - 1 <= j0 < oldv.len() && oldv[j0] == kept@[j]@);
                    }
                }
            }
        }
        self.gens = kept;
        proof {
            let keptv = self.gviews();
            assert forall|j: int|
                0 <= j < keptv.len() implies (#[trigger] keptv[j]).key_block.height < h && exists|
                j0: int,
            | 0 <= j0 < oldv.len() && oldv[j0] == keptv[j] by {
                assert(keptv[j] == kept@[j]@);
                let j0 = choose|j0: int| 0 <= j0 < oldv.len() && oldv[j0] == kept@[j]@;
                assert(0 <= j0 < oldv.len() && oldv[j0] == keptv[j]);
            }
            lemma_map_of_filtered(oldv, keptv, h);
            assert forall|i: int| 0 <= i < keptv.len() implies (#[trigger] keptv[i]).wf() by {
                let j0 = choose|j0: int| 0 <= j0 < oldv.len() && oldv[j0] == keptv[i];
            }
            assert forall|k: u64|
                #![auto]
                old(self)@.dom().contains(k) && k < h implies self@.dom().contains(k) && self@[k]
                == old(self)@[k] by {}
        }
    }

    /// Heights `[0, top]` that the store does not hold, strictly
    /// ascending, without duplicates.
    ///
    /// The result is exactly `{0, …, top}` minus the stored heights:
    /// membership and order pin it down completely, so repeated calls
    /// with no intervening writes return the same sequence (see
    /// `lemma_gap_scan_deterministic`). The result must be countable,
    /// so `top` stays below the largest height value.
    pub fn missing_heights(&self, top: u64) -> (r: Vec<u64>)
        requires
            top < u64::MAX,
        ensures
            forall|i: int, j: int|
                #![trigger r@[i], r@[j]]
                0 <= i < j < r@.len() ==> r@[i] < r@[j],
            forall|i: int|
                0 <= i < r@.len() ==> (#[trigger] r@[i]) <= top && !self@.dom().contains(r@[i]),
            forall|k: u64| k <= top && !self@.dom().contains(k) ==> r@.contains(k),
    {
        let mut r: Vec<u64> = Vec::new();
        let mut hh: u64 = 0;
        while hh <= top
            invariant
                top < u64::MAX,
                hh <= top + 1,
                forall|i: int, j: int|
                    #![trigger r@[i], r@[j]]
                    0 <= i < j < r@.len() ==> r@[i] < r@[j],
                forall|i: int|
                    0 <= i < r@.len() ==> (#[trigger] r@[i]) < hh && !self@.dom().contains(r@[i]),
                forall|k: u64| k < hh && !self@.dom().contains(k) ==> r@.contains(k),
            decreases top + 1 - hh,
        {
            if !self.height_present(hh) {
                let ghost r0 = r@;
                r.push(hh);
                proof {
                    assert forall|k: u64|
                        k < hh + 1 && !self@.dom().contains(k) implies r@.contains(k) by {
                        if k < hh {
                            assert(r0.contains(k));
                            let i = choose|i: int| 0 <= i < r0.len() && r0[i] == k;
                            assert(r@[i] == k);
                        } else {
                            assert(r@[r@.len() - 1] == k);
                        }
                    }
                }
            }
            hh = hh + 1;
        }
        r
    }
}

/// The ascending sequence of heights in `[0, top]` that `m` lacks: what
/// the gap scanner owes the sync queue.
pub open spec fn gap_seq(m: Map<u64, GenerationView>, top: u64) -> Seq<u64>
    decreases top,
{
    let rest = if top == 0 {
        Seq::<u64>::empty()
    } else {
        gap_seq(m, (top - 1) as u64)
    };
    if m.dom().contains(top) {
        rest
    } else {
        rest.push(top)
    }
}

/// `gap_seq` is strictly ascending and holds exactly the heights up to
/// `top` that `m` lacks.
pub proof fn lemma_gap_seq_props(m: Map<u64, GenerationView>, top: u64)
    ensures
        forall|i: int, j: int|
            #![trigger gap_seq(m, top)[i], gap_seq(m, top)[j]]
            0 <= i < j < gap_seq(m, top).len() ==> gap_seq(m, top)[i] < gap_seq(m, top)[j],
        forall|i: int|
            0 <= i < gap_seq(m, top).len() ==> (#[trigger] gap_seq(m, top)[i]) <= top
                && !m.dom().contains(gap_seq(m, top)[i]),
        forall|k: u64| k <= top && !m.dom().contains(k) ==> gap_seq(m, top).contains(k),
    decreases top,
{
    let s = gap_seq(m, top);
    if top == 0 {
        if !m.dom().contains(0u64) {
            assert(s[0] == 0u64);
            assert forall|k: u64| k <= top && !m.dom().contains(k) implies s.contains(k) by {
                assert(s[0] == k);
            }
        }
    } else {
        let prev = (top - 1) as u64;
        lemma_gap_seq_props(m, prev);
        let rest = gap_seq(m, prev);
        assert forall|k: u64| k <= top && !m.dom().contains(k) implies s.contains(k) by {
            if k <= prev {
                assert(rest.contains(k));
                let i = choose|i: int| 0 <= i < rest.len() && rest[i] == k;
                assert(s[i] == k);
            } else {
                assert(k == top);
                assert(!m.dom().contains(top));
                assert(s[s.len() - 1] == top);
            }
        }
    }
}

/// A result with the members and order that `missing_heights` promises
/// is exactly the gap sequence.
pub proof fn lemma_matches_gap_seq(m: Map<u64, GenerationView>, top: u64, r: Seq<u64>)
    requires
        forall|i: int, j: int| #![trigger r[i], r[j]] 0 <= i < j < r.len() ==> r[i] < r[j],
        forall|i: int| 0 <= i < r.len() ==> (#[trigger] r[i]) <= top && !m.dom().contains(r[i]),
        forall|k: u64| k <= top && !m.dom().contains(k) ==> r.contains(k),
    ensures
        r =~= gap_seq(m, top),
{
    lemma_gap_seq_props(m, top);
    let s = gap_seq(m, top);
    assert forall|k: u64| r.contains(k) implies s.contains(k) by {
        let i = choose|i: int| 0 <= i < r.len() && r[i] == k;
        assert(r[i] <= top && !m.dom().contains(r[i]));
    }
    assert forall|k: u64| s.contains(k) implies r.contains(k) by {
        let i = choose|i: int| 0 <= i < s.len() && s[i] == k;
        assert(s[i] <= top && !m.dom().contains(s[i]));
    }
    lemma_ascending_same_members(r, s);
}

/// A height that failed to ingest is still discoverable: as long as the
/// store lacks it, every gap scan up to a top that covers it lists it.
pub proof fn lemma_failed_height_discoverable(m: Map<u64, GenerationView>, h: u64, top: u64)
    requires
        !m.dom().contains(h),
        h <= top,
    ensures
        gap_seq(m, top).contains(h),
{
    lemma_gap_seq_props(m, top);
}

/// Two strictly ascending sequences with the same members are equal:
/// the order and the set of members pin the sequence down. This is why a
/// gap scan is idempotent — any two scans of an unchanged store agree.
pub proof fn lemma_ascending_same_members(a: Seq<u64>, b: Seq<u64>)
    requires
        forall|i: int, j: int| #![trigger a[i], a[j]] 0 <= i < j < a.len() ==> a[i] < a[j],
        forall|i: int, j: int| #![trigger b[i], b[j]] 0 <= i < j < b.len() ==> b[i] < b[j],
        forall|k: u64| a.contains(k) <==> b.contains(k),
    ensures
        a =~= b,
    decreases a.len(),
{
    if a.len() == 0 {
        if b.len() > 0 {
            assert(b.contains(b[0]));
            assert(a.contains(b[0]));
            assert(false);
        }
    } else {
        assert(a.contains(a[0]));
        assert(b.contains(a[0]));
        if b.len() == 0 {
            assert(false);
        }
        // the heads are both the minimum of the common member set
        let ia = choose|i: int| 0 <= i < b.len() && b[i] == a[0];
        assert(b.contains(b[0]));
        assert(a.contains(b[0]));
        let ib = choose|i: int| 0 <= i < a.len() && a[i] == b[0];
        assert(a[0] <= a[ib]);
        assert(b[0] <= b[ia]);
        assert(a[0] == b[0]);
        let a1 = a.skip(1);
        let b1 = b.skip(1);
        assert forall|i: int, j: int|
            #![trigger a1[i], a1[j]]
            0 <= i < j < a1.len() implies a1[i] < a1[j] by {
            assert(a1[i] == a[i + 1]);
            assert(a1[j] == a[j + 1]);
        }
        assert forall|i: int, j: int|
            #![trigger b1[i], b1[j]]
            0 <= i < j < b1.len() implies b1[i] < b1[j] by {
            assert(b1[i] == b[i + 1]);
            assert(b1[j] == b[j + 1]);
        }
        assert forall|k: u64| a1.contains(k) implies b1.contains(k) by {
            let i = choose|i: int| 0 <= i < a1.len() && a1[i] == k;
            assert(a[i + 1] == k);
            assert(a.contains(k));
            assert(b.contains(k));
            let j = choose|j: int| 0 <= j < b.len() && b[j] == k;
            assert(a[0] < a[i + 1]);
            if j == 0 {
                assert(false);
            }
            assert(b1[j - 1] == k);
        }
        assert forall|k: u64| b1.contains(k) implies a1.contains(k) by {
            let i = choose|i: int| 0 <= i < b1.len() && b1[i] == k;
            assert(b[i + 1] == k);
            assert(b.contains(k));
            assert(a.contains(k));
            let j = choose|j: int| 0 <= j < a.len() && a[j] == k;
            assert(b[0] < b[i + 1]);
            if j == 0 {
                assert(false);
            }
            assert(a1[j - 1] == k);
        }
        lemma_ascending_same_members(a1, b1);
        assert(a =~= b) by {
            assert(a1 =~= b1);
            assert forall|i: int| 0 <= i < a.len() implies a[i] == b[i] by {
                if i > 0 {
                    assert(a1[i - 1] == b1[i - 1]);
                }
            }
        }
    }
}

/// A gap scan is idempotent: any two results that meet the membership
/// and order that `missing_heights` promises, over one store value and
/// top, are the same sequence.
pub proof fn lemma_gap_scan_deterministic(
    m: Map<u64, GenerationView>,
    top: u64,
    a: Seq<u64>,
    b: Seq<u64>,
)
    requires
        forall|i: int, j: int| #![trigger a[i], a[j]] 0 <= i < j < a.len() ==> a[i] < a[j],
        forall|i: int| 0 <= i < a.len() ==> (#[trigger] a[i]) <= top && !m.dom().contains(a[i]),
        forall|k: u64| k <= top && !m.dom().contains(k) ==> a.contains(k),
        forall|i: int, j: int| #![trigger b[i], b[j]] 0 <= i < j < b.len() ==> b[i] < b[j],
        forall|i: int| 0 <= i < b.len() ==> (#[trigger] b[i]) <= top && !m.dom().contains(b[i]),
        forall|k: u64| k <= top && !m.dom().contains(k) ==> b.contains(k),
    ensures
        a =~= b,
{
    lemma_matches_gap_seq(m, top, a);
    lemma_matches_gap_seq(m, top, b);
}

/// Re-ingesting the very generation a store already holds at a height is
/// a no-op on the store's value.
pub proof fn lemma_reingest_no_op(m: Map<u64, GenerationView>, h: u64, g: GenerationView)
    requires
        m.dom().contains(h),
        m[h] == g,
    ensures
        m.insert(h, g) =~= m,
{
}

/// Upserts at distinct heights commute: interleaved ingestion — an
/// explicit range load running beside the live pipeline — reaches the
/// same store whichever write lands first, and a repeated height is
/// absorbed by idempotence.
pub proof fn lemma_upsert_commutes(
    m: Map<u64, GenerationView>,
    h1: u64,
    g1: GenerationView,
    h2: u64,
    g2: GenerationView,
)
    requires
        h1 != h2,
    ensures
        m.insert(h1, g1).insert(h2, g2) =~= m.insert(h2, g2).insert(h1, g1),
{
}

/// Upserting the same generation twice equals upserting it once.
pub proof fn lemma_upsert_idempotent(m: Map<u64, GenerationView>, h: u64, g: GenerationView)
    ensures
        m.insert(h, g).insert(h, g) =~= m.insert(h, g),
{
}

} // verus!
