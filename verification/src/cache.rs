//! The cache of Git answers, by checkout.
use vstd::prelude::*;

use crate::pairs::{key_at, keys_distinct, lemma_pair_at, pairs_map};
use crate::path::{GitPath, PathView};
use crate::status::{CacheEntryView, GitStatusCacheEntry};

verus! {

/// Which answer the cache holds for which checkout.
pub type CacheView = Map<PathView, CacheEntryView>;

/// The entries, with their checkouts and answers by their views.
pub open spec fn entries_view(
    entries: Seq<(GitPath, GitStatusCacheEntry)>,
) -> Seq<(PathView, CacheEntryView)> {
    entries.map_values(|entry: (GitPath, GitStatusCacheEntry)| (entry.0@, entry.1@))
}

/// What stays of a cache when the answers that no repository stands behind are
/// dropped.
pub open spec fn fingerprinted_only(cache: CacheView) -> CacheView {
    Map::new(
        |key: PathView| cache.contains_key(key) && cache[key].fingerprint is Some,
        |key: PathView| cache[key],
    )
}

/// Cached Git answers. Each checkout has at most one.
#[derive(Debug)]
pub struct GitStatusCache {
    entries: Vec<(GitPath, GitStatusCacheEntry)>,
}

impl View for GitStatusCache {
    type V = CacheView;

    closed spec fn view(&self) -> CacheView {
        pairs_map(entries_view(self.entries@))
    }
}

impl GitStatusCache {
    #[verifier::type_invariant]
    spec fn well_formed(self) -> bool {
        keys_distinct(entries_view(self.entries@))
    }

    /// A cache that holds nothing.
    pub fn new() -> (res: Self)
        ensures
            res@ == Map::<PathView, CacheEntryView>::empty(),
    {
        let res = GitStatusCache { entries: Vec::new() };
        assert(res@ =~= Map::<PathView, CacheEntryView>::empty());
        res
    }

    /// Whether the cache holds nothing.
    pub fn is_empty(&self) -> (res: bool)
        ensures
            res == (self@ == Map::<PathView, CacheEntryView>::empty()),
    {
        proof {
            use_type_invariant(self);
            if self.entries@.len() == 0 {
                assert(self@ =~= Map::<PathView, CacheEntryView>::empty());
            } else {
                lemma_pair_at(entries_view(self.entries@), 0);
            }
        }
        self.entries.len() == 0
    }

    fn position(&self, key: &GitPath) -> (res: Option<usize>)
        ensures
            match res {
                Some(i) => key_at(entries_view(self.entries@), key@, i as int),
                None => !self@.contains_key(key@),
            },
    {
        let mut i: usize = 0;
        while i < self.entries.len()
            invariant
                i <= self.entries.len(),
                forall|j: int| 0 <= j < i ==> !key_at(entries_view(self.entries@), key@, j),
            decreases self.entries.len() - i,
        {
            if self.entries[i].0.same_path(key) {
                return Some(i);
            }
            i = i + 1;
        }
        None
    }

    /// The answer cached for a checkout.
    pub fn get(&self, key: &GitPath) -> (res: Option<&GitStatusCacheEntry>)
        ensures
            match res {
                Some(entry) => self@.contains_key(key@) && self@[key@] == entry@,
                None => !self@.contains_key(key@),
            },
    {
        match self.position(key) {
            Some(i) => {
                proof {
                    use_type_invariant(self);
                    lemma_pair_at(entries_view(self.entries@), i as int);
                }
                Some(&self.entries[i].1)
            },
            None => None,
        }
    }

    /// Caches an answer for a checkout, in place of an earlier one.
    pub fn insert(&mut self, key: GitPath, entry: GitStatusCacheEntry)
        ensures
            final(self)@ == old(self)@.insert(key@, entry@),
    {
        proof {
            use_type_invariant(&*self);
        }
        let found = self.position(&key);
        let ghost before = entries_view(self.entries@);
        let mut entries: Vec<(GitPath, GitStatusCacheEntry)> = Vec::new();
        std::mem::swap(&mut entries, &mut self.entries);
        let ghost pair = (key@, entry@);
        match found {
            Some(i) => {
                entries.set(i, (key, entry));
                proof {
                    crate::pairs::lemma_pairs_update(before, i as int, pair.1);
                    assert(entries_view(entries@) =~= before.update(i as int, pair));
                }
            },
            None => {
                entries.push((key, entry));
                proof {
                    crate::pairs::lemma_pairs_push(before, pair.0, pair.1);
                    assert(entries_view(entries@) =~= before.push(pair));
                }
            },
        }
        self.entries = entries;
    }

    /// Drops the answers that no repository stands behind.
    pub fn retain_fingerprinted(&mut self)
        ensures
            final(self)@ == fingerprinted_only(old(self)@),
    {
        proof {
            use_type_invariant(&*self);
        }
        let ghost before = self@;
        let mut entries: Vec<(GitPath, GitStatusCacheEntry)> = Vec::new();
        std::mem::swap(&mut entries, &mut self.entries);
        let mut i: usize = 0;
        while i < entries.len()
            invariant
                i <= entries.len(),
                keys_distinct(entries_view(entries@)),
                fingerprinted_only(pairs_map(entries_view(entries@))) == fingerprinted_only(before),
                forall|j: int| 0 <= j < i ==> (#[trigger] entries@[j]).1.fingerprint is Some,
            decreases entries.len() - i,
        {
            if entries[i].1.fingerprint.is_some() {
                i = i + 1;
            } else {
                let ghost current = entries_view(entries@);
                entries.remove(i);
                proof {
                    lemma_pair_at(current, i as int);
                    crate::pairs::lemma_pairs_remove(current, i as int);
                    assert(entries_view(entries@) =~= current.remove(i as int));
                    assert(fingerprinted_only(pairs_map(entries_view(entries@)))
                        =~= fingerprinted_only(pairs_map(current)));
                }
            }
        }
        proof {
            let pairs = entries_view(entries@);
            let map = pairs_map(pairs);
            assert forall|k: PathView| map.contains_key(k) implies map[k].fingerprint is Some by {
                let j = choose|j: int| key_at(pairs, k, j);
                lemma_pair_at(pairs, j);
                assert(entries@[j].1.fingerprint is Some);
            }
            assert(fingerprinted_only(map) =~= map);
        }
        self.entries = entries;
    }
}

impl Clone for GitStatusCache {
    fn clone(&self) -> (res: Self)
        ensures
            res@ == self@,
    {
        proof {
            use_type_invariant(self);
        }
        let mut entries: Vec<(GitPath, GitStatusCacheEntry)> = Vec::new();
        let mut i: usize = 0;
        while i < self.entries.len()
            invariant
                i == entries.len(),
                i <= self.entries.len(),
                forall|j: int|
                    0 <= j < i ==> #[trigger] entries_view(entries@)[j] == entries_view(
                        self.entries@,
                    )[j],
            decreases self.entries.len() - i,
        {
            let ghost earlier = entries_view(entries@);
            entries.push((self.entries[i].0.clone(), self.entries[i].1.clone()));
            proof {
                assert forall|j: int| 0 <= j < i + 1 implies #[trigger] entries_view(entries@)[j]
                    == entries_view(self.entries@)[j] by {
                    if j < i {
                        assert(earlier[j] == entries_view(self.entries@)[j]);
                    }
                }
            }
            i = i + 1;
        }
        assert(entries_view(entries@) =~= entries_view(self.entries@));
        GitStatusCache { entries }
    }
}

} // verus!
