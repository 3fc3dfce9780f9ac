//! A key–value store with hit/miss accounting.
//!
//! The compilation session uses one cache to memoize schema nodes by
//! canonical address, and the in-memory loader uses another to memoize raw
//! documents by document address. Both are instances of [`Cache`], an
//! association list searched through the keys' own equality; every lookup
//! records a hit or a miss in [`Stats`].

use vstd::prelude::*;

verus! {

/// A type that can key a cache: it decides equality of keys, and says in
/// specification terms what that equality means.
pub trait CacheKey: Sized {
    /// What key equality means.
    spec fn key_eq(&self, other: &Self) -> bool;

    /// Decide key equality.
    fn key_equal(&self, other: &Self) -> (r: bool)
        ensures
            r == self.key_eq(other),
    ;
}

impl CacheKey for i32 {
    open spec fn key_eq(&self, other: &Self) -> bool {
        self == other
    }

    fn key_equal(&self, other: &Self) -> (r: bool) {
        *self == *other
    }
}

/// A counter one past which the count stays put.
pub open spec fn spec_saturating_inc(x: usize) -> usize {
    if x < usize::MAX {
        (x + 1) as usize
    } else {
        x
    }
}

/// Hit and miss counts of a cache.
#[derive(Clone, Copy, Debug, PartialEq, Eq, Structural)]
pub struct Stats {
    pub hits: usize,
    pub misses: usize,
}

impl Stats {
    pub fn new() -> (r: Stats)
        ensures
            r.hits == 0 && r.misses == 0,
    {
        Stats { hits: 0, misses: 0 }
    }

    /// Record one hit.
    pub fn register_hit(&mut self)
        ensures
            final(self).hits == spec_saturating_inc(old(self).hits),
            final(self).misses == old(self).misses,
    {
        if self.hits < usize::MAX {
            self.hits = self.hits + 1;
        }
    }

    /// Record one miss.
    pub fn register_miss(&mut self)
        ensures
            final(self).misses == spec_saturating_inc(old(self).misses),
            final(self).hits == old(self).hits,
    {
        if self.misses < usize::MAX {
            self.misses = self.misses + 1;
        }
    }

    pub fn get_hits(&self) -> (r: usize)
        ensures
            r == self.hits,
    {
        self.hits
    }

    pub fn get_misses(&self) -> (r: usize)
        ensures
            r == self.misses,
    {
        self.misses
    }

    /// Reset both counts.
    pub fn clear(&mut self)
        ensures
            final(self).hits == 0 && final(self).misses == 0,
    {
        self.hits = 0;
        self.misses = 0;
    }
}

/// The index of the first entry whose key equals the given one, under the
/// keys' own equality.
pub open spec fn spec_find_key<K: CacheKey, V>(entries: Seq<(K, V)>, key: K) -> Option<int>
    decreases entries.len(),
{
    if entries.len() == 0 {
        None
    } else if entries[0].0.key_eq(&key) {
        Some(0)
    } else {
        match spec_find_key(entries.drop_first(), key) {
            Some(i) => Some(i + 1),
            None => None,
        }
    }
}

/// The found index lies inside the entry list and names a matching key.
pub proof fn lemma_find_key_bounds<K: CacheKey, V>(entries: Seq<(K, V)>, key: K)
    ensures
        match spec_find_key(entries, key) {
            Some(i) => 0 <= i < entries.len() && entries[i].0.key_eq(&key),
            None => forall|i: int| 0 <= i < entries.len() ==> !(#[trigger] entries[i].0).key_eq(
                &key,
            ),
        },
    decreases entries.len(),
{
    if entries.len() > 0 && !entries[0].0.key_eq(&key) {
        lemma_find_key_bounds(entries.drop_first(), key);
        if spec_find_key(entries.drop_first(), key) is None {
            assert forall|i: int| 0 <= i < entries.len() implies !(#[trigger] entries[i].0).key_eq(
                &key,
            ) by {
                if i > 0 {
                    assert(entries.drop_first()[i - 1] == entries[i]);
                }
            }
        }
    }
}

/// A key→value store with hit/miss accounting: the cached entries, keyed by
/// the keys' own equality, and the lookup statistics.
#[derive(Debug)]
pub struct Cache<K, V> {
    entries: Vec<(K, V)>,
    stats: Stats,
}

impl<K: CacheKey, V> Cache<K, V> {
    /// The cached entries, in insertion order.
    pub closed spec fn spec_entries(self) -> Seq<(K, V)> {
        self.entries@
    }

    /// The lookup statistics.
    pub closed spec fn spec_stats(self) -> Stats {
        self.stats
    }

    pub fn new() -> (r: Cache<K, V>)
        ensures
            r.spec_entries() == Seq::<(K, V)>::empty(),
            r.spec_stats().hits == 0 && r.spec_stats().misses == 0,
    {
        Cache { entries: Vec::new(), stats: Stats::new() }
    }

    /// Find the entry stored under a key, recording a hit or a miss.
    pub fn get(&mut self, key: &K) -> (r: Option<&V>)
        ensures
            final(self).spec_entries() == old(self).spec_entries(),
            match spec_find_key(old(self).spec_entries(), *key) {
                Some(i) => {
                    &&& r matches Some(v) && *v == old(self).spec_entries()[i].1
                    &&& final(self).spec_stats().hits == spec_saturating_inc(
                        old(self).spec_stats().hits,
                    )
                    &&& final(self).spec_stats().misses == old(self).spec_stats().misses
                },
                None => {
                    &&& r is None
                    &&& final(self).spec_stats().misses == spec_saturating_inc(
                        old(self).spec_stats().misses,
                    )
                    &&& final(self).spec_stats().hits == old(self).spec_stats().hits
                },
            },
    {
        proof {
            lemma_find_key_bounds(self.entries@, *key);
        }
        match Self::position(&self.entries, key) {
            Some(i) => {
                self.stats.register_hit();
                Some(&self.entries[i].1)
            },
            None => {
                self.stats.register_miss();
                None
            },
        }
    }

    /// The position of a key in the entry list.
    fn position(entries: &Vec<(K, V)>, key: &K) -> (r: Option<usize>)
        ensures
            match r {
                Some(i) => spec_find_key(entries@, *key) == Some(i as int),
                None => spec_find_key(entries@, *key) is None,
            },
    {
        proof {
            assert(entries@.subrange(0, entries@.len() as int) =~= entries@);
        }
        let mut i: usize = 0;
        while i < entries.len()
            invariant
                i <= entries@.len(),
                spec_find_key(entries@, *key) == match spec_find_key(
                    entries@.subrange(i as int, entries@.len() as int),
                    *key,
                ) {
                    Some(j) => Some(i + j),
                    None => None::<int>,
                },
            decreases entries@.len() - i,
        {
            let ghost rest = entries@.subrange(i as int, entries@.len() as int);
            proof {
                assert(rest[0] == entries@[i as int]);
                assert(rest.drop_first() =~= entries@.subrange(i + 1, entries@.len() as int));
            }
            if entries[i].0.key_equal(key) {
                return Some(i);
            }
            i = i + 1;
        }
        None
    }

    /// Store a value under a key: an existing entry is overwritten in place,
    /// a new key is appended.
    pub fn set(&mut self, key: K, value: V)
        ensures
            final(self).spec_stats() == old(self).spec_stats(),
            match spec_find_key(old(self).spec_entries(), key) {
                Some(i) => final(self).spec_entries() == old(self).spec_entries().update(
                    i,
                    (old(self).spec_entries()[i].0, value),
                ),
                None => final(self).spec_entries() == old(self).spec_entries().push((key, value)),
            },
    {
        proof {
            lemma_find_key_bounds(self.entries@, key);
        }
        match Self::position(&self.entries, &key) {
            Some(i) => {
                let entry = self.entries.remove(i);
                self.entries.insert(i, (entry.0, value));
                proof {
                    assert(self.entries@ =~= old(self).entries@.update(
                        spec_find_key(old(self).entries@, key).unwrap(),
                        (old(self).entries@[spec_find_key(old(self).entries@, key).unwrap()].0, value),
                    ));
                }
            },
            None => {
                self.entries.push((key, value));
            },
        }
    }

    /// Drop the entry stored under a key, if any.
    pub fn remove(&mut self, key: &K)
        ensures
            final(self).spec_stats() == old(self).spec_stats(),
            match spec_find_key(old(self).spec_entries(), *key) {
                Some(i) => final(self).spec_entries() == old(self).spec_entries().remove(i),
                None => final(self).spec_entries() == old(self).spec_entries(),
            },
    {
        proof {
            lemma_find_key_bounds(self.entries@, *key);
        }
        match Self::position(&self.entries, key) {
            Some(i) => {
                let _ = self.entries.remove(i);
            },
            None => {},
        }
    }

    /// Drop every entry and reset the statistics.
    pub fn clear(&mut self)
        ensures
            final(self).spec_entries() == Seq::<(K, V)>::empty(),
            final(self).spec_stats().hits == 0 && final(self).spec_stats().misses == 0,
    {
        self.entries.clear();
        self.stats.clear();
    }

    /// The number of entries held.
    pub fn size(&self) -> (r: usize)
        ensures
            r == self.spec_entries().len(),
    {
        self.entries.len()
    }

    pub fn hits(&self) -> (r: usize)
        ensures
            r == self.spec_stats().hits,
    {
        self.stats.get_hits()
    }

    pub fn misses(&self) -> (r: usize)
        ensures
            r == self.spec_stats().misses,
    {
        self.stats.get_misses()
    }

    /// A copy of the lookup statistics.
    pub fn stats(&self) -> (r: Stats)
        ensures
            r == self.spec_stats(),
    {
        self.stats
    }

    /// The entries, surrendering the cache.
    pub fn into_entries(self) -> (r: Vec<(K, V)>)
        ensures
            r@ == self.spec_entries(),
    {
        self.entries
    }

    /// The cached value if the key is present; otherwise the value the
    /// fetcher computes, stored and returned — unless the fetcher fails, in
    /// which case nothing is stored and its error comes back. The lookup
    /// records a hit or a miss either way.
    pub fn get_or_fetch_with_result<E, F: Fn(&K) -> Result<V, E>>(
        &mut self,
        key: K,
        fetcher: F,
    ) -> (r: Result<&V, E>)
        requires
            fetcher.requires((&key,)),
        ensures
            match spec_find_key(old(self).spec_entries(), key) {
                Some(i) => {
                    &&& final(self).spec_entries() == old(self).spec_entries()
                    &&& r matches Ok(v) && *v == old(self).spec_entries()[i].1
                    &&& final(self).spec_stats().hits == spec_saturating_inc(
                        old(self).spec_stats().hits,
                    )
                    &&& final(self).spec_stats().misses == old(self).spec_stats().misses
                },
                None => {
                    &&& final(self).spec_stats().misses == spec_saturating_inc(
                        old(self).spec_stats().misses,
                    )
                    &&& final(self).spec_stats().hits == old(self).spec_stats().hits
                    &&& match r {
                        Ok(v) => final(self).spec_entries() == old(self).spec_entries().push(
                            (key, *v),
                        ) && call_ensures(fetcher, (&key,), Ok(*v)),
                        Err(e) => final(self).spec_entries() == old(self).spec_entries()
                            && call_ensures(fetcher, (&key,), Err(e)),
                    }
                },
            },
    {
        proof {
            lemma_find_key_bounds(self.entries@, key);
        }
        match Self::position(&self.entries, &key) {
            Some(i) => {
                self.stats.register_hit();
                Ok(&self.entries[i].1)
            },
            None => {
                self.stats.register_miss();
                match fetcher(&key) {
                    Ok(value) => {
                        self.entries.push((key, value));
                        let n = self.entries.len();
                        Ok(&self.entries[n - 1].1)
                    },
                    Err(e) => Err(e),
                }
            },
        }
    }

    /// As [`Cache::get_or_fetch_with_result`], for a fetcher that cannot
    /// fail.
    pub fn get_or_fetch<F: Fn(&K) -> V>(&mut self, key: K, fetcher: F) -> (r: &V)
        requires
            fetcher.requires((&key,)),
        ensures
            match spec_find_key(old(self).spec_entries(), key) {
                Some(i) => {
                    &&& final(self).spec_entries() == old(self).spec_entries()
                    &&& *r == old(self).spec_entries()[i].1
                    &&& final(self).spec_stats().hits == spec_saturating_inc(
                        old(self).spec_stats().hits,
                    )
                    &&& final(self).spec_stats().misses == old(self).spec_stats().misses
                },
                None => {
                    &&& final(self).spec_stats().misses == spec_saturating_inc(
                        old(self).spec_stats().misses,
                    )
                    &&& final(self).spec_stats().hits == old(self).spec_stats().hits
                    &&& final(self).spec_entries() == old(self).spec_entries().push((key, *r))
                    &&& call_ensures(fetcher, (&key,), *r)
                },
            },
    {
        proof {
            lemma_find_key_bounds(self.entries@, key);
        }
        match Self::position(&self.entries, &key) {
            Some(i) => {
                self.stats.register_hit();
                &self.entries[i].1
            },
            None => {
                self.stats.register_miss();
                let value = fetcher(&key);
                self.entries.push((key, value));
                let n = self.entries.len();
                &self.entries[n - 1].1
            },
        }
    }
}

} // verus!
