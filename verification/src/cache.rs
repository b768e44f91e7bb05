//! The two-tier chunk cache: a deduplication map that makes repeated
//! fetches of the same fingerprint reuse one in-memory chunk, plus a
//! bounded, recency-ordered retention cache that keeps hot chunks
//! alive regardless of external demand.
use std::sync::Arc;

use vstd::prelude::*;

use crate::chunk::Chunk;
use crate::fingerprint::Fingerprint;

verus! {

/// Keep up to this many cached chunks alive, regardless of whether
/// there is any external strong reference to them.
pub const LRU_CACHE_SIZE: usize = 128;

/// The keys of a sequence of cache entries.
pub open spec fn entry_keys(s: Seq<(Fingerprint, Arc<Chunk>)>) -> Seq<Fingerprint> {
    s.map_values(|e: (Fingerprint, Arc<Chunk>)| e.0)
}

/// A cache entry is sound when its chunk satisfies the integrity
/// invariant and is filed under its own fingerprint.
pub open spec fn entry_ok(e: (Fingerprint, Arc<Chunk>)) -> bool {
    (*e.1).wf() && (*e.1).spec_fprint() == e.0
}

#[verifier::external_type_specification]
#[verifier::external_body]
#[verifier::reject_recursive_types(K)]
#[verifier::reject_recursive_types(V)]
#[verifier::reject_recursive_types(S)]
pub struct ExLruCache<K, V, S>(lru::LruCache<K, V, S>);

/// What a retention cache holds: its entries from most to least
/// recently used.
pub uninterp spec fn lru_entries(c: lru::LruCache<Fingerprint, Arc<Chunk>>) -> Seq<
    (Fingerprint, Arc<Chunk>),
>;

/// The fixed bound a retention cache was created with.
pub uninterp spec fn lru_capacity(c: lru::LruCache<Fingerprint, Arc<Chunk>>) -> nat;

/// The recency list after an insertion: an existing key is updated
/// and moved to the front; a fresh key enters at the front, pushing
/// out the least recently used entry when the cache is full.
pub open spec fn lru_put_result(
    s: Seq<(Fingerprint, Arc<Chunk>)>,
    cap: nat,
    k: Fingerprint,
    v: Arc<Chunk>,
) -> Seq<(Fingerprint, Arc<Chunk>)> {
    if entry_keys(s).contains(k) {
        seq![(k, v)] + s.remove(entry_keys(s).index_of(k))
    } else if s.len() < cap {
        seq![(k, v)] + s
    } else {
        seq![(k, v)] + s.drop_last()
    }
}

/// Relies on lru::LruCache::new: a fresh cache is empty and holds at
/// most `cap` entries.
#[verifier::external_body]
fn lru_new(cap: usize) -> (c: lru::LruCache<Fingerprint, Arc<Chunk>>)
    requires
        cap >= 1,
    ensures
        lru_entries(c) == Seq::<(Fingerprint, Arc<Chunk>)>::empty(),
        lru_capacity(c) == cap as nat,
{
    lru::LruCache::new(std::num::NonZeroUsize::new(cap).unwrap())
}

/// Relies on lru::LruCache::put: an existing key has its value
/// replaced and becomes the most recently used; a fresh key is
/// inserted as the most recently used, evicting the least recently
/// used entry when the cache is already at capacity.
#[verifier::external_body]
fn lru_put(c: &mut lru::LruCache<Fingerprint, Arc<Chunk>>, k: Fingerprint, v: Arc<Chunk>)
    ensures
        lru_entries(*final(c)) == lru_put_result(
            lru_entries(*old(c)),
            lru_capacity(*old(c)),
            k,
            v,
        ),
        lru_capacity(*final(c)) == lru_capacity(*old(c)),
{
    c.put(k, v);
}

/// Relies on lru::LruCache::len: the number of entries the cache
/// currently holds.
#[verifier::external_body]
fn lru_len(c: &lru::LruCache<Fingerprint, Arc<Chunk>>) -> (n: usize)
    ensures
        n == lru_entries(*c).len(),
{
    c.len()
}

/// Relies on lru::LruCache::contains: whether the key is present,
/// without touching the entry's recency.
#[verifier::external_body]
fn lru_contains(c: &lru::LruCache<Fingerprint, Arc<Chunk>>, k: &Fingerprint) -> (b: bool)
    ensures
        b == entry_keys(lru_entries(*c)).contains(*k),
{
    c.contains(k)
}

/// Relies on std's Arc::clone: the returned handle is the same shared
/// chunk.
#[verifier::external_body]
pub(crate) fn share_chunk(c: &Arc<Chunk>) -> (r: Arc<Chunk>)
    ensures
        r == *c,
{
    Arc::clone(c)
}

/// The map an association list stands for: later entries win.
pub open spec fn assoc_map(s: Seq<(Fingerprint, Arc<Chunk>)>) -> Map<Fingerprint, Arc<Chunk>>
    decreases s.len(),
{
    if s.len() == 0 {
        Map::empty()
    } else {
        assoc_map(s.drop_last()).insert(s.last().0, s.last().1)
    }
}

proof fn lemma_assoc_map_dom(s: Seq<(Fingerprint, Arc<Chunk>)>)
    ensures
        assoc_map(s).dom() =~= entry_keys(s).to_set(),
    decreases s.len(),
{
    if s.len() > 0 {
        lemma_assoc_map_dom(s.drop_last());
        assert(entry_keys(s.drop_last()) =~= entry_keys(s).drop_last());
        assert forall|k: Fingerprint| entry_keys(s).to_set().contains(k) implies assoc_map(
            s,
        ).dom().contains(k) by {
            let i = choose|i: int| 0 <= i < entry_keys(s).len() && entry_keys(s)[i] == k;
            if i < s.len() - 1 {
                assert(entry_keys(s).drop_last()[i] == k);
            }
        }
        assert forall|k: Fingerprint| assoc_map(s).dom().contains(k) implies entry_keys(
            s,
        ).to_set().contains(k) by {
            if k == s.last().0 {
                assert(entry_keys(s)[s.len() - 1] == k);
            } else {
                let i = choose|i: int|
                    0 <= i < entry_keys(s.drop_last()).len() && entry_keys(s.drop_last())[i] == k;
                assert(entry_keys(s)[i] == k);
            }
        }
    }
}

proof fn lemma_assoc_map_at(s: Seq<(Fingerprint, Arc<Chunk>)>, i: int)
    requires
        entry_keys(s).no_duplicates(),
        0 <= i < s.len(),
    ensures
        assoc_map(s).contains_key(s[i].0),
        assoc_map(s)[s[i].0] == s[i].1,
    decreases s.len(),
{
    assert(entry_keys(s)[i] == s[i].0);
    if i == s.len() - 1 {
        lemma_assoc_map_dom(s);
    } else {
        assert(entry_keys(s.drop_last()) =~= entry_keys(s).drop_last());
        lemma_assoc_map_at(s.drop_last(), i);
        assert(entry_keys(s)[s.len() - 1] == s.last().0);
        assert(s[i].0 != s.last().0);
    }
}

proof fn lemma_assoc_map_push(s: Seq<(Fingerprint, Arc<Chunk>)>, k: Fingerprint, v: Arc<Chunk>)
    ensures
        assoc_map(s.push((k, v))) == assoc_map(s).insert(k, v),
{
    assert(s.push((k, v)).drop_last() =~= s);
    assert(s.push((k, v)).last() == (k, v));
}

proof fn lemma_assoc_map_remove(s: Seq<(Fingerprint, Arc<Chunk>)>, i: int)
    requires
        entry_keys(s).no_duplicates(),
        0 <= i < s.len(),
    ensures
        assoc_map(s.remove(i)) =~= assoc_map(s).remove(s[i].0),
    decreases s.len(),
{
    assert(entry_keys(s.drop_last()) =~= entry_keys(s).drop_last());
    if i == s.len() - 1 {
        assert(s.remove(i) =~= s.drop_last());
        lemma_assoc_map_dom(s.drop_last());
        assert forall|j: int| 0 <= j < s.len() - 1 implies entry_keys(s)[j] != s[i].0 by {
            assert(entry_keys(s)[i] == s[i].0);
        }
        assert(!entry_keys(s.drop_last()).to_set().contains(s[i].0));
        assert(!assoc_map(s.drop_last()).contains_key(s[i].0));
        assert(assoc_map(s).remove(s[i].0) =~= assoc_map(s.drop_last()));
    } else {
        lemma_assoc_map_remove(s.drop_last(), i);
        assert(s.remove(i).drop_last() =~= s.drop_last().remove(i));
        assert(s.remove(i).last() == s.last());
        assert(entry_keys(s)[i] == s[i].0);
        assert(entry_keys(s)[s.len() - 1] == s.last().0);
        assert(s[i].0 != s.last().0);
        assert(s.drop_last()[i] == s[i]);
        assert(assoc_map(s.remove(i)) =~= assoc_map(s.drop_last().remove(i)).insert(
            s.last().0,
            s.last().1,
        ));
    }
}

/// The two-tier cache service: the deduplication map from fingerprint
/// to the one live chunk for that content, and the bounded retention
/// cache of recently used chunks.
pub struct ChunkCache {
    dedup: Vec<(Fingerprint, Arc<Chunk>)>,
    retained: lru::LruCache<Fingerprint, Arc<Chunk>>,
}

impl ChunkCache {
    /// The deduplication entries, in insertion order.
    pub closed spec fn dedup_seq(&self) -> Seq<(Fingerprint, Arc<Chunk>)> {
        self.dedup@
    }

    /// The retention cache's entries, most recently used first.
    pub closed spec fn retained_entries(&self) -> Seq<(Fingerprint, Arc<Chunk>)> {
        lru_entries(self.retained)
    }

    /// The retention cache's fixed bound.
    pub closed spec fn capacity(&self) -> nat {
        lru_capacity(self.retained)
    }

    /// The deduplication map: the one chunk filed for each fingerprint.
    pub open spec fn dedup_map(&self) -> Map<Fingerprint, Arc<Chunk>> {
        assoc_map(self.dedup_seq())
    }

    /// Every fingerprint is filed at most once, every cached chunk
    /// satisfies the integrity invariant and sits under its own
    /// fingerprint, and the retention cache never outgrows its bound.
    pub open spec fn wf(&self) -> bool {
        &&& entry_keys(self.dedup_seq()).no_duplicates()
        &&& forall|i: int|
            0 <= i < self.dedup_seq().len() ==> entry_ok(#[trigger] self.dedup_seq()[i])
        &&& self.capacity() >= 1
        &&& self.retained_entries().len() <= self.capacity()
        &&& forall|i: int|
            0 <= i < self.retained_entries().len() ==> entry_ok(
                #[trigger] self.retained_entries()[i],
            )
    }

    /// A fresh, empty cache service bounded by `cap` retained chunks.
    pub fn new(cap: usize) -> (r: ChunkCache)
        requires
            cap >= 1,
        ensures
            r.wf(),
            r.dedup_map() == Map::<Fingerprint, Arc<Chunk>>::empty(),
            r.retained_entries() == Seq::<(Fingerprint, Arc<Chunk>)>::empty(),
            r.capacity() == cap as nat,
    {
        ChunkCache { dedup: Vec::new(), retained: lru_new(cap) }
    }

    /// How many chunks the retention cache currently keeps alive.
    pub fn retained_len(&self) -> (n: usize)
        ensures
            n == self.retained_entries().len(),
    {
        lru_len(&self.retained)
    }

    /// Whether the retention cache currently keeps `key` alive,
    /// without renewing its recency.
    pub fn retains(&self, key: &Fingerprint) -> (b: bool)
        ensures
            b == entry_keys(self.retained_entries()).contains(*key),
    {
        lru_contains(&self.retained, key)
    }

    /// The index of `key` in the deduplication list, if it is filed.
    fn dedup_find(&self, key: &Fingerprint) -> (r: Option<usize>)
        ensures
            match r {
                Some(i) => i < self.dedup_seq().len() && self.dedup_seq()[i as int].0 == *key,
                None => forall|j: int|
                    0 <= j < self.dedup_seq().len() ==> (#[trigger] self.dedup_seq()[j]).0 != *key,
            },
    {
        let mut i: usize = 0;
        while i < self.dedup.len()
            invariant
                i <= self.dedup.len(),
                forall|j: int| 0 <= j < i ==> (#[trigger] self.dedup@[j]).0 != *key,
            decreases self.dedup.len() - i,
        {
            if self.dedup[i].0 == *key {
                return Some(i);
            }
            i = i + 1;
        }
        None
    }

    /// Renews `chunk`'s recency: files it as the most recently used
    /// retained chunk, evicting the least recently used one if the
    /// retention cache is full.  Eviction only drops the retention
    /// cache's own ownership; other owners keep the chunk alive.
    pub fn touch_cached_chunk(&mut self, chunk: Arc<Chunk>)
        requires
            old(self).wf(),
            (*chunk).wf(),
        ensures
            final(self).wf(),
            final(self).dedup_map() == old(self).dedup_map(),
            final(self).capacity() == old(self).capacity(),
            final(self).retained_entries() == lru_put_result(
                old(self).retained_entries(),
                old(self).capacity(),
                (*chunk).spec_fprint(),
                chunk,
            ),
    {
        let key = chunk.fprint();
        lru_put(&mut self.retained, key, chunk);
        proof {
            let s = old(self).retained_entries();
            let cap = old(self).capacity();
            let k = (*chunk).spec_fprint();
            let r = self.retained_entries();
            if entry_keys(s).contains(k) {
                let i = entry_keys(s).index_of(k);
                assert(0 <= i < s.len() && entry_keys(s)[i] == k);
                assert forall|j: int| 0 <= j < r.len() implies entry_ok(#[trigger] r[j]) by {
                    if j > 0 {
                        assert(r[j] == s.remove(i)[j - 1]);
                        if j - 1 < i {
                            assert(s.remove(i)[j - 1] == s[j - 1]);
                        } else {
                            assert(s.remove(i)[j - 1] == s[j]);
                        }
                    }
                }
            } else {
                assert forall|j: int| 0 <= j < r.len() implies entry_ok(#[trigger] r[j]) by {
                    if j > 0 {
                        assert(r[j] == s[j - 1]);
                    }
                }
            }
        }
    }

    /// Files `chunk` in the deduplication map (replacing any entry for
    /// its fingerprint) and then retains it as the most recently used
    /// chunk.
    pub fn update_cache(&mut self, chunk: Arc<Chunk>)
        requires
            old(self).wf(),
            (*chunk).wf(),
        ensures
            final(self).wf(),
            final(self).dedup_map() == old(self).dedup_map().insert(
                (*chunk).spec_fprint(),
                chunk,
            ),
            final(self).capacity() == old(self).capacity(),
            final(self).retained_entries() == lru_put_result(
                old(self).retained_entries(),
                old(self).capacity(),
                (*chunk).spec_fprint(),
                chunk,
            ),
    {
        let key = chunk.fprint();
        let shared = share_chunk(&chunk);
        match self.dedup_find(&key) {
            Some(i) => {
                proof {
                    lemma_assoc_map_remove(self.dedup@, i as int);
                }
                self.dedup.remove(i);
                proof {
                    let s0 = old(self).dedup_seq();
                    assert(entry_keys(self.dedup@) =~= entry_keys(s0).remove(i as int));
                    entry_keys(s0).remove_ensures(i as int);
                    assert(entry_keys(s0).remove(i as int).no_duplicates());
                    assert forall|j: int|
                        0 <= j < self.dedup@.len() implies entry_ok(#[trigger] self.dedup@[j]) by {
                        if j < i {
                            assert(self.dedup@[j] == s0[j]);
                        } else {
                            assert(self.dedup@[j] == s0[j + 1]);
                        }
                    }
                    assert forall|j: int|
                        0 <= j < self.dedup@.len() implies (#[trigger] self.dedup@[j]).0
                        != key by {
                        assert(entry_keys(s0).remove(i as int)[j] == self.dedup@[j].0);
                        if j < i {
                            assert(entry_keys(s0)[j] == self.dedup@[j].0);
                            assert(entry_keys(s0)[i as int] == key);
                        } else {
                            assert(entry_keys(s0)[j + 1] == self.dedup@[j].0);
                            assert(entry_keys(s0)[i as int] == key);
                        }
                    }
                }
                self.dedup_push_fresh(key, shared);
                proof {
                    assert(old(self).dedup_map().remove(key).insert(key, chunk)
                        =~= old(self).dedup_map().insert(key, chunk));
                }
            },
            None => {
                self.dedup_push_fresh(key, shared);
            },
        }
        self.touch_cached_chunk(chunk);
    }

    /// Appends an entry whose key is not yet filed.
    fn dedup_push_fresh(&mut self, key: Fingerprint, chunk: Arc<Chunk>)
        requires
            entry_keys(old(self).dedup_seq()).no_duplicates(),
            forall|j: int|
                0 <= j < old(self).dedup_seq().len() ==> entry_ok(
                    #[trigger] old(self).dedup_seq()[j],
                ),
            forall|j: int|
                0 <= j < old(self).dedup_seq().len() ==> (#[trigger] old(self).dedup_seq()[j]).0
                    != key,
            (*chunk).wf(),
            (*chunk).spec_fprint() == key,
        ensures
            final(self).dedup_map() == old(self).dedup_map().insert(key, chunk),
            entry_keys(final(self).dedup_seq()).no_duplicates(),
            forall|j: int|
                0 <= j < final(self).dedup_seq().len() ==> entry_ok(
                    #[trigger] final(self).dedup_seq()[j],
                ),
            final(self).retained == old(self).retained,
    {
        proof {
            lemma_assoc_map_push(self.dedup@, key, chunk);
        }
        self.dedup.push((key, chunk));
        proof {
            let s0 = old(self).dedup_seq();
            assert(entry_keys(self.dedup@) =~= entry_keys(s0).push(key));
            assert forall|j: int|
                0 <= j < self.dedup@.len() implies entry_ok(#[trigger] self.dedup@[j]) by {
                if j < s0.len() {
                    assert(self.dedup@[j] == s0[j]);
                }
            }
            assert forall|j1: int, j2: int|
                0 <= j1 < entry_keys(self.dedup@).len() && 0 <= j2 < j1 implies entry_keys(
                self.dedup@,
            )[j1] != entry_keys(self.dedup@)[j2] by {
                if j1 == s0.len() {
                    assert(entry_keys(s0)[j2] == s0[j2].0);
                }
            }
        }
    }

    /// Returns the cached chunk for `key` if the deduplication map
    /// has one, renewing its recency in the retention cache; returns
    /// nothing, and changes nothing, otherwise.  This is the cheap
    /// path taken before any I/O.
    pub fn fetch_from_cache(&mut self, key: Fingerprint) -> (r: Option<Arc<Chunk>>)
        requires
            old(self).wf(),
        ensures
            final(self).wf(),
            final(self).dedup_map() == old(self).dedup_map(),
            final(self).capacity() == old(self).capacity(),
            match r {
                Some(c) => {
                    &&& old(self).dedup_map().contains_key(key)
                    &&& c == old(self).dedup_map()[key]
                    &&& (*c).wf()
                    &&& (*c).spec_fprint() == key
                    &&& final(self).retained_entries() == lru_put_result(
                        old(self).retained_entries(),
                        old(self).capacity(),
                        key,
                        c,
                    )
                },
                None => {
                    &&& !old(self).dedup_map().contains_key(key)
                    &&& final(self).retained_entries() == old(self).retained_entries()
                },
            },
    {
        match self.dedup_find(&key) {
            Some(i) => {
                proof {
                    lemma_assoc_map_at(self.dedup@, i as int);
                }
                let c = share_chunk(&self.dedup[i].1);
                self.touch_cached_chunk(share_chunk(&c));
                Some(c)
            },
            None => {
                proof {
                    lemma_assoc_map_dom(self.dedup@);
                    if old(self).dedup_map().contains_key(key) {
                        let j = choose|j: int|
                            0 <= j < entry_keys(old(self).dedup_seq()).len() && entry_keys(
                                old(self).dedup_seq(),
                            )[j] == key;
                        assert(old(self).dedup_seq()[j].0 == key);
                    }
                }
                None
            },
        }
    }

    /// Unfiles `key` from the deduplication map, as a dying chunk's
    /// teardown does; the retention cache is not consulted.
    pub fn deregister(&mut self, key: Fingerprint)
        requires
            old(self).wf(),
        ensures
            final(self).wf(),
            final(self).dedup_map() =~= old(self).dedup_map().remove(key),
            final(self).capacity() == old(self).capacity(),
            final(self).retained_entries() == old(self).retained_entries(),
    {
        match self.dedup_find(&key) {
            Some(i) => {
                proof {
                    lemma_assoc_map_remove(self.dedup@, i as int);
                }
                self.dedup.remove(i);
                proof {
                    let s0 = old(self).dedup_seq();
                    assert(entry_keys(self.dedup@) =~= entry_keys(s0).remove(i as int));
                    entry_keys(s0).remove_ensures(i as int);
                    assert forall|j: int|
                        0 <= j < self.dedup@.len() implies entry_ok(#[trigger] self.dedup@[j]) by {
                        if j < i {
                            assert(self.dedup@[j] == s0[j]);
                        } else {
                            assert(self.dedup@[j] == s0[j + 1]);
                        }
                    }
                }
            },
            None => {
                proof {
                    lemma_assoc_map_dom(self.dedup@);
                    if old(self).dedup_map().contains_key(key) {
                        let j = choose|j: int|
                            0 <= j < entry_keys(old(self).dedup_seq()).len() && entry_keys(
                                old(self).dedup_seq(),
                            )[j] == key;
                        assert(old(self).dedup_seq()[j].0 == key);
                    }
                    assert(old(self).dedup_map().remove(key) =~= old(self).dedup_map());
                }
            },
        }
    }
}

/// The retention cache never holds more than its fixed bound of
/// entries, however many insertions it has seen.
pub proof fn lemma_retention_bounded(cache: ChunkCache)
    requires
        cache.wf(),
    ensures
        cache.retained_entries().len() <= cache.capacity(),
{
}

/// Inserting a fresh fingerprint into a full retention cache keeps
/// the cache at its bound, files the newcomer as most recently used,
/// keeps every other entry one recency rank lower, and evicts exactly
/// the least recently used fingerprint.
pub proof fn lemma_full_insert_evicts_lru(
    s: Seq<(Fingerprint, Arc<Chunk>)>,
    cap: nat,
    k: Fingerprint,
    v: Arc<Chunk>,
)
    requires
        s.len() == cap,
        cap >= 1,
        !entry_keys(s).contains(k),
        entry_keys(s).no_duplicates(),
    ensures
        lru_put_result(s, cap, k, v).len() == cap,
        lru_put_result(s, cap, k, v)[0] == (k, v),
        forall|j: int| 0 <= j < cap - 1 ==> #[trigger] lru_put_result(s, cap, k, v)[j + 1] == s[j],
        !entry_keys(lru_put_result(s, cap, k, v)).contains(s.last().0),
{
    let r = lru_put_result(s, cap, k, v);
    assert(entry_keys(s)[s.len() - 1] == s.last().0);
    assert forall|j: int| 0 <= j < entry_keys(r).len() implies entry_keys(r)[j]
        != s.last().0 by {
        if j == 0 {
            assert(entry_keys(r)[0] == k);
        } else {
            assert(r[j] == s.drop_last()[j - 1]);
            assert(entry_keys(r)[j] == entry_keys(s)[j - 1]);
        }
    }
}

/// Touching a retained fingerprint renews its recency: it moves to
/// the front of the recency list, and nothing enters or leaves.
pub proof fn lemma_touch_renews_recency(
    s: Seq<(Fingerprint, Arc<Chunk>)>,
    cap: nat,
    k: Fingerprint,
    v: Arc<Chunk>,
)
    requires
        entry_keys(s).contains(k),
    ensures
        lru_put_result(s, cap, k, v).len() == s.len(),
        lru_put_result(s, cap, k, v)[0] == (k, v),
        entry_keys(lru_put_result(s, cap, k, v)).to_set() == entry_keys(s).to_set().insert(k),
{
    let i = entry_keys(s).index_of(k);
    assert(0 <= i < s.len() && entry_keys(s)[i] == k);
    let r = lru_put_result(s, cap, k, v);
    assert forall|x: Fingerprint| entry_keys(r).contains(x) implies entry_keys(
        s,
    ).to_set().insert(k).contains(x) by {
        let j = choose|j: int| 0 <= j < entry_keys(r).len() && entry_keys(r)[j] == x;
        if j > 0 {
            assert(r[j] == s.remove(i)[j - 1]);
            if j - 1 < i {
                assert(s.remove(i)[j - 1] == s[j - 1]);
                assert(entry_keys(s)[j - 1] == x);
            } else {
                assert(s.remove(i)[j - 1] == s[j]);
                assert(entry_keys(s)[j] == x);
            }
        }
    }
    assert forall|x: Fingerprint| entry_keys(s).to_set().insert(k).contains(x) implies entry_keys(
        r,
    ).contains(x) by {
        if x == k {
            assert(entry_keys(r)[0] == x);
        } else {
            let j = choose|j: int| 0 <= j < entry_keys(s).len() && entry_keys(s)[j] == x;
            if j < i {
                assert(s.remove(i)[j] == s[j]);
                assert(entry_keys(r)[j + 1] == x);
            } else {
                assert(j > i);
                assert(s.remove(i)[j - 1] == s[j]);
                assert(entry_keys(r)[j] == x);
            }
        }
    }
    assert(entry_keys(r).to_set() =~= entry_keys(s).to_set().insert(k));
}

/// Whichever of two registrations for the same fingerprint lands
/// last, the deduplication map holds exactly one chunk for that
/// fingerprint afterwards, and every later lookup observes that one
/// instance.
pub proof fn lemma_dedup_single_instance(
    m: Map<Fingerprint, Arc<Chunk>>,
    first: Arc<Chunk>,
    second: Arc<Chunk>,
    key: Fingerprint,
)
    requires
        (*first).spec_fprint() == key,
        (*second).spec_fprint() == key,
    ensures
        m.insert(key, first).insert(key, second)[key] == second,
        m.insert(key, first).insert(key, second) =~= m.insert(key, second),
{
}

} // verus!
