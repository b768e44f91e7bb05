//! The loader: orchestrates a chunk fetch as cache check, zero-chunk
//! check, an ordered walk of local cache directories, an ordered walk
//! of remote sources, and cache population; and prepares and collects
//! batch fetches.
//!
//! The loader decides; it performs no I/O itself.  A caller drives
//! each fetch: [`Loader::fetch_begin`] and [`Loader::fetch_step`]
//! hand out the next source to consult, strictly in configured order,
//! and the caller reports what that source answered.
use std::sync::Arc;

use rand::seq::SliceRandom;

use vstd::prelude::*;
use vstd::pervasive::unreached;

use crate::cache::{lru_put_result, share_chunk, ChunkCache, LRU_CACHE_SIZE};
use crate::chunk::{Chunk, LoadError};
use crate::fingerprint::{fingerprint_for, fingerprint_of, Fingerprint};

verus! {

/// An S3-style replication target: where a remote chunk bucket lives
/// and how it is addressed.
pub struct S3Target {
    pub region: String,
    pub endpoint: Option<String>,
    pub chunk_bucket: String,
    pub domain_addressing: bool,
}

/// A descriptor for one configured replication target.
pub enum ReplicationTarget {
    S3(S3Target),
}

/// How the remote client must resolve the target's region: a custom
/// endpoint when one is configured, otherwise the named region.
pub enum RegionPlan {
    Custom { region: String, endpoint: String },
    Named { region: String },
}

/// Everything a remote client needs to construct one chunk source.
pub struct SourcePlan {
    pub bucket: String,
    pub region: RegionPlan,
    pub domain_addressing: bool,
}

/// The plan a replication target maps to: same bucket, same
/// addressing style, and the custom endpoint exactly when the target
/// names one.
pub open spec fn plan_matches(t: S3Target, p: SourcePlan) -> bool {
    &&& p.bucket@ == t.chunk_bucket@
    &&& p.domain_addressing == t.domain_addressing
    &&& match t.endpoint {
        Some(e) => p.region matches RegionPlan::Custom { region, endpoint } && region@
            == t.region@ && endpoint@ == e@,
        None => p.region matches RegionPlan::Named { region } && region@ == t.region@,
    }
}

/// Turns one replication target into the plan for its chunk source:
/// a target with a configured endpoint becomes a custom region, any
/// other region name is passed on to be parsed by the remote client.
pub fn create_chunk_source(source: &ReplicationTarget) -> (r: SourcePlan)
    ensures
        match *source {
            ReplicationTarget::S3(t) => plan_matches(t, r),
        },
{
    match source {
        ReplicationTarget::S3(t) => {
            let region = match &t.endpoint {
                Some(endpoint) => RegionPlan::Custom {
                    region: t.region.clone(),
                    endpoint: endpoint.clone(),
                },
                None => RegionPlan::Named { region: t.region.clone() },
            };
            SourcePlan {
                bucket: t.chunk_bucket.clone(),
                region,
                domain_addressing: t.domain_addressing,
            }
        },
    }
}

/// `n` zero bytes: the payload of the zero-filled chunk.
pub open spec fn zero_bytes(n: nat) -> Seq<u8> {
    Seq::new(n, |i: int| 0u8)
}

fn zero_payload(granularity: usize) -> (r: Vec<u8>)
    ensures
        r@ == zero_bytes(granularity as nat),
{
    let mut v: Vec<u8> = Vec::new();
    let mut i: usize = 0;
    while i < granularity
        invariant
            i <= granularity,
            v@ == zero_bytes(i as nat),
        decreases granularity - i,
    {
        v.push(0u8);
        proof {
            assert(v@ =~= zero_bytes(i as nat + 1));
        }
        i = i + 1;
    }
    v
}

/// The I/O a fetch asks its driver to perform next.
#[derive(Clone, Copy, PartialEq, Eq, Debug, Structural)]
pub enum FetchAction {
    /// Read the chunk's name from the local cache directory at this
    /// index of the configured list.
    ReadLocal(usize),
    /// GET the chunk's name from the remote source at this index of
    /// the configured list.
    GetRemote(usize),
}

/// What one source answered: the chunk's bytes, a clean miss, or a
/// failure (which is surfaced, never masked as a miss).
pub enum SourceEvent {
    Found(Vec<u8>),
    Absent,
    Failed(LoadError),
}

/// An in-flight fetch: the fingerprint wanted and how many sources
/// have already been consulted.
pub struct FetchState {
    pub fprint: Fingerprint,
    pub cursor: usize,
}

/// Where a fetch stands: finished (with the chunk, or with a normal
/// absence), or waiting for its driver to consult one more source.
pub enum FetchStatus {
    Done(Option<Arc<Chunk>>),
    Pending(FetchState, FetchAction),
}

/// The loader's immutable configuration plus the cache service it
/// owns: an ordered list of local cache directories, an ordered list
/// of remote source plans, and the precomputed zero-filled chunk.
pub struct Loader {
    local_caches: Vec<String>,
    remote_sources: Vec<SourcePlan>,
    zero_fprint: Fingerprint,
    zero_chunk: Arc<Chunk>,
    cache: ChunkCache,
}

/// Two loaders with the same configuration: only the cache contents
/// may differ.
pub open spec fn same_config(a: Loader, b: Loader) -> bool {
    &&& b.spec_locals() == a.spec_locals()
    &&& b.spec_remotes() == a.spec_remotes()
    &&& b.spec_zero_fprint() == a.spec_zero_fprint()
    &&& b.spec_zero_chunk() == a.spec_zero_chunk()
    &&& b.spec_cache().capacity() == a.spec_cache().capacity()
}

impl Loader {
    /// The configured local cache directories, in precedence order.
    pub closed spec fn spec_locals(&self) -> Seq<String> {
        self.local_caches@
    }

    /// The configured remote source plans, in precedence order.
    pub closed spec fn spec_remotes(&self) -> Seq<SourcePlan> {
        self.remote_sources@
    }

    /// The fingerprint of the zero-filled chunk.
    pub closed spec fn spec_zero_fprint(&self) -> Fingerprint {
        self.zero_fprint
    }

    /// The zero-filled chunk singleton.
    pub closed spec fn spec_zero_chunk(&self) -> Arc<Chunk> {
        self.zero_chunk
    }

    /// The cache service the loader owns.
    pub closed spec fn spec_cache(&self) -> ChunkCache {
        self.cache
    }

    /// How many sources a fetch can consult: every local directory,
    /// then every remote source.
    pub open spec fn source_count(&self) -> nat {
        self.spec_locals().len() + self.spec_remotes().len()
    }

    /// The source consulted at position `cursor` of a fetch: local
    /// directories first, in index order, then remote sources, in
    /// index order.
    pub open spec fn action_of(&self, cursor: nat) -> FetchAction {
        if cursor < self.spec_locals().len() {
            FetchAction::ReadLocal(cursor as usize)
        } else {
            FetchAction::GetRemote((cursor - self.spec_locals().len()) as usize)
        }
    }

    /// The loader is well formed: its cache service is, its zero
    /// chunk is the integrity-checked all-zero payload filed under
    /// its own fingerprint, and the source list is addressable.
    pub open spec fn wf(&self) -> bool {
        &&& self.spec_cache().wf()
        &&& (*self.spec_zero_chunk()).wf()
        &&& (*self.spec_zero_chunk()).spec_fprint() == self.spec_zero_fprint()
        &&& (*self.spec_zero_chunk()).spec_payload() == zero_bytes(
            (*self.spec_zero_chunk()).spec_payload().len(),
        )
        &&& self.source_count() <= usize::MAX
    }

    /// Creates a fresh loader that looks for chunks first in the
    /// `local` cache directories and then in the `remote` targets,
    /// always in low-to-high index order, and precomputes the
    /// zero-filled chunk of `granularity` bytes.
    pub fn new(local: Vec<String>, remote: &Vec<ReplicationTarget>, granularity: usize) -> (r:
        Loader)
        requires
            local@.len() + remote@.len() <= usize::MAX,
        ensures
            r.wf(),
            r.spec_locals() == local@,
            r.spec_remotes().len() == remote@.len(),
            forall|i: int|
                0 <= i < remote@.len() ==> match remote@[i] {
                    ReplicationTarget::S3(t) => plan_matches(t, #[trigger] r.spec_remotes()[i]),
                },
            (*r.spec_zero_chunk()).spec_payload() == zero_bytes(granularity as nat),
            r.spec_zero_fprint().hash0 == fingerprint_of(zero_bytes(granularity as nat)).0,
            r.spec_zero_fprint().hash1 == fingerprint_of(zero_bytes(granularity as nat)).1,
            r.spec_cache().dedup_map() == Map::<Fingerprint, Arc<Chunk>>::empty(),
            r.spec_cache().retained_entries() == Seq::<(Fingerprint, Arc<Chunk>)>::empty(),
            r.spec_cache().capacity() == LRU_CACHE_SIZE as nat,
    {
        let mut remote_sources: Vec<SourcePlan> = Vec::new();
        let mut i: usize = 0;
        while i < remote.len()
            invariant
                i <= remote@.len(),
                remote_sources@.len() == i,
                forall|j: int|
                    0 <= j < i ==> match remote@[j] {
                        ReplicationTarget::S3(t) => plan_matches(
                            t,
                            #[trigger] remote_sources@[j],
                        ),
                    },
            decreases remote@.len() - i,
        {
            remote_sources.push(create_chunk_source(&remote[i]));
            i = i + 1;
        }
        let payload = zero_payload(granularity);
        let zero_fprint = fingerprint_for(payload.as_slice());
        let zero_chunk = match Chunk::new(zero_fprint, payload) {
            Ok(c) => Arc::new(c),
            Err(_) => unreached(),
        };
        Loader {
            local_caches: local,
            remote_sources,
            zero_fprint,
            zero_chunk,
            cache: ChunkCache::new(LRU_CACHE_SIZE),
        }
    }

    pub fn local_count(&self) -> (n: usize)
        ensures
            n == self.spec_locals().len(),
    {
        self.local_caches.len()
    }

    pub fn remote_count(&self) -> (n: usize)
        ensures
            n == self.spec_remotes().len(),
    {
        self.remote_sources.len()
    }

    /// The local cache directory at index `i` of the configured list.
    pub fn local_dir(&self, i: usize) -> (r: &String)
        requires
            i < self.spec_locals().len(),
        ensures
            *r == self.spec_locals()[i as int],
    {
        &self.local_caches[i]
    }

    /// The remote source plan at index `i` of the configured list.
    pub fn remote_source(&self, i: usize) -> (r: &SourcePlan)
        requires
            i < self.spec_remotes().len(),
        ensures
            *r == self.spec_remotes()[i as int],
    {
        &self.remote_sources[i]
    }

    /// The fingerprint of the zero-filled chunk.
    pub fn zero_fingerprint(&self) -> (r: Fingerprint)
        ensures
            r == self.spec_zero_fprint(),
    {
        self.zero_fprint
    }

    /// How many chunks the retention cache currently keeps alive.
    pub fn retained_len(&self) -> (n: usize)
        ensures
            n == self.spec_cache().retained_entries().len(),
    {
        self.cache.retained_len()
    }

    fn action_at(&self, cursor: usize) -> (r: FetchAction)
        requires
            cursor < self.source_count(),
        ensures
            r == self.action_of(cursor as nat),
    {
        if cursor < self.local_caches.len() {
            FetchAction::ReadLocal(cursor)
        } else {
            FetchAction::GetRemote(cursor - self.local_caches.len())
        }
    }

    /// Starts fetching the chunk for `fprint`.
    ///
    /// The zero-filled chunk is returned immediately, touching
    /// neither cache tier nor any source.  Otherwise the two-tier
    /// cache answers without I/O when it can; on a miss the fetch is
    /// handed back to the driver pointing at the first configured
    /// source, or finishes empty when no source is configured.
    pub fn fetch_begin(&mut self, fprint: Fingerprint) -> (r: FetchStatus)
        requires
            old(self).wf(),
        ensures
            final(self).wf(),
            same_config(*old(self), *final(self)),
            fprint == old(self).spec_zero_fprint() ==> (r matches FetchStatus::Done(Some(c)) && c
                == old(self).spec_zero_chunk() && *final(self) == *old(self)),
            fprint != old(self).spec_zero_fprint() ==> {
                &&& final(self).spec_cache().dedup_map() == old(self).spec_cache().dedup_map()
                &&& if old(self).spec_cache().dedup_map().contains_key(fprint) {
                    r matches FetchStatus::Done(Some(c))
                        && c == old(self).spec_cache().dedup_map()[fprint]
                        && (*c).wf()
                        && (*c).spec_fprint() == fprint
                        && final(self).spec_cache().retained_entries() == lru_put_result(
                            old(self).spec_cache().retained_entries(),
                            old(self).spec_cache().capacity(),
                            fprint,
                            c,
                        )
                } else {
                    &&& final(self).spec_cache().retained_entries()
                        == old(self).spec_cache().retained_entries()
                    &&& if old(self).source_count() > 0 {
                        r == FetchStatus::Pending(
                            (FetchState { fprint, cursor: 0 }),
                            old(self).action_of(0),
                        )
                    } else {
                        r == FetchStatus::Done(None::<Arc<Chunk>>)
                    }
                }
            },
    {
        if fprint == self.zero_fprint {
            let c = share_chunk(&self.zero_chunk);
            return FetchStatus::Done(Some(c));
        }
        match self.cache.fetch_from_cache(fprint) {
            Some(c) => FetchStatus::Done(Some(c)),
            None => {
                if self.local_caches.len() > 0 || self.remote_sources.len() > 0 {
                    let action = self.action_at(0);
                    FetchStatus::Pending(FetchState { fprint, cursor: 0 }, action)
                } else {
                    FetchStatus::Done(None)
                }
            },
        }
    }

    /// Advances a fetch with what the source consulted at
    /// `st.cursor` answered.
    ///
    /// Bytes that were found are validated and wrapped exactly once
    /// (a mismatch is a hard `ContentMismatch` failure), the cache is
    /// populated, and the fetch finishes: a chunk found at one source
    /// is never fetched again from a later one.  A clean miss moves
    /// on to the next source in configured order, finishing empty
    /// after the last one.  A source failure is surfaced immediately;
    /// it never falls through to the remaining sources.
    pub fn fetch_step(&mut self, st: FetchState, ev: SourceEvent) -> (r: Result<
        FetchStatus,
        LoadError,
    >)
        requires
            old(self).wf(),
            (st.cursor as nat) < old(self).source_count(),
        ensures
            final(self).wf(),
            same_config(*old(self), *final(self)),
            match ev {
                SourceEvent::Found(bytes) => if Chunk::accepts(st.fprint, bytes@) {
                    r matches Ok(FetchStatus::Done(Some(c)))
                        && (*c).spec_payload() == bytes@
                        && (*c).spec_fprint() == st.fprint
                        && (*c).wf()
                        && final(self).spec_cache().dedup_map()
                            == old(self).spec_cache().dedup_map().insert(st.fprint, c)
                        && final(self).spec_cache().retained_entries() == lru_put_result(
                            old(self).spec_cache().retained_entries(),
                            old(self).spec_cache().capacity(),
                            st.fprint,
                            c,
                        )
                } else {
                    &&& r matches Err(e) && e == (LoadError::ContentMismatch {
                        expected: st.fprint,
                        actual: fingerprint_of(bytes@).0,
                        len: bytes@.len() as usize,
                    })
                    &&& *final(self) == *old(self)
                },
                SourceEvent::Absent => {
                    &&& *final(self) == *old(self)
                    &&& if st.cursor + 1 < old(self).source_count() {
                        r == Ok::<FetchStatus, LoadError>(
                            FetchStatus::Pending(
                                (FetchState { fprint: st.fprint, cursor: (st.cursor + 1) as usize }),
                                old(self).action_of(st.cursor as nat + 1),
                            ),
                        )
                    } else {
                        r == Ok::<FetchStatus, LoadError>(FetchStatus::Done(None::<Arc<Chunk>>))
                    }
                },
                SourceEvent::Failed(e) => {
                    &&& r == Err::<FetchStatus, LoadError>(e)
                    &&& *final(self) == *old(self)
                },
            },
    {
        match ev {
            SourceEvent::Found(bytes) => match Chunk::new(st.fprint, bytes) {
                Ok(c) => {
                    let chunk = Arc::new(c);
                    self.cache.update_cache(share_chunk(&chunk));
                    Ok(FetchStatus::Done(Some(chunk)))
                },
                Err(e) => Err(e),
            },
            SourceEvent::Absent => {
                let next = st.cursor + 1;
                let count = self.local_caches.len() + self.remote_sources.len();
                if next < count {
                    let action = self.action_at(next);
                    Ok(FetchStatus::Pending(FetchState { fprint: st.fprint, cursor: next }, action))
                } else {
                    Ok(FetchStatus::Done(None))
                }
            },
            SourceEvent::Failed(e) => Err(e),
        }
    }
}

fn contains_fprint(v: &Vec<Fingerprint>, fp: Fingerprint) -> (b: bool)
    ensures
        b == v@.contains(fp),
{
    let mut i: usize = 0;
    while i < v.len()
        invariant
            i <= v@.len(),
            forall|j: int| 0 <= j < i ==> v@[j] != fp,
        decreases v@.len() - i,
    {
        if v[i] == fp {
            return true;
        }
        i = i + 1;
    }
    false
}

/// Relies on rand: `shuffle` permutes the slice in place into a
/// uniformly random order.  Which order comes out is not assumed,
/// only what holds of every permutation: the same fingerprints, in
/// the same number, with no duplicate introduced.
#[verifier::external_body]
fn shuffle_fingerprints(v: &mut Vec<Fingerprint>)
    ensures
        final(v)@.to_multiset() == old(v)@.to_multiset(),
        final(v)@.to_set() == old(v)@.to_set(),
        final(v)@.len() == old(v)@.len(),
        old(v)@.no_duplicates() ==> final(v)@.no_duplicates(),
{
    v.as_mut_slice().shuffle(&mut rand::rng());
}

/// Prepares a batch fetch: deduplicates the requested fingerprints
/// and shuffles the survivors into a random dispatch order, so that
/// many callers loading similar sets do not hammer the same source
/// for the same fingerprints in the same order.  The shuffle reorders
/// across fingerprints only; the source order within each single
/// fetch is untouched.
pub fn plan_batch(fprints: &Vec<Fingerprint>) -> (r: Vec<Fingerprint>)
    ensures
        r@.no_duplicates(),
        r@.to_set() == fprints@.to_set(),
        r@.len() <= fprints@.len(),
{
    let mut targets: Vec<Fingerprint> = Vec::new();
    let mut i: usize = 0;
    while i < fprints.len()
        invariant
            i <= fprints@.len(),
            targets@.no_duplicates(),
            targets@.to_set() == fprints@.take(i as int).to_set(),
            targets@.len() <= i,
        decreases fprints@.len() - i,
    {
        let fp = fprints[i];
        proof {
            let s0 = fprints@.take(i as int);
            let s1 = fprints@.take(i + 1);
            assert(s1 =~= s0.push(fp));
            assert(s1.to_set() =~= s0.to_set().insert(fp)) by {
                assert forall|x: Fingerprint| s1.contains(x) implies s0.to_set().insert(
                    fp,
                ).contains(x) by {
                    let j = choose|j: int| 0 <= j < s1.len() && s1[j] == x;
                    if j < i {
                        assert(s0[j] == x);
                    }
                }
                assert forall|x: Fingerprint| s0.to_set().insert(fp).contains(x) implies s1
                    .contains(x) by {
                    if x == fp {
                        assert(s1[i as int] == x);
                    } else {
                        let j = choose|j: int| 0 <= j < s0.len() && s0[j] == x;
                        assert(s1[j] == x);
                    }
                }
            }
        }
        if !contains_fprint(&targets, fp) {
            let ghost t0 = targets@;
            targets.push(fp);
            proof {
                assert forall|x: Fingerprint| targets@.contains(x) implies t0.to_set().insert(
                    fp,
                ).contains(x) by {
                    let j = choose|j: int| 0 <= j < targets@.len() && targets@[j] == x;
                    if j < t0.len() {
                        assert(t0[j] == x);
                    }
                }
                assert forall|x: Fingerprint| t0.to_set().insert(fp).contains(x) implies targets@
                    .contains(x) by {
                    if x == fp {
                        assert(targets@[t0.len() as int] == x);
                    } else {
                        let j = choose|j: int| 0 <= j < t0.len() && t0[j] == x;
                        assert(targets@[j] == x);
                    }
                }
                assert(targets@.to_set() =~= t0.to_set().insert(fp));
                assert forall|j1: int, j2: int|
                    0 <= j1 < targets@.len() && 0 <= j2 < j1 implies targets@[j1] != targets@[j2]
                    by {
                    if j1 == t0.len() {
                        assert(t0.contains(t0[j2]));
                    }
                }
            }
        } else {
            proof {
                assert(targets@.to_set().contains(fp));
                assert(targets@.to_set() =~= targets@.to_set().insert(fp));
            }
        }
        i = i + 1;
    }
    proof {
        assert(fprints@.take(fprints@.len() as int) =~= fprints@);
    }
    shuffle_fingerprints(&mut targets);
    targets
}

/// The chunks a batch produced, in dispatch order: one entry for
/// every fingerprint that was found, none for an absent one.
pub open spec fn collected(rs: Seq<(Fingerprint, Result<Option<Arc<Chunk>>, LoadError>)>) -> Seq<
    (Fingerprint, Arc<Chunk>),
>
    decreases rs.len(),
{
    if rs.len() == 0 {
        Seq::empty()
    } else {
        let rest = collected(rs.drop_first());
        match rs[0].1 {
            Ok(found) => match found {
                Some(c) => seq![(rs[0].0, c)] + rest,
                None => rest,
            },
            Err(_) => rest,
        }
    }
}

/// Whether any single fetch of the batch failed.
pub open spec fn batch_has_error(
    rs: Seq<(Fingerprint, Result<Option<Arc<Chunk>>, LoadError>)>,
) -> bool {
    exists|i: int| 0 <= i < rs.len() && rs[i].1 is Err
}

/// Collects a batch's single-fetch results with all-or-nothing error
/// semantics: if any fetch failed the whole batch fails with one of
/// the failures; otherwise the mapping holds exactly the chunks that
/// were found, and a genuinely absent fingerprint is simply omitted.
#[verifier::loop_isolation(false)]
pub fn collect_batch(results: Vec<(Fingerprint, Result<Option<Arc<Chunk>>, LoadError>)>) -> (r:
    Result<Vec<(Fingerprint, Arc<Chunk>)>, LoadError>)
    ensures
        batch_has_error(results@) <==> r is Err,
        r matches Err(e) ==> exists|i: int|
            0 <= i < results@.len() && results@[i].1 == Err::<Option<Arc<Chunk>>, LoadError>(e),
        r matches Ok(m) ==> m@ == collected(results@),
{
    let ghost rs0 = results@;
    let mut rem = results;
    let mut out: Vec<(Fingerprint, Arc<Chunk>)> = Vec::new();
    proof {
        assert(rs0.take(rs0.len() as int) =~= rs0);
        assert(rs0.skip(rs0.len() as int) =~= Seq::<
            (Fingerprint, Result<Option<Arc<Chunk>>, LoadError>),
        >::empty());
    }
    while rem.len() > 0
        invariant
            rem@ == rs0.take(rem@.len() as int),
            rem@.len() <= rs0.len(),
            out@ == collected(rs0.skip(rem@.len() as int)),
            !batch_has_error(rs0.skip(rem@.len() as int)),
        decreases rem@.len(),
    {
        let ghost n = rem@.len() as int - 1;
        proof {
            assert(rem@[n] == rs0[n]);
            assert(rs0.skip(n)[0] == rs0[n]);
            assert(rs0.skip(n).drop_first() =~= rs0.skip(n + 1));
        }
        match rem.pop() {
            Some((fp, res)) => {
                proof {
                    assert(rem@ =~= rs0.take(n));
                }
                match res {
                    Ok(Some(c)) => {
                        out.insert(0, (fp, c));
                        proof {
                            assert(out@ =~= seq![(fp, c)] + collected(rs0.skip(n + 1)));
                            assert forall|i: int| 0 <= i < rs0.skip(n).len() implies !(rs0.skip(
                                n,
                            )[i].1 is Err) by {
                                if i > 0 {
                                    assert(rs0.skip(n + 1)[i - 1] == rs0.skip(n)[i]);
                                }
                            }
                        }
                    },
                    Ok(None) => {
                        proof {
                            assert forall|i: int| 0 <= i < rs0.skip(n).len() implies !(rs0.skip(
                                n,
                            )[i].1 is Err) by {
                                if i > 0 {
                                    assert(rs0.skip(n + 1)[i - 1] == rs0.skip(n)[i]);
                                }
                            }
                        }
                    },
                    Err(e) => {
                        proof {
                            assert(rs0[n].1 == Err::<Option<Arc<Chunk>>, LoadError>(e));
                            assert(batch_has_error(rs0));
                        }
                        return Err(e);
                    },
                }
            },
            None => {
                proof {
                    assert(false);
                }
            },
        }
    }
    proof {
        assert(rs0.skip(0) =~= rs0);
        if batch_has_error(rs0) {
            let i = choose|i: int| 0 <= i < rs0.len() && rs0[i].1 is Err;
            assert(rs0.skip(0)[i].1 is Err);
        }
    }
    Ok(out)
}

} // verus!
