use vstd::prelude::*;

use crate::musicbrainz::{MBRecordingResponse, MBWorkResponse};

verus! {

/// `lru::LruCache`, opaque: what it holds is named by the spec functions below.
#[verifier::external_type_specification]
#[verifier::external_body]
#[verifier::reject_recursive_types(K)]
#[verifier::reject_recursive_types(V)]
#[verifier::reject_recursive_types(S)]
pub struct ExLruCache<K, V, S>(lru::LruCache<K, V, S>);

/// The hasher that `LruCache` uses by default.
#[verifier::external_type_specification]
#[verifier::external_body]
pub struct ExDefaultHasher(lru::DefaultHasher);

/// Entries held per cache.
pub const CACHE_CAPACITY: usize = 1000;

/// No key occurs twice.
pub open spec fn keys_distinct<V>(e: Seq<(Seq<char>, V)>) -> bool {
    forall|i: int, j: int| 0 <= i < e.len() && 0 <= j < e.len() && i != j ==> e[i].0 != e[j].0
}

/// Where key `k` stands, if it is there.
pub open spec fn key_index<V>(e: Seq<(Seq<char>, V)>, k: Seq<char>) -> Option<int> {
    if exists|i: int| 0 <= i < e.len() && e[i].0 == k {
        Some(choose|i: int| 0 <= i < e.len() && e[i].0 == k)
    } else {
        None
    }
}

/// A lookup in a least-recently-used cache: the value for `k`, and the entries with a hit
/// moved to the front.
pub open spec fn lru_get<V>(e: Seq<(Seq<char>, V)>, k: Seq<char>) -> (Option<V>, Seq<(Seq<char>, V)>) {
    match key_index(e, k) {
        Some(i) => (Some(e[i].1), seq![e[i]] + e.remove(i)),
        None => (None, e),
    }
}

/// An insertion into a least-recently-used cache of capacity `cap`: the entry goes to the
/// front, replacing the one with the same key, or else, in a full cache, the last one.
pub open spec fn lru_put<V>(e: Seq<(Seq<char>, V)>, cap: nat, k: Seq<char>, v: V) -> Seq<(Seq<char>, V)> {
    match key_index(e, k) {
        Some(i) => seq![(k, v)] + e.remove(i),
        None => if e.len() >= cap {
            seq![(k, v)] + e.drop_last()
        } else {
            seq![(k, v)] + e
        },
    }
}

/// What the recording cache holds, most recently used first.
pub uninterp spec fn recording_entries(c: lru::LruCache<String, MBRecordingResponse>) -> Seq<(Seq<char>, MBRecordingResponse)>;

/// How many entries the recording cache keeps at most.
pub uninterp spec fn recording_capacity(c: lru::LruCache<String, MBRecordingResponse>) -> nat;

/// Relies on `LruCache::new`: an empty cache of capacity `cap` (through `NonZeroUsize::new`,
/// which cannot fail on a positive `cap`).
#[verifier::external_body]
fn recording_cache_new(cap: usize) -> (r: lru::LruCache<String, MBRecordingResponse>)
    requires
        cap > 0,
    ensures
        recording_entries(r) == Seq::<(Seq<char>, MBRecordingResponse)>::empty(),
        recording_capacity(r) == cap,
{
    lru::LruCache::new(std::num::NonZeroUsize::new(cap).unwrap())
}

/// Relies on `LruCache::get` (a hit becomes the most recently used entry), the value
/// cloned.
#[verifier::external_body]
fn recording_cache_get(c: &mut lru::LruCache<String, MBRecordingResponse>, k: &String) -> (r: Option<MBRecordingResponse>)
    ensures
        r == lru_get(recording_entries(*old(c)), k@).0,
        recording_entries(*final(c)) == lru_get(recording_entries(*old(c)), k@).1,
        recording_capacity(*final(c)) == recording_capacity(*old(c)),
{
    c.get(k).cloned()
}

/// Relies on `LruCache::put`: the entry becomes the most recently used; a new key in a full
/// cache evicts the least recently used entry.
#[verifier::external_body]
fn recording_cache_put(c: &mut lru::LruCache<String, MBRecordingResponse>, k: String, v: MBRecordingResponse)
    ensures
        recording_entries(*final(c)) == lru_put(recording_entries(*old(c)), recording_capacity(*old(c)), k@, v),
        recording_capacity(*final(c)) == recording_capacity(*old(c)),
{
    c.put(k, v);
}

/// Relies on `LruCache::len`: the number of entries.
#[verifier::external_body]
fn recording_cache_len(c: &lru::LruCache<String, MBRecordingResponse>) -> (r: usize)
    ensures
        r == recording_entries(*c).len(),
{
    c.len()
}

/// What the work cache holds, most recently used first.
pub uninterp spec fn work_entries(c: lru::LruCache<String, MBWorkResponse>) -> Seq<(Seq<char>, MBWorkResponse)>;

/// How many entries the work cache keeps at most.
pub uninterp spec fn work_capacity(c: lru::LruCache<String, MBWorkResponse>) -> nat;

/// Relies on `LruCache::new`: an empty cache of capacity `cap` (through `NonZeroUsize::new`,
/// which cannot fail on a positive `cap`).
#[verifier::external_body]
fn work_cache_new(cap: usize) -> (r: lru::LruCache<String, MBWorkResponse>)
    requires
        cap > 0,
    ensures
        work_entries(r) == Seq::<(Seq<char>, MBWorkResponse)>::empty(),
        work_capacity(r) == cap,
{
    lru::LruCache::new(std::num::NonZeroUsize::new(cap).unwrap())
}

/// Relies on `LruCache::get` (a hit becomes the most recently used entry), the value
/// cloned.
#[verifier::external_body]
fn work_cache_get(c: &mut lru::LruCache<String, MBWorkResponse>, k: &String) -> (r: Option<MBWorkResponse>)
    ensures
        r == lru_get(work_entries(*old(c)), k@).0,
        work_entries(*final(c)) == lru_get(work_entries(*old(c)), k@).1,
        work_capacity(*final(c)) == work_capacity(*old(c)),
{
    c.get(k).cloned()
}

/// Relies on `LruCache::put`: the entry becomes the most recently used; a new key in a full
/// cache evicts the least recently used entry.
#[verifier::external_body]
fn work_cache_put(c: &mut lru::LruCache<String, MBWorkResponse>, k: String, v: MBWorkResponse)
    ensures
        work_entries(*final(c)) == lru_put(work_entries(*old(c)), work_capacity(*old(c)), k@, v),
        work_capacity(*final(c)) == work_capacity(*old(c)),
{
    c.put(k, v);
}

/// Relies on `LruCache::len`: the number of entries.
#[verifier::external_body]
fn work_cache_len(c: &lru::LruCache<String, MBWorkResponse>) -> (r: usize)
    ensures
        r == work_entries(*c).len(),
{
    c.len()
}

proof fn lemma_remove_keeps_distinct<V>(e: Seq<(Seq<char>, V)>, i: int)
    requires
        keys_distinct(e),
        0 <= i < e.len(),
    ensures
        keys_distinct(e.remove(i)),
        forall|j: int| 0 <= j < e.remove(i).len() ==> (#[trigger] e.remove(i)[j]).0 != e[i].0,
{
    let r = e.remove(i);
    assert forall|a: int, b: int| 0 <= a < r.len() && 0 <= b < r.len() && a != b implies r[a].0 != r[b].0 by {
        let ia = if a < i { a } else { a + 1 };
        let ib = if b < i { b } else { b + 1 };
        assert(r[a] == e[ia]);
        assert(r[b] == e[ib]);
    }
    assert forall|j: int| 0 <= j < r.len() implies (#[trigger] r[j]).0 != e[i].0 by {
        let ij = if j < i { j } else { j + 1 };
        assert(r[j] == e[ij]);
    }
}

proof fn lemma_put_wf<V>(e: Seq<(Seq<char>, V)>, cap: nat, k: Seq<char>, v: V)
    requires
        keys_distinct(e),
        e.len() <= cap,
        cap > 0,
    ensures
        keys_distinct(lru_put(e, cap, k, v)),
        lru_put(e, cap, k, v).len() <= cap,
{
    let r = lru_put(e, cap, k, v);
    match key_index(e, k) {
        Some(i) => {
            lemma_remove_keeps_distinct(e, i);
            let rest = e.remove(i);
            assert forall|a: int, b: int| 0 <= a < r.len() && 0 <= b < r.len() && a != b implies r[a].0 != r[b].0 by {
                if a > 0 {
                    assert(r[a] == rest[a - 1]);
                }
                if b > 0 {
                    assert(r[b] == rest[b - 1]);
                }
            }
        },
        None => {
            let rest = if e.len() >= cap { e.drop_last() } else { e };
            assert(r == seq![(k, v)] + rest);
            assert forall|j: int| 0 <= j < rest.len() implies rest[j].0 != k by {
                assert(rest[j] == e[j]);
            }
            assert forall|a: int, b: int| 0 <= a < r.len() && 0 <= b < r.len() && a != b implies r[a].0 != r[b].0 by {
                if a > 0 {
                    assert(r[a] == rest[a - 1]);
                    assert(rest[a - 1] == e[a - 1]);
                }
                if b > 0 {
                    assert(r[b] == rest[b - 1]);
                    assert(rest[b - 1] == e[b - 1]);
                }
            }
        },
    }
}

proof fn lemma_get_wf<V>(e: Seq<(Seq<char>, V)>, k: Seq<char>)
    requires
        keys_distinct(e),
    ensures
        keys_distinct(lru_get(e, k).1),
        lru_get(e, k).1.len() == e.len(),
{
    match key_index(e, k) {
        Some(i) => {
            lemma_remove_keeps_distinct(e, i);
            let rest = e.remove(i);
            let r = lru_get(e, k).1;
            assert forall|a: int, b: int| 0 <= a < r.len() && 0 <= b < r.len() && a != b implies r[a].0 != r[b].0 by {
                if a > 0 {
                    assert(r[a] == rest[a - 1]);
                }
                if b > 0 {
                    assert(r[b] == rest[b - 1]);
                }
            }
        },
        None => {},
    }
}

/// Least-recently-used caches of MusicBrainz responses, by recording id and by work id, so
/// that repeated lookups need no request.
pub struct MusicBrainzCache {
    recordings: lru::LruCache<String, MBRecordingResponse>,
    works: lru::LruCache<String, MBWorkResponse>,
}

impl MusicBrainzCache {
    /// Recordings held, most recently used first.
    pub closed spec fn recordings_view(&self) -> Seq<(Seq<char>, MBRecordingResponse)> {
        recording_entries(self.recordings)
    }

    /// Works held, most recently used first.
    pub closed spec fn works_view(&self) -> Seq<(Seq<char>, MBWorkResponse)> {
        work_entries(self.works)
    }

    /// Each cache holds each key at most once and no more than `CACHE_CAPACITY` entries.
    pub closed spec fn wf(&self) -> bool {
        &&& keys_distinct(self.recordings_view())
        &&& keys_distinct(self.works_view())
        &&& recording_capacity(self.recordings) == CACHE_CAPACITY
        &&& work_capacity(self.works) == CACHE_CAPACITY
        &&& self.recordings_view().len() <= CACHE_CAPACITY
        &&& self.works_view().len() <= CACHE_CAPACITY
    }

    /// Two empty caches of `CACHE_CAPACITY` entries each.
    pub fn new() -> (r: Self)
        ensures
            r.wf(),
            r.recordings_view().len() == 0,
            r.works_view().len() == 0,
    {
        MusicBrainzCache { recordings: recording_cache_new(CACHE_CAPACITY), works: work_cache_new(CACHE_CAPACITY) }
    }

    /// The cached response for recording `id`, which becomes the most recently used.
    pub fn get_recording(&mut self, id: &String) -> (r: Option<MBRecordingResponse>)
        requires
            old(self).wf(),
        ensures
            final(self).wf(),
            r == lru_get(old(self).recordings_view(), id@).0,
            final(self).recordings_view() == lru_get(old(self).recordings_view(), id@).1,
            final(self).works_view() == old(self).works_view(),
    {
        proof {
            lemma_get_wf(self.recordings_view(), id@);
        }
        recording_cache_get(&mut self.recordings, id)
    }

    /// Caches the response for recording `id`.
    pub fn put_recording(&mut self, id: String, data: MBRecordingResponse)
        requires
            old(self).wf(),
        ensures
            final(self).wf(),
            final(self).recordings_view() == lru_put(old(self).recordings_view(), CACHE_CAPACITY as nat, id@, data),
            final(self).works_view() == old(self).works_view(),
    {
        proof {
            lemma_put_wf(self.recordings_view(), CACHE_CAPACITY as nat, id@, data);
        }
        recording_cache_put(&mut self.recordings, id, data);
    }

    /// The cached response for work `id`, which becomes the most recently used.
    pub fn get_work(&mut self, id: &String) -> (r: Option<MBWorkResponse>)
        requires
            old(self).wf(),
        ensures
            final(self).wf(),
            r == lru_get(old(self).works_view(), id@).0,
            final(self).works_view() == lru_get(old(self).works_view(), id@).1,
            final(self).recordings_view() == old(self).recordings_view(),
    {
        proof {
            lemma_get_wf(self.works_view(), id@);
        }
        work_cache_get(&mut self.works, id)
    }

    /// Caches the response for work `id`.
    pub fn put_work(&mut self, id: String, data: MBWorkResponse)
        requires
            old(self).wf(),
        ensures
            final(self).wf(),
            final(self).works_view() == lru_put(old(self).works_view(), CACHE_CAPACITY as nat, id@, data),
            final(self).recordings_view() == old(self).recordings_view(),
    {
        proof {
            lemma_put_wf(self.works_view(), CACHE_CAPACITY as nat, id@, data);
        }
        work_cache_put(&mut self.works, id, data);
    }

    /// How many recordings and works are cached.
    pub fn stats(&self) -> (r: (usize, usize))
        ensures
            r.0 == self.recordings_view().len(),
            r.1 == self.works_view().len(),
    {
        (recording_cache_len(&self.recordings), work_cache_len(&self.works))
    }
}

impl Default for MusicBrainzCache {
    fn default() -> (r: Self)
        ensures
            r.wf(),
            r.recordings_view().len() == 0,
            r.works_view().len() == 0,
    {
        MusicBrainzCache::new()
    }
}

} // verus!
