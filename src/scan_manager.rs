use vstd::prelude::*;

use crate::analysis_store::{copy_u32s, AnalysisStore};
use crate::organizer::{genres_view, last_part, last_path_part, MetadataView, TrackMetadata};
use crate::storage::{AudioLibrary, IndexedTrack, TrackView};

verus! {

/// Files handed to the worker pool at a time.
pub const CHUNK_SIZE: usize = 50;

/// Successful merges between two checkpoints.
pub const CHECKPOINT_EVERY: usize = 200;

/// Most workers a scan uses, whatever the machine.
pub const MAX_WORKERS: usize = 4;

/// Machine load while a scan runs. `cpu_usage_bits` is the bit pattern of the average CPU
/// utilisation in percent (an `f32`); the rest are bytes.
pub struct ResourceStats {
    pub cpu_usage_bits: u32,
    pub memory_usage: u64,
    pub disk_usage: u64,
    pub disk_total: u64,
}

/// What an observer sees of a scan or classify run.
pub struct ScanProgress {
    pub is_scanning: bool,
    pub files_total: usize,
    pub files_processed: usize,
    pub current_file: String,
    pub elapsed_secs: u64,
    pub resources: ResourceStats,
    pub errors: usize,
}

/// Why a run could not start.
#[derive(Debug, PartialEq, Eq, Structural)]
pub enum ScanError {
    /// A scan or classify run is already active.
    Busy,
}

impl ScanProgress {
    /// Nothing running, every counter zero.
    pub fn idle() -> (r: Self)
        ensures
            !r.is_scanning,
            r.files_total == 0,
            r.files_processed == 0,
            r.errors == 0,
            r.elapsed_secs == 0,
            r.current_file@.len() == 0,
    {
        ScanProgress {
            is_scanning: false,
            files_total: 0,
            files_processed: 0,
            current_file: String::new(),
            elapsed_secs: 0,
            resources: ResourceStats { cpu_usage_bits: 0, memory_usage: 0, disk_usage: 0, disk_total: 0 },
            errors: 0,
        }
    }

    /// A copy with the same counters and file.
    pub fn snapshot(&self) -> (r: Self)
        ensures
            r.is_scanning == self.is_scanning,
            r.files_total == self.files_total,
            r.files_processed == self.files_processed,
            r.errors == self.errors,
            r.elapsed_secs == self.elapsed_secs,
            r.current_file@ == self.current_file@,
            r.resources == self.resources,
    {
        ScanProgress {
            is_scanning: self.is_scanning,
            files_total: self.files_total,
            files_processed: self.files_processed,
            current_file: self.current_file.clone(),
            elapsed_secs: self.elapsed_secs,
            resources: ResourceStats {
                cpu_usage_bits: self.resources.cpu_usage_bits,
                memory_usage: self.resources.memory_usage,
                disk_usage: self.resources.disk_usage,
                disk_total: self.resources.disk_total,
            },
            errors: self.errors,
        }
    }
}

impl Default for ScanProgress {
    fn default() -> (r: Self)
        ensures
            !r.is_scanning,
            r.files_total == 0,
            r.files_processed == 0,
            r.errors == 0,
            r.elapsed_secs == 0,
            r.current_file@.len() == 0,
    {
        ScanProgress::idle()
    }
}

/// A file that needs work: its path and the size and modification time read for it.
pub struct WorkItem {
    pub path: String,
    pub size: u64,
    pub mtime: u64,
}

/// What the per-file pipeline produced: metadata, and a feature vector when extraction
/// succeeded.
pub struct Enrichment {
    pub metadata: TrackMetadata,
    pub features: Option<Vec<u32>>,
}

/// A work item with the outcome of its pipeline; `None` where a step failed.
pub struct WorkResult {
    pub item: WorkItem,
    pub outcome: Option<Enrichment>,
}

/// The entry a successful result becomes.
pub open spec fn entry_for(r: WorkResult, scanned_at: u64) -> TrackView {
    TrackView {
        path: r.item.path@,
        file_size: r.item.size,
        modified_time: r.item.mtime,
        scanned_at,
        metadata: r.outcome->0.metadata@,
    }
}

/// The index after merging `rs` in order: each success replaces the entry for its path.
pub open spec fn library_after(lib: Map<Seq<char>, TrackView>, rs: Seq<WorkResult>, scanned_at: u64) -> Map<
    Seq<char>,
    TrackView,
>
    decreases rs.len(),
{
    if rs.len() == 0 {
        lib
    } else {
        let prev = library_after(lib, rs.drop_last(), scanned_at);
        let r = rs.last();
        if r.outcome is Some {
            prev.insert(r.item.path@, entry_for(r, scanned_at))
        } else {
            prev
        }
    }
}

/// The feature store after merging `rs` in order: each success with a vector stores it.
pub open spec fn features_after(store: Map<Seq<char>, Seq<u32>>, rs: Seq<WorkResult>) -> Map<
    Seq<char>,
    Seq<u32>,
>
    decreases rs.len(),
{
    if rs.len() == 0 {
        store
    } else {
        let prev = features_after(store, rs.drop_last());
        let r = rs.last();
        if r.outcome is Some && r.outcome->0.features is Some {
            prev.insert(r.item.path@, r.outcome->0.features->0@)
        } else {
            prev
        }
    }
}

/// How many results in `rs` are failures.
pub open spec fn failures(rs: Seq<WorkResult>) -> nat
    decreases rs.len(),
{
    if rs.len() == 0 {
        0
    } else {
        failures(rs.drop_last()) + if rs.last().outcome is None {
            1nat
        } else {
            0nat
        }
    }
}

proof fn lemma_failures_bound(rs: Seq<WorkResult>)
    ensures
        failures(rs) <= rs.len(),
    decreases rs.len(),
{
    if rs.len() > 0 {
        lemma_failures_bound(rs.drop_last());
    }
}

/// The metadata a file is indexed with: what the online lookup found, if it found
/// anything, else the metadata from local tags with the decoded duration and the
/// fingerprint filled in.
pub fn enriched_metadata(online: Option<TrackMetadata>, tags: TrackMetadata, duration_bits: u64, fingerprint: String) -> (r: TrackMetadata)
    ensures
        online is Some ==> r == online->0,
        online is None ==> r.title == tags.title && r.artist == tags.artist && r.album == tags.album
            && r.original_artist == tags.original_artist && r.original_title == tags.original_title
            && r.genres == tags.genres && r.duration_bits == duration_bits && r.fingerprint == Some(fingerprint),
{
    match online {
        Some(m) => m,
        None => {
            let mut m = tags;
            m.duration_bits = duration_bits;
            m.fingerprint = Some(fingerprint);
            m
        },
    }
}

/// Merges one result into the two stores: a success replaces the index entry for its path
/// (with the size and modification time read in the diff phase) and, if it has a feature
/// vector, the stored vector; a failure changes nothing.
pub fn merge_result(library: &mut AudioLibrary, store: &mut AnalysisStore, result: &WorkResult, scanned_at: u64)
    requires
        old(library).wf(),
        old(store).wf(),
    ensures
        final(library).wf(),
        final(store).wf(),
        final(library)@ == library_after(old(library)@, seq![*result], scanned_at),
        final(store)@ == features_after(old(store)@, seq![*result]),
{
    let ghost rs = seq![*result];
    assert(rs.drop_last() =~= Seq::<WorkResult>::empty());
    assert(rs.last() == *result);
    assert(library_after(library@, rs.drop_last(), scanned_at) == library@);
    assert(features_after(store@, rs.drop_last()) == store@);
    match &result.outcome {
        Some(e) => {
            let track = IndexedTrack {
                path: result.item.path.clone(),
                file_size: result.item.size,
                modified_time: result.item.mtime,
                scanned_at,
                metadata: e.metadata.clone(),
            };
            library.insert(track);
            match &e.features {
                Some(f) => {
                    store.insert(result.item.path.clone(), copy_u32s(f));
                },
                None => {},
            }
        },
        None => {},
    }
}

/// A file found by the walker, with its (size, modification time) where they could be read.
pub struct Candidate {
    pub path: String,
    pub stat: Option<(u64, u64)>,
}

/// A file must be processed again: it is not in the index, its size or modification time
/// differ from the entry, or it has no feature vector.
pub open spec fn needs_update(
    lib: Map<Seq<char>, TrackView>,
    store: Map<Seq<char>, Seq<u32>>,
    path: Seq<char>,
    size: u64,
    mtime: u64,
) -> bool {
    !lib.contains_key(path) || lib[path].modified_time != mtime || lib[path].file_size != size
        || !store.contains_key(path)
}

/// The work list of the diff phase, as (path, size, mtime): the candidates whose stat
/// could be read and that need an update, in walker order.
pub open spec fn planned(c: Seq<Candidate>, lib: Map<Seq<char>, TrackView>, store: Map<Seq<char>, Seq<u32>>) -> Seq<
    (Seq<char>, u64, u64),
>
    decreases c.len(),
{
    if c.len() == 0 {
        Seq::empty()
    } else {
        let prev = planned(c.drop_last(), lib, store);
        let x = c.last();
        match x.stat {
            Some((size, mtime)) => if needs_update(lib, store, x.path@, size, mtime) {
                prev.push((x.path@, size, mtime))
            } else {
                prev
            },
            None => prev,
        }
    }
}

/// How many candidates the diff phase skips: stat read, nothing changed.
pub open spec fn skipped_count(c: Seq<Candidate>, lib: Map<Seq<char>, TrackView>, store: Map<Seq<char>, Seq<u32>>) -> nat
    decreases c.len(),
{
    if c.len() == 0 {
        0
    } else {
        let prev = skipped_count(c.drop_last(), lib, store);
        let x = c.last();
        match x.stat {
            Some((size, mtime)) => if needs_update(lib, store, x.path@, size, mtime) {
                prev
            } else {
                prev + 1
            },
            None => prev,
        }
    }
}

pub open spec fn work_view(w: Seq<WorkItem>) -> Seq<(Seq<char>, u64, u64)> {
    w.map_values(|x: WorkItem| (x.path@, x.size, x.mtime))
}

/// The outcome of the diff phase.
pub struct ScanPlan {
    pub to_process: Vec<WorkItem>,
    pub skipped: usize,
}

/// The diff phase: which candidates need processing, and how many are skipped.
pub fn plan_scan(candidates: &Vec<Candidate>, library: &AudioLibrary, store: &AnalysisStore) -> (r: ScanPlan)
    requires
        library.wf(),
        store.wf(),
    ensures
        work_view(r.to_process@) == planned(candidates@, library@, store@),
        r.skipped == skipped_count(candidates@, library@, store@),
        r.to_process@.len() + r.skipped <= candidates@.len(),
{
    let mut work: Vec<WorkItem> = Vec::new();
    let mut skipped: usize = 0;
    let mut i: usize = 0;
    while i < candidates.len()
        invariant
            library.wf(),
            store.wf(),
            i <= candidates@.len(),
            work_view(work@) == planned(candidates@.subrange(0, i as int), library@, store@),
            skipped == skipped_count(candidates@.subrange(0, i as int), library@, store@),
            work@.len() + skipped <= i,
        decreases candidates@.len() - i,
    {
        let c = &candidates[i];
        let ghost sub = candidates@.subrange(0, i + 1);
        assert(sub.drop_last() =~= candidates@.subrange(0, i as int));
        assert(sub.last() == candidates@[i as int]);
        match c.stat {
            Some((size, mtime)) => {
                let changed = match library.get(&c.path) {
                    Some(t) => t.modified_time != mtime || t.file_size != size || store.get(&c.path).is_none(),
                    None => true,
                };
                if changed {
                    let ghost before = work@;
                    work.push(WorkItem { path: c.path.clone(), size, mtime });
                    assert(work_view(work@) =~= work_view(before).push((c.path@, size, mtime)));
                } else {
                    skipped = skipped + 1;
                }
            },
            None => {},
        }
        i = i + 1;
    }
    assert(candidates@.subrange(0, i as int) =~= candidates@);
    ScanPlan { to_process: work, skipped }
}

/// Where a run stands.
#[derive(Debug, PartialEq, Eq, Structural)]
pub enum Phase {
    Idle,
    /// Started; the work list is not known yet.
    Planning,
    Processing,
}

/// The coordinator's state: the progress that observers read, the phase, and how many
/// files this run merged successfully.
pub struct ScanManager {
    pub progress: ScanProgress,
    pub phase: Phase,
    pub merged: usize,
}

impl ScanManager {
    /// Counters agree with each other and with the phase.
    pub open spec fn wf(&self) -> bool {
        &&& self.progress.files_processed <= self.progress.files_total
        &&& self.progress.is_scanning <==> self.phase != Phase::Idle
        &&& self.phase == Phase::Planning ==> self.progress.files_total == 0
            && self.progress.files_processed == 0 && self.progress.errors == 0 && self.merged == 0
    }

    /// Nothing has run yet.
    pub fn new() -> (r: Self)
        ensures
            r.wf(),
            r.phase == Phase::Idle,
            !r.progress.is_scanning,
            r.progress.files_total == 0,
            r.progress.files_processed == 0,
            r.progress.errors == 0,
    {
        ScanManager { progress: ScanProgress::idle(), phase: Phase::Idle, merged: 0 }
    }

    /// A copy of the progress, for an observer.
    pub fn get_progress(&self) -> (r: ScanProgress)
        ensures
            r.is_scanning == self.progress.is_scanning,
            r.files_total == self.progress.files_total,
            r.files_processed == self.progress.files_processed,
            r.errors == self.progress.errors,
            r.elapsed_secs == self.progress.elapsed_secs,
            r.current_file@ == self.progress.current_file@,
            r.resources == self.progress.resources,
    {
        self.progress.snapshot()
    }

    /// Starts a scan or classify run: `Busy` while one is active, otherwise the progress is
    /// reset and marked as scanning.
    pub fn start_scan(&mut self) -> (r: Result<(), ScanError>)
        requires
            old(self).wf(),
        ensures
            final(self).wf(),
            r is Err <==> old(self).progress.is_scanning,
            r is Err ==> r->Err_0 == ScanError::Busy && *final(self) == *old(self),
            r is Ok ==> final(self).phase == Phase::Planning && final(self).progress.is_scanning
                && final(self).progress.files_total == 0 && final(self).progress.files_processed == 0
                && final(self).progress.errors == 0,
    {
        if self.progress.is_scanning {
            return Err(ScanError::Busy);
        }
        let mut p = ScanProgress::idle();
        p.is_scanning = true;
        self.progress = p;
        self.phase = Phase::Planning;
        self.merged = 0;
        Ok(())
    }

    /// Records the result of the diff phase: `files_total` candidates, of which `skipped`
    /// need no work and count as processed already. Only a run that is planning takes it.
    pub fn set_plan(&mut self, files_total: usize, skipped: usize)
        requires
            old(self).wf(),
        ensures
            final(self).wf(),
            old(self).phase == Phase::Planning ==> final(self).phase == Phase::Processing
                && final(self).progress.files_total == files_total
                && final(self).progress.files_processed == if skipped <= files_total {
                skipped
            } else {
                files_total
            } && final(self).progress.errors == 0,
            old(self).phase != Phase::Planning ==> final(self).phase == old(self).phase
                && final(self).progress.files_total == old(self).progress.files_total
                && final(self).progress.files_processed == old(self).progress.files_processed
                && final(self).progress.errors == old(self).progress.errors,
            final(self).progress.files_total >= old(self).progress.files_total,
            final(self).progress.files_processed >= old(self).progress.files_processed,
            final(self).progress.is_scanning == old(self).progress.is_scanning,
            final(self).progress.elapsed_secs == old(self).progress.elapsed_secs,
    {
        if self.phase == Phase::Planning {
            self.progress.files_total = files_total;
            self.progress.files_processed = if skipped <= files_total {
                skipped
            } else {
                files_total
            };
            self.phase = Phase::Processing;
        }
    }

    /// Merges a finished chunk into the stores and the counters, in order. Every result
    /// counts as processed (never past `files_total`), every failure as an error, and
    /// `current_file` becomes the file name of the chunk's last path. Returns whether a checkpoint is due:
    /// the count of successful merges in this run passed a multiple of 200.
    pub fn merge_chunk(
        &mut self,
        library: &mut AudioLibrary,
        store: &mut AnalysisStore,
        results: &Vec<WorkResult>,
        scanned_at: u64,
    ) -> (checkpoint: bool)
        requires
            old(self).wf(),
            old(library).wf(),
            old(store).wf(),
            old(self).progress.errors + results@.len() <= usize::MAX,
            old(self).merged + results@.len() <= usize::MAX,
        ensures
            final(self).wf(),
            final(library).wf(),
            final(store).wf(),
            final(library)@ == library_after(old(library)@, results@, scanned_at),
            final(store)@ == features_after(old(store)@, results@),
            final(self).progress.files_total == old(self).progress.files_total,
            final(self).progress.files_processed == if old(self).progress.files_processed + results@.len()
                <= old(self).progress.files_total {
                old(self).progress.files_processed + results@.len()
            } else {
                old(self).progress.files_total as int
            },
            final(self).progress.errors == old(self).progress.errors + failures(results@),
            final(self).merged == old(self).merged + results@.len() - failures(results@),
            checkpoint == (old(self).merged / CHECKPOINT_EVERY < final(self).merged / CHECKPOINT_EVERY),
            results@.len() > 0 ==> final(self).progress.current_file@ == last_part(results@.last().item.path@),
            final(self).progress.elapsed_secs == old(self).progress.elapsed_secs,
            final(self).progress.files_processed >= old(self).progress.files_processed,
            final(self).progress.errors >= old(self).progress.errors,
            final(self).phase == if old(self).phase == Phase::Planning {
                Phase::Processing
            } else {
                old(self).phase
            },
            final(self).progress.is_scanning == old(self).progress.is_scanning,
    {
        let before = self.merged;
        let mut failed: usize = 0;
        let mut i: usize = 0;
        while i < results.len()
            invariant
                i <= results@.len(),
                library.wf(),
                store.wf(),
                library@ == library_after(old(library)@, results@.subrange(0, i as int), scanned_at),
                store@ == features_after(old(store)@, results@.subrange(0, i as int)),
                failed == failures(results@.subrange(0, i as int)),
                failed <= i,
            decreases results@.len() - i,
        {
            let ghost sub = results@.subrange(0, i + 1);
            assert(sub.drop_last() =~= results@.subrange(0, i as int));
            assert(sub.last() == results@[i as int]);
            let ghost lib0 = library@;
            let ghost store0 = store@;
            merge_result(library, store, &results[i], scanned_at);
            proof {
                let one = seq![results@[i as int]];
                assert(one.drop_last() =~= Seq::<WorkResult>::empty());
                assert(one.last() == results@[i as int]);
                assert(library_after(lib0, one.drop_last(), scanned_at) == lib0);
                assert(features_after(store0, one.drop_last()) == store0);
            }
            if results[i].outcome.is_none() {
                failed = failed + 1;
            }
            i = i + 1;
        }
        assert(results@.subrange(0, i as int) =~= results@);
        let n = results.len();
        let room = self.progress.files_total - self.progress.files_processed;
        if n <= room {
            self.progress.files_processed = self.progress.files_processed + n;
        } else {
            self.progress.files_processed = self.progress.files_total;
        }
        self.progress.errors = self.progress.errors + failed;
        self.merged = self.merged + (n - failed);
        if n > 0 {
            self.progress.current_file = last_path_part(results[n - 1].item.path.as_str());
        }
        if self.phase == Phase::Planning {
            // a chunk before any plan: treat the run as processing from here on
            self.phase = Phase::Processing;
        }
        before / CHECKPOINT_EVERY < self.merged / CHECKPOINT_EVERY
    }

    /// Counts `done` more files as processed (never past `files_total`) and `failed` of
    /// them as errors: the progress of a classify run, which merges no scan results.
    pub fn record_progress(&mut self, done: usize, failed: usize)
        requires
            old(self).wf(),
            failed <= done,
            old(self).progress.errors + failed <= usize::MAX,
        ensures
            final(self).wf(),
            final(self).progress.files_total == old(self).progress.files_total,
            final(self).progress.files_processed == if old(self).progress.files_processed + done
                <= old(self).progress.files_total {
                old(self).progress.files_processed + done
            } else {
                old(self).progress.files_total as int
            },
            final(self).progress.errors == old(self).progress.errors + failed,
            final(self).progress.is_scanning == old(self).progress.is_scanning,
            final(self).progress.elapsed_secs == old(self).progress.elapsed_secs,
            final(self).merged == old(self).merged,
            final(self).phase == if old(self).phase == Phase::Planning {
                Phase::Processing
            } else {
                old(self).phase
            },
    {
        let room = self.progress.files_total - self.progress.files_processed;
        if done <= room {
            self.progress.files_processed = self.progress.files_processed + done;
        } else {
            self.progress.files_processed = self.progress.files_total;
        }
        self.progress.errors = self.progress.errors + failed;
        if self.phase == Phase::Planning {
            self.phase = Phase::Processing;
        }
    }

    /// Updates the machine load and the elapsed time, which never goes back; ignored when
    /// nothing runs.
    pub fn record_resources(&mut self, resources: ResourceStats, elapsed_secs: u64)
        requires
            old(self).wf(),
        ensures
            final(self).wf(),
            final(self).phase == old(self).phase,
            final(self).merged == old(self).merged,
            final(self).progress.files_total == old(self).progress.files_total,
            final(self).progress.files_processed == old(self).progress.files_processed,
            final(self).progress.errors == old(self).progress.errors,
            final(self).progress.is_scanning == old(self).progress.is_scanning,
            old(self).progress.is_scanning ==> final(self).progress.resources == resources
                && final(self).progress.elapsed_secs == if elapsed_secs > old(self).progress.elapsed_secs {
                elapsed_secs
            } else {
                old(self).progress.elapsed_secs
            },
            final(self).progress.elapsed_secs >= old(self).progress.elapsed_secs,
    {
        if self.progress.is_scanning {
            self.progress.resources = resources;
            if elapsed_secs > self.progress.elapsed_secs {
                self.progress.elapsed_secs = elapsed_secs;
            }
        }
    }

    /// Ends the run: counters are frozen and `is_scanning` is cleared; the elapsed time
    /// never goes back.
    pub fn finish(&mut self, elapsed_secs: u64)
        requires
            old(self).wf(),
        ensures
            final(self).wf(),
            final(self).phase == Phase::Idle,
            !final(self).progress.is_scanning,
            final(self).progress.elapsed_secs == if elapsed_secs > old(self).progress.elapsed_secs {
                elapsed_secs
            } else {
                old(self).progress.elapsed_secs
            },
            final(self).progress.files_total == old(self).progress.files_total,
            final(self).progress.files_processed == old(self).progress.files_processed,
            final(self).progress.errors == old(self).progress.errors,
    {
        self.progress.is_scanning = false;
        if elapsed_secs > self.progress.elapsed_secs {
            self.progress.elapsed_secs = elapsed_secs;
        }
        self.phase = Phase::Idle;
    }
}

/// After a merge, the entry for path `p` is the one built from the last successful result
/// for `p`, with the size and modification time read for it; without a successful result
/// for `p`, the entry (or its absence) is as before.
pub proof fn lemma_merged_entry(lib: Map<Seq<char>, TrackView>, rs: Seq<WorkResult>, scanned_at: u64, p: Seq<char>)
    ensures
        forall|i: int|
            #![trigger rs[i]]
            0 <= i < rs.len() && rs[i].item.path@ == p && rs[i].outcome is Some && (forall|j: int|
                i < j < rs.len() && rs[j].item.path@ == p ==> rs[j].outcome is None) ==> library_after(lib, rs, scanned_at).contains_key(p)
                && library_after(lib, rs, scanned_at)[p] == entry_for(rs[i], scanned_at)
                && library_after(lib, rs, scanned_at)[p].modified_time == rs[i].item.mtime,
        (forall|i: int| 0 <= i < rs.len() && rs[i].item.path@ == p ==> (#[trigger] rs[i]).outcome is None) ==> (
        library_after(lib, rs, scanned_at).contains_key(p) == lib.contains_key(p) && (lib.contains_key(p)
            ==> library_after(lib, rs, scanned_at)[p] == lib[p])),
    decreases rs.len(),
{
    if rs.len() > 0 {
        let prev = rs.drop_last();
        lemma_merged_entry(lib, prev, scanned_at, p);
        assert forall|i: int|
            #![trigger rs[i]]
            0 <= i < rs.len() && rs[i].item.path@ == p && rs[i].outcome is Some && (forall|j: int|
                i < j < rs.len() && rs[j].item.path@ == p ==> rs[j].outcome is None) implies library_after(lib, rs, scanned_at).contains_key(p)
                && library_after(lib, rs, scanned_at)[p] == entry_for(rs[i], scanned_at)
                && library_after(lib, rs, scanned_at)[p].modified_time == rs[i].item.mtime by {
            if i < rs.len() - 1 {
                assert(prev[i] == rs[i]);
                assert forall|j: int| i < j < prev.len() && prev[j].item.path@ == p implies prev[j].outcome is None by {
                    assert(prev[j] == rs[j]);
                }
            }
        }
        if forall|i: int| 0 <= i < rs.len() && rs[i].item.path@ == p ==> (#[trigger] rs[i]).outcome is None {
            assert forall|i: int| 0 <= i < prev.len() && prev[i].item.path@ == p implies (#[trigger] prev[i]).outcome is None by {
                assert(prev[i] == rs[i]);
            }
        }
    }
}

/// The index has an entry for `p` after a merge exactly when it had one before or some
/// result for `p` succeeded: a failed file gets no new or partial record.
pub proof fn lemma_merged_membership(lib: Map<Seq<char>, TrackView>, rs: Seq<WorkResult>, scanned_at: u64, p: Seq<char>)
    ensures
        library_after(lib, rs, scanned_at).contains_key(p) <==> (lib.contains_key(p) || exists|i: int|
            0 <= i < rs.len() && (#[trigger] rs[i]).item.path@ == p && rs[i].outcome is Some),
    decreases rs.len(),
{
    if rs.len() > 0 {
        let prev = rs.drop_last();
        lemma_merged_membership(lib, prev, scanned_at, p);
        if exists|i: int| 0 <= i < prev.len() && (#[trigger] prev[i]).item.path@ == p && prev[i].outcome is Some {
            let i = choose|i: int| 0 <= i < prev.len() && (#[trigger] prev[i]).item.path@ == p && prev[i].outcome is Some;
            assert(rs[i] == prev[i]);
        }
        if exists|i: int| 0 <= i < rs.len() && (#[trigger] rs[i]).item.path@ == p && rs[i].outcome is Some {
            let i = choose|i: int| 0 <= i < rs.len() && (#[trigger] rs[i]).item.path@ == p && rs[i].outcome is Some;
            if i < rs.len() - 1 {
                assert(prev[i] == rs[i]);
            }
        }
    }
}

/// Merging chunk after chunk is merging their concatenation: the index after a whole run
/// is `library_after` of everything the run merged, in order.
pub proof fn lemma_library_after_concat(lib: Map<Seq<char>, TrackView>, a: Seq<WorkResult>, b: Seq<WorkResult>, scanned_at: u64)
    ensures
        library_after(library_after(lib, a, scanned_at), b, scanned_at) == library_after(lib, a + b, scanned_at),
    decreases b.len(),
{
    if b.len() == 0 {
        assert(a + b =~= a);
    } else {
        lemma_library_after_concat(lib, a, b.drop_last(), scanned_at);
        assert((a + b).drop_last() =~= a + b.drop_last());
        assert((a + b).last() == b.last());
    }
}

/// The same for the feature store.
pub proof fn lemma_features_after_concat(store: Map<Seq<char>, Seq<u32>>, a: Seq<WorkResult>, b: Seq<WorkResult>)
    ensures
        features_after(features_after(store, a), b) == features_after(store, a + b),
    decreases b.len(),
{
    if b.len() == 0 {
        assert(a + b =~= a);
    } else {
        lemma_features_after_concat(store, a, b.drop_last());
        assert((a + b).drop_last() =~= a + b.drop_last());
        assert((a + b).last() == b.last());
    }
}

/// A candidate whose stat was read and matches its index entry, and that has a feature
/// vector, is not in the work list: an unchanged file is not decoded again. Paths of the
/// candidates are distinct, as the walker gives them.
pub proof fn lemma_unchanged_skipped(
    c: Seq<Candidate>,
    lib: Map<Seq<char>, TrackView>,
    store: Map<Seq<char>, Seq<u32>>,
    i: int,
)
    requires
        0 <= i < c.len(),
        forall|a: int, b: int| 0 <= a < c.len() && 0 <= b < c.len() && a != b ==> c[a].path@ != c[b].path@,
        c[i].stat is Some,
        !needs_update(lib, store, c[i].path@, (c[i].stat->0).0, (c[i].stat->0).1),
    ensures
        forall|k: int| 0 <= k < planned(c, lib, store).len() ==> (#[trigger] planned(c, lib, store)[k]).0 != c[i].path@,
    decreases c.len(),
{
    let prev = c.drop_last();
    if i < c.len() - 1 {
        lemma_unchanged_skipped(prev, lib, store, i);
        assert(c.last().path@ != c[i].path@);
    } else {
        lemma_planned_paths(prev, lib, store);
        assert forall|k: int| 0 <= k < planned(prev, lib, store).len() implies (#[trigger] planned(prev, lib, store)[k]).0 != c[i].path@ by {
            let j = choose|j: int| 0 <= j < prev.len() && prev[j].path@ == planned(prev, lib, store)[k].0;
            assert(prev[j] == c[j]);
        }
    }
}

proof fn lemma_planned_paths(c: Seq<Candidate>, lib: Map<Seq<char>, TrackView>, store: Map<Seq<char>, Seq<u32>>)
    ensures
        forall|k: int| 0 <= k < planned(c, lib, store).len() ==> exists|j: int| 0 <= j < c.len() && c[j].path@ == (#[trigger] planned(c, lib, store)[k]).0,
    decreases c.len(),
{
    if c.len() > 0 {
        let prev = c.drop_last();
        lemma_planned_paths(prev, lib, store);
        assert forall|k: int| 0 <= k < planned(c, lib, store).len() implies exists|j: int| 0 <= j < c.len() && c[j].path@ == (#[trigger] planned(c, lib, store)[k]).0 by {
            if k < planned(prev, lib, store).len() {
                let j = choose|j: int| 0 <= j < prev.len() && prev[j].path@ == planned(prev, lib, store)[k].0;
                assert(prev[j] == c[j]);
                assert(planned(c, lib, store)[k] == planned(prev, lib, store)[k]);
            } else {
                assert(c[c.len() - 1].path@ == planned(c, lib, store)[k].0);
            }
        }
    }
}

/// Workers for a scan: one fewer than the logical CPUs (two assumed when unknown), at
/// least one and at most four.
pub fn worker_count(logical_cpus: Option<usize>) -> (r: usize)
    ensures
        1 <= r <= MAX_WORKERS,
        logical_cpus is Some && logical_cpus->0 >= 2 && logical_cpus->0 - 1 <= MAX_WORKERS ==> r == logical_cpus->0 - 1,
        logical_cpus is Some && logical_cpus->0 - 1 > MAX_WORKERS ==> r == MAX_WORKERS,
        logical_cpus is Some && logical_cpus->0 <= 2 ==> r == 1,
        logical_cpus is None ==> r == 1,
{
    let cpus = match logical_cpus {
        Some(n) => n,
        None => 2,
    };
    let spare = if cpus >= 1 { cpus - 1 } else { 0 };
    let at_least_one = if spare < 1 { 1 } else { spare };
    if at_least_one > MAX_WORKERS { MAX_WORKERS } else { at_least_one }
}

/// The work list cut into chunks of 50: (start, end) positions, in order, each chunk
/// non-empty and all but the last full, together covering `0..len`.
pub fn chunk_bounds(len: usize) -> (r: Vec<(usize, usize)>)
    ensures
        forall|i: int|
            0 <= i < r@.len() ==> (#[trigger] r@[i]).0 == CHUNK_SIZE * i && r@[i].0 < r@[i].1 && r@[i].1 == if CHUNK_SIZE * (i + 1) <= len {
                CHUNK_SIZE * (i + 1)
            } else {
                len as int
            },
        len == 0 <==> r@.len() == 0,
        r@.len() > 0 ==> r@.last().1 == len,
{
    let mut r: Vec<(usize, usize)> = Vec::new();
    let mut start: usize = 0;
    while start < len
        invariant
            start <= len,
            start == CHUNK_SIZE * r@.len() || start == len,
            r@.len() > 0 ==> r@.last().1 == start,
            r@.len() == 0 ==> start == 0,
            forall|i: int|
                0 <= i < r@.len() ==> (#[trigger] r@[i]).0 == CHUNK_SIZE * i && r@[i].0 < r@[i].1 && r@[i].1 == if CHUNK_SIZE * (i + 1) <= len {
                    CHUNK_SIZE * (i + 1)
                } else {
                    len as int
                },
        decreases len - start,
    {
        assert(start == CHUNK_SIZE * r@.len());
        let end = if len - start >= CHUNK_SIZE { start + CHUNK_SIZE } else { len };
        r.push((start, end));
        start = end;
    }
    r
}

/// Tracks that have no genres yet.
pub open spec fn lacks_genres() -> spec_fn(TrackView) -> bool {
    |t: TrackView| t.metadata.genres.len() == 0
}

/// The classify-only work list: paths of the tracks that have no genres yet, in index order.
pub fn classify_work_list(library: &AudioLibrary) -> (r: Vec<String>)
    ensures
        r@.map_values(|s: String| s@) == library.tracks().filter(lacks_genres()).map_values(
            |t: TrackView| t.path,
        ),
{
    let ghost t = library.tracks();
    let mut r: Vec<String> = Vec::new();
    let mut i: usize = 0;
    while i < library.files.len()
        invariant
            i <= t.len(),
            t == library.tracks(),
            r@.map_values(|s: String| s@) == t.subrange(0, i as int).filter(lacks_genres()).map_values(|x: TrackView| x.path),
        decreases t.len() - i,
    {
        let ghost before = r@;
        assert(t[i as int] == library.files@[i as int]@);
        assert(t.subrange(0, i + 1) =~= t.subrange(0, i as int).push(t[i as int]));
        proof { t.subrange(0, i as int).lemma_filter_push(t[i as int], lacks_genres()); }
        assert(t[i as int].metadata.genres.len() == library.files@[i as int].metadata.genres@.len());
        if library.files[i].metadata.genres.len() == 0 {
            assert(lacks_genres()(t[i as int]));
            r.push(library.files[i].path.clone());
            assert(r@.map_values(|s: String| s@) =~= before.map_values(|s: String| s@).push(t[i as int].path));
            assert(t.subrange(0, i + 1).filter(lacks_genres()).map_values(|x: TrackView| x.path) =~= t.subrange(0, i as int).filter(lacks_genres()).map_values(|x: TrackView| x.path).push(t[i as int].path));
        } else {
            assert(!lacks_genres()(t[i as int]));
        }
        i = i + 1;
    }
    assert(t.subrange(0, i as int) =~= t);
    r
}

/// The entry `t` with its genres replaced.
pub open spec fn with_genres(t: TrackView, genres: Seq<(Seq<char>, u32)>) -> TrackView {
    TrackView { metadata: MetadataView { genres, ..t.metadata }, ..t }
}

/// Stores the genres found for `path` in its entry; `false`, and nothing changed, when the
/// index has no entry for `path`.
pub fn apply_genres(library: &mut AudioLibrary, path: &String, genres: Vec<(String, u32)>) -> (r: bool)
    requires
        old(library).wf(),
    ensures
        final(library).wf(),
        r == old(library)@.contains_key(path@),
        r ==> final(library)@ == old(library)@.insert(path@, with_genres(old(library)@[path@], genres_view(genres@))),
        !r ==> final(library)@ == old(library)@,
{
    let updated = match library.get(path) {
        Some(t) => {
            let mut u = t.clone();
            u.metadata.genres = genres;
            Some(u)
        },
        None => None,
    };
    match updated {
        Some(u) => {
            proof {
                assert(u@ == with_genres(old(library)@[path@], genres_view(genres@)));
            }
            library.insert(u);
            true
        },
        None => false,
    }
}

} // verus!
