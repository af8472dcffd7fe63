use vstd::prelude::*;

use crate::organizer::{genres_view, MetadataView, TrackMetadata};

verus! {

/// One entry of the index: a file, what was known of it when it was scanned, and its
/// metadata. Times are seconds since the Unix epoch.
pub struct IndexedTrack {
    pub path: String,
    pub file_size: u64,
    pub modified_time: u64,
    pub scanned_at: u64,
    pub metadata: TrackMetadata,
}

/// What an `IndexedTrack` holds, with strings as character sequences.
pub struct TrackView {
    pub path: Seq<char>,
    pub file_size: u64,
    pub modified_time: u64,
    pub scanned_at: u64,
    pub metadata: MetadataView,
}

impl View for IndexedTrack {
    type V = TrackView;

    open spec fn view(&self) -> TrackView {
        TrackView {
            path: self.path@,
            file_size: self.file_size,
            modified_time: self.modified_time,
            scanned_at: self.scanned_at,
            metadata: self.metadata@,
        }
    }
}

fn clone_opt_string(o: &Option<String>) -> (r: Option<String>)
    ensures
        r == *o,
{
    match o {
        Some(s) => Some(s.clone()),
        None => None,
    }
}

fn clone_genres(g: &Vec<(String, u32)>) -> (r: Vec<(String, u32)>)
    ensures
        genres_view(r@) == genres_view(g@),
{
    let mut r: Vec<(String, u32)> = Vec::new();
    let mut i: usize = 0;
    while i < g.len()
        invariant
            i <= g@.len(),
            r@.len() == i,
            forall|j: int| 0 <= j < i ==> r@[j].0@ == g@[j].0@ && r@[j].1 == g@[j].1,
        decreases g@.len() - i,
    {
        r.push((g[i].0.clone(), g[i].1));
        i = i + 1;
    }
    assert(genres_view(r@) =~= genres_view(g@));
    r
}

impl Clone for TrackMetadata {
    fn clone(&self) -> (r: Self)
        ensures
            r@ == self@,
    {
        let genres = clone_genres(&self.genres);
        let r = TrackMetadata {
            title: self.title.clone(),
            artist: self.artist.clone(),
            album: clone_opt_string(&self.album),
            original_artist: clone_opt_string(&self.original_artist),
            original_title: clone_opt_string(&self.original_title),
            duration_bits: self.duration_bits,
            fingerprint: clone_opt_string(&self.fingerprint),
            genres,
        };
        r
    }
}

impl Clone for IndexedTrack {
    fn clone(&self) -> (r: Self)
        ensures
            r@ == self@,
    {
        IndexedTrack {
            path: self.path.clone(),
            file_size: self.file_size,
            modified_time: self.modified_time,
            scanned_at: self.scanned_at,
            metadata: self.metadata.clone(),
        }
    }
}

pub open spec fn track_views(t: Seq<IndexedTrack>) -> Seq<TrackView> {
    t.map_values(|x: IndexedTrack| x@)
}

/// No two entries share a path.
pub open spec fn paths_unique(t: Seq<TrackView>) -> bool {
    forall|i: int, j: int| 0 <= i < t.len() && 0 <= j < t.len() && i != j ==> t[i].path != t[j].path
}

/// The entries keyed by path.
pub open spec fn by_path(t: Seq<TrackView>) -> Map<Seq<char>, TrackView> {
    Map::new(
        |p: Seq<char>| exists|i: int| 0 <= i < t.len() && t[i].path == p,
        |p: Seq<char>| t[choose|i: int| 0 <= i < t.len() && t[i].path == p],
    )
}

proof fn lemma_by_path_at(t: Seq<TrackView>, i: int)
    requires
        paths_unique(t),
        0 <= i < t.len(),
    ensures
        by_path(t).contains_key(t[i].path),
        by_path(t)[t[i].path] == t[i],
{
    let p = t[i].path;
    assert(by_path(t).dom().contains(p));
    let j = choose|j: int| 0 <= j < t.len() && t[j].path == p;
    assert(j == i);
}

/// Tracks whose fingerprint is `f`.
pub open spec fn with_fingerprint(f: Seq<char>) -> spec_fn(TrackView) -> bool {
    |t: TrackView| t.metadata.fingerprint == Some(f)
}

/// The index: one `IndexedTrack` per absolute path.
pub struct AudioLibrary {
    pub files: Vec<IndexedTrack>,
}

impl View for AudioLibrary {
    type V = Map<Seq<char>, TrackView>;

    open spec fn view(&self) -> Map<Seq<char>, TrackView> {
        by_path(self.tracks())
    }
}

impl AudioLibrary {
    pub open spec fn tracks(&self) -> Seq<TrackView> {
        track_views(self.files@)
    }

    /// Each path has at most one entry.
    pub open spec fn wf(&self) -> bool {
        paths_unique(self.tracks())
    }

    /// An empty index.
    pub fn new() -> (r: Self)
        ensures
            r.wf(),
            r@ == Map::<Seq<char>, TrackView>::empty(),
    {
        let r = AudioLibrary { files: Vec::new() };
        assert(r@ =~= Map::<Seq<char>, TrackView>::empty());
        r
    }

    /// The number of entries.
    pub fn len(&self) -> (r: usize)
        requires
            self.wf(),
        ensures
            r == self@.len(),
            r == self.tracks().len(),
    {
        proof {
            self.lemma_len();
        }
        self.files.len()
    }

    proof fn lemma_len(&self)
        requires
            self.wf(),
        ensures
            self@.len() == self.tracks().len(),
        decreases self.files@.len(),
    {
        let t = self.tracks();
        let dom = self@.dom();
        let paths = t.map_values(|x: TrackView| x.path);
        assert(dom =~= paths.to_set()) by {
            assert forall|p: Seq<char>| dom.contains(p) implies paths.to_set().contains(p) by {
                let i = choose|i: int| 0 <= i < t.len() && t[i].path == p;
                assert(paths[i] == p);
            }
            assert forall|p: Seq<char>| paths.to_set().contains(p) implies dom.contains(p) by {
                let i = choose|i: int| 0 <= i < paths.len() && paths[i] == p;
                assert(t[i].path == p);
            }
        }
        assert(paths.no_duplicates());
        paths.unique_seq_to_set();
    }

    /// Where the entry for `path` stands in `files`.
    pub fn position(&self, path: &String) -> (r: Option<usize>)
        requires
            self.wf(),
        ensures
            r is None <==> !self@.contains_key(path@),
            r is Some ==> r->0 < self.files@.len() && self.tracks()[r->0 as int].path == path@,
    {
        let mut i: usize = 0;
        while i < self.files.len()
            invariant
                i <= self.files@.len(),
                forall|j: int| 0 <= j < i ==> self.tracks()[j].path != path@,
            decreases self.files@.len() - i,
        {
            if self.files[i].path == *path {
                return Some(i);
            }
            i = i + 1;
        }
        None
    }

    /// The entry for `path`, if there is one.
    pub fn get(&self, path: &String) -> (r: Option<&IndexedTrack>)
        requires
            self.wf(),
        ensures
            r is None <==> !self@.contains_key(path@),
            r is Some ==> r->0@ == self@[path@],
    {
        match self.position(path) {
            Some(i) => {
                proof {
                    lemma_by_path_at(self.tracks(), i as int);
                }
                Some(&self.files[i])
            },
            None => None,
        }
    }

    /// Adds `track`, replacing the entry with the same path if there is one.
    pub fn insert(&mut self, track: IndexedTrack)
        requires
            old(self).wf(),
        ensures
            final(self).wf(),
            final(self)@ == old(self)@.insert(track@.path, track@),
    {
        let ghost t0 = self.tracks();
        let ghost tv = track@;
        match self.position(&track.path) {
            Some(i) => {
                self.files.set(i, track);
                proof {
                    let t1 = self.tracks();
                    assert(t1 =~= t0.update(i as int, tv));
                    assert forall|p: Seq<char>| #[trigger] self@.contains_key(p) <==> old(self)@.insert(tv.path, tv).contains_key(p) by {
                        if self@.contains_key(p) {
                            let j = choose|j: int| 0 <= j < t1.len() && t1[j].path == p;
                            if j != i {
                                assert(t0[j].path == p);
                            }
                        }
                        if old(self)@.contains_key(p) {
                            let j = choose|j: int| 0 <= j < t0.len() && t0[j].path == p;
                            if j != i {
                                assert(t1[j].path == p);
                            } else {
                                assert(t1[i as int].path == p);
                            }
                        }
                        if p == tv.path {
                            assert(t1[i as int].path == p);
                        }
                    }
                    assert forall|p: Seq<char>| #[trigger] self@.contains_key(p) implies self@[p] == old(self)@.insert(tv.path, tv)[p] by {
                        let j = choose|j: int| 0 <= j < t1.len() && t1[j].path == p;
                        lemma_by_path_at(t1, j);
                        if j != i {
                            lemma_by_path_at(t0, j);
                        }
                    }
                    assert(self@ =~= old(self)@.insert(tv.path, tv));
                }
            },
            None => {
                self.files.push(track);
                proof {
                    let t1 = self.tracks();
                    assert(t1 =~= t0.push(tv));
                    let n = t0.len() as int;
                    assert forall|p: Seq<char>| #[trigger] self@.contains_key(p) <==> old(self)@.insert(tv.path, tv).contains_key(p) by {
                        if self@.contains_key(p) {
                            let j = choose|j: int| 0 <= j < t1.len() && t1[j].path == p;
                            if j != n {
                                assert(t0[j].path == p);
                            }
                        }
                        if old(self)@.contains_key(p) {
                            let j = choose|j: int| 0 <= j < t0.len() && t0[j].path == p;
                            assert(t1[j].path == p);
                        }
                        if p == tv.path {
                            assert(t1[n].path == p);
                        }
                    }
                    assert forall|p: Seq<char>| #[trigger] self@.contains_key(p) implies self@[p] == old(self)@.insert(tv.path, tv)[p] by {
                        let j = choose|j: int| 0 <= j < t1.len() && t1[j].path == p;
                        lemma_by_path_at(t1, j);
                        if j != n {
                            lemma_by_path_at(t0, j);
                        }
                    }
                    assert(self@ =~= old(self)@.insert(tv.path, tv));
                }
            },
        }
    }

    /// Tracks that share a fingerprint, grouped: a group for each fingerprint that two or
    /// more tracks carry, holding exactly those tracks. Tracks without a fingerprint are
    /// left out; the order of the groups and within them is the order of `files`.
    pub fn find_duplicates(&self) -> (r: Vec<Vec<IndexedTrack>>)
        requires
            self.wf(),
        ensures
            forall|g: int| #![trigger r@[g]] 0 <= g < r@.len() ==> track_views(r@[g]@).len() >= 2
                && exists|f: Seq<char>| track_views(r@[g]@) == self.tracks().filter(with_fingerprint(f)),
            forall|i: int| #![trigger self.tracks()[i]]
                0 <= i < self.tracks().len() && self.tracks()[i].metadata.fingerprint is Some
                    && self.tracks().filter(
                    with_fingerprint(self.tracks()[i].metadata.fingerprint->0),
                ).len() >= 2 ==> exists|g: int| 0 <= g < r@.len() && track_views(r@[g]@) == self.tracks().filter(
                    with_fingerprint(self.tracks()[i].metadata.fingerprint->0),
                ),
            forall|a: int, b: int, x: int, y: int|
                0 <= a < r@.len() && 0 <= b < r@.len() && 0 <= x < r@[a]@.len() && 0 <= y < r@[b]@.len()
                    ==> ((a == b) <==> (#[trigger] r@[a]@[x])@.metadata.fingerprint == (#[trigger] r@[b]@[y])@.metadata.fingerprint),
    {
        broadcast use vstd::seq_lib::group_filter_ensures;

        let ghost t = self.tracks();
        let n = self.files.len();
        let mut groups: Vec<Vec<IndexedTrack>> = Vec::new();
        let ghost mut keys: Seq<Seq<char>> = Seq::empty();
        let ghost mut firsts: Seq<int> = Seq::empty();
        let mut m: usize = 0;
        while m < n
            invariant
                n == t.len(),
                t == self.tracks(),
                m <= n,
                keys.len() == groups@.len(),
                firsts.len() == groups@.len(),
                forall|g: int| #![trigger groups@[g]] 0 <= g < groups@.len() ==> track_views(groups@[g]@)
                    == t.filter(with_fingerprint(keys[g])) && track_views(groups@[g]@).len() >= 2,
                forall|g: int| #![trigger firsts[g]] 0 <= g < groups@.len() ==> 0 <= firsts[g] < m
                    && t[firsts[g]].metadata.fingerprint == Some(keys[g])
                    && forall|j: int| 0 <= j < firsts[g] ==> t[j].metadata.fingerprint != Some(keys[g]),
                forall|a: int, b: int| 0 <= a < b < groups@.len() ==> firsts[a] < firsts[b],
                forall|i: int| #![trigger t[i]] 0 <= i < m && t[i].metadata.fingerprint is Some && t.filter(
                    with_fingerprint(t[i].metadata.fingerprint->0),
                ).len() >= 2 ==> exists|g: int| 0 <= g < keys.len() && keys[g] == t[i].metadata.fingerprint->0,
            decreases n - m,
        {
            let ghost keys0 = keys;
            if let Some(f) = &self.files[m].metadata.fingerprint {
                let ghost fv = f@;
                assert(t[m as int] == self.files@[m as int]@);
                assert(t[m as int].metadata.fingerprint == Some(fv));
                // an earlier track with this fingerprint has already settled it
                let mut j: usize = 0;
                let mut seen = false;
                while j < m && !seen
                    invariant
                        j <= m < n,
                        fv == f@,
                        n == t.len(),
                        t == self.tracks(),
                        seen ==> j < m && t[j as int].metadata.fingerprint == Some(fv),
                        forall|k: int| 0 <= k < j ==> t[k].metadata.fingerprint != Some(fv),
                    decreases m - j + (if seen { 0int } else { 1int }),
                {
                    assert(t[j as int] == self.files@[j as int]@);
                    match &self.files[j].metadata.fingerprint {
                        Some(g) => {
                            if g.eq(f) {
                                seen = true;
                            } else {
                                j = j + 1;
                            }
                        },
                        None => {
                            j = j + 1;
                        },
                    }
                }
                if !seen {
                    let mut group: Vec<IndexedTrack> = Vec::new();
                    let mut k: usize = 0;
                    while k < n
                        invariant
                            k <= n,
                            fv == f@,
                            n == t.len(),
                            t == self.tracks(),
                            track_views(group@) == t.subrange(0, k as int).filter(with_fingerprint(fv)),
                        decreases n - k,
                    {
                        let ghost before = group@;
                        assert(t[k as int] == self.files@[k as int]@);
                        let mut take = false;
                        match &self.files[k].metadata.fingerprint {
                            Some(g) => {
                                if g.eq(f) {
                                    take = true;
                                }
                            },
                            None => {},
                        }
                        if take {
                            group.push(self.files[k].clone());
                        }
                        proof {
                            assert(t.subrange(0, k + 1) =~= t.subrange(0, k as int).push(t[k as int]));
                            t.subrange(0, k as int).lemma_filter_push(t[k as int], with_fingerprint(fv));
                            assert(take == with_fingerprint(fv)(t[k as int]));
                            if take {
                                assert(track_views(group@) =~= track_views(before).push(t[k as int]));
                            } else {
                                assert(track_views(group@) =~= track_views(before));
                            }
                        }
                        k = k + 1;
                    }
                    assert(t.subrange(0, n as int) =~= t);
                    if group.len() >= 2 {
                        proof {
                            keys = keys.push(fv);
                            firsts = firsts.push(m as int);
                        }
                        groups.push(group);
                        proof {
                            let last = (groups@.len() - 1) as int;
                            assert(track_views(groups@[last]@) == t.filter(with_fingerprint(keys[last])));
                        }
                    }
                    assert(keys0.len() <= keys.len() && forall|g: int| 0 <= g < keys0.len() ==> keys[g] == keys0[g]);
                    proof {
                        if t.filter(with_fingerprint(fv)).len() >= 2 {
                            assert(track_views(group@).len() == group@.len());
                            assert(keys[keys.len() - 1] == fv);
                        }
                    }
                    assert(t.filter(with_fingerprint(fv)).len() >= 2 ==> exists|g: int| 0 <= g < keys.len() && keys[g] == fv);
                } else {
                    proof {
                        assert(t.filter(with_fingerprint(fv)) == t.filter(
                            with_fingerprint(t[j as int].metadata.fingerprint->0),
                        ));
                    }
                    assert(t.filter(with_fingerprint(fv)).len() >= 2 ==> exists|g: int| 0 <= g < keys.len() && keys[g] == fv);
                }
                assert(keys0.len() <= keys.len() && forall|g: int| 0 <= g < keys0.len() ==> keys[g] == keys0[g]);
                proof {
                    assert forall|i: int| #![trigger t[i]] 0 <= i < m + 1 && t[i].metadata.fingerprint is Some && t.filter(
                        with_fingerprint(t[i].metadata.fingerprint->0),
                    ).len() >= 2 implies exists|g: int| 0 <= g < keys.len() && keys[g] == t[i].metadata.fingerprint->0 by {
                        if i == m {
                            assert(t[i].metadata.fingerprint->0 == fv);
                        } else {
                            let g = choose|g: int| 0 <= g < keys0.len() && keys0[g] == t[i].metadata.fingerprint->0;
                            assert(keys[g] == keys0[g]);
                        }
                    }
                }
            }
            m = m + 1;
        }
        proof {
            assert forall|a: int, b: int, x: int, y: int|
                0 <= a < groups@.len() && 0 <= b < groups@.len() && 0 <= x < groups@[a]@.len() && 0 <= y < groups@[b]@.len()
                    implies ((a == b) <==> (#[trigger] groups@[a]@[x])@.metadata.fingerprint == (#[trigger] groups@[b]@[y])@.metadata.fingerprint) by {
                let ga = track_views(groups@[a]@);
                let gb = track_views(groups@[b]@);
                assert(ga[x] == groups@[a]@[x]@);
                assert(gb[y] == groups@[b]@[y]@);
                assert(with_fingerprint(keys[a])(t.filter(with_fingerprint(keys[a]))[x]));
                assert(with_fingerprint(keys[b])(t.filter(with_fingerprint(keys[b]))[y]));
                if a != b {
                    if keys[a] == keys[b] {
                        if a < b {
                            assert(firsts[a] < firsts[b]);
                            assert(t[firsts[a]].metadata.fingerprint == Some(keys[b]));
                        } else {
                            assert(firsts[b] < firsts[a]);
                            assert(t[firsts[b]].metadata.fingerprint == Some(keys[a]));
                        }
                    }
                }
            }
            assert forall|i: int| #![trigger self.tracks()[i]]
                0 <= i < self.tracks().len() && self.tracks()[i].metadata.fingerprint is Some
                    && self.tracks().filter(
                    with_fingerprint(self.tracks()[i].metadata.fingerprint->0),
                ).len() >= 2 implies exists|g: int| 0 <= g < groups@.len() && track_views(groups@[g]@) == self.tracks().filter(
                    with_fingerprint(self.tracks()[i].metadata.fingerprint->0),
                ) by {
                assert(t[i] == self.tracks()[i]);
                let g = choose|g: int| 0 <= g < keys.len() && keys[g] == t[i].metadata.fingerprint->0;
                assert(track_views(groups@[g]@) == t.filter(with_fingerprint(keys[g])));
            }
        }
        groups
    }
}

} // verus!