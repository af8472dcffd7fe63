use vstd::prelude::*;

use crate::analysis_store::AnalysisStore;
use crate::organizer::{opt_view, MetadataView};
use crate::scanner::{ascii_lower, lower_exec};
use crate::text::chars_of;
use crate::ranking::{is_ranking, lemma_full_ranking, rank_ascending, ranks_before, total_order_key, total_order_key_exec};
use crate::storage::{AudioLibrary, IndexedTrack, TrackView};

verus! {

/// Optional conditions on the tracks a similarity search may return, all of which must
/// hold. Text comparisons ignore ASCII case.
pub struct RecommendFilters {
    /// Only tracks by this artist.
    pub same_artist: Option<String>,
    /// No tracks from this album.
    pub exclude_album: Option<String>,
    /// Only tracks from this album.
    pub same_album: Option<String>,
    /// No tracks with exactly this fingerprint.
    pub exclude_fingerprint: Option<String>,
    /// Only tracks with a genre label equal to this one.
    pub genre: Option<String>,
}

/// A track and its distance to the query (the bit pattern of an `f32`; smaller is closer).
pub struct ScoredTrack {
    pub track: IndexedTrack,
    pub distance_bits: u32,
}

/// `str::eq_ignore_ascii_case` on character sequences: equal once ASCII letters are in
/// lower case.
pub open spec fn eq_ignore_case(a: Seq<char>, b: Seq<char>) -> bool {
    a.len() == b.len() && forall|i: int| 0 <= i < a.len() ==> ascii_lower(#[trigger] a[i]) == ascii_lower(b[i])
}

/// Whether `a` and `b` are equal but for ASCII case.
pub fn same_ignoring_case(a: &str, b: &str) -> (r: bool)
    ensures
        r == eq_ignore_case(a@, b@),
{
    let x = chars_of(a);
    let y = chars_of(b);
    if x.len() != y.len() {
        return false;
    }
    let mut i: usize = 0;
    while i < x.len()
        invariant
            x@ == a@,
            y@ == b@,
            x@.len() == y@.len(),
            i <= x@.len(),
            forall|j: int| 0 <= j < i ==> ascii_lower(#[trigger] x@[j]) == ascii_lower(y@[j]),
        decreases x@.len() - i,
    {
        if lower_exec(x[i]) != lower_exec(y[i]) {
            return false;
        }
        i = i + 1;
    }
    true
}

/// A track's metadata meets every filter that is set.
pub open spec fn passes_filters(m: MetadataView, f: RecommendFilters) -> bool {
    &&& f.same_artist is Some ==> eq_ignore_case(m.artist, f.same_artist->0@)
    &&& f.same_album is Some ==> m.album is Some && eq_ignore_case(m.album->0, f.same_album->0@)
    &&& f.exclude_album is Some ==> m.album is None || !eq_ignore_case(m.album->0, f.exclude_album->0@)
    &&& f.exclude_fingerprint is Some ==> m.fingerprint is None || m.fingerprint->0 != f.exclude_fingerprint->0@
    &&& f.genre is Some ==> exists|g: int| 0 <= g < m.genres.len() && eq_ignore_case(#[trigger] m.genres[g].0, f.genre->0@)
}

/// Entry `i` of the index may be returned for the query: it is not the query, it has a
/// feature vector, and it passes the filters.
pub open spec fn eligible(
    tracks: Seq<TrackView>,
    store: Map<Seq<char>, Seq<u32>>,
    query: Seq<char>,
    f: RecommendFilters,
    i: int,
) -> bool {
    &&& tracks[i].path != query
    &&& store.contains_key(tracks[i].path)
    &&& passes_filters(tracks[i].metadata, f)
}

fn check_filters(t: &IndexedTrack, f: &RecommendFilters) -> (r: bool)
    ensures
        r == passes_filters(t@.metadata, *f),
{
    let m = &t.metadata;
    if let Some(a) = &f.same_artist {
        if !same_ignoring_case(m.artist.as_str(), a.as_str()) {
            return false;
        }
    }
    if let Some(a) = &f.same_album {
        match &m.album {
            Some(al) => {
                if !same_ignoring_case(al.as_str(), a.as_str()) {
                    return false;
                }
            },
            None => {
                return false;
            },
        }
    }
    if let Some(a) = &f.exclude_album {
        if let Some(al) = &m.album {
            if same_ignoring_case(al.as_str(), a.as_str()) {
                return false;
            }
        }
    }
    if let Some(fp) = &f.exclude_fingerprint {
        if let Some(tfp) = &m.fingerprint {
            if tfp.eq(fp) {
                return false;
            }
        }
    }
    if let Some(g) = &f.genre {
        let mut i: usize = 0;
        let mut found = false;
        while i < m.genres.len() && !found
            invariant
                i <= m.genres@.len(),
                found ==> i < m.genres@.len() && eq_ignore_case(m@.genres[i as int].0, g@),
                forall|j: int| 0 <= j < i ==> !eq_ignore_case(#[trigger] m@.genres[j].0, g@),
            decreases m.genres@.len() - i + (if found { 0int } else { 1int }),
        {
            assert(m@.genres[i as int] == (m.genres@[i as int].0@, m.genres@[i as int].1));
            if same_ignoring_case(m.genres[i].0.as_str(), g.as_str()) {
                found = true;
            } else {
                i = i + 1;
            }
        }
        if !found {
            return false;
        }
        assert(eq_ignore_case(m@.genres[i as int].0, g@));
    }
    true
}

/// Positions in `library.files` of the entries that may be returned for `query_path`, in
/// index order.
pub fn similarity_candidates(
    query_path: &String,
    library: &AudioLibrary,
    store: &AnalysisStore,
    filters: &RecommendFilters,
) -> (r: Vec<usize>)
    requires
        store.wf(),
    ensures
        forall|a: int, b: int| 0 <= a < b < r@.len() ==> r@[a] < r@[b],
        forall|a: int| 0 <= a < r@.len() ==> r@[a] < library.files@.len(),
        forall|i: int|
            0 <= i < library.files@.len() ==> (r@.contains(i as usize) <==> eligible(
                library.tracks(),
                store@,
                query_path@,
                *filters,
                i,
            )),
{
    let ghost t = library.tracks();
    let mut r: Vec<usize> = Vec::new();
    let mut i: usize = 0;
    while i < library.files.len()
        invariant
            store.wf(),
            t == library.tracks(),
            i <= library.files@.len(),
            forall|a: int, b: int| 0 <= a < b < r@.len() ==> r@[a] < r@[b],
            forall|a: int| 0 <= a < r@.len() ==> r@[a] < i,
            forall|j: int| 0 <= j < i ==> (r@.contains(j as usize) <==> eligible(t, store@, query_path@, *filters, j)),
        decreases library.files@.len() - i,
    {
        let track = &library.files[i];
        assert(t[i as int] == track@);
        let ok = track.path != *query_path && store.get(&track.path).is_some() && check_filters(track, filters);
        let ghost r0 = r@;
        if ok {
            r.push(i);
        }
        proof {
            assert forall|j: int| 0 <= j < i + 1 implies (r@.contains(j as usize) <==> eligible(t, store@, query_path@, *filters, j)) by {
                if j < i {
                    if r0.contains(j as usize) {
                        let k = choose|k: int| 0 <= k < r0.len() && r0[k] == j as usize;
                        assert(r@[k] == j as usize);
                    }
                    if r@.contains(j as usize) {
                        let k = choose|k: int| 0 <= k < r@.len() && r@[k] == j as usize;
                        assert(k < r0.len());
                        assert(r0[k] == j as usize);
                    }
                } else {
                    if ok {
                        assert(r@[r@.len() - 1] == i);
                    } else {
                        if r@.contains(j as usize) {
                            let k = choose|k: int| 0 <= k < r@.len() && r@[k] == j as usize;
                            assert(r@[k] < i);
                        }
                    }
                }
            }
        }
        i = i + 1;
    }
    r
}

/// Sort keys of distances: ascending distance.
pub open spec fn distance_keys(d: Seq<u32>) -> Seq<u64> {
    d.map_values(|b: u32| total_order_key(b) as u64)
}

/// The `top_k` nearest of the candidates (positions in `library.files`) whose distances are
/// `distances`, nearest first, ties in candidate order.
pub fn nearest(library: &AudioLibrary, candidates: &Vec<usize>, distances: &Vec<u32>, top_k: usize) -> (r: Vec<ScoredTrack>)
    requires
        candidates@.len() == distances@.len(),
        forall|a: int| 0 <= a < candidates@.len() ==> candidates@[a] < library.files@.len(),
    ensures
        exists|order: Seq<usize>|
            #[trigger] is_ranking(distance_keys(distances@), top_k as int, order) && r@.len() == order.len()
                && forall|i: int|
                0 <= i < order.len() ==> (#[trigger] r@[i]).track@ == library.tracks()[candidates@[order[i] as int] as int]
                    && r@[i].distance_bits == distances@[order[i] as int],
        r@.len() == if top_k < candidates@.len() { top_k as int } else { candidates@.len() as int },
        forall|i: int, j: int|
            0 <= i < j < r@.len() ==> total_order_key(r@[i].distance_bits) <= total_order_key(r@[j].distance_bits),
{
    let mut keys: Vec<u64> = Vec::new();
    let mut i: usize = 0;
    while i < distances.len()
        invariant
            i <= distances@.len(),
            keys@ == distance_keys(distances@).subrange(0, i as int),
        decreases distances@.len() - i,
    {
        keys.push(total_order_key_exec(distances[i]) as u64);
        i = i + 1;
        assert(keys@ =~= distance_keys(distances@).subrange(0, i as int));
    }
    assert(keys@ =~= distance_keys(distances@));
    let order = rank_ascending(&keys, top_k);
    let mut out: Vec<ScoredTrack> = Vec::new();
    let mut j: usize = 0;
    while j < order.len()
        invariant
            j <= order@.len(),
            keys@ == distance_keys(distances@),
            candidates@.len() == distances@.len(),
            forall|a: int| 0 <= a < candidates@.len() ==> candidates@[a] < library.files@.len(),
            is_ranking(keys@, top_k as int, order@),
            out@.len() == j,
            forall|x: int|
                0 <= x < j ==> (#[trigger] out@[x]).track@ == library.tracks()[candidates@[order@[x] as int] as int]
                    && out@[x].distance_bits == distances@[order@[x] as int],
        decreases order@.len() - j,
    {
        let p = order[j];
        let c = candidates[p];
        let track = library.files[c].clone();
        assert(library.tracks()[c as int] == library.files@[c as int]@);
        out.push(ScoredTrack { track, distance_bits: distances[p] });
        j = j + 1;
    }
    proof {
        assert forall|a: int, b: int| 0 <= a < b < out@.len() implies total_order_key(out@[a].distance_bits)
            <= total_order_key(out@[b].distance_bits) by {
            assert(ranks_before(keys@, order@[a] as int, order@[b] as int));
        }
    }
    out
}

/// The positions of the entries that may be returned for the query.
pub open spec fn eligible_set(
    tracks: Seq<TrackView>,
    store: Map<Seq<char>, Seq<u32>>,
    query: Seq<char>,
    f: RecommendFilters,
) -> Set<int> {
    Set::new(|i: int| 0 <= i < tracks.len() && eligible(tracks, store, query, f, i))
}

proof fn lemma_candidates_count(cands: Seq<usize>, tracks: Seq<TrackView>, store: Map<Seq<char>, Seq<u32>>, query: Seq<char>, f: RecommendFilters)
    requires
        forall|a: int, b: int| 0 <= a < b < cands.len() ==> cands[a] < cands[b],
        forall|a: int| 0 <= a < cands.len() ==> cands[a] < tracks.len(),
        forall|i: int| 0 <= i < tracks.len() ==> (cands.contains(i as usize) <==> eligible(tracks, store, query, f, i)),
        tracks.len() <= usize::MAX,
    ensures
        cands.len() == eligible_set(tracks, store, query, f).len(),
{
    let s = cands.map_values(|x: usize| x as int);
    assert(s.no_duplicates()) by {
        assert forall|a: int, b: int| 0 <= a < s.len() && 0 <= b < s.len() && a != b implies s[a] != s[b] by {
            if a < b {
                assert(cands[a] < cands[b]);
            } else {
                assert(cands[b] < cands[a]);
            }
        }
    }
    s.unique_seq_to_set();
    assert(s.to_set() =~= eligible_set(tracks, store, query, f)) by {
        assert forall|x: int| s.to_set().contains(x) implies eligible_set(tracks, store, query, f).contains(x) by {
            let a = choose|a: int| 0 <= a < s.len() && s[a] == x;
            assert(cands.contains(cands[a]));
            assert(cands[a] as int == x);
        }
        assert forall|x: int| eligible_set(tracks, store, query, f).contains(x) implies s.to_set().contains(x) by {
            assert(cands.contains(x as usize));
            let a = choose|a: int| 0 <= a < cands.len() && cands[a] == x as usize;
            assert(s[a] == x);
        }
    }
}

/// `distance` may return `d` for vectors with views `q` and `f`.
pub open spec fn measured<F: Fn(&Vec<u32>, &Vec<u32>) -> u32>(distance: F, q: Seq<u32>, f: Seq<u32>, d: u32) -> bool {
    exists|a: &Vec<u32>, b: &Vec<u32>| a@ == q && b@ == f && #[trigger] distance.ensures((a, b), d)
}

/// Tracks similar to the one at `query_path`: the entries that `eligible` admits, nearest
/// first by `distance` between feature vectors (ties in index order), at most `top_k`.
/// Nothing is returned when the query has no feature vector. `distance` gives the bit
/// pattern of a non-negative `f32`; a mismatch in length should give a very large one.
pub fn find_similar<F: Fn(&Vec<u32>, &Vec<u32>) -> u32>(
    query_path: &String,
    library: &AudioLibrary,
    store: &AnalysisStore,
    filters: &RecommendFilters,
    top_k: usize,
    distance: F,
) -> (r: Vec<ScoredTrack>)
    requires
        library.wf(),
        store.wf(),
        forall|a: &Vec<u32>, b: &Vec<u32>| distance.requires((a, b)),
    ensures
        !store@.contains_key(query_path@) ==> r@.len() == 0,
        store@.contains_key(query_path@) ==> r@.len() == if top_k < eligible_set(library.tracks(), store@, query_path@, *filters).len() {
            top_k as int
        } else {
            eligible_set(library.tracks(), store@, query_path@, *filters).len() as int
        },
        forall|i: int, j: int|
            0 <= i < r@.len() && 0 <= j < r@.len() && i != j ==> (#[trigger] r@[i]).track@.path != (#[trigger] r@[j]).track@.path,
        r@.len() <= top_k,
        forall|i: int|
            0 <= i < r@.len() ==> exists|j: int|
                0 <= j < library.files@.len() && (#[trigger] r@[i]).track@ == library.tracks()[j] && eligible(
                    library.tracks(),
                    store@,
                    query_path@,
                    *filters,
                    j,
                ),
        forall|i: int| 0 <= i < r@.len() ==> (#[trigger] r@[i]).track@.path != query_path@,
        forall|i: int, j: int|
            0 <= i < j < r@.len() ==> total_order_key(r@[i].distance_bits) <= total_order_key(r@[j].distance_bits),
        forall|i: int|
            0 <= i < r@.len() ==> measured(distance, store@[query_path@], store@[(#[trigger] r@[i]).track@.path], r@[i].distance_bits),
        store@.contains_key(query_path@) && r@.len() < top_k ==> forall|j: int|
            0 <= j < library.files@.len() && eligible(library.tracks(), store@, query_path@, *filters, j)
                ==> exists|i: int| 0 <= i < r@.len() && (#[trigger] r@[i]).track@ == library.tracks()[j],
        store@.contains_key(query_path@) ==> forall|j: int|
            0 <= j < library.files@.len() && eligible(library.tracks(), store@, query_path@, *filters, j) && !(exists|i: int|
                0 <= i < r@.len() && (#[trigger] r@[i]).track@ == library.tracks()[j]) ==> exists|d: u32|
                measured(distance, store@[query_path@], store@[library.tracks()[j].path], d) && forall|i: int|
                    0 <= i < r@.len() ==> total_order_key((#[trigger] r@[i]).distance_bits) <= total_order_key(d),
{
    let query = match store.get(query_path) {
        Some(q) => q,
        None => {
            return Vec::new();
        },
    };
    let cands = similarity_candidates(query_path, library, store, filters);
    let mut dists: Vec<u32> = Vec::new();
    let mut k: usize = 0;
    while k < cands.len()
        invariant
            store.wf(),
            k <= cands@.len(),
            dists@.len() == k,
            query@ == store@[query_path@],
            forall|a: &Vec<u32>, b: &Vec<u32>| distance.requires((a, b)),
            forall|a: int| 0 <= a < cands@.len() ==> cands@[a] < library.files@.len(),
            forall|i: int|
                0 <= i < library.files@.len() ==> (cands@.contains(i as usize) <==> eligible(
                    library.tracks(),
                    store@,
                    query_path@,
                    *filters,
                    i,
                )),
            forall|x: int|
                0 <= x < k ==> measured(distance, store@[query_path@], store@[library.tracks()[cands@[x] as int].path], #[trigger] dists@[x]),
        decreases cands@.len() - k,
    {
        let c = cands[k];
        proof {
            assert(cands@[k as int] == c);
            assert(cands@.contains(c));
            assert(library.tracks()[c as int] == library.files@[c as int]@);
            assert(eligible(library.tracks(), store@, query_path@, *filters, c as int));
        }
        let feats = match store.get(&library.files[c].path) {
            Some(f) => f,
            None => {
                return Vec::new();
            },
        };
        let d = distance(query, feats);
        let ghost d0 = dists@;
        dists.push(d);
        proof {
            assert(distance.ensures((query, feats), d));
            assert(measured(distance, store@[query_path@], store@[library.tracks()[c as int].path], d));
            assert forall|x: int| 0 <= x < k + 1 implies measured(distance, store@[query_path@], store@[library.tracks()[cands@[x] as int].path], #[trigger] dists@[x]) by {
                if x < k {
                    assert(dists@[x] == d0[x]);
                }
            }
        }
        k = k + 1;
    }
    let r = nearest(library, &cands, &dists, top_k);
    proof {
        assert(library.files.len() == library.files@.len());
        lemma_candidates_count(cands@, library.tracks(), store@, query_path@, *filters);
        let order = choose|order: Seq<usize>|
            #[trigger] is_ranking(distance_keys(dists@), top_k as int, order) && r@.len() == order.len()
                && forall|i: int|
                0 <= i < order.len() ==> (#[trigger] r@[i]).track@ == library.tracks()[cands@[order[i] as int] as int]
                    && r@[i].distance_bits == dists@[order[i] as int];
        assert forall|i: int| 0 <= i < r@.len() implies exists|j: int|
                0 <= j < library.files@.len() && (#[trigger] r@[i]).track@ == library.tracks()[j] && eligible(
                    library.tracks(),
                    store@,
                    query_path@,
                    *filters,
                    j,
                ) by {
            let x = order[i] as int;
            assert(0 <= x < dists@.len());
            let j = cands@[x] as int;
            assert(cands@.contains(j as usize));
            assert(r@[i].track@ == library.tracks()[j]);
        }
        assert forall|i: int| 0 <= i < r@.len() implies (#[trigger] r@[i]).track@.path != query_path@ by {
            assert(0 <= order[i] < dists@.len());
            let j = cands@[order[i] as int] as int;
            assert(cands@.contains(j as usize));
        }
        assert forall|i: int|
            0 <= i < r@.len() implies measured(distance, store@[query_path@], store@[(#[trigger] r@[i]).track@.path], r@[i].distance_bits) by {
            let x = order[i] as int;
            assert(0 <= x < dists@.len());
            assert(dists@[x] == r@[i].distance_bits);
            assert(r@[i].track@ == library.tracks()[cands@[x] as int]);
        }
        assert forall|j: int|
            0 <= j < library.files@.len() && eligible(library.tracks(), store@, query_path@, *filters, j) && !(exists|i: int|
                0 <= i < r@.len() && (#[trigger] r@[i]).track@ == library.tracks()[j]) implies exists|d: u32|
                measured(distance, store@[query_path@], store@[library.tracks()[j].path], d) && forall|i: int|
                    0 <= i < r@.len() ==> total_order_key((#[trigger] r@[i]).distance_bits) <= total_order_key(d) by {
            assert(cands@.contains(j as usize));
            let x = choose|x: int| 0 <= x < cands@.len() && cands@[x] == j as usize;
            assert(library.files.len() == library.files@.len());
            assert(cands@[x] as int == j);
            if order.contains(x as usize) {
                let i = choose|i: int| 0 <= i < order.len() && order[i] == x as usize;
                assert(r@[i].track@ == library.tracks()[cands@[order[i] as int] as int]);
                assert(r@[i].track@ == library.tracks()[j]);
            }
            let d = dists@[x];
            assert(measured(distance, store@[query_path@], store@[library.tracks()[cands@[x] as int].path], dists@[x]));
            assert forall|i: int| 0 <= i < r@.len() implies total_order_key((#[trigger] r@[i]).distance_bits) <= total_order_key(d) by {
                assert(ranks_before(distance_keys(dists@), order[i] as int, x));
                assert(r@[i].distance_bits == dists@[order[i] as int]);
            }
        }
        assert forall|i: int, j: int|
            0 <= i < r@.len() && 0 <= j < r@.len() && i != j implies (#[trigger] r@[i]).track@.path != (#[trigger] r@[j]).track@.path by {
            let a = order[i] as int;
            let b = order[j] as int;
            if i < j {
                assert(ranks_before(distance_keys(dists@), a, b));
            } else {
                assert(ranks_before(distance_keys(dists@), b, a));
            }
            assert(a != b);
            if a < b {
                assert(cands@[a] < cands@[b]);
            } else {
                assert(cands@[b] < cands@[a]);
            }
            assert(r@[i].track@ == library.tracks()[cands@[a] as int]);
            assert(r@[j].track@ == library.tracks()[cands@[b] as int]);
        }
        if r@.len() < top_k {
            assert(order.len() == dists@.len());
            assert(distance_keys(dists@).len() == dists@.len());
            lemma_full_ranking(distance_keys(dists@), top_k as int, order);
            assert forall|j: int|
                0 <= j < library.files@.len() && eligible(library.tracks(), store@, query_path@, *filters, j)
                    implies exists|i: int| 0 <= i < r@.len() && (#[trigger] r@[i]).track@ == library.tracks()[j] by {
                assert(cands@.contains(j as usize));
                let x = choose|x: int| 0 <= x < cands@.len() && cands@[x] == j as usize;
                assert(order.contains(x as usize));
                let i = choose|i: int| 0 <= i < order.len() && order[i] == x as usize;
                assert(order[i] as int == x);
                assert(library.files.len() == library.files@.len());
                assert(cands@[x] as int == j);
                assert(r@[i].track@ == library.tracks()[cands@[order[i] as int] as int]);
                assert(r@[i].track@ == library.tracks()[j]);
            }
        }
    }
    r
}

} // verus!
