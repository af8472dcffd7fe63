use vstd::prelude::*;

use crate::musicbrainz::{ArtistCredit, MBRecordingResponse, MBWorkResponse};
use crate::organizer::{genres_view, opt_view, TrackMetadata};

verus! {

/// An AcoustID lookup response.
pub struct AcoustIdResponse {
    pub status: String,
    pub results: Option<Vec<AcoustIdResult>>,
}

/// One match; `score_bits` is the bit pattern of its score (an `f64`).
pub struct AcoustIdResult {
    pub id: String,
    pub score_bits: u64,
    pub recordings: Option<Vec<Recording>>,
}

pub struct Recording {
    pub id: String,
    pub title: Option<String>,
    pub artists: Option<Vec<Artist>>,
}

pub struct Artist {
    pub id: String,
    pub name: String,
}

/// The recording an online lookup settles on, with fallbacks filled in.
pub struct MatchedRecording {
    pub id: String,
    pub title: String,
    pub artist: String,
}

/// The first recording of the best (first) result, if there is one.
pub open spec fn first_recording(resp: AcoustIdResponse) -> Option<Recording> {
    match resp.results {
        Some(rs) => if rs@.len() > 0 {
            match rs@[0].recordings {
                Some(recs) => if recs@.len() > 0 {
                    Some(recs@[0])
                } else {
                    None
                },
                None => None,
            }
        } else {
            None
        },
        None => None,
    }
}

/// The first artist name of a recording, if any.
pub open spec fn first_artist(rec: Recording) -> Option<Seq<char>> {
    match rec.artists {
        Some(a) => if a@.len() > 0 {
            Some(a@[0].name@)
        } else {
            None
        },
        None => None,
    }
}

/// The recording of the best match: its id, its title ("Unknown Title" if it has none) and
/// its first artist ("Unknown Artist" if it has none). `None` when the best result has no
/// recording, which counts as no match.
pub fn best_recording(resp: &AcoustIdResponse) -> (r: Option<MatchedRecording>)
    ensures
        r is Some <==> first_recording(*resp) is Some,
        r is Some ==> r->0.id@ == first_recording(*resp)->0.id@,
        r is Some ==> r->0.title@ == match first_recording(*resp)->0.title {
            Some(t) => t@,
            None => "Unknown Title"@,
        },
        r is Some ==> r->0.artist@ == match first_artist(first_recording(*resp)->0) {
            Some(a) => a,
            None => "Unknown Artist"@,
        },
{
    let results = match &resp.results {
        Some(rs) => rs,
        None => return None,
    };
    if results.len() == 0 {
        return None;
    }
    let recs = match &results[0].recordings {
        Some(r) => r,
        None => return None,
    };
    if recs.len() == 0 {
        return None;
    }
    let rec = &recs[0];
    let title = match &rec.title {
        Some(t) => t.clone(),
        None => String::from_str("Unknown Title"),
    };
    let artist = match &rec.artists {
        Some(a) => if a.len() > 0 {
            a[0].name.clone()
        } else {
            String::from_str("Unknown Artist")
        },
        None => String::from_str("Unknown Artist"),
    };
    Some(MatchedRecording { id: rec.id.clone(), title, artist })
}

/// Ids of the works that a recording's relations point to, in order.
pub fn work_ids(rec: &MBRecordingResponse) -> (r: Vec<String>)
    ensures
        rec.relations is None ==> r@.len() == 0,
        rec.relations is Some ==> r@.map_values(|s: String| s@) == rec.relations->0@.filter(
            |x: crate::musicbrainz::Relation| x.work is Some,
        ).map_values(|x: crate::musicbrainz::Relation| x.work->0.id@),
{
    let rels = match &rec.relations {
        Some(r) => r,
        None => return Vec::new(),
    };
    let ghost pred = |x: crate::musicbrainz::Relation| x.work is Some;
    let ghost idf = |x: crate::musicbrainz::Relation| x.work->0.id@;
    let mut out: Vec<String> = Vec::new();
    let mut i: usize = 0;
    while i < rels.len()
        invariant
            i <= rels@.len(),
            pred == (|x: crate::musicbrainz::Relation| x.work is Some),
            idf == (|x: crate::musicbrainz::Relation| x.work->0.id@),
            out@.map_values(|s: String| s@) == rels@.subrange(0, i as int).filter(pred).map_values(idf),
        decreases rels@.len() - i,
    {
        let ghost before = out@;
        proof {
            assert(rels@.subrange(0, i + 1) =~= rels@.subrange(0, i as int).push(rels@[i as int]));
            rels@.subrange(0, i as int).lemma_filter_push(rels@[i as int], pred);
        }
        match &rels[i].work {
            Some(w) => {
                out.push(w.id.clone());
                assert(out@.map_values(|s: String| s@) =~= before.map_values(|s: String| s@).push(w.id@));
                assert(rels@.subrange(0, i + 1).filter(pred).map_values(idf) =~= rels@.subrange(0, i as int).filter(pred).map_values(idf).push(w.id@));
            },
            None => {},
        }
        i = i + 1;
    }
    assert(rels@.subrange(0, i as int) =~= rels@);
    out
}

/// The first credited name, if any.
pub open spec fn first_credit(c: Option<Vec<ArtistCredit>>) -> Option<Seq<char>> {
    match c {
        Some(v) => if v@.len() > 0 {
            Some(v@[0].name@)
        } else {
            None
        },
        None => None,
    }
}

/// Relation `i` of a work is a recording credited first to someone other than `performer`.
pub open spec fn is_other_version(w: MBWorkResponse, performer: Seq<char>, i: int) -> bool {
    &&& w.relations is Some
    &&& 0 <= i < w.relations->0@.len()
    &&& w.relations->0@[i].recording is Some
    &&& first_credit(w.relations->0@[i].recording->0.artist_credit) is Some
    &&& first_credit(w.relations->0@[i].recording->0.artist_credit)->0 != performer
}

/// The original of a cover: among a work's recordings, the first one credited to someone
/// other than `performer`, as (artist, title).
pub fn cover_original(work: &MBWorkResponse, performer: &String) -> (r: Option<(String, String)>)
    ensures
        r is None <==> forall|i: int| !is_other_version(*work, performer@, i),
        r is Some ==> exists|i: int|
            is_other_version(*work, performer@, i) && (forall|j: int| 0 <= j < i ==> !is_other_version(*work, performer@, j))
                && (r->0).0@ == first_credit(work.relations->0@[i].recording->0.artist_credit)->0
                && (r->0).1@ == work.relations->0@[i].recording->0.title@,
{
    let rels = match &work.relations {
        Some(r) => r,
        None => return None,
    };
    let mut i: usize = 0;
    while i < rels.len()
        invariant
            work.relations == Some(*rels),
            i <= rels@.len(),
            forall|j: int| 0 <= j < i ==> !is_other_version(*work, performer@, j),
        decreases rels@.len() - i,
    {
        if let Some(rec) = &rels[i].recording {
            if let Some(credits) = &rec.artist_credit {
                if credits.len() > 0 {
                    if !credits[0].name.eq(performer) {
                        let r = (credits[0].name.clone(), rec.title.clone());
                        assert(is_other_version(*work, performer@, i as int));
                        return Some(r);
                    }
                }
            }
        }
        i = i + 1;
    }
    proof {
        assert forall|i: int| !is_other_version(*work, performer@, i) by {
            if is_other_version(*work, performer@, i) {
                assert(i < rels@.len());
            }
        }
    }
    None
}

/// The last `Some` in `s`: a later work's original replaces an earlier one's.
pub open spec fn last_found(s: Seq<Option<(String, String)>>) -> Option<(String, String)>
    decreases s.len(),
{
    if s.len() == 0 {
        None
    } else if s.last() is Some {
        s.last()
    } else {
        last_found(s.drop_last())
    }
}

/// Metadata from an online match: title and artist of the matched recording, the cover's
/// original (the last one found over the recording's works) if any, no album, and the
/// duration and fingerprint that were looked up.
pub fn online_metadata(
    matched: MatchedRecording,
    originals: &Vec<Option<(String, String)>>,
    duration_bits: u64,
    fingerprint: String,
) -> (r: TrackMetadata)
    ensures
        r.title@ == matched.title@,
        r.artist@ == matched.artist@,
        r.album is None,
        opt_view(r.original_artist) == match last_found(originals@) {
            Some(o) => Some(o.0@),
            None => None::<Seq<char>>,
        },
        opt_view(r.original_title) == match last_found(originals@) {
            Some(o) => Some(o.1@),
            None => None::<Seq<char>>,
        },
        r.duration_bits == duration_bits,
        r.fingerprint is Some && r.fingerprint->0@ == fingerprint@,
        genres_view(r.genres@).len() == 0,
{
    let mut original_artist: Option<String> = None;
    let mut original_title: Option<String> = None;
    let mut i: usize = 0;
    while i < originals.len()
        invariant
            i <= originals@.len(),
            opt_view(original_artist) == match last_found(originals@.subrange(0, i as int)) {
                Some(o) => Some(o.0@),
                None => None::<Seq<char>>,
            },
            opt_view(original_title) == match last_found(originals@.subrange(0, i as int)) {
                Some(o) => Some(o.1@),
                None => None::<Seq<char>>,
            },
        decreases originals@.len() - i,
    {
        assert(originals@.subrange(0, i + 1).drop_last() =~= originals@.subrange(0, i as int));
        assert(originals@.subrange(0, i + 1).last() == originals@[i as int]);
        if let Some(o) = &originals[i] {
            original_artist = Some(o.0.clone());
            original_title = Some(o.1.clone());
        }
        i = i + 1;
    }
    assert(originals@.subrange(0, i as int) =~= originals@);
    TrackMetadata {
        title: matched.title,
        artist: matched.artist,
        album: None,
        original_artist,
        original_title,
        duration_bits,
        fingerprint: Some(fingerprint),
        genres: Vec::new(),
    }
}

} // verus!
