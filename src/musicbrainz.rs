use vstd::prelude::*;

verus! {

/// A MusicBrainz recording with its credits and its relations to works.
#[derive(Clone, Debug)]
pub struct MBRecordingResponse {
    pub id: String,
    pub title: String,
    pub artist_credit: Option<Vec<ArtistCredit>>,
    pub relations: Option<Vec<Relation>>,
}

/// One credited name of a recording.
#[derive(Clone, Debug)]
pub struct ArtistCredit {
    pub name: String,
    pub artist: Option<MBArtist>,
}

#[derive(Clone, Debug)]
pub struct MBArtist {
    pub id: String,
    pub name: String,
}

/// A relation of a recording, e.g. "performance" of a work.
#[derive(Clone, Debug)]
pub struct Relation {
    pub rel_type: String,
    pub work: Option<MBWork>,
}

/// A work that a recording performs. Its own relations are not kept: nothing reads them.
#[derive(Clone, Debug)]
pub struct MBWork {
    pub id: String,
    pub title: String,
}

/// A MusicBrainz work with its relations to recordings.
#[derive(Clone, Debug)]
pub struct MBWorkResponse {
    pub id: String,
    pub title: String,
    pub relations: Option<Vec<WorkRelation>>,
}

/// A relation of a work to one recording of it; `begin` is a date such as "1988-01-01".
#[derive(Clone, Debug)]
pub struct WorkRelation {
    pub rel_type: String,
    pub recording: Option<MBRecordingMinimal>,
    pub begin: Option<String>,
}

#[derive(Clone, Debug)]
pub struct MBRecordingMinimal {
    pub id: String,
    pub title: String,
    pub artist_credit: Option<Vec<ArtistCredit>>,
}

} // verus!
