use audio_sorter::acoustid::{best_recording, cover_original, online_metadata, work_ids, AcoustIdResponse, AcoustIdResult, Artist, MatchedRecording, Recording};
use audio_sorter::cache::{MusicBrainzCache, CACHE_CAPACITY};
use audio_sorter::musicbrainz::{ArtistCredit, MBRecordingMinimal, MBRecordingResponse, MBWork, MBWorkResponse, Relation, WorkRelation};

fn response(recordings: Option<Vec<Recording>>) -> AcoustIdResponse {
    AcoustIdResponse {
        status: "ok".to_string(),
        results: Some(vec![AcoustIdResult { id: "r1".to_string(), score_bits: 0.9f64.to_bits(), recordings }]),
    }
}

#[test]
fn best_recording_takes_first_match() {
    let rec = Recording {
        id: "rec-1".to_string(),
        title: Some("Song".to_string()),
        artists: Some(vec![Artist { id: "a1".to_string(), name: "Singer".to_string() }, Artist { id: "a2".to_string(), name: "Other".to_string() }]),
    };
    let m = best_recording(&response(Some(vec![rec]))).unwrap();
    assert_eq!((m.id.as_str(), m.title.as_str(), m.artist.as_str()), ("rec-1", "Song", "Singer"));
}

#[test]
fn best_recording_fills_unknowns() {
    let rec = Recording { id: "rec-2".to_string(), title: None, artists: Some(vec![]) };
    let m = best_recording(&response(Some(vec![rec]))).unwrap();
    assert_eq!((m.title.as_str(), m.artist.as_str()), ("Unknown Title", "Unknown Artist"));
}

#[test]
fn no_recording_is_no_match() {
    assert!(best_recording(&response(None)).is_none());
    assert!(best_recording(&response(Some(vec![]))).is_none());
    assert!(best_recording(&AcoustIdResponse { status: "ok".to_string(), results: None }).is_none());
    assert!(best_recording(&AcoustIdResponse { status: "ok".to_string(), results: Some(vec![]) }).is_none());
}

fn credit(name: &str) -> ArtistCredit {
    ArtistCredit { name: name.to_string(), artist: None }
}

fn version(title: &str, artist: Option<&str>) -> WorkRelation {
    WorkRelation {
        rel_type: "performance".to_string(),
        recording: Some(MBRecordingMinimal {
            id: format!("id-{}", title),
            title: title.to_string(),
            artist_credit: artist.map(|a| vec![credit(a)]),
        }),
        begin: None,
    }
}

#[test]
fn cover_original_is_first_other_artist() {
    let work = MBWorkResponse {
        id: "w".to_string(),
        title: "W".to_string(),
        relations: Some(vec![version("Mine", Some("Singer")), version("NoCredit", None), version("First", Some("Orig")), version("Second", Some("Later"))]),
    };
    assert_eq!(cover_original(&work, &"Singer".to_string()), Some(("Orig".to_string(), "First".to_string())));
    let only_mine = MBWorkResponse { id: "w".to_string(), title: "W".to_string(), relations: Some(vec![version("Mine", Some("Singer"))]) };
    assert_eq!(cover_original(&only_mine, &"Singer".to_string()), None);
}

#[test]
fn work_ids_in_relation_order() {
    let rec = MBRecordingResponse {
        id: "r".to_string(),
        title: "T".to_string(),
        artist_credit: None,
        relations: Some(vec![
            Relation { rel_type: "performance".to_string(), work: Some(MBWork { id: "w1".to_string(), title: "A".to_string() }) },
            Relation { rel_type: "other".to_string(), work: None },
            Relation { rel_type: "performance".to_string(), work: Some(MBWork { id: "w2".to_string(), title: "B".to_string() }) },
        ]),
    };
    assert_eq!(work_ids(&rec), vec!["w1".to_string(), "w2".to_string()]);
}

#[test]
fn online_metadata_uses_last_original_found() {
    let m = MatchedRecording { id: "r".to_string(), title: "Song".to_string(), artist: "Singer".to_string() };
    let originals = vec![Some(("A".to_string(), "x".to_string())), None, Some(("B".to_string(), "y".to_string())), None];
    let meta = online_metadata(m, &originals, 180.0f64.to_bits(), "FP".to_string());
    assert_eq!(meta.title, "Song");
    assert_eq!(meta.artist, "Singer");
    assert_eq!(meta.original_artist.as_deref(), Some("B"));
    assert_eq!(meta.original_title.as_deref(), Some("y"));
    assert_eq!(meta.fingerprint.as_deref(), Some("FP"));
    assert!(meta.album.is_none());
}

fn rec(id: &str) -> MBRecordingResponse {
    MBRecordingResponse { id: id.to_string(), title: format!("t{}", id), artist_credit: None, relations: None }
}

#[test]
fn cache_returns_what_was_put() {
    let mut c = MusicBrainzCache::new();
    assert!(c.get_recording(&"a".to_string()).is_none());
    c.put_recording("a".to_string(), rec("a"));
    c.put_work("w".to_string(), MBWorkResponse { id: "w".to_string(), title: "W".to_string(), relations: None });
    assert_eq!(c.get_recording(&"a".to_string()).unwrap().title, "ta");
    assert_eq!(c.get_work(&"w".to_string()).unwrap().title, "W");
    assert_eq!(c.stats(), (1, 1));
}

#[test]
fn cache_evicts_least_recently_used() {
    let mut c = MusicBrainzCache::new();
    for i in 0..CACHE_CAPACITY {
        c.put_recording(format!("k{}", i), rec(&format!("k{}", i)));
    }
    // touch the oldest so that k1 becomes the least recently used
    assert!(c.get_recording(&"k0".to_string()).is_some());
    c.put_recording("new".to_string(), rec("new"));
    assert_eq!(c.stats(), (CACHE_CAPACITY, 0));
    assert!(c.get_recording(&"k1".to_string()).is_none());
    assert!(c.get_recording(&"k0".to_string()).is_some());
    assert!(c.get_recording(&"new".to_string()).is_some());
}
