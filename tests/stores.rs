use audio_sorter::analysis_store::{AnalysisStore, StoreError};
use audio_sorter::organizer::TrackMetadata;
use audio_sorter::storage::{AudioLibrary, IndexedTrack};

fn meta(title: &str, fp: Option<&str>) -> TrackMetadata {
    TrackMetadata {
        title: title.to_string(),
        artist: "Artist".to_string(),
        album: None,
        original_artist: None,
        original_title: None,
        duration_bits: 3.0f64.to_bits(),
        fingerprint: fp.map(|s| s.to_string()),
        genres: Vec::new(),
    }
}

fn track(path: &str, fp: Option<&str>) -> IndexedTrack {
    IndexedTrack { path: path.to_string(), file_size: 10, modified_time: 100, scanned_at: 200, metadata: meta(path, fp) }
}

#[test]
fn library_insert_replaces_same_path() {
    let mut lib = AudioLibrary::new();
    lib.insert(track("/m/a.mp3", None));
    lib.insert(track("/m/b.wav", None));
    let mut again = track("/m/a.mp3", Some("FP"));
    again.file_size = 99;
    lib.insert(again);
    assert_eq!(lib.len(), 2);
    let a = lib.get(&"/m/a.mp3".to_string()).unwrap();
    assert_eq!(a.file_size, 99);
    assert_eq!(a.metadata.fingerprint.as_deref(), Some("FP"));
    assert!(lib.get(&"/m/c.ogg".to_string()).is_none());
}

#[test]
fn duplicates_group_equal_fingerprints() {
    let mut lib = AudioLibrary::new();
    lib.insert(track("/m/a.mp3", Some("AQAAxyz")));
    lib.insert(track("/m/b.wav", Some("AQAAxyz")));
    lib.insert(track("/m/c.ogg", Some("AQAAother")));
    lib.insert(track("/m/d.flac", None));
    let groups = lib.find_duplicates();
    assert_eq!(groups.len(), 1);
    let mut paths: Vec<&str> = groups[0].iter().map(|t| t.path.as_str()).collect();
    paths.sort();
    assert_eq!(paths, vec!["/m/a.mp3", "/m/b.wav"]);
}

#[test]
fn duplicates_keep_distinct_fingerprints_apart() {
    let mut lib = AudioLibrary::new();
    lib.insert(track("/1", Some("X")));
    lib.insert(track("/2", Some("Y")));
    lib.insert(track("/3", Some("X")));
    lib.insert(track("/4", Some("Y")));
    lib.insert(track("/5", Some("Y")));
    let groups = lib.find_duplicates();
    assert_eq!(groups.len(), 2);
    for g in &groups {
        let fp = g[0].metadata.fingerprint.clone();
        assert!(g.iter().all(|t| t.metadata.fingerprint == fp));
    }
    let sizes: Vec<usize> = groups.iter().map(|g| g.len()).collect();
    assert!(sizes.contains(&2) && sizes.contains(&3));
}

#[test]
fn no_duplicates_in_empty_or_unique_library() {
    let lib = AudioLibrary::new();
    assert!(lib.find_duplicates().is_empty());
    let mut lib = AudioLibrary::new();
    lib.insert(track("/1", Some("X")));
    lib.insert(track("/2", None));
    lib.insert(track("/3", None));
    assert!(lib.find_duplicates().is_empty());
}

#[test]
fn feature_store_insert_is_last_write_wins() {
    let mut s = AnalysisStore::new();
    s.insert("/a".to_string(), vec![1.0f32.to_bits(), 2.0f32.to_bits()]);
    s.insert("/b".to_string(), vec![3]);
    s.insert("/a".to_string(), vec![7]);
    assert_eq!(s.get(&"/a".to_string()), Some(&vec![7]));
    assert_eq!(s.get(&"/b".to_string()), Some(&vec![3]));
    s.remove(&"/b".to_string());
    assert_eq!(s.get(&"/b".to_string()), None);
    s.remove(&"/zzz".to_string());
    assert_eq!(s.data.len(), 1);
}

#[test]
fn feature_store_round_trips_through_bytes() {
    let mut s = AnalysisStore::new();
    s.insert("/music/a.mp3".to_string(), vec![0.5f32.to_bits(), (-1.25f32).to_bits()]);
    s.insert("/music/b.wav".to_string(), vec![]);
    let bytes = s.to_bytes().unwrap();
    let back = AnalysisStore::from_bytes(&bytes).unwrap();
    assert_eq!(back.data, s.data);
    assert_eq!(back.to_bytes().unwrap(), bytes);
}

#[test]
fn feature_store_bytes_match_a_map_of_float_vectors() {
    // the binary form is that of a map from path to f32 vector
    let mut s = AnalysisStore::new();
    s.insert("/x".to_string(), vec![1.5f32.to_bits()]);
    let bytes = s.to_bytes().unwrap();
    let expected = bincode::serialize(&vec![("/x".to_string(), vec![1.5f32])]).unwrap();
    assert_eq!(bytes, expected);
}

#[test]
fn feature_store_rejects_corrupt_bytes() {
    assert!(matches!(AnalysisStore::from_bytes(&[1, 2, 3]), Err(StoreError::Corrupt)));
    let empty = AnalysisStore::from_bytes(&AnalysisStore::new().to_bytes().unwrap()).unwrap();
    assert!(empty.data.is_empty());
}

#[test]
fn feature_store_later_duplicate_wins_on_load() {
    let bytes = bincode::serialize(&vec![("/a".to_string(), vec![1u32]), ("/a".to_string(), vec![2u32])]).unwrap();
    let s = AnalysisStore::from_bytes(&bytes).unwrap();
    assert_eq!(s.data.len(), 1);
    assert_eq!(s.get(&"/a".to_string()), Some(&vec![2]));
}
