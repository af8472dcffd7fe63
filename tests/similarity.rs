use audio_sorter::analysis_store::AnalysisStore;
use audio_sorter::organizer::TrackMetadata;
use audio_sorter::recommend::{find_similar, nearest, same_ignoring_case, RecommendFilters};
use audio_sorter::storage::{AudioLibrary, IndexedTrack};

fn euclid(a: &Vec<u32>, b: &Vec<u32>) -> u32 {
    if a.len() != b.len() {
        return f32::MAX.to_bits();
    }
    let s: f32 = a.iter().zip(b.iter()).map(|(x, y)| (f32::from_bits(*x) - f32::from_bits(*y)).powi(2)).sum();
    s.sqrt().to_bits()
}

fn v(xs: &[f32]) -> Vec<u32> {
    xs.iter().map(|x| x.to_bits()).collect()
}

fn add(lib: &mut AudioLibrary, store: &mut AnalysisStore, path: &str, artist: &str, album: Option<&str>, feats: Option<&[f32]>) {
    lib.insert(IndexedTrack {
        path: path.to_string(),
        file_size: 1,
        modified_time: 1,
        scanned_at: 1,
        metadata: TrackMetadata {
            title: path.to_string(),
            artist: artist.to_string(),
            album: album.map(|s| s.to_string()),
            original_artist: None,
            original_title: None,
            duration_bits: 0,
            fingerprint: Some(format!("fp{}", path)),
            genres: vec![("Rock".to_string(), 0.5f32.to_bits())],
        },
    });
    if let Some(f) = feats {
        store.insert(path.to_string(), v(f));
    }
}

fn no_filters() -> RecommendFilters {
    RecommendFilters { same_artist: None, exclude_album: None, same_album: None, exclude_fingerprint: None, genre: None }
}

fn library() -> (AudioLibrary, AnalysisStore) {
    let mut lib = AudioLibrary::new();
    let mut store = AnalysisStore::new();
    add(&mut lib, &mut store, "/q", "Q", Some("Album"), Some(&[0.0, 0.0]));
    add(&mut lib, &mut store, "/far", "Y", Some("Album"), Some(&[3.0, 4.0]));
    add(&mut lib, &mut store, "/near", "x", Some("Other"), Some(&[1.0, 0.0]));
    add(&mut lib, &mut store, "/mid", "Y", None, Some(&[0.0, 2.0]));
    add(&mut lib, &mut store, "/nofeat", "X", None, None);
    add(&mut lib, &mut store, "/short", "Y", None, Some(&[1.0]));
    (lib, store)
}

#[test]
fn similar_tracks_sorted_and_truncated() {
    let (lib, store) = library();
    let r = find_similar(&"/q".to_string(), &lib, &store, &no_filters(), 3, euclid);
    let paths: Vec<&str> = r.iter().map(|s| s.track.path.as_str()).collect();
    assert_eq!(paths, vec!["/near", "/mid", "/far"]);
    assert_eq!(f32::from_bits(r[2].distance_bits), 5.0);
    let all = find_similar(&"/q".to_string(), &lib, &store, &no_filters(), 10, euclid);
    assert_eq!(all.len(), 4);
    assert_eq!(all[3].track.path, "/short");
    assert!(all.iter().all(|s| s.track.path != "/q"));
}

#[test]
fn same_artist_filter_returns_only_that_artist() {
    let (lib, store) = library();
    let mut f = no_filters();
    f.same_artist = Some("X".to_string());
    let r = find_similar(&"/q".to_string(), &lib, &store, &f, 3, euclid);
    assert_eq!(r.len(), 1);
    assert_eq!(r[0].track.path, "/near");
}

#[test]
fn same_artist_without_features_gives_nothing() {
    let mut lib = AudioLibrary::new();
    let mut store = AnalysisStore::new();
    add(&mut lib, &mut store, "/q", "Q", None, Some(&[0.0]));
    add(&mut lib, &mut store, "/x", "X", None, None);
    add(&mut lib, &mut store, "/y", "Y", None, Some(&[1.0]));
    let mut f = no_filters();
    f.same_artist = Some("X".to_string());
    assert!(find_similar(&"/q".to_string(), &lib, &store, &f, 3, euclid).is_empty());
}

#[test]
fn album_fingerprint_and_genre_filters() {
    let (lib, store) = library();
    let mut f = no_filters();
    f.same_album = Some("album".to_string());
    let r = find_similar(&"/q".to_string(), &lib, &store, &f, 10, euclid);
    assert_eq!(r.iter().map(|s| s.track.path.as_str()).collect::<Vec<_>>(), vec!["/far"]);
    let mut f = no_filters();
    f.exclude_album = Some("ALBUM".to_string());
    let r = find_similar(&"/q".to_string(), &lib, &store, &f, 10, euclid);
    assert_eq!(r.iter().map(|s| s.track.path.as_str()).collect::<Vec<_>>(), vec!["/near", "/mid", "/short"]);
    let mut f = no_filters();
    f.exclude_fingerprint = Some("fp/near".to_string());
    let r = find_similar(&"/q".to_string(), &lib, &store, &f, 10, euclid);
    assert!(r.iter().all(|s| s.track.path != "/near"));
    let mut f = no_filters();
    f.genre = Some("rock".to_string());
    assert_eq!(find_similar(&"/q".to_string(), &lib, &store, &f, 10, euclid).len(), 4);
    f.genre = Some("jazz".to_string());
    assert!(find_similar(&"/q".to_string(), &lib, &store, &f, 10, euclid).is_empty());
}

#[test]
fn query_without_features_gives_nothing() {
    let (lib, store) = library();
    assert!(find_similar(&"/nofeat".to_string(), &lib, &store, &no_filters(), 5, euclid).is_empty());
    assert!(find_similar(&"/q".to_string(), &lib, &store, &no_filters(), 0, euclid).is_empty());
}

#[test]
fn nearest_breaks_ties_by_candidate_order() {
    let (lib, _) = library();
    let d = vec![2.0f32.to_bits(), 1.0f32.to_bits(), 2.0f32.to_bits(), 0.5f32.to_bits()];
    let r = nearest(&lib, &vec![1, 2, 3, 5], &d, 3);
    let paths: Vec<&str> = r.iter().map(|s| s.track.path.as_str()).collect();
    assert_eq!(paths, vec!["/short", "/near", "/far"]);
}

#[test]
fn case_insensitive_comparison_folds_ascii() {
    assert!(same_ignoring_case("AbC", "aBc"));
    assert!(!same_ignoring_case("abc", "abcd"));
    assert!(same_ignoring_case("Ünïcode", "ÜNïCODE"));
    assert!(!same_ignoring_case("Ü", "ü"));
    assert!(!same_ignoring_case("Ü", "u"));
}

#[test]
fn single_matching_track_is_returned_once() {
    let (lib, store) = library();
    let mut f = no_filters();
    f.same_artist = Some("x".to_string());
    let r = find_similar(&"/q".to_string(), &lib, &store, &f, 3, |_a: &Vec<u32>, _b: &Vec<u32>| 0u32);
    assert_eq!(r.len(), 1);
    let all = find_similar(&"/q".to_string(), &lib, &store, &no_filters(), 10, |_a: &Vec<u32>, _b: &Vec<u32>| 0u32);
    let mut paths: Vec<&str> = all.iter().map(|s| s.track.path.as_str()).collect();
    assert_eq!(paths, vec!["/far", "/near", "/mid", "/short"]);
    paths.dedup();
    assert_eq!(paths.len(), 4);
}
