use audio_sorter::analysis_store::AnalysisStore;
use audio_sorter::organizer::TrackMetadata;
use audio_sorter::scan_manager::{
    apply_genres, chunk_bounds, enriched_metadata, ResourceStats, classify_work_list, merge_result, plan_scan, worker_count, Candidate, Enrichment, Phase,
    ScanError, ScanManager, WorkItem, WorkResult,
};
use audio_sorter::scanner::is_audio_extension;
use audio_sorter::storage::AudioLibrary;

fn meta(title: &str) -> TrackMetadata {
    TrackMetadata {
        title: title.to_string(),
        artist: "Artist".to_string(),
        album: None,
        original_artist: None,
        original_title: None,
        duration_bits: 3.0f64.to_bits(),
        fingerprint: Some(format!("FP{}", title)),
        genres: Vec::new(),
    }
}

fn ok(path: &str, size: u64, mtime: u64) -> WorkResult {
    WorkResult {
        item: WorkItem { path: path.to_string(), size, mtime },
        outcome: Some(Enrichment { metadata: meta(path), features: Some(vec![1, 2, 3]) }),
    }
}

fn failed(path: &str) -> WorkResult {
    WorkResult { item: WorkItem { path: path.to_string(), size: 1, mtime: 1 }, outcome: None }
}

fn candidates(files: &[(&str, u64, u64)]) -> Vec<Candidate> {
    files.iter().map(|(p, s, m)| Candidate { path: p.to_string(), stat: Some((*s, *m)) }).collect()
}

#[test]
fn single_file_scan_indexes_it() {
    let mut lib = AudioLibrary::new();
    let mut store = AnalysisStore::new();
    let mut mgr = ScanManager::new();
    mgr.start_scan().unwrap();
    let c = candidates(&[("/music/a.mp3", 48000, 1700000000)]);
    let plan = plan_scan(&c, &lib, &store);
    assert_eq!(plan.to_process.len(), 1);
    assert_eq!(plan.skipped, 0);
    mgr.set_plan(c.len(), plan.skipped);
    let results = vec![ok("/music/a.mp3", 48000, 1700000000)];
    mgr.merge_chunk(&mut lib, &mut store, &results, 1700000100);
    mgr.finish(1);
    assert_eq!(lib.len(), 1);
    let t = lib.get(&"/music/a.mp3".to_string()).unwrap();
    assert_eq!(t.modified_time, 1700000000);
    assert_eq!(t.scanned_at, 1700000100);
    assert_eq!(f64::from_bits(t.metadata.duration_bits), 3.0);
    assert!(t.metadata.fingerprint.as_deref().map_or(false, |f| !f.is_empty()));
    assert_eq!(store.data.len(), 1);
    let p = mgr.get_progress();
    assert!(!p.is_scanning);
    assert_eq!((p.files_total, p.files_processed, p.errors), (1, 1, 0));
}

#[test]
fn rescan_after_touch_processes_only_touched_file() {
    let files = [("/m/a.mp3", 10, 100), ("/m/b.wav", 20, 100), ("/m/c.ogg", 30, 100), ("/m/d.flac", 40, 100), ("/m/e.m4a", 50, 100)];
    let mut lib = AudioLibrary::new();
    let mut store = AnalysisStore::new();
    for (p, s, m) in files.iter() {
        merge_result(&mut lib, &mut store, &ok(p, *s, *m), 150);
    }
    let mut touched = files;
    touched[1].2 = 500;
    let c = candidates(&touched);
    let plan = plan_scan(&c, &lib, &store);
    assert_eq!(plan.skipped, 4);
    assert_eq!(plan.to_process.len(), 1);
    assert_eq!(plan.to_process[0].path, "/m/b.wav");
    assert_eq!(plan.to_process[0].mtime, 500);
    let mut mgr = ScanManager::new();
    mgr.start_scan().unwrap();
    mgr.set_plan(c.len(), plan.skipped);
    assert_eq!(mgr.get_progress().files_processed, 4);
    mgr.merge_chunk(&mut lib, &mut store, &vec![ok("/m/b.wav", 20, 500)], 600);
    assert_eq!(mgr.get_progress().files_processed, 5);
    assert_eq!(lib.get(&"/m/b.wav".to_string()).unwrap().modified_time, 500);
}

#[test]
fn missing_feature_vector_or_changed_size_needs_work() {
    let mut lib = AudioLibrary::new();
    let mut store = AnalysisStore::new();
    merge_result(&mut lib, &mut store, &ok("/a", 1, 1), 2);
    merge_result(&mut lib, &mut store, &ok("/b", 1, 1), 2);
    store.remove(&"/a".to_string());
    let mut c = candidates(&[("/a", 1, 1), ("/b", 2, 1), ("/new", 1, 1)]);
    c.push(Candidate { path: "/unreadable".to_string(), stat: None });
    let plan = plan_scan(&c, &lib, &store);
    let paths: Vec<&str> = plan.to_process.iter().map(|w| w.path.as_str()).collect();
    assert_eq!(paths, vec!["/a", "/b", "/new"]);
    assert_eq!(plan.skipped, 0);
}

#[test]
fn failed_results_count_as_errors_and_write_nothing() {
    let mut lib = AudioLibrary::new();
    let mut store = AnalysisStore::new();
    let mut mgr = ScanManager::new();
    mgr.start_scan().unwrap();
    mgr.set_plan(3, 0);
    let results = vec![ok("/a", 1, 1), failed("/b"), WorkResult {
        item: WorkItem { path: "/c".to_string(), size: 1, mtime: 1 },
        outcome: Some(Enrichment { metadata: meta("/c"), features: None }),
    }];
    mgr.merge_chunk(&mut lib, &mut store, &results, 5);
    let p = mgr.get_progress();
    assert_eq!((p.files_processed, p.errors), (3, 1));
    assert_eq!(p.current_file, "c");
    assert_eq!(lib.len(), 2);
    assert!(lib.get(&"/b".to_string()).is_none());
    assert!(store.get(&"/c".to_string()).is_none());
    assert!(store.get(&"/a".to_string()).is_some());
}

#[test]
fn checkpoint_due_every_two_hundred_merges() {
    let mut lib = AudioLibrary::new();
    let mut store = AnalysisStore::new();
    let mut mgr = ScanManager::new();
    mgr.start_scan().unwrap();
    mgr.set_plan(300, 0);
    let mut flags = Vec::new();
    for chunk in 0..5 {
        let results: Vec<WorkResult> = (0..50).map(|i| ok(&format!("/f{}", chunk * 50 + i), 1, 1)).collect();
        flags.push(mgr.merge_chunk(&mut lib, &mut store, &results, 9));
    }
    assert_eq!(flags, vec![false, false, false, true, false]);
    assert_eq!(mgr.merged, 250);
    assert_eq!(mgr.get_progress().files_processed, 250);
}

#[test]
fn checkpoint_counts_successes_only() {
    let mut lib = AudioLibrary::new();
    let mut store = AnalysisStore::new();
    let mut mgr = ScanManager::new();
    mgr.start_scan().unwrap();
    mgr.set_plan(400, 0);
    let mut results: Vec<WorkResult> = (0..199).map(|i| ok(&format!("/g{}", i), 1, 1)).collect();
    results.push(failed("/bad"));
    assert!(!mgr.merge_chunk(&mut lib, &mut store, &results, 9));
    assert!(mgr.merge_chunk(&mut lib, &mut store, &vec![ok("/last", 1, 1)], 9));
}

#[test]
fn checkpoint_bytes_reload_to_the_same_feature_store() {
    let mut lib = AudioLibrary::new();
    let mut store = AnalysisStore::new();
    let mut mgr = ScanManager::new();
    mgr.start_scan().unwrap();
    mgr.set_plan(250, 0);
    let mut saved = None;
    for chunk in 0..5 {
        let results: Vec<WorkResult> = (0..50).map(|i| ok(&format!("/f{}", chunk * 50 + i), 1, 1)).collect();
        if mgr.merge_chunk(&mut lib, &mut store, &results, 9) {
            saved = Some(store.to_bytes().unwrap());
        }
    }
    let reloaded = AnalysisStore::from_bytes(&saved.unwrap()).unwrap();
    assert_eq!(reloaded.data.len(), 200);
    let rest = (200..250).filter(|i| reloaded.get(&format!("/f{}", i)).is_none()).count();
    assert_eq!(rest, 50);
}

#[test]
fn second_start_while_scanning_is_busy() {
    let mut mgr = ScanManager::new();
    assert_eq!(mgr.start_scan(), Ok(()));
    assert_eq!(mgr.start_scan(), Err(ScanError::Busy));
    mgr.finish(3);
    assert_eq!(mgr.phase, Phase::Idle);
    assert_eq!(mgr.start_scan(), Ok(()));
}

#[test]
fn progress_never_passes_total() {
    let mut lib = AudioLibrary::new();
    let mut store = AnalysisStore::new();
    let mut mgr = ScanManager::new();
    mgr.start_scan().unwrap();
    mgr.set_plan(2, 5);
    assert_eq!(mgr.get_progress().files_processed, 2);
    mgr.merge_chunk(&mut lib, &mut store, &vec![ok("/x", 1, 1)], 1);
    let p = mgr.get_progress();
    assert!(p.files_processed <= p.files_total);
    mgr.set_plan(100, 0);
    assert_eq!(mgr.get_progress().files_total, 2);
}

#[test]
fn current_file_is_the_file_name_and_time_never_goes_back() {
    let mut lib = AudioLibrary::new();
    let mut store = AnalysisStore::new();
    let mut mgr = ScanManager::new();
    mgr.start_scan().unwrap();
    mgr.set_plan(1, 0);
    mgr.merge_chunk(&mut lib, &mut store, &vec![ok("/music/album/track.flac", 1, 1)], 1);
    assert_eq!(mgr.get_progress().current_file, "track.flac");
    let stats = || ResourceStats { cpu_usage_bits: 0, memory_usage: 0, disk_usage: 0, disk_total: 0 };
    mgr.record_resources(stats(), 10);
    mgr.record_resources(stats(), 4);
    assert_eq!(mgr.get_progress().elapsed_secs, 10);
    mgr.finish(7);
    assert_eq!(mgr.get_progress().elapsed_secs, 10);
}

#[test]
fn worker_count_is_bounded() {
    assert_eq!(worker_count(None), 1);
    assert_eq!(worker_count(Some(1)), 1);
    assert_eq!(worker_count(Some(2)), 1);
    assert_eq!(worker_count(Some(4)), 3);
    assert_eq!(worker_count(Some(5)), 4);
    assert_eq!(worker_count(Some(64)), 4);
}

#[test]
fn chunks_of_fifty() {
    assert_eq!(chunk_bounds(0), vec![]);
    assert_eq!(chunk_bounds(50), vec![(0, 50)]);
    assert_eq!(chunk_bounds(120), vec![(0, 50), (50, 100), (100, 120)]);
}

#[test]
fn classify_list_and_genre_update() {
    let mut lib = AudioLibrary::new();
    let mut store = AnalysisStore::new();
    merge_result(&mut lib, &mut store, &ok("/a", 1, 1), 2);
    merge_result(&mut lib, &mut store, &ok("/b", 1, 1), 2);
    assert!(apply_genres(&mut lib, &"/a".to_string(), vec![("rock".to_string(), 0.9f32.to_bits())]));
    assert!(!apply_genres(&mut lib, &"/zzz".to_string(), vec![]));
    assert_eq!(classify_work_list(&lib), vec!["/b".to_string()]);
    assert_eq!(lib.get(&"/a".to_string()).unwrap().metadata.genres.len(), 1);
}

#[test]
fn audio_extensions_ignore_case() {
    assert!(is_audio_extension("mp3"));
    assert!(is_audio_extension("FLAC"));
    assert!(is_audio_extension("Wav"));
    assert!(is_audio_extension("m4a"));
    assert!(is_audio_extension("ogg"));
    assert!(!is_audio_extension("txt"));
    assert!(!is_audio_extension("mp4"));
    assert!(!is_audio_extension(""));
}

#[test]
fn online_metadata_wins_over_tags() {
    let mut online = meta("Online");
    online.duration_bits = 1;
    let tags = meta("Tags");
    let m = enriched_metadata(Some(online), tags, 5, "FP".to_string());
    assert_eq!(m.title, "Online");
    assert_eq!(m.duration_bits, 1);
    let m = enriched_metadata(None, meta("Tags"), 5, "FP".to_string());
    assert_eq!(m.title, "Tags");
    assert_eq!(m.duration_bits, 5);
    assert_eq!(m.fingerprint.as_deref(), Some("FP"));
}

#[test]
fn busy_start_changes_nothing() {
    let mut mgr = ScanManager::new();
    mgr.start_scan().unwrap();
    mgr.set_plan(3, 1);
    assert_eq!(mgr.start_scan(), Err(ScanError::Busy));
    let p = mgr.get_progress();
    assert!(p.is_scanning);
    assert_eq!((p.files_total, p.files_processed), (3, 1));
}
