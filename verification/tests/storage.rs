use nbp::json::{parse_array, Json};
use nbp::pipelines::PipelineState;
use nbp::storage::{
    begin_recording, check_deletable, cleanup_stuck_processing_recordings, create_recording,
    data_dir_in, default_recording_source, default_status, entries_to_prune, falls_to_retention,
    get_data_dir, get_recording_dir, list_recordings, newest_first, prune_entry_files,
    repair_stuck, update_recording_source, update_title, ListCache, RecordingMetadata,
};
use nbp::time::Instant;

/// 2026-03-01T00:00:00Z.
const NOW: Instant = Instant { seconds: 1_772_323_200, nanos: 0 };

fn recording(id: &str, created_at: &str, status: &str) -> RecordingMetadata {
    let mut m = begin_recording(id.to_string(), created_at.to_string(), "t".to_string());
    m.status = status.to_string();
    m
}

/// Metadata files on disk: identifier, beginning and title of each.
fn on_disk(stored: &[(String, String, String)]) -> Vec<Option<RecordingMetadata>> {
    stored
        .iter()
        .map(|(id, at, title)| Some(begin_recording(id.clone(), at.clone(), title.clone())))
        .collect()
}

fn list(
    cache: &mut ListCache<RecordingMetadata>,
    stored: &[(String, String, String)],
) -> Vec<(String, String, String)> {
    list_recordings(cache, on_disk(stored))
        .iter()
        .map(|m| (m.id.clone(), m.created_at.clone(), m.title.clone()))
        .collect()
}

#[test]
fn test_create_recording() {
    let metadata = create_recording("test recording".to_string());

    assert_eq!(metadata.id.len(), 36);
    assert!(metadata.id.contains('-'));

    assert!(metadata.created_at.ends_with('Z'));

    assert_eq!(metadata.title, "test recording");
    assert!(metadata.audio.mic.is_none());
    assert!(metadata.audio.system.is_none());
}

#[test]
fn two_recordings_have_two_identifiers() {
    let a = create_recording("a".to_string());
    let b = create_recording("a".to_string());
    assert_ne!(a.id, b.id);
    let parts: Vec<usize> = a.id.split('-').map(|p| p.len()).collect();
    assert_eq!(parts, [8, 4, 4, 4, 12]);
    assert_eq!(a.status, "recording");
    assert_eq!(a.source, "manual");
    assert_eq!(a.health.unwrap().status, "ok");
    assert_eq!(a.created_at.len(), "2026-03-01T00:00:00Z".len());
}

#[test]
fn test_list_recordings_caches_metadata_reads() {
    let r = create_recording("list cache seed".to_string());
    let stored = vec![
        ("a".to_string(), "2026-01-01T00:00:00Z".to_string(), "older".to_string()),
        (r.id.clone(), r.created_at.clone(), r.title.clone()),
    ];
    let mut cache = ListCache::new();
    cache.invalidate();

    let before_first = cache.reads;
    let first = list(&mut cache, &stored);
    let reads_first = cache.reads - before_first;
    assert!(!first.is_empty(), "first list_recordings should return the seeded recording");
    assert!(
        reads_first >= 1,
        "first list_recordings should read metadata.json from disk (got {})",
        reads_first
    );

    let before_second = cache.reads;
    let second = list(&mut cache, &stored);
    let reads_second = cache.reads - before_second;
    assert_eq!(reads_second, 0);
    assert_eq!(first, second);

    for window in second.windows(2) {
        assert!(
            window[0].1 >= window[1].1,
            "list_recordings must remain sorted newest-first"
        );
    }
    assert_eq!(second[1].0, "a");
}

#[test]
fn test_list_recordings_invalidated_by_writes() {
    let mut cache = ListCache::new();
    let mut stored: Vec<(String, String, String)> = Vec::new();
    let _ = list(&mut cache, &stored);

    let r = create_recording("list cache invalidation".to_string());
    let id = r.id.clone();
    stored.push((r.id.clone(), r.created_at.clone(), r.title.clone()));
    cache.invalidate();
    let after_create = list(&mut cache, &stored);
    assert!(
        after_create.iter().any(|m| m.0 == id),
        "newly created recording must be visible on the next list_recordings call"
    );

    let r = update_title(r, "renamed".to_string());
    stored[0].2 = r.title.clone();
    cache.invalidate();
    let after_update = list(&mut cache, &stored);
    let updated = after_update.iter().find(|m| m.0 == id).expect("recording present");
    assert_eq!(
        updated.2, "renamed",
        "updated title must be visible on the next list_recordings call"
    );

    assert!(check_deletable(Some(r.status.as_str())).is_ok());
    stored.clear();
    cache.invalidate();
    let after_delete = list(&mut cache, &stored);
    assert!(
        !after_delete.iter().any(|m| m.0 == id),
        "deleted recording must be gone on the next list_recordings call"
    );
}

#[test]
fn a_file_that_cannot_be_understood_is_read_but_not_listed() {
    let mut cache = ListCache::new();
    let files = vec![
        None,
        Some(recording("a", "2026-01-01T00:00:00Z", "ready")),
        None,
        Some(recording("b", "2026-02-01T00:00:00Z", "ready")),
    ];
    let ids: Vec<String> =
        list_recordings(&mut cache, files).iter().map(|m| m.id.clone()).collect();
    assert_eq!(ids, ["b", "a"]);
    assert_eq!(cache.reads, 4);
    let later = vec![Some(recording("c", "2026-03-01T00:00:00Z", "ready"))];
    assert_eq!(list_recordings(&mut cache, later).len(), 2);
    assert_eq!(cache.reads, 4);
}

#[test]
fn recordings_are_listed_newest_first() {
    let sorted = newest_first(vec![
        recording("a", "2026-01-01T00:00:00Z", "ready"),
        recording("b", "2026-03-01T00:00:00Z", "ready"),
        recording("c", "2026-02-01T00:00:00Z", "ready"),
    ]);
    let ids: Vec<&str> = sorted.iter().map(|m| m.id.as_str()).collect();
    assert_eq!(ids, ["b", "c", "a"]);
}

#[test]
fn defaults_of_old_metadata() {
    assert_eq!(default_status(), "ready");
    assert_eq!(default_recording_source(), "manual");
}

#[test]
fn recordings_live_where_the_settings_say() {
    let settings = parse_array("[{\"storage_path\":\"/elsewhere\"}]").unwrap().pop();
    assert_eq!(get_data_dir(Some("/home/u"), &settings), "/elsewhere");
    assert_eq!(get_data_dir(Some("/home/u"), &None), "/home/u/nbp-data");
    assert_eq!(get_data_dir(Some("/home/u"), &Some(Json::Null)), "/home/u/nbp-data");
    assert_eq!(get_data_dir(None, &None), "./nbp-data");
    assert_eq!(get_recording_dir("/d", "id"), "/d/id");
    let stored = "{\"storage_path\":\"/elsewhere\"}";
    assert_eq!(data_dir_in(Some("/home/u"), Some(stored)), "/elsewhere");
    assert_eq!(data_dir_in(Some("/home/u"), Some("{\"storage_path\":\"\"}")), "");
    assert_eq!(data_dir_in(Some("/home/u"), Some("{broken")), "/home/u/nbp-data");
    assert_eq!(data_dir_in(Some("/home/u"), None), "/home/u/nbp-data");
}

#[test]
fn only_the_source_changes() {
    let m = recording("a", "2026-01-01T00:00:00Z", "ready");
    let m = update_recording_source(Some(m), "call").unwrap();
    assert_eq!(m.source, "call");
    assert_eq!(m.id, "a");
    assert!(update_recording_source(None, "call").is_none());
}

#[test]
fn retention_spares_the_young_the_running_and_the_unreadable() {
    let all = vec![
        recording("old", "2026-01-01T00:00:00Z", "ready"),
        recording("running", "2026-01-01T00:00:00Z", "recording"),
        recording("finishing", "2026-01-01T00:00:00Z", "processing"),
        recording("young", "2026-02-27T00:00:00Z", "ready"),
        recording("unreadable", "yesterday", "ready"),
        recording("failed", "2026-01-01T03:00:00+02:00", "error"),
        recording("edge", "2026-02-22T00:00:00Z", "ready"),
        recording("past the edge", "2026-02-21T23:59:59Z", "ready"),
    ];
    assert_eq!(entries_to_prune(&all, 7, &NOW), [0, 5, 7]);
    assert!(entries_to_prune(&all, 0, &NOW).is_empty());
}

#[test]
fn retention_decides_by_the_cutoff() {
    let earlier = Instant { seconds: NOW.seconds - 1, nanos: 0 };
    assert!(falls_to_retention("ready", Some(earlier), &NOW));
    assert!(!falls_to_retention("ready", Some(NOW), &NOW));
    assert!(!falls_to_retention("recording", Some(earlier), &NOW));
    assert!(!falls_to_retention("ready", None, &NOW));
}

#[test]
fn results_of_pipelines_outlive_their_entry() {
    let names = |all: &[&str]| all.iter().map(|n| n.to_string()).collect::<Vec<String>>();
    let plan = prune_entry_files(&names(&["audio_mix.ogg", "pipelines", "metadata.json"]));
    assert_eq!(plan.remove, [0, 2]);
    assert!(!plan.remove_dir);
    let plan = prune_entry_files(&names(&["audio_mix.ogg"]));
    assert_eq!(plan.remove, [0]);
    assert!(plan.remove_dir);
    assert!(prune_entry_files(&vec![]).remove_dir);
}

#[test]
fn what_is_being_finished_is_not_deleted() {
    assert_eq!(
        check_deletable(Some("processing")).unwrap_err(),
        "Recording is still being finalized. Please wait."
    );
    assert!(check_deletable(Some("recording")).is_ok());
    assert!(check_deletable(Some("ready")).is_ok());
    assert!(check_deletable(None).is_ok());
}

#[test]
fn what_was_in_flight_at_exit_is_marked() {
    let mut repaired = recording("a", "2026-01-01T00:00:00Z", "recording");
    assert!(repair_stuck(&mut repaired));
    assert_eq!(repaired.status, "error");
    let health = repaired.health.unwrap();
    assert_eq!(health.status, "error");
    assert_eq!(health.issues.len(), 1);
    assert_eq!(health.issues[0].issue_type, "error");
    assert!(health.issues[0].message.as_deref().unwrap().starts_with("Recording was active"));
    let mut repaired = recording("a", "2026-01-01T00:00:00Z", "processing");
    assert!(repair_stuck(&mut repaired));
    let health = repaired.health.unwrap();
    assert!(health.issues[0].message.as_deref().unwrap().starts_with("Recording stuck in processing"));
    assert!(!repair_stuck(&mut recording("a", "2026-01-01T00:00:00Z", "ready")));
    assert!(!repair_stuck(&mut recording("a", "2026-01-01T00:00:00Z", "error")));
}

#[test]
fn a_second_sweep_has_nothing_to_do() {
    let mut all = vec![
        recording("a", "2026-01-01T00:00:00Z", "recording"),
        recording("b", "2026-01-02T00:00:00Z", "ready"),
        recording("c", "2026-01-03T00:00:00Z", "processing"),
    ];
    assert_eq!(cleanup_stuck_processing_recordings(&mut all), [0, 2]);
    let states: Vec<&str> = all.iter().map(|m| m.status.as_str()).collect();
    assert_eq!(states, ["error", "ready", "error"]);
    assert_eq!(all[2].health.as_ref().unwrap().issues.len(), 1);
    assert!(cleanup_stuck_processing_recordings(&mut all).is_empty());
    assert_eq!(all[2].health.as_ref().unwrap().issues.len(), 1);
}

#[test]
fn a_recording_begins_without_results() {
    let m = begin_recording("i".to_string(), "c".to_string(), "t".to_string());
    let none: &Vec<PipelineState> = &m.pipelines;
    assert!(none.is_empty());
    assert!(m.attendees.is_empty());
    assert!(m.transcript_preview.is_none());
    assert!(!m.calendar_matched);
}
