use ingst::logging::{
    create_log_entry, index_from_legacy, index_path, ingest_log, log_dir, log_file_name, logs_to_rotate,
    HashIndex, IndexEntry, LogEntry,
};
use ingst::types::IngestOptions;

fn entry(status: &str, hash: Option<&str>, dest: &str) -> LogEntry {
    LogEntry {
        timestamp: "2026-07-23T07:30:20+00:00".to_string(),
        source_path: format!("/Volumes/CARD/{}", dest),
        dest_path: format!("/library/2026/07/Card/{}", dest),
        size: 1024,
        hash: hash.map(|h| h.to_string()),
        full_hash: None,
        capture_datetime: Some("2026-07-23T07:30:20".to_string()),
        device_name: "Card".to_string(),
        status: status.to_string(),
        error: None,
    }
}

/// What `load_existing_hashes` does once the index and logs are read.
fn load(index: HashIndex, logs: &[Vec<LogEntry>]) -> HashIndex {
    let mut idx = index;
    for log in logs {
        idx.absorb_log(log);
    }
    idx
}

#[test]
fn hash_index_records_only_files_that_are_really_in_the_library() {
    let entries = vec![
        entry("success", Some("hash-copied"), "a.mp4"),
        entry("skipped", Some("hash-already-there"), "b.mp4"),
        entry("error", Some("hash-failed"), "c.mp4"),
        entry("success", None, "d.mp4"),
    ];

    let mut index = HashIndex::new();
    index.merge_entries(&entries);
    let loaded = load(index, &[]);

    assert!(loaded.contains_key("hash-copied"), "a copied file must be remembered");
    assert!(loaded.contains_key("hash-already-there"), "a skipped duplicate is still in the library");
    assert!(!loaded.contains_key("hash-failed"), "a failed copy must NOT be remembered");
    assert_eq!(loaded.len(), 2);
}

#[test]
fn hash_index_merges_across_runs() {
    let mut index = HashIndex::new();
    index.merge_entries(&[entry("success", Some("run-one"), "a.mp4")]);
    index.merge_entries(&[entry("success", Some("run-two"), "b.mp4")]);

    let loaded = load(index, &[]);
    assert!(loaded.contains_key("run-one"), "the earlier run was forgotten");
    assert!(loaded.contains_key("run-two"));
}

#[test]
fn hashes_are_recovered_from_logs_when_the_index_is_missing() {
    let log = vec![
        entry("success", Some("only-in-the-log"), "old.mp4"),
        entry("error", Some("failed-in-the-log"), "bad.mp4"),
    ];
    let loaded = load(HashIndex::new(), &[log]);
    assert!(loaded.contains_key("only-in-the-log"), "pre-index ingests must still be recognised");
    assert!(!loaded.contains_key("failed-in-the-log"), "a failed entry is not proof the file is in the library");
}

#[test]
fn the_index_wins_over_a_log_for_the_same_hash() {
    let shared = entry("success", Some("same-hash"), "clip.mp4");
    let mut index = HashIndex::new();
    index.merge_entries(std::slice::from_ref(&shared));

    let mut in_log = shared.clone();
    in_log.dest_path = in_log.source_path.clone();
    let loaded = load(index, &[vec![in_log]]);
    assert_eq!(
        loaded.get("same-hash").map(|e| e.path),
        Some(shared.dest_path.clone()),
        "the library location must not be overwritten by the log"
    );
}

#[test]
fn a_skip_keeps_the_full_hash_already_recorded() {
    let mut copied = entry("success", Some("fp"), "a.mp4");
    copied.full_hash = Some("whole".to_string());
    let mut index = HashIndex::new();
    index.merge_entries(&[copied]);
    index.merge_entries(&[entry("skipped", Some("fp"), "a.mp4")]);
    assert_eq!(index.get("fp").and_then(|e| e.full_hash), Some("whole".to_string()));
}

#[test]
fn rotate_logs_keeps_the_newest_fifty() {
    let mut names: Vec<String> = (1..=55).map(|i| format!("ingst_20260101_{:06}.json", i)).collect();
    names.reverse();
    names.push("notes.txt".to_string());

    let doomed = logs_to_rotate(&names);

    assert_eq!(doomed.len(), 5, "the five oldest must be the ones deleted");
    let expected: Vec<String> = (1..=5).map(|i| format!("ingst_20260101_{:06}.json", i)).collect();
    assert_eq!(doomed, expected);
    assert!(!doomed.contains(&"notes.txt".to_string()), "rotation must not touch files that are not logs");
    assert!(!doomed.contains(&"ingst_20260101_000055.json".to_string()), "the most recent log must always survive");
}

#[test]
fn rotate_logs_is_a_no_op_at_the_limit() {
    let names: Vec<String> = (1..=50).map(|i| format!("ingst_20260101_{:06}.json", i)).collect();
    assert!(logs_to_rotate(&names).is_empty());
}

#[test]
fn save_log_writes_a_readable_log_and_updates_the_index() {
    let options = IngestOptions {
        operation: "copy".to_string(),
        skip_duplicates: true,
        dest_root: "/library".to_string(),
        force_date: None,
    };
    let entries = vec![entry("success", Some("saved-hash"), "a.mp4")];

    let log = ingest_log("0.2.0", "2026-07-23T07:30:20+00:00".to_string(), vec!["/Volumes/CARD".to_string()], &options, entries.clone());
    assert_eq!(log.entries.len(), 1);
    assert_eq!(log.entries[0].hash.as_deref(), Some("saved-hash"));
    assert_eq!(log.sources, vec!["/Volumes/CARD".to_string()]);
    assert_eq!(log.options.operation, "copy");
    assert!(log.options.skip_duplicates);

    let mut index = HashIndex::new();
    index.merge_entries(&log.entries);
    assert!(index.contains_key("saved-hash"), "hashes must reach the index even if this log is rotated away");
}

#[test]
fn log_locations() {
    assert_eq!(index_path("/library"), "/library/.ingst/index.json");
    assert_eq!(log_dir("/library"), "/library/.ingst/logs");
    assert_eq!(log_file_name("20260723_073020"), "ingst_20260723_073020.json");
}

#[test]
fn log_entries_carry_what_they_are_given() {
    let e = create_log_entry("/a", "/b", 7, Some("h".to_string()), None, "Cam".to_string(), "error", Some("boom".to_string()));
    assert_eq!(e.source_path, "/a");
    assert_eq!(e.dest_path, "/b");
    assert_eq!(e.size, 7);
    assert_eq!(e.status, "error");
    assert_eq!(e.error.as_deref(), Some("boom"));
    assert!(e.full_hash.is_none());
    assert!(!e.timestamp.is_empty());
}

#[test]
fn a_legacy_index_keeps_its_history() {
    let idx = index_from_legacy(vec![("h1".to_string(), "/library/a.mp4".to_string())]);
    assert_eq!(idx.len(), 1);
    let e: IndexEntry = idx.get("h1").unwrap();
    assert_eq!(e.path, "/library/a.mp4");
    assert!(e.full_hash.is_none());
}
