use ingst::hashing::{fast_hash_of_bytes, full_hash};
use ingst::logging::HashIndex;
use ingst::metadata::{extract_metadata_sync, MetadataReading};
use ingst::plan::{
    build_plan_from_scans, infer_device_by_directory, parse_date_for_path, parse_year_month,
    sanitize_device_name, DirEntryInfo,
};
use ingst::scan::{get_source_label, scan_kind, scanned_file, HostOs};
use ingst::types::{IngestOperation, IngestOptions, IngestPlan, ScannedFile};

/// An in-memory card and library: each file with its bytes and its
/// modification time in seconds since the epoch.
struct Disk {
    files: Vec<(String, Vec<u8>, i64)>,
}

impl Disk {
    fn new() -> Self {
        Disk { files: Vec::new() }
    }

    fn write(&mut self, path: &str, bytes: &[u8]) {
        self.write_at(path, bytes, 1_767_225_600);
    }

    fn write_at(&mut self, path: &str, bytes: &[u8], mtime: i64) {
        self.files.push((path.to_string(), bytes.to_vec(), mtime));
    }

    fn get(&self, path: &str) -> Option<&Vec<u8>> {
        self.files.iter().find(|f| f.0 == path).map(|f| &f.1)
    }

    fn scan(&self, root: &str, label: &str) -> Vec<(ScannedFile, String)> {
        let label = if label.trim().is_empty() {
            get_source_label(root, HostOs::Other)
        } else {
            label.to_string()
        };
        let prefix = format!("{}/", root);
        let mut out = Vec::new();
        for (path, bytes, mtime) in &self.files {
            if !path.starts_with(&prefix) {
                continue;
            }
            let kind = match scan_kind(path) {
                Some(k) => k,
                None => continue,
            };
            let meta = extract_metadata_sync(path, MetadataReading::Unreadable);
            let f = scanned_file(path, bytes.len() as u64, *mtime, None, meta, kind).unwrap();
            out.push((f, label.clone()));
        }
        out
    }

    fn plan(&self, sources: &[(&str, &str)], options: &IngestOptions) -> Result<IngestPlan, String> {
        let mut files = Vec::new();
        for (root, label) in sources {
            files.extend(self.scan(root, label));
        }
        let fingerprint = |p: &str, size: u64| match self.get(p) {
            Some(b) => Ok(fast_hash_of_bytes(b, size)),
            None => Err(format!("cannot open {}", p)),
        };
        let whole = |p: &str| match self.get(p) {
            Some(b) => Ok(full_hash(b)),
            None => Err(format!("cannot open {}", p)),
        };
        let exists = |p: &str| self.get(p).is_some();
        let list = |dir: &str| {
            let mut v = Vec::new();
            for (path, bytes, _) in &self.files {
                if let Some((parent, _)) = path.rsplit_once('/') {
                    if parent == dir {
                        v.push(DirEntryInfo { path: path.clone(), size: bytes.len() as u64 });
                    }
                }
            }
            Some(v)
        };
        build_plan_from_scans(&files, options, HashIndex::new(), &fingerprint, &whole, &exists, &list)
    }
}

const DEST: &str = "/library";

fn options(skip_duplicates: bool) -> IngestOptions {
    IngestOptions {
        operation: "copy".to_string(),
        skip_duplicates,
        dest_root: DEST.to_string(),
        force_date: None,
    }
}

fn forced(date: &str) -> IngestOptions {
    IngestOptions { force_date: Some(date.to_string()), ..options(false) }
}

fn rel(op: &IngestOperation) -> String {
    op.dest_path.strip_prefix(&format!("{}/", DEST)).unwrap_or(&op.dest_path).to_string()
}

fn file_name(p: &str) -> String {
    p.rsplit('/').next().unwrap_or(p).to_string()
}

fn parent(p: &str) -> String {
    p.rsplit_once('/').map(|(a, _)| a.to_string()).unwrap_or_default()
}

fn scanned(path: &str, device: Option<&str>) -> (ScannedFile, String) {
    (
        ScannedFile {
            path: path.to_string(),
            name: file_name(path),
            size: 0,
            modified: "2026-01-01T00:00:00".to_string(),
            created: None,
            capture_date: None,
            device_name: device.map(|d| d.to_string()),
            file_type: "video".to_string(),
            hash: None,
        },
        "CardLabel".to_string(),
    )
}

// --- date / device routing -------------------------------------------------

#[test]
fn plan_routes_files_by_capture_date_and_device() {
    let mut disk = Disk::new();
    disk.write("/cards/card/VID_20260723_073020_002.mp4", b"video-bytes");
    disk.write("/cards/card/IMG_20241105_101112_001.jpg", b"not-a-real-jpeg");

    let plan = disk.plan(&[("/cards/card", "Sony A7S")], &options(false)).unwrap();

    let mut paths: Vec<String> = plan.operations.iter().map(rel).collect();
    paths.sort();
    assert_eq!(
        paths,
        vec![
            "2024/11/Sony A7S/IMG_20241105_101112_001.jpg".to_string(),
            "2026/07/Sony A7S/VID_20260723_073020_002.mp4".to_string(),
        ],
        "capture date from the filename must drive the YYYY/MM folders"
    );
    assert_eq!(plan.total_files, 2);
}

#[test]
fn plan_falls_back_to_modified_time_when_no_capture_date() {
    let mut disk = Disk::new();
    disk.write_at("/cards/card/takeone.wav", b"audio", 1_551_700_800);

    let plan = disk.plan(&[("/cards/card", "Zoom H6")], &options(false)).unwrap();

    assert_eq!(plan.operations.len(), 1);
    assert_eq!(rel(&plan.operations[0]), "2019/03/Zoom H6/takeone.wav");
}

#[test]
fn plan_never_assigns_two_sources_the_same_destination() {
    let mut disk = Disk::new();
    disk.write("/cards/card_a/VID_20260723_073020_002.mp4", b"take one");
    disk.write("/cards/card_b/VID_20260723_073020_002.mp4", b"take two - different");

    let plan = disk
        .plan(&[("/cards/card_a", "RED KOMODO"), ("/cards/card_b", "RED KOMODO")], &options(false))
        .unwrap();

    assert_eq!(plan.operations.len(), 2);
    let d0 = &plan.operations[0].dest_path;
    let d1 = &plan.operations[1].dest_path;
    assert_ne!(
        d0.to_lowercase(),
        d1.to_lowercase(),
        "identically named files from two cards must not share a destination"
    );
    assert!(
        d1.contains("VID_20260723_073020_002_1.mp4"),
        "second file should be de-duplicated by suffix, got {}",
        d1
    );
}

#[test]
fn plan_skips_only_true_duplicates() {
    let mut disk = Disk::new();
    let payload = vec![7u8; 200 * 1024];
    let mut other = payload.clone();
    other[0] ^= 0xFF;
    disk.write("/cards/card/VID_20260723_073020_001.mp4", &payload);
    disk.write("/cards/card/VID_20260723_073020_002.mp4", &payload);
    disk.write("/cards/card/VID_20260723_073020_003.mp4", &other);

    let plan = disk.plan(&[("/cards/card", "Card")], &options(true)).unwrap();

    assert_eq!(plan.duplicate_count, 1, "the second identical file is the duplicate");
    assert_eq!(plan.total_files, 2, "both distinct files must still be ingested");
    let skipped: Vec<&IngestOperation> = plan.operations.iter().filter(|o| o.action == "skip").collect();
    assert_eq!(skipped.len(), 1);
    assert!(
        plan.operations.iter().all(|o| o.hash.is_some()),
        "dedup mode must record a hash for every operation, for the log index"
    );
}

/// Two files that agree on the sampled fingerprint but differ in the middle
/// are both kept: the whole-file hash refutes the match.
#[test]
fn plan_keeps_a_fingerprint_match_that_differs_in_the_middle() {
    let mut disk = Disk::new();
    let a: Vec<u8> = (0..300 * 1024).map(|i| (i % 251) as u8).collect();
    let mut b = a.clone();
    b[150 * 1024] ^= 0xFF;
    disk.write("/cards/card/A.mp4", &a);
    disk.write("/cards/card/B.mp4", &b);

    let plan = disk.plan(&[("/cards/card", "Card")], &options(true)).unwrap();

    assert_eq!(plan.operations[0].hash, plan.operations[1].hash, "same fingerprint");
    assert_eq!(plan.duplicate_count, 0);
    assert!(plan.operations.iter().all(|o| o.action == "copy"));
}

#[test]
fn plan_fails_with_the_fingerprint_error_when_a_file_cannot_be_read() {
    let files = vec![scanned("/cards/gone/VID_20260723_073020_001.mp4", None)];
    let fingerprint = |p: &str, _size: u64| -> Result<String, String> { Err(format!("cannot open {}", p)) };
    let whole = |_p: &str| -> Result<String, String> { Err("unused".to_string()) };
    let exists = |_p: &str| false;
    let list = |_d: &str| -> Option<Vec<DirEntryInfo>> { None };
    let r = build_plan_from_scans(&files, &options(true), HashIndex::new(), &fingerprint, &whole, &exists, &list);
    assert_eq!(r.err(), Some("cannot open /cards/gone/VID_20260723_073020_001.mp4".to_string()));
}

// --- sanitize_device_name --------------------------------------------------

#[test]
fn sanitize_device_name_cannot_produce_a_path() {
    let hostile = [
        "Canon/EOS:R5",
        "../../etc",
        "..",
        "C:\\Windows\\System32",
        "/absolute/name",
        "name\nwith\tcontrol",
        "*?<>|\"",
    ];

    let root = std::path::Path::new("/library");
    for name in hostile {
        let s = sanitize_device_name(name);
        assert!(!s.is_empty(), "{name:?} sanitized to an empty name");
        assert!(
            !s.contains('/') && !s.contains('\\') && !s.contains(':'),
            "{name:?} still contains a path separator: {s:?}"
        );
        assert_ne!(s, "..", "{name:?} sanitized to a parent-directory hop");
        let joined = root.join("2026").join("07").join(&s);
        assert!(
            joined.starts_with(root) && joined.components().count() == 5,
            "{name:?} produced extra path components: {joined:?}"
        );
    }

    assert_eq!(sanitize_device_name("Canon/EOS:R5"), "Canon EOS R5");
    assert_eq!(sanitize_device_name("DJI Mini 4 Pro"), "DJI Mini 4 Pro");
    assert_eq!(sanitize_device_name("Insta360   Luna  Ultra"), "Insta360 Luna Ultra");
}

#[test]
fn sanitize_device_name_falls_back_when_nothing_survives() {
    for empty in ["", "   ", "///", "..", "!!!", "\u{0}"] {
        assert_eq!(
            sanitize_device_name(empty),
            "UnknownDevice",
            "{empty:?} should fall back to UnknownDevice"
        );
    }
}

// --- parse_date_for_path ---------------------------------------------------

#[test]
fn parse_date_for_path_handles_date_only_and_rejects_garbage() {
    assert_eq!(parse_date_for_path("2026-07-23"), Some("2026/07".to_string()));
    assert_eq!(parse_date_for_path("2026-07-23T07:30:20"), Some("2026/07".to_string()));
    assert_eq!(parse_date_for_path("2026-07-23T07:30:20+02:00"), Some("2026/07".to_string()));
    assert_eq!(parse_date_for_path("20260723"), None);
    assert_eq!(parse_date_for_path(""), None);
    assert_eq!(parse_date_for_path("T07:30:20"), None);
}

#[test]
fn parse_date_for_path_output_is_always_well_formed() {
    let inputs = [
        "2024-1-5T10:00:00",
        "2024-1",
        "99-1T00:00:00",
        "2026-07-23T07:30:20",
        "UnknownDate",
        "2024-13-01",
        "",
    ];

    for input in inputs {
        if let Some(date_path) = parse_date_for_path(input) {
            assert_eq!(date_path.len(), 7, "{input:?} -> {date_path:?} must be exactly YYYY/MM");
            let (year, month) = date_path.split_once('/').expect("must contain one slash");
            assert!(year.chars().all(|c| c.is_ascii_digit()), "{input:?} -> year {year:?}");
            assert!(month.chars().all(|c| c.is_ascii_digit()), "{input:?} -> month {month:?}");
            assert_eq!(month.len(), 2, "{input:?} -> month {month:?} must be padded");
        }
    }
}

#[test]
fn parse_year_month_pads_and_validates() {
    assert_eq!(parse_year_month("2024-1-5T10:00:00"), Some(("2024".to_string(), "01".to_string())));
    assert_eq!(parse_year_month(" 2024 - 12 "), Some(("2024".to_string(), "12".to_string())));
    assert_eq!(parse_year_month("2024-00"), None);
    assert_eq!(parse_year_month("2024-123"), None);
    assert_eq!(parse_year_month("2024"), None);
}

// --- forced dates -------------------------------------------------------------

#[test]
fn forced_date_overrides_what_the_files_claim() {
    let mut disk = Disk::new();
    disk.write("/cards/force/VID_20160101_120000_001.mp4", &[1u8; 64]);
    disk.write("/cards/force/VID_20240715_090000_002.mp4", &[2u8; 64]);

    let plan = disk.plan(&[("/cards/force", "CARD")], &forced("2026-08-04")).unwrap();

    assert_eq!(plan.operations.len(), 2);
    for op in &plan.operations {
        assert!(op.dest_path.contains("/2026/08/"), "every file must land under the forced date, got {}", op.dest_path);
        assert!(!op.dest_path.contains("/2016/"), "stale date leaked: {}", op.dest_path);
        assert!(!op.dest_path.contains("/2024/"), "stale date leaked: {}", op.dest_path);
        assert_eq!(op.capture_date.as_deref(), Some("2026-08-04T12:00:00"));
    }
}

#[test]
fn forced_date_leaves_filenames_untouched() {
    let mut disk = Disk::new();
    disk.write("/cards/force_names/A001_C002.MP4", &[3u8; 64]);

    let plan = disk.plan(&[("/cards/force_names", "CARD")], &forced("2026-08-04")).unwrap();

    assert!(plan.operations[0].dest_path.ends_with("A001_C002.MP4"));
}

#[test]
fn unusable_forced_date_falls_back_to_the_files() {
    let mut disk = Disk::new();
    disk.write("/cards/force_bad/VID_20240715_090000_002.mp4", &[4u8; 64]);

    for bad in ["not-a-date", "2026-13-01", "", "2026"] {
        let plan = disk.plan(&[("/cards/force_bad", "CARD")], &forced(bad)).unwrap();
        let p = &plan.operations[0].dest_path;
        assert!(p.contains("/2024/07/"), "override {bad:?} should have been ignored, got {p}");
        assert!(!p.contains(bad) || bad.is_empty(), "override {bad:?} leaked into {p}");
    }
}

#[test]
fn unreadable_dates_file_under_a_nameable_folder() {
    let mut disk = Disk::new();
    disk.write("/cards/unknown_date/CLIP.mp4", &[0u8; 32]);

    let plan = disk.plan(&[("/cards/unknown_date", "CARD")], &options(false)).unwrap();

    for op in &plan.operations {
        assert!(
            !op.dest_path.contains("/Unkn/") && !op.dest_path.contains("/wn/"),
            "a failed parse must not be sliced into folder names: {}",
            op.dest_path
        );
    }
}

#[test]
fn a_date_nothing_can_read_files_under_unknown_folders() {
    let files = vec![(
        ScannedFile { modified: "garbage".to_string(), ..scanned("/cards/x/CLIP.mp4", None).0 },
        "CARD".to_string(),
    )];
    let fingerprint = |_p: &str, _s: u64| -> Result<String, String> { Err("unused".to_string()) };
    let whole = |_p: &str| -> Result<String, String> { Err("unused".to_string()) };
    let exists = |_p: &str| false;
    let list = |_d: &str| -> Option<Vec<DirEntryInfo>> { None };
    let plan = build_plan_from_scans(&files, &options(false), HashIndex::new(), &fingerprint, &whole, &exists, &list).unwrap();
    assert_eq!(rel(&plan.operations[0]), "UnknownDate/UnknownMonth/CARD/CLIP.mp4");
}

// --- infer_device_by_directory --------------------------------------------

#[test]
fn infer_device_by_directory_uses_the_majority_name() {
    let files = vec![
        scanned("/cards/A/one.dng", Some("Canon EOS R5")),
        scanned("/cards/A/two.dng", Some("Canon EOS R5")),
        scanned("/cards/A/three.mp4", Some("DJI Mini 4 Pro")),
        scanned("/cards/A/four.mp4", None),
    ];

    let map = infer_device_by_directory(&files);
    assert_eq!(map.get("/cards/A").as_deref(), Some("Canon EOS R5"));
}

#[test]
fn infer_device_by_directory_breaks_ties_stably() {
    let forward = vec![
        scanned("/cards/B/one.mp4", Some("Beta Cam")),
        scanned("/cards/B/two.mp4", Some("Alpha Cam")),
    ];
    let reverse: Vec<_> = forward.iter().cloned().rev().collect();

    for _ in 0..20 {
        assert_eq!(infer_device_by_directory(&forward).get("/cards/B").as_deref(), Some("Alpha Cam"));
        assert_eq!(
            infer_device_by_directory(&reverse).get("/cards/B").as_deref(),
            Some("Alpha Cam"),
            "tie-break must not depend on the order files were scanned"
        );
    }
}

#[test]
fn infer_device_by_directory_ignores_blank_names() {
    let files = vec![
        scanned("/cards/C/one.mp4", Some("")),
        scanned("/cards/C/two.mp4", Some("   ")),
        scanned("/cards/C/three.mp4", None),
    ];

    assert!(
        infer_device_by_directory(&files).get("/cards/C").is_none(),
        "a directory with no real device names must not be assigned one"
    );
}

#[test]
fn plan_lends_a_directorys_device_name_to_files_without_one() {
    let mut disk = Disk::new();
    disk.write("/cards/dir_device/VID_20260723_073020_002.mp4", b"clip");

    let files = vec![
        scanned("/cards/dir_device/VID_20260723_073020_002.mp4", None),
        scanned("/cards/dir_device/IMG_0001.dng", Some("Insta360 Luna Ultra")),
    ];
    let dir_device = infer_device_by_directory(&files);
    assert_eq!(dir_device.get("/cards/dir_device").as_deref(), Some("Insta360 Luna Ultra"));

    let plan = disk.plan(&[("/cards/dir_device", "SDXC 128")], &options(false)).unwrap();
    assert_eq!(plan.operations[0].device_name, "SDXC 128");
}

#[test]
fn plan_files_untagged_clips_under_their_neighbours_device() {
    let files = vec![
        scanned("/cards/D/clip.mp4", None),
        scanned("/cards/D/still.dng", Some("  Insta360 Luna Ultra ")),
    ];
    let fingerprint = |_p: &str, _s: u64| -> Result<String, String> { Err("unused".to_string()) };
    let whole = |_p: &str| -> Result<String, String> { Err("unused".to_string()) };
    let exists = |_p: &str| false;
    let list = |_d: &str| -> Option<Vec<DirEntryInfo>> { None };
    let plan = build_plan_from_scans(&files, &options(false), HashIndex::new(), &fingerprint, &whole, &exists, &list).unwrap();
    assert_eq!(plan.operations[0].device_name, "Insta360 Luna Ultra");
    assert_eq!(rel(&plan.operations[0]), "2026/01/Insta360 Luna Ultra/clip.mp4");
}

// --- sidecars --------------------------------------------------------------

#[test]
fn plan_pairs_every_sidecar_extension_with_its_clip() {
    let mut disk = Disk::new();
    disk.write("/cards/sidecars/a001.mp4", b"clip-bytes");
    for ext in ["xmp", "srt", "lut", "xml", "edl"] {
        disk.write(&format!("/cards/sidecars/a001.{}", ext), b"sidecar");
    }
    disk.write("/cards/sidecars/a001.txt", b"notes - not a sidecar");
    disk.write("/cards/sidecars/b002.xmp", b"orphan - no clip of its own");

    let plan = disk.plan(&[("/cards/sidecars", "Card")], &options(false)).unwrap();

    let names: std::collections::HashSet<String> =
        plan.operations.iter().map(|o| file_name(&o.dest_path).to_lowercase()).collect();
    for ext in ["xmp", "srt", "lut", "xml", "edl"] {
        assert!(names.contains(&format!("a001.{}", ext)), ".{} sidecar was not paired; plan was {:?}", ext, names);
    }
    assert!(!names.contains("a001.txt"), "arbitrary files must not be treated as sidecars");
    assert!(!names.contains("b002.xmp"), "a sidecar with no clip must not be ingested");

    let clip_dir = plan
        .operations
        .iter()
        .find(|o| o.dest_path.ends_with("a001.mp4"))
        .map(|o| parent(&o.dest_path))
        .expect("clip must be in the plan");
    for op in plan.operations.iter().filter(|o| !o.dest_path.ends_with("a001.mp4")) {
        assert_eq!(parent(&op.dest_path), clip_dir, "sidecar must land beside its clip");
        assert_eq!(op.action, "copy", "sidecars are always copied, never moved");
    }

    assert!(
        plan.operations.iter().all(|o| disk.get(&o.source_path).is_some()),
        "every planned source path must be a file the executor can actually open"
    );
    assert_eq!(
        plan.total_size,
        plan.operations.iter().map(|o| o.size).sum::<u64>(),
        "sidecar bytes must be counted, or the free-space check under-reads"
    );
}

#[test]
fn each_sidecar_is_planned_exactly_once() {
    let mut disk = Disk::new();
    disk.write("/cards/sidecar_once/a001.mp4", b"clip-bytes");
    for ext in ["xmp", "srt", "lut", "xml", "edl"] {
        disk.write(&format!("/cards/sidecar_once/a001.{}", ext), b"sidecar");
    }

    let plan = disk.plan(&[("/cards/sidecar_once", "Card")], &options(false)).unwrap();

    assert_eq!(
        plan.operations.len(),
        6,
        "expected clip + 5 sidecars, got: {:?}",
        plan.operations.iter().map(|o| o.dest_path.clone()).collect::<Vec<_>>()
    );
    assert_eq!(plan.total_files, 6);
}

#[test]
fn a_sidecar_listed_twice_in_different_case_is_planned_once() {
    let files = vec![scanned("/cards/E/A001.MP4", None)];
    let fingerprint = |_p: &str, _s: u64| -> Result<String, String> { Err("unused".to_string()) };
    let whole = |_p: &str| -> Result<String, String> { Err("unused".to_string()) };
    let exists = |_p: &str| false;
    // A case-insensitive volume can report both spellings.
    let list = |_d: &str| -> Option<Vec<DirEntryInfo>> {
        Some(vec![
            DirEntryInfo { path: "/cards/E/A001.MP4".to_string(), size: 10 },
            DirEntryInfo { path: "/cards/E/A001.XMP".to_string(), size: 7 },
            DirEntryInfo { path: "/cards/E/a001.xmp".to_string(), size: 7 },
        ])
    };
    let plan = build_plan_from_scans(&files, &options(false), HashIndex::new(), &fingerprint, &whole, &exists, &list).unwrap();
    assert_eq!(plan.operations.len(), 2);
    assert!(plan.operations[1].dest_path.ends_with("/A001.XMP"));
    assert_eq!(plan.operations[1].size, 7);
}

#[test]
fn plan_discovers_uppercase_sidecars() {
    let mut disk = Disk::new();
    disk.write("/cards/sidecar_case/A001.MP4", b"clip-bytes");
    disk.write("/cards/sidecar_case/A001.XMP", b"sidecar");

    let plan = disk.plan(&[("/cards/sidecar_case", "Card")], &options(false)).unwrap();

    assert!(
        plan.operations.iter().any(|o| o.dest_path.to_lowercase().ends_with(".xmp")),
        "an upper-case sidecar next to an upper-case clip must be ingested"
    );
}

#[test]
fn sidecar_destination_keeps_the_clips_name_case() {
    let mut disk = Disk::new();
    disk.write("/cards/sidecar_case_kept/A001.MP4", b"clip-bytes");
    disk.write("/cards/sidecar_case_kept/A001.XMP", b"sidecar");

    let plan = disk.plan(&[("/cards/sidecar_case_kept", "Card")], &options(false)).unwrap();

    let sidecar = plan
        .operations
        .iter()
        .find(|o| o.dest_path.to_lowercase().ends_with(".xmp"))
        .expect("sidecar must be in the plan");
    assert_eq!(file_name(&sidecar.dest_path), "A001.XMP", "sidecar must keep the on-disk name it had beside the clip");
}

#[test]
fn skipped_clips_bring_no_sidecars() {
    let mut disk = Disk::new();
    let payload = vec![9u8; 1024];
    disk.write("/cards/dups/A.mp4", &payload);
    disk.write("/cards/dups/B.mp4", &payload);
    disk.write("/cards/dups/B.xmp", b"grade");

    let plan = disk.plan(&[("/cards/dups", "Card")], &options(true)).unwrap();

    assert_eq!(plan.duplicate_count, 1);
    assert_eq!(plan.operations.len(), 2, "the duplicate's sidecar stays on the card");
    assert_eq!(plan.total_files + plan.duplicate_count, plan.operations.len());
}
