use ingst::plan::{parse_date_for_path, resolve_collision, ClaimedPaths};

#[test]
fn test_collision_naming() {
    let dir = "/scratch/ingst_test_collisions";
    let existing = format!("{}/test.mp4", dir);
    let on_disk = vec![existing.clone()];
    let exists = |p: &str| on_disk.iter().any(|f| f == p);

    let mut claimed = ClaimedPaths::new();
    let result = resolve_collision(dir, "test.mp4", &mut claimed, &exists);

    assert_ne!(result, existing, "must not hand back an existing file's path");
    assert!(!exists(&result), "the chosen destination must be free");
    assert!(result.contains("test_1.mp4"));
    assert!(claimed.contains(&result));
}

#[test]
fn test_collision_within_plan() {
    let dir = "/scratch/ingst_test_plan_collisions";
    let exists = |_p: &str| false;
    let mut claimed = ClaimedPaths::new();

    let first = resolve_collision(dir, "IMG_0001.JPG", &mut claimed, &exists);
    let second = resolve_collision(dir, "IMG_0001.JPG", &mut claimed, &exists);
    let third = resolve_collision(dir, "IMG_0001.JPG", &mut claimed, &exists);

    assert_ne!(first, second);
    assert_ne!(second, third);
    assert_ne!(first, third);
    assert!(second.contains("IMG_0001_1.JPG"));
    assert!(third.contains("IMG_0001_2.JPG"));

    let lower = resolve_collision(dir, "img_0001.jpg", &mut claimed, &exists);
    let lower_key = lower.to_lowercase();
    for taken in [&first, &second, &third] {
        assert_ne!(lower_key, taken.to_lowercase(), "case-only difference must still count as claimed");
    }
    assert_eq!(claimed.len(), 4);
}

#[test]
fn collision_suffix_goes_before_the_extension_or_at_the_end() {
    let exists = |p: &str| p == "/d/clip" || p == "/d/archive.tar.gz";
    let mut claimed = ClaimedPaths::new();
    assert_eq!(resolve_collision("/d", "clip", &mut claimed, &exists), "/d/clip_1");
    assert_eq!(resolve_collision("/d", "archive.tar.gz", &mut claimed, &exists), "/d/archive.tar_1.gz");
    assert_eq!(resolve_collision("/d", "free.mp4", &mut claimed, &exists), "/d/free.mp4");
}

/// After ten thousand taken names a clock suffix is used instead of a name
/// that would overwrite another.
#[test]
fn collision_falls_back_to_a_clock_suffix_when_every_number_is_taken() {
    let exists = |_p: &str| true;
    let mut claimed = ClaimedPaths::new();
    let r = resolve_collision("/d", "a.mp4", &mut claimed, &exists);
    let suffix = r.strip_prefix("/d/a_").and_then(|s| s.strip_suffix(".mp4")).expect("a_<suffix>.mp4");
    assert!(suffix == "dup" || (!suffix.is_empty() && suffix.chars().all(|c| c.is_ascii_digit())));
}

#[test]
fn test_path_date_parsing() {
    assert_eq!(parse_date_for_path("2024-01-15T10:30:00"), Some("2024/01".to_string()));
    assert_eq!(parse_date_for_path("2023-12-25T00:00:00"), Some("2023/12".to_string()));
    assert_eq!(parse_date_for_path("invalid"), None);

    // The month is padded, so the result is always `YYYY/MM`.
    assert_eq!(parse_date_for_path("2024-1-15T10:30:00"), Some("2024/01".to_string()));
}
