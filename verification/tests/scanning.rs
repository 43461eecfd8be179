use ingst::formats::MediaKind;
use ingst::scan::{
    destination_info, get_source_label, scan_kind, source_label, scanned_file, should_descend, summarize_scan, HostOs, ScanEntry,
};
use ingst::types::SourcePath;

#[test]
fn source_labels_name_the_card_or_folder() {
    assert_eq!(get_source_label("/Volumes/SD Card/DCIM", HostOs::MacOs), "SD Card");
    assert_eq!(get_source_label("/Volumes/SD Card", HostOs::MacOs), "SD Card");
    assert_eq!(get_source_label("/Volumes/SD Card/DCIM", HostOs::Other), "DCIM");
    assert_eq!(get_source_label("/home/me/footage/", HostOs::Other), "footage");
    assert_eq!(get_source_label("/", HostOs::Other), "UnknownSource");
    assert_eq!(get_source_label("", HostOs::Other), "UnknownSource");
}

#[test]
fn appledouble_stubs_are_not_media() {
    assert_eq!(scan_kind("/Volumes/CARD/DCIM/._IMG_0001.DNG"), None);
    assert_eq!(scan_kind("/Volumes/CARD/DCIM/IMG_0001.DNG"), Some(MediaKind::Photo));
    assert_eq!(scan_kind("/Volumes/CARD/clip.LRV"), None);
    assert_eq!(scan_kind("/Volumes/CARD/C0001.MP4"), Some(MediaKind::Video));
}

#[test]
fn partial_copies_left_by_an_interrupted_transfer_are_not_media() {
    assert_eq!(scan_kind("/Library/2024/01/Cam/C0001.MP4.part"), None);
    assert_eq!(scan_kind("/Library/2024/01/Cam/IMG_0001.JPG.part"), None);
    assert_eq!(scan_kind("/Library/2024/01/Cam/.part"), None);
    assert_eq!(scan_kind("/Library/2024/01/Cam/C0001.MP4"), Some(MediaKind::Video));
}

#[test]
fn hidden_system_and_excluded_folders_are_not_walked() {
    let none: Vec<String> = vec![];
    assert!(should_descend("DCIM", &none));
    assert!(!should_descend(".Spotlight-V100", &none));
    assert!(!should_descend(".Trashes", &none));
    assert!(!should_descend("System Volume Information", &none));
    assert!(!should_descend("$RECYCLE.BIN", &none));
    let exclusions = vec!["Proxy".to_string()];
    assert!(!should_descend("PROXY_FILES", &exclusions));
    assert!(should_descend("CLIPS", &exclusions));
}

#[test]
fn a_scanned_file_records_what_was_read() {
    let f = scanned_file(
        "/cards/A/VID_20260723_073020_002.mp4",
        42,
        1_551_700_800,
        Some(0),
        (None, Some("GoPro".to_string())),
        MediaKind::Video,
    )
    .unwrap();
    assert_eq!(f.name, "VID_20260723_073020_002.mp4");
    assert_eq!(f.size, 42);
    assert_eq!(f.modified, "2019-03-04T12:00:00");
    assert_eq!(f.created.as_deref(), Some("1970-01-01T00:00:00"));
    assert_eq!(f.capture_date.as_deref(), Some("2026-07-23T07:30:20"), "the name's stamp when metadata has none");
    assert_eq!(f.device_name.as_deref(), Some("GoPro"));
    assert_eq!(f.file_type, "video");
    assert!(f.hash.is_none());

    let g = scanned_file("/cards/A/a.jpg", 1, 0, None, (Some("2020-01-02T03:04:05".to_string()), None), MediaKind::Photo)
        .unwrap();
    assert_eq!(g.capture_date.as_deref(), Some("2020-01-02T03:04:05"), "metadata wins over the name");
    assert_eq!(g.file_type, "photo");
}

#[test]
fn the_summary_counts_every_kind() {
    let f1 = scanned_file("/c/a.mp4", 10, 0, None, (None, None), MediaKind::Video).unwrap();
    let f2 = scanned_file("/c/b.jpg", 5, 0, None, (None, None), MediaKind::Photo).unwrap();
    let source = SourcePath { path: "/c".to_string(), label: "C".to_string(), exclusions: vec![] };
    let r = summarize_scan(
        source,
        vec![
            ScanEntry::Media(MediaKind::Video, Some(f1)),
            ScanEntry::Other,
            ScanEntry::Media(MediaKind::Photo, Some(f2)),
            ScanEntry::Media(MediaKind::Audio, None),
            ScanEntry::Other,
        ],
    );
    assert_eq!(r.files.len(), 2);
    assert_eq!(r.total_size, 15);
    assert_eq!(r.video_count, 1);
    assert_eq!(r.photo_count, 1);
    assert_eq!(r.audio_count, 1, "counted even though its details could not be read");
    assert_eq!(r.other_count, 2);
    assert_eq!(r.source.label, "C");
}

#[test]
fn destination_writability() {
    let d = destination_info("/library", true, Some(false), Some((true, Some(false))), Some(1024));
    assert!(d.exists && d.writable);
    assert_eq!(d.free_space, 1024);
    let ro = destination_info("/library", true, Some(true), None, None);
    assert!(!ro.writable);
    assert_eq!(ro.free_space, 0);
    let unknown = destination_info("/library", true, None, None, None);
    assert!(!unknown.writable, "permissions that cannot be read count as read-only");
    let new_dir = destination_info("/vol/new", false, None, Some((true, Some(false))), None);
    assert!(new_dir.writable, "a new folder under a writable parent can be made");
    let orphan = destination_info("/nowhere/new", false, None, Some((false, None)), None);
    assert!(!orphan.writable);
}

#[test]
fn a_blank_source_label_falls_back_to_the_path() {
    let card = |label: &str| SourcePath { path: "/Volumes/SDXC 128".to_string(), label: label.to_string(), exclusions: vec![] };
    assert_eq!(source_label(&card("  "), HostOs::MacOs), "SDXC 128");
    assert_eq!(source_label(&card("A-cam"), HostOs::MacOs), "A-cam");
    assert_eq!(source_label(&card(""), HostOs::Other), "SDXC 128");
}
