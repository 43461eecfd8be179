use ingst::metadata::{
    capture_date_or_filename, clean_exif_string, combine_make_model, extract_metadata_sync, metadata_source_for,
    normalize_to_local, parse_exif_datetime, photo_metadata, timestamp_from_filename, video_info_from_probe,
    video_metadata_from_probe, photo_metadata_from_bytes, local_text, ExifText, MetadataReading,
};
use ingst::formats::MetadataSource;

#[test]
fn exif_dates_become_iso_timestamps() {
    assert_eq!(parse_exif_datetime("2024:01:15 10:30:00"), Some("2024-01-15T10:30:00".to_string()));
    assert_eq!(parse_exif_datetime("2024:01:15"), None);
    assert_eq!(parse_exif_datetime("a b c"), None);
}

#[test]
fn exif_strings_lose_quotes_and_padding() {
    assert_eq!(clean_exif_string("  \"Canon\"  "), "Canon");
    assert_eq!(clean_exif_string("\"\""), "");
}

#[test]
fn make_is_prefixed_only_when_the_model_lacks_it() {
    assert_eq!(
        combine_make_model(Some("Canon".to_string()), Some("Canon EOS R5".to_string())),
        Some("Canon EOS R5".to_string())
    );
    assert_eq!(
        combine_make_model(Some("Insta360".to_string()), Some("Luna Ultra".to_string())),
        Some("Insta360 Luna Ultra".to_string())
    );
    assert_eq!(combine_make_model(Some("DJI".to_string()), None), Some("DJI".to_string()));
    assert_eq!(combine_make_model(None, None), None);
}

#[test]
fn photo_metadata_prefers_the_original_date() {
    let (date, device) = photo_metadata(
        ExifText::Text("2024:01:15 10:30:00".to_string()),
        ExifText::Text("2025:02:02 00:00:00".to_string()),
        Some("\"Canon\"".to_string()),
        Some("\"Canon EOS R5\"".to_string()),
    );
    assert_eq!(date.as_deref(), Some("2024-01-15T10:30:00"));
    assert_eq!(device.as_deref(), Some("Canon EOS R5"));
    let (fallback, _) = photo_metadata(ExifText::Missing, ExifText::Text("2025:02:02 00:00:00".to_string()), None, None);
    assert_eq!(fallback.as_deref(), Some("2025-02-02T00:00:00"));
    let (none, nobody) = photo_metadata(ExifText::NotText, ExifText::Text("2025:02:02 00:00:00".to_string()), None, Some("  ".to_string()));
    assert_eq!(none, None);
    assert_eq!(nobody, None);
}

#[test]
fn camera_file_names_give_a_capture_time() {
    assert_eq!(timestamp_from_filename("VID_20260723_073020_002.mp4"), Some("2026-07-23T07:30:20".to_string()));
    assert_eq!(timestamp_from_filename("IMG_20260723_072938_001.jpg"), Some("2026-07-23T07:29:38".to_string()));
    assert_eq!(timestamp_from_filename("PXL_20240102.jpg"), Some("2024-01-02T00:00:00".to_string()));
    assert_eq!(timestamp_from_filename("C0001.MP4"), None);
    assert_eq!(timestamp_from_filename("120260723.mp4"), None, "must start at a digit-run boundary");
    assert_eq!(timestamp_from_filename("20261345.mp4"), None, "month out of range");
}

#[test]
fn the_name_is_a_fallback_only() {
    assert_eq!(capture_date_or_filename(Some("x".to_string()), "VID_20260723_073020.mp4"), Some("x".to_string()));
    assert_eq!(
        capture_date_or_filename(None, "VID_20260723_073020.mp4"),
        Some("2026-07-23T07:30:20".to_string())
    );
}

#[test]
fn timestamps_without_a_zone_are_left_alone() {
    assert_eq!(normalize_to_local("2026-07-23T07:30:20"), "2026-07-23T07:30:20");
    assert_eq!(normalize_to_local("2026-07-23T07:30:20Z").len(), 19);
}

#[test]
fn container_tags_give_date_and_device() {
    let out = br#"{"format":{"tags":{"creation_time":" 2026-07-23T07:30:20 ","make":"DJI","com.apple.quicktime.model":" iPhone 15 "}}}"#;
    let (date, device) = video_metadata_from_probe(out);
    assert_eq!(date.as_deref(), Some("2026-07-23T07:30:20"));
    assert_eq!(device.as_deref(), Some("iPhone 15"), "QuickTime model wins over the bare keys");
    assert_eq!(video_metadata_from_probe(b"not json"), (None, None));
    assert!(video_info_from_probe(br#"{"format":{"tags":{}}}"#).is_none());
    let info = video_info_from_probe(br#"{"format":{"tags":{"model":"HERO12"}}}"#).unwrap();
    assert_eq!(info.device_name.as_deref(), Some("HERO12"));
    assert!(!info.is_empty());
}

#[test]
fn the_format_table_picks_the_reader() {
    assert_eq!(metadata_source_for("a.JPG"), MetadataSource::Exif);
    assert_eq!(metadata_source_for("a.mov"), MetadataSource::Container);
    assert_eq!(metadata_source_for("a.txt"), MetadataSource::Unsupported);

    let photo = || MetadataReading::Photo(tiff_with_exif());
    assert_eq!(
        extract_metadata_sync("/c/DSC0001.ARW", photo()),
        (Some("2024-01-15T10:30:00".to_string()), Some("Sony ILCE-7SM3".to_string()))
    );
    assert_eq!(extract_metadata_sync("/c/C0001.MP4", photo()), (None, None), "a reading of the wrong kind gives nothing");
    assert_eq!(
        extract_metadata_sync("/c/DSC0002.JPG", MetadataReading::Photo(b"not an image".to_vec())),
        (None, None),
        "bytes with no EXIF give nothing"
    );
    assert_eq!(extract_metadata_sync("/c/notes.txt", MetadataReading::Unreadable), (None, None));
    let probe = MetadataReading::Probe(br#"{"format":{"tags":{"make":"GoPro"}}}"#.to_vec());
    assert_eq!(extract_metadata_sync("/c/GX010001.MP4", probe), (None, Some("GoPro".to_string())));
}

/// A little-endian TIFF whose first directory holds `Make`, `Model` and
/// `DateTime` as ASCII, the shape camera raw files start with.
fn tiff_with_exif() -> Vec<u8> {
    let fields: [(u16, &[u8]); 3] =
        [(0x010F, b"Sony\0"), (0x0110, b"ILCE-7SM3\0"), (0x0132, b"2024:01:15 10:30:00\0")];
    let mut out: Vec<u8> = b"II".to_vec();
    out.extend_from_slice(&42u16.to_le_bytes());
    out.extend_from_slice(&8u32.to_le_bytes());
    out.extend_from_slice(&(fields.len() as u16).to_le_bytes());
    let mut data: Vec<u8> = Vec::new();
    let data_start = 8 + 2 + 12 * fields.len() + 4;
    for (tag, value) in fields.iter() {
        out.extend_from_slice(&tag.to_le_bytes());
        out.extend_from_slice(&2u16.to_le_bytes());
        out.extend_from_slice(&(value.len() as u32).to_le_bytes());
        out.extend_from_slice(&((data_start + data.len()) as u32).to_le_bytes());
        data.extend_from_slice(value);
        if data.len() % 2 == 1 {
            data.push(0);
        }
    }
    out.extend_from_slice(&0u32.to_le_bytes());
    out.extend_from_slice(&data);
    out
}

#[test]
fn exif_is_read_from_a_photo_files_bytes() {
    assert_eq!(
        photo_metadata_from_bytes(&tiff_with_exif()),
        (Some("2024-01-15T10:30:00".to_string()), Some("Sony ILCE-7SM3".to_string()))
    );
    assert_eq!(photo_metadata_from_bytes(b""), (None, None));
}

#[test]
fn zoned_timestamps_become_local_wall_clock_time() {
    let local = normalize_to_local("2026-07-31T22:30:00Z");
    assert_eq!(local.len(), 19);
    assert!(
        ["2026-07-30", "2026-07-31", "2026-08-01"].contains(&&local[..10]),
        "within a day of the instant: {local}"
    );
}

#[test]
fn local_text_shifts_by_the_offset_it_is_given() {
    assert_eq!(local_text("2026-07-31T22:30:00Z", 7200), "2026-08-01T00:30:00");
    assert_eq!(local_text("2026-07-31T22:30:00-05:00", 0), "2026-08-01T03:30:00");
    assert_eq!(local_text("2026-07-31T22:30:00Z", -3600), "2026-07-31T21:30:00");
    assert_eq!(local_text("2026-07-23T07:30:20", 3600), "2026-07-23T07:30:20", "no zone: left alone");
}
