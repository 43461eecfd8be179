use ingst::formats::{classify, extension_of, lookup, media_formats, MediaKind, MetadataSource, ThumbnailSource};

fn kind_of(name: &str) -> Option<MediaKind> {
    classify(name).map(|f| f.kind)
}

#[test]
fn recognises_what_real_devices_write() {
    let cases: &[(&str, MediaKind, &str)] = &[
        ("C0001.MP4", MediaKind::Video, "Sony XAVC S"),
        ("A001_01.MOV", MediaKind::Video, "Canon, Nikon, Panasonic"),
        ("00000.MTS", MediaKind::Video, "AVCHD camcorder"),
        ("00001.M2TS", MediaKind::Video, "AVCHD camcorder"),
        ("A001C001.MXF", MediaKind::Video, "Sony XDCAM / Canon XF / P2"),
        ("A001_C001.braw", MediaKind::Video, "Blackmagic"),
        ("A001_C001_001.R3D", MediaKind::Video, "RED"),
        ("A001C001.CRM", MediaKind::Video, "Canon Cinema RAW Light"),
        ("GX010001.MP4", MediaKind::Video, "GoPro"),
        ("VID_20260723_073020.insv", MediaKind::Video, "Insta360 360"),
        ("IMG_20260723_072938.insp", MediaKind::Photo, "Insta360 360 still"),
        ("GOPR0001.GPR", MediaKind::Photo, "GoPro raw"),
        ("DJI_0001.MP4", MediaKind::Video, "DJI"),
        ("DJI_0001.DNG", MediaKind::Photo, "DJI raw still"),
        ("IMG_0001.HEIC", MediaKind::Photo, "iPhone default since iOS 11"),
        ("IMG_0001.CR3", MediaKind::Photo, "Canon R / M series"),
        ("IMG_0001.CR2", MediaKind::Photo, "Canon, pre-2018"),
        ("DSC00001.ARW", MediaKind::Photo, "Sony"),
        ("DSC_0001.NEF", MediaKind::Photo, "Nikon"),
        ("P1000001.RW2", MediaKind::Photo, "Panasonic Lumix"),
        ("DSCF0001.RAF", MediaKind::Photo, "Fujifilm"),
        ("P7230001.ORF", MediaKind::Photo, "OM System"),
        ("IMGP0001.PEF", MediaKind::Photo, "Pentax"),
        ("ZOOM0001.WAV", MediaKind::Audio, "field recorder"),
        ("REC001.m4a", MediaKind::Audio, "wireless mic / phone"),
        ("track.flac", MediaKind::Audio, "recorder"),
    ];

    for (name, expected, device) in cases {
        assert_eq!(
            kind_of(name),
            Some(*expected),
            "{} ({}) must be recognised as {:?}",
            name,
            device,
            expected
        );
    }
}

#[test]
fn cinema_raw_video_is_video_not_photo() {
    for name in ["a.braw", "a.r3d", "a.crm"] {
        assert_eq!(kind_of(name), Some(MediaKind::Video), "{} is video", name);
    }
}

#[test]
fn classification_ignores_extension_case() {
    assert_eq!(kind_of("A.MP4"), kind_of("a.mp4"));
    assert_eq!(kind_of("A.HEIC"), kind_of("a.heic"));
}

#[test]
fn leaves_non_media_alone() {
    for name in ["edit.psd", "clip.lrv", "clip.LRF", "clip.thm", "notes.txt", "index.json"] {
        assert_eq!(kind_of(name), None, "{} must not be ingested", name);
    }
}

#[test]
fn no_duplicate_extensions() {
    let mut seen = std::collections::HashSet::new();
    for f in media_formats() {
        assert!(seen.insert(f.extension), "duplicate entry for {}", f.extension);
        assert_eq!(f.extension, f.extension.to_lowercase(), "table must be lowercase");
    }
}

#[test]
fn kind_names_are_what_the_interface_shows() {
    assert_eq!(MediaKind::Video.as_str(), "video");
    assert_eq!(MediaKind::Photo.as_str(), "photo");
    assert_eq!(MediaKind::Audio.as_str(), "audio");
}

#[test]
fn extension_is_lowercased_without_its_dot() {
    assert_eq!(extension_of("/cards/A/C0001.MP4"), "mp4");
    assert_eq!(extension_of("/cards/A/README"), "");
    assert_eq!(extension_of("archive.tar.GZ"), "gz");
}

#[test]
fn lookup_gives_the_table_row() {
    let f = lookup("jpg").expect("jpg is a still");
    assert_eq!(f.kind, MediaKind::Photo);
    assert_eq!(f.metadata, MetadataSource::Exif);
    assert_eq!(f.thumbnail, ThumbnailSource::Image);
    assert!(lookup("JPG").is_none(), "lookup takes the lower-cased extension");
    let v = lookup("mov").expect("mov is video");
    assert_eq!(v.metadata, MetadataSource::Container);
    assert_eq!(v.thumbnail, ThumbnailSource::VideoFrame);
}

#[test]
fn lookup_takes_lower_cased_extensions() {
    assert!(ingst::formats::lookup("MP4").is_none());
    assert_eq!(ingst::formats::lookup("mp4").map(|f| f.kind), Some(ingst::formats::MediaKind::Video));
}
