use ingst::paths::{get_extension, get_file_stem, normalize_path};

#[test]
fn path_parts_follow_std_path_rules() {
    assert_eq!(get_file_stem("/cards/A/C0001.MP4"), "C0001");
    assert_eq!(get_extension("/cards/A/C0001.MP4"), "MP4", "as written, not lower-cased");
    assert_eq!(get_file_stem("/cards/A/.hidden"), ".hidden");
    assert_eq!(get_extension("/cards/A/.hidden"), "");
    assert_eq!(get_file_stem("archive.tar.gz"), "archive.tar");
    assert_eq!(get_extension("archive.tar.gz"), "gz");
    assert_eq!(get_file_stem("/cards/A/"), "A");
    assert_eq!(get_file_stem("/"), "");
    assert_eq!(get_extension("/cards/A/.."), "");
}

#[test]
fn normalize_keeps_the_text() {
    assert_eq!(normalize_path("/Volumes/SD Card/DCIM"), "/Volumes/SD Card/DCIM");
}
