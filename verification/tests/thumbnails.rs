use ingst::formats::ThumbnailSource;
use ingst::thumbnail::{generate_thumbnail, jpeg_data_url, photo_thumbnail, thumbnail_source_for, video_thumbnail};

#[test]
fn the_format_table_decides_which_files_get_a_preview() {
    assert_eq!(thumbnail_source_for("/c/a.JPG"), ThumbnailSource::Image);
    assert_eq!(thumbnail_source_for("/c/a.mp4"), ThumbnailSource::VideoFrame);
    assert_eq!(thumbnail_source_for("/c/a.ARW"), ThumbnailSource::Unsupported);
    assert_eq!(thumbnail_source_for("/c/a.txt"), ThumbnailSource::Unsupported);
}

#[test]
fn previews_are_base64_data_urls() {
    assert_eq!(jpeg_data_url(b""), "data:image/jpeg;base64,");
    assert_eq!(jpeg_data_url(b"Man"), "data:image/jpeg;base64,TWFu");
    assert_eq!(jpeg_data_url(b"Ma"), "data:image/jpeg;base64,TWE=");
    assert_eq!(jpeg_data_url(b"M"), "data:image/jpeg;base64,TQ==");
    assert_eq!(video_thumbnail(None), None);
    assert_eq!(video_thumbnail(Some(vec![0xFF, 0xD8, 0xFF])).as_deref(), Some("data:image/jpeg;base64,/9j/"));
}

#[test]
fn a_still_that_cannot_be_decoded_is_an_error() {
    assert!(photo_thumbnail("/c/a.jpg", b"not a jpeg").is_err());
}

#[test]
fn a_still_is_scaled_into_a_jpeg_preview() {
    let img = image::RgbImage::from_pixel(400, 200, image::Rgb([200, 30, 30]));
    let mut png: Vec<u8> = Vec::new();
    image::DynamicImage::ImageRgb8(img)
        .write_to(&mut std::io::Cursor::new(&mut png), image::ImageFormat::Png)
        .unwrap();

    let url = photo_thumbnail("/c/a.png", &png).unwrap().unwrap();
    assert!(url.starts_with("data:image/jpeg;base64,/9j/"), "a JPEG starts FF D8 FF");
    assert!(url.len() < png.len() * 2, "the preview is small");
}

#[test]
fn each_kind_of_file_gets_its_own_preview() {
    let read = |p: &str| -> Result<Vec<u8>, String> { Err(format!("No such file: {}", p)) };
    let frame = |_p: &str| Some(vec![0xFF, 0xD8, 0xFF]);
    let none = |_p: &str| -> Option<Vec<u8>> { None };
    assert_eq!(generate_thumbnail("/c/a.jpg", &read, &frame), Err("No such file: /c/a.jpg".to_string()));
    assert_eq!(generate_thumbnail("/c/a.mp4", &read, &frame), Ok(Some("data:image/jpeg;base64,/9j/".to_string())));
    assert_eq!(generate_thumbnail("/c/a.mp4", &read, &none), Ok(None), "no frame is not an error");
    assert_eq!(generate_thumbnail("/c/a.wav", &read, &frame), Ok(None));
}
