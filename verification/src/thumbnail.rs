//! Preview thumbnails for the review screen, as `data:` URLs. Which files
//! get one is decided by the format table; stills are scaled here, video
//! frames come from the video backend.
use vstd::prelude::*;
use base64::Engine;
use crate::formats::{classify, classify_spec, ThumbnailSource};
use crate::text::{chars_of, push_str, string_from};

verus! {

/// Longest side of a generated thumbnail, in pixels.
pub const THUMBNAIL_MAX_DIM: u32 = 160;

/// How a path's preview is produced: by the format table, none for a file
/// it does not list.
pub open spec fn thumbnail_source_spec(path: Seq<char>) -> ThumbnailSource {
    match classify_spec(path) {
        Some(row) => row.3,
        None => ThumbnailSource::Unsupported,
    }
}

pub fn thumbnail_source_for(path: &str) -> (r: ThumbnailSource)
    ensures
        r == thumbnail_source_spec(path@),
{
    match classify(path) {
        Some(f) => f.thumbnail,
        None => ThumbnailSource::Unsupported,
    }
}

// ---------------------------------------------------------------------------
// Base64, from its crate.
// ---------------------------------------------------------------------------

/// The character for a six-bit value in the standard alphabet.
pub open spec fn b64_char(v: int) -> char {
    if v < 26 {
        (v + 65) as char
    } else if v < 52 {
        (v + 71) as char
    } else if v < 62 {
        (v - 4) as char
    } else if v == 62 {
        '+'
    } else {
        '/'
    }
}

/// Standard base64 with `=` padding: every three bytes become four
/// characters, a final one or two bytes become four characters ending in
/// `==` or `=`.
pub open spec fn b64_spec(d: Seq<u8>) -> Seq<char>
    decreases d.len(),
{
    if d.len() == 0 {
        Seq::empty()
    } else {
        let a = d[0] as int;
        if d.len() == 1 {
            seq![b64_char(a / 4), b64_char((a % 4) * 16), '=', '=']
        } else {
            let b = d[1] as int;
            if d.len() == 2 {
                seq![b64_char(a / 4), b64_char((a % 4) * 16 + b / 16), b64_char((b % 16) * 4), '=']
            } else {
                let c = d[2] as int;
                seq![
                    b64_char(a / 4),
                    b64_char((a % 4) * 16 + b / 16),
                    b64_char((b % 16) * 4 + c / 64),
                    b64_char(c % 64),
                ] + b64_spec(d.skip(3))
            }
        }
    }
}

/// Calls `base64::engine::general_purpose::STANDARD.encode`. Claimed, as
/// the crate documents: standard-alphabet base64 with padding.
#[verifier::external_body]
fn base64_standard(data: &[u8]) -> (r: String)
    ensures
        r@ == b64_spec(data@),
{
    base64::engine::general_purpose::STANDARD.encode(data)
}

/// A JPEG as a `data:` URL the interface can show directly.
pub fn jpeg_data_url(jpeg: &[u8]) -> (r: String)
    ensures
        r@ == "data:image/jpeg;base64,"@ + b64_spec(jpeg@),
{
    let mut v = chars_of("data:image/jpeg;base64,");
    let b = base64_standard(jpeg);
    push_str(&mut v, b.as_str());
    string_from(&v)
}

// ---------------------------------------------------------------------------
// Stills.
// ---------------------------------------------------------------------------

/// What the `image` crate makes of a still: decoded in the format its
/// extension names, scaled to fit a square of `max_dim` keeping its aspect
/// ratio, and encoded as JPEG; or the error text when that fails.
pub uninterp spec fn image_thumbnail(path: Seq<char>, bytes: Seq<u8>, max_dim: u32) -> Result<
    Seq<u8>,
    Seq<char>,
>;

/// Calls `ImageFormat::from_path`, `image::load_from_memory_with_format`,
/// `DynamicImage::thumbnail` and `write_to` with `ImageFormat::Jpeg`.
/// Claimed: the outcome is `image_thumbnail` of the path, the bytes and the
/// size, which depend on nothing else. That the decoders return an error
/// rather than panic on malformed bytes is trusted as well: the image crate
/// reports decoding failures as errors, but nothing read here rules a panic
/// out, and no weaker contract would cover it.
#[verifier::external_body]
fn scale_to_jpeg(path: &str, bytes: &[u8], max_dim: u32) -> (r: Result<Vec<u8>, String>)
    ensures
        match r {
            Ok(j) => image_thumbnail(path@, bytes@, max_dim) == Ok::<Seq<u8>, Seq<char>>(j@),
            Err(e) => image_thumbnail(path@, bytes@, max_dim) == Err::<Seq<u8>, Seq<char>>(e@),
        },
{
    let format = match image::ImageFormat::from_path(path) {
        Ok(f) => f,
        Err(e) => return Err(e.to_string()),
    };
    let img = match image::load_from_memory_with_format(bytes, format) {
        Ok(i) => i,
        Err(e) => return Err(e.to_string()),
    };
    let mut buf: Vec<u8> = Vec::new();
    let thumb = img.thumbnail(max_dim, max_dim);
    match thumb.write_to(&mut std::io::Cursor::new(&mut buf), image::ImageFormat::Jpeg) {
        Ok(()) => Ok(buf),
        Err(e) => Err(e.to_string()),
    }
}

/// The preview of a still, from the file's bytes: a thumbnail at most
/// `THUMBNAIL_MAX_DIM` on its longest side, as a JPEG `data:` URL; the
/// image library's error when it cannot be decoded.
pub fn photo_thumbnail(path: &str, bytes: &[u8]) -> (r: Result<Option<String>, String>)
    ensures
        match image_thumbnail(path@, bytes@, THUMBNAIL_MAX_DIM) {
            Ok(j) => r matches Ok(Some(u)) && u@ == "data:image/jpeg;base64,"@ + b64_spec(j),
            Err(e) => r matches Err(m) && m@ == e,
        },
{
    match scale_to_jpeg(path, bytes, THUMBNAIL_MAX_DIM) {
        Ok(j) => Ok(Some(jpeg_data_url(j.as_slice()))),
        Err(e) => Err(e),
    }
}

/// The preview of a clip, from the frame the video backend produced. No
/// frame is an ordinary outcome, not an error: the interface falls back to
/// a file-type icon.
pub fn video_thumbnail(frame: Option<Vec<u8>>) -> (r: Option<String>)
    ensures
        match frame {
            Some(f) => r matches Some(u) && u@ == "data:image/jpeg;base64,"@ + b64_spec(f@),
            None => r is None,
        },
{
    match frame {
        Some(f) => Some(jpeg_data_url(f.as_slice())),
        None => None,
    }
}

/// The file reader returned `r` for a path.
pub open spec fn read_gave<RD: Fn(&str) -> Result<Vec<u8>, String>>(
    read: RD,
    path: Seq<char>,
    r: Result<Vec<u8>, String>,
) -> bool {
    exists|s: &str| s@ == path && #[trigger] call_ensures(read, (s,), r)
}

/// The video backend returned `r` for a path.
pub open spec fn frame_gave<VF: Fn(&str) -> Option<Vec<u8>>>(
    frame: VF,
    path: Seq<char>,
    r: Option<Vec<u8>>,
) -> bool {
    exists|s: &str| s@ == path && #[trigger] call_ensures(frame, (s,), r)
}

/// A `base64` JPEG `data:` URL for a file's preview, or `None` for formats
/// with no preview source (raw stills, audio, anything the table does not
/// list), which the interface shows as a type icon.
///
/// Stills are read with `read_file` and scaled here; a read or decode
/// failure is the error. Video frames come from `video_frame`, and a clip
/// with no frame has no preview rather than an error.
pub fn generate_thumbnail<RD, VF>(path: &str, read_file: &RD, video_frame: &VF) -> (r: Result<
    Option<String>,
    String,
>)
    where
        RD: Fn(&str) -> Result<Vec<u8>, String>,
        VF: Fn(&str) -> Option<Vec<u8>>,
    requires
        forall|s: &str| call_requires(*read_file, (s,)),
        forall|s: &str| call_requires(*video_frame, (s,)),
    ensures
        match thumbnail_source_spec(path@) {
            ThumbnailSource::Image => {
                ||| exists|e: String| read_gave(*read_file, path@, Err(e)) && r == Err::<Option<String>, String>(e)
                ||| exists|b: Vec<u8>|
                    #[trigger] read_gave(*read_file, path@, Ok(b)) && match image_thumbnail(
                        path@,
                        b@,
                        THUMBNAIL_MAX_DIM,
                    ) {
                        Ok(j) => r matches Ok(Some(u)) && u@ == "data:image/jpeg;base64,"@ + b64_spec(j),
                        Err(e) => r matches Err(m) && m@ == e,
                    }
            },
            ThumbnailSource::VideoFrame => {
                ||| frame_gave(*video_frame, path@, None) && r == Ok::<Option<String>, String>(None)
                ||| exists|f: Vec<u8>|
                    #[trigger] frame_gave(*video_frame, path@, Some(f)) && (r matches Ok(Some(u))
                        && u@ == "data:image/jpeg;base64,"@ + b64_spec(f@))
            },
            ThumbnailSource::Unsupported => r == Ok::<Option<String>, String>(None),
        },
{
    match thumbnail_source_for(path) {
        ThumbnailSource::Image => {
            let got = read_file(path);
            assert(call_ensures(*read_file, (path,), got));
            match got {
                Ok(bytes) => {
                    assert(read_gave(*read_file, path@, Ok(bytes)));
                    photo_thumbnail(path, bytes.as_slice())
                },
                Err(e) => {
                    assert(read_gave(*read_file, path@, Err(e)));
                    Err(e)
                },
            }
        },
        ThumbnailSource::VideoFrame => {
            let frame = video_frame(path);
            assert(call_ensures(*video_frame, (path,), frame));
            match frame {
                Some(f) => {
                    assert(frame_gave(*video_frame, path@, Some(f)));
                    Ok(video_thumbnail(Some(f)))
                },
                None => {
                    assert(frame_gave(*video_frame, path@, None));
                    Ok(None)
                },
            }
        },
        ThumbnailSource::Unsupported => Ok(None),
    }
}

} // verus!
