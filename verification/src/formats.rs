//! Which file extensions are treated as media, and what can be done with
//! each one.
//!
//! Everything that has to answer "is this a photo?", "can a capture date be
//! read out of it?" or "can a thumbnail be shown for it?" goes through this
//! table. Supporting a new camera format is one row here.
//!
//! An extension missing from the table is not merely unorganised: it is
//! invisible. The scanner skips it, so it is left behind on a card the user
//! is about to format. That is why formats are listed even when nothing can
//! read their metadata: filing a clip by its filename timestamp beats not
//! copying it. `Exif` is optimistic by design; a raw format the EXIF reader
//! cannot open costs one failed read before the filename fallback.
use vstd::prelude::*;
use crate::paths::{extension, extension_of_chars};
use crate::text::{
    ascii_lowered, chars_eq_str, chars_of, is_ascii_text, lowercase_chars, string_from,
    unicode_lowercase,
};

verus! {

/// Which of the three library buckets a file lands in.
///
/// The string form is what the interface shows as a scanned file's type, so
/// these spellings are part of that contract.
#[derive(Debug, Clone, Copy, PartialEq, Eq, Structural)]
pub enum MediaKind {
    Video,
    Photo,
    Audio,
}

pub open spec fn kind_name(k: MediaKind) -> Seq<char> {
    match k {
        MediaKind::Video => "video"@,
        MediaKind::Photo => "photo"@,
        MediaKind::Audio => "audio"@,
    }
}

impl MediaKind {
    pub fn as_str(self) -> (r: &'static str)
        ensures
            r@ == kind_name(self),
    {
        match self {
            MediaKind::Video => "video",
            MediaKind::Photo => "photo",
            MediaKind::Audio => "audio",
        }
    }
}

/// Where a file's capture date and device name can be read from.
#[derive(Debug, Clone, Copy, PartialEq, Eq, Structural)]
pub enum MetadataSource {
    /// No reader for this format; the file name is the only source.
    Unsupported,
    /// EXIF, read in-process.
    Exif,
    /// Container-level tags, read by the video backend.
    Container,
}

/// How a preview thumbnail is produced, if at all.
#[derive(Debug, Clone, Copy, PartialEq, Eq, Structural)]
pub enum ThumbnailSource {
    /// No thumbnail; the interface shows a file-type icon.
    Unsupported,
    /// Decoded in-process as an image.
    Image,
    /// A frame decoded out of the video by the video backend.
    VideoFrame,
}

/// One supported extension and everything known about it.
#[derive(Debug, Clone, Copy)]
pub struct MediaFormat {
    /// Lower-case, without the leading dot.
    pub extension: &'static str,
    pub kind: MediaKind,
    pub metadata: MetadataSource,
    pub thumbnail: ThumbnailSource,
}

/// A table row as plain values: extension, kind, metadata and thumbnail.
pub type FormatRow = (Seq<char>, MediaKind, MetadataSource, ThumbnailSource);

pub open spec fn row_of(f: MediaFormat) -> FormatRow {
    (f.extension@, f.kind, f.metadata, f.thumbnail)
}

/// Every extension that is ingested, in table order.
pub open spec fn format_table() -> Seq<FormatRow> {
    seq![
        ("mp4"@, MediaKind::Video, MetadataSource::Container, ThumbnailSource::VideoFrame),
        ("mov"@, MediaKind::Video, MetadataSource::Container, ThumbnailSource::VideoFrame),
        ("m4v"@, MediaKind::Video, MetadataSource::Container, ThumbnailSource::VideoFrame),
        ("avi"@, MediaKind::Video, MetadataSource::Container, ThumbnailSource::VideoFrame),
        ("mkv"@, MediaKind::Video, MetadataSource::Container, ThumbnailSource::VideoFrame),
        ("webm"@, MediaKind::Video, MetadataSource::Container, ThumbnailSource::VideoFrame),
        ("mxf"@, MediaKind::Video, MetadataSource::Container, ThumbnailSource::VideoFrame),
        ("mts"@, MediaKind::Video, MetadataSource::Container, ThumbnailSource::VideoFrame),
        ("m2ts"@, MediaKind::Video, MetadataSource::Container, ThumbnailSource::VideoFrame),
        ("insv"@, MediaKind::Video, MetadataSource::Container, ThumbnailSource::VideoFrame),
        ("3gp"@, MediaKind::Video, MetadataSource::Container, ThumbnailSource::VideoFrame),
        ("braw"@, MediaKind::Video, MetadataSource::Unsupported, ThumbnailSource::Unsupported),
        ("r3d"@, MediaKind::Video, MetadataSource::Unsupported, ThumbnailSource::Unsupported),
        ("crm"@, MediaKind::Video, MetadataSource::Unsupported, ThumbnailSource::Unsupported),
        ("jpg"@, MediaKind::Photo, MetadataSource::Exif, ThumbnailSource::Image),
        ("jpeg"@, MediaKind::Photo, MetadataSource::Exif, ThumbnailSource::Image),
        ("png"@, MediaKind::Photo, MetadataSource::Exif, ThumbnailSource::Image),
        ("tif"@, MediaKind::Photo, MetadataSource::Exif, ThumbnailSource::Unsupported),
        ("tiff"@, MediaKind::Photo, MetadataSource::Exif, ThumbnailSource::Unsupported),
        ("heic"@, MediaKind::Photo, MetadataSource::Exif, ThumbnailSource::Unsupported),
        ("heif"@, MediaKind::Photo, MetadataSource::Exif, ThumbnailSource::Unsupported),
        ("avif"@, MediaKind::Photo, MetadataSource::Exif, ThumbnailSource::Unsupported),
        ("webp"@, MediaKind::Photo, MetadataSource::Exif, ThumbnailSource::Unsupported),
        ("dng"@, MediaKind::Photo, MetadataSource::Exif, ThumbnailSource::Unsupported),
        ("arw"@, MediaKind::Photo, MetadataSource::Exif, ThumbnailSource::Unsupported),
        ("cr2"@, MediaKind::Photo, MetadataSource::Exif, ThumbnailSource::Unsupported),
        ("cr3"@, MediaKind::Photo, MetadataSource::Exif, ThumbnailSource::Unsupported),
        ("nef"@, MediaKind::Photo, MetadataSource::Exif, ThumbnailSource::Unsupported),
        ("nrw"@, MediaKind::Photo, MetadataSource::Exif, ThumbnailSource::Unsupported),
        ("rw2"@, MediaKind::Photo, MetadataSource::Exif, ThumbnailSource::Unsupported),
        ("raf"@, MediaKind::Photo, MetadataSource::Exif, ThumbnailSource::Unsupported),
        ("orf"@, MediaKind::Photo, MetadataSource::Exif, ThumbnailSource::Unsupported),
        ("pef"@, MediaKind::Photo, MetadataSource::Exif, ThumbnailSource::Unsupported),
        ("srw"@, MediaKind::Photo, MetadataSource::Exif, ThumbnailSource::Unsupported),
        ("3fr"@, MediaKind::Photo, MetadataSource::Exif, ThumbnailSource::Unsupported),
        ("iiq"@, MediaKind::Photo, MetadataSource::Exif, ThumbnailSource::Unsupported),
        ("gpr"@, MediaKind::Photo, MetadataSource::Exif, ThumbnailSource::Unsupported),
        ("insp"@, MediaKind::Photo, MetadataSource::Exif, ThumbnailSource::Unsupported),
        ("wav"@, MediaKind::Audio, MetadataSource::Unsupported, ThumbnailSource::Unsupported),
        ("mp3"@, MediaKind::Audio, MetadataSource::Unsupported, ThumbnailSource::Unsupported),
        ("aac"@, MediaKind::Audio, MetadataSource::Unsupported, ThumbnailSource::Unsupported),
        ("m4a"@, MediaKind::Audio, MetadataSource::Unsupported, ThumbnailSource::Unsupported),
        ("flac"@, MediaKind::Audio, MetadataSource::Unsupported, ThumbnailSource::Unsupported),
        ("aif"@, MediaKind::Audio, MetadataSource::Unsupported, ThumbnailSource::Unsupported),
        ("aiff"@, MediaKind::Audio, MetadataSource::Unsupported, ThumbnailSource::Unsupported),
    ]
}

/// The first row of `t` whose extension is `ext`.
pub open spec fn lookup_in(t: Seq<FormatRow>, ext: Seq<char>) -> Option<FormatRow>
    decreases t.len(),
{
    if t.len() == 0 {
        None
    } else if t[0].0 == ext {
        Some(t[0])
    } else {
        lookup_in(t.drop_first(), ext)
    }
}

pub open spec fn lookup_spec(ext: Seq<char>) -> Option<FormatRow> {
    lookup_in(format_table(), ext)
}

/// The lower-cased extension of a path, empty when it has none.
pub open spec fn lowered_extension(p: Seq<char>) -> Seq<char> {
    match extension(p) {
        Some(e) => unicode_lowercase(e),
        None => Seq::<char>::empty(),
    }
}

pub open spec fn classify_spec(p: Seq<char>) -> Option<FormatRow> {
    lookup_spec(lowered_extension(p))
}

pub open spec fn ascii_lower_or_digit(c: char) -> bool {
    ('a' <= c && c <= 'z') || ('0' <= c && c <= '9')
}

proof fn lemma_lookup_at(t: Seq<FormatRow>, ext: Seq<char>, i: int)
    requires
        0 <= i < t.len(),
        forall|j: int| 0 <= j < i ==> (#[trigger] t[j]).0 != ext,
        t[i].0 == ext,
    ensures
        lookup_in(t, ext) == Some(t[i]),
    decreases i,
{
    if i > 0 {
        let u = t.drop_first();
        assert forall|j: int| 0 <= j < i - 1 implies (#[trigger] u[j]).0 != ext by {
            assert(u[j] == t[j + 1]);
        }
        lemma_lookup_at(u, ext, i - 1);
    }
}

proof fn lemma_lookup_none(t: Seq<FormatRow>, ext: Seq<char>)
    requires
        forall|j: int| 0 <= j < t.len() ==> (#[trigger] t[j]).0 != ext,
    ensures
        lookup_in(t, ext) is None,
    decreases t.len(),
{
    if t.len() > 0 {
        let u = t.drop_first();
        assert forall|j: int| 0 <= j < u.len() implies (#[trigger] u[j]).0 != ext by {
            assert(u[j] == t[j + 1]);
        }
        lemma_lookup_none(u, ext);
    }
}

/// The table lists every extension once, and each is written in lower case
/// (ASCII letters and digits only), so a lower-cased extension finds its row.
pub proof fn lemma_table_is_lowercase_and_distinct()
    ensures
        format_table().len() == 45,
        forall|i: int, j: int|
            0 <= i < j < format_table().len() ==> (#[trigger] format_table()[i]).0
                != (#[trigger] format_table()[j]).0,
        forall|i: int, k: int|
            0 <= i < format_table().len() && 0 <= k < format_table()[i].0.len()
                ==> ascii_lower_or_digit(#[trigger] format_table()[i].0[k]),
{
    reveal_strlit("mp4");
    reveal_strlit("mov");
    reveal_strlit("m4v");
    reveal_strlit("avi");
    reveal_strlit("mkv");
    reveal_strlit("webm");
    reveal_strlit("mxf");
    reveal_strlit("mts");
    reveal_strlit("m2ts");
    reveal_strlit("insv");
    reveal_strlit("3gp");
    reveal_strlit("braw");
    reveal_strlit("r3d");
    reveal_strlit("crm");
    reveal_strlit("jpg");
    reveal_strlit("jpeg");
    reveal_strlit("png");
    reveal_strlit("tif");
    reveal_strlit("tiff");
    reveal_strlit("heic");
    reveal_strlit("heif");
    reveal_strlit("avif");
    reveal_strlit("webp");
    reveal_strlit("dng");
    reveal_strlit("arw");
    reveal_strlit("cr2");
    reveal_strlit("cr3");
    reveal_strlit("nef");
    reveal_strlit("nrw");
    reveal_strlit("rw2");
    reveal_strlit("raf");
    reveal_strlit("orf");
    reveal_strlit("pef");
    reveal_strlit("srw");
    reveal_strlit("3fr");
    reveal_strlit("iiq");
    reveal_strlit("gpr");
    reveal_strlit("insp");
    reveal_strlit("wav");
    reveal_strlit("mp3");
    reveal_strlit("aac");
    reveal_strlit("m4a");
    reveal_strlit("flac");
    reveal_strlit("aif");
    reveal_strlit("aiff");
    let t = format_table();
    assert forall|i: int, j: int| 0 <= i < j < t.len() implies (#[trigger] t[i]).0 != (
    #[trigger] t[j]).0 by {
        if t[i].0 == t[j].0 {
            assert(t[i].0.len() == t[j].0.len());
            assert(t[i].0[0] == t[j].0[0]);
            assert(t[i].0[1] == t[j].0[1]);
            assert(t[i].0[2] == t[j].0[2]);
            if t[i].0.len() == 4 {
                assert(t[i].0[3] == t[j].0[3]);
            }
        }
    }
}

/// Every row is what a lookup of its own extension finds, and a key holding
/// an upper-case ASCII letter finds nothing: lookups take lower-cased
/// extensions.
pub proof fn lemma_lookup_finds_each_row()
    ensures
        forall|i: int| 0 <= i < format_table().len() ==> lookup_spec(#[trigger] format_table()[i].0)
            == Some(format_table()[i]),
        forall|e: Seq<char>, k: int|
            0 <= k < e.len() && 'A' <= #[trigger] e[k] <= 'Z' ==> lookup_spec(e) is None,
{
    lemma_table_is_lowercase_and_distinct();
    let t = format_table();
    assert forall|i: int| 0 <= i < t.len() implies lookup_spec(#[trigger] t[i].0) == Some(t[i]) by {
        assert forall|j: int| 0 <= j < i implies (#[trigger] t[j]).0 != t[i].0 by {}
        lemma_lookup_at(t, t[i].0, i);
    }
    assert forall|e: Seq<char>, k: int| 0 <= k < e.len() && 'A' <= #[trigger] e[k] <= 'Z' implies lookup_spec(
        e,
    ) is None by {
        assert forall|j: int| 0 <= j < t.len() implies (#[trigger] t[j]).0 != e by {
            if t[j].0 == e {
                assert(ascii_lower_or_digit(t[j].0[k]));
            }
        }
        lemma_lookup_none(t, e);
    }
}

/// An extension no row lists.
proof fn lemma_not_listed(ext: Seq<char>)
    requires
        forall|j: int| 0 <= j < format_table().len() ==> (#[trigger] format_table()[j]).0 != ext,
    ensures
        lookup_spec(ext) is None,
{
    lemma_lookup_none(format_table(), ext);
}

/// Partial copies (`part`), camera proxies and thumbnails (`lrv`, `lrf`,
/// `thm`) and files without an extension have no row, so they are never
/// treated as media.
pub proof fn lemma_unlisted_extensions()
    ensures
        lookup_spec(Seq::<char>::empty()) is None,
        lookup_spec("part"@) is None,
        lookup_spec("lrv"@) is None,
        lookup_spec("lrf"@) is None,
        lookup_spec("thm"@) is None,
{
    reveal_strlit("mp4");
    reveal_strlit("mov");
    reveal_strlit("m4v");
    reveal_strlit("avi");
    reveal_strlit("mkv");
    reveal_strlit("webm");
    reveal_strlit("mxf");
    reveal_strlit("mts");
    reveal_strlit("m2ts");
    reveal_strlit("insv");
    reveal_strlit("3gp");
    reveal_strlit("braw");
    reveal_strlit("r3d");
    reveal_strlit("crm");
    reveal_strlit("jpg");
    reveal_strlit("jpeg");
    reveal_strlit("png");
    reveal_strlit("tif");
    reveal_strlit("tiff");
    reveal_strlit("heic");
    reveal_strlit("heif");
    reveal_strlit("avif");
    reveal_strlit("webp");
    reveal_strlit("dng");
    reveal_strlit("arw");
    reveal_strlit("cr2");
    reveal_strlit("cr3");
    reveal_strlit("nef");
    reveal_strlit("nrw");
    reveal_strlit("rw2");
    reveal_strlit("raf");
    reveal_strlit("orf");
    reveal_strlit("pef");
    reveal_strlit("srw");
    reveal_strlit("3fr");
    reveal_strlit("iiq");
    reveal_strlit("gpr");
    reveal_strlit("insp");
    reveal_strlit("wav");
    reveal_strlit("mp3");
    reveal_strlit("aac");
    reveal_strlit("m4a");
    reveal_strlit("flac");
    reveal_strlit("aif");
    reveal_strlit("aiff");
    reveal_strlit("part");
    reveal_strlit("lrv");
    reveal_strlit("lrf");
    reveal_strlit("thm");
    let t = format_table();
    assert forall|j: int| 0 <= j < t.len() implies (#[trigger] t[j]).0 != Seq::<char>::empty() by {
        assert(t[j].0.len() >= 3);
    }
    assert forall|j: int| 0 <= j < t.len() implies (#[trigger] t[j]).0 != "part"@ by {
        if t[j].0 == "part"@ {
            assert(t[j].0.len() == 4);
            assert(t[j].0[0] == 'p');
            assert(t[j].0[1] == 'a');
            assert(t[j].0[2] == 'r');
        }
    }
    assert forall|j: int| 0 <= j < t.len() implies (#[trigger] t[j]).0 != "lrv"@ by {
        if t[j].0 == "lrv"@ {
            assert(t[j].0[0] == 'l');
        }
    }
    assert forall|j: int| 0 <= j < t.len() implies (#[trigger] t[j]).0 != "lrf"@ by {
        if t[j].0 == "lrf"@ {
            assert(t[j].0[0] == 'l');
        }
    }
    assert forall|j: int| 0 <= j < t.len() implies (#[trigger] t[j]).0 != "thm"@ by {
        if t[j].0 == "thm"@ {
            assert(t[j].0[0] == 't');
            assert(t[j].0[1] == 'h');
        }
    }
    lemma_not_listed(Seq::<char>::empty());
    lemma_not_listed("part"@);
    lemma_not_listed("lrv"@);
    lemma_not_listed("lrf"@);
    lemma_not_listed("thm"@);
}

/// The table, in order.
pub fn media_formats() -> (v: Vec<MediaFormat>)
    ensures
        v@.len() == format_table().len(),
        forall|i: int| 0 <= i < v@.len() ==> row_of(#[trigger] v@[i]) == format_table()[i],
{
    let mut v: Vec<MediaFormat> = Vec::new();
    v.push(MediaFormat { extension: "mp4", kind: MediaKind::Video, metadata: MetadataSource::Container, thumbnail: ThumbnailSource::VideoFrame });
    v.push(MediaFormat { extension: "mov", kind: MediaKind::Video, metadata: MetadataSource::Container, thumbnail: ThumbnailSource::VideoFrame });
    v.push(MediaFormat { extension: "m4v", kind: MediaKind::Video, metadata: MetadataSource::Container, thumbnail: ThumbnailSource::VideoFrame });
    v.push(MediaFormat { extension: "avi", kind: MediaKind::Video, metadata: MetadataSource::Container, thumbnail: ThumbnailSource::VideoFrame });
    v.push(MediaFormat { extension: "mkv", kind: MediaKind::Video, metadata: MetadataSource::Container, thumbnail: ThumbnailSource::VideoFrame });
    v.push(MediaFormat { extension: "webm", kind: MediaKind::Video, metadata: MetadataSource::Container, thumbnail: ThumbnailSource::VideoFrame });
    // Broadcast and cinema: Sony XDCAM, Canon XF, Panasonic P2.
    v.push(MediaFormat { extension: "mxf", kind: MediaKind::Video, metadata: MetadataSource::Container, thumbnail: ThumbnailSource::VideoFrame });
    // AVCHD, still produced by Sony and Panasonic camcorders.
    v.push(MediaFormat { extension: "mts", kind: MediaKind::Video, metadata: MetadataSource::Container, thumbnail: ThumbnailSource::VideoFrame });
    v.push(MediaFormat { extension: "m2ts", kind: MediaKind::Video, metadata: MetadataSource::Container, thumbnail: ThumbnailSource::VideoFrame });
    // Insta360 360-degree video, an MP4 variant the container reader handles.
    v.push(MediaFormat { extension: "insv", kind: MediaKind::Video, metadata: MetadataSource::Container, thumbnail: ThumbnailSource::VideoFrame });
    v.push(MediaFormat { extension: "3gp", kind: MediaKind::Video, metadata: MetadataSource::Container, thumbnail: ThumbnailSource::VideoFrame });
    // Camera raw video: neither metadata nor a frame can be read without vendor SDKs, but these are video.
    v.push(MediaFormat { extension: "braw", kind: MediaKind::Video, metadata: MetadataSource::Unsupported, thumbnail: ThumbnailSource::Unsupported });
    v.push(MediaFormat { extension: "r3d", kind: MediaKind::Video, metadata: MetadataSource::Unsupported, thumbnail: ThumbnailSource::Unsupported });
    v.push(MediaFormat { extension: "crm", kind: MediaKind::Video, metadata: MetadataSource::Unsupported, thumbnail: ThumbnailSource::Unsupported });
    v.push(MediaFormat { extension: "jpg", kind: MediaKind::Photo, metadata: MetadataSource::Exif, thumbnail: ThumbnailSource::Image });
    v.push(MediaFormat { extension: "jpeg", kind: MediaKind::Photo, metadata: MetadataSource::Exif, thumbnail: ThumbnailSource::Image });
    v.push(MediaFormat { extension: "png", kind: MediaKind::Photo, metadata: MetadataSource::Exif, thumbnail: ThumbnailSource::Image });
    v.push(MediaFormat { extension: "tif", kind: MediaKind::Photo, metadata: MetadataSource::Exif, thumbnail: ThumbnailSource::Unsupported });
    v.push(MediaFormat { extension: "tiff", kind: MediaKind::Photo, metadata: MetadataSource::Exif, thumbnail: ThumbnailSource::Unsupported });
    // Apple's default stills format since iOS 11.
    v.push(MediaFormat { extension: "heic", kind: MediaKind::Photo, metadata: MetadataSource::Exif, thumbnail: ThumbnailSource::Unsupported });
    v.push(MediaFormat { extension: "heif", kind: MediaKind::Photo, metadata: MetadataSource::Exif, thumbnail: ThumbnailSource::Unsupported });
    v.push(MediaFormat { extension: "avif", kind: MediaKind::Photo, metadata: MetadataSource::Exif, thumbnail: ThumbnailSource::Unsupported });
    v.push(MediaFormat { extension: "webp", kind: MediaKind::Photo, metadata: MetadataSource::Exif, thumbnail: ThumbnailSource::Unsupported });
    // Adobe, Leica, DJI, and the raw format GoPro derives from.
    v.push(MediaFormat { extension: "dng", kind: MediaKind::Photo, metadata: MetadataSource::Exif, thumbnail: ThumbnailSource::Unsupported });
    // Sony
    v.push(MediaFormat { extension: "arw", kind: MediaKind::Photo, metadata: MetadataSource::Exif, thumbnail: ThumbnailSource::Unsupported });
    // Canon, before 2018
    v.push(MediaFormat { extension: "cr2", kind: MediaKind::Photo, metadata: MetadataSource::Exif, thumbnail: ThumbnailSource::Unsupported });
    // Canon R and M series
    v.push(MediaFormat { extension: "cr3", kind: MediaKind::Photo, metadata: MetadataSource::Exif, thumbnail: ThumbnailSource::Unsupported });
    // Nikon
    v.push(MediaFormat { extension: "nef", kind: MediaKind::Photo, metadata: MetadataSource::Exif, thumbnail: ThumbnailSource::Unsupported });
    // Nikon compacts
    v.push(MediaFormat { extension: "nrw", kind: MediaKind::Photo, metadata: MetadataSource::Exif, thumbnail: ThumbnailSource::Unsupported });
    // Panasonic Lumix
    v.push(MediaFormat { extension: "rw2", kind: MediaKind::Photo, metadata: MetadataSource::Exif, thumbnail: ThumbnailSource::Unsupported });
    // Fujifilm
    v.push(MediaFormat { extension: "raf", kind: MediaKind::Photo, metadata: MetadataSource::Exif, thumbnail: ThumbnailSource::Unsupported });
    // OM System, Olympus
    v.push(MediaFormat { extension: "orf", kind: MediaKind::Photo, metadata: MetadataSource::Exif, thumbnail: ThumbnailSource::Unsupported });
    // Pentax
    v.push(MediaFormat { extension: "pef", kind: MediaKind::Photo, metadata: MetadataSource::Exif, thumbnail: ThumbnailSource::Unsupported });
    // Samsung
    v.push(MediaFormat { extension: "srw", kind: MediaKind::Photo, metadata: MetadataSource::Exif, thumbnail: ThumbnailSource::Unsupported });
    // Hasselblad
    v.push(MediaFormat { extension: "3fr", kind: MediaKind::Photo, metadata: MetadataSource::Exif, thumbnail: ThumbnailSource::Unsupported });
    // Phase One
    v.push(MediaFormat { extension: "iiq", kind: MediaKind::Photo, metadata: MetadataSource::Exif, thumbnail: ThumbnailSource::Unsupported });
    // GoPro raw, DNG-based
    v.push(MediaFormat { extension: "gpr", kind: MediaKind::Photo, metadata: MetadataSource::Exif, thumbnail: ThumbnailSource::Unsupported });
    // Insta360 360-degree still
    v.push(MediaFormat { extension: "insp", kind: MediaKind::Photo, metadata: MetadataSource::Exif, thumbnail: ThumbnailSource::Unsupported });
    // External recorders and wireless mics are part of the same shoot.
    v.push(MediaFormat { extension: "wav", kind: MediaKind::Audio, metadata: MetadataSource::Unsupported, thumbnail: ThumbnailSource::Unsupported });
    v.push(MediaFormat { extension: "mp3", kind: MediaKind::Audio, metadata: MetadataSource::Unsupported, thumbnail: ThumbnailSource::Unsupported });
    v.push(MediaFormat { extension: "aac", kind: MediaKind::Audio, metadata: MetadataSource::Unsupported, thumbnail: ThumbnailSource::Unsupported });
    v.push(MediaFormat { extension: "m4a", kind: MediaKind::Audio, metadata: MetadataSource::Unsupported, thumbnail: ThumbnailSource::Unsupported });
    v.push(MediaFormat { extension: "flac", kind: MediaKind::Audio, metadata: MetadataSource::Unsupported, thumbnail: ThumbnailSource::Unsupported });
    v.push(MediaFormat { extension: "aif", kind: MediaKind::Audio, metadata: MetadataSource::Unsupported, thumbnail: ThumbnailSource::Unsupported });
    v.push(MediaFormat { extension: "aiff", kind: MediaKind::Audio, metadata: MetadataSource::Unsupported, thumbnail: ThumbnailSource::Unsupported });
    assert(v@.map_values(|f: MediaFormat| row_of(f)) =~= format_table());
    assert forall|i: int| 0 <= i < v@.len() implies row_of(#[trigger] v@[i]) == format_table()[i] by {
        assert(v@.map_values(|f: MediaFormat| row_of(f))[i] == row_of(v@[i]));
    }
    v
}

/// Look up an already lower-cased extension (no leading dot).
pub fn lookup(extension: &str) -> (r: Option<MediaFormat>)
    ensures
        match r {
            Some(f) => lookup_spec(extension@) == Some(row_of(f)),
            None => lookup_spec(extension@) is None,
        },
{
    let ext = chars_of(extension);
    lookup_chars(&ext)
}

pub fn lookup_chars(ext: &[char]) -> (r: Option<MediaFormat>)
    ensures
        match r {
            Some(f) => lookup_spec(ext@) == Some(row_of(f)),
            None => lookup_spec(ext@) is None,
        },
{
    let table = media_formats();
    let mut i: usize = 0;
    while i < table.len()
        invariant
            table@.len() == format_table().len(),
            forall|k: int| 0 <= k < table@.len() ==> row_of(#[trigger] table@[k]) == format_table()[k],
            i <= table@.len(),
            forall|j: int| 0 <= j < i ==> (#[trigger] format_table()[j]).0 != ext@,
        decreases table@.len() - i,
    {
        let f = table[i];
        assert(row_of(table@[i as int]) == format_table()[i as int]);
        if chars_eq_str(ext, f.extension) {
            proof {
                lemma_lookup_at(format_table(), ext@, i as int);
            }
            return Some(f);
        }
        i = i + 1;
    }
    proof {
        lemma_lookup_none(format_table(), ext@);
    }
    None
}

/// Lower-cased extension of `path` without the dot, or `""` when it has none.
pub fn extension_of(path: &str) -> (r: String)
    ensures
        r@ == lowered_extension(path@),
        extension(path@) matches Some(e) ==> (is_ascii_text(e) ==> r@ == ascii_lowered(e)),
{
    let cs = chars_of(path);
    match extension_of_chars(&cs) {
        Some(e) => {
            let l = lowercase_chars(&e);
            string_from(&l)
        },
        None => String::new(),
    }
}

/// Classify a path by its extension. `None` means "not a media file".
pub fn classify(path: &str) -> (r: Option<MediaFormat>)
    ensures
        match r {
            Some(f) => classify_spec(path@) == Some(row_of(f)),
            None => classify_spec(path@) is None,
        },
        extension(path@) matches Some(e) ==> (is_ascii_text(e) ==> lowered_extension(path@)
            == ascii_lowered(e)),
{
    let e = extension_of(path);
    lookup(e.as_str())
}

} // verus!
