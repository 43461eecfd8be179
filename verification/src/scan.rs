//! Scanning a source: which folders are walked, which files are media and
//! of which kind, how a scanned file is recorded, and the summary of what a
//! source holds. Walking the disk and reading metadata is the caller's part.
use vstd::prelude::*;
use crate::formats::{
    classify, classify_spec, kind_name, lemma_unlisted_extensions, lookup_spec, lowered_extension,
    MediaKind,
};
use crate::metadata::{capture_date_or_filename, first_stamp, opt_view};
use crate::paths::{dot, extension, file_name, file_name_of, lemma_extension_of_suffix};
use crate::text::{
    char_is_alphanumeric, chars_eq_str, chars_of, contains_chars, contains_text, find_first,
    first_index_of, is_alphanumeric, lowercase_chars, slice_range, string_from, unicode_lowercase,
    ascii_lowered, is_blank, trim,
};
use crate::types::{DestInfo, ScannedFile, SourcePath, SourceScanResult};

verus! {

/// The platform the library runs on, where a rule depends on it.
#[derive(Debug, Clone, Copy, PartialEq, Eq, Structural)]
pub enum HostOs {
    MacOs,
    Windows,
    Other,
}

pub open spec fn starts_with(s: Seq<char>, pre: Seq<char>) -> bool {
    pre.len() <= s.len() && s.take(pre.len() as int) == pre
}

fn starts_with_str(s: &[char], pre: &str) -> (r: bool)
    ensures
        r == starts_with(s@, pre@),
{
    let p = chars_of(pre);
    if p.len() > s.len() {
        return false;
    }
    let head = slice_range(s, 0, p.len());
    assert(head@ == s@.take(p@.len() as int));
    crate::text::chars_eq(&head, &p)
}

// ---------------------------------------------------------------------------
// Source labels.
// ---------------------------------------------------------------------------

/// On macOS, cards and external drives mount at `/Volumes/<NAME>`; that name
/// is the volume label the user sees.
pub open spec fn volume_name(path: Seq<char>) -> Option<Seq<char>> {
    let pre = "/Volumes/"@;
    if starts_with(path, pre) {
        let rest = path.skip(pre.len() as int);
        let name = rest.take(first_index_of(rest, '/'));
        if name.len() > 0 {
            Some(name)
        } else {
            None
        }
    } else {
        None
    }
}

/// The letters and digits of a string, in order.
pub open spec fn alnum_only(s: Seq<char>) -> Seq<char>
    decreases s.len(),
{
    if s.len() == 0 {
        Seq::empty()
    } else {
        alnum_only(s.drop_last()) + if char_is_alphanumeric(s.last()) {
            seq![s.last()]
        } else {
            Seq::empty()
        }
    }
}

/// The label for a source root: on macOS a volume's name; otherwise the
/// last component of the path; for a bare root such as `/` or `D:\` its
/// letters and digits; `UnknownSource` when nothing is left.
pub open spec fn source_label_spec(path: Seq<char>, os: HostOs) -> Seq<char> {
    match (if os == HostOs::MacOs {
        volume_name(path)
    } else {
        None
    }) {
        Some(v) => v,
        None => match file_name(path) {
            Some(n) => n,
            None => if alnum_only(path).len() > 0 {
                alnum_only(path)
            } else {
                "UnknownSource"@
            },
        },
    }
}

/// Human-readable label for a source root: a card, drive or folder.
///
/// This expects the source root, not a path to a file inside it: a file
/// path yields the file's own name, which is never a useful device name.
pub fn get_source_label(path: &str, os: HostOs) -> (r: String)
    ensures
        r@ == source_label_spec(path@, os),
{
    let cs = chars_of(path);
    if os == HostOs::MacOs && starts_with_str(&cs, "/Volumes/") {
        proof {
            reveal_strlit("/Volumes/");
        }
        let rest = slice_range(&cs, 9, cs.len());
        let k = find_first(&rest, '/');
        proof {
            crate::text::lemma_first_index_of(rest@, '/');
        }
        let name = slice_range(&rest, 0, k);
        assert(rest@ == cs@.skip(9));
        assert(name@ == rest@.take(k as int));
        if name.len() > 0 {
            return string_from(&name);
        }
    }
    proof {
        reveal_strlit("/Volumes/");
    }
    match file_name_of(&cs) {
        Some(n) => string_from(&n),
        None => {
            let mut kept: Vec<char> = Vec::new();
            let mut i: usize = 0;
            while i < cs.len()
                invariant
                    i <= cs@.len(),
                    kept@ == alnum_only(cs@.take(i as int)),
                decreases cs@.len() - i,
            {
                proof {
                    assert(cs@.take(i + 1).drop_last() =~= cs@.take(i as int));
                    assert(cs@.take(i + 1).last() == cs@[i as int]);
                }
                let c = cs[i];
                if is_alphanumeric(c) {
                    kept.push(c);
                    proof {
                        assert(kept@ =~= alnum_only(cs@.take(i as int)) + seq![c]);
                    }
                } else {
                    proof {
                        assert(kept@ =~= alnum_only(cs@.take(i as int)) + Seq::<char>::empty());
                    }
                }
                i = i + 1;
            }
            assert(cs@.take(cs@.len() as int) =~= cs@);
            if kept.len() > 0 {
                string_from(&kept)
            } else {
                String::from_str("UnknownSource")
            }
        },
    }
}

/// The label files from a source are filed under when they name no device:
/// the label the user gave it, unless blank, otherwise the one its path gives.
pub open spec fn source_label_of(source: SourcePath, os: HostOs) -> Seq<char> {
    if trim(source.label@).len() == 0 {
        source_label_spec(source.path@, os)
    } else {
        source.label@
    }
}

pub fn source_label(source: &SourcePath, os: HostOs) -> (r: String)
    ensures
        r@ == source_label_of(*source, os),
{
    let lc = chars_of(source.label.as_str());
    if is_blank(&lc) {
        get_source_label(source.path.as_str(), os)
    } else {
        string_from(&lc)
    }
}

// ---------------------------------------------------------------------------
// Which folders are walked.
// ---------------------------------------------------------------------------

/// Hidden folders: names starting with a dot, as macOS writes on every card
/// (`.Spotlight-V100`, `.Trashes`, `.fseventsd`).
pub open spec fn is_hidden(name: Seq<char>) -> bool {
    name.len() > 0 && name[0] == '.'
}

/// The folders Windows keeps on every volume for itself.
pub open spec fn is_system_dir(name: Seq<char>) -> bool {
    let l = unicode_lowercase(name);
    l == "system volume information"@ || l == "$recycle.bin"@
}

/// A folder name matches an exclusion when, lower-cased, it contains the
/// lower-cased exclusion.
pub open spec fn is_excluded(name: Seq<char>, exclusions: Seq<String>) -> bool {
    exists|k: int|
        0 <= k < exclusions.len() && contains_text(
            unicode_lowercase(name),
            unicode_lowercase((#[trigger] exclusions[k])@),
        )
}

pub open spec fn descend_spec(name: Seq<char>, exclusions: Seq<String>) -> bool {
    !is_hidden(name) && !is_system_dir(name) && !is_excluded(name, exclusions)
}

/// Whether the scan goes into a folder below the source root: hidden and
/// system folders are skipped, and so is any folder the source excludes.
pub fn should_descend(dir_name: &str, exclusions: &[String]) -> (r: bool)
    ensures
        r == descend_spec(dir_name@, exclusions@),
{
    let cs = chars_of(dir_name);
    if cs.len() > 0 && cs[0] == '.' {
        return false;
    }
    let lower = lowercase_chars(&cs);
    if chars_eq_str(&lower, "system volume information") || chars_eq_str(&lower, "$recycle.bin") {
        return false;
    }
    let mut k: usize = 0;
    while k < exclusions.len()
        invariant
            k <= exclusions@.len(),
            lower@ == unicode_lowercase(dir_name@),
            forall|j: int|
                0 <= j < k ==> !contains_text(
                    unicode_lowercase(dir_name@),
                    unicode_lowercase((#[trigger] exclusions@[j])@),
                ),
        decreases exclusions@.len() - k,
    {
        let e = chars_of(exclusions[k].as_str());
        let el = lowercase_chars(&e);
        if contains_chars(&lower, &el) {
            return false;
        }
        k = k + 1;
    }
    true
}

// ---------------------------------------------------------------------------
// Which files are media.
// ---------------------------------------------------------------------------

/// macOS writes an AppleDouble stub, `._NAME`, beside a file on a volume
/// that cannot hold its extended attributes. It carries the real file's
/// extension but is a few kilobytes of metadata, not media.
pub open spec fn is_apple_double(name: Seq<char>) -> bool {
    name.len() >= 2 && name[0] == '.' && name[1] == '_'
}

/// The kind a file is scanned as, by the format table: none for an
/// AppleDouble stub or for a file the table does not list.
pub open spec fn scan_kind_spec(path: Seq<char>) -> Option<MediaKind> {
    if file_name(path) matches Some(n) && is_apple_double(n) {
        None
    } else {
        match classify_spec(path) {
            Some(row) => Some(row.1),
            None => None,
        }
    }
}

/// A partial copy: a path ending in `.part`, the name a transfer writes to
/// until the copy is verified.
pub open spec fn is_partial_copy(p: Seq<char>) -> bool {
    p.len() >= 5 && p.skip(p.len() - 5) == ".part"@
}

/// The kind a file is scanned as. A partial copy left behind by an
/// interrupted transfer is never media.
pub fn scan_kind(path: &str) -> (r: Option<MediaKind>)
    ensures
        r == scan_kind_spec(path@),
        is_partial_copy(path@) ==> r is None,
{
    let cs = chars_of(path);
    match file_name_of(&cs) {
        Some(n) => {
            if n.len() >= 2 && n[0] == '.' && n[1] == '_' {
                return None;
            }
        },
        None => {},
    }
    let c = classify(path);
    proof {
        if is_partial_copy(path@) {
            let ext = "part"@;
            reveal_strlit("part");
            reveal_strlit(".part");
            let pre = path@.take(path@.len() - 5);
            assert(".part"@ =~= dot() + ext);
            assert(path@ =~= pre + path@.skip(path@.len() - 5));
            assert(path@ == pre + dot() + ext);
            lemma_extension_of_suffix(pre, ext);
            lemma_unlisted_extensions();
            if extension(path@) == Some(ext) {
                assert(ascii_lowered(ext) =~= ext);
                assert(lowered_extension(path@) == ext);
            }
            assert(lookup_spec(lowered_extension(path@)) is None);
        }
    }
    match c {
        Some(f) => Some(f.kind),
        None => None,
    }
}

// ---------------------------------------------------------------------------
// Recording a scanned file.
// ---------------------------------------------------------------------------

/// A moment given as whole seconds since the Unix epoch, rendered in UTC as
/// `%Y-%m-%dT%H:%M:%S` by chrono; `None` outside the range chrono covers.
pub uninterp spec fn utc_text(secs: i64) -> Option<Seq<char>>;

/// Calls `chrono::DateTime::from_timestamp` and formats the result with
/// `%Y-%m-%dT%H:%M:%S`. Claimed: the result is `utc_text` of the seconds,
/// which depend on nothing else (the zone is UTC), and it is present for
/// every moment within some ten thousand years of the epoch: chrono refuses
/// only moments more than about 262,000 years from the common era.
#[verifier::external_body]
pub(crate) fn format_utc(secs: i64) -> (r: Option<String>)
    ensures
        opt_view(r) == utc_text(secs),
        -100_000_000_000 <= secs <= 300_000_000_000 ==> r is Some,
{
    chrono::DateTime::from_timestamp(secs, 0).map(|d| d.format("%Y-%m-%dT%H:%M:%S").to_string())
}

pub open spec fn name_or_empty(path: Seq<char>) -> Seq<char> {
    match file_name(path) {
        Some(n) => n,
        None => Seq::empty(),
    }
}

/// The record of a media file: its path and name, its size, its modified
/// and created times in UTC, the capture date its metadata gives or else the
/// stamp in its name, the device its metadata names, and its kind. `None`
/// only when the modified time is outside the range that can be rendered.
pub fn scanned_file(
    path: &str,
    size: u64,
    modified_secs: i64,
    created_secs: Option<i64>,
    metadata: (Option<String>, Option<String>),
    kind: MediaKind,
) -> (r: Option<ScannedFile>)
    ensures
        r is Some <==> utc_text(modified_secs) is Some,
        match r {
            Some(f) => {
                &&& f.path@ == path@
                &&& f.name@ == name_or_empty(path@)
                &&& f.size == size
                &&& Some(f.modified@) == utc_text(modified_secs)
                &&& opt_view(f.created) == match created_secs {
                    Some(c) => utc_text(c),
                    None => None,
                }
                &&& opt_view(f.capture_date) == match metadata.0 {
                    Some(d) => Some(d@),
                    None => first_stamp(name_or_empty(path@), 0),
                }
                &&& f.device_name == metadata.1
                &&& f.file_type@ == kind_name(kind)
                &&& f.hash is None
            },
            None => true,
        },
{
    let modified = match format_utc(modified_secs) {
        Some(m) => m,
        None => {
            return None;
        },
    };
    let created = match created_secs {
        Some(c) => format_utc(c),
        None => None,
    };
    let cs = chars_of(path);
    let name = match file_name_of(&cs) {
        Some(n) => string_from(&n),
        None => String::new(),
    };
    let (meta_date, meta_device) = metadata;
    let capture_date = capture_date_or_filename(meta_date, name.as_str());
    Some(
        ScannedFile {
            path: string_from(&cs),
            name,
            size,
            modified,
            created,
            capture_date,
            device_name: meta_device,
            file_type: String::from_str(kind.as_str()),
            hash: None,
        },
    )
}

// ---------------------------------------------------------------------------
// What a source holds.
// ---------------------------------------------------------------------------

/// One file met while walking a source: not media, or media of a kind with
/// its record (`None` when its details could not be read, in which case it
/// is counted but not listed).
#[derive(Debug, Clone)]
pub enum ScanEntry {
    Other,
    Media(MediaKind, Option<ScannedFile>),
}

pub open spec fn count_kind(entries: Seq<ScanEntry>, k: MediaKind) -> nat
    decreases entries.len(),
{
    if entries.len() == 0 {
        0
    } else {
        count_kind(entries.drop_last(), k) + match entries.last() {
            ScanEntry::Media(kk, _) => if kk == k {
                1nat
            } else {
                0nat
            },
            ScanEntry::Other => 0nat,
        }
    }
}

pub open spec fn count_other(entries: Seq<ScanEntry>) -> nat
    decreases entries.len(),
{
    if entries.len() == 0 {
        0
    } else {
        count_other(entries.drop_last()) + match entries.last() {
            ScanEntry::Other => 1nat,
            _ => 0nat,
        }
    }
}

/// The records listed, in the order met.
pub open spec fn listed_files(entries: Seq<ScanEntry>) -> Seq<ScannedFile>
    decreases entries.len(),
{
    if entries.len() == 0 {
        Seq::empty()
    } else {
        listed_files(entries.drop_last()) + match entries.last() {
            ScanEntry::Media(_, Some(f)) => seq![f],
            _ => Seq::empty(),
        }
    }
}

/// Bytes of the records listed.
pub open spec fn listed_bytes(entries: Seq<ScanEntry>) -> nat
    decreases entries.len(),
{
    if entries.len() == 0 {
        0
    } else {
        listed_bytes(entries.drop_last()) + match entries.last() {
            ScanEntry::Media(_, Some(f)) => f.size as nat,
            _ => 0nat,
        }
    }
}

fn copy_scanned_file(f: &ScannedFile) -> (r: ScannedFile)
    ensures
        r == *f,
{
    ScannedFile {
        path: f.path.clone(),
        name: f.name.clone(),
        size: f.size,
        modified: f.modified.clone(),
        created: crate::logging::clone_opt(&f.created),
        capture_date: crate::logging::clone_opt(&f.capture_date),
        device_name: crate::logging::clone_opt(&f.device_name),
        file_type: f.file_type.clone(),
        hash: crate::logging::clone_opt(&f.hash),
    }
}

/// The scan result for a source from what was met walking it.
pub fn summarize_scan(source: SourcePath, entries: Vec<ScanEntry>) -> (r: SourceScanResult)
    requires
        listed_bytes(entries@) <= u64::MAX,
    ensures
        r.source == source,
        r.files@ == listed_files(entries@),
        r.total_size == listed_bytes(entries@),
        r.video_count == count_kind(entries@, MediaKind::Video),
        r.photo_count == count_kind(entries@, MediaKind::Photo),
        r.audio_count == count_kind(entries@, MediaKind::Audio),
        r.other_count == count_other(entries@),
{
    let ghost all = entries@;
    let mut files: Vec<ScannedFile> = Vec::new();
    let mut total: u64 = 0;
    let mut video: usize = 0;
    let mut photo: usize = 0;
    let mut audio: usize = 0;
    let mut other: usize = 0;
    let mut i: usize = 0;
    assert(files@ =~= listed_files(all.take(0)));
    while i < entries.len()
        invariant
            i <= all.len(),
            all == entries@,
            files@ == listed_files(all.take(i as int)),
            total == listed_bytes(all.take(i as int)),
            video == count_kind(all.take(i as int), MediaKind::Video),
            photo == count_kind(all.take(i as int), MediaKind::Photo),
            audio == count_kind(all.take(i as int), MediaKind::Audio),
            other == count_other(all.take(i as int)),
            video + photo + audio + other <= i,
            listed_bytes(all) <= u64::MAX,
        decreases all.len() - i,
    {
        proof {
            assert(all.take(i + 1).drop_last() =~= all.take(i as int));
            assert(all.take(i + 1).last() == all[i as int]);
            lemma_listed_bytes_prefix(all, i + 1);
        }
        match &entries[i] {
            ScanEntry::Other => {
                other = other + 1;
            },
            ScanEntry::Media(k, f) => {
                match k {
                    MediaKind::Video => {
                        video = video + 1;
                    },
                    MediaKind::Photo => {
                        photo = photo + 1;
                    },
                    MediaKind::Audio => {
                        audio = audio + 1;
                    },
                }
                match f {
                    Some(file) => {
                        total = total + file.size;
                        files.push(copy_scanned_file(file));
                        proof {
                            assert(files@ =~= listed_files(all.take(i as int)) + seq![*file]);
                        }
                    },
                    None => {
                        assert(files@ =~= listed_files(all.take(i as int)) + Seq::<ScannedFile>::empty());
                    },
                }
            },
        }
        i = i + 1;
    }
    assert(all.take(all.len() as int) =~= all);
    SourceScanResult {
        source,
        files,
        total_size: total,
        video_count: video,
        photo_count: photo,
        audio_count: audio,
        other_count: other,
    }
}

proof fn lemma_listed_bytes_prefix(s: Seq<ScanEntry>, n: int)
    requires
        0 <= n <= s.len(),
    ensures
        listed_bytes(s.take(n)) <= listed_bytes(s),
    decreases s.len(),
{
    if n < s.len() {
        assert(s.drop_last().take(n) =~= s.take(n));
        lemma_listed_bytes_prefix(s.drop_last(), n);
    } else {
        assert(s.take(n) =~= s);
    }
}

// ---------------------------------------------------------------------------
// The destination.
// ---------------------------------------------------------------------------

/// Whether a chosen library location can be written: an existing one when
/// its permissions are not read-only, a new one when its parent exists and
/// is not read-only. Permissions that could not be read count as read-only.
pub open spec fn writable_spec(
    exists: bool,
    readonly: Option<bool>,
    parent: Option<(bool, Option<bool>)>,
) -> bool {
    if exists {
        readonly == Some(false)
    } else {
        match parent {
            Some((parent_exists, parent_readonly)) => parent_exists && parent_readonly == Some(
                false,
            ),
            None => false,
        }
    }
}

/// What is known about a chosen library location, from what was read of it
/// and of its parent: `readonly` is its permissions' read-only flag when
/// they could be read, `parent` whether its parent exists and the same flag
/// for the parent (`None` when the path has no parent), `free_space` the
/// free bytes when they could be read.
pub fn destination_info(
    path: &str,
    exists: bool,
    readonly: Option<bool>,
    parent: Option<(bool, Option<bool>)>,
    free_space: Option<u64>,
) -> (r: DestInfo)
    ensures
        r.path@ == path@,
        r.exists == exists,
        r.writable == writable_spec(exists, readonly, parent),
        r.free_space == match free_space {
            Some(n) => n,
            None => 0,
        },
{
    let writable = if exists {
        match readonly {
            Some(ro) => !ro,
            None => false,
        }
    } else {
        match parent {
            Some((pe, pro)) => pe && match pro {
                Some(ro) => !ro,
                None => false,
            },
            None => false,
        }
    };
    DestInfo {
        path: string_from(&chars_of(path)),
        exists,
        writable,
        free_space: match free_space {
            Some(n) => n,
            None => 0,
        },
    }
}

} // verus!
