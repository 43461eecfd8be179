//! Capture dates and device names: what EXIF and container tags say, and
//! what a camera's file name says when they say nothing.
use vstd::prelude::*;
use crate::formats::{classify, classify_spec, MetadataSource};
use crate::scan::{format_utc, utc_text};
use crate::text::{
    all_digit_chars, all_digits, chars_of, contains_chars, contains_text, digits_value,
    first_index_of, find_first, is_blank, is_digit, is_digit_char, lowercase_chars,
    push_all, slice_range, small_digits_value, string_from, trim, trim_chars, trim_matches,
    trim_matches_chars, unicode_lowercase,
};

verus! {

// ---------------------------------------------------------------------------
// EXIF date and time.
// ---------------------------------------------------------------------------

/// `c`, with `:` turned into `-`.
pub open spec fn colon_to_dash(c: char) -> char {
    if c == ':' {
        '-'
    } else {
        c
    }
}

/// An EXIF `YYYY:MM:DD HH:MM:SS` value as `YYYY-MM-DDTHH:MM:SS`: the text
/// must split on spaces into exactly two parts; colons in the first part
/// become dashes, and the parts are joined with `T`.
pub open spec fn exif_datetime_spec(s: Seq<char>) -> Option<Seq<char>> {
    let k = first_index_of(s, ' ');
    if k < s.len() && !s.skip(k + 1).contains(' ') {
        Some(s.take(k).map_values(|c: char| colon_to_dash(c)) + seq!['T'] + s.skip(k + 1))
    } else {
        None
    }
}

pub fn parse_exif_datetime(s: &str) -> (r: Option<String>)
    ensures
        match r {
            Some(t) => exif_datetime_spec(s@) == Some(t@),
            None => exif_datetime_spec(s@) is None,
        },
{
    let cs = chars_of(s);
    let k = find_first(&cs, ' ');
    proof {
        crate::text::lemma_first_index_of(cs@, ' ');
    }
    if k >= cs.len() {
        return None;
    }
    let rest = slice_range(&cs, k + 1, cs.len());
    let k2 = find_first(&rest, ' ');
    proof {
        crate::text::lemma_first_index_of(rest@, ' ');
        assert(rest@ == cs@.skip(k + 1));
        if k2 < rest@.len() {
            assert(rest@.contains(' '));
        } else {
            assert(!rest@.contains(' '));
        }
    }
    if k2 < rest.len() {
        return None;
    }
    let mut out: Vec<char> = Vec::new();
    let mut i: usize = 0;
    while i < k
        invariant
            i <= k < cs@.len(),
            out@ == cs@.take(i as int).map_values(|c: char| colon_to_dash(c)),
        decreases k - i,
    {
        let c = cs[i];
        out.push(if c == ':' { '-' } else { c });
        proof {
            assert(cs@.take(i + 1) == cs@.take(i as int).push(c));
        }
        i = i + 1;
    }
    out.push('T');
    push_all(&mut out, &rest);
    Some(string_from(&out))
}

/// `clean_exif_string`: white space and quote marks trimmed from both ends.
pub open spec fn clean_exif_spec(s: Seq<char>) -> Seq<char> {
    trim(trim_matches(trim(s), '"'))
}

pub fn clean_exif_string(s: &str) -> (r: String)
    ensures
        r@ == clean_exif_spec(s@),
{
    let cs = chars_of(s);
    let a = trim_chars(&cs);
    let b = trim_matches_chars(&a, '"');
    let c = trim_chars(&b);
    string_from(&c)
}

/// A device name from EXIF Make and Model: the model alone when it already
/// names the maker (ignoring case), otherwise "Make Model".
pub open spec fn make_model_spec(make: Option<Seq<char>>, model: Option<Seq<char>>) -> Option<
    Seq<char>,
> {
    match (make, model) {
        (Some(mk), Some(md)) => if contains_text(unicode_lowercase(md), unicode_lowercase(mk)) {
            Some(md)
        } else {
            Some(mk + seq![' '] + md)
        },
        (Some(mk), None) => Some(mk),
        (None, Some(md)) => Some(md),
        (None, None) => None,
    }
}

pub open spec fn opt_view(o: Option<String>) -> Option<Seq<char>> {
    match o {
        Some(s) => Some(s@),
        None => None,
    }
}

/// Build a folder-friendly device name from EXIF Make and Model.
///
/// Some makers repeat the brand in Model ("Canon" / "Canon EOS R5"), others
/// do not ("Insta360" / "Luna Ultra"). Prefixing only when the brand is absent
/// avoids both "Canon Canon EOS R5" and a bare, ambiguous "Luna Ultra".
pub fn combine_make_model(make: Option<String>, model: Option<String>) -> (r: Option<String>)
    ensures
        opt_view(r) == make_model_spec(opt_view(make), opt_view(model)),
{
    match (make, model) {
        (Some(mk), Some(md)) => {
            let mkc = chars_of(mk.as_str());
            let mdc = chars_of(md.as_str());
            let lmk = lowercase_chars(&mkc);
            let lmd = lowercase_chars(&mdc);
            if contains_chars(&lmd, &lmk) {
                Some(md)
            } else {
                let mut out = mkc;
                out.push(' ');
                push_all(&mut out, &mdc);
                Some(string_from(&out))
            }
        },
        (Some(mk), None) => Some(mk),
        (None, Some(md)) => Some(md),
        (None, None) => None,
    }
}

/// What an EXIF field holds, as far as the date logic cares.
#[derive(Debug, Clone)]
pub enum ExifText {
    /// The field is not present.
    Missing,
    /// The field holds ASCII text.
    Text(String),
    /// The field is present but holds something other than text.
    NotText,
}

pub open spec fn cleaned_nonempty(o: Option<String>) -> Option<Seq<char>> {
    match o {
        Some(s) => if clean_exif_spec(s@).len() > 0 {
            Some(clean_exif_spec(s@))
        } else {
            None
        },
        None => None,
    }
}

/// The capture date EXIF gives: `DateTimeOriginal` when present, otherwise
/// `DateTime`; a field that is not text gives none.
pub open spec fn exif_capture_spec(original: ExifText, modified: ExifText) -> Option<Seq<char>> {
    let field = match original {
        ExifText::Missing => modified,
        _ => original,
    };
    match field {
        ExifText::Text(s) => exif_datetime_spec(s@),
        _ => None,
    }
}

fn clean_nonempty(o: Option<String>) -> (r: Option<String>)
    ensures
        opt_view(r) == cleaned_nonempty(o),
{
    match o {
        Some(s) => {
            let c = clean_exif_string(s.as_str());
            if c.as_str().unicode_len() > 0 {
                Some(c)
            } else {
                None
            }
        },
        None => None,
    }
}

/// Capture date and device name from a photo's EXIF fields: `Make` and
/// `Model` are their displayed values, `None` when the field is absent.
pub fn photo_metadata(
    date_time_original: ExifText,
    date_time: ExifText,
    make: Option<String>,
    model: Option<String>,
) -> (r: (Option<String>, Option<String>))
    ensures
        opt_view(r.0) == exif_capture_spec(date_time_original, date_time),
        opt_view(r.1) == make_model_spec(cleaned_nonempty(make), cleaned_nonempty(model)),
{
    let ghost (o0, d0) = (date_time_original, date_time);
    let field = match date_time_original {
        ExifText::Missing => date_time,
        other => other,
    };
    let capture = match field {
        ExifText::Text(s) => parse_exif_datetime(s.as_str()),
        _ => None,
    };
    let mk = clean_nonempty(make);
    let md = clean_nonempty(model);
    (capture, combine_make_model(mk, md))
}

// ---------------------------------------------------------------------------
// EXIF read from a file's bytes.
// ---------------------------------------------------------------------------

/// What an EXIF date field holds, as the reader gives it.
#[derive(Debug, Clone)]
pub enum ExifValue {
    /// The field is not present.
    Missing,
    /// The field's ASCII strings, as raw bytes.
    Ascii(Vec<Vec<u8>>),
    /// The field holds something other than ASCII text.
    Other,
}

/// The fields of a photo's EXIF that the metadata rules read.
#[derive(Debug, Clone)]
pub struct ExifFields {
    pub date_time_original: ExifValue,
    pub date_time: ExifValue,
    /// The displayed value of `Make`, when present.
    pub make: Option<String>,
    /// The displayed value of `Model`, when present.
    pub model: Option<String>,
}

/// An EXIF date field as plain values: `None` when absent, `Some(None)` when
/// not ASCII, `Some(Some(parts))` for its ASCII strings.
pub type ExifValueView = Option<Option<Seq<Seq<u8>>>>;

/// The read fields as plain values: `DateTimeOriginal`, `DateTime`, and the
/// displayed `Make` and `Model`.
pub type ExifFieldsView = (ExifValueView, ExifValueView, Option<Seq<char>>, Option<Seq<char>>);

pub open spec fn exif_value_view(v: ExifValue) -> ExifValueView {
    match v {
        ExifValue::Missing => None,
        ExifValue::Other => Some(None),
        ExifValue::Ascii(parts) => Some(Some(parts@.map_values(|p: Vec<u8>| p@))),
    }
}

pub open spec fn exif_fields_view(f: ExifFields) -> ExifFieldsView {
    (
        exif_value_view(f.date_time_original),
        exif_value_view(f.date_time),
        opt_view(f.make),
        opt_view(f.model),
    )
}

/// What kamadak-exif reads from a file's bytes: the primary image's
/// `DateTimeOriginal` and `DateTime` fields and the displayed values of its
/// `Make` and `Model` fields; `None` when the bytes hold no EXIF it can read.
pub uninterp spec fn exif_fields(bytes: Seq<u8>) -> Option<ExifFieldsView>;

/// Calls `exif::Reader::read_from_container` on the bytes, then
/// `Exif::get_field` with `In::PRIMARY` for the four tags, taking a date
/// field's `Value::Ascii` strings and `Make`/`Model`'s `display_value()`.
/// Claimed: the result is `exif_fields` of the bytes, which depend on
/// nothing else.
#[verifier::external_body]
fn read_exif_fields(bytes: &[u8]) -> (r: Option<ExifFields>)
    ensures
        match r {
            Some(f) => exif_fields(bytes@) == Some(exif_fields_view(f)),
            None => exif_fields(bytes@) is None,
        },
{
    let exif = exif::Reader::new().read_from_container(&mut std::io::Cursor::new(bytes)).ok()?;
    let value = |tag| match exif.get_field(tag, exif::In::PRIMARY).map(|f| &f.value) {
        None => ExifValue::Missing,
        Some(exif::Value::Ascii(parts)) => ExifValue::Ascii(parts.clone()),
        Some(_) => ExifValue::Other,
    };
    let shown = |tag| exif.get_field(tag, exif::In::PRIMARY).map(|f| f.display_value().to_string());
    Some(ExifFields {
        date_time_original: value(exif::Tag::DateTimeOriginal),
        date_time: value(exif::Tag::DateTime),
        make: shown(exif::Tag::Make),
        model: shown(exif::Tag::Model),
    })
}

/// The text `std::str::from_utf8` decodes from bytes; `None` when they are
/// not UTF-8.
pub uninterp spec fn utf8_text(bytes: Seq<u8>) -> Option<Seq<char>>;

/// Calls `std::str::from_utf8`. Claimed: the result is `utf8_text` of the
/// bytes.
#[verifier::external_body]
fn decode_utf8(bytes: &[u8]) -> (r: Option<String>)
    ensures
        opt_view(r) == utf8_text(bytes@),
{
    std::str::from_utf8(bytes).ok().map(|s| s.to_string())
}

/// The text of an EXIF field's ASCII strings: those that decode, joined.
pub open spec fn ascii_parts_text(parts: Seq<Seq<u8>>) -> Seq<char>
    decreases parts.len(),
{
    if parts.len() == 0 {
        Seq::empty()
    } else {
        ascii_parts_text(parts.drop_last()) + match utf8_text(parts.last()) {
            Some(t) => t,
            None => Seq::empty(),
        }
    }
}

/// An EXIF date field as the date rules see it: `None` when absent,
/// `Some(None)` when not text, `Some(Some(text))` otherwise.
pub open spec fn field_text(v: ExifValueView) -> Option<Option<Seq<char>>> {
    match v {
        None => None,
        Some(None) => Some(None),
        Some(Some(parts)) => Some(Some(ascii_parts_text(parts))),
    }
}

pub open spec fn exif_text_view(t: ExifText) -> Option<Option<Seq<char>>> {
    match t {
        ExifText::Missing => None,
        ExifText::NotText => Some(None),
        ExifText::Text(s) => Some(Some(s@)),
    }
}

/// The capture date from the date fields' text: `DateTimeOriginal` when
/// present, otherwise `DateTime`; a field that is not text gives none.
pub open spec fn exif_capture_of(original: Option<Option<Seq<char>>>, modified: Option<Option<Seq<char>>>) -> Option<Seq<char>> {
    let field = if original is None {
        modified
    } else {
        original
    };
    match field {
        Some(Some(t)) => exif_datetime_spec(t),
        _ => None,
    }
}

/// `cleaned_nonempty` over a plain value.
pub open spec fn cleaned_text(o: Option<Seq<char>>) -> Option<Seq<char>> {
    match o {
        Some(s) => if clean_exif_spec(s).len() > 0 {
            Some(clean_exif_spec(s))
        } else {
            None
        },
        None => None,
    }
}

/// The capture date and device name EXIF gives for a file's bytes.
pub open spec fn photo_metadata_spec(f: ExifFieldsView) -> (Option<Seq<char>>, Option<Seq<char>>) {
    (
        exif_capture_of(field_text(f.0), field_text(f.1)),
        make_model_spec(cleaned_text(f.2), cleaned_text(f.3)),
    )
}

fn exif_text_from(v: ExifValue) -> (r: ExifText)
    ensures
        exif_text_view(r) == field_text(exif_value_view(v)),
{
    match v {
        ExifValue::Missing => ExifText::Missing,
        ExifValue::Other => ExifText::NotText,
        ExifValue::Ascii(parts) => {
            let ghost pv = parts@.map_values(|p: Vec<u8>| p@);
            let mut text: Vec<char> = Vec::new();
            let mut i: usize = 0;
            while i < parts.len()
                invariant
                    i <= parts@.len(),
                    pv == parts@.map_values(|p: Vec<u8>| p@),
                    text@ == ascii_parts_text(pv.take(i as int)),
                decreases parts@.len() - i,
            {
                proof {
                    assert(pv.take(i + 1).drop_last() =~= pv.take(i as int));
                    assert(pv.take(i + 1).last() == parts@[i as int]@);
                }
                match decode_utf8(parts[i].as_slice()) {
                    Some(t) => {
                        let tc = chars_of(t.as_str());
                        push_all(&mut text, &tc);
                    },
                    None => {
                        assert(text@ =~= text@ + Seq::<char>::empty());
                    },
                }
                i = i + 1;
            }
            assert(pv.take(parts@.len() as int) =~= pv);
            ExifText::Text(string_from(&text))
        },
    }
}

proof fn lemma_exif_views(a: ExifText, b: ExifText, mk: Option<String>, md: Option<String>)
    ensures
        exif_capture_spec(a, b) == exif_capture_of(exif_text_view(a), exif_text_view(b)),
        cleaned_nonempty(mk) == cleaned_text(opt_view(mk)),
        cleaned_nonempty(md) == cleaned_text(opt_view(md)),
{
}

/// Capture date and device name from a photo file's bytes, as its EXIF
/// gives them; nothing when the bytes hold no readable EXIF.
pub fn photo_metadata_from_bytes(bytes: &[u8]) -> (r: (Option<String>, Option<String>))
    ensures
        match exif_fields(bytes@) {
            None => r.0 is None && r.1 is None,
            Some(f) => opt_view(r.0) == photo_metadata_spec(f).0 && opt_view(r.1)
                == photo_metadata_spec(f).1,
        },
{
    match read_exif_fields(bytes) {
        None => (None, None),
        Some(f) => {
            let ghost fv = exif_fields_view(f);
            let dto = exif_text_from(f.date_time_original);
            let dt = exif_text_from(f.date_time);
            let mk = f.make;
            let md = f.model;
            proof {
                lemma_exif_views(dto, dt, mk, md);
            }
            photo_metadata(dto, dt, mk, md)
        },
    }
}

// ---------------------------------------------------------------------------
// Dates in file names.
// ---------------------------------------------------------------------------

pub open spec fn num(s: Seq<char>, from: int, to: int) -> nat {
    digits_value(s.subrange(from, to))
}

/// An eight-digit `YYYYMMDD` date starts at `i`, at the start of a run of
/// digits, with a year from 1990 to 2100, a month from 1 to 12 and a day from
/// 1 to 31.
pub open spec fn date_at(s: Seq<char>, i: int) -> bool {
    &&& 0 <= i
    &&& i + 8 <= s.len()
    &&& (i == 0 || !is_digit(s[i - 1]))
    &&& all_digits(s.subrange(i, i + 8))
    &&& 1990 <= num(s, i, i + 4) <= 2100
    &&& 1 <= num(s, i + 4, i + 6) <= 12
    &&& 1 <= num(s, i + 6, i + 8) <= 31
}

/// Where an `HHMMSS` time would start after a date at `i`: right after it,
/// or after one separator.
pub open spec fn time_start(s: Seq<char>, i: int) -> int {
    if i + 8 < s.len() && !is_digit(s[i + 8]) {
        i + 9
    } else {
        i + 8
    }
}

pub open spec fn time_at(s: Seq<char>, j: int) -> bool {
    &&& j + 6 <= s.len()
    &&& all_digits(s.subrange(j, j + 6))
    &&& num(s, j, j + 2) < 24
    &&& num(s, j + 2, j + 4) < 60
    &&& num(s, j + 4, j + 6) < 60
}

/// `YYYY-MM-DDTHH:MM:SS` for a date at `i`, midnight when no valid time
/// follows it.
pub open spec fn stamp_text(s: Seq<char>, i: int) -> Seq<char> {
    let j = time_start(s, i);
    let date = s.subrange(i, i + 4) + seq!['-'] + s.subrange(i + 4, i + 6) + seq!['-']
        + s.subrange(i + 6, i + 8) + seq!['T'];
    if time_at(s, j) {
        date + s.subrange(j, j + 2) + seq![':'] + s.subrange(j + 2, j + 4) + seq![':']
            + s.subrange(j + 4, j + 6)
    } else {
        date + seq!['0', '0', ':', '0', '0', ':', '0', '0']
    }
}

/// The stamp of the first date at or after position `i`.
pub open spec fn first_stamp(s: Seq<char>, i: int) -> Option<Seq<char>>
    decreases s.len() - i,
{
    if i < 0 || i >= s.len() {
        None
    } else if date_at(s, i) {
        Some(stamp_text(s, i))
    } else {
        first_stamp(s, i + 1)
    }
}

/// `hh:mm:ss` from six digits starting at `j`, when they form a valid time.
pub open spec fn valid_time_digits(s: Seq<char>, j: int) -> bool {
    &&& 0 <= j
    &&& j + 6 <= s.len()
    &&& forall|k: int| j <= k < j + 6 ==> is_digit(#[trigger] s[k])
    &&& digits_value(s.subrange(j, j + 2)) < 24
    &&& digits_value(s.subrange(j + 2, j + 4)) < 60
    &&& digits_value(s.subrange(j + 4, j + 6)) < 60
}

/// `YYYY-MM-DDThh:mm:ss` from a date at `i` and a time at `j`.
pub open spec fn stamp_with_time(s: Seq<char>, i: int, j: int) -> Seq<char> {
    s.subrange(i, i + 4) + seq!['-'] + s.subrange(i + 4, i + 6) + seq!['-'] + s.subrange(i + 6, i + 8)
        + seq!['T'] + s.subrange(j, j + 2) + seq![':'] + s.subrange(j + 2, j + 4) + seq![':']
        + s.subrange(j + 4, j + 6)
}

/// The time of a stamp is read from the six digits right after the date
/// (`YYYYMMDDhhmmss`, as DJI names its clips) or, when one non-digit
/// separates them, from the six after it (`YYYYMMDD_hhmmss`); a digit right
/// after the date is never skipped.
pub proof fn lemma_stamp_reads_the_adjacent_time(s: Seq<char>, i: int)
    requires
        date_at(s, i),
    ensures
        valid_time_digits(s, i + 8) ==> stamp_text(s, i) == stamp_with_time(s, i, i + 8),
        i + 8 < s.len() && !is_digit(s[i + 8]) && valid_time_digits(s, i + 9) ==> stamp_text(s, i)
            == stamp_with_time(s, i, i + 9),
{
    if valid_time_digits(s, i + 8) {
        let j = i + 8;
        assert(is_digit(s[j]));
        assert(all_digits(s.subrange(j, j + 6)));
        assert(time_at(s, j));
    }
    if i + 8 < s.len() && !is_digit(s[i + 8]) && valid_time_digits(s, i + 9) {
        let j = i + 9;
        assert(all_digits(s.subrange(j, j + 6)));
        assert(time_at(s, j));
    }
}

proof fn lemma_first_stamp_from(s: Seq<char>, i: int)
    requires
        0 <= i,
    ensures
        first_stamp(s, i) is Some <==> exists|j: int| i <= j && #[trigger] date_at(s, j),
        first_stamp(s, i) matches Some(t) ==> exists|j: int|
            {
                &&& i <= j
                &&& #[trigger] date_at(s, j)
                &&& forall|k: int| i <= k < j ==> !date_at(s, k)
                &&& t == stamp_text(s, j)
            },
    decreases s.len() - i,
{
    if i < s.len() && !date_at(s, i) {
        lemma_first_stamp_from(s, i + 1);
        if exists|j: int| i <= j && #[trigger] date_at(s, j) {
            let j = choose|j: int| i <= j && #[trigger] date_at(s, j);
            assert(i + 1 <= j);
        }
        if first_stamp(s, i) is Some {
            let j = choose|j: int|
                {
                    &&& i + 1 <= j
                    &&& #[trigger] date_at(s, j)
                    &&& forall|k: int| i + 1 <= k < j ==> !date_at(s, k)
                    &&& first_stamp(s, i + 1) == Some(stamp_text(s, j))
                };
            assert(forall|k: int| i <= k < j ==> !date_at(s, k));
        }
    } else if i >= s.len() {
        assert(forall|j: int| i <= j ==> !date_at(s, j));
    } else {
        assert(date_at(s, i));
    }
}

/// A file name gives a stamp exactly when it holds a date: eight digits
/// `YYYYMMDD` at the start of a run of digits, with a year from 1990 to
/// 2100, a month from 1 to 12 and a day from 1 to 31. The stamp is that of
/// the first such date, `YYYY-MM-DDThh:mm:ss`, nineteen characters, with the
/// time that follows the date or midnight.
pub proof fn lemma_filename_stamp(s: Seq<char>)
    ensures
        first_stamp(s, 0) is Some <==> exists|i: int| #[trigger] date_at(s, i),
        first_stamp(s, 0) matches Some(t) ==> t.len() == 19 && exists|i: int|
            {
                &&& #[trigger] date_at(s, i)
                &&& forall|k: int| 0 <= k < i ==> !date_at(s, k)
                &&& t == stamp_text(s, i)
            },
{
    lemma_first_stamp_from(s, 0);
    if exists|i: int| #[trigger] date_at(s, i) {
        let i = choose|i: int| #[trigger] date_at(s, i);
        assert(0 <= i);
    }
    if first_stamp(s, 0) is Some {
        let i = choose|i: int|
            {
                &&& 0 <= i
                &&& #[trigger] date_at(s, i)
                &&& forall|k: int| 0 <= k < i ==> !date_at(s, k)
                &&& first_stamp(s, 0) == Some(stamp_text(s, i))
            };
        let j = time_start(s, i);
        if time_at(s, j) {
            assert(stamp_text(s, i).len() == 19);
        } else {
            assert(stamp_text(s, i).len() == 19);
        }
    }
}

fn digits_between(cs: &[char], from: usize, to: usize) -> (r: Option<u32>)
    requires
        from <= to <= cs@.len(),
        to - from <= 9,
    ensures
        match r {
            Some(v) => all_digits(cs@.subrange(from as int, to as int)) && v as nat == num(
                cs@,
                from as int,
                to as int,
            ),
            None => !all_digits(cs@.subrange(from as int, to as int)),
        },
{
    let part = slice_range(cs, from, to);
    if all_digit_chars(&part) {
        Some(small_digits_value(&part))
    } else {
        None
    }
}

fn is_date_at(cs: &[char], i: usize) -> (r: bool)
    requires
        i <= cs@.len(),
    ensures
        r == date_at(cs@, i as int),
{
    let n = cs.len();
    let boundary = i == 0 || !is_digit_char(cs[i - 1]);
    if !boundary || n - i < 8 {
        return false;
    }
    let s = Ghost(cs@);
    proof {
        assert(s@.subrange(i as int, i + 8) == s@.subrange(i as int, i + 4) + s@.subrange(
            i + 4,
            i + 6,
        ) + s@.subrange(i + 6, i + 8));
    }
    match (
        digits_between(cs, i, i + 4),
        digits_between(cs, i + 4, i + 6),
        digits_between(cs, i + 6, i + 8),
    ) {
        (Some(y), Some(m), Some(d)) => {
            proof {
                assert forall|k: int| 0 <= k < 8 implies is_digit(
                    #[trigger] s@.subrange(i as int, i + 8)[k],
                ) by {
                    if k < 4 {
                        assert(s@.subrange(i as int, i + 8)[k] == s@.subrange(i as int, i + 4)[k]);
                    } else if k < 6 {
                        assert(s@.subrange(i as int, i + 8)[k] == s@.subrange(i + 4, i + 6)[k
                            - 4]);
                    } else {
                        assert(s@.subrange(i as int, i + 8)[k] == s@.subrange(i + 6, i + 8)[k
                            - 6]);
                    }
                }
            }
            1990 <= y && y <= 2100 && 1 <= m && m <= 12 && 1 <= d && d <= 31
        },
        (a, b, c) => {
            proof {
                let w = s@.subrange(i as int, i + 8);
                if a is None {
                    let k = choose|k: int|
                        0 <= k < 4 && !is_digit(#[trigger] s@.subrange(i as int, i + 4)[k]);
                    assert(w[k] == s@.subrange(i as int, i + 4)[k]);
                } else if b is None {
                    let k = choose|k: int|
                        0 <= k < 2 && !is_digit(#[trigger] s@.subrange(i + 4, i + 6)[k]);
                    assert(w[k + 4] == s@.subrange(i + 4, i + 6)[k]);
                } else {
                    let k = choose|k: int|
                        0 <= k < 2 && !is_digit(#[trigger] s@.subrange(i + 6, i + 8)[k]);
                    assert(w[k + 6] == s@.subrange(i + 6, i + 8)[k]);
                }
            }
            false
        },
    }
}

fn is_time_at(cs: &[char], j: usize) -> (r: bool)
    requires
        j <= cs@.len(),
    ensures
        r == time_at(cs@, j as int),
{
    let n = cs.len();
    if n - j < 6 {
        return false;
    }
    let s = Ghost(cs@);
    proof {
        assert(s@.subrange(j as int, j + 6) == s@.subrange(j as int, j + 2) + s@.subrange(
            j + 2,
            j + 4,
        ) + s@.subrange(j + 4, j + 6));
    }
    match (
        digits_between(cs, j, j + 2),
        digits_between(cs, j + 2, j + 4),
        digits_between(cs, j + 4, j + 6),
    ) {
        (Some(h), Some(mi), Some(se)) => {
            proof {
                assert forall|k: int| 0 <= k < 6 implies is_digit(
                    #[trigger] s@.subrange(j as int, j + 6)[k],
                ) by {
                    if k < 2 {
                        assert(s@.subrange(j as int, j + 6)[k] == s@.subrange(j as int, j + 2)[k]);
                    } else if k < 4 {
                        assert(s@.subrange(j as int, j + 6)[k] == s@.subrange(j + 2, j + 4)[k
                            - 2]);
                    } else {
                        assert(s@.subrange(j as int, j + 6)[k] == s@.subrange(j + 4, j + 6)[k
                            - 4]);
                    }
                }
            }
            h < 24 && mi < 60 && se < 60
        },
        (a, b, c) => {
            proof {
                let w = s@.subrange(j as int, j + 6);
                if a is None {
                    let k = choose|k: int|
                        0 <= k < 2 && !is_digit(#[trigger] s@.subrange(j as int, j + 2)[k]);
                    assert(w[k] == s@.subrange(j as int, j + 2)[k]);
                } else if b is None {
                    let k = choose|k: int|
                        0 <= k < 2 && !is_digit(#[trigger] s@.subrange(j + 2, j + 4)[k]);
                    assert(w[k + 2] == s@.subrange(j + 2, j + 4)[k]);
                } else {
                    let k = choose|k: int|
                        0 <= k < 2 && !is_digit(#[trigger] s@.subrange(j + 4, j + 6)[k]);
                    assert(w[k + 4] == s@.subrange(j + 4, j + 6)[k]);
                }
            }
            false
        },
    }
}

fn stamp_at(cs: &[char], i: usize) -> (r: Vec<char>)
    requires
        date_at(cs@, i as int),
    ensures
        r@ == stamp_text(cs@, i as int),
{
    let n = cs.len();
    let mut out = slice_range(cs, i, i + 4);
    out.push('-');
    push_all(&mut out, &slice_range(cs, i + 4, i + 6));
    out.push('-');
    push_all(&mut out, &slice_range(cs, i + 6, i + 8));
    out.push('T');
    let mut j = i + 8;
    if j < n && !is_digit_char(cs[j]) {
        j = j + 1;
    }
    if is_time_at(cs, j) {
        push_all(&mut out, &slice_range(cs, j, j + 2));
        out.push(':');
        push_all(&mut out, &slice_range(cs, j + 2, j + 4));
        out.push(':');
        push_all(&mut out, &slice_range(cs, j + 4, j + 6));
    } else {
        out.push('0');
        out.push('0');
        out.push(':');
        out.push('0');
        out.push('0');
        out.push(':');
        out.push('0');
        out.push('0');
    }
    out
}

/// Recover a capture time from camera file-name conventions, such as
/// `VID_20260723_073020_002.mp4` or `IMG_20260723_072938_001.jpg`.
///
/// Used only when a file carries no usable metadata. These stamps are local
/// wall-clock time, which is what belongs in the folder structure.
pub fn timestamp_from_filename(file_name: &str) -> (r: Option<String>)
    ensures
        opt_view(r) == first_stamp(file_name@, 0),
{
    let cs = chars_of(file_name);
    let n = cs.len();
    let mut i: usize = 0;
    while i < n
        invariant
            n == cs@.len(),
            cs@ == file_name@,
            i <= n,
            first_stamp(cs@, 0) == first_stamp(cs@, i as int),
        decreases n - i,
    {
        if is_date_at(&cs, i) {
            let out = stamp_at(&cs, i);
            assert(first_stamp(cs@, i as int) == Some(stamp_text(cs@, i as int)));
            let r = string_from(&out);
            assert(opt_view(Some(r)) == Some(out@));
            return Some(r);
        }
        i = i + 1;
    }
    None
}

// ---------------------------------------------------------------------------
// Container tags.
// ---------------------------------------------------------------------------

/// The `format.tags` object of ffprobe's JSON output, as its entries in
/// order: each key with its value when that value is a string, `None` for a
/// value of another kind. `None` overall when the output is not JSON.
pub uninterp spec fn ffprobe_tags(stdout: Seq<u8>) -> Option<Seq<(Seq<char>, Option<Seq<char>>)>>;

/// The instant an RFC 3339 timestamp names, as whole seconds since the Unix
/// epoch, as `chrono::DateTime::parse_from_rfc3339` reads it; `None` when
/// chrono does not accept the text.
pub uninterp spec fn rfc3339_secs(ts: Seq<char>) -> Option<i64>;

/// Calls `serde_json::from_slice` on ffprobe's output and reads its
/// `format.tags` object. Claimed: the result is `ffprobe_tags` of the bytes,
/// a function of the bytes alone; which entries the object holds is not
/// stated.
#[verifier::external_body]
fn read_ffprobe_tags(stdout: &[u8]) -> (r: Option<Vec<(String, Option<String>)>>)
    ensures
        match r {
            Some(v) => ffprobe_tags(stdout@) == Some(
                v@.map_values(|e: (String, Option<String>)| (e.0@, opt_view(e.1))),
            ),
            None => ffprobe_tags(stdout@) is None,
        },
{
    let json: serde_json::Value = match serde_json::from_slice(stdout) {
        Ok(v) => v,
        Err(_) => return None,
    };
    let entries = json.get("format").and_then(|f| f.get("tags")).and_then(|t| t.as_object());
    Some(match entries {
        Some(map) => map.iter().map(|(k, v)| (k.clone(), v.as_str().map(|s| s.to_string()))).collect(),
        None => Vec::new(),
    })
}

/// Calls `chrono::DateTime::parse_from_rfc3339` and takes the instant's
/// `timestamp()`. Claimed: the result is `rfc3339_secs` of the text; an
/// accepted text has a four-digit year and an offset within a day, so the
/// instant lies between the start of year 0 and the end of year 9999, give or
/// take a day.
#[verifier::external_body]
fn rfc3339_instant(ts: &str) -> (r: Option<i64>)
    ensures
        r == rfc3339_secs(ts@),
        r matches Some(u) ==> -62_168_000_000 <= u <= 253_403_000_000,
{
    chrono::DateTime::parse_from_rfc3339(ts).ok().map(|d| d.timestamp())
}

/// Calls `TimeZone::offset_from_utc_datetime` on `chrono::Local` for the
/// instant `utc` and takes the offset's `local_minus_utc()`. The offset
/// depends on the machine's time zone, so no name is given to it. Claimed:
/// it is less than a day either way, as every chrono `FixedOffset` is.
#[verifier::external_body]
fn local_offset_secs(utc: i64) -> (r: i32)
    requires
        -100_000_000_000 <= utc <= 300_000_000_000,
    ensures
        -86400 < r < 86400,
{
    match chrono::DateTime::from_timestamp(utc, 0) {
        Some(d) => chrono::TimeZone::offset_from_utc_datetime(&chrono::Local, &d.naive_utc()).local_minus_utc(),
        None => 0,
    }
}

/// How `ts` reads in wall-clock time at `offset` seconds from UTC: for an
/// RFC 3339 timestamp, the instant it names shifted by `offset` and written
/// `%Y-%m-%dT%H:%M:%S`; any other text unchanged (as is one whose shifted
/// instant chrono cannot render, which an accepted timestamp never has).
pub open spec fn local_text_spec(ts: Seq<char>, offset: int) -> Seq<char> {
    match rfc3339_secs(ts) {
        None => ts,
        Some(u) => match utc_text((u + offset) as i64) {
            Some(t) => t,
            None => ts,
        },
    }
}

/// `ts` in wall-clock time at a UTC offset of `offset` seconds.
pub fn local_text(ts: &str, offset: i32) -> (r: String)
    requires
        -86400 < offset < 86400,
    ensures
        r@ == local_text_spec(ts@, offset as int),
        rfc3339_secs(ts@) matches Some(u) ==> utc_text((u + offset) as i64) == Some(r@),
{
    match rfc3339_instant(ts) {
        Some(u) => {
            let t = u + offset as i64;
            match format_utc(t) {
                Some(s) => s,
                None => string_from(&chars_of(ts)),
            }
        },
        None => string_from(&chars_of(ts)),
    }
}

/// `r` is how `ts` reads in local wall-clock time: `local_text_spec` at the
/// machine's offset from UTC at that instant, which is less than a day.
pub open spec fn local_rendering(ts: Seq<char>, r: Seq<char>) -> bool {
    exists|o: int| -86400 < o < 86400 && r == #[trigger] local_text_spec(ts, o)
}

/// Convert a time-zone-qualified timestamp to local wall-clock time.
///
/// Container metadata (`creation_time` from ffprobe) is UTC; EXIF
/// `DateTimeOriginal` carries no zone and is already local. Left unconverted,
/// a clip and a still shot in the same minute can land in different month
/// folders. A timestamp that is not RFC 3339 is returned unchanged. The
/// offset is the local zone's at the timestamp's instant.
pub fn normalize_to_local(ts: &str) -> (r: String)
    ensures
        local_rendering(ts@, r@),
        rfc3339_secs(ts@) is None ==> r@ == ts@,
{
    match rfc3339_instant(ts) {
        Some(u) => {
            let o = local_offset_secs(u);
            let r = local_text(ts, o);
            assert(r@ == local_text_spec(ts@, o as int));
            r
        },
        None => {
            let r = string_from(&chars_of(ts));
            assert(r@ == local_text_spec(ts@, 0));
            r
        },
    }
}

pub type TagsView = Seq<(Seq<char>, Option<Seq<char>>)>;

/// The value stored under `key` (the first entry with that key).
pub open spec fn tag_lookup(tags: TagsView, key: Seq<char>) -> Option<Option<Seq<char>>>
    decreases tags.len(),
{
    if tags.len() == 0 {
        None
    } else if tags[0].0 == key {
        Some(tags[0].1)
    } else {
        tag_lookup(tags.drop_first(), key)
    }
}

/// The tag keys a device name is read from, in order of preference.
/// QuickTime keys come first; cameras writing plain MP4 tags (DJI, GoPro,
/// Android) use the bare keys.
pub open spec fn device_keys() -> Seq<Seq<char>> {
    seq![
        "com.apple.quicktime.model"@,
        "com.apple.quicktime.make"@,
        "model"@,
        "make"@,
        "device_model"@,
    ]
}

/// The value of the first device key present among the tags.
pub open spec fn first_present(tags: TagsView, keys: Seq<Seq<char>>) -> Option<Option<Seq<char>>>
    decreases keys.len(),
{
    if keys.len() == 0 {
        None
    } else if tag_lookup(tags, keys[0]) is Some {
        tag_lookup(tags, keys[0])
    } else {
        first_present(tags, keys.drop_first())
    }
}

/// A present string value, trimmed, unless it trims to nothing.
pub open spec fn trimmed_text(v: Option<Option<Seq<char>>>) -> Option<Seq<char>> {
    match v {
        Some(Some(s)) => if trim(s).len() > 0 {
            Some(trim(s))
        } else {
            None
        },
        _ => None,
    }
}

pub open spec fn device_from_tags(tags: TagsView) -> Option<Seq<char>> {
    trimmed_text(first_present(tags, device_keys()))
}

/// A tag's value as a device name: a string value, trimmed, unless blank.
pub open spec fn device_value(tags: TagsView, key: Seq<char>) -> Option<Seq<char>> {
    match tag_lookup(tags, key) {
        Some(Some(s)) => if trim(s).len() > 0 {
            Some(trim(s))
        } else {
            None
        },
        _ => None,
    }
}

/// The device name of a clip comes from the first of these tags it carries,
/// in this order: `com.apple.quicktime.model`, `com.apple.quicktime.make`,
/// `model`, `make`, `device_model`. So an iPhone clip, which carries both
/// QuickTime keys, is named by its model, never by its maker; and a clip
/// with none of them has no device name.
pub proof fn lemma_device_tag_preference(tags: TagsView)
    ensures
        tag_lookup(tags, "com.apple.quicktime.model"@) is Some ==> device_from_tags(tags)
            == device_value(tags, "com.apple.quicktime.model"@),
        tag_lookup(tags, "com.apple.quicktime.model"@) is None && tag_lookup(
            tags,
            "com.apple.quicktime.make"@,
        ) is Some ==> device_from_tags(tags) == device_value(tags, "com.apple.quicktime.make"@),
        tag_lookup(tags, "com.apple.quicktime.model"@) is None && tag_lookup(
            tags,
            "com.apple.quicktime.make"@,
        ) is None && tag_lookup(tags, "model"@) is Some ==> device_from_tags(tags) == device_value(
            tags,
            "model"@,
        ),
        tag_lookup(tags, "com.apple.quicktime.model"@) is None && tag_lookup(
            tags,
            "com.apple.quicktime.make"@,
        ) is None && tag_lookup(tags, "model"@) is None && tag_lookup(tags, "make"@) is Some
            ==> device_from_tags(tags) == device_value(tags, "make"@),
        tag_lookup(tags, "com.apple.quicktime.model"@) is None && tag_lookup(
            tags,
            "com.apple.quicktime.make"@,
        ) is None && tag_lookup(tags, "model"@) is None && tag_lookup(tags, "make"@) is None
            ==> device_from_tags(tags) == device_value(tags, "device_model"@),
{
    reveal_with_fuel(first_present, 6);
    let k = device_keys();
    assert(k.drop_first() =~= seq!["com.apple.quicktime.make"@, "model"@, "make"@, "device_model"@]);
    assert(k.drop_first().drop_first() =~= seq!["model"@, "make"@, "device_model"@]);
    assert(k.drop_first().drop_first().drop_first() =~= seq!["make"@, "device_model"@]);
    assert(k.drop_first().drop_first().drop_first().drop_first() =~= seq!["device_model"@]);
    assert(k.drop_first().drop_first().drop_first().drop_first().drop_first() =~= Seq::<Seq<char>>::empty());
}

pub open spec fn creation_time(tags: TagsView) -> Option<Seq<char>> {
    trimmed_text(tag_lookup(tags, "creation_time"@))
}

fn lookup_tag(tags: &Vec<(String, Option<String>)>, key: &str) -> (r: Option<Option<String>>)
    ensures
        match r {
            Some(v) => tag_lookup(
                tags@.map_values(|e: (String, Option<String>)| (e.0@, opt_view(e.1))),
                key@,
            ) == Some(opt_view(v)),
            None => tag_lookup(
                tags@.map_values(|e: (String, Option<String>)| (e.0@, opt_view(e.1))),
                key@,
            ) is None,
        },
{
    let ghost tv = tags@.map_values(|e: (String, Option<String>)| (e.0@, opt_view(e.1)));
    let keyc = chars_of(key);
    let mut i: usize = 0;
    assert(tv.skip(0) == tv);
    while i < tags.len()
        invariant
            i <= tags@.len(),
            tv == tags@.map_values(|e: (String, Option<String>)| (e.0@, opt_view(e.1))),
            keyc@ == key@,
            tag_lookup(tv, key@) == tag_lookup(tv.skip(i as int), key@),
        decreases tags@.len() - i,
    {
        let kc = chars_of(tags[i].0.as_str());
        proof {
            let t = tv.skip(i as int);
            assert(t[0] == tv[i as int]);
            assert(t.drop_first() == tv.skip(i + 1));
        }
        if crate::text::chars_eq(&kc, &keyc) {
            let v = match &tags[i].1 {
                Some(s) => Some(s.clone()),
                None => None,
            };
            return Some(v);
        }
        i = i + 1;
    }
    assert(tv.skip(tags@.len() as int).len() == 0);
    None
}

fn trimmed_value(v: Option<Option<String>>) -> (r: Option<String>)
    ensures
        opt_view(r) == trimmed_text(
            match v {
                Some(x) => Some(opt_view(x)),
                None => None,
            },
        ),
{
    match v {
        Some(Some(s)) => {
            let cs = chars_of(s.as_str());
            let t = trim_chars(&cs);
            if t.len() > 0 {
                Some(string_from(&t))
            } else {
                None
            }
        },
        _ => None,
    }
}

/// Capture date and device name read from ffprobe's `-show_format` JSON.
///
/// The capture date is `creation_time`, trimmed and converted to local time;
/// the device name is the first of the device keys present, trimmed. Both are
/// absent when the output is not JSON.
pub fn video_metadata_from_probe(stdout: &[u8]) -> (r: (Option<String>, Option<String>))
    ensures
        match ffprobe_tags(stdout@) {
            None => r.0 is None && r.1 is None,
            Some(tags) => {
                &&& opt_view(r.1) == device_from_tags(tags)
                &&& (r.0 is Some <==> creation_time(tags) is Some)
                &&& match creation_time(tags) {
                    Some(t) => r.0 matches Some(c) && local_rendering(t, c@),
                    None => true,
                }
            },
        },
{
    let tags = match read_ffprobe_tags(stdout) {
        Some(t) => t,
        None => return (None, None),
    };
    let ghost tv = tags@.map_values(|e: (String, Option<String>)| (e.0@, opt_view(e.1)));
    let ct = trimmed_value(lookup_tag(&tags, "creation_time"));
    let capture = match ct {
        Some(t) => Some(normalize_to_local(t.as_str())),
        None => None,
    };
    let ghost keys = device_keys();
    let mut found = lookup_tag(&tags, "com.apple.quicktime.model");
    proof {
        reveal_with_fuel(first_present, 6);
    }
    if found.is_none() {
        found = lookup_tag(&tags, "com.apple.quicktime.make");
    }
    if found.is_none() {
        found = lookup_tag(&tags, "model");
    }
    if found.is_none() {
        found = lookup_tag(&tags, "make");
    }
    if found.is_none() {
        found = lookup_tag(&tags, "device_model");
    }
    let device = trimmed_value(found);
    (capture, device)
}

/// What a video backend can tell about a clip.
#[derive(Debug, Clone)]
pub struct VideoInfo {
    /// Capture time as local wall-clock, formatted `%Y-%m-%dT%H:%M:%S`.
    pub capture_date: Option<String>,
    /// Camera make and/or model, as written by the device.
    pub device_name: Option<String>,
}

impl VideoInfo {
    pub fn is_empty(&self) -> (r: bool)
        ensures
            r == (self.capture_date is None && self.device_name is None),
    {
        self.capture_date.is_none() && self.device_name.is_none()
    }
}

/// Capture metadata from ffprobe output, or `None` when it yields nothing.
pub fn video_info_from_probe(stdout: &[u8]) -> (r: Option<VideoInfo>)
    ensures
        match r {
            Some(info) => {
                &&& !(info.capture_date is None && info.device_name is None)
                &&& ffprobe_tags(stdout@) matches Some(tags)
                &&& opt_view(info.device_name) == device_from_tags(tags)
                &&& (info.capture_date is Some <==> creation_time(tags) is Some)
                &&& match creation_time(tags) {
                    Some(t) => info.capture_date matches Some(c) && local_rendering(t, c@),
                    None => true,
                }
            },
            None => match ffprobe_tags(stdout@) {
                None => true,
                Some(tags) => device_from_tags(tags) is None && creation_time(tags) is None,
            },
        },
{
    let (capture_date, device_name) = video_metadata_from_probe(stdout);
    let info = VideoInfo { capture_date, device_name };
    if info.is_empty() {
        None
    } else {
        Some(info)
    }
}

// ---------------------------------------------------------------------------
// Which reader applies to a file.
// ---------------------------------------------------------------------------

/// Where a path's metadata is read from, by the format table; a file the
/// table does not list has no reader.
pub open spec fn metadata_source_spec(p: Seq<char>) -> MetadataSource {
    match classify_spec(p) {
        Some(row) => row.2,
        None => MetadataSource::Unsupported,
    }
}

pub fn metadata_source_for(path: &str) -> (r: MetadataSource)
    ensures
        r == metadata_source_spec(path@),
{
    match classify(path) {
        Some(f) => f.metadata,
        None => MetadataSource::Unsupported,
    }
}

/// The capture date kept for a file: what its metadata says, otherwise the
/// date stamped in its name.
pub fn capture_date_or_filename(from_metadata: Option<String>, file_name: &str) -> (r: Option<
    String,
>)
    ensures
        from_metadata is Some ==> r == from_metadata,
        from_metadata is None ==> opt_view(r) == first_stamp(file_name@, 0),
{
    match from_metadata {
        Some(d) => Some(d),
        None => timestamp_from_filename(file_name),
    }
}

/// What could be read from a file for its metadata.
#[derive(Debug, Clone)]
pub enum MetadataReading {
    /// The bytes of a photo file, for its EXIF.
    Photo(Vec<u8>),
    /// What the video probe printed.
    Probe(Vec<u8>),
    /// Nothing could be read: the file could not be opened, or held no
    /// metadata the reader understands.
    Unreadable,
}

/// Capture date and device name of a file from what was read of it. Which
/// reading applies is decided by the format table: EXIF for the formats it
/// marks so, the video probe for those it marks as container-tagged, and
/// nothing for the rest. A reading of the wrong kind, or none, gives nothing.
pub fn extract_metadata_sync(file_path: &str, reading: MetadataReading) -> (r: (
    Option<String>,
    Option<String>,
))
    ensures
        match (metadata_source_spec(file_path@), reading) {
            (MetadataSource::Exif, MetadataReading::Photo(bytes)) => match exif_fields(bytes@) {
                None => r.0 is None && r.1 is None,
                Some(f) => opt_view(r.0) == photo_metadata_spec(f).0 && opt_view(r.1)
                    == photo_metadata_spec(f).1,
            },
            (MetadataSource::Container, MetadataReading::Probe(out)) => match ffprobe_tags(out@) {
                None => r.0 is None && r.1 is None,
                Some(tags) => {
                    &&& opt_view(r.1) == device_from_tags(tags)
                    &&& (r.0 is Some <==> creation_time(tags) is Some)
                    &&& match creation_time(tags) {
                        Some(t) => r.0 matches Some(c) && local_rendering(t, c@),
                        None => true,
                    }
                },
            },
            _ => r.0 is None && r.1 is None,
        },
{
    match (metadata_source_for(file_path), reading) {
        (MetadataSource::Exif, MetadataReading::Photo(bytes)) => photo_metadata_from_bytes(
            bytes.as_slice(),
        ),
        (MetadataSource::Container, MetadataReading::Probe(out)) => video_metadata_from_probe(
            out.as_slice(),
        ),
        _ => (None, None),
    }
}

} // verus!
