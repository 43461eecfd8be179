//! Deciding where every file goes: the year and month folders, the device
//! folder, names that never collide, and which files are duplicates.
use vstd::prelude::*;
use crate::paths::{dot, dot_dot, is_plain_segment, join, join_chars, parent, parent_of};
use crate::text::{
    all_digit_chars, all_digits, char_is_alphanumeric, char_is_whitespace, chars_eq, chars_lt,
    chars_of, copy_chars, digits_value, find_first, first_index_of, is_alphanumeric, is_blank,
    is_whitespace, lemma_first_index_of, lemma_lex_total, lemma_lex_trans, lex_lt, lowercase_chars, pad2,
    push_all, push_pad2, slice_range, small_digits_value, str_eq, string_from, trim, trim_chars,
    unicode_lowercase, words, ascii_lowered, is_ascii_text,
};
use crate::types::{IngestOperation, IngestOptions, IngestPlan, ScannedFile};
use crate::logging::{EntryView, HashIndex, IndexEntry};

verus! {

// ---------------------------------------------------------------------------
// Year and month folders.
// ---------------------------------------------------------------------------

/// The part of a timestamp before its first `T`.
pub open spec fn date_part(s: Seq<char>) -> Seq<char> {
    s.take(first_index_of(s, 'T'))
}

/// The year and month folder names a timestamp belongs under: the first two
/// `-`-separated fields of its date part, trimmed, where the year is four
/// digits and the month one or two digits from 1 to 12, written with two.
pub open spec fn year_month_spec(s: Seq<char>) -> Option<(Seq<char>, Seq<char>)> {
    let d = date_part(s);
    let k = first_index_of(d, '-');
    if k >= d.len() {
        None
    } else {
        let year = trim(d.take(k));
        let rest = d.skip(k + 1);
        let month = trim(rest.take(first_index_of(rest, '-')));
        if year.len() == 4 && all_digits(year) && 1 <= month.len() <= 2 && all_digits(month) && 1
            <= digits_value(month) <= 12 {
            Some((year, pad2(digits_value(month))))
        } else {
            None
        }
    }
}

/// A two-digit month from `01` to `12`.
pub open spec fn is_month_text(m: Seq<char>) -> bool {
    &&& m.len() == 2
    &&& all_digits(m)
    &&& 1 <= digits_value(m) <= 12
}

proof fn lemma_pad2_month(n: nat)
    requires
        1 <= n <= 12,
    ensures
        is_month_text(pad2(n)),
{
    let m = pad2(n);
    let a = (n / 10) as int;
    let b = (n % 10) as int;
    assert(0 <= a <= 1 && 0 <= b <= 9);
    assert(crate::text::digit_val(m[0]) == a);
    assert(crate::text::digit_val(m[1]) == b);
    assert(m.drop_last() == seq![m[0]]);
    let s1 = seq![m[0]];
    assert(s1.drop_last() =~= Seq::<char>::empty());
    assert(s1.last() == m[0]);
    assert(digits_value(s1) == digits_value(s1.drop_last()) * 10 + crate::text::digit_val(m[0]));
    assert(digits_value(s1) == a);
    assert(digits_value(m) == a * 10 + b);
    assert(a * 10 + b == n);
}

proof fn lemma_year_month_spec_shape(s: Seq<char>)
    ensures
        year_month_spec(s) matches Some(p) ==> p.0.len() == 4 && all_digits(p.0) && is_month_text(
            p.1,
        ),
{
    let d = date_part(s);
    let k = first_index_of(d, '-');
    if k < d.len() {
        let rest = d.skip(k + 1);
        let month = trim(rest.take(first_index_of(rest, '-')));
        if 1 <= month.len() <= 2 && all_digits(month) && 1 <= digits_value(month) <= 12 {
            lemma_pad2_month(digits_value(month));
        }
    }
}

/// Split a timestamp into the year and month folder names it belongs under.
///
/// Capture dates come from ffprobe and EXIF, which promise neither zero
/// padding nor a sane value, so the month is padded and both halves are
/// validated here: callers get either a well-formed pair or nothing, never a
/// half-parsed string they have to slice.
pub fn parse_year_month(date_str: &str) -> (r: Option<(String, String)>)
    ensures
        match r {
            Some((y, m)) => year_month_spec(date_str@) == Some((y@, m@)) && y@.len() == 4
                && all_digits(y@) && is_month_text(m@),
            None => year_month_spec(date_str@) is None,
        },
{
    let cs = chars_of(date_str);
    match year_month_chars(&cs) {
        Some((y, m)) => Some((string_from(&y), string_from(&m))),
        None => None,
    }
}

pub fn year_month_chars(cs: &[char]) -> (r: Option<(Vec<char>, Vec<char>)>)
    ensures
        match r {
            Some((y, m)) => year_month_spec(cs@) == Some((y@, m@)) && y@.len() == 4 && all_digits(
                y@,
            ) && is_month_text(m@),
            None => year_month_spec(cs@) is None,
        },
{
    proof {
        lemma_first_index_of(cs@, 'T');
    }
    let t = find_first(cs, 'T');
    let d = slice_range(cs, 0, t);
    proof {
        lemma_first_index_of(d@, '-');
    }
    let k = find_first(&d, '-');
    if k >= d.len() {
        return None;
    }
    let year = trim_chars(&slice_range(&d, 0, k));
    let rest = slice_range(&d, k + 1, d.len());
    proof {
        lemma_first_index_of(rest@, '-');
        assert(rest@ == d@.skip(k + 1));
    }
    let k2 = find_first(&rest, '-');
    let month = trim_chars(&slice_range(&rest, 0, k2));
    if year.len() != 4 || !all_digit_chars(&year) {
        return None;
    }
    if month.len() < 1 || month.len() > 2 || !all_digit_chars(&month) {
        return None;
    }
    let mv = small_digits_value(&month);
    if mv < 1 || mv > 12 {
        return None;
    }
    let mut m: Vec<char> = Vec::new();
    push_pad2(&mut m, mv);
    proof {
        lemma_pad2_month(mv as nat);
    }
    Some((year, m))
}

/// The `YYYY/MM` form of `year_month_spec`.
pub open spec fn date_path_spec(s: Seq<char>) -> Option<Seq<char>> {
    match year_month_spec(s) {
        Some((y, m)) => Some(y + seq!['/'] + m),
        None => None,
    }
}

/// The `YYYY/MM` form of [`parse_year_month`], for callers that want one
/// string. Whatever it returns is exactly seven characters: four digits, a
/// slash and a month from `01` to `12`.
pub fn parse_date_for_path(date_str: &str) -> (r: Option<String>)
    ensures
        match r {
            Some(p) => date_path_spec(date_str@) == Some(p@) && p@.len() == 7 && all_digits(
                p@.take(4),
            ) && p@[4] == '/' && is_month_text(p@.skip(5)),
            None => date_path_spec(date_str@) is None,
        },
{
    let cs = chars_of(date_str);
    match year_month_chars(&cs) {
        Some((y, m)) => {
            let mut out = y;
            out.push('/');
            push_all(&mut out, &m);
            assert(out@.take(4) == y@);
            assert(out@.skip(5) == m@);
            Some(string_from(&out))
        },
        None => None,
    }
}

// ---------------------------------------------------------------------------
// Device folder names.
// ---------------------------------------------------------------------------

/// Characters a device folder name may keep: letters, digits, `-`, `_` and
/// space. Everything else becomes a space.
pub open spec fn keep_char(c: char) -> bool {
    char_is_alphanumeric(c) || c == '-' || c == '_' || c == ' '
}

pub open spec fn keep_or_space(c: char) -> char {
    if keep_char(c) {
        c
    } else {
        ' '
    }
}

/// Words joined with single spaces.
pub open spec fn join_words(ws: Seq<Seq<char>>) -> Seq<char>
    decreases ws.len(),
{
    if ws.len() == 0 {
        Seq::empty()
    } else if ws.len() == 1 {
        ws[0]
    } else {
        join_words(ws.drop_last()) + seq![' '] + ws.last()
    }
}

/// The folder name for a device: unsafe characters replaced by spaces, runs
/// of white space collapsed to one space and trimmed, and `UnknownDevice`
/// when nothing is left.
pub open spec fn sanitize_spec(name: Seq<char>) -> Seq<char> {
    let j = join_words(words(name.map_values(|c: char| keep_or_space(c))));
    if j.len() == 0 {
        "UnknownDevice"@
    } else {
        j
    }
}

proof fn lemma_join_extend(ws: Seq<Seq<char>>, c: char)
    requires
        ws.len() > 0,
    ensures
        join_words(ws.update(ws.len() - 1, ws.last().push(c))) == join_words(ws).push(c),
{
    let u = ws.update(ws.len() - 1, ws.last().push(c));
    if ws.len() > 1 {
        assert(u.drop_last() == ws.drop_last());
    }
}

proof fn lemma_join_push(ws: Seq<Seq<char>>, c: char)
    ensures
        join_words(ws.push(seq![c])) == if ws.len() == 0 {
            seq![c]
        } else {
            join_words(ws) + seq![' ', c]
        },
{
    assert(ws.push(seq![c]).drop_last() == ws);
}

proof fn lemma_words_nonempty(s: Seq<char>)
    requires
        s.len() > 0,
        !char_is_whitespace(s.last()),
    ensures
        words(s).len() > 0,
{
}

/// Non-empty, with no space at either end and no two spaces in a row.
pub open spec fn single_spaced(s: Seq<char>) -> bool {
    &&& s.len() > 0
    &&& s[0] != ' '
    &&& s.last() != ' '
    &&& forall|k: int| 0 <= k < s.len() - 1 && #[trigger] s[k] == ' ' ==> s[k + 1] != ' '
}

/// A device name that already is a folder name: letters, digits, `-`, `_`,
/// and single spaces between words, with the space the only white space.
pub open spec fn clean_device_name(name: Seq<char>) -> bool {
    &&& single_spaced(name)
    &&& forall|i: int|
        0 <= i < name.len() ==> char_is_alphanumeric(#[trigger] name[i]) || name[i] == '-'
            || name[i] == '_' || name[i] == ' '
    &&& forall|i: int| 0 <= i < name.len() && #[trigger] name[i] != ' ' ==> !char_is_whitespace(name[i])
    &&& char_is_whitespace(' ')
}

proof fn lemma_clean_prefix_words(name: Seq<char>, k: int)
    requires
        clean_device_name(name),
        1 <= k <= name.len(),
    ensures
        name.take(k).last() != ' ' ==> join_words(words(name.take(k))) == name.take(k),
        name.take(k).last() == ' ' ==> join_words(words(name.take(k))) == name.take(k).drop_last(),
    decreases k,
{
    let p = name.take(k);
    let c = name[k - 1];
    assert(p.last() == c);
    assert(p.drop_last() =~= name.take(k - 1));
    if k == 1 {
        assert(c != ' ');
        assert(!char_is_whitespace(c));
        assert(words(p.drop_last()) =~= Seq::<Seq<char>>::empty());
        assert(words(p) == Seq::<Seq<char>>::empty().push(seq![c]));
        assert(join_words(words(p)) == seq![c]);
        assert(p =~= seq![c]);
    } else {
        let q = name.take(k - 1);
        let w = words(q);
        let prev = name[k - 2];
        assert(q.last() == prev);
        assert(p[p.len() - 2] == prev);
        lemma_clean_prefix_words(name, k - 1);
        if c == ' ' {
            assert(prev != ' ');
            assert(char_is_whitespace(c));
            assert(words(p) == w);
        } else {
            assert(!char_is_whitespace(c));
            if prev != ' ' {
                assert(!char_is_whitespace(prev));
                lemma_words_nonempty(q);
                assert(words(p) == w.update(w.len() - 1, w.last().push(c)));
                lemma_join_extend(w, c);
                assert(p =~= q.push(c));
            } else {
                assert(char_is_whitespace(prev));
                assert(words(p) == w.push(seq![c]));
                assert(k - 1 >= 2) by {
                    assert(name[0] != ' ');
                }
                assert(q.drop_last().len() > 0);
                if w.len() == 0 {
                    assert(join_words(w) =~= Seq::<char>::empty());
                }
                lemma_join_push(w, c);
                assert(p =~= q.drop_last() + seq![' ', c]);
            }
        }
    }
}

/// A name that already is a clean folder name comes through sanitising
/// unchanged: letters, digits, hyphens, underscores and the single spaces
/// between words all survive.
pub proof fn lemma_sanitize_keeps_clean_names(name: Seq<char>)
    requires
        clean_device_name(name),
    ensures
        sanitize_spec(name) == name,
{
    let m = name.map_values(|c: char| keep_or_space(c));
    assert(m =~= name);
    lemma_clean_prefix_words(name, name.len() as int);
    assert(name.take(name.len() as int) =~= name);
}

/// Strip characters from a camera or device name that are unsafe in file
/// paths. Keeps letters, digits, spaces, hyphens and underscores; collapses
/// runs of spaces; falls back to `UnknownDevice` if nothing remains.
///
/// The result is always a single, plain path segment: never empty, never `.`
/// or `..`, and free of `/`, `\` and `:`.
pub fn sanitize_device_name(name: &str) -> (r: String)
    ensures
        r@ == sanitize_spec(name@),
        is_plain_segment(r@),
        forall|i: int| 0 <= i < r@.len() ==> #[trigger] r@[i] != '\\' && r@[i] != ':' && r@[i]
            != '.',
        r@ == "UnknownDevice"@ || forall|i: int| 0 <= i < r@.len() ==> keep_char(#[trigger] r@[i]),
        single_spaced(r@),
{
    let cs = chars_of(name);
    let ghost m = cs@.map_values(|c: char| keep_or_space(c));
    let mut out: Vec<char> = Vec::new();
    let mut pending = false;
    let mut i: usize = 0;
    while i < cs.len()
        invariant
            i <= cs@.len(),
            m == cs@.map_values(|c: char| keep_or_space(c)),
            out@ == join_words(words(m.take(i as int))),
            out@.len() > 0 <==> words(m.take(i as int)).len() > 0,
            pending == (i > 0 && words(m.take(i as int)).len() > 0 && char_is_whitespace(
                m[i - 1],
            )),
            forall|k: int| 0 <= k < out@.len() ==> #[trigger] out@[k] != '/' && out@[k] != '\\'
                && out@[k] != ':' && out@[k] != '.',
            forall|k: int| 0 <= k < out@.len() ==> !char_is_whitespace(#[trigger] out@[k]) || out@[k]
                == ' ',
            forall|k: int| 0 <= k < out@.len() ==> keep_char(#[trigger] out@[k]),
            out@.len() > 0 ==> out@[0] != ' ' && out@.last() != ' ',
            forall|k: int| 0 <= k < out@.len() - 1 && #[trigger] out@[k] == ' ' ==> out@[k + 1] != ' ',
            pending ==> out@.len() > 0,
        decreases cs@.len() - i,
    {
        let c0 = cs[i];
        let keep = is_alphanumeric(c0) || c0 == '-' || c0 == '_' || c0 == ' ';
        let c = if keep { c0 } else { ' ' };
        let ws = is_whitespace(c);
        proof {
            assert(m[i as int] == c);
            assert(m.take(i + 1).drop_last() == m.take(i as int));
            assert(m.take(i + 1).last() == c);
            if i > 0 {
                assert(m.take(i + 1)[i - 1] == m[i - 1]);
            }
        }
        if ws {
            if out.len() > 0 {
                pending = true;
            }
        } else {
            if pending {
                out.push(' ');
                pending = false;
            }
            proof {
                let w = words(m.take(i as int));
                if i > 0 && !char_is_whitespace(m[i - 1]) {
                    assert(m.take(i as int).last() == m[i - 1]);
                    lemma_words_nonempty(m.take(i as int));
                    lemma_join_extend(w, c);
                } else {
                    lemma_join_push(w, c);
                    if w.len() > 0 {
                        assert(i > 0);
                    }
                }
            }
            out.push(c);
        }
        i = i + 1;
    }
    assert(m.take(cs@.len() as int) == m);
    if out.len() == 0 {
        let r = String::from_str("UnknownDevice");
        proof {
            reveal_strlit("UnknownDevice");
            assert(r@.len() == 13);
            assert(r@ != dot());
            assert(r@ != dot_dot());
        }
        r
    } else {
        proof {
            if out@ == dot() {
                assert(out@[0] == '.');
            }
            if out@ == dot_dot() {
                assert(out@[0] == '.');
            }
        }
        string_from(&out)
    }
}

// ---------------------------------------------------------------------------
// Lending a directory's device name to files without one.
// ---------------------------------------------------------------------------

/// The (directory, device) vote a scanned file casts: its parent directory
/// and its trimmed device name, when it has a non-blank one.
pub open spec fn vote(f: ScannedFile) -> Option<(Seq<char>, Seq<char>)> {
    match f.device_name {
        Some(d) => if trim(d@).len() > 0 {
            match parent(f.path@) {
                Some(p) => Some((p, trim(d@))),
                None => None,
            }
        } else {
            None
        },
        None => None,
    }
}

/// How many files in `dir` report `dev`.
pub open spec fn count_votes(files: Seq<(ScannedFile, String)>, dir: Seq<char>, dev: Seq<char>) -> nat
    decreases files.len(),
{
    if files.len() == 0 {
        0
    } else {
        count_votes(files.drop_last(), dir, dev) + if vote(files.last().0) == Some((dir, dev)) {
            1nat
        } else {
            0nat
        }
    }
}

/// `dev` is the name most files in `dir` report, ties going to the name that
/// sorts first.
pub open spec fn is_best(files: Seq<(ScannedFile, String)>, dir: Seq<char>, dev: Seq<char>) -> bool {
    &&& count_votes(files, dir, dev) > 0
    &&& forall|o: Seq<char>|
        #![trigger count_votes(files, dir, o)]
        count_votes(files, dir, o) < count_votes(files, dir, dev) || (count_votes(files, dir, o)
            == count_votes(files, dir, dev) && (o == dev || lex_lt(dev, o)))
}

/// The device name a directory adopts, if any file in it reported one.
pub open spec fn best_device(files: Seq<(ScannedFile, String)>, dir: Seq<char>) -> Option<Seq<char>> {
    if exists|d: Seq<char>| is_best(files, dir, d) {
        Some(choose|d: Seq<char>| is_best(files, dir, d))
    } else {
        None
    }
}

/// There is only one best name for a directory.
pub proof fn lemma_best_unique(
    files: Seq<(ScannedFile, String)>,
    dir: Seq<char>,
    a: Seq<char>,
    b: Seq<char>,
)
    requires
        is_best(files, dir, a),
        is_best(files, dir, b),
    ensures
        a == b,
{
    assert(count_votes(files, dir, b) <= count_votes(files, dir, a));
    assert(count_votes(files, dir, a) <= count_votes(files, dir, b));
    lemma_lex_total(a, b);
}

pub proof fn lemma_best_device_is(files: Seq<(ScannedFile, String)>, dir: Seq<char>, d: Seq<char>)
    requires
        is_best(files, dir, d),
    ensures
        best_device(files, dir) == Some(d),
{
    let c = choose|x: Seq<char>| is_best(files, dir, x);
    lemma_best_unique(files, dir, c, d);
}

/// The name a directory adopts depends only on how many of its files report
/// each name.
proof fn lemma_best_device_by_counts(
    files1: Seq<(ScannedFile, String)>,
    files2: Seq<(ScannedFile, String)>,
    dir: Seq<char>,
)
    requires
        forall|dev: Seq<char>| count_votes(files1, dir, dev) == count_votes(files2, dir, dev),
    ensures
        best_device(files1, dir) == best_device(files2, dir),
{
    assert forall|d: Seq<char>| #[trigger] is_best(files1, dir, d) <==> is_best(files2, dir, d) by {
        if is_best(files1, dir, d) {
            assert forall|o: Seq<char>|
                count_votes(files2, dir, o) < count_votes(files2, dir, d) || (count_votes(
                    files2,
                    dir,
                    o,
                ) == count_votes(files2, dir, d) && (o == d || lex_lt(d, o))) by {
                assert(count_votes(files1, dir, o) == count_votes(files2, dir, o));
            }
        }
        if is_best(files2, dir, d) {
            assert forall|o: Seq<char>|
                count_votes(files1, dir, o) < count_votes(files1, dir, d) || (count_votes(
                    files1,
                    dir,
                    o,
                ) == count_votes(files1, dir, d) && (o == d || lex_lt(d, o))) by {
                assert(count_votes(files1, dir, o) == count_votes(files2, dir, o));
            }
        }
    }
    if exists|d: Seq<char>| is_best(files1, dir, d) {
        let d = choose|d: Seq<char>| is_best(files1, dir, d);
        lemma_best_device_is(files1, dir, d);
        lemma_best_device_is(files2, dir, d);
    } else {
        assert(!(exists|d: Seq<char>| is_best(files2, dir, d))) by {
            if exists|d: Seq<char>| is_best(files2, dir, d) {
                let d = choose|d: Seq<char>| is_best(files2, dir, d);
                assert(is_best(files1, dir, d));
            }
        }
    }
}

/// The names voted for in `dir`, one per vote, in order.
pub open spec fn voted_names(files: Seq<(ScannedFile, String)>, dir: Seq<char>) -> Seq<Seq<char>>
    decreases files.len(),
{
    if files.len() == 0 {
        Seq::empty()
    } else {
        voted_names(files.drop_last(), dir) + match vote(files.last().0) {
            Some((d, n)) => if d == dir {
                seq![n]
            } else {
                Seq::empty()
            },
            None => Seq::empty(),
        }
    }
}

proof fn lemma_voted_names(files: Seq<(ScannedFile, String)>, dir: Seq<char>, dev: Seq<char>)
    ensures
        count_votes(files, dir, dev) > 0 <==> voted_names(files, dir).contains(dev),
    decreases files.len(),
{
    if files.len() > 0 {
        let rest = files.drop_last();
        lemma_voted_names(rest, dir, dev);
        let vr = voted_names(rest, dir);
        let v = voted_names(files, dir);
        if vr.contains(dev) {
            let k = choose|k: int| 0 <= k < vr.len() && vr[k] == dev;
            assert(v[k] == dev);
        }
        if vote(files.last().0) == Some((dir, dev)) {
            assert(v[vr.len() as int] == dev);
        }
        if v.contains(dev) {
            let k = choose|k: int| 0 <= k < v.len() && v[k] == dev;
            if k < vr.len() {
                assert(vr[k] == dev);
            }
        }
    }
}

/// `a` is at least as good a name for `dir` as `b`: more votes, or as many
/// and the same name or one that sorts first.
pub open spec fn at_least_as_good(files: Seq<(ScannedFile, String)>, dir: Seq<char>, a: Seq<char>, b: Seq<char>) -> bool {
    count_votes(files, dir, b) < count_votes(files, dir, a) || (count_votes(files, dir, b)
        == count_votes(files, dir, a) && (b == a || lex_lt(a, b)))
}

proof fn lemma_good_trans(files: Seq<(ScannedFile, String)>, dir: Seq<char>, a: Seq<char>, b: Seq<char>, c: Seq<char>)
    requires
        at_least_as_good(files, dir, a, b),
        at_least_as_good(files, dir, b, c),
    ensures
        at_least_as_good(files, dir, a, c),
{
    if lex_lt(a, b) && lex_lt(b, c) {
        lemma_lex_trans(a, b, c);
    }
}

proof fn lemma_best_of(files: Seq<(ScannedFile, String)>, dir: Seq<char>, c: Seq<Seq<char>>) -> (m: Seq<char>)
    requires
        c.len() > 0,
    ensures
        c.contains(m),
        forall|k: int| 0 <= k < c.len() ==> at_least_as_good(files, dir, m, #[trigger] c[k]),
    decreases c.len(),
{
    let x = c.last();
    if c.len() == 1 {
        assert(c[0] == x);
        x
    } else {
        let r = c.drop_last();
        let m0 = lemma_best_of(files, dir, r);
        let k0 = choose|k: int| 0 <= k < r.len() && r[k] == m0;
        assert(c[k0] == m0);
        if at_least_as_good(files, dir, m0, x) {
            assert forall|k: int| 0 <= k < c.len() implies at_least_as_good(files, dir, m0, #[trigger] c[k]) by {
                if k < r.len() {
                    assert(c[k] == r[k]);
                }
            }
            m0
        } else {
            lemma_lex_total(x, m0);
            assert(at_least_as_good(files, dir, x, m0));
            assert forall|k: int| 0 <= k < c.len() implies at_least_as_good(files, dir, x, #[trigger] c[k]) by {
                if k < r.len() {
                    assert(c[k] == r[k]);
                    lemma_good_trans(files, dir, x, m0, r[k]);
                } else {
                    lemma_lex_total(x, x);
                }
            }
            assert(c[c.len() - 1] == x);
            x
        }
    }
}

/// A folder in which some file reports a device name always adopts one: the
/// name most of its files report, ties going to the name that sorts first.
pub proof fn lemma_best_device_exists(files: Seq<(ScannedFile, String)>, dir: Seq<char>, dev: Seq<char>)
    requires
        count_votes(files, dir, dev) > 0,
    ensures
        best_device(files, dir) matches Some(d) && is_best(files, dir, d),
{
    let c = voted_names(files, dir);
    lemma_voted_names(files, dir, dev);
    let m = lemma_best_of(files, dir, c);
    lemma_voted_names(files, dir, m);
    assert forall|o: Seq<char>| #![trigger count_votes(files, dir, o)] count_votes(files, dir, o) < count_votes(
        files,
        dir,
        m,
    ) || (count_votes(files, dir, o) == count_votes(files, dir, m) && (o == m || lex_lt(m, o))) by {
        lemma_voted_names(files, dir, o);
        if c.contains(o) {
            let k = choose|k: int| 0 <= k < c.len() && c[k] == o;
            assert(at_least_as_good(files, dir, m, c[k]));
        }
    }
    assert(is_best(files, dir, m));
    lemma_best_device_is(files, dir, m);
}

proof fn lemma_count_votes_concat(
    a: Seq<(ScannedFile, String)>,
    b: Seq<(ScannedFile, String)>,
    dir: Seq<char>,
    dev: Seq<char>,
)
    ensures
        count_votes(a + b, dir, dev) == count_votes(a, dir, dev) + count_votes(b, dir, dev),
    decreases b.len(),
{
    if b.len() == 0 {
        assert(a + b =~= a);
    } else {
        assert((a + b).drop_last() =~= a + b.drop_last());
        assert((a + b).last() == b.last());
        lemma_count_votes_concat(a, b.drop_last(), dir, dev);
    }
}

proof fn lemma_count_votes_remove(
    files: Seq<(ScannedFile, String)>,
    k: int,
    dir: Seq<char>,
    dev: Seq<char>,
)
    requires
        0 <= k < files.len(),
    ensures
        count_votes(files, dir, dev) == count_votes(files.remove(k), dir, dev) + if vote(
            files[k].0,
        ) == Some((dir, dev)) {
            1nat
        } else {
            0nat
        },
{
    let a = files.take(k);
    let b = files.skip(k + 1);
    assert(files =~= a + seq![files[k]] + b);
    assert(files.remove(k) =~= a + b);
    lemma_count_votes_concat(a + seq![files[k]], b, dir, dev);
    lemma_count_votes_concat(a, seq![files[k]], dir, dev);
    lemma_count_votes_concat(a, b, dir, dev);
    let one = seq![files[k]];
    assert(one.drop_last() =~= Seq::<(ScannedFile, String)>::empty());
    assert(one.last() == files[k]);
    assert(count_votes(one.drop_last(), dir, dev) == 0);
}

/// Two lists of the same files, in any order, give every name the same
/// number of votes.
proof fn lemma_count_votes_permutation(
    files1: Seq<(ScannedFile, String)>,
    files2: Seq<(ScannedFile, String)>,
    dir: Seq<char>,
    dev: Seq<char>,
)
    requires
        files1.to_multiset() == files2.to_multiset(),
    ensures
        count_votes(files1, dir, dev) == count_votes(files2, dir, dev),
    decreases files1.len(),
{
    broadcast use vstd::seq_lib::group_to_multiset_ensures;
    broadcast use vstd::multiset::group_multiset_axioms;

    if files1.len() == 0 {
        assert(files2.to_multiset().len() == 0);
        assert(files2.len() == 0);
    } else {
        let x = files1.last();
        let rest1 = files1.drop_last();
        assert(rest1.push(x) =~= files1);
        assert(files1.to_multiset() =~= rest1.to_multiset().insert(x));
        assert(files2.to_multiset().count(x) > 0);
        assert(files2.contains(x));
        let k = choose|k: int| 0 <= k < files2.len() && files2[k] == x;
        let rest2 = files2.remove(k);
        assert(rest2.to_multiset() =~= files2.to_multiset().remove(x));
        assert(rest1.to_multiset().insert(x).remove(x) =~= rest1.to_multiset());
        lemma_count_votes_permutation(rest1, rest2, dir, dev);
        lemma_count_votes_remove(files2, k, dir, dev);
    }
}

/// The name a directory adopts does not depend on the order the files were
/// scanned in: any reordering of the same files gives the same name.
pub proof fn lemma_best_device_order_independent(
    files1: Seq<(ScannedFile, String)>,
    files2: Seq<(ScannedFile, String)>,
    dir: Seq<char>,
)
    requires
        files1.to_multiset() == files2.to_multiset(),
    ensures
        best_device(files1, dir) == best_device(files2, dir),
{
    assert forall|dev: Seq<char>| count_votes(files1, dir, dev) == count_votes(files2, dir, dev) by {
        lemma_count_votes_permutation(files1, files2, dir, dev);
    }
    lemma_best_device_by_counts(files1, files2, dir);
}


proof fn lemma_count_le(files: Seq<(ScannedFile, String)>, dir: Seq<char>, dev: Seq<char>)
    ensures
        count_votes(files, dir, dev) <= files.len(),
    decreases files.len(),
{
    if files.len() > 0 {
        lemma_count_le(files.drop_last(), dir, dev);
    }
}

/// Directory to adopted device name.
pub struct DirDevices {
    entries: Vec<(Vec<char>, Vec<char>)>,
}

pub open spec fn entry_view(e: (Vec<char>, Vec<char>)) -> (Seq<char>, Seq<char>) {
    (e.0@, e.1@)
}

pub open spec fn find_dir(entries: Seq<(Seq<char>, Seq<char>)>, dir: Seq<char>) -> Option<Seq<char>>
    decreases entries.len(),
{
    if entries.len() == 0 {
        None
    } else if entries[0].0 == dir {
        Some(entries[0].1)
    } else {
        find_dir(entries.drop_first(), dir)
    }
}

proof fn lemma_find_dir_at(entries: Seq<(Seq<char>, Seq<char>)>, dir: Seq<char>, i: int)
    requires
        0 <= i < entries.len(),
        entries[i].0 == dir,
        forall|j: int| 0 <= j < i ==> (#[trigger] entries[j]).0 != dir,
    ensures
        find_dir(entries, dir) == Some(entries[i].1),
    decreases i,
{
    if i > 0 {
        let u = entries.drop_first();
        assert forall|j: int| 0 <= j < i - 1 implies (#[trigger] u[j]).0 != dir by {
            assert(u[j] == entries[j + 1]);
        }
        lemma_find_dir_at(u, dir, i - 1);
    }
}

proof fn lemma_find_dir_none(entries: Seq<(Seq<char>, Seq<char>)>, dir: Seq<char>)
    requires
        forall|j: int| 0 <= j < entries.len() ==> (#[trigger] entries[j]).0 != dir,
    ensures
        find_dir(entries, dir) is None,
    decreases entries.len(),
{
    if entries.len() > 0 {
        let u = entries.drop_first();
        assert forall|j: int| 0 <= j < u.len() implies (#[trigger] u[j]).0 != dir by {
            assert(u[j] == entries[j + 1]);
        }
        lemma_find_dir_none(u, dir);
    }
}

impl DirDevices {
    pub closed spec fn entries_view(&self) -> Seq<(Seq<char>, Seq<char>)> {
        self.entries@.map_values(|e: (Vec<char>, Vec<char>)| entry_view(e))
    }

    /// The device name adopted by `dir`.
    pub open spec fn device_of(&self, dir: Seq<char>) -> Option<Seq<char>> {
        find_dir(self.entries_view(), dir)
    }

    pub fn get_chars(&self, dir: &[char]) -> (r: Option<Vec<char>>)
        ensures
            match r {
                Some(v) => self.device_of(dir@) == Some(v@),
                None => self.device_of(dir@) is None,
            },
    {
        let ghost ev = self.entries_view();
        let mut i: usize = 0;
        while i < self.entries.len()
            invariant
                i <= self.entries@.len(),
                ev == self.entries_view(),
                forall|j: int| 0 <= j < i ==> (#[trigger] ev[j]).0 != dir@,
            decreases self.entries@.len() - i,
        {
            assert(ev[i as int] == entry_view(self.entries@[i as int]));
            if chars_eq(&self.entries[i].0, dir) {
                proof {
                    lemma_find_dir_at(ev, dir@, i as int);
                }
                return Some(copy_chars(&self.entries[i].1));
            }
            i = i + 1;
        }
        proof {
            lemma_find_dir_none(ev, dir@);
        }
        None
    }

    /// The device name adopted by `dir`, if any.
    pub fn get(&self, dir: &str) -> (r: Option<String>)
        ensures
            match r {
                Some(v) => self.device_of(dir@) == Some(v@),
                None => self.device_of(dir@) is None,
            },
    {
        let d = chars_of(dir);
        match self.get_chars(&d) {
            Some(v) => Some(string_from(&v)),
            None => None,
        }
    }
}

fn vote_of(f: &ScannedFile) -> (r: Option<(Vec<char>, Vec<char>)>)
    ensures
        match r {
            Some((d, v)) => vote(*f) == Some((d@, v@)),
            None => vote(*f) is None,
        },
{
    match &f.device_name {
        Some(d) => {
            let dc = chars_of(d.as_str());
            let t = trim_chars(&dc);
            if t.len() == 0 {
                return None;
            }
            let pc = chars_of(f.path.as_str());
            match parent_of(&pc) {
                Some(p) => Some((p, t)),
                None => None,
            }
        },
        None => None,
    }
}

fn find_key(keys: &Vec<(Vec<char>, Vec<char>)>, d: &[char], v: &[char]) -> (r: Option<usize>)
    ensures
        match r {
            Some(k) => k < keys@.len() && keys@[k as int].0@ == d@ && keys@[k as int].1@ == v@,
            None => forall|k: int| 0 <= k < keys@.len() ==> !((#[trigger] keys@[k]).0@ == d@ && keys@[k].1@ == v@),
        },
{
    let mut i: usize = 0;
    while i < keys.len()
        invariant
            i <= keys@.len(),
            forall|k: int| 0 <= k < i ==> !((#[trigger] keys@[k]).0@ == d@ && keys@[k].1@ == v@),
        decreases keys@.len() - i,
    {
        if chars_eq(&keys[i].0, d) && chars_eq(&keys[i].1, v) {
            return Some(i);
        }
        i = i + 1;
    }
    None
}

/// The better of two candidates under "more votes, then the name that sorts
/// first".
pub open spec fn beats(c1: nat, d1: Seq<char>, c2: nat, d2: Seq<char>) -> bool {
    c1 > c2 || (c1 == c2 && lex_lt(d1, d2))
}

/// Map each directory to the device name most commonly reported by the files
/// inside it, so files in that directory with no device metadata can adopt
/// it.
///
/// Ties break on name so the result is stable across runs. A directory
/// holding files from two cameras resolves to whichever appears more often.
/// Blank names are not votes, and a directory nobody voted for adopts nothing.
pub fn infer_device_by_directory(files: &[(ScannedFile, String)]) -> (r: DirDevices)
    ensures
        forall|dir: Seq<char>| #[trigger] r.device_of(dir) == best_device(files@, dir),
{
    let mut keys: Vec<(Vec<char>, Vec<char>)> = Vec::new();
    let mut counts: Vec<usize> = Vec::new();
    let mut i: usize = 0;
    while i < files.len()
        invariant
            i <= files@.len(),
            keys@.len() == counts@.len(),
            forall|k: int|
                0 <= k < keys@.len() ==> #[trigger] counts@[k] == count_votes(
                    files@.take(i as int),
                    keys@[k].0@,
                    keys@[k].1@,
                ),
            forall|k: int| 0 <= k < keys@.len() ==> #[trigger] counts@[k] > 0,
            forall|d: Seq<char>, v: Seq<char>|
                #![trigger count_votes(files@.take(i as int), d, v)]
                count_votes(files@.take(i as int), d, v) > 0 ==> exists|k: int|
                    0 <= k < keys@.len() && (#[trigger] keys@[k]).0@ == d && keys@[k].1@ == v,
            forall|k1: int, k2: int|
                0 <= k1 < k2 < keys@.len() ==> !((#[trigger] keys@[k1]).0@ == (
                #[trigger] keys@[k2]).0@ && keys@[k1].1@ == keys@[k2].1@),
        decreases files@.len() - i,
    {
        let ghost pre = files@.take(i as int);
        let ghost post = files@.take(i + 1);
        proof {
            assert(post.drop_last() == pre);
            assert(post.last() == files@[i as int]);
        }
        match vote_of(&files[i].0) {
            Some((d, v)) => {
                match find_key(&keys, &d, &v) {
                    Some(k) => {
                        proof {
                            lemma_count_le(pre, d@, v@);
                        }
                        let c = counts[k];
                        counts.set(k, c + 1);
                        proof {
                            assert forall|d2: Seq<char>, v2: Seq<char>|
                                #![trigger count_votes(post, d2, v2)]
                                count_votes(post, d2, v2) > 0 implies exists|k3: int|
                                    0 <= k3 < keys@.len() && (#[trigger] keys@[k3]).0@ == d2
                                        && keys@[k3].1@ == v2 by {
                                if count_votes(pre, d2, v2) > 0 {
                                } else {
                                    assert(keys@[k as int].0@ == d2 && keys@[k as int].1@ == v2);
                                }
                            }
                        }
                    },
                    None => {
                        let ghost old_keys = keys@;
                        keys.push((d, v));
                        counts.push(1);
                        proof {
                            let kn = keys@.len() - 1;
                            assert forall|k3: int| 0 <= k3 < kn implies #[trigger] keys@[k3] == old_keys[k3] by {}
                            assert(count_votes(pre, keys@[kn].0@, keys@[kn].1@) == 0) by {
                                if count_votes(pre, keys@[kn].0@, keys@[kn].1@) > 0 {
                                    let k3 = choose|k3: int|
                                        0 <= k3 < old_keys.len() && (#[trigger] old_keys[k3]).0@
                                            == keys@[kn].0@ && old_keys[k3].1@ == keys@[kn].1@;
                                    assert(keys@[k3] == old_keys[k3]);
                                }
                            }
                            assert forall|d2: Seq<char>, v2: Seq<char>|
                                #![trigger count_votes(post, d2, v2)]
                                count_votes(post, d2, v2) > 0 implies exists|k3: int|
                                    0 <= k3 < keys@.len() && (#[trigger] keys@[k3]).0@ == d2
                                        && keys@[k3].1@ == v2 by {
                                if count_votes(pre, d2, v2) > 0 {
                                    let k3 = choose|k3: int|
                                        0 <= k3 < old_keys.len() && (#[trigger] old_keys[k3]).0@ == d2
                                            && old_keys[k3].1@ == v2;
                                    assert(keys@[k3] == old_keys[k3]);
                                } else {
                                    assert(keys@[kn].0@ == d2 && keys@[kn].1@ == v2);
                                }
                            }
                        }
                    },
                }
            },
            None => {
                proof {
                    assert forall|d2: Seq<char>, v2: Seq<char>|
                        #![trigger count_votes(post, d2, v2)]
                        count_votes(post, d2, v2) == count_votes(pre, d2, v2) by {}
                }
            },
        }
        i = i + 1;
    }
    assert(files@.take(files@.len() as int) == files@);
    let ghost fs = files@;
    // Pick each directory's best name.
    let mut result: Vec<(Vec<char>, Vec<char>)> = Vec::new();
    let mut k: usize = 0;
    while k < keys.len()
        invariant
            k <= keys@.len(),
            fs == files@,
            keys@.len() == counts@.len(),
            forall|j: int|
                0 <= j < keys@.len() ==> #[trigger] counts@[j] == count_votes(
                    fs,
                    keys@[j].0@,
                    keys@[j].1@,
                ),
            forall|j: int| 0 <= j < keys@.len() ==> #[trigger] counts@[j] > 0,
            forall|d: Seq<char>, v: Seq<char>|
                #![trigger count_votes(fs, d, v)]
                count_votes(fs, d, v) > 0 ==> exists|j: int|
                    0 <= j < keys@.len() && (#[trigger] keys@[j]).0@ == d && keys@[j].1@ == v,
            forall|a: int| 0 <= a < result@.len() ==> is_best(fs, (#[trigger] result@[a]).0@, result@[a].1@),
            forall|a: int, b: int|
                0 <= a < b < result@.len() ==> (#[trigger] result@[a]).0@ != (#[trigger] result@[b]).0@,
            forall|j: int|
                0 <= j < k ==> exists|a: int|
                    0 <= a < result@.len() && (#[trigger] result@[a]).0@ == (#[trigger] keys@[j]).0@,
        decreases keys@.len() - k,
    {
        let dir = &keys[k].0;
        // Already decided?
        let mut seen = false;
        let mut a: usize = 0;
        while a < result.len()
            invariant
                a <= result@.len(),
                !seen ==> forall|b: int| 0 <= b < a ==> (#[trigger] result@[b]).0@ != dir@,
                seen ==> exists|b: int| 0 <= b < result@.len() && (#[trigger] result@[b]).0@ == dir@,
            decreases result@.len() - a,
        {
            if chars_eq(&result[a].0, dir) {
                seen = true;
            }
            a = a + 1;
        }
        if !seen {
            let mut best: usize = k;
            let mut j: usize = 0;
            while j < keys.len()
                invariant
                    j <= keys@.len(),
                    k < keys@.len(),
                    dir@ == keys@[k as int].0@,
                    best < keys@.len(),
                    keys@[best as int].0@ == keys@[k as int].0@,
                    keys@.len() == counts@.len(),
                    forall|x: int|
                        0 <= x < j && (#[trigger] keys@[x]).0@ == keys@[k as int].0@ ==> !beats(
                            counts@[x] as nat,
                            keys@[x].1@,
                            counts@[best as int] as nat,
                            keys@[best as int].1@,
                        ),
                decreases keys@.len() - j,
            {
                if chars_eq(&keys[j].0, dir) {
                    let better = counts[j] > counts[best] || (counts[j] == counts[best] && chars_lt(
                        &keys[j].1,
                        &keys[best].1,
                    ));
                    if better {
                        proof {
                            lemma_lex_total(keys@[j as int].1@, keys@[j as int].1@);
                            assert forall|x: int|
                                0 <= x < j && (#[trigger] keys@[x]).0@ == keys@[k as int].0@ implies !beats(
                                counts@[x] as nat,
                                keys@[x].1@,
                                counts@[j as int] as nat,
                                keys@[j as int].1@,
                            ) by {
                                lemma_lex_total(keys@[x].1@, keys@[best as int].1@);
                                lemma_lex_total(keys@[j as int].1@, keys@[best as int].1@);
                                if lex_lt(keys@[x].1@, keys@[j as int].1@) && counts@[x] == counts@[j as int] {
                                    crate::text::lemma_lex_trans(keys@[x].1@, keys@[j as int].1@, keys@[best as int].1@);
                                }
                            }
                        }
                        best = j;
                    }
                }
                j = j + 1;
            }
            let ghost dv = keys@[k as int].0@;
            let ghost bv = keys@[best as int].1@;
            proof {
                assert forall|o: Seq<char>|
                    #![trigger count_votes(fs, dv, o)]
                    count_votes(fs, dv, o) < count_votes(fs, dv, bv) || (count_votes(fs, dv, o)
                        == count_votes(fs, dv, bv) && (o == bv || lex_lt(bv, o))) by {
                    if count_votes(fs, dv, o) > 0 {
                        let x = choose|x: int|
                            0 <= x < keys@.len() && (#[trigger] keys@[x]).0@ == dv && keys@[x].1@ == o;
                        assert(counts@[x] == count_votes(fs, keys@[x].0@, keys@[x].1@));
                        assert(counts@[best as int] == count_votes(fs, keys@[best as int].0@, keys@[best as int].1@));
                        lemma_lex_total(o, bv);
                    } else {
                        assert(counts@[best as int] > 0);
                        assert(counts@[best as int] == count_votes(fs, keys@[best as int].0@, keys@[best as int].1@));
                    }
                }
                assert(counts@[best as int] == count_votes(fs, keys@[best as int].0@, keys@[best as int].1@));
                assert(is_best(fs, dv, bv));
            }
            let entry = (copy_chars(dir), copy_chars(&keys[best].1));
            let ghost old_result = result@;
            result.push(entry);
            assert forall|a2: int| 0 <= a2 < old_result.len() implies #[trigger] result@[a2] == old_result[a2] by {}
            proof {
                assert(result@[result@.len() - 1].0@ == dv);
                assert forall|j2: int|
                    0 <= j2 < k + 1 implies exists|a2: int|
                        0 <= a2 < result@.len() && (#[trigger] result@[a2]).0@ == (#[trigger] keys@[j2]).0@ by {
                    if j2 < k {
                        let a2 = choose|a2: int|
                            0 <= a2 < old_result.len() && (#[trigger] old_result[a2]).0@ == (#[trigger] keys@[j2]).0@;
                        assert(result@[a2] == old_result[a2]);
                    } else {
                        assert(result@[result@.len() - 1].0@ == keys@[j2].0@);
                    }
                }
            }
        }
        k = k + 1;
    }
    let r = DirDevices { entries: result };
    proof {
        assert forall|dir: Seq<char>| #[trigger] r.device_of(dir) == best_device(files@, dir) by {
            let ev = r.entries_view();
            if exists|a: int| 0 <= a < ev.len() && (#[trigger] ev[a]).0 == dir {
                let a = choose|a: int| 0 <= a < ev.len() && (#[trigger] ev[a]).0 == dir;
                assert forall|b: int| 0 <= b < a implies (#[trigger] ev[b]).0 != dir by {
                    assert(ev[b] == entry_view(result@[b]));
                    assert(ev[a] == entry_view(result@[a]));
                }
                lemma_find_dir_at(ev, dir, a);
                assert(ev[a] == entry_view(result@[a]));
                lemma_best_device_is(files@, dir, result@[a].1@);
            } else {
                lemma_find_dir_none(ev, dir);
                if exists|d: Seq<char>| is_best(files@, dir, d) {
                    let d = choose|d: Seq<char>| is_best(files@, dir, d);
                    assert(count_votes(fs, dir, d) > 0);
                    let j = choose|j: int|
                        0 <= j < keys@.len() && (#[trigger] keys@[j]).0@ == dir && keys@[j].1@ == d;
                    let a = choose|a: int|
                        0 <= a < result@.len() && (#[trigger] result@[a]).0@ == (#[trigger] keys@[j]).0@;
                    assert(ev[a] == entry_view(result@[a]));
                }
            }
        }
    }
    r
}

// ---------------------------------------------------------------------------
// Destination names that never collide.
// ---------------------------------------------------------------------------

/// The key a destination is claimed under. The common targets (APFS, exFAT,
/// NTFS) are case-insensitive, so `IMG_1.JPG` and `img_1.jpg` are the same
/// file there.
pub open spec fn claim_key(p: Seq<char>) -> Seq<char> {
    unicode_lowercase(p)
}

/// Destination paths already handed out while building one plan, by key.
pub struct ClaimedPaths {
    keys: Vec<Vec<char>>,
}

impl View for ClaimedPaths {
    type V = Seq<Seq<char>>;

    closed spec fn view(&self) -> Seq<Seq<char>> {
        self.keys@.map_values(|k: Vec<char>| k@)
    }
}

impl ClaimedPaths {
    pub fn new() -> (r: Self)
        ensures
            r@ == Seq::<Seq<char>>::empty(),
    {
        let r = ClaimedPaths { keys: Vec::new() };
        assert(r@ =~= Seq::<Seq<char>>::empty());
        r
    }

    pub fn len(&self) -> (n: usize)
        ensures
            n == self@.len(),
    {
        self.keys.len()
    }

    /// Whether a key has been claimed.
    pub fn has_key(&self, key: &[char]) -> (r: bool)
        ensures
            r == self@.contains(key@),
    {
        let ghost v = self@;
        let mut i: usize = 0;
        while i < self.keys.len()
            invariant
                i <= self.keys@.len(),
                v == self@,
                v.len() == self.keys@.len(),
                forall|j: int| 0 <= j < i ==> v[j] != key@,
            decreases self.keys@.len() - i,
        {
            assert(v[i as int] == self.keys@[i as int]@);
            if chars_eq(&self.keys[i], key) {
                assert(v.contains(key@));
                return true;
            }
            i = i + 1;
        }
        false
    }

    /// Whether `path` (compared by its key) has been claimed.
    pub fn contains(&self, path: &str) -> (r: bool)
        ensures
            r == self@.contains(claim_key(path@)),
    {
        let pc = chars_of(path);
        let key = lowercase_chars(&pc);
        self.has_key(&key)
    }

    fn push_key(&mut self, key: Vec<char>)
        ensures
            final(self)@ == old(self)@.push(key@),
    {
        self.keys.push(key);
        assert(self@ =~= old(self)@.push(key@));
    }
}

/// `stem_<suffix>.ext`, or `stem_<suffix>` when there is no extension.
pub open spec fn suffixed(stem: Seq<char>, ext: Seq<char>, suffix: Seq<char>) -> Seq<char> {
    if ext.len() == 0 {
        stem + seq!['_'] + suffix
    } else {
        stem + seq!['_'] + suffix + seq!['.'] + ext
    }
}

pub open spec fn stem_part(filename: Seq<char>) -> Seq<char> {
    match crate::paths::file_stem(filename) {
        Some(s) => s,
        None => Seq::empty(),
    }
}

pub open spec fn ext_part(filename: Seq<char>) -> Seq<char> {
    match crate::paths::extension(filename) {
        Some(e) => e,
        None => Seq::empty(),
    }
}

/// The `k`-th path tried for `filename` in `dir`: the name itself, then
/// `stem_1.ext`, `stem_2.ext` and so on.
pub open spec fn candidate(dir: Seq<char>, filename: Seq<char>, k: nat) -> Seq<char> {
    if k == 0 {
        join(dir, filename)
    } else {
        join(dir, suffixed(stem_part(filename), ext_part(filename), crate::text::decimal(k)))
    }
}

/// The existence probe answered `answer` for a path.
pub open spec fn probed<E: Fn(&str) -> bool>(probe: E, p: Seq<char>, answer: bool) -> bool {
    exists|s: &str| s@ == p && #[trigger] call_ensures(probe, (s,), answer)
}

/// A path is unavailable when its key is claimed or the probe found it on
/// disk.
pub open spec fn unavailable<E: Fn(&str) -> bool>(
    claimed: Seq<Seq<char>>,
    probe: E,
    p: Seq<char>,
) -> bool {
    claimed.contains(claim_key(p)) || probed(probe, p, true)
}

/// The number of numbered names tried before falling back to a clock suffix.
pub open spec fn max_counter() -> nat {
    9999
}

/// What `resolve_collision` promises of its result `r`, given the keys
/// claimed before the call.
pub open spec fn resolved<E: Fn(&str) -> bool>(
    claimed: Seq<Seq<char>>,
    probe: E,
    dir: Seq<char>,
    filename: Seq<char>,
    r: Seq<char>,
) -> bool {
    ||| exists|k: nat|
        #![trigger candidate(dir, filename, k)]
        {
            &&& k <= max_counter()
            &&& r == candidate(dir, filename, k)
            &&& !claimed.contains(claim_key(r))
            &&& probed(probe, r, false)
            &&& forall|j: nat| j < k ==> unavailable(claimed, probe, #[trigger] candidate(dir, filename, j))
        }
    ||| {
        &&& forall|j: nat| j <= max_counter() ==> unavailable(claimed, probe, #[trigger] candidate(dir, filename, j))
        &&& exists|suffix: Seq<char>|
            #![trigger suffixed(stem_part(filename), ext_part(filename), suffix)]
            r == join(dir, suffixed(stem_part(filename), ext_part(filename), suffix)) && (suffix
                == "dup"@ || (suffix.len() > 0 && all_digits(suffix)))
    }
}

/// Calls `SystemTime::now().duration_since(UNIX_EPOCH)` and returns the
/// nanoseconds. Nothing is stated of the result, which depends on the clock.
#[verifier::external_body]
fn nanos_since_epoch() -> Option<u128> {
    std::time::SystemTime::now().duration_since(std::time::UNIX_EPOCH).ok().map(|d| d.as_nanos())
}

fn suffixed_chars(stem: &[char], ext: &[char], suffix: &[char]) -> (r: Vec<char>)
    ensures
        r@ == suffixed(stem@, ext@, suffix@),
{
    let mut r = copy_chars(stem);
    r.push('_');
    push_all(&mut r, suffix);
    if ext.len() > 0 {
        r.push('.');
        push_all(&mut r, ext);
    }
    r
}

/// Tries one path: free when the probe does not find it and its key is not
/// claimed.
fn try_path<E: Fn(&str) -> bool>(path: &[char], claimed: &ClaimedPaths, probe: &E) -> (r: bool)
    requires
        forall|s: &str| call_requires(*probe, (s,)),
    ensures
        r ==> !claimed@.contains(claim_key(path@)) && probed(*probe, path@, false),
        !r ==> unavailable(claimed@, *probe, path@),
        is_ascii_text(path@) ==> claim_key(path@) == ascii_lowered(path@),
{
    let s = string_from(path);
    let sr = s.as_str();
    let on_disk = probe(sr);
    assert(call_ensures(*probe, (sr,), on_disk));
    let key = lowercase_chars(path);
    let taken = claimed.has_key(&key);
    !on_disk && !taken
}

/// Pick a destination path for `filename` inside `dir` that collides with
/// neither a file the probe finds on disk nor a path already claimed earlier
/// in this plan. The chosen path is recorded in `claimed`.
///
/// Tried in order: the name itself, then `stem_1.ext` up to `stem_9999.ext`.
/// In the pathological case of ten thousand same-named files in one folder,
/// a clock suffix is used rather than a path that would clobber another.
pub fn resolve_collision<E: Fn(&str) -> bool>(
    dir: &str,
    filename: &str,
    claimed: &mut ClaimedPaths,
    probe: &E,
) -> (r: String)
    requires
        forall|s: &str| call_requires(*probe, (s,)),
    ensures
        final(claimed)@ == old(claimed)@.push(claim_key(r@)),
        resolved(old(claimed)@, *probe, dir@, filename@, r@),
        is_ascii_text(r@) ==> claim_key(r@) == ascii_lowered(r@),
{
    let d = chars_of(dir);
    let f = chars_of(filename);
    let r = resolve_collision_chars(&d, &f, claimed, probe);
    string_from(&r)
}

pub fn resolve_collision_chars<E: Fn(&str) -> bool>(
    dir: &[char],
    filename: &[char],
    claimed: &mut ClaimedPaths,
    probe: &E,
) -> (r: Vec<char>)
    requires
        forall|s: &str| call_requires(*probe, (s,)),
    ensures
        final(claimed)@ == old(claimed)@.push(claim_key(r@)),
        resolved(old(claimed)@, *probe, dir@, filename@, r@),
        is_ascii_text(r@) ==> claim_key(r@) == ascii_lowered(r@),
{
    let ghost c0 = claimed@;
    let first = join_chars(dir, filename);
    if try_path(&first, claimed, probe) {
        let key = lowercase_chars(&first);
        claimed.push_key(key);
        assert(first@ == candidate(dir@, filename@, 0));
        return first;
    }
    let stem = match crate::paths::file_stem_of(filename) {
        Some(s) => s,
        None => Vec::new(),
    };
    let ext = match crate::paths::extension_of_chars(filename) {
        Some(e) => e,
        None => Vec::new(),
    };
    let mut counter: u32 = 1;
    while counter <= 9999
        invariant
            1 <= counter <= 10000,
            claimed@ == c0,
            c0 == old(claimed)@,
            stem@ == stem_part(filename@),
            ext@ == ext_part(filename@),
            forall|s: &str| call_requires(*probe, (s,)),
            forall|j: nat| j < counter ==> unavailable(c0, *probe, #[trigger] candidate(dir@, filename@, j)),
        decreases 10000 - counter,
    {
        let mut digits: Vec<char> = Vec::new();
        crate::text::push_decimal(&mut digits, counter as u128);
        let name = suffixed_chars(&stem, &ext, &digits);
        let path = join_chars(dir, &name);
        assert(path@ == candidate(dir@, filename@, counter as nat));
        if try_path(&path, claimed, probe) {
            let key = lowercase_chars(&path);
            claimed.push_key(key);
            return path;
        }
        counter = counter + 1;
    }
    let mut suffix: Vec<char> = Vec::new();
    match nanos_since_epoch() {
        Some(n) => {
            crate::text::push_decimal(&mut suffix, n);
            proof {
                crate::text::lemma_decimal_digits(n as nat);
            }
        },
        None => {
            suffix.push('d');
            suffix.push('u');
            suffix.push('p');
            proof {
                reveal_strlit("dup");
                assert(suffix@ =~= "dup"@);
            }
        },
    }
    let name = suffixed_chars(&stem, &ext, &suffix);
    let path = join_chars(dir, &name);
    let key = lowercase_chars(&path);
    claimed.push_key(key);
    path
}

// ---------------------------------------------------------------------------
// Building a plan.
// ---------------------------------------------------------------------------

/// A directory entry as listed for the sidecar search: its full path and
/// its size in bytes (0 when it could not be read).
#[derive(Debug, Clone)]
pub struct DirEntryInfo {
    pub path: String,
    pub size: u64,
}

/// The forced date, when it names a real year and month.
pub open spec fn valid_forced(options: IngestOptions) -> Option<Seq<char>> {
    match options.force_date {
        Some(d) => if year_month_spec(d@) is Some {
            Some(d@)
        } else {
            None
        },
        None => None,
    }
}

/// The capture date recorded for a file: the forced date at midday (so no
/// time-zone shift moves it to a neighbouring day), otherwise what the file
/// reports, otherwise its modification time.
pub open spec fn planned_capture(f: ScannedFile, forced: Option<Seq<char>>) -> Seq<char> {
    match forced {
        Some(d) => d + "T12:00:00"@,
        None => match f.capture_date {
            Some(c) => c@,
            None => f.modified@,
        },
    }
}

/// The device name a file is filed under, before sanitising: its own when
/// not blank, otherwise the one its directory adopted, otherwise the label of
/// the source it came from.
pub open spec fn chosen_device(
    files: Seq<(ScannedFile, String)>,
    f: ScannedFile,
    label: Seq<char>,
) -> Seq<char> {
    match f.device_name {
        Some(d) if trim(d@).len() > 0 => d@,
        _ => match parent(f.path@) {
            Some(p) => match best_device(files, p) {
                Some(b) => b,
                None => label,
            },
            None => label,
        },
    }
}

/// The year and month folders: from the capture date, else from the
/// modification time, else folders a person can recognise.
pub open spec fn folder_year_month(capture: Seq<char>, modified: Seq<char>) -> (Seq<char>, Seq<char>) {
    match year_month_spec(capture) {
        Some(p) => p,
        None => match year_month_spec(modified) {
            Some(p) => p,
            None => ("UnknownDate"@, "UnknownMonth"@),
        },
    }
}

/// `<root>/<year>/<month>/<device>` for a file.
pub open spec fn planned_dir(
    root: Seq<char>,
    files: Seq<(ScannedFile, String)>,
    i: int,
    forced: Option<Seq<char>>,
) -> Seq<char> {
    let f = files[i].0;
    let ym = folder_year_month(planned_capture(f, forced), f.modified@);
    join(join(join(root, ym.0), ym.1), sanitize_spec(chosen_device(files, f, files[i].1@)))
}

/// The claim keys of a sequence of operations' destinations, in order.
pub open spec fn claims(ops: Seq<IngestOperation>) -> Seq<Seq<char>>
    decreases ops.len(),
{
    if ops.len() == 0 {
        Seq::empty()
    } else {
        claims(ops.drop_last()).push(claim_key(ops.last().dest_path@))
    }
}

/// The fingerprint function returned `r` for a path and size.
pub open spec fn fingerprinted<FP: Fn(&str, u64) -> Result<String, String>>(
    fp: FP,
    path: Seq<char>,
    size: u64,
    r: Result<String, String>,
) -> bool {
    exists|s: &str| s@ == path && #[trigger] call_ensures(fp, (s, size), r)
}

/// The whole-file hash function returned `r` for a path.
pub open spec fn full_hashed<FH: Fn(&str) -> Result<String, String>>(
    full: FH,
    path: Seq<char>,
    r: Result<String, String>,
) -> bool {
    exists|s: &str| s@ == path && #[trigger] call_ensures(full, (s,), r)
}

/// A fingerprint match against index entry `e` was confirmed: the whole
/// file hashed to the hash the entry records, or, where it records none, to
/// the hash of the file the entry points at.
pub open spec fn dup_confirmed<FH: Fn(&str) -> Result<String, String>>(
    full: FH,
    path: Seq<char>,
    e: EntryView,
) -> bool {
    exists|sh: String|
        #[trigger] full_hashed(full, path, Ok(sh)) && match e.1 {
            Some(rec) => sh@ == rec,
            None => exists|oh: String| #[trigger]
                full_hashed(full, e.0, Ok(oh)) && oh@ == sh@,
        }
}

/// A fingerprint match against `e` could not be confirmed: a hash could not
/// be computed, or the whole-file hashes differ.
pub open spec fn dup_refuted<FH: Fn(&str) -> Result<String, String>>(
    full: FH,
    path: Seq<char>,
    e: EntryView,
) -> bool {
    ||| exists|err: String| #[trigger] full_hashed(full, path, Err(err))
    ||| exists|sh: String|
        #[trigger] full_hashed(full, path, Ok(sh)) && match e.1 {
            Some(rec) => sh@ != rec,
            None => {
                ||| exists|err: String| #[trigger] full_hashed(full, e.0, Err(err))
                ||| exists|oh: String| #[trigger] full_hashed(full, e.0, Ok(oh)) && oh@ != sh@
            },
        }
}

pub open spec fn is_skip(a: Seq<char>) -> bool {
    a == "skip"@
}

/// How the duplicate decision for a file with fingerprint `h` relates to
/// the index as it stood: skipped only on a confirmed match, otherwise
/// there was no match or it was refuted.
pub open spec fn dedup_decided<FH: Fn(&str) -> Result<String, String>>(
    seen: spec_fn(Seq<char>) -> Option<EntryView>,
    full: FH,
    path: Seq<char>,
    h: Seq<char>,
    skipped: bool,
) -> bool {
    if skipped {
        seen(h) matches Some(e) && dup_confirmed(full, path, e)
    } else {
        match seen(h) {
            None => true,
            Some(e) => dup_refuted(full, path, e),
        }
    }
}

/// The fingerprint index as it stands when the file at position `i` is
/// planned: the library's index, plus every earlier file that was not a
/// duplicate, recorded under its fingerprint.
pub open spec fn index_before(
    known: spec_fn(Seq<char>) -> Option<EntryView>,
    files: Seq<(ScannedFile, String)>,
    ops: Seq<IngestOperation>,
    i: int,
) -> spec_fn(Seq<char>) -> Option<EntryView>
    decreases i,
{
    if i <= 0 {
        known
    } else {
        let prev = index_before(known, files, ops, i - 1);
        match ops[i - 1].hash {
            Some(h) => if !is_skip(ops[i - 1].action@) {
                |k: Seq<char>|
                    if k == h@ {
                        Some((files[i - 1].0.path@, None::<Seq<char>>))
                    } else {
                        prev(k)
                    }
            } else {
                prev
            },
            None => prev,
        }
    }
}

/// What the plan says of the operation `op` for the file at position `i`,
/// given the destination keys claimed before it and the fingerprint index
/// as it stood.
pub open spec fn file_op_ok<FP, FH, EX>(
    files: Seq<(ScannedFile, String)>,
    options: IngestOptions,
    i: int,
    op: IngestOperation,
    before: Seq<Seq<char>>,
    seen: spec_fn(Seq<char>) -> Option<EntryView>,
    fp: FP,
    full: FH,
    probe: EX,
) -> bool where
    FP: Fn(&str, u64) -> Result<String, String>,
    FH: Fn(&str) -> Result<String, String>,
    EX: Fn(&str) -> bool,
 {
    let f = files[i].0;
    let forced = valid_forced(options);
    &&& op.source_path@ == f.path@
    &&& op.size == f.size
    &&& op.capture_date matches Some(c) && c@ == planned_capture(f, forced)
    &&& op.device_name@ == sanitize_spec(chosen_device(files, f, files[i].1@))
    &&& is_plain_segment(op.device_name@)
    &&& resolved(before, probe, planned_dir(options.dest_root@, files, i, forced), f.name@, op.dest_path@)
    &&& if options.skip_duplicates {
        &&& op.hash matches Some(h) && fingerprinted(fp, f.path@, f.size, Ok(h)) && (!is_skip(
            options.operation@,
        ) ==> dedup_decided(seen, full, f.path@, h@, is_skip(op.action@)))
        &&& (op.action@ == options.operation@ || is_skip(op.action@))
    } else {
        op.hash is None && op.action@ == options.operation@
    }
}

/// What the plan says of the file at position `i`.
pub open spec fn main_op_ok<FP, FH, EX>(
    files: Seq<(ScannedFile, String)>,
    options: IngestOptions,
    known: spec_fn(Seq<char>) -> Option<EntryView>,
    ops: Seq<IngestOperation>,
    i: int,
    fp: FP,
    full: FH,
    probe: EX,
) -> bool where
    FP: Fn(&str, u64) -> Result<String, String>,
    FH: Fn(&str) -> Result<String, String>,
    EX: Fn(&str) -> bool,
 {
    file_op_ok(
        files,
        options,
        i,
        ops[i],
        claims(ops.take(i)),
        index_before(known, files, ops, i),
        fp,
        full,
        probe,
    )
}

/// The companion-file extensions that travel with a clip.
pub open spec fn sidecar_exts() -> Seq<Seq<char>> {
    seq!["xmp"@, "srt"@, "lut"@, "xml"@, "edl"@]
}

pub open spec fn is_sidecar_path(p: Seq<char>) -> bool {
    match crate::paths::extension(p) {
        Some(e) => sidecar_exts().contains(unicode_lowercase(e)),
        None => false,
    }
}

/// The listing function returned an entry with this path and size for `dir`.
pub open spec fn listed<LS: Fn(&str) -> Option<Vec<DirEntryInfo>>>(
    ls: LS,
    dir: Seq<char>,
    path: Seq<char>,
    size: u64,
) -> bool {
    exists|s: &str, v: Vec<DirEntryInfo>|
        s@ == dir && #[trigger] call_ensures(ls, (s,), Some(v)) && exists|k: int|
            0 <= k < v@.len() && (#[trigger] v@[k]).path@ == path && v@[k].size == size
}

/// Where a clip's sidecars go: the folder its own destination is in.
pub open spec fn sidecar_dir(root: Seq<char>, clip: IngestOperation) -> Seq<char> {
    match parent(clip.dest_path@) {
        Some(d) => d,
        None => root,
    }
}

/// What the plan says of a sidecar operation `op`, given the clip
/// operations `mains` and the destination keys claimed before it: it is a
/// file listed beside a clip `m` that is not skipped, with the clip's stem
/// (ignoring ASCII case) and a sidecar extension; it is not itself a planned
/// clip; it is copied, never moved, into the clip's folder under its own
/// name, and carries the clip's date and device.
pub open spec fn sidecar_ok<EX, LS>(
    options: IngestOptions,
    mains: Seq<IngestOperation>,
    op: IngestOperation,
    before: Seq<Seq<char>>,
    probe: EX,
    ls: LS,
) -> bool where EX: Fn(&str) -> bool, LS: Fn(&str) -> Option<Vec<DirEntryInfo>> {
    exists|m: int|
        {
            &&& 0 <= m < mains.len()
            &&& !is_skip(#[trigger] mains[m].action@)
            &&& parent(mains[m].source_path@) matches Some(dir) && listed(
                ls,
                dir,
                op.source_path@,
                op.size,
            )
            &&& crate::paths::file_stem(mains[m].source_path@) matches Some(cs)
                && crate::paths::file_stem(op.source_path@) matches Some(ss)
                && crate::text::eq_ignore_ascii_case(ss, cs)
            &&& is_sidecar_path(op.source_path@)
            &&& forall|k: int|
                0 <= k < mains.len() && !is_skip(#[trigger] mains[k].action@) ==> mains[k].source_path@
                    != op.source_path@
            &&& op.action@ == "copy"@
            &&& op.hash is None
            &&& op.capture_date == mains[m].capture_date
            &&& op.device_name == mains[m].device_name
            &&& crate::paths::file_name(op.source_path@) matches Some(name) && resolved(
                before,
                probe,
                sidecar_dir(options.dest_root@, mains[m]),
                name,
                op.dest_path@,
            )
        }
}

/// What the plan says of the sidecar at position `j`.
pub open spec fn sidecar_op_ok<EX, LS>(
    files: Seq<(ScannedFile, String)>,
    options: IngestOptions,
    ops: Seq<IngestOperation>,
    j: int,
    probe: EX,
    ls: LS,
) -> bool where EX: Fn(&str) -> bool, LS: Fn(&str) -> Option<Vec<DirEntryInfo>> {
    sidecar_ok(options, ops.take(files.len() as int), ops[j], claims(ops.take(j)), probe, ls)
}

/// Operations that are not skipped.
pub open spec fn count_active(ops: Seq<IngestOperation>) -> nat
    decreases ops.len(),
{
    if ops.len() == 0 {
        0
    } else {
        count_active(ops.drop_last()) + if is_skip(ops.last().action@) {
            0nat
        } else {
            1nat
        }
    }
}

pub open spec fn count_skipped(ops: Seq<IngestOperation>) -> nat
    decreases ops.len(),
{
    if ops.len() == 0 {
        0
    } else {
        count_skipped(ops.drop_last()) + if is_skip(ops.last().action@) {
            1nat
        } else {
            0nat
        }
    }
}

/// Bytes of the operations that are not skipped.
pub open spec fn active_bytes(ops: Seq<IngestOperation>) -> nat
    decreases ops.len(),
{
    if ops.len() == 0 {
        0
    } else {
        active_bytes(ops.drop_last()) + if is_skip(ops.last().action@) {
            0nat
        } else {
            ops.last().size as nat
        }
    }
}

proof fn lemma_totals_concat(a: Seq<IngestOperation>, b: Seq<IngestOperation>)
    ensures
        active_bytes(a + b) == active_bytes(a) + active_bytes(b),
        count_active(a + b) == count_active(a) + count_active(b),
    decreases b.len(),
{
    if b.len() == 0 {
        assert(a + b =~= a);
    } else {
        assert((a + b).drop_last() =~= a + b.drop_last());
        assert((a + b).last() == b.last());
        lemma_totals_concat(a, b.drop_last());
    }
}

/// What one operation adds to a plan's totals: a skipped operation adds
/// neither a file nor a byte; any other adds one file and its size. Taking
/// an operation out of a plan changes the totals by exactly that.
pub proof fn lemma_each_operation_adds_to_the_totals(ops: Seq<IngestOperation>, k: int)
    requires
        0 <= k < ops.len(),
    ensures
        ops[k].action@ == "skip"@ ==> active_bytes(ops) == active_bytes(ops.remove(k))
            && count_active(ops) == count_active(ops.remove(k)),
        ops[k].action@ != "skip"@ ==> active_bytes(ops) == active_bytes(ops.remove(k))
            + ops[k].size && count_active(ops) == count_active(ops.remove(k)) + 1,
{
    let a = ops.take(k);
    let b = ops.skip(k + 1);
    let one = seq![ops[k]];
    assert(ops =~= a + one + b);
    assert(ops.remove(k) =~= a + b);
    lemma_totals_concat(a + one, b);
    lemma_totals_concat(a, one);
    lemma_totals_concat(a, b);
    assert(one.drop_last() =~= Seq::<IngestOperation>::empty());
    assert(one.last() == ops[k]);
    assert(active_bytes(one.drop_last()) == 0 && count_active(one.drop_last()) == 0);
    assert(active_bytes(one) == if is_skip(ops[k].action@) {
        0nat
    } else {
        ops[k].size as nat
    });
    assert(count_active(one) == if is_skip(ops[k].action@) {
        0nat
    } else {
        1nat
    });
}

/// A plan's byte total counts every operation but the skipped ones: it is
/// the sum of the sizes of the operations that are not skipped (held at
/// `u64::MAX`), and the file total is their number.
pub proof fn lemma_plan_totals_leave_out_skips<FP, FH, EX, LS>(
    files: Seq<(ScannedFile, String)>,
    options: IngestOptions,
    known: spec_fn(Seq<char>) -> Option<EntryView>,
    plan: IngestPlan,
    fp: FP,
    full: FH,
    probe: EX,
    ls: LS,
    k: int,
) where
    FP: Fn(&str, u64) -> Result<String, String>,
    FH: Fn(&str) -> Result<String, String>,
    EX: Fn(&str) -> bool,
    LS: Fn(&str) -> Option<Vec<DirEntryInfo>>,

    requires
        plan_ok(files, options, known, plan, fp, full, probe, ls),
        0 <= k < plan.operations@.len(),
        plan.operations@[k].action@ == "skip"@,
    ensures
        plan.total_size == saturate(active_bytes(plan.operations@.remove(k))),
        plan.total_files == count_active(plan.operations@.remove(k)),
{
    lemma_each_operation_adds_to_the_totals(plan.operations@, k);
}

pub open spec fn saturate(n: nat) -> u64 {
    if n > u64::MAX {
        u64::MAX
    } else {
        n as u64
    }
}

fn device_for_file(files: &[(ScannedFile, String)], i: usize, dd: &DirDevices) -> (r: Vec<char>)
    requires
        i < files@.len(),
        forall|dir: Seq<char>| #[trigger] dd.device_of(dir) == best_device(files@, dir),
    ensures
        r@ == chosen_device(files@, files@[i as int].0, files@[i as int].1@),
{
    let f = &files[i].0;
    match &f.device_name {
        Some(d) => {
            let dc = chars_of(d.as_str());
            if !is_blank(&dc) {
                return dc;
            }
        },
        None => {},
    }
    let pc = chars_of(f.path.as_str());
    match parent_of(&pc) {
        Some(p) => match dd.get_chars(&p) {
            Some(b) => b,
            None => chars_of(files[i].1.as_str()),
        },
        None => chars_of(files[i].1.as_str()),
    }
}

fn capture_for_file(f: &ScannedFile, forced: &Option<Vec<char>>) -> (r: Vec<char>)
    ensures
        r@ == planned_capture(
            *f,
            match forced {
                Some(d) => Some(d@),
                None => None,
            },
        ),
{
    match forced {
        Some(d) => {
            let mut c = copy_chars(d);
            crate::text::push_str(&mut c, "T12:00:00");
            c
        },
        None => match &f.capture_date {
            Some(c) => chars_of(c.as_str()),
            None => chars_of(f.modified.as_str()),
        },
    }
}

fn folder_year_month_exec(capture: &[char], modified: &[char]) -> (r: (Vec<char>, Vec<char>))
    ensures
        (r.0@, r.1@) == folder_year_month(capture@, modified@),
        is_plain_segment(r.0@),
        is_plain_segment(r.1@),
{
    match year_month_chars(capture) {
        Some((y, m)) => {
            proof {
                lemma_digits_plain(y@);
                lemma_digits_plain(m@);
            }
            (y, m)
        },
        None => match year_month_chars(modified) {
            Some((y, m)) => {
                proof {
                    lemma_digits_plain(y@);
                    lemma_digits_plain(m@);
                }
                (y, m)
            },
            None => {
                let y = chars_of("UnknownDate");
                let m = chars_of("UnknownMonth");
                proof {
                    reveal_strlit("UnknownDate");
                    reveal_strlit("UnknownMonth");
                    assert(y@.len() == 11);
                    assert(m@.len() == 12);
                    assert(forall|k: int| 0 <= k < y@.len() ==> #[trigger] y@[k] != '/');
                    assert(forall|k: int| 0 <= k < m@.len() ==> #[trigger] m@[k] != '/');
                }
                (y, m)
            },
        },
    }
}

/// A non-empty run of digits is a plain path segment.
proof fn lemma_digits_plain(s: Seq<char>)
    requires
        s.len() > 0,
        all_digits(s),
    ensures
        is_plain_segment(s),
{
    if s == dot() {
        assert(crate::text::is_digit(s[0]));
    }
    if s == dot_dot() {
        assert(crate::text::is_digit(s[0]));
    }
    assert forall|i: int| 0 <= i < s.len() implies #[trigger] s[i] != '/' by {
        assert(crate::text::is_digit(s[i]));
    }
}

/// Confirm a fingerprint hit by comparing whole files.
///
/// The fingerprint samples only the head, the tail and the length, so a
/// match is a candidate rather than proof. The whole file is hashed and
/// compared with the hash the index recorded, or, for entries recorded
/// without one, with the hash of the file the entry points at. Anything that
/// cannot be confirmed is treated as new: copying a redundant file wastes
/// space, failing to copy one loses it.
pub fn is_confirmed_duplicate<FH: Fn(&str) -> Result<String, String>>(
    source: &str,
    known: &IndexEntry,
    full_hash: &FH,
) -> (r: bool)
    requires
        forall|s: &str| call_requires(*full_hash, (s,)),
    ensures
        r ==> dup_confirmed(*full_hash, source@, crate::logging::entry_view(*known)),
        !r ==> dup_refuted(*full_hash, source@, crate::logging::entry_view(*known)),
{
    let source_full = full_hash(source);
    assert(call_ensures(*full_hash, (source,), source_full));
    let sh = match source_full {
        Ok(h) => h,
        Err(e) => {
            assert(full_hashed(*full_hash, source@, Err(e)));
            return false;
        },
    };
    assert(full_hashed(*full_hash, source@, Ok(sh)));
    let ghost ev = crate::logging::entry_view(*known);
    match &known.full_hash {
        Some(recorded) => {
            assert(ev.1 == Some(recorded@));
            str_eq(sh.as_str(), recorded.as_str())
        },
        None => {
            assert(ev.1 is None);
            assert(ev.0 == known.path@);
            let kp = known.path.as_str();
            let other = full_hash(kp);
            assert(call_ensures(*full_hash, (kp,), other));
            match other {
                Ok(oh) => {
                    assert(full_hashed(*full_hash, known.path@, Ok(oh)));
                    str_eq(sh.as_str(), oh.as_str())
                },
                Err(e) => {
                    assert(full_hashed(*full_hash, known.path@, Err(e)));
                    false
                },
            }
        },
    }
}

/// The operation for one scanned file, and whether it was found to be a
/// duplicate.
fn plan_one<FP, FH, EX>(
    files: &[(ScannedFile, String)],
    i: usize,
    options: &IngestOptions,
    forced: &Option<Vec<char>>,
    dd: &DirDevices,
    seen: &mut HashIndex,
    claimed: &mut ClaimedPaths,
    fp: &FP,
    full: &FH,
    probe: &EX,
    Ghost(model): Ghost<spec_fn(Seq<char>) -> Option<EntryView>>,
) -> (r: Result<(IngestOperation, bool), String>)
    where
        FP: Fn(&str, u64) -> Result<String, String>,
        FH: Fn(&str) -> Result<String, String>,
        EX: Fn(&str) -> bool,
    requires
        i < files@.len(),
        old(seen).wf(),
        options.skip_duplicates && !is_skip(options.operation@) ==> forall|h: Seq<char>|
            #[trigger] old(seen).spec_get(h) == model(h),
        forall|dir: Seq<char>| #[trigger] dd.device_of(dir) == best_device(files@, dir),
        (match forced {
            Some(d) => Some(d@),
            None => None,
        }) == valid_forced(*options),
        forall|s: &str, n: u64| call_requires(*fp, (s, n)),
        forall|s: &str| call_requires(*full, (s,)),
        forall|s: &str| call_requires(*probe, (s,)),
    ensures
        final(seen).wf(),
        match r {
            Ok((op, dup)) => {
                &&& final(claimed)@ == old(claimed)@.push(claim_key(op.dest_path@))
                &&& file_op_ok(
                    files@,
                    *options,
                    i as int,
                    op,
                    old(claimed)@,
                    model,
                    *fp,
                    *full,
                    *probe,
                )
                &&& (dup ==> is_skip(op.action@) && options.skip_duplicates)
                &&& (!dup ==> op.action@ == options.operation@)
                &&& forall|h: Seq<char>|
                    #[trigger] final(seen).spec_get(h) == if !dup && op.hash is Some && h
                        == op.hash->0@ {
                        Some((files@[i as int].0.path@, None::<Seq<char>>))
                    } else {
                        old(seen).spec_get(h)
                    }
            },
            Err(e) => options.skip_duplicates && fingerprinted(
                *fp,
                files@[i as int].0.path@,
                files@[i as int].0.size,
                Err(e),
            ),
        },
{
    let f = &files[i].0;
    let ghost fv = match forced {
        Some(d) => Some(d@),
        None => None::<Seq<char>>,
    };
    let capture = capture_for_file(f, forced);
    let modified = chars_of(f.modified.as_str());
    let device_raw = device_for_file(files, i, dd);
    let device = sanitize_device_name(string_from(&device_raw).as_str());
    let (year, month) = folder_year_month_exec(&capture, &modified);
    let root = chars_of(options.dest_root.as_str());
    let d1 = join_chars(&root, &year);
    let d2 = join_chars(&d1, &month);
    let dir = join_chars(&d2, &chars_of(device.as_str()));
    assert(dir@ == planned_dir(options.dest_root@, files@, i as int, fv));
    let name = chars_of(f.name.as_str());
    let dest = resolve_collision_chars(&dir, &name, claimed, probe);
    let (hash, action, dup) = if options.skip_duplicates {
        let pathref = f.path.as_str();
        let fr = fp(pathref, f.size);
        assert(call_ensures(*fp, (pathref, f.size), fr));
        match fr {
            Err(e) => {
                return Err(e);
            },
            Ok(h) => {
                let hit = seen.get(h.as_str());
                let is_dup = match &hit {
                    Some(known) => is_confirmed_duplicate(pathref, known, full),
                    None => false,
                };
                if is_dup {
                    (Some(h), String::from_str("skip"), true)
                } else {
                    seen.insert(h.clone(), IndexEntry { path: f.path.clone(), full_hash: None });
                    (Some(h), options.operation.clone(), false)
                }
            },
        }
    } else {
        (None, options.operation.clone(), false)
    };
    proof {
        reveal_strlit("skip");
    }
    let op = IngestOperation {
        source_path: f.path.clone(),
        dest_path: string_from(&dest),
        action,
        size: f.size,
        capture_date: Some(string_from(&capture)),
        device_name: device,
        hash,
    };
    proof {
        if options.skip_duplicates {
            let h = op.hash->0;
            assert(fingerprinted(*fp, f.path@, f.size, Ok(h)));
            if !is_skip(options.operation@) {
                assert(model(h@) == old(seen).spec_get(h@));
                assert(dedup_decided(model, *full, f.path@, h@, is_skip(op.action@)));
            }
        }
    }
    Ok((op, dup))
}

/// The fingerprint index a file is checked against does not depend on the
/// operations planned after it.
proof fn lemma_index_before_prefix(
    known: spec_fn(Seq<char>) -> Option<EntryView>,
    files: Seq<(ScannedFile, String)>,
    s1: Seq<IngestOperation>,
    s2: Seq<IngestOperation>,
    i: int,
)
    requires
        0 <= i <= s1.len(),
        i <= s2.len(),
        forall|j: int| 0 <= j < i ==> s1[j] == s2[j],
    ensures
        index_before(known, files, s1, i) == index_before(known, files, s2, i),
    decreases i,
{
    if i > 0 {
        lemma_index_before_prefix(known, files, s1, s2, i - 1);
        assert(s1[i - 1] == s2[i - 1]);
    }
}

/// What the plan says of an operation does not depend on the operations
/// planned after it.
proof fn lemma_main_ok_prefix<FP, FH, EX>(
    files: Seq<(ScannedFile, String)>,
    options: IngestOptions,
    known: spec_fn(Seq<char>) -> Option<EntryView>,
    s1: Seq<IngestOperation>,
    s2: Seq<IngestOperation>,
    k: int,
    fp: FP,
    full: FH,
    probe: EX,
) where
    FP: Fn(&str, u64) -> Result<String, String>,
    FH: Fn(&str) -> Result<String, String>,
    EX: Fn(&str) -> bool,

    requires
        0 <= k < s1.len() <= s2.len(),
        forall|j: int| 0 <= j < s1.len() ==> s1[j] == s2[j],
    ensures
        main_op_ok(files, options, known, s1, k, fp, full, probe) == main_op_ok(
            files,
            options,
            known,
            s2,
            k,
            fp,
            full,
            probe,
        ),
{
    assert(s1.take(k) =~= s2.take(k));
    lemma_index_before_prefix(known, files, s1, s2, k);
}

/// The operation for every scanned file, in order, with the destination keys
/// they claimed and how many were skipped as confirmed duplicates.
fn plan_files<FP, FH, EX>(
    files: &[(ScannedFile, String)],
    options: &IngestOptions,
    known: HashIndex,
    fp: &FP,
    full: &FH,
    probe: &EX,
) -> (r: Result<(Vec<IngestOperation>, usize, ClaimedPaths), String>)
    where
        FP: Fn(&str, u64) -> Result<String, String>,
        FH: Fn(&str) -> Result<String, String>,
        EX: Fn(&str) -> bool,
    requires
        known.wf(),
        forall|s: &str, n: u64| call_requires(*fp, (s, n)),
        forall|s: &str| call_requires(*full, (s,)),
        forall|s: &str| call_requires(*probe, (s,)),
    ensures
        match r {
            Ok((ops, dups, claimed)) => {
                &&& ops@.len() == files@.len()
                &&& claimed@ == claims(ops@)
                &&& forall|i: int|
                    0 <= i < ops@.len() ==> #[trigger] main_op_ok(
                        files@,
                        *options,
                        known.getter(),
                        ops@,
                        i,
                        *fp,
                        *full,
                        *probe,
                    )
                &&& dups <= ops@.len()
                &&& (!is_skip(options.operation@) ==> dups == count_skipped(ops@))
            },
            Err(e) => options.skip_duplicates && exists|i: int|
                0 <= i < files@.len() && fingerprinted(
                    *fp,
                    (#[trigger] files@[i]).0.path@,
                    files@[i].0.size,
                    Err(e),
                ),
        },
        !options.skip_duplicates ==> r is Ok,
{
    let ghost kg = known.getter();
    let forced: Option<Vec<char>> = match &options.force_date {
        Some(d) => {
            let dc = chars_of(d.as_str());
            if year_month_chars(&dc).is_some() {
                Some(dc)
            } else {
                None
            }
        },
        None => None,
    };
    let dd = infer_device_by_directory(files);
    let mut seen = if options.skip_duplicates {
        known
    } else {
        HashIndex::new()
    };
    let mut claimed = ClaimedPaths::new();
    let mut ops: Vec<IngestOperation> = Vec::new();
    let mut dups: usize = 0;
    let mut i: usize = 0;
    assert(claims(ops@) =~= claimed@);
    while i < files.len()
        invariant
            i <= files@.len(),
            ops@.len() == i,
            seen.wf(),
            claimed@ == claims(ops@),
            dups <= i,
            !is_skip(options.operation@) ==> dups == count_skipped(ops@),
            options.skip_duplicates && !is_skip(options.operation@) ==> forall|h: Seq<char>|
                #[trigger] seen.spec_get(h) == index_before(kg, files@, ops@, i as int)(h),
            forall|dir: Seq<char>| #[trigger] dd.device_of(dir) == best_device(files@, dir),
            (match forced {
                Some(d) => Some(d@),
                None => None,
            }) == valid_forced(*options),
            forall|k: int|
                0 <= k < i ==> #[trigger] main_op_ok(
                    files@,
                    *options,
                    kg,
                    ops@,
                    k,
                    *fp,
                    *full,
                    *probe,
                ),
            forall|s: &str, n: u64| call_requires(*fp, (s, n)),
            forall|s: &str| call_requires(*full, (s,)),
            forall|s: &str| call_requires(*probe, (s,)),
            kg == known.getter(),
        decreases files@.len() - i,
    {
        let ghost model = index_before(kg, files@, ops@, i as int);
        let ghost ops0 = ops@;
        let ghost claimed0 = claimed@;
        let ghost seen0 = seen;
        match plan_one(
            files,
            i,
            options,
            &forced,
            &dd,
            &mut seen,
            &mut claimed,
            fp,
            full,
            probe,
            Ghost(model),
        ) {
            Err(e) => {
                assert(fingerprinted(*fp, files@[i as int].0.path@, files@[i as int].0.size, Err(e)));
                return Err(e);
            },
            Ok((op, dup)) => {
                ops.push(op);
                proof {
                    assert(ops@.drop_last() =~= ops0);
                    assert(ops@.take(i as int) =~= ops0);
                    assert forall|k: int| 0 <= k < i + 1 implies #[trigger] main_op_ok(
                        files@,
                        *options,
                        kg,
                        ops@,
                        k,
                        *fp,
                        *full,
                        *probe,
                    ) by {
                        if k < i {
                            lemma_main_ok_prefix(
                                files@,
                                *options,
                                kg,
                                ops0,
                                ops@,
                                k,
                                *fp,
                                *full,
                                *probe,
                            );
                        } else {
                            lemma_index_before_prefix(kg, files@, ops0, ops@, i as int);
                        }
                    }
                    if options.skip_duplicates && !is_skip(options.operation@) {
                        lemma_index_before_prefix(kg, files@, ops0, ops@, i as int);
                        assert forall|h: Seq<char>| #[trigger]
                            seen.spec_get(h) == index_before(kg, files@, ops@, i + 1)(h) by {
                            assert(ops@[i as int] == op);
                        }
                    }
                }
                if dup {
                    dups = dups + 1;
                }
                i = i + 1;
            },
        }
    }
    Ok((ops, dups, claimed))
}

// ---------------------------------------------------------------------------
// Sidecars.
// ---------------------------------------------------------------------------

/// Whether an action is a skip.
pub fn is_skip_action(a: &str) -> (r: bool)
    ensures
        r == is_skip(a@),
{
    crate::text::str_eq(a, "skip")
}

/// Whether a path ends in one of the sidecar extensions, in any case.
pub fn is_sidecar_file(p: &[char]) -> (r: bool)
    ensures
        r == is_sidecar_path(p@),
{
    match crate::paths::extension_of_chars(p) {
        Some(e) => {
            let x = lowercase_chars(&e);
            let ghost xv = x@;
            let ghost exts = sidecar_exts();
            proof {
                reveal_strlit("xmp");
                reveal_strlit("srt");
                reveal_strlit("lut");
                reveal_strlit("xml");
                reveal_strlit("edl");
                assert(exts[0] == "xmp"@ && exts[1] == "srt"@ && exts[2] == "lut"@ && exts[3]
                    == "xml"@ && exts[4] == "edl"@ && exts.len() == 5);
            }
            let r = crate::text::chars_eq_str(&x, "xmp") || crate::text::chars_eq_str(&x, "srt")
                || crate::text::chars_eq_str(&x, "lut") || crate::text::chars_eq_str(&x, "xml")
                || crate::text::chars_eq_str(&x, "edl");
            proof {
                if r {
                    if xv == "xmp"@ {
                        assert(exts[0] == xv);
                    } else if xv == "srt"@ {
                        assert(exts[1] == xv);
                    } else if xv == "lut"@ {
                        assert(exts[2] == xv);
                    } else if xv == "xml"@ {
                        assert(exts[3] == xv);
                    } else {
                        assert(exts[4] == xv);
                    }
                    assert(exts.contains(xv));
                } else {
                    assert forall|k: int| 0 <= k < exts.len() implies exts[k] != xv by {
                        assert(k == 0 || k == 1 || k == 2 || k == 3 || k == 4);
                    }
                }
            }
            r
        },
        None => false,
    }
}

/// Whether `path` is the source of a clip that is not skipped.
fn is_planned_clip(mains: &Vec<IngestOperation>, path: &str) -> (r: bool)
    ensures
        r == exists|k: int|
            0 <= k < mains@.len() && !is_skip((#[trigger] mains@[k]).action@)
                && mains@[k].source_path@ == path@,
{
    let mut k: usize = 0;
    while k < mains.len()
        invariant
            k <= mains@.len(),
            forall|j: int|
                0 <= j < k ==> is_skip((#[trigger] mains@[j]).action@) || mains@[j].source_path@
                    != path@,
        decreases mains@.len() - k,
    {
        if !is_skip_action(mains[k].action.as_str()) && crate::text::str_eq(
            mains[k].source_path.as_str(),
            path,
        ) {
            return true;
        }
        k = k + 1;
    }
    false
}

/// Whether `key` is among `keys`.
fn has_chars(keys: &Vec<Vec<char>>, key: &[char]) -> (r: bool)
    ensures
        r == exists|j: int| 0 <= j < keys@.len() && (#[trigger] keys@[j])@ == key@,
{
    let mut j: usize = 0;
    while j < keys.len()
        invariant
            j <= keys@.len(),
            forall|t: int| 0 <= t < j ==> (#[trigger] keys@[t])@ != key@,
        decreases keys@.len() - j,
    {
        if chars_eq(&keys[j], key) {
            return true;
        }
        j = j + 1;
    }
    false
}

/// The sidecars planned so far are exactly described: each one satisfies
/// `sidecar_ok` against the claims made before it, and `keys` holds their
/// sources, lower-cased, all different.
pub open spec fn sidecars_so_far<EX, LS>(
    options: IngestOptions,
    mains: Seq<IngestOperation>,
    side: Seq<IngestOperation>,
    keys: Seq<Seq<char>>,
    probe: EX,
    ls: LS,
) -> bool where EX: Fn(&str) -> bool, LS: Fn(&str) -> Option<Vec<DirEntryInfo>> {
    &&& keys.len() == side.len()
    &&& forall|j: int| 0 <= j < side.len() ==> keys[j] == unicode_lowercase(#[trigger] side[j].source_path@)
    &&& forall|a: int, b: int| 0 <= a < b < keys.len() ==> #[trigger] keys[a] != #[trigger] keys[b]
    &&& forall|j: int|
        0 <= j < side.len() ==> #[trigger] sidecar_ok(
            options,
            mains,
            side[j],
            claims(mains + side.take(j)),
            probe,
            ls,
        )
}

/// A listed file is a companion of a clip with stem `cs`: its stem matches
/// ignoring ASCII case, its extension is a sidecar's, it is not itself a
/// clip that is planned, and it has a file name.
pub open spec fn qualifies(mains: Seq<IngestOperation>, cs: Seq<char>, p: Seq<char>) -> bool {
    &&& crate::paths::file_stem(p) matches Some(ss) && crate::text::eq_ignore_ascii_case(ss, cs)
    &&& is_sidecar_path(p)
    &&& forall|k: int|
        0 <= k < mains.len() && !is_skip(#[trigger] mains[k].action@) ==> mains[k].source_path@ != p
    &&& crate::paths::file_name(p) is Some
}

/// Some sidecar of `side` has source `p`, compared ignoring case.
pub open spec fn side_has(side: Seq<IngestOperation>, p: Seq<char>) -> bool {
    exists|j: int|
        0 <= j < side.len() && unicode_lowercase((#[trigger] side[j]).source_path@)
            == unicode_lowercase(p)
}

/// Every companion the listing of the clip's folder showed is planned.
pub open spec fn listing_covered(
    mains: Seq<IngestOperation>,
    cs: Seq<char>,
    v: Option<Vec<DirEntryInfo>>,
    side: Seq<IngestOperation>,
) -> bool {
    match v {
        None => true,
        Some(entries) => forall|k: int|
            0 <= k < entries@.len() && qualifies(mains, cs, (#[trigger] entries@[k]).path@)
                ==> side_has(side, entries@[k].path@),
    }
}

/// The companions of the clip at position `m` are all planned: whatever the
/// listing of its folder returned, every companion it showed is among the
/// sidecars.
pub open spec fn companions_planned<LS: Fn(&str) -> Option<Vec<DirEntryInfo>>>(
    mains: Seq<IngestOperation>,
    m: int,
    side: Seq<IngestOperation>,
    ls: LS,
) -> bool {
    (parent(mains[m].source_path@) is Some && crate::paths::file_stem(mains[m].source_path@) is Some)
        ==> exists|s: &str, v: Option<Vec<DirEntryInfo>>|
        s@ == parent(mains[m].source_path@)->0 && #[trigger] call_ensures(ls, (s,), v)
            && listing_covered(mains, crate::paths::file_stem(mains[m].source_path@)->0, v, side)
}

proof fn lemma_side_has_grows(side: Seq<IngestOperation>, side2: Seq<IngestOperation>, p: Seq<char>)
    requires
        side_has(side, p),
        side2.len() >= side.len(),
        side2.take(side.len() as int) == side,
    ensures
        side_has(side2, p),
{
    let j = choose|j: int|
        0 <= j < side.len() && unicode_lowercase((#[trigger] side[j]).source_path@)
            == unicode_lowercase(p);
    assert(side2[j] == side2.take(side.len() as int)[j]);
}

proof fn lemma_companions_grow<LS: Fn(&str) -> Option<Vec<DirEntryInfo>>>(
    mains: Seq<IngestOperation>,
    m: int,
    side: Seq<IngestOperation>,
    side2: Seq<IngestOperation>,
    ls: LS,
)
    requires
        companions_planned(mains, m, side, ls),
        side2.len() >= side.len(),
        side2.take(side.len() as int) == side,
    ensures
        companions_planned(mains, m, side2, ls),
{
    if parent(mains[m].source_path@) is Some && crate::paths::file_stem(mains[m].source_path@) is Some {
        let cs = crate::paths::file_stem(mains[m].source_path@)->0;
        let (s, v) = choose|s: &str, v: Option<Vec<DirEntryInfo>>|
            s@ == parent(mains[m].source_path@)->0 && #[trigger] call_ensures(ls, (s,), v)
                && listing_covered(mains, cs, v, side);
        match v {
            None => {},
            Some(entries) => {
                assert forall|k: int|
                    0 <= k < entries@.len() && qualifies(mains, cs, (#[trigger] entries@[k]).path@)
                    implies side_has(side2, entries@[k].path@) by {
                    lemma_side_has_grows(side, side2, entries@[k].path@);
                }
            },
        }
        assert(listing_covered(mains, cs, v, side2));
    }
}

/// `claims` of a sequence extended by one operation.
proof fn lemma_claims_push(ops: Seq<IngestOperation>, x: IngestOperation)
    ensures
        claims(ops.push(x)) == claims(ops).push(claim_key(x.dest_path@)),
{
    assert(ops.push(x).drop_last() =~= ops);
}

/// Looks for the companions of the clip at position `m` in the folder it
/// was read from, and plans each one not planned before.
fn sidecars_of_clip<EX, LS>(
    options: &IngestOptions,
    mains: &Vec<IngestOperation>,
    m: usize,
    side: &mut Vec<IngestOperation>,
    keys: &mut Vec<Vec<char>>,
    claimed: &mut ClaimedPaths,
    probe: &EX,
    ls: &LS,
)
    where
        EX: Fn(&str) -> bool,
        LS: Fn(&str) -> Option<Vec<DirEntryInfo>>,
    requires
        m < mains@.len(),
        !is_skip(mains@[m as int].action@),
        old(claimed)@ == claims(mains@ + old(side)@),
        sidecars_so_far(
            *options,
            mains@,
            old(side)@,
            old(keys)@.map_values(|k: Vec<char>| k@),
            *probe,
            *ls,
        ),
        forall|s: &str| call_requires(*probe, (s,)),
        forall|s: &str| call_requires(*ls, (s,)),
    ensures
        final(claimed)@ == claims(mains@ + final(side)@),
        sidecars_so_far(
            *options,
            mains@,
            final(side)@,
            final(keys)@.map_values(|k: Vec<char>| k@),
            *probe,
            *ls,
        ),
        final(side)@.len() >= old(side)@.len(),
        final(side)@.take(old(side)@.len() as int) == old(side)@,
        companions_planned(mains@, m as int, final(side)@, *ls),
{
    let clip = &mains[m];
    let src = chars_of(clip.source_path.as_str());
    let stem = match crate::paths::file_stem_of(&src) {
        Some(s) => s,
        None => {
            assert(side@.take(side@.len() as int) =~= side@);
            return ;
        },
    };
    let parent_dir = match parent_of(&src) {
        Some(p) => p,
        None => {
            assert(side@.take(side@.len() as int) =~= side@);
            return ;
        },
    };
    let dest_chars = chars_of(clip.dest_path.as_str());
    let dest_dir = match parent_of(&dest_chars) {
        Some(d) => d,
        None => chars_of(options.dest_root.as_str()),
    };
    assert(dest_dir@ == sidecar_dir(options.dest_root@, mains@[m as int]));
    let parent_s = string_from(&parent_dir);
    let ps = parent_s.as_str();
    let listing = ls(ps);
    let ghost listing_g = listing;
    assert(call_ensures(*ls, (ps,), listing_g));
    let entries = match listing {
        Some(v) => v,
        None => {
            assert(side@.take(side@.len() as int) =~= side@);
            assert(listing_covered(mains@, stem@, listing_g, side@));
            return ;
        },
    };
    assert(call_ensures(*ls, (ps,), Some(entries)));
    let ghost side0 = side@;
    let mut e: usize = 0;
    while e < entries.len()
        invariant
            e <= entries@.len(),
            m < mains@.len(),
            clip == &mains@[m as int],
            !is_skip(mains@[m as int].action@),
            crate::paths::file_stem(mains@[m as int].source_path@) == Some(stem@),
            parent(mains@[m as int].source_path@) == Some(ps@),
            call_ensures(*ls, (ps,), Some(entries)),
            dest_dir@ == sidecar_dir(options.dest_root@, mains@[m as int]),
            claimed@ == claims(mains@ + side@),
            sidecars_so_far(
                *options,
                mains@,
                side@,
                keys@.map_values(|k: Vec<char>| k@),
                *probe,
                *ls,
            ),
            side@.len() >= side0.len(),
            side@.take(side0.len() as int) == side0,
            forall|s: &str| call_requires(*probe, (s,)),
            forall|k: int|
                0 <= k < e && qualifies(mains@, stem@, (#[trigger] entries@[k]).path@) ==> side_has(
                    side@,
                    entries@[k].path@,
                ),
        decreases entries@.len() - e,
    {
        let ghost side_start = side@;
        let ep = entries[e].path.as_str();
        let cand = chars_of(ep);
        let matches_stem = match crate::paths::file_stem_of(&cand) {
            Some(s) => crate::text::eq_ignore_case_ascii(&s, &stem),
            None => false,
        };
        let sidecar = is_sidecar_file(&cand);
        let planned = is_planned_clip(mains, ep);
        let ghost here = entries@[e as int].path@;
        assert(here == cand@);
        if matches_stem && sidecar && !planned {
            let key = lowercase_chars(&cand);
            if !has_chars(keys, &key) {
                match crate::paths::file_name_of(&cand) {
                    Some(name) => {
                        let ghost side1 = side@;
                        let ghost keys1 = keys@.map_values(|k: Vec<char>| k@);
                        let ghost before = claimed@;
                        let dest = resolve_collision_chars(&dest_dir, &name, claimed, probe);
                        let op = IngestOperation {
                            source_path: entries[e].path.clone(),
                            dest_path: string_from(&dest),
                            action: String::from_str("copy"),
                            size: entries[e].size,
                            capture_date: crate::logging::clone_opt(&clip.capture_date),
                            device_name: clip.device_name.clone(),
                            hash: None,
                        };
                        proof {
                            reveal_strlit("copy");
                            assert(op.source_path@ == cand@);
                            assert(listed(*ls, ps@, op.source_path@, op.size)) by {
                                assert(entries@[e as int].path@ == op.source_path@);
                            }
                            assert(mains@ + side1 == (mains@ + side1.push(op)).take(
                                (mains@.len() + side1.len()) as int,
                            ));
                            assert((side1.push(op)).take(side1.len() as int) =~= side1);
                            assert(mains@ + side1.push(op).take(side1.len() as int) =~= mains@
                                + side1);
                            assert(sidecar_ok(
                                *options,
                                mains@,
                                op,
                                claims(mains@ + side1),
                                *probe,
                                *ls,
                            ));
                        }
                        side.push(op);
                        keys.push(key);
                        proof {
                            assert(mains@ + side@ =~= (mains@ + side1).push(op));
                            lemma_claims_push(mains@ + side1, op);
                            let kv = keys@.map_values(|k: Vec<char>| k@);
                            assert(kv =~= keys1.push(key@));
                            assert forall|j: int| 0 <= j < side@.len() implies #[trigger] sidecar_ok(
                                *options,
                                mains@,
                                side@[j],
                                claims(mains@ + side@.take(j)),
                                *probe,
                                *ls,
                            ) by {
                                if j < side1.len() {
                                    assert(side@.take(j) =~= side1.take(j));
                                } else {
                                    assert(side@.take(j) =~= side1);
                                }
                            }
                            assert(side@.take(side0.len() as int) =~= side1.take(
                                side0.len() as int,
                            ));
                            assert(side@.take(side_start.len() as int) =~= side_start);
                            assert(side@[side@.len() - 1] == op);
                            assert(side_has(side@, here));
                        }
                    },
                    None => {
                        assert(!qualifies(mains@, stem@, here));
                        assert(side@.take(side_start.len() as int) =~= side_start);
                    },
                }
            } else {
                proof {
                    let kv = keys@.map_values(|k: Vec<char>| k@);
                    let j = choose|j: int| 0 <= j < keys@.len() && (#[trigger] keys@[j])@ == key@;
                    assert(kv[j] == keys@[j]@);
                    assert(unicode_lowercase(side@[j].source_path@) == unicode_lowercase(here));
                    assert(side_has(side@, here));
                    assert(side@.take(side_start.len() as int) =~= side_start);
                }
            }
        } else {
            assert(!qualifies(mains@, stem@, here));
            assert(side@.take(side_start.len() as int) =~= side_start);
        }
        proof {
            assert forall|k: int|
                0 <= k < e + 1 && qualifies(mains@, stem@, (#[trigger] entries@[k]).path@)
                implies side_has(side@, entries@[k].path@) by {
                if k < e {
                    lemma_side_has_grows(side_start, side@, entries@[k].path@);
                }
            }
        }
        e = e + 1;
    }
    assert(listing_covered(mains@, stem@, Some(entries), side@));
}

/// The sidecars of every clip that is not skipped, in clip order.
fn plan_sidecars<EX, LS>(
    options: &IngestOptions,
    mains: &Vec<IngestOperation>,
    claimed: &mut ClaimedPaths,
    probe: &EX,
    ls: &LS,
) -> (side: Vec<IngestOperation>)
    where
        EX: Fn(&str) -> bool,
        LS: Fn(&str) -> Option<Vec<DirEntryInfo>>,
    requires
        old(claimed)@ == claims(mains@),
        forall|s: &str| call_requires(*probe, (s,)),
        forall|s: &str| call_requires(*ls, (s,)),
    ensures
        final(claimed)@ == claims(mains@ + side@),
        forall|j: int|
            0 <= j < side@.len() ==> #[trigger] sidecar_ok(
                *options,
                mains@,
                side@[j],
                claims(mains@ + side@.take(j)),
                *probe,
                *ls,
            ),
        forall|a: int, b: int|
            0 <= a < b < side@.len() ==> unicode_lowercase((#[trigger] side@[a]).source_path@)
                != unicode_lowercase((#[trigger] side@[b]).source_path@),
        forall|m: int|
            0 <= m < mains@.len() && !is_skip((#[trigger] mains@[m]).action@) ==> companions_planned(
                mains@,
                m,
                side@,
                *ls,
            ),
{
    let mut side: Vec<IngestOperation> = Vec::new();
    let mut keys: Vec<Vec<char>> = Vec::new();
    assert(mains@ + side@ =~= mains@);
    assert(keys@.map_values(|k: Vec<char>| k@) =~= Seq::<Seq<char>>::empty());
    let mut m: usize = 0;
    while m < mains.len()
        invariant
            m <= mains@.len(),
            claimed@ == claims(mains@ + side@),
            sidecars_so_far(
                *options,
                mains@,
                side@,
                keys@.map_values(|k: Vec<char>| k@),
                *probe,
                *ls,
            ),
            forall|s: &str| call_requires(*probe, (s,)),
            forall|s: &str| call_requires(*ls, (s,)),
            forall|j: int|
                0 <= j < m && !is_skip((#[trigger] mains@[j]).action@) ==> companions_planned(
                    mains@,
                    j,
                    side@,
                    *ls,
                ),
        decreases mains@.len() - m,
    {
        let ghost before = side@;
        if !is_skip_action(mains[m].action.as_str()) {
            sidecars_of_clip(options, mains, m, &mut side, &mut keys, claimed, probe, ls);
        } else {
            assert(side@.take(before.len() as int) =~= before);
        }
        proof {
            assert forall|j: int|
                0 <= j < m + 1 && !is_skip((#[trigger] mains@[j]).action@) implies companions_planned(
                mains@,
                j,
                side@,
                *ls,
            ) by {
                if j < m {
                    lemma_companions_grow(mains@, j, before, side@, *ls);
                }
            }
        }
        m = m + 1;
    }
    proof {
        let kv = keys@.map_values(|k: Vec<char>| k@);
        assert forall|a: int, b: int|
            0 <= a < b < side@.len() implies unicode_lowercase((#[trigger] side@[a]).source_path@)
            != unicode_lowercase((#[trigger] side@[b]).source_path@) by {
            assert(kv[a] == unicode_lowercase(side@[a].source_path@));
            assert(kv[b] == unicode_lowercase(side@[b].source_path@));
        }
    }
    side
}

/// The number of operations that are not skipped, and their bytes (held at
/// `u64::MAX` should they ever exceed it).
pub fn plan_totals(ops: &Vec<IngestOperation>) -> (r: (usize, u64))
    ensures
        r.0 == count_active(ops@),
        r.1 == saturate(active_bytes(ops@)),
{
    let mut count: usize = 0;
    let mut bytes: u64 = 0;
    let mut i: usize = 0;
    while i < ops.len()
        invariant
            i <= ops@.len(),
            count == count_active(ops@.take(i as int)),
            count <= i,
            bytes == saturate(active_bytes(ops@.take(i as int))),
        decreases ops@.len() - i,
    {
        let ghost prev = ops@.take(i as int);
        assert(ops@.take(i + 1).drop_last() =~= prev);
        assert(ops@.take(i + 1).last() == ops@[i as int]);
        if !is_skip_action(ops[i].action.as_str()) {
            count = count + 1;
            bytes = bytes.saturating_add(ops[i].size);
        }
        i = i + 1;
    }
    assert(ops@.take(i as int) =~= ops@);
    (count, bytes)
}

/// What a whole plan promises: one operation per scanned file, in order,
/// each as `main_op_ok` says; after them the sidecars, each as
/// `sidecar_ok` says, each planned once, and every companion that the
/// listing of a planned clip's folder showed among them; and totals over
/// the operations that are not skipped.
pub open spec fn plan_ok<FP, FH, EX, LS>(
    files: Seq<(ScannedFile, String)>,
    options: IngestOptions,
    known: spec_fn(Seq<char>) -> Option<EntryView>,
    plan: IngestPlan,
    fp: FP,
    full: FH,
    probe: EX,
    ls: LS,
) -> bool where
    FP: Fn(&str, u64) -> Result<String, String>,
    FH: Fn(&str) -> Result<String, String>,
    EX: Fn(&str) -> bool,
    LS: Fn(&str) -> Option<Vec<DirEntryInfo>>,
 {
    let ops = plan.operations@;
    let n = files.len() as int;
    &&& ops.len() >= n
    &&& forall|i: int| 0 <= i < n ==> #[trigger] main_op_ok(files, options, known, ops, i, fp, full, probe)
    &&& forall|j: int| n <= j < ops.len() ==> #[trigger] sidecar_op_ok(files, options, ops, j, probe, ls)
    &&& forall|a: int, b: int|
        n <= a < b < ops.len() ==> unicode_lowercase((#[trigger] ops[a]).source_path@)
            != unicode_lowercase((#[trigger] ops[b]).source_path@)
    &&& forall|m: int|
        0 <= m < n && !is_skip((#[trigger] ops[m]).action@) ==> companions_planned(
            ops.take(n),
            m,
            ops.skip(n),
            ls,
        )
    &&& plan.total_files == count_active(ops)
    &&& plan.total_size == saturate(active_bytes(ops))
    &&& plan.duplicate_count <= n
    &&& (!is_skip(options.operation@) ==> plan.duplicate_count == count_skipped(ops.take(n)))
}

/// Builds the plan for files already scanned, each paired with the label of
/// the source it came from.
///
/// The work that touches the disk is handed in: `fingerprint` samples a
/// file (head, tail and length), `full_hash` hashes it whole, `exists` says
/// whether a path is taken on disk, and `list_dir` lists a folder with the
/// size of each entry. `known` is the library's fingerprint index; it is
/// consulted only when duplicates are to be skipped.
///
/// Fails only when duplicates are to be skipped and a file cannot be
/// fingerprinted, with the fingerprint's error.
pub fn build_plan_from_scans<FP, FH, EX, LS>(
    files: &[(ScannedFile, String)],
    options: &IngestOptions,
    known: HashIndex,
    fingerprint: &FP,
    full_hash: &FH,
    exists: &EX,
    list_dir: &LS,
) -> (r: Result<IngestPlan, String>)
    where
        FP: Fn(&str, u64) -> Result<String, String>,
        FH: Fn(&str) -> Result<String, String>,
        EX: Fn(&str) -> bool,
        LS: Fn(&str) -> Option<Vec<DirEntryInfo>>,
    requires
        known.wf(),
        forall|s: &str, n: u64| call_requires(*fingerprint, (s, n)),
        forall|s: &str| call_requires(*full_hash, (s,)),
        forall|s: &str| call_requires(*exists, (s,)),
        forall|s: &str| call_requires(*list_dir, (s,)),
    ensures
        match r {
            Ok(plan) => plan_ok(
                files@,
                *options,
                known.getter(),
                plan,
                *fingerprint,
                *full_hash,
                *exists,
                *list_dir,
            ),
            Err(e) => options.skip_duplicates && exists|i: int|
                0 <= i < files@.len() && fingerprinted(
                    *fingerprint,
                    (#[trigger] files@[i]).0.path@,
                    files@[i].0.size,
                    Err(e),
                ),
        },
        !options.skip_duplicates ==> r is Ok,
{
    let ghost kg = known.getter();
    let (mains, dups, mut claimed) = match plan_files(
        files,
        options,
        known,
        fingerprint,
        full_hash,
        exists,
    ) {
        Ok(t) => t,
        Err(e) => {
            return Err(e);
        },
    };
    let side = plan_sidecars(options, &mains, &mut claimed, exists, list_dir);
    let ghost n = mains@.len() as int;
    let mut operations = mains;
    let ghost mains_v = operations@;
    let mut side_m = side;
    let ghost side_v = side_m@;
    operations.append(&mut side_m);
    let (total_files, total_size) = plan_totals(&operations);
    proof {
        let ops = operations@;
        assert(ops =~= mains_v + side_v);
        assert(ops.take(n) =~= mains_v);
        assert forall|i: int| 0 <= i < n implies #[trigger] main_op_ok(
            files@,
            *options,
            kg,
            ops,
            i,
            *fingerprint,
            *full_hash,
            *exists,
        ) by {
            lemma_main_ok_prefix(
                files@,
                *options,
                kg,
                mains_v,
                ops,
                i,
                *fingerprint,
                *full_hash,
                *exists,
            );
        }
        assert forall|j: int| n <= j < ops.len() implies #[trigger] sidecar_op_ok(
            files@,
            *options,
            ops,
            j,
            *exists,
            *list_dir,
        ) by {
            assert(ops[j] == side_v[j - n]);
            assert(ops.take(j) =~= mains_v + side_v.take(j - n));
            assert(sidecar_ok(
                *options,
                mains_v,
                side_v[j - n],
                claims(mains_v + side_v.take(j - n)),
                *exists,
                *list_dir,
            ));
        }
        assert forall|a: int, b: int|
            n <= a < b < ops.len() implies unicode_lowercase((#[trigger] ops[a]).source_path@)
            != unicode_lowercase((#[trigger] ops[b]).source_path@) by {
            assert(ops[a] == side_v[a - n]);
            assert(ops[b] == side_v[b - n]);
        }
        assert(ops.skip(n) =~= side_v);
        assert forall|m: int| 0 <= m < n && !is_skip((#[trigger] ops[m]).action@) implies companions_planned(
            ops.take(n),
            m,
            ops.skip(n),
            *list_dir,
        ) by {
            assert(ops[m] == mains_v[m]);
        }
    }
    Ok(
        IngestPlan {
            operations,
            total_files,
            total_size,
            duplicate_count: dups,
        },
    )
}

// ---------------------------------------------------------------------------
// What holds of every plan.
// ---------------------------------------------------------------------------

/// Every numbered name for `filename` in `dir` was found taken.
pub open spec fn all_names_taken<E: Fn(&str) -> bool>(
    claimed: Seq<Seq<char>>,
    probe: E,
    dir: Seq<char>,
    filename: Seq<char>,
) -> bool {
    forall|j: nat| j <= max_counter() ==> unavailable(claimed, probe, #[trigger] candidate(dir, filename, j))
}

/// The operation at position `j` had to fall back to a clock suffix: every
/// numbered name in its folder was taken when it was planned.
pub open spec fn placed_by_clock<EX: Fn(&str) -> bool>(
    files: Seq<(ScannedFile, String)>,
    options: IngestOptions,
    ops: Seq<IngestOperation>,
    j: int,
    probe: EX,
) -> bool {
    let before = claims(ops.take(j));
    if j < files.len() {
        all_names_taken(
            before,
            probe,
            planned_dir(options.dest_root@, files, j, valid_forced(options)),
            files[j].0.name@,
        )
    } else {
        exists|m: int|
            {
                &&& 0 <= m < files.len()
                &&& crate::paths::file_name(ops[j].source_path@) matches Some(name)
                    && all_names_taken(
                    before,
                    probe,
                    sidecar_dir(options.dest_root@, #[trigger] ops[m]),
                    name,
                )
            }
    }
}

/// The key claimed by each operation of a sequence, by position.
proof fn lemma_claims_index(s: Seq<IngestOperation>, k: int)
    requires
        0 <= k < s.len(),
    ensures
        claims(s).len() == s.len(),
        claims(s)[k] == claim_key(s[k].dest_path@),
    decreases s.len(),
{
    if k < s.len() - 1 {
        lemma_claims_index(s.drop_last(), k);
    } else {
        lemma_claims_len(s.drop_last());
    }
}

proof fn lemma_claims_len(s: Seq<IngestOperation>)
    ensures
        claims(s).len() == s.len(),
    decreases s.len(),
{
    if s.len() > 0 {
        lemma_claims_len(s.drop_last());
    }
}

/// Two operations of a plan never share a destination, compared ignoring
/// case as the common target filesystems do, unless the later one was
/// placed after all ten thousand numbered names in its folder were found
/// taken. Two cards holding the same camera file name therefore never
/// overwrite each other.
pub proof fn lemma_plan_never_shares_a_destination<FP, FH, EX, LS>(
    files: Seq<(ScannedFile, String)>,
    options: IngestOptions,
    known: spec_fn(Seq<char>) -> Option<EntryView>,
    plan: IngestPlan,
    fp: FP,
    full: FH,
    probe: EX,
    ls: LS,
    a: int,
    b: int,
) where
    FP: Fn(&str, u64) -> Result<String, String>,
    FH: Fn(&str) -> Result<String, String>,
    EX: Fn(&str) -> bool,
    LS: Fn(&str) -> Option<Vec<DirEntryInfo>>,

    requires
        plan_ok(files, options, known, plan, fp, full, probe, ls),
        0 <= a < b < plan.operations@.len(),
        !placed_by_clock(files, options, plan.operations@, b, probe),
    ensures
        claim_key(plan.operations@[a].dest_path@) != claim_key(plan.operations@[b].dest_path@),
{
    let ops = plan.operations@;
    let n = files.len() as int;
    let before = claims(ops.take(b));
    lemma_claims_index(ops.take(b), a);
    assert(ops.take(b)[a] == ops[a]);
    if b < n {
        assert(main_op_ok(files, options, known, ops, b, fp, full, probe));
        assert(!before.contains(claim_key(ops[b].dest_path@)));
    } else {
        assert(sidecar_op_ok(files, options, ops, b, probe, ls));
        let mains = ops.take(n);
        let m = choose|m: int|
            {
                &&& 0 <= m < mains.len()
                &&& !is_skip(#[trigger] mains[m].action@)
                &&& parent(mains[m].source_path@) matches Some(dir) && listed(
                    ls,
                    dir,
                    ops[b].source_path@,
                    ops[b].size,
                )
                &&& crate::paths::file_stem(mains[m].source_path@) matches Some(cs)
                    && crate::paths::file_stem(ops[b].source_path@) matches Some(ss)
                    && crate::text::eq_ignore_ascii_case(ss, cs)
                &&& is_sidecar_path(ops[b].source_path@)
                &&& forall|k: int|
                    0 <= k < mains.len() && !is_skip(#[trigger] mains[k].action@)
                        ==> mains[k].source_path@ != ops[b].source_path@
                &&& ops[b].action@ == "copy"@
                &&& ops[b].hash is None
                &&& ops[b].capture_date == mains[m].capture_date
                &&& ops[b].device_name == mains[m].device_name
                &&& crate::paths::file_name(ops[b].source_path@) matches Some(name) && resolved(
                    before,
                    probe,
                    sidecar_dir(options.dest_root@, mains[m]),
                    name,
                    ops[b].dest_path@,
                )
            };
        assert(mains[m] == ops[m]);
        assert(!before.contains(claim_key(ops[b].dest_path@)));
    }
}

/// The year and month folders a file is filed under are plain path
/// segments: four digits and two digits, or the names used for an
/// unreadable date.
proof fn lemma_year_month_plain(capture: Seq<char>, modified: Seq<char>)
    ensures
        is_plain_segment(folder_year_month(capture, modified).0),
        is_plain_segment(folder_year_month(capture, modified).1),
{
    let ym = folder_year_month(capture, modified);
    match year_month_spec(capture) {
        Some(p) => {
            lemma_year_month_spec_shape(capture);
            lemma_digits_plain(p.0);
            lemma_digits_plain(p.1);
        },
        None => match year_month_spec(modified) {
            Some(p) => {
                lemma_year_month_spec_shape(modified);
                lemma_digits_plain(p.0);
                lemma_digits_plain(p.1);
            },
            None => {
                reveal_strlit("UnknownDate");
                reveal_strlit("UnknownMonth");
                assert(ym.0.len() == 11);
                assert(ym.1.len() == 12);
                assert(forall|k: int| 0 <= k < ym.0.len() ==> #[trigger] ym.0[k] != '/');
                assert(forall|k: int| 0 <= k < ym.1.len() ==> #[trigger] ym.1[k] != '/');
            },
        },
    }
}

/// Every file of a plan is filed exactly three levels below the library
/// root, in plain folders (no separator, neither `.` nor `..`): its year,
/// its month and its device. No part of a file's metadata can move it
/// elsewhere.
pub proof fn lemma_planned_dir_is_under_root<FP, FH, EX, LS>(
    files: Seq<(ScannedFile, String)>,
    options: IngestOptions,
    known: spec_fn(Seq<char>) -> Option<EntryView>,
    plan: IngestPlan,
    fp: FP,
    full: FH,
    probe: EX,
    ls: LS,
    i: int,
) where
    FP: Fn(&str, u64) -> Result<String, String>,
    FH: Fn(&str) -> Result<String, String>,
    EX: Fn(&str) -> bool,
    LS: Fn(&str) -> Option<Vec<DirEntryInfo>>,

    requires
        plan_ok(files, options, known, plan, fp, full, probe, ls),
        0 <= i < files.len(),
    ensures
        ({
            let f = files[i].0;
            let ym = folder_year_month(planned_capture(f, valid_forced(options)), f.modified@);
            let device = plan.operations@[i].device_name@;
            &&& is_plain_segment(ym.0)
            &&& is_plain_segment(ym.1)
            &&& is_plain_segment(device)
            &&& planned_dir(options.dest_root@, files, i, valid_forced(options)) == join(
                join(join(options.dest_root@, ym.0), ym.1),
                device,
            )
        }),
{
    let f = files[i].0;
    assert(main_op_ok(files, options, known, plan.operations@, i, fp, full, probe));
    lemma_year_month_plain(planned_capture(f, valid_forced(options)), f.modified@);
}

/// A file that reports its own device name is filed under that name,
/// whatever its neighbours report; only a file whose own name is absent or
/// blank takes the name its folder adopted, and failing that the label of
/// the source it came from.
pub proof fn lemma_plan_files_keep_their_own_device<FP, FH, EX, LS>(
    files: Seq<(ScannedFile, String)>,
    options: IngestOptions,
    known: spec_fn(Seq<char>) -> Option<EntryView>,
    plan: IngestPlan,
    fp: FP,
    full: FH,
    probe: EX,
    ls: LS,
    i: int,
) where
    FP: Fn(&str, u64) -> Result<String, String>,
    FH: Fn(&str) -> Result<String, String>,
    EX: Fn(&str) -> bool,
    LS: Fn(&str) -> Option<Vec<DirEntryInfo>>,

    requires
        plan_ok(files, options, known, plan, fp, full, probe, ls),
        0 <= i < files.len(),
    ensures
        files[i].0.device_name matches Some(d) ==> (trim(d@).len() > 0
            ==> plan.operations@[i].device_name@ == sanitize_spec(d@)),
        (match files[i].0.device_name {
            Some(d) => trim(d@).len() == 0,
            None => true,
        }) ==> plan.operations@[i].device_name@ == sanitize_spec(
            match parent(files[i].0.path@) {
                Some(dir) => match best_device(files, dir) {
                    Some(b) => b,
                    None => files[i].1@,
                },
                None => files[i].1@,
            },
        ),
{
    assert(main_op_ok(files, options, known, plan.operations@, i, fp, full, probe));
}

/// A file is skipped as a duplicate only when its fingerprint is in the
/// index as it stood and the whole file was confirmed to hash the same as
/// what the index holds under it. A false match on the sampled fingerprint
/// alone never drops footage.
pub proof fn lemma_plan_skips_only_confirmed_duplicates<FP, FH, EX, LS>(
    files: Seq<(ScannedFile, String)>,
    options: IngestOptions,
    known: spec_fn(Seq<char>) -> Option<EntryView>,
    plan: IngestPlan,
    fp: FP,
    full: FH,
    probe: EX,
    ls: LS,
    i: int,
) where
    FP: Fn(&str, u64) -> Result<String, String>,
    FH: Fn(&str) -> Result<String, String>,
    EX: Fn(&str) -> bool,
    LS: Fn(&str) -> Option<Vec<DirEntryInfo>>,

    requires
        plan_ok(files, options, known, plan, fp, full, probe, ls),
        0 <= i < files.len(),
        !is_skip(options.operation@),
        is_skip(plan.operations@[i].action@),
    ensures
        options.skip_duplicates,
        plan.operations@[i].hash matches Some(h) && index_before(
            known,
            files,
            plan.operations@,
            i,
        )(h@) matches Some(e) && dup_confirmed(full, files[i].0.path@, e),
{
    assert(main_op_ok(files, options, known, plan.operations@, i, fp, full, probe));
}

proof fn lemma_active_plus_skipped(s: Seq<IngestOperation>)
    ensures
        count_active(s) + count_skipped(s) == s.len(),
    decreases s.len(),
{
    if s.len() > 0 {
        lemma_active_plus_skipped(s.drop_last());
    }
}

proof fn lemma_skipped_prefix(s: Seq<IngestOperation>, n: int)
    requires
        0 <= n <= s.len(),
        forall|j: int| n <= j < s.len() ==> !is_skip((#[trigger] s[j]).action@),
    ensures
        count_skipped(s) == count_skipped(s.take(n)),
    decreases s.len(),
{
    if s.len() > n {
        assert(s.drop_last().take(n) =~= s.take(n));
        lemma_skipped_prefix(s.drop_last(), n);
    } else {
        assert(s.take(n) =~= s);
    }
}

/// Every operation of a plan is either counted in `total_files` or is a
/// duplicate: nothing is counted twice and nothing is lost from the counts.
/// (When the chosen operation is itself "skip", every file is skipped and
/// only the first clause can be stated.)
pub proof fn lemma_plan_counts_every_operation_once<FP, FH, EX, LS>(
    files: Seq<(ScannedFile, String)>,
    options: IngestOptions,
    known: spec_fn(Seq<char>) -> Option<EntryView>,
    plan: IngestPlan,
    fp: FP,
    full: FH,
    probe: EX,
    ls: LS,
) where
    FP: Fn(&str, u64) -> Result<String, String>,
    FH: Fn(&str) -> Result<String, String>,
    EX: Fn(&str) -> bool,
    LS: Fn(&str) -> Option<Vec<DirEntryInfo>>,

    requires
        plan_ok(files, options, known, plan, fp, full, probe, ls),
    ensures
        plan.total_files + count_skipped(plan.operations@) == plan.operations@.len(),
        !is_skip(options.operation@) ==> plan.total_files + plan.duplicate_count
            == plan.operations@.len(),
{
    let ops = plan.operations@;
    let n = files.len() as int;
    lemma_active_plus_skipped(ops);
    assert forall|j: int| n <= j < ops.len() implies !is_skip((#[trigger] ops[j]).action@) by {
        assert(sidecar_op_ok(files, options, ops, j, probe, ls));
        reveal_strlit("copy");
        reveal_strlit("skip");
        assert(ops[j].action@ == "copy"@);
        assert("copy"@[0] != "skip"@[0]);
    }
    lemma_skipped_prefix(ops, n);
}

} // verus!
