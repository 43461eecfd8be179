//! File-system paths as text: the file name, stem, extension and parent of a
//! path, and joining a directory with a name.
//!
//! Paths use `/` as their separator. The rules follow the documented
//! behaviour of `std::path::Path` for such paths: trailing separators and
//! trailing `.` segments do not count, `..` has no file name, the extension is
//! what follows the last `.` of the file name unless that dot is its first
//! character, and joining with an absolute path replaces the base.
use vstd::prelude::*;
use crate::text::{
    chars_of, copy_chars, find_last, last_index_of, lemma_last_index_of, lemma_last_index_unique,
    push_all, slice_range, string_from,
};

verus! {

/// `p` without trailing separators and trailing `.` segments; a lone `/` is
/// kept.
pub open spec fn strip_tail(p: Seq<char>) -> Seq<char>
    decreases p.len(),
{
    if p.len() >= 2 && (p.last() == '/' || (p.last() == '.' && p[p.len() - 2] == '/')) {
        strip_tail(p.drop_last())
    } else {
        p
    }
}

/// The characters after the last separator.
pub open spec fn last_segment(p: Seq<char>) -> Seq<char> {
    p.skip(last_index_of(p, '/') + 1)
}

pub open spec fn dot() -> Seq<char> {
    seq!['.']
}

pub open spec fn dot_dot() -> Seq<char> {
    seq!['.', '.']
}

/// `Path::file_name`.
pub open spec fn file_name(p: Seq<char>) -> Option<Seq<char>> {
    let seg = last_segment(strip_tail(p));
    if seg.len() == 0 || seg == dot() || seg == dot_dot() {
        None
    } else {
        Some(seg)
    }
}

/// `Path::parent`.
pub open spec fn parent(p: Seq<char>) -> Option<Seq<char>> {
    let q = strip_tail(p);
    let seg = last_segment(q);
    if q.len() == 0 || seg.len() == 0 {
        None
    } else {
        Some(strip_tail(q.take(q.len() - seg.len())))
    }
}

/// A file name split at its last dot into stem and extension; a name whose
/// only dot is its first character has no extension.
pub open spec fn split_dot(name: Seq<char>) -> (Seq<char>, Option<Seq<char>>) {
    let k = last_index_of(name, '.');
    if k <= 0 {
        (name, None)
    } else {
        (name.take(k), Some(name.skip(k + 1)))
    }
}

/// `Path::file_stem`.
pub open spec fn file_stem(p: Seq<char>) -> Option<Seq<char>> {
    match file_name(p) {
        Some(n) => Some(split_dot(n).0),
        None => None,
    }
}

/// `Path::extension`.
pub open spec fn extension(p: Seq<char>) -> Option<Seq<char>> {
    match file_name(p) {
        Some(n) => split_dot(n).1,
        None => None,
    }
}

/// `Path::join`: an absolute `part` replaces the base, otherwise a separator
/// is inserted unless the base is empty or already ends with one.
pub open spec fn join(base: Seq<char>, part: Seq<char>) -> Seq<char> {
    if part.len() > 0 && part[0] == '/' {
        part
    } else if base.len() == 0 || base.last() == '/' {
        base + part
    } else {
        base + seq!['/'] + part
    }
}

/// A single path segment that names a child of the directory it is joined
/// to: non-empty, free of separators, and neither `.` nor `..`.
pub open spec fn is_plain_segment(s: Seq<char>) -> bool {
    &&& s.len() > 0
    &&& forall|i: int| 0 <= i < s.len() ==> #[trigger] s[i] != '/'
    &&& s != dot()
    &&& s != dot_dot()
}

// ---------------------------------------------------------------------------
// Lemmas.
// ---------------------------------------------------------------------------

pub proof fn lemma_strip_tail_is_prefix(p: Seq<char>)
    ensures
        strip_tail(p).len() <= p.len(),
        strip_tail(p) == p.take(strip_tail(p).len() as int),
        p.len() > 0 ==> strip_tail(p).len() > 0,
    decreases p.len(),
{
    if p.len() >= 2 && (p.last() == '/' || (p.last() == '.' && p[p.len() - 2] == '/')) {
        lemma_strip_tail_is_prefix(p.drop_last());
        let k = strip_tail(p).len() as int;
        assert(p.drop_last().take(k) == p.take(k));
    } else {
        assert(p.take(p.len() as int) == p);
    }
}

/// A path that ends in a dot and then `ext`, where `ext` holds neither `.`
/// nor `/`, has `ext` as its extension, or none at all when its whole file
/// name is that dot and `ext` (a hidden file).
pub proof fn lemma_extension_of_suffix(p: Seq<char>, ext: Seq<char>)
    requires
        ext.len() > 0,
        forall|i: int| 0 <= i < ext.len() ==> #[trigger] ext[i] != '.' && ext[i] != '/',
    ensures
        extension(p + dot() + ext) == Some(ext) || extension(p + dot() + ext) is None,
{
    let q = p + dot() + ext;
    let n = p.len() as int;
    assert(q[n] == '.');
    assert forall|j: int| 0 <= j < ext.len() implies q[n + 1 + j] == #[trigger] ext[j] by {}
    assert(q.last() == ext[ext.len() - 1]);
    assert(strip_tail(q) == q);
    let k = last_index_of(q, '/');
    lemma_last_index_of(q, '/');
    if k >= n {
        if k > n {
            assert(q[k] == ext[k - n - 1]);
        }
    }
    assert(k < n);
    let seg = q.skip(k + 1);
    assert(last_segment(q) == seg);
    let d = n - k - 1;
    assert(seg[d] == q[n]);
    assert forall|i: int| d < i < seg.len() implies seg[i] != '.' by {
        assert(seg[i] == q[k + 1 + i]);
        assert(q[k + 1 + i] == ext[i - d - 1]);
    }
    lemma_last_index_unique(seg, '.', d);
    assert(seg.len() >= 2);
    assert(seg[seg.len() - 1] == ext[ext.len() - 1]);
    assert(seg != dot());
    assert(seg != dot_dot());
    assert(file_name(q) == Some(seg));
    if d > 0 {
        assert forall|j: int| 0 <= j < ext.len() implies seg.skip(d + 1)[j] == ext[j] by {
            assert(seg.skip(d + 1)[j] == q[k + 1 + d + 1 + j]);
        }
        assert(seg.skip(d + 1) =~= ext);
    }
}

/// A path joined from a directory and a plain segment has that segment as
/// its file name and the directory, tidied, as its parent.
pub proof fn lemma_join_plain(dir: Seq<char>, seg: Seq<char>)
    requires
        is_plain_segment(seg),
        seg.last() != '.' || seg.len() >= 2,
    ensures
        strip_tail(join(dir, seg)) == join(dir, seg),
        file_name(join(dir, seg)) == Some(seg),
        parent(join(dir, seg)) == Some(strip_tail(
            if dir.len() == 0 || dir.last() == '/' {
                dir
            } else {
                dir + seq!['/']
            },
        )),
{
    let p = join(dir, seg);
    let pre = if dir.len() == 0 || dir.last() == '/' {
        dir
    } else {
        dir + seq!['/']
    };
    assert(p == pre + seg);
    assert(p.last() == seg.last());
    // The joined path does not end in a separator or a `/.` segment.
    if p.len() >= 2 && p.last() == '.' {
        if seg.len() >= 2 {
            assert(p[p.len() - 2] == seg[seg.len() - 2]);
        }
    }
    assert(p.last() != '/');
    assert(strip_tail(p) == p);
    // The last separator sits right before the segment.
    let k = pre.len() as int - 1;
    assert forall|i: int| k < i < p.len() implies p[i] != '/' by {
        assert(p[i] == seg[i - pre.len()]);
    }
    if k >= 0 {
        assert(pre.last() == '/');
        assert(p[k] == '/');
    }
    lemma_last_index_unique(p, '/', k);
    assert(last_segment(p) == seg);
    assert(p.take(p.len() - seg.len()) == pre);
}

// ---------------------------------------------------------------------------
// Executable versions.
// ---------------------------------------------------------------------------

/// Length of `strip_tail(p)` (it is a prefix of `p`).
pub fn strip_tail_len(p: &[char]) -> (k: usize)
    ensures
        k <= p@.len(),
        strip_tail(p@) == p@.take(k as int),
{
    let mut k = p.len();
    assert(p@.take(p@.len() as int) == p@);
    while k >= 2 && (p[k - 1] == '/' || (p[k - 1] == '.' && p[k - 2] == '/'))
        invariant
            k <= p@.len(),
            strip_tail(p@) == strip_tail(p@.take(k as int)),
        decreases k,
    {
        proof {
            let t = p@.take(k as int);
            assert(t.drop_last() == p@.take(k - 1));
            assert(t.last() == p@[k - 1]);
            assert(t[t.len() - 2] == p@[k - 2]);
        }
        k = k - 1;
    }
    proof {
        let t = p@.take(k as int);
        if k >= 2 {
            assert(t.last() == p@[k - 1]);
            assert(t[t.len() - 2] == p@[k - 2]);
        }
    }
    assert(p@.take(p@.len() as int) == p@);
    k
}

/// Start of the last segment of `p[..k]`.
fn segment_start(p: &[char], k: usize) -> (s: usize)
    requires
        k <= p@.len(),
    ensures
        s <= k,
        last_segment(p@.take(k as int)) == p@.subrange(s as int, k as int),
{
    let mut s = k;
    while s > 0 && p[s - 1] != '/'
        invariant
            s <= k <= p@.len(),
            forall|i: int| s <= i < k ==> p@[i] != '/',
        decreases s,
    {
        s = s - 1;
    }
    proof {
        let t = p@.take(k as int);
        assert forall|i: int| s - 1 < i < t.len() implies t[i] != '/' by {
            assert(t[i] == p@[i]);
        }
        if s > 0 {
            assert(t[s - 1] == p@[s - 1]);
        }
        lemma_last_index_unique(t, '/', s - 1);
        assert(t.skip(s as int) == p@.subrange(s as int, k as int));
    }
    s
}

fn is_dot_or_dot_dot(seg: &[char]) -> (r: bool)
    ensures
        r == (seg@ == dot() || seg@ == dot_dot()),
{
    if seg.len() == 1 {
        assert(seg@ == dot() <==> seg@[0] == '.') by {
            if seg@[0] == '.' {
                assert(seg@ =~= dot());
            }
        }
        seg[0] == '.'
    } else if seg.len() == 2 {
        assert(seg@ == dot_dot() <==> (seg@[0] == '.' && seg@[1] == '.')) by {
            if seg@[0] == '.' && seg@[1] == '.' {
                assert(seg@ =~= dot_dot());
            }
        }
        seg[0] == '.' && seg[1] == '.'
    } else {
        false
    }
}

/// `Path::file_name`.
pub fn file_name_of(p: &[char]) -> (r: Option<Vec<char>>)
    ensures
        match r {
            Some(v) => file_name(p@) == Some(v@),
            None => file_name(p@) is None,
        },
{
    let k = strip_tail_len(p);
    let s = segment_start(p, k);
    let seg = slice_range(p, s, k);
    if seg.len() == 0 || is_dot_or_dot_dot(&seg) {
        None
    } else {
        Some(seg)
    }
}

/// `Path::parent`.
pub fn parent_of(p: &[char]) -> (r: Option<Vec<char>>)
    ensures
        match r {
            Some(v) => parent(p@) == Some(v@),
            None => parent(p@) is None,
        },
{
    let k = strip_tail_len(p);
    let s = segment_start(p, k);
    if k == 0 || s == k {
        return None;
    }
    let rest = slice_range(p, 0, s);
    let k2 = strip_tail_len(&rest);
    let r = slice_range(&rest, 0, k2);
    proof {
        let q = p@.take(k as int);
        assert(q.take(q.len() - (k - s)) == rest@);
    }
    Some(r)
}

/// `split_dot` on a file name.
pub fn split_dot_of(name: &[char]) -> (r: (Vec<char>, Option<Vec<char>>))
    ensures
        r.0@ == split_dot(name@).0,
        match r.1 {
            Some(e) => split_dot(name@).1 == Some(e@),
            None => split_dot(name@).1 is None,
        },
{
    proof {
        lemma_last_index_of(name@, '.');
    }
    let n = name.len();
    match find_last(name, '.') {
        Some(k) => {
            if k == 0 {
                (copy_chars(name), None)
            } else {
                (slice_range(name, 0, k), Some(slice_range(name, k + 1, n)))
            }
        },
        None => (copy_chars(name), None),
    }
}

/// `Path::extension`.
pub fn extension_of_chars(p: &[char]) -> (r: Option<Vec<char>>)
    ensures
        match r {
            Some(v) => extension(p@) == Some(v@),
            None => extension(p@) is None,
        },
{
    match file_name_of(p) {
        Some(n) => split_dot_of(&n).1,
        None => None,
    }
}

/// `Path::file_stem`.
pub fn file_stem_of(p: &[char]) -> (r: Option<Vec<char>>)
    ensures
        match r {
            Some(v) => file_stem(p@) == Some(v@),
            None => file_stem(p@) is None,
        },
{
    match file_name_of(p) {
        Some(n) => Some(split_dot_of(&n).0),
        None => None,
    }
}

/// `Path::join`.
pub fn join_chars(base: &[char], part: &[char]) -> (r: Vec<char>)
    ensures
        r@ == join(base@, part@),
{
    if part.len() > 0 && part[0] == '/' {
        return copy_chars(part);
    }
    let mut r = copy_chars(base);
    if !(base.len() == 0 || base[base.len() - 1] == '/') {
        r.push('/');
    }
    push_all(&mut r, part);
    r
}

/// The path as text. Every `&str` is valid UTF-8, so this is `path` itself.
pub fn normalize_path(path: &str) -> (r: String)
    ensures
        r@ == path@,
{
    let cs = chars_of(path);
    string_from(&cs)
}

/// The file stem of `path`, or the empty string when it has none.
pub fn get_file_stem(path: &str) -> (r: String)
    ensures
        r@ == match file_stem(path@) {
            Some(s) => s,
            None => Seq::<char>::empty(),
        },
{
    let cs = chars_of(path);
    match file_stem_of(&cs) {
        Some(s) => string_from(&s),
        None => String::new(),
    }
}

/// The extension of `path` as written, or the empty string when it has none.
pub fn get_extension(path: &str) -> (r: String)
    ensures
        r@ == match extension(path@) {
            Some(s) => s,
            None => Seq::<char>::empty(),
        },
{
    let cs = chars_of(path);
    match extension_of_chars(&cs) {
        Some(s) => string_from(&s),
        None => String::new(),
    }
}

} // verus!
