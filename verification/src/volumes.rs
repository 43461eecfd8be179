//! Mounted volumes and free space, read from the text that `df -k` (macOS)
//! and `wmic logicaldisk` (Windows) print. Running those commands is the
//! caller's part.
use vstd::prelude::*;
use crate::paths::{file_name, file_name_of};
use crate::scan::starts_with;
use crate::text::{
    char_is_whitespace, chars_eq, chars_eq_str, chars_lt, chars_of, contains_chars, contains_text,
    is_whitespace, lemma_lex_total, lemma_lex_trans, lex_lt, lines, lines_of, parse_u64,
    parse_u64_spec, slice_range, split_words, string_from, trim_start, views, words,
};
use crate::types::MountedVolume;

verus! {

// ---------------------------------------------------------------------------
// Fields of a `df` line.
// ---------------------------------------------------------------------------

/// Index of the first white-space character, or the length when there is
/// none.
pub open spec fn first_ws(s: Seq<char>) -> int
    decreases s.len(),
{
    if s.len() == 0 {
        0
    } else if char_is_whitespace(s[0]) {
        0
    } else {
        1 + first_ws(s.drop_first())
    }
}

proof fn lemma_first_ws(s: Seq<char>)
    ensures
        0 <= first_ws(s) <= s.len(),
        forall|i: int| 0 <= i < first_ws(s) ==> !char_is_whitespace(#[trigger] s[i]),
        first_ws(s) < s.len() ==> char_is_whitespace(s[first_ws(s)]),
    decreases s.len(),
{
    if s.len() > 0 && !char_is_whitespace(s[0]) {
        lemma_first_ws(s.drop_first());
        assert forall|i: int| 0 <= i < first_ws(s) implies !char_is_whitespace(#[trigger] s[i]) by {
            if i > 0 {
                assert(s[i] == s.drop_first()[i - 1]);
            }
        }
    }
}

/// What is left of a line after its first `n` white-space separated fields,
/// `None` when it has fewer fields followed by white space.
pub open spec fn skip_fields(s: Seq<char>, n: nat) -> Option<Seq<char>>
    decreases n,
{
    if n == 0 {
        Some(s)
    } else {
        let t = trim_start(s);
        let e = first_ws(t);
        if e >= t.len() {
            None
        } else {
            skip_fields(t.skip(e), (n - 1) as nat)
        }
    }
}

/// The mount point of a `df -k` line: everything after the eighth field,
/// without the white space before it. It may itself contain spaces, as
/// `/Volumes/SD Card` does.
pub open spec fn mount_point_spec(line: Seq<char>) -> Option<Seq<char>> {
    match skip_fields(line, 8) {
        Some(rest) => {
            let m = trim_start(rest);
            if m.len() > 0 {
                Some(m)
            } else {
                None
            }
        },
        None => None,
    }
}

fn trim_start_chars(cs: &[char]) -> (r: Vec<char>)
    ensures
        r@ == trim_start(cs@),
{
    let n = cs.len();
    let mut a: usize = 0;
    assert(cs@.skip(0) =~= cs@);
    while a < n && is_whitespace(cs[a])
        invariant
            n == cs@.len(),
            a <= n,
            trim_start(cs@) == trim_start(cs@.skip(a as int)),
        decreases n - a,
    {
        assert(cs@.skip(a as int).drop_first() =~= cs@.skip(a + 1));
        a = a + 1;
    }
    assert(cs@.skip(0) =~= cs@);
    let r = slice_range(cs, a, n);
    assert(r@ =~= cs@.skip(a as int));
    r
}

fn first_ws_index(cs: &[char]) -> (r: usize)
    ensures
        r as int == first_ws(cs@),
{
    let mut i: usize = 0;
    assert(cs@.skip(0) =~= cs@);
    while i < cs.len() && !is_whitespace(cs[i])
        invariant
            i <= cs@.len(),
            first_ws(cs@) == i + first_ws(cs@.skip(i as int)),
        decreases cs@.len() - i,
    {
        assert(cs@.skip(i as int).drop_first() =~= cs@.skip(i + 1));
        i = i + 1;
    }
    i
}

/// Extract the mount point from a `df -k` line.
///
/// The mount point is the ninth field but may contain spaces: splitting the
/// line on white space and taking the ninth field truncates
/// `/Volumes/SD Card` to `/Volumes/SD`, which then scans as an empty source.
pub fn mount_point_from_df_line(line: &str) -> (r: Option<String>)
    ensures
        opt_view(r) == mount_point_spec(line@),
{
    let mut rest = chars_of(line);
    let mut k: usize = 0;
    while k < 8
        invariant
            k <= 8,
            skip_fields(line@, 8) == skip_fields(rest@, (8 - k) as nat),
        decreases 8 - k,
    {
        let t = trim_start_chars(&rest);
        let e = first_ws_index(&t);
        if e >= t.len() {
            return None;
        }
        rest = slice_range(&t, e, t.len());
        assert(rest@ =~= t@.skip(e as int));
        k = k + 1;
    }
    let m = trim_start_chars(&rest);
    if m.len() > 0 {
        Some(string_from(&m))
    } else {
        None
    }
}

/// A volume as plain values: path, name, whether removable, total and free
/// bytes.
pub type VolumeView = (Seq<char>, Seq<char>, bool, u64, u64);

pub open spec fn volume_view(v: MountedVolume) -> VolumeView {
    (v.path@, v.name@, v.is_removable, v.total_space, v.free_space)
}

pub open spec fn opt_view(o: Option<String>) -> Option<Seq<char>> {
    match o {
        Some(s) => Some(s@),
        None => None,
    }
}

// ---------------------------------------------------------------------------
// Volumes on macOS.
// ---------------------------------------------------------------------------

/// A size in KiB as bytes, held at `u64::MAX` should it not fit.
pub open spec fn kib_to_bytes(k: u64) -> u64 {
    if k * 1024 > u64::MAX {
        u64::MAX
    } else {
        (k * 1024) as u64
    }
}

/// A number field of `df` or `wmic`, 0 when it does not parse.
pub open spec fn number_or_zero(s: Seq<char>) -> u64 {
    match parse_u64_spec(s) {
        Some(n) => n,
        None => 0,
    }
}

/// The volume a `df -k` line describes, when it is one the user can ingest
/// from: a mount under `/Volumes/` or the root, with at least nine fields,
/// not the system volume (`Macintosh HD…`). Its name is the mount point's
/// last component (`Root` for `/`), its sizes are the KiB fields two and
/// four in bytes.
#[verifier::opaque]
pub open spec fn df_volume(line: Seq<char>) -> Option<VolumeView> {
    let parts = words(line);
    if parts.len() < 9 {
        None
    } else {
        match mount_point_spec(line) {
            None => None,
            Some(mp) => {
                let vols = "/Volumes/"@;
                if !(starts_with(mp, vols) || mp == "/"@) {
                    None
                } else {
                    let name = match file_name(mp) {
                        Some(n) => n,
                        None => "Root"@,
                    };
                    if starts_with(name, "Macintosh HD"@) || name.len() == 0 {
                        None
                    } else {
                        Some(
                            (
                                mp,
                                name,
                                starts_with(mp, vols),
                                kib_to_bytes(number_or_zero(parts[1])),
                                kib_to_bytes(number_or_zero(parts[3])),
                            ),
                        )
                    }
                }
            },
        }
    }
}

/// Two volumes hold the same values.
pub open spec fn same_volume(a: MountedVolume, b: MountedVolume) -> bool {
    volume_view(a) == volume_view(b)
}

/// The volume `df_volume` describes for a line is `v`.
pub open spec fn is_df_volume_of(line: Seq<char>, v: MountedVolume) -> bool {
    df_volume(line) == Some(volume_view(v))
}

fn kib_bytes(field: &[char]) -> (r: u64)
    ensures
        r == kib_to_bytes(number_or_zero(field@)),
{
    let n = match parse_u64(field) {
        Some(n) => n,
        None => 0,
    };
    match n.checked_mul(1024) {
        Some(b) => b,
        None => u64::MAX,
    }
}

/// The volume a `df -k` line describes, if it is one to offer.
pub fn volume_from_df_line(line: &[char]) -> (r: Option<MountedVolume>)
    ensures
        match r {
            Some(v) => is_df_volume_of(line@, v),
            None => df_volume(line@) is None,
        },
{
    proof {
        reveal(df_volume);
    }
    let parts = split_words(line);
    if parts.len() < 9 {
        return None;
    }
    let ls = string_from(line);
    let mp = match mount_point_from_df_line(ls.as_str()) {
        Some(m) => chars_of(m.as_str()),
        None => {
            return None;
        },
    };
    proof {
        reveal_strlit("/Volumes/");
        reveal_strlit("/");
        reveal_strlit("Root");
        reveal_strlit("Macintosh HD");
    }
    let removable = starts_with_chars(&mp, "/Volumes/");
    if !(removable || chars_eq_str(&mp, "/")) {
        return None;
    }
    let name = match file_name_of(&mp) {
        Some(n) => n,
        None => chars_of("Root"),
    };
    if starts_with_chars(&name, "Macintosh HD") || name.len() == 0 {
        return None;
    }
    assert(views(parts@)[1] == parts@[1]@);
    assert(views(parts@)[3] == parts@[3]@);
    let total = kib_bytes(&parts[1]);
    let free = kib_bytes(&parts[3]);
    Some(
        MountedVolume {
            path: string_from(&mp),
            name: string_from(&name),
            is_removable: removable,
            total_space: total,
            free_space: free,
        },
    )
}

fn starts_with_chars(s: &[char], pre: &str) -> (r: bool)
    ensures
        r == starts_with(s@, pre@),
{
    let p = chars_of(pre);
    if p.len() > s.len() {
        return false;
    }
    let head = slice_range(s, 0, p.len());
    assert(head@ == s@.take(p@.len() as int));
    chars_eq(&head, &p)
}

/// Volumes are listed by path, each path once, keeping the first volume
/// found with it.
pub open spec fn sorted_unique(vs: Seq<MountedVolume>) -> bool {
    forall|a: int, b: int| 0 <= a < b < vs.len() ==> lex_lt((#[trigger] vs[a]).path@, (#[trigger] vs[b]).path@)
}

/// `v` holds the values of the first candidate with its path.
#[verifier::opaque]
pub open spec fn first_of_path(cs: Seq<MountedVolume>, v: MountedVolume) -> bool {
    exists|i: int|
        0 <= i < cs.len() && same_volume(#[trigger] cs[i], v) && forall|j: int|
            0 <= j < i ==> (#[trigger] cs[j]).path@ != v.path@
}

/// `r` lists the candidates `cs` by path, each path once, with the first
/// candidate found for each path.
pub open spec fn listed_once_by_path(cs: Seq<MountedVolume>, r: Seq<MountedVolume>) -> bool {
    &&& sorted_unique(r)
    &&& forall|k: int| 0 <= k < r.len() ==> first_of_path(cs, #[trigger] r[k])
    &&& forall|i: int| 0 <= i < cs.len() ==> path_listed(r, (#[trigger] cs[i]).path@)
}

/// Some volume of `r` has path `p`.
#[verifier::opaque]
pub open spec fn path_listed(r: Seq<MountedVolume>, p: Seq<char>) -> bool {
    exists|k: int| 0 <= k < r.len() && (#[trigger] r[k]).path@ == p
}

fn copy_volume(v: &MountedVolume) -> (r: MountedVolume)
    ensures
        r == *v,
{
    MountedVolume {
        path: v.path.clone(),
        name: v.name.clone(),
        is_removable: v.is_removable,
        total_space: v.total_space,
        free_space: v.free_space,
    }
}

/// Adding a candidate whose path is already listed changes nothing.
proof fn lemma_listed_keep(pre: Seq<MountedVolume>, x: MountedVolume, out: Seq<MountedVolume>, p: int)
    requires
        listed_once_by_path(pre, out),
        0 <= p < out.len(),
        out[p].path@ == x.path@,
    ensures
        listed_once_by_path(pre.push(x), out),
{
    let next = pre.push(x);
    assert forall|k: int| 0 <= k < out.len() implies first_of_path(next, #[trigger] out[k]) by {
        assert(first_of_path(pre, out[k]));
        reveal(first_of_path);
        let t = choose|t: int|
            0 <= t < pre.len() && same_volume(#[trigger] pre[t], out[k]) && forall|j: int|
                0 <= j < t ==> (#[trigger] pre[j]).path@ != out[k].path@;
        assert(next[t] == pre[t]);
        assert forall|j: int| 0 <= j < t implies (#[trigger] next[j]).path@ != out[k].path@ by {
            assert(next[j] == pre[j]);
        }
    }
    assert forall|t: int| 0 <= t < next.len() implies path_listed(out, (#[trigger] next[t]).path@) by {
        if t < pre.len() {
            assert(next[t] == pre[t]);
            assert(path_listed(out, pre[t].path@));
        } else {
            reveal(path_listed);
            assert(out[p].path@ == next[t].path@);
        }
    }
}

/// No listed path equals `x`'s when `p` is where `x`'s path would go and the
/// path there differs.
proof fn lemma_listed_absent(pre: Seq<MountedVolume>, x: MountedVolume, out: Seq<MountedVolume>, p: int)
    requires
        listed_once_by_path(pre, out),
        0 <= p <= out.len(),
        forall|a: int| 0 <= a < p ==> lex_lt((#[trigger] out[a]).path@, x.path@),
        p < out.len() ==> out[p].path@ != x.path@ && !lex_lt(out[p].path@, x.path@),
    ensures
        p < out.len() ==> lex_lt(x.path@, out[p].path@),
        forall|j: int| 0 <= j < pre.len() ==> (#[trigger] pre[j]).path@ != x.path@,
{
    if p < out.len() {
        lemma_lex_total(out[p].path@, x.path@);
    }
    assert(sorted_unique(out));
    assert forall|k: int| 0 <= k < out.len() implies (#[trigger] out[k]).path@ != x.path@ by {
        if k < p {
            lemma_lex_total(x.path@, x.path@);
        } else if k > p {
            if out[k].path@ == x.path@ {
                assert(lex_lt(out[p].path@, out[k].path@));
                lemma_lex_trans(x.path@, out[p].path@, out[k].path@);
                lemma_lex_total(x.path@, x.path@);
            }
        }
    }
    assert forall|j: int| 0 <= j < pre.len() implies (#[trigger] pre[j]).path@ != x.path@ by {
        assert(path_listed(out, pre[j].path@));
        reveal(path_listed);
        let k = choose|k: int| 0 <= k < out.len() && (#[trigger] out[k]).path@ == pre[j].path@;
    }
}

proof fn lemma_insert_sorted(out: Seq<MountedVolume>, x: MountedVolume, p: int)
    requires
        sorted_unique(out),
        0 <= p <= out.len(),
        forall|a: int| 0 <= a < p ==> lex_lt((#[trigger] out[a]).path@, x.path@),
        p < out.len() ==> lex_lt(x.path@, out[p].path@),
    ensures
        sorted_unique(out.insert(p, x)),
{
    let o = out.insert(p, x);
    assert forall|a: int, b: int| 0 <= a < b < o.len() implies lex_lt(
        (#[trigger] o[a]).path@,
        (#[trigger] o[b]).path@,
    ) by {
        if b < p {
            assert(o[a] == out[a] && o[b] == out[b]);
        } else if b == p {
            assert(o[a] == out[a]);
        } else if a == p {
            assert(o[b] == out[b - 1]);
            if b - 1 > p {
                assert(lex_lt(out[p].path@, out[b - 1].path@));
                lemma_lex_trans(x.path@, out[p].path@, out[b - 1].path@);
            }
        } else if a < p {
            assert(o[a] == out[a] && o[b] == out[b - 1]);
            lemma_lex_trans(out[a].path@, x.path@, out[p].path@);
            if b - 1 > p {
                assert(lex_lt(out[p].path@, out[b - 1].path@));
                lemma_lex_trans(out[a].path@, out[p].path@, out[b - 1].path@);
            }
        } else {
            assert(o[a] == out[a - 1] && o[b] == out[b - 1]);
        }
    }
}

/// Inserting a new path at its place keeps the listing sorted and exact.
proof fn lemma_listed_insert(pre: Seq<MountedVolume>, x: MountedVolume, out: Seq<MountedVolume>, p: int)
    requires
        listed_once_by_path(pre, out),
        0 <= p <= out.len(),
        forall|a: int| 0 <= a < p ==> lex_lt((#[trigger] out[a]).path@, x.path@),
        p < out.len() ==> lex_lt(x.path@, out[p].path@),
        forall|j: int| 0 <= j < pre.len() ==> (#[trigger] pre[j]).path@ != x.path@,
    ensures
        listed_once_by_path(pre.push(x), out.insert(p, x)),
{
    let next = pre.push(x);
    let o = out.insert(p, x);
    lemma_insert_sorted(out, x, p);
    assert forall|k: int| 0 <= k < o.len() implies first_of_path(next, #[trigger] o[k]) by {
        reveal(first_of_path);
        if k == p {
            assert(same_volume(next[pre.len() as int], o[k]));
            assert forall|j: int| 0 <= j < pre.len() implies (#[trigger] next[j]).path@ != o[k].path@ by {
                assert(next[j] == pre[j]);
            }
        } else {
            let kk = if k < p {
                k
            } else {
                k - 1
            };
            assert(o[k] == out[kk]);
            assert(first_of_path(pre, out[kk]));
            let t = choose|t: int|
                0 <= t < pre.len() && same_volume(#[trigger] pre[t], out[kk]) && forall|j: int|
                    0 <= j < t ==> (#[trigger] pre[j]).path@ != out[kk].path@;
            assert(next[t] == pre[t]);
            assert forall|j: int| 0 <= j < t implies (#[trigger] next[j]).path@ != o[k].path@ by {
                assert(next[j] == pre[j]);
            }
        }
    }
    assert forall|t: int| 0 <= t < next.len() implies path_listed(o, (#[trigger] next[t]).path@) by {
        reveal(path_listed);
        if t < pre.len() {
            assert(next[t] == pre[t]);
            assert(path_listed(out, pre[t].path@));
            let k = choose|k: int| 0 <= k < out.len() && (#[trigger] out[k]).path@ == pre[t].path@;
            if k < p {
                assert(o[k] == out[k]);
            } else {
                assert(o[k + 1] == out[k]);
            }
        } else {
            assert(o[p] == x);
        }
    }
}

/// Sorts volumes by path and keeps the first of each path.
pub fn dedup_by_path(cands: &Vec<MountedVolume>) -> (r: Vec<MountedVolume>)
    ensures
        listed_once_by_path(cands@, r@),
{
    let mut out: Vec<MountedVolume> = Vec::new();
    let mut i: usize = 0;
    while i < cands.len()
        invariant
            i <= cands@.len(),
            listed_once_by_path(cands@.take(i as int), out@),
        decreases cands@.len() - i,
    {
        let ghost pre = cands@.take(i as int);
        proof {
            assert(cands@.take(i + 1) =~= pre.push(cands@[i as int]));
        }
        let vp = chars_of(cands[i].path.as_str());
        let mut p: usize = 0;
        while p < out.len() && chars_lt(&chars_of(out[p].path.as_str()), &vp)
            invariant
                p <= out@.len(),
                forall|a: int| 0 <= a < p ==> lex_lt((#[trigger] out@[a]).path@, vp@),
            decreases out@.len() - p,
        {
            p = p + 1;
        }
        let present = p < out.len() && chars_eq(&chars_of(out[p].path.as_str()), &vp);
        if present {
            proof {
                lemma_listed_keep(pre, cands@[i as int], out@, p as int);
            }
        } else {
            let v = copy_volume(&cands[i]);
            proof {
                lemma_listed_absent(pre, v, out@, p as int);
                lemma_listed_insert(pre, v, out@, p as int);
            }
            out.insert(p, v);
        }
        i = i + 1;
    }
    assert(cands@.take(cands@.len() as int) =~= cands@);
    out
}

/// `cs` are the volumes `df_volume` finds in the lines of `text` after the
/// first (a header), in order: `idx` gives the line each came from.
pub open spec fn df_lines_give(text: Seq<char>, cs: Seq<MountedVolume>, idx: Seq<int>) -> bool {
    let ls = lines(text);
    &&& idx.len() == cs.len()
    &&& forall|k: int| 0 <= k < idx.len() ==> 1 <= #[trigger] idx[k] < ls.len()
    &&& forall|a: int, b: int| 0 <= a < b < idx.len() ==> #[trigger] idx[a] < #[trigger] idx[b]
    &&& forall|k: int| 0 <= k < cs.len() ==> is_df_volume_of(ls[idx[k]], #[trigger] cs[k])
    &&& forall|l: int|
        1 <= l < ls.len() && df_volume(#[trigger] ls[l]) is Some ==> exists|k: int|
            0 <= k < idx.len() && #[trigger] idx[k] == l
}

pub open spec fn df_candidates_ok(text: Seq<char>, cs: Seq<MountedVolume>) -> bool {
    exists|idx: Seq<int>| #[trigger] df_lines_give(text, cs, idx)
}

/// The volumes to offer from the output of `df -k`: every mount under
/// `/Volumes/` and the root, except the system volume, listed by path with
/// each path once.
pub fn volumes_from_df(output: &str) -> (r: Vec<MountedVolume>)
    ensures
        exists|cs: Seq<MountedVolume>| df_candidates_ok(output@, cs) && listed_once_by_path(cs, r@),
{
    let text = chars_of(output);
    let ls = lines_of(&text);
    let ghost lv = views(ls@);
    let mut cands: Vec<MountedVolume> = Vec::new();
    let ghost mut idx: Seq<int> = Seq::empty();
    let mut l: usize = 1;
    while l < ls.len()
        invariant
            1 <= l,
            lv == views(ls@),
            lv == lines(output@),
            idx.len() == cands@.len(),
            forall|k: int| 0 <= k < idx.len() ==> 1 <= #[trigger] idx[k] < l,
            forall|k: int| 0 <= k < idx.len() ==> #[trigger] idx[k] < lv.len(),
            forall|a: int, b: int| 0 <= a < b < idx.len() ==> #[trigger] idx[a] < #[trigger] idx[b],
            forall|k: int| 0 <= k < cands@.len() ==> is_df_volume_of(lv[idx[k]], #[trigger] cands@[k]),
            forall|j: int|
                1 <= j < l && j < lv.len() && df_volume(lv[j]) is Some ==> exists|k: int|
                    0 <= k < idx.len() && #[trigger] idx[k] == j,
        decreases ls@.len() - l,
    {
        assert(lv[l as int] == ls@[l as int]@);
        match volume_from_df_line(&ls[l]) {
            Some(v) => {
                cands.push(v);
                proof {
                    let old_idx = idx;
                    idx = idx.push(l as int);
                    assert(idx[idx.len() - 1] == l);
                    assert forall|j: int|
                        1 <= j < l && j < lv.len() && df_volume(lv[j]) is Some implies exists|k: int|
                            0 <= k < idx.len() && #[trigger] idx[k] == j by {
                        let k = choose|k: int| 0 <= k < old_idx.len() && #[trigger] old_idx[k] == j;
                        assert(idx[k] == old_idx[k]);
                    }
                }
            },
            None => {},
        }
        l = l + 1;
    }
    let r = dedup_by_path(&cands);
    assert(df_lines_give(output@, cands@, idx));
    r
}

// ---------------------------------------------------------------------------
// Volumes on Windows, and free space.
// ---------------------------------------------------------------------------

/// The drive a `wmic logicaldisk get DeviceID,Size,FreeSpace,VolumeName`
/// line describes: at least three fields, the first a device id with a
/// colon; the second field is read as the free space and the third as the
/// size, both in bytes (0 when they do not parse); the name is the fourth
/// field, or the device id.
#[verifier::opaque]
pub open spec fn wmic_volume(line: Seq<char>) -> Option<VolumeView> {
    let parts = words(line);
    if parts.len() < 3 || !contains_text(parts[0], seq![':']) {
        None
    } else {
        Some(
            (
                parts[0],
                if parts.len() > 3 {
                    parts[3]
                } else {
                    parts[0]
                },
                true,
                number_or_zero(parts[2]),
                number_or_zero(parts[1]),
            ),
        )
    }
}

pub fn volume_from_wmic_line(line: &[char]) -> (r: Option<MountedVolume>)
    ensures
        match r {
            Some(v) => wmic_volume(line@) == Some(volume_view(v)),
            None => wmic_volume(line@) is None,
        },
{
    proof {
        reveal(wmic_volume);
    }
    let parts = split_words(line);
    if parts.len() < 3 {
        return None;
    }
    let colon = vec![':'];
    assert(colon@ =~= seq![':']);
    assert(views(parts@)[0] == parts@[0]@);
    if !contains_chars(&parts[0], colon.as_slice()) {
        return None;
    }
    assert(views(parts@)[1] == parts@[1]@);
    assert(views(parts@)[2] == parts@[2]@);
    let free = match parse_u64(&parts[1]) {
        Some(n) => n,
        None => 0,
    };
    let total = match parse_u64(&parts[2]) {
        Some(n) => n,
        None => 0,
    };
    let name = if parts.len() > 3 {
        assert(views(parts@)[3] == parts@[3]@);
        string_from(&parts[3])
    } else {
        string_from(&parts[0])
    };
    Some(
        MountedVolume {
            path: string_from(&parts[0]),
            name,
            is_removable: true,
            total_space: total,
            free_space: free,
        },
    )
}

/// `vs` are the drives `wmic_volume` finds in the lines of `text` after the
/// first (a header), in order: `idx` gives the line each came from.
pub open spec fn wmic_lines_give(text: Seq<char>, vs: Seq<MountedVolume>, idx: Seq<int>) -> bool {
    let ls = lines(text);
    &&& idx.len() == vs.len()
    &&& forall|k: int| 0 <= k < idx.len() ==> 1 <= #[trigger] idx[k] < ls.len()
    &&& forall|a: int, b: int| 0 <= a < b < idx.len() ==> #[trigger] idx[a] < #[trigger] idx[b]
    &&& forall|k: int|
        0 <= k < vs.len() ==> wmic_volume(ls[idx[k]]) == Some(volume_view(#[trigger] vs[k]))
    &&& forall|l: int|
        1 <= l < ls.len() && wmic_volume(#[trigger] ls[l]) is Some ==> exists|k: int|
            0 <= k < idx.len() && #[trigger] idx[k] == l
}

/// The drives `wmic` reports, in its order.
pub fn volumes_from_wmic(output: &str) -> (r: Vec<MountedVolume>)
    ensures
        exists|idx: Seq<int>| #[trigger] wmic_lines_give(output@, r@, idx),
{
    let text = chars_of(output);
    let ls = lines_of(&text);
    let ghost lv = views(ls@);
    let mut out: Vec<MountedVolume> = Vec::new();
    let ghost mut idx: Seq<int> = Seq::empty();
    let mut l: usize = 1;
    while l < ls.len()
        invariant
            1 <= l,
            lv == views(ls@),
            lv == lines(output@),
            idx.len() == out@.len(),
            forall|k: int| 0 <= k < idx.len() ==> 1 <= #[trigger] idx[k] < l,
            forall|k: int| 0 <= k < idx.len() ==> #[trigger] idx[k] < lv.len(),
            forall|a: int, b: int| 0 <= a < b < idx.len() ==> #[trigger] idx[a] < #[trigger] idx[b],
            forall|k: int|
                0 <= k < out@.len() ==> wmic_volume(lv[idx[k]]) == Some(volume_view(#[trigger] out@[k])),
            forall|j: int|
                1 <= j < l && j < lv.len() && wmic_volume(lv[j]) is Some ==> exists|k: int|
                    0 <= k < idx.len() && #[trigger] idx[k] == j,
        decreases ls@.len() - l,
    {
        assert(lv[l as int] == ls@[l as int]@);
        match volume_from_wmic_line(&ls[l]) {
            Some(v) => {
                out.push(v);
                proof {
                    let old_idx = idx;
                    idx = idx.push(l as int);
                    assert(idx[idx.len() - 1] == l);
                    assert forall|j: int|
                        1 <= j < l && j < lv.len() && wmic_volume(lv[j]) is Some implies exists|k: int|
                            0 <= k < idx.len() && #[trigger] idx[k] == j by {
                        let k = choose|k: int| 0 <= k < old_idx.len() && #[trigger] old_idx[k] == j;
                        assert(idx[k] == old_idx[k]);
                    }
                }
            },
            None => {},
        }
        l = l + 1;
    }
    assert(wmic_lines_give(output@, out@, idx));
    out
}

/// The free space `df -k <path>` reports: the fourth field of its second
/// line, in KiB, as bytes; `None` when there is no such field or it does not
/// parse, or when the byte count does not fit.
pub open spec fn df_free_space(text: Seq<char>) -> Option<u64> {
    let ls = lines(text);
    if ls.len() < 2 {
        None
    } else {
        let parts = words(ls[1]);
        if parts.len() < 4 {
            None
        } else {
            match parse_u64_spec(parts[3]) {
                Some(k) => if k * 1024 <= u64::MAX {
                    Some((k * 1024) as u64)
                } else {
                    None
                },
                None => None,
            }
        }
    }
}

pub fn free_space_from_df(output: &str) -> (r: Option<u64>)
    ensures
        r == df_free_space(output@),
{
    let text = chars_of(output);
    let ls = lines_of(&text);
    if ls.len() < 2 {
        return None;
    }
    assert(views(ls@)[1] == ls@[1]@);
    let parts = split_words(&ls[1]);
    if parts.len() < 4 {
        return None;
    }
    assert(views(parts@)[3] == parts@[3]@);
    match parse_u64(&parts[3]) {
        Some(k) => k.checked_mul(1024),
        None => None,
    }
}

} // verus!
